use dns::packet::Packet;
use dns::proto::decoder::Decoder;

#[test]
fn name_returns_on_plain_and_compressed_names() {
    let buf = b"\x03com\x00\x03www\xc0\x00";
    let mut d = Decoder::new(buf);
    assert!(d.name_returns());
    d.seek(5).unwrap();
    assert!(d.name_returns());
    // Errors are returned, so reading returns.
    let d = Decoder::new(&[0x40]);
    assert!(d.name_returns());
    let d = Decoder::new(&[]);
    assert!(d.name_returns());
}

#[test]
fn name_returns_not_on_pointer_cycles() {
    // A pointer to itself.
    let d = Decoder::new(&[0xc0, 0x00]);
    assert!(!d.name_returns());
    // Two levels pointing at each other.
    let buf = [1u8, b'a', 0xc0, 0x04, 1, b'b', 0xc0, 0x00];
    let d = Decoder::new(&buf);
    assert!(!d.name_returns());
    // A chain of pointers that ends.
    let buf = [0xc0u8, 0x02, 0xc0, 0x04, 0x00];
    let d = Decoder::new(&buf);
    assert!(d.name_returns());
}

#[test]
fn packet_decode_returns() {
    let mut buf = [0u8; 4096];
    let msg = [0x12u8, 0x34, 0x01, 0x00, 0, 1, 0, 0, 0, 0, 0, 0, 1, b'a', 0, 0, 1, 0, 1];
    buf[..msg.len()].copy_from_slice(&msg);
    assert!(Packet::decode_returns(&buf));
    assert!(Packet::from_buf(&mut buf).is_ok());

    // A question whose name points at itself.
    let mut buf = [0u8; 4096];
    let msg = [0u8, 0, 0, 0, 0, 1, 0, 0, 0, 0, 0, 0, 0xc0, 12];
    buf[..msg.len()].copy_from_slice(&msg);
    assert!(!Packet::decode_returns(&buf));

    // An answer whose NS data points back into a cycle.
    let mut buf = [0u8; 4096];
    let msg = [
        0u8, 0, 0, 0, 0, 0, 0, 1, 0, 0, 0, 0, // header: one answer
        0, 0, 2, 0, 1, 0, 0, 0, 0, 0, 2, // root name, NS, IN, ttl 0, length 2
        0xc0, 23, // a pointer to itself
    ];
    buf[..msg.len()].copy_from_slice(&msg);
    assert!(!Packet::decode_returns(&buf));

    // A message that runs out of buffer returns an error, so reading returns.
    let mut buf = [0u8; 4096];
    buf[6] = 0xff;
    buf[7] = 0xff;
    assert!(Packet::decode_returns(&buf));
}

#[test]
fn packet_sections_and_answer_start() {
    let mut buf = [0u8; 4096];
    let msg = [
        0x12u8, 0x34, 0x01, 0x00, 0, 2, 0, 0, 0, 0, 0, 0, // header: two questions
        1, b'a', 0, 0, 1, 0, 1, // a. A IN
        2, b'b', b'c', 0, 0, 28, 0, 1, // bc. AAAA IN
    ];
    buf[..msg.len()].copy_from_slice(&msg);
    let p = Packet::from_buf(&mut buf).unwrap();
    assert_eq!(p.header().id, 0x1234);
    assert!(p.header().flags.recursion_desired);
    assert_eq!(p.questions().len(), 2);
    assert_eq!(p.answers().len(), 0);
    assert_eq!(p.authorities().len(), 0);
    assert_eq!(p.additionals().len(), 0);
    // 12 for the header, 2 + 4 and 3 + 4 for the questions.
    assert_eq!(p.answer_start(), Some(12 + 6 + 7));
}
