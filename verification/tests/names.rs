use dns::domain::{Domain, Label};
use dns::proto::decoder::{Decode, Decoder};
use dns::proto::encoder::{Encode, Encoder};
use dns::proto::CodecError;
use dns::span::Span;

fn refs(d: &Domain) -> Vec<(usize, usize)> {
    d.labels
        .iter()
        .map(|l| match &l.data {
            Span::Ref { start, len } => (*start, *len),
            Span::Owned { .. } => panic!("owned label"),
        })
        .collect()
}

fn owned(bytes: &[u8]) -> Label {
    Label { data: Span::Owned { data: bytes.to_vec().into_boxed_slice() } }
}

#[test]
fn decode_plain_name() {
    let buf = b"\x03www\x07example\x03com\x00";
    let mut d = Decoder::new(buf);
    let name = Domain::decode(&mut d).unwrap();
    assert_eq!(refs(&name), vec![(1, 3), (5, 7), (13, 3)]);
    assert_eq!(d.position(), 17);
    assert_eq!(name.size(), 16);
}

#[test]
fn decode_compressed_name() {
    let buf = b"\x03com\x00\x03www\xc0\x00";
    let mut d = Decoder::new(buf);
    d.seek(5).unwrap();
    let name = Domain::decode(&mut d).unwrap();
    assert_eq!(refs(&name), vec![(6, 3), (1, 3)]);
    // The cursor rests behind the pointer.
    assert_eq!(d.position(), 11);
}

#[test]
fn decode_name_errors() {
    let mut d = Decoder::new(&[0x40]);
    assert!(matches!(Domain::decode(&mut d), Err(CodecError::FormatError)));
    assert_eq!(d.position(), 1);

    let mut d = Decoder::new(&[5, b'a']);
    assert!(matches!(Domain::decode(&mut d), Err(CodecError::BufferOverflow(1, 2))));
    assert_eq!(d.position(), 1);

    let mut d = Decoder::new(&[0xc0, 0x10]);
    assert!(matches!(Domain::decode(&mut d), Err(CodecError::BufferOverflow(2, 2))));

    let mut d = Decoder::new(&[0xc0]);
    assert!(matches!(Domain::decode(&mut d), Err(CodecError::BufferOverflow(1, 1))));

    let mut d = Decoder::new(&[]);
    assert!(matches!(Domain::decode(&mut d), Err(CodecError::BufferOverflow(0, 0))));

    // An error behind a pointer leaves the cursor where the inner read stopped.
    let mut d = Decoder::new(&[0x41, 0xc0, 0x00]);
    d.seek(1).unwrap();
    assert!(matches!(Domain::decode(&mut d), Err(CodecError::FormatError)));
    assert_eq!(d.position(), 1);
}

#[test]
fn decode_labels_as_vec() {
    let buf = b"\x01a\x00";
    let mut d = Decoder::new(buf);
    let labels = Vec::<Label>::decode(&mut d).unwrap();
    assert_eq!(labels.len(), 1);
    assert!(matches!(labels[0].data, Span::Ref { start: 1, len: 1 }));
}

#[test]
fn encode_owned_name_and_read_it_back() {
    let name = Domain::from(vec![owned(b"www"), owned(b"com")]);
    assert_eq!(name.size(), 8);
    let mut buf = [0u8; 4096];
    {
        let mut e = Encoder::new(&mut buf);
        name.encode(&mut e).unwrap();
        assert_eq!(e.position(), 9);
    }
    assert_eq!(&buf[..9], b"\x03www\x03com\x00");
    let mut d = Decoder::new(&buf);
    let back = Domain::decode(&mut d).unwrap();
    assert_eq!(refs(&back), vec![(1, 3), (5, 3)]);
    assert_eq!(d.position(), 9);
}

#[test]
fn encode_referenced_label_copies_start_to_len() {
    let mut buf = [0u8; 4096];
    buf[0] = 9;
    buf[1] = 8;
    buf[2] = 7;
    {
        let mut e = Encoder::new(&mut buf);
        let name = Domain { labels: vec![Label { data: Span::Ref { start: 0, len: 3 } }] };
        name.encode(&mut e).unwrap();
        assert_eq!(e.position(), 5);
    }
    assert_eq!(&buf[..6], &[3, 3, 8, 7, 0, 0]);
}

#[test]
fn encode_default_name() {
    let mut buf = [0xffu8; 4096];
    {
        let mut e = Encoder::new(&mut buf);
        Domain::default().encode(&mut e).unwrap();
        assert_eq!(e.position(), 1);
    }
    assert_eq!(buf[0], 0);
    assert_eq!(Domain::default().size(), 0);
}

#[test]
fn span_len() {
    assert_eq!(Span::Ref { start: 10, len: 4 }.len(), 4);
    assert_eq!(Span::Owned { data: vec![1u8, 2].into_boxed_slice() }.len(), 2);
}
