use dns::proto::decoder::Decoder;
use dns::proto::encoder::Encoder;
use dns::proto::CodecError;

#[test]
fn decoder_reads_big_endian_integers() {
    let buf = [0x12u8, 0x34, 0xde, 0xad, 0xbe, 0xef, 0x7f];
    let mut d = Decoder::new(&buf);
    assert_eq!(d.read_u16().unwrap(), 0x1234);
    assert_eq!(d.read_u32().unwrap(), 0xdead_beef);
    assert_eq!(d.position(), 6);
    assert_eq!(d.remaining(), 1);
    assert_eq!(d.peek_u8().unwrap(), 0x7f);
    assert_eq!(d.read_u8().unwrap(), 0x7f);
    assert_eq!(d.remaining(), 0);
}

#[test]
fn decoder_overflow_reports_end_of_buffer() {
    let buf = [1u8, 2, 3];
    let mut d = Decoder::new(&buf);
    d.seek(2).unwrap();
    // The first byte is read, the second is missing: the cursor ends at the end.
    assert_eq!(d.read_u16(), Err(CodecError::BufferOverflow(3, 3)));
    assert_eq!(d.position(), 3);
    assert_eq!(d.peek_u8(), Err(CodecError::BufferOverflow(3, 3)));
    assert_eq!(d.read_u8(), Err(CodecError::BufferOverflow(3, 3)));
    assert_eq!(d.position(), 3);

    let mut d = Decoder::new(&buf);
    d.seek(1).unwrap();
    assert_eq!(d.read_u32(), Err(CodecError::BufferOverflow(3, 3)));
    assert_eq!(d.position(), 3);
}

#[test]
fn decoder_seek_past_end_is_refused_at_current_position() {
    let buf = [0u8; 4];
    let mut d = Decoder::new(&buf);
    d.seek(1).unwrap();
    assert_eq!(d.seek(5), Err(CodecError::BufferOverflow(1, 4)));
    assert_eq!(d.position(), 1);
    assert_eq!(d.seek(4), Ok(()));
    assert_eq!(d.remaining(), 0);
}

#[test]
fn decoder_read_bytes() {
    let buf = [9u8, 8, 7, 6, 5];
    let mut d = Decoder::new(&buf);
    d.seek(1).unwrap();
    assert_eq!(d.read_bytes(3).unwrap(), &[8u8, 7, 6][..]);
    assert_eq!(d.position(), 4);
    assert_eq!(d.read_bytes(2), Err(CodecError::BufferOverflow(6, 5)));
    assert_eq!(d.position(), 4);
    assert_eq!(d.read_bytes(0).unwrap(), &[][..]);
}

#[test]
fn encoder_writes_big_endian_integers() {
    let mut buf = [0u8; 4096];
    {
        let mut e = Encoder::new(&mut buf);
        e.write_u16(0xabcd).unwrap();
        e.write_u32(0x0102_0304).unwrap();
        e.write_u8(0xff).unwrap();
        e.write_bytes(&[5, 6]).unwrap();
        assert_eq!(e.position(), 9);
        assert_eq!(e.remaining(), 4096 - 9);
    }
    assert_eq!(&buf[..10], &[0xab, 0xcd, 1, 2, 3, 4, 0xff, 5, 6, 0]);
}

#[test]
fn encoder_write_past_end_fails_and_changes_nothing() {
    let mut buf = [0u8; 4096];
    {
        let mut e = Encoder::new(&mut buf);
        e.write_bytes(&[1u8; 4095]).unwrap();
        assert_eq!(e.write_u16(7), Err(CodecError::BufferOverflow(4097, 4096)));
        assert_eq!(e.position(), 4095);
        assert_eq!(e.write_u8(2), Ok(()));
        assert_eq!(e.write_u8(3), Err(CodecError::BufferOverflow(4097, 4096)));
    }
    assert_eq!(buf[4095], 2);
}

#[test]
fn encoder_copy_within_copies_start_to_len() {
    let mut buf = [0u8; 4096];
    {
        let mut e = Encoder::new(&mut buf);
        e.write_bytes(&[10, 11, 12, 13, 14]).unwrap();
        // Copies bytes 1..4 to the cursor, and moves the cursor on by 4.
        e.copy_within(1, 4).unwrap();
        assert_eq!(e.position(), 9);
    }
    assert_eq!(&buf[..10], &[10, 11, 12, 13, 14, 11, 12, 13, 0, 0]);
}

#[test]
fn encoder_copy_within_errors() {
    let mut buf = [0u8; 4096];
    let mut e = Encoder::new(&mut buf);
    e.write_bytes(&[1, 2, 3]).unwrap();
    assert_eq!(e.copy_within(4, 5), Err(CodecError::BufferOverflow(4, 4096)));
    assert_eq!(e.copy_within(0, 4094), Err(CodecError::BufferOverflow(4097, 4096)));
    assert_eq!(e.position(), 3);
}

#[test]
fn written_integers_read_back() {
    let mut buf = [0u8; 4096];
    {
        let mut e = Encoder::new(&mut buf);
        e.write_u8(0x80).unwrap();
        e.write_u16(0xbeef).unwrap();
        e.write_u32(0xcafe_f00d).unwrap();
    }
    let mut d = Decoder::new(&buf);
    assert_eq!(d.read_u8().unwrap(), 0x80);
    assert_eq!(d.read_u16().unwrap(), 0xbeef);
    assert_eq!(d.read_u32().unwrap(), 0xcafe_f00d);
}

#[test]
fn encoder_buffer_shows_what_was_written() {
    let mut buf = [9u8; 4096];
    let mut e = Encoder::new(&mut buf);
    assert_eq!(e.buffer()[0], 9);
    e.write_u8(7).unwrap();
    e.write_u16(0x0102).unwrap();
    assert_eq!(&e.buffer()[..4], &[7, 1, 2, 9]);
}
