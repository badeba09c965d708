use dns::class::Class;
use dns::header::{Flags, Header, MessageType, OpCode};
use dns::proto::decoder::{Decode, Decoder};
use dns::proto::encoder::{Encode, Encoder};
use dns::header::RCode;
use dns::rtype::Type;

#[test]
fn type_codes() {
    assert_eq!(Type::from(1u16), Type::A);
    assert_eq!(Type::from(2u16), Type::NS);
    assert_eq!(Type::from(5u16), Type::CNAME);
    assert_eq!(Type::from(6u16), Type::SOA);
    assert_eq!(Type::from(12u16), Type::PTR);
    assert_eq!(Type::from(15u16), Type::MX);
    assert_eq!(Type::from(16u16), Type::TXT);
    assert_eq!(Type::from(28u16), Type::AAAA);
    assert_eq!(Type::from(41u16), Type::OPT);
    assert_eq!(Type::from(99u16), Type::Unknown(99));
    assert_eq!(u16::from(Type::AAAA), 28);
    assert_eq!(u16::from(Type::OPT), 41);
    assert_eq!(u16::from(Type::Unknown(1)), 1);
    for code in 0..=u16::MAX {
        assert_eq!(u16::from(Type::from(code)), code);
    }
}

#[test]
fn class_codes() {
    assert_eq!(Class::from(1u16), Class::IN);
    assert_eq!(Class::from(3u16), Class::CH);
    assert_eq!(Class::from(255u16), Class::Unknown(255));
    assert_eq!(u16::from(Class::IN), 1);
    assert_eq!(u16::from(Class::HS), 4);
    for code in 0..=u16::MAX {
        assert_eq!(u16::from(Class::from(code)), code);
    }
}

#[test]
fn opcode_and_rcode_codes() {
    assert_eq!(OpCode::from(0u8), OpCode::Query);
    assert_eq!(OpCode::from(2u8), OpCode::Status);
    assert_eq!(OpCode::from(4u8), OpCode::Notify);
    assert_eq!(OpCode::from(5u8), OpCode::Update);
    assert_eq!(OpCode::from(1u8), OpCode::Unknown(1));
    assert_eq!(u8::from(OpCode::Update), 5);
    assert_eq!(RCode::from(3u8), RCode::NXDomain);
    assert_eq!(RCode::from(5u8), RCode::Refused);
    assert_eq!(RCode::from(6u8), RCode::Unknown(6));
    assert_eq!(u8::from(RCode::ServFail), 2);
    for code in 0..=u8::MAX {
        assert_eq!(u8::from(OpCode::from(code)), code);
        assert_eq!(u8::from(RCode::from(code)), code);
    }
}

fn decode_flags(word: u16) -> Flags {
    let bytes = word.to_be_bytes();
    let mut d = Decoder::new(&bytes);
    Flags::decode(&mut d).unwrap()
}

fn encode_flags(f: Flags) -> u16 {
    let mut buf = [0u8; 4096];
    {
        let mut e = Encoder::new(&mut buf);
        f.encode(&mut e).unwrap();
    }
    u16::from_be_bytes([buf[0], buf[1]])
}

#[test]
fn flags_decode_standard_response() {
    let f = decode_flags(0x8180);
    assert_eq!(
        f,
        Flags {
            message_type: MessageType::Response,
            op_code: OpCode::Query,
            authorative_answer: false,
            truncation: false,
            recursion_desired: true,
            recursion_available: true,
            authentic_data: false,
            checking_disabled: false,
            response_code: RCode::NoError,
        }
    );
}

#[test]
fn flags_decode_layout() {
    let f = decode_flags(0x0123);
    assert_eq!(
        f,
        Flags {
            message_type: MessageType::Question,
            op_code: OpCode::Query,
            authorative_answer: false,
            truncation: false,
            recursion_desired: true,
            recursion_available: false,
            authentic_data: true,
            checking_disabled: false,
            response_code: RCode::NXDomain,
        }
    );
    assert!(decode_flags(0x0020).authentic_data);
    assert!(!decode_flags(0x0020).checking_disabled);
    assert!(decode_flags(0x0010).checking_disabled);
    assert!(!decode_flags(0x0010).authentic_data);
    // The reserved bit 6 is not read.
    let z = decode_flags(0x0040);
    assert!(!z.authentic_data);
    assert!(!z.checking_disabled);
    assert_eq!(z.response_code, RCode::NoError);
    assert_eq!(decode_flags(0x000f).response_code, RCode::Unknown(15));
    assert_eq!(decode_flags(0x2800).op_code, OpCode::Update);
    assert_eq!(decode_flags(0x7800).op_code, OpCode::Unknown(15));
    assert!(decode_flags(0x0400).authorative_answer);
    assert!(decode_flags(0x0200).truncation);
}

#[test]
fn flags_encode_layout() {
    let f = Flags {
        message_type: MessageType::Response,
        op_code: OpCode::Query,
        authorative_answer: true,
        truncation: false,
        recursion_desired: false,
        recursion_available: false,
        authentic_data: false,
        checking_disabled: true,
        response_code: RCode::NoError,
    };
    assert_eq!(encode_flags(f), 0x8410);
    let f = Flags {
        message_type: MessageType::Question,
        op_code: OpCode::Unknown(0x1f),
        authorative_answer: false,
        truncation: true,
        recursion_desired: false,
        recursion_available: false,
        authentic_data: true,
        checking_disabled: true,
        response_code: RCode::Unknown(0x25),
    };
    // The operation and the response code are cut to 4 bits each.
    assert_eq!(encode_flags(f), 0x7800 | 0x0200 | 0x0020 | 0x0010 | 5);
}

fn sample_flags() -> Flags {
    Flags {
        message_type: MessageType::Response,
        op_code: OpCode::Notify,
        authorative_answer: false,
        truncation: true,
        recursion_desired: true,
        recursion_available: false,
        authentic_data: true,
        checking_disabled: true,
        response_code: RCode::ServFail,
    }
}

#[test]
fn flags_write_read_round_trip() {
    let back = decode_flags(encode_flags(sample_flags()));
    assert_eq!(back, sample_flags());
}

#[test]
fn flags_read_write_clears_only_the_reserved_bit() {
    assert_eq!(encode_flags(decode_flags(0x0403)), 0x0403);
    assert_eq!(encode_flags(decode_flags(0xffff)), 0xffbf);
    for word in [0x0000u16, 0x8180, 0x0123, 0x7fff, 0x0040, 0x8435] {
        assert_eq!(encode_flags(decode_flags(word)), word & 0xffbf);
    }
}

#[test]
fn header_decode_encode() {
    let bytes = [0x12u8, 0x34, 0x01, 0x00];
    let mut d = Decoder::new(&bytes);
    let h = Header::decode(&mut d).unwrap();
    assert_eq!(h.id, 0x1234);
    assert!(h.flags.recursion_desired);
    assert_eq!(h.flags.message_type, MessageType::Question);
    assert_eq!(h.size(), 12);
    assert_eq!(d.position(), 4);

    let mut buf = [0u8; 4096];
    {
        let mut e = Encoder::new(&mut buf);
        h.encode(&mut e).unwrap();
        assert_eq!(e.position(), 4);
    }
    assert_eq!(&buf[..4], &bytes);
}

#[test]
fn header_decode_short_buffer() {
    let bytes = [0x12u8, 0x34, 0x01];
    let mut d = Decoder::new(&bytes);
    assert!(matches!(
        Header::decode(&mut d),
        Err(dns::proto::CodecError::BufferOverflow(3, 3))
    ));
}
