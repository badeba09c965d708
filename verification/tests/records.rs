use dns::class::Class;
use dns::domain::{Domain, Label};
use dns::header::MessageType;
use dns::packet::Packet;
use dns::proto::decoder::{Decode, Decoder};
use dns::proto::encoder::{Encode, Encoder};
use dns::proto::CodecError;
use dns::question::Question;
use dns::record::{Record, RecordData};
use dns::rtype::Type;
use dns::span::Span;

fn owned(bytes: &[u8]) -> Span {
    Span::Owned { data: bytes.to_vec().into_boxed_slice() }
}

fn name(labels: &[&[u8]]) -> Domain {
    Domain::from(labels.iter().map(|l| Label { data: owned(l) }).collect::<Vec<_>>())
}

fn is_ref(s: &Span, start: usize, len: usize) -> bool {
    matches!(s, Span::Ref { start: a, len: b } if *a == start && *b == len)
}

#[test]
fn question_decode_encode_size() {
    let buf = b"\x01a\x01b\x00\x00\x1c\x00\x01";
    let mut d = Decoder::new(buf);
    let q = Question::decode(&mut d).unwrap();
    assert_eq!(q.rtype, Type::AAAA);
    assert_eq!(q.class, Class::IN);
    assert_eq!(q.name.labels.len(), 2);
    assert_eq!(d.position(), 9);
    // Two labels of one byte each, then two bytes each for type and class.
    assert_eq!(q.size(), 4 + 4);

    let q = Question { name: name(&[b"a", b"b"]), rtype: Type::AAAA, class: Class::IN };
    let mut out = [0u8; 4096];
    {
        let mut e = Encoder::new(&mut out);
        q.encode(&mut e).unwrap();
        assert_eq!(e.position(), 9);
    }
    assert_eq!(&out[..9], buf);
}

#[test]
fn record_decode_a() {
    let buf = [0u8, 0, 1, 0, 1, 0, 0, 0x0e, 0x10, 0, 4, 1, 1, 1, 1];
    let mut d = Decoder::new(&buf);
    let r = Record::decode(&mut d).unwrap();
    match r {
        Record::Record { name, rtype, class, ttl, data } => {
            assert!(name.labels.is_empty());
            assert_eq!(rtype, Type::A);
            assert_eq!(class, Class::IN);
            assert_eq!(ttl, 3600);
            match data {
                RecordData::A { address } => assert!(is_ref(&address, 11, 4)),
                other => panic!("unexpected {:?}", other),
            }
        }
        other => panic!("unexpected {:?}", other),
    }
    assert_eq!(d.position(), 15);
}

#[test]
fn record_decode_opt() {
    let buf = [0u8, 0, 41, 0x10, 0x00, 0, 0, 0x80, 0x00, 0, 2, 7, 7];
    let mut d = Decoder::new(&buf);
    match Record::decode(&mut d).unwrap() {
        Record::OPTRecord { size, flags, options } => {
            assert_eq!(size, 4096);
            assert_eq!(flags, 0x8000);
            assert!(is_ref(&options, 11, 2));
        }
        other => panic!("unexpected {:?}", other),
    }
    assert_eq!(d.position(), 13);
}

#[test]
fn record_decode_mx_soa_unknown() {
    let buf = [0u8, 0, 15, 0, 1, 0, 0, 0, 0, 0, 5, 0, 10, 1, b'm', 0];
    let mut d = Decoder::new(&buf);
    match Record::decode(&mut d).unwrap() {
        Record::Record { data: RecordData::MX { preference, exchange }, .. } => {
            assert_eq!(preference, 10);
            assert!(is_ref(&exchange.labels[0].data, 14, 1));
        }
        other => panic!("unexpected {:?}", other),
    }
    assert_eq!(d.position(), 16);

    let mut buf = vec![0u8, 0, 6, 0, 1, 0, 0, 0, 0, 0, 22, 0, 0];
    for v in [1u32, 2, 3, 4, 5] {
        buf.extend_from_slice(&v.to_be_bytes());
    }
    let mut d = Decoder::new(&buf);
    match Record::decode(&mut d).unwrap() {
        Record::Record {
            data: RecordData::SOA { mname, rname, serial, refresh, retry, expire, minimum },
            ..
        } => {
            assert!(mname.labels.is_empty() && rname.labels.is_empty());
            assert_eq!((serial, refresh, retry, expire, minimum), (1, 2, 3, 4, 5));
        }
        other => panic!("unexpected {:?}", other),
    }
    assert_eq!(d.position(), buf.len());

    let buf = [0u8, 0, 99, 0, 3, 0, 0, 0, 1, 0, 1, 0xaa];
    let mut d = Decoder::new(&buf);
    match Record::decode(&mut d).unwrap() {
        Record::Record { rtype, class, data: RecordData::Unknown { data }, .. } => {
            assert_eq!(rtype, Type::Unknown(99));
            assert_eq!(class, Class::CH);
            assert!(is_ref(&data, 11, 1));
        }
        other => panic!("unexpected {:?}", other),
    }
}

#[test]
fn record_decode_truncated_data() {
    let buf = [0u8, 0, 16, 0, 1, 0, 0, 0, 0, 0, 9, 1];
    let mut d = Decoder::new(&buf);
    assert!(matches!(Record::decode(&mut d), Err(CodecError::BufferOverflow(11, 12))));
    assert_eq!(d.position(), 11);
}

#[test]
fn record_data_sizes() {
    assert_eq!(RecordData::A { address: owned(&[1, 2, 3, 4]) }.size(), 4);
    assert_eq!(RecordData::NS { nsdname: name(&[b"ns", b"x"]) }.size(), 5);
    assert_eq!(RecordData::MX { preference: 1, exchange: name(&[b"mx"]) }.size(), 5);
    let soa = RecordData::SOA {
        mname: name(&[b"a"]),
        rname: name(&[b"bb"]),
        serial: 0,
        refresh: 0,
        retry: 0,
        expire: 0,
        minimum: 0,
    };
    assert_eq!(soa.size(), 2 + 3 + 20);
    assert_eq!(RecordData::TXT { text: Span::Ref { start: 3, len: 7 } }.size(), 7);
}

#[test]
fn record_encode_a_and_read_back() {
    let r = Record::Record {
        name: name(&[b"k"]),
        rtype: Type::A,
        class: Class::IN,
        ttl: 3600,
        data: RecordData::A { address: owned(&[1, 1, 1, 1]) },
    };
    let mut buf = [0u8; 4096];
    {
        let mut e = Encoder::new(&mut buf);
        r.encode(&mut e).unwrap();
        assert_eq!(e.position(), 17);
    }
    assert_eq!(
        &buf[..17],
        &[1, b'k', 0, 0, 1, 0, 1, 0, 0, 0x0e, 0x10, 0, 4, 1, 1, 1, 1]
    );
    let mut d = Decoder::new(&buf);
    match Record::decode(&mut d).unwrap() {
        Record::Record { rtype, ttl, data: RecordData::A { address }, .. } => {
            assert_eq!(rtype, Type::A);
            assert_eq!(ttl, 3600);
            assert!(is_ref(&address, 13, 4));
        }
        other => panic!("unexpected {:?}", other),
    }
}

#[test]
fn record_encode_ns_writes_size_without_terminator() {
    let r = Record::Record {
        name: Domain::default(),
        rtype: Type::NS,
        class: Class::IN,
        ttl: 0,
        data: RecordData::NS { nsdname: name(&[b"ns"]) },
    };
    let mut buf = [0u8; 4096];
    {
        let mut e = Encoder::new(&mut buf);
        r.encode(&mut e).unwrap();
        assert_eq!(e.position(), 15);
    }
    assert_eq!(&buf[..15], &[0, 0, 2, 0, 1, 0, 0, 0, 0, 0, 3, 2, b'n', b's', 0]);
}

#[test]
fn record_encode_opt() {
    let r = Record::OPTRecord { size: 1232, flags: 0x8000, options: owned(&[9]) };
    let mut buf = [0u8; 4096];
    {
        let mut e = Encoder::new(&mut buf);
        r.encode(&mut e).unwrap();
        assert_eq!(e.position(), 12);
    }
    assert_eq!(&buf[..12], &[0, 0, 41, 0x04, 0xd0, 0, 0, 0x80, 0, 0, 1, 9]);
}

fn query_buffer() -> [u8; 4096] {
    let mut buf = [0u8; 4096];
    let msg = [
        0x12u8, 0x34, 0x01, 0x00, 0, 1, 0, 0, 0, 0, 0, 0, 1, b'a', 1, b'b', 0, 0, 1, 0, 1,
    ];
    buf[..msg.len()].copy_from_slice(&msg);
    buf
}

#[test]
fn packet_from_buf_reads_query() {
    let mut buf = query_buffer();
    let p = Packet::from_buf(&mut buf).unwrap();
    assert_eq!(p.header.id, 0x1234);
    assert_eq!(p.header.flags.message_type, MessageType::Question);
    assert!(p.header.flags.recursion_desired);
    assert_eq!(p.questions.len(), 1);
    assert_eq!(p.questions[0].rtype, Type::A);
    assert_eq!(p.questions[0].class, Class::IN);
    assert!(is_ref(&p.questions[0].name.labels[1].data, 15, 1));
    assert!(p.answers.is_empty() && p.authorities.is_empty() && p.additionals.is_empty());
}

#[test]
fn packet_from_buf_runs_out_of_buffer() {
    let mut buf = [0u8; 4096];
    // 65535 answers of 11 zero bytes each do not fit.
    buf[6] = 0xff;
    buf[7] = 0xff;
    assert!(matches!(Packet::from_buf(&mut buf), Err(CodecError::BufferOverflow(4096, 4096))));
}

#[test]
fn packet_add_answer_leaves_packet_as_is() {
    let mut buf = query_buffer();
    let mut p = Packet::from_buf(&mut buf).unwrap();
    p.header.flags.message_type = MessageType::Response;
    p.add_answer(Record::OPTRecord { size: 0, flags: 0, options: owned(&[]) });
    assert_eq!(p.questions.len(), 1);
    assert!(p.answers.is_empty());
    assert_eq!(p.header.flags.message_type, MessageType::Response);
}

#[test]
fn record_encode_soa_and_mx_read_back() {
    let soa = Record::Record {
        name: name(&[b"z"]),
        rtype: Type::SOA,
        class: Class::IN,
        ttl: 60,
        data: RecordData::SOA {
            mname: name(&[b"ns"]),
            rname: name(&[b"h", b"m"]),
            serial: 7,
            refresh: 8,
            retry: 9,
            expire: 10,
            minimum: 11,
        },
    };
    let mx = Record::Record {
        name: Domain::default(),
        rtype: Type::MX,
        class: Class::HS,
        ttl: 1,
        data: RecordData::MX { preference: 5, exchange: name(&[b"mail"]) },
    };
    let mut buf = [0u8; 4096];
    let end;
    {
        let mut e = Encoder::new(&mut buf);
        soa.encode(&mut e).unwrap();
        // name 3 + fields 10 + mname 4 + rname 5 + numbers 20
        assert_eq!(e.position(), 42);
        mx.encode(&mut e).unwrap();
        end = e.position();
    }
    assert_eq!(end, 42 + 1 + 10 + 2 + 6);
    // The data length written for the SOA record is its size, 3 + 4 + 20,
    // while 29 bytes follow.
    assert_eq!(&buf[11..13], &[0, 27]);
    let mut d = Decoder::new(&buf);
    match Record::decode(&mut d).unwrap() {
        Record::Record {
            rtype,
            ttl,
            data: RecordData::SOA { mname, rname, serial, minimum, .. },
            ..
        } => {
            assert_eq!(rtype, Type::SOA);
            assert_eq!(ttl, 60);
            assert!(is_ref(&mname.labels[0].data, 14, 2));
            assert!(is_ref(&rname.labels[1].data, 20, 1));
            assert_eq!((serial, minimum), (7, 11));
        }
        other => panic!("unexpected {:?}", other),
    }
    assert_eq!(d.position(), 42);
    match Record::decode(&mut d).unwrap() {
        Record::Record { class, data: RecordData::MX { preference, exchange }, .. } => {
            assert_eq!(class, Class::HS);
            assert_eq!(preference, 5);
            assert!(is_ref(&exchange.labels[0].data, 56, 4));
        }
        other => panic!("unexpected {:?}", other),
    }
    assert_eq!(d.position(), end);
}
