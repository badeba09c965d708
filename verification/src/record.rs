//! Resource records: the entries of the answer, authority and additional sections.

use vstd::prelude::*;

use crate::class::{class_of_code, code_of_class, Class};
use crate::domain::{
    domain_size, labels_written_at, lemma_decode_labels_any_depth, lemma_domain_write_length,
    lemma_domain_write_walk,
    lemma_walk_frame, short_owned, spec_decode_labels, spec_encode_domain, spec_encode_labels, Domain,
    Label,
};
use crate::proto::decoder::{
    spec_read_u16, spec_read_u32, spec_seek, view_result, Decode, Decoder, ReadStep,
};
use crate::proto::encoder::{
    splice, be_bytes_u16, be_bytes_u32, lemma_read_u16_frame, lemma_read_u32_frame, lemma_write_bytes_effect,
    lemma_write_read_u16, lemma_write_read_u32, spec_write_bytes, valid_state, Encode, EncodeState,
    Encoder, WriteStep,
};
use crate::proto::CodecError;
use crate::rtype::{canonical_type, code_of_type, lemma_type_roundtrip, type_of_code, Type};
use crate::span::{span_len, spec_write_span, write_span, Span};

verus! {

#[derive(Debug)]
pub enum Record {
    Record { name: Domain, rtype: Type, class: Class, ttl: u32, data: RecordData },
    OPTRecord { size: u16, flags: u32, options: Span },
}

#[derive(Debug)]
pub enum RecordData {
    /// DNS A record field layout as per [RFC 1035 Section 3.4.1](https://www.rfc-editor.org/rfc/rfc1035#section-3.4.1)
    ///
    /// ```text
    ///   0  1  2  3  4  5  6  7  8  9 10 11 12 13 14 15
    /// +--+--+--+--+--+--+--+--+--+--+--+--+--+--+--+--+
    /// |                    ADDRESS                    |
    /// |                                               |
    /// +--+--+--+--+--+--+--+--+--+--+--+--+--+--+--+--+
    /// ```
    A { address: Span },
    /// DNS NS record field layout as per [RFC 1035 Section 3.3.11](https://www.rfc-editor.org/rfc/rfc1035#section-3.3.11)
    ///
    /// ```text
    ///   0  1  2  3  4  5  6  7  8  9 10 11 12 13 14 15
    /// +--+--+--+--+--+--+--+--+--+--+--+--+--+--+--+--+
    /// /                   NSDNAME                     /
    /// /                                               /
    /// +--+--+--+--+--+--+--+--+--+--+--+--+--+--+--+--+
    /// ```
    NS { nsdname: Domain },
    /// DNS CNAME record field layout as per [RFC 1035 Section 3.3.1](https://www.rfc-editor.org/rfc/rfc1035#section-3.3.1)
    ///
    /// ```text
    ///   0  1  2  3  4  5  6  7  8  9 10 11 12 13 14 15
    /// +--+--+--+--+--+--+--+--+--+--+--+--+--+--+--+--+
    /// /                     CNAME                     /
    /// /                                               /
    /// +--+--+--+--+--+--+--+--+--+--+--+--+--+--+--+--+
    /// ```
    CNAME { cname: Domain },
    /// DNS SOA record field layout as per [RFC 1035 Section 3.3.13](https://www.rfc-editor.org/rfc/rfc1035#section-3.3.13)
    ///
    /// ```text
    ///   0  1  2  3  4  5  6  7  8  9 10 11 12 13 14 15
    /// +--+--+--+--+--+--+--+--+--+--+--+--+--+--+--+--+
    /// /                     MNAME                     /
    /// /                                               /
    /// +--+--+--+--+--+--+--+--+--+--+--+--+--+--+--+--+
    /// /                     RNAME                     /
    /// +--+--+--+--+--+--+--+--+--+--+--+--+--+--+--+--+
    /// |                    SERIAL                     |
    /// |                                               |
    /// +--+--+--+--+--+--+--+--+--+--+--+--+--+--+--+--+
    /// |                    REFRESH                    |
    /// |                                               |
    /// +--+--+--+--+--+--+--+--+--+--+--+--+--+--+--+--+
    /// |                     RETRY                     |
    /// |                                               |
    /// +--+--+--+--+--+--+--+--+--+--+--+--+--+--+--+--+
    /// |                    EXPIRE                     |
    /// |                                               |
    /// +--+--+--+--+--+--+--+--+--+--+--+--+--+--+--+--+
    /// |                    MINIMUM                    |
    /// |                                               |
    /// +--+--+--+--+--+--+--+--+--+--+--+--+--+--+--+--+
    /// ```
    SOA {
        mname: Domain,
        rname: Domain,
        serial: u32,
        refresh: u32,
        retry: u32,
        expire: u32,
        minimum: u32,
    },
    /// DNS PTR record field layout as per [RFC 1035 Section 3.3.12](https://www.rfc-editor.org/rfc/rfc1035#section-3.3.12)
    ///
    /// ```text
    ///   0  1  2  3  4  5  6  7  8  9 10 11 12 13 14 15
    /// +--+--+--+--+--+--+--+--+--+--+--+--+--+--+--+--+
    /// /                   PTRDNAME                    /
    /// +--+--+--+--+--+--+--+--+--+--+--+--+--+--+--+--+
    /// ```
    PTR { ptrdname: Domain },
    /// DNS MX record field layout as per [RFC 1035 Section 3.3.9](https://www.rfc-editor.org/rfc/rfc1035#section-3.3.9)
    ///
    /// ```text
    ///   0  1  2  3  4  5  6  7  8  9 10 11 12 13 14 15
    /// +--+--+--+--+--+--+--+--+--+--+--+--+--+--+--+--+
    /// |                  PREFERENCE                   |
    /// +--+--+--+--+--+--+--+--+--+--+--+--+--+--+--+--+
    /// /                   EXCHANGE                    /
    /// /                                               /
    /// +--+--+--+--+--+--+--+--+--+--+--+--+--+--+--+--+
    /// ```
    MX { preference: u16, exchange: Domain },
    /// DNS TXT record field layout as per [RFC 1035 Section 3.3.14](https://www.rfc-editor.org/rfc/rfc1035#section-3.3.14)
    ///
    /// ```text
    ///   0  1  2  3  4  5  6  7  8  9 10 11 12 13 14 15
    /// +--+--+--+--+--+--+--+--+--+--+--+--+--+--+--+--+
    /// /                   TXT-DATA                    /
    /// +--+--+--+--+--+--+--+--+--+--+--+--+--+--+--+--+
    /// ```
    TXT { text: Span },
    /// DNS AAAA record field layout as per [RFC 3596 Section 2.2](https://www.rfc-editor.org/rfc/rfc3596#section-2.2)
    ///
    /// ```text
    ///   0  1  2  3  4  5  6  7  8  9 10 11 12 13 14 15
    /// +--+--+--+--+--+--+--+--+--+--+--+--+--+--+--+--+
    /// |                    ADDRESS                    |
    /// |                                               |
    /// |                                               |
    /// |                                               |
    /// |                                               |
    /// |                                               |
    /// |                                               |
    /// |                                               |
    /// +--+--+--+--+--+--+--+--+--+--+--+--+--+--+--+--+
    /// ```
    AAAA { address: Span },
    Unknown { data: Span },
}

/// Record data with its names taken as their labels.
pub enum RecordDataView {
    A { address: Span },
    NS { nsdname: Seq<Label> },
    CNAME { cname: Seq<Label> },
    SOA {
        mname: Seq<Label>,
        rname: Seq<Label>,
        serial: u32,
        refresh: u32,
        retry: u32,
        expire: u32,
        minimum: u32,
    },
    PTR { ptrdname: Seq<Label> },
    MX { preference: u16, exchange: Seq<Label> },
    TXT { text: Span },
    AAAA { address: Span },
    Unknown { data: Span },
}

/// A record with its names taken as their labels.
pub enum RecordView {
    Record { name: Seq<Label>, rtype: Type, class: Class, ttl: u32, data: RecordDataView },
    OPTRecord { size: u16, flags: u32, options: Span },
}

impl View for RecordData {
    type V = RecordDataView;

    open spec fn view(&self) -> RecordDataView {
        match self {
            RecordData::A { address } => RecordDataView::A { address: *address },
            RecordData::NS { nsdname } => RecordDataView::NS { nsdname: nsdname@ },
            RecordData::CNAME { cname } => RecordDataView::CNAME { cname: cname@ },
            RecordData::SOA { mname, rname, serial, refresh, retry, expire, minimum } =>
                RecordDataView::SOA {
                mname: mname@,
                rname: rname@,
                serial: *serial,
                refresh: *refresh,
                retry: *retry,
                expire: *expire,
                minimum: *minimum,
            },
            RecordData::PTR { ptrdname } => RecordDataView::PTR { ptrdname: ptrdname@ },
            RecordData::MX { preference, exchange } => RecordDataView::MX {
                preference: *preference,
                exchange: exchange@,
            },
            RecordData::TXT { text } => RecordDataView::TXT { text: *text },
            RecordData::AAAA { address } => RecordDataView::AAAA { address: *address },
            RecordData::Unknown { data } => RecordDataView::Unknown { data: *data },
        }
    }
}

impl View for Record {
    type V = RecordView;

    open spec fn view(&self) -> RecordView {
        match self {
            Record::Record { name, rtype, class, ttl, data } => RecordView::Record {
                name: name@,
                rtype: *rtype,
                class: *class,
                ttl: *ttl,
                data: data@,
            },
            Record::OPTRecord { size, flags, options } => RecordView::OPTRecord {
                size: *size,
                flags: *flags,
                options: *options,
            },
        }
    }
}

/// The size `RecordData::size` gives: the bytes of a span, the sizes of the
/// names, and 4 for each 32-bit and 2 for each 16-bit field.
pub open spec fn rdata_size(d: RecordDataView) -> nat {
    match d {
        RecordDataView::A { address } => span_len(address),
        RecordDataView::NS { nsdname } => domain_size(nsdname),
        RecordDataView::CNAME { cname } => domain_size(cname),
        RecordDataView::SOA { mname, rname, .. } => domain_size(mname) + domain_size(rname) + 20,
        RecordDataView::PTR { ptrdname } => domain_size(ptrdname),
        RecordDataView::MX { exchange, .. } => 2 + domain_size(exchange),
        RecordDataView::TXT { text } => span_len(text),
        RecordDataView::AAAA { address } => span_len(address),
        RecordDataView::Unknown { data } => span_len(data),
    }
}

impl RecordData {
    pub fn size(&self) -> (r: usize)
        requires
            rdata_size(self@) <= usize::MAX,
        ensures
            r == rdata_size(self@),
    {
        broadcast use vstd::layout::layout_of_primitives;

        match self {
            RecordData::A { address } => address.len(),
            RecordData::NS { nsdname } => nsdname.size(),
            RecordData::CNAME { cname } => cname.size(),
            RecordData::SOA { mname, rname, serial, refresh, retry, expire, minimum } => {
                mname.size() + rname.size() + core::mem::size_of::<u32>()
                    + core::mem::size_of::<u32>() + core::mem::size_of::<u32>()
                    + core::mem::size_of::<u32>() + core::mem::size_of::<u32>()
            },
            RecordData::PTR { ptrdname } => ptrdname.size(),
            RecordData::MX { preference, exchange } => core::mem::size_of::<u16>()
                + exchange.size(),
            RecordData::TXT { text } => text.len(),
            RecordData::AAAA { address } => address.len(),
            RecordData::Unknown { data } => data.len(),
        }
    }
}

/// Taking `len` bytes at `pos` as a span of the message; `None` where
/// `pos + len` overflows.
pub open spec fn spec_read_span(data: Seq<u8>, pos: int, len: int) -> Option<ReadStep<Span>> {
    if pos + len > usize::MAX {
        None
    } else {
        match spec_seek(data, pos, pos + len) {
            (Ok(()), q) => Some((Ok(Span::Ref { start: pos as usize, len: len as usize }), q)),
            (Err(e), q) => Some((Err(e), q)),
        }
    }
}

/// Reading the five 32-bit numbers of an SOA record: serial, refresh, retry,
/// expire and minimum.
pub open spec fn spec_read_soa_numbers(data: Seq<u8>, pos: int) -> ReadStep<(u32, u32, u32, u32, u32)> {
    match spec_read_u32(data, pos) {
        (Err(e), q) => (Err(e), q),
        (Ok(serial), p1) => match spec_read_u32(data, p1) {
            (Err(e), q) => (Err(e), q),
            (Ok(refresh), p2) => match spec_read_u32(data, p2) {
                (Err(e), q) => (Err(e), q),
                (Ok(retry), p3) => match spec_read_u32(data, p3) {
                    (Err(e), q) => (Err(e), q),
                    (Ok(expire), p4) => match spec_read_u32(data, p4) {
                        (Err(e), q) => (Err(e), q),
                        (Ok(minimum), p5) => (Ok((serial, refresh, retry, expire, minimum)), p5),
                    },
                },
            },
        },
    }
}

/// Writing the five 32-bit numbers of an SOA record.
pub open spec fn spec_write_soa_numbers(
    st: EncodeState,
    serial: u32,
    refresh: u32,
    retry: u32,
    expire: u32,
    minimum: u32,
) -> WriteStep {
    match spec_write_bytes(st, be_bytes_u32(serial)) {
        (Err(e), s) => (Err(e), s),
        (Ok(()), s1) => match spec_write_bytes(s1, be_bytes_u32(refresh)) {
            (Err(e), s) => (Err(e), s),
            (Ok(()), s2) => match spec_write_bytes(s2, be_bytes_u32(retry)) {
                (Err(e), s) => (Err(e), s),
                (Ok(()), s3) => match spec_write_bytes(s3, be_bytes_u32(expire)) {
                    (Err(e), s) => (Err(e), s),
                    (Ok(()), s4) => spec_write_bytes(s4, be_bytes_u32(minimum)),
                },
            },
        },
    }
}

/// Reading the data of a record of type `rtype` (not `OPT`) at `pos`, with
/// `rd_length` the length the record gives for it.
pub open spec fn spec_decode_rdata(data: Seq<u8>, pos: int, rtype: Type, rd_length: int) -> Option<
    ReadStep<RecordDataView>,
> {
    match rtype {
        Type::A => match spec_read_span(data, pos, rd_length) {
            None => None,
            Some((Ok(s), q)) => Some((Ok(RecordDataView::A { address: s }), q)),
            Some((Err(e), q)) => Some((Err(e), q)),
        },
        Type::NS => match spec_decode_labels(data, pos) {
            None => None,
            Some((Ok(n), q)) => Some((Ok(RecordDataView::NS { nsdname: n }), q)),
            Some((Err(e), q)) => Some((Err(e), q)),
        },
        Type::CNAME => match spec_decode_labels(data, pos) {
            None => None,
            Some((Ok(n), q)) => Some((Ok(RecordDataView::CNAME { cname: n }), q)),
            Some((Err(e), q)) => Some((Err(e), q)),
        },
        Type::SOA => match spec_decode_labels(data, pos) {
            None => None,
            Some((Err(e), q)) => Some((Err(e), q)),
            Some((Ok(mname), p1)) => match spec_decode_labels(data, p1) {
                None => None,
                Some((Err(e), q)) => Some((Err(e), q)),
                Some((Ok(rname), p2)) => match spec_read_soa_numbers(data, p2) {
                    (Err(e), q) => Some((Err(e), q)),
                    (Ok((serial, refresh, retry, expire, minimum)), q) => Some(
                        (
                            Ok(
                                RecordDataView::SOA {
                                    mname,
                                    rname,
                                    serial,
                                    refresh,
                                    retry,
                                    expire,
                                    minimum,
                                },
                            ),
                            q,
                        ),
                    ),
                },
            },
        },
        Type::PTR => match spec_decode_labels(data, pos) {
            None => None,
            Some((Ok(n), q)) => Some((Ok(RecordDataView::PTR { ptrdname: n }), q)),
            Some((Err(e), q)) => Some((Err(e), q)),
        },
        Type::MX => match spec_read_u16(data, pos) {
            (Err(e), q) => Some((Err(e), q)),
            (Ok(preference), p1) => match spec_decode_labels(data, p1) {
                None => None,
                Some((Ok(n), q)) => Some((Ok(RecordDataView::MX { preference, exchange: n }), q)),
                Some((Err(e), q)) => Some((Err(e), q)),
            },
        },
        Type::TXT => match spec_read_span(data, pos, rd_length) {
            None => None,
            Some((Ok(s), q)) => Some((Ok(RecordDataView::TXT { text: s }), q)),
            Some((Err(e), q)) => Some((Err(e), q)),
        },
        Type::AAAA => match spec_read_span(data, pos, rd_length) {
            None => None,
            Some((Ok(s), q)) => Some((Ok(RecordDataView::AAAA { address: s }), q)),
            Some((Err(e), q)) => Some((Err(e), q)),
        },
        Type::OPT => None,
        Type::Unknown(_) => match spec_read_span(data, pos, rd_length) {
            None => None,
            Some((Ok(s), q)) => Some((Ok(RecordDataView::Unknown { data: s }), q)),
            Some((Err(e), q)) => Some((Err(e), q)),
        },
    }
}

/// Reading the fixed fields of a record that follow its name: the type code,
/// the class code, the time to live and the data length.
pub open spec fn spec_read_record_fields(data: Seq<u8>, pos: int) -> ReadStep<(u16, u16, u32, u16)> {
    match spec_read_u16(data, pos) {
        (Err(e), q) => (Err(e), q),
        (Ok(t), p1) => match spec_read_u16(data, p1) {
            (Err(e), q) => (Err(e), q),
            (Ok(class), p2) => match spec_read_u32(data, p2) {
                (Err(e), q) => (Err(e), q),
                (Ok(ttl), p3) => match spec_read_u16(data, p3) {
                    (Err(e), q) => (Err(e), q),
                    (Ok(rd_length), p4) => (Ok((t, class, ttl, rd_length)), p4),
                },
            },
        },
    }
}

/// Reading the data of a record at `pos`, once its name and fixed fields are read.
/// The payload size and flags of an `OPT` record are its class and time to live.
pub open spec fn spec_decode_record_data(
    data: Seq<u8>,
    pos: int,
    name: Seq<Label>,
    fields: (u16, u16, u32, u16),
) -> Option<ReadStep<RecordView>> {
    let (t, class, ttl, rd_length) = fields;
    if type_of_code(t) == Type::OPT {
        match spec_read_span(data, pos, rd_length as int) {
            None => None,
            Some((Ok(options), q)) => Some(
                (Ok(RecordView::OPTRecord { size: class, flags: ttl, options }), q),
            ),
            Some((Err(e), q)) => Some((Err(e), q)),
        }
    } else {
        match spec_decode_rdata(data, pos, type_of_code(t), rd_length as int) {
            None => None,
            Some((Ok(d), q)) => Some(
                (
                    Ok(
                        RecordView::Record {
                            name,
                            rtype: type_of_code(t),
                            class: class_of_code(class),
                            ttl,
                            data: d,
                        },
                    ),
                    q,
                ),
            ),
            Some((Err(e), q)) => Some((Err(e), q)),
        }
    }
}

/// Reading a record at `pos`: its name, type code, class code (the payload size
/// for `OPT`), time to live (the flags for `OPT`) and data length, then its data.
#[verifier::opaque]
pub open spec fn spec_decode_record(data: Seq<u8>, pos: int) -> Option<ReadStep<RecordView>> {
    match spec_decode_labels(data, pos) {
        None => None,
        Some((Err(e), q)) => Some((Err(e), q)),
        Some((Ok(name), p1)) => match spec_read_record_fields(data, p1) {
            (Err(e), q) => Some((Err(e), q)),
            (Ok(fields), p2) => spec_decode_record_data(data, p2, name, fields),
        },
    }
}

/// Takes the `len` bytes at the cursor as a span of the message.
fn read_span(decoder: &mut Decoder, len: usize) -> (r: Result<Span, CodecError>)
    requires
        old(decoder).wf(),
        spec_read_span(old(decoder).data(), old(decoder).cursor(), len as int) is Some,
    ensures
        final(decoder).wf(),
        final(decoder).data() == old(decoder).data(),
        spec_read_span(old(decoder).data(), old(decoder).cursor(), len as int) == Some(
            (r, final(decoder).cursor()),
        ),
{
    let data = Span::Ref { start: decoder.position(), len };
    decoder.seek(decoder.position() + data.len())?;
    Ok(data)
}

fn decode_rdata(decoder: &mut Decoder, rtype: &Type, rd_length: usize) -> (r: Result<
    RecordData,
    CodecError,
>)
    requires
        old(decoder).wf(),
        spec_decode_rdata(old(decoder).data(), old(decoder).cursor(), *rtype, rd_length as int) is Some,
    ensures
        final(decoder).wf(),
        final(decoder).data() == old(decoder).data(),
        spec_decode_rdata(old(decoder).data(), old(decoder).cursor(), *rtype, rd_length as int)
            == Some((view_result(r), final(decoder).cursor())),
{
    let data = match rtype {
        Type::A => RecordData::A { address: read_span(decoder, rd_length)? },
        Type::NS => RecordData::NS { nsdname: Domain::decode(decoder)? },
        Type::CNAME => RecordData::CNAME { cname: Domain::decode(decoder)? },
        Type::SOA => {
            let mname = Domain::decode(decoder)?;
            let rname = Domain::decode(decoder)?;
            let serial = decoder.read_u32()?;
            let refresh = decoder.read_u32()?;
            let retry = decoder.read_u32()?;
            let expire = decoder.read_u32()?;
            let minimum = decoder.read_u32()?;
            RecordData::SOA { mname, rname, serial, refresh, retry, expire, minimum }
        },
        Type::PTR => RecordData::PTR { ptrdname: Domain::decode(decoder)? },
        Type::MX => {
            let preference = decoder.read_u16()?;
            let exchange = Domain::decode(decoder)?;
            RecordData::MX { preference, exchange }
        },
        Type::TXT => RecordData::TXT { text: read_span(decoder, rd_length)? },
        Type::AAAA => RecordData::AAAA { address: read_span(decoder, rd_length)? },
        Type::OPT => {
            // `OPT` records are read by the caller.
            assert(false);
            return Err(CodecError::FormatError);
        },
        Type::Unknown(_) => RecordData::Unknown { data: read_span(decoder, rd_length)? },
    };
    Ok(data)
}

impl<'a> Decode<'a> for Record {
    open spec fn spec_decode(data: Seq<u8>, pos: int) -> Option<ReadStep<RecordView>> {
        spec_decode_record(data, pos)
    }

    fn decode(decoder: &mut Decoder<'a>) -> (r: Result<Self, CodecError>) {
        proof {
            reveal(spec_decode_record);
        }
        let name = Domain::decode(decoder)?;
        let rtype: Type = decoder.read_u16()?.into();
        let class = decoder.read_u16()?;
        let ttl = decoder.read_u32()?;
        let rd_length: usize = decoder.read_u16()?.into();
        match rtype {
            Type::OPT => Ok(
                Self::OPTRecord { size: class, flags: ttl, options: read_span(decoder, rd_length)? },
            ),
            _ => {
                let data = decode_rdata(decoder, &rtype, rd_length)?;
                Ok(Self::Record { name, rtype, class: class.into(), ttl, data })
            },
        }
    }
}

/// Writing record data: spans as bytes, names as labels, numbers in network order.
pub open spec fn spec_encode_rdata(d: RecordDataView, st: EncodeState) -> Option<WriteStep> {
    match d {
        RecordDataView::A { address } => spec_write_span(address, st),
        RecordDataView::NS { nsdname } => spec_encode_domain(nsdname, st),
        RecordDataView::CNAME { cname } => spec_encode_domain(cname, st),
        RecordDataView::SOA { mname, rname, serial, refresh, retry, expire, minimum } => match spec_encode_domain(mname, st) {
            None => None,
            Some((Err(e), s)) => Some((Err(e), s)),
            Some((Ok(()), s1)) => match spec_encode_domain(rname, s1) {
                None => None,
                Some((Err(e), s)) => Some((Err(e), s)),
                Some((Ok(()), s2)) => Some(
                    spec_write_soa_numbers(s2, serial, refresh, retry, expire, minimum),
                ),
            },
        },
        RecordDataView::PTR { ptrdname } => spec_encode_domain(ptrdname, st),
        RecordDataView::MX { preference, exchange } => match spec_write_bytes(
            st,
            be_bytes_u16(preference),
        ) {
            (Err(e), s) => Some((Err(e), s)),
            (Ok(()), s1) => spec_encode_domain(exchange, s1),
        },
        RecordDataView::TXT { text } => spec_write_span(text, st),
        RecordDataView::AAAA { address } => spec_write_span(address, st),
        RecordDataView::Unknown { data } => spec_write_span(data, st),
    }
}

/// Writing the type code, the class code (or payload size) and the time to
/// live (or flags) of a record.
pub open spec fn spec_write_record_fields(st: EncodeState, t: u16, class: u16, ttl: u32) -> WriteStep {
    match spec_write_bytes(st, be_bytes_u16(t)) {
        (Err(e), s) => (Err(e), s),
        (Ok(()), s1) => match spec_write_bytes(s1, be_bytes_u16(class)) {
            (Err(e), s) => (Err(e), s),
            (Ok(()), s2) => spec_write_bytes(s2, be_bytes_u32(ttl)),
        },
    }
}

/// Writing a record. A plain record writes its name, type and class codes, time
/// to live, the data's size cut to 16 bits (`None` where that size overflows),
/// and its data. An `OPT` record writes the empty name, type code 41, its size,
/// its flags, the options' length cut to 16 bits, and the options.
pub open spec fn spec_encode_record(r: RecordView, st: EncodeState) -> Option<WriteStep> {
    match r {
        RecordView::Record { name, rtype, class, ttl, data } => match spec_encode_domain(name, st) {
            None => None,
            Some((Err(e), s)) => Some((Err(e), s)),
            Some((Ok(()), s1)) => match spec_write_record_fields(
                s1,
                code_of_type(rtype),
                code_of_class(class),
                ttl,
            ) {
                (Err(e), s) => Some((Err(e), s)),
                (Ok(()), s4) => if rdata_size(data) > usize::MAX {
                    None
                } else {
                    match spec_write_bytes(s4, be_bytes_u16(rdata_size(data) as u16)) {
                        (Err(e), s) => Some((Err(e), s)),
                        (Ok(()), s5) => spec_encode_rdata(data, s5),
                    }
                },
            },
        },
        RecordView::OPTRecord { size, flags, options } => match spec_encode_domain(
            Seq::empty(),
            st,
        ) {
            None => None,
            Some((Err(e), s)) => Some((Err(e), s)),
            Some((Ok(()), s1)) => match spec_write_record_fields(
                s1,
                code_of_type(Type::OPT),
                size,
                flags,
            ) {
                (Err(e), s) => Some((Err(e), s)),
                (Ok(()), s4) => match spec_write_bytes(s4, be_bytes_u16(span_len(options) as u16)) {
                    (Err(e), s) => Some((Err(e), s)),
                    (Ok(()), s5) => spec_write_span(options, s5),
                },
            },
        },
    }
}

fn encode_rdata(data: RecordData, encoder: &mut Encoder) -> (r: Result<(), CodecError>)
    requires
        old(encoder).wf(),
        spec_encode_rdata(data@, old(encoder).state()) is Some,
    ensures
        final(encoder).wf(),
        spec_encode_rdata(data@, old(encoder).state()) == Some((r, final(encoder).state())),
{
    match data {
        RecordData::A { address } => write_span(&address, encoder)?,
        RecordData::NS { nsdname } => nsdname.encode(encoder)?,
        RecordData::CNAME { cname } => cname.encode(encoder)?,
        RecordData::SOA { mname, rname, serial, refresh, retry, expire, minimum } => {
            mname.encode(encoder)?;
            rname.encode(encoder)?;
            encoder.write_u32(serial)?;
            encoder.write_u32(refresh)?;
            encoder.write_u32(retry)?;
            encoder.write_u32(expire)?;
            encoder.write_u32(minimum)?;
        },
        RecordData::PTR { ptrdname } => ptrdname.encode(encoder)?,
        RecordData::MX { preference, exchange } => {
            encoder.write_u16(preference)?;
            exchange.encode(encoder)?;
        },
        RecordData::TXT { text } => write_span(&text, encoder)?,
        RecordData::AAAA { address } => write_span(&address, encoder)?,
        RecordData::Unknown { data } => write_span(&data, encoder)?,
    }
    Ok(())
}

impl<'a> Encode<'a> for Record {
    open spec fn spec_encode(self, st: EncodeState) -> Option<WriteStep> {
        spec_encode_record(self@, st)
    }

    fn encode(self, encoder: &mut Encoder<'a>) -> (r: Result<(), CodecError>) {
        match self {
            Record::Record { name, rtype, class, ttl, data } => {
                name.encode(encoder)?;
                encoder.write_u16(rtype.into())?;
                encoder.write_u16(class.into())?;
                encoder.write_u32(ttl)?;
                encoder.write_u16(data.size() as u16)?;
                encode_rdata(data, encoder)?;
            },
            Record::OPTRecord { size, flags, options } => {
                Domain::default().encode(encoder)?;
                encoder.write_u16(Type::OPT.into())?;
                encoder.write_u16(size)?;
                encoder.write_u32(flags)?;
                encoder.write_u16(options.len() as u16)?;
                write_span(&options, encoder)?;
            },
        }
        Ok(())
    }
}

/// The number of names in record data.
pub open spec fn rdata_name_count(d: RecordDataView) -> nat {
    match d {
        RecordDataView::NS { .. } | RecordDataView::CNAME { .. } | RecordDataView::PTR { .. }
        | RecordDataView::MX { .. } => 1,
        RecordDataView::SOA { .. } => 2,
        _ => 0,
    }
}

/// A successful write of record data moves the cursor on by its `size()` plus
/// one terminating zero byte for each name in it: for data with names, the
/// data length that a record writes falls short of the bytes that follow it.
pub proof fn lemma_rdata_write_length(d: RecordDataView, st: EncodeState)
    requires
        spec_encode_rdata(d, st) matches Some((Ok(()), _)),
    ensures
        spec_encode_rdata(d, st).unwrap().1.pos == st.pos + rdata_size(d) + rdata_name_count(d),
{
    match d {
        RecordDataView::NS { nsdname } => lemma_domain_write_length(nsdname, st),
        RecordDataView::CNAME { cname } => lemma_domain_write_length(cname, st),
        RecordDataView::PTR { ptrdname } => lemma_domain_write_length(ptrdname, st),
        RecordDataView::MX { preference, exchange } => {
            let s1 = spec_write_bytes(st, be_bytes_u16(preference)).1;
            lemma_domain_write_length(exchange, s1);
        },
        RecordDataView::SOA { mname, rname, serial, refresh, retry, expire, minimum } => {
            lemma_domain_write_length(mname, st);
            let s1 = spec_encode_domain(mname, st).unwrap().1;
            lemma_domain_write_length(rname, s1);
        },
        _ => {},
    }
}

/// A span of own bytes whose length fits the 16-bit data length.
pub open spec fn owned_span(s: Span) -> bool {
    s is Owned && span_len(s) < 0x10000
}

/// Every label of the name holds its own bytes, 1 to 63 of them.
pub open spec fn short_owned_name(labels: Seq<Label>) -> bool {
    forall|i: int| 0 <= i < labels.len() ==> short_owned(#[trigger] labels[i])
}

/// Record data that a record of type `t` holds and that reading gives back:
/// the variant that `t` names, with names of labels that hold their own bytes
/// and spans of own bytes.
pub open spec fn rdata_fits(t: Type, d: RecordDataView) -> bool {
    match (t, d) {
        (Type::A, RecordDataView::A { address }) => owned_span(address),
        (Type::NS, RecordDataView::NS { nsdname }) => short_owned_name(nsdname),
        (Type::CNAME, RecordDataView::CNAME { cname }) => short_owned_name(cname),
        (Type::SOA, RecordDataView::SOA { mname, rname, .. }) => short_owned_name(mname)
            && short_owned_name(rname),
        (Type::PTR, RecordDataView::PTR { ptrdname }) => short_owned_name(ptrdname),
        (Type::MX, RecordDataView::MX { exchange, .. }) => short_owned_name(exchange),
        (Type::TXT, RecordDataView::TXT { text }) => owned_span(text),
        (Type::AAAA, RecordDataView::AAAA { address }) => owned_span(address),
        (Type::Unknown(code), RecordDataView::Unknown { data }) => canonical_type(Type::Unknown(code))
            && owned_span(data),
        _ => false,
    }
}

/// Whether the data is a run of bytes, whose length the record gives.
pub open spec fn rdata_is_span(d: RecordDataView) -> bool {
    d is A || d is TXT || d is AAAA || d is Unknown
}

/// The span that reading gives back for a span of `len` bytes written at `pos`.
pub open spec fn span_at(pos: int, len: nat) -> Span {
    Span::Ref { start: pos as usize, len: len as usize }
}

/// The data that reading gives back for `d` written at `pos`: spans and labels
/// that point at the bytes written for them.
pub open spec fn rdata_written_at(d: RecordDataView, pos: int) -> RecordDataView {
    match d {
        RecordDataView::A { address } => RecordDataView::A { address: span_at(pos, span_len(address)) },
        RecordDataView::NS { nsdname } => RecordDataView::NS {
            nsdname: labels_written_at(nsdname, pos),
        },
        RecordDataView::CNAME { cname } => RecordDataView::CNAME {
            cname: labels_written_at(cname, pos),
        },
        RecordDataView::SOA { mname, rname, serial, refresh, retry, expire, minimum } =>
            RecordDataView::SOA {
            mname: labels_written_at(mname, pos),
            rname: labels_written_at(rname, pos + domain_size(mname) + 1),
            serial,
            refresh,
            retry,
            expire,
            minimum,
        },
        RecordDataView::PTR { ptrdname } => RecordDataView::PTR {
            ptrdname: labels_written_at(ptrdname, pos),
        },
        RecordDataView::MX { preference, exchange } => RecordDataView::MX {
            preference,
            exchange: labels_written_at(exchange, pos + 2),
        },
        RecordDataView::TXT { text } => RecordDataView::TXT { text: span_at(pos, span_len(text)) },
        RecordDataView::AAAA { address } => RecordDataView::AAAA {
            address: span_at(pos, span_len(address)),
        },
        RecordDataView::Unknown { data } => RecordDataView::Unknown {
            data: span_at(pos, span_len(data)),
        },
    }
}

/// The state after a write agrees with the state before it below the old cursor.
pub open spec fn kept_below(before: EncodeState, after: EncodeState) -> bool {
    &&& valid_state(after)
    &&& before.pos <= after.pos
    &&& forall|i: int| 0 <= i < before.pos ==> after.bytes[i] == before.bytes[i]
}

proof fn lemma_kept_trans(a: EncodeState, b: EncodeState, c: EncodeState)
    requires
        kept_below(a, b),
        kept_below(b, c),
    ensures
        kept_below(a, c),
{
}

proof fn lemma_write_kept(st: EncodeState, run: Seq<u8>)
    requires
        valid_state(st),
        spec_write_bytes(st, run).0 is Ok,
    ensures
        kept_below(st, spec_write_bytes(st, run).1),
        spec_write_bytes(st, run).1.pos == st.pos + run.len(),
{
    lemma_write_bytes_effect(st, run);
}

/// A 32-bit value written at `st` is read back from a later state that kept it.
proof fn lemma_u32_read_later(st: EncodeState, v: u32, fin: EncodeState)
    requires
        valid_state(st),
        spec_write_bytes(st, be_bytes_u32(v)).0 is Ok,
        kept_below(spec_write_bytes(st, be_bytes_u32(v)).1, fin),
    ensures
        spec_read_u32(fin.bytes, st.pos) == (Ok::<u32, CodecError>(v), st.pos + 4),
{
    let mid = spec_write_bytes(st, be_bytes_u32(v)).1;
    lemma_write_kept(st, be_bytes_u32(v));
    lemma_write_read_u32(st, v);
    lemma_read_u32_frame(mid.bytes, fin.bytes, st.pos);
}

/// A 16-bit value written at `st` is read back from a later state that kept it.
proof fn lemma_u16_read_later(st: EncodeState, v: u16, fin: EncodeState)
    requires
        valid_state(st),
        spec_write_bytes(st, be_bytes_u16(v)).0 is Ok,
        kept_below(spec_write_bytes(st, be_bytes_u16(v)).1, fin),
    ensures
        spec_read_u16(fin.bytes, st.pos) == (Ok::<u16, CodecError>(v), st.pos + 2),
{
    let mid = spec_write_bytes(st, be_bytes_u16(v)).1;
    lemma_write_kept(st, be_bytes_u16(v));
    lemma_write_read_u16(st, v);
    lemma_read_u16_frame(mid.bytes, fin.bytes, st.pos);
}

proof fn lemma_span_write_read(sp: Span, st: EncodeState)
    requires
        valid_state(st),
        owned_span(sp),
        spec_write_span(sp, st) matches Some((Ok(()), _)),
    ensures
        ({
            let fin = spec_write_span(sp, st).unwrap().1;
            &&& kept_below(st, fin)
            &&& fin.pos == st.pos + span_len(sp)
            &&& spec_read_span(fin.bytes, st.pos, span_len(sp) as int) == Some(
                (Ok::<Span, CodecError>(span_at(st.pos, span_len(sp))), fin.pos),
            )
        }),
{
    let data = match sp {
        Span::Owned { data } => data@,
        Span::Ref { .. } => Seq::empty(),
    };
    lemma_write_bytes_effect(st, data);
}

proof fn lemma_name_write_read(labels: Seq<Label>, st: EncodeState)
    requires
        valid_state(st),
        short_owned_name(labels),
        spec_encode_domain(labels, st) matches Some((Ok(()), _)),
    ensures
        ({
            let fin = spec_encode_domain(labels, st).unwrap().1;
            &&& kept_below(st, fin)
            &&& fin.pos == st.pos + domain_size(labels) + 1
            &&& walk_result_is(fin.bytes, st.pos, labels_written_at(labels, st.pos), fin.pos)
        }),
{
    lemma_domain_write_walk(labels, st);
}

/// The walk without pointers at `pos` of `bytes` reads `labels` and ends at `end`.
pub open spec fn walk_result_is(bytes: Seq<u8>, pos: int, labels: Seq<Label>, end: int) -> bool {
    crate::domain::walk_labels(bytes, pos, 0) == Some((Ok::<Seq<Label>, CodecError>(labels), end))
}

/// A name read back through later writes that kept its bytes.
proof fn lemma_name_read_later(mid: EncodeState, fin: EncodeState, pos: int, labels: Seq<Label>)
    requires
        walk_result_is(mid.bytes, pos, labels, mid.pos),
        kept_below(mid, fin),
        valid_state(mid),
    ensures
        spec_decode_labels(fin.bytes, pos) == Some((Ok::<Seq<Label>, CodecError>(labels), mid.pos)),
{
    lemma_walk_frame(mid.bytes, fin.bytes, pos);
    lemma_decode_labels_any_depth(fin.bytes, pos, 0);
}

proof fn lemma_mx_write_read(t: Type, d: RecordDataView, st: EncodeState, rd_length: int)
    requires
        valid_state(st),
        rdata_fits(t, d),
        d is MX,
        spec_encode_rdata(d, st) matches Some((Ok(()), _)),
    ensures
        ({
            let fin = spec_encode_rdata(d, st).unwrap().1;
            &&& kept_below(st, fin)
            &&& spec_decode_rdata(fin.bytes, st.pos, t, rd_length) == Some(
                (Ok::<RecordDataView, CodecError>(rdata_written_at(d, st.pos)), fin.pos),
            )
        }),
{
    let fin = spec_encode_rdata(d, st).unwrap().1;
    if let RecordDataView::MX { preference, exchange } = d {
        let s1 = spec_write_bytes(st, be_bytes_u16(preference)).1;
        lemma_write_kept(st, be_bytes_u16(preference));
        lemma_name_write_read(exchange, s1);
        lemma_u16_read_later(st, preference, fin);
        lemma_name_read_later(fin, fin, s1.pos, labels_written_at(exchange, s1.pos));
        lemma_kept_trans(st, s1, fin);
    }
}

#[verifier::spinoff_prover]
#[verifier::rlimit(50)]
proof fn lemma_soa_numbers_write_read(
    st: EncodeState,
    serial: u32,
    refresh: u32,
    retry: u32,
    expire: u32,
    minimum: u32,
    fin: EncodeState,
)
    requires
        valid_state(st),
        spec_write_soa_numbers(st, serial, refresh, retry, expire, minimum).0 is Ok,
        kept_below(spec_write_soa_numbers(st, serial, refresh, retry, expire, minimum).1, fin),
    ensures
        kept_below(st, spec_write_soa_numbers(st, serial, refresh, retry, expire, minimum).1),
        spec_read_soa_numbers(fin.bytes, st.pos) == (
            Ok::<(u32, u32, u32, u32, u32), CodecError>((serial, refresh, retry, expire, minimum)),
            spec_write_soa_numbers(st, serial, refresh, retry, expire, minimum).1.pos,
        ),
{
    let s1 = spec_write_bytes(st, be_bytes_u32(serial)).1;
    lemma_write_kept(st, be_bytes_u32(serial));
    let s2 = spec_write_bytes(s1, be_bytes_u32(refresh)).1;
    lemma_write_kept(s1, be_bytes_u32(refresh));
    let s3 = spec_write_bytes(s2, be_bytes_u32(retry)).1;
    lemma_write_kept(s2, be_bytes_u32(retry));
    let s4 = spec_write_bytes(s3, be_bytes_u32(expire)).1;
    lemma_write_kept(s3, be_bytes_u32(expire));
    let s5 = spec_write_bytes(s4, be_bytes_u32(minimum)).1;
    lemma_write_kept(s4, be_bytes_u32(minimum));
    lemma_kept_trans(s4, s5, fin);
    lemma_kept_trans(s3, s4, fin);
    lemma_kept_trans(s2, s3, fin);
    lemma_kept_trans(s1, s2, fin);
    lemma_u32_read_later(st, serial, fin);
    lemma_u32_read_later(s1, refresh, fin);
    lemma_u32_read_later(s2, retry, fin);
    lemma_u32_read_later(s3, expire, fin);
    lemma_u32_read_later(s4, minimum, fin);
    lemma_kept_trans(s3, s4, s5);
    lemma_kept_trans(s2, s3, s5);
    lemma_kept_trans(s1, s2, s5);
    lemma_kept_trans(st, s1, s5);
}

#[verifier::spinoff_prover]
#[verifier::rlimit(50)]
proof fn lemma_soa_write_read(t: Type, d: RecordDataView, st: EncodeState, rd_length: int)
    requires
        valid_state(st),
        rdata_fits(t, d),
        d is SOA,
        spec_encode_rdata(d, st) matches Some((Ok(()), _)),
    ensures
        ({
            let fin = spec_encode_rdata(d, st).unwrap().1;
            &&& kept_below(st, fin)
            &&& spec_decode_rdata(fin.bytes, st.pos, t, rd_length) == Some(
                (Ok::<RecordDataView, CodecError>(rdata_written_at(d, st.pos)), fin.pos),
            )
        }),
{
    let fin = spec_encode_rdata(d, st).unwrap().1;
    if let RecordDataView::SOA { mname, rname, serial, refresh, retry, expire, minimum } = d {
        let s1 = spec_encode_domain(mname, st).unwrap().1;
        lemma_name_write_read(mname, st);
        let s2 = spec_encode_domain(rname, s1).unwrap().1;
        lemma_name_write_read(rname, s1);
        assert(fin == spec_write_soa_numbers(s2, serial, refresh, retry, expire, minimum).1);
        lemma_soa_numbers_write_read(s2, serial, refresh, retry, expire, minimum, fin);
        lemma_kept_trans(s1, s2, fin);
        lemma_kept_trans(st, s1, fin);
        lemma_name_read_later(s1, fin, st.pos, labels_written_at(mname, st.pos));
        lemma_name_read_later(s2, fin, s1.pos, labels_written_at(rname, s1.pos));
    }
}

proof fn lemma_rdata_write_read(t: Type, d: RecordDataView, st: EncodeState, rd_length: int)
    requires
        valid_state(st),
        rdata_fits(t, d),
        rdata_is_span(d) ==> rd_length == rdata_size(d),
        spec_encode_rdata(d, st) matches Some((Ok(()), _)),
    ensures
        ({
            let fin = spec_encode_rdata(d, st).unwrap().1;
            &&& kept_below(st, fin)
            &&& spec_decode_rdata(fin.bytes, st.pos, t, rd_length) == Some(
                (Ok::<RecordDataView, CodecError>(rdata_written_at(d, st.pos)), fin.pos),
            )
        }),
{
    let fin = spec_encode_rdata(d, st).unwrap().1;
    match d {
        RecordDataView::A { address } => lemma_span_write_read(address, st),
        RecordDataView::TXT { text } => lemma_span_write_read(text, st),
        RecordDataView::AAAA { address } => lemma_span_write_read(address, st),
        RecordDataView::Unknown { data } => lemma_span_write_read(data, st),
        RecordDataView::NS { nsdname } => {
            lemma_name_write_read(nsdname, st);
            lemma_name_read_later(fin, fin, st.pos, labels_written_at(nsdname, st.pos));
        },
        RecordDataView::CNAME { cname } => {
            lemma_name_write_read(cname, st);
            lemma_name_read_later(fin, fin, st.pos, labels_written_at(cname, st.pos));
        },
        RecordDataView::PTR { ptrdname } => {
            lemma_name_write_read(ptrdname, st);
            lemma_name_read_later(fin, fin, st.pos, labels_written_at(ptrdname, st.pos));
        },
        RecordDataView::MX { .. } => lemma_mx_write_read(t, d, st, rd_length),
        RecordDataView::SOA { .. } => lemma_soa_write_read(t, d, st, rd_length),
    }
}

/// A record that reading gives back: a plain record with a name of labels that
/// hold their own bytes and data that fits its type (not `OPT`); or an `OPT`
/// record whose options are own bytes.
pub open spec fn record_fits(r: RecordView) -> bool {
    match r {
        RecordView::Record { name, rtype, class, data, .. } => {
            &&& short_owned_name(name)
            &&& rdata_fits(rtype, data)
        },
        RecordView::OPTRecord { options, .. } => owned_span(options),
    }
}

/// The record that reading gives back for `r` written at `pos`: its names,
/// data and options point at the bytes written for them, and its class is the
/// one that the class's code converts back to.
pub open spec fn record_written_at(r: RecordView, pos: int) -> RecordView {
    match r {
        RecordView::Record { name, rtype, class, ttl, data } => RecordView::Record {
            name: labels_written_at(name, pos),
            rtype,
            class: class_of_code(code_of_class(class)),
            ttl,
            data: rdata_written_at(data, pos + domain_size(name) + 11),
        },
        RecordView::OPTRecord { size, flags, options } => RecordView::OPTRecord {
            size,
            flags,
            options: span_at(pos + 11, span_len(options)),
        },
    }
}

proof fn lemma_fields_write_read(
    st: EncodeState,
    t: u16,
    class: u16,
    ttl: u32,
    rd_length: u16,
    fin: EncodeState,
)
    requires
        valid_state(st),
        spec_write_record_fields(st, t, class, ttl).0 is Ok,
        spec_write_bytes(spec_write_record_fields(st, t, class, ttl).1, be_bytes_u16(rd_length)).0 is Ok,
        kept_below(
            spec_write_bytes(spec_write_record_fields(st, t, class, ttl).1, be_bytes_u16(rd_length)).1,
            fin,
        ),
    ensures
        ({
            let s5 = spec_write_bytes(
                spec_write_record_fields(st, t, class, ttl).1,
                be_bytes_u16(rd_length),
            ).1;
            &&& kept_below(st, s5)
            &&& s5.pos == st.pos + 10
            &&& spec_read_record_fields(fin.bytes, st.pos) == (
                Ok::<(u16, u16, u32, u16), CodecError>((t, class, ttl, rd_length)),
                s5.pos,
            )
        }),
{
    let s1 = spec_write_bytes(st, be_bytes_u16(t)).1;
    lemma_write_kept(st, be_bytes_u16(t));
    let s2 = spec_write_bytes(s1, be_bytes_u16(class)).1;
    lemma_write_kept(s1, be_bytes_u16(class));
    let s3 = spec_write_bytes(s2, be_bytes_u32(ttl)).1;
    lemma_write_kept(s2, be_bytes_u32(ttl));
    let s4 = spec_write_bytes(s3, be_bytes_u16(rd_length)).1;
    lemma_write_kept(s3, be_bytes_u16(rd_length));
    lemma_kept_trans(s2, s3, s4);
    lemma_kept_trans(s1, s2, s4);
    lemma_kept_trans(st, s1, s4);
    lemma_kept_trans(s2, s3, fin);
    lemma_kept_trans(s1, s2, fin);
    lemma_u16_read_later(st, t, fin);
    lemma_u16_read_later(s1, class, fin);
    lemma_u32_read_later(s2, ttl, fin);
    lemma_u16_read_later(s3, rd_length, fin);
}

proof fn lemma_plain_record_write_read(r: RecordView, st: EncodeState)
    requires
        valid_state(st),
        record_fits(r),
        r is Record,
        spec_encode_record(r, st) matches Some((Ok(()), _)),
    ensures
        ({
            let fin = spec_encode_record(r, st).unwrap().1;
            spec_decode_record(fin.bytes, st.pos) == Some(
                (Ok::<RecordView, CodecError>(record_written_at(r, st.pos)), fin.pos),
            )
        }),
{
    reveal(spec_decode_record);
    let fin = spec_encode_record(r, st).unwrap().1;
    if let RecordView::Record { name, rtype, class, ttl, data } = r {
        let s1 = spec_encode_domain(name, st).unwrap().1;
        lemma_name_write_read(name, st);
        let s4 = spec_write_record_fields(s1, code_of_type(rtype), code_of_class(class), ttl).1;
        let len = rdata_size(data) as u16;
        let s5 = spec_write_bytes(s4, be_bytes_u16(len)).1;
        assert(fin == spec_encode_rdata(data, s5).unwrap().1);
        lemma_fields_write_read(s1, code_of_type(rtype), code_of_class(class), ttl, len, s5);
        lemma_rdata_write_read(rtype, data, s5, len as int);
        lemma_fields_write_read(s1, code_of_type(rtype), code_of_class(class), ttl, len, fin);
        lemma_kept_trans(s1, s5, fin);
        lemma_name_read_later(s1, fin, st.pos, labels_written_at(name, st.pos));
        lemma_type_roundtrip(rtype);
    }
}

proof fn lemma_opt_record_write_read(r: RecordView, st: EncodeState)
    requires
        valid_state(st),
        record_fits(r),
        r is OPTRecord,
        spec_encode_record(r, st) matches Some((Ok(()), _)),
    ensures
        ({
            let fin = spec_encode_record(r, st).unwrap().1;
            spec_decode_record(fin.bytes, st.pos) == Some(
                (Ok::<RecordView, CodecError>(record_written_at(r, st.pos)), fin.pos),
            )
        }),
{
    reveal(spec_decode_record);
    let fin = spec_encode_record(r, st).unwrap().1;
    if let RecordView::OPTRecord { size, flags, options } = r {
        let s1 = spec_encode_domain(Seq::empty(), st).unwrap().1;
        lemma_name_write_read(Seq::empty(), st);
        let s4 = spec_write_record_fields(s1, code_of_type(Type::OPT), size, flags).1;
        let len = span_len(options) as u16;
        let s5 = spec_write_bytes(s4, be_bytes_u16(len)).1;
        assert(fin == spec_write_span(options, s5).unwrap().1);
        lemma_fields_write_read(s1, code_of_type(Type::OPT), size, flags, len, s5);
        lemma_span_write_read(options, s5);
        lemma_fields_write_read(s1, code_of_type(Type::OPT), size, flags, len, fin);
        lemma_kept_trans(s1, s5, fin);
        lemma_name_read_later(s1, fin, st.pos, labels_written_at(Seq::empty(), st.pos));
    }
}

/// A record that fits is read back from where it was written, as
/// `record_written_at` describes, with the cursor where the write left it.
pub proof fn lemma_record_write_read(r: RecordView, st: EncodeState)
    requires
        valid_state(st),
        record_fits(r),
        spec_encode_record(r, st) matches Some((Ok(()), _)),
    ensures
        ({
            let fin = spec_encode_record(r, st).unwrap().1;
            spec_decode_record(fin.bytes, st.pos) == Some(
                (Ok::<RecordView, CodecError>(record_written_at(r, st.pos)), fin.pos),
            )
        }),
{
    if r is Record {
        lemma_plain_record_write_read(r, st);
    } else {
        lemma_opt_record_write_read(r, st);
    }
}

proof fn lemma_span_kept(sp: Span, st: EncodeState)
    requires
        valid_state(st),
        spec_write_span(sp, st) matches Some((Ok(()), _)),
    ensures
        kept_below(st, spec_write_span(sp, st).unwrap().1),
{
    match sp {
        Span::Owned { data } => lemma_write_kept(st, data@),
        Span::Ref { start, len } => {
            let run = st.bytes.subrange(start as int, len as int);
            let fin = spec_write_span(sp, st).unwrap().1;
            assert(fin.bytes == splice(st.bytes, st.pos, run));
            assert(fin.bytes.len() == 4096);
            assert forall|i: int| 0 <= i < st.pos implies fin.bytes[i] == st.bytes[i] by {
                assert(splice(st.bytes, st.pos, run)[i] == st.bytes.take(st.pos)[i]);
            }
        },
    }
}

proof fn lemma_labels_kept(labels: Seq<Label>, st: EncodeState)
    requires
        valid_state(st),
        spec_encode_labels(labels, st) matches Some((Ok(()), _)),
    ensures
        kept_below(st, spec_encode_labels(labels, st).unwrap().1),
    decreases labels.len(),
{
    if labels.len() > 0 {
        let l = labels[0];
        let run = seq![span_len(l.data) as u8];
        lemma_write_kept(st, run);
        let s1 = spec_write_bytes(st, run).1;
        lemma_span_kept(l.data, s1);
        let s2 = spec_write_span(l.data, s1).unwrap().1;
        lemma_labels_kept(labels.drop_first(), s2);
        let fin = spec_encode_labels(labels, st).unwrap().1;
        lemma_kept_trans(s1, s2, fin);
        lemma_kept_trans(st, s1, fin);
    }
}

proof fn lemma_name_kept(labels: Seq<Label>, st: EncodeState)
    requires
        valid_state(st),
        spec_encode_domain(labels, st) matches Some((Ok(()), _)),
    ensures
        kept_below(st, spec_encode_domain(labels, st).unwrap().1),
        spec_encode_domain(labels, st).unwrap().1.pos == st.pos + domain_size(labels) + 1,
{
    lemma_labels_kept(labels, st);
    let s1 = spec_encode_labels(labels, st).unwrap().1;
    lemma_write_kept(s1, seq![0u8]);
    lemma_domain_write_length(labels, st);
}

proof fn lemma_rdata_kept(d: RecordDataView, st: EncodeState)
    requires
        valid_state(st),
        spec_encode_rdata(d, st) matches Some((Ok(()), _)),
    ensures
        kept_below(st, spec_encode_rdata(d, st).unwrap().1),
{
    let fin = spec_encode_rdata(d, st).unwrap().1;
    match d {
        RecordDataView::A { address } => lemma_span_kept(address, st),
        RecordDataView::TXT { text } => lemma_span_kept(text, st),
        RecordDataView::AAAA { address } => lemma_span_kept(address, st),
        RecordDataView::Unknown { data } => lemma_span_kept(data, st),
        RecordDataView::NS { nsdname } => lemma_name_kept(nsdname, st),
        RecordDataView::CNAME { cname } => lemma_name_kept(cname, st),
        RecordDataView::PTR { ptrdname } => lemma_name_kept(ptrdname, st),
        RecordDataView::MX { preference, exchange } => {
            lemma_write_kept(st, be_bytes_u16(preference));
            let s1 = spec_write_bytes(st, be_bytes_u16(preference)).1;
            lemma_name_kept(exchange, s1);
            lemma_kept_trans(st, s1, fin);
        },
        RecordDataView::SOA { mname, rname, serial, refresh, retry, expire, minimum } => {
            lemma_name_kept(mname, st);
            let s1 = spec_encode_domain(mname, st).unwrap().1;
            lemma_name_kept(rname, s1);
            let s2 = spec_encode_domain(rname, s1).unwrap().1;
            lemma_soa_numbers_write_read(s2, serial, refresh, retry, expire, minimum, fin);
            lemma_kept_trans(s1, s2, fin);
            lemma_kept_trans(st, s1, fin);
        },
    }
}

/// Every record writes its fixed fields right behind its name. A plain record,
/// whatever its type, class and data, writes its type's code, its class's
/// code, its time to live and, as the data length, its data's `size()` cut to
/// 16 bits, which is that size itself where it fits. An `OPT` record writes,
/// behind the one-byte empty name, type code 41, its payload size, its flags
/// and the length of its options cut to 16 bits.
pub proof fn lemma_record_fields_written(r: RecordView, st: EncodeState)
    requires
        valid_state(st),
        spec_encode_record(r, st) matches Some((Ok(()), _)),
    ensures
        ({
            let fin = spec_encode_record(r, st).unwrap().1;
            match r {
                RecordView::Record { name, rtype, class, ttl, data } => {
                    &&& spec_read_record_fields(fin.bytes, st.pos + domain_size(name) + 1) == (
                        Ok::<(u16, u16, u32, u16), CodecError>(
                            (code_of_type(rtype), code_of_class(class), ttl, rdata_size(data) as u16),
                        ),
                        st.pos + domain_size(name) + 11,
                    )
                    &&& rdata_size(data) < 0x10000 ==> (rdata_size(data) as u16) as nat
                        == rdata_size(data)
                },
                RecordView::OPTRecord { size, flags, options } => {
                    spec_read_record_fields(fin.bytes, st.pos + 1) == (
                        Ok::<(u16, u16, u32, u16), CodecError>(
                            (41u16, size, flags, span_len(options) as u16),
                        ),
                        st.pos + 11,
                    )
                },
            }
        }),
{
    let fin = spec_encode_record(r, st).unwrap().1;
    match r {
        RecordView::Record { name, rtype, class, ttl, data } => {
            lemma_name_kept(name, st);
            let s1 = spec_encode_domain(name, st).unwrap().1;
            let t = code_of_type(rtype);
            let c = code_of_class(class);
            lemma_write_kept(s1, be_bytes_u16(t));
            let s2 = spec_write_bytes(s1, be_bytes_u16(t)).1;
            lemma_write_kept(s2, be_bytes_u16(c));
            let s3 = spec_write_bytes(s2, be_bytes_u16(c)).1;
            lemma_write_kept(s3, be_bytes_u32(ttl));
            let s4 = spec_write_bytes(s3, be_bytes_u32(ttl)).1;
            let len = rdata_size(data) as u16;
            lemma_write_kept(s4, be_bytes_u16(len));
            let s5 = spec_write_bytes(s4, be_bytes_u16(len)).1;
            assert(fin == spec_encode_rdata(data, s5).unwrap().1);
            lemma_rdata_kept(data, s5);
            lemma_fields_write_read(s1, t, c, ttl, len, fin);
        },
        RecordView::OPTRecord { size, flags, options } => {
            lemma_name_kept(Seq::empty(), st);
            let s1 = spec_encode_domain(Seq::empty(), st).unwrap().1;
            let t = code_of_type(Type::OPT);
            lemma_write_kept(s1, be_bytes_u16(t));
            let s2 = spec_write_bytes(s1, be_bytes_u16(t)).1;
            lemma_write_kept(s2, be_bytes_u16(size));
            let s3 = spec_write_bytes(s2, be_bytes_u16(size)).1;
            lemma_write_kept(s3, be_bytes_u32(flags));
            let s4 = spec_write_bytes(s3, be_bytes_u32(flags)).1;
            let len = span_len(options) as u16;
            lemma_write_kept(s4, be_bytes_u16(len));
            let s5 = spec_write_bytes(s4, be_bytes_u16(len)).1;
            assert(fin == spec_write_span(options, s5).unwrap().1);
            lemma_span_kept(options, s5);
            lemma_fields_write_read(s1, t, size, flags, len, fin);
            assert(domain_size(Seq::<Label>::empty()) == 0);
        },
    }
}

} // verus!
