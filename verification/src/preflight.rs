//! Deciding ahead of a read whether it returns: whether every name it meets
//! leads to no cycle of compression pointers.

use vstd::prelude::*;

use crate::domain::{spec_decode_labels, Label};
use crate::header::Header;
use crate::packet::{spec_decode_packet, spec_decode_questions, spec_decode_records, Packet};
use crate::proto::decoder::{prepend_all, Decode, Decoder, ReadStep};
use crate::proto::CodecError;
use crate::question::{spec_decode_question, Question, QuestionView};
use crate::record::{spec_decode_rdata, spec_decode_record, spec_read_span, RecordView};
use crate::rtype::Type;

verus! {

/// `r` tells what a read described by `s` does: `None` where it never returns,
/// otherwise whether it succeeds, with the cursor where the read leaves it.
pub open spec fn agrees<T>(s: Option<ReadStep<T>>, r: Option<Result<(), CodecError>>, cursor: int) -> bool {
    match (s, r) {
        (None, None) => true,
        (Some((Ok(_), p)), Some(Ok(()))) => cursor == p,
        (Some((Err(e), p)), Some(Err(f))) => e == f && cursor == p,
        _ => false,
    }
}

fn try_name(decoder: &mut Decoder) -> (r: Option<Result<(), CodecError>>)
    requires
        old(decoder).wf(),
    ensures
        final(decoder).wf(),
        final(decoder).data() == old(decoder).data(),
        agrees(spec_decode_labels(old(decoder).data(), old(decoder).cursor()), r, final(decoder).cursor()),
{
    if !decoder.name_returns() {
        return None;
    }
    match Vec::<Label>::decode(decoder) {
        Ok(_) => Some(Ok(())),
        Err(e) => Some(Err(e)),
    }
}

fn try_question(decoder: &mut Decoder) -> (r: Option<Result<(), CodecError>>)
    requires
        old(decoder).wf(),
    ensures
        final(decoder).wf(),
        final(decoder).data() == old(decoder).data(),
        agrees(spec_decode_question(old(decoder).data(), old(decoder).cursor()), r, final(decoder).cursor()),
{
    if !decoder.name_returns() {
        return None;
    }
    match Question::decode(decoder) {
        Ok(_) => Some(Ok(())),
        Err(e) => Some(Err(e)),
    }
}

fn try_span(decoder: &mut Decoder, len: usize) -> (r: Option<Result<(), CodecError>>)
    requires
        old(decoder).wf(),
    ensures
        final(decoder).wf(),
        final(decoder).data() == old(decoder).data(),
        agrees(spec_read_span(old(decoder).data(), old(decoder).cursor(), len as int), r, final(decoder).cursor()),
{
    let pos = decoder.position();
    if pos > usize::MAX - len {
        return None;
    }
    match decoder.seek(pos + len) {
        Ok(()) => Some(Ok(())),
        Err(e) => Some(Err(e)),
    }
}

fn try_rdata(decoder: &mut Decoder, rtype: &Type, rd_length: usize) -> (r: Option<Result<(), CodecError>>)
    requires
        old(decoder).wf(),
        *rtype != Type::OPT,
    ensures
        final(decoder).wf(),
        final(decoder).data() == old(decoder).data(),
        agrees(
            spec_decode_rdata(old(decoder).data(), old(decoder).cursor(), *rtype, rd_length as int),
            r,
            final(decoder).cursor(),
        ),
{
    match rtype {
        Type::NS => try_name(decoder),
        Type::CNAME => try_name(decoder),
        Type::PTR => try_name(decoder),
        Type::SOA => {
            match try_name(decoder) {
                Some(Ok(())) => {},
                other => return other,
            }
            match try_name(decoder) {
                Some(Ok(())) => {},
                other => return other,
            }
            // serial, refresh, retry, expire, minimum
            if let Err(e) = decoder.read_u32() {
                return Some(Err(e));
            }
            if let Err(e) = decoder.read_u32() {
                return Some(Err(e));
            }
            if let Err(e) = decoder.read_u32() {
                return Some(Err(e));
            }
            if let Err(e) = decoder.read_u32() {
                return Some(Err(e));
            }
            if let Err(e) = decoder.read_u32() {
                return Some(Err(e));
            }
            Some(Ok(()))
        },
        Type::MX => {
            if let Err(e) = decoder.read_u16() {
                return Some(Err(e));
            }
            try_name(decoder)
        },
        _ => try_span(decoder, rd_length),
    }
}

fn try_record(decoder: &mut Decoder) -> (r: Option<Result<(), CodecError>>)
    requires
        old(decoder).wf(),
    ensures
        final(decoder).wf(),
        final(decoder).data() == old(decoder).data(),
        agrees(spec_decode_record(old(decoder).data(), old(decoder).cursor()), r, final(decoder).cursor()),
{
    reveal(spec_decode_record);
    match try_name(decoder) {
        Some(Ok(())) => {},
        other => return other,
    }
    let t = match decoder.read_u16() {
        Ok(v) => v,
        Err(e) => return Some(Err(e)),
    };
    if let Err(e) = decoder.read_u16() {
        return Some(Err(e));
    }
    if let Err(e) = decoder.read_u32() {
        return Some(Err(e));
    }
    let rd_length = match decoder.read_u16() {
        Ok(v) => v,
        Err(e) => return Some(Err(e)),
    };
    let rtype = Type::from(t);
    match rtype {
        Type::OPT => try_span(decoder, rd_length as usize),
        _ => try_rdata(decoder, &rtype, rd_length as usize),
    }
}

fn try_questions(decoder: &mut Decoder, count: u16) -> (r: Option<Result<(), CodecError>>)
    requires
        old(decoder).wf(),
    ensures
        final(decoder).wf(),
        final(decoder).data() == old(decoder).data(),
        agrees(
            spec_decode_questions(old(decoder).data(), old(decoder).cursor(), count as nat),
            r,
            final(decoder).cursor(),
        ),
{
    let ghost data = decoder.data();
    let ghost p0 = decoder.cursor();
    let ghost mut acc: Seq<QuestionView> = Seq::empty();
    let mut i: u16 = 0;
    assert forall|s: Seq<QuestionView>| acc + s == s by {
        assert(acc + s =~= s);
    }
    while i < count
        invariant
            0 <= i <= count,
            decoder.wf(),
            decoder.data() == data,
            data == old(decoder).data(),
            p0 == old(decoder).cursor(),
            spec_decode_questions(data, p0, count as nat) == prepend_all(
                acc,
                spec_decode_questions(data, decoder.cursor(), (count - i) as nat),
            ),
        decreases count - i,
    {
        let ghost cur = decoder.cursor();
        match try_question(decoder) {
            Some(Ok(())) => {},
            other => return other,
        }
        proof {
            let v = spec_decode_question(data, cur).unwrap().0.unwrap();
            assert forall|s: Seq<QuestionView>| acc + (seq![v] + s) == acc.push(v) + s by {
                assert(acc + (seq![v] + s) =~= acc.push(v) + s);
            }
            acc = acc.push(v);
        }
        i += 1;
    }
    Some(Ok(()))
}

fn try_records(decoder: &mut Decoder, count: u16) -> (r: Option<Result<(), CodecError>>)
    requires
        old(decoder).wf(),
    ensures
        final(decoder).wf(),
        final(decoder).data() == old(decoder).data(),
        agrees(
            spec_decode_records(old(decoder).data(), old(decoder).cursor(), count as nat),
            r,
            final(decoder).cursor(),
        ),
{
    let ghost data = decoder.data();
    let ghost p0 = decoder.cursor();
    let ghost mut acc: Seq<RecordView> = Seq::empty();
    let mut i: u16 = 0;
    assert forall|s: Seq<RecordView>| acc + s == s by {
        assert(acc + s =~= s);
    }
    while i < count
        invariant
            0 <= i <= count,
            decoder.wf(),
            decoder.data() == data,
            data == old(decoder).data(),
            p0 == old(decoder).cursor(),
            spec_decode_records(data, p0, count as nat) == prepend_all(
                acc,
                spec_decode_records(data, decoder.cursor(), (count - i) as nat),
            ),
        decreases count - i,
    {
        let ghost cur = decoder.cursor();
        match try_record(decoder) {
            Some(Ok(())) => {},
            other => return other,
        }
        proof {
            let v = spec_decode_record(data, cur).unwrap().0.unwrap();
            assert forall|s: Seq<RecordView>| acc + (seq![v] + s) == acc.push(v) + s by {
                assert(acc + (seq![v] + s) =~= acc.push(v) + s);
            }
            acc = acc.push(v);
        }
        i += 1;
    }
    Some(Ok(()))
}

impl<'a> Packet<'a> {
    /// Whether `from_buf` returns on `buf`: it does unless a name in the message
    /// leads into a cycle of compression pointers.
    pub fn decode_returns(buf: &[u8; 4096]) -> (r: bool)
        ensures
            r == (spec_decode_packet(buf@) is Some),
    {
        let bytes: &[u8] = buf;
        let decoder = &mut Decoder::new(bytes);
        if Header::decode(decoder).is_err() {
            return true;
        }
        let qdcount = match decoder.read_u16() {
            Ok(v) => v,
            Err(_) => return true,
        };
        let ancount = match decoder.read_u16() {
            Ok(v) => v,
            Err(_) => return true,
        };
        let nscount = match decoder.read_u16() {
            Ok(v) => v,
            Err(_) => return true,
        };
        let arcount = match decoder.read_u16() {
            Ok(v) => v,
            Err(_) => return true,
        };
        match try_questions(decoder, qdcount) {
            None => return false,
            Some(Err(_)) => return true,
            Some(Ok(())) => {},
        }
        match try_records(decoder, ancount) {
            None => return false,
            Some(Err(_)) => return true,
            Some(Ok(())) => {},
        }
        match try_records(decoder, nscount) {
            None => return false,
            Some(Err(_)) => return true,
            Some(Ok(())) => {},
        }
        match try_records(decoder, arcount) {
            None => false,
            Some(_) => true,
        }
    }
}

} // verus!
