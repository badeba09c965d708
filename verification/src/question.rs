//! The question section entries of a DNS message.

use vstd::prelude::*;

use crate::class::{canonical_class, class_of_code, code_of_class, lemma_class_roundtrip, Class};
use crate::domain::{
    domain_size, labels_held_at, labels_written_at, lemma_decode_labels_any_depth,
    lemma_domain_write_walk, lemma_held_frame, lemma_walk_frame, short_owned, spec_decode_labels,
    spec_encode_domain, Domain, Label,
};
use crate::proto::decoder::{spec_read_u16, Decode, Decoder, ReadStep};
use crate::proto::encoder::{
    be_bytes_u16, lemma_write_bytes_effect, lemma_write_read_u16, spec_write_bytes, valid_state, Encode,
    EncodeState, Encoder, WriteStep,
};
use crate::proto::CodecError;
use crate::rtype::{canonical_type, code_of_type, lemma_type_roundtrip, type_of_code, Type};

verus! {

/// DNS question field layout as per [RFC 1035 Section 4.1.2](https://www.rfc-editor.org/rfc/rfc1035#section-4.1.2)
///
/// ```text
///   0  1  2  3  4  5  6  7  8  9 10 11 12 13 14 15
/// +--+--+--+--+--+--+--+--+--+--+--+--+--+--+--+--+
/// |                                               |
/// /                     QNAME                     /
/// /                                               /
/// +--+--+--+--+--+--+--+--+--+--+--+--+--+--+--+--+
/// |                     QTYPE                     |
/// +--+--+--+--+--+--+--+--+--+--+--+--+--+--+--+--+
/// |                     QCLASS                    |
/// +--+--+--+--+--+--+--+--+--+--+--+--+--+--+--+--+
/// ```
#[derive(Debug)]
pub struct Question {
    pub name: Domain,
    pub rtype: Type,
    pub class: Class,
}

/// A question with its name taken as its labels.
pub struct QuestionView {
    pub name: Seq<Label>,
    pub rtype: Type,
    pub class: Class,
}

impl View for Question {
    type V = QuestionView;

    open spec fn view(&self) -> QuestionView {
        QuestionView { name: self.name@, rtype: self.rtype, class: self.class }
    }
}

/// The size `Question::size` gives: the name's size and two bytes each for the
/// type and the class.
pub open spec fn question_size(q: QuestionView) -> nat {
    domain_size(q.name) + 4
}

impl Question {
    pub fn size(&self) -> (r: usize)
        requires
            question_size(self@) <= usize::MAX,
        ensures
            r == question_size(self@),
    {
        self.name.size() + 4
    }
}

impl Question {
    /// The question's size, or `None` where it does not fit in `usize`.
    pub(crate) fn checked_size(&self) -> (r: Option<usize>)
        ensures
            r == (if question_size(self@) <= usize::MAX {
                Some(question_size(self@) as usize)
            } else {
                None::<usize>
            }),
    {
        match self.name.checked_size() {
            Some(n) => n.checked_add(4),
            None => None,
        }
    }
}

/// Reading a question at `pos`: its name, its type code and its class code.
pub open spec fn spec_decode_question(data: Seq<u8>, pos: int) -> Option<ReadStep<QuestionView>> {
    match spec_decode_labels(data, pos) {
        None => None,
        Some((Err(e), p)) => Some((Err(e), p)),
        Some((Ok(name), p1)) => match spec_read_u16(data, p1) {
            (Err(e), p) => Some((Err(e), p)),
            (Ok(t), p2) => match spec_read_u16(data, p2) {
                (Err(e), p) => Some((Err(e), p)),
                (Ok(c), p3) => Some(
                    (
                        Ok(QuestionView { name, rtype: type_of_code(t), class: class_of_code(c) }),
                        p3,
                    ),
                ),
            },
        },
    }
}

/// Writing a question: its name, then the codes of its type and its class.
pub open spec fn spec_encode_question(q: QuestionView, st: EncodeState) -> Option<WriteStep> {
    match spec_encode_domain(q.name, st) {
        None => None,
        Some((Err(e), s)) => Some((Err(e), s)),
        Some((Ok(()), s1)) => match spec_write_bytes(s1, be_bytes_u16(code_of_type(q.rtype))) {
            (Err(e), s) => Some((Err(e), s)),
            (Ok(()), s2) => Some(spec_write_bytes(s2, be_bytes_u16(code_of_class(q.class)))),
        },
    }
}

impl<'a> Decode<'a> for Question {
    open spec fn spec_decode(data: Seq<u8>, pos: int) -> Option<ReadStep<QuestionView>> {
        spec_decode_question(data, pos)
    }

    fn decode(decoder: &mut Decoder<'a>) -> (r: Result<Self, CodecError>) {
        let name = Domain::decode(decoder)?;
        let rtype = decoder.read_u16()?.into();
        let class = decoder.read_u16()?.into();
        Ok(Question { name, rtype, class })
    }
}

impl<'a> Encode<'a> for Question {
    open spec fn spec_encode(self, st: EncodeState) -> Option<WriteStep> {
        spec_encode_question(self@, st)
    }

    fn encode(self, encoder: &mut Encoder<'a>) -> (r: Result<(), CodecError>) {
        self.name.encode(encoder)?;
        encoder.write_u16(self.rtype.into())?;
        encoder.write_u16(self.class.into())?;
        Ok(())
    }
}

/// A question whose name's labels hold their own bytes (1 to 63 each) is read
/// back from where it was written: its name as labels pointing at the bytes
/// written for them, its type and class as their codes convert back (as they
/// were, for a type and class that decoding produces), with the cursor where the
/// write left it, `size()` plus the name's terminating zero byte on.
pub proof fn lemma_question_write_read(q: QuestionView, st: EncodeState)
    requires
        valid_state(st),
        forall|i: int| 0 <= i < q.name.len() ==> short_owned(#[trigger] q.name[i]),
        spec_encode_question(q, st) matches Some((Ok(()), _)),
    ensures
        ({
            let fin = spec_encode_question(q, st).unwrap().1;
            &&& spec_decode_question(fin.bytes, st.pos) == Some(
                (
                    Ok::<QuestionView, CodecError>(
                        QuestionView {
                            name: labels_written_at(q.name, st.pos),
                            rtype: type_of_code(code_of_type(q.rtype)),
                            class: class_of_code(code_of_class(q.class)),
                        },
                    ),
                    fin.pos,
                ),
            )
            &&& fin.pos == st.pos + question_size(q) + 1
            &&& labels_held_at(fin.bytes, q.name, st.pos)
            &&& (canonical_type(q.rtype) ==> type_of_code(code_of_type(q.rtype)) == q.rtype)
            &&& (canonical_class(q.class) ==> class_of_code(code_of_class(q.class)) == q.class)
        }),
{
    lemma_domain_write_walk(q.name, st);
    let s1 = spec_encode_domain(q.name, st).unwrap().1;
    let run_t = be_bytes_u16(code_of_type(q.rtype));
    let s2 = spec_write_bytes(s1, run_t).1;
    lemma_write_bytes_effect(s1, run_t);
    lemma_write_read_u16(s1, code_of_type(q.rtype));
    let run_c = be_bytes_u16(code_of_class(q.class));
    let fin = spec_write_bytes(s2, run_c).1;
    lemma_write_bytes_effect(s2, run_c);
    lemma_write_read_u16(s2, code_of_class(q.class));
    assert(forall|i: int| 0 <= i < s1.pos ==> fin.bytes[i] == s1.bytes[i]);
    lemma_walk_frame(s1.bytes, fin.bytes, st.pos);
    lemma_decode_labels_any_depth(fin.bytes, st.pos, 0);
    lemma_held_frame(s1.bytes, fin.bytes, q.name, st.pos, s1.pos);
    assert(fin.bytes[s1.pos] == s2.bytes[s1.pos]);
    assert(fin.bytes[s1.pos + 1] == s2.bytes[s1.pos + 1]);
    if canonical_type(q.rtype) {
        lemma_type_roundtrip(q.rtype);
    }
    if canonical_class(q.class) {
        lemma_class_roundtrip(q.class);
    }
}

} // verus!
