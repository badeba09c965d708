//! A whole DNS message read from a 4096-byte buffer.

use vstd::prelude::*;

use crate::header::{flags_of_bits, spec_decode_header, Header};
use crate::proto::decoder::{be_u16, prepend_all, spec_read_u16, Decode, Decoder, ReadStep};
use crate::proto::CodecError;
use crate::question::{question_size, spec_decode_question, Question, QuestionView};
use crate::record::{spec_decode_record, Record, RecordView};

verus! {

#[derive(Debug)]
pub struct Packet<'a> {
    buf: &'a mut [u8; 4096],
    pub header: Header,
    pub questions: Vec<Question>,
    pub answers: Vec<Record>,
    pub authorities: Vec<Record>,
    pub additionals: Vec<Record>,
}

/// A message with its entries taken by their views.
pub struct PacketView {
    pub header: Header,
    pub questions: Seq<QuestionView>,
    pub answers: Seq<RecordView>,
    pub authorities: Seq<RecordView>,
    pub additionals: Seq<RecordView>,
}

impl<'a> View for Packet<'a> {
    type V = PacketView;

    /// The header and the views of the entries.
    closed spec fn view(&self) -> PacketView {
        PacketView {
            header: self.header,
            questions: self.questions@.map_values(|q: Question| q@),
            answers: self.answers@.map_values(|r: Record| r@),
            authorities: self.authorities@.map_values(|r: Record| r@),
            additionals: self.additionals@.map_values(|r: Record| r@),
        }
    }
}

/// Reading `count` questions one after another from `pos`.
pub open spec fn spec_decode_questions(data: Seq<u8>, pos: int, count: nat) -> Option<
    ReadStep<Seq<QuestionView>>,
>
    decreases count,
{
    if count == 0 {
        Some((Ok(Seq::empty()), pos))
    } else {
        match spec_decode_question(data, pos) {
            None => None,
            Some((Err(e), q)) => Some((Err(e), q)),
            Some((Ok(v), p)) => prepend_all(seq![v], spec_decode_questions(data, p, (count - 1) as nat)),
        }
    }
}

/// Reading `count` records one after another from `pos`.
pub open spec fn spec_decode_records(data: Seq<u8>, pos: int, count: nat) -> Option<
    ReadStep<Seq<RecordView>>,
>
    decreases count,
{
    if count == 0 {
        Some((Ok(Seq::empty()), pos))
    } else {
        match spec_decode_record(data, pos) {
            None => None,
            Some((Err(e), q)) => Some((Err(e), q)),
            Some((Ok(v), p)) => prepend_all(seq![v], spec_decode_records(data, p, (count - 1) as nat)),
        }
    }
}

/// The four records sections read in turn after the counts at `pos`.
pub open spec fn spec_decode_sections(
    data: Seq<u8>,
    header: Header,
    counts: (u16, u16, u16, u16),
    pos: int,
) -> Option<ReadStep<PacketView>> {
    match spec_decode_questions(data, pos, counts.0 as nat) {
        None => None,
        Some((Err(e), q)) => Some((Err(e), q)),
        Some((Ok(questions), p1)) => match spec_decode_records(data, p1, counts.1 as nat) {
            None => None,
            Some((Err(e), q)) => Some((Err(e), q)),
            Some((Ok(answers), p2)) => match spec_decode_records(data, p2, counts.2 as nat) {
                None => None,
                Some((Err(e), q)) => Some((Err(e), q)),
                Some((Ok(authorities), p3)) => match spec_decode_records(
                    data,
                    p3,
                    counts.3 as nat,
                ) {
                    None => None,
                    Some((Err(e), q)) => Some((Err(e), q)),
                    Some((Ok(additionals), p4)) => Some(
                        (Ok(PacketView { header, questions, answers, authorities, additionals }), p4),
                    ),
                },
            },
        },
    }
}

/// Reading a message from the start of `data`: the header, the four section
/// counts, then as many questions, answers, authority and additional records.
/// `None` where the read never returns.
pub open spec fn spec_decode_packet(data: Seq<u8>) -> Option<ReadStep<PacketView>> {
    match spec_decode_header(data, 0) {
        (Err(e), q) => Some((Err(e), q)),
        (Ok(header), p0) => match spec_read_u16(data, p0) {
            (Err(e), q) => Some((Err(e), q)),
            (Ok(qd), p1) => match spec_read_u16(data, p1) {
                (Err(e), q) => Some((Err(e), q)),
                (Ok(an), p2) => match spec_read_u16(data, p2) {
                    (Err(e), q) => Some((Err(e), q)),
                    (Ok(ns), p3) => match spec_read_u16(data, p3) {
                        (Err(e), q) => Some((Err(e), q)),
                        (Ok(ar), p4) => spec_decode_sections(data, header, (qd, an, ns, ar), p4),
                    },
                },
            },
        },
    }
}

proof fn lemma_questions_len(data: Seq<u8>, pos: int, count: nat)
    ensures
        spec_decode_questions(data, pos, count) matches Some((Ok(qs), _)) ==> qs.len() == count,
    decreases count,
{
    if count > 0 {
        if let Some((Ok(_), p)) = spec_decode_question(data, pos) {
            lemma_questions_len(data, p, (count - 1) as nat);
        }
    }
}

proof fn lemma_records_len(data: Seq<u8>, pos: int, count: nat)
    ensures
        spec_decode_records(data, pos, count) matches Some((Ok(rs), _)) ==> rs.len() == count,
    decreases count,
{
    if count > 0 {
        if let Some((Ok(_), p)) = spec_decode_record(data, pos) {
            lemma_records_len(data, p, (count - 1) as nat);
        }
    }
}

/// A message read whole has the layout of RFC 1035: the id and the flags word
/// in bytes 0 to 3, then four 16-bit counts in bytes 4 to 11, and behind them,
/// from byte 12 on, as many questions as bytes 4-5 count, then as many answers
/// as bytes 6-7 count, then as many authority records as bytes 8-9 count, then
/// as many additional records as bytes 10-11 count, each section read where
/// the one before it ends, the last ending where the message does.
pub proof fn lemma_packet_layout(data: Seq<u8>)
    requires
        spec_decode_packet(data) matches Some((Ok(_), _)),
    ensures
        spec_decode_packet(data) matches Some((Ok(v), end)) && {
            &&& data.len() >= 12
            &&& v.header.id == data[0] as int * 256 + data[1] as int
            &&& v.header.flags == flags_of_bits(be_u16(data[2], data[3]))
            &&& v.questions.len() == data[4] as int * 256 + data[5] as int
            &&& v.answers.len() == data[6] as int * 256 + data[7] as int
            &&& v.authorities.len() == data[8] as int * 256 + data[9] as int
            &&& v.additionals.len() == data[10] as int * 256 + data[11] as int
            &&& spec_decode_questions(data, 12, v.questions.len()) matches Some((Ok(qs), p1)) && {
                &&& qs == v.questions
                &&& spec_decode_records(data, p1, v.answers.len()) matches Some((Ok(an), p2)) && {
                    &&& an == v.answers
                    &&& spec_decode_records(data, p2, v.authorities.len()) matches Some(
                        (Ok(au), p3),
                    ) && {
                        &&& au == v.authorities
                        &&& spec_decode_records(data, p3, v.additionals.len()) == Some(
                            (Ok::<Seq<RecordView>, CodecError>(v.additionals), end),
                        )
                    }
                }
            }
        },
{
    let qd = be_u16(data[4], data[5]);
    let an = be_u16(data[6], data[7]);
    let ns = be_u16(data[8], data[9]);
    let ar = be_u16(data[10], data[11]);
    lemma_questions_len(data, 12, qd as nat);
    if let Some((Ok(_), p1)) = spec_decode_questions(data, 12, qd as nat) {
        lemma_records_len(data, p1, an as nat);
        if let Some((Ok(_), p2)) = spec_decode_records(data, p1, an as nat) {
            lemma_records_len(data, p2, ns as nat);
            if let Some((Ok(_), p3)) = spec_decode_records(data, p2, ns as nat) {
                lemma_records_len(data, p3, ar as nat);
            }
        }
    }
}

/// The sum of the sizes of the questions.
pub open spec fn questions_size(qs: Seq<QuestionView>) -> nat
    decreases qs.len(),
{
    if qs.len() == 0 {
        0
    } else {
        questions_size(qs.drop_last()) + question_size(qs.last())
    }
}

proof fn lemma_questions_size_prefix(qs: Seq<QuestionView>, i: int)
    requires
        0 <= i <= qs.len(),
    ensures
        questions_size(qs.take(i)) <= questions_size(qs),
    decreases qs.len(),
{
    if qs.len() > 0 {
        if i == qs.len() {
            assert(qs.take(i) =~= qs);
        } else {
            lemma_questions_size_prefix(qs.drop_last(), i);
            assert(qs.drop_last().take(i) =~= qs.take(i));
        }
    }
}

fn decode_questions(decoder: &mut Decoder, count: u16) -> (r: Result<Vec<Question>, CodecError>)
    requires
        old(decoder).wf(),
        spec_decode_questions(old(decoder).data(), old(decoder).cursor(), count as nat) is Some,
    ensures
        final(decoder).wf(),
        final(decoder).data() == old(decoder).data(),
        spec_decode_questions(old(decoder).data(), old(decoder).cursor(), count as nat) == Some(
            (
                match r {
                    Ok(v) => Ok(v@.map_values(|q: Question| q@)),
                    Err(e) => Err(e),
                },
                final(decoder).cursor(),
            ),
        ),
{
    let ghost data = decoder.data();
    let ghost p0 = decoder.cursor();
    let mut questions: Vec<Question> = Vec::with_capacity(count.into());
    let mut i: u16 = 0;
    assert(questions@.map_values(|q: Question| q@) =~= Seq::<QuestionView>::empty());
    assert forall|s: Seq<QuestionView>| Seq::<QuestionView>::empty() + s == s by {
        assert(Seq::<QuestionView>::empty() + s =~= s);
    }
    while i < count
        invariant
            0 <= i <= count,
            decoder.wf(),
            decoder.data() == data,
            data == old(decoder).data(),
            p0 == old(decoder).cursor(),
            spec_decode_questions(data, decoder.cursor(), (count - i) as nat) is Some,
            spec_decode_questions(data, p0, count as nat) == prepend_all(
                questions@.map_values(|q: Question| q@),
                spec_decode_questions(data, decoder.cursor(), (count - i) as nat),
            ),
        decreases count - i,
    {
        let ghost before = questions@.map_values(|q: Question| q@);
        let q = Question::decode(decoder)?;
        let ghost v = q@;
        questions.push(q);
        i += 1;
        proof {
            assert(questions@.map_values(|q: Question| q@) =~= before.push(v));
            assert forall|s: Seq<QuestionView>| before + (seq![v] + s) == before.push(v) + s by {
                assert(before + (seq![v] + s) =~= before.push(v) + s);
            }
        }
    }
    assert(questions@.map_values(|q: Question| q@) + Seq::<QuestionView>::empty() =~= questions@.map_values(|q: Question| q@));
    Ok(questions)
}

fn decode_records(decoder: &mut Decoder, count: u16) -> (r: Result<Vec<Record>, CodecError>)
    requires
        old(decoder).wf(),
        spec_decode_records(old(decoder).data(), old(decoder).cursor(), count as nat) is Some,
    ensures
        final(decoder).wf(),
        final(decoder).data() == old(decoder).data(),
        spec_decode_records(old(decoder).data(), old(decoder).cursor(), count as nat) == Some(
            (
                match r {
                    Ok(v) => Ok(v@.map_values(|r: Record| r@)),
                    Err(e) => Err(e),
                },
                final(decoder).cursor(),
            ),
        ),
{
    let ghost data = decoder.data();
    let ghost p0 = decoder.cursor();
    let mut records: Vec<Record> = Vec::with_capacity(count.into());
    let mut i: u16 = 0;
    assert(records@.map_values(|r: Record| r@) =~= Seq::<RecordView>::empty());
    assert forall|s: Seq<RecordView>| Seq::<RecordView>::empty() + s == s by {
        assert(Seq::<RecordView>::empty() + s =~= s);
    }
    while i < count
        invariant
            0 <= i <= count,
            decoder.wf(),
            decoder.data() == data,
            data == old(decoder).data(),
            p0 == old(decoder).cursor(),
            spec_decode_records(data, decoder.cursor(), (count - i) as nat) is Some,
            spec_decode_records(data, p0, count as nat) == prepend_all(
                records@.map_values(|r: Record| r@),
                spec_decode_records(data, decoder.cursor(), (count - i) as nat),
            ),
        decreases count - i,
    {
        let ghost before = records@.map_values(|r: Record| r@);
        let rec = Record::decode(decoder)?;
        let ghost v = rec@;
        records.push(rec);
        i += 1;
        proof {
            assert(records@.map_values(|r: Record| r@) =~= before.push(v));
            assert forall|s: Seq<RecordView>| before + (seq![v] + s) == before.push(v) + s by {
                assert(before + (seq![v] + s) =~= before.push(v) + s);
            }
        }
    }
    assert(records@.map_values(|r: Record| r@) + Seq::<RecordView>::empty() =~= records@.map_values(|r: Record| r@));
    Ok(records)
}

impl<'a> Packet<'a> {
    /// The buffer the message was read from.
    pub closed spec fn bytes(&self) -> Seq<u8> {
        self.buf@
    }

    pub fn from_buf(buf: &'a mut [u8; 4096]) -> (r: Result<Self, CodecError>)
        requires
            spec_decode_packet(old(buf)@) is Some,
        ensures
            match (r, spec_decode_packet(old(buf)@)) {
                (Ok(p), Some((Ok(v), _))) => p@ == v && p.bytes() == old(buf)@,
                (Err(e), Some((Err(f), _))) => e == f,
                _ => false,
            },
    {
        let (header, questions, answers, authorities, additionals) = {
            let bytes: &[u8] = buf;
            let decoder = &mut Decoder::new(bytes);

            let header = Header::decode(decoder)?;

            let qdcount = decoder.read_u16()?;
            let ancount = decoder.read_u16()?;
            let nscount = decoder.read_u16()?;
            let arcount = decoder.read_u16()?;

            let questions = decode_questions(decoder, qdcount)?;
            let answers = decode_records(decoder, ancount)?;
            let authorities = decode_records(decoder, nscount)?;
            let additionals = decode_records(decoder, arcount)?;
            (header, questions, answers, authorities, additionals)
        };

        Ok(Self { buf, header, questions, answers, authorities, additionals })
    }

    /// The message's header.
    pub fn header(&self) -> (r: &Header)
        ensures
            *r == self@.header,
    {
        &self.header
    }

    /// The question section.
    pub fn questions(&self) -> (r: &Vec<Question>)
        ensures
            r@.map_values(|q: Question| q@) == self@.questions,
    {
        &self.questions
    }

    /// The answer section.
    pub fn answers(&self) -> (r: &Vec<Record>)
        ensures
            r@.map_values(|x: Record| x@) == self@.answers,
    {
        &self.answers
    }

    /// The authority section.
    pub fn authorities(&self) -> (r: &Vec<Record>)
        ensures
            r@.map_values(|x: Record| x@) == self@.authorities,
    {
        &self.authorities
    }

    /// The additional section.
    pub fn additionals(&self) -> (r: &Vec<Record>)
        ensures
            r@.map_values(|x: Record| x@) == self@.additionals,
    {
        &self.additionals
    }

    /// Where an answer would start: the header's size plus the questions'
    /// sizes, or `None` where that sum does not fit in `usize`. `add_answer`
    /// asks that it fits.
    pub fn answer_start(&self) -> (r: Option<usize>)
        ensures
            r == (if 12 + questions_size(self@.questions) <= usize::MAX {
                Some((12 + questions_size(self@.questions)) as usize)
            } else {
                None::<usize>
            }),
    {
        let ghost qs = self.questions@.map_values(|q: Question| q@);
        let mut sum: usize = self.header.size();
        let mut i: usize = 0;
        while i < self.questions.len()
            invariant
                0 <= i <= self.questions@.len(),
                qs == self.questions@.map_values(|q: Question| q@),
                qs == self@.questions,
                sum == 12 + questions_size(qs.take(i as int)),
            decreases self.questions@.len() - i,
        {
            proof {
                lemma_questions_size_prefix(qs, i + 1);
                assert(qs.take(i + 1).drop_last() =~= qs.take(i as int));
            }
            let size = match self.questions[i].checked_size() {
                Some(n) => n,
                None => return None,
            };
            sum = match sum.checked_add(size) {
                Some(t) => t,
                None => return None,
            };
            i += 1;
        }
        assert(qs.take(i as int) =~= qs);
        Some(sum)
    }

    /// Finds where an answer would start, after the header and the questions.
    /// The answer is then dropped: the packet is left as it was.
    pub fn add_answer(&mut self, answer: Record)
        requires
            12 + questions_size(old(self)@.questions) <= usize::MAX,
        ensures
            final(self)@ == old(self)@,
            final(self).bytes() == old(self).bytes(),
    {
        let ghost qs = self.questions@.map_values(|q: Question| q@);
        let mut sum: usize = 0;
        let mut i: usize = 0;
        while i < self.questions.len()
            invariant
                0 <= i <= self.questions@.len(),
                qs == self.questions@.map_values(|q: Question| q@),
                12 + questions_size(qs) <= usize::MAX,
                sum == questions_size(qs.take(i as int)),
            decreases self.questions@.len() - i,
        {
            proof {
                lemma_questions_size_prefix(qs, i + 1);
                assert(qs.take(i + 1).drop_last() =~= qs.take(i as int));
            }
            sum = sum + self.questions[i].size();
            i += 1;
        }
        assert(qs.take(i as int) =~= qs);
        let _answer_start = self.header.size() + sum;
    }
}

} // verus!
