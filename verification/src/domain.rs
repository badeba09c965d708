//! Domain names: sequences of labels, read with message compression.

use vstd::prelude::*;

use crate::proto::decoder::{prepend_all, view_result, Decode, Decoder, ReadStep};
use crate::proto::encoder::{
    lemma_write_bytes_effect, spec_write_bytes, valid_state, Encode, EncodeState, Encoder, WriteStep,
};
use crate::proto::{overflow, CodecError};
use crate::span::{span_len, spec_write_span, write_span, Span};

verus! {

#[derive(Debug)]
pub struct Domain {
    pub labels: Vec<Label>,
}

#[derive(Debug)]
pub struct Label {
    pub data: Span,
}

impl View for Domain {
    type V = Seq<Label>;

    open spec fn view(&self) -> Seq<Label> {
        self.labels@
    }
}

/// The size `Domain::size` gives: each label's length plus its length byte.
/// The terminating zero byte of a written name is not counted.
pub open spec fn domain_size(labels: Seq<Label>) -> nat
    decreases labels.len(),
{
    if labels.len() == 0 {
        0
    } else {
        domain_size(labels.drop_last()) + span_len(labels.last().data) + 1nat
    }
}

proof fn lemma_domain_size_prefix(labels: Seq<Label>, i: int)
    requires
        0 <= i <= labels.len(),
    ensures
        domain_size(labels.take(i)) <= domain_size(labels),
    decreases labels.len(),
{
    if labels.len() > 0 {
        if i == labels.len() {
            assert(labels.take(i) =~= labels);
        } else {
            lemma_domain_size_prefix(labels.drop_last(), i);
            assert(labels.drop_last().take(i) =~= labels.take(i));
        }
    }
}

impl Domain {
    pub fn size(&self) -> (r: usize)
        requires
            domain_size(self.labels@) <= usize::MAX,
        ensures
            r == domain_size(self.labels@),
    {
        let mut total: usize = 0;
        let mut i: usize = 0;
        while i < self.labels.len()
            invariant
                0 <= i <= self.labels@.len(),
                domain_size(self.labels@) <= usize::MAX,
                total == domain_size(self.labels@.take(i as int)),
            decreases self.labels@.len() - i,
        {
            proof {
                lemma_domain_size_prefix(self.labels@, i + 1);
                assert(self.labels@.take(i + 1).drop_last() =~= self.labels@.take(i as int));
            }
            total = total + self.labels[i].data.len() + 1;
            i += 1;
        }
        assert(self.labels@.take(i as int) =~= self.labels@);
        total
    }
}

impl Domain {
    /// The name's size, or `None` where it does not fit in `usize`.
    pub(crate) fn checked_size(&self) -> (r: Option<usize>)
        ensures
            r == (if domain_size(self.labels@) <= usize::MAX {
                Some(domain_size(self.labels@) as usize)
            } else {
                None::<usize>
            }),
    {
        let mut total: usize = 0;
        let mut i: usize = 0;
        while i < self.labels.len()
            invariant
                0 <= i <= self.labels@.len(),
                total == domain_size(self.labels@.take(i as int)),
            decreases self.labels@.len() - i,
        {
            proof {
                lemma_domain_size_prefix(self.labels@, i + 1);
                assert(self.labels@.take(i + 1).drop_last() =~= self.labels@.take(i as int));
            }
            let len = self.labels[i].data.len();
            let with_len = match total.checked_add(len) {
                Some(t) => t,
                None => return None,
            };
            total = match with_len.checked_add(1) {
                Some(t) => t,
                None => return None,
            };
            i += 1;
        }
        assert(self.labels@.take(i as int) =~= self.labels@);
        Some(total)
    }
}

impl From<Vec<Label>> for Domain {
    fn from(labels: Vec<Label>) -> (r: Self)
        ensures
            r.labels == labels,
    {
        Self { labels }
    }
}

impl vstd::std_specs::convert::FromSpecImpl<Vec<Label>> for Domain {
    open spec fn obeys_from_spec() -> bool {
        true
    }

    open spec fn from_spec(v: Vec<Label>) -> Self {
        Domain { labels: v }
    }
}

impl Default for Domain {
    fn default() -> (r: Self)
        ensures
            r.labels@ == Seq::<Label>::empty(),
    {
        Self { labels: Vec::new() }
    }
}

/// The label read from `len` bytes at `start` of the message.
pub open spec fn label_at(start: int, len: int) -> Label {
    Label { data: Span::Ref { start: start as usize, len: len as usize } }
}

/// The labels of a name at `pos`, following at most `depth` compression
/// pointers: `None` where the walk needs more pointers than that, or where the
/// end of a label overflows `usize`.
///
/// A length byte of 0 ends the name; 1 to 63 starts a label of that many bytes;
/// 192 and above, with the next byte, make a 14-bit pointer to the rest of the
/// name, after which the cursor rests behind the pointer; 64 to 191 is a format
/// error.
pub open spec fn walk_labels(data: Seq<u8>, pos: int, depth: nat) -> Option<ReadStep<Seq<Label>>>
    decreases depth, data.len() - pos,
{
    if pos < 0 || pos >= data.len() {
        Some((Err(overflow(pos, data.len() as int)), pos))
    } else {
        let l = data[pos] as int;
        if l == 0 {
            Some((Ok(Seq::empty()), pos + 1))
        } else if l >= 0xc0 {
            if pos + 1 >= data.len() {
                Some((Err(overflow(pos + 1, data.len() as int)), pos + 1))
            } else {
                let target = (l - 0xc0) * 0x100 + data[pos + 1] as int;
                if target > data.len() {
                    Some((Err(overflow(pos + 2, data.len() as int)), pos + 2))
                } else if depth == 0 {
                    None
                } else {
                    match walk_labels(data, target, (depth - 1) as nat) {
                        None => None,
                        Some((Ok(ls), _)) => Some((Ok(ls), pos + 2)),
                        Some((Err(e), q)) => Some((Err(e), q)),
                    }
                }
            }
        } else if l <= 63 {
            let start = pos + 1;
            if start + l > usize::MAX {
                None
            } else if start + l > data.len() {
                Some((Err(overflow(start, data.len() as int)), start))
            } else {
                match walk_labels(data, start + l, depth) {
                    None => None,
                    Some((Ok(ls), q)) => Some((Ok(seq![label_at(start, l)] + ls), q)),
                    Some((Err(e), q)) => Some((Err(e), q)),
                }
            }
        } else {
            Some((Err(CodecError::FormatError), pos + 1))
        }
    }
}

/// Reading the labels at `pos` returns: some bound on the compression pointers
/// it follows suffices.
pub open spec fn labels_terminate(data: Seq<u8>, pos: int) -> bool {
    exists|depth: nat| walk_labels(data, pos, depth) is Some
}

/// A bound on the pointers that suffices for the labels at `pos`.
pub open spec fn labels_depth(data: Seq<u8>, pos: int) -> nat {
    choose|depth: nat| walk_labels(data, pos, depth) is Some
}

/// Reading the labels of a name at `pos`: `None` where it never returns.
pub open spec fn spec_decode_labels(data: Seq<u8>, pos: int) -> Option<ReadStep<Seq<Label>>> {
    if labels_terminate(data, pos) {
        walk_labels(data, pos, labels_depth(data, pos))
    } else {
        None
    }
}

fn decode_labels<'a>(decoder: &mut Decoder<'a>, Ghost(depth): Ghost<nat>) -> (r: Result<
    Vec<Label>,
    CodecError,
>)
    requires
        old(decoder).wf(),
        walk_labels(old(decoder).data(), old(decoder).cursor(), depth) is Some,
    ensures
        final(decoder).wf(),
        final(decoder).data() == old(decoder).data(),
        walk_labels(old(decoder).data(), old(decoder).cursor(), depth) == Some(
            (view_result(r), final(decoder).cursor()),
        ),
    decreases depth,
{
    let ghost data = decoder.data();
    let ghost start_pos = decoder.cursor();
    let mut labels: Vec<Label> = Vec::new();
    assert(prepend_all(labels@, walk_labels(data, start_pos, depth)) == walk_labels(
        data,
        start_pos,
        depth,
    )) by {
        assert(forall|ls: Seq<Label>| Seq::<Label>::empty() + ls == ls) by {
            assert forall|ls: Seq<Label>| Seq::<Label>::empty() + ls == ls by {
                assert(Seq::<Label>::empty() + ls =~= ls);
            }
        }
    }
    loop
        invariant
            decoder.wf(),
            decoder.data() == data,
            data == old(decoder).data(),
            start_pos == old(decoder).cursor(),
            walk_labels(data, decoder.cursor(), depth) is Some,
            walk_labels(data, start_pos, depth) == prepend_all(
                labels@,
                walk_labels(data, decoder.cursor(), depth),
            ),
        decreases data.len() - decoder.cursor(),
    {
        let ghost pos = decoder.cursor();
        let len = decoder.read_u8()? as usize;
        if len == 0 {
            assert(labels@ + Seq::<Label>::empty() =~= labels@);
            return Ok(labels);
        } else if len & 0xc0 == 0xc0 {
            assert(len >= 0xc0) by (bit_vector)
                requires
                    len < 0x100,
                    len & 0xc0 == 0xc0,
            ;
            let second = decoder.read_u8()?;
            let pointer: u16 = (((len & 0x3f) as u16) << 8u16) | second as u16;
            assert(pointer as int == (len - 0xc0) * 0x100 + second as int && len >= 0xc0)
                by (bit_vector)
                requires
                    len < 0x100,
                    len & 0xc0 == 0xc0,
                    pointer == (((len & 0x3f) as u16) << 8u16) | second as u16,
            ;
            let pos_after = decoder.position();
            decoder.seek(pointer as usize)?;
            let mut inner = decode_labels(decoder, Ghost((depth - 1) as nat))?;
            labels.append(&mut inner);
            decoder.seek(pos_after)?;
            return Ok(labels);
        } else if len >= 1 && len <= 63 {
            let label = Label { data: Span::Ref { len, start: decoder.position() } };
            let ghost old_labels = labels@;
            labels.push(label);
            proof {
                let rest = walk_labels(data, pos + 1 + len, depth);
                assert forall|ls: Seq<Label>|
                    old_labels + (seq![label_at(pos + 1, len as int)] + ls) == labels@ + ls by {
                    assert(old_labels + (seq![label_at(pos + 1, len as int)] + ls) =~= labels@
                        + ls);
                }
            }
            decoder.seek(decoder.position() + len)?;
        } else {
            assert(len & 0xc0 != 0xc0 && len >= 64 ==> 64 <= len < 0xc0) by (bit_vector)
                requires
                    len < 0x100,
            ;
            return Err(CodecError::FormatError);
        }
    }
}

impl<'a> Decode<'a> for Vec<Label> {
    open spec fn spec_decode(data: Seq<u8>, pos: int) -> Option<ReadStep<Seq<Label>>> {
        spec_decode_labels(data, pos)
    }

    fn decode(decoder: &mut Decoder<'a>) -> (r: Result<Self, CodecError>) {
        decode_labels(decoder, Ghost(labels_depth(decoder.data(), decoder.cursor())))
    }
}

impl<'a> Decode<'a> for Domain {
    open spec fn spec_decode(data: Seq<u8>, pos: int) -> Option<ReadStep<Seq<Label>>> {
        spec_decode_labels(data, pos)
    }

    fn decode(decoder: &mut Decoder<'a>) -> (r: Result<Self, CodecError>) {
        Ok(Domain::from(Vec::<Label>::decode(decoder)?))
    }
}

/// The walk does not depend on the bound on pointers once the bound suffices:
/// a larger bound gives the same result.
pub proof fn lemma_walk_labels_depth(data: Seq<u8>, pos: int, d1: nat, d2: nat)
    requires
        walk_labels(data, pos, d1) is Some,
        d1 <= d2,
    ensures
        walk_labels(data, pos, d2) == walk_labels(data, pos, d1),
    decreases d1, data.len() - pos,
{
    if 0 <= pos < data.len() {
        let l = data[pos] as int;
        if l >= 0xc0 && pos + 1 < data.len() {
            let target = (l - 0xc0) * 0x100 + data[pos + 1] as int;
            if target <= data.len() && d1 > 0 {
                lemma_walk_labels_depth(data, target, (d1 - 1) as nat, (d2 - 1) as nat);
            }
        } else if 1 <= l <= 63 {
            let start = pos + 1;
            if start + l <= data.len() {
                lemma_walk_labels_depth(data, start + l, d1, d2);
            }
        }
    }
}

/// Reading the labels of a name gives what the walk gives under any bound on
/// pointers that suffices.
pub proof fn lemma_decode_labels_any_depth(data: Seq<u8>, pos: int, depth: nat)
    requires
        walk_labels(data, pos, depth) is Some,
    ensures
        spec_decode_labels(data, pos) == walk_labels(data, pos, depth),
{
    let d = labels_depth(data, pos);
    assert(walk_labels(data, pos, d) is Some);
    if d <= depth {
        lemma_walk_labels_depth(data, pos, d, depth);
    } else {
        lemma_walk_labels_depth(data, pos, depth, d);
    }
}

/// Writing one label: its length as a byte, then its bytes.
pub open spec fn spec_encode_label(l: Label, st: EncodeState) -> Option<WriteStep> {
    match spec_write_bytes(st, seq![span_len(l.data) as u8]) {
        (Err(e), s) => Some((Err(e), s)),
        (Ok(()), s) => spec_write_span(l.data, s),
    }
}

/// Writing the labels in order, stopping at the first failure.
pub open spec fn spec_encode_labels(labels: Seq<Label>, st: EncodeState) -> Option<WriteStep>
    decreases labels.len(),
{
    if labels.len() == 0 {
        Some((Ok(()), st))
    } else {
        match spec_encode_label(labels[0], st) {
            None => None,
            Some((Err(e), s)) => Some((Err(e), s)),
            Some((Ok(()), s)) => spec_encode_labels(labels.drop_first(), s),
        }
    }
}

/// Writing a name: its labels, then the terminating zero byte.
pub open spec fn spec_encode_domain(labels: Seq<Label>, st: EncodeState) -> Option<WriteStep> {
    match spec_encode_labels(labels, st) {
        None => None,
        Some((Err(e), s)) => Some((Err(e), s)),
        Some((Ok(()), s)) => Some(spec_write_bytes(s, seq![0u8])),
    }
}

impl<'a> Encode<'a> for Domain {
    open spec fn spec_encode(self, st: EncodeState) -> Option<WriteStep> {
        spec_encode_domain(self.labels@, st)
    }

    fn encode(self, encoder: &mut Encoder<'a>) -> (r: Result<(), CodecError>) {
        let ghost ls = self.labels@;
        let ghost st0 = encoder.state();
        let mut i: usize = 0;
        assert(ls.skip(0) =~= ls);
        while i < self.labels.len()
            invariant
                0 <= i <= ls.len(),
                ls == self.labels@,
                st0 == old(encoder).state(),
                ls == self@,
                encoder.wf(),
                spec_encode_labels(ls.skip(i as int), encoder.state()) is Some,
                spec_encode_domain(ls, st0) == spec_encode_domain(
                    ls.skip(i as int),
                    encoder.state(),
                ),
            decreases ls.len() - i,
        {
            assert(ls.skip(i as int)[0] == ls[i as int]);
            assert(ls.skip(i as int).drop_first() =~= ls.skip(i + 1));
            let label = &self.labels[i];
            encoder.write_u8(label.data.len() as u8)?;
            write_span(&label.data, encoder)?;
            i += 1;
        }
        encoder.write_u8(0)?;
        Ok(())
    }
}

/// A successful write of a name moves the cursor on by the name's `size()` plus
/// the terminating zero byte, whatever its labels hold.
pub proof fn lemma_domain_write_length(labels: Seq<Label>, st: EncodeState)
    requires
        spec_encode_domain(labels, st) matches Some((Ok(()), _)),
    ensures
        spec_encode_domain(labels, st).unwrap().1.pos == st.pos + domain_size(labels) + 1,
    decreases labels.len(),
{
    if labels.len() > 0 {
        let l = labels[0];
        let s1 = spec_write_bytes(st, seq![span_len(l.data) as u8]).1;
        let s2 = spec_write_span(l.data, s1).unwrap().1;
        assert(spec_encode_domain(labels, st) == spec_encode_domain(labels.drop_first(), s2));
        lemma_domain_write_length(labels.drop_first(), s2);
        lemma_domain_size_front(labels);
    }
}

/// A label that holds its own bytes, 1 to 63 of them.
pub open spec fn short_owned(l: Label) -> bool {
    l.data is Owned && 1 <= span_len(l.data) <= 63
}

/// The bytes a label holds of its own.
pub open spec fn owned_bytes(l: Label) -> Seq<u8> {
    match l.data {
        Span::Owned { data } => data@,
        Span::Ref { .. } => Seq::empty(),
    }
}

/// The labels that reading gives back for `labels` written at `pos`: each
/// points at the bytes behind its length byte.
pub open spec fn labels_written_at(labels: Seq<Label>, pos: int) -> Seq<Label>
    decreases labels.len(),
{
    if labels.len() == 0 {
        Seq::empty()
    } else {
        let len = span_len(labels[0].data) as int;
        seq![label_at(pos + 1, len)] + labels_written_at(labels.drop_first(), pos + 1 + len)
    }
}

/// `bytes` holds, from `pos` on, each label's length byte followed by its bytes.
pub open spec fn labels_held_at(bytes: Seq<u8>, labels: Seq<Label>, pos: int) -> bool
    decreases labels.len(),
{
    if labels.len() == 0 {
        true
    } else {
        let len = span_len(labels[0].data) as int;
        &&& 0 <= pos && pos + 1 + len <= bytes.len()
        &&& bytes[pos] == len as u8
        &&& bytes.subrange(pos + 1, pos + 1 + len) == owned_bytes(labels[0])
        &&& labels_held_at(bytes, labels.drop_first(), pos + 1 + len)
    }
}

proof fn lemma_domain_size_front(labels: Seq<Label>)
    requires
        labels.len() > 0,
    ensures
        domain_size(labels) == span_len(labels[0].data) + 1 + domain_size(labels.drop_first()),
    decreases labels.len(),
{
    if labels.len() > 1 {
        lemma_domain_size_front(labels.drop_last());
        assert(labels.drop_last().drop_first() =~= labels.drop_first().drop_last());
        assert(labels.drop_first().last() == labels.last());
        assert(labels.drop_last()[0] == labels[0]);
        assert(domain_size(labels.drop_first()) == domain_size(labels.drop_first().drop_last())
            + span_len(labels.drop_first().last().data) + 1);
    } else {
        assert(domain_size(labels.drop_first()) == 0);
        assert(domain_size(labels.drop_last()) == 0);
        assert(labels.last() == labels[0]);
    }
}

/// Labels held in `bytes` are held in any buffer of the same length that agrees
/// with `bytes` below `end`, where the labels end by `end`.
pub proof fn lemma_held_frame(bytes: Seq<u8>, other: Seq<u8>, labels: Seq<Label>, pos: int, end: int)
    requires
        labels_held_at(bytes, labels, pos),
        pos + domain_size(labels) <= end <= bytes.len(),
        other.len() == bytes.len(),
        forall|i: int| 0 <= i < end ==> other[i] == bytes[i],
    ensures
        labels_held_at(other, labels, pos),
    decreases labels.len(),
{
    if labels.len() > 0 {
        lemma_domain_size_front(labels);
        let len = span_len(labels[0].data) as int;
        assert(other.subrange(pos + 1, pos + 1 + len) =~= bytes.subrange(pos + 1, pos + 1 + len));
        lemma_held_frame(bytes, other, labels.drop_first(), pos + 1 + len, end);
    }
}

proof fn lemma_walk_ok_advances(data: Seq<u8>, pos: int, depth: nat)
    ensures
        walk_labels(data, pos, depth) matches Some((Ok(_), q)) ==> pos < q,
    decreases data.len() - pos,
{
    if 0 <= pos < data.len() {
        let l = data[pos] as int;
        if 1 <= l <= 63 && pos + 1 + l <= data.len() {
            lemma_walk_ok_advances(data, pos + 1 + l, depth);
        }
    }
}

/// A walk that follows no pointer reads only the bytes from `pos` to where it
/// ends: a buffer that agrees on them gives the same result.
pub proof fn lemma_walk_frame(bytes: Seq<u8>, other: Seq<u8>, pos: int)
    requires
        walk_labels(bytes, pos, 0) matches Some((Ok(_), q)) && forall|i: int|
            pos <= i < q ==> other[i] == bytes[i],
        other.len() == bytes.len(),
    ensures
        walk_labels(other, pos, 0) == walk_labels(bytes, pos, 0),
    decreases bytes.len() - pos,
{
    let q = walk_labels(bytes, pos, 0).unwrap().1;
    lemma_walk_ok_advances(bytes, pos, 0);
    assert(other[pos] == bytes[pos]);
    let l = bytes[pos] as int;
    if 1 <= l <= 63 {
        lemma_walk_frame(bytes, other, pos + 1 + l);
    }
}

/// Writing a name of short owned labels keeps the bytes before it, and the
/// bytes it writes walk back, without following any pointer, to labels that
/// point at the written bytes, ending behind the terminating zero.
pub proof fn lemma_domain_write_walk(labels: Seq<Label>, st: EncodeState)
    requires
        valid_state(st),
        forall|i: int| 0 <= i < labels.len() ==> short_owned(#[trigger] labels[i]),
        spec_encode_domain(labels, st) matches Some((Ok(()), _)),
    ensures
        ({
            let fin = spec_encode_domain(labels, st).unwrap().1;
            &&& valid_state(fin)
            &&& fin.pos == st.pos + domain_size(labels) + 1
            &&& forall|i: int| 0 <= i < st.pos ==> fin.bytes[i] == st.bytes[i]
            &&& walk_labels(fin.bytes, st.pos, 0) == Some(
                (Ok::<Seq<Label>, CodecError>(labels_written_at(labels, st.pos)), fin.pos),
            )
            &&& labels_held_at(fin.bytes, labels, st.pos)
        }),
    decreases labels.len(),
{
    if labels.len() == 0 {
        lemma_write_bytes_effect(st, seq![0u8]);
        let fin = spec_write_bytes(st, seq![0u8]).1;
        assert(fin.bytes.subrange(st.pos, st.pos + 1)[0] == 0);
    } else {
        let l = labels[0];
        let len = span_len(l.data) as int;
        let s1 = spec_write_bytes(st, seq![len as u8]).1;
        lemma_write_bytes_effect(st, seq![len as u8]);
        let s2 = spec_write_bytes(s1, owned_bytes(l)).1;
        lemma_write_bytes_effect(s1, owned_bytes(l));
        let rest = labels.drop_first();
        assert(spec_encode_domain(labels, st) == spec_encode_domain(rest, s2));
        assert forall|i: int| 0 <= i < rest.len() implies short_owned(#[trigger] rest[i]) by {
            assert(rest[i] == labels[i + 1]);
        }
        lemma_domain_write_walk(rest, s2);
        lemma_domain_size_front(labels);
        let fin = spec_encode_domain(labels, st).unwrap().1;
        assert(fin.bytes[st.pos] == s1.bytes.subrange(st.pos, st.pos + 1)[0]);
        assert(fin.bytes.subrange(st.pos + 1, st.pos + 1 + len) =~= s2.bytes.subrange(
            st.pos + 1,
            st.pos + 1 + len,
        ));
        assert(labels_written_at(labels, st.pos) =~= seq![label_at(st.pos + 1, len)]
            + labels_written_at(rest, st.pos + 1 + len));
        assert((fin.bytes[st.pos] as int) == len);
    }
}

/// A name whose labels hold their own bytes, 1 to 63 each, is read back from
/// where it was written: as labels that point at the bytes written for them,
/// with the cursor behind the terminating zero, `size()` plus one byte on.
pub proof fn lemma_domain_write_read(labels: Seq<Label>, st: EncodeState)
    requires
        valid_state(st),
        forall|i: int| 0 <= i < labels.len() ==> short_owned(#[trigger] labels[i]),
        spec_encode_domain(labels, st) matches Some((Ok(()), _)),
    ensures
        ({
            let fin = spec_encode_domain(labels, st).unwrap().1;
            &&& fin.pos == st.pos + domain_size(labels) + 1
            &&& spec_decode_labels(fin.bytes, st.pos) == Some(
                (Ok::<Seq<Label>, CodecError>(labels_written_at(labels, st.pos)), fin.pos),
            )
            &&& labels_held_at(fin.bytes, labels, st.pos)
        }),
{
    lemma_domain_write_walk(labels, st);
    let fin = spec_encode_domain(labels, st).unwrap().1;
    lemma_decode_labels_any_depth(fin.bytes, st.pos, 0);
}

} // verus!
