//! Writing big-endian integers and byte runs into a fixed 4096-byte buffer.

use vstd::prelude::*;

use super::decoder::{be_u16, be_u32, spec_read_u16, spec_read_u32, spec_read_u8};
use super::{overflow, CodecError};

verus! {

/// The contents of an encoder's buffer, and the position of the next byte to write.
pub struct EncodeState {
    pub bytes: Seq<u8>,
    pub pos: int,
}

/// What a write leaves behind: its result and the encoder's new state.
pub type WriteStep = (Result<(), CodecError>, EncodeState);

/// The two bytes of `v` in network (big-endian) order.
pub open spec fn be_bytes_u16(v: u16) -> Seq<u8> {
    seq![(v >> 8u16) as u8, v as u8]
}

/// The four bytes of `v` in network (big-endian) order.
pub open spec fn be_bytes_u32(v: u32) -> Seq<u8> {
    seq![(v >> 24u32) as u8, (v >> 16u32) as u8, (v >> 8u32) as u8, v as u8]
}

/// `bytes` with the run at `at` overwritten by `run`.
pub open spec fn splice(bytes: Seq<u8>, at: int, run: Seq<u8>) -> Seq<u8> {
    bytes.take(at) + run + bytes.skip(at + run.len())
}

/// `write_bytes(run)` on a 4096-byte buffer: the run is written at the cursor when
/// it fits; otherwise nothing changes and the end it would have reached is reported.
pub open spec fn spec_write_bytes(st: EncodeState, run: Seq<u8>) -> WriteStep {
    if run.len() > 4096 - st.pos {
        (Err(overflow(st.pos + run.len(), 4096)), st)
    } else {
        (Ok(()), EncodeState { bytes: splice(st.bytes, st.pos, run), pos: st.pos + run.len() })
    }
}

/// `copy_within(start, len)`: `None` where the call panics, on an overflowing
/// error report or on a source range `start..len` that is reversed.
/// Otherwise the bytes `start..len` are copied to the cursor and the cursor
/// moves on by `len`.
pub open spec fn spec_copy_within(st: EncodeState, start: int, len: int) -> Option<WriteStep> {
    if start > st.pos {
        Some((Err(overflow(start, 4096)), st))
    } else if len > 4096 - st.pos {
        if st.pos + len > usize::MAX {
            None
        } else {
            Some((Err(overflow(st.pos + len, 4096)), st))
        }
    } else if start > len {
        None
    } else {
        Some(
            (
                Ok(()),
                EncodeState {
                    bytes: splice(st.bytes, st.pos, st.bytes.subrange(start, len)),
                    pos: st.pos + len,
                },
            ),
        )
    }
}

/// A part of a message that can be written into an `Encoder`.
pub trait Encode<'a>: Sized {
    /// Encoding `self` from state `st`: `None` where the encode panics;
    /// otherwise its result and the encoder's state afterwards.
    spec fn spec_encode(self, st: EncodeState) -> Option<WriteStep>;

    fn encode(self, encoder: &mut Encoder<'a>) -> (r: Result<(), CodecError>)
        requires
            old(encoder).wf(),
            self.spec_encode(old(encoder).state()) is Some,
        ensures
            final(encoder).wf(),
            self.spec_encode(old(encoder).state()) == Some((r, final(encoder).state())),
    ;
}

/// A cursor over a mutably borrowed 4096-byte buffer.
pub struct Encoder<'a> {
    buf: &'a mut [u8; 4096],
    pos: usize,
}

impl<'a> Encoder<'a> {
    /// The buffer's contents and the cursor.
    pub closed spec fn state(&self) -> EncodeState {
        EncodeState { bytes: self.buf@, pos: self.pos as int }
    }

    /// The cursor lies within the buffer.
    pub open spec fn wf(&self) -> bool {
        &&& self.state().bytes.len() == 4096
        &&& 0 <= self.state().pos <= 4096
    }

    pub fn new(buf: &'a mut [u8; 4096]) -> (e: Self)
        ensures
            e.wf(),
            e.state().bytes == old(buf)@,
            e.state().pos == 0,
    {
        Self { buf, pos: 0 }
    }

    pub fn remaining(&self) -> (r: usize)
        requires
            self.wf(),
        ensures
            r == 4096 - self.state().pos,
    {
        self.buf.len() - self.pos
    }

    pub fn position(&self) -> (r: usize)
        ensures
            r == self.state().pos,
    {
        self.pos
    }

    /// The buffer as the encoder has written it so far.
    pub fn buffer(&self) -> (r: &[u8; 4096])
        ensures
            r@ == self.state().bytes,
    {
        &*self.buf
    }

    pub fn write_u32(&mut self, value: u32) -> (r: Result<(), CodecError>)
        requires
            old(self).wf(),
        ensures
            final(self).wf(),
            (r, final(self).state()) == spec_write_bytes(old(self).state(), be_bytes_u32(value)),
    {
        let bytes: [u8; 4] = [
            (value >> 24u32) as u8,
            (value >> 16u32) as u8,
            (value >> 8u32) as u8,
            value as u8,
        ];
        assert(bytes@ =~= be_bytes_u32(value));
        self.write_bytes(&bytes)
    }

    pub fn write_u16(&mut self, value: u16) -> (r: Result<(), CodecError>)
        requires
            old(self).wf(),
        ensures
            final(self).wf(),
            (r, final(self).state()) == spec_write_bytes(old(self).state(), be_bytes_u16(value)),
    {
        let bytes: [u8; 2] = [(value >> 8u16) as u8, value as u8];
        assert(bytes@ =~= be_bytes_u16(value));
        self.write_bytes(&bytes)
    }

    pub fn write_u8(&mut self, value: u8) -> (r: Result<(), CodecError>)
        requires
            old(self).wf(),
        ensures
            final(self).wf(),
            (r, final(self).state()) == spec_write_bytes(old(self).state(), seq![value]),
    {
        let bytes: [u8; 1] = [value];
        assert(bytes@ =~= seq![value]);
        self.write_bytes(&bytes)
    }

    pub fn write_bytes(&mut self, bytes: &[u8]) -> (r: Result<(), CodecError>)
        requires
            old(self).wf(),
            old(self).state().pos + bytes@.len() <= usize::MAX,
        ensures
            final(self).wf(),
            (r, final(self).state()) == spec_write_bytes(old(self).state(), bytes@),
    {
        if bytes.len() > self.remaining() {
            return Err(CodecError::BufferOverflow(self.pos + bytes.len(), self.buf.len()));
        }
        let start = self.pos;
        let n = bytes.len();
        let ghost before = self.buf@;
        let mut i: usize = 0;
        while i < n
            invariant
                0 <= i <= n,
                n == bytes@.len(),
                start == self.pos,
                start + n <= 4096,
                self.buf@.len() == 4096,
                before.len() == 4096,
                forall|j: int|
                    0 <= j < 4096 ==> #[trigger] self.buf@[j] == if start <= j < start + i {
                        bytes@[j - start]
                    } else {
                        before[j]
                    },
            decreases n - i,
        {
            self.buf[start + i] = bytes[i];
            i += 1;
        }
        self.pos = start + n;
        assert(self.buf@ =~= splice(before, start as int, bytes@));
        Ok(())
    }

    /// Copies the bytes `start..len` of the buffer to the cursor and moves the
    /// cursor on by `len`.
    pub fn copy_within(&mut self, start: usize, len: usize) -> (r: Result<(), CodecError>)
        requires
            old(self).wf(),
            spec_copy_within(old(self).state(), start as int, len as int) is Some,
        ensures
            final(self).wf(),
            Some((r, final(self).state())) == spec_copy_within(
                old(self).state(),
                start as int,
                len as int,
            ),
    {
        if start > self.pos {
            return Err(CodecError::BufferOverflow(start, self.buf.len()));
        }
        if len > self.remaining() {
            return Err(CodecError::BufferOverflow(self.pos + len, self.buf.len()));
        }
        let dest = self.pos;
        let n = len - start;
        let ghost before = self.buf@;
        // The target lies at or after the source, so copying from the last byte
        // backwards reads each source byte before it is overwritten.
        let mut k: usize = n;
        while k > 0
            invariant
                0 <= k <= n,
                n == len - start,
                start <= dest,
                dest + len <= 4096,
                dest == self.pos,
                before.len() == 4096,
                self.buf@.len() == 4096,
                forall|j: int|
                    0 <= j < 4096 ==> #[trigger] self.buf@[j] == if dest + k <= j < dest + n {
                        before[start + (j - dest)]
                    } else {
                        before[j]
                    },
            decreases k,
        {
            k -= 1;
            let b = self.buf[start + k];
            self.buf[dest + k] = b;
        }
        self.pos = dest + len;
        assert(self.buf@ =~= splice(before, dest as int, before.subrange(start as int, len as int)));
        Ok(())
    }
}

/// A state that an encoder can be in: a 4096-byte buffer and a cursor within it.
pub open spec fn valid_state(st: EncodeState) -> bool {
    st.bytes.len() == 4096 && 0 <= st.pos <= 4096
}

/// Where a write succeeds, the run stands at the old cursor, the cursor moves
/// past it, and every other byte is left as it was.
pub proof fn lemma_write_bytes_effect(st: EncodeState, run: Seq<u8>)
    requires
        valid_state(st),
        spec_write_bytes(st, run).0 is Ok,
    ensures
        valid_state(spec_write_bytes(st, run).1),
        spec_write_bytes(st, run).1.pos == st.pos + run.len(),
        spec_write_bytes(st, run).1.bytes.subrange(st.pos, st.pos + run.len()) == run,
        forall|i: int|
            0 <= i < 4096 && !(st.pos <= i < st.pos + run.len()) ==> #[trigger] spec_write_bytes(
                st,
                run,
            ).1.bytes[i] == st.bytes[i],
{
    assert(spec_write_bytes(st, run).1.bytes.subrange(st.pos, st.pos + run.len()) =~= run);
}

/// A byte written is read back from where it was written.
pub proof fn lemma_write_read_u8(st: EncodeState, v: u8)
    requires
        valid_state(st),
        spec_write_bytes(st, seq![v]).0 is Ok,
    ensures
        spec_read_u8(spec_write_bytes(st, seq![v]).1.bytes, st.pos) == (
            Ok::<u8, CodecError>(v),
            st.pos + 1,
        ),
{
    lemma_write_bytes_effect(st, seq![v]);
    assert(spec_write_bytes(st, seq![v]).1.bytes.subrange(st.pos, st.pos + 1)[0] == v);
}

/// A 16-bit value written in network order is read back from where it was written.
pub proof fn lemma_write_read_u16(st: EncodeState, v: u16)
    requires
        valid_state(st),
        spec_write_bytes(st, be_bytes_u16(v)).0 is Ok,
    ensures
        spec_read_u16(spec_write_bytes(st, be_bytes_u16(v)).1.bytes, st.pos) == (
            Ok::<u16, CodecError>(v),
            st.pos + 2,
        ),
{
    let run = be_bytes_u16(v);
    lemma_write_bytes_effect(st, run);
    let out = spec_write_bytes(st, run).1.bytes;
    assert(out[st.pos] == run[0] && out[st.pos + 1] == run[1]) by {
        assert(out.subrange(st.pos, st.pos + 2)[0] == run[0]);
        assert(out.subrange(st.pos, st.pos + 2)[1] == run[1]);
    }
    let b0 = (v >> 8u16) as u8;
    let b1 = v as u8;
    assert(be_u16(b0, b1) == v) by (bit_vector)
        requires
            b0 == (v >> 8u16) as u8,
            b1 == v as u8,
    ;
}

/// A 32-bit value written in network order is read back from where it was written.
pub proof fn lemma_write_read_u32(st: EncodeState, v: u32)
    requires
        valid_state(st),
        spec_write_bytes(st, be_bytes_u32(v)).0 is Ok,
    ensures
        spec_read_u32(spec_write_bytes(st, be_bytes_u32(v)).1.bytes, st.pos) == (
            Ok::<u32, CodecError>(v),
            st.pos + 4,
        ),
{
    let run = be_bytes_u32(v);
    lemma_write_bytes_effect(st, run);
    let out = spec_write_bytes(st, run).1.bytes;
    assert(out[st.pos] == run[0] && out[st.pos + 1] == run[1] && out[st.pos + 2] == run[2]
        && out[st.pos + 3] == run[3]) by {
        let sub = out.subrange(st.pos, st.pos + 4);
        assert(sub[0] == run[0] && sub[1] == run[1] && sub[2] == run[2] && sub[3] == run[3]);
    }
    let b0 = (v >> 24u32) as u8;
    let b1 = (v >> 16u32) as u8;
    let b2 = (v >> 8u32) as u8;
    let b3 = v as u8;
    assert(be_u32(b0, b1, b2, b3) == v) by (bit_vector)
        requires
            b0 == (v >> 24u32) as u8,
            b1 == (v >> 16u32) as u8,
            b2 == (v >> 8u32) as u8,
            b3 == v as u8,
    ;
}

/// A 16-bit read sees only its two bytes.
pub proof fn lemma_read_u16_frame(a: Seq<u8>, b: Seq<u8>, pos: int)
    requires
        a.len() == b.len(),
        0 <= pos,
        pos + 2 <= a.len(),
        forall|i: int| pos <= i < pos + 2 ==> a[i] == b[i],
    ensures
        spec_read_u16(b, pos) == spec_read_u16(a, pos),
{
    assert(a[pos] == b[pos] && a[pos + 1] == b[pos + 1]);
}

/// A 32-bit read sees only its four bytes.
pub proof fn lemma_read_u32_frame(a: Seq<u8>, b: Seq<u8>, pos: int)
    requires
        a.len() == b.len(),
        0 <= pos,
        pos + 4 <= a.len(),
        forall|i: int| pos <= i < pos + 4 ==> a[i] == b[i],
    ensures
        spec_read_u32(b, pos) == spec_read_u32(a, pos),
{
    assert(a[pos] == b[pos] && a[pos + 1] == b[pos + 1] && a[pos + 2] == b[pos + 2] && a[pos
        + 3] == b[pos + 3]);
}

} // verus!
