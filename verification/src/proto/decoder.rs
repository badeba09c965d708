//! Reading big-endian integers and byte runs out of a borrowed buffer.

use vstd::prelude::*;

use super::{overflow, CodecError};

verus! {

/// What a read leaves behind: its result, and the cursor afterwards.
pub type ReadStep<T> = (Result<T, CodecError>, int);

/// The value of two bytes in network (big-endian) order.
pub open spec fn be_u16(b0: u8, b1: u8) -> u16 {
    (b0 as int * 0x100 + b1 as int) as u16
}

/// The value of four bytes in network (big-endian) order.
pub open spec fn be_u32(b0: u8, b1: u8, b2: u8, b3: u8) -> u32 {
    (b0 as int * 0x1000000 + b1 as int * 0x10000 + b2 as int * 0x100 + b3 as int) as u32
}

/// `peek_u8` at `pos` of `data`.
pub open spec fn spec_peek_u8(data: Seq<u8>, pos: int) -> Result<u8, CodecError> {
    if pos < data.len() {
        Ok(data[pos])
    } else {
        Err(overflow(pos, data.len() as int))
    }
}

/// `read_u8` at `pos` of `data`: the byte there, or an overflow with the cursor left in place.
pub open spec fn spec_read_u8(data: Seq<u8>, pos: int) -> ReadStep<u8> {
    if pos < data.len() {
        (Ok(data[pos]), pos + 1)
    } else {
        (Err(overflow(pos, data.len() as int)), pos)
    }
}

/// `read_u16` at `pos <= data.len()`: two bytes, or, where fewer are left, an
/// overflow reported at the end of the buffer with the cursor moved there.
pub open spec fn spec_read_u16(data: Seq<u8>, pos: int) -> ReadStep<u16> {
    if pos + 2 <= data.len() {
        (Ok(be_u16(data[pos], data[pos + 1])), pos + 2)
    } else {
        (Err(overflow(data.len() as int, data.len() as int)), data.len() as int)
    }
}

/// `read_u32` at `pos <= data.len()`, in the same way as `spec_read_u16`.
pub open spec fn spec_read_u32(data: Seq<u8>, pos: int) -> ReadStep<u32> {
    if pos + 4 <= data.len() {
        (Ok(be_u32(data[pos], data[pos + 1], data[pos + 2], data[pos + 3])), pos + 4)
    } else {
        (Err(overflow(data.len() as int, data.len() as int)), data.len() as int)
    }
}

/// `seek(target)` from `pos`: a target past the end is refused and reported at `pos`.
pub open spec fn spec_seek(data: Seq<u8>, pos: int, target: int) -> ReadStep<()> {
    if target > data.len() {
        (Err(overflow(pos, data.len() as int)), pos)
    } else {
        (Ok(()), target)
    }
}

/// The result of a decode, with the decoded value taken by its view.
pub open spec fn view_result<T: View>(r: Result<T, CodecError>) -> Result<T::V, CodecError> {
    match r {
        Ok(v) => Ok(v@),
        Err(e) => Err(e),
    }
}

/// Puts the items `acc` read so far in front of what the rest of a decode reads.
pub open spec fn prepend_all<T>(acc: Seq<T>, w: Option<ReadStep<Seq<T>>>) -> Option<ReadStep<Seq<T>>> {
    match w {
        None => None,
        Some((Ok(rest), q)) => Some((Ok(acc + rest), q)),
        Some((Err(e), q)) => Some((Err(e), q)),
    }
}

/// A part of a message that can be read from a `Decoder`.
pub trait Decode<'a>: Sized + View {
    /// Decoding at `pos` of `data`: `None` where the decode never returns (it
    /// recurses without end or an addition overflows); otherwise the value read,
    /// or the error, and the cursor afterwards.
    spec fn spec_decode(data: Seq<u8>, pos: int) -> Option<ReadStep<Self::V>>;

    fn decode(decoder: &mut Decoder<'a>) -> (r: Result<Self, CodecError>)
        requires
            old(decoder).wf(),
            Self::spec_decode(old(decoder).data(), old(decoder).cursor()) is Some,
        ensures
            final(decoder).wf(),
            final(decoder).data() == old(decoder).data(),
            Self::spec_decode(old(decoder).data(), old(decoder).cursor()) == Some(
                (view_result(r), final(decoder).cursor()),
            ),
    ;
}

/// A cursor over a borrowed byte buffer.
pub struct Decoder<'a> {
    buf: &'a [u8],
    pos: usize,
}

impl<'a> Decoder<'a> {
    /// The bytes being read.
    pub closed spec fn data(&self) -> Seq<u8> {
        self.buf@
    }

    /// The position of the next byte to read.
    pub closed spec fn cursor(&self) -> int {
        self.pos as int
    }

    /// The cursor lies within the buffer.
    pub open spec fn wf(&self) -> bool {
        &&& 0 <= self.cursor() <= self.data().len()
        &&& self.data().len() <= usize::MAX
    }

    pub fn new(buf: &'a [u8]) -> (d: Self)
        ensures
            d.wf(),
            d.data() == buf@,
            d.cursor() == 0,
    {
        assert(buf@.len() == buf.len());
        Self { buf, pos: 0 }
    }

    /// The whole buffer being read.
    pub fn bytes(&self) -> (r: &'a [u8])
        ensures
            r@ == self.data(),
    {
        self.buf
    }

    pub fn remaining(&self) -> (r: usize)
        requires
            self.wf(),
        ensures
            r == self.data().len() - self.cursor(),
    {
        self.buf.len() - self.pos
    }

    pub fn position(&self) -> (r: usize)
        ensures
            r == self.cursor(),
    {
        self.pos
    }

    pub fn seek(&mut self, pos: usize) -> (r: Result<(), CodecError>)
        requires
            old(self).wf(),
        ensures
            final(self).wf(),
            final(self).data() == old(self).data(),
            (r, final(self).cursor()) == spec_seek(old(self).data(), old(self).cursor(), pos as int),
    {
        if pos > self.buf.len() {
            return Err(CodecError::BufferOverflow(self.pos, self.buf.len()));
        }
        self.pos = pos;
        Ok(())
    }

    pub fn read_u32(&mut self) -> (r: Result<u32, CodecError>)
        requires
            old(self).wf(),
        ensures
            final(self).wf(),
            final(self).data() == old(self).data(),
            (r, final(self).cursor()) == spec_read_u32(old(self).data(), old(self).cursor()),
    {
        let b0 = self.read_u8()?;
        let b1 = self.read_u8()?;
        let b2 = self.read_u8()?;
        let b3 = self.read_u8()?;
        let v: u32 = ((b0 as u32) << 24u32) | ((b1 as u32) << 16u32) | ((b2 as u32) << 8u32)
            | (b3 as u32);
        assert(v == be_u32(b0, b1, b2, b3)) by (bit_vector)
            requires
                v == ((b0 as u32) << 24u32) | ((b1 as u32) << 16u32) | ((b2 as u32) << 8u32)
                    | (b3 as u32),
        ;
        Ok(v)
    }

    pub fn read_u16(&mut self) -> (r: Result<u16, CodecError>)
        requires
            old(self).wf(),
        ensures
            final(self).wf(),
            final(self).data() == old(self).data(),
            (r, final(self).cursor()) == spec_read_u16(old(self).data(), old(self).cursor()),
    {
        let b0 = self.read_u8()?;
        let b1 = self.read_u8()?;
        let v: u16 = ((b0 as u16) << 8u16) | (b1 as u16);
        assert(v == be_u16(b0, b1)) by (bit_vector)
            requires
                v == ((b0 as u16) << 8u16) | (b1 as u16),
        ;
        Ok(v)
    }

    pub fn read_u8(&mut self) -> (r: Result<u8, CodecError>)
        requires
            old(self).wf(),
        ensures
            final(self).wf(),
            final(self).data() == old(self).data(),
            (r, final(self).cursor()) == spec_read_u8(old(self).data(), old(self).cursor()),
    {
        broadcast use vstd::layout::layout_of_primitives;

        let value = self.peek_u8()?;
        self.pos += core::mem::size_of::<u8>();
        Ok(value)
    }

    /// Takes the next `len` bytes.
    pub fn read_bytes(&mut self, len: usize) -> (r: Result<&'a [u8], CodecError>)
        requires
            old(self).wf(),
            old(self).cursor() + len <= usize::MAX,
        ensures
            final(self).wf(),
            final(self).data() == old(self).data(),
            match r {
                Ok(bytes) => {
                    &&& old(self).cursor() + len <= old(self).data().len()
                    &&& bytes@ == old(self).data().subrange(
                        old(self).cursor(),
                        old(self).cursor() + len,
                    )
                    &&& final(self).cursor() == old(self).cursor() + len
                },
                Err(e) => {
                    &&& old(self).cursor() + len > old(self).data().len()
                    &&& e == overflow(old(self).cursor() + len, old(self).data().len() as int)
                    &&& final(self).cursor() == old(self).cursor()
                },
            },
    {
        if len > self.remaining() {
            return Err(CodecError::BufferOverflow(self.pos + len, self.buf.len()));
        }
        let bytes = &self.buf[self.pos..self.pos + len];
        self.pos += len;
        Ok(bytes)
    }

    pub fn peek_u8(&self) -> (r: Result<u8, CodecError>)
        requires
            self.wf(),
        ensures
            r == spec_peek_u8(self.data(), self.cursor()),
    {
        if self.pos >= self.buf.len() {
            return Err(CodecError::BufferOverflow(self.pos, self.buf.len()));
        }
        Ok(self.buf[self.pos])
    }
}

} // verus!
