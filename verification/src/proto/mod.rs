//! The byte-level codec shared by every part of a DNS message.

use vstd::prelude::*;

pub mod decoder;
pub mod encoder;

verus! {

/// Why reading or writing a message failed.
///
/// `BufferOverflow(at, size)` says that position `at` lies past the end of a
/// buffer of `size` bytes.
#[derive(Debug, PartialEq, Eq, Structural)]
pub enum CodecError {
    BufferOverflow(usize, usize),
    FormatError,
}

/// The error for a position `at` that lies past a buffer of `size` bytes.
pub open spec fn overflow(at: int, size: int) -> CodecError {
    CodecError::BufferOverflow(at as usize, size as usize)
}

} // verus!
