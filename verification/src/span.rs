//! A run of bytes: a range of the message buffer, or bytes of its own.

use vstd::prelude::*;

use crate::proto::encoder::{spec_copy_within, spec_write_bytes, EncodeState, Encoder, WriteStep};
use crate::proto::CodecError;

verus! {

#[derive(Debug)]
pub enum Span {
    Ref { start: usize, len: usize },
    Owned { data: Box<[u8]> },
}

/// The number of bytes a span covers.
pub open spec fn span_len(s: Span) -> nat {
    match s {
        Span::Ref { len, .. } => len as nat,
        Span::Owned { data } => data@.len(),
    }
}

impl Span {
    pub fn len(&self) -> (r: usize)
        ensures
            r == span_len(*self),
    {
        match self {
            Span::Ref { len, .. } => *len,
            Span::Owned { data } => data.len(),
        }
    }
}

/// Writing the bytes of a span: a range of the buffer is copied within it, own
/// bytes are written out. `None` where the write panics.
pub open spec fn spec_write_span(sp: Span, st: EncodeState) -> Option<WriteStep> {
    match sp {
        Span::Ref { start, len } => spec_copy_within(st, start as int, len as int),
        Span::Owned { data } => if st.pos + data@.len() > usize::MAX {
            None
        } else {
            Some(spec_write_bytes(st, data@))
        },
    }
}

/// Writes the bytes of `span` at the encoder's cursor.
pub fn write_span(span: &Span, encoder: &mut Encoder) -> (r: Result<(), CodecError>)
    requires
        old(encoder).wf(),
        spec_write_span(*span, old(encoder).state()) is Some,
    ensures
        final(encoder).wf(),
        spec_write_span(*span, old(encoder).state()) == Some((r, final(encoder).state())),
{
    match span {
        Span::Ref { start, len } => encoder.copy_within(*start, *len),
        Span::Owned { data } => encoder.write_bytes(data),
    }
}

} // verus!
