//! The failure modes of the two codecs. Every error is a data-integrity
//! error surfaced immediately to the caller; none is recoverable within a
//! call.

use vstd::prelude::*;

verus! {

/// Why an encode or decode call failed.
#[derive(Clone, Copy, PartialEq, Eq, Structural, Debug)]
pub enum CodecError {
    /// Encoding: a dimension or entry count exceeds the wire format's
    /// integer width.
    Overflow,
    /// Decoding: a reserved slot holds a non-zero value, so the buffer does
    /// not follow the expected format.
    UnexpectedReservedValue,
    /// Decoding: the header declares more elements or pairs than the buffer
    /// supplies.
    TruncatedInput,
}

} // verus!
