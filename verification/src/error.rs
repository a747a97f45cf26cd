//! Error values reported by the codec.
use vstd::prelude::*;

verus! {

/// A terminal failure while encoding or decoding a value.
///
/// Every failure is terminal for the frame being processed: the caller
/// must treat the peer's bytes (or the value it tried to encode) as an
/// invalid frame. There is no partial-decode recovery.
#[derive(Debug, Clone, Copy, PartialEq, Eq, Structural)]
pub enum CodecError {
    /// The source ended before the value's declared extent.
    UnexpectedEof,
    /// A 32-bit variable-length integer ran past its maximum of 5 groups.
    MalformedVarInt,
    /// A 64-bit variable-length integer ran past its maximum of 10 groups.
    MalformedVarLong,
    /// A boolean byte other than 0 or 1.
    InvalidBoolean,
    /// A string longer than 32767 bytes, on encode or on decode.
    StringTooLong,
    /// A string body that is not valid UTF-8.
    InvalidUtf8,
    /// A declared element or byte count above the allocation-safety cap.
    SequenceTooLong,
}

} // verus!
