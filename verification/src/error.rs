//! Errors reported by the encoding and decoding engines. Decode errors carry
//! enough structure to tell likely-hostile or corrupt input apart from a
//! logic error; none is silently downgraded or retried inside the core.

use vstd::prelude::*;

verus! {

/// An error raised while encoding a value.
#[derive(Clone, Copy, Debug, PartialEq, Eq, Structural)]
pub enum EncodeError {
    /// The byte sink rejected a write; fatal to the current encode call.
    UnexpectedEnd,
    /// The byte count of the encoding does not fit in `usize`.
    SizeOverflow,
}

/// An error raised while decoding a value; it terminates the current decode
/// call with no partial-value recovery.
#[derive(Clone, Copy, Debug, PartialEq, Eq, Structural)]
pub enum DecodeError {
    /// The source was exhausted before a required field or payload was fully
    /// read.
    UnexpectedEnd,
    /// A read-budget claim would exceed the configured limit: the declared
    /// lengths in the input claim more memory than the caller allows.
    LimitExceeded,
    /// A leading tag byte outside the set defined for the requested value.
    MalformedTag { found: u8 },
    /// The declared length for a fixed-size array differs from the statically
    /// required size.
    ArrayLengthMismatch { found: usize, required: usize },
    /// Decoded string bytes are not valid UTF-8.
    Utf8,
    /// A tagged-union discriminant with no matching variant.
    UnexpectedVariant { found: u64 },
    /// A declared length does not fit this platform's `usize`.
    OutsideUsizeRange,
}

} // verus!
