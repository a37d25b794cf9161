//! The failures that the codec reports.

use vstd::prelude::*;

verus! {

/// Why a byte-level operation on a buffer failed.
#[derive(Debug, Clone, Copy, PartialEq, Eq, Structural)]
pub enum IoFailure {
    /// A write of `attempted` bytes would have taken the buffer past its
    /// ceiling of `max_capacity` bytes.
    CapacityExceeded { attempted: usize, max_capacity: usize },
    /// A peek of `requested` bytes reached past the end of the data.
    PeekOutOfBounds { requested: usize, max_capacity: usize },
    /// A read asked for more bytes than remain after the cursor.
    UnexpectedEof,
    /// The payload of a string is not valid UTF-8.
    InvalidUtf8,
    /// More than eight booleans were to be packed into, or unpacked from,
    /// one byte.
    TooManyBools,
    /// The UTF-8 encoding of a string is longer than a two-byte length
    /// prefix can say.
    StringTooLong,
}

/// Errors that can occur when encoding or decoding a `Bufferfish`.
#[derive(Debug, Clone, Copy, PartialEq, Eq, Structural)]
pub enum BufferfishError {
    /// A byte-level read or write failed.
    FailedWrite(IoFailure),
    /// The message identifier at the head of the data is not the expected
    /// one.
    InvalidMessageId,
    /// A discriminant or presence byte names no declared variant.
    InvalidEnumVariant,
    /// The buffer doesn't contain enough bytes for the requested type.
    InsufficientBytes { available: usize, required: usize },
    /// The buffer contains too many bytes for the requested type.
    ExcessiveBytes { available: usize, max_allowed: usize },
}

} // verus!
