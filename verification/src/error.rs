//! What can go wrong while decoding or encoding a lot header.

use vstd::prelude::*;

verus! {

/// Why a buffer is not a lot header. No partial result is ever returned
/// with one of these.
#[derive(Clone, Copy, Debug, PartialEq, Eq, Structural)]
pub enum DecodeError {
    /// A field needs more bytes than are left.
    UnexpectedEof,
    /// Bytes that should be text are not valid UTF-8.
    InvalidText,
    /// Bytes are left over after the last field.
    TrailingData,
    /// A count is negative, or asks for more items than the bytes that are
    /// left could hold.
    MalformedCount,
}

/// Why a lot header cannot be written down.
#[derive(Clone, Copy, Debug, PartialEq, Eq, Structural)]
pub enum EncodeError {
    /// A collection holds more items than a signed 32-bit count can state.
    CountTooLarge,
}

} // verus!
