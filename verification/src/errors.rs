//! Error types of the decoder.
//!
//! Every error is fatal to the decode call that raised it: there is no
//! partial-result recovery or resynchronization within a message.

use vstd::prelude::*;

verus! {

/// Why a decode failed.  Each variant corresponds to one of the error
/// conditions of the wire format; no error is ever downgraded to a default
/// value.
#[derive(Debug, PartialEq, Eq)]
pub enum DecodeError {
    /// Not enough bytes remain for a fixed-width field or a declared size.
    Truncated,
    /// The declared length of the envelope does not equal the number of
    /// bytes that follow it.
    BadEnvelopeLength,
    /// The fixed marker byte expected after the declared length is absent.
    MissingMarker,
    /// A tag byte that names no known opcode; carries the offending byte.
    InvalidOpcode(u8),
    /// A string-table reference whose index lies beyond the table.
    InvalidStringTableIndex(u8),
    /// A UCS-2 string contained a code unit that names no character.
    InvalidUcs2,
    /// A byte-sequenced string failed UTF-8 validation.
    InvalidUtf8,
    /// A variable-width integer whose byte count is not 1, 4, 8 or 16;
    /// carries the offending count.
    UnsupportedVarIntWidth(usize),
    /// A dictionary key decoded to a value that is not key-eligible.
    UnhashableKey,
    /// The value tree nests deeper than the configured maximum.
    NestingTooDeep,
}

/// Failure to convert a value into a dictionary key: the value was one of
/// the composite variants, which are never legal keys on the wire.
#[derive(Debug, PartialEq, Eq)]
pub enum ConversionError {
    /// The value is not one of the key-eligible variants.
    NotKeyEligible,
}

} // verus!
