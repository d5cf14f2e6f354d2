//! The closed set of opcodes of the wire format.
//!
//! Each encoded value begins with a tag byte selecting its type and framing
//! rule.  The set is closed: a byte outside the table is a fatal decode
//! failure, never silently skipped.

use vstd::prelude::*;

verus! {

/// An opcode of the wire format.  The numeric tag of each variant is given
/// by [`EVEOpCode::spec_code`] and produced by [`EVEOpCode::code`].
#[derive(Debug, PartialEq, Eq, Clone, Copy)]
pub enum EVEOpCode {
    /// The absent value; no payload.
    Null,
    /// 64-bit signed integer, 8 bytes little-endian.
    LongLong,
    /// 32-bit signed integer, 4 bytes little-endian, widened to 64 bits.
    Long,
    /// 16-bit signed integer, 2 bytes little-endian.
    SignedShort,
    /// 8-bit unsigned integer, 1 byte.
    Byte,
    /// The literal integer -1; no payload.
    IntegerNegativeOne,
    /// The literal integer 0; no payload.
    IntegerZero,
    /// The literal integer 1; no payload.
    IntegerOne,
    /// 64-bit float, 8 bytes little-endian.
    Real,
    /// The literal float 0.0; no payload.
    RealZero,
    /// Byte string: size then that many raw bytes.
    ShortString,
    /// One-byte index into the built-in string table.
    StringTableString,
    /// Counted UCS-2 code units, converted to UTF-8.
    WStringUCS2,
    /// Byte string framed exactly as [`EVEOpCode::ShortString`].
    LongString,
    /// Counted sequence of recursively decoded values.
    Tuple,
    /// Counted (value, key) pairs, keys converted and deduplicated.
    Dict,
    /// Two recursively decoded values: type descriptor, then argument.
    Object,
    /// Zero-length tuple; no payload.
    EmptyTuple,
    /// Exactly one recursively decoded value, no explicit count.
    OneTuple,
    /// Sized nested payload, parsed as a full framed message body.
    SubStream,
    /// Exactly two recursively decoded values, no explicit count.
    TwoTuple,
    /// Counted individual bytes, validated as UTF-8.
    WStringUTF8,
    /// Counted raw bytes forming a little-endian two's-complement integer.
    VarInteger,
}

impl EVEOpCode {
    /// The tag byte of this opcode.
    pub open spec fn spec_code(self) -> u8 {
        match self {
            EVEOpCode::Null => 0x01,
            EVEOpCode::LongLong => 0x03,
            EVEOpCode::Long => 0x04,
            EVEOpCode::SignedShort => 0x05,
            EVEOpCode::Byte => 0x06,
            EVEOpCode::IntegerNegativeOne => 0x07,
            EVEOpCode::IntegerZero => 0x08,
            EVEOpCode::IntegerOne => 0x09,
            EVEOpCode::Real => 0x0a,
            EVEOpCode::RealZero => 0x0b,
            EVEOpCode::ShortString => 0x10,
            EVEOpCode::StringTableString => 0x11,
            EVEOpCode::WStringUCS2 => 0x12,
            EVEOpCode::LongString => 0x13,
            EVEOpCode::Tuple => 0x14,
            EVEOpCode::Dict => 0x16,
            EVEOpCode::Object => 0x17,
            EVEOpCode::EmptyTuple => 0x24,
            EVEOpCode::OneTuple => 0x25,
            EVEOpCode::SubStream => 0x2b,
            EVEOpCode::TwoTuple => 0x2c,
            EVEOpCode::WStringUTF8 => 0x2e,
            EVEOpCode::VarInteger => 0x2f,
        }
    }

    /// The tag byte of this opcode, as written on the wire.
    pub fn code(self) -> (r: u8)
        ensures
            r == self.spec_code(),
    {
        match self {
            EVEOpCode::Null => 0x01,
            EVEOpCode::LongLong => 0x03,
            EVEOpCode::Long => 0x04,
            EVEOpCode::SignedShort => 0x05,
            EVEOpCode::Byte => 0x06,
            EVEOpCode::IntegerNegativeOne => 0x07,
            EVEOpCode::IntegerZero => 0x08,
            EVEOpCode::IntegerOne => 0x09,
            EVEOpCode::Real => 0x0a,
            EVEOpCode::RealZero => 0x0b,
            EVEOpCode::ShortString => 0x10,
            EVEOpCode::StringTableString => 0x11,
            EVEOpCode::WStringUCS2 => 0x12,
            EVEOpCode::LongString => 0x13,
            EVEOpCode::Tuple => 0x14,
            EVEOpCode::Dict => 0x16,
            EVEOpCode::Object => 0x17,
            EVEOpCode::EmptyTuple => 0x24,
            EVEOpCode::OneTuple => 0x25,
            EVEOpCode::SubStream => 0x2b,
            EVEOpCode::TwoTuple => 0x2c,
            EVEOpCode::WStringUTF8 => 0x2e,
            EVEOpCode::VarInteger => 0x2f,
        }
    }

    /// The opcode named by a tag byte, or nothing for an unrecognized byte.
    pub open spec fn spec_from_code(code: u8) -> Option<EVEOpCode> {
        if code == 0x01 {
            Some(EVEOpCode::Null)
        } else if code == 0x03 {
            Some(EVEOpCode::LongLong)
        } else if code == 0x04 {
            Some(EVEOpCode::Long)
        } else if code == 0x05 {
            Some(EVEOpCode::SignedShort)
        } else if code == 0x06 {
            Some(EVEOpCode::Byte)
        } else if code == 0x07 {
            Some(EVEOpCode::IntegerNegativeOne)
        } else if code == 0x08 {
            Some(EVEOpCode::IntegerZero)
        } else if code == 0x09 {
            Some(EVEOpCode::IntegerOne)
        } else if code == 0x0a {
            Some(EVEOpCode::Real)
        } else if code == 0x0b {
            Some(EVEOpCode::RealZero)
        } else if code == 0x10 {
            Some(EVEOpCode::ShortString)
        } else if code == 0x11 {
            Some(EVEOpCode::StringTableString)
        } else if code == 0x12 {
            Some(EVEOpCode::WStringUCS2)
        } else if code == 0x13 {
            Some(EVEOpCode::LongString)
        } else if code == 0x14 {
            Some(EVEOpCode::Tuple)
        } else if code == 0x16 {
            Some(EVEOpCode::Dict)
        } else if code == 0x17 {
            Some(EVEOpCode::Object)
        } else if code == 0x24 {
            Some(EVEOpCode::EmptyTuple)
        } else if code == 0x25 {
            Some(EVEOpCode::OneTuple)
        } else if code == 0x2b {
            Some(EVEOpCode::SubStream)
        } else if code == 0x2c {
            Some(EVEOpCode::TwoTuple)
        } else if code == 0x2e {
            Some(EVEOpCode::WStringUTF8)
        } else if code == 0x2f {
            Some(EVEOpCode::VarInteger)
        } else {
            None
        }
    }

    /// Looks a tag byte up in the opcode table.
    pub fn from_code(code: u8) -> (r: Option<EVEOpCode>)
        ensures
            r == EVEOpCode::spec_from_code(code),
    {
        match code {
            0x01 => Some(EVEOpCode::Null),
            0x03 => Some(EVEOpCode::LongLong),
            0x04 => Some(EVEOpCode::Long),
            0x05 => Some(EVEOpCode::SignedShort),
            0x06 => Some(EVEOpCode::Byte),
            0x07 => Some(EVEOpCode::IntegerNegativeOne),
            0x08 => Some(EVEOpCode::IntegerZero),
            0x09 => Some(EVEOpCode::IntegerOne),
            0x0a => Some(EVEOpCode::Real),
            0x0b => Some(EVEOpCode::RealZero),
            0x10 => Some(EVEOpCode::ShortString),
            0x11 => Some(EVEOpCode::StringTableString),
            0x12 => Some(EVEOpCode::WStringUCS2),
            0x13 => Some(EVEOpCode::LongString),
            0x14 => Some(EVEOpCode::Tuple),
            0x16 => Some(EVEOpCode::Dict),
            0x17 => Some(EVEOpCode::Object),
            0x24 => Some(EVEOpCode::EmptyTuple),
            0x25 => Some(EVEOpCode::OneTuple),
            0x2b => Some(EVEOpCode::SubStream),
            0x2c => Some(EVEOpCode::TwoTuple),
            0x2e => Some(EVEOpCode::WStringUTF8),
            0x2f => Some(EVEOpCode::VarInteger),
            _ => None,
        }
    }
}

} // verus!
