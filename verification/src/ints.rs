//! Little-endian integer fields of the wire format, and their
//! two's-complement readings.

use vstd::prelude::*;

use crate::size::spec_le32;

verus! {

/// The value of two little-endian bytes starting at `pos`.
pub open spec fn spec_le16(s: Seq<u8>, pos: int) -> int {
    s[pos] + 0x100 * s[pos + 1]
}

/// The value of eight little-endian bytes starting at `pos`.
pub open spec fn spec_le64(s: Seq<u8>, pos: int) -> int {
    spec_le32(s, pos) + 0x1_0000_0000 * spec_le32(s, pos + 4)
}

/// The value of sixteen little-endian bytes starting at `pos`.
pub open spec fn spec_le128(s: Seq<u8>, pos: int) -> int {
    spec_le64(s, pos) + 0x1_0000_0000_0000_0000 * spec_le64(s, pos + 8)
}

/// The two's-complement reading of an unsigned 16-bit value.
pub open spec fn spec_signed16(u: int) -> int {
    if u >= 0x8000 {
        u - 0x1_0000
    } else {
        u
    }
}

/// The two's-complement reading of an unsigned 32-bit value.
pub open spec fn spec_signed32(u: int) -> int {
    if u >= 0x8000_0000 {
        u - 0x1_0000_0000
    } else {
        u
    }
}

/// The two's-complement reading of an unsigned 64-bit value.
pub open spec fn spec_signed64(u: int) -> int {
    if u >= 0x8000_0000_0000_0000 {
        u - 0x1_0000_0000_0000_0000
    } else {
        u
    }
}

/// The two's-complement reading of an unsigned 128-bit value.
pub open spec fn spec_signed128(u: int) -> int {
    if u >= 0x8000_0000_0000_0000_0000_0000_0000_0000 {
        u - 0x1_0000_0000_0000_0000_0000_0000_0000_0000
    } else {
        u
    }
}

/// Reads a signed 16-bit little-endian field.
pub fn read_i16(b: &[u8], pos: usize) -> (r: i16)
    requires
        pos + 2 <= b@.len(),
    ensures
        r as int == spec_signed16(spec_le16(b@, pos as int)),
{
    let _blen = b.len();
    let b0 = *vstd::slice::slice_index_get(b, pos) as u16;
    let b1 = *vstd::slice::slice_index_get(b, pos + 1) as u16;
    let u: u16 = b0 + 0x100 * b1;
    if u >= 0x8000 {
        let m = u - 0x8000;
        (m as i16) - 0x4000 - 0x4000
    } else {
        u as i16
    }
}

/// Reads an unsigned 32-bit little-endian field.
pub fn read_u32(b: &[u8], pos: usize) -> (r: u32)
    requires
        pos + 4 <= b@.len(),
    ensures
        r == spec_le32(b@, pos as int),
{
    crate::size::read_le32(b, pos)
}

/// Reads a signed 32-bit little-endian field.
pub fn read_i32(b: &[u8], pos: usize) -> (r: i32)
    requires
        pos + 4 <= b@.len(),
    ensures
        r as int == spec_signed32(spec_le32(b@, pos as int)),
{
    let u = crate::size::read_le32(b, pos);
    if u >= 0x8000_0000 {
        let m = u - 0x8000_0000;
        (m as i32) - 0x4000_0000 - 0x4000_0000
    } else {
        u as i32
    }
}

/// Reads an unsigned 64-bit little-endian field.
pub fn read_u64(b: &[u8], pos: usize) -> (r: u64)
    requires
        pos + 8 <= b@.len(),
    ensures
        r == spec_le64(b@, pos as int),
{
    let _blen = b.len();
    let lo = crate::size::read_le32(b, pos) as u64;
    let hi = crate::size::read_le32(b, pos + 4) as u64;
    lo + 0x1_0000_0000 * hi
}

/// Reads a signed 64-bit little-endian field.
pub fn read_i64(b: &[u8], pos: usize) -> (r: i64)
    requires
        pos + 8 <= b@.len(),
    ensures
        r as int == spec_signed64(spec_le64(b@, pos as int)),
{
    let u = read_u64(b, pos);
    if u >= 0x8000_0000_0000_0000 {
        let m = u - 0x8000_0000_0000_0000;
        (m as i64) - 0x4000_0000_0000_0000 - 0x4000_0000_0000_0000
    } else {
        u as i64
    }
}

/// Reads a signed 128-bit little-endian field.
pub fn read_i128(b: &[u8], pos: usize) -> (r: i128)
    requires
        pos + 16 <= b@.len(),
    ensures
        r as int == spec_signed128(spec_le128(b@, pos as int)),
{
    let _blen = b.len();
    let lo = read_u64(b, pos) as u128;
    let hi = read_u64(b, pos + 8) as u128;
    let u: u128 = lo + 0x1_0000_0000_0000_0000 * hi;
    if u >= 0x8000_0000_0000_0000_0000_0000_0000_0000 {
        let m = u - 0x8000_0000_0000_0000_0000_0000_0000_0000;
        (m as i128) - 0x4000_0000_0000_0000_0000_0000_0000_0000
            - 0x4000_0000_0000_0000_0000_0000_0000_0000
    } else {
        u as i128
    }
}

} // verus!
