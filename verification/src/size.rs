//! The size codec: the variable-width unsigned length/count field used by
//! every length-prefixed construct of the format.
//!
//! One byte is read; `0xff` escapes to a 4-byte little-endian unsigned
//! 32-bit integer, any other byte (0 to 254) is the size itself.

use vstd::prelude::*;

use crate::errors::DecodeError;

verus! {

/// The value of four little-endian bytes starting at `pos`.
pub open spec fn spec_le32(s: Seq<u8>, pos: int) -> int {
    s[pos] + 0x100 * s[pos + 1] + 0x1_0000 * s[pos + 2] + 0x100_0000 * s[pos + 3]
}

/// What the size codec yields on the bytes of `s` between `pos` and `end`:
/// the decoded size and the position after it, or the error.
pub open spec fn spec_decode_size(s: Seq<u8>, pos: int, end: int) -> Result<
    (int, int),
    DecodeError,
> {
    if pos >= end {
        Err(DecodeError::Truncated)
    } else if s[pos] == 0xff {
        if end - pos >= 5 {
            Ok((spec_le32(s, pos + 1), pos + 5))
        } else {
            Err(DecodeError::Truncated)
        }
    } else {
        Ok((s[pos] as int, pos + 1))
    }
}

/// Reads four little-endian bytes starting at `pos`.
pub fn read_le32(b: &[u8], pos: usize) -> (r: u32)
    requires
        pos + 4 <= b@.len(),
    ensures
        r == spec_le32(b@, pos as int),
{
    let _blen = b.len();
    let b0 = *vstd::slice::slice_index_get(b, pos) as u32;
    let b1 = *vstd::slice::slice_index_get(b, pos + 1) as u32;
    let b2 = *vstd::slice::slice_index_get(b, pos + 2) as u32;
    let b3 = *vstd::slice::slice_index_get(b, pos + 3) as u32;
    b0 + 0x100 * b1 + 0x1_0000 * b2 + 0x100_0000 * b3
}

/// Decodes one size field from `b` between `pos` and `end`, returning the
/// size and the position after the field.
pub fn decode_size(b: &[u8], pos: usize, end: usize) -> (r: Result<(usize, usize), DecodeError>)
    requires
        pos <= end <= b@.len(),
    ensures
        match r {
            Ok((n, p)) => pos < p <= end && spec_decode_size(b@, pos as int, end as int) == Ok::<
                _,
                DecodeError,
            >((n as int, p as int)),
            Err(e) => spec_decode_size(b@, pos as int, end as int) == Err::<(int, int), _>(e),
        },
{
    if pos >= end {
        return Err(DecodeError::Truncated);
    }
    let first = *vstd::slice::slice_index_get(b, pos);
    if first == 0xff {
        if end - pos >= 5 {
            let n = read_le32(b, pos + 1);
            Ok((n as usize, pos + 5))
        } else {
            Err(DecodeError::Truncated)
        }
    } else {
        Ok((first as usize, pos + 1))
    }
}

/// The encoding of a size: the 1-byte form for values up to 254, the
/// escaped 5-byte form above.
pub open spec fn spec_encode_size(n: u32) -> Seq<u8> {
    if n <= 254 {
        seq![n as u8]
    } else {
        seq![
            0xffu8,
            (n % 0x100) as u8,
            ((n / 0x100) % 0x100) as u8,
            ((n / 0x1_0000) % 0x100) as u8,
            ((n / 0x100_0000) % 0x100) as u8,
        ]
    }
}

/// Encodes a size in the codec's shortest form.
pub fn encode_size(n: u32) -> (r: Vec<u8>)
    ensures
        r@ == spec_encode_size(n),
{
    let mut out: Vec<u8> = Vec::new();
    if n <= 254 {
        out.push(n as u8);
    } else {
        out.push(0xff);
        out.push((n % 0x100) as u8);
        out.push(((n / 0x100) % 0x100) as u8);
        out.push(((n / 0x1_0000) % 0x100) as u8);
        out.push(((n / 0x100_0000) % 0x100) as u8);
    }
    proof {
        assert(out@ =~= spec_encode_size(n));
    }
    out
}

/// Round trip of the size codec: encoding any value in [0, 254] uses the
/// 1-byte form, encoding any larger value uses the 5-byte escape form, and
/// decoding the encoding yields exactly the encoded value, consuming the
/// whole encoding.
pub proof fn lemma_size_round_trip(n: u32)
    ensures
        n <= 254 ==> spec_encode_size(n).len() == 1,
        n > 254 ==> spec_encode_size(n).len() == 5,
        spec_decode_size(spec_encode_size(n), 0, spec_encode_size(n).len() as int) == Ok::<
            _,
            DecodeError,
        >((n as int, spec_encode_size(n).len() as int)),
{
    let s = spec_encode_size(n);
    if n <= 254 {
        assert(s[0] == n as u8);
        assert(s[0] != 0xff);
    } else {
        assert(s[0] == 0xff);
        assert(spec_le32(s, 1) == s[1] + 0x100 * s[2] + 0x1_0000 * s[3] + 0x100_0000 * s[4]);
        assert(s[1] + 0x100 * s[2] + 0x1_0000 * s[3] + 0x100_0000 * s[4] == n as int) by {
            assert(n as int == n % 0x100 + 0x100 * ((n as int / 0x100) % 0x100) + 0x1_0000 * ((
            n as int / 0x1_0000) % 0x100) + 0x100_0000 * ((n as int / 0x100_0000) % 0x100))
                by (nonlinear_arith);
        }
    }
}

/// Decoding the escape byte followed by any four bytes yields exactly the
/// 32-bit value those bytes spell, whether or not that value would also
/// have fit the 1-byte form.
pub proof fn lemma_size_escape_form(s: Seq<u8>)
    requires
        s.len() == 5,
        s[0] == 0xff,
    ensures
        spec_decode_size(s, 0, 5) == Ok::<_, DecodeError>((spec_le32(s, 1), 5int)),
        0 <= spec_le32(s, 1) < 0x1_0000_0000,
{
}

} // verus!
