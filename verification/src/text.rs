//! Text conversions of the wire format: UTF-8 validation for the
//! byte-sequenced string opcode and UCS-2 to UTF-8 conversion for the wide
//! string opcode.
//!
//! Both are verified against the UTF-8 specification of `vstd::utf8`: the
//! validator decides `valid_utf8` exactly, and the converter produces the
//! concatenated scalar encodings of the code units.

use vstd::prelude::*;

use vstd::utf8::codepoint_width_1;
use vstd::utf8::codepoint_width_2;
use vstd::utf8::codepoint_width_3;
use vstd::utf8::codepoint_width_4;
use vstd::utf8::encode_scalar;
use vstd::utf8::valid_utf8;

use crate::errors::DecodeError;

verus! {

/// Decides whether the bytes of `b` between `from` and `to` form a valid
/// UTF-8 encoding.
pub fn is_utf8_range(b: &[u8], from: usize, to: usize) -> (r: bool)
    requires
        from <= to <= b@.len(),
    ensures
        r == valid_utf8(b@.subrange(from as int, to as int)),
{
    let ghost sub = b@.subrange(from as int, to as int);
    let len = to - from;
    let mut i: usize = 0;
    proof {
        assert(sub.skip(0) =~= sub);
    }
    loop
        invariant
            i <= len,
            len == to - from,
            from <= to <= b@.len(),
            sub == b@.subrange(from as int, to as int),
            valid_utf8(sub) == valid_utf8(sub.skip(i as int)),
        decreases len - i,
    {
        if i == len {
            proof {
                assert(sub.skip(len as int) =~= Seq::<u8>::empty());
            }
            return true;
        }
        let ghost rem = sub.skip(i as int);
        let b1 = *vstd::slice::slice_index_get(b, from + i);
        proof {
            assert(rem[0] == b1);
        }
        let width: usize;
        let cp: u32;
        if b1 < 0x80 {
            width = 1;
            cp = codepoint_width_1_exec(b1);
        } else if 0xc0 <= b1 && b1 <= 0xdf {
            if len - i < 2 {
                return false;
            }
            let b2 = *vstd::slice::slice_index_get(b, from + i + 1);
            proof {
                assert(rem[1] == b2);
            }
            if !(0x80 <= b2 && b2 <= 0xbf) {
                return false;
            }
            width = 2;
            cp = codepoint_width_2_exec(b1, b2);
        } else if 0xe0 <= b1 && b1 <= 0xef {
            if len - i < 3 {
                return false;
            }
            let b2 = *vstd::slice::slice_index_get(b, from + i + 1);
            let b3 = *vstd::slice::slice_index_get(b, from + i + 2);
            proof {
                assert(rem[1] == b2);
                assert(rem[2] == b3);
            }
            if !(0x80 <= b2 && b2 <= 0xbf) || !(0x80 <= b3 && b3 <= 0xbf) {
                return false;
            }
            width = 3;
            cp = codepoint_width_3_exec(b1, b2, b3);
        } else if 0xf0 <= b1 && b1 <= 0xf7 {
            if len - i < 4 {
                return false;
            }
            let b2 = *vstd::slice::slice_index_get(b, from + i + 1);
            let b3 = *vstd::slice::slice_index_get(b, from + i + 2);
            let b4 = *vstd::slice::slice_index_get(b, from + i + 3);
            proof {
                assert(rem[1] == b2);
                assert(rem[2] == b3);
                assert(rem[3] == b4);
            }
            if !(0x80 <= b2 && b2 <= 0xbf) || !(0x80 <= b3 && b3 <= 0xbf) || !(0x80 <= b4 && b4
                <= 0xbf) {
                return false;
            }
            width = 4;
            cp = codepoint_width_4_exec(b1, b2, b3, b4);
        } else {
            return false;
        }
        if width == 2 && cp < 0x80 {
            return false;
        }
        if width == 3 && cp < 0x800 {
            return false;
        }
        if width == 4 && !(0x10000 <= cp && cp <= 0x10ffff) {
            return false;
        }
        if 0xd800 <= cp && cp <= 0xdfff {
            return false;
        }
        proof {
            assert(vstd::utf8::valid_first_scalar(rem));
            assert(vstd::utf8::length_of_first_scalar(rem) == width as int);
            assert(vstd::utf8::pop_first_scalar(rem) =~= sub.skip(i as int + width as int));
        }
        i = i + width;
    }
}

/// The codepoint of a 1-byte encoding, as `vstd::utf8` computes it.
fn codepoint_width_1_exec(b1: u8) -> (r: u32)
    ensures
        r == codepoint_width_1(b1),
{
    (b1 & 0x7f) as u32
}

/// The codepoint of a 2-byte encoding, as `vstd::utf8` computes it.
fn codepoint_width_2_exec(b1: u8, b2: u8) -> (r: u32)
    ensures
        r == codepoint_width_2(b1, b2),
{
    (((b1 & 0x1f) as u32) << 6) | ((b2 & 0x3f) as u32)
}

/// The codepoint of a 3-byte encoding, as `vstd::utf8` computes it.
fn codepoint_width_3_exec(b1: u8, b2: u8, b3: u8) -> (r: u32)
    ensures
        r == codepoint_width_3(b1, b2, b3),
{
    (((b1 & 0x0f) as u32) << 12) | (((b2 & 0x3f) as u32) << 6) | ((b3 & 0x3f) as u32)
}

/// The codepoint of a 4-byte encoding, as `vstd::utf8` computes it.
fn codepoint_width_4_exec(b1: u8, b2: u8, b3: u8, b4: u8) -> (r: u32)
    ensures
        r == codepoint_width_4(b1, b2, b3, b4),
{
    (((b1 & 0x07) as u32) << 18) | (((b2 & 0x3f) as u32) << 12) | (((b3 & 0x3f) as u32) << 6) | ((
    b4 & 0x3f) as u32)
}

/// The UCS-2 code units held as pairs of little-endian bytes starting at
/// `pos`.
pub open spec fn spec_ucs2_units(s: Seq<u8>, pos: int, n: int) -> Seq<u16> {
    Seq::new(n as nat, |i: int| (s[pos + 2 * i] + 0x100 * s[pos + 2 * i + 1]) as u16)
}

/// Whether a UCS-2 code unit names a character: the surrogate range names
/// none.
pub open spec fn ucs2_unit_ok(u: u16) -> bool {
    !(0xd800 <= u <= 0xdfff)
}

/// Whether every code unit of a UCS-2 sequence names a character.
pub open spec fn spec_ucs2_ok(units: Seq<u16>) -> bool {
    forall|i: int| 0 <= i < units.len() ==> ucs2_unit_ok(#[trigger] units[i])
}

/// The UTF-8 encoding of a UCS-2 code unit sequence: the concatenated
/// scalar encodings of its units.
pub open spec fn spec_ucs2_to_utf8(units: Seq<u16>) -> Seq<u8>
    decreases units.len(),
{
    if units.len() == 0 {
        Seq::empty()
    } else {
        encode_scalar(units[0] as u32) + spec_ucs2_to_utf8(units.drop_first())
    }
}

/// Appending a unit appends its scalar encoding.
proof fn lemma_ucs2_to_utf8_push(units: Seq<u16>, u: u16)
    ensures
        spec_ucs2_to_utf8(units.push(u)) == spec_ucs2_to_utf8(units) + encode_scalar(u as u32),
    decreases units.len(),
{
    assert(spec_ucs2_to_utf8(Seq::<u16>::empty()) =~= Seq::<u8>::empty());
    if units.len() == 0 {
        assert(units.push(u).drop_first() =~= Seq::<u16>::empty());
        assert(units.push(u)[0] == u);
        assert(spec_ucs2_to_utf8(units.push(u)) =~= spec_ucs2_to_utf8(units) + encode_scalar(
            u as u32,
        ));
    } else {
        assert(units.push(u).drop_first() =~= units.drop_first().push(u));
        assert(units.push(u)[0] == units[0]);
        lemma_ucs2_to_utf8_push(units.drop_first(), u);
        assert(spec_ucs2_to_utf8(units.push(u)) =~= spec_ucs2_to_utf8(units) + encode_scalar(
            u as u32,
        ));
    }
}

/// Converts `n` UCS-2 code units, held little-endian at `pos`, to their
/// UTF-8 encoding; fails on a code unit that names no character.
pub fn ucs2_to_utf8(b: &[u8], pos: usize, n: usize) -> (r: Result<Vec<u8>, DecodeError>)
    requires
        pos + 2 * n <= b@.len(),
    ensures
        match r {
            Ok(out) => spec_ucs2_ok(spec_ucs2_units(b@, pos as int, n as int)) && out@
                == spec_ucs2_to_utf8(spec_ucs2_units(b@, pos as int, n as int)),
            Err(e) => e == DecodeError::InvalidUcs2 && !spec_ucs2_ok(
                spec_ucs2_units(b@, pos as int, n as int),
            ),
        },
{
    let ghost units = spec_ucs2_units(b@, pos as int, n as int);
    let blen = b.len();
    let mut out: Vec<u8> = Vec::new();
    let mut i: usize = 0;
    proof {
        assert(units.take(0) =~= Seq::<u16>::empty());
        assert(spec_ucs2_to_utf8(Seq::<u16>::empty()) =~= Seq::<u8>::empty());
    }
    while i < n
        invariant
            i <= n,
            pos + 2 * n <= b@.len(),
            b@.len() == blen,
            units == spec_ucs2_units(b@, pos as int, n as int),
            out@ == spec_ucs2_to_utf8(units.take(i as int)),
            forall|j: int| 0 <= j < i ==> ucs2_unit_ok(#[trigger] units[j]),
        decreases n - i,
    {
        let lo = *vstd::slice::slice_index_get(b, pos + 2 * i);
        let hi = *vstd::slice::slice_index_get(b, pos + 2 * i + 1);
        let u: u16 = lo as u16 + 0x100 * (hi as u16);
        proof {
            assert(units[i as int] == u);
        }
        if 0xd800 <= u && u <= 0xdfff {
            return Err(DecodeError::InvalidUcs2);
        }
        let scalar = u as u32;
        let ghost before = out@;
        if u < 0x80 {
            out.push((scalar & 0x7f) as u8);
        } else if u < 0x800 {
            out.push(0xc0 | (((scalar >> 6) & 0x1f) as u8));
            out.push(0x80 | ((scalar & 0x3f) as u8));
        } else {
            out.push(0xe0 | (((scalar >> 12) & 0x0f) as u8));
            out.push(0x80 | (((scalar >> 6) & 0x3f) as u8));
            out.push(0x80 | ((scalar & 0x3f) as u8));
        }
        proof {
            assert(out@ =~= before + encode_scalar(scalar));
            lemma_ucs2_to_utf8_push(units.take(i as int), u);
            assert(units.take(i as int).push(units[i as int]) =~= units.take(i as int + 1));
        }
        i = i + 1;
    }
    proof {
        assert(units.take(n as int) =~= units);
    }
    Ok(out)
}


/// Bit-level facts of the 1-byte scalar encoding.
proof fn lemma_width_1_bits(c: u32)
    by (bit_vector)
    requires
        c < 0x80,
    ensures
        ((c & 0x7f) as u8) <= 0x7f,
        ((((c & 0x7f) as u8) & 0x7f) as u32) == c,
{
}

/// Bit-level facts of the 2-byte scalar encoding.
proof fn lemma_width_2_bits(c: u32)
    by (bit_vector)
    requires
        0x80 <= c < 0x800,
    ensures
        0xc0 <= (0xc0 | ((c >> 6) & 0x1f) as u8) <= 0xdf,
        0x80 <= (0x80 | (c & 0x3f) as u8) <= 0xbf,
        ((((0xc0 | ((c >> 6) & 0x1f) as u8) & 0x1f) as u32) << 6) | ((((0x80 | (c & 0x3f) as u8)
            & 0x3f) as u32)) == c,
{
}

/// Bit-level facts of the 3-byte scalar encoding.
proof fn lemma_width_3_bits(c: u32)
    by (bit_vector)
    requires
        0x800 <= c < 0x10000,
    ensures
        0xe0 <= (0xe0 | ((c >> 12) & 0x0f) as u8) <= 0xef,
        0x80 <= (0x80 | ((c >> 6) & 0x3f) as u8) <= 0xbf,
        0x80 <= (0x80 | (c & 0x3f) as u8) <= 0xbf,
        ((((0xe0 | ((c >> 12) & 0x0f) as u8) & 0x0f) as u32) << 12) | ((((0x80 | ((c >> 6)
            & 0x3f) as u8) & 0x3f) as u32) << 6) | ((((0x80 | (c & 0x3f) as u8) & 0x3f) as u32))
            == c,
{
}

/// The scalar encoding of a code unit that names a character opens any
/// byte sequence it is prepended to as one well-formed scalar of its own
/// width.
proof fn lemma_encode_scalar_first(u: u16, t: Seq<u8>)
    requires
        ucs2_unit_ok(u),
    ensures
        vstd::utf8::valid_first_scalar(encode_scalar(u as u32) + t),
        vstd::utf8::length_of_first_scalar(encode_scalar(u as u32) + t) == encode_scalar(
            u as u32,
        ).len(),
{
    let c = u as u32;
    let enc = encode_scalar(c);
    let bytes = enc + t;
    if c < 0x80 {
        lemma_width_1_bits(c);
        assert(bytes[0] == enc[0]);
    } else if c < 0x800 {
        lemma_width_2_bits(c);
        assert(bytes[0] == enc[0]);
        assert(bytes[1] == enc[1]);
    } else {
        lemma_width_3_bits(c);
        assert(bytes[0] == enc[0]);
        assert(bytes[1] == enc[1]);
        assert(bytes[2] == enc[2]);
    }
}

/// What the conversion yields is itself valid UTF-8: each code unit that
/// names a character contributes one well-formed scalar encoding, so an
/// owned string produced from UCS-2 input is validated by construction.
pub proof fn lemma_ucs2_to_utf8_valid(units: Seq<u16>)
    requires
        spec_ucs2_ok(units),
    ensures
        valid_utf8(spec_ucs2_to_utf8(units)),
    decreases units.len(),
{
    if units.len() != 0 {
        let u = units[0];
        let enc = encode_scalar(u as u32);
        let rest = spec_ucs2_to_utf8(units.drop_first());
        let bytes = spec_ucs2_to_utf8(units);
        assert(spec_ucs2_ok(units.drop_first())) by {
            assert forall|i: int| 0 <= i < units.drop_first().len() implies ucs2_unit_ok(
                #[trigger] units.drop_first()[i],
            ) by {
                assert(units.drop_first()[i] == units[i + 1]);
            }
        }
        lemma_ucs2_to_utf8_valid(units.drop_first());
        lemma_encode_scalar_first(u, rest);
        assert(vstd::utf8::pop_first_scalar(bytes) =~= rest);
    }
}

} // verus!
