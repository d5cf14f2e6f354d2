//! The opcode decoder and the payload framer.
//!
//! The wire grammar is stated by the `sd_` family of specification
//! functions: a mathematical recursive-descent reading of a byte sequence
//! between two positions, yielding the decoded model and the position after
//! it, or the error.  Every executable decoding routine is proved to return
//! exactly what its specification function says, error for error.
//!
//! Values nest; decoding untrusted input therefore threads an explicit
//! nesting-depth allowance through the recursion and fails with
//! [`DecodeError::NestingTooDeep`] past [`MAX_NESTING_DEPTH`], bounding
//! stack use on hostile input.
//!
//! The framer is strict: after the envelope, values are decoded until the
//! buffer is exhausted exactly, and any error, anywhere, fails the whole
//! decode.

use vstd::prelude::*;

use vstd::utf8::valid_utf8;

use crate::dict::build_dict;
use crate::dict::deep_view_pairs;
use crate::dict::spec_dict_fold;
use crate::errors::DecodeError;
use crate::ints::read_i128;
use crate::ints::read_i16;
use crate::ints::read_i32;
use crate::ints::read_i64;
use crate::ints::read_u64;
use crate::ints::spec_le128;
use crate::ints::spec_le16;
use crate::ints::spec_le64;
use crate::ints::spec_signed128;
use crate::ints::spec_signed16;
use crate::ints::spec_signed32;
use crate::ints::spec_signed64;
use crate::opcodes::EVEOpCode;
use crate::size::decode_size;
use crate::size::read_le32;
use crate::size::spec_decode_size;
use crate::size::spec_le32;
use crate::string_table::spec_string_table_entry;
use crate::string_table::string_table_entry;
use crate::string_table::STRING_TABLE_LEN;
use crate::text::is_utf8_range;
use crate::text::spec_ucs2_ok;
use crate::text::spec_ucs2_to_utf8;
use crate::text::spec_ucs2_units;
use crate::text::ucs2_to_utf8;
use crate::value::deep_view_seq;
use crate::value::KeyModel;
use crate::value::EVEValue;
use crate::value::ValueModel;

verus! {

/// The nesting depth past which a decode fails rather than recurse
/// further: a hardening bound on stack use for attacker-controlled input.
pub const MAX_NESTING_DEPTH: usize = 64;

/// What decoding one value at `pos` yields: the value's model and the
/// position after it, or the error.  `depth` is the remaining nesting
/// allowance.
pub open spec fn sd_value(s: Seq<u8>, pos: int, end: int, depth: int) -> Result<
    (ValueModel, int),
    DecodeError,
>
    decreases end - pos, 0int, 0int,
{
    if depth <= 0 {
        Err(DecodeError::NestingTooDeep)
    } else if pos >= end {
        Err(DecodeError::Truncated)
    } else {
        let op = s[pos];
        let p = pos + 1;
        if op == 0x01 {
            Ok((ValueModel::Null, p))
        } else if op == 0x03 {
            if end - p >= 8 {
                Ok((ValueModel::Integer(spec_signed64(spec_le64(s, p)) as i64), p + 8))
            } else {
                Err(DecodeError::Truncated)
            }
        } else if op == 0x04 {
            if end - p >= 4 {
                Ok((ValueModel::Integer(spec_signed32(spec_le32(s, p)) as i64), p + 4))
            } else {
                Err(DecodeError::Truncated)
            }
        } else if op == 0x05 {
            if end - p >= 2 {
                Ok((ValueModel::Short(spec_signed16(spec_le16(s, p)) as i16), p + 2))
            } else {
                Err(DecodeError::Truncated)
            }
        } else if op == 0x06 {
            if end - p >= 1 {
                Ok((ValueModel::Byte(s[p]), p + 1))
            } else {
                Err(DecodeError::Truncated)
            }
        } else if op == 0x07 {
            Ok((ValueModel::Integer(-1i64), p))
        } else if op == 0x08 {
            Ok((ValueModel::Integer(0i64), p))
        } else if op == 0x09 {
            Ok((ValueModel::Integer(1i64), p))
        } else if op == 0x0a {
            if end - p >= 8 {
                Ok((ValueModel::Float(spec_le64(s, p) as u64), p + 8))
            } else {
                Err(DecodeError::Truncated)
            }
        } else if op == 0x0b {
            Ok((ValueModel::Float(0u64), p))
        } else if op == 0x10 || op == 0x13 {
            match spec_decode_size(s, p, end) {
                Ok((n, p2)) => if end - p2 >= n {
                    Ok((ValueModel::String(s.subrange(p2, p2 + n)), p2 + n))
                } else {
                    Err(DecodeError::Truncated)
                },
                Err(e) => Err(e),
            }
        } else if op == 0x11 {
            if end - p >= 1 {
                if s[p] < STRING_TABLE_LEN {
                    Ok((ValueModel::String(spec_string_table_entry(s[p] as int)), p + 1))
                } else {
                    Err(DecodeError::InvalidStringTableIndex(s[p]))
                }
            } else {
                Err(DecodeError::Truncated)
            }
        } else if op == 0x12 {
            match spec_decode_size(s, p, end) {
                Ok((n, p2)) => if end - p2 >= 2 * n {
                    if spec_ucs2_ok(spec_ucs2_units(s, p2, n)) {
                        Ok(
                            (
                                ValueModel::OwnedString(
                                    spec_ucs2_to_utf8(spec_ucs2_units(s, p2, n)),
                                ),
                                p2 + 2 * n,
                            ),
                        )
                    } else {
                        Err(DecodeError::InvalidUcs2)
                    }
                } else {
                    Err(DecodeError::Truncated)
                },
                Err(e) => Err(e),
            }
        } else if op == 0x2e {
            match spec_decode_size(s, p, end) {
                Ok((n, p2)) => if end - p2 >= n {
                    if valid_utf8(s.subrange(p2, p2 + n)) {
                        Ok((ValueModel::OwnedString(s.subrange(p2, p2 + n)), p2 + n))
                    } else {
                        Err(DecodeError::InvalidUtf8)
                    }
                } else {
                    Err(DecodeError::Truncated)
                },
                Err(e) => Err(e),
            }
        } else if op == 0x14 {
            match spec_decode_size(s, p, end) {
                Ok((n, p2)) => if p < p2 <= end {
                    match sd_values(s, p2, end, n, depth - 1) {
                        Ok((vs, p3)) => Ok((ValueModel::Tuple(vs), p3)),
                        Err(e) => Err(e),
                    }
                } else {
                    Err(DecodeError::Truncated)
                },
                Err(e) => Err(e),
            }
        } else if op == 0x24 {
            Ok((ValueModel::Tuple(Seq::empty()), p))
        } else if op == 0x25 {
            match sd_value(s, p, end, depth - 1) {
                Ok((v, p2)) => Ok((ValueModel::Tuple(seq![v]), p2)),
                Err(e) => Err(e),
            }
        } else if op == 0x2c {
            match sd_value(s, p, end, depth - 1) {
                Ok((v1, p2)) => if p < p2 <= end {
                    match sd_value(s, p2, end, depth - 1) {
                        Ok((v2, p3)) => Ok((ValueModel::Tuple(seq![v1, v2]), p3)),
                        Err(e) => Err(e),
                    }
                } else {
                    Err(DecodeError::Truncated)
                },
                Err(e) => Err(e),
            }
        } else if op == 0x16 {
            match spec_decode_size(s, p, end) {
                Ok((n, p2)) => if p < p2 <= end {
                    match sd_pairs(s, p2, end, n, depth - 1) {
                        Ok((ps, p3)) => match spec_dict_fold(ps, Seq::empty()) {
                            Ok(es) => Ok((ValueModel::Dict(es), p3)),
                            Err(e) => Err(e),
                        },
                        Err(e) => Err(e),
                    }
                } else {
                    Err(DecodeError::Truncated)
                },
                Err(e) => Err(e),
            }
        } else if op == 0x17 {
            match sd_value(s, p, end, depth - 1) {
                Ok((t, p2)) => if p < p2 <= end {
                    match sd_value(s, p2, end, depth - 1) {
                        Ok((a, p3)) => Ok((ValueModel::Object(seq![t, a]), p3)),
                        Err(e) => Err(e),
                    }
                } else {
                    Err(DecodeError::Truncated)
                },
                Err(e) => Err(e),
            }
        } else if op == 0x2b {
            match spec_decode_size(s, p, end) {
                Ok((n, p2)) => if p < p2 <= end {
                    if end - p2 >= n {
                        match sd_body(s, p2, p2 + n, depth - 1) {
                            Ok(vs) => Ok((ValueModel::SubStream(vs), p2 + n)),
                            Err(e) => Err(e),
                        }
                    } else {
                        Err(DecodeError::Truncated)
                    }
                } else {
                    Err(DecodeError::Truncated)
                },
                Err(e) => Err(e),
            }
        } else if op == 0x2f {
            match spec_decode_size(s, p, end) {
                Ok((n, p2)) => if end - p2 >= n {
                    if n == 1 {
                        // The producer spends an extra byte on single-byte
                        // values: the value rides in one more byte after the
                        // counted one, read as unsigned.
                        if end - p2 >= 2 {
                            Ok((ValueModel::BigInt(s[p2 + 1] as i128), p2 + 2))
                        } else {
                            Err(DecodeError::Truncated)
                        }
                    } else if n == 4 {
                        Ok((ValueModel::BigInt(spec_signed32(spec_le32(s, p2)) as i128), p2 + 4))
                    } else if n == 8 {
                        Ok((ValueModel::BigInt(spec_signed64(spec_le64(s, p2)) as i128), p2 + 8))
                    } else if n == 16 {
                        Ok((ValueModel::BigInt(spec_signed128(spec_le128(s, p2)) as i128), p2 + 16))
                    } else {
                        Err(DecodeError::UnsupportedVarIntWidth(n as usize))
                    }
                } else {
                    Err(DecodeError::Truncated)
                },
                Err(e) => Err(e),
            }
        } else {
            Err(DecodeError::InvalidOpcode(op))
        }
    }
}

/// What decoding `n` consecutive values starting at `pos` yields.
pub open spec fn sd_values(s: Seq<u8>, pos: int, end: int, n: int, depth: int) -> Result<
    (Seq<ValueModel>, int),
    DecodeError,
>
    decreases end - pos, n, 1int,
{
    if n <= 0 {
        Ok((Seq::empty(), pos))
    } else {
        match sd_value(s, pos, end, depth) {
            Ok((v, p2)) => if pos < p2 <= end {
                match sd_values(s, p2, end, n - 1, depth) {
                    Ok((vs, p3)) => Ok((seq![v] + vs, p3)),
                    Err(e) => Err(e),
                }
            } else {
                Err(DecodeError::Truncated)
            },
            Err(e) => Err(e),
        }
    }
}

/// What decoding `n` consecutive (value, key) wire pairs starting at `pos`
/// yields; on the wire the value of each pair precedes its key.
pub open spec fn sd_pairs(s: Seq<u8>, pos: int, end: int, n: int, depth: int) -> Result<
    (Seq<(ValueModel, ValueModel)>, int),
    DecodeError,
>
    decreases end - pos, n, 1int,
{
    if n <= 0 {
        Ok((Seq::empty(), pos))
    } else {
        match sd_value(s, pos, end, depth) {
            Ok((v, p2)) => if pos < p2 <= end {
                match sd_value(s, p2, end, depth) {
                    Ok((k, p3)) => if p2 < p3 <= end {
                        match sd_pairs(s, p3, end, n - 1, depth) {
                            Ok((ps, p4)) => Ok((seq![(v, k)] + ps, p4)),
                            Err(e) => Err(e),
                        }
                    } else {
                        Err(DecodeError::Truncated)
                    },
                    Err(e) => Err(e),
                }
            } else {
                Err(DecodeError::Truncated)
            },
            Err(e) => Err(e),
        }
    }
}

/// What decoding values from `pos` until the buffer is exhausted exactly at
/// `end` yields: the framer is strict, and any value error fails the whole
/// stream.
pub open spec fn sd_stream(s: Seq<u8>, pos: int, end: int, depth: int) -> Result<
    Seq<ValueModel>,
    DecodeError,
>
    decreases end - pos, 0int, 1int,
{
    if pos >= end {
        Ok(Seq::empty())
    } else {
        match sd_value(s, pos, end, depth) {
            Ok((v, p2)) => if pos < p2 <= end {
                match sd_stream(s, p2, end, depth) {
                    Ok(vs) => Ok(seq![v] + vs),
                    Err(e) => Err(e),
                }
            } else {
                Err(DecodeError::Truncated)
            },
            Err(e) => Err(e),
        }
    }
}

/// What decoding a framed message body between `pos` and `end` yields: the
/// fixed marker byte, the 4-byte save counter (consumed, not interpreted),
/// then values until the body is exhausted.
pub open spec fn sd_body(s: Seq<u8>, pos: int, end: int, depth: int) -> Result<
    Seq<ValueModel>,
    DecodeError,
>
    decreases end - pos, 0int, 2int,
{
    if pos >= end {
        Err(DecodeError::Truncated)
    } else if s[pos] != 0x7e {
        Err(DecodeError::MissingMarker)
    } else if end - (pos + 1) < 4 {
        Err(DecodeError::Truncated)
    } else {
        sd_stream(s, pos + 5, end, depth)
    }
}

/// What decoding a whole payload yields: a 4-byte declared length that must
/// equal the remaining byte count exactly, then a framed message body.
pub open spec fn sd_payload(s: Seq<u8>) -> Result<Seq<ValueModel>, DecodeError> {
    if s.len() < 4 {
        Err(DecodeError::Truncated)
    } else if spec_le32(s, 0) != s.len() - 4 {
        Err(DecodeError::BadEnvelopeLength)
    } else {
        sd_body(s, 4, s.len() as int, MAX_NESTING_DEPTH as int)
    }
}

/// Decodes one value at `pos`, as [`sd_value`] says.
fn decode_value(b: &[u8], pos: usize, end: usize, depth: usize) -> (r: Result<
    (EVEValue, usize),
    DecodeError,
>)
    requires
        pos <= end <= b@.len(),
    ensures
        match r {
            Ok((v, p)) => pos < p <= end && sd_value(b@, pos as int, end as int, depth as int)
                == Ok::<_, DecodeError>((v.deep_view(), p as int)),
            Err(e) => sd_value(b@, pos as int, end as int, depth as int) == Err::<
                (ValueModel, int),
                _,
            >(e),
        },
    decreases end - pos, 0int, 0int,
{
    let _blen = b.len();
    if depth == 0 {
        return Err(DecodeError::NestingTooDeep);
    }
    if pos >= end {
        return Err(DecodeError::Truncated);
    }
    let op = *vstd::slice::slice_index_get(b, pos);
    let p = pos + 1;
    match EVEOpCode::from_code(op) {
        Option::None => Err(DecodeError::InvalidOpcode(op)),
        Option::Some(opcode) => match opcode {
            EVEOpCode::Null => Ok((EVEValue::Null, p)),
            EVEOpCode::LongLong => {
                if end - p >= 8 {
                    let v = read_i64(b, p);
                    Ok((EVEValue::Integer(v), p + 8))
                } else {
                    Err(DecodeError::Truncated)
                }
            },
            EVEOpCode::Long => {
                if end - p >= 4 {
                    let v = read_i32(b, p);
                    Ok((EVEValue::Integer(v as i64), p + 4))
                } else {
                    Err(DecodeError::Truncated)
                }
            },
            EVEOpCode::SignedShort => {
                if end - p >= 2 {
                    let v = read_i16(b, p);
                    Ok((EVEValue::Short(v), p + 2))
                } else {
                    Err(DecodeError::Truncated)
                }
            },
            EVEOpCode::Byte => {
                if end - p >= 1 {
                    let v = *vstd::slice::slice_index_get(b, p);
                    Ok((EVEValue::Byte(v), p + 1))
                } else {
                    Err(DecodeError::Truncated)
                }
            },
            EVEOpCode::IntegerNegativeOne => Ok((EVEValue::Integer(-1), p)),
            EVEOpCode::IntegerZero => Ok((EVEValue::Integer(0), p)),
            EVEOpCode::IntegerOne => Ok((EVEValue::Integer(1), p)),
            EVEOpCode::Real => {
                if end - p >= 8 {
                    let bits = read_u64(b, p);
                    Ok((EVEValue::Float(bits), p + 8))
                } else {
                    Err(DecodeError::Truncated)
                }
            },
            EVEOpCode::RealZero => Ok((EVEValue::Float(0), p)),
            EVEOpCode::ShortString => decode_string(b, p, end, depth),
            EVEOpCode::LongString => decode_string(b, p, end, depth),
            EVEOpCode::StringTableString => decode_stringtable_string(b, p, end, depth),
            EVEOpCode::WStringUCS2 => decode_wstring_ucs2(b, p, end, depth),
            EVEOpCode::WStringUTF8 => decode_wstring_utf8(b, p, end, depth),
            EVEOpCode::Tuple => decode_tuple(b, p, end, depth),
            EVEOpCode::EmptyTuple => {
                let v = EVEValue::Tuple(Vec::new());
                proof {
                    assert(v.deep_view() == ValueModel::Tuple(Seq::empty())) by {
                        assert(v.deep_view() matches ValueModel::Tuple(t) && t =~= Seq::empty());
                    }
                }
                Ok((v, p))
            },
            EVEOpCode::OneTuple => decode_one_tuple(b, p, end, depth),
            EVEOpCode::TwoTuple => decode_two_tuple(b, p, end, depth),
            EVEOpCode::Dict => decode_dict(b, p, end, depth),
            EVEOpCode::Object => decode_object(b, p, end, depth),
            EVEOpCode::SubStream => decode_substream(b, p, end, depth),
            EVEOpCode::VarInteger => decode_var_int(b, p, end, depth),
        },
    }
}

/// Decodes a counted byte string (both byte-string opcodes share this
/// framing); `pos` stands just after the opcode byte.
fn decode_string(b: &[u8], pos: usize, end: usize, depth: usize) -> (r: Result<
    (EVEValue, usize),
    DecodeError,
>)
    requires
        1 <= pos <= end <= b@.len(),
        depth >= 1,
        b@[pos - 1] == 0x10 || b@[pos - 1] == 0x13,
    ensures
        match r {
            Ok((v, p)) => pos - 1 < p <= end && sd_value(b@, pos - 1, end as int, depth as int)
                == Ok::<_, DecodeError>((v.deep_view(), p as int)),
            Err(e) => sd_value(b@, pos - 1, end as int, depth as int) == Err::<
                (ValueModel, int),
                _,
            >(e),
        },
{
    let (n, p2) = match decode_size(b, pos, end) {
        Ok(r) => r,
        Err(e) => {
            return Err(e);
        },
    };
    if end - p2 < n {
        return Err(DecodeError::Truncated);
    }
    let bytes = vstd::slice::slice_to_vec(vstd::slice::slice_subrange(b, p2, p2 + n));
    let v = EVEValue::String(bytes);
    proof {
        assert(v.deep_view() == ValueModel::String(b@.subrange(p2 as int, p2 as int + n as int)));
    }
    Ok((v, p2 + n))
}

/// Decodes a string-table reference; `pos` stands just after the opcode
/// byte.
fn decode_stringtable_string(b: &[u8], pos: usize, end: usize, depth: usize) -> (r: Result<
    (EVEValue, usize),
    DecodeError,
>)
    requires
        1 <= pos <= end <= b@.len(),
        depth >= 1,
        b@[pos - 1] == 0x11,
    ensures
        match r {
            Ok((v, p)) => pos - 1 < p <= end && sd_value(b@, pos - 1, end as int, depth as int)
                == Ok::<_, DecodeError>((v.deep_view(), p as int)),
            Err(e) => sd_value(b@, pos - 1, end as int, depth as int) == Err::<
                (ValueModel, int),
                _,
            >(e),
        },
{
    if end - pos < 1 {
        return Err(DecodeError::Truncated);
    }
    let index = *vstd::slice::slice_index_get(b, pos);
    match string_table_entry(index) {
        Option::Some(entry) => {
            let v = EVEValue::String(entry);
            proof {
                assert(v.deep_view() == ValueModel::String(spec_string_table_entry(index as int)));
            }
            Ok((v, pos + 1))
        },
        Option::None => Err(DecodeError::InvalidStringTableIndex(index)),
    }
}

/// Decodes a counted UCS-2 string into owned UTF-8; `pos` stands just
/// after the opcode byte.
fn decode_wstring_ucs2(b: &[u8], pos: usize, end: usize, depth: usize) -> (r: Result<
    (EVEValue, usize),
    DecodeError,
>)
    requires
        1 <= pos <= end <= b@.len(),
        depth >= 1,
        b@[pos - 1] == 0x12,
    ensures
        match r {
            Ok((v, p)) => pos - 1 < p <= end && sd_value(b@, pos - 1, end as int, depth as int)
                == Ok::<_, DecodeError>((v.deep_view(), p as int)),
            Err(e) => sd_value(b@, pos - 1, end as int, depth as int) == Err::<
                (ValueModel, int),
                _,
            >(e),
        },
{
    let (n, p2) = match decode_size(b, pos, end) {
        Ok(r) => r,
        Err(e) => {
            return Err(e);
        },
    };
    if (end - p2) / 2 < n {
        proof {
            assert(end - p2 < 2 * n);
        }
        return Err(DecodeError::Truncated);
    }
    proof {
        assert(end - p2 >= 2 * n);
    }
    match ucs2_to_utf8(b, p2, n) {
        Ok(bytes) => {
            let v = EVEValue::OwnedString(bytes);
            proof {
                assert(v.deep_view() == ValueModel::OwnedString(
                    spec_ucs2_to_utf8(spec_ucs2_units(b@, p2 as int, n as int)),
                ));
            }
            Ok((v, p2 + 2 * n))
        },
        Err(e) => Err(e),
    }
}

/// Decodes a counted, UTF-8-validated byte string; `pos` stands just after
/// the opcode byte.
fn decode_wstring_utf8(b: &[u8], pos: usize, end: usize, depth: usize) -> (r: Result<
    (EVEValue, usize),
    DecodeError,
>)
    requires
        1 <= pos <= end <= b@.len(),
        depth >= 1,
        b@[pos - 1] == 0x2e,
    ensures
        match r {
            Ok((v, p)) => pos - 1 < p <= end && sd_value(b@, pos - 1, end as int, depth as int)
                == Ok::<_, DecodeError>((v.deep_view(), p as int)),
            Err(e) => sd_value(b@, pos - 1, end as int, depth as int) == Err::<
                (ValueModel, int),
                _,
            >(e),
        },
{
    let (n, p2) = match decode_size(b, pos, end) {
        Ok(r) => r,
        Err(e) => {
            return Err(e);
        },
    };
    if end - p2 < n {
        return Err(DecodeError::Truncated);
    }
    if !is_utf8_range(b, p2, p2 + n) {
        return Err(DecodeError::InvalidUtf8);
    }
    let bytes = vstd::slice::slice_to_vec(vstd::slice::slice_subrange(b, p2, p2 + n));
    let v = EVEValue::OwnedString(bytes);
    proof {
        assert(v.deep_view() == ValueModel::OwnedString(
            b@.subrange(p2 as int, p2 as int + n as int),
        ));
    }
    Ok((v, p2 + n))
}

/// Decodes a variable-width two's-complement integer; `pos` stands just
/// after the opcode byte.  Widths 1, 4, 8 and 16 are the only legal ones;
/// the single-byte form carries its value in one extra byte beyond the
/// counted one, read as unsigned.
fn decode_var_int(b: &[u8], pos: usize, end: usize, depth: usize) -> (r: Result<
    (EVEValue, usize),
    DecodeError,
>)
    requires
        1 <= pos <= end <= b@.len(),
        depth >= 1,
        b@[pos - 1] == 0x2f,
    ensures
        match r {
            Ok((v, p)) => pos - 1 < p <= end && sd_value(b@, pos - 1, end as int, depth as int)
                == Ok::<_, DecodeError>((v.deep_view(), p as int)),
            Err(e) => sd_value(b@, pos - 1, end as int, depth as int) == Err::<
                (ValueModel, int),
                _,
            >(e),
        },
{
    let (n, p2) = match decode_size(b, pos, end) {
        Ok(r) => r,
        Err(e) => {
            return Err(e);
        },
    };
    if end - p2 < n {
        return Err(DecodeError::Truncated);
    }
    if n == 1 {
        if end - p2 < 2 {
            return Err(DecodeError::Truncated);
        }
        let v = *vstd::slice::slice_index_get(b, p2 + 1);
        Ok((EVEValue::BigInt(v as i128), p2 + 2))
    } else if n == 4 {
        let v = read_i32(b, p2);
        Ok((EVEValue::BigInt(v as i128), p2 + 4))
    } else if n == 8 {
        let v = read_i64(b, p2);
        Ok((EVEValue::BigInt(v as i128), p2 + 8))
    } else if n == 16 {
        let v = read_i128(b, p2);
        Ok((EVEValue::BigInt(v), p2 + 16))
    } else {
        Err(DecodeError::UnsupportedVarIntWidth(n))
    }
}

/// Decodes a counted tuple; `pos` stands just after the opcode byte.
fn decode_tuple(b: &[u8], pos: usize, end: usize, depth: usize) -> (r: Result<
    (EVEValue, usize),
    DecodeError,
>)
    requires
        1 <= pos <= end <= b@.len(),
        depth >= 1,
        b@[pos - 1] == 0x14,
    ensures
        match r {
            Ok((v, p)) => pos - 1 < p <= end && sd_value(b@, pos - 1, end as int, depth as int)
                == Ok::<_, DecodeError>((v.deep_view(), p as int)),
            Err(e) => sd_value(b@, pos - 1, end as int, depth as int) == Err::<
                (ValueModel, int),
                _,
            >(e),
        },
    decreases end - pos, 0int, 1int,
{
    let (n, p2) = match decode_size(b, pos, end) {
        Ok(r) => r,
        Err(e) => {
            return Err(e);
        },
    };
    match decode_values(b, p2, end, n, depth - 1) {
        Ok((vs, p3)) => {
            let v = EVEValue::Tuple(vs);
            proof {
                assert(v.deep_view() matches ValueModel::Tuple(t) && t =~= deep_view_seq(
                    v->Tuple_0@,
                ));
            }
            Ok((v, p3))
        },
        Err(e) => Err(e),
    }
}

/// Decodes a one-element tuple; `pos` stands just after the opcode byte.
fn decode_one_tuple(b: &[u8], pos: usize, end: usize, depth: usize) -> (r: Result<
    (EVEValue, usize),
    DecodeError,
>)
    requires
        1 <= pos <= end <= b@.len(),
        depth >= 1,
        b@[pos - 1] == 0x25,
    ensures
        match r {
            Ok((v, p)) => pos - 1 < p <= end && sd_value(b@, pos - 1, end as int, depth as int)
                == Ok::<_, DecodeError>((v.deep_view(), p as int)),
            Err(e) => sd_value(b@, pos - 1, end as int, depth as int) == Err::<
                (ValueModel, int),
                _,
            >(e),
        },
    decreases end - pos, 0int, 1int,
{
    match decode_value(b, pos, end, depth - 1) {
        Ok((v, p2)) => {
            let mut items: Vec<EVEValue> = Vec::new();
            items.push(v);
            let t = EVEValue::Tuple(items);
            proof {
                assert(t.deep_view() matches ValueModel::Tuple(ts) && ts =~= seq![
                    t->Tuple_0@[0].deep_view(),
                ]);
            }
            Ok((t, p2))
        },
        Err(e) => Err(e),
    }
}

/// Decodes a two-element tuple; `pos` stands just after the opcode byte.
fn decode_two_tuple(b: &[u8], pos: usize, end: usize, depth: usize) -> (r: Result<
    (EVEValue, usize),
    DecodeError,
>)
    requires
        1 <= pos <= end <= b@.len(),
        depth >= 1,
        b@[pos - 1] == 0x2c,
    ensures
        match r {
            Ok((v, p)) => pos - 1 < p <= end && sd_value(b@, pos - 1, end as int, depth as int)
                == Ok::<_, DecodeError>((v.deep_view(), p as int)),
            Err(e) => sd_value(b@, pos - 1, end as int, depth as int) == Err::<
                (ValueModel, int),
                _,
            >(e),
        },
    decreases end - pos, 0int, 1int,
{
    match decode_value(b, pos, end, depth - 1) {
        Ok((v1, p2)) => match decode_value(b, p2, end, depth - 1) {
            Ok((v2, p3)) => {
                let mut items: Vec<EVEValue> = Vec::new();
                items.push(v1);
                items.push(v2);
                let t = EVEValue::Tuple(items);
                proof {
                    assert(t.deep_view() matches ValueModel::Tuple(ts) && ts =~= seq![
                        t->Tuple_0@[0].deep_view(),
                        t->Tuple_0@[1].deep_view(),
                    ]);
                }
                Ok((t, p3))
            },
            Err(e) => Err(e),
        },
        Err(e) => Err(e),
    }
}

/// Decodes an object: a type descriptor, then an argument value; `pos`
/// stands just after the opcode byte.
fn decode_object(b: &[u8], pos: usize, end: usize, depth: usize) -> (r: Result<
    (EVEValue, usize),
    DecodeError,
>)
    requires
        1 <= pos <= end <= b@.len(),
        depth >= 1,
        b@[pos - 1] == 0x17,
    ensures
        match r {
            Ok((v, p)) => pos - 1 < p <= end && sd_value(b@, pos - 1, end as int, depth as int)
                == Ok::<_, DecodeError>((v.deep_view(), p as int)),
            Err(e) => sd_value(b@, pos - 1, end as int, depth as int) == Err::<
                (ValueModel, int),
                _,
            >(e),
        },
    decreases end - pos, 0int, 1int,
{
    match decode_value(b, pos, end, depth - 1) {
        Ok((t, p2)) => match decode_value(b, p2, end, depth - 1) {
            Ok((a, p3)) => {
                let v = EVEValue::Object(Box::new(t), Box::new(a));
                Ok((v, p3))
            },
            Err(e) => Err(e),
        },
        Err(e) => Err(e),
    }
}

/// Decodes a counted dictionary; `pos` stands just after the opcode byte.
fn decode_dict(b: &[u8], pos: usize, end: usize, depth: usize) -> (r: Result<
    (EVEValue, usize),
    DecodeError,
>)
    requires
        1 <= pos <= end <= b@.len(),
        depth >= 1,
        b@[pos - 1] == 0x16,
    ensures
        match r {
            Ok((v, p)) => pos - 1 < p <= end && sd_value(b@, pos - 1, end as int, depth as int)
                == Ok::<_, DecodeError>((v.deep_view(), p as int)),
            Err(e) => sd_value(b@, pos - 1, end as int, depth as int) == Err::<
                (ValueModel, int),
                _,
            >(e),
        },
    decreases end - pos, 0int, 1int,
{
    let (n, p2) = match decode_size(b, pos, end) {
        Ok(r) => r,
        Err(e) => {
            return Err(e);
        },
    };
    match decode_pairs(b, p2, end, n, depth - 1) {
        Ok((pairs, p3)) => match build_dict(pairs) {
            Ok(entries) => {
                let v = EVEValue::Dict(entries);
                proof {
                    assert(v.deep_view() matches ValueModel::Dict(es) && es
                        =~= crate::value::deep_view_entries(v->Dict_0@));
                }
                Ok((v, p3))
            },
            Err(e) => Err(e),
        },
        Err(e) => Err(e),
    }
}

/// Decodes a substream: a sized nested payload parsed as a full framed
/// message body; `pos` stands just after the opcode byte.
fn decode_substream(b: &[u8], pos: usize, end: usize, depth: usize) -> (r: Result<
    (EVEValue, usize),
    DecodeError,
>)
    requires
        1 <= pos <= end <= b@.len(),
        depth >= 1,
        b@[pos - 1] == 0x2b,
    ensures
        match r {
            Ok((v, p)) => pos - 1 < p <= end && sd_value(b@, pos - 1, end as int, depth as int)
                == Ok::<_, DecodeError>((v.deep_view(), p as int)),
            Err(e) => sd_value(b@, pos - 1, end as int, depth as int) == Err::<
                (ValueModel, int),
                _,
            >(e),
        },
    decreases end - pos, 0int, 1int,
{
    let (n, p2) = match decode_size(b, pos, end) {
        Ok(r) => r,
        Err(e) => {
            return Err(e);
        },
    };
    if end - p2 < n {
        return Err(DecodeError::Truncated);
    }
    match decode_payload_body(b, p2, p2 + n, depth - 1) {
        Ok(vs) => {
            let v = EVEValue::SubStream(vs);
            proof {
                assert(v.deep_view() matches ValueModel::SubStream(ss) && ss =~= deep_view_seq(
                    v->SubStream_0@,
                ));
            }
            Ok((v, p2 + n))
        },
        Err(e) => Err(e),
    }
}

/// Decodes `n` consecutive values, as [`sd_values`] says.
fn decode_values(b: &[u8], pos: usize, end: usize, n: usize, depth: usize) -> (r: Result<
    (Vec<EVEValue>, usize),
    DecodeError,
>)
    requires
        pos <= end <= b@.len(),
    ensures
        match r {
            Ok((vs, p)) => pos <= p <= end && sd_values(
                b@,
                pos as int,
                end as int,
                n as int,
                depth as int,
            ) == Ok::<_, DecodeError>((deep_view_seq(vs@), p as int)),
            Err(e) => sd_values(b@, pos as int, end as int, n as int, depth as int) == Err::<
                (Seq<ValueModel>, int),
                _,
            >(e),
        },
    decreases end - pos, n, 1int,
{
    let mut out: Vec<EVEValue> = Vec::new();
    let mut cur = pos;
    let mut i: usize = 0;
    proof {
        assert(deep_view_seq(out@) =~= Seq::<ValueModel>::empty());
    }
    while i < n
        invariant
            pos <= cur <= end <= b@.len(),
            i <= n,
            sd_values(b@, pos as int, end as int, n as int, depth as int) == (match sd_values(
                b@,
                cur as int,
                end as int,
                n - i,
                depth as int,
            ) {
                Ok((vs, p)) => Ok::<_, DecodeError>((deep_view_seq(out@) + vs, p)),
                Err(e) => Err(e),
            }),
        decreases n - i,
    {
        let ghost prefix = out@;
        match decode_value(b, cur, end, depth) {
            Ok((v, p2)) => {
                proof {
                    let rest = sd_values(b@, p2 as int, end as int, n - i - 1, depth as int);
                    match rest {
                        Ok((vs, p)) => {
                            assert(deep_view_seq(prefix.push(v)) =~= deep_view_seq(prefix) + seq![
                                v.deep_view(),
                            ]);
                            assert((deep_view_seq(prefix) + (seq![v.deep_view()] + vs)) =~= (
                            deep_view_seq(prefix.push(v)) + vs));
                        },
                        Err(_) => {},
                    }
                }
                out.push(v);
                cur = p2;
            },
            Err(e) => {
                return Err(e);
            },
        }
        i = i + 1;
    }
    proof {
        assert(deep_view_seq(out@) + Seq::<ValueModel>::empty() =~= deep_view_seq(out@));
    }
    Ok((out, cur))
}

/// Decodes `n` consecutive (value, key) wire pairs, as [`sd_pairs`] says.
fn decode_pairs(b: &[u8], pos: usize, end: usize, n: usize, depth: usize) -> (r: Result<
    (Vec<(EVEValue, EVEValue)>, usize),
    DecodeError,
>)
    requires
        pos <= end <= b@.len(),
    ensures
        match r {
            Ok((ps, p)) => pos <= p <= end && sd_pairs(
                b@,
                pos as int,
                end as int,
                n as int,
                depth as int,
            ) == Ok::<_, DecodeError>((deep_view_pairs(ps@), p as int)),
            Err(e) => sd_pairs(b@, pos as int, end as int, n as int, depth as int) == Err::<
                (Seq<(ValueModel, ValueModel)>, int),
                _,
            >(e),
        },
    decreases end - pos, n, 1int,
{
    let mut out: Vec<(EVEValue, EVEValue)> = Vec::new();
    let mut cur = pos;
    let mut i: usize = 0;
    proof {
        assert(deep_view_pairs(out@) =~= Seq::<(ValueModel, ValueModel)>::empty());
    }
    while i < n
        invariant
            pos <= cur <= end <= b@.len(),
            i <= n,
            sd_pairs(b@, pos as int, end as int, n as int, depth as int) == (match sd_pairs(
                b@,
                cur as int,
                end as int,
                n - i,
                depth as int,
            ) {
                Ok((ps, p)) => Ok::<_, DecodeError>((deep_view_pairs(out@) + ps, p)),
                Err(e) => Err(e),
            }),
        decreases n - i,
    {
        let ghost prefix = out@;
        let (v, p2) = match decode_value(b, cur, end, depth) {
            Ok(r) => r,
            Err(e) => {
                return Err(e);
            },
        };
        let (k, p3) = match decode_value(b, p2, end, depth) {
            Ok(r) => r,
            Err(e) => {
                return Err(e);
            },
        };
        proof {
            let rest = sd_pairs(b@, p3 as int, end as int, n - i - 1, depth as int);
            match rest {
                Ok((ps, p)) => {
                    assert(deep_view_pairs(prefix.push((v, k))) =~= deep_view_pairs(prefix) + seq![
                        (v.deep_view(), k.deep_view()),
                    ]);
                    assert((deep_view_pairs(prefix) + (seq![(v.deep_view(), k.deep_view())] + ps))
                        =~= (deep_view_pairs(prefix.push((v, k))) + ps));
                },
                Err(_) => {},
            }
        }
        out.push((v, k));
        cur = p3;
        i = i + 1;
    }
    proof {
        assert(deep_view_pairs(out@) + Seq::<(ValueModel, ValueModel)>::empty() =~= deep_view_pairs(
            out@,
        ));
    }
    Ok((out, cur))
}

/// Decodes values until the buffer is exhausted exactly at `end`, as
/// [`sd_stream`] says.
fn decode_stream(b: &[u8], pos: usize, end: usize, depth: usize) -> (r: Result<
    Vec<EVEValue>,
    DecodeError,
>)
    requires
        pos <= end <= b@.len(),
    ensures
        match r {
            Ok(vs) => sd_stream(b@, pos as int, end as int, depth as int) == Ok::<
                _,
                DecodeError,
            >(deep_view_seq(vs@)),
            Err(e) => sd_stream(b@, pos as int, end as int, depth as int) == Err::<
                Seq<ValueModel>,
                _,
            >(e),
        },
    decreases end - pos, 0int, 1int,
{
    let mut out: Vec<EVEValue> = Vec::new();
    let mut cur = pos;
    proof {
        assert(deep_view_seq(out@) =~= Seq::<ValueModel>::empty());
    }
    while cur < end
        invariant
            pos <= cur <= end <= b@.len(),
            sd_stream(b@, pos as int, end as int, depth as int) == (match sd_stream(
                b@,
                cur as int,
                end as int,
                depth as int,
            ) {
                Ok(vs) => Ok::<_, DecodeError>(deep_view_seq(out@) + vs),
                Err(e) => Err(e),
            }),
        decreases end - cur,
    {
        let ghost prefix = out@;
        match decode_value(b, cur, end, depth) {
            Ok((v, p2)) => {
                proof {
                    let rest = sd_stream(b@, p2 as int, end as int, depth as int);
                    match rest {
                        Ok(vs) => {
                            assert(deep_view_seq(prefix.push(v)) =~= deep_view_seq(prefix) + seq![
                                v.deep_view(),
                            ]);
                            assert((deep_view_seq(prefix) + (seq![v.deep_view()] + vs)) =~= (
                            deep_view_seq(prefix.push(v)) + vs));
                        },
                        Err(_) => {},
                    }
                }
                out.push(v);
                cur = p2;
            },
            Err(e) => {
                return Err(e);
            },
        }
    }
    proof {
        assert(deep_view_seq(out@) + Seq::<ValueModel>::empty() =~= deep_view_seq(out@));
    }
    Ok(out)
}

/// Decodes a framed message body between `pos` and `end`, as [`sd_body`]
/// says: marker byte, save counter, then values until the body is
/// exhausted.
fn decode_payload_body(b: &[u8], pos: usize, end: usize, depth: usize) -> (r: Result<
    Vec<EVEValue>,
    DecodeError,
>)
    requires
        pos <= end <= b@.len(),
    ensures
        match r {
            Ok(vs) => sd_body(b@, pos as int, end as int, depth as int) == Ok::<
                _,
                DecodeError,
            >(deep_view_seq(vs@)),
            Err(e) => sd_body(b@, pos as int, end as int, depth as int) == Err::<
                Seq<ValueModel>,
                _,
            >(e),
        },
    decreases end - pos, 0int, 2int,
{
    let _blen = b.len();
    if pos >= end {
        return Err(DecodeError::Truncated);
    }
    let marker = *vstd::slice::slice_index_get(b, pos);
    if marker != 0x7e {
        return Err(DecodeError::MissingMarker);
    }
    if end - (pos + 1) < 4 {
        return Err(DecodeError::Truncated);
    }
    // The save counter is consumed but not interpreted; a caller that needs
    // it must capture it before handing the buffer over.
    let _save_count = read_le32(b, pos + 1);
    decode_stream(b, pos + 5, end, depth)
}

/// Decodes a whole payload, as [`sd_payload`] says: the 4-byte declared
/// length must equal the number of bytes that follow it exactly, then a
/// marker-framed body holds the message's values.
///
/// This is the library's single entry point for a received,
/// already-length-delimited message buffer.  Every error is fatal to the
/// whole decode: no partial result is returned.
pub fn decode_payload(payload: &[u8]) -> (r: Result<Vec<EVEValue>, DecodeError>)
    ensures
        match r {
            Ok(vs) => sd_payload(payload@) == Ok::<_, DecodeError>(deep_view_seq(vs@)),
            Err(e) => sd_payload(payload@) == Err::<Seq<ValueModel>, _>(e),
        },
{
    let len = payload.len();
    if len < 4 {
        return Err(DecodeError::Truncated);
    }
    let declared = read_le32(payload, 0);
    if declared as usize != len - 4 {
        return Err(DecodeError::BadEnvelopeLength);
    }
    decode_payload_body(payload, 4, len, MAX_NESTING_DEPTH)
}


/// An error at any value boundary of a stream fails the whole stream.
///
/// If `k` values decode from `pos`, leaving the stream at some position
/// `q` short of `end`, and the value at `q` fails with `e` — as an
/// unrecognized opcode byte does, see
/// [`lemma_unknown_opcode_is_fatal`] — then the whole stream from `pos`
/// fails with `e`: no value decoded after that point is ever returned.
pub proof fn lemma_stream_error_propagates(
    s: Seq<u8>,
    pos: int,
    end: int,
    depth: int,
    k: int,
    e: DecodeError,
)
    requires
        sd_values(s, pos, end, k, depth) is Ok,
        (sd_values(s, pos, end, k, depth)->Ok_0).1 < end,
        sd_value(s, (sd_values(s, pos, end, k, depth)->Ok_0).1, end, depth) == Err::<
            (ValueModel, int),
            DecodeError,
        >(e),
    ensures
        sd_stream(s, pos, end, depth) == Err::<Seq<ValueModel>, DecodeError>(e),
    decreases k,
{
    let q = (sd_values(s, pos, end, k, depth)->Ok_0).1;
    if k <= 0 {
        assert(q == pos);
    } else {
        let first = sd_value(s, pos, end, depth);
        assert(first is Ok);
        let p2 = (first->Ok_0).1;
        assert(sd_values(s, p2, end, k - 1, depth) is Ok);
        assert((sd_values(s, p2, end, k - 1, depth)->Ok_0).1 == q);
        lemma_stream_error_propagates(s, p2, end, depth, k - 1, e);
    }
}

/// A byte outside the opcode table fails the value at its position with
/// [`DecodeError::InvalidOpcode`], never yielding a value.
pub proof fn lemma_unknown_opcode_is_fatal(s: Seq<u8>, pos: int, end: int, depth: int)
    requires
        0 < depth,
        0 <= pos < end <= s.len(),
        crate::opcodes::EVEOpCode::spec_from_code(s[pos]) is None,
    ensures
        sd_value(s, pos, end, depth) == Err::<(ValueModel, int), DecodeError>(
            DecodeError::InvalidOpcode(s[pos]),
        ),
{
}


/// Insertion keeps every entry well-formed.
proof fn lemma_dict_insert_wf(
    es: Seq<(KeyModel, ValueModel)>,
    k: KeyModel,
    v: ValueModel,
)
    requires
        crate::value::wf_entries(es),
        crate::value::wf_key(k),
        crate::value::wf_value(v),
    ensures
        crate::value::wf_entries(crate::dict::spec_dict_insert(es, k, v)),
    decreases es.len(),
{
    if es.len() != 0 {
        let c = crate::order::key_cmp(k, es[0].0);
        let r = crate::dict::spec_dict_insert(es, k, v);
        assert forall|i: int| 0 <= i < es.drop_first().len() implies crate::value::wf_key(
            #[trigger] es.drop_first()[i].0,
        ) && crate::value::wf_value(es.drop_first()[i].1) by {
            assert(es.drop_first()[i] == es[i + 1]);
        }
        if c > 0 {
            lemma_dict_insert_wf(es.drop_first(), k, v);
            let rest = crate::dict::spec_dict_insert(es.drop_first(), k, v);
            assert forall|i: int| 0 <= i < r.len() implies crate::value::wf_key(#[trigger] r[i].0)
                && crate::value::wf_value(r[i].1) by {
                if i > 0 {
                    assert(r[i] == rest[i - 1]);
                }
            }
        } else if c == 0 {
            assert forall|i: int| 0 <= i < r.len() implies crate::value::wf_key(#[trigger] r[i].0)
                && crate::value::wf_value(r[i].1) by {
                if i > 0 {
                    assert(r[i] == es[i]);
                }
            }
        } else {
            assert forall|i: int| 0 <= i < r.len() implies crate::value::wf_key(#[trigger] r[i].0)
                && crate::value::wf_value(r[i].1) by {
                if i > 0 {
                    assert(r[i] == es[i - 1]);
                }
            }
        }
    }
}

/// Folding well-formed wire pairs keeps every resulting entry well-formed.
proof fn lemma_dict_fold_wf(
    pairs: Seq<(ValueModel, ValueModel)>,
    acc: Seq<(KeyModel, ValueModel)>,
)
    requires
        crate::value::wf_pairs(pairs),
        crate::value::wf_entries(acc),
    ensures
        spec_dict_fold(pairs, acc) matches Ok(es) ==> crate::value::wf_entries(es),
    decreases pairs.len(),
{
    if pairs.len() != 0 {
        match crate::value::spec_convert(pairs[0].1) {
            Some(k) => {
                assert(crate::value::wf_value(pairs[0].1));
                assert(crate::value::wf_key(k));
                lemma_dict_insert_wf(acc, k, pairs[0].0);
                assert forall|i: int| 0 <= i < pairs.drop_first().len() implies
                    crate::value::wf_value(#[trigger] pairs.drop_first()[i].0)
                        && crate::value::wf_value(pairs.drop_first()[i].1) by {
                    assert(pairs.drop_first()[i] == pairs[i + 1]);
                }
                assert(crate::value::wf_pairs(pairs.drop_first()));
                lemma_dict_fold_wf(
                    pairs.drop_first(),
                    crate::dict::spec_dict_insert(acc, k, pairs[0].0),
                );
            },
            None => {},
        }
    }
}

/// Every value a successful [`sd_value`] yields is well-formed.
proof fn lemma_value_wf(s: Seq<u8>, pos: int, end: int, depth: int)
    ensures
        sd_value(s, pos, end, depth) matches Ok(r) ==> crate::value::wf_value(r.0),
    decreases end - pos, 0int, 0int,
{
    if depth > 0 && pos < end {
        let op = s[pos];
        let p = pos + 1;
        if op == 0x12 {
            match spec_decode_size(s, p, end) {
                Ok((n, p2)) => {
                    if end - p2 >= 2 * n && spec_ucs2_ok(spec_ucs2_units(s, p2, n)) {
                        crate::text::lemma_ucs2_to_utf8_valid(spec_ucs2_units(s, p2, n));
                    }
                },
                Err(_) => {},
            }
        } else if op == 0x14 {
            match spec_decode_size(s, p, end) {
                Ok((n, p2)) => {
                    if p < p2 <= end {
                        lemma_values_wf(s, p2, end, n, depth - 1);
                    }
                },
                Err(_) => {},
            }
        } else if op == 0x25 {
            lemma_value_wf(s, p, end, depth - 1);
        } else if op == 0x2c || op == 0x17 {
            lemma_value_wf(s, p, end, depth - 1);
            match sd_value(s, p, end, depth - 1) {
                Ok((_, p2)) => {
                    if p < p2 <= end {
                        lemma_value_wf(s, p2, end, depth - 1);
                    }
                },
                Err(_) => {},
            }
        } else if op == 0x16 {
            match spec_decode_size(s, p, end) {
                Ok((n, p2)) => {
                    if p < p2 <= end {
                        lemma_pairs_wf(s, p2, end, n, depth - 1);
                        match sd_pairs(s, p2, end, n, depth - 1) {
                            Ok((ps, _)) => {
                                lemma_dict_fold_wf(ps, Seq::empty());
                            },
                            Err(_) => {},
                        }
                    }
                },
                Err(_) => {},
            }
        } else if op == 0x2b {
            match spec_decode_size(s, p, end) {
                Ok((n, p2)) => {
                    if p < p2 <= end && end - p2 >= n {
                        lemma_body_wf(s, p2, p2 + n, depth - 1);
                    }
                },
                Err(_) => {},
            }
        }
    }
}

/// Every value a successful [`sd_values`] yields is well-formed.
proof fn lemma_values_wf(s: Seq<u8>, pos: int, end: int, n: int, depth: int)
    ensures
        sd_values(s, pos, end, n, depth) matches Ok(r) ==> crate::value::wf_values(r.0),
    decreases end - pos, n, 1int,
{
    if n > 0 {
        lemma_value_wf(s, pos, end, depth);
        match sd_value(s, pos, end, depth) {
            Ok((v, p2)) => {
                if pos < p2 <= end {
                    lemma_values_wf(s, p2, end, n - 1, depth);
                    match sd_values(s, p2, end, n - 1, depth) {
                        Ok((vs, _)) => {
                            assert forall|i: int| 0 <= i < (seq![v] + vs).len() implies
                                crate::value::wf_value(#[trigger] (seq![v] + vs)[i]) by {
                                if i > 0 {
                                    assert((seq![v] + vs)[i] == vs[i - 1]);
                                }
                            }
                        },
                        Err(_) => {},
                    }
                }
            },
            Err(_) => {},
        }
    }
}

/// Every pair component a successful [`sd_pairs`] yields is well-formed.
proof fn lemma_pairs_wf(s: Seq<u8>, pos: int, end: int, n: int, depth: int)
    ensures
        sd_pairs(s, pos, end, n, depth) matches Ok(r) ==> crate::value::wf_pairs(r.0),
    decreases end - pos, n, 1int,
{
    if n > 0 {
        lemma_value_wf(s, pos, end, depth);
        match sd_value(s, pos, end, depth) {
            Ok((v, p2)) => {
                if pos < p2 <= end {
                    lemma_value_wf(s, p2, end, depth);
                    match sd_value(s, p2, end, depth) {
                        Ok((k, p3)) => {
                            if p2 < p3 <= end {
                                lemma_pairs_wf(s, p3, end, n - 1, depth);
                                match sd_pairs(s, p3, end, n - 1, depth) {
                                    Ok((ps, _)) => {
                                        assert forall|i: int|
                                            0 <= i < (seq![(v, k)] + ps).len() implies
                                            crate::value::wf_value(
                                                #[trigger] (seq![(v, k)] + ps)[i].0,
                                            ) && crate::value::wf_value(
                                            (seq![(v, k)] + ps)[i].1,
                                        ) by {
                                            if i == 0 {
                                                assert((seq![(v, k)] + ps)[0] == (v, k));
                                            } else {
                                                assert((seq![(v, k)] + ps)[i] == ps[i - 1]);
                                            }
                                        }
                                    },
                                    Err(_) => {},
                                }
                            }
                        },
                        Err(_) => {},
                    }
                }
            },
            Err(_) => {},
        }
    }
}

/// Every value a successful [`sd_stream`] yields is well-formed.
proof fn lemma_stream_wf(s: Seq<u8>, pos: int, end: int, depth: int)
    ensures
        sd_stream(s, pos, end, depth) matches Ok(vs) ==> crate::value::wf_values(vs),
    decreases end - pos, 0int, 1int,
{
    if pos < end {
        lemma_value_wf(s, pos, end, depth);
        match sd_value(s, pos, end, depth) {
            Ok((v, p2)) => {
                if pos < p2 <= end {
                    lemma_stream_wf(s, p2, end, depth);
                    match sd_stream(s, p2, end, depth) {
                        Ok(vs) => {
                            assert forall|i: int| 0 <= i < (seq![v] + vs).len() implies
                                crate::value::wf_value(#[trigger] (seq![v] + vs)[i]) by {
                                if i > 0 {
                                    assert((seq![v] + vs)[i] == vs[i - 1]);
                                }
                            }
                        },
                        Err(_) => {},
                    }
                }
            },
            Err(_) => {},
        }
    }
}

/// Every value a successful [`sd_body`] yields is well-formed.
proof fn lemma_body_wf(s: Seq<u8>, pos: int, end: int, depth: int)
    ensures
        sd_body(s, pos, end, depth) matches Ok(vs) ==> crate::value::wf_values(vs),
    decreases end - pos, 0int, 2int,
{
    if pos < end && s[pos] == 0x7e && end - (pos + 1) >= 4 {
        lemma_stream_wf(s, pos + 5, end, depth);
    }
}

/// Every value a successful decode yields is well-formed: every owned
/// string anywhere in the returned trees holds valid UTF-8, so the
/// validated string variant never carries unvalidated bytes.
pub proof fn lemma_payload_values_wf(s: Seq<u8>)
    ensures
        sd_payload(s) matches Ok(vs) ==> crate::value::wf_values(vs),
{
    if s.len() >= 4 && spec_le32(s, 0) == s.len() - 4 {
        lemma_body_wf(s, 4, s.len() as int, MAX_NESTING_DEPTH as int);
    }
}

} // verus!
