//! The total order over dictionary keys.
//!
//! The wire protocol's dictionaries compare keys the way the origin
//! platform does, so re-derived maps have deterministic, matching iteration
//! and lookup behaviour.  The order is defined case by case over the variant
//! pairs:
//!
//! - the absent value compares less than everything except itself;
//! - integer-like keys (`Byte`, `Short`, `Integer`) compare by numeric value
//!   after widening, regardless of variant;
//! - floats compare greater than every integer-like key and less than every
//!   string, and against each other by numeric value, with non-comparable
//!   operands (a NaN bit pattern) resolving to "less";
//! - strings compare by raw byte sequence, irrespective of which of the two
//!   string representations either operand uses, and greater than every
//!   non-string key.
//!
//! Reflexivity, antisymmetry and transitivity are proved below for every key
//! free of NaN bit patterns; a NaN compares "less" even against itself, so
//! no order over it can be reflexive.

use vstd::prelude::*;

use core::cmp::Ordering;

use crate::value::HashableEVEValue;
use crate::value::KeyModel;

verus! {

/// The comparison class of a key: the absent value, then integer-like keys,
/// then floats, then strings.
pub open spec fn key_rank(k: KeyModel) -> int {
    match k {
        KeyModel::Null => 0,
        KeyModel::Byte(_) => 1,
        KeyModel::Short(_) => 1,
        KeyModel::Integer(_) => 1,
        KeyModel::Float(_) => 2,
        KeyModel::String(_) => 3,
        KeyModel::OwnedString(_) => 3,
    }
}

/// The numeric value of an integer-like key, widened to mathematical
/// integers.
pub open spec fn key_int(k: KeyModel) -> int {
    match k {
        KeyModel::Byte(b) => b as int,
        KeyModel::Short(s) => s as int,
        KeyModel::Integer(i) => i as int,
        _ => 0,
    }
}

/// The byte sequence of a string key.
pub open spec fn key_bytes(k: KeyModel) -> Seq<u8> {
    match k {
        KeyModel::String(s) => s,
        KeyModel::OwnedString(s) => s,
        _ => Seq::empty(),
    }
}

/// Whether a 64-bit IEEE-754 bit pattern denotes a NaN: the magnitude bits
/// exceed those of positive infinity.
pub open spec fn f64_bits_is_nan(bits: u64) -> bool {
    bits % 0x8000_0000_0000_0000 > 0x7ff0_0000_0000_0000
}

/// A monotone integer key for a non-NaN 64-bit IEEE-754 bit pattern: the
/// magnitude bits, negated when the sign bit is set.  Two patterns compare
/// numerically as their keys compare, and the two zeroes share the key 0.
pub open spec fn f64_bits_order_key(bits: u64) -> int {
    let magnitude = (bits % 0x8000_0000_0000_0000) as int;
    if bits >= 0x8000_0000_0000_0000 {
        -magnitude
    } else {
        magnitude
    }
}

/// The sign of an integer, as a three-valued comparison result.
pub open spec fn sign(i: int) -> int {
    if i < 0 {
        -1
    } else if i > 0 {
        1
    } else {
        0
    }
}

/// Comparison of two float bit patterns by numeric value; any NaN operand
/// resolves to "less".
pub open spec fn f64_bits_cmp(a: u64, b: u64) -> int {
    if f64_bits_is_nan(a) || f64_bits_is_nan(b) {
        -1
    } else {
        sign(f64_bits_order_key(a) - f64_bits_order_key(b))
    }
}

/// Lexicographic comparison of byte sequences under unsigned byte order.
pub open spec fn lex_cmp(a: Seq<u8>, b: Seq<u8>) -> int
    decreases a.len(),
{
    if a.len() == 0 && b.len() == 0 {
        0
    } else if a.len() == 0 {
        -1
    } else if b.len() == 0 {
        1
    } else if a[0] < b[0] {
        -1
    } else if a[0] > b[0] {
        1
    } else {
        lex_cmp(a.drop_first(), b.drop_first())
    }
}

/// The key order: -1, 0 or 1 as `a` is below, equivalent to, or above `b`.
pub open spec fn key_cmp(a: KeyModel, b: KeyModel) -> int {
    if key_rank(a) != key_rank(b) {
        sign(key_rank(a) - key_rank(b))
    } else if key_rank(a) == 1 {
        sign(key_int(a) - key_int(b))
    } else if key_rank(a) == 2 {
        f64_bits_cmp(a->Float_0, b->Float_0)
    } else if key_rank(a) == 3 {
        lex_cmp(key_bytes(a), key_bytes(b))
    } else {
        0
    }
}

/// Whether a key holds a NaN bit pattern, the one kind of key the order's
/// laws do not cover.
pub open spec fn key_is_nan(k: KeyModel) -> bool {
    k matches KeyModel::Float(bits) && f64_bits_is_nan(bits)
}

/// The `Ordering` a three-valued comparison result denotes.
pub open spec fn ordering_of(i: int) -> Ordering {
    if i < 0 {
        Ordering::Less
    } else if i > 0 {
        Ordering::Greater
    } else {
        Ordering::Equal
    }
}

/// Compares two float bit patterns by the numeric value they denote, any
/// NaN operand comparing "less".
fn cmp_f64_bits(a: u64, b: u64) -> (r: Ordering)
    ensures
        r == ordering_of(f64_bits_cmp(a, b)),
{
    let mag_a = a % 0x8000_0000_0000_0000;
    let mag_b = b % 0x8000_0000_0000_0000;
    if mag_a > 0x7ff0_0000_0000_0000 || mag_b > 0x7ff0_0000_0000_0000 {
        return Ordering::Less;
    }
    let neg_a = a >= 0x8000_0000_0000_0000;
    let neg_b = b >= 0x8000_0000_0000_0000;
    if neg_a != neg_b {
        if mag_a == 0 && mag_b == 0 {
            Ordering::Equal
        } else if neg_a {
            Ordering::Less
        } else {
            Ordering::Greater
        }
    } else {
        let flip = neg_a;
        if mag_a == mag_b {
            Ordering::Equal
        } else if (mag_a < mag_b) != flip {
            Ordering::Less
        } else {
            Ordering::Greater
        }
    }
}

/// Compares two byte strings lexicographically under unsigned byte order.
fn cmp_bytes(a: &Vec<u8>, b: &Vec<u8>) -> (r: Ordering)
    ensures
        r == ordering_of(lex_cmp(a@, b@)),
{
    let mut i: usize = 0;
    proof {
        assert(a@.skip(0) =~= a@);
        assert(b@.skip(0) =~= b@);
    }
    loop
        invariant
            i <= a@.len(),
            i <= b@.len(),
            lex_cmp(a@, b@) == lex_cmp(a@.skip(i as int), b@.skip(i as int)),
        decreases a@.len() - i,
    {
        if i == a.len() && i == b.len() {
            return Ordering::Equal;
        } else if i == a.len() {
            return Ordering::Less;
        } else if i == b.len() {
            return Ordering::Greater;
        }
        let x = a[i];
        let y = b[i];
        proof {
            assert(a@.skip(i as int)[0] == a@[i as int]);
            assert(b@.skip(i as int)[0] == b@[i as int]);
            assert(a@.skip(i as int).drop_first() =~= a@.skip(i as int + 1));
            assert(b@.skip(i as int).drop_first() =~= b@.skip(i as int + 1));
        }
        if x < y {
            return Ordering::Less;
        } else if x > y {
            return Ordering::Greater;
        }
        i = i + 1;
    }
}

impl HashableEVEValue {
    /// Compares two keys under the order of this module.
    pub fn cmp(&self, other: &HashableEVEValue) -> (r: Ordering)
        ensures
            r == ordering_of(key_cmp(self.deep_view(), other.deep_view())),
    {
        match self {
            HashableEVEValue::Null => match other {
                HashableEVEValue::Null => Ordering::Equal,
                _ => Ordering::Less,
            },
            HashableEVEValue::Byte(i) => cmp_int_like(*i as i64, other),
            HashableEVEValue::Short(i) => cmp_int_like(*i as i64, other),
            HashableEVEValue::Integer(i) => cmp_int_like(*i, other),
            HashableEVEValue::Float(x) => match other {
                HashableEVEValue::Null => Ordering::Greater,
                HashableEVEValue::Byte(_) => Ordering::Greater,
                HashableEVEValue::Short(_) => Ordering::Greater,
                HashableEVEValue::Integer(_) => Ordering::Greater,
                HashableEVEValue::Float(y) => cmp_f64_bits(*x, *y),
                HashableEVEValue::String(_) => Ordering::Less,
                HashableEVEValue::OwnedString(_) => Ordering::Less,
            },
            HashableEVEValue::String(s) => cmp_string_like(s, other),
            HashableEVEValue::OwnedString(s) => cmp_string_like(s, other),
        }
    }
}

/// Compares a widened integer-like key against any key.
fn cmp_int_like(i: i64, other: &HashableEVEValue) -> (r: Ordering)
    ensures
        forall|a: KeyModel|
            key_rank(a) == 1 && key_int(a) == i as int ==> r == ordering_of(
                key_cmp(a, other.deep_view()),
            ),
{
    match other {
        HashableEVEValue::Null => Ordering::Greater,
        HashableEVEValue::Byte(j) => cmp_i64(i, *j as i64),
        HashableEVEValue::Short(j) => cmp_i64(i, *j as i64),
        HashableEVEValue::Integer(j) => cmp_i64(i, *j),
        HashableEVEValue::Float(_) => Ordering::Less,
        HashableEVEValue::String(_) => Ordering::Less,
        HashableEVEValue::OwnedString(_) => Ordering::Less,
    }
}

/// Compares a string key's bytes against any key.
fn cmp_string_like(s: &Vec<u8>, other: &HashableEVEValue) -> (r: Ordering)
    ensures
        forall|a: KeyModel|
            key_rank(a) == 3 && key_bytes(a) == s@ ==> r == ordering_of(
                key_cmp(a, other.deep_view()),
            ),
{
    match other {
        HashableEVEValue::String(t) => cmp_bytes(s, t),
        HashableEVEValue::OwnedString(t) => cmp_bytes(s, t),
        _ => Ordering::Greater,
    }
}

/// Compares two 64-bit signed integers.
fn cmp_i64(i: i64, j: i64) -> (r: Ordering)
    ensures
        r == ordering_of(sign(i as int - j as int)),
{
    if i < j {
        Ordering::Less
    } else if i > j {
        Ordering::Greater
    } else {
        Ordering::Equal
    }
}

/// Lexicographic comparison of a sequence against itself is "equal".
proof fn lemma_lex_cmp_reflexive(a: Seq<u8>)
    ensures
        lex_cmp(a, a) == 0,
    decreases a.len(),
{
    if a.len() != 0 {
        lemma_lex_cmp_reflexive(a.drop_first());
    }
}

/// Lexicographic comparison is antisymmetric.
proof fn lemma_lex_cmp_antisymmetric(a: Seq<u8>, b: Seq<u8>)
    ensures
        lex_cmp(a, b) == -lex_cmp(b, a),
    decreases a.len(),
{
    if a.len() != 0 && b.len() != 0 {
        lemma_lex_cmp_antisymmetric(a.drop_first(), b.drop_first());
    }
}

/// Lexicographic comparison is transitive, and equivalence under it is
/// exactly equality of the sequences.
proof fn lemma_lex_cmp_transitive(a: Seq<u8>, b: Seq<u8>, c: Seq<u8>)
    requires
        lex_cmp(a, b) <= 0,
        lex_cmp(b, c) <= 0,
    ensures
        lex_cmp(a, c) <= 0,
        lex_cmp(a, c) == 0 ==> lex_cmp(a, b) == 0 && lex_cmp(b, c) == 0,
    decreases a.len(),
{
    if a.len() != 0 && b.len() != 0 && c.len() != 0 && a[0] == b[0] && b[0] == c[0] {
        lemma_lex_cmp_transitive(a.drop_first(), b.drop_first(), c.drop_first());
    }
}

/// Reflexivity of the key order: every key free of NaN bit patterns is
/// equivalent to itself.
pub proof fn lemma_key_cmp_reflexive(a: KeyModel)
    requires
        !key_is_nan(a),
    ensures
        key_cmp(a, a) == 0,
{
    if key_rank(a) == 3 {
        lemma_lex_cmp_reflexive(key_bytes(a));
    }
}

/// Antisymmetry of the key order: over keys free of NaN bit patterns,
/// swapping the operands negates the comparison.
pub proof fn lemma_key_cmp_antisymmetric(a: KeyModel, b: KeyModel)
    requires
        !key_is_nan(a),
        !key_is_nan(b),
    ensures
        key_cmp(a, b) == -key_cmp(b, a),
{
    if key_rank(a) == 3 && key_rank(b) == 3 {
        lemma_lex_cmp_antisymmetric(key_bytes(a), key_bytes(b));
    }
}

/// Transitivity of the key order over keys free of NaN bit patterns, in the
/// form that covers both the strict and the equivalent cases: if `a` is no
/// greater than `b` and `b` no greater than `c`, then `a` is no greater
/// than `c`, and `a` is equivalent to `c` only when both steps were
/// equivalences.
pub proof fn lemma_key_cmp_transitive(a: KeyModel, b: KeyModel, c: KeyModel)
    requires
        !key_is_nan(a),
        !key_is_nan(b),
        !key_is_nan(c),
        key_cmp(a, b) <= 0,
        key_cmp(b, c) <= 0,
    ensures
        key_cmp(a, c) <= 0,
        key_cmp(a, c) == 0 ==> key_cmp(a, b) == 0 && key_cmp(b, c) == 0,
{
    if key_rank(a) == 3 && key_rank(b) == 3 && key_rank(c) == 3 {
        lemma_lex_cmp_transitive(key_bytes(a), key_bytes(b), key_bytes(c));
    }
}

/// The key order takes only the three values -1, 0 and 1.
pub proof fn lemma_key_cmp_three_valued(a: KeyModel, b: KeyModel)
    ensures
        -1 <= key_cmp(a, b) <= 1,
{
    if key_rank(a) == 3 && key_rank(b) == 3 {
        lemma_lex_cmp_three_valued(key_bytes(a), key_bytes(b));
    }
}

/// Lexicographic comparison takes only the three values -1, 0 and 1.
proof fn lemma_lex_cmp_three_valued(a: Seq<u8>, b: Seq<u8>)
    ensures
        -1 <= lex_cmp(a, b) <= 1,
    decreases a.len(),
{
    if a.len() != 0 && b.len() != 0 {
        lemma_lex_cmp_three_valued(a.drop_first(), b.drop_first());
    }
}

} // verus!
