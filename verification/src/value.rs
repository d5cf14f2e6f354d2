//! The value model: the recursive tagged union of decoded values, its
//! key-eligible subset, and the mathematical models both are specified
//! against.
//!
//! Floats are carried as their IEEE-754 bit patterns (`u64`), read verbatim
//! from the wire; the bits are compared and ordered without ever
//! materializing a machine float.  The `String` variant holds the raw bytes
//! of the exact wire range it was parsed from, never assumed to be valid
//! text; `OwnedString` holds bytes that passed UTF-8 validation.

use vstd::prelude::*;

use crate::errors::ConversionError;

verus! {

broadcast use vstd::std_specs::vec::axiom_vec_index_decreases, vstd::seq::axiom_seq_index_decreases;

/// A decoded value of the wire format.
#[derive(Debug, PartialEq, Eq)]
pub enum EVEValue {
    /// The absent value.
    Null,
    /// 8-bit unsigned integer.
    Byte(u8),
    /// 16-bit signed integer.
    Short(i16),
    /// 64-bit signed integer, the common widened representation for 32- and
    /// 64-bit wire integers.
    Integer(i64),
    /// 128-bit signed integer, produced by the variable-width integer opcode.
    BigInt(i128),
    /// 64-bit IEEE-754 float, held as its bit pattern.
    Float(u64),
    /// A raw byte string, copied verbatim from the wire, not assumed to be
    /// valid text.
    String(Vec<u8>),
    /// A validated, independently-owned UTF-8 string, produced when the wire
    /// encoding requires conversion; holds the UTF-8 bytes.
    OwnedString(Vec<u8>),
    /// An ordered sequence of values.
    Tuple(Vec<EVEValue>),
    /// A mapping from key-eligible values to values.  Entries are held in
    /// strictly ascending key order under the total order of
    /// [`crate::order`]; a later duplicate key on the wire overwrites the
    /// earlier entry's value.
    Dict(Vec<(HashableEVEValue, EVEValue)>),
    /// Exactly two values: a type descriptor and an argument value.
    Object(Box<EVEValue>, Box<EVEValue>),
    /// An independently-parseable nested sequence of values.
    SubStream(Vec<EVEValue>),
}

/// The subset of [`EVEValue`] usable as a dictionary key.
#[derive(Debug, PartialEq, Eq)]
pub enum HashableEVEValue {
    /// The absent value.
    Null,
    /// 8-bit unsigned integer.
    Byte(u8),
    /// 16-bit signed integer.
    Short(i16),
    /// 64-bit signed integer.
    Integer(i64),
    /// 64-bit IEEE-754 float, held as its bit pattern.
    Float(u64),
    /// A raw byte string.
    String(Vec<u8>),
    /// A validated UTF-8 string, held as its bytes.
    OwnedString(Vec<u8>),
}

/// The mathematical model of a decoded value.
pub enum ValueModel {
    Null,
    Byte(u8),
    Short(i16),
    Integer(i64),
    BigInt(i128),
    Float(u64),
    String(Seq<u8>),
    OwnedString(Seq<u8>),
    Tuple(Seq<ValueModel>),
    Dict(Seq<(KeyModel, ValueModel)>),
    Object(Seq<ValueModel>),
    SubStream(Seq<ValueModel>),
}

/// The mathematical model of a dictionary key.
pub enum KeyModel {
    Null,
    Byte(u8),
    Short(i16),
    Integer(i64),
    Float(u64),
    String(Seq<u8>),
    OwnedString(Seq<u8>),
}

impl HashableEVEValue {
    /// The model of this key.
    pub open spec fn deep_view(&self) -> KeyModel {
        match self {
            HashableEVEValue::Null => KeyModel::Null,
            HashableEVEValue::Byte(b) => KeyModel::Byte(*b),
            HashableEVEValue::Short(s) => KeyModel::Short(*s),
            HashableEVEValue::Integer(i) => KeyModel::Integer(*i),
            HashableEVEValue::Float(f) => KeyModel::Float(*f),
            HashableEVEValue::String(s) => KeyModel::String(s@),
            HashableEVEValue::OwnedString(s) => KeyModel::OwnedString(s@),
        }
    }
}

impl EVEValue {
    /// The model of this value: the same tree with sequences in place of
    /// vectors.
    pub open spec fn deep_view(&self) -> ValueModel
        decreases self,
    {
        match self {
            EVEValue::Null => ValueModel::Null,
            EVEValue::Byte(b) => ValueModel::Byte(*b),
            EVEValue::Short(s) => ValueModel::Short(*s),
            EVEValue::Integer(i) => ValueModel::Integer(*i),
            EVEValue::BigInt(i) => ValueModel::BigInt(*i),
            EVEValue::Float(f) => ValueModel::Float(*f),
            EVEValue::String(s) => ValueModel::String(s@),
            EVEValue::OwnedString(s) => ValueModel::OwnedString(s@),
            EVEValue::Tuple(vs) => ValueModel::Tuple(
                Seq::new(
                    vs@.len(),
                    |i: int|
                        if 0 <= i < vs@.len() {
                            vs[i].deep_view()
                        } else {
                            ValueModel::Null
                        },
                ),
            ),
            EVEValue::Dict(es) => ValueModel::Dict(
                Seq::new(
                    es@.len(),
                    |i: int|
                        if 0 <= i < es@.len() {
                            (es[i].0.deep_view(), es[i].1.deep_view())
                        } else {
                            (KeyModel::Null, ValueModel::Null)
                        },
                ),
            ),
            EVEValue::Object(t, a) => ValueModel::Object(seq![t.deep_view(), a.deep_view()]),
            EVEValue::SubStream(vs) => ValueModel::SubStream(
                Seq::new(
                    vs@.len(),
                    |i: int|
                        if 0 <= i < vs@.len() {
                            vs[i].deep_view()
                        } else {
                            ValueModel::Null
                        },
                ),
            ),
        }
    }
}

/// The models of the elements of a vector of values.
pub open spec fn deep_view_seq(vs: Seq<EVEValue>) -> Seq<ValueModel> {
    Seq::new(vs.len(), |i: int| vs[i].deep_view())
}

/// The models of the entries of a dictionary's entry vector.
pub open spec fn deep_view_entries(es: Seq<(HashableEVEValue, EVEValue)>) -> Seq<
    (KeyModel, ValueModel),
> {
    Seq::new(es.len(), |i: int| (es[i].0.deep_view(), es[i].1.deep_view()))
}

/// The key a value converts to, or nothing for the variants that are never
/// legal dictionary keys.
pub open spec fn spec_convert(v: ValueModel) -> Option<KeyModel> {
    match v {
        ValueModel::Null => Some(KeyModel::Null),
        ValueModel::Byte(b) => Some(KeyModel::Byte(b)),
        ValueModel::Short(s) => Some(KeyModel::Short(s)),
        ValueModel::Integer(i) => Some(KeyModel::Integer(i)),
        ValueModel::Float(f) => Some(KeyModel::Float(f)),
        ValueModel::String(s) => Some(KeyModel::String(s)),
        ValueModel::OwnedString(s) => Some(KeyModel::OwnedString(s)),
        _ => None,
    }
}

/// Converts a value into a dictionary key.  Succeeds exactly for the seven
/// key-eligible variants; converting a `Tuple`, `Dict`, `Object` or
/// `SubStream` (or a `BigInt`, which is not key-eligible either) fails.
pub fn convert(v: EVEValue) -> (r: Result<HashableEVEValue, ConversionError>)
    ensures
        match spec_convert(v.deep_view()) {
            Some(k) => r matches Ok(h) && h.deep_view() == k,
            None => r matches Err(ConversionError::NotKeyEligible),
        },
{
    match v {
        EVEValue::Null => Ok(HashableEVEValue::Null),
        EVEValue::Byte(b) => Ok(HashableEVEValue::Byte(b)),
        EVEValue::Short(s) => Ok(HashableEVEValue::Short(s)),
        EVEValue::Integer(i) => Ok(HashableEVEValue::Integer(i)),
        EVEValue::Float(f) => Ok(HashableEVEValue::Float(f)),
        EVEValue::String(s) => Ok(HashableEVEValue::String(s)),
        EVEValue::OwnedString(s) => Ok(HashableEVEValue::OwnedString(s)),
        _ => Err(ConversionError::NotKeyEligible),
    }
}


impl core::convert::From<u8> for EVEValue {
    /// Wraps an 8-bit unsigned integer as a value.
    fn from(other: u8) -> Self {
        EVEValue::Byte(other)
    }
}

impl vstd::std_specs::convert::FromSpecImpl<u8> for EVEValue {
    open spec fn obeys_from_spec() -> bool {
        true
    }

    open spec fn from_spec(other: u8) -> Self {
        EVEValue::Byte(other)
    }
}

impl core::convert::From<i16> for EVEValue {
    /// Wraps a 16-bit signed integer as a value.
    fn from(other: i16) -> Self {
        EVEValue::Short(other)
    }
}

impl vstd::std_specs::convert::FromSpecImpl<i16> for EVEValue {
    open spec fn obeys_from_spec() -> bool {
        true
    }

    open spec fn from_spec(other: i16) -> Self {
        EVEValue::Short(other)
    }
}

impl core::convert::From<i32> for EVEValue {
    /// Widens a 32-bit signed integer into the common 64-bit variant.
    fn from(other: i32) -> Self {
        EVEValue::Integer(other as i64)
    }
}

impl vstd::std_specs::convert::FromSpecImpl<i32> for EVEValue {
    open spec fn obeys_from_spec() -> bool {
        true
    }

    open spec fn from_spec(other: i32) -> Self {
        EVEValue::Integer(other as i64)
    }
}

impl core::convert::From<i64> for EVEValue {
    /// Wraps a 64-bit signed integer as a value.
    fn from(other: i64) -> Self {
        EVEValue::Integer(other)
    }
}

impl vstd::std_specs::convert::FromSpecImpl<i64> for EVEValue {
    open spec fn obeys_from_spec() -> bool {
        true
    }

    open spec fn from_spec(other: i64) -> Self {
        EVEValue::Integer(other)
    }
}

impl core::convert::From<u8> for HashableEVEValue {
    /// Wraps an 8-bit unsigned integer as a key.
    fn from(other: u8) -> Self {
        HashableEVEValue::Byte(other)
    }
}

impl vstd::std_specs::convert::FromSpecImpl<u8> for HashableEVEValue {
    open spec fn obeys_from_spec() -> bool {
        true
    }

    open spec fn from_spec(other: u8) -> Self {
        HashableEVEValue::Byte(other)
    }
}

impl core::convert::From<i16> for HashableEVEValue {
    /// Wraps a 16-bit signed integer as a key.
    fn from(other: i16) -> Self {
        HashableEVEValue::Short(other)
    }
}

impl vstd::std_specs::convert::FromSpecImpl<i16> for HashableEVEValue {
    open spec fn obeys_from_spec() -> bool {
        true
    }

    open spec fn from_spec(other: i16) -> Self {
        HashableEVEValue::Short(other)
    }
}

impl core::convert::From<i32> for HashableEVEValue {
    /// Widens a 32-bit signed integer into the common 64-bit variant.
    fn from(other: i32) -> Self {
        HashableEVEValue::Integer(other as i64)
    }
}

impl vstd::std_specs::convert::FromSpecImpl<i32> for HashableEVEValue {
    open spec fn obeys_from_spec() -> bool {
        true
    }

    open spec fn from_spec(other: i32) -> Self {
        HashableEVEValue::Integer(other as i64)
    }
}

impl core::convert::From<i64> for HashableEVEValue {
    /// Wraps a 64-bit signed integer as a key.
    fn from(other: i64) -> Self {
        HashableEVEValue::Integer(other)
    }
}

impl vstd::std_specs::convert::FromSpecImpl<i64> for HashableEVEValue {
    open spec fn obeys_from_spec() -> bool {
        true
    }

    open spec fn from_spec(other: i64) -> Self {
        HashableEVEValue::Integer(other)
    }
}


/// Well-formedness of a decoded key: an owned string holds valid UTF-8.
pub open spec fn wf_key(k: KeyModel) -> bool {
    k matches KeyModel::OwnedString(s) ==> vstd::utf8::valid_utf8(s)
}

/// Well-formedness of a decoded value: every owned string anywhere in the
/// tree holds valid UTF-8, as the data model demands of the validated,
/// independently-owned string variant.
pub open spec fn wf_value(v: ValueModel) -> bool
    decreases v,
{
    match v {
        ValueModel::OwnedString(s) => vstd::utf8::valid_utf8(s),
        ValueModel::Tuple(vs) => forall|i: int| 0 <= i < vs.len() ==> wf_value(#[trigger] vs[i]),
        ValueModel::Dict(es) => forall|i: int|
            0 <= i < es.len() ==> wf_key(#[trigger] es[i].0) && wf_value(es[i].1),
        ValueModel::Object(ps) => forall|i: int| 0 <= i < ps.len() ==> wf_value(#[trigger] ps[i]),
        ValueModel::SubStream(vs) => forall|i: int|
            0 <= i < vs.len() ==> wf_value(#[trigger] vs[i]),
        _ => true,
    }
}


/// Well-formedness of every value of a sequence.
pub open spec fn wf_values(vs: Seq<ValueModel>) -> bool {
    forall|i: int| 0 <= i < vs.len() ==> wf_value(#[trigger] vs[i])
}

/// Well-formedness of every component of a sequence of wire pairs.
pub open spec fn wf_pairs(ps: Seq<(ValueModel, ValueModel)>) -> bool {
    forall|i: int| 0 <= i < ps.len() ==> wf_value(#[trigger] ps[i].0) && wf_value(ps[i].1)
}

/// Well-formedness of every entry of a dictionary.
pub open spec fn wf_entries(es: Seq<(KeyModel, ValueModel)>) -> bool {
    forall|i: int| 0 <= i < es.len() ==> wf_key(#[trigger] es[i].0) && wf_value(es[i].1)
}

} // verus!
