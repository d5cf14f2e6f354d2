use std::cmp::Ordering;

use eve_proto::errors::ConversionError;
use eve_proto::value::convert;
use eve_proto::value::EVEValue;
use eve_proto::value::HashableEVEValue;

fn fkey(x: f64) -> HashableEVEValue {
    HashableEVEValue::Float(x.to_bits())
}

fn mixed_samples() -> Vec<HashableEVEValue> {
    vec![
        HashableEVEValue::Null,
        HashableEVEValue::Byte(0),
        HashableEVEValue::Byte(5),
        HashableEVEValue::Short(-3),
        HashableEVEValue::Short(5),
        HashableEVEValue::Integer(-1000),
        HashableEVEValue::Integer(5),
        HashableEVEValue::Integer(1 << 40),
        fkey(-1.5),
        fkey(0.0),
        fkey(-0.0),
        fkey(2.25),
        fkey(f64::INFINITY),
        fkey(f64::NEG_INFINITY),
        HashableEVEValue::String(b"".to_vec()),
        HashableEVEValue::String(b"abc".to_vec()),
        HashableEVEValue::String(b"abd".to_vec()),
        HashableEVEValue::OwnedString(b"abc".to_vec()),
        HashableEVEValue::OwnedString(b"b".to_vec()),
    ]
}

#[test]
fn reflexive_on_mixed_samples() {
    for a in mixed_samples() {
        assert_eq!(a.cmp(&a), Ordering::Equal);
    }
}

#[test]
fn antisymmetric_on_mixed_samples() {
    let xs = mixed_samples();
    for a in &xs {
        for b in &xs {
            assert_eq!(a.cmp(b), b.cmp(a).reverse());
        }
    }
}

#[test]
fn transitive_on_mixed_samples() {
    let xs = mixed_samples();
    for a in &xs {
        for b in &xs {
            for c in &xs {
                if a.cmp(b) != Ordering::Greater && b.cmp(c) != Ordering::Greater {
                    assert_ne!(a.cmp(c), Ordering::Greater);
                }
                if a.cmp(b) == Ordering::Equal && b.cmp(c) == Ordering::Equal {
                    assert_eq!(a.cmp(c), Ordering::Equal);
                }
            }
        }
    }
}

#[test]
fn none_below_everything_else() {
    let n = HashableEVEValue::Null;
    assert_eq!(n.cmp(&HashableEVEValue::Null), Ordering::Equal);
    assert_eq!(n.cmp(&HashableEVEValue::Byte(0)), Ordering::Less);
    assert_eq!(n.cmp(&fkey(f64::NEG_INFINITY)), Ordering::Less);
    assert_eq!(n.cmp(&HashableEVEValue::String(b"".to_vec())), Ordering::Less);
}

#[test]
fn integer_likes_compare_by_value_across_variants() {
    assert_eq!(
        HashableEVEValue::Byte(5).cmp(&HashableEVEValue::Short(5)),
        Ordering::Equal
    );
    assert_eq!(
        HashableEVEValue::Short(5).cmp(&HashableEVEValue::Integer(5)),
        Ordering::Equal
    );
    assert_eq!(
        HashableEVEValue::Byte(5).cmp(&HashableEVEValue::Short(-3)),
        Ordering::Greater
    );
    assert_eq!(
        HashableEVEValue::Integer(-10).cmp(&HashableEVEValue::Byte(0)),
        Ordering::Less
    );
}

#[test]
fn floats_sit_between_integers_and_strings() {
    assert_eq!(
        fkey(-1000000.0).cmp(&HashableEVEValue::Integer(5)),
        Ordering::Greater
    );
    assert_eq!(
        fkey(1e300).cmp(&HashableEVEValue::String(b"".to_vec())),
        Ordering::Less
    );
}

#[test]
fn float_comparison_matches_std_for_ordinary_values() {
    let samples = [
        0.0,
        -0.0,
        1.5,
        -1.5,
        2.25,
        1e-300,
        -1e-300,
        f64::INFINITY,
        f64::NEG_INFINITY,
        f64::MIN_POSITIVE,
        5e-324,
    ];
    for &a in &samples {
        for &b in &samples {
            let expected = a.partial_cmp(&b).unwrap();
            assert_eq!(fkey(a).cmp(&fkey(b)), expected, "{a} vs {b}");
        }
    }
}

#[test]
fn nan_resolves_to_less_even_against_itself() {
    let nan = fkey(f64::NAN);
    assert_eq!(nan.cmp(&nan), Ordering::Less);
    assert_eq!(nan.cmp(&fkey(0.0)), Ordering::Less);
    assert_eq!(fkey(0.0).cmp(&nan), Ordering::Less);
}

#[test]
fn strings_compare_by_bytes_across_representations() {
    let s = HashableEVEValue::String(b"abc".to_vec());
    let o = HashableEVEValue::OwnedString(b"abc".to_vec());
    assert_eq!(s.cmp(&o), Ordering::Equal);
    assert_eq!(o.cmp(&s), Ordering::Equal);
    assert_eq!(
        HashableEVEValue::String(b"ab".to_vec()).cmp(&HashableEVEValue::OwnedString(
            b"b".to_vec()
        )),
        Ordering::Less
    );
    assert_eq!(
        HashableEVEValue::OwnedString(b"abd".to_vec()).cmp(&HashableEVEValue::String(
            b"abc".to_vec()
        )),
        Ordering::Greater
    );
    assert_eq!(
        HashableEVEValue::String(b"ab".to_vec()).cmp(&HashableEVEValue::String(
            b"abc".to_vec()
        )),
        Ordering::Less
    );
}

#[test]
fn convert_succeeds_for_key_eligible_variants() {
    assert_eq!(convert(EVEValue::Null), Ok(HashableEVEValue::Null));
    assert_eq!(convert(EVEValue::Byte(7)), Ok(HashableEVEValue::Byte(7)));
    assert_eq!(convert(EVEValue::Short(-2)), Ok(HashableEVEValue::Short(-2)));
    assert_eq!(
        convert(EVEValue::Integer(99)),
        Ok(HashableEVEValue::Integer(99))
    );
    let bits = 1.25f64.to_bits();
    assert_eq!(convert(EVEValue::Float(bits)), Ok(HashableEVEValue::Float(bits)));
    assert_eq!(
        convert(EVEValue::String(b"x".to_vec())),
        Ok(HashableEVEValue::String(b"x".to_vec()))
    );
    assert_eq!(
        convert(EVEValue::OwnedString(b"y".to_vec())),
        Ok(HashableEVEValue::OwnedString(b"y".to_vec()))
    );
}

#[test]
fn convert_fails_for_composite_variants() {
    assert_eq!(
        convert(EVEValue::Tuple(vec![])),
        Err(ConversionError::NotKeyEligible)
    );
    assert_eq!(
        convert(EVEValue::Dict(vec![])),
        Err(ConversionError::NotKeyEligible)
    );
    assert_eq!(
        convert(EVEValue::Object(
            Box::new(EVEValue::Null),
            Box::new(EVEValue::Null),
        )),
        Err(ConversionError::NotKeyEligible)
    );
    assert_eq!(
        convert(EVEValue::SubStream(vec![])),
        Err(ConversionError::NotKeyEligible)
    );
}

#[test]
fn convert_fails_for_big_int() {
    assert_eq!(
        convert(EVEValue::BigInt(1)),
        Err(ConversionError::NotKeyEligible)
    );
}
