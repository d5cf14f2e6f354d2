use eve_proto::decode::decode_payload;
use eve_proto::errors::DecodeError;
use eve_proto::value::EVEValue;
use eve_proto::value::HashableEVEValue;

/// Wraps a sequence of encoded values in the outer envelope: declared
/// length, marker byte, save counter.
fn envelope(body: &[u8]) -> Vec<u8> {
    let declared = (body.len() + 5) as u32;
    let mut v: Vec<u8> = Vec::new();
    v.extend_from_slice(&declared.to_le_bytes());
    v.push(0x7e);
    v.extend_from_slice(&7u32.to_le_bytes());
    v.extend_from_slice(body);
    v
}

fn decode_one(body: &[u8]) -> Result<Vec<EVEValue>, DecodeError> {
    decode_payload(&envelope(body))
}

#[test]
fn single_integer_zero_envelope() {
    // A full envelope holding the literal-zero opcode decodes to exactly
    // one value.
    let r = decode_one(&[0x08]).unwrap();
    assert_eq!(r, vec![EVEValue::Integer(0)]);
}

#[test]
fn envelope_length_mismatch_fails() {
    let mut msg = envelope(&[0x08]);
    // Overstate the declared length by one.
    let declared = (msg.len() as u32 - 4) + 1;
    msg[0..4].copy_from_slice(&declared.to_le_bytes());
    assert_eq!(decode_payload(&msg), Err(DecodeError::BadEnvelopeLength));
}

#[test]
fn envelope_missing_marker_fails() {
    let mut msg = envelope(&[0x08]);
    msg[4] = 0x7f;
    assert_eq!(decode_payload(&msg), Err(DecodeError::MissingMarker));
}

#[test]
fn envelope_too_short_fails() {
    assert_eq!(decode_payload(&[0x01, 0x00]), Err(DecodeError::Truncated));
}

#[test]
fn byte_forty_two() {
    let r = decode_one(&[0x06, 0x2a]).unwrap();
    assert_eq!(r, vec![EVEValue::Byte(42)]);
}

#[test]
fn short_string_abc() {
    let r = decode_one(&[0x10, 0x03, b'a', b'b', b'c']).unwrap();
    assert_eq!(r, vec![EVEValue::String(b"abc".to_vec())]);
}

#[test]
fn two_tuple_of_literals() {
    let r = decode_one(&[0x2c, 0x08, 0x09]).unwrap();
    assert_eq!(
        r,
        vec![EVEValue::Tuple(vec![EVEValue::Integer(0), EVEValue::Integer(1)])]
    );
}

#[test]
fn none_opcode() {
    assert_eq!(decode_one(&[0x01]).unwrap(), vec![EVEValue::Null]);
}

#[test]
fn long_long_eight_bytes() {
    let v: i64 = -2;
    let mut body = vec![0x03];
    body.extend_from_slice(&v.to_le_bytes());
    assert_eq!(decode_one(&body).unwrap(), vec![EVEValue::Integer(-2)]);
}

#[test]
fn long_four_bytes_widened() {
    let v: i32 = -123456;
    let mut body = vec![0x04];
    body.extend_from_slice(&v.to_le_bytes());
    assert_eq!(decode_one(&body).unwrap(), vec![EVEValue::Integer(-123456)]);
}

#[test]
fn signed_short_two_bytes() {
    let v: i16 = -300;
    let mut body = vec![0x05];
    body.extend_from_slice(&v.to_le_bytes());
    assert_eq!(decode_one(&body).unwrap(), vec![EVEValue::Short(-300)]);
}

#[test]
fn integer_immediates() {
    assert_eq!(decode_one(&[0x07]).unwrap(), vec![EVEValue::Integer(-1)]);
    assert_eq!(decode_one(&[0x08]).unwrap(), vec![EVEValue::Integer(0)]);
    assert_eq!(decode_one(&[0x09]).unwrap(), vec![EVEValue::Integer(1)]);
}

#[test]
fn real_eight_bytes() {
    let v: f64 = -2.5;
    let mut body = vec![0x0a];
    body.extend_from_slice(&v.to_le_bytes());
    assert_eq!(
        decode_one(&body).unwrap(),
        vec![EVEValue::Float((-2.5f64).to_bits())]
    );
}

#[test]
fn real_zero_immediate() {
    assert_eq!(
        decode_one(&[0x0b]).unwrap(),
        vec![EVEValue::Float(0.0f64.to_bits())]
    );
}

#[test]
fn long_string_same_framing() {
    let r = decode_one(&[0x13, 0x02, b'h', b'i']).unwrap();
    assert_eq!(r, vec![EVEValue::String(b"hi".to_vec())]);
}

#[test]
fn string_table_reference() {
    let r = decode_one(&[0x11, 0x02]).unwrap();
    assert_eq!(r, vec![EVEValue::String(b"age".to_vec())]);
}

#[test]
fn string_table_index_out_of_range_fails() {
    assert_eq!(
        decode_one(&[0x11, 0xf0]),
        Err(DecodeError::InvalidStringTableIndex(0xf0))
    );
}

#[test]
fn ucs2_string_converted_to_utf8() {
    // 'A', U+03B1 (two UTF-8 bytes), U+4E2D (three UTF-8 bytes).
    let units: [u16; 3] = [0x0041, 0x03b1, 0x4e2d];
    let mut body = vec![0x12, 0x03];
    for u in units {
        body.extend_from_slice(&u.to_le_bytes());
    }
    let expected = "A\u{3b1}\u{4e2d}".as_bytes().to_vec();
    assert_eq!(
        decode_one(&body).unwrap(),
        vec![EVEValue::OwnedString(expected)]
    );
}

#[test]
fn ucs2_string_matches_ucs2_crate() {
    let units: [u16; 4] = [0x0068, 0x00e9, 0x20ac, 0xfffd];
    let mut buffer = [0u8; 12];
    let n = ucs2::decode(&units, &mut buffer).unwrap();
    let mut body = vec![0x12, 0x04];
    for u in units {
        body.extend_from_slice(&u.to_le_bytes());
    }
    assert_eq!(
        decode_one(&body).unwrap(),
        vec![EVEValue::OwnedString(buffer[..n].to_vec())]
    );
}

#[test]
fn ucs2_surrogate_unit_fails() {
    let mut body = vec![0x12, 0x01];
    body.extend_from_slice(&0xd800u16.to_le_bytes());
    assert_eq!(decode_one(&body), Err(DecodeError::InvalidUcs2));
}

#[test]
fn utf8_string_validated() {
    let text = "caf\u{e9}";
    let bytes = text.as_bytes();
    let mut body = vec![0x2e, bytes.len() as u8];
    body.extend_from_slice(bytes);
    assert_eq!(
        decode_one(&body).unwrap(),
        vec![EVEValue::OwnedString(bytes.to_vec())]
    );
}

#[test]
fn utf8_invalid_bytes_fail() {
    let body = [0x2e, 0x02, 0xc3, 0x28];
    assert_eq!(decode_one(&body), Err(DecodeError::InvalidUtf8));
}

#[test]
fn counted_tuple() {
    let r = decode_one(&[0x14, 0x03, 0x07, 0x08, 0x09]).unwrap();
    assert_eq!(
        r,
        vec![EVEValue::Tuple(vec![
            EVEValue::Integer(-1),
            EVEValue::Integer(0),
            EVEValue::Integer(1),
        ])]
    );
}

#[test]
fn empty_tuple() {
    assert_eq!(decode_one(&[0x24]).unwrap(), vec![EVEValue::Tuple(vec![])]);
}

#[test]
fn one_tuple() {
    let r = decode_one(&[0x25, 0x06, 0x05]).unwrap();
    assert_eq!(r, vec![EVEValue::Tuple(vec![EVEValue::Byte(5)])]);
}

#[test]
fn object_two_values() {
    let r = decode_one(&[0x17, 0x08, 0x09]).unwrap();
    assert_eq!(
        r,
        vec![EVEValue::Object(
            Box::new(EVEValue::Integer(0)),
            Box::new(EVEValue::Integer(1)),
        )]
    );
}

#[test]
fn substream_nested_body() {
    // Substream payload: marker, counter, one literal-one value.
    let inner = [0x7e, 0x00, 0x00, 0x00, 0x00, 0x09];
    let mut body = vec![0x2b, inner.len() as u8];
    body.extend_from_slice(&inner);
    assert_eq!(
        decode_one(&body).unwrap(),
        vec![EVEValue::SubStream(vec![EVEValue::Integer(1)])]
    );
}

#[test]
fn var_int_single_byte_form_spends_an_extra_byte() {
    // Width 1: the counted byte is followed by one more byte carrying the
    // value, read as unsigned.
    let r = decode_one(&[0x2f, 0x01, 0xaa, 0x2a]).unwrap();
    assert_eq!(r, vec![EVEValue::BigInt(42)]);
}

#[test]
fn var_int_four_bytes() {
    let v: i32 = -7;
    let mut body = vec![0x2f, 0x04];
    body.extend_from_slice(&v.to_le_bytes());
    assert_eq!(decode_one(&body).unwrap(), vec![EVEValue::BigInt(-7)]);
}

#[test]
fn var_int_eight_bytes() {
    let v: i64 = 1 << 40;
    let mut body = vec![0x2f, 0x08];
    body.extend_from_slice(&v.to_le_bytes());
    assert_eq!(decode_one(&body).unwrap(), vec![EVEValue::BigInt(1 << 40)]);
}

#[test]
fn var_int_sixteen_bytes() {
    let v: i128 = -(1i128 << 100);
    let mut body = vec![0x2f, 0x10];
    body.extend_from_slice(&v.to_le_bytes());
    assert_eq!(
        decode_one(&body).unwrap(),
        vec![EVEValue::BigInt(-(1i128 << 100))]
    );
}

#[test]
fn var_int_unsupported_width_fails() {
    let body = [0x2f, 0x03, 0x01, 0x02, 0x03];
    assert_eq!(
        decode_one(&body),
        Err(DecodeError::UnsupportedVarIntWidth(3))
    );
}

#[test]
fn dict_with_duplicate_keys_keeps_later_value() {
    // Two (value, key) pairs whose keys are equal under the order: Byte(1)
    // and Short(1).  Only the later pair's value must remain.
    let body = [
        0x16, 0x02, // dict, two pairs
        0x08, 0x06, 0x01, // value Integer(0), key Byte(1)
        0x09, 0x05, 0x01, 0x00, // value Integer(1), key Short(1)
    ];
    let r = decode_one(&body).unwrap();
    assert_eq!(
        r,
        vec![EVEValue::Dict(vec![(
            HashableEVEValue::Byte(1),
            EVEValue::Integer(1),
        )])]
    );
}

#[test]
fn dict_orders_entries_by_key() {
    let body = [
        0x16, 0x03, // dict, three pairs
        0x08, 0x06, 0x09, // value Integer(0), key Byte(9)
        0x09, 0x01, // value Integer(1), key Null
        0x07, 0x06, 0x02, // value Integer(-1), key Byte(2)
    ];
    let r = decode_one(&body).unwrap();
    assert_eq!(
        r,
        vec![EVEValue::Dict(vec![
            (HashableEVEValue::Null, EVEValue::Integer(1)),
            (HashableEVEValue::Byte(2), EVEValue::Integer(-1)),
            (HashableEVEValue::Byte(9), EVEValue::Integer(0)),
        ])]
    );
}

#[test]
fn dict_with_tuple_key_fails() {
    let body = [
        0x16, 0x01, // dict, one pair
        0x08, 0x24, // value Integer(0), key empty tuple
    ];
    assert_eq!(decode_one(&body), Err(DecodeError::UnhashableKey));
}

#[test]
fn unknown_opcode_fails_whole_decode() {
    assert_eq!(decode_one(&[0x02]), Err(DecodeError::InvalidOpcode(0x02)));
}

#[test]
fn unknown_opcode_after_valid_values_fails_whole_decode() {
    // Two good values, then an unrecognized byte: nothing is returned.
    assert_eq!(
        decode_one(&[0x08, 0x09, 0xee]),
        Err(DecodeError::InvalidOpcode(0xee))
    );
}

#[test]
fn unknown_opcode_nested_fails_whole_decode() {
    assert_eq!(
        decode_one(&[0x2c, 0x08, 0xee]),
        Err(DecodeError::InvalidOpcode(0xee))
    );
}

#[test]
fn truncated_fixed_width_field_fails() {
    assert_eq!(decode_one(&[0x03, 0x01, 0x02]), Err(DecodeError::Truncated));
}

#[test]
fn truncated_string_fails() {
    assert_eq!(decode_one(&[0x10, 0x05, b'a']), Err(DecodeError::Truncated));
}

#[test]
fn nesting_at_limit_decodes() {
    let mut body = vec![0x25; 63];
    body.push(0x08);
    let r = decode_one(&body).unwrap();
    let mut expected = EVEValue::Integer(0);
    for _ in 0..63 {
        expected = EVEValue::Tuple(vec![expected]);
    }
    assert_eq!(r, vec![expected]);
}

#[test]
fn nesting_past_limit_fails() {
    let mut body = vec![0x25; 64];
    body.push(0x08);
    assert_eq!(decode_one(&body), Err(DecodeError::NestingTooDeep));
}

#[test]
fn several_values_in_sequence() {
    let r = decode_one(&[0x08, 0x06, 0x07, 0x01]).unwrap();
    assert_eq!(
        r,
        vec![
            EVEValue::Integer(0),
            EVEValue::Byte(7),
            EVEValue::Null,
        ]
    );
}
