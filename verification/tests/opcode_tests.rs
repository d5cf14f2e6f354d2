use eve_proto::opcodes::EVEOpCode;
use eve_proto::value::EVEValue;
use eve_proto::value::HashableEVEValue;

const ALL_OPCODES: [(EVEOpCode, u8); 23] = [
    (EVEOpCode::Null, 0x01),
    (EVEOpCode::LongLong, 0x03),
    (EVEOpCode::Long, 0x04),
    (EVEOpCode::SignedShort, 0x05),
    (EVEOpCode::Byte, 0x06),
    (EVEOpCode::IntegerNegativeOne, 0x07),
    (EVEOpCode::IntegerZero, 0x08),
    (EVEOpCode::IntegerOne, 0x09),
    (EVEOpCode::Real, 0x0a),
    (EVEOpCode::RealZero, 0x0b),
    (EVEOpCode::ShortString, 0x10),
    (EVEOpCode::StringTableString, 0x11),
    (EVEOpCode::WStringUCS2, 0x12),
    (EVEOpCode::LongString, 0x13),
    (EVEOpCode::Tuple, 0x14),
    (EVEOpCode::Dict, 0x16),
    (EVEOpCode::Object, 0x17),
    (EVEOpCode::EmptyTuple, 0x24),
    (EVEOpCode::OneTuple, 0x25),
    (EVEOpCode::SubStream, 0x2b),
    (EVEOpCode::TwoTuple, 0x2c),
    (EVEOpCode::WStringUTF8, 0x2e),
    (EVEOpCode::VarInteger, 0x2f),
];

#[test]
fn opcode_codes_round_trip() {
    for (op, code) in ALL_OPCODES {
        assert_eq!(op.code(), code);
        assert_eq!(EVEOpCode::from_code(code), Some(op));
    }
}

#[test]
fn unlisted_bytes_name_no_opcode() {
    let known: Vec<u8> = ALL_OPCODES.iter().map(|&(_, c)| c).collect();
    for byte in 0u8..=0xff {
        if !known.contains(&byte) {
            assert_eq!(EVEOpCode::from_code(byte), None);
        }
    }
}

#[test]
fn from_integer_sources() {
    assert_eq!(EVEValue::from(7u8), EVEValue::Byte(7));
    assert_eq!(EVEValue::from(-2i16), EVEValue::Short(-2));
    assert_eq!(EVEValue::from(-70000i32), EVEValue::Integer(-70000));
    assert_eq!(EVEValue::from(1i64 << 40), EVEValue::Integer(1 << 40));
    assert_eq!(HashableEVEValue::from(7u8), HashableEVEValue::Byte(7));
    assert_eq!(HashableEVEValue::from(-2i16), HashableEVEValue::Short(-2));
    assert_eq!(
        HashableEVEValue::from(-70000i32),
        HashableEVEValue::Integer(-70000)
    );
    assert_eq!(
        HashableEVEValue::from(1i64 << 40),
        HashableEVEValue::Integer(1 << 40)
    );
}
