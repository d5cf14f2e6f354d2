use eve_proto::errors::DecodeError;
use eve_proto::size::decode_size;
use eve_proto::size::encode_size;
use eve_proto::string_table::string_table_entry;
use eve_proto::string_table::STRING_TABLE_LEN;

#[test]
fn small_sizes_round_trip_in_one_byte() {
    for n in [0u32, 1, 7, 100, 254] {
        let enc = encode_size(n);
        assert_eq!(enc.len(), 1);
        let (size, after) = decode_size(&enc, 0, enc.len()).unwrap();
        assert_eq!(size, n as usize);
        assert_eq!(after, 1);
    }
}

#[test]
fn large_sizes_round_trip_in_escape_form() {
    for n in [255u32, 256, 65535, 1 << 20, u32::MAX] {
        let enc = encode_size(n);
        assert_eq!(enc.len(), 5);
        assert_eq!(enc[0], 0xff);
        let (size, after) = decode_size(&enc, 0, enc.len()).unwrap();
        assert_eq!(size, n as usize);
        assert_eq!(after, 5);
    }
}

#[test]
fn escape_form_decodes_small_values_too() {
    // 0xff followed by four bytes spelling 7: the escape form wins even
    // though 7 would fit the one-byte form.
    let bytes = [0xff, 0x07, 0x00, 0x00, 0x00];
    let (size, after) = decode_size(&bytes, 0, 5).unwrap();
    assert_eq!(size, 7);
    assert_eq!(after, 5);
}

#[test]
fn escape_form_little_endian() {
    let bytes = [0xff, 0x01, 0x02, 0x03, 0x04];
    let (size, _) = decode_size(&bytes, 0, 5).unwrap();
    assert_eq!(size, 0x04030201);
}

#[test]
fn size_truncated_fails() {
    assert_eq!(decode_size(&[], 0, 0), Err(DecodeError::Truncated));
    assert_eq!(
        decode_size(&[0xff, 0x01, 0x02], 0, 3),
        Err(DecodeError::Truncated)
    );
}

#[test]
fn string_table_entries_exist_below_length() {
    for i in 0..STRING_TABLE_LEN {
        let entry = string_table_entry(i).unwrap();
        assert!(!entry.is_empty());
    }
    assert_eq!(string_table_entry(STRING_TABLE_LEN), None);
    assert_eq!(string_table_entry(0xff), None);
}

#[test]
fn string_table_first_entry() {
    assert_eq!(string_table_entry(0).unwrap(), b"*corpid".to_vec());
}
