//! The built-in string table: a fixed, ordered list of canonical strings
//! addressable by a one-byte index, used to compress frequently repeated
//! strings out of the wire format.
//!
//! The table is process-wide constant data; an index at or beyond its
//! length is a decode failure.

use vstd::prelude::*;

verus! {

/// The number of entries of the string table.
pub const STRING_TABLE_LEN: u8 = 16;

/// The entry of the string table at `index`, as a byte sequence.
pub open spec fn spec_string_table_entry(index: int) -> Seq<u8> {
    if index == 0 {
        seq![0x2au8, 0x63u8, 0x6fu8, 0x72u8, 0x70u8, 0x69u8, 0x64u8]
    } else if index == 1 {
        seq![0x2au8, 0x6cu8, 0x6fu8, 0x63u8, 0x61u8, 0x74u8, 0x69u8, 0x6fu8, 0x6eu8, 0x69u8, 0x64u8]
    } else if index == 2 {
        seq![0x61u8, 0x67u8, 0x65u8]
    } else if index == 3 {
        seq![0x42u8, 0x75u8, 0x6cu8, 0x6bu8, 0x44u8, 0x61u8, 0x74u8, 0x61u8]
    } else if index == 4 {
        seq![0x63u8, 0x68u8, 0x61u8, 0x6eu8, 0x6eu8, 0x65u8, 0x6cu8]
    } else if index == 5 {
        seq![0x63u8, 0x6fu8, 0x72u8, 0x70u8, 0x72u8, 0x6fu8, 0x6cu8, 0x65u8]
    } else if index == 6 {
        seq![0x64u8, 0x6fu8, 0x67u8, 0x6du8, 0x61u8, 0x49u8, 0x44u8]
    } else if index == 7 {
        seq![0x69u8, 0x74u8, 0x65u8, 0x6du8, 0x49u8, 0x44u8]
    } else if index == 8 {
        seq![0x6cu8, 0x6fu8, 0x63u8, 0x61u8, 0x74u8, 0x69u8, 0x6fu8, 0x6eu8, 0x49u8, 0x44u8]
    } else if index == 9 {
        seq![0x6du8, 0x61u8, 0x63u8, 0x68u8, 0x6fu8, 0x4eu8, 0x65u8, 0x74u8]
    } else if index == 10 {
        seq![0x6du8, 0x6fu8, 0x64u8, 0x65u8]
    } else if index == 11 {
        seq![0x6fu8, 0x77u8, 0x6eu8, 0x65u8, 0x72u8, 0x49u8, 0x44u8]
    } else if index == 12 {
        seq![0x73u8, 0x65u8, 0x73u8, 0x73u8, 0x69u8, 0x6fu8, 0x6eu8, 0x49u8, 0x44u8]
    } else if index == 13 {
        seq![0x73u8, 0x6fu8, 0x6cu8, 0x61u8, 0x72u8, 0x53u8, 0x79u8, 0x73u8, 0x74u8, 0x65u8, 0x6du8]
    } else if index == 14 {
        seq![0x74u8, 0x79u8, 0x70u8, 0x65u8, 0x49u8, 0x44u8]
    } else if index == 15 {
        seq![0x75u8, 0x73u8, 0x65u8, 0x72u8, 0x49u8, 0x44u8]
    } else {
        Seq::empty()
    }
}

/// Looks an index up in the string table, yielding a fresh copy of the
/// entry's bytes, or nothing when the index lies beyond the table.
pub fn string_table_entry(index: u8) -> (r: Option<Vec<u8>>)
    ensures
        match r {
            Some(v) => index < STRING_TABLE_LEN && v@ == spec_string_table_entry(index as int),
            None => index >= STRING_TABLE_LEN,
        },
{
    let e: Vec<u8> = match index {
        0 => vec![0x2a, 0x63, 0x6f, 0x72, 0x70, 0x69, 0x64],
        1 => vec![0x2a, 0x6c, 0x6f, 0x63, 0x61, 0x74, 0x69, 0x6f, 0x6e, 0x69, 0x64],
        2 => vec![0x61, 0x67, 0x65],
        3 => vec![0x42, 0x75, 0x6c, 0x6b, 0x44, 0x61, 0x74, 0x61],
        4 => vec![0x63, 0x68, 0x61, 0x6e, 0x6e, 0x65, 0x6c],
        5 => vec![0x63, 0x6f, 0x72, 0x70, 0x72, 0x6f, 0x6c, 0x65],
        6 => vec![0x64, 0x6f, 0x67, 0x6d, 0x61, 0x49, 0x44],
        7 => vec![0x69, 0x74, 0x65, 0x6d, 0x49, 0x44],
        8 => vec![0x6c, 0x6f, 0x63, 0x61, 0x74, 0x69, 0x6f, 0x6e, 0x49, 0x44],
        9 => vec![0x6d, 0x61, 0x63, 0x68, 0x6f, 0x4e, 0x65, 0x74],
        10 => vec![0x6d, 0x6f, 0x64, 0x65],
        11 => vec![0x6f, 0x77, 0x6e, 0x65, 0x72, 0x49, 0x44],
        12 => vec![0x73, 0x65, 0x73, 0x73, 0x69, 0x6f, 0x6e, 0x49, 0x44],
        13 => vec![0x73, 0x6f, 0x6c, 0x61, 0x72, 0x53, 0x79, 0x73, 0x74, 0x65, 0x6d],
        14 => vec![0x74, 0x79, 0x70, 0x65, 0x49, 0x44],
        15 => vec![0x75, 0x73, 0x65, 0x72, 0x49, 0x44],
        _ => {
            return None;
        },
    };
    proof {
        assert(e@ =~= spec_string_table_entry(index as int));
    }
    Some(e)
}

} // verus!
