//! Decoder for a proprietary, opcode-tagged binary serialization format used
//! by a game network protocol: a length-prefixed, self-describing value
//! encoding.  The library turns an untrusted byte buffer into a tree of typed
//! values, and supplies the cross-type total order under which decoded values
//! serve as dictionary keys.
//!
//! The single entry point is [`decode::decode_payload`], which validates the
//! outer envelope (declared length, marker byte, message counter) and decodes
//! the framed sequence of values.  Every decoding routine is specified against
//! a mathematical model of the wire grammar and verified against it.

pub mod decode;
pub mod dict;
pub mod errors;
pub mod ints;
pub mod opcodes;
pub mod order;
pub mod size;
pub mod string_table;
pub mod text;
pub mod value;
