//! Byte constants of the wire grammar: the five type tags and the two-byte
//! line terminator.

use vstd::prelude::*;

verus! {

/// Carriage return, first byte of the terminator.
pub const CR: u8 = 13;
/// Line feed, second byte of the terminator.
pub const LF: u8 = 10;
/// Tag of a simple status line.
pub const TAG_SIMPLE: u8 = 43;
/// Tag of a protocol-level error line.
pub const TAG_ERROR: u8 = 45;
/// Tag of an integer reply.
pub const TAG_INTEGER: u8 = 58;
/// Tag of a length-prefixed bulk payload.
pub const TAG_BULK: u8 = 36;
/// Tag of an aggregate (array) of nested values.
pub const TAG_ARRAY: u8 = 42;

/// The two-byte CR LF terminator as a sequence.
pub open spec fn crlf() -> Seq<u8> {
    seq![CR, LF]
}

} // verus!
