//! The decode-side error taxonomy. Every malformed input is reported as one
//! of these inspectable values; decoding never panics.

use vstd::prelude::*;

verus! {

/// Why a decode attempt failed.
#[derive(Debug, Clone, Copy, PartialEq, Eq, Structural)]
pub enum DecodeError {
    /// The leading type-tag byte is not one of the five recognized tags.
    UnknownType,
    /// A line's carriage return was not immediately followed by a line feed,
    /// or a bulk payload was not followed by the two terminator bytes.
    MalformedTerminator,
    /// A line that must be text is not valid UTF-8.
    InvalidEncoding,
    /// An integer reply's line is not a decimal 64-bit signed integer.
    InvalidInteger,
    /// A length or count field is not numeric, or is negative without being
    /// the absence marker.
    InvalidLength,
    /// The stream ended in the middle of a frame.
    UnexpectedEof,
}

} // verus!
