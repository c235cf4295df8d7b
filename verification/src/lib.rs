//! A verified codec for a line-oriented, length-prefixed wire protocol:
//! typed value trees are decoded from byte streams and encoded back to the
//! exact byte sequences the wire grammar mandates.
//!
//! The value model lives in `value`, the stream abstraction in `stream`,
//! the decoder in `decode`, the encoder in `encode`, and the round-trip
//! laws relating the two in `roundtrip`. The command dispatcher built on
//! the codec lives in `command`.

pub mod command;
pub mod decode;
pub mod encode;
pub mod error;
pub mod num;
pub mod roundtrip;
pub mod stream;
pub mod utf8;
pub mod value;
pub mod wire;

pub use command::handle_command;
pub use decode::parse;
pub use decode::read_element;
pub use error::DecodeError;
pub use stream::ByteStream;
pub use value::RespValue;
pub use value::ValueModel;
