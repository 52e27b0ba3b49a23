//! Length-prefixed framing of MessagePack values over a byte stream.

pub mod codec;
pub mod error;
pub mod frame;
pub mod stream;
pub mod value;

pub use codec::{Builder, MsgPackCodec};
pub use error::CodecError;
