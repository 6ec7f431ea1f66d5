//! A codec for the Redis serialization protocol: typed frames, their exact wire
//! form, and a decoder that works on whatever prefix of a frame has arrived.
//!
//! [`RespEncoder::encode`] writes a frame out; [`RespDecoder::decode`] reads one
//! from the front of a buffer and consumes its bytes, or reports
//! [`RespError::NotComplete`] and leaves the buffer alone. What both do is stated
//! over the functions of [`wire`], and [`laws`] proves how the two fit together.
//! [`cmd`] reads hash commands out of decoded arrays and builds their replies.
//! [`convert`] states what the standard conversions give that the constructors
//! pass their argument through.

pub mod buffer;
pub mod cmd;
pub mod convert;
pub mod decimal;
pub mod decoder;
pub mod encoder;
pub mod error;
pub mod frame;
pub mod laws;
pub mod map;
pub mod scan;
pub mod wire;

pub use decoder::RespDecoder;
pub use encoder::RespEncoder;
pub use error::{ErrorKind, RespError};
pub use frame::{
    BulkString, FrameView, NullBulkString, RespArray, RespDouble, RespFrame, RespNull,
    RespNullArray, RespSet, SimpleError, SimpleString,
};
pub use map::RespMap;
