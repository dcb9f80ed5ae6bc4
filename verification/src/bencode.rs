//! The bencode codec: the value model, the decoder and the canonical encoder.

pub mod convert;
pub mod decimal;
pub mod decode;
pub mod display;
pub mod encode;
pub mod error;
pub mod laws;
pub mod order;
pub mod value;

pub use crate::bencode::error::BencodeError;
pub use crate::bencode::value::{BenObject, BenValue, Dict};
pub use crate::byte_buffer::ByteBuffer;
