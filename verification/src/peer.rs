//! What is said to a peer: the handshake that opens a connection, and the
//! kinds of message that follow it.

pub mod error;
pub mod handshake;
pub mod message;

pub use crate::peer::error::PeerError;
pub use crate::peer::handshake::{Handshake, PROTOCOL_STRING};
pub use crate::peer::message::MessageValue;
