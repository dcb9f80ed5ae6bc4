//! The announce to an HTTP tracker: the request that asks for peers, and the
//! response that names them.

pub mod error;
pub mod model;
pub mod request;
pub mod response;

pub use crate::tracker::error::TrackerError;
pub use crate::tracker::model::{Event, Host, Peer, PeerId, Request, Response, Tracker};
