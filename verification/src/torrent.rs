//! The metainfo of a torrent: the typed record that a `.torrent` file
//! holds, and the info-hash that names its content.

pub mod error;
pub mod hash;
pub mod laws;
pub mod model;
pub mod parser;

pub use crate::torrent::error::TorrentError;
pub use crate::torrent::hash::Sha1Hash;
pub use crate::torrent::model::{File, Info, MultipleFile, SingleFile, TorrentFile};
