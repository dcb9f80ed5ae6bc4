//! Metainfo and peer discovery for BitTorrent: a bencode codec, the torrent
//! metainfo model with its info-hash, and the announce request and response
//! of an HTTP tracker.

pub mod bencode;
pub mod byte_buffer;
pub mod peer;
pub mod text;
pub mod torrent;
pub mod tracker;
