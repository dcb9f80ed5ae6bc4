//! What is reported of bytes that are no torrent metainfo.

use vstd::prelude::*;
use crate::bencode::error::BencodeError;

verus! {

/// Why bytes are no torrent metainfo.
#[derive(Debug, Clone, Copy, PartialEq, Eq)]
pub enum TorrentError {
    /// A key that has to be there is missing. Holds the key.
    MissingKey(&'static str),
    /// The value under a key is not of the type, or not of the shape,
    /// that the key asks for. Holds the key.
    WrongType(&'static str),
    /// The root value is no dictionary.
    InvalidTorrent,
    /// The length of `pieces` is no multiple of twenty.
    InvalidPieces,
    /// `files` is there and holds no file.
    EmptyFiles,
    /// The bytes are no bencoded value.
    BenObjectParseError(BencodeError),
    Unknown,
}

} // verus!
