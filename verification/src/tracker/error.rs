//! What is reported of a tracker's answer that names no peers.

use vstd::prelude::*;
use crate::bencode::error::BencodeError;

verus! {

/// Why a tracker's answer names no peers.
#[derive(Debug, Clone, PartialEq, Eq)]
pub enum TrackerError {
    /// The answer is a bencoded value and no dictionary.
    InvalidResponse,
    /// A key that has to be there is missing. Holds the key.
    MissingKey(&'static str),
    /// The value under a key is not of the type that the key asks for.
    /// Holds the key.
    WrongType(&'static str),
    /// The tracker refuses the request. Holds its reason.
    Failure(String),
    /// The length of the compact peer list is no multiple of six.
    InvalidPeers,
    /// The answer is no bencoded value.
    BenObjectParseError(BencodeError),
    Unknown,
}

/// The errors as mathematics.
pub enum TrackerErrorView {
    InvalidResponse,
    MissingKey(&'static str),
    WrongType(&'static str),
    Failure(Seq<char>),
    InvalidPeers,
    BenObjectParseError(BencodeError),
    Unknown,
}

impl DeepView for TrackerError {
    type V = TrackerErrorView;

    open spec fn deep_view(&self) -> TrackerErrorView {
        match self {
            TrackerError::InvalidResponse => TrackerErrorView::InvalidResponse,
            TrackerError::MissingKey(key) => TrackerErrorView::MissingKey(key),
            TrackerError::WrongType(key) => TrackerErrorView::WrongType(key),
            TrackerError::Failure(reason) => TrackerErrorView::Failure(reason@),
            TrackerError::InvalidPeers => TrackerErrorView::InvalidPeers,
            TrackerError::BenObjectParseError(e) => TrackerErrorView::BenObjectParseError(*e),
            TrackerError::Unknown => TrackerErrorView::Unknown,
        }
    }
}

impl View for TrackerError {
    type V = TrackerErrorView;

    open spec fn view(&self) -> TrackerErrorView {
        self.deep_view()
    }
}

} // verus!
