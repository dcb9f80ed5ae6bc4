//! The record of a torrent and its mathematical model.

use vstd::prelude::*;
use crate::bencode::value::{BenValue, Dict};
use crate::text::{text_from_utf8, utf8_text};

verus! {

/// One file of a torrent of several as mathematics.
pub struct FileView {
    pub length: i64,
    pub md5sum: Option<Seq<u8>>,
    pub path: Seq<Seq<u8>>,
    pub extra: Seq<(Seq<u8>, BenValue)>,
}

pub struct SingleFileView {
    pub piece_length: i64,
    pub pieces: Seq<u8>,
    pub private: Option<i64>,
    pub name: Seq<u8>,
    pub length: i64,
    pub md5sum: Option<Seq<u8>>,
    pub extra: Seq<(Seq<u8>, BenValue)>,
}

pub struct MultipleFileView {
    pub piece_length: i64,
    pub pieces: Seq<u8>,
    pub private: Option<i64>,
    pub name: Seq<u8>,
    pub files: Seq<FileView>,
    pub extra: Seq<(Seq<u8>, BenValue)>,
}

pub enum InfoView {
    SingleFile(SingleFileView),
    MultipleFile(MultipleFileView),
}

pub struct TorrentFileView {
    pub info: InfoView,
    pub announce: Seq<char>,
    pub announce_list: Option<Seq<Seq<Seq<char>>>>,
    pub creation_date: Option<i64>,
    pub comment: Option<Seq<char>>,
    pub created_by: Option<Seq<char>>,
    pub encoding: Option<Seq<char>>,
}

/// The metainfo of a torrent.
#[derive(Debug, Clone, Eq, PartialEq)]
pub struct TorrentFile {
    pub info: Info,
    /// The URL of the tracker.
    pub announce: String,
    /// Tiers of tracker URLs, the first to be tried first.
    pub announce_list: Option<Vec<Vec<String>>>,
    /// Seconds since the Unix epoch.
    pub creation_date: Option<i64>,
    pub comment: Option<String>,
    pub created_by: Option<String>,
    pub encoding: Option<String>,
}

/// The `info` of a torrent of one file. Its byte strings are kept as the
/// bytes that they are; `name` need not be UTF-8.
#[derive(Debug, Clone, Eq, PartialEq)]
pub struct SingleFile {
    pub piece_length: i64,
    /// The SHA-1 digests of the pieces, twenty bytes each.
    pub pieces: Vec<u8>,
    pub private: Option<i64>,
    pub name: Vec<u8>,
    pub length: i64,
    pub md5sum: Option<Vec<u8>>,
    /// What else `info` holds, under keys that have no field here.
    pub extra: Dict,
}

/// The `info` of a torrent of several files. Its byte strings are kept as
/// the bytes that they are; `name` need not be UTF-8.
#[derive(Debug, Clone, Eq, PartialEq)]
pub struct MultipleFile {
    pub piece_length: i64,
    /// The SHA-1 digests of the pieces, twenty bytes each.
    pub pieces: Vec<u8>,
    pub private: Option<i64>,
    pub name: Vec<u8>,
    pub files: Vec<File>,
    /// What else `info` holds, under keys that have no field here.
    pub extra: Dict,
}

/// One file of a torrent of several.
#[derive(Debug, Clone, Eq, PartialEq)]
pub struct File {
    pub length: i64,
    pub md5sum: Option<Vec<u8>>,
    /// The components of the file's path, the directories first.
    pub path: Vec<Vec<u8>>,
    /// What else the file's dictionary holds, under keys that have no field here.
    pub extra: Dict,
}

#[derive(Debug, Clone, Eq, PartialEq)]
pub enum Info {
    SingleFile(SingleFile),
    MultipleFile(MultipleFile),
}

/// The bytes, where there are any.
pub open spec fn optional_bytes(o: Option<Vec<u8>>) -> Option<Seq<u8>> {
    match o {
        Some(b) => Some(b@),
        None => None,
    }
}

/// The byte strings as mathematics.
pub open spec fn byte_strings(v: Seq<Vec<u8>>) -> Seq<Seq<u8>> {
    Seq::new(v.len(), |i: int| v[i]@)
}

impl DeepView for File {
    type V = FileView;

    open spec fn deep_view(&self) -> FileView {
        FileView {
            length: self.length,
            md5sum: optional_bytes(self.md5sum),
            path: byte_strings(self.path@),
            extra: self.extra@,
        }
    }
}

impl View for File {
    type V = FileView;

    open spec fn view(&self) -> FileView {
        self.deep_view()
    }
}

impl View for SingleFile {
    type V = SingleFileView;

    open spec fn view(&self) -> SingleFileView {
        SingleFileView {
            piece_length: self.piece_length,
            pieces: self.pieces@,
            private: self.private,
            name: self.name@,
            length: self.length,
            md5sum: optional_bytes(self.md5sum),
            extra: self.extra@,
        }
    }
}

impl View for MultipleFile {
    type V = MultipleFileView;

    open spec fn view(&self) -> MultipleFileView {
        MultipleFileView {
            piece_length: self.piece_length,
            pieces: self.pieces@,
            private: self.private,
            name: self.name@,
            files: self.files.deep_view(),
            extra: self.extra@,
        }
    }
}

impl View for Info {
    type V = InfoView;

    open spec fn view(&self) -> InfoView {
        match self {
            Info::SingleFile(single) => InfoView::SingleFile(single@),
            Info::MultipleFile(multiple) => InfoView::MultipleFile(multiple@),
        }
    }
}

impl View for TorrentFile {
    type V = TorrentFileView;

    open spec fn view(&self) -> TorrentFileView {
        TorrentFileView {
            info: self.info@,
            announce: self.announce@,
            announce_list: self.announce_list.deep_view(),
            creation_date: self.creation_date,
            comment: self.comment.deep_view(),
            created_by: self.created_by.deep_view(),
            encoding: self.encoding.deep_view(),
        }
    }
}

impl Info {
    /// The name that `info` gives the torrent.
    pub open spec fn name(self) -> Seq<u8> {
        match self {
            Info::SingleFile(single) => single.name@,
            Info::MultipleFile(multiple) => multiple.name@,
        }
    }

    /// The name as text, where its bytes are UTF-8.
    pub fn name_text(&self) -> (text: Option<String>)
        ensures
            match text {
                Some(t) => utf8_text(self.name()) == Some(t@),
                None => utf8_text(self.name()) is None,
            },
    {
        match self {
            Info::SingleFile(single) => text_from_utf8(single.name.as_slice()),
            Info::MultipleFile(multiple) => text_from_utf8(multiple.name.as_slice()),
        }
    }
}

} // verus!
