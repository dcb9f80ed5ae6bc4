//! From a bencoded value to the record of a torrent.

use vstd::prelude::*;
use vstd::string::StringSliceAdditionalSpecFns;
use crate::bencode::decode::decode;
use crate::bencode::value::{
    dict_find, dict_get, dict_remove, lemma_dict_find_bounds, lemma_view, list_view, BenObject,
    BenValue, Dict,
};
use crate::text::{text_from_utf8, utf8_text};
use crate::torrent::error::TorrentError;
use crate::torrent::hash::info_value;
use crate::torrent::laws::law_info_written;
use crate::torrent::model::{
    byte_strings, optional_bytes, File, FileView, Info, InfoView, MultipleFile, MultipleFileView,
    SingleFile, SingleFileView,
    TorrentFile, TorrentFileView,
};

verus! {

/// The text under `name`, where the key is there.
///
/// - `WrongType` with the key where the value is no byte string, or one
///   that is no UTF-8.
pub open spec fn text_at(d: Seq<(Seq<u8>, BenValue)>, name: &'static str) -> Result<
    Option<Seq<char>>,
    TorrentError,
> {
    match dict_get(d, name.spec_bytes()) {
        None => Ok(None),
        Some(BenValue::String(b)) => match utf8_text(b) {
            Some(t) => Ok(Some(t)),
            None => Err(TorrentError::WrongType(name)),
        },
        Some(_) => Err(TorrentError::WrongType(name)),
    }
}

/// The integer under `name`, where the key is there.
///
/// - `WrongType` with the key where the value is no integer.
pub open spec fn int_at(d: Seq<(Seq<u8>, BenValue)>, name: &'static str) -> Result<
    Option<i64>,
    TorrentError,
> {
    match dict_get(d, name.spec_bytes()) {
        None => Ok(None),
        Some(BenValue::Int(i)) => Ok(Some(i)),
        Some(_) => Err(TorrentError::WrongType(name)),
    }
}

/// What was found under a key that has to be there.
///
/// - `MissingKey` with the key where nothing was found.
pub open spec fn required<T>(found: Result<Option<T>, TorrentError>, name: &'static str) -> Result<
    T,
    TorrentError,
> {
    match found {
        Err(e) => Err(e),
        Ok(None) => Err(TorrentError::MissingKey(name)),
        Ok(Some(x)) => Ok(x),
    }
}

/// The bytes under `name`, where the key is there.
///
/// - `WrongType` with the key where the value is no byte string.
pub open spec fn bytes_at(d: Seq<(Seq<u8>, BenValue)>, name: &'static str) -> Result<
    Option<Seq<u8>>,
    TorrentError,
> {
    match dict_get(d, name.spec_bytes()) {
        None => Ok(None),
        Some(BenValue::String(b)) => Ok(Some(b)),
        Some(_) => Err(TorrentError::WrongType(name)),
    }
}

/// The value is a byte string in UTF-8.
pub open spec fn is_text(v: BenValue) -> bool {
    v matches BenValue::String(b) && utf8_text(b) is Some
}

/// The text of a byte string in UTF-8.
pub open spec fn text_of(v: BenValue) -> Seq<char> {
    utf8_text(v->String_0)->0
}

/// The texts of a list of byte strings.
///
/// - `WrongType` with the key where an item is no byte string in UTF-8.
pub open spec fn texts_of(l: Seq<BenValue>, name: &'static str) -> Result<
    Seq<Seq<char>>,
    TorrentError,
> {
    if forall|i: int| 0 <= i < l.len() ==> is_text(#[trigger] l[i]) {
        Ok(Seq::new(l.len(), |i: int| text_of(l[i])))
    } else {
        Err(TorrentError::WrongType(name))
    }
}

/// The byte strings of a list, as the bytes that they are.
///
/// - `WrongType` with the key where an item is no byte string.
pub open spec fn byte_strings_of(l: Seq<BenValue>, name: &'static str) -> Result<
    Seq<Seq<u8>>,
    TorrentError,
> {
    if forall|i: int| 0 <= i < l.len() ==> (#[trigger] l[i]) is String {
        Ok(Seq::new(l.len(), |i: int| l[i]->String_0))
    } else {
        Err(TorrentError::WrongType(name))
    }
}

/// One tier of `announce-list`: the URLs of a list of byte strings.
///
/// - `WrongType("announce-list")` where the value is no list of byte
///   strings in UTF-8.
pub open spec fn tier_of(v: BenValue) -> Result<Seq<Seq<char>>, TorrentError> {
    match v {
        BenValue::List(l) => texts_of(l, "announce-list"),
        _ => Err(TorrentError::WrongType("announce-list")),
    }
}

/// The tiers of a list of lists.
pub open spec fn tiers_of(l: Seq<BenValue>) -> Result<Seq<Seq<Seq<char>>>, TorrentError> {
    if forall|i: int| 0 <= i < l.len() ==> (#[trigger] tier_of(l[i])) is Ok {
        Ok(Seq::new(l.len(), |i: int| tier_of(l[i])->Ok_0))
    } else {
        Err(TorrentError::WrongType("announce-list"))
    }
}

/// The tiers under `announce-list`, where the key is there.
///
/// - `WrongType("announce-list")` where the value is no list of lists of
///   byte strings in UTF-8.
pub open spec fn announce_list_of(d: Seq<(Seq<u8>, BenValue)>) -> Result<
    Option<Seq<Seq<Seq<char>>>>,
    TorrentError,
> {
    match dict_get(d, "announce-list".spec_bytes()) {
        None => Ok(None),
        Some(BenValue::List(l)) => match tiers_of(l) {
            Ok(tiers) => Ok(Some(tiers)),
            Err(e) => Err(e),
        },
        Some(_) => Err(TorrentError::WrongType("announce-list")),
    }
}

/// The digests under `pieces`.
///
/// - `MissingKey("pieces")` where the key is not there;
/// - `WrongType("pieces")` where the value is no byte string;
/// - `InvalidPieces` where its length is no multiple of twenty.
pub open spec fn pieces_of(d: Seq<(Seq<u8>, BenValue)>) -> Result<Seq<u8>, TorrentError> {
    match dict_get(d, "pieces".spec_bytes()) {
        None => Err(TorrentError::MissingKey("pieces")),
        Some(BenValue::String(b)) => if b.len() % 20 == 0 {
            Ok(b)
        } else {
            Err(TorrentError::InvalidPieces)
        },
        Some(_) => Err(TorrentError::WrongType("pieces")),
    }
}

/// The components under `path`, as the bytes that they are.
///
/// - `MissingKey("path")` where the key is not there;
/// - `WrongType("path")` where the value is no list of byte strings, or
///   an empty one.
pub open spec fn path_of(d: Seq<(Seq<u8>, BenValue)>) -> Result<Seq<Seq<u8>>, TorrentError> {
    match dict_get(d, "path".spec_bytes()) {
        None => Err(TorrentError::MissingKey("path")),
        Some(BenValue::List(l)) => if l.len() == 0 {
            Err(TorrentError::WrongType("path"))
        } else {
            byte_strings_of(l, "path")
        },
        Some(_) => Err(TorrentError::WrongType("path")),
    }
}

/// What a file's dictionary holds besides `length`, `md5sum` and `path`.
pub open spec fn file_extra(d: Seq<(Seq<u8>, BenValue)>) -> Seq<(Seq<u8>, BenValue)> {
    dict_remove(
        dict_remove(dict_remove(d, "length".spec_bytes()), "md5sum".spec_bytes()),
        "path".spec_bytes(),
    )
}

/// What `info` holds besides `name`, `piece length`, `pieces` and `private`.
pub open spec fn common_extra(d: Seq<(Seq<u8>, BenValue)>) -> Seq<(Seq<u8>, BenValue)> {
    dict_remove(
        dict_remove(
            dict_remove(dict_remove(d, "name".spec_bytes()), "piece length".spec_bytes()),
            "pieces".spec_bytes(),
        ),
        "private".spec_bytes(),
    )
}

/// What the `info` of one file holds besides what has a field: all but
/// `name`, `piece length`, `pieces`, `private`, `length` and `md5sum`.
pub open spec fn single_extra(d: Seq<(Seq<u8>, BenValue)>) -> Seq<(Seq<u8>, BenValue)> {
    dict_remove(dict_remove(common_extra(d), "length".spec_bytes()), "md5sum".spec_bytes())
}

/// What the `info` of several files holds besides what has a field: all
/// but `name`, `piece length`, `pieces`, `private` and `files`.
pub open spec fn multiple_extra(d: Seq<(Seq<u8>, BenValue)>) -> Seq<(Seq<u8>, BenValue)> {
    dict_remove(common_extra(d), "files".spec_bytes())
}

/// One file of a torrent of several: its `length`, its `md5sum` where it
/// has one, its `path`, and whatever else its dictionary holds. The first
/// of the three that fails decides the error.
///
/// - `WrongType("files")` where the value is no dictionary.
pub open spec fn file_of(v: BenValue) -> Result<FileView, TorrentError> {
    match v {
        BenValue::Dict(d) => {
            let length = required(int_at(d, "length"), "length");
            let md5sum = bytes_at(d, "md5sum");
            let path = path_of(d);
            if length is Err {
                Err(length->Err_0)
            } else if md5sum is Err {
                Err(md5sum->Err_0)
            } else if path is Err {
                Err(path->Err_0)
            } else {
                Ok(
                    FileView {
                        length: length->Ok_0,
                        md5sum: md5sum->Ok_0,
                        path: path->Ok_0,
                        extra: file_extra(d),
                    },
                )
            }
        },
        _ => Err(TorrentError::WrongType("files")),
    }
}

/// The files of a list, with the error of the first that is none.
pub open spec fn files_of(l: Seq<BenValue>) -> Result<Seq<FileView>, TorrentError>
    decreases l.len(),
{
    if l.len() == 0 {
        Ok(Seq::empty())
    } else {
        match files_of(l.drop_last()) {
            Err(e) => Err(e),
            Ok(files) => match file_of(l.last()) {
                Err(e) => Err(e),
                Ok(file) => Ok(files.push(file)),
            },
        }
    }
}

/// The files of the value under `files`.
///
/// - `WrongType("files")` where the value is no list;
/// - `EmptyFiles` where the list is empty.
pub open spec fn file_list_of(v: BenValue) -> Result<Seq<FileView>, TorrentError> {
    match v {
        BenValue::List(l) => if l.len() == 0 {
            Err(TorrentError::EmptyFiles)
        } else {
            files_of(l)
        },
        _ => Err(TorrentError::WrongType("files")),
    }
}

/// The `info` of a torrent: `name`, `piece length`, `pieces` and `private`,
/// and then the files where `files` is there, else `length` and `md5sum`.
/// The first of them that fails decides the error. What `info` holds under
/// other keys is kept as it is.
pub open spec fn info_of(d: Seq<(Seq<u8>, BenValue)>) -> Result<InfoView, TorrentError> {
    let name = required(bytes_at(d, "name"), "name");
    let piece_length = required(int_at(d, "piece length"), "piece length");
    let pieces = pieces_of(d);
    let private = int_at(d, "private");
    if name is Err {
        Err(name->Err_0)
    } else if piece_length is Err {
        Err(piece_length->Err_0)
    } else if pieces is Err {
        Err(pieces->Err_0)
    } else if private is Err {
        Err(private->Err_0)
    } else {
        match dict_get(d, "files".spec_bytes()) {
            Some(list) => match file_list_of(list) {
                Err(e) => Err(e),
                Ok(files) => Ok(
                    InfoView::MultipleFile(
                        MultipleFileView {
                            piece_length: piece_length->Ok_0,
                            pieces: pieces->Ok_0,
                            private: private->Ok_0,
                            name: name->Ok_0,
                            files,
                            extra: multiple_extra(d),
                        },
                    ),
                ),
            },
            None => {
                let length = required(int_at(d, "length"), "length");
                let md5sum = bytes_at(d, "md5sum");
                if length is Err {
                    Err(length->Err_0)
                } else if md5sum is Err {
                    Err(md5sum->Err_0)
                } else {
                    Ok(
                        InfoView::SingleFile(
                            SingleFileView {
                                piece_length: piece_length->Ok_0,
                                pieces: pieces->Ok_0,
                                private: private->Ok_0,
                                name: name->Ok_0,
                                length: length->Ok_0,
                                md5sum: md5sum->Ok_0,
                                extra: single_extra(d),
                            },
                        ),
                    )
                }
            },
        }
    }
}

/// The `info` under the key of that name.
///
/// - `MissingKey("info")` where the key is not there;
/// - `WrongType("info")` where the value is no dictionary.
pub open spec fn info_at(d: Seq<(Seq<u8>, BenValue)>) -> Result<InfoView, TorrentError> {
    match dict_get(d, "info".spec_bytes()) {
        None => Err(TorrentError::MissingKey("info")),
        Some(BenValue::Dict(info)) => info_of(info),
        Some(_) => Err(TorrentError::WrongType("info")),
    }
}

/// The value under `info` in the bytes of a `.torrent` file.
pub open spec fn source_info(bytes: Seq<u8>) -> Option<BenValue> {
    match decode(bytes) {
        Ok(BenValue::Dict(root)) => dict_get(root, "info".spec_bytes()),
        _ => None,
    }
}

/// The metainfo that a bencoded value holds: `info`, `announce`,
/// `announce-list`, `creation date`, `comment`, `created by` and
/// `encoding`. The first of them that fails decides the error.
///
/// - `InvalidTorrent` where the value is no dictionary.
pub open spec fn torrent_of(v: BenValue) -> Result<TorrentFileView, TorrentError> {
    match v {
        BenValue::Dict(d) => {
            let info = info_at(d);
            let announce = required(text_at(d, "announce"), "announce");
            let announce_list = announce_list_of(d);
            let creation_date = int_at(d, "creation date");
            let comment = text_at(d, "comment");
            let created_by = text_at(d, "created by");
            let encoding = text_at(d, "encoding");
            if info is Err {
                Err(info->Err_0)
            } else if announce is Err {
                Err(announce->Err_0)
            } else if announce_list is Err {
                Err(announce_list->Err_0)
            } else if creation_date is Err {
                Err(creation_date->Err_0)
            } else if comment is Err {
                Err(comment->Err_0)
            } else if created_by is Err {
                Err(created_by->Err_0)
            } else if encoding is Err {
                Err(encoding->Err_0)
            } else {
                Ok(
                    TorrentFileView {
                        info: info->Ok_0,
                        announce: announce->Ok_0,
                        announce_list: announce_list->Ok_0,
                        creation_date: creation_date->Ok_0,
                        comment: comment->Ok_0,
                        created_by: created_by->Ok_0,
                        encoding: encoding->Ok_0,
                    },
                )
            }
        },
        _ => Err(TorrentError::InvalidTorrent),
    }
}

/// The metainfo that the bytes of a `.torrent` file hold.
///
/// - `BenObjectParseError` with the codec's error where the bytes are no
///   bencoded value.
pub open spec fn parse_torrent(bytes: Seq<u8>) -> Result<TorrentFileView, TorrentError> {
    match decode(bytes) {
        Err(e) => Err(TorrentError::BenObjectParseError(e)),
        Ok(v) => torrent_of(v),
    }
}

/// The result is what the model says: the value with that view, or that error.
pub open spec fn agrees<T: DeepView>(res: Result<T, TorrentError>, model: Result<
    T::V,
    TorrentError,
>) -> bool {
    match res {
        Ok(x) => model == Ok::<T::V, TorrentError>(x.deep_view()),
        Err(e) => model == Err::<T::V, TorrentError>(e),
    }
}

/// The result is what the model says: the value with that view, or that error.
pub open spec fn agrees_view<T: View>(res: Result<T, TorrentError>, model: Result<
    T::V,
    TorrentError,
>) -> bool {
    match res {
        Ok(x) => model == Ok::<T::V, TorrentError>(x@),
        Err(e) => model == Err::<T::V, TorrentError>(e),
    }
}

/// The result is what the model says: those bytes, or that error.
pub open spec fn agrees_bytes(res: Result<Vec<u8>, TorrentError>, model: Result<
    Seq<u8>,
    TorrentError,
>) -> bool {
    match res {
        Ok(b) => model == Ok::<Seq<u8>, TorrentError>(b@),
        Err(e) => model == Err::<Seq<u8>, TorrentError>(e),
    }
}

/// The result is what the model says: those bytes or none, or that error.
pub open spec fn agrees_optional_bytes(res: Result<Option<Vec<u8>>, TorrentError>, model: Result<
    Option<Seq<u8>>,
    TorrentError,
>) -> bool {
    match res {
        Ok(o) => model == Ok::<Option<Seq<u8>>, TorrentError>(optional_bytes(o)),
        Err(e) => model == Err::<Option<Seq<u8>>, TorrentError>(e),
    }
}

/// The result is what the model says: those byte strings, or that error.
pub open spec fn agrees_byte_strings(res: Result<Vec<Vec<u8>>, TorrentError>, model: Result<
    Seq<Seq<u8>>,
    TorrentError,
>) -> bool {
    match res {
        Ok(v) => model == Ok::<Seq<Seq<u8>>, TorrentError>(byte_strings(v@)),
        Err(e) => model == Err::<Seq<Seq<u8>>, TorrentError>(e),
    }
}

impl TorrentFile {
    /// Reads the metainfo of a `.torrent` file.
    ///
    /// What is read keeps `info` whole: written again, it is the value that
    /// stands under `info` in the bytes.
    pub fn parse(bytes: &[u8]) -> (res: Result<TorrentFile, TorrentError>)
        ensures
            agrees_view(res, parse_torrent(bytes@)),
            res matches Ok(t) ==> source_info(bytes@) == Some(info_value(t@.info)),
    {
        let obj = match BenObject::from_bytes(bytes) {
            Ok(obj) => obj,
            Err(e) => {
                return Err(TorrentError::BenObjectParseError(e));
            },
        };
        proof {
            lemma_view(obj);
        }
        match &obj {
            BenObject::Dict(dict) => {
                let info = match Self::info(dict) {
                    Ok(x) => x,
                    Err(e) => {
                        return Err(e);
                    },
                };
                proof {
                    let root = dict@;
                    lemma_dict_find_bounds(root, "info".spec_bytes());
                    let at = dict_find(root, "info".spec_bytes());
                    assert(root[at].1.wf());
                    law_info_written(root[at].1->Dict_0);
                }
                let announce = match Self::announce(dict) {
                    Ok(x) => x,
                    Err(e) => {
                        return Err(e);
                    },
                };
                let announce_list = match Self::announce_list(dict) {
                    Ok(x) => x,
                    Err(e) => {
                        return Err(e);
                    },
                };
                let creation_date = match Self::creation_date(dict) {
                    Ok(x) => x,
                    Err(e) => {
                        return Err(e);
                    },
                };
                let comment = match Self::comment(dict) {
                    Ok(x) => x,
                    Err(e) => {
                        return Err(e);
                    },
                };
                let created_by = match Self::created_by(dict) {
                    Ok(x) => x,
                    Err(e) => {
                        return Err(e);
                    },
                };
                let encoding = match Self::encoding(dict) {
                    Ok(x) => x,
                    Err(e) => {
                        return Err(e);
                    },
                };
                Ok(
                    TorrentFile {
                        info,
                        announce,
                        announce_list,
                        creation_date,
                        comment,
                        created_by,
                        encoding,
                    },
                )
            },
            _ => Err(TorrentError::InvalidTorrent),
        }
    }

    fn optional_text(dict: &Dict, name: &'static str) -> (res: Result<
        Option<String>,
        TorrentError,
    >)
        ensures
            agrees(res, text_at(dict@, name)),
    {
        match dict.get(name.as_bytes()) {
            None => Ok(None),
            Some(obj) => {
                proof {
                    lemma_view(*obj);
                }
                match obj {
                    BenObject::String(bytes) => match text_from_utf8(bytes.as_slice()) {
                        Some(text) => Ok(Some(text)),
                        None => Err(TorrentError::WrongType(name)),
                    },
                    _ => Err(TorrentError::WrongType(name)),
                }
            },
        }
    }

    fn optional_int(dict: &Dict, name: &'static str) -> (res: Result<Option<i64>, TorrentError>)
        ensures
            agrees(res, int_at(dict@, name)),
    {
        match dict.get(name.as_bytes()) {
            None => Ok(None),
            Some(obj) => {
                proof {
                    lemma_view(*obj);
                }
                match obj {
                    BenObject::Int(i) => Ok(Some(*i)),
                    _ => Err(TorrentError::WrongType(name)),
                }
            },
        }
    }

    fn required_text(dict: &Dict, name: &'static str) -> (res: Result<String, TorrentError>)
        ensures
            agrees(res, required(text_at(dict@, name), name)),
    {
        match Self::optional_text(dict, name) {
            Ok(Some(text)) => Ok(text),
            Ok(None) => Err(TorrentError::MissingKey(name)),
            Err(e) => Err(e),
        }
    }

    fn required_int(dict: &Dict, name: &'static str) -> (res: Result<i64, TorrentError>)
        ensures
            agrees(res, required(int_at(dict@, name), name)),
    {
        match Self::optional_int(dict, name) {
            Ok(Some(i)) => Ok(i),
            Ok(None) => Err(TorrentError::MissingKey(name)),
            Err(e) => Err(e),
        }
    }

    fn optional_bytes_at(dict: &Dict, name: &'static str) -> (res: Result<
        Option<Vec<u8>>,
        TorrentError,
    >)
        ensures
            agrees_optional_bytes(res, bytes_at(dict@, name)),
    {
        match dict.get(name.as_bytes()) {
            None => Ok(None),
            Some(obj) => {
                proof {
                    lemma_view(*obj);
                }
                match obj {
                    BenObject::String(bytes) => Ok(Some(bytes.clone())),
                    _ => Err(TorrentError::WrongType(name)),
                }
            },
        }
    }

    fn byte_strings(list: &Vec<BenObject>, name: &'static str) -> (res: Result<
        Vec<Vec<u8>>,
        TorrentError,
    >)
        ensures
            agrees_byte_strings(res, byte_strings_of(list_view(list@), name)),
    {
        let ghost items = list_view(list@);
        let mut strings: Vec<Vec<u8>> = Vec::new();
        let mut i: usize = 0;
        while i < list.len()
            invariant
                0 <= i <= list@.len(),
                items == list_view(list@),
                strings@.len() == i,
                forall|j: int| 0 <= j < i ==> (#[trigger] items[j]) is String,
                forall|j: int| 0 <= j < i ==> (#[trigger] strings@[j])@ == items[j]->String_0,
            decreases list@.len() - i,
        {
            proof {
                lemma_view(list@[i as int]);
            }
            match &list[i] {
                BenObject::String(bytes) => {
                    strings.push(bytes.clone());
                },
                _ => {
                    assert(!(items[i as int] is String));
                    return Err(TorrentError::WrongType(name));
                },
            }
            i += 1;
        }
        assert(byte_strings(strings@) =~= Seq::new(items.len(), |i: int| items[i]->String_0));
        Ok(strings)
    }

    fn texts(list: &Vec<BenObject>, name: &'static str) -> (res: Result<Vec<String>, TorrentError>)
        ensures
            agrees(res, texts_of(list_view(list@), name)),
    {
        let ghost items = list_view(list@);
        let mut texts: Vec<String> = Vec::new();
        let mut i: usize = 0;
        while i < list.len()
            invariant
                0 <= i <= list@.len(),
                items == list_view(list@),
                texts@.len() == i,
                forall|j: int| 0 <= j < i ==> is_text(#[trigger] items[j]),
                forall|j: int| 0 <= j < i ==> (#[trigger] texts@[j])@ == text_of(items[j]),
            decreases list@.len() - i,
        {
            proof {
                lemma_view(list@[i as int]);
            }
            match &list[i] {
                BenObject::String(bytes) => match text_from_utf8(bytes.as_slice()) {
                    Some(text) => {
                        texts.push(text);
                    },
                    None => {
                        assert(!is_text(items[i as int]));
                        return Err(TorrentError::WrongType(name));
                    },
                },
                _ => {
                    assert(!is_text(items[i as int]));
                    return Err(TorrentError::WrongType(name));
                },
            }
            i += 1;
        }
        assert(texts.deep_view() =~= Seq::new(items.len(), |i: int| text_of(items[i])));
        Ok(texts)
    }

    fn announce(dict: &Dict) -> (res: Result<String, TorrentError>)
        ensures
            agrees(res, required(text_at(dict@, "announce"), "announce")),
    {
        Self::required_text(dict, "announce")
    }

    fn creation_date(dict: &Dict) -> (res: Result<Option<i64>, TorrentError>)
        ensures
            agrees(res, int_at(dict@, "creation date")),
    {
        Self::optional_int(dict, "creation date")
    }

    fn comment(dict: &Dict) -> (res: Result<Option<String>, TorrentError>)
        ensures
            agrees(res, text_at(dict@, "comment")),
    {
        Self::optional_text(dict, "comment")
    }

    fn created_by(dict: &Dict) -> (res: Result<Option<String>, TorrentError>)
        ensures
            agrees(res, text_at(dict@, "created by")),
    {
        Self::optional_text(dict, "created by")
    }

    fn encoding(dict: &Dict) -> (res: Result<Option<String>, TorrentError>)
        ensures
            agrees(res, text_at(dict@, "encoding")),
    {
        Self::optional_text(dict, "encoding")
    }

    fn announce_list(dict: &Dict) -> (res: Result<Option<Vec<Vec<String>>>, TorrentError>)
        ensures
            agrees(res, announce_list_of(dict@)),
    {
        match dict.get("announce-list".as_bytes()) {
            None => Ok(None),
            Some(obj) => {
                proof {
                    lemma_view(*obj);
                }
                match obj {
                    BenObject::List(list) => {
                        let ghost items = list_view(list@);
                        let mut announces: Vec<Vec<String>> = Vec::new();
                        let mut i: usize = 0;
                        while i < list.len()
                            invariant
                                0 <= i <= list@.len(),
                                items == list_view(list@),
                                dict_get(dict@, "announce-list".spec_bytes()) == Some(
                                    BenValue::List(items),
                                ),
                                announces@.len() == i,
                                forall|j: int| 0 <= j < i ==> (#[trigger] tier_of(items[j])) is Ok,
                                forall|j: int|
                                    0 <= j < i ==> (#[trigger] announces@[j]).deep_view()
                                        == tier_of(items[j])->Ok_0,
                            decreases list@.len() - i,
                        {
                            match Self::announce_list_sub(&list[i]) {
                                Ok(tier) => {
                                    announces.push(tier);
                                },
                                Err(e) => {
                                    assert(tier_of(items[i as int]) is Err);
                                    return Err(e);
                                },
                            }
                            i += 1;
                        }
                        assert(announces.deep_view() =~= Seq::new(
                            items.len(),
                            |i: int| tier_of(items[i])->Ok_0,
                        ));
                        Ok(Some(announces))
                    },
                    _ => Err(TorrentError::WrongType("announce-list")),
                }
            },
        }
    }

    fn announce_list_sub(obj: &BenObject) -> (res: Result<Vec<String>, TorrentError>)
        ensures
            agrees(res, tier_of(obj@)),
            res matches Err(e) ==> e == TorrentError::WrongType("announce-list"),
    {
        proof {
            lemma_view(*obj);
        }
        match obj {
            BenObject::List(list) => Self::texts(list, "announce-list"),
            _ => Err(TorrentError::WrongType("announce-list")),
        }
    }

    fn name(dict: &Dict) -> (res: Result<Vec<u8>, TorrentError>)
        ensures
            agrees_bytes(res, required(bytes_at(dict@, "name"), "name")),
    {
        match Self::optional_bytes_at(dict, "name") {
            Ok(Some(name)) => Ok(name),
            Ok(None) => Err(TorrentError::MissingKey("name")),
            Err(e) => Err(e),
        }
    }

    fn piece_length(dict: &Dict) -> (res: Result<i64, TorrentError>)
        ensures
            agrees(res, required(int_at(dict@, "piece length"), "piece length")),
    {
        Self::required_int(dict, "piece length")
    }

    fn length(dict: &Dict) -> (res: Result<i64, TorrentError>)
        ensures
            agrees(res, required(int_at(dict@, "length"), "length")),
    {
        Self::required_int(dict, "length")
    }

    fn md5sum(dict: &Dict) -> (res: Result<Option<Vec<u8>>, TorrentError>)
        ensures
            agrees_optional_bytes(res, bytes_at(dict@, "md5sum")),
    {
        Self::optional_bytes_at(dict, "md5sum")
    }

    fn path(dict: &Dict) -> (res: Result<Vec<Vec<u8>>, TorrentError>)
        ensures
            agrees_byte_strings(res, path_of(dict@)),
    {
        match dict.get("path".as_bytes()) {
            None => Err(TorrentError::MissingKey("path")),
            Some(obj) => {
                proof {
                    lemma_view(*obj);
                }
                match obj {
                    BenObject::List(list) => {
                        if list.len() == 0 {
                            Err(TorrentError::WrongType("path"))
                        } else {
                            Self::byte_strings(list, "path")
                        }
                    },
                    _ => Err(TorrentError::WrongType("path")),
                }
            },
        }
    }

    fn file(obj: &BenObject) -> (res: Result<File, TorrentError>)
        ensures
            agrees(res, file_of(obj@)),
    {
        proof {
            lemma_view(*obj);
        }
        match obj {
            BenObject::Dict(dict) => {
                let length = match Self::length(dict) {
                    Ok(x) => x,
                    Err(e) => {
                        return Err(e);
                    },
                };
                let md5sum = match Self::md5sum(dict) {
                    Ok(x) => x,
                    Err(e) => {
                        return Err(e);
                    },
                };
                let path = match Self::path(dict) {
                    Ok(x) => x,
                    Err(e) => {
                        return Err(e);
                    },
                };
                Ok(File { length, md5sum, path, extra: Self::file_extra(dict) })
            },
            _ => Err(TorrentError::WrongType("files")),
        }
    }

    fn file_extra(dict: &Dict) -> (extra: Dict)
        ensures
            extra@ == file_extra(dict@),
    {
        let mut extra = dict.clone();
        let _ = extra.remove("length".as_bytes());
        let _ = extra.remove("md5sum".as_bytes());
        let _ = extra.remove("path".as_bytes());
        extra
    }

    fn common_extra(dict: &Dict) -> (extra: Dict)
        ensures
            extra@ == common_extra(dict@),
    {
        let mut extra = dict.clone();
        let _ = extra.remove("name".as_bytes());
        let _ = extra.remove("piece length".as_bytes());
        let _ = extra.remove("pieces".as_bytes());
        let _ = extra.remove("private".as_bytes());
        extra
    }

    fn files(obj: &BenObject) -> (res: Result<Vec<File>, TorrentError>)
        ensures
            agrees(res, file_list_of(obj@)),
    {
        proof {
            lemma_view(*obj);
        }
        match obj {
            BenObject::List(list) => {
                if list.len() == 0 {
                    return Err(TorrentError::EmptyFiles);
                }
                let ghost items = list_view(list@);
                let mut files: Vec<File> = Vec::with_capacity(list.len());
                let mut i: usize = 0;
                assert(items.take(0) =~= Seq::<BenValue>::empty());
                assert(files.deep_view() =~= Seq::<FileView>::empty());
                while i < list.len()
                    invariant
                        0 <= i <= list@.len(),
                        items == list_view(list@),
                        items.len() > 0,
                        obj@ == BenValue::List(items),
                        files_of(items.take(i as int)) == Ok::<Seq<FileView>, TorrentError>(
                            files.deep_view(),
                        ),
                    decreases list@.len() - i,
                {
                    let ghost before = files.deep_view();
                    proof {
                        assert(items.take(i + 1).drop_last() =~= items.take(i as int));
                        assert(items.take(i + 1).last() == list@[i as int]@);
                    }
                    match Self::file(&list[i]) {
                        Ok(file) => {
                            files.push(file);
                            assert(files.deep_view() =~= before.push(file.deep_view()));
                        },
                        Err(e) => {
                            proof {
                                lemma_files_of_error(items, i + 1);
                            }
                            return Err(e);
                        },
                    }
                    i += 1;
                }
                assert(items.take(i as int) =~= items);
                Ok(files)
            },
            _ => Err(TorrentError::WrongType("files")),
        }
    }

    fn pieces(dict: &Dict) -> (res: Result<Vec<u8>, TorrentError>)
        ensures
            agrees_bytes(res, pieces_of(dict@)),
    {
        match dict.get("pieces".as_bytes()) {
            None => Err(TorrentError::MissingKey("pieces")),
            Some(obj) => {
                proof {
                    lemma_view(*obj);
                }
                match obj {
                    BenObject::String(bytes) => {
                        if bytes.len() % 20 == 0 {
                            Ok(bytes.clone())
                        } else {
                            Err(TorrentError::InvalidPieces)
                        }
                    },
                    _ => Err(TorrentError::WrongType("pieces")),
                }
            },
        }
    }

    fn private(dict: &Dict) -> (res: Result<Option<i64>, TorrentError>)
        ensures
            agrees(res, int_at(dict@, "private")),
    {
        Self::optional_int(dict, "private")
    }

    fn info_fields(info: &Dict) -> (res: Result<Info, TorrentError>)
        ensures
            agrees_view(res, info_of(info@)),
    {
        let name = match Self::name(info) {
            Ok(x) => x,
            Err(e) => {
                return Err(e);
            },
        };
        let piece_length = match Self::piece_length(info) {
            Ok(x) => x,
            Err(e) => {
                return Err(e);
            },
        };
        let pieces = match Self::pieces(info) {
            Ok(x) => x,
            Err(e) => {
                return Err(e);
            },
        };
        let private = match Self::private(info) {
            Ok(x) => x,
            Err(e) => {
                return Err(e);
            },
        };
        match info.get("files".as_bytes()) {
            Some(list) => {
                let files = match Self::files(list) {
                    Ok(x) => x,
                    Err(e) => {
                        return Err(e);
                    },
                };
                let mut extra = Self::common_extra(info);
                let _ = extra.remove("files".as_bytes());
                Ok(
                    Info::MultipleFile(
                        MultipleFile { piece_length, pieces, private, name, files, extra },
                    ),
                )
            },
            None => {
                let length = match Self::length(info) {
                    Ok(x) => x,
                    Err(e) => {
                        return Err(e);
                    },
                };
                let md5sum = match Self::md5sum(info) {
                    Ok(x) => x,
                    Err(e) => {
                        return Err(e);
                    },
                };
                let mut extra = Self::common_extra(info);
                let _ = extra.remove("length".as_bytes());
                let _ = extra.remove("md5sum".as_bytes());
                Ok(
                    Info::SingleFile(
                        SingleFile { piece_length, pieces, private, name, length, md5sum, extra },
                    ),
                )
            },
        }
    }

    fn info(dict: &Dict) -> (res: Result<Info, TorrentError>)
        ensures
            agrees_view(res, info_at(dict@)),
    {
        match dict.get("info".as_bytes()) {
            None => Err(TorrentError::MissingKey("info")),
            Some(obj) => {
                proof {
                    lemma_view(*obj);
                }
                match obj {
                    BenObject::Dict(info) => Self::info_fields(info),
                    _ => Err(TorrentError::WrongType("info")),
                }
            },
        }
    }
}

/// Where the files of the first `n` items fail, the files of all fail in the same way.
pub proof fn lemma_files_of_error(l: Seq<BenValue>, n: int)
    requires
        0 <= n <= l.len(),
        files_of(l.take(n)) is Err,
    ensures
        files_of(l) == files_of(l.take(n)),
    decreases l.len() - n,
{
    if n < l.len() {
        assert(l.take(n + 1).drop_last() =~= l.take(n));
        lemma_files_of_error(l, n + 1);
    } else {
        assert(l.take(n) =~= l);
    }
}

} // verus!
