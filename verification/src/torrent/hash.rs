//! The info-hash: the SHA-1 digest of the canonical encoding of `info`.

use vstd::prelude::*;
use vstd::slice::slice_to_vec;
use vstd::string::StringSliceAdditionalSpecFns;
use sha1::{Digest, Sha1};
use crate::bencode::encode::encode;
use crate::bencode::value::{dict_insert, lemma_view, list_view, BenObject, BenValue, Dict};
use crate::text::{hex_upper, to_hex_upper};
use crate::torrent::error::TorrentError;
use crate::torrent::model::{byte_strings, File, FileView, Info, InfoView};

verus! {

pub type Sha1Hash = [u8; 20];

/// The SHA-1 digest of `data`: twenty bytes.
pub uninterp spec fn sha1(data: Seq<u8>) -> Seq<u8>;

/// `Sha1::digest` of the crate `sha1`: the SHA-1 digest of the bytes given.
#[verifier::external_body]
fn sha1_digest(data: &[u8]) -> (digest: Sha1Hash)
    ensures
        digest@ == sha1(data@),
{
    Sha1::digest(data).into()
}

/// The dictionary with `v` under `name`, where there is a `v`.
pub open spec fn with_optional(
    d: Seq<(Seq<u8>, BenValue)>,
    name: &'static str,
    v: Option<BenValue>,
) -> Seq<(Seq<u8>, BenValue)> {
    match v {
        Some(x) => dict_insert(d, name.spec_bytes(), x),
        None => d,
    }
}

pub open spec fn optional_bytes_value(b: Option<Seq<u8>>) -> Option<BenValue> {
    match b {
        Some(b) => Some(BenValue::String(b)),
        None => None,
    }
}

pub open spec fn optional_int_value(i: Option<i64>) -> Option<BenValue> {
    match i {
        Some(i) => Some(BenValue::Int(i)),
        None => None,
    }
}

/// The components of a path as a list of byte strings.
pub open spec fn path_value(path: Seq<Seq<u8>>) -> Seq<BenValue> {
    Seq::new(path.len(), |i: int| BenValue::String(path[i]))
}

/// A file as a bencoded value: what else its dictionary held, and put
/// into that its `length`, its `md5sum` where it has one, and the list of
/// the components of its `path`.
pub open spec fn file_value(f: FileView) -> BenValue {
    let d = dict_insert(f.extra, "length".spec_bytes(), BenValue::Int(f.length));
    let d = with_optional(d, "md5sum", optional_bytes_value(f.md5sum));
    let d = dict_insert(d, "path".spec_bytes(), BenValue::List(path_value(f.path)));
    BenValue::Dict(d)
}

/// The files as a list of dictionaries.
pub open spec fn files_value(files: Seq<FileView>) -> Seq<BenValue> {
    Seq::new(files.len(), |i: int| file_value(files[i]))
}

/// The fields of `info` that both kinds have, put into what else `info` held.
pub open spec fn common_value(
    extra: Seq<(Seq<u8>, BenValue)>,
    piece_length: i64,
    pieces: Seq<u8>,
    private: Option<i64>,
    name: Seq<u8>,
) -> Seq<(Seq<u8>, BenValue)> {
    let d = dict_insert(extra, "piece length".spec_bytes(), BenValue::Int(piece_length));
    let d = dict_insert(d, "pieces".spec_bytes(), BenValue::String(pieces));
    let d = with_optional(d, "private", optional_int_value(private));
    dict_insert(d, "name".spec_bytes(), BenValue::String(name))
}

/// The `info` of a torrent as a bencoded value: what else `info` held, and
/// put into that `piece length`, `pieces`, `private` where it is set and
/// `name`, and then `length` and, where it is set, `md5sum`, or else
/// `files`.
pub open spec fn info_value(info: InfoView) -> BenValue {
    match info {
        InfoView::SingleFile(single) => {
            let d = common_value(
                single.extra,
                single.piece_length,
                single.pieces,
                single.private,
                single.name,
            );
            let d = dict_insert(d, "length".spec_bytes(), BenValue::Int(single.length));
            let d = with_optional(d, "md5sum", optional_bytes_value(single.md5sum));
            BenValue::Dict(d)
        },
        InfoView::MultipleFile(multiple) => {
            let d = common_value(
                multiple.extra,
                multiple.piece_length,
                multiple.pieces,
                multiple.private,
                multiple.name,
            );
            let d = dict_insert(
                d,
                "files".spec_bytes(),
                BenValue::List(files_value(multiple.files)),
            );
            BenValue::Dict(d)
        },
    }
}

/// The info-hash of `info`: the SHA-1 digest of its canonical encoding.
pub open spec fn info_hash(info: InfoView) -> Seq<u8> {
    sha1(encode(info_value(info)))
}

fn put(dict: &mut Dict, name: &'static str, value: BenObject)
    ensures
        final(dict)@ == dict_insert(old(dict)@, name.spec_bytes(), value@),
{
    let _ = dict.insert(slice_to_vec(name.as_bytes()), value);
}

fn int_object(i: i64) -> (obj: BenObject)
    ensures
        obj@ == BenValue::Int(i),
{
    let obj = BenObject::Int(i);
    proof {
        lemma_view(obj);
    }
    obj
}

fn bytes_object(bytes: &Vec<u8>) -> (obj: BenObject)
    ensures
        obj@ == BenValue::String(bytes@),
{
    let obj = BenObject::String(bytes.clone());
    proof {
        lemma_view(obj);
    }
    obj
}

fn list_object(items: Vec<BenObject>) -> (obj: BenObject)
    ensures
        obj@ == BenValue::List(list_view(items@)),
{
    let obj = BenObject::List(items);
    proof {
        lemma_view(obj);
    }
    obj
}

fn dict_object(dict: Dict) -> (obj: BenObject)
    ensures
        obj@ == BenValue::Dict(dict@),
{
    let obj = BenObject::Dict(dict);
    proof {
        lemma_view(obj);
    }
    obj
}

fn file_object(file: &File) -> (obj: BenObject)
    ensures
        obj@ == file_value(file@),
{
    let mut fmap = file.extra.clone();
    put(&mut fmap, "length", int_object(file.length));
    if let Some(md5sum) = &file.md5sum {
        put(&mut fmap, "md5sum", bytes_object(md5sum));
    }
    let ghost path = file@.path;
    let mut components: Vec<BenObject> = Vec::new();
    let mut i: usize = 0;
    while i < file.path.len()
        invariant
            0 <= i <= file.path@.len(),
            path == byte_strings(file.path@),
            components@.len() == i,
            forall|j: int|
                0 <= j < i ==> (#[trigger] components@[j])@ == BenValue::String(path[j]),
        decreases file.path@.len() - i,
    {
        components.push(bytes_object(&file.path[i]));
        i += 1;
    }
    assert(list_view(components@) =~= path_value(path));
    put(&mut fmap, "path", list_object(components));
    dict_object(fmap)
}

impl Info {
    /// The info-hash: the SHA-1 digest of the canonical encoding of `info`.
    pub fn hash_bytes(&self) -> (res: Result<Sha1Hash, TorrentError>)
        ensures
            res matches Ok(hash) && hash@ == info_hash(self@),
    {
        let output = match self.marshal() {
            Ok(x) => x,
            Err(e) => {
                return Err(e);
            },
        };
        Ok(sha1_digest(output.as_slice()))
    }

    /// The info-hash in hexadecimal, in upper case.
    pub fn hash_string(&self) -> (res: Result<String, TorrentError>)
        ensures
            res matches Ok(text) && text@ == hex_upper(info_hash(self@)),
    {
        let output = match self.marshal() {
            Ok(x) => x,
            Err(e) => {
                return Err(e);
            },
        };
        let digest = sha1_digest(output.as_slice());
        Ok(to_hex_upper(digest.as_slice()))
    }

    /// The canonical encoding of `info`.
    pub fn marshal(&self) -> (res: Result<Vec<u8>, TorrentError>)
        ensures
            res matches Ok(out) && out@ == encode(info_value(self@)),
    {
        let obj = match self {
            Info::SingleFile(single) => {
                let mut map = single.extra.clone();
                put(&mut map, "piece length", int_object(single.piece_length));
                put(&mut map, "pieces", bytes_object(&single.pieces));
                if let Some(private) = single.private {
                    put(&mut map, "private", int_object(private));
                }
                put(&mut map, "name", bytes_object(&single.name));
                put(&mut map, "length", int_object(single.length));
                if let Some(md5sum) = &single.md5sum {
                    put(&mut map, "md5sum", bytes_object(md5sum));
                }
                dict_object(map)
            },
            Info::MultipleFile(multiple) => {
                let mut map = multiple.extra.clone();
                put(&mut map, "piece length", int_object(multiple.piece_length));
                put(&mut map, "pieces", bytes_object(&multiple.pieces));
                if let Some(private) = multiple.private {
                    put(&mut map, "private", int_object(private));
                }
                put(&mut map, "name", bytes_object(&multiple.name));
                let ghost all = multiple@.files;
                let mut files: Vec<BenObject> = Vec::new();
                let mut i: usize = 0;
                while i < multiple.files.len()
                    invariant
                        0 <= i <= multiple.files@.len(),
                        all == multiple.files.deep_view(),
                        files@.len() == i,
                        forall|j: int|
                            0 <= j < i ==> (#[trigger] files@[j])@ == file_value(all[j]),
                    decreases multiple.files@.len() - i,
                {
                    files.push(file_object(&multiple.files[i]));
                    i += 1;
                }
                assert(list_view(files@) =~= files_value(all));
                put(&mut map, "files", list_object(files));
                dict_object(map)
            },
        };
        match obj.bencode() {
            Ok(out) => Ok(out),
            Err(e) => Err(TorrentError::BenObjectParseError(e)),
        }
    }
}

} // verus!
