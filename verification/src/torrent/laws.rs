//! What holds of the record of a torrent and its encoding.

use vstd::prelude::*;
use vstd::string::StringSliceAdditionalSpecFns;
use crate::bencode::encode::{encode, encode_entries, encode_string};
use crate::bencode::laws::{
    law_decode_encode, law_dict_extensional, law_dict_get_insert, law_dict_get_remove,
};
use crate::bencode::value::{
    dict_find, dict_get, dict_insert, dict_remove, keys_sorted, lemma_dict_find,
    lemma_dict_find_bounds, lemma_dict_insert_sorted, BenValue,
};
use crate::torrent::error::TorrentError;
use crate::torrent::hash::{
    common_value, file_value, files_value, info_hash, info_value, optional_bytes_value,
    optional_int_value, path_value, sha1, with_optional,
};
use crate::torrent::model::{FileView, Info, InfoView};
use crate::torrent::parser::{
    bytes_at, byte_strings_of, common_extra, file_extra, file_list_of, file_of, files_of, info_of,
    int_at, multiple_extra, parse_torrent, path_of, pieces_of, required, single_extra, torrent_of,
};

verus! {

/// Two different texts are different bytes in UTF-8.
pub proof fn lemma_text_differs(a: &str, b: &str)
    requires
        a@ != b@,
    ensures
        a.spec_bytes() != b.spec_bytes(),
{
    vstd::utf8::encode_utf8_decode_utf8(a@);
    vstd::utf8::encode_utf8_decode_utf8(b@);
}

/// The keys of `info` and of a file are different byte strings.
pub proof fn lemma_keys_differ()
    ensures
        "piece length".spec_bytes() != "pieces".spec_bytes(),
        "piece length".spec_bytes() != "private".spec_bytes(),
        "piece length".spec_bytes() != "name".spec_bytes(),
        "piece length".spec_bytes() != "length".spec_bytes(),
        "piece length".spec_bytes() != "md5sum".spec_bytes(),
        "piece length".spec_bytes() != "files".spec_bytes(),
        "piece length".spec_bytes() != "path".spec_bytes(),
        "pieces".spec_bytes() != "private".spec_bytes(),
        "pieces".spec_bytes() != "name".spec_bytes(),
        "pieces".spec_bytes() != "length".spec_bytes(),
        "pieces".spec_bytes() != "md5sum".spec_bytes(),
        "pieces".spec_bytes() != "files".spec_bytes(),
        "pieces".spec_bytes() != "path".spec_bytes(),
        "private".spec_bytes() != "name".spec_bytes(),
        "private".spec_bytes() != "length".spec_bytes(),
        "private".spec_bytes() != "md5sum".spec_bytes(),
        "private".spec_bytes() != "files".spec_bytes(),
        "private".spec_bytes() != "path".spec_bytes(),
        "name".spec_bytes() != "length".spec_bytes(),
        "name".spec_bytes() != "md5sum".spec_bytes(),
        "name".spec_bytes() != "files".spec_bytes(),
        "name".spec_bytes() != "path".spec_bytes(),
        "length".spec_bytes() != "md5sum".spec_bytes(),
        "length".spec_bytes() != "files".spec_bytes(),
        "length".spec_bytes() != "path".spec_bytes(),
        "md5sum".spec_bytes() != "files".spec_bytes(),
        "md5sum".spec_bytes() != "path".spec_bytes(),
        "files".spec_bytes() != "path".spec_bytes(),
{
    reveal_strlit("piece length");
    reveal_strlit("pieces");
    reveal_strlit("private");
    reveal_strlit("name");
    reveal_strlit("length");
    reveal_strlit("md5sum");
    reveal_strlit("files");
    reveal_strlit("path");
    assert("piece length"@.len() != "pieces"@.len());
    lemma_text_differs("piece length", "pieces");
    assert("piece length"@.len() != "private"@.len());
    lemma_text_differs("piece length", "private");
    assert("piece length"@.len() != "name"@.len());
    lemma_text_differs("piece length", "name");
    assert("piece length"@.len() != "length"@.len());
    lemma_text_differs("piece length", "length");
    assert("piece length"@.len() != "md5sum"@.len());
    lemma_text_differs("piece length", "md5sum");
    assert("piece length"@.len() != "files"@.len());
    lemma_text_differs("piece length", "files");
    assert("piece length"@.len() != "path"@.len());
    lemma_text_differs("piece length", "path");
    assert("pieces"@.len() != "private"@.len());
    lemma_text_differs("pieces", "private");
    assert("pieces"@.len() != "name"@.len());
    lemma_text_differs("pieces", "name");
    assert("pieces"@[0] != "length"@[0]);
    lemma_text_differs("pieces", "length");
    assert("pieces"@[0] != "md5sum"@[0]);
    lemma_text_differs("pieces", "md5sum");
    assert("pieces"@.len() != "files"@.len());
    lemma_text_differs("pieces", "files");
    assert("pieces"@.len() != "path"@.len());
    lemma_text_differs("pieces", "path");
    assert("private"@.len() != "name"@.len());
    lemma_text_differs("private", "name");
    assert("private"@.len() != "length"@.len());
    lemma_text_differs("private", "length");
    assert("private"@.len() != "md5sum"@.len());
    lemma_text_differs("private", "md5sum");
    assert("private"@.len() != "files"@.len());
    lemma_text_differs("private", "files");
    assert("private"@.len() != "path"@.len());
    lemma_text_differs("private", "path");
    assert("name"@.len() != "length"@.len());
    lemma_text_differs("name", "length");
    assert("name"@.len() != "md5sum"@.len());
    lemma_text_differs("name", "md5sum");
    assert("name"@.len() != "files"@.len());
    lemma_text_differs("name", "files");
    assert("name"@[0] != "path"@[0]);
    lemma_text_differs("name", "path");
    assert("length"@[0] != "md5sum"@[0]);
    lemma_text_differs("length", "md5sum");
    assert("length"@.len() != "files"@.len());
    lemma_text_differs("length", "files");
    assert("length"@.len() != "path"@.len());
    lemma_text_differs("length", "path");
    assert("md5sum"@.len() != "files"@.len());
    lemma_text_differs("md5sum", "files");
    assert("md5sum"@.len() != "path"@.len());
    lemma_text_differs("md5sum", "path");
    assert("files"@.len() != "path"@.len());
    lemma_text_differs("files", "path");
}

/// What a sorted dictionary holds after a value, where there is one, was put under a key.
pub proof fn lemma_get_with_optional(
    d: Seq<(Seq<u8>, BenValue)>,
    name: &'static str,
    v: Option<BenValue>,
    q: Seq<u8>,
)
    requires
        keys_sorted(d),
    ensures
        keys_sorted(with_optional(d, name, v)),
        dict_get(with_optional(d, name, v), q) == if q == name.spec_bytes() && v is Some {
            v
        } else {
            dict_get(d, q)
        },
{
    if let Some(x) = v {
        lemma_dict_insert_sorted(d, name.spec_bytes(), x);
        law_dict_get_insert(d, name.spec_bytes(), x, q);
    }
}

/// What a sorted dictionary holds after a value was put under a key.
pub proof fn lemma_get_insert(d: Seq<(Seq<u8>, BenValue)>, k: Seq<u8>, v: BenValue, q: Seq<u8>)
    requires
        keys_sorted(d),
    ensures
        keys_sorted(dict_insert(d, k, v)),
        dict_get(dict_insert(d, k, v), q) == if q == k {
            Some(v)
        } else {
            dict_get(d, q)
        },
{
    lemma_dict_insert_sorted(d, k, v);
    law_dict_get_insert(d, k, v, q);
}

/// A dictionary holds nothing under a key that none of its entries has.
pub proof fn lemma_get_absent(d: Seq<(Seq<u8>, BenValue)>, q: Seq<u8>)
    requires
        forall|i: int| 0 <= i < d.len() ==> (#[trigger] d[i]).0 != q,
    ensures
        dict_get(d, q) is None,
{
    lemma_dict_find(d, q, d.len() as int);
}

/// The key is one that a field of a file is read from.
pub open spec fn is_file_key(k: Seq<u8>) -> bool {
    ||| k == "length".spec_bytes()
    ||| k == "md5sum".spec_bytes()
    ||| k == "path".spec_bytes()
}

/// The key is one that a field of either kind of `info` is read from.
pub open spec fn is_common_key(k: Seq<u8>) -> bool {
    ||| k == "name".spec_bytes()
    ||| k == "piece length".spec_bytes()
    ||| k == "pieces".spec_bytes()
    ||| k == "private".spec_bytes()
}

/// The key is one that a field of the `info` of one file is read from.
pub open spec fn is_single_key(k: Seq<u8>) -> bool {
    ||| is_common_key(k)
    ||| k == "length".spec_bytes()
    ||| k == "md5sum".spec_bytes()
}

/// The key is one that a field of the `info` of several files is read from.
pub open spec fn is_multiple_key(k: Seq<u8>) -> bool {
    ||| is_common_key(k)
    ||| k == "files".spec_bytes()
}

/// What is kept of a file's dictionary beside the fields is what it holds
/// under the other keys.
pub proof fn lemma_file_extra(d: Seq<(Seq<u8>, BenValue)>, q: Seq<u8>)
    requires
        keys_sorted(d),
    ensures
        keys_sorted(file_extra(d)),
        dict_get(file_extra(d), q) == if is_file_key(q) {
            None
        } else {
            dict_get(d, q)
        },
{
    let d1 = dict_remove(d, "length".spec_bytes());
    let d2 = dict_remove(d1, "md5sum".spec_bytes());
    law_dict_get_remove(d, "length".spec_bytes(), q);
    law_dict_get_remove(d1, "md5sum".spec_bytes(), q);
    law_dict_get_remove(d2, "path".spec_bytes(), q);
}

/// What is kept of `info` beside the common fields is what it holds under the other keys.
pub proof fn lemma_common_extra(d: Seq<(Seq<u8>, BenValue)>, q: Seq<u8>)
    requires
        keys_sorted(d),
    ensures
        keys_sorted(common_extra(d)),
        dict_get(common_extra(d), q) == if is_common_key(q) {
            None
        } else {
            dict_get(d, q)
        },
{
    let d1 = dict_remove(d, "name".spec_bytes());
    let d2 = dict_remove(d1, "piece length".spec_bytes());
    let d3 = dict_remove(d2, "pieces".spec_bytes());
    law_dict_get_remove(d, "name".spec_bytes(), q);
    law_dict_get_remove(d1, "piece length".spec_bytes(), q);
    law_dict_get_remove(d2, "pieces".spec_bytes(), q);
    law_dict_get_remove(d3, "private".spec_bytes(), q);
}

/// What is kept of the `info` of one file beside its fields is what it
/// holds under the other keys.
pub proof fn lemma_single_extra(d: Seq<(Seq<u8>, BenValue)>, q: Seq<u8>)
    requires
        keys_sorted(d),
    ensures
        keys_sorted(single_extra(d)),
        dict_get(single_extra(d), q) == if is_single_key(q) {
            None
        } else {
            dict_get(d, q)
        },
{
    let c = common_extra(d);
    lemma_common_extra(d, q);
    law_dict_get_remove(c, "length".spec_bytes(), q);
    law_dict_get_remove(dict_remove(c, "length".spec_bytes()), "md5sum".spec_bytes(), q);
}

/// What is kept of the `info` of several files beside its fields is what
/// it holds under the other keys.
pub proof fn lemma_multiple_extra(d: Seq<(Seq<u8>, BenValue)>, q: Seq<u8>)
    requires
        keys_sorted(d),
    ensures
        keys_sorted(multiple_extra(d)),
        dict_get(multiple_extra(d), q) == if is_multiple_key(q) {
            None
        } else {
            dict_get(d, q)
        },
{
    lemma_common_extra(d, q);
    law_dict_get_remove(common_extra(d), "files".spec_bytes(), q);
}

/// What the dictionary of a file holds under a key.
pub proof fn lemma_file_lookup(f: FileView, q: Seq<u8>)
    requires
        keys_sorted(f.extra),
    ensures
        file_value(f) is Dict,
        keys_sorted(file_value(f)->Dict_0),
        dict_get(file_value(f)->Dict_0, q) == if q == "path".spec_bytes() {
            Some(BenValue::List(path_value(f.path)))
        } else if q == "md5sum".spec_bytes() && f.md5sum is Some {
            optional_bytes_value(f.md5sum)
        } else if q == "length".spec_bytes() {
            Some(BenValue::Int(f.length))
        } else {
            dict_get(f.extra, q)
        },
{
    let d1 = dict_insert(f.extra, "length".spec_bytes(), BenValue::Int(f.length));
    let d2 = with_optional(d1, "md5sum", optional_bytes_value(f.md5sum));
    lemma_get_insert(f.extra, "length".spec_bytes(), BenValue::Int(f.length), q);
    lemma_get_with_optional(d1, "md5sum", optional_bytes_value(f.md5sum), q);
    lemma_get_insert(d2, "path".spec_bytes(), BenValue::List(path_value(f.path)), q);
}

/// What the dictionary of the common fields holds under a key.
pub proof fn lemma_common_lookup(
    extra: Seq<(Seq<u8>, BenValue)>,
    piece_length: i64,
    pieces: Seq<u8>,
    private: Option<i64>,
    name: Seq<u8>,
    q: Seq<u8>,
)
    requires
        keys_sorted(extra),
    ensures
        keys_sorted(common_value(extra, piece_length, pieces, private, name)),
        dict_get(common_value(extra, piece_length, pieces, private, name), q) == if q
            == "name".spec_bytes() {
            Some(BenValue::String(name))
        } else if q == "private".spec_bytes() && private is Some {
            optional_int_value(private)
        } else if q == "pieces".spec_bytes() {
            Some(BenValue::String(pieces))
        } else if q == "piece length".spec_bytes() {
            Some(BenValue::Int(piece_length))
        } else {
            dict_get(extra, q)
        },
{
    let d1 = dict_insert(extra, "piece length".spec_bytes(), BenValue::Int(piece_length));
    let d2 = dict_insert(d1, "pieces".spec_bytes(), BenValue::String(pieces));
    let d3 = with_optional(d2, "private", optional_int_value(private));
    lemma_get_insert(extra, "piece length".spec_bytes(), BenValue::Int(piece_length), q);
    lemma_get_insert(d1, "pieces".spec_bytes(), BenValue::String(pieces), q);
    lemma_get_with_optional(d2, "private", optional_int_value(private), q);
    lemma_get_insert(d3, "name".spec_bytes(), BenValue::String(name), q);
}

/// What else `info` held.
pub open spec fn extra_of(info: InfoView) -> Seq<(Seq<u8>, BenValue)> {
    match info {
        InfoView::SingleFile(single) => single.extra,
        InfoView::MultipleFile(multiple) => multiple.extra,
    }
}

/// The dictionary of the fields that both kinds of `info` have.
pub open spec fn common_of(info: InfoView) -> Seq<(Seq<u8>, BenValue)> {
    match info {
        InfoView::SingleFile(single) => common_value(
            single.extra,
            single.piece_length,
            single.pieces,
            single.private,
            single.name,
        ),
        InfoView::MultipleFile(multiple) => common_value(
            multiple.extra,
            multiple.piece_length,
            multiple.pieces,
            multiple.private,
            multiple.name,
        ),
    }
}

/// What the dictionary of `info` holds under a key.
pub proof fn lemma_info_lookup(info: InfoView, q: Seq<u8>)
    requires
        keys_sorted(extra_of(info)),
    ensures
        info_value(info) is Dict,
        keys_sorted(info_value(info)->Dict_0),
        dict_get(info_value(info)->Dict_0, q) == match info {
            InfoView::SingleFile(single) => if q == "md5sum".spec_bytes() && single.md5sum
                is Some {
                optional_bytes_value(single.md5sum)
            } else if q == "length".spec_bytes() {
                Some(BenValue::Int(single.length))
            } else {
                dict_get(common_of(info), q)
            },
            InfoView::MultipleFile(multiple) => if q == "files".spec_bytes() {
                Some(BenValue::List(files_value(multiple.files)))
            } else {
                dict_get(common_of(info), q)
            },
        },
        dict_get(common_of(info), q) == match info {
            InfoView::SingleFile(single) => if q == "name".spec_bytes() {
                Some(BenValue::String(single.name))
            } else if q == "private".spec_bytes() && single.private is Some {
                optional_int_value(single.private)
            } else if q == "pieces".spec_bytes() {
                Some(BenValue::String(single.pieces))
            } else if q == "piece length".spec_bytes() {
                Some(BenValue::Int(single.piece_length))
            } else {
                dict_get(single.extra, q)
            },
            InfoView::MultipleFile(multiple) => if q == "name".spec_bytes() {
                Some(BenValue::String(multiple.name))
            } else if q == "private".spec_bytes() && multiple.private is Some {
                optional_int_value(multiple.private)
            } else if q == "pieces".spec_bytes() {
                Some(BenValue::String(multiple.pieces))
            } else if q == "piece length".spec_bytes() {
                Some(BenValue::Int(multiple.piece_length))
            } else {
                dict_get(multiple.extra, q)
            },
        },
{
    let d4 = common_of(info);
    match info {
        InfoView::SingleFile(single) => {
            lemma_common_lookup(
                single.extra,
                single.piece_length,
                single.pieces,
                single.private,
                single.name,
                q,
            );
            let d5 = dict_insert(d4, "length".spec_bytes(), BenValue::Int(single.length));
            lemma_get_insert(d4, "length".spec_bytes(), BenValue::Int(single.length), q);
            lemma_get_with_optional(d5, "md5sum", optional_bytes_value(single.md5sum), q);
        },
        InfoView::MultipleFile(multiple) => {
            lemma_common_lookup(
                multiple.extra,
                multiple.piece_length,
                multiple.pieces,
                multiple.private,
                multiple.name,
                q,
            );
            lemma_get_insert(
                d4,
                "files".spec_bytes(),
                BenValue::List(files_value(multiple.files)),
                q,
            );
        },
    }
}

/// The byte strings that a list is read as are that list written.
pub proof fn lemma_byte_strings_written(l: Seq<BenValue>, name: &'static str)
    requires
        byte_strings_of(l, name) is Ok,
    ensures
        path_value(byte_strings_of(l, name)->Ok_0) == l,
{
    let strings = byte_strings_of(l, name)->Ok_0;
    assert forall|i: int| 0 <= i < l.len() implies path_value(strings)[i] == l[i] by {
        assert(l[i] is String);
    }
    assert(path_value(strings) =~= l);
}

/// A sorted dictionary that is read as a file is that file written.
pub proof fn lemma_file_written(v: BenValue)
    requires
        v matches BenValue::Dict(d) && keys_sorted(d),
        file_of(v) is Ok,
    ensures
        file_value(file_of(v)->Ok_0) == v,
{
    lemma_keys_differ();
    let d = v->Dict_0;
    let f = file_of(v)->Ok_0;
    let w = file_value(f)->Dict_0;
    let path = dict_get(d, "path".spec_bytes())->0->List_0;
    lemma_byte_strings_written(path, "path");
    lemma_file_extra(d, Seq::empty());
    assert forall|q: Seq<u8>| dict_get(w, q) == dict_get(d, q) by {
        lemma_file_extra(d, q);
        lemma_file_lookup(f, q);
    }
    lemma_file_lookup(f, Seq::empty());
    law_dict_extensional(w, d);
}

/// The files that a list is read as are as many as its items, each read from its item.
pub proof fn lemma_files_of_items(l: Seq<BenValue>)
    requires
        files_of(l) is Ok,
    ensures
        files_of(l)->Ok_0.len() == l.len(),
        forall|i: int|
            0 <= i < l.len() ==> (#[trigger] file_of(l[i])) == Ok::<FileView, TorrentError>(
                files_of(l)->Ok_0[i],
            ),
    decreases l.len(),
{
    if l.len() > 0 {
        lemma_files_of_items(l.drop_last());
        assert forall|i: int| 0 <= i < l.len() implies (#[trigger] file_of(l[i])) == Ok::<
            FileView,
            TorrentError,
        >(files_of(l)->Ok_0[i]) by {
            if i < l.len() - 1 {
                assert(l.drop_last()[i] == l[i]);
            }
        }
    }
}

/// Well-formed dictionaries that are read as files are those files written.
pub proof fn lemma_files_written(l: Seq<BenValue>)
    requires
        files_of(l) is Ok,
        forall|i: int| 0 <= i < l.len() ==> (#[trigger] l[i]).wf(),
    ensures
        files_value(files_of(l)->Ok_0) == l,
{
    let files = files_of(l)->Ok_0;
    lemma_files_of_items(l);
    assert forall|i: int| 0 <= i < l.len() implies files_value(files)[i] == l[i] by {
        assert(file_of(l[i]) == Ok::<FileView, TorrentError>(files[i]));
        assert(l[i].wf());
        lemma_file_written(l[i]);
    }
    assert(files_value(files) =~= l);
}

/// Writing undoes reading: a well-formed dictionary that is read as `info`
/// is that `info` written, whatever keys it holds. So the info-hash of
/// what was read is the SHA-1 digest of the canonical encoding of the
/// dictionary that it was read from.
pub proof fn law_info_written(d: Seq<(Seq<u8>, BenValue)>)
    requires
        BenValue::Dict(d).wf(),
        info_of(d) is Ok,
    ensures
        info_value(info_of(d)->Ok_0) == BenValue::Dict(d),
        info_hash(info_of(d)->Ok_0) == sha1(encode(BenValue::Dict(d))),
{
    lemma_keys_differ();
    let info = info_of(d)->Ok_0;
    let w = info_value(info)->Dict_0;
    lemma_single_extra(d, Seq::empty());
    lemma_multiple_extra(d, Seq::empty());
    if let Some(BenValue::List(l)) = dict_get(d, "files".spec_bytes()) {
        lemma_dict_find_bounds(d, "files".spec_bytes());
        let at = dict_find(d, "files".spec_bytes());
        assert(d[at].1.wf());
        lemma_files_written(l);
    }
    assert forall|q: Seq<u8>| dict_get(w, q) == dict_get(d, q) by {
        lemma_single_extra(d, q);
        lemma_multiple_extra(d, q);
        lemma_info_lookup(info, q);
    }
    lemma_info_lookup(info, Seq::empty());
    law_dict_extensional(w, d);
}

/// What else a file's dictionary held is sorted and holds nothing under
/// the keys of the fields, and the path has at least one component.
pub open spec fn file_valid(f: FileView) -> bool {
    &&& f.path.len() > 0
    &&& keys_sorted(f.extra)
    &&& forall|i: int| 0 <= i < f.extra.len() ==> !is_file_key((#[trigger] f.extra[i]).0)
}

/// The record is one that can be read from a dictionary: its digests are
/// whole, and what else `info` held is sorted and holds nothing under the
/// keys of the fields. Where it has one file, nothing stands under `files`;
/// where it has several, it has at least one and each is valid.
pub open spec fn info_valid(info: InfoView) -> bool {
    match info {
        InfoView::SingleFile(single) => {
            &&& single.pieces.len() % 20 == 0
            &&& keys_sorted(single.extra)
            &&& forall|i: int|
                0 <= i < single.extra.len() ==> !is_single_key((#[trigger] single.extra[i]).0)
                    && single.extra[i].0 != "files".spec_bytes()
        },
        InfoView::MultipleFile(multiple) => {
            &&& multiple.pieces.len() % 20 == 0
            &&& keys_sorted(multiple.extra)
            &&& forall|i: int|
                0 <= i < multiple.extra.len() ==> !is_multiple_key(
                    (#[trigger] multiple.extra[i]).0,
                )
            &&& multiple.files.len() > 0
            &&& forall|i: int|
                0 <= i < multiple.files.len() ==> file_valid(#[trigger] multiple.files[i])
        },
    }
}

/// A valid file that is written is read back.
pub proof fn lemma_file_round_trip(f: FileView)
    requires
        file_valid(f),
    ensures
        file_of(file_value(f)) == Ok::<FileView, TorrentError>(f),
{
    lemma_keys_differ();
    let d = file_value(f)->Dict_0;
    lemma_file_lookup(f, "length".spec_bytes());
    lemma_file_lookup(f, "md5sum".spec_bytes());
    lemma_file_lookup(f, "path".spec_bytes());
    lemma_get_absent(f.extra, "length".spec_bytes());
    lemma_get_absent(f.extra, "md5sum".spec_bytes());
    lemma_get_absent(f.extra, "path".spec_bytes());
    let l = path_value(f.path);
    assert(Seq::new(l.len(), |i: int| l[i]->String_0) =~= f.path);
    assert(path_of(d) == Ok::<Seq<Seq<u8>>, TorrentError>(f.path));
    assert(bytes_at(d, "md5sum") == Ok::<Option<Seq<u8>>, TorrentError>(f.md5sum));
    assert forall|q: Seq<u8>| dict_get(file_extra(d), q) == dict_get(f.extra, q) by {
        lemma_file_extra(d, q);
        lemma_file_lookup(f, q);
        if is_file_key(q) {
            lemma_get_absent(f.extra, q);
        }
    }
    lemma_file_extra(d, Seq::empty());
    law_dict_extensional(file_extra(d), f.extra);
}

/// Valid files that are written are read back.
pub proof fn lemma_files_round_trip(files: Seq<FileView>)
    requires
        forall|i: int| 0 <= i < files.len() ==> file_valid(#[trigger] files[i]),
    ensures
        files_of(files_value(files)) == Ok::<Seq<FileView>, TorrentError>(files),
    decreases files.len(),
{
    if files.len() == 0 {
        assert(files =~= Seq::empty());
    } else {
        let init = files.drop_last();
        assert(files_value(files).drop_last() =~= files_value(init));
        lemma_files_round_trip(init);
        lemma_file_round_trip(files.last());
        assert(init.push(files.last()) =~= files);
    }
}

/// Reading undoes writing: the dictionary that a valid `info` is written
/// as is read back as the same `info`, so that two records with one
/// encoding, and hence one info-hash, are one record.
pub proof fn law_info_round_trip(info: InfoView)
    requires
        info_valid(info),
    ensures
        info_value(info) matches BenValue::Dict(d) && info_of(d) == Ok::<InfoView, TorrentError>(
            info,
        ),
{
    lemma_keys_differ();
    let d = info_value(info)->Dict_0;
    let extra = extra_of(info);
    lemma_info_lookup(info, "name".spec_bytes());
    lemma_info_lookup(info, "piece length".spec_bytes());
    lemma_info_lookup(info, "pieces".spec_bytes());
    lemma_info_lookup(info, "private".spec_bytes());
    lemma_info_lookup(info, "files".spec_bytes());
    lemma_info_lookup(info, "length".spec_bytes());
    lemma_info_lookup(info, "md5sum".spec_bytes());
    lemma_get_absent(extra, "name".spec_bytes());
    lemma_get_absent(extra, "piece length".spec_bytes());
    lemma_get_absent(extra, "pieces".spec_bytes());
    lemma_get_absent(extra, "private".spec_bytes());
    lemma_single_extra(d, Seq::empty());
    lemma_multiple_extra(d, Seq::empty());
    match info {
        InfoView::SingleFile(single) => {
            lemma_get_absent(extra, "length".spec_bytes());
            lemma_get_absent(extra, "md5sum".spec_bytes());
            lemma_get_absent(extra, "files".spec_bytes());
            assert(required(bytes_at(d, "name"), "name") == Ok::<Seq<u8>, TorrentError>(
                single.name,
            ));
            assert(pieces_of(d) == Ok::<Seq<u8>, TorrentError>(single.pieces));
            assert(int_at(d, "private") == Ok::<Option<i64>, TorrentError>(single.private));
            assert(dict_get(d, "files".spec_bytes()) is None);
            assert(bytes_at(d, "md5sum") == Ok::<Option<Seq<u8>>, TorrentError>(single.md5sum));
            assert forall|q: Seq<u8>| dict_get(single_extra(d), q) == dict_get(extra, q) by {
                lemma_single_extra(d, q);
                lemma_info_lookup(info, q);
                if is_single_key(q) {
                    lemma_get_absent(extra, q);
                }
            }
            law_dict_extensional(single_extra(d), extra);
        },
        InfoView::MultipleFile(multiple) => {
            lemma_files_round_trip(multiple.files);
            assert(required(bytes_at(d, "name"), "name") == Ok::<Seq<u8>, TorrentError>(
                multiple.name,
            ));
            assert(pieces_of(d) == Ok::<Seq<u8>, TorrentError>(multiple.pieces));
            assert(int_at(d, "private") == Ok::<Option<i64>, TorrentError>(multiple.private));
            assert(file_list_of(BenValue::List(files_value(multiple.files))) == Ok::<
                Seq<FileView>,
                TorrentError,
            >(multiple.files));
            assert forall|q: Seq<u8>| dict_get(multiple_extra(d), q) == dict_get(extra, q) by {
                lemma_multiple_extra(d, q);
                lemma_info_lookup(info, q);
                if is_multiple_key(q) {
                    lemma_get_absent(extra, q);
                }
            }
            law_dict_extensional(multiple_extra(d), extra);
        },
    }
}

/// The info-hash is stable: it is the SHA-1 digest of the canonical
/// encoding of `info`, and two records that are equal have one info-hash.
pub proof fn law_info_hash_stable(a: Info, b: Info)
    requires
        a@ == b@,
    ensures
        info_hash(a@) == info_hash(b@),
        info_hash(a@) == sha1(encode(info_value(a@))),
{
}

/// Where the value of the entry at `i` starts in the encoding of the entries.
pub open spec fn value_offset(d: Seq<(Seq<u8>, BenValue)>, i: int) -> int {
    (encode_entries(d.take(i)).len() + encode_string(d[i].0).len()) as int
}

/// The encoding of a dictionary's entries holds the encoding of each value where it stands.
pub proof fn lemma_encode_entries_at(d: Seq<(Seq<u8>, BenValue)>, i: int)
    requires
        0 <= i < d.len(),
    ensures
        0 <= value_offset(d, i),
        value_offset(d, i) + encode(d[i].1).len() <= encode_entries(d).len(),
        encode_entries(d).subrange(value_offset(d, i), value_offset(d, i) + encode(d[i].1).len())
            == encode(d[i].1),
    decreases d.len(),
{
    let init = d.drop_last();
    if i == d.len() - 1 {
        assert(d.take(i) =~= init);
        assert(encode_entries(d).subrange(
            value_offset(d, i),
            value_offset(d, i) + encode(d[i].1).len(),
        ) =~= encode(d[i].1));
    } else {
        lemma_encode_entries_at(init, i);
        assert(init.take(i) =~= d.take(i));
        assert(init[i] == d[i]);
        assert(encode_entries(d).subrange(
            value_offset(d, i),
            value_offset(d, i) + encode(d[i].1).len(),
        ) =~= encode_entries(init).subrange(
            value_offset(init, i),
            value_offset(init, i) + encode(init[i].1).len(),
        ));
    }
}

/// The info-hash names the source: where a `.torrent` file was written
/// canonically and is read as a torrent, the info-hash of what is read is
/// the SHA-1 digest of the bytes of `info` as they stand in the file,
/// whatever keys `info` holds.
pub proof fn law_info_hash_of_source(root: Seq<(Seq<u8>, BenValue)>)
    requires
        BenValue::Dict(root).wf(),
        torrent_of(BenValue::Dict(root)) is Ok,
    ensures
        ({
            let source = encode(BenValue::Dict(root));
            let at = dict_find(root, "info".spec_bytes());
            let from = 1 + value_offset(root, at);
            let to = from + encode(root[at].1).len();
            &&& parse_torrent(source) == torrent_of(BenValue::Dict(root))
            &&& 0 <= at < root.len()
            &&& 0 < from <= to < source.len()
            &&& info_hash(torrent_of(BenValue::Dict(root))->Ok_0.info) == sha1(
                source.subrange(from, to),
            )
        }),
{
    let source = encode(BenValue::Dict(root));
    let at = dict_find(root, "info".spec_bytes());
    law_decode_encode(BenValue::Dict(root), Seq::empty());
    lemma_dict_find_bounds(root, "info".spec_bytes());
    assert(root[at].1.wf());
    law_info_written(root[at].1->Dict_0);
    lemma_encode_entries_at(root, at);
    let from = 1 + value_offset(root, at);
    let to = from + encode(root[at].1).len();
    assert(source.subrange(from, to) =~= encode_entries(root).subrange(from - 1, to - 1));
}

} // verus!
