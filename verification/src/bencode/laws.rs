//! What holds of the codec as a whole: decoding undoes encoding, and the
//! encoding of a dictionary depends only on what it maps to what.

use vstd::prelude::*;
use crate::bencode::decimal::{decimal, digits, is_digit, lemma_digits};
use crate::bencode::decode::{
    decode, digit_run, lemma_digit_run, lemma_digit_run_bounds, parse_bytes, parse_decimal,
    parse_entries, parse_int, parse_items, parse_value,
};
use crate::bencode::encode::{
    encode, encode_entries, encode_int, encode_list, encode_string, DICT_POSTFIX, LIST_POSTFIX,
};
use crate::bencode::error::BencodeError;
use crate::bencode::order::{lemma_lex_lt_irreflexive, lemma_lex_lt_transitive, lex_lt};
use crate::bencode::value::{
    dict_contains, dict_find, dict_get, dict_insert, dict_remove, entries_wf, keys_sorted,
    lemma_dict_find, lemma_dict_find_bounds, lemma_dict_insert_sorted, lemma_dict_insert_wf,
    lemma_dict_remove_sorted, lemma_lower_bound, lemma_lower_bound_bounds, lower_bound, BenValue,
};

verus! {

/// A decimal number that is followed by a byte that is no digit is read back.
pub proof fn lemma_parse_decimal(i: i64, rest: Seq<u8>)
    requires
        rest.len() > 0,
        !is_digit(rest[0]),
    ensures
        parse_decimal(decimal(i as int) + rest) == Ok::<(i64, int), BencodeError>(
            (i, decimal(i as int).len() as int),
        ),
{
    let s = decimal(i as int) + rest;
    let sign: int = if i < 0 {
        1
    } else {
        0
    };
    let magnitude: nat = if i < 0 {
        (-i) as nat
    } else {
        i as nat
    };
    let ds = digits(magnitude);
    lemma_digits(magnitude);
    let end = sign + ds.len();
    assert(decimal(i as int).len() == end);
    assert forall|j: int| sign <= j < end implies is_digit(#[trigger] s[j]) by {
        assert(s[j] == ds[j - sign]);
    }
    assert(s[end] == rest[0]);
    assert(s[0] == 45 <==> i < 0) by {
        if i >= 0 {
            assert(s[0] == ds[0]);
        }
    }
    lemma_digit_run(s, sign, end);
    assert(s.subrange(sign, end) =~= ds);
}

/// An encoded integer is read back, whatever follows it.
pub proof fn lemma_parse_int(i: i64, rest: Seq<u8>)
    ensures
        parse_int(encode_int(i) + rest) == Ok::<(BenValue, int), BencodeError>(
            (BenValue::Int(i), encode_int(i).len() as int),
        ),
{
    let s = encode_int(i) + rest;
    let tail = seq![101u8] + rest;
    assert(s.skip(1) =~= decimal(i as int) + tail);
    lemma_parse_decimal(i, tail);
}

/// An encoded byte string is read back, whatever follows it.
pub proof fn lemma_parse_bytes(b: Seq<u8>, rest: Seq<u8>)
    requires
        b.len() <= i64::MAX,
    ensures
        parse_bytes(encode_string(b) + rest) == Ok::<(Seq<u8>, int), BencodeError>(
            (b, encode_string(b).len() as int),
        ),
        is_digit((encode_string(b) + rest)[0]),
{
    let s = encode_string(b) + rest;
    let tail = seq![58u8] + b + rest;
    let n = b.len() as i64;
    lemma_digits(b.len());
    assert(s =~= decimal(n as int) + tail);
    lemma_parse_decimal(n, tail);
    let len = digits(b.len()).len() as int;
    assert(s[len] == 58);
    assert(s.subrange(len + 1, len + 1 + n) =~= b);
    assert(s[0] == digits(b.len())[0]);
}

/// An encoded value starts with a byte that does not close a list or a dictionary.
pub proof fn lemma_encode_first(v: BenValue)
    ensures
        encode(v).len() > 0,
        encode(v)[0] != 101,
{
    match v {
        BenValue::String(b) => {
            lemma_digits(b.len());
            assert(encode(v)[0] == digits(b.len())[0]);
        },
        BenValue::Int(i) => {},
        BenValue::List(l) => {},
        BenValue::Dict(d) => {},
    }
}

/// The encoding of a list starts with the encoding of its first item.
pub proof fn lemma_encode_list_front(l: Seq<BenValue>)
    requires
        l.len() > 0,
    ensures
        encode_list(l) == encode(l[0]) + encode_list(l.drop_first()),
    decreases l.len(),
{
    if l.len() == 1 {
        assert(l.drop_last() =~= Seq::<BenValue>::empty());
        assert(l.drop_first() =~= Seq::<BenValue>::empty());
        assert(encode_list(l.drop_last()) =~= Seq::<u8>::empty());
        assert(encode_list(l) =~= encode(l[0]) + encode_list(l.drop_first()));
    } else {
        let init = l.drop_last();
        let tail = l.drop_first();
        lemma_encode_list_front(init);
        assert(init.drop_first() =~= tail.drop_last());
        assert(init[0] == l[0]);
        assert(tail.last() == l.last());
        assert(encode_list(l) =~= encode(l[0]) + encode_list(tail));
    }
}

/// The encoding of a dictionary's entries starts with its first entry.
pub proof fn lemma_encode_entries_front(d: Seq<(Seq<u8>, BenValue)>)
    requires
        d.len() > 0,
    ensures
        encode_entries(d) == encode_string(d[0].0) + encode(d[0].1) + encode_entries(
            d.drop_first(),
        ),
    decreases d.len(),
{
    if d.len() == 1 {
        assert(d.drop_last() =~= Seq::<(Seq<u8>, BenValue)>::empty());
        assert(d.drop_first() =~= Seq::<(Seq<u8>, BenValue)>::empty());
        assert(encode_entries(d.drop_last()) =~= Seq::<u8>::empty());
        assert(encode_entries(d) =~= encode_string(d[0].0) + encode(d[0].1) + encode_entries(
            d.drop_first(),
        ));
    } else {
        let init = d.drop_last();
        let tail = d.drop_first();
        lemma_encode_entries_front(init);
        assert(init.drop_first() =~= tail.drop_last());
        assert(init[0] == d[0]);
        assert(tail.last() == d.last());
        assert(encode_entries(d) =~= encode_string(d[0].0) + encode(d[0].1) + encode_entries(
            tail,
        ));
    }
}

/// An encoded value is read back, whatever follows it.
pub proof fn lemma_parse_value(v: BenValue, rest: Seq<u8>)
    requires
        v.wf(),
    ensures
        parse_value(encode(v) + rest) == Ok::<(BenValue, int), BencodeError>(
            (v, encode(v).len() as int),
        ),
    decreases v,
{
    let s = encode(v) + rest;
    match v {
        BenValue::String(b) => {
            lemma_parse_bytes(b, rest);
        },
        BenValue::Int(i) => {
            lemma_parse_int(i, rest);
        },
        BenValue::List(l) => {
            assert(s.skip(1) =~= encode_list(l) + seq![LIST_POSTFIX] + rest);
            lemma_parse_items(l, Seq::empty(), rest);
            assert(Seq::<BenValue>::empty() + l =~= l);
        },
        BenValue::Dict(d) => {
            assert(s.skip(1) =~= encode_entries(d) + seq![DICT_POSTFIX] + rest);
            lemma_parse_entries(d, Seq::empty(), rest);
            assert(Seq::<(Seq<u8>, BenValue)>::empty() + d =~= d);
        },
    }
}

/// The encoded items of a list and the `e` that closes it are read back
/// behind the items that were read before.
pub proof fn lemma_parse_items(l: Seq<BenValue>, acc: Seq<BenValue>, rest: Seq<u8>)
    requires
        forall|i: int| 0 <= i < l.len() ==> (#[trigger] l[i]).wf(),
    ensures
        parse_items(encode_list(l) + seq![LIST_POSTFIX] + rest, acc) == Ok::<
            (Seq<BenValue>, int),
            BencodeError,
        >((acc + l, (encode_list(l).len() + 1) as int)),
    decreases l,
{
    let s = encode_list(l) + seq![LIST_POSTFIX] + rest;
    if l.len() == 0 {
        assert(acc + l =~= acc);
    } else {
        let tail = l.drop_first();
        let after_first = encode_list(tail) + seq![LIST_POSTFIX] + rest;
        let n = encode(l[0]).len() as int;
        lemma_encode_list_front(l);
        lemma_encode_first(l[0]);
        assert(s =~= encode(l[0]) + after_first);
        assert(s[0] == encode(l[0])[0]);
        lemma_parse_value(l[0], after_first);
        assert(s.skip(n) =~= after_first);
        assert forall|i: int| 0 <= i < tail.len() implies (#[trigger] tail[i]).wf() by {
            assert(tail[i] == l[i + 1]);
        }
        lemma_parse_items(tail, acc.push(l[0]), rest);
        assert(acc.push(l[0]) + tail =~= acc + l);
    }
}

/// An entry whose key comes after every key of a dictionary joins it at the end.
pub proof fn lemma_dict_insert_last(acc: Seq<(Seq<u8>, BenValue)>, k: Seq<u8>, v: BenValue)
    requires
        forall|i: int| 0 <= i < acc.len() ==> lex_lt((#[trigger] acc[i]).0, k),
    ensures
        !dict_contains(acc, k),
        dict_insert(acc, k, v) == acc.push((k, v)),
{
    assert forall|i: int| 0 <= i < acc.len() implies (#[trigger] acc[i]).0 != k by {
        lemma_lex_lt_irreflexive(k);
    }
    lemma_dict_find(acc, k, acc.len() as int);
    lemma_lower_bound(acc, k, acc.len() as int);
    assert(dict_insert(acc, k, v) =~= acc.push((k, v)));
}

/// What is left of a well-formed dictionary behind its first entry is
/// well-formed, and its keys come after the first.
pub proof fn lemma_entries_tail(d: Seq<(Seq<u8>, BenValue)>)
    requires
        d.len() > 0,
        keys_sorted(d),
        forall|i: int| 0 <= i < d.len() ==> (#[trigger] d[i]).0.len() <= i64::MAX && d[i].1.wf(),
    ensures
        keys_sorted(d.drop_first()),
        forall|i: int|
            0 <= i < d.drop_first().len() ==> (#[trigger] d.drop_first()[i]).0.len() <= i64::MAX
                && d.drop_first()[i].1.wf(),
        d.len() > 1 ==> lex_lt(d[0].0, d.drop_first()[0].0),
{
    let tail = d.drop_first();
    assert forall|i: int, j: int| #![trigger tail[i], tail[j]] 0 <= i < j < tail.len() implies lex_lt(
        tail[i].0,
        tail[j].0,
    ) by {
        assert(tail[i] == d[i + 1] && tail[j] == d[j + 1]);
    }
    assert forall|i: int| 0 <= i < tail.len() implies (#[trigger] tail[i]).0.len() <= i64::MAX
        && tail[i].1.wf() by {
        assert(tail[i] == d[i + 1]);
    }
    if d.len() > 1 {
        assert(tail[0] == d[1]);
        assert(lex_lt(d[0].0, d[1].0));
    }
}

/// The encoded entries of a dictionary and the `e` that closes it are read
/// back behind the entries that were read before, where those have smaller keys.
pub proof fn lemma_parse_entries(
    d: Seq<(Seq<u8>, BenValue)>,
    acc: Seq<(Seq<u8>, BenValue)>,
    rest: Seq<u8>,
)
    requires
        keys_sorted(d),
        forall|i: int| 0 <= i < d.len() ==> (#[trigger] d[i]).0.len() <= i64::MAX && d[i].1.wf(),
        d.len() > 0 ==> forall|i: int| 0 <= i < acc.len() ==> lex_lt((#[trigger] acc[i]).0, d[0].0),
    ensures
        parse_entries(encode_entries(d) + seq![DICT_POSTFIX] + rest, acc) == Ok::<
            (Seq<(Seq<u8>, BenValue)>, int),
            BencodeError,
        >((acc + d, (encode_entries(d).len() + 1) as int)),
    decreases d,
{
    let s = encode_entries(d) + seq![DICT_POSTFIX] + rest;
    if d.len() == 0 {
        assert(acc + d =~= acc);
    } else {
        let k = d[0].0;
        let v = d[0].1;
        let tail = d.drop_first();
        let after_entry = encode_entries(tail) + seq![DICT_POSTFIX] + rest;
        let after_key = encode(v) + after_entry;
        let n = encode_string(k).len() as int;
        let m = encode(v).len() as int;
        let next = acc.push(d[0]);
        assert(s =~= encode_string(k) + after_key && s.skip(n) =~= after_key && s.skip(n + m)
            =~= after_entry) by {
            lemma_encode_entries_front(d);
        }
        lemma_parse_bytes(k, after_key);
        lemma_dict_insert_last(acc, k, v);
        lemma_encode_first(v);
        lemma_parse_value(v, after_entry);
        lemma_entries_tail(d);
        assert(tail.len() > 0 ==> forall|i: int|
            0 <= i < next.len() ==> lex_lt((#[trigger] next[i]).0, tail[0].0)) by {
            if tail.len() > 0 {
                assert forall|i: int| 0 <= i < next.len() implies lex_lt(
                    (#[trigger] next[i]).0,
                    tail[0].0,
                ) by {
                    if i < acc.len() {
                        assert(next[i] == acc[i]);
                        lemma_lex_lt_transitive(acc[i].0, k, tail[0].0);
                    }
                }
            }
        }
        lemma_parse_entries(tail, next, rest);
        assert(next + tail =~= acc + d);
    }
}

/// Decoding undoes encoding: the bytes that a well-formed value is written
/// as are read back as that value, whatever follows them.
pub proof fn law_decode_encode(v: BenValue, rest: Seq<u8>)
    requires
        v.wf(),
    ensures
        decode(encode(v) + rest) == Ok::<BenValue, BencodeError>(v),
        decode(encode(v)) == Ok::<BenValue, BencodeError>(v),
{
    lemma_parse_value(v, rest);
    lemma_parse_value(v, Seq::empty());
    assert(encode(v) + Seq::<u8>::empty() =~= encode(v));
}

/// Two well-formed values that are written as the same bytes are the same value.
pub proof fn law_encode_injective(a: BenValue, b: BenValue)
    requires
        a.wf(),
        b.wf(),
        encode(a) == encode(b),
    ensures
        a == b,
{
    law_decode_encode(a, Seq::empty());
    law_decode_encode(b, Seq::empty());
}

/// Bytes that an encoder has written are written again when what they
/// decode to is encoded.
pub proof fn law_encode_decode(v: BenValue)
    requires
        v.wf(),
    ensures
        decode(encode(v)) matches Ok(w) && encode(w) == encode(v),
{
    law_decode_encode(v, Seq::empty());
}

/// In a sorted dictionary each key is found where it stands.
pub proof fn lemma_dict_find_sorted(d: Seq<(Seq<u8>, BenValue)>, i: int)
    requires
        keys_sorted(d),
        0 <= i < d.len(),
    ensures
        dict_find(d, d[i].0) == i,
        dict_get(d, d[i].0) == Some(d[i].1),
{
    assert forall|j: int| 0 <= j < i implies (#[trigger] d[j]).0 != d[i].0 by {
        assert(lex_lt(d[j].0, d[i].0));
        lemma_lex_lt_irreflexive(d[i].0);
    }
    lemma_dict_find(d, d[i].0, i);
}

/// What a dictionary holds under a key other than its first, it holds
/// behind its first entry; under its first key it holds nothing there.
pub proof fn lemma_dict_get_tail(d: Seq<(Seq<u8>, BenValue)>, q: Seq<u8>)
    requires
        keys_sorted(d),
        d.len() > 0,
    ensures
        keys_sorted(d.drop_first()),
        q != d[0].0 ==> dict_get(d.drop_first(), q) == dict_get(d, q),
        q == d[0].0 ==> dict_get(d.drop_first(), q) is None,
{
    let tail = d.drop_first();
    assert forall|i: int, j: int| #![trigger tail[i], tail[j]] 0 <= i < j < tail.len() implies lex_lt(
        tail[i].0,
        tail[j].0,
    ) by {
        assert(tail[i] == d[i + 1] && tail[j] == d[j + 1]);
    }
    lemma_dict_find_bounds(tail, q);
    if q == d[0].0 {
        assert forall|j: int| 0 <= j < tail.len() implies (#[trigger] tail[j]).0 != q by {
            assert(tail[j] == d[j + 1]);
            assert(lex_lt(d[0].0, d[j + 1].0));
            lemma_lex_lt_irreflexive(q);
        }
        lemma_dict_find(tail, q, tail.len() as int);
    } else {
        let f = dict_find(tail, q);
        if f < tail.len() {
            assert(tail[f] == d[f + 1]);
        }
    }
}

/// A sorted dictionary is what it maps to what: two that hold the same
/// value, or none, under every key are the same sequence of entries.
pub proof fn law_dict_extensional(a: Seq<(Seq<u8>, BenValue)>, b: Seq<(Seq<u8>, BenValue)>)
    requires
        keys_sorted(a),
        keys_sorted(b),
        forall|q: Seq<u8>| dict_get(a, q) == dict_get(b, q),
    ensures
        a == b,
    decreases a.len(),
{
    if a.len() == 0 {
        if b.len() > 0 {
            lemma_dict_find_sorted(b, 0);
            assert(dict_get(a, b[0].0) is None);
        }
        assert(a =~= b);
    } else {
        let ka = a[0].0;
        lemma_dict_find_sorted(a, 0);
        assert(dict_get(b, ka) == Some(a[0].1));
        lemma_dict_find_bounds(b, ka);
        let fb = dict_find(b, ka);
        let kb = b[0].0;
        lemma_dict_find_sorted(b, 0);
        assert(dict_get(a, kb) == Some(b[0].1));
        lemma_dict_find_bounds(a, kb);
        let fa = dict_find(a, kb);
        if fb > 0 {
            assert(lex_lt(b[0].0, b[fb].0));
            if fa > 0 {
                assert(lex_lt(a[0].0, a[fa].0));
                lemma_lex_lt_transitive(ka, kb, ka);
            }
            lemma_lex_lt_irreflexive(ka);
        }
        assert(a[0] == b[0]);
        let ta = a.drop_first();
        let tb = b.drop_first();
        assert forall|q: Seq<u8>| dict_get(ta, q) == dict_get(tb, q) by {
            lemma_dict_get_tail(a, q);
            lemma_dict_get_tail(b, q);
        }
        lemma_dict_get_tail(a, ka);
        lemma_dict_get_tail(b, ka);
        law_dict_extensional(ta, tb);
        assert(a =~= seq![a[0]] + ta);
        assert(b =~= seq![b[0]] + tb);
    }
}

/// The encoding of a dictionary is canonical: its keys are written in
/// strictly increasing order of their bytes, and two well-formed
/// dictionaries that hold the same value, or none, under every key are
/// written as the same bytes.
pub proof fn law_encode_canonical(a: Seq<(Seq<u8>, BenValue)>, b: Seq<(Seq<u8>, BenValue)>)
    requires
        BenValue::Dict(a).wf(),
        BenValue::Dict(b).wf(),
        forall|q: Seq<u8>| dict_get(a, q) == dict_get(b, q),
    ensures
        encode(BenValue::Dict(a)) == encode(BenValue::Dict(b)),
        forall|i: int, j: int| 0 <= i < j < a.len() ==> lex_lt(#[trigger] a[i].0, #[trigger] a[j].0),
{
    law_dict_extensional(a, b);
}

/// After an entry is put into a sorted dictionary, its key holds the new
/// value and every other key what it held.
pub proof fn law_dict_get_insert(
    d: Seq<(Seq<u8>, BenValue)>,
    k: Seq<u8>,
    v: BenValue,
    q: Seq<u8>,
)
    requires
        keys_sorted(d),
    ensures
        dict_get(dict_insert(d, k, v), q) == if q == k {
            Some(v)
        } else {
            dict_get(d, q)
        },
{
    let r = dict_insert(d, k, v);
    let p = lower_bound(d, k);
    lemma_dict_insert_sorted(d, k, v);
    lemma_lower_bound_bounds(d, k);
    lemma_dict_find_bounds(d, q);
    let f = dict_find(d, q);
    let replaced = p < d.len() && d[p].0 == k;
    if q == k {
        lemma_dict_find_sorted(r, p);
    } else if f < d.len() {
        let g = if replaced || f < p {
            f
        } else {
            f + 1
        };
        assert(r[g] == d[f]);
        lemma_dict_find_sorted(r, g);
    } else {
        assert forall|j: int| 0 <= j < r.len() implies (#[trigger] r[j]).0 != q by {
            if replaced {
                if j != p {
                    assert(r[j] == d[j]);
                }
            } else if j < p {
                assert(r[j] == d[j]);
            } else if j > p {
                assert(r[j] == d[j - 1]);
            }
        }
        lemma_dict_find(r, q, r.len() as int);
    }
}

/// After an entry is taken out of a sorted dictionary, its key holds
/// nothing and every other key what it held.
pub proof fn law_dict_get_remove(d: Seq<(Seq<u8>, BenValue)>, k: Seq<u8>, q: Seq<u8>)
    requires
        keys_sorted(d),
    ensures
        keys_sorted(dict_remove(d, k)),
        dict_get(dict_remove(d, k), q) == if q == k {
            None
        } else {
            dict_get(d, q)
        },
{
    let r = dict_remove(d, k);
    let f = dict_find(d, k);
    lemma_dict_remove_sorted(d, k);
    lemma_dict_find_bounds(d, k);
    lemma_dict_find_bounds(d, q);
    let g = dict_find(d, q);
    if f < d.len() {
        if q != k && g < d.len() {
            let h = if g < f {
                g
            } else {
                g - 1
            };
            assert(r[h] == d[g]);
            lemma_dict_find_sorted(r, h);
        } else {
            assert forall|j: int| 0 <= j < r.len() implies (#[trigger] r[j]).0 != q by {
                let j0 = if j < f {
                    j
                } else {
                    j + 1
                };
                assert(r[j] == d[j0]);
                if q == k {
                    lemma_dict_find_sorted(d, j0);
                }
            }
            lemma_dict_find(r, q, r.len() as int);
        }
    }
}

/// The order in which two entries with different keys are put into a
/// sorted dictionary does not show in it, nor in its encoding.
pub proof fn law_dict_insert_order(
    d: Seq<(Seq<u8>, BenValue)>,
    k1: Seq<u8>,
    v1: BenValue,
    k2: Seq<u8>,
    v2: BenValue,
)
    requires
        keys_sorted(d),
        k1 != k2,
    ensures
        dict_insert(dict_insert(d, k1, v1), k2, v2) == dict_insert(dict_insert(d, k2, v2), k1, v1),
{
    let a1 = dict_insert(d, k1, v1);
    let b1 = dict_insert(d, k2, v2);
    let a2 = dict_insert(a1, k2, v2);
    let b2 = dict_insert(b1, k1, v1);
    lemma_dict_insert_sorted(d, k1, v1);
    lemma_dict_insert_sorted(d, k2, v2);
    lemma_dict_insert_sorted(a1, k2, v2);
    lemma_dict_insert_sorted(b1, k1, v1);
    assert forall|q: Seq<u8>| dict_get(a2, q) == dict_get(b2, q) by {
        law_dict_get_insert(d, k1, v1, q);
        law_dict_get_insert(d, k2, v2, q);
        law_dict_get_insert(a1, k2, v2, q);
        law_dict_get_insert(b1, k1, v1, q);
    }
    law_dict_extensional(a2, b2);
}

/// A number that is read takes at least one byte and leaves at least one.
pub proof fn lemma_parse_decimal_sound(s: Seq<u8>)
    ensures
        match parse_decimal(s) {
            Ok((num, len)) => 0 < len < s.len(),
            Err(e) => e != BencodeError::Unknown,
        },
{
    let sign: int = if s.len() > 0 && s[0] == 45 {
        1
    } else {
        0
    };
    if s.len() > sign {
        lemma_digit_run_bounds(s, sign);
    }
}

/// A byte string that is read lies within the input and is well-formed.
pub proof fn lemma_parse_bytes_sound(s: Seq<u8>)
    ensures
        match parse_bytes(s) {
            Ok((b, n)) => 0 < n <= s.len() && b.len() <= i64::MAX,
            Err(e) => e != BencodeError::Unknown,
        },
{
    lemma_parse_decimal_sound(s);
}

/// A value that is read lies within the input and is well-formed, and no
/// input is refused for an unknown reason.
pub proof fn lemma_parse_value_sound(s: Seq<u8>)
    ensures
        match parse_value(s) {
            Ok((v, n)) => 0 < n <= s.len() && v.wf(),
            Err(e) => e != BencodeError::Unknown,
        },
    decreases s.len(), 0int,
{
    if s.len() > 0 {
        if s[0] == 100 {
            lemma_parse_entries_sound(s.skip(1), Seq::empty());
        } else if s[0] == 108 {
            lemma_parse_items_sound(s.skip(1), Seq::empty());
        } else if s[0] == 105 {
            lemma_parse_decimal_sound(s.skip(1));
        } else if is_digit(s[0]) {
            lemma_parse_bytes_sound(s);
        }
    }
}

pub proof fn lemma_parse_items_sound(s: Seq<u8>, acc: Seq<BenValue>)
    requires
        forall|i: int| 0 <= i < acc.len() ==> (#[trigger] acc[i]).wf(),
    ensures
        match parse_items(s, acc) {
            Ok((l, n)) => 0 < n <= s.len() && forall|i: int|
                0 <= i < l.len() ==> (#[trigger] l[i]).wf(),
            Err(e) => e != BencodeError::Unknown,
        },
    decreases s.len(), 1int,
{
    if s.len() > 0 && s[0] != 101 {
        lemma_parse_value_sound(s);
        if let Ok((v, n)) = parse_value(s) {
            lemma_parse_items_sound(s.skip(n), acc.push(v));
        }
    }
}

pub proof fn lemma_parse_entries_sound(s: Seq<u8>, acc: Seq<(Seq<u8>, BenValue)>)
    requires
        entries_wf(acc),
    ensures
        match parse_entries(s, acc) {
            Ok((d, n)) => 0 < n <= s.len() && entries_wf(d),
            Err(e) => e != BencodeError::Unknown,
        },
    decreases s.len(), 1int,
{
    if s.len() > 0 && s[0] != 101 && is_digit(s[0]) {
        lemma_parse_bytes_sound(s);
        if let Ok((k, n)) = parse_bytes(s) {
            if !dict_contains(acc, k) {
                lemma_parse_value_sound(s.skip(n));
                if let Ok((v, m)) = parse_value(s.skip(n)) {
                    lemma_dict_insert_wf(acc, k, v);
                    lemma_parse_entries_sound(s.skip(n + m), dict_insert(acc, k, v));
                }
            }
        }
    }
}

/// What the decoder accepts is well-formed: every dictionary in it has its
/// keys in strictly increasing order, whatever their order in the input.
/// And where it refuses an input, it says why.
pub proof fn law_decode_well_formed(s: Seq<u8>)
    ensures
        decode(s) matches Ok(v) ==> v.wf(),
        decode(s) != Err::<BenValue, BencodeError>(BencodeError::Unknown),
{
    lemma_parse_value_sound(s);
}

/// What was decoded can be written and decoded again to the same value.
pub proof fn law_decode_again(s: Seq<u8>)
    ensures
        decode(s) matches Ok(v) ==> decode(encode(v)) == Ok::<BenValue, BencodeError>(v),
{
    law_decode_well_formed(s);
    if let Ok(v) = decode(s) {
        law_decode_encode(v, Seq::empty());
    }
}

/// A number with a zero in front of another digit is refused, with or without a sign.
pub proof fn lemma_leading_zero(sign: Seq<u8>, rest: Seq<u8>)
    requires
        sign.len() == 0 || sign == seq![45u8],
        rest.len() > 0,
        is_digit(rest[0]),
    ensures
        parse_decimal(sign + seq![48u8] + rest) == Err::<(i64, int), BencodeError>(
            BencodeError::Invalid,
        ) || parse_decimal(sign + seq![48u8] + rest) == Err::<(i64, int), BencodeError>(
            BencodeError::EOF,
        ),
{
    reveal_with_fuel(digit_run, 3);
    let s = sign + seq![48u8] + rest;
    let w = sign.len() as int;
    assert(s[w] == 48);
    assert(s[w + 1] == rest[0]);
    lemma_digit_run_bounds(s, w + 2);
    let end = digit_run(s, w);
    if end < s.len() {
        assert(s.subrange(w, end)[0] == 48);
    }
}

/// A number with a zero in front of another digit is refused, as the
/// length of a byte string and as an integer: with `Invalid` where the
/// digits end within the input, with `EOF` where they do not.
pub proof fn law_leading_zero(sign: Seq<u8>, rest: Seq<u8>)
    requires
        sign.len() == 0 || sign == seq![45u8],
        rest.len() > 0,
        is_digit(rest[0]),
    ensures
        parse_value(seq![48u8] + rest) == Err::<(BenValue, int), BencodeError>(
            BencodeError::Invalid,
        ) || parse_value(seq![48u8] + rest) == Err::<(BenValue, int), BencodeError>(
            BencodeError::EOF,
        ),
        parse_value(seq![105u8] + sign + seq![48u8] + rest) == Err::<(BenValue, int), BencodeError>(
            BencodeError::Invalid,
        ) || parse_value(seq![105u8] + sign + seq![48u8] + rest) == Err::<
            (BenValue, int),
            BencodeError,
        >(BencodeError::EOF),
{
    lemma_leading_zero(Seq::empty(), rest);
    assert(Seq::<u8>::empty() + seq![48u8] + rest =~= seq![48u8] + rest);
    lemma_leading_zero(sign, rest);
    assert((seq![105u8] + sign + seq![48u8] + rest).skip(1) =~= sign + seq![48u8] + rest);
}

/// A negative zero is refused.
pub proof fn law_negative_zero(rest: Seq<u8>)
    requires
        rest.len() > 0,
        !is_digit(rest[0]),
    ensures
        parse_decimal(seq![45u8, 48u8] + rest) == Err::<(i64, int), BencodeError>(
            BencodeError::Invalid,
        ),
        parse_value(seq![105u8, 45u8, 48u8] + rest) == Err::<(BenValue, int), BencodeError>(
            BencodeError::Invalid,
        ),
{
    let s = seq![45u8, 48u8] + rest;
    lemma_digit_run(s, 1, 2);
    assert(s.subrange(1, 2)[0] == 48);
    assert((seq![105u8, 45u8, 48u8] + rest).skip(1) =~= s);
}

/// A byte string that is cut off inside its bytes is refused with `EOF`.
pub proof fn law_truncated_string(b: Seq<u8>, cut: int)
    requires
        b.len() <= i64::MAX,
        0 < cut <= b.len(),
    ensures
        parse_bytes(encode_string(b).take(encode_string(b).len() - cut)) == Err::<
            (Seq<u8>, int),
            BencodeError,
        >(BencodeError::EOF),
        parse_value(encode_string(b).take(encode_string(b).len() - cut)) == Err::<
            (BenValue, int),
            BencodeError,
        >(BencodeError::EOF),
{
    let s = encode_string(b).take(encode_string(b).len() - cut);
    let tail = seq![58u8] + b.take(b.len() - cut);
    let n = b.len() as i64;
    lemma_digits(b.len());
    assert(s =~= decimal(n as int) + tail);
    lemma_parse_decimal(n, tail);
    let len = digits(b.len()).len() as int;
    assert(s[len] == 58);
    assert(s[0] == digits(b.len())[0]);
}

} // verus!
