//! The values of bencode: their mathematical model, and the owned tree that
//! the codec reads and writes.

use vstd::prelude::*;
use crate::bencode::order::{key_eq, key_lt, lex_lt, lemma_lex_lt_irreflexive, lemma_lex_lt_total, lemma_lex_lt_transitive};

verus! {

/// A bencoded value as mathematics. A dictionary is the sequence of its
/// entries, which in a well-formed value stand in strictly increasing order
/// of their keys, so that equal dictionaries are equal sequences.
pub enum BenValue {
    String(Seq<u8>),
    Int(i64),
    List(Seq<BenValue>),
    Dict(Seq<(Seq<u8>, BenValue)>),
}

/// The keys stand in strictly increasing order of raw bytes; no key occurs twice.
pub open spec fn keys_sorted(d: Seq<(Seq<u8>, BenValue)>) -> bool {
    forall|i: int, j: int| #![trigger d[i], d[j]] 0 <= i < j < d.len() ==> lex_lt(d[i].0, d[j].0)
}

impl BenValue {
    /// Every dictionary in the value has its keys in strictly increasing
    /// order, and the length of every byte string fits a signed 64-bit
    /// integer, as the wire format asks.
    pub open spec fn wf(self) -> bool
        decreases self,
    {
        match self {
            BenValue::String(b) => b.len() <= i64::MAX,
            BenValue::Int(_) => true,
            BenValue::List(l) => forall|i: int| 0 <= i < l.len() ==> (#[trigger] l[i]).wf(),
            BenValue::Dict(d) => keys_sorted(d) && forall|i: int|
                0 <= i < d.len() ==> (#[trigger] d[i]).0.len() <= i64::MAX && d[i].1.wf(),
        }
    }
}

/// The entries of a well-formed dictionary.
pub open spec fn entries_wf(d: Seq<(Seq<u8>, BenValue)>) -> bool {
    BenValue::Dict(d).wf()
}

/// The index of the first entry under `k`, or the number of entries where there is none.
pub open spec fn dict_find(d: Seq<(Seq<u8>, BenValue)>, k: Seq<u8>) -> int
    decreases d.len(),
{
    if d.len() == 0 {
        0
    } else if d[0].0 == k {
        0
    } else {
        1 + dict_find(d.drop_first(), k)
    }
}

pub open spec fn dict_contains(d: Seq<(Seq<u8>, BenValue)>, k: Seq<u8>) -> bool {
    dict_find(d, k) < d.len()
}

/// The value under `k`.
pub open spec fn dict_get(d: Seq<(Seq<u8>, BenValue)>, k: Seq<u8>) -> Option<BenValue> {
    if dict_contains(d, k) {
        Some(d[dict_find(d, k)].1)
    } else {
        None
    }
}

/// The dictionary without its entry under `k`.
pub open spec fn dict_remove(d: Seq<(Seq<u8>, BenValue)>, k: Seq<u8>) -> Seq<(Seq<u8>, BenValue)> {
    if dict_contains(d, k) {
        d.remove(dict_find(d, k))
    } else {
        d
    }
}

/// How many entries at the start have a key that comes before `k`.
pub open spec fn lower_bound(d: Seq<(Seq<u8>, BenValue)>, k: Seq<u8>) -> int
    decreases d.len(),
{
    if d.len() == 0 || !lex_lt(d[0].0, k) {
        0
    } else {
        1 + lower_bound(d.drop_first(), k)
    }
}

/// The dictionary with `v` under `k`, in place of what stood there or at
/// the place that the order of keys gives it.
pub open spec fn dict_insert(d: Seq<(Seq<u8>, BenValue)>, k: Seq<u8>, v: BenValue) -> Seq<
    (Seq<u8>, BenValue),
> {
    let p = lower_bound(d, k);
    if p < d.len() && d[p].0 == k {
        d.update(p, (k, v))
    } else {
        d.insert(p, (k, v))
    }
}

/// The dictionary that holds the pairs from `i` on, put one by one into `d`.
pub open spec fn dict_insert_all(
    d: Seq<(Seq<u8>, BenValue)>,
    pairs: Seq<(Seq<u8>, BenValue)>,
    i: int,
) -> Seq<(Seq<u8>, BenValue)>
    decreases pairs.len() - i,
{
    if i < 0 || i >= pairs.len() {
        d
    } else {
        dict_insert_all(dict_insert(d, pairs[i].0, pairs[i].1), pairs, i + 1)
    }
}

pub proof fn lemma_dict_find(d: Seq<(Seq<u8>, BenValue)>, k: Seq<u8>, i: int)
    requires
        0 <= i <= d.len(),
        forall|j: int| 0 <= j < i ==> (#[trigger] d[j]).0 != k,
        i == d.len() || d[i].0 == k,
    ensures
        dict_find(d, k) == i,
    decreases i,
{
    if i > 0 {
        let t = d.drop_first();
        assert forall|j: int| 0 <= j < i - 1 implies (#[trigger] t[j]).0 != k by {
            assert(t[j] == d[j + 1]);
        }
        lemma_dict_find(t, k, i - 1);
    }
}

pub proof fn lemma_dict_find_bounds(d: Seq<(Seq<u8>, BenValue)>, k: Seq<u8>)
    ensures
        0 <= dict_find(d, k) <= d.len(),
        forall|j: int| 0 <= j < dict_find(d, k) ==> (#[trigger] d[j]).0 != k,
        dict_find(d, k) < d.len() ==> d[dict_find(d, k)].0 == k,
    decreases d.len(),
{
    if d.len() > 0 && d[0].0 != k {
        let t = d.drop_first();
        lemma_dict_find_bounds(t, k);
        assert forall|j: int| 0 <= j < dict_find(d, k) implies (#[trigger] d[j]).0 != k by {
            if j > 0 {
                assert(d[j] == t[j - 1]);
            }
        }
    }
}

pub proof fn lemma_lower_bound(d: Seq<(Seq<u8>, BenValue)>, k: Seq<u8>, p: int)
    requires
        0 <= p <= d.len(),
        forall|j: int| 0 <= j < p ==> lex_lt((#[trigger] d[j]).0, k),
        p == d.len() || !lex_lt(d[p].0, k),
    ensures
        lower_bound(d, k) == p,
    decreases p,
{
    if p > 0 {
        let t = d.drop_first();
        assert(lex_lt(d[0].0, k));
        assert forall|j: int| 0 <= j < p - 1 implies lex_lt((#[trigger] t[j]).0, k) by {
            assert(t[j] == d[j + 1]);
        }
        lemma_lower_bound(t, k, p - 1);
    }
}

pub proof fn lemma_lower_bound_bounds(d: Seq<(Seq<u8>, BenValue)>, k: Seq<u8>)
    ensures
        0 <= lower_bound(d, k) <= d.len(),
        forall|j: int| 0 <= j < lower_bound(d, k) ==> lex_lt((#[trigger] d[j]).0, k),
        lower_bound(d, k) < d.len() ==> !lex_lt(d[lower_bound(d, k)].0, k),
    decreases d.len(),
{
    if d.len() > 0 && lex_lt(d[0].0, k) {
        let t = d.drop_first();
        lemma_lower_bound_bounds(t, k);
        assert forall|j: int| 0 <= j < lower_bound(d, k) implies lex_lt((#[trigger] d[j]).0, k) by {
            if j > 0 {
                assert(d[j] == t[j - 1]);
            }
        }
    }
}

/// In a sorted dictionary every key from the lower bound of `k` on is `k`
/// or comes after it, and only the entry at the bound can be under `k`.
pub proof fn lemma_lower_bound_sorted(d: Seq<(Seq<u8>, BenValue)>, k: Seq<u8>)
    requires
        keys_sorted(d),
    ensures
        forall|j: int|
            lower_bound(d, k) < j < d.len() ==> lex_lt(k, (#[trigger] d[j]).0),
        lower_bound(d, k) < d.len() && d[lower_bound(d, k)].0 != k ==> lex_lt(
            k,
            d[lower_bound(d, k)].0,
        ),
        dict_find(d, k) < d.len() ==> dict_find(d, k) == lower_bound(d, k),
        dict_find(d, k) >= d.len() ==> (lower_bound(d, k) == d.len() || d[lower_bound(d, k)].0
            != k),
{
    let p = lower_bound(d, k);
    lemma_lower_bound_bounds(d, k);
    lemma_dict_find_bounds(d, k);
    if p < d.len() {
        lemma_lex_lt_total(k, d[p].0);
        assert forall|j: int| p < j < d.len() implies lex_lt(k, (#[trigger] d[j]).0) by {
            assert(lex_lt(d[p].0, d[j].0));
            if d[p].0 != k {
                lemma_lex_lt_transitive(k, d[p].0, d[j].0);
            }
        }
    }
    let f = dict_find(d, k);
    if f < d.len() {
        lemma_lex_lt_irreflexive(k);
        if f < p {
            assert(lex_lt(d[f].0, k));
        } else if f > p {
            assert(lex_lt(k, d[f].0));
        }
    } else if p < d.len() && d[p].0 == k {
        assert(d[p].0 != k);
    }
}

/// Putting an entry into a sorted dictionary leaves it sorted.
pub proof fn lemma_dict_insert_sorted(d: Seq<(Seq<u8>, BenValue)>, k: Seq<u8>, v: BenValue)
    requires
        keys_sorted(d),
    ensures
        keys_sorted(dict_insert(d, k, v)),
{
    let p = lower_bound(d, k);
    let r = dict_insert(d, k, v);
    lemma_lower_bound_bounds(d, k);
    lemma_lower_bound_sorted(d, k);
    if p < d.len() && d[p].0 == k {
        assert forall|i: int, j: int| #![trigger r[i], r[j]] 0 <= i < j < r.len() implies lex_lt(
            r[i].0,
            r[j].0,
        ) by {
            assert(r[i].0 == d[i].0);
            assert(r[j].0 == d[j].0);
            assert(lex_lt(d[i].0, d[j].0));
        }
    } else {
        assert forall|i: int, j: int| #![trigger r[i], r[j]] 0 <= i < j < r.len() implies lex_lt(
            r[i].0,
            r[j].0,
        ) by {
            if j < p {
                assert(r[i] == d[i] && r[j] == d[j]);
                assert(lex_lt(d[i].0, d[j].0));
            } else if j == p {
                assert(r[i] == d[i]);
                assert(lex_lt(d[i].0, k));
            } else if i < p {
                assert(r[i] == d[i] && r[j] == d[j - 1]);
                if i < j - 1 {
                    assert(lex_lt(d[i].0, d[j - 1].0));
                }
            } else if i == p {
                assert(r[j] == d[j - 1]);
                if j - 1 == p {
                    assert(lex_lt(k, d[p].0));
                } else {
                    assert(lex_lt(k, d[j - 1].0));
                }
            } else {
                assert(r[i] == d[i - 1] && r[j] == d[j - 1]);
                assert(lex_lt(d[i - 1].0, d[j - 1].0));
            }
        }
    }
}

/// Putting a well-formed value into a well-formed dictionary leaves it well-formed.
pub proof fn lemma_dict_insert_wf(d: Seq<(Seq<u8>, BenValue)>, k: Seq<u8>, v: BenValue)
    requires
        entries_wf(d),
        k.len() <= i64::MAX,
        v.wf(),
    ensures
        entries_wf(dict_insert(d, k, v)),
{
    let p = lower_bound(d, k);
    let r = dict_insert(d, k, v);
    lemma_lower_bound_bounds(d, k);
    lemma_dict_insert_sorted(d, k, v);
    assert forall|i: int| 0 <= i < r.len() implies (#[trigger] r[i]).0.len() <= i64::MAX
        && r[i].1.wf() by {
        if p < d.len() && d[p].0 == k {
            if i != p {
                assert(r[i] == d[i]);
            }
        } else {
            if i < p {
                assert(r[i] == d[i]);
            } else if i > p {
                assert(r[i] == d[i - 1]);
            }
        }
    }
}

/// Taking an entry out of a sorted dictionary leaves it sorted.
pub proof fn lemma_dict_remove_sorted(d: Seq<(Seq<u8>, BenValue)>, k: Seq<u8>)
    requires
        keys_sorted(d),
    ensures
        keys_sorted(dict_remove(d, k)),
{
    let f = dict_find(d, k);
    let r = dict_remove(d, k);
    lemma_dict_find_bounds(d, k);
    if f < d.len() {
        assert forall|i: int, j: int| #![trigger r[i], r[j]] 0 <= i < j < r.len() implies lex_lt(
            r[i].0,
            r[j].0,
        ) by {
            let i0 = if i < f { i } else { i + 1 };
            let j0 = if j < f { j } else { j + 1 };
            assert(r[i] == d[i0] && r[j] == d[j0]);
            assert(lex_lt(d[i0].0, d[j0].0));
        }
    }
}

/// Taking an entry out of a well-formed dictionary leaves it well-formed.
pub proof fn lemma_dict_remove_wf(d: Seq<(Seq<u8>, BenValue)>, k: Seq<u8>)
    requires
        entries_wf(d),
    ensures
        entries_wf(dict_remove(d, k)),
{
    let f = dict_find(d, k);
    let r = dict_remove(d, k);
    lemma_dict_find_bounds(d, k);
    if f < d.len() {
        assert forall|i: int, j: int| #![trigger r[i], r[j]] 0 <= i < j < r.len() implies lex_lt(
            r[i].0,
            r[j].0,
        ) by {
            let i0 = if i < f { i } else { i + 1 };
            let j0 = if j < f { j } else { j + 1 };
            assert(r[i] == d[i0] && r[j] == d[j0]);
            assert(lex_lt(d[i0].0, d[j0].0));
        }
        assert forall|i: int| 0 <= i < r.len() implies (#[trigger] r[i]).0.len() <= i64::MAX
            && r[i].1.wf() by {
            let i0 = if i < f { i } else { i + 1 };
            assert(r[i] == d[i0]);
        }
    }
}

/// A dictionary: byte-string keys with one value each, kept in the order of
/// the keys.
#[derive(Debug, PartialEq, Eq)]
pub struct Dict {
    entries: Vec<(Vec<u8>, BenObject)>,
}

/// A bencoded value: a byte string, an integer, a list or a dictionary.
#[derive(Debug, PartialEq, Eq)]
pub enum BenObject {
    String(Vec<u8>),
    Int(i64),
    List(Vec<BenObject>),
    Dict(Dict),
}

/// The value that an owned tree stands for.
pub closed spec fn model(o: BenObject) -> BenValue
    decreases o,
{
    match o {
        BenObject::String(b) => BenValue::String(b@),
        BenObject::Int(i) => BenValue::Int(i),
        BenObject::List(l) => BenValue::List(
            Seq::new(
                l@.len(),
                |i: int|
                    if 0 <= i < l@.len() {
                        model(l@[i])
                    } else {
                        BenValue::Int(0)
                    },
            ),
        ),
        BenObject::Dict(d) => BenValue::Dict(
            Seq::new(
                d.entries@.len(),
                |i: int|
                    if 0 <= i < d.entries@.len() {
                        (d.entries@[i].0@, model(d.entries@[i].1))
                    } else {
                        (Seq::empty(), BenValue::Int(0))
                    },
            ),
        ),
    }
}

impl View for Dict {
    type V = Seq<(Seq<u8>, BenValue)>;

    closed spec fn view(&self) -> Seq<(Seq<u8>, BenValue)> {
        Seq::new(self.entries@.len(), |i: int| (self.entries@[i].0@, model(self.entries@[i].1)))
    }
}

impl View for BenObject {
    type V = BenValue;

    closed spec fn view(&self) -> BenValue {
        model(*self)
    }
}

/// The items as mathematics.
pub open spec fn list_view(l: Seq<BenObject>) -> Seq<BenValue> {
    Seq::new(l.len(), |i: int| l[i]@)
}

/// What the view of each kind of value is.
pub broadcast proof fn lemma_view(o: BenObject)
    ensures
        #[trigger] o@ == match o {
            BenObject::String(b) => BenValue::String(b@),
            BenObject::Int(i) => BenValue::Int(i),
            BenObject::List(l) => BenValue::List(list_view(l@)),
            BenObject::Dict(d) => BenValue::Dict(d@),
        },
{
    match o {
        BenObject::List(l) => {
            assert(model(o)->List_0 =~= list_view(l@));
        },
        BenObject::Dict(d) => {
            assert(model(o)->Dict_0 =~= d@);
        },
        _ => {},
    }
}

impl Dict {
    /// The keys stand in strictly increasing order, and every value is well-formed.
    pub open spec fn wf(&self) -> bool {
        entries_wf(self@)
    }

    pub fn new() -> (d: Dict)
        ensures
            d@ == Seq::<(Seq<u8>, BenValue)>::empty(),
            d.wf(),
    {
        let d = Dict { entries: Vec::new() };
        assert(d@ =~= Seq::empty());
        d
    }

    pub fn len(&self) -> (n: usize)
        ensures
            n == self@.len(),
    {
        self.entries.len()
    }

    pub fn is_empty(&self) -> (empty: bool)
        ensures
            empty == (self@.len() == 0),
    {
        self.entries.len() == 0
    }

    /// The key of the entry at `i`, in the order of keys.
    pub fn key_at(&self, i: usize) -> (key: &Vec<u8>)
        requires
            i < self@.len(),
        ensures
            key@ == self@[i as int].0,
    {
        &self.entries[i].0
    }

    /// The value of the entry at `i`, in the order of keys.
    pub fn value_at(&self, i: usize) -> (value: &BenObject)
        requires
            i < self@.len(),
        ensures
            value@ == self@[i as int].1,
    {
        &self.entries[i].1
    }

    fn find(&self, key: &[u8]) -> (i: usize)
        ensures
            i == dict_find(self@, key@),
            i <= self@.len(),
    {
        let n = self.entries.len();
        let mut i: usize = 0;
        while i < n
            invariant
                0 <= i <= n,
                n == self.entries@.len(),
                n == self@.len(),
                forall|j: int| 0 <= j < i ==> (#[trigger] self@[j]).0 != key@,
            decreases n - i,
        {
            if key_eq(self.entries[i].0.as_slice(), key) {
                proof {
                    lemma_dict_find(self@, key@, i as int);
                }
                return i;
            }
            i += 1;
        }
        proof {
            lemma_dict_find(self@, key@, i as int);
        }
        i
    }

    fn lower_bound(&self, key: &[u8]) -> (p: usize)
        ensures
            p == lower_bound(self@, key@),
            p <= self@.len(),
    {
        let n = self.entries.len();
        let mut p: usize = 0;
        while p < n
            invariant
                0 <= p <= n,
                n == self.entries@.len(),
                n == self@.len(),
                forall|j: int| 0 <= j < p ==> lex_lt((#[trigger] self@[j]).0, key@),
            decreases n - p,
        {
            if !key_lt(self.entries[p].0.as_slice(), key) {
                proof {
                    lemma_lower_bound(self@, key@, p as int);
                }
                return p;
            }
            p += 1;
        }
        proof {
            lemma_lower_bound(self@, key@, p as int);
        }
        p
    }

    pub fn contains_key(&self, key: &[u8]) -> (found: bool)
        ensures
            found == dict_contains(self@, key@),
    {
        self.find(key) < self.entries.len()
    }

    /// The value under `key`.
    pub fn get(&self, key: &[u8]) -> (value: Option<&BenObject>)
        ensures
            match value {
                Some(v) => dict_get(self@, key@) == Some(v@),
                None => dict_get(self@, key@) is None,
            },
    {
        let i = self.find(key);
        if i < self.entries.len() {
            Some(&self.entries[i].1)
        } else {
            None
        }
    }

    /// Puts `value` under `key` and hands back what stood there before.
    pub fn insert(&mut self, key: Vec<u8>, value: BenObject) -> (before: Option<BenObject>)
        ensures
            final(self)@ == dict_insert(old(self)@, key@, value@),
            keys_sorted(old(self)@) ==> keys_sorted(final(self)@),
            old(self).wf() && key@.len() <= i64::MAX && value@.wf() ==> final(self).wf(),
            match before {
                Some(b) => {
                    &&& lower_bound(old(self)@, key@) < old(self)@.len()
                    &&& old(self)@[lower_bound(old(self)@, key@)] == (key@, b@)
                },
                None => lower_bound(old(self)@, key@) == old(self)@.len() || old(self)@[lower_bound(
                    old(self)@,
                    key@,
                )].0 != key@,
            },
            keys_sorted(old(self)@) ==> match before {
                Some(b) => dict_get(old(self)@, key@) == Some(b@),
                None => dict_get(old(self)@, key@) is None,
            },
    {
        let ghost d = self@;
        let ghost k = key@;
        let ghost v = value@;
        let p = self.lower_bound(key.as_slice());
        proof {
            if entries_wf(d) && k.len() <= i64::MAX && v.wf() {
                lemma_dict_insert_wf(d, k, v);
            }
            if keys_sorted(d) {
                lemma_dict_insert_sorted(d, k, v);
                lemma_lower_bound_sorted(d, k);
                lemma_dict_find_bounds(d, k);
            }
        }
        if p < self.entries.len() && key_eq(self.entries[p].0.as_slice(), key.as_slice()) {
            let (_, b) = self.entries.remove(p);
            self.entries.insert(p, (key, value));
            assert(self@ =~= d.update(p as int, (k, v)));
            Some(b)
        } else {
            self.entries.insert(p, (key, value));
            assert(self@ =~= d.insert(p as int, (k, v)));
            None
        }
    }

    /// Takes the entry under `key` out and hands its value back.
    pub fn remove(&mut self, key: &[u8]) -> (value: Option<BenObject>)
        ensures
            final(self)@ == dict_remove(old(self)@, key@),
            keys_sorted(old(self)@) ==> keys_sorted(final(self)@),
            old(self).wf() ==> final(self).wf(),
            match value {
                Some(v) => dict_get(old(self)@, key@) == Some(v@),
                None => dict_get(old(self)@, key@) is None,
            },
    {
        let ghost d = self@;
        let i = self.find(key);
        proof {
            if entries_wf(d) {
                lemma_dict_remove_wf(d, key@);
            }
            if keys_sorted(d) {
                lemma_dict_remove_sorted(d, key@);
            }
        }
        if i < self.entries.len() {
            let (_, v) = self.entries.remove(i);
            assert(self@ =~= d.remove(i as int));
            Some(v)
        } else {
            None
        }
    }

    /// The dictionary of the given pairs. Of two pairs with one key the later stays.
    pub fn from_pairs(pairs: Vec<(Vec<u8>, BenObject)>) -> (d: Dict)
        ensures
            d@ == dict_insert_all(Seq::empty(), pairs_view(pairs@), 0),
            keys_sorted(d@),
            (forall|i: int|
                0 <= i < pairs@.len() ==> (#[trigger] pairs@[i]).0@.len() <= i64::MAX
                    && pairs@[i].1@.wf()) ==> d.wf(),
    {
        let ghost all = pairs_view(pairs@);
        let ghost values_wf = forall|i: int|
            0 <= i < pairs@.len() ==> (#[trigger] pairs@[i]).0@.len() <= i64::MAX
                && pairs@[i].1@.wf();
        let total = pairs.len();
        let mut pairs = pairs;
        let mut d = Dict::new();
        let mut i: usize = 0;
        while i < total
            invariant
                0 <= i <= total,
                total == all.len(),
                pairs@.len() == total - i,
                forall|j: int| 0 <= j < pairs@.len() ==> all[i + j] == (
                    (#[trigger] pairs@[j]).0@,
                    pairs@[j].1@,
                ),
                values_wf ==> forall|j: int|
                    0 <= j < pairs@.len() ==> (#[trigger] pairs@[j]).0@.len() <= i64::MAX
                        && pairs@[j].1@.wf(),
                values_wf ==> d.wf(),
                keys_sorted(d@),
                dict_insert_all(Seq::empty(), all, 0) == dict_insert_all(d@, all, i as int),
            decreases total - i,
        {
            let ghost before = pairs@;
            let (key, value) = pairs.remove(0);
            assert(forall|j: int| 0 <= j < pairs@.len() ==> pairs@[j] == before[j + 1]);
            assert(all[i as int] == (key@, value@));
            d.insert(key, value);
            i += 1;
        }
        d
    }
}

impl Dict {
    /// A dictionary with the same entries.
    fn duplicate(&self) -> (copy: Dict)
        ensures
            copy@ == self@,
        decreases BenValue::Dict(self@), 0int,
    {
        let ghost entries = self@;
        let mut copy: Vec<(Vec<u8>, BenObject)> = Vec::with_capacity(self.entries.len());
        let mut i: usize = 0;
        while i < self.entries.len()
            invariant
                0 <= i <= self.entries@.len(),
                entries == self@,
                entries.len() == self.entries@.len(),
                copy@.len() == i,
                forall|j: int|
                    0 <= j < i ==> (#[trigger] copy@[j]).0@ == entries[j].0 && model(copy@[j].1)
                        == entries[j].1,
            decreases self.entries@.len() - i,
        {
            proof {
                assert(entries[i as int].1 == self.entries@[i as int].1@);
                assert(decreases_to!(BenValue::Dict(entries) => BenValue::Dict(entries)->Dict_0));
                assert(decreases_to!(entries => entries[i as int]));
                assert(decreases_to!(entries[i as int] => entries[i as int].1));
            }
            let key = self.entries[i].0.clone();
            let value = self.entries[i].1.duplicate();
            copy.push((key, value));
            i += 1;
        }
        let copy = Dict { entries: copy };
        assert(copy@ =~= self@);
        copy
    }
}

impl BenObject {
    /// A value with the same view.
    fn duplicate(&self) -> (copy: BenObject)
        ensures
            copy@ == self@,
        decreases self@, 1int,
    {
        proof {
            lemma_view(*self);
        }
        let copy = match self {
            BenObject::String(bytes) => BenObject::String(bytes.clone()),
            BenObject::Int(i) => BenObject::Int(*i),
            BenObject::List(list) => {
                let ghost items = list_view(list@);
                let mut copy: Vec<BenObject> = Vec::with_capacity(list.len());
                let mut i: usize = 0;
                while i < list.len()
                    invariant
                        0 <= i <= list@.len(),
                        items == list_view(list@),
                        self@ == BenValue::List(items),
                        copy@.len() == i,
                        forall|j: int| 0 <= j < i ==> (#[trigger] copy@[j])@ == items[j],
                    decreases list@.len() - i,
                {
                    proof {
                        assert(items[i as int] == list@[i as int]@);
                        assert(decreases_to!(BenValue::List(items) => BenValue::List(items)->List_0));
                        assert(decreases_to!(items => items[i as int]));
                    }
                    copy.push(list[i].duplicate());
                    i += 1;
                }
                assert(list_view(copy@) =~= items);
                BenObject::List(copy)
            },
            BenObject::Dict(dict) => BenObject::Dict(dict.duplicate()),
        };
        proof {
            lemma_view(copy);
        }
        copy
    }
}

impl Clone for Dict {
    fn clone(&self) -> (copy: Dict)
        ensures
            copy@ == self@,
    {
        self.duplicate()
    }
}

impl Clone for BenObject {
    fn clone(&self) -> (copy: BenObject)
        ensures
            copy@ == self@,
    {
        self.duplicate()
    }
}

/// The pairs as mathematics.
pub open spec fn pairs_view(pairs: Seq<(Vec<u8>, BenObject)>) -> Seq<(Seq<u8>, BenValue)> {
    pairs.map_values(|p: (Vec<u8>, BenObject)| (p.0@, p.1@))
}

} // verus!
