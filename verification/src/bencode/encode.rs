//! The canonical encoder.

use vstd::prelude::*;
use crate::bencode::decimal::{decimal, digits, write_decimal, write_digits};
use crate::bencode::error::BencodeError;
use crate::bencode::value::{lemma_view, list_view, BenObject, BenValue, Dict};

verus! {

pub const DICT_PREFIX: u8 = 100;

pub const DICT_POSTFIX: u8 = 101;

pub const LIST_PREFIX: u8 = 108;

pub const LIST_POSTFIX: u8 = 101;

pub const INT_PREFIX: u8 = 105;

pub const INT_POSTFIX: u8 = 101;

pub const STR_DELIMITER: u8 = 58;

/// A byte string on the wire: its length in decimal, a colon, its bytes.
pub open spec fn encode_string(b: Seq<u8>) -> Seq<u8> {
    digits(b.len()) + seq![STR_DELIMITER] + b
}

/// An integer on the wire: `i`, its decimal form, `e`.
pub open spec fn encode_int(i: i64) -> Seq<u8> {
    seq![INT_PREFIX] + decimal(i as int) + seq![INT_POSTFIX]
}

/// A value on the wire. The entries of a dictionary are written in the
/// order in which the value holds them.
pub open spec fn encode(v: BenValue) -> Seq<u8>
    decreases v,
{
    match v {
        BenValue::String(b) => encode_string(b),
        BenValue::Int(i) => encode_int(i),
        BenValue::List(l) => seq![LIST_PREFIX] + encode_list(l) + seq![LIST_POSTFIX],
        BenValue::Dict(d) => seq![DICT_PREFIX] + encode_entries(d) + seq![DICT_POSTFIX],
    }
}

/// The items of a list on the wire, one after the other.
pub open spec fn encode_list(l: Seq<BenValue>) -> Seq<u8>
    decreases l,
{
    if l.len() == 0 {
        Seq::empty()
    } else {
        encode_list(l.drop_last()) + encode(l.last())
    }
}

/// The entries of a dictionary on the wire: each key as a byte string,
/// followed by its value.
pub open spec fn encode_entries(d: Seq<(Seq<u8>, BenValue)>) -> Seq<u8>
    decreases d,
{
    if d.len() == 0 {
        Seq::empty()
    } else {
        encode_entries(d.drop_last()) + encode_string(d.last().0) + encode(d.last().1)
    }
}

impl BenObject {
    /// The value on the wire.
    pub fn bencode(&self) -> (res: Result<Vec<u8>, BencodeError>)
        ensures
            res matches Ok(out) && out@ == encode(self@),
    {
        let mut w = Vec::new();
        let _ = self.write_into(&mut w);
        assert(w@ =~= encode(self@));
        Ok(w)
    }

    /// Appends the value on the wire to `w` and says how many bytes that took.
    pub fn write_into(&self, w: &mut Vec<u8>) -> (res: Result<usize, BencodeError>)
        ensures
            final(w)@ == old(w)@ + encode(self@),
            res matches Ok(n) && n == encode(self@).len(),
        decreases self@, 1int,
    {
        broadcast use lemma_view;

        let wlen = match self {
            BenObject::Int(num) => Self::write_int(w, *num),
            BenObject::String(s) => Self::write_string(w, s.as_slice()),
            BenObject::List(list) => {
                Self::write_list(w, list)
            },
            BenObject::Dict(dict) => Self::write_dict(w, dict),
        };
        Ok(wlen)
    }

    fn write_list(w: &mut Vec<u8>, list: &Vec<BenObject>) -> (wlen: usize)
        ensures
            final(w)@ == old(w)@ + encode(BenValue::List(list_view(list@))),
            wlen == encode(BenValue::List(list_view(list@))).len(),
        decreases BenValue::List(list_view(list@)), 0int,
    {
        let ghost items = list_view(list@);
        let start = w.len();
        w.push(LIST_PREFIX);
        let mut i: usize = 0;
        while i < list.len()
            invariant
                0 <= i <= list@.len(),
                items == list_view(list@),
                w@ == old(w)@ + seq![LIST_PREFIX] + encode_list(items.take(i as int)),
            decreases list@.len() - i,
        {
            assert(items[i as int] == list@[i as int]@);
            assert(decreases_to!(BenValue::List(items) => BenValue::List(items)->List_0));
            assert(decreases_to!(items => items[i as int]));
            let _ = list[i].write_into(w);
            proof {
                assert(items.take(i + 1).drop_last() =~= items.take(i as int));
                assert(items.take(i + 1).last() == list@[i as int]@);
            }
            i += 1;
        }
        w.push(LIST_POSTFIX);
        proof {
            assert(items.take(i as int) =~= items);
            assert(w@ =~= old(w)@ + encode(BenValue::List(items)));
        }
        w.len() - start
    }

    fn write_dict(w: &mut Vec<u8>, dict: &Dict) -> (wlen: usize)
        ensures
            final(w)@ == old(w)@ + encode(BenValue::Dict(dict@)),
            wlen == encode(BenValue::Dict(dict@)).len(),
        decreases BenValue::Dict(dict@), 0int,
    {
        let ghost entries = dict@;
        let start = w.len();
        w.push(DICT_PREFIX);
        let mut i: usize = 0;
        while i < dict.len()
            invariant
                0 <= i <= dict@.len(),
                entries == dict@,
                w@ == old(w)@ + seq![DICT_PREFIX] + encode_entries(entries.take(i as int)),
            decreases dict@.len() - i,
        {
            let _ = Self::write_string(w, dict.key_at(i).as_slice());
            let value = dict.value_at(i);
            assert(entries[i as int].1 == value@);
            assert(decreases_to!(BenValue::Dict(entries) => BenValue::Dict(entries)->Dict_0));
            assert(decreases_to!(entries => entries[i as int]));
            assert(decreases_to!(entries[i as int] => entries[i as int].1));
            let _ = value.write_into(w);
            proof {
                assert(entries.take(i + 1).drop_last() =~= entries.take(i as int));
                assert(entries.take(i + 1).last() == entries[i as int]);
            }
            i += 1;
        }
        w.push(DICT_POSTFIX);
        proof {
            assert(entries.take(i as int) =~= entries);
            assert(w@ =~= old(w)@ + encode(BenValue::Dict(entries)));
        }
        w.len() - start
    }

    fn write_string(w: &mut Vec<u8>, s: &[u8]) -> (wlen: usize)
        ensures
            final(w)@ == old(w)@ + encode_string(s@),
            wlen == encode_string(s@).len(),
    {
        let start = w.len();
        let _ = write_digits(w, s.len() as u64);
        w.push(STR_DELIMITER);
        w.extend_from_slice(s);
        assert(w@ =~= old(w)@ + encode_string(s@));
        w.len() - start
    }

    fn write_int(w: &mut Vec<u8>, val: i64) -> (wlen: usize)
        ensures
            final(w)@ == old(w)@ + encode_int(val),
            wlen == encode_int(val).len(),
    {
        w.push(INT_PREFIX);
        let nlen = write_decimal(w, val);
        w.push(INT_POSTFIX);
        assert(w@ =~= old(w)@ + encode_int(val));
        nlen + 2
    }
}

} // verus!
