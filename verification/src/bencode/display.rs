//! Values as text for people to read.

use vstd::prelude::*;
use crate::bencode::decimal::decimal;
use crate::bencode::value::{lemma_view, list_view, BenObject, BenValue, Dict};
use crate::text::{latin1, push_char, push_latin1, push_signed};

verus! {

/// A value as text: a byte string between double quotes, each byte as the
/// character with its number; an integer in decimal; a list between square
/// brackets; a dictionary between braces, each entry as a pair in round
/// brackets. Items and entries are separated by a comma and a space.
pub open spec fn display(v: BenValue) -> Seq<char>
    decreases v,
{
    match v {
        BenValue::String(b) => seq!['"'] + latin1(b) + seq!['"'],
        BenValue::Int(i) => latin1(decimal(i as int)),
        BenValue::List(l) => seq!['['] + display_items(l) + seq![']'],
        BenValue::Dict(d) => seq!['{', ' '] + display_entries(d) + seq![' ', '}'],
    }
}

pub open spec fn display_items(l: Seq<BenValue>) -> Seq<char>
    decreases l,
{
    if l.len() == 0 {
        Seq::empty()
    } else if l.len() == 1 {
        display(l[0])
    } else {
        display_items(l.drop_last()) + seq![',', ' '] + display(l.last())
    }
}

/// An entry as text, given the text of its value.
pub open spec fn display_entry(k: Seq<u8>, value: Seq<char>) -> Seq<char> {
    seq!['(', '"'] + latin1(k) + seq!['"', ',', ' '] + value + seq![')']
}

pub open spec fn display_entries(d: Seq<(Seq<u8>, BenValue)>) -> Seq<char>
    decreases d,
{
    if d.len() == 0 {
        Seq::empty()
    } else if d.len() == 1 {
        display_entry(d[0].0, display(d[0].1))
    } else {
        display_entries(d.drop_last()) + seq![',', ' '] + display_entry(d.last().0, display(d.last().1))
    }
}

impl BenObject {
    /// The value as text for people to read.
    pub fn to_string(&self) -> (text: String)
        ensures
            text@ == display(self@),
    {
        let mut text = String::new();
        self.write_text(&mut text);
        assert(text@ =~= display(self@));
        text
    }

    fn write_text(&self, out: &mut String)
        ensures
            final(out)@ == old(out)@ + display(self@),
        decreases self@, 1int,
    {
        proof {
            lemma_view(*self);
        }
        match self {
            BenObject::String(bytes) => {
                push_char(out, '"');
                push_latin1(out, bytes.as_slice());
                push_char(out, '"');
                assert(out@ =~= old(out)@ + display(self@));
            },
            BenObject::Int(i) => {
                push_signed(out, *i);
            },
            BenObject::List(list) => {
                Self::write_items(out, list);
            },
            BenObject::Dict(dict) => {
                Self::write_entries(out, dict);
            },
        }
    }

    fn write_items(out: &mut String, list: &Vec<BenObject>)
        ensures
            final(out)@ == old(out)@ + display(BenValue::List(list_view(list@))),
        decreases BenValue::List(list_view(list@)), 0int,
    {
        let ghost items = list_view(list@);
        push_char(out, '[');
        let mut i: usize = 0;
        assert(items.take(0) =~= Seq::<BenValue>::empty());
        while i < list.len()
            invariant
                0 <= i <= list@.len(),
                items == list_view(list@),
                out@ == old(out)@ + seq!['['] + display_items(items.take(i as int)),
            decreases list@.len() - i,
        {
            if i > 0 {
                push_char(out, ',');
                push_char(out, ' ');
            }
            proof {
                assert(items.take(i + 1).drop_last() =~= items.take(i as int));
                assert(items.take(i + 1).last() == list@[i as int]@);
                assert(items.take(i + 1)[0] == list@[0]@);
                assert(decreases_to!(BenValue::List(items) => BenValue::List(items)->List_0));
                assert(decreases_to!(items => items[i as int]));
            }
            list[i].write_text(out);
            assert(out@ =~= old(out)@ + seq!['['] + display_items(items.take(i + 1)));
            i += 1;
        }
        push_char(out, ']');
        proof {
            assert(items.take(i as int) =~= items);
            assert(out@ =~= old(out)@ + display(BenValue::List(items)));
        }
    }

    fn write_entries(out: &mut String, dict: &Dict)
        ensures
            final(out)@ == old(out)@ + display(BenValue::Dict(dict@)),
        decreases BenValue::Dict(dict@), 0int,
    {
        let ghost entries = dict@;
        push_char(out, '{');
        push_char(out, ' ');
        let mut i: usize = 0;
        assert(entries.take(0) =~= Seq::<(Seq<u8>, BenValue)>::empty());
        while i < dict.len()
            invariant
                0 <= i <= dict@.len(),
                entries == dict@,
                out@ == old(out)@ + seq!['{', ' '] + display_entries(entries.take(i as int)),
            decreases dict@.len() - i,
        {
            if i > 0 {
                push_char(out, ',');
                push_char(out, ' ');
            }
            let value = dict.value_at(i);
            proof {
                assert(entries.take(i + 1).drop_last() =~= entries.take(i as int));
                assert(entries.take(i + 1).last() == entries[i as int]);
                assert(entries.take(i + 1)[0] == entries[0]);
                assert(decreases_to!(BenValue::Dict(entries) => BenValue::Dict(entries)->Dict_0));
                assert(decreases_to!(entries => entries[i as int]));
                assert(decreases_to!(entries[i as int] => entries[i as int].1));
            }
            let ghost start = out@;
            push_char(out, '(');
            push_char(out, '"');
            push_latin1(out, dict.key_at(i).as_slice());
            push_char(out, '"');
            push_char(out, ',');
            push_char(out, ' ');
            value.write_text(out);
            push_char(out, ')');
            assert(out@ =~= start + display_entry(entries[i as int].0, display(entries[i as int].1)));
            assert(out@ =~= old(out)@ + seq!['{', ' '] + display_entries(entries.take(i + 1)));
            i += 1;
        }
        push_char(out, ' ');
        push_char(out, '}');
        proof {
            assert(entries.take(i as int) =~= entries);
            assert(out@ =~= old(out)@ + display(BenValue::Dict(entries)));
        }
    }
}

} // verus!
