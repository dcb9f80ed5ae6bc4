//! Text from bytes and bytes from text.

use vstd::prelude::*;
use vstd::utf8::{decode_utf8, encode_utf8, valid_utf8};
use crate::bencode::decimal::{decimal, digits, write_decimal, write_digits};

verus! {

/// The bytes read as text, each byte as the character with its number.
pub open spec fn latin1(bytes: Seq<u8>) -> Seq<char> {
    bytes.map_values(|b: u8| b as char)
}

/// The text that the bytes are in UTF-8, where they are any.
pub open spec fn utf8_text(bytes: Seq<u8>) -> Option<Seq<char>> {
    if valid_utf8(bytes) {
        Some(decode_utf8(bytes))
    } else {
        None
    }
}

/// `String::push` of std: `c` is added at the end of `s`, which is
/// otherwise left as it was.
#[verifier::external_body]
pub(crate) fn push_char(s: &mut String, c: char)
    ensures
        final(s)@ == old(s)@.push(c),
{
    s.push(c)
}

/// `String::from_utf8` of std: a string is returned exactly where the
/// bytes are well-formed UTF-8, and its bytes are then the given ones.
#[verifier::external_body]
pub(crate) fn string_from_utf8(bytes: &[u8]) -> (res: Option<String>)
    ensures
        match res {
            Some(s) => encode_utf8(s@) == bytes@,
            None => !valid_utf8(bytes@),
        },
{
    String::from_utf8(bytes.to_vec()).ok()
}

/// The text that the bytes are in UTF-8.
pub fn text_from_utf8(bytes: &[u8]) -> (res: Option<String>)
    ensures
        match res {
            Some(s) => utf8_text(bytes@) == Some(s@),
            None => utf8_text(bytes@) is None,
        },
{
    let res = string_from_utf8(bytes);
    proof {
        if let Some(s) = &res {
            vstd::utf8::encode_utf8_valid_utf8(s@);
            vstd::utf8::encode_utf8_decode_utf8(s@);
        }
    }
    res
}

/// Appends the bytes to `s`, each as the character with its number.
pub fn push_latin1(s: &mut String, bytes: &[u8])
    ensures
        final(s)@ == old(s)@ + latin1(bytes@),
{
    let mut i: usize = 0;
    while i < bytes.len()
        invariant
            0 <= i <= bytes@.len(),
            s@ == old(s)@ + latin1(bytes@.take(i as int)),
        decreases bytes@.len() - i,
    {
        push_char(s, bytes[i] as char);
        i += 1;
        assert(s@ =~= old(s)@ + latin1(bytes@.take(i as int)));
    }
    assert(bytes@.take(i as int) =~= bytes@);
}

/// Appends `n` in decimal to `s`.
pub fn push_unsigned(s: &mut String, n: u64)
    ensures
        final(s)@ == old(s)@ + latin1(digits(n as nat)),
{
    let mut w: Vec<u8> = Vec::new();
    let _ = write_digits(&mut w, n);
    assert(w@ =~= digits(n as nat));
    push_latin1(s, w.as_slice());
}

/// Appends `i` in decimal to `s`.
pub fn push_signed(s: &mut String, i: i64)
    ensures
        final(s)@ == old(s)@ + latin1(decimal(i as int)),
{
    let mut w: Vec<u8> = Vec::new();
    let _ = write_decimal(&mut w, i);
    assert(w@ =~= decimal(i as int));
    push_latin1(s, w.as_slice());
}

/// The hexadecimal digit of `d`, in upper case.
pub open spec fn hex_digit(d: int) -> char {
    if d < 10 {
        (48 + d) as char
    } else {
        (55 + d) as char
    }
}

/// The bytes in hexadecimal, two digits in upper case for each.
pub open spec fn hex_upper(bytes: Seq<u8>) -> Seq<char>
    decreases bytes.len(),
{
    if bytes.len() == 0 {
        Seq::empty()
    } else {
        hex_upper(bytes.drop_last()).push(hex_digit(bytes.last() as int / 16)).push(
            hex_digit(bytes.last() as int % 16),
        )
    }
}

fn hex_char(d: u8) -> (c: char)
    requires
        d < 16,
    ensures
        c == hex_digit(d as int),
{
    if d < 10 {
        (48 + d) as char
    } else {
        (55 + d) as char
    }
}

/// The bytes in hexadecimal, two digits in upper case for each.
pub fn to_hex_upper(bytes: &[u8]) -> (s: String)
    ensures
        s@ == hex_upper(bytes@),
{
    let mut s = String::new();
    let mut i: usize = 0;
    while i < bytes.len()
        invariant
            0 <= i <= bytes@.len(),
            s@ == hex_upper(bytes@.take(i as int)),
        decreases bytes@.len() - i,
    {
        let b = bytes[i];
        push_char(&mut s, hex_char(b / 16));
        push_char(&mut s, hex_char(b % 16));
        proof {
            assert(bytes@.take(i + 1).drop_last() =~= bytes@.take(i as int));
            assert(bytes@.take(i + 1).last() == b);
        }
        i += 1;
    }
    assert(bytes@.take(i as int) =~= bytes@);
    s
}

} // verus!
