//! The decoder: what the bytes of a value mean, and the reader that finds it out.

use vstd::prelude::*;
use crate::byte_buffer::ByteBuffer;
use crate::bencode::decimal::{
    digits_value, is_digit, lemma_digits_value_len_u64, MINUS, ZERO,
};
use crate::bencode::encode::{
    DICT_POSTFIX, DICT_PREFIX, INT_POSTFIX, INT_PREFIX, LIST_POSTFIX, LIST_PREFIX, STR_DELIMITER,
};
use crate::bencode::error::BencodeError;
use crate::bencode::value::{
    dict_contains, dict_insert, lemma_view, list_view, BenObject, BenValue, Dict,
};

verus! {

/// The magnitude of the least integer of 64 bits.
pub const INT_LIMIT: u64 = 9223372036854775808;

/// The index of the first byte from `i` on that is no digit, or the length
/// of `s` where only digits follow.
pub open spec fn digit_run(s: Seq<u8>, i: int) -> int
    decreases s.len() - i,
{
    if 0 <= i < s.len() && is_digit(s[i]) {
        digit_run(s, i + 1)
    } else {
        i
    }
}

/// The number at the start of `s` and the bytes that it takes: an optional
/// minus sign and then digits, up to a byte that is no digit.
///
/// - `EOF` where the input ends before such a byte;
/// - `ExpectNumberError(0, w)` where no digit follows the `w` bytes of sign;
/// - `Invalid` where the digits start with a zero that is not the whole
///   number, where the number is `-0`, and where it does not fit 64 bits.
pub open spec fn parse_decimal(s: Seq<u8>) -> Result<(i64, int), BencodeError> {
    let sign: int = if s.len() > 0 && s[0] == MINUS {
        1
    } else {
        0
    };
    let end = digit_run(s, sign);
    if s.len() <= sign {
        Err(BencodeError::EOF)
    } else if end == sign {
        Err(BencodeError::ExpectNumberError(0, sign as i64))
    } else if end >= s.len() {
        Err(BencodeError::EOF)
    } else {
        let ds = s.subrange(sign, end);
        let magnitude = digits_value(ds);
        if ds[0] == ZERO && (ds.len() > 1 || sign == 1) {
            Err(BencodeError::Invalid)
        } else if magnitude > i64::MAX + sign {
            Err(BencodeError::Invalid)
        } else if sign == 1 {
            Ok(((-magnitude) as i64, end))
        } else {
            Ok((magnitude as i64, end))
        }
    }
}

/// The integer at the start of `s` and the bytes that it takes.
///
/// - `EOF` where `s` is empty;
/// - `ExpectCharIError` where it does not start with `i`;
/// - the error of [`parse_decimal`] where no number follows;
/// - `ExpectCharEError` where the number is not followed by `e`.
pub open spec fn parse_int(s: Seq<u8>) -> Result<(BenValue, int), BencodeError> {
    if s.len() == 0 {
        Err(BencodeError::EOF)
    } else if s[0] != INT_PREFIX {
        Err(BencodeError::ExpectCharIError)
    } else {
        match parse_decimal(s.skip(1)) {
            Err(e) => Err(e),
            Ok((num, len)) => if s[1 + len] != INT_POSTFIX {
                Err(BencodeError::ExpectCharEError)
            } else {
                Ok((BenValue::Int(num), len + 2))
            },
        }
    }
}

/// The byte string at the start of `s` and the bytes that it takes.
///
/// - the error of [`parse_decimal`] where `s` does not start with a number;
/// - `ExpectNumberError` with the number and its width where it is negative;
/// - `ExpectColonError` where the number is not followed by `:`;
/// - `EOF` where fewer bytes follow the colon than the number says.
pub open spec fn parse_bytes(s: Seq<u8>) -> Result<(Seq<u8>, int), BencodeError> {
    match parse_decimal(s) {
        Err(e) => Err(e),
        Ok((num, len)) => if num < 0 {
            Err(BencodeError::ExpectNumberError(num, len as i64))
        } else if s[len] != STR_DELIMITER {
            Err(BencodeError::ExpectColonError)
        } else if s.len() - (len + 1) < num {
            Err(BencodeError::EOF)
        } else {
            Ok((s.subrange(len + 1, len + 1 + num), len + 1 + num))
        },
    }
}

pub open spec fn parse_string(s: Seq<u8>) -> Result<(BenValue, int), BencodeError> {
    match parse_bytes(s) {
        Err(e) => Err(e),
        Ok((b, n)) => Ok((BenValue::String(b), n)),
    }
}

/// The value at the start of `s` and the bytes that it takes.
///
/// - `EOF` where `s` is empty;
/// - `Invalid` where the first byte is none of `d`, `l`, `i` and the digits;
/// - otherwise what the dictionary, the list, the integer or the byte
///   string that the first byte announces gives.
pub open spec fn parse_value(s: Seq<u8>) -> Result<(BenValue, int), BencodeError>
    decreases s.len(), 0int,
{
    if s.len() == 0 {
        Err(BencodeError::EOF)
    } else if s[0] == DICT_PREFIX {
        match parse_entries(s.skip(1), Seq::empty()) {
            Err(e) => Err(e),
            Ok((d, n)) => Ok((BenValue::Dict(d), n + 1)),
        }
    } else if s[0] == LIST_PREFIX {
        match parse_items(s.skip(1), Seq::empty()) {
            Err(e) => Err(e),
            Ok((l, n)) => Ok((BenValue::List(l), n + 1)),
        }
    } else if s[0] == INT_PREFIX {
        parse_int(s)
    } else if is_digit(s[0]) {
        parse_string(s)
    } else {
        Err(BencodeError::Invalid)
    }
}

/// The items that follow `acc` in a list, up to the `e` that closes it,
/// and the bytes that they and the `e` take.
///
/// - `EOF` where `s` ends before the list is closed;
/// - the error of the first item that is no value.
///
/// A value takes at least one byte and none beyond the input, so `Unknown`
/// never comes out: the test is there for the recursion to end.
pub open spec fn parse_items(s: Seq<u8>, acc: Seq<BenValue>) -> Result<
    (Seq<BenValue>, int),
    BencodeError,
>
    decreases s.len(), 1int,
{
    if s.len() == 0 {
        Err(BencodeError::EOF)
    } else if s[0] == LIST_POSTFIX {
        Ok((acc, 1))
    } else {
        match parse_value(s) {
            Err(e) => Err(e),
            Ok((v, n)) => if 0 < n <= s.len() {
                match parse_items(s.skip(n), acc.push(v)) {
                    Err(e) => Err(e),
                    Ok((l, m)) => Ok((l, n + m)),
                }
            } else {
                Err(BencodeError::Unknown)
            },
        }
    }
}

/// The entries that join `acc` in a dictionary, up to the `e` that closes
/// it, and the bytes that they and the `e` take. The entries may come in any
/// order of their keys.
///
/// - `EOF` where `s` ends before the dictionary is closed;
/// - `ExpectStringError` where a key does not start with a digit;
/// - the error of the first key that is no byte string;
/// - `DuplicateKey` where a key is read that an earlier entry has;
/// - the error of the first value that is no value.
///
/// A key and a value take at least one byte each and none beyond the
/// input, so `Unknown` never comes out: the tests are there for the
/// recursion to end.
pub open spec fn parse_entries(s: Seq<u8>, acc: Seq<(Seq<u8>, BenValue)>) -> Result<
    (Seq<(Seq<u8>, BenValue)>, int),
    BencodeError,
>
    decreases s.len(), 1int,
{
    if s.len() == 0 {
        Err(BencodeError::EOF)
    } else if s[0] == DICT_POSTFIX {
        Ok((acc, 1))
    } else if !is_digit(s[0]) {
        Err(BencodeError::ExpectStringError)
    } else {
        match parse_bytes(s) {
            Err(e) => Err(e),
            Ok((k, n)) => if dict_contains(acc, k) {
                Err(BencodeError::DuplicateKey)
            } else if 0 < n <= s.len() {
                match parse_value(s.skip(n)) {
                    Err(e) => Err(e),
                    Ok((v, m)) => if 0 < m <= s.len() - n {
                        match parse_entries(s.skip(n + m), dict_insert(acc, k, v)) {
                            Err(e) => Err(e),
                            Ok((d, r)) => Ok((d, n + m + r)),
                        }
                    } else {
                        Err(BencodeError::Unknown)
                    },
                }
            } else {
                Err(BencodeError::Unknown)
            },
        }
    }
}

/// The value that `s` starts with. Bytes that follow the value are not read.
pub open spec fn decode(s: Seq<u8>) -> Result<BenValue, BencodeError> {
    match parse_value(s) {
        Err(e) => Err(e),
        Ok((v, _)) => Ok(v),
    }
}

/// The result `r`, counted from `c` bytes earlier.
pub open spec fn after<T>(c: int, r: Result<(T, int), BencodeError>) -> Result<
    (T, int),
    BencodeError,
> {
    match r {
        Err(e) => Err(e),
        Ok((x, n)) => Ok((x, c + n)),
    }
}

/// Where the digits from `i` on end, given where the first byte that is no digit stands.
pub proof fn lemma_digit_run(s: Seq<u8>, i: int, end: int)
    requires
        0 <= i <= end <= s.len(),
        forall|j: int| i <= j < end ==> is_digit(#[trigger] s[j]),
        end == s.len() || !is_digit(s[end]),
    ensures
        digit_run(s, i) == end,
    decreases end - i,
{
    if i < end {
        lemma_digit_run(s, i + 1, end);
    }
}

/// The digits from `i` on are digits, and what follows them is none.
pub proof fn lemma_digit_run_bounds(s: Seq<u8>, i: int)
    requires
        0 <= i <= s.len(),
    ensures
        i <= digit_run(s, i) <= s.len(),
        forall|j: int| i <= j < digit_run(s, i) ==> is_digit(#[trigger] s[j]),
        digit_run(s, i) < s.len() ==> !is_digit(s[digit_run(s, i)]),
    decreases s.len() - i,
{
    if i < s.len() && is_digit(s[i]) {
        lemma_digit_run_bounds(s, i + 1);
    }
}

/// Whether `num` is an ASCII digit.
pub fn check_num(num: u8) -> (digit: bool)
    ensures
        digit == is_digit(num),
{
    num >= 48 && num <= 57
}

/// Reads a decimal number: an optional minus sign and digits, up to the
/// first byte that is no digit, which is left unread. Gives the number and
/// how many bytes it took.
pub fn read_decimal(r: &mut ByteBuffer) -> (res: Result<(i64, i64), BencodeError>)
    requires
        old(r).wf(),
    ensures
        final(r).wf(),
        final(r).bytes() == old(r).bytes(),
        old(r).position() <= final(r).position(),
        match res {
            Ok((num, len)) => {
                &&& parse_decimal(old(r).rest()) == Ok::<(i64, int), BencodeError>(
                    (num, len as int),
                )
                &&& 0 < len < old(r).rest().len()
                &&& final(r).position() == old(r).position() + len
                &&& final(r).rest() == old(r).rest().skip(len as int)
            },
            Err(e) => parse_decimal(old(r).rest()) == Err::<(i64, int), BencodeError>(e),
        },
{
    let ghost s = r.rest();
    let mut b: u8 = match r.next() {
        Some(b) => *b,
        None => {
            return Err(BencodeError::EOF);
        },
    };
    let negative = b == MINUS;
    let mut sign: usize = 0;
    if negative {
        b = match r.next() {
            Some(b) => *b,
            None => {
                return Err(BencodeError::EOF);
            },
        };
        sign = 1;
        assert(r.rest() =~= s.skip(2));
    }
    if !check_num(b) {
        proof {
            lemma_digit_run(s, sign as int, sign as int);
        }
        return Err(BencodeError::ExpectNumberError(0, sign as i64));
    }
    let leading_zero = b == ZERO;
    let mut acc: u64 = (b - ZERO) as u64;
    let mut overflow = false;
    let mut count: usize = 1;
    proof {
        let ds = s.subrange(sign as int, sign + 1);
        assert(ds.drop_last() =~= Seq::<u8>::empty());
        assert(digits_value(ds.drop_last()) == 0);
        assert(digits_value(ds) == acc);
    }
    loop
        invariant
            r.wf(),
            r.bytes() == old(r).bytes(),
            s == old(r).rest(),
            0 < s.len() <= usize::MAX,
            negative == (s[0] == MINUS),
            sign == (if negative {
                1int
            } else {
                0int
            }),
            1 <= count,
            sign + count <= s.len(),
            r.position() == old(r).position() + sign + count,
            r.rest() == s.skip(sign + count),
            forall|j: int| sign <= j < sign + count ==> is_digit(#[trigger] s[j]),
            leading_zero == (s[sign as int] == ZERO),
            !overflow ==> acc == digits_value(s.subrange(sign as int, sign + count)) && acc
                <= INT_LIMIT,
            overflow ==> digits_value(s.subrange(sign as int, sign + count)) > INT_LIMIT,
        ensures
            sign + count < s.len(),
            !is_digit(s[sign + count]),
        decreases s.len() - sign - count,
    {
        let nb: u8 = match r.peek() {
            Some(nb) => *nb,
            None => {
                proof {
                    lemma_digit_run(s, sign as int, s.len() as int);
                }
                return Err(BencodeError::EOF);
            },
        };
        if !check_num(nb) {
            break ;
        }
        r.advance(1);
        proof {
            let ds = s.subrange(sign as int, sign + count + 1);
            assert(ds.drop_last() =~= s.subrange(sign as int, sign + count));
            assert(ds.last() == nb);
            assert(r.rest() =~= s.skip(sign + count + 1));
        }
        if !overflow {
            let wide: u128 = acc as u128 * 10 + (nb - ZERO) as u128;
            if wide > INT_LIMIT as u128 {
                overflow = true;
            } else {
                acc = wide as u64;
            }
        }
        count += 1;
    }
    let ghost ds = s.subrange(sign as int, sign + count);
    proof {
        lemma_digit_run(s, sign as int, sign + count);
    }
    if leading_zero && (count > 1 || negative) {
        return Err(BencodeError::Invalid);
    }
    if overflow || (!negative && acc > 9223372036854775807) {
        return Err(BencodeError::Invalid);
    }
    proof {
        if !leading_zero {
            lemma_digits_value_len_u64(ds);
        }
    }
    let num: i64 = if negative {
        if acc == INT_LIMIT {
            i64::MIN
        } else {
            -(acc as i64)
        }
    } else {
        acc as i64
    };
    Ok((num, (sign + count) as i64))
}

/// Reads an integer: `i`, a decimal number, `e`.
pub fn read_int(r: &mut ByteBuffer) -> (res: Result<BenObject, BencodeError>)
    requires
        old(r).wf(),
    ensures
        final(r).wf(),
        final(r).bytes() == old(r).bytes(),
        old(r).position() <= final(r).position(),
        match res {
            Ok(o) => {
                &&& parse_int(old(r).rest()) == Ok::<(BenValue, int), BencodeError>(
                    (o@, final(r).position() - old(r).position()),
                )
                &&& o@.wf()
                &&& final(r).position() > old(r).position()
                &&& final(r).rest() == old(r).rest().skip(
                    final(r).position() - old(r).position(),
                )
            },
            Err(e) => parse_int(old(r).rest()) == Err::<(BenValue, int), BencodeError>(e),
        },
{
    broadcast use lemma_view;

    let ghost s = r.rest();
    let b: u8 = match r.next() {
        Some(b) => *b,
        None => {
            return Err(BencodeError::EOF);
        },
    };
    if b != INT_PREFIX {
        return Err(BencodeError::ExpectCharIError);
    }
    let (val, len) = match read_decimal(r) {
        Ok(pair) => pair,
        Err(e) => {
            return Err(e);
        },
    };
    let b: u8 = match r.next() {
        Some(b) => *b,
        None => {
            return Err(BencodeError::EOF);
        },
    };
    assert(b == s[1 + len]);
    if b != INT_POSTFIX {
        return Err(BencodeError::ExpectCharEError);
    }
    assert(r.rest() =~= s.skip(len + 2));
    Ok(BenObject::Int(val))
}

/// Reads the bytes of a byte string: their number in decimal, `:`, and
/// that many bytes.
pub fn read_bytes(r: &mut ByteBuffer) -> (res: Result<Vec<u8>, BencodeError>)
    requires
        old(r).wf(),
    ensures
        final(r).wf(),
        final(r).bytes() == old(r).bytes(),
        old(r).position() <= final(r).position(),
        match res {
            Ok(b) => {
                &&& parse_bytes(old(r).rest()) == Ok::<(Seq<u8>, int), BencodeError>(
                    (b@, final(r).position() - old(r).position()),
                )
                &&& b@.len() <= i64::MAX
                &&& final(r).position() > old(r).position()
                &&& final(r).rest() == old(r).rest().skip(
                    final(r).position() - old(r).position(),
                )
            },
            Err(e) => parse_bytes(old(r).rest()) == Err::<(Seq<u8>, int), BencodeError>(e),
        },
{
    let ghost s = r.rest();
    let (num, len) = match read_decimal(r) {
        Ok(pair) => pair,
        Err(e) => {
            return Err(e);
        },
    };
    if num < 0 {
        return Err(BencodeError::ExpectNumberError(num, len));
    }
    let b: u8 = match r.next() {
        Some(b) => *b,
        None => {
            return Err(BencodeError::EOF);
        },
    };
    assert(b == s[len as int]);
    if b != STR_DELIMITER {
        return Err(BencodeError::ExpectColonError);
    }
    assert(r.rest() =~= s.skip(len + 1));
    if (r.remaining() as u64) < (num as u64) {
        return Err(BencodeError::EOF);
    }
    let total: usize = num as usize;
    assert(len + 1 + total <= s.len());
    let mut bytes: Vec<u8> = Vec::with_capacity(total);
    let mut k: usize = 0;
    while k < total
        invariant
            r.wf(),
            r.bytes() == old(r).bytes(),
            0 <= k <= total,
            0 < len,
            len + 1 + total <= s.len(),
            r.position() == old(r).position() + len + 1 + k,
            r.rest() == s.skip(len + 1 + k),
            bytes@ == s.subrange(len + 1, len + 1 + k),
        decreases total - k,
    {
        assert(r.rest().len() > 0);
        let b: u8 = match r.next() {
            Some(b) => *b,
            None => {
                return Err(BencodeError::Unknown);
            },
        };
        bytes.push(b);
        k += 1;
        assert(r.rest() =~= s.skip(len + 1 + k));
        assert(bytes@ =~= s.subrange(len + 1, len + 1 + k));
    }
    Ok(bytes)
}

/// Reads a byte string.
pub fn read_string(r: &mut ByteBuffer) -> (res: Result<BenObject, BencodeError>)
    requires
        old(r).wf(),
    ensures
        final(r).wf(),
        final(r).bytes() == old(r).bytes(),
        old(r).position() <= final(r).position(),
        match res {
            Ok(o) => {
                &&& parse_string(old(r).rest()) == Ok::<(BenValue, int), BencodeError>(
                    (o@, final(r).position() - old(r).position()),
                )
                &&& o@.wf()
                &&& final(r).position() > old(r).position()
                &&& final(r).rest() == old(r).rest().skip(
                    final(r).position() - old(r).position(),
                )
            },
            Err(e) => parse_string(old(r).rest()) == Err::<(BenValue, int), BencodeError>(e),
        },
{
    broadcast use lemma_view;

    match read_bytes(r) {
        Ok(bytes) => Ok(BenObject::String(bytes)),
        Err(e) => Err(e),
    }
}

impl BenObject {
    /// The value that `bytes` start with. Bytes that follow it are not read.
    pub fn from_bytes(bytes: &[u8]) -> (res: Result<BenObject, BencodeError>)
        ensures
            match res {
                Ok(o) => decode(bytes@) == Ok::<BenValue, BencodeError>(o@) && o@.wf(),
                Err(e) => decode(bytes@) == Err::<BenValue, BencodeError>(e),
            },
    {
        let mut buf = ByteBuffer::new(bytes);
        assert(buf.rest() =~= bytes@);
        Self::parse(&mut buf)
    }

    /// Reads one value and leaves the cursor behind it.
    pub fn parse(r: &mut ByteBuffer) -> (res: Result<BenObject, BencodeError>)
        requires
            old(r).wf(),
        ensures
            final(r).wf(),
            final(r).bytes() == old(r).bytes(),
            old(r).position() <= final(r).position(),
            match res {
                Ok(o) => {
                    &&& parse_value(old(r).rest()) == Ok::<(BenValue, int), BencodeError>(
                        (o@, final(r).position() - old(r).position()),
                    )
                    &&& o@.wf()
                    &&& final(r).position() > old(r).position()
                    &&& final(r).rest() == old(r).rest().skip(
                        final(r).position() - old(r).position(),
                    )
                },
                Err(e) => parse_value(old(r).rest()) == Err::<(BenValue, int), BencodeError>(e),
            },
        decreases old(r).rest().len(),
    {
        broadcast use lemma_view;

        let ghost s = r.rest();
        let first = match Self::peek_byte(r) {
            Ok(b) => b,
            Err(e) => {
                return Err(e);
            },
        };
        if first == DICT_PREFIX {
            r.advance(1);
            let ghost s1 = s.skip(1);
            let mut dict = Dict::new();
            loop
                invariant
                    r.wf(),
                    r.bytes() == old(r).bytes(),
                    s == old(r).rest(),
                    s1 == s.skip(1),
                    s.len() > 0,
                    s[0] == DICT_PREFIX,
                    old(r).position() < r.position(),
                    r.position() - old(r).position() <= s.len(),
                    r.rest() == s.skip(r.position() - old(r).position()),
                    dict.wf(),
                    parse_entries(s1, Seq::empty()) == after(
                        r.position() - old(r).position() - 1,
                        parse_entries(r.rest(), dict@),
                    ),
                decreases r.rest().len(),
            {
                let ghost c = r.position() - old(r).position();
                let ghost cur = r.rest();
                let b = match Self::peek_byte(r) {
                    Ok(b) => b,
                    Err(e) => {
                        return Err(e);
                    },
                };
                if b == DICT_POSTFIX {
                    r.advance(1);
                    assert(r.rest() =~= s.skip(c + 1));
                    let res = BenObject::Dict(dict);
                    proof {
                        lemma_view(res);
                    }
                    return Ok(res);
                }
                if !check_num(b) {
                    return Err(BencodeError::ExpectStringError);
                }
                let key = match read_bytes(r) {
                    Ok(k) => k,
                    Err(e) => {
                        return Err(e);
                    },
                };
                let ghost n = r.position() - old(r).position() - c;
                if dict.contains_key(key.as_slice()) {
                    return Err(BencodeError::DuplicateKey);
                }
                assert(r.rest() =~= s.skip(c + n));
                let val = match Self::parse(r) {
                    Ok(v) => v,
                    Err(e) => {
                        return Err(e);
                    },
                };
                let ghost m = r.position() - old(r).position() - c - n;
                proof {
                    assert(r.rest() =~= s.skip(c + n + m));
                    assert(cur.skip(n) =~= s.skip(c + n));
                    assert(cur.skip(n + m) =~= s.skip(c + n + m));
                }
                dict.insert(key, val);
            }
        } else if first == LIST_PREFIX {
            r.advance(1);
            let ghost s1 = s.skip(1);
            let mut list: Vec<BenObject> = Vec::new();
            assert(list_view(list@) =~= Seq::empty());
            loop
                invariant
                    r.wf(),
                    r.bytes() == old(r).bytes(),
                    s == old(r).rest(),
                    s1 == s.skip(1),
                    s.len() > 0,
                    s[0] == LIST_PREFIX,
                    old(r).position() < r.position(),
                    r.position() - old(r).position() <= s.len(),
                    r.rest() == s.skip(r.position() - old(r).position()),
                    forall|i: int| 0 <= i < list@.len() ==> (#[trigger] list@[i])@.wf(),
                    parse_items(s1, Seq::empty()) == after(
                        r.position() - old(r).position() - 1,
                        parse_items(r.rest(), list_view(list@)),
                    ),
                decreases r.rest().len(),
            {
                let ghost c = r.position() - old(r).position();
                let ghost cur = r.rest();
                let ghost items = list_view(list@);
                let b = match Self::peek_byte(r) {
                    Ok(b) => b,
                    Err(e) => {
                        return Err(e);
                    },
                };
                if b == LIST_POSTFIX {
                    r.advance(1);
                    assert(r.rest() =~= s.skip(c + 1));
                    let res = BenObject::List(list);
                    proof {
                        lemma_view(res);
                    }
                    return Ok(res);
                }
                let val = match Self::parse(r) {
                    Ok(v) => v,
                    Err(e) => {
                        return Err(e);
                    },
                };
                let ghost n = r.position() - old(r).position() - c;
                proof {
                    assert(r.rest() =~= s.skip(c + n));
                    assert(cur.skip(n) =~= s.skip(c + n));
                }
                list.push(val);
                assert(list_view(list@) =~= items.push(val@));
            }
        } else if first == INT_PREFIX {
            read_int(r)
        } else if check_num(first) {
            read_string(r)
        } else {
            Err(BencodeError::Invalid)
        }
    }

    fn peek_byte(bytes: &ByteBuffer) -> (res: Result<u8, BencodeError>)
        requires
            bytes.wf(),
        ensures
            match res {
                Ok(b) => bytes.rest().len() > 0 && b == bytes.rest()[0],
                Err(e) => bytes.rest().len() == 0 && e == BencodeError::EOF,
            },
    {
        match bytes.peek() {
            Some(byte) => Ok(*byte),
            None => Err(BencodeError::EOF),
        }
    }
}

} // verus!
