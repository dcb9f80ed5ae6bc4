//! Decimal numbers in ASCII, as bencode writes integers and lengths.

use vstd::prelude::*;

verus! {

pub const ZERO: u8 = 48;

pub const MINUS: u8 = 45;

pub open spec fn is_digit(b: u8) -> bool {
    48 <= b <= 57
}

/// The digits of `n`, the most significant first: `0` alone for zero, and
/// no zero in front of any other number.
pub open spec fn digits(n: nat) -> Seq<u8>
    decreases n,
{
    if n < 10 {
        seq![(48 + n) as u8]
    } else {
        digits(n / 10).push((48 + n % 10) as u8)
    }
}

/// The decimal form of `i`: a minus sign where it is negative, then the
/// digits of its magnitude.
pub open spec fn decimal(i: int) -> Seq<u8> {
    if i < 0 {
        seq![45u8] + digits((-i) as nat)
    } else {
        digits(i as nat)
    }
}

/// The number that a sequence of digits stands for.
pub open spec fn digits_value(s: Seq<u8>) -> nat
    decreases s.len(),
{
    if s.len() == 0 {
        0
    } else {
        digits_value(s.drop_last()) * 10 + (s.last() - 48) as nat
    }
}

/// Every byte of `s` is a digit.
pub open spec fn all_digits(s: Seq<u8>) -> bool {
    forall|i: int| 0 <= i < s.len() ==> is_digit(#[trigger] s[i])
}

/// The digits of a number are digits, start with a zero only for zero, and
/// stand for that number.
pub proof fn lemma_digits(n: nat)
    ensures
        digits(n).len() >= 1,
        all_digits(digits(n)),
        digits(n)[0] == 48 <==> n == 0,
        n == 0 ==> digits(n).len() == 1,
        digits_value(digits(n)) == n,
    decreases n,
{
    if n >= 10 {
        lemma_digits(n / 10);
        let s = digits(n);
        assert(s.drop_last() =~= digits(n / 10));
        assert(s[0] == digits(n / 10)[0]);
    } else {
        let s = digits(n);
        assert(s.drop_last() =~= Seq::<u8>::empty());
        assert(digits_value(s.drop_last()) == 0);
    }
}

/// Ten to the `k`.
pub open spec fn pow10(k: nat) -> nat
    decreases k,
{
    if k == 0 {
        1
    } else {
        10 * pow10((k - 1) as nat)
    }
}

/// A number below ten to the `k` has at most `k` digits.
pub proof fn lemma_digits_len(n: nat, k: nat)
    requires
        k >= 1,
        n < pow10(k),
    ensures
        digits(n).len() <= k,
    decreases k,
{
    reveal_with_fuel(pow10, 2);
    if n >= 10 {
        lemma_digits_len(n / 10, (k - 1) as nat);
    }
}

/// A number of 64 bits has at most twenty digits.
pub proof fn lemma_digits_len_u64(n: nat)
    requires
        n <= u64::MAX,
    ensures
        1 <= digits(n).len() <= 20,
{
    lemma_digits(n);
    assert(pow10(20) == 100000000000000000000nat) by {
        reveal_with_fuel(pow10, 21);
    }
    lemma_digits_len(n, 20);
}

/// Digits that do not start with a zero stand for a number above zero.
pub proof fn lemma_digits_value_positive(ds: Seq<u8>)
    requires
        all_digits(ds),
        ds.len() >= 1,
        ds[0] != 48,
    ensures
        digits_value(ds) >= 1,
    decreases ds.len(),
{
    let t = ds.drop_last();
    if ds.len() > 1 {
        assert(t[0] == ds[0]);
        assert forall|i: int| 0 <= i < t.len() implies is_digit(#[trigger] t[i]) by {
            assert(t[i] == ds[i]);
        }
        lemma_digits_value_positive(t);
    }
}

/// Digits that do not start with a zero and stand for a number below ten
/// to the `k` are at most `k`.
pub proof fn lemma_digits_value_len(ds: Seq<u8>, k: nat)
    requires
        all_digits(ds),
        ds.len() >= 1,
        ds[0] != 48,
        digits_value(ds) < pow10(k),
    ensures
        ds.len() <= k,
    decreases ds.len(),
{
    reveal_with_fuel(pow10, 2);
    lemma_digits_value_positive(ds);
    let t = ds.drop_last();
    if ds.len() > 1 {
        assert(t[0] == ds[0]);
        assert forall|i: int| 0 <= i < t.len() implies is_digit(#[trigger] t[i]) by {
            assert(t[i] == ds[i]);
        }
        assert(is_digit(ds[ds.len() - 1]));
        lemma_digits_value_len(t, (k - 1) as nat);
    }
}

/// Digits that do not start with a zero and stand for a number of 64 bits
/// are at most twenty.
pub proof fn lemma_digits_value_len_u64(ds: Seq<u8>)
    requires
        all_digits(ds),
        ds.len() >= 1,
        ds[0] != 48,
        digits_value(ds) <= u64::MAX,
    ensures
        ds.len() <= 20,
{
    assert(pow10(20) == 100000000000000000000nat) by {
        reveal_with_fuel(pow10, 21);
    }
    lemma_digits_value_len(ds, 20);
}

/// Appends the digits of `n` to `w` and says how many they are.
pub fn write_digits(w: &mut Vec<u8>, n: u64) -> (len: usize)
    ensures
        final(w)@ == old(w)@ + digits(n as nat),
        len == digits(n as nat).len(),
        1 <= len <= 20,
    decreases n,
{
    proof {
        lemma_digits_len_u64(n as nat);
    }
    if n < 10 {
        w.push(ZERO + n as u8);
        assert(w@ =~= old(w)@ + digits(n as nat));
        1
    } else {
        let len = write_digits(w, n / 10);
        w.push(ZERO + (n % 10) as u8);
        assert(w@ =~= old(w)@ + digits(n as nat));
        len + 1
    }
}

/// The magnitude of `val`.
pub fn magnitude(val: i64) -> (m: u64)
    ensures
        m == if val < 0 {
            -(val as int)
        } else {
            val as int
        },
{
    if val == i64::MIN {
        9223372036854775808u64
    } else if val < 0 {
        (-val) as u64
    } else {
        val as u64
    }
}

/// Appends the decimal form of `val` to `w` and says how many bytes it took.
pub fn write_decimal(w: &mut Vec<u8>, val: i64) -> (len: usize)
    ensures
        final(w)@ == old(w)@ + decimal(val as int),
        len == decimal(val as int).len(),
        1 <= len <= 21,
{
    if val < 0 {
        w.push(MINUS);
        let len = write_digits(w, magnitude(val));
        assert(w@ =~= old(w)@ + decimal(val as int));
        len + 1
    } else {
        write_digits(w, magnitude(val))
    }
}

} // verus!
