//! What the codec reports of malformed input.

use vstd::prelude::*;

verus! {

/// Why a byte string is no bencoded value.
#[derive(Debug, Clone, Copy, PartialEq, Eq)]
pub enum BencodeError {
    /// A decimal number was expected. The fields hold the number read and
    /// how many bytes it took: `(0, 0)` where the first byte is no digit,
    /// `(0, 1)` where a sign stands alone, and a negative number with its
    /// width where a string's length has a sign.
    ExpectNumberError(i64, i64),
    /// A dictionary key does not start like a byte string.
    ExpectStringError,
    /// A string's length is not followed by `:`.
    ExpectColonError,
    /// An integer does not start with `i`.
    ExpectCharIError,
    /// An integer's digits are not followed by `e`.
    ExpectCharEError,
    WrongType,
    /// A value starts with a byte that opens no value, or a number is not in
    /// its shortest form (`-0`, a leading zero) or does not fit 64 bits.
    Invalid,
    /// The input ends inside a value.
    EOF,
    /// A dictionary holds the same key twice.
    DuplicateKey,
    Unknown,
}

} // verus!
