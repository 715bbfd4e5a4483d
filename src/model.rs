//! The mathematical model of the encoding.
//!
//! The input is read as a little-endian stream of bits: bit `j` of byte `i`
//! is bit `8 * i + j` of the stream. Symbol `k` of the output carries the
//! stream bits `5 * k .. 5 * k + 5`, the lowest of them as its least
//! significant bit; positions past the end of the input read as zero.
use vstd::prelude::*;

verus! {

/// The number of symbols that encode `n` bytes: `ceil(8 * n / 5)`.
pub open spec fn encoded_len(n: nat) -> nat {
    (8 * n + 4) / 5
}

/// The character of the alphabet at index `v`: `A`..`Z` for 0..25, then
/// `2`..`7` for 26..31.
pub open spec fn alphabet_char(v: int) -> u8 {
    if v < 26 {
        (65 + v) as u8
    } else {
        (50 + (v - 26)) as u8
    }
}

/// Whether `c` is one of the 32 characters of the alphabet.
pub open spec fn is_alphabet_char(c: u8) -> bool {
    (65 <= c <= 90) || (50 <= c <= 55)
}

/// Byte `i` of `s`, or zero past its end.
pub open spec fn byte_at(s: Seq<u8>, i: int) -> u8 {
    if 0 <= i < s.len() {
        s[i]
    } else {
        0
    }
}

/// The 5-bit value of symbol `k`: the two bytes that hold stream bit
/// `5 * k` and its successor, shifted down to that bit and masked.
pub open spec fn symbol_value(s: Seq<u8>, k: int) -> u8 {
    let i = (5 * k) / 8;
    let o = (5 * k) % 8;
    let w = (byte_at(s, i) as u16) | ((byte_at(s, i + 1) as u16) << 8u16);
    ((w >> (o as u16)) & 31u16) as u8
}

/// The encoding of `s`: one alphabet character per symbol.
pub open spec fn encoded(s: Seq<u8>) -> Seq<u8> {
    Seq::new(encoded_len(s.len()), |k: int| alphabet_char(symbol_value(s, k) as int))
}

/// Every symbol value is below 32.
pub proof fn lemma_symbol_value_bound(s: Seq<u8>, k: int)
    ensures
        symbol_value(s, k) < 32,
{
    let i = (5 * k) / 8;
    let o = ((5 * k) % 8) as u16;
    let w = (byte_at(s, i) as u16) | ((byte_at(s, i + 1) as u16) << 8u16);
    assert(((w >> o) & 31u16) < 32u16) by (bit_vector);
}

/// Every value below 32 maps to a character of the alphabet.
pub proof fn lemma_alphabet_char(v: int)
    requires
        0 <= v < 32,
    ensures
        is_alphabet_char(alphabet_char(v)),
{
}

} // verus!
