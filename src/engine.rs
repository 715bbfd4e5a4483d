//! The encoder.
use vstd::prelude::*;
use vstd::arithmetic::div_mod::lemma_fundamental_div_mod_converse;

use crate::model::{alphabet_char, byte_at, encoded, encoded_len, symbol_value};

verus! {

/// What can go wrong while encoding.
#[derive(Clone, Copy, Debug, PartialEq, Eq, Structural)]
pub enum Error {
    /// A symbol was to be written past the end of the output buffer.
    InvalidOutputLength,
}

impl Error {
    /// The name of the error.
    pub fn to_string(&self) -> (r: String)
        ensures
            r@ == "InvalidOutputLength"@,
    {
        match self {
            Error::InvalidOutputLength => "InvalidOutputLength".to_owned(),
        }
    }
}

/// Writes `datum` at `output[index]` and returns the next write position,
/// or fails, leaving `output` as it was, when `index` is past its end.
pub fn write_u8(output: &mut [u8], datum: u8, index: usize) -> (r: Result<usize, Error>)
    ensures
        match r {
            Ok(next) => {
                &&& index < old(output)@.len()
                &&& next == index + 1
                &&& final(output)@ == old(output)@.update(index as int, datum)
            },
            Err(e) => {
                &&& index >= old(output)@.len()
                &&& e == Error::InvalidOutputLength
                &&& final(output)@ == old(output)@
            },
        },
{
    if index < output.len() {
        output[index] = datum;
        Ok(index + 1)
    } else {
        Err(Error::InvalidOutputLength)
    }
}

/// `m` is the mask of the low `k` bits.
spec fn is_mask(k: usize, m: u8) -> bool {
    ||| (k == 0 && m == 0x00)
    ||| (k == 1 && m == 0x01)
    ||| (k == 2 && m == 0x03)
    ||| (k == 3 && m == 0x07)
    ||| (k == 4 && m == 0x0f)
    ||| (k == 5 && m == 0x1f)
    ||| (k == 6 && m == 0x3f)
    ||| (k == 7 && m == 0x7f)
    ||| (k == 8 && m == 0xff)
}

/// Entry `k` is the mask of the low `k` bits.
const MASK_NBIT: [u8; 9] = [0x00, 0x01, 0x03, 0x07, 0x0f, 0x1f, 0x3f, 0x7f, 0xff];

/// The number of input bits that one symbol carries.
const PAD_SIZE: usize = 5;

/// The alphabet in ASCII: the 26 upper-case letters `A`..`Z`, then the
/// digits `2`..`7`.
const TABLE: [u8; 32] = [
    0x41, 0x42, 0x43, 0x44, 0x45, 0x46, 0x47, 0x48,
    0x49, 0x4a, 0x4b, 0x4c, 0x4d, 0x4e, 0x4f, 0x50,
    0x51, 0x52, 0x53, 0x54, 0x55, 0x56, 0x57, 0x58,
    0x59, 0x5a, 0x32, 0x33, 0x34, 0x35, 0x36, 0x37,
];

/// The mask of the low `k` bits, read from the table.
fn mask(k: usize) -> (m: u8)
    requires
        k <= 8,
    ensures
        is_mask(k, m),
{
    MASK_NBIT[k]
}

/// The character of the alphabet for the 5-bit value `v`.
fn symbol(v: u8) -> (c: u8)
    requires
        v < 32,
    ensures
        c == alphabet_char(v as int),
{
    TABLE[v as usize]
}

/// The first symbol of a byte when no bits are carried over.
proof fn lemma_symbol_aligned(d: u8, next: u8, m: u8)
    by (bit_vector)
    requires
        m == 0x1f,
    ensures
        ((d & m) << 0usize) | 0u8 < 32,
        ((d & m) << 0usize) | 0u8 == ((((d as u16) | ((next as u16) << 8u16)) >> 0u16)
            & 31u16) as u8,
{
}

/// The first symbol of a byte that completes the bits carried over from
/// the byte before it.
proof fn lemma_symbol_carried(prev: u8, d: u8, c: u8, remain: usize, m: u8)
    by (bit_vector)
    requires
        1 <= remain <= 4,
        is_mask(remain, m),
        c == prev >> ((3 + remain) as usize),
    ensures
        ((d & m) << ((5 - remain) as usize)) | c < 32,
        ((d & m) << ((5 - remain) as usize)) | c == ((((prev as u16) | ((d as u16) << 8u16)) >> ((3
            + remain) as u16)) & 31u16) as u8,
{
}

/// The bits of a byte left after its first symbol, when they fill a
/// second symbol.
proof fn lemma_second_symbol(d: u8, next: u8, remain: usize, m: u8, m5: u8)
    by (bit_vector)
    requires
        1 <= remain <= 3,
        is_mask((8 - remain) as usize, m),
        m5 == 0x1f,
    ensures
        ((d >> remain) & m) & m5 == ((((d as u16) | ((next as u16) << 8u16)) >> (remain as u16))
            & 31u16) as u8,
        ((d >> remain) & m) & m5 < 32,
        ((d >> remain) & m) >> 5usize == d >> ((remain + 5) as usize),
        remain == 3 ==> ((d >> remain) & m) >> 5usize == 0,
{
}

/// The bits of a byte left after its first symbol, when they do not fill
/// a second one.
proof fn lemma_carry(d: u8, remain: usize, m: u8)
    by (bit_vector)
    requires
        4 <= remain <= 5,
        is_mask((8 - remain) as usize, m),
    ensures
        (d >> remain) & m == d >> remain,
{
}

/// The last symbol, filled with zero bits past the end of the input.
proof fn lemma_last_symbol(prev: u8, c: u8, remain: usize, m5: u8)
    by (bit_vector)
    requires
        1 <= remain <= 4,
        c == prev >> ((3 + remain) as usize),
        m5 == 0x1f,
    ensures
        c & m5 < 32,
        c & m5 == ((((prev as u16) | ((0u8 as u16) << 8u16)) >> ((3 + remain) as u16))
            & 31u16) as u8,
{
}

/// What an encoding of `input` into a buffer that held `before` may leave:
/// `after` is the buffer afterwards and `r` the result.
///
/// The encoding is written from the start of the buffer, as far as it fits;
/// the rest of the buffer is untouched. The call succeeds, with the number of
/// symbols, exactly when the whole encoding fits; otherwise it fails with
/// `InvalidOutputLength`, and the buffer holds as much of the encoding as fits.
pub open spec fn encode_outcome(
    input: Seq<u8>,
    before: Seq<u8>,
    after: Seq<u8>,
    r: Result<usize, Error>,
) -> bool {
    let e = encoded(input);
    &&& after.len() == before.len()
    &&& forall|j: int|
        0 <= j < before.len() ==> #[trigger] after[j] == if j < e.len() {
            e[j]
        } else {
            before[j]
        }
    &&& match r {
        Ok(n) => e.len() <= before.len() && n == e.len(),
        Err(err) => before.len() < e.len() && err == Error::InvalidOutputLength,
    }
}

/// Symbol `k` starts at bit `o` of byte `i` when `5 * k == 8 * i + o`.
proof fn lemma_symbol_position(k: int, i: int, o: int)
    requires
        5 * k == 8 * i + o,
        0 <= o < 8,
    ensures
        (5 * k) / 8 == i,
        (5 * k) % 8 == o,
{
    lemma_fundamental_div_mod_converse(5 * k, 8, i, o);
}

/// A symbol that starts before the last bit of the input is part of the
/// encoding.
proof fn lemma_within_encoding(k: int, n: int)
    requires
        0 <= k,
        5 * k < 8 * n,
    ensures
        k < encoded_len(n as nat),
{
}

/// A buffer shorter than the encoding, filled with its first symbols, is
/// what a failed encoding leaves.
proof fn lemma_failed_outcome(s: Seq<u8>, before: Seq<u8>, after: Seq<u8>)
    requires
        after.len() == before.len(),
        before.len() < encoded_len(s.len()),
        forall|j: int|
            0 <= j < after.len() ==> #[trigger] after[j] == alphabet_char(
                symbol_value(s, j) as int,
            ),
    ensures
        encode_outcome(s, before, after, Err(Error::InvalidOutputLength)),
{
}

/// A buffer that starts with the whole encoding, and is otherwise as it
/// was, is what a successful encoding leaves.
proof fn lemma_done_outcome(s: Seq<u8>, before: Seq<u8>, after: Seq<u8>, k: usize)
    requires
        after.len() == before.len(),
        k == encoded_len(s.len()),
        k <= before.len(),
        forall|j: int|
            0 <= j < k ==> #[trigger] after[j] == alphabet_char(symbol_value(s, j) as int),
        forall|j: int| k <= j < after.len() ==> #[trigger] after[j] == before[j],
    ensures
        encode_outcome(s, before, after, Ok(k)),
{
}

/// An encoder of bytes into base-32 symbols.
pub trait Engine {
    /// Encodes `input` into `output`, from its first position, and returns
    /// the number of symbols written.
    fn encode(input: &[u8], output: &mut [u8]) -> (r: Result<usize, Error>)
        ensures
            encode_outcome(input@, old(output)@, final(output)@, r),
    ;
}

/// The single-pass encoder, which carries the unused bits of each byte over
/// to the next.
pub struct NaiveEngine {}

impl Engine for NaiveEngine {
    fn encode(input: &[u8], output: &mut [u8]) -> (r: Result<usize, Error>) {
        let ghost s = input@;
        let ghost before = output@;
        let mut output_index: usize = 0;
        // The number of bits that the next byte must give to complete the
        // next symbol; the other `5 - remain` bits of that symbol came from
        // the byte before and are held in `current`.
        let mut remain: usize = PAD_SIZE;
        let mut current: u8 = 0;
        let mut i: usize = 0;
        while i < input.len()
            invariant
                s == input@,
                before == old(output)@,
                0 <= i <= s.len(),
                1 <= remain <= 5,
                5 * output_index + 5 - remain == 8 * i,
                remain == 5 ==> current == 0,
                remain < 5 ==> i > 0 && current == s[i - 1] >> ((3 + remain) as usize),
                output@.len() == before.len(),
                output_index <= output@.len(),
                forall|j: int|
                    0 <= j < output_index ==> #[trigger] output@[j] == alphabet_char(
                        symbol_value(s, j) as int,
                    ),
                forall|j: int|
                    output_index <= j < output@.len() ==> #[trigger] output@[j] == before[j],
            decreases s.len() - i,
        {
            let d = input[i];
            let ghost next = byte_at(s, i + 1);
            let m = mask(remain);
            let v = ((d & m) << (PAD_SIZE - remain)) | current;
            proof {
                if remain == 5 {
                    lemma_symbol_position(output_index as int, i as int, 0);
                    lemma_symbol_aligned(d, next, m);
                } else {
                    lemma_symbol_position(output_index as int, i - 1, 3 + remain);
                    lemma_symbol_carried(s[i - 1], d, current, remain, m);
                }
            }
            assert(v == symbol_value(s, output_index as int));
            let w = write_u8(output, symbol(v), output_index);
            match w {
                Ok(k) => {
                    output_index = k;
                },
                Err(e) => {
                    proof {
                        lemma_within_encoding(output_index as int, s.len() as int);
                        lemma_failed_outcome(s, before, output@);
                    }
                    return Err(e);
                },
            }
            let inner_remain = 8 - remain;
            let m = mask(inner_remain);
            current = (d >> remain) & m;
            let inner_remain = if inner_remain >= PAD_SIZE {
                let m5 = mask(PAD_SIZE);
                proof {
                    lemma_symbol_position(output_index as int, i as int, remain as int);
                    lemma_second_symbol(d, next, remain, m, m5);
                }
                let w = write_u8(output, symbol(current & m5), output_index);
                match w {
                    Ok(k) => {
                        output_index = k;
                    },
                    Err(e) => {
                        proof {
                            lemma_within_encoding(output_index as int, s.len() as int);
                            lemma_failed_outcome(s, before, output@);
                        }
                        return Err(e);
                    },
                }
                current = current >> PAD_SIZE;
                inner_remain - PAD_SIZE
            } else {
                proof {
                    lemma_carry(d, remain, m);
                }
                inner_remain
            };
            remain = PAD_SIZE - inner_remain;
            i = i + 1;
        }
        // Bits are left over exactly when the last symbol is only partly
        // filled; the bits past the end of the input are zero.
        if remain < PAD_SIZE {
            let m5 = mask(PAD_SIZE);
            proof {
                lemma_symbol_position(output_index as int, i - 1, 3 + remain);
                lemma_last_symbol(s[i - 1], current, remain, m5);
            }
            let w = write_u8(output, symbol(current & m5), output_index);
            match w {
                Ok(k) => {
                    output_index = k;
                },
                Err(e) => {
                    proof {
                        lemma_within_encoding(output_index as int, s.len() as int);
                        lemma_failed_outcome(s, before, output@);
                    }
                    return Err(e);
                },
            }
        }
        proof {
            lemma_done_outcome(s, before, output@, output_index);
        }
        Ok(output_index)
    }
}

} // verus!
