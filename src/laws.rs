//! Properties of the encoder as a whole, stated over what a call of
//! `Engine::encode` may leave behind (`encode_outcome`).
use vstd::prelude::*;

use crate::engine::{encode_outcome, Error};
use crate::model::{
    encoded, encoded_len, is_alphabet_char, lemma_alphabet_char,
    lemma_symbol_value_bound, symbol_value,
};

verus! {

/// Every symbol of an encoding is one of the 32 characters of the alphabet.
pub proof fn encoded_in_alphabet(s: Seq<u8>)
    ensures
        forall|j: int| 0 <= j < encoded(s).len() ==> is_alphabet_char(#[trigger] encoded(s)[j]),
{
    assert forall|j: int| 0 <= j < encoded(s).len() implies is_alphabet_char(
        #[trigger] encoded(s)[j],
    ) by {
        lemma_symbol_value_bound(s, j);
        lemma_alphabet_char(symbol_value(s, j) as int);
    }
}

/// On success, every byte written to the output is a character of the
/// alphabet.
pub proof fn output_in_alphabet(
    input: Seq<u8>,
    before: Seq<u8>,
    after: Seq<u8>,
    r: Result<usize, Error>,
)
    requires
        encode_outcome(input, before, after, r),
        r is Ok,
    ensures
        forall|j: int| 0 <= j < r->Ok_0 ==> is_alphabet_char(#[trigger] after[j]),
{
    encoded_in_alphabet(input);
    assert forall|j: int| 0 <= j < r->Ok_0 implies is_alphabet_char(#[trigger] after[j]) by {
        assert(after[j] == encoded(input)[j]);
    }
}

/// Two encodings of the same input, each into a buffer large enough for it,
/// both succeed with the same count and write the same symbols.
pub proof fn encoding_is_deterministic(
    input: Seq<u8>,
    before1: Seq<u8>,
    after1: Seq<u8>,
    r1: Result<usize, Error>,
    before2: Seq<u8>,
    after2: Seq<u8>,
    r2: Result<usize, Error>,
)
    requires
        encode_outcome(input, before1, after1, r1),
        encode_outcome(input, before2, after2, r2),
        encoded_len(input.len()) <= before1.len(),
        encoded_len(input.len()) <= before2.len(),
    ensures
        r1 is Ok,
        r1 == r2,
        after1.subrange(0, r1->Ok_0 as int) == after2.subrange(0, r2->Ok_0 as int),
{
    let k = r1->Ok_0 as int;
    assert(after1.subrange(0, k) =~= after2.subrange(0, k)) by {
        assert forall|j: int| 0 <= j < k implies after1.subrange(0, k)[j] == after2.subrange(
            0,
            k,
        )[j] by {
            assert(after1[j] == encoded(input)[j]);
            assert(after2[j] == encoded(input)[j]);
        }
    }
}

/// A non-empty input does not fit in a buffer one symbol shorter than its
/// encoding.
pub proof fn undersized_buffer_fails(
    input: Seq<u8>,
    before: Seq<u8>,
    after: Seq<u8>,
    r: Result<usize, Error>,
)
    requires
        encode_outcome(input, before, after, r),
        input.len() > 0,
        before.len() + 1 == encoded_len(input.len()),
    ensures
        r == Err::<usize, Error>(Error::InvalidOutputLength),
{
}

/// The empty input encodes, into any buffer, as zero symbols and leaves the
/// buffer as it was.
pub proof fn empty_input_succeeds(before: Seq<u8>, after: Seq<u8>, r: Result<usize, Error>)
    requires
        encode_outcome(Seq::empty(), before, after, r),
    ensures
        r == Ok::<usize, Error>(0),
        after == before,
{
    assert(after =~= before);
}

/// No symbol is added for padding: the count of symbols is the least whose
/// bits hold every bit of the input, so each symbol holds at least one of
/// them.
pub proof fn no_padding(input: Seq<u8>, before: Seq<u8>, after: Seq<u8>, r: Result<usize, Error>)
    requires
        encode_outcome(input, before, after, r),
        r is Ok,
    ensures
        8 * input.len() <= 5 * r->Ok_0,
        5 * r->Ok_0 < 8 * input.len() + 5,
{
}

} // verus!
