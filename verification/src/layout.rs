//! The layout of objects in heap memory: every object is a row of 64-bit
//! words, each stored as eight bytes, the lowest first.

use vstd::prelude::*;
use vstd::bytes::{
    lemma_auto_spec_u64_to_from_le_bytes, spec_u64_from_le_bytes, spec_u64_to_le_bytes,
    u64_from_le_bytes, u64_to_le_bytes,
};
use vstd::slice::slice_subrange;
use vstd::arithmetic::div_mod::{lemma_mod_bound, lemma_small_mod};

verus! {

/// The bytes of a word in memory.
pub const WORD_BYTES: usize = 8;

/// The bytes that stand for a row of words.
pub open spec fn words_to_bytes(words: Seq<u64>) -> Seq<u8>
    decreases words.len(),
{
    if words.len() == 0 {
        Seq::empty()
    } else {
        words_to_bytes(words.drop_last()) + spec_u64_to_le_bytes(words.last())
    }
}

/// The first `count` words that `bytes` stand for.
pub open spec fn bytes_to_words(bytes: Seq<u8>, count: nat) -> Seq<u64> {
    Seq::new(count, |i: int| spec_u64_from_le_bytes(bytes.subrange(8 * i, 8 * i + 8)))
}

/// A row of words takes eight bytes for each word, and word `i` stands at
/// byte `8 * i`.
pub proof fn lemma_words_to_bytes(words: Seq<u64>)
    ensures
        words_to_bytes(words).len() == 8 * words.len(),
        forall|i: int|
            0 <= i < words.len() ==> #[trigger] words_to_bytes(words).subrange(8 * i, 8 * i + 8)
                == spec_u64_to_le_bytes(words[i]),
    decreases words.len(),
{
    lemma_auto_spec_u64_to_from_le_bytes();
    if words.len() > 0 {
        let front = words.drop_last();
        lemma_words_to_bytes(front);
        let bytes = words_to_bytes(words);
        assert forall|i: int| 0 <= i < words.len() implies #[trigger] bytes.subrange(
            8 * i,
            8 * i + 8,
        ) == spec_u64_to_le_bytes(words[i]) by {
            if i < front.len() {
                assert(bytes.subrange(8 * i, 8 * i + 8) =~= words_to_bytes(front).subrange(
                    8 * i,
                    8 * i + 8,
                ));
            } else {
                assert(bytes.subrange(8 * i, 8 * i + 8) =~= spec_u64_to_le_bytes(words.last()));
            }
        }
    }
}

/// The words that the bytes of a row of words stand for are that row.
pub proof fn lemma_bytes_to_words_of_words(words: Seq<u64>)
    ensures
        words_to_bytes(words).len() == 8 * words.len(),
        bytes_to_words(words_to_bytes(words), words.len()) == words,
{
    lemma_auto_spec_u64_to_from_le_bytes();
    lemma_words_to_bytes(words);
    assert(bytes_to_words(words_to_bytes(words), words.len()) =~= words);
}

/// The bytes that stand for `words`.
pub fn encode_words(words: &[u64]) -> (bytes: Vec<u8>)
    ensures
        bytes@ == words_to_bytes(words@),
        bytes@.len() == 8 * words@.len(),
{
    let mut bytes: Vec<u8> = Vec::new();
    let mut i: usize = 0;
    assert(words@.subrange(0, 0) =~= Seq::<u64>::empty());
    while i < words.len()
        invariant
            i <= words@.len(),
            bytes@ == words_to_bytes(words@.subrange(0, i as int)),
        decreases words@.len() - i,
    {
        let mut word_bytes = u64_to_le_bytes(words[i]);
        bytes.append(&mut word_bytes);
        proof {
            let next = words@.subrange(0, i + 1);
            assert(next.drop_last() =~= words@.subrange(0, i as int));
            assert(next.last() == words@[i as int]);
        }
        i = i + 1;
    }
    proof {
        assert(words@.subrange(0, words@.len() as int) =~= words@);
        lemma_words_to_bytes(words@);
    }
    bytes
}

/// The first `count` words that `bytes` stand for.
pub fn decode_words(bytes: &[u8], count: usize) -> (words: Vec<u64>)
    requires
        bytes@.len() >= 8 * count,
    ensures
        words@ == bytes_to_words(bytes@, count as nat),
{
    let mut words: Vec<u64> = Vec::new();
    let mut i: usize = 0;
    let len: usize = bytes.len();
    while i < count
        invariant
            i <= count,
            len == bytes@.len(),
            bytes@.len() >= 8 * count,
            words@ == bytes_to_words(bytes@, i as nat),
        decreases count - i,
    {
        let word = u64_from_le_bytes(slice_subrange(bytes, 8 * i, 8 * i + 8));
        words.push(word);
        i = i + 1;
        assert(words@ =~= bytes_to_words(bytes@, i as nat));
    }
    words
}

/// The word that stands for an address or a count.
pub open spec fn spec_word_of(value: usize) -> u64 {
    value as u64
}

/// The address or count that a word stands for: its low bits, as many as
/// the machine word has.
pub open spec fn spec_word_value(word: u64) -> usize {
    (word as int % (usize::MAX as int + 1)) as usize
}

/// The word of an address or count stands for it.
pub proof fn lemma_word_round_trip(value: usize)
    ensures
        spec_word_value(spec_word_of(value)) == value,
{
    lemma_small_mod(value as nat, (usize::MAX + 1) as nat);
}

/// The word zero stands for zero.
pub proof fn lemma_word_value_of_zero()
    ensures
        spec_word_value(0) == 0,
{
    lemma_small_mod(0, (usize::MAX + 1) as nat);
}

/// The word that stands for `value`.
pub fn word_of(value: usize) -> (word: u64)
    ensures
        word == spec_word_of(value),
        spec_word_value(word) == value,
{
    proof {
        lemma_small_mod(value as nat, (usize::MAX + 1) as nat);
    }
    value as u64
}

/// The address or count that `word` stands for.
pub fn word_value(word: u64) -> (value: usize)
    ensures
        value == spec_word_value(word),
{
    proof {
        lemma_mod_bound(word as int, usize::MAX as int + 1);
        if word <= usize::MAX {
            lemma_small_mod(word as nat, (usize::MAX + 1) as nat);
        }
    }
    if word <= usize::MAX as u64 {
        word as usize
    } else {
        let modulus: u64 = usize::MAX as u64 + 1;
        (word % modulus) as usize
    }
}

/// The word that stands for a count of 32 bits.
pub fn word_of_u32(value: u32) -> (word: u64)
    ensures
        word == value,
        spec_u32_of_word(word) == value,
{
    value as u64
}

/// The count of 32 bits that a word stands for: its lower half.
pub open spec fn spec_u32_of_word(word: u64) -> u32 {
    (word % 0x1_0000_0000) as u32
}

/// The count of 32 bits that `word` stands for.
pub fn u32_of_word(word: u64) -> (value: u32)
    ensures
        value == spec_u32_of_word(word),
{
    (word % 0x1_0000_0000) as u32
}

/// The count of 8 bits that a word stands for: its lowest byte.
pub open spec fn spec_u8_of_word(word: u64) -> u8 {
    (word % 0x100) as u8
}

/// The count of 8 bits that `word` stands for.
pub fn u8_of_word(word: u64) -> (value: u8)
    ensures
        value == spec_u8_of_word(word),
{
    (word % 0x100) as u8
}

/// The word that stands for a flag.
pub open spec fn spec_word_of_bool(flag: bool) -> u64 {
    if flag {
        1
    } else {
        0
    }
}

/// The word that stands for `flag`.
pub fn word_of_bool(flag: bool) -> (word: u64)
    ensures
        word == spec_word_of_bool(flag),
{
    if flag {
        1
    } else {
        0
    }
}

} // verus!
