//! Numbers too large for a tagged pointer, kept in the heap.

use vstd::prelude::*;
use crate::allocator::AllocObject;
use crate::array::Array;
use crate::headers::TypeList;

verus! {

/// A number in the heap: an array of its digits, each of 64 bits.
#[derive(Copy, Clone)]
pub struct NumberObject {
    value: Array<u64>,
}

impl NumberObject {
    /// The digits of the number.
    pub closed spec fn spec_value(&self) -> Array<u64> {
        self.value
    }

    /// The number with the given digits.
    pub closed spec fn spec_of(value: Array<u64>) -> NumberObject {
        NumberObject { value }
    }

    /// A number is made of its digits.
    pub broadcast proof fn lemma_spec_of(value: Array<u64>)
        ensures
            (#[trigger] Self::spec_of(value)).spec_value() == value,
    {
    }

    /// A number is made of its digits.
    pub proof fn lemma_is_spec_of(self)
        ensures
            self == Self::spec_of(self.spec_value()),
    {
    }

    /// The number with the given digits.
    pub fn new(value: Array<u64>) -> (number: NumberObject)
        ensures
            number == Self::spec_of(value),
    {
        NumberObject { value }
    }
}

impl AllocObject<TypeList> for NumberObject {
    open spec fn spec_type_id() -> TypeList {
        TypeList::NumberObject
    }

    fn type_id() -> (id: TypeList) {
        TypeList::NumberObject
    }

    open spec fn spec_word_count() -> nat {
        5
    }

    fn word_count() -> (count: usize) {
        5
    }

    open spec fn spec_words(&self) -> Seq<u64> {
        self.spec_value().spec_array_words()
    }

    fn to_words(&self) -> (words: Vec<u64>) {
        let mut words: Vec<u64> = Vec::new();
        self.value.push_words(&mut words);
        proof {
            self.spec_value().lemma_array_words_round_trip();
            assert(words@ =~= self.spec_words());
        }
        words
    }

    open spec fn spec_from_words(words: Seq<u64>) -> NumberObject {
        NumberObject::spec_of(Array::spec_from_array_words(words))
    }

    fn from_words(words: &[u64]) -> (object: NumberObject) {
        assert(words@.subrange(0, 5) =~= words@);
        NumberObject { value: Array::from_array_words(words, 0) }
    }

    proof fn lemma_words_round_trip(&self) {
        self.lemma_is_spec_of();
        self.spec_value().lemma_array_words_round_trip();
    }
}

} // verus!
