//! Symbols: unique objects, each with a name.

use vstd::prelude::*;
use crate::allocator::AllocObject;
use crate::headers::TypeList;
use crate::layout::{lemma_word_round_trip, spec_word_of, spec_word_value, word_of, word_value};
use crate::rawptr::RawPtr;

verus! {

/// A symbol. Its name is a run of bytes kept by the symbol map that made the
/// symbol; the symbol holds the address and the length of the run.
#[derive(Copy, Clone)]
pub struct Symbol {
    name_ptr: usize,
    name_len: usize,
}

impl Symbol {
    /// The address of the first byte of the name.
    pub closed spec fn spec_name_ptr(&self) -> usize {
        self.name_ptr
    }

    /// The length of the name in bytes.
    pub closed spec fn spec_name_len(&self) -> usize {
        self.name_len
    }

    /// The symbol whose name is the `name_len` bytes at `name_ptr`.
    pub closed spec fn spec_of(name_ptr: usize, name_len: usize) -> Symbol {
        Symbol { name_ptr, name_len }
    }

    /// A symbol is made of the address and the length of its name.
    pub broadcast proof fn lemma_spec_of(name_ptr: usize, name_len: usize)
        ensures
            (#[trigger] Self::spec_of(name_ptr, name_len)).spec_name_ptr() == name_ptr,
            Self::spec_of(name_ptr, name_len).spec_name_len() == name_len,
    {
    }

    /// A symbol is made of the address and the length of its name.
    pub proof fn lemma_is_spec_of(self)
        ensures
            self == Self::spec_of(self.spec_name_ptr(), self.spec_name_len()),
    {
    }

    /// A symbol whose name is the `name_len` bytes that `name` points at. The
    /// bytes must be kept, unchanged, for as long as the symbol is.
    pub fn new(name: RawPtr<u8>, name_len: usize) -> (symbol: Symbol)
        ensures
            symbol == Self::spec_of(name.spec_word(), name_len),
    {
        Symbol { name_ptr: name.as_word(), name_len }
    }

    /// The address of the first byte of the name.
    pub fn name_ptr(&self) -> (ptr: RawPtr<u8>)
        ensures
            ptr.spec_word() == self.spec_name_ptr(),
    {
        RawPtr::new(self.name_ptr)
    }

    /// The length of the name in bytes.
    pub fn name_len(&self) -> (len: usize)
        ensures
            len == self.spec_name_len(),
    {
        self.name_len
    }
}

impl AllocObject<TypeList> for Symbol {
    open spec fn spec_type_id() -> TypeList {
        TypeList::Symbol
    }

    fn type_id() -> (id: TypeList) {
        TypeList::Symbol
    }

    open spec fn spec_word_count() -> nat {
        2
    }

    fn word_count() -> (count: usize) {
        2
    }

    open spec fn spec_words(&self) -> Seq<u64> {
        seq![spec_word_of(self.spec_name_ptr()), spec_word_of(self.spec_name_len())]
    }

    fn to_words(&self) -> (words: Vec<u64>) {
        let mut words: Vec<u64> = Vec::new();
        words.push(word_of(self.name_ptr));
        words.push(word_of(self.name_len));
        assert(words@ =~= self.spec_words());
        words
    }

    open spec fn spec_from_words(words: Seq<u64>) -> Symbol {
        Symbol::spec_of(spec_word_value(words[0]), spec_word_value(words[1]))
    }

    fn from_words(words: &[u64]) -> (object: Symbol) {
        Symbol { name_ptr: word_value(words[0]), name_len: word_value(words[1]) }
    }

    proof fn lemma_words_round_trip(&self) {
        lemma_word_round_trip(self.spec_name_ptr());
        lemma_word_round_trip(self.spec_name_len());
    }
}

} // verus!
