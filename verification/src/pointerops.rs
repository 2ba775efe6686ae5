//! Pointer tagging: the lowest two bits of a word say what it points at.

use vstd::prelude::*;
use crate::rawptr::RawPtr;

verus! {

/// The bits of a word that hold the tag.
pub const TAG_MASK: usize = 0x3;

/// Tag of an inline number, and of nil.
pub const TAG_NUMBER: usize = 0x0;

/// Tag of a pointer to a symbol.
pub const TAG_SYMBOL: usize = 0x1;

/// Tag of a pointer to a pair.
pub const TAG_PAIR: usize = 0x2;

/// Tag of a pointer to an object of any other type, which its header names.
pub const TAG_OBJECT: usize = 0x3;

/// The bits of a word that hold the address.
pub const PTR_MASK: usize = !0x3;

/// The tag of a word: its lowest two bits.
pub open spec fn spec_get_tag(tagged_word: usize) -> usize {
    tagged_word % 4
}

/// A word with its tag bits cleared.
pub open spec fn spec_untag(tagged_word: usize) -> usize {
    (tagged_word - tagged_word % 4) as usize
}

/// The tag of `tagged_word`.
pub fn get_tag(tagged_word: usize) -> (tag: usize)
    ensures
        tag == spec_get_tag(tagged_word),
        tag <= TAG_MASK,
{
    assert(tagged_word & 3 == tagged_word % 4) by (bit_vector);
    tagged_word & TAG_MASK
}

/// Setting a tag in an address whose tag bits are clear adds the tag to it;
/// clearing the tag bits of the sum gives the address back.
pub proof fn lemma_tag_untag(addr: usize, tag: usize)
    requires
        addr % 4 == 0,
        tag <= TAG_MASK,
    ensures
        addr | tag == addr + tag,
        spec_get_tag((addr + tag) as usize) == tag,
        spec_untag((addr + tag) as usize) == addr,
{
    assert(addr % 4 == 0 && tag <= 3 ==> addr | tag == addr + tag) by (bit_vector);
}

/// Tagging and untagging of pointers.
pub trait Tagged<T>: Sized {
    /// The address that the pointer holds.
    spec fn spec_addr(self) -> usize;

    /// The pointer that holds address `addr`.
    spec fn spec_at(addr: usize) -> Self;

    /// The word that holds the address with `tag` in its tag bits.
    fn tag(self, tag: usize) -> (word: usize)
        requires
            tag <= TAG_MASK,
        ensures
            word == self.spec_addr() | tag,
    ;

    /// The pointer that a tagged word holds.
    fn untag(from: usize) -> (ptr: Self)
        requires
            spec_untag(from) != 0,
        ensures
            ptr == Self::spec_at(spec_untag(from)),
            ptr.spec_addr() == spec_untag(from),
    ;
}

impl<T> Tagged<T> for RawPtr<T> {
    open spec fn spec_addr(self) -> usize {
        self.spec_word()
    }

    open spec fn spec_at(addr: usize) -> RawPtr<T> {
        RawPtr::spec_new(addr)
    }

    fn tag(self, tag: usize) -> (word: usize) {
        self.as_word() | tag
    }

    fn untag(from: usize) -> (ptr: RawPtr<T>) {
        assert(from & !3usize == from - from % 4) by (bit_vector);
        RawPtr::new(from & PTR_MASK)
    }
}

} // verus!
