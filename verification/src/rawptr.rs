//! A bare pointer to an object: an address that remembers the type of what
//! it points at.

use vstd::prelude::*;
use vstd::std_specs::cmp::PartialEqSpecImpl;
use std::marker::PhantomData;

verus! {

/// The address of an object of type `T`.
pub struct RawPtr<T> {
    ptr: usize,
    marker: PhantomData<T>,
}

impl<T> RawPtr<T> {
    /// The address pointed at.
    pub closed spec fn spec_word(&self) -> usize {
        self.ptr
    }

    /// The pointer to address `ptr`.
    pub closed spec fn spec_new(ptr: usize) -> RawPtr<T> {
        RawPtr { ptr, marker: PhantomData }
    }

    /// A pointer is made of its address alone.
    pub broadcast proof fn lemma_spec_new(ptr: usize)
        ensures
            (#[trigger] Self::spec_new(ptr)).spec_word() == ptr,
    {
    }

    /// A pointer is the pointer to the address that it holds.
    pub proof fn lemma_is_spec_new(self)
        ensures
            self == Self::spec_new(self.spec_word()),
    {
    }

    /// Two pointers to one type that hold the same address are the same.
    pub proof fn lemma_same_word(self, other: RawPtr<T>)
        requires
            self.spec_word() == other.spec_word(),
        ensures
            self == other,
    {
    }

    /// A pointer to the object at address `ptr`. Nothing is checked: a
    /// pointer to an address where no object lies points at nothing.
    pub fn new(ptr: usize) -> (raw: RawPtr<T>)
        ensures
            raw == Self::spec_new(ptr),
            raw.spec_word() == ptr,
    {
        RawPtr { ptr, marker: PhantomData }
    }

    /// The address as a word-sized integer.
    pub fn as_word(&self) -> (word: usize)
        ensures
            word == self.spec_word(),
    {
        self.ptr
    }

    /// The address without the type.
    pub fn as_untyped(&self) -> (addr: usize)
        ensures
            addr == self.spec_word(),
    {
        self.ptr
    }
}

impl<T> Clone for RawPtr<T> {
    fn clone(&self) -> (raw: RawPtr<T>)
        ensures
            raw == *self,
    {
        RawPtr { ptr: self.ptr, marker: PhantomData }
    }
}

impl<T> Copy for RawPtr<T> {

}

impl<T> PartialEq for RawPtr<T> {
    fn eq(&self, other: &RawPtr<T>) -> (equal: bool) {
        self.ptr == other.ptr
    }
}

impl<T> PartialEqSpecImpl for RawPtr<T> {
    open spec fn obeys_eq_spec() -> bool {
        true
    }

    open spec fn eq_spec(&self, other: &RawPtr<T>) -> bool {
        self.spec_word() == other.spec_word()
    }
}

} // verus!
