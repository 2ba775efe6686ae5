//! Pointers bound to a mutator scope, and the cells that objects keep
//! pointers in.
//!
//! A scoped pointer carries the lifetime of the scope that it was made in, so
//! it cannot be kept beyond the end of that scope.

use vstd::prelude::*;
use vstd::std_specs::cmp::PartialEqSpecImpl;
use std::marker::PhantomData;
use crate::layout::{lemma_word_round_trip, spec_word_of, spec_word_value, word_of, word_value};
use crate::rawptr::RawPtr;
use crate::taggedptr::{FatPtr, TaggedPtr, Value};

verus! {

/// A type whose values stand for a mutator scope: a window of time in which
/// no object of the heap is moved or reclaimed.
pub trait MutatorScope {

}

/// A pointer to an object of type `T`, bound to the scope `'guard`.
pub struct ScopedPtr<'guard, T> {
    value: RawPtr<T>,
    guard: PhantomData<&'guard T>,
}

impl<'guard, T> ScopedPtr<'guard, T> {
    /// The pointer without the scope.
    pub closed spec fn spec_raw(&self) -> RawPtr<T> {
        self.value
    }

    /// Binds a pointer to the scope of `guard`.
    pub fn new(guard: &'guard dyn MutatorScope, value: RawPtr<T>) -> (ptr: ScopedPtr<'guard, T>)
        ensures
            ptr.spec_raw() == value,
    {
        ScopedPtr { value, guard: PhantomData }
    }

    /// The pointer without the scope.
    pub fn as_raw(&self) -> (raw: RawPtr<T>)
        ensures
            raw == self.spec_raw(),
    {
        self.value
    }
}

impl<'scope, T> MutatorScope for ScopedPtr<'scope, T> {

}

impl<'guard, T> Clone for ScopedPtr<'guard, T> {
    fn clone(&self) -> (ptr: ScopedPtr<'guard, T>)
        ensures
            ptr == *self,
    {
        ScopedPtr { value: self.value, guard: PhantomData }
    }
}

impl<'guard, T> Copy for ScopedPtr<'guard, T> {

}

impl<'guard, T> PartialEq for ScopedPtr<'guard, T> {
    /// Identity of what is pointed at.
    fn eq(&self, rhs: &ScopedPtr<'guard, T>) -> (equal: bool) {
        self.value.as_word() == rhs.value.as_word()
    }
}

impl<'guard, T> PartialEqSpecImpl for ScopedPtr<'guard, T> {
    open spec fn obeys_eq_spec() -> bool {
        true
    }

    open spec fn eq_spec(&self, rhs: &ScopedPtr<'guard, T>) -> bool {
        self.spec_raw().spec_word() == rhs.spec_raw().spec_word()
    }
}

/// A cell in an object that holds a pointer to an object of type `T`.
pub struct CellPtr<T> {
    inner: RawPtr<T>,
}

impl<T> CellPtr<T> {
    /// The pointer held.
    pub closed spec fn spec_raw(&self) -> RawPtr<T> {
        self.inner
    }

    /// The cell that holds `raw`.
    pub closed spec fn spec_of(raw: RawPtr<T>) -> CellPtr<T> {
        CellPtr { inner: raw }
    }

    /// A cell is the pointer that it holds.
    pub broadcast proof fn lemma_spec_of(raw: RawPtr<T>)
        ensures
            (#[trigger] Self::spec_of(raw)).spec_raw() == raw,
    {
    }

    /// A cell is made of the pointer that it holds.
    pub proof fn lemma_is_spec_of(self)
        ensures
            self == Self::spec_of(self.spec_raw()),
    {
    }

    /// The word that stands for the cell in the heap.
    pub open spec fn spec_to_word(self) -> u64 {
        spec_word_of(self.spec_raw().spec_word())
    }

    /// The cell that a word of the heap stands for.
    pub open spec fn spec_from_word(word: u64) -> CellPtr<T> {
        Self::spec_of(RawPtr::spec_new(spec_word_value(word)))
    }

    /// The word of a cell stands for the cell.
    pub proof fn lemma_word_round_trip(self)
        ensures
            Self::spec_from_word(self.spec_to_word()) == self,
    {
        lemma_word_round_trip(self.spec_raw().spec_word());
        self.spec_raw().lemma_is_spec_new();
        self.lemma_is_spec_of();
    }

    /// The word that stands for the cell in the heap.
    pub fn to_word(&self) -> (word: u64)
        ensures
            word == self.spec_to_word(),
    {
        word_of(self.inner.as_word())
    }

    /// The cell that a word of the heap stands for.
    pub fn from_word(word: u64) -> (cell: CellPtr<T>)
        ensures
            cell == Self::spec_from_word(word),
    {
        CellPtr { inner: RawPtr::new(word_value(word)) }
    }

    /// A cell that holds the pointer of `source`.
    pub fn new_with(source: ScopedPtr<T>) -> (cell: CellPtr<T>)
        ensures
            cell.spec_raw() == source.spec_raw(),
    {
        CellPtr { inner: source.as_raw() }
    }

    /// A cell that holds `raw`.
    pub fn new_raw(raw: RawPtr<T>) -> (cell: CellPtr<T>)
        ensures
            cell == Self::spec_of(raw),
    {
        CellPtr { inner: raw }
    }

    /// The pointer held, bound to the scope of `guard`.
    pub fn get<'guard>(&self, guard: &'guard dyn MutatorScope) -> (ptr: ScopedPtr<'guard, T>)
        ensures
            ptr.spec_raw() == self.spec_raw(),
    {
        ScopedPtr::new(guard, self.inner)
    }

    /// Makes the cell hold the pointer of `source`.
    pub fn set(&mut self, source: ScopedPtr<T>)
        ensures
            final(self).spec_raw() == source.spec_raw(),
    {
        self.inner = source.as_raw();
    }
}

impl<T> Clone for CellPtr<T> {
    fn clone(&self) -> (cell: CellPtr<T>)
        ensures
            cell == *self,
    {
        CellPtr { inner: self.inner }
    }
}

impl<T> Copy for CellPtr<T> {

}

/// A tagged pointer bound to the scope `'guard`, with the value that it
/// unpacks to.
#[derive(Copy, Clone)]
pub struct TaggedScopedPtr<'guard> {
    ptr: TaggedPtr,
    value: Value<'guard>,
}

impl<'guard> TaggedScopedPtr<'guard> {
    /// The tagged pointer.
    pub closed spec fn spec_ptr(&self) -> TaggedPtr {
        self.ptr
    }

    /// The value that the pointer unpacks to.
    pub closed spec fn spec_value(&self) -> Value<'guard> {
        self.value
    }

    /// Binds the tagged pointer that packs `fat` to the scope of `guard`.
    pub fn from_fat_ptr(guard: &'guard dyn MutatorScope, ptr: TaggedPtr, fat: FatPtr) -> (scoped:
        TaggedScopedPtr<'guard>)
        ensures
            scoped.spec_ptr() == ptr,
            scoped.spec_value().spec_fat_ptr() == fat,
    {
        TaggedScopedPtr { ptr, value: fat.as_value(guard) }
    }

    /// The value that the pointer unpacks to.
    pub fn value(&self) -> (value: Value<'guard>)
        ensures
            value == self.spec_value(),
    {
        self.value
    }

    /// The tagged pointer.
    pub fn get_ptr(&self) -> (ptr: TaggedPtr)
        ensures
            ptr == self.spec_ptr(),
    {
        self.ptr
    }
}

impl<'scope> MutatorScope for TaggedScopedPtr<'scope> {

}

impl<'guard> PartialEq for TaggedScopedPtr<'guard> {
    /// Identity of what is pointed at: equality of the words.
    fn eq(&self, rhs: &TaggedScopedPtr<'guard>) -> (equal: bool) {
        self.ptr.as_word() == rhs.ptr.as_word()
    }
}

impl<'guard> PartialEqSpecImpl for TaggedScopedPtr<'guard> {
    open spec fn obeys_eq_spec() -> bool {
        true
    }

    open spec fn eq_spec(&self, rhs: &TaggedScopedPtr<'guard>) -> bool {
        self.spec_ptr().spec_word() == rhs.spec_ptr().spec_word()
    }
}

/// A cell in an object that holds a tagged pointer.
#[derive(Copy, Clone, Debug, PartialEq, Eq, Structural)]
pub struct TaggedCellPtr {
    inner: TaggedPtr,
}

impl TaggedCellPtr {
    /// The tagged pointer held.
    pub closed spec fn spec_ptr(&self) -> TaggedPtr {
        self.inner
    }

    /// The cell that holds `ptr`.
    pub closed spec fn spec_of(ptr: TaggedPtr) -> TaggedCellPtr {
        TaggedCellPtr { inner: ptr }
    }

    /// A cell is the pointer that it holds.
    pub broadcast proof fn lemma_spec_of(ptr: TaggedPtr)
        ensures
            (#[trigger] Self::spec_of(ptr)).spec_ptr() == ptr,
    {
    }

    /// A cell is made of the pointer that it holds.
    pub proof fn lemma_is_spec_of(self)
        ensures
            self == Self::spec_of(self.spec_ptr()),
    {
    }

    /// The word that stands for the cell in the heap.
    pub open spec fn spec_to_word(self) -> u64 {
        spec_word_of(self.spec_ptr().spec_word())
    }

    /// The cell that a word of the heap stands for.
    pub open spec fn spec_from_word(word: u64) -> TaggedCellPtr {
        Self::spec_of(TaggedPtr::spec_of(spec_word_value(word)))
    }

    /// The word of a cell stands for the cell.
    pub proof fn lemma_word_round_trip(self)
        ensures
            Self::spec_from_word(self.spec_to_word()) == self,
    {
        lemma_word_round_trip(self.spec_ptr().spec_word());
        self.spec_ptr().lemma_is_spec_of();
        self.lemma_is_spec_of();
    }

    /// The word that stands for the cell in the heap.
    pub fn to_word(&self) -> (word: u64)
        ensures
            word == self.spec_to_word(),
    {
        word_of(self.inner.as_word())
    }

    /// The cell that a word of the heap stands for.
    pub fn from_word(word: u64) -> (cell: TaggedCellPtr)
        ensures
            cell == Self::spec_from_word(word),
    {
        TaggedCellPtr { inner: TaggedPtr::from_word(word_value(word)) }
    }

    /// A cell that holds nil.
    pub fn new_nil() -> (cell: TaggedCellPtr)
        ensures
            cell.spec_ptr().spec_word() == 0,
    {
        TaggedCellPtr { inner: TaggedPtr::nil() }
    }

    /// A cell that holds the pointer of `source`.
    pub fn new_with(source: TaggedScopedPtr) -> (cell: TaggedCellPtr)
        ensures
            cell.spec_ptr() == source.spec_ptr(),
    {
        TaggedCellPtr { inner: source.get_ptr() }
    }

    /// A cell that holds `source`.
    pub fn new_ptr(source: TaggedPtr) -> (cell: TaggedCellPtr)
        ensures
            cell.spec_ptr() == source,
            cell == Self::spec_of(source),
    {
        TaggedCellPtr { inner: source }
    }

    /// Makes the cell hold the pointer of `source`.
    pub fn set(&mut self, source: TaggedScopedPtr)
        ensures
            final(self).spec_ptr() == source.spec_ptr(),
    {
        self.inner = source.get_ptr();
    }

    /// Makes the cell hold what `other` holds.
    pub fn copy_from(&mut self, other: &TaggedCellPtr)
        ensures
            final(self).spec_ptr() == other.spec_ptr(),
    {
        self.inner = other.inner;
    }

    /// Whether the cell holds nil.
    pub fn is_nil(&self) -> (nil: bool)
        ensures
            nil == (self.spec_ptr().spec_word() == 0),
    {
        self.inner.is_nil()
    }

    /// Makes the cell hold nil.
    pub fn set_to_nil(&mut self)
        ensures
            final(self).spec_ptr().spec_word() == 0,
    {
        self.inner = TaggedPtr::nil();
    }

    /// Makes the cell hold `ptr`.
    pub fn set_to_ptr(&mut self, ptr: TaggedPtr)
        ensures
            final(self).spec_ptr() == ptr,
    {
        self.inner = ptr;
    }

    /// The tagged pointer held.
    pub fn get_ptr(&self) -> (ptr: TaggedPtr)
        ensures
            ptr == self.spec_ptr(),
    {
        self.inner
    }
}

} // verus!
