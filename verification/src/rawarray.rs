//! The array that the container types are built on: a run of items in the
//! heap, and the count of items that it has room for.

use vstd::prelude::*;
use crate::allocator::ArraySize;
use crate::error::{ErrorKind, RuntimeError};
use crate::layout::{
    lemma_word_round_trip, spec_u32_of_word, spec_word_of, spec_word_of_bool, spec_word_value,
    u32_of_word, word_of, word_of_u32, word_value,
};
use crate::array::ArrayItem;
use crate::allocator::AllocError;
use crate::error::kind_of_alloc_error;
use crate::headers::TypeList;
use crate::memory::{Heap, MutatorView};
use crate::rawptr::RawPtr;

verus! {

/// The capacity that an array is first given.
pub const DEFAULT_ARRAY_SIZE: ArraySize = 8;

/// The capacity that an array of capacity `capacity` grows to: the default
/// for an array without capacity, and half as much again for any other, if
/// that is a size that an array can have.
pub open spec fn spec_array_growth(capacity: ArraySize) -> Option<ArraySize> {
    if capacity == 0 {
        Some(DEFAULT_ARRAY_SIZE)
    } else if capacity + capacity / 2 <= ArraySize::MAX {
        Some((capacity + capacity / 2) as ArraySize)
    } else {
        None
    }
}

/// The capacity that an array of capacity `capacity` grows to.
pub fn default_array_growth(capacity: ArraySize) -> (r: Result<ArraySize, RuntimeError>)
    ensures
        match r {
            Ok(grown) => spec_array_growth(capacity) == Some(grown),
            Err(e) => spec_array_growth(capacity) is None && e.spec_kind()
                == ErrorKind::BadAllocationRequest && e.spec_pos() is None,
        },
{
    if capacity == 0 {
        Ok(DEFAULT_ARRAY_SIZE)
    } else {
        match capacity.checked_add(capacity / 2) {
            Some(grown) => Ok(grown),
            None => Err(RuntimeError::new(ErrorKind::BadAllocationRequest)),
        }
    }
}

/// A run of items of type `T` in the heap.
pub struct RawArray<T> {
    /// The count of items that the array has room for.
    capacity: ArraySize,
    /// The address of the first item, if the array has any room.
    ptr: Option<RawPtr<T>>,
}

impl<T> Clone for RawArray<T> {
    fn clone(&self) -> (array: RawArray<T>)
        ensures
            array == *self,
    {
        RawArray { capacity: self.capacity, ptr: self.ptr }
    }
}

impl<T> Copy for RawArray<T> {

}

impl<T> RawArray<T> {
    /// The count of items that the array has room for.
    pub closed spec fn spec_capacity(&self) -> ArraySize {
        self.capacity
    }

    /// The address of the first item, if the array has any room.
    pub closed spec fn spec_ptr(&self) -> Option<RawPtr<T>> {
        self.ptr
    }

    /// The array of the given capacity at the given address.
    pub closed spec fn spec_of(capacity: ArraySize, ptr: Option<RawPtr<T>>) -> RawArray<T> {
        RawArray { capacity, ptr }
    }

    /// An array is made of its capacity and its address.
    pub broadcast proof fn lemma_spec_of(capacity: ArraySize, ptr: Option<RawPtr<T>>)
        ensures
            (#[trigger] Self::spec_of(capacity, ptr)).spec_capacity() == capacity,
            Self::spec_of(capacity, ptr).spec_ptr() == ptr,
    {
    }

    /// An array is made of its capacity and its address.
    pub proof fn lemma_is_spec_of(self)
        ensures
            self == Self::spec_of(self.spec_capacity(), self.spec_ptr()),
    {
    }

    /// The three words that stand for the array in the heap: the capacity,
    /// whether there is an address, and the address.
    pub open spec fn spec_words(self) -> Seq<u64> {
        seq![
            self.spec_capacity() as u64,
            spec_word_of_bool(self.spec_ptr() is Some),
            match self.spec_ptr() {
                Some(ptr) => spec_word_of(ptr.spec_word()),
                None => 0,
            },
        ]
    }

    /// The array that three words of the heap stand for.
    pub open spec fn spec_from_words(words: Seq<u64>) -> RawArray<T> {
        Self::spec_of(
            spec_u32_of_word(words[0]),
            if words[1] == 0 {
                None
            } else {
                Some(RawPtr::spec_new(spec_word_value(words[2])))
            },
        )
    }

    /// The words of an array stand for the array.
    pub proof fn lemma_words_round_trip(self)
        ensures
            self.spec_words().len() == 3,
            Self::spec_from_words(self.spec_words()) == self,
    {
        self.lemma_is_spec_of();
        match self.spec_ptr() {
            Some(ptr) => {
                lemma_word_round_trip(ptr.spec_word());
                ptr.lemma_is_spec_new();
            },
            None => {},
        }
    }

    /// Appends the words that stand for the array to `words`.
    pub fn push_words(&self, words: &mut Vec<u64>)
        ensures
            final(words)@ == old(words)@ + self.spec_words(),
    {
        words.push(word_of_u32(self.capacity));
        match self.ptr {
            Some(ptr) => {
                words.push(1);
                words.push(word_of(ptr.as_word()));
            },
            None => {
                words.push(0);
                words.push(0);
            },
        }
        assert(words@ =~= old(words)@ + self.spec_words());
    }

    /// The array that the three words at `at` stand for.
    pub fn from_words(words: &[u64], at: usize) -> (array: RawArray<T>)
        requires
            at + 3 <= words@.len(),
        ensures
            array == Self::spec_from_words(words@.subrange(at as int, at + 3)),
    {
        let capacity = u32_of_word(words[at]);
        let ptr = if words[at + 1] == 0 {
            None
        } else {
            Some(RawPtr::new(word_value(words[at + 2])))
        };
        RawArray { capacity, ptr }
    }

    /// An array without room for any item, and without space in the heap.
    pub fn new() -> (array: RawArray<T>)
        ensures
            array == Self::spec_of(0, None),
    {
        RawArray { capacity: 0, ptr: None }
    }

    /// The count of items that the array has room for.
    pub fn capacity(&self) -> (capacity: ArraySize)
        ensures
            capacity == self.spec_capacity(),
    {
        self.capacity
    }

    /// The address of the first item, if the array has any room.
    pub fn as_ptr(&self) -> (ptr: Option<RawPtr<T>>)
        ensures
            ptr == self.spec_ptr(),
    {
        match self.ptr {
            Some(ptr) => Some(ptr),
            None => None,
        }
    }

    /// The array of the given capacity at `ptr`.
    pub fn from_parts(capacity: ArraySize, ptr: Option<RawPtr<T>>) -> (array: RawArray<T>)
        ensures
            array == Self::spec_of(capacity, ptr),
    {
        RawArray { capacity, ptr }
    }
}

/// The bytes that an array of `capacity` items of type `T` takes, if that
/// is a size that an array can have.
pub open spec fn spec_capacity_bytes<T: ArrayItem>(capacity: ArraySize) -> Option<ArraySize> {
    if capacity * T::spec_item_size() <= ArraySize::MAX {
        Some((capacity * T::spec_item_size()) as ArraySize)
    } else {
        None
    }
}

/// Whether the items of `array` lie in the heap: an array with an address
/// has an array of bytes of the heap there, of as many bytes as its capacity
/// asks for, and an array without an address has no capacity.
pub open spec fn raw_is_held<T: ArrayItem>(heap: Heap, array: RawArray<T>) -> bool {
    match array.spec_ptr() {
        Some(ptr) => heap.holds_object(
            ptr.spec_word(),
            TypeList::ArrayBackingBytes,
            (array.spec_capacity() * T::spec_item_size()) as nat,
        ),
        None => array.spec_capacity() == 0,
    }
}

/// The bytes of the items of `array`.
pub open spec fn raw_bytes<T>(heap: Heap, array: RawArray<T>) -> Seq<u8> {
    match array.spec_ptr() {
        Some(ptr) => heap.spec_storage().payload(ptr.spec_word() as int),
        None => Seq::empty(),
    }
}

/// The bytes of item `index` among `bytes`.
pub open spec fn item_bytes_at<T: ArrayItem>(bytes: Seq<u8>, index: int) -> Seq<u8> {
    bytes.subrange(index * T::spec_item_size(), (index + 1) * T::spec_item_size())
}

/// Item `index` of `array`.
pub open spec fn raw_item<T: ArrayItem>(heap: Heap, array: RawArray<T>, index: int) -> T {
    T::spec_item_of(item_bytes_at::<T>(raw_bytes(heap, array), index))
}

/// The bytes of two different items of an array do not overlap, and the
/// bytes of an item within the capacity lie within the bytes of the array.
pub proof fn lemma_item_ranges(index: int, other: int, capacity: int, size: int)
    requires
        0 <= index < capacity,
        0 <= other,
        0 < size,
    ensures
        0 <= index * size,
        (index + 1) * size == index * size + size,
        (index + 1) * size <= capacity * size,
        other < index ==> (other + 1) * size <= index * size,
        index < other ==> (index + 1) * size <= other * size,
{
    assert(0 <= index * size && (index + 1) * size == index * size + size && (index + 1) * size
        <= capacity * size) by (nonlinear_arith)
        requires
            0 <= index < capacity,
            0 < size,
    ;
    if other < index {
        assert((other + 1) * size <= index * size) by (nonlinear_arith)
            requires
                0 <= other < index,
                0 < size,
        ;
    }
    if index < other {
        assert((index + 1) * size <= other * size) by (nonlinear_arith)
            requires
                0 <= index < other,
                0 < size,
        ;
    }
}

impl<T: ArrayItem> RawArray<T> {
    /// An array with room for `capacity` items, in zeroed space of the heap.
    pub fn with_capacity<'scope>(mem: &mut MutatorView<'scope>, capacity: ArraySize) -> (r: Result<
        RawArray<T>,
        RuntimeError,
    >)
        ensures
            final(mem).extends(*old(mem)),
            final(mem).spec_heap().spec_syms() == old(mem).spec_heap().spec_syms(),
            forall|other: int|
                old(mem).spec_heap().spec_storage().holds(other) ==> #[trigger] final(mem).spec_heap().spec_storage().payload(other) == old(mem).spec_heap().spec_storage().payload(other),
            match r {
                Ok(array) => {
                    &&& array.spec_capacity() == capacity
                    &&& spec_capacity_bytes::<T>(capacity) matches Some(bytes)
                        && array.spec_ptr() matches Some(ptr) && {
                        &&& old(mem).spec_heap().spec_storage().alloc_outcome(bytes as nat) == Ok::<
                            int,
                            AllocError,
                        >(ptr.spec_word() as int)
                        &&& !old(mem).spec_heap().spec_storage().holds(ptr.spec_word() as int)
                        &&& final(mem).spec_heap().holds_object(
                            ptr.spec_word(),
                            TypeList::ArrayBackingBytes,
                            bytes as nat,
                        )
                        &&& final(mem).spec_heap().spec_storage().payload(ptr.spec_word() as int)
                            == Seq::new(bytes as nat, |i: int| 0u8)
                    }
                },
                Err(e) => {
                    &&& e.spec_pos() is None
                    &&& match spec_capacity_bytes::<T>(capacity) {
                        Some(bytes) => old(mem).spec_heap().spec_storage().alloc_outcome(
                            bytes as nat,
                        ) matches Err(error) && e.spec_kind() == kind_of_alloc_error(error),
                        None => e.spec_kind() == ErrorKind::BadAllocationRequest,
                    }
                },
            },
    {
        proof {
            use_type_invariant(&*mem);
            assert forall|addr: int| #[trigger]
                mem.spec_heap().spec_storage().holds(addr) implies mem.spec_heap().spec_storage().holds(
                addr,
            ) by {}
            crate::memory::lemma_extends_itself(mem.spec_heap());
        }
        let capacity_bytes = match capacity.checked_mul(T::item_size()) {
            Some(bytes) => bytes,
            None => {
                proof {
                    mem.spec_heap().spec_storage().lemma_unchanged_keeps_payloads(
                        mem.spec_heap().spec_storage(),
                    );
                }
                return Err(RuntimeError::new(ErrorKind::BadAllocationRequest));
            },
        };
        let space = mem.alloc_array(capacity_bytes)?;
        let ptr: RawPtr<T> = RawPtr::new(space.as_word());
        Ok(RawArray { capacity, ptr: Some(ptr) })
    }

    /// Item `index` of the array.
    pub fn read_item<'scope>(&self, mem: &MutatorView<'scope>, index: ArraySize) -> (item: T)
        requires
            raw_is_held(mem.spec_heap(), *self),
            index < self.spec_capacity(),
        ensures
            item == raw_item(mem.spec_heap(), *self, index as int),
    {
        let size: usize = T::item_size() as usize;
        proof {
            use_type_invariant(mem);
            lemma_item_ranges(index as int, 0, self.spec_capacity() as int, size as int);
            self.lemma_is_held_bounds(mem.spec_heap());
        }
        match self.ptr {
            Some(ptr) => {
                let bytes = mem.read_array(
                    RawPtr::new(ptr.as_word()),
                    (index as usize) * size,
                    size,
                );
                T::item_of(bytes.as_slice())
            },
            None => vstd::pervasive::unreached(),
        }
    }

    /// An array that is held has an address, if it has any capacity, and
    /// takes no more bytes than an object of the heap can have.
    pub proof fn lemma_is_held_bounds(self, heap: Heap)
        requires
            heap.wf(),
            raw_is_held(heap, self),
        ensures
            self.spec_capacity() > 0 ==> self.spec_ptr() is Some,
            self.spec_capacity() * T::spec_item_size() <= crate::constants::BLOCK_CAPACITY,
    {
        match self.spec_ptr() {
            Some(ptr) => {
                heap.spec_storage().lemma_object_region(ptr.spec_word() as int);
            },
            None => {},
        }
    }

    /// Stores `item` as item `index` of the array.
    pub fn write_item<'scope>(&self, mem: &mut MutatorView<'scope>, index: ArraySize, item: T)
        requires
            raw_is_held(old(mem).spec_heap(), *self),
            index < self.spec_capacity(),
        ensures
            final(mem).extends(*old(mem)),
            final(mem).spec_heap().spec_syms() == old(mem).spec_heap().spec_syms(),
            final(mem).spec_heap().spec_storage().spec_objects() == old(mem).spec_heap().spec_storage().spec_objects(),
            raw_is_held(final(mem).spec_heap(), *self),
            raw_item(final(mem).spec_heap(), *self, index as int) == item,
            forall|other: int|
                0 <= other < self.spec_capacity() && other != index ==> raw_item(
                    final(mem).spec_heap(),
                    *self,
                    other,
                ) == raw_item(old(mem).spec_heap(), *self, other),
            forall|other: int|
                old(mem).spec_heap().spec_storage().holds(other) && self.spec_at() != Some(other)
                    ==> #[trigger] final(mem).spec_heap().spec_storage().payload(other) == old(mem).spec_heap().spec_storage().payload(other),
    {
        let size: usize = T::item_size() as usize;
        let ghost capacity = self.spec_capacity() as int;
        let ghost before = raw_bytes(old(mem).spec_heap(), *self);
        proof {
            use_type_invariant(&*mem);
            lemma_item_ranges(index as int, 0, capacity, size as int);
            self.lemma_is_held_bounds(mem.spec_heap());
            item.lemma_item_round_trip();
        }
        let bytes = item.item_bytes();
        match self.ptr {
            Some(ptr) => {
                mem.write_array(RawPtr::new(ptr.as_word()), (index as usize) * size, bytes.as_slice());
                proof {
                    let after = raw_bytes(mem.spec_heap(), *self);
                    assert(item_bytes_at::<T>(after, index as int) =~= bytes@);
                    assert forall|other: int|
                        0 <= other < capacity && other != index implies raw_item(
                        mem.spec_heap(),
                        *self,
                        other,
                    ) == raw_item(old(mem).spec_heap(), *self, other) by {
                        lemma_item_ranges(index as int, other, capacity, size as int);
                        lemma_item_ranges(other, index as int, capacity, size as int);
                        assert(item_bytes_at::<T>(after, other) =~= item_bytes_at::<T>(
                            before,
                            other,
                        ));
                    }
                }
            },
            None => vstd::pervasive::unreached(),
        }
    }

    /// The address of the first item as a number, if the array has one.
    pub open spec fn spec_word(&self) -> Option<usize> {
        match self.spec_ptr() {
            Some(ptr) => Some(ptr.spec_word()),
            None => None,
        }
    }

    /// The address of the first item as a whole number, if the array has
    /// one.
    pub open spec fn spec_at(&self) -> Option<int> {
        match self.spec_ptr() {
            Some(ptr) => Some(ptr.spec_word() as int),
            None => None,
        }
    }

    /// Gives the array room for `new_capacity` items, in new space of the
    /// heap, and copies as many of the items as the new space has room for.
    /// An array of no capacity gives up its space.
    pub fn resize<'scope>(&mut self, mem: &mut MutatorView<'scope>, new_capacity: ArraySize) -> (r:
        Result<(), RuntimeError>)
        requires
            raw_is_held(old(mem).spec_heap(), *old(self)),
        ensures
            final(mem).spec_heap().grown_from(old(mem).spec_heap()),
            final(mem).spec_heap().spec_syms() == old(mem).spec_heap().spec_syms(),
            match r {
                Ok(()) => {
                    &&& raw_is_held(final(mem).spec_heap(), *final(self))
                    &&& final(self).spec_capacity() == new_capacity
                    &&& new_capacity == 0 ==> final(self).spec_ptr() is None
                    &&& new_capacity > 0 ==> final(self).spec_ptr() is Some && !old(mem).spec_heap().spec_storage().holds(final(self).spec_word()->0 as int)
                    &&& forall|index: int|
                        0 <= index < new_capacity && index < old(self).spec_capacity()
                            ==> raw_item(final(mem).spec_heap(), *final(self), index) == raw_item(
                            old(mem).spec_heap(),
                            *old(self),
                            index,
                        )
                },
                Err(e) => {
                    &&& *final(self) == *old(self)
                    &&& e.spec_pos() is None
                    &&& e.spec_kind() == ErrorKind::BadAllocationRequest || e.spec_kind()
                        == ErrorKind::OutOfMemory
                },
            },
    {
        proof {
            use_type_invariant(&*mem);
            crate::memory::lemma_grown_from_itself(mem.spec_heap());
        }
        if new_capacity == 0 {
            self.capacity = 0;
            self.ptr = None;
            return Ok(());
        }
        match self.ptr {
            Some(old_ptr) => {
                let size: ArraySize = T::item_size();
                proof {
                    self.lemma_is_held_bounds(mem.spec_heap());
                    assert(size * self.capacity == self.capacity * size) by (nonlinear_arith);
                }
                let old_capacity_bytes: ArraySize = size * self.capacity;
                let new_capacity_bytes = match new_capacity.checked_mul(size) {
                    Some(bytes) => bytes,
                    None => {
                        return Err(RuntimeError::new(ErrorKind::BadAllocationRequest));
                    },
                };
                let ghost first = mem.spec_heap();
                let new_ptr = mem.alloc_array(new_capacity_bytes)?;
                let ghost made = mem.spec_heap();
                let copied: usize = if old_capacity_bytes < new_capacity_bytes {
                    old_capacity_bytes as usize
                } else {
                    new_capacity_bytes as usize
                };
                let bytes = mem.read_array(RawPtr::new(old_ptr.as_word()), 0, copied);
                mem.write_array(new_ptr, 0, bytes.as_slice());
                let ghost old_self = *self;
                self.ptr = Some(RawPtr::new(new_ptr.as_word()));
                self.capacity = new_capacity;
                proof {
                    use_type_invariant(&*mem);
                    let heap = mem.spec_heap();
                    let at = new_ptr.spec_word() as int;
                    let from = old_ptr.spec_word() as int;
                    assert(heap.spec_storage().payload(from) == first.spec_storage().payload(from));
                    assert forall|other: int| first.spec_storage().holds(other) implies #[trigger] heap.spec_storage().payload(
                        other,
                    ) == first.spec_storage().payload(other) by {
                        assert(made.spec_storage().holds(other));
                    }
                    crate::symbolmap::lemma_extends_chain(
                        first.spec_syms(),
                        made.spec_syms(),
                        heap.spec_syms(),
                    );
                    assert forall|addr: int| #[trigger] first.spec_storage().holds(addr) implies heap.spec_storage().holds(
                        addr,
                    ) && heap.spec_storage().spec_objects()[addr] == first.spec_storage().spec_objects()[addr] by {
                        assert(made.spec_storage().holds(addr));
                    }
                    let new_bytes = heap.spec_storage().payload(at);
                    let old_bytes = first.spec_storage().payload(from);
                    assert forall|index: int|
                        0 <= index < new_capacity && index < old_self.spec_capacity() implies raw_item(
                        heap,
                        *self,
                        index,
                    ) == raw_item(first, old_self, index) by {
                        lemma_item_ranges(index, 0, new_capacity as int, size as int);
                        lemma_item_ranges(index, 0, old_self.spec_capacity() as int, size as int);
                        assert(item_bytes_at::<T>(new_bytes, index) =~= item_bytes_at::<T>(
                            old_bytes,
                            index,
                        ));
                    }
                }
                Ok(())
            },
            None => {
                let array = RawArray::with_capacity(mem, new_capacity);
                match array {
                    Ok(array) => {
                        proof {
                            array.lemma_is_spec_of();
                        }
                        self.capacity = array.capacity;
                        self.ptr = array.ptr;
                        Ok(())
                    },
                    Err(e) => Err(e),
                }
            },
        }
    }
}

} // verus!
