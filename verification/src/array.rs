//! Arrays with a length: the record that stands for one in the heap.

use vstd::prelude::*;
use vstd::bytes::{
    lemma_auto_spec_u16_to_from_le_bytes, lemma_auto_spec_u32_to_from_le_bytes,
    lemma_auto_spec_u64_to_from_le_bytes, spec_u16_from_le_bytes, spec_u16_to_le_bytes,
    spec_u32_from_le_bytes, spec_u32_to_le_bytes, spec_u64_from_le_bytes, spec_u64_to_le_bytes,
    u16_from_le_bytes, u16_to_le_bytes, u32_from_le_bytes, u32_to_le_bytes, u64_from_le_bytes,
    u64_to_le_bytes,
};
use crate::allocator::{AllocObject, ArraySize};
use crate::headers::TypeList;
use crate::layout::{spec_u32_of_word, spec_word_of_bool, u32_of_word, word_of_bool, word_of_u32};
use crate::containers::{
    changed_at_most, is_borrow_error, is_bounds_error, is_growth_failure, Container, cell_of,
    cells_of, filled, tagged_ptrs_of, AnyContainerFromPairList, AnyContainerFromSlice,
    ContainerFromSlice, FillAnyContainer, FillContainer, IndexedAnyContainer, IndexedContainer,
    StackAnyContainer, StackContainer,
};
use crate::allocator::lemma_object_bytes_round_trip;
use crate::pair::is_list;
use crate::taggedptr::{TaggedPtr, Value};
use crate::error::{ErrorKind, RuntimeError};
use crate::memory::{Heap, MutatorView};
use crate::rawarray::{
    default_array_growth, raw_is_held, raw_item, spec_array_growth, RawArray,
    DEFAULT_ARRAY_SIZE,
};
use crate::safeptr::{ScopedPtr, TaggedCellPtr, TaggedScopedPtr};

verus! {

/// An array of items of type `T`: the count of items in use, the run of
/// items in the heap, and whether the items are lent out for change.
pub struct Array<T> {
    length: ArraySize,
    data: RawArray<T>,
    borrow: bool,
}

/// An array of bytes.
pub type ArrayU8 = Array<u8>;

/// An array of counts of 16 bits.
pub type ArrayU16 = Array<u16>;

/// An array of counts of 32 bits.
pub type ArrayU32 = Array<u32>;

/// A type of item that an array in the heap can hold: it has a size and a
/// layout, the bytes that stand for an item in the array.
pub trait ArrayItem: Sized + Copy {
    /// The bytes that one item takes in an array.
    spec fn spec_item_size() -> nat;

    fn item_size() -> (size: ArraySize)
        ensures
            size == Self::spec_item_size(),
            0 < size <= 64,
    ;

    /// The bytes that stand for this item.
    spec fn spec_item_bytes(self) -> Seq<u8>;

    fn item_bytes(&self) -> (bytes: Vec<u8>)
        ensures
            bytes@ == self.spec_item_bytes(),
            bytes@.len() == Self::spec_item_size(),
    ;

    /// The item that `bytes` stand for.
    spec fn spec_item_of(bytes: Seq<u8>) -> Self;

    fn item_of(bytes: &[u8]) -> (item: Self)
        requires
            bytes@.len() == Self::spec_item_size(),
        ensures
            item == Self::spec_item_of(bytes@),
    ;

    /// The bytes of an item stand for that item.
    proof fn lemma_item_round_trip(self)
        ensures
            self.spec_item_bytes().len() == Self::spec_item_size(),
            Self::spec_item_of(self.spec_item_bytes()) == self,
    ;
}

/// A type of item whose arrays are objects of the heap in their own right.
pub trait ArrayType: ArrayItem {
    /// The type that a header names for an array of these items.
    spec fn spec_array_type() -> TypeList;

    fn array_type() -> (type_id: TypeList)
        ensures
            type_id == Self::spec_array_type(),
    ;
}

impl ArrayItem for u8 {
    open spec fn spec_item_size() -> nat {
        1
    }

    fn item_size() -> (size: ArraySize) {
        1
    }

    open spec fn spec_item_bytes(self) -> Seq<u8> {
        seq![self]
    }

    fn item_bytes(&self) -> (bytes: Vec<u8>) {
        let mut bytes: Vec<u8> = Vec::new();
        bytes.push(*self);
        assert(bytes@ =~= self.spec_item_bytes());
        bytes
    }

    open spec fn spec_item_of(bytes: Seq<u8>) -> u8 {
        bytes[0]
    }

    fn item_of(bytes: &[u8]) -> (item: u8) {
        bytes[0]
    }

    proof fn lemma_item_round_trip(self) {
    }
}

impl ArrayType for u8 {
    open spec fn spec_array_type() -> TypeList {
        TypeList::ArrayU8
    }

    fn array_type() -> (type_id: TypeList) {
        TypeList::ArrayU8
    }
}

impl ArrayItem for u16 {
    open spec fn spec_item_size() -> nat {
        2
    }

    fn item_size() -> (size: ArraySize) {
        2
    }

    open spec fn spec_item_bytes(self) -> Seq<u8> {
        spec_u16_to_le_bytes(self)
    }

    fn item_bytes(&self) -> (bytes: Vec<u8>) {
        u16_to_le_bytes(*self)
    }

    open spec fn spec_item_of(bytes: Seq<u8>) -> u16 {
        spec_u16_from_le_bytes(bytes)
    }

    fn item_of(bytes: &[u8]) -> (item: u16) {
        u16_from_le_bytes(bytes)
    }

    proof fn lemma_item_round_trip(self) {
        lemma_auto_spec_u16_to_from_le_bytes();
        assert(spec_u16_to_le_bytes(self).len() == 2);
    }
}

impl ArrayType for u16 {
    open spec fn spec_array_type() -> TypeList {
        TypeList::ArrayU16
    }

    fn array_type() -> (type_id: TypeList) {
        TypeList::ArrayU16
    }
}

impl ArrayItem for u32 {
    open spec fn spec_item_size() -> nat {
        4
    }

    fn item_size() -> (size: ArraySize) {
        4
    }

    open spec fn spec_item_bytes(self) -> Seq<u8> {
        spec_u32_to_le_bytes(self)
    }

    fn item_bytes(&self) -> (bytes: Vec<u8>) {
        u32_to_le_bytes(*self)
    }

    open spec fn spec_item_of(bytes: Seq<u8>) -> u32 {
        spec_u32_from_le_bytes(bytes)
    }

    fn item_of(bytes: &[u8]) -> (item: u32) {
        u32_from_le_bytes(bytes)
    }

    proof fn lemma_item_round_trip(self) {
        lemma_auto_spec_u32_to_from_le_bytes();
        assert(spec_u32_to_le_bytes(self).len() == 4);
    }
}

impl ArrayType for u32 {
    open spec fn spec_array_type() -> TypeList {
        TypeList::ArrayU32
    }

    fn array_type() -> (type_id: TypeList) {
        TypeList::ArrayU32
    }
}

/// The 64 bits that stand for a signed number: the number itself where it
/// is not negative, and the number above `u64::MAX` where it is.
pub open spec fn spec_bits_of_i64(value: i64) -> u64 {
    if value >= 0 {
        value as u64
    } else {
        (value + 0x1_0000_0000_0000_0000) as u64
    }
}

/// The signed number that 64 bits stand for.
pub open spec fn spec_i64_of_bits(bits: u64) -> i64 {
    if bits <= i64::MAX {
        bits as i64
    } else {
        (bits - 0x1_0000_0000_0000_0000) as i64
    }
}

impl ArrayItem for i64 {
    open spec fn spec_item_size() -> nat {
        8
    }

    fn item_size() -> (size: ArraySize) {
        8
    }

    open spec fn spec_item_bytes(self) -> Seq<u8> {
        spec_u64_to_le_bytes(spec_bits_of_i64(self))
    }

    fn item_bytes(&self) -> (bytes: Vec<u8>) {
        let value: i64 = *self;
        let bits: u64 = if value >= 0 {
            value as u64
        } else {
            u64::MAX - ((-(value + 1)) as u64)
        };
        proof {
            lemma_auto_spec_u64_to_from_le_bytes();
        }
        u64_to_le_bytes(bits)
    }

    open spec fn spec_item_of(bytes: Seq<u8>) -> i64 {
        spec_i64_of_bits(spec_u64_from_le_bytes(bytes))
    }

    fn item_of(bytes: &[u8]) -> (item: i64) {
        let bits = u64_from_le_bytes(bytes);
        if bits <= i64::MAX as u64 {
            bits as i64
        } else {
            -((u64::MAX - bits) as i64) - 1
        }
    }

    proof fn lemma_item_round_trip(self) {
        lemma_auto_spec_u64_to_from_le_bytes();
        assert(spec_u64_to_le_bytes(spec_bits_of_i64(self)).len() == 8);
    }
}

impl ArrayItem for TaggedCellPtr {
    open spec fn spec_item_size() -> nat {
        8
    }

    fn item_size() -> (size: ArraySize) {
        8
    }

    open spec fn spec_item_bytes(self) -> Seq<u8> {
        spec_u64_to_le_bytes(self.spec_to_word())
    }

    fn item_bytes(&self) -> (bytes: Vec<u8>) {
        proof {
            lemma_auto_spec_u64_to_from_le_bytes();
        }
        u64_to_le_bytes(self.to_word())
    }

    open spec fn spec_item_of(bytes: Seq<u8>) -> TaggedCellPtr {
        TaggedCellPtr::spec_from_word(spec_u64_from_le_bytes(bytes))
    }

    fn item_of(bytes: &[u8]) -> (item: TaggedCellPtr) {
        TaggedCellPtr::from_word(u64_from_le_bytes(bytes))
    }

    proof fn lemma_item_round_trip(self) {
        lemma_auto_spec_u64_to_from_le_bytes();
        assert(spec_u64_to_le_bytes(self.spec_to_word()).len() == 8);
        self.lemma_word_round_trip();
    }
}

impl ArrayType for TaggedCellPtr {
    open spec fn spec_array_type() -> TypeList {
        TypeList::List
    }

    fn array_type() -> (type_id: TypeList) {
        TypeList::List
    }
}

impl<T> Clone for Array<T> {
    fn clone(&self) -> (array: Array<T>)
        ensures
            array == *self,
    {
        Array { length: self.length, data: self.data, borrow: self.borrow }
    }
}

impl<T> Copy for Array<T> {

}

impl<T> Array<T> {
    /// The count of items in use.
    pub closed spec fn spec_length(&self) -> ArraySize {
        self.length
    }

    /// The run of items in the heap.
    pub closed spec fn spec_data(&self) -> RawArray<T> {
        self.data
    }

    /// Whether the items are lent out for change.
    pub closed spec fn spec_borrow(&self) -> bool {
        self.borrow
    }

    /// The array with the given fields.
    pub closed spec fn spec_of(length: ArraySize, data: RawArray<T>, borrow: bool) -> Array<T> {
        Array { length, data, borrow }
    }

    /// An array is made of its three fields.
    pub broadcast proof fn lemma_spec_of(length: ArraySize, data: RawArray<T>, borrow: bool)
        ensures
            (#[trigger] Self::spec_of(length, data, borrow)).spec_length() == length,
            Self::spec_of(length, data, borrow).spec_data() == data,
            Self::spec_of(length, data, borrow).spec_borrow() == borrow,
    {
    }

    /// An array is made of its three fields.
    pub proof fn lemma_is_spec_of(self)
        ensures
            self == Self::spec_of(self.spec_length(), self.spec_data(), self.spec_borrow()),
    {
    }

    /// The five words that stand for the array in the heap.
    pub open spec fn spec_array_words(self) -> Seq<u64> {
        seq![self.spec_length() as u64] + self.spec_data().spec_words() + seq![
            spec_word_of_bool(self.spec_borrow()),
        ]
    }

    /// The array that five words of the heap stand for.
    pub open spec fn spec_from_array_words(words: Seq<u64>) -> Array<T> {
        Self::spec_of(
            spec_u32_of_word(words[0]),
            RawArray::spec_from_words(words.subrange(1, 4)),
            words[4] != 0,
        )
    }

    /// The words of an array stand for the array.
    pub proof fn lemma_array_words_round_trip(self)
        ensures
            self.spec_array_words().len() == 5,
            Self::spec_from_array_words(self.spec_array_words()) == self,
    {
        self.lemma_is_spec_of();
        self.spec_data().lemma_words_round_trip();
        assert(self.spec_array_words().subrange(1, 4) =~= self.spec_data().spec_words());
    }

    /// Appends the words that stand for the array to `words`.
    pub fn push_words(&self, words: &mut Vec<u64>)
        ensures
            final(words)@ == old(words)@ + self.spec_array_words(),
    {
        words.push(word_of_u32(self.length));
        self.data.push_words(words);
        words.push(word_of_bool(self.borrow));
        proof {
            self.spec_data().lemma_words_round_trip();
            assert(words@ =~= old(words)@ + self.spec_array_words());
        }
    }

    /// The array that the five words at `at` stand for.
    pub fn from_array_words(words: &[u64], at: usize) -> (array: Array<T>)
        requires
            at + 5 <= words@.len(),
        ensures
            array == Self::spec_from_array_words(words@.subrange(at as int, at + 5)),
    {
        let length = u32_of_word(words[at]);
        let data = RawArray::from_words(words, at + 1);
        let borrow = words[at + 4] != 0;
        assert(words@.subrange(at as int, at + 5).subrange(1, 4) =~= words@.subrange(
            at + 1,
            at + 4,
        ));
        Array { length, data, borrow }
    }

    /// The array without items and without room for any.
    pub open spec fn new_spec() -> Array<T> {
        Self::spec_of(0, RawArray::spec_of(0, None), false)
    }

    /// An array without items and without room for any.
    pub fn new() -> (array: Array<T>)
        ensures
            array == Self::new_spec(),
    {
        Array { length: 0, data: RawArray::new(), borrow: false }
    }

    /// The count of items in use.
    pub fn length(&self) -> (length: ArraySize)
        ensures
            length == self.spec_length(),
    {
        self.length
    }

    /// The run of items in the heap.
    pub fn data(&self) -> (data: RawArray<T>)
        ensures
            data == self.spec_data(),
    {
        self.data
    }
}

/// Whether the items of `array` lie in the heap, and the length of the array
/// is within its capacity.
pub open spec fn array_is_held<T: ArrayItem>(heap: Heap, array: Array<T>) -> bool {
    &&& raw_is_held(heap, array.spec_data())
    &&& array.spec_length() <= array.spec_data().spec_capacity()
}

/// The items of `array`, in order.
pub open spec fn array_items<T: ArrayItem>(heap: Heap, array: Array<T>) -> Seq<T> {
    Seq::new(array.spec_length() as nat, |i: int| raw_item(heap, array.spec_data(), i))
}

/// The capacity that an array grows to when it is full: the default for an
/// array without capacity, and half as much again for any other.
pub open spec fn spec_grown_capacity(capacity: ArraySize) -> Option<ArraySize> {
    spec_array_growth(capacity)
}

impl<T: ArrayItem> Array<T> {
    /// An array without items, with room for `capacity` items.
    pub fn with_capacity<'guard>(mem: &mut MutatorView<'guard>, capacity: ArraySize) -> (r: Result<
        Array<T>,
        RuntimeError,
    >)
        ensures
            final(mem).spec_heap().grown_from(old(mem).spec_heap()),
            match r {
                Ok(array) => {
                    &&& array_is_held(final(mem).spec_heap(), array)
                    &&& array.spec_length() == 0
                    &&& array.spec_data().spec_capacity() == capacity
                    &&& !array.spec_borrow()
                    &&& array.spec_data().spec_word() matches Some(at) && !old(mem).spec_heap().spec_storage().holds(at as int)
                },
                Err(e) => is_growth_failure(e),
            },
    {
        proof {
            use_type_invariant(&*mem);
        }
        let data = RawArray::with_capacity(mem, capacity)?;
        proof {
            Self::lemma_spec_of(0, data, false);
        }
        Ok(Array { length: 0, data, borrow: false })
    }

    /// Empties the array. Its capacity stays.
    pub fn clear<'guard>(&mut self, mem: &MutatorView<'guard>) -> (r: Result<(), RuntimeError>)
        ensures
            final(self).spec_data() == old(self).spec_data(),
            final(self).spec_borrow() == old(self).spec_borrow(),
            match r {
                Ok(()) => !old(self).spec_borrow() && final(self).spec_length() == 0,
                Err(e) => old(self).spec_borrow() && is_borrow_error(e) && final(self).spec_length() == old(self).spec_length(),
            },
    {
        if self.borrow {
            Err(RuntimeError::new(ErrorKind::MutableBorrowError))
        } else {
            self.length = 0;
            Ok(())
        }
    }

    /// Item `index`, if the array has as many.
    pub fn get<'guard>(&self, mem: &MutatorView<'guard>, index: ArraySize) -> (r: Result<
        T,
        RuntimeError,
    >)
        requires
            array_is_held(mem.spec_heap(), *self),
        ensures
            match r {
                Ok(item) => index < self.spec_length() && item == array_items(
                    mem.spec_heap(),
                    *self,
                )[index as int],
                Err(e) => index >= self.spec_length() && is_bounds_error(e),
            },
    {
        if index >= self.length {
            Err(RuntimeError::new(ErrorKind::BoundsError))
        } else {
            Ok(self.data.read_item(mem, index))
        }
    }

    /// Stores `item` as item `index`, if the array has as many.
    pub fn set<'guard>(&self, mem: &mut MutatorView<'guard>, index: ArraySize, item: T) -> (r:
        Result<(), RuntimeError>)
        requires
            array_is_held(old(mem).spec_heap(), *self),
        ensures
            final(mem).extends(*old(mem)),
            final(mem).spec_heap().spec_syms() == old(mem).spec_heap().spec_syms(),
            array_is_held(final(mem).spec_heap(), *self),
            forall|other: int|
                old(mem).spec_heap().spec_storage().holds(other) && self.spec_data().spec_at()
                    != Some(other) ==> #[trigger] final(mem).spec_heap().spec_storage().payload(other) == old(mem).spec_heap().spec_storage().payload(other),
            match r {
                Ok(()) => index < self.spec_length() && array_items(final(mem).spec_heap(), *self)
                    == array_items(old(mem).spec_heap(), *self).update(index as int, item),
                Err(e) => index >= self.spec_length() && is_bounds_error(e) && array_items(
                    final(mem).spec_heap(),
                    *self,
                ) == array_items(old(mem).spec_heap(), *self),
            },
    {
        proof {
            use_type_invariant(&*mem);
            crate::memory::lemma_extends_itself(mem.spec_heap());
        }
        if index >= self.length {
            Err(RuntimeError::new(ErrorKind::BoundsError))
        } else {
            self.data.write_item(mem, index, item);
            assert(array_items(mem.spec_heap(), *self) =~= array_items(
                old(mem).spec_heap(),
                *self,
            ).update(index as int, item));
            Ok(())
        }
    }

    /// The last item, if the array has an item.
    pub fn top<'guard>(&self, mem: &MutatorView<'guard>) -> (r: Result<T, RuntimeError>)
        requires
            array_is_held(mem.spec_heap(), *self),
        ensures
            match r {
                Ok(item) => self.spec_length() > 0 && item == array_items(
                    mem.spec_heap(),
                    *self,
                ).last(),
                Err(e) => self.spec_length() == 0 && is_bounds_error(e),
            },
    {
        let length = self.length;
        if length == 0 {
            Err(RuntimeError::new(ErrorKind::BoundsError))
        } else {
            Ok(self.data.read_item(mem, length - 1))
        }
    }

    /// Takes the last item off the array, if the array has an item and its
    /// items are not lent out.
    pub fn pop<'guard>(&mut self, mem: &MutatorView<'guard>) -> (r: Result<T, RuntimeError>)
        requires
            array_is_held(mem.spec_heap(), *old(self)),
        ensures
            final(self).spec_data() == old(self).spec_data(),
            final(self).spec_borrow() == old(self).spec_borrow(),
            array_is_held(mem.spec_heap(), *final(self)),
            match r {
                Ok(item) => {
                    &&& !old(self).spec_borrow()
                    &&& old(self).spec_length() > 0
                    &&& item == array_items(mem.spec_heap(), *old(self)).last()
                    &&& array_items(mem.spec_heap(), *final(self)) == array_items(
                        mem.spec_heap(),
                        *old(self),
                    ).drop_last()
                },
                Err(e) => {
                    &&& final(self).spec_length() == old(self).spec_length()
                    &&& if old(self).spec_borrow() {
                        is_borrow_error(e)
                    } else {
                        old(self).spec_length() == 0 && is_bounds_error(e)
                    }
                },
            },
    {
        if self.borrow {
            return Err(RuntimeError::new(ErrorKind::MutableBorrowError));
        }
        let length = self.length;
        if length == 0 {
            Err(RuntimeError::new(ErrorKind::BoundsError))
        } else {
            let last = length - 1;
            let item = self.data.read_item(mem, last);
            self.length = last;
            assert(array_items(mem.spec_heap(), *self) =~= array_items(
                mem.spec_heap(),
                *old(self),
            ).drop_last());
            Ok(item)
        }
    }

    /// Puts `item` behind the last item of the array. An array that is full
    /// grows first, into new space of the heap. A full array of capacity one
    /// cannot grow: half of its capacity is nothing.
    pub fn push<'guard>(&mut self, mem: &mut MutatorView<'guard>, item: T) -> (r: Result<
        (),
        RuntimeError,
    >)
        requires
            array_is_held(old(mem).spec_heap(), *old(self)),
            !(old(self).spec_length() == 1 && old(self).spec_data().spec_capacity() == 1),
        ensures
            final(mem).extends(*old(mem)),
            final(mem).spec_heap().spec_syms() == old(mem).spec_heap().spec_syms(),
            final(self).spec_borrow() == old(self).spec_borrow(),
            forall|other: int|
                old(mem).spec_heap().spec_storage().holds(other) && old(self).spec_data().spec_at()
                    != Some(other) ==> #[trigger] final(mem).spec_heap().spec_storage().payload(other) == old(mem).spec_heap().spec_storage().payload(other),
            match r {
                Ok(()) => {
                    &&& !old(self).spec_borrow()
                    &&& array_is_held(final(mem).spec_heap(), *final(self))
                    &&& array_items(final(mem).spec_heap(), *final(self)) == array_items(
                        old(mem).spec_heap(),
                        *old(self),
                    ).push(item)
                    &&& if old(self).spec_length() < old(self).spec_data().spec_capacity() {
                        final(self).spec_data() == old(self).spec_data()
                    } else {
                        &&& Some(final(self).spec_data().spec_capacity()) == spec_grown_capacity(
                            old(self).spec_data().spec_capacity(),
                        )
                        &&& final(self).spec_data().spec_at() matches Some(at) && !old(mem).spec_heap().spec_storage().holds(at)
                    }
                },
                Err(e) => {
                    &&& *final(self) == *old(self)
                    &&& final(mem).spec_heap().grown_from(old(mem).spec_heap())
                    &&& if old(self).spec_borrow() {
                        is_borrow_error(e)
                    } else {
                        old(self).spec_length() == old(self).spec_data().spec_capacity()
                            && is_growth_failure(e)
                    }
                },
            },
    {
        proof {
            use_type_invariant(&*mem);
            crate::memory::lemma_grown_from_itself(mem.spec_heap());
        }
        if self.borrow {
            return Err(RuntimeError::new(ErrorKind::MutableBorrowError));
        }
        let length = self.length;
        let mut array = self.data;
        let capacity = array.capacity();
        let ghost first = mem.spec_heap();
        if length == capacity {
            let grown = if capacity == 0 {
                DEFAULT_ARRAY_SIZE
            } else {
                match default_array_growth(capacity) {
                    Ok(grown) => grown,
                    Err(e) => { return Err(e); },
                }
            };
            match array.resize(mem, grown) {
                Ok(()) => {},
                Err(e) => { return Err(e); },
            }
            self.data = array;
        }
        let ghost grown_heap = mem.spec_heap();
        proof {
            use_type_invariant(&*mem);
            self.lemma_is_spec_of();
        }
        self.length = length + 1;
        array.write_item(mem, length, item);
        proof {
            use_type_invariant(&*mem);
            let heap = mem.spec_heap();
            if old(self).spec_length() == old(self).spec_data().spec_capacity() {
                crate::symbolmap::lemma_extends_chain(
                    first.spec_syms(),
                    grown_heap.spec_syms(),
                    heap.spec_syms(),
                );
            }
            assert forall|addr: int| #[trigger] first.spec_storage().holds(addr) implies heap.spec_storage().holds(
                addr,
            ) && heap.spec_storage().spec_objects()[addr] == first.spec_storage().spec_objects()[addr] by {
                assert(grown_heap.spec_storage().holds(addr));
            }
            assert forall|other: int|
                first.spec_storage().holds(other) && old(self).spec_data().spec_at() != Some(
                    other,
                ) implies #[trigger] heap.spec_storage().payload(other) == first.spec_storage().payload(
                other,
            ) by {
                assert(grown_heap.spec_storage().holds(other));
                assert(grown_heap.spec_storage().payload(other) == first.spec_storage().payload(
                    other,
                ));
                assert(array.spec_at() != Some(other));
            }
            assert(array_items(heap, *self) =~= array_items(first, *old(self)).push(item));
        }
        Ok(())
    }
}

impl<T: ArrayItem> FillContainer<T> for Array<T> {
    fn fill<'guard>(&mut self, mem: &mut MutatorView<'guard>, size: ArraySize, item: T) -> (r:
        Result<(), RuntimeError>) {
        let ghost first = mem.spec_heap();
        let ghost items = array_items(first, *old(self));
        proof {
            use_type_invariant(&*mem);
            crate::memory::lemma_grown_from_itself(first);
        }
        let length = self.length;
        if length > size {
            return Ok(());
        }
        let mut array = self.data;
        let capacity = array.capacity();
        if size > capacity {
            let grown = if capacity == 0 {
                DEFAULT_ARRAY_SIZE
            } else {
                match default_array_growth(capacity) {
                    Ok(grown) => grown,
                    Err(e) => { return Err(e); },
                }
            };
            match array.resize(mem, grown) {
                Ok(()) => {},
                Err(e) => { return Err(e); },
            }
            self.data = array;
        }
        let ghost grown_heap = mem.spec_heap();
        self.length = size;
        proof {
            self.lemma_is_spec_of();
            use_type_invariant(&*mem);
        }
        let mut index: ArraySize = length;
        while index < size
            invariant
                length <= index <= size <= array.spec_capacity(),
                array == self.spec_data(),
                self.spec_length() == size,
                self.spec_borrow() == old(self).spec_borrow(),
                items == array_items(first, *old(self)),
                items.len() == length,
                mem.spec_heap().wf(),
                raw_is_held(mem.spec_heap(), array),
                changed_at_most(mem.spec_heap(), grown_heap, array.spec_at()),
                forall|k: int| 0 <= k < length ==> raw_item(mem.spec_heap(), array, k) == items[k],
                forall|k: int| length <= k < index ==> raw_item(mem.spec_heap(), array, k) == item,
            decreases size - index,
        {
            let ghost before = mem.spec_heap();
            array.write_item(mem, index, item);
            proof {
                use_type_invariant(&*mem);
                crate::symbolmap::lemma_extends_chain(
                    grown_heap.spec_syms(),
                    before.spec_syms(),
                    mem.spec_heap().spec_syms(),
                );
                assert forall|addr: int| #[trigger] grown_heap.spec_storage().holds(addr) implies mem.spec_heap().spec_storage().holds(
                    addr,
                ) && mem.spec_heap().spec_storage().spec_objects()[addr] == grown_heap.spec_storage().spec_objects()[addr] by {
                    assert(before.spec_storage().holds(addr));
                }
                assert forall|other: int|
                    grown_heap.spec_storage().holds(other) && array.spec_at() != Some(
                        other,
                    ) implies #[trigger] mem.spec_heap().spec_storage().payload(other)
                    == grown_heap.spec_storage().payload(other) by {
                    assert(before.spec_storage().holds(other));
                }
            }
            index = index + 1;
        }
        proof {
            let heap = mem.spec_heap();
            crate::symbolmap::lemma_extends_chain(
                first.spec_syms(),
                grown_heap.spec_syms(),
                heap.spec_syms(),
            );
            assert forall|addr: int| #[trigger] first.spec_storage().holds(addr) implies heap.spec_storage().holds(
                addr,
            ) && heap.spec_storage().spec_objects()[addr] == first.spec_storage().spec_objects()[addr] by {
                assert(grown_heap.spec_storage().holds(addr));
            }
            assert forall|other: int|
                first.spec_storage().holds(other) && old(self).spec_data().spec_at() != Some(
                    other,
                ) implies #[trigger] heap.spec_storage().payload(other) == first.spec_storage().payload(
                other,
            ) by {
                assert(grown_heap.spec_storage().holds(other));
                assert(grown_heap.spec_storage().payload(other) == first.spec_storage().payload(
                    other,
                ));
                assert(array.spec_at() != Some(other));
            }
            assert(array_items(heap, *self) =~= filled(items, size, item));
        }
        Ok(())
    }
}

impl FillAnyContainer for Array<TaggedCellPtr> {
    fn fill<'guard>(
        &mut self,
        mem: &mut MutatorView<'guard>,
        size: ArraySize,
        item: TaggedScopedPtr<'guard>,
    ) -> (r: Result<(), RuntimeError>) {
        let cell = TaggedCellPtr::new_with(item);
        proof {
            cell.lemma_is_spec_of();
        }
        FillContainer::fill(self, mem, size, cell)
    }
}

impl<T: ArrayType> Array<T> {
    /// A new array in the heap, without items.
    pub fn allocate<'guard>(mem: &mut MutatorView<'guard>) -> (r: Result<
        ScopedPtr<'guard, Array<T>>,
        RuntimeError,
    >)
        ensures
            final(mem).spec_heap().grown_from(old(mem).spec_heap()),
            match r {
                Ok(ptr) => final(mem).holds_a(ptr) && final(mem).object_at(ptr.spec_raw())
                    == Array::<T>::new_spec() && !old(mem).spec_heap().spec_storage().holds(
                    ptr.spec_raw().spec_word() as int,
                ),
                Err(e) => is_growth_failure(e),
            },
    {
        let array: Array<T> = Array::new();
        proof {
            lemma_object_bytes_round_trip::<TypeList, Array<T>>(array);
        }
        match mem.allocate(array) {
            Ok(ptr) => Ok(ptr),
            Err(e) => Err(e),
        }
    }

    /// A new array in the heap, without items, with room for `capacity`
    /// items.
    pub fn alloc_with_capacity<'guard>(mem: &mut MutatorView<'guard>, capacity: ArraySize) -> (r:
        Result<ScopedPtr<'guard, Array<T>>, RuntimeError>)
        ensures
            final(mem).spec_heap().grown_from(old(mem).spec_heap()),
            match r {
                Ok(ptr) => {
                    let array = final(mem).object_at(ptr.spec_raw());
                    &&& final(mem).holds_a(ptr)
                    &&& !old(mem).spec_heap().spec_storage().holds(
                        ptr.spec_raw().spec_word() as int,
                    )
                    &&& array_is_held(final(mem).spec_heap(), array)
                    &&& array.spec_length() == 0
                    &&& array.spec_data().spec_capacity() == capacity
                    &&& !array.spec_borrow()
                    &&& array.spec_data().spec_at() matches Some(at)
                        && !old(mem).spec_heap().spec_storage().holds(at)
                },
                Err(e) => is_growth_failure(e),
            },
    {
        let ghost first = mem.spec_heap();
        proof {
            use_type_invariant(&*mem);
        }
        let array: Array<T> = Array::with_capacity(mem, capacity)?;
        let ghost made = mem.spec_heap();
        proof {
            use_type_invariant(&*mem);
            lemma_object_bytes_round_trip::<TypeList, Array<T>>(array);
        }
        let r = mem.allocate(array);
        proof {
            crate::memory::lemma_grown_chain(first, made, mem.spec_heap());
        }
        match r {
            Ok(ptr) => Ok(ptr),
            Err(e) => Err(e),
        }
    }
}

impl<T: ArrayItem> Array<T> {
    /// The items of the array, in order.
    pub fn to_vec<'guard>(&self, mem: &MutatorView<'guard>) -> (items: Vec<T>)
        requires
            array_is_held(mem.spec_heap(), *self),
        ensures
            items@ == array_items(mem.spec_heap(), *self),
    {
        let mut items: Vec<T> = Vec::new();
        let data = self.data;
        let mut index: ArraySize = 0;
        while index < self.length
            invariant
                index <= self.length,
                data == self.spec_data(),
                array_is_held(mem.spec_heap(), *self),
                items@ == array_items(mem.spec_heap(), *self).subrange(0, index as int),
            decreases self.length - index,
        {
            let item = data.read_item(mem, index);
            items.push(item);
            index = index + 1;
            assert(items@ =~= array_items(mem.spec_heap(), *self).subrange(0, index as int));
        }
        assert(items@ =~= array_items(mem.spec_heap(), *self));
        items
    }
}

impl<T: ArrayType> Array<T> {
    /// A new array in the heap that holds the items of the array that
    /// `from_array` points at.
    pub fn alloc_clone<'guard>(mem: &mut MutatorView<'guard>, from_array: ScopedPtr<'guard, Array<T>>) -> (r:
        Result<ScopedPtr<'guard, Array<T>>, RuntimeError>)
        requires
            old(mem).holds_a(from_array),
            array_is_held(old(mem).spec_heap(), old(mem).object_at(from_array.spec_raw())),
        ensures
            final(mem).spec_heap().grown_from(old(mem).spec_heap()),
            match r {
                Ok(ptr) => {
                    let array = final(mem).object_at(ptr.spec_raw());
                    &&& final(mem).holds_a(ptr)
                    &&& !old(mem).spec_heap().spec_storage().holds(
                        ptr.spec_raw().spec_word() as int,
                    )
                    &&& array_is_held(final(mem).spec_heap(), array)
                    &&& array_items(final(mem).spec_heap(), array) == array_items(
                        old(mem).spec_heap(),
                        old(mem).object_at(from_array.spec_raw()),
                    )
                    &&& array.spec_data().spec_capacity() == array.spec_length()
                    &&& !array.spec_borrow()
                    &&& array.spec_data().spec_at() matches Some(at)
                        && !old(mem).spec_heap().spec_storage().holds(at)
                },
                Err(e) => is_growth_failure(e),
            },
    {
        let items = mem.get(from_array).to_vec(mem);
        ContainerFromSlice::from_slice(mem, items.as_slice())
    }
}

impl<T: ArrayType> ContainerFromSlice<T> for Array<T> {
    fn from_slice<'guard>(mem: &mut MutatorView<'guard>, data: &[T]) -> (r: Result<
        ScopedPtr<'guard, Array<T>>,
        RuntimeError,
    >) {
        let ghost first = mem.spec_heap();
        proof {
            use_type_invariant(&*mem);
        }
        let count: ArraySize = data.len() as ArraySize;
        let mut array: Array<T> = Array::with_capacity(mem, count)?;
        let ghost made = mem.spec_heap();
        let ghost storage = array.spec_data().spec_at()->0;
        let data_array = array.data;
        let mut index: ArraySize = 0;
        proof {
            use_type_invariant(&*mem);
            array.lemma_is_spec_of();
        }
        while index < count
            invariant
                index <= count == data@.len(),
                count == data_array.spec_capacity(),
                data_array == array.spec_data(),
                data_array.spec_at() == Some(storage),
                !first.spec_storage().holds(storage),
                mem.spec_heap().wf(),
                mem.spec_heap().grown_from(first),
                raw_is_held(mem.spec_heap(), data_array),
                forall|k: int| 0 <= k < index ==> raw_item(mem.spec_heap(), data_array, k) == data@[k],
            decreases count - index,
        {
            let ghost before = mem.spec_heap();
            data_array.write_item(mem, index, data[index as usize]);
            proof {
                use_type_invariant(&*mem);
                lemma_grown_beside(first, before, mem.spec_heap(), storage);
            }
            index = index + 1;
        }
        array.length = count;
        let ghost filled_heap = mem.spec_heap();
        proof {
            lemma_object_bytes_round_trip::<TypeList, Array<T>>(array);
            assert(array_items(filled_heap, array) =~= data@);
        }
        let r = mem.allocate(array);
        proof {
            use_type_invariant(&*mem);
            crate::memory::lemma_grown_chain(first, filled_heap, mem.spec_heap());
            assert(array_items(mem.spec_heap(), array) =~= array_items(filled_heap, array));
        }
        match r {
            Ok(ptr) => Ok(ptr),
            Err(e) => Err(e),
        }
    }
}

impl AnyContainerFromSlice for Array<TaggedCellPtr> {
    fn from_slice<'guard>(mem: &mut MutatorView<'guard>, data: &[TaggedScopedPtr<'guard>]) -> (r:
        Result<ScopedPtr<'guard, Array<TaggedCellPtr>>, RuntimeError>) {
        let mut cells: Vec<TaggedCellPtr> = Vec::new();
        let mut index: usize = 0;
        while index < data.len()
            invariant
                index <= data@.len(),
                cells@ == cells_of(tagged_ptrs_of(data@.subrange(0, index as int))),
            decreases data@.len() - index,
        {
            let cell = TaggedCellPtr::new_with(data[index]);
            proof {
                cell.lemma_is_spec_of();
            }
            cells.push(cell);
            index = index + 1;
            assert(cells@ =~= cells_of(tagged_ptrs_of(data@.subrange(0, index as int))));
        }
        assert(data@.subrange(0, index as int) =~= data@);
        ContainerFromSlice::from_slice(mem, cells.as_slice())
    }
}

/// An array keeps its items while the memory changes in the bytes of
/// another object only.
pub proof fn lemma_array_is_stable<T: ArrayItem>(
    before: Heap,
    after: Heap,
    array: Array<T>,
    changed: Option<int>,
)
    requires
        array_is_held(before, array),
        changed_at_most(after, before, changed),
        array.spec_data().spec_at() is Some ==> array.spec_data().spec_at() != changed,
    ensures
        array_is_held(after, array),
        array_items(after, array) == array_items(before, array),
{
    assert(array_items(after, array) =~= array_items(before, array));
}

/// An array keeps its items while the memory keeps the bytes of every
/// object that it holds.
pub proof fn lemma_array_is_kept<T: ArrayItem>(before: Heap, after: Heap, array: Array<T>)
    requires
        array_is_held(before, array),
        after.extends(before),
        forall|other: int|
            before.spec_storage().holds(other) ==> #[trigger] after.spec_storage().payload(other)
                == before.spec_storage().payload(other),
    ensures
        array_is_held(after, array),
        array_items(after, array) == array_items(before, array),
{
    assert(array_items(after, array) =~= array_items(before, array));
}

/// A memory that has grown, and has since changed in the bytes of an object
/// that is new, has grown.
pub proof fn lemma_grown_beside(first: Heap, before: Heap, after: Heap, changed: int)
    requires
        before.grown_from(first),
        !first.spec_storage().holds(changed),
        changed_at_most(after, before, Some(changed)),
    ensures
        after.grown_from(first),
{
    crate::memory::lemma_extends_chain(first, before, after);
    assert forall|other: int| first.spec_storage().holds(other) implies #[trigger] after.spec_storage().payload(
        other,
    ) == first.spec_storage().payload(other) by {
        assert(before.spec_storage().holds(other));
    }
}

impl AnyContainerFromPairList for Array<TaggedCellPtr> {
    fn from_pair_list<'guard>(
        &mut self,
        mem: &mut MutatorView<'guard>,
        pair_list: TaggedScopedPtr<'guard>,
    ) -> (r: Result<(), RuntimeError>) {
        let ghost first = mem.spec_heap();
        let ghost (items, end) = choose|items: Seq<TaggedPtr>, end: TaggedPtr|
            is_list(first, pair_list.spec_ptr(), items, end);
        proof {
            use_type_invariant(&*mem);
            crate::memory::lemma_extends_itself(first);
            self.lemma_is_spec_of();
        }
        self.length = 0;
        let mut head = pair_list;
        let ghost mut count: int = 0;
        proof {
            assert(items.subrange(0, items.len() as int) =~= items);
            assert(array_items(first, *self) =~= cells_of(items.subrange(0, 0)));
        }
        loop
            invariant
                0 <= count <= items.len(),
                first == old(mem).spec_heap(),
                mem.spec_heap().wf(),
                first.wf(),
                mem.spec_heap().extends(first),
                self.spec_borrow() == old(self).spec_borrow(),
                array_is_held(mem.spec_heap(), *self),
                self.spec_data().spec_capacity() != 1,
                mem.holds(head),
                is_list(first, pair_list.spec_ptr(), items, end),
                is_list(mem.spec_heap(), pair_list.spec_ptr(), items, end),
                is_list(
                    mem.spec_heap(),
                    head.spec_ptr(),
                    items.subrange(count, items.len() as int),
                    end,
                ),
                array_items(mem.spec_heap(), *self) == cells_of(items.subrange(0, count)),
            decreases items.len() - count,
        {
            let ghost before = mem.spec_heap();
            let ghost before_self = *self;
            let ghost rest = items.subrange(count, items.len() as int);
            match head.value() {
                Value::Pair(pair) => {
                    let pair = mem.get(pair);
                    proof {
                        crate::pair::lemma_list_head_is_valid(
                            before,
                            pair.second.spec_ptr(),
                            rest.drop_first(),
                            end,
                        );
                    }
                    let item = pair.first.get(mem);
                    let cell = TaggedCellPtr::new_with(item);
                    proof {
                        cell.lemma_is_spec_of();
                    }
                    let pushed = Array::push(self, mem, cell);
                    proof {
                        use_type_invariant(&*mem);
                        let after = mem.spec_heap();
                        crate::memory::lemma_extends_chain(first, before, after);
                        match before_self.spec_data().spec_at() {
                            Some(at) => {
                                crate::pair::lemma_list_is_stable_beside(
                                    before,
                                    after,
                                    pair_list.spec_ptr(),
                                    items,
                                    end,
                                    at,
                                );
                                crate::pair::lemma_list_is_stable_beside(
                                    before,
                                    after,
                                    pair.second.spec_ptr(),
                                    rest.drop_first(),
                                    end,
                                    at,
                                );
                            },
                            None => {
                                crate::pair::lemma_list_is_stable(
                                    before,
                                    after,
                                    pair_list.spec_ptr(),
                                    items,
                                    end,
                                );
                                crate::pair::lemma_list_is_stable(
                                    before,
                                    after,
                                    pair.second.spec_ptr(),
                                    rest.drop_first(),
                                    end,
                                );
                            },
                        }
                    }
                    match pushed {
                        Ok(()) => {},
                        Err(e) => {
                            proof {
                                lemma_lists_are_unique_from(first, mem.spec_heap(), pair_list.spec_ptr(), items, end);
                            }
                            return Err(e);
                        },
                    }
                    proof {
                        crate::pair::lemma_list_head_is_valid(
                            mem.spec_heap(),
                            pair.second.spec_ptr(),
                            rest.drop_first(),
                            end,
                        );
                        assert(rest.drop_first() =~= items.subrange(count + 1, items.len() as int));
                        assert(cells_of(items.subrange(0, count)).push(cell_of(item)) =~= cells_of(
                            items.subrange(0, count + 1),
                        ));
                        count = count + 1;
                    }
                    head = pair.second.get(mem);
                },
                _ => {
                    proof {
                        assert(count == items.len());
                        assert(items.subrange(0, count) =~= items);
                        lemma_lists_are_unique_from(first, mem.spec_heap(), pair_list.spec_ptr(), items, end);
                    }
                    return Ok(());
                },
            }
        }
    }
}

/// What holds of the one list that a pointer is the head of holds of every
/// list that it is the head of.
proof fn lemma_lists_are_unique_from(
    first: Heap,
    after: Heap,
    ptr: TaggedPtr,
    items: Seq<TaggedPtr>,
    end: TaggedPtr,
)
    requires
        is_list(first, ptr, items, end),
        is_list(after, ptr, items, end),
    ensures
        forall|other_items: Seq<TaggedPtr>, other_end: TaggedPtr|
            is_list(first, ptr, other_items, other_end) ==> other_items == items && other_end
                == end && is_list(after, ptr, other_items, other_end),
{
    assert forall|other_items: Seq<TaggedPtr>, other_end: TaggedPtr|
        is_list(first, ptr, other_items, other_end) implies other_items == items && other_end
        == end && is_list(after, ptr, other_items, other_end) by {
        crate::pair::lemma_list_is_unique(first, ptr, items, end, other_items, other_end);
    }
}

impl<T: ArrayItem> Container<T> for Array<T> {
    open spec fn held(&self, heap: Heap) -> bool {
        array_is_held(heap, *self)
    }

    open spec fn contents(&self, heap: Heap) -> Seq<T> {
        array_items(heap, *self)
    }

    open spec fn storage(&self) -> Option<int> {
        self.spec_data().spec_at()
    }

    open spec fn room(&self) -> ArraySize {
        self.spec_data().spec_capacity()
    }

    open spec fn lent(&self) -> bool {
        self.spec_borrow()
    }

    fn new() -> (container: Array<T>) {
        let array = Array::new();
        proof {
            Self::lemma_spec_of(0, RawArray::spec_of(0, None), false);
            RawArray::<T>::lemma_spec_of(0, None);
            assert forall|heap: Heap| #[trigger] array.contents(heap) == Seq::<T>::empty() by {
                assert(array.contents(heap) =~= Seq::<T>::empty());
            }
        }
        array
    }

    fn with_capacity<'guard>(mem: &mut MutatorView<'guard>, capacity: ArraySize) -> (r: Result<
        Array<T>,
        RuntimeError,
    >) {
        let r = Array::with_capacity(mem, capacity);
        proof {
            match r {
                Ok(array) => {
                    assert(array.contents(mem.spec_heap()) =~= Seq::<T>::empty());
                },
                Err(_) => {},
            }
        }
        r
    }

    fn clear<'guard>(&mut self, mem: &MutatorView<'guard>) -> (r: Result<(), RuntimeError>) {
        let r = Array::clear(self, mem);
        proof {
            assert(self.spec_length() == 0 ==> self.contents(mem.spec_heap()) =~= Seq::<
                T,
            >::empty());
            assert(self.spec_length() == old(self).spec_length() ==> self.contents(mem.spec_heap())
                =~= old(self).contents(mem.spec_heap()));
        }
        r
    }

    fn length(&self) -> (length: ArraySize) {
        self.length
    }
}

impl<T: ArrayItem> StackContainer<T> for Array<T> {
    fn push<'guard>(&mut self, mem: &mut MutatorView<'guard>, item: T) -> (r: Result<
        (),
        RuntimeError,
    >) {
        Array::push(self, mem, item)
    }

    fn pop<'guard>(&mut self, mem: &MutatorView<'guard>) -> (r: Result<T, RuntimeError>) {
        Array::pop(self, mem)
    }

    fn top<'guard>(&self, mem: &MutatorView<'guard>) -> (r: Result<T, RuntimeError>) {
        Array::top(self, mem)
    }
}

impl<T: ArrayItem> IndexedContainer<T> for Array<T> {
    fn get<'guard>(&self, mem: &MutatorView<'guard>, index: ArraySize) -> (r: Result<
        T,
        RuntimeError,
    >) {
        Array::get(self, mem, index)
    }

    fn set<'guard>(&self, mem: &mut MutatorView<'guard>, index: ArraySize, item: T) -> (r: Result<
        (),
        RuntimeError,
    >) {
        Array::set(self, mem, index, item)
    }
}

impl StackAnyContainer for Array<TaggedCellPtr> {
    fn push<'guard>(&mut self, mem: &mut MutatorView<'guard>, item: TaggedScopedPtr<'guard>) -> (r:
        Result<(), RuntimeError>) {
        let cell = TaggedCellPtr::new_with(item);
        proof {
            cell.lemma_is_spec_of();
        }
        Array::push(self, mem, cell)
    }

    fn pop<'guard>(&mut self, mem: &MutatorView<'guard>) -> (r: Result<
        TaggedScopedPtr<'guard>,
        RuntimeError,
    >) {
        match Array::pop(self, mem) {
            Ok(cell) => Ok(cell.get(mem)),
            Err(e) => Err(e),
        }
    }

    fn top<'guard>(&self, mem: &MutatorView<'guard>) -> (r: Result<
        TaggedScopedPtr<'guard>,
        RuntimeError,
    >) {
        match Array::top(self, mem) {
            Ok(cell) => Ok(cell.get(mem)),
            Err(e) => Err(e),
        }
    }
}

impl IndexedAnyContainer for Array<TaggedCellPtr> {
    fn get<'guard>(&self, mem: &MutatorView<'guard>, index: ArraySize) -> (r: Result<
        TaggedScopedPtr<'guard>,
        RuntimeError,
    >) {
        match Array::get(self, mem, index) {
            Ok(cell) => Ok(cell.get(mem)),
            Err(e) => Err(e),
        }
    }

    fn set<'guard>(
        &self,
        mem: &mut MutatorView<'guard>,
        index: ArraySize,
        item: TaggedScopedPtr<'guard>,
    ) -> (r: Result<(), RuntimeError>) {
        let cell = TaggedCellPtr::new_with(item);
        proof {
            cell.lemma_is_spec_of();
        }
        Array::set(self, mem, index, cell)
    }
}

impl<T: ArrayType> AllocObject<TypeList> for Array<T> {
    open spec fn spec_type_id() -> TypeList {
        T::spec_array_type()
    }

    fn type_id() -> (id: TypeList) {
        T::array_type()
    }

    open spec fn spec_word_count() -> nat {
        5
    }

    fn word_count() -> (count: usize) {
        5
    }

    open spec fn spec_words(&self) -> Seq<u64> {
        self.spec_array_words()
    }

    fn to_words(&self) -> (words: Vec<u64>) {
        let mut words: Vec<u64> = Vec::new();
        self.push_words(&mut words);
        proof {
            self.lemma_array_words_round_trip();
            assert(words@ =~= self.spec_array_words());
        }
        words
    }

    open spec fn spec_from_words(words: Seq<u64>) -> Array<T> {
        Self::spec_from_array_words(words)
    }

    fn from_words(words: &[u64]) -> (object: Array<T>) {
        assert(words@.subrange(0, 5) =~= words@);
        Array::from_array_words(words, 0)
    }

    proof fn lemma_words_round_trip(&self) {
        self.lemma_array_words_round_trip();
    }
}

} // verus!
