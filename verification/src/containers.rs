//! The operations that containers of the heap offer, by kind of container.
//!
//! A container is a record; its items lie in the heap. An operation that
//! changes the record changes the copy that it is called on: a container
//! that is itself an object of the heap is written back by its user.

use vstd::prelude::*;
use crate::allocator::{AllocObject, ArraySize};
use crate::headers::TypeList;
use crate::error::{ErrorKind, RuntimeError};
use crate::memory::{Heap, MutatorView};
use crate::pair::is_list;
use crate::taggedptr::{FatPtr, TaggedPtr};
use crate::rawarray::spec_array_growth;
use crate::safeptr::{ScopedPtr, TaggedCellPtr, TaggedScopedPtr};

verus! {

/// A container of items of type `T`.
pub trait Container<T>: Sized {
    /// Whether the items of the container lie in `heap`.
    spec fn held(&self, heap: Heap) -> bool;

    /// The items of the container, in order.
    spec fn contents(&self, heap: Heap) -> Seq<T>;

    /// The address of the space that the items lie in, if the container has
    /// any.
    spec fn storage(&self) -> Option<int>;

    /// The count of items that the container has room for.
    spec fn room(&self) -> ArraySize;

    /// Whether the items are lent out for change.
    spec fn lent(&self) -> bool;

    /// A container without items and without space for any.
    fn new() -> (container: Self)
        ensures
            forall|heap: Heap| #[trigger] container.held(heap),
            forall|heap: Heap| #[trigger] container.contents(heap) == Seq::<T>::empty(),
            container.storage() is None,
            container.room() == 0,
            !container.lent(),
    ;

    /// A container without items, with room for `capacity` items.
    fn with_capacity<'guard>(mem: &mut MutatorView<'guard>, capacity: ArraySize) -> (r: Result<
        Self,
        RuntimeError,
    >)
        ensures
            final(mem).spec_heap().grown_from(old(mem).spec_heap()),
            match r {
                Ok(container) => {
                    &&& container.held(final(mem).spec_heap())
                    &&& container.contents(final(mem).spec_heap()) == Seq::<T>::empty()
                    &&& container.room() == capacity
                    &&& !container.lent()
                    &&& container.storage() matches Some(at) && !old(mem).spec_heap().spec_storage().holds(at)
                },
                Err(e) => e.spec_pos() is None && (e.spec_kind()
                    == ErrorKind::BadAllocationRequest || e.spec_kind()
                    == ErrorKind::OutOfMemory),
            },
    ;

    /// Empties the container, unless its items are lent out.
    fn clear<'guard>(&mut self, mem: &MutatorView<'guard>) -> (r: Result<(), RuntimeError>)
        requires
            old(self).held(mem.spec_heap()),
        ensures
            final(self).held(mem.spec_heap()),
            final(self).storage() == old(self).storage(),
            final(self).room() == old(self).room(),
            final(self).lent() == old(self).lent(),
            match r {
                Ok(()) => !old(self).lent() && final(self).contents(mem.spec_heap())
                    == Seq::<T>::empty(),
                Err(e) => old(self).lent() && e.spec_kind() == ErrorKind::MutableBorrowError
                    && e.spec_pos() is None && final(self).contents(mem.spec_heap()) == old(self).contents(mem.spec_heap()),
            },
    ;

    /// The count of items in the container.
    fn length(&self) -> (length: ArraySize)
        ensures
            forall|heap: Heap| length == (#[trigger] self.contents(heap)).len(),
    ;
}

/// Whether `e` is an error that the growing of a container can end in.
pub open spec fn is_growth_failure(e: RuntimeError) -> bool {
    &&& e.spec_pos() is None
    &&& e.spec_kind() == ErrorKind::BadAllocationRequest || e.spec_kind()
        == ErrorKind::OutOfMemory
}

/// Whether `e` is the error for an index beyond the length of a container.
pub open spec fn is_bounds_error(e: RuntimeError) -> bool {
    &&& e.spec_pos() is None
    &&& e.spec_kind() == ErrorKind::BoundsError
}

/// Whether `e` is the error for a change to a container whose items are
/// lent out.
pub open spec fn is_borrow_error(e: RuntimeError) -> bool {
    &&& e.spec_pos() is None
    &&& e.spec_kind() == ErrorKind::MutableBorrowError
}

/// Whether `after` holds what `before` holds, and every object of `before`
/// has kept its bytes, but for the one at `storage`.
pub open spec fn changed_at_most(after: Heap, before: Heap, storage: Option<int>) -> bool {
    &&& after.extends(before)
    &&& after.spec_syms() == before.spec_syms()
    &&& forall|other: int|
        before.spec_storage().holds(other) && storage != Some(other)
            ==> #[trigger] after.spec_storage().payload(other) == before.spec_storage().payload(
            other,
        )
}

/// A container that works as a stack.
pub trait StackContainer<T>: Container<T> {
    /// Puts `item` on top of the stack. A container that is full grows
    /// first, into new space of the heap; one with room for a single item
    /// cannot grow.
    fn push<'guard>(&mut self, mem: &mut MutatorView<'guard>, item: T) -> (r: Result<
        (),
        RuntimeError,
    >)
        requires
            old(self).held(old(mem).spec_heap()),
            !(old(self).contents(old(mem).spec_heap()).len() == 1 && old(self).room() == 1),
        ensures
            changed_at_most(final(mem).spec_heap(), old(mem).spec_heap(), old(self).storage()),
            final(self).lent() == old(self).lent(),
            match r {
                Ok(()) => {
                    &&& !old(self).lent()
                    &&& final(self).held(final(mem).spec_heap())
                    &&& final(self).contents(final(mem).spec_heap()) == old(self).contents(
                        old(mem).spec_heap(),
                    ).push(item)
                    &&& final(self).storage() != old(self).storage() ==> (final(self).storage()
                        matches Some(at) && !old(mem).spec_heap().spec_storage().holds(at))
                },
                Err(e) => {
                    &&& *final(self) == *old(self)
                    &&& final(mem).spec_heap().grown_from(old(mem).spec_heap())
                    &&& if old(self).lent() {
                        is_borrow_error(e)
                    } else {
                        old(self).contents(old(mem).spec_heap()).len() == old(self).room()
                            && is_growth_failure(e)
                    }
                },
            },
    ;

    /// Takes the top item off the stack, if there is one and the items are
    /// not lent out.
    fn pop<'guard>(&mut self, mem: &MutatorView<'guard>) -> (r: Result<T, RuntimeError>)
        requires
            old(self).held(mem.spec_heap()),
        ensures
            final(self).held(mem.spec_heap()),
            final(self).storage() == old(self).storage(),
            final(self).room() == old(self).room(),
            final(self).lent() == old(self).lent(),
            match r {
                Ok(item) => {
                    &&& !old(self).lent()
                    &&& old(self).contents(mem.spec_heap()).len() > 0
                    &&& item == old(self).contents(mem.spec_heap()).last()
                    &&& final(self).contents(mem.spec_heap()) == old(self).contents(
                        mem.spec_heap(),
                    ).drop_last()
                },
                Err(e) => {
                    &&& final(self).contents(mem.spec_heap()) == old(self).contents(
                        mem.spec_heap(),
                    )
                    &&& if old(self).lent() {
                        is_borrow_error(e)
                    } else {
                        old(self).contents(mem.spec_heap()).len() == 0 && is_bounds_error(e)
                    }
                },
            },
    ;

    /// The top item of the stack, if there is one.
    fn top<'guard>(&self, mem: &MutatorView<'guard>) -> (r: Result<T, RuntimeError>)
        requires
            self.held(mem.spec_heap()),
        ensures
            match r {
                Ok(item) => self.contents(mem.spec_heap()).len() > 0 && item == self.contents(
                    mem.spec_heap(),
                ).last(),
                Err(e) => self.contents(mem.spec_heap()).len() == 0 && is_bounds_error(e),
            },
    ;
}

/// A container whose items are reached by their index.
pub trait IndexedContainer<T>: Container<T> {
    /// Item `index`, if the container has as many.
    fn get<'guard>(&self, mem: &MutatorView<'guard>, index: ArraySize) -> (r: Result<
        T,
        RuntimeError,
    >)
        requires
            self.held(mem.spec_heap()),
        ensures
            match r {
                Ok(item) => index < self.contents(mem.spec_heap()).len() && item == self.contents(
                    mem.spec_heap(),
                )[index as int],
                Err(e) => index >= self.contents(mem.spec_heap()).len() && is_bounds_error(e),
            },
    ;

    /// Stores `item` as item `index`, if the container has as many.
    fn set<'guard>(&self, mem: &mut MutatorView<'guard>, index: ArraySize, item: T) -> (r: Result<
        (),
        RuntimeError,
    >)
        requires
            self.held(old(mem).spec_heap()),
        ensures
            changed_at_most(final(mem).spec_heap(), old(mem).spec_heap(), self.storage()),
            self.held(final(mem).spec_heap()),
            match r {
                Ok(()) => index < self.contents(old(mem).spec_heap()).len() && self.contents(
                    final(mem).spec_heap(),
                ) == self.contents(old(mem).spec_heap()).update(index as int, item),
                Err(e) => index >= self.contents(old(mem).spec_heap()).len() && is_bounds_error(e)
                    && self.contents(final(mem).spec_heap()) == self.contents(
                    old(mem).spec_heap(),
                ),
            },
    ;
}

/// The cell that holds the pointer of `item`.
pub open spec fn cell_of(item: TaggedScopedPtr) -> TaggedCellPtr {
    TaggedCellPtr::spec_of(item.spec_ptr())
}

/// A stack of values of any type.
pub trait StackAnyContainer: Container<TaggedCellPtr> {
    /// Puts a cell that holds the pointer of `item` on top of the stack.
    fn push<'guard>(&mut self, mem: &mut MutatorView<'guard>, item: TaggedScopedPtr<'guard>) -> (r:
        Result<(), RuntimeError>)
        requires
            old(self).held(old(mem).spec_heap()),
            !(old(self).contents(old(mem).spec_heap()).len() == 1 && old(self).room() == 1),
        ensures
            changed_at_most(final(mem).spec_heap(), old(mem).spec_heap(), old(self).storage()),
            final(self).lent() == old(self).lent(),
            match r {
                Ok(()) => {
                    &&& !old(self).lent()
                    &&& final(self).held(final(mem).spec_heap())
                    &&& final(self).contents(final(mem).spec_heap()) == old(self).contents(
                        old(mem).spec_heap(),
                    ).push(cell_of(item))
                    &&& final(self).storage() != old(self).storage() ==> (final(self).storage()
                        matches Some(at) && !old(mem).spec_heap().spec_storage().holds(at))
                },
                Err(e) => {
                    &&& *final(self) == *old(self)
                    &&& final(mem).spec_heap().grown_from(old(mem).spec_heap())
                    &&& if old(self).lent() {
                        is_borrow_error(e)
                    } else {
                        old(self).contents(old(mem).spec_heap()).len() == old(self).room()
                            && is_growth_failure(e)
                    }
                },
            },
    ;

    /// Takes the top item off the stack, if there is one and the items are
    /// not lent out, and returns the pointer that it holds.
    fn pop<'guard>(&mut self, mem: &MutatorView<'guard>) -> (r: Result<
        TaggedScopedPtr<'guard>,
        RuntimeError,
    >)
        requires
            old(self).held(mem.spec_heap()),
            old(self).contents(mem.spec_heap()).len() > 0 ==> mem.spec_heap().valid(
                old(self).contents(mem.spec_heap()).last().spec_ptr(),
            ),
        ensures
            final(self).held(mem.spec_heap()),
            final(self).storage() == old(self).storage(),
            final(self).room() == old(self).room(),
            final(self).lent() == old(self).lent(),
            match r {
                Ok(item) => {
                    &&& !old(self).lent()
                    &&& old(self).contents(mem.spec_heap()).len() > 0
                    &&& mem.holds(item)
                    &&& item.spec_ptr() == old(self).contents(mem.spec_heap()).last().spec_ptr()
                    &&& final(self).contents(mem.spec_heap()) == old(self).contents(
                        mem.spec_heap(),
                    ).drop_last()
                },
                Err(e) => {
                    &&& final(self).contents(mem.spec_heap()) == old(self).contents(
                        mem.spec_heap(),
                    )
                    &&& if old(self).lent() {
                        is_borrow_error(e)
                    } else {
                        old(self).contents(mem.spec_heap()).len() == 0 && is_bounds_error(e)
                    }
                },
            },
    ;

    /// The pointer that the top item of the stack holds, if there is one.
    fn top<'guard>(&self, mem: &MutatorView<'guard>) -> (r: Result<
        TaggedScopedPtr<'guard>,
        RuntimeError,
    >)
        requires
            self.held(mem.spec_heap()),
            self.contents(mem.spec_heap()).len() > 0 ==> mem.spec_heap().valid(
                self.contents(mem.spec_heap()).last().spec_ptr(),
            ),
        ensures
            match r {
                Ok(item) => self.contents(mem.spec_heap()).len() > 0 && mem.holds(item)
                    && item.spec_ptr() == self.contents(mem.spec_heap()).last().spec_ptr(),
                Err(e) => self.contents(mem.spec_heap()).len() == 0 && is_bounds_error(e),
            },
    ;
}

/// A container of values of any type that are reached by their index.
pub trait IndexedAnyContainer: Container<TaggedCellPtr> {
    /// The pointer that item `index` holds, if the container has as many
    /// items.
    fn get<'guard>(&self, mem: &MutatorView<'guard>, index: ArraySize) -> (r: Result<
        TaggedScopedPtr<'guard>,
        RuntimeError,
    >)
        requires
            self.held(mem.spec_heap()),
            index < self.contents(mem.spec_heap()).len() ==> mem.spec_heap().valid(
                self.contents(mem.spec_heap())[index as int].spec_ptr(),
            ),
        ensures
            match r {
                Ok(item) => index < self.contents(mem.spec_heap()).len() && mem.holds(item)
                    && item.spec_ptr() == self.contents(mem.spec_heap())[index as int].spec_ptr(),
                Err(e) => index >= self.contents(mem.spec_heap()).len() && is_bounds_error(e),
            },
    ;

    /// Makes item `index` hold the pointer of `item`, if the container has
    /// as many items.
    fn set<'guard>(
        &self,
        mem: &mut MutatorView<'guard>,
        index: ArraySize,
        item: TaggedScopedPtr<'guard>,
    ) -> (r: Result<(), RuntimeError>)
        requires
            self.held(old(mem).spec_heap()),
        ensures
            changed_at_most(final(mem).spec_heap(), old(mem).spec_heap(), self.storage()),
            self.held(final(mem).spec_heap()),
            match r {
                Ok(()) => index < self.contents(old(mem).spec_heap()).len() && self.contents(
                    final(mem).spec_heap(),
                ) == self.contents(old(mem).spec_heap()).update(index as int, cell_of(item)),
                Err(e) => index >= self.contents(old(mem).spec_heap()).len() && is_bounds_error(e)
                    && self.contents(final(mem).spec_heap()) == self.contents(
                    old(mem).spec_heap(),
                ),
            },
    ;
}

/// The items that `fill` leaves in a container that held `items`: the same
/// items where there are more than `size` of them, and otherwise `size`
/// items, of which those behind the items held are `item`.
pub open spec fn filled<T>(items: Seq<T>, size: ArraySize, item: T) -> Seq<T> {
    if items.len() > size {
        items
    } else {
        items + Seq::new((size - items.len()) as nat, |i: int| item)
    }
}

/// Whether a container with room for `room` items can hold `size` items once
/// it has grown, if it has to, by one step.
pub open spec fn fits_after_growth(room: ArraySize, size: ArraySize) -> bool {
    size > room ==> (spec_array_growth(room) matches Some(grown) ==> size <= grown)
}

/// A container that can be filled with copies of one item.
pub trait FillContainer<T>: Container<T> {
    /// Makes the container `size` items long by putting copies of `item`
    /// behind its items. A container that is longer is left as it is. The
    /// container grows by one step at most, and must then have room.
    fn fill<'guard>(&mut self, mem: &mut MutatorView<'guard>, size: ArraySize, item: T) -> (r:
        Result<(), RuntimeError>)
        requires
            old(self).held(old(mem).spec_heap()),
            fits_after_growth(old(self).room(), size),
        ensures
            changed_at_most(final(mem).spec_heap(), old(mem).spec_heap(), old(self).storage()),
            final(self).lent() == old(self).lent(),
            match r {
                Ok(()) => {
                    &&& final(self).held(final(mem).spec_heap())
                    &&& final(self).contents(final(mem).spec_heap()) == filled(
                        old(self).contents(old(mem).spec_heap()),
                        size,
                        item,
                    )
                },
                Err(e) => {
                    &&& *final(self) == *old(self)
                    &&& final(mem).spec_heap().grown_from(old(mem).spec_heap())
                    &&& size > old(self).room()
                    &&& is_growth_failure(e)
                },
            },
    ;
}

/// A container of values of any type that can be filled with one value.
pub trait FillAnyContainer: Container<TaggedCellPtr> {
    /// Makes the container `size` items long by putting cells that hold the
    /// pointer of `item` behind its items.
    fn fill<'guard>(
        &mut self,
        mem: &mut MutatorView<'guard>,
        size: ArraySize,
        item: TaggedScopedPtr<'guard>,
    ) -> (r: Result<(), RuntimeError>)
        requires
            old(self).held(old(mem).spec_heap()),
            fits_after_growth(old(self).room(), size),
        ensures
            changed_at_most(final(mem).spec_heap(), old(mem).spec_heap(), old(self).storage()),
            final(self).lent() == old(self).lent(),
            match r {
                Ok(()) => {
                    &&& final(self).held(final(mem).spec_heap())
                    &&& final(self).contents(final(mem).spec_heap()) == filled(
                        old(self).contents(old(mem).spec_heap()),
                        size,
                        cell_of(item),
                    )
                },
                Err(e) => {
                    &&& *final(self) == *old(self)
                    &&& final(mem).spec_heap().grown_from(old(mem).spec_heap())
                    &&& size > old(self).room()
                    &&& is_growth_failure(e)
                },
            },
    ;
}

/// The cells that hold the pointers `ptrs`.
pub open spec fn cells_of(ptrs: Seq<TaggedPtr>) -> Seq<TaggedCellPtr> {
    ptrs.map_values(|ptr: TaggedPtr| TaggedCellPtr::spec_of(ptr))
}

/// A container of values of any type that can take the items of a list of
/// pairs.
pub trait AnyContainerFromPairList: Container<TaggedCellPtr> {
    /// Replaces the items of the container by the items of the list of
    /// pairs `pair_list`, whatever the list ends in. The container must not
    /// be one with room for a single item.
    fn from_pair_list<'guard>(
        &mut self,
        mem: &mut MutatorView<'guard>,
        pair_list: TaggedScopedPtr<'guard>,
    ) -> (r: Result<(), RuntimeError>)
        requires
            old(self).held(old(mem).spec_heap()),
            old(self).room() != 1,
            old(mem).holds(pair_list),
            exists|items: Seq<TaggedPtr>, end: TaggedPtr|
                is_list(old(mem).spec_heap(), pair_list.spec_ptr(), items, end),
        ensures
            final(mem).spec_heap().extends(old(mem).spec_heap()),
            final(self).lent() == old(self).lent(),
            forall|items: Seq<TaggedPtr>, end: TaggedPtr|
                is_list(old(mem).spec_heap(), pair_list.spec_ptr(), items, end) ==> is_list(
                    final(mem).spec_heap(),
                    pair_list.spec_ptr(),
                    items,
                    end,
                ),
            match r {
                Ok(()) => {
                    &&& final(self).held(final(mem).spec_heap())
                    &&& forall|items: Seq<TaggedPtr>, end: TaggedPtr|
                        is_list(old(mem).spec_heap(), pair_list.spec_ptr(), items, end) ==> final(self).contents(final(mem).spec_heap()) == cells_of(items)
                },
                Err(e) => if old(self).lent() {
                    is_borrow_error(e)
                } else {
                    is_growth_failure(e)
                },
            },
    ;
}

/// A container that can be made in the heap from a slice of items.
pub trait ContainerFromSlice<T>: Container<T> + AllocObject<TypeList> {
    /// A new container in the heap that holds the items of `data`.
    fn from_slice<'guard>(mem: &mut MutatorView<'guard>, data: &[T]) -> (r: Result<
        ScopedPtr<'guard, Self>,
        RuntimeError,
    >)
        requires
            data@.len() <= ArraySize::MAX,
        ensures
            final(mem).spec_heap().grown_from(old(mem).spec_heap()),
            match r {
                Ok(ptr) => {
                    &&& final(mem).holds_a(ptr)
                    &&& !old(mem).spec_heap().spec_storage().holds(
                        ptr.spec_raw().spec_word() as int,
                    )
                    &&& final(mem).object_at(ptr.spec_raw()).held(final(mem).spec_heap())
                    &&& final(mem).object_at(ptr.spec_raw()).contents(final(mem).spec_heap())
                        == data@
                    &&& final(mem).object_at(ptr.spec_raw()).room() == data@.len()
                    &&& !final(mem).object_at(ptr.spec_raw()).lent()
                    &&& final(mem).object_at(ptr.spec_raw()).storage() matches Some(at)
                        && !old(mem).spec_heap().spec_storage().holds(at)
                },
                Err(e) => is_growth_failure(e),
            },
    ;
}

/// A container that finds values of any type by keys that have a hash.
pub trait HashIndexedAnyContainer: Sized {
    /// Whether the container is in order in `heap`.
    spec fn in_order(&self, heap: Heap) -> bool;

    /// Whether the container can be searched: a container can be made in a
    /// way that leaves it without an entry to look at.
    spec fn searchable(&self) -> bool;

    /// What a lookup of `key` gives: the value that the key stands for, or
    /// the kind of error that the lookup ends in.
    spec fn found(&self, heap: Heap, key: FatPtr) -> Result<TaggedPtr, ErrorKind>;

    /// The value that `key` stands for.
    fn lookup<'guard>(&self, mem: &MutatorView<'guard>, key: TaggedScopedPtr) -> (r: Result<
        TaggedScopedPtr<'guard>,
        RuntimeError,
    >)
        requires
            self.in_order(mem.spec_heap()),
            self.searchable(),
            mem.holds(key),
        ensures
            match r {
                Ok(value) => self.found(mem.spec_heap(), key.spec_value().spec_fat_ptr()) == Ok::<
                    TaggedPtr,
                    ErrorKind,
                >(value.spec_ptr()) && mem.holds(value),
                Err(e) => self.found(mem.spec_heap(), key.spec_value().spec_fat_ptr()) == Err::<
                    TaggedPtr,
                    ErrorKind,
                >(e.spec_kind()) && e.spec_pos() is None,
            },
    ;

    /// Makes `key` stand for `value`. A key without a hash is refused, and
    /// so is a key for which the container cannot make room.
    fn assoc<'guard>(
        &mut self,
        mem: &mut MutatorView<'guard>,
        key: TaggedScopedPtr<'guard>,
        value: TaggedScopedPtr<'guard>,
    ) -> (r: Result<(), RuntimeError>)
        requires
            old(self).in_order(old(mem).spec_heap()),
            old(mem).holds(key),
            old(mem).holds(value),
        ensures
            final(mem).spec_heap().extends(old(mem).spec_heap()),
            final(self).in_order(final(mem).spec_heap()),
            match r {
                Ok(()) => {
                    &&& final(self).searchable()
                    &&& final(self).found(
                        final(mem).spec_heap(),
                        key.spec_value().spec_fat_ptr(),
                    ) == Ok::<TaggedPtr, ErrorKind>(value.spec_ptr())
                },
                Err(e) => {
                    &&& *final(self) == *old(self)
                    &&& final(mem).spec_heap().grown_from(old(mem).spec_heap())
                    &&& e.spec_pos() is None
                    &&& if old(self).found(old(mem).spec_heap(), key.spec_value().spec_fat_ptr())
                        == Err::<TaggedPtr, ErrorKind>(ErrorKind::UnhashableError) {
                        e.spec_kind() == ErrorKind::UnhashableError
                    } else {
                        is_growth_failure(e)
                    }
                },
            },
    ;

    /// Removes `key` with its value, and returns the value.
    fn dissoc<'guard>(&mut self, mem: &mut MutatorView<'guard>, key: TaggedScopedPtr) -> (r:
        Result<TaggedScopedPtr<'guard>, RuntimeError>)
        requires
            old(self).in_order(old(mem).spec_heap()),
            old(self).searchable(),
            old(mem).holds(key),
        ensures
            final(mem).spec_heap().extends(old(mem).spec_heap()),
            final(self).in_order(final(mem).spec_heap()),
            final(self).searchable(),
            match r {
                Ok(value) => {
                    &&& old(self).found(old(mem).spec_heap(), key.spec_value().spec_fat_ptr())
                        == Ok::<TaggedPtr, ErrorKind>(value.spec_ptr())
                    &&& final(mem).holds(value)
                },
                Err(e) => {
                    &&& *final(self) == *old(self)
                    &&& final(mem).spec_heap().grown_from(old(mem).spec_heap())
                    &&& old(self).found(old(mem).spec_heap(), key.spec_value().spec_fat_ptr())
                        == Err::<TaggedPtr, ErrorKind>(e.spec_kind())
                    &&& e.spec_pos() is None
                },
            },
    ;

    /// Whether `key` stands for a value.
    fn has_key<'guard>(&self, mem: &MutatorView<'guard>, key: TaggedScopedPtr) -> (r: Result<
        bool,
        RuntimeError,
    >)
        requires
            self.in_order(mem.spec_heap()),
            self.searchable(),
            mem.holds(key),
        ensures
            match r {
                Ok(present) => match self.found(mem.spec_heap(), key.spec_value().spec_fat_ptr()) {
                    Ok(_) => present,
                    Err(kind) => !present && kind == ErrorKind::KeyError,
                },
                Err(e) => self.found(mem.spec_heap(), key.spec_value().spec_fat_ptr()) == Err::<
                    TaggedPtr,
                    ErrorKind,
                >(e.spec_kind()) && e.spec_kind() != ErrorKind::KeyError && e.spec_pos() is None,
            },
    ;
}

/// The pointers of a row of scoped pointers.
pub open spec fn tagged_ptrs_of(values: Seq<TaggedScopedPtr>) -> Seq<TaggedPtr> {
    values.map_values(|v: TaggedScopedPtr| v.spec_ptr())
}

/// A container of values of any type that can be made in the heap from a
/// slice of pointers.
pub trait AnyContainerFromSlice: Container<TaggedCellPtr> + AllocObject<TypeList> {
    /// A new container in the heap that holds cells with the pointers of
    /// `data`.
    fn from_slice<'guard>(mem: &mut MutatorView<'guard>, data: &[TaggedScopedPtr<'guard>]) -> (r:
        Result<ScopedPtr<'guard, Self>, RuntimeError>)
        requires
            data@.len() <= ArraySize::MAX,
        ensures
            final(mem).spec_heap().grown_from(old(mem).spec_heap()),
            match r {
                Ok(ptr) => {
                    &&& final(mem).holds_a(ptr)
                    &&& !old(mem).spec_heap().spec_storage().holds(
                        ptr.spec_raw().spec_word() as int,
                    )
                    &&& final(mem).object_at(ptr.spec_raw()).held(final(mem).spec_heap())
                    &&& final(mem).object_at(ptr.spec_raw()).contents(final(mem).spec_heap())
                        == cells_of(tagged_ptrs_of(data@))
                    &&& final(mem).object_at(ptr.spec_raw()).room() == data@.len()
                    &&& !final(mem).object_at(ptr.spec_raw()).lent()
                    &&& final(mem).object_at(ptr.spec_raw()).storage() matches Some(at)
                        && !old(mem).spec_heap().spec_storage().holds(at)
                },
                Err(e) => is_growth_failure(e),
            },
    ;
}

/// A container that keeps its items from one version to the next.
pub trait VersionedContainer<T>: Container<T> {

}

/// A container whose items never change.
pub trait ImmutableContainer<T>: Container<T> {

}

} // verus!
