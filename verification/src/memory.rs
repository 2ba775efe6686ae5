//! The memory of the runtime: the heap of objects and the map of symbols,
//! and the view that a mutator has of them for the time that it runs.

use vstd::prelude::*;
use crate::allocator::{
    object_bytes, object_of_bytes, object_size, AllocError, AllocHeader, AllocObject, ArraySize,
};

use crate::error::{alloc_failure, kind_of_alloc_error, RuntimeError};

use crate::headers::{ObjectHeader, TypeList};
use crate::heap::StickyImmixHeap;

use crate::pair::Pair;
use crate::pointerops::{get_tag, spec_get_tag, spec_untag, Tagged, TAG_OBJECT};
use crate::rawptr::RawPtr;
use crate::safeptr::{MutatorScope, ScopedPtr, TaggedCellPtr, TaggedScopedPtr};
use crate::symbol::Symbol;
use crate::symbolmap::SymbolMap;
use crate::taggedptr::{
    addr_of_fat_ptr, fat_ptr_of_word, lemma_fat_ptr_round_trip, type_of_fat_ptr, type_size,
    word_of_fat_ptr, FatPtr, Managed, TaggedPtr,
};

verus! {

/// The heap of the runtime: objects behind object headers.
pub type HeapStorage = StickyImmixHeap<ObjectHeader>;

/// The objects and the symbols of the runtime.
pub struct Heap {
    heap: HeapStorage,
    syms: SymbolMap,
}

impl Heap {
    /// The heap of objects.
    pub closed spec fn spec_storage(&self) -> HeapStorage {
        self.heap
    }

    /// The map of symbols.
    pub closed spec fn spec_syms(&self) -> SymbolMap {
        self.syms
    }

    /// The heap of objects and the map of symbols are well-formed.
    pub open spec fn wf(&self) -> bool {
        &&& self.spec_storage().wf()
        &&& self.spec_syms().wf()
    }

    /// Whether the heap holds at `addr` an object of `size` bytes whose
    /// header names the type `type_id`.
    pub open spec fn holds_object(&self, addr: usize, type_id: TypeList, size: nat) -> bool {
        &&& self.spec_storage().holds(addr as int)
        &&& self.spec_storage().spec_objects()[addr as int].0.spec_type_id() == type_id
        &&& self.spec_storage().spec_objects()[addr as int].1 == size
    }

    /// Whether the heap holds at `ptr` an object of type `T`: an object
    /// whose header names the type `T` and whose size is that of `T`.
    pub open spec fn holds_a<T: AllocObject<TypeList>>(&self, ptr: RawPtr<T>) -> bool {
        self.holds_object(ptr.spec_word(), T::spec_type_id(), object_size::<TypeList, T>())
    }

    /// Whether `fat` points at something that the memory holds: nil and
    /// numbers always do; a pointer to a symbol does if the symbol map has
    /// made the symbol; any other pointer does if the heap holds an object
    /// of its type at its address.
    pub open spec fn holds_fat(&self, fat: FatPtr) -> bool {
        match (addr_of_fat_ptr(fat), type_of_fat_ptr(fat)) {
            (Some(addr), Some(type_id)) => if type_id == TypeList::Symbol {
                self.spec_syms().spec_name_of(addr) is Some
            } else {
                self.holds_object(addr, type_id, type_size(type_id))
            },
            _ => true,
        }
    }

    /// The type that the header names of the object that the word `word`
    /// points at.
    pub open spec fn type_at(&self, word: usize) -> TypeList {
        self.spec_storage().spec_objects()[spec_untag(word) as int].0.spec_type_id()
    }

    /// The pointer that `ptr` unpacks to, if it unpacks to one.
    pub open spec fn unpack(&self, ptr: TaggedPtr) -> Option<FatPtr> {
        fat_ptr_of_word(ptr.spec_word(), self.type_at(ptr.spec_word()))
    }

    /// Whether `ptr` is a pointer into this memory: it unpacks to a pointer
    /// at something that the memory holds.
    pub open spec fn valid(&self, ptr: TaggedPtr) -> bool {
        &&& self.unpack(ptr) matches Some(fat) && self.holds_fat(fat)
        &&& spec_get_tag(ptr.spec_word()) == TAG_OBJECT ==> self.spec_storage().holds(
            spec_untag(ptr.spec_word()) as int,
        )
    }

    /// Whether `ptr` is a pointer into this memory that carries the value
    /// that it unpacks to.
    pub open spec fn holds_scoped(&self, ptr: TaggedScopedPtr) -> bool {
        &&& self.valid(ptr.spec_ptr())
        &&& self.unpack(ptr.spec_ptr()) == Some(ptr.spec_value().spec_fat_ptr())
    }

    /// `self` holds whatever `before` holds: every object with its header
    /// and its size, and every symbol with its name.
    pub open spec fn extends(&self, before: Heap) -> bool {
        &&& forall|addr: int| #[trigger]
            before.spec_storage().holds(addr) ==> self.spec_storage().holds(addr)
                && self.spec_storage().spec_objects()[addr]
                == before.spec_storage().spec_objects()[addr]
        &&& self.spec_syms().extends(before.spec_syms())
    }

    /// `self` has grown from `before`: it holds whatever `before` holds,
    /// and every object of `before` has kept its bytes.
    pub open spec fn grown_from(&self, before: Heap) -> bool {
        &&& self.extends(before)
        &&& forall|other: int|
            before.spec_storage().holds(other) ==> #[trigger] self.spec_storage().payload(other)
                == before.spec_storage().payload(other)
    }

    /// Whether the memory holds nothing: no block, no object and no
    /// symbol.
    pub open spec fn is_empty(&self) -> bool {
        &&& self.spec_storage().spec_objects() == Map::<int, (ObjectHeader, nat)>::empty()
        &&& self.spec_storage().spec_blocks().spec_blocks().len() == 0
        &&& self.spec_syms().spec_names().len() == 0
    }

    /// A memory without objects and without symbols.
    pub fn new() -> (heap: Heap)
        ensures
            heap.wf(),
            heap.is_empty(),
    {
        Heap { heap: StickyImmixHeap::new(), syms: SymbolMap::new() }
    }

    /// The symbol that stands for `name`, as a tagged pointer.
    pub fn lookup_sym(&mut self, name: &str) -> (r: Result<TaggedPtr, RuntimeError>)
        requires
            old(self).wf(),
        ensures
            final(self).wf(),
            final(self).extends(*old(self)),
            final(self).grown_from(*old(self)),
            final(self).spec_storage() == old(self).spec_storage(),
            match r {
                Ok(ptr) => {
                    &&& final(self).spec_syms().spec_lookup(name@) is Some
                    &&& final(self).unpack(ptr) == Some(
                        FatPtr::Symbol(
                            RawPtr::spec_new(final(self).spec_syms().spec_lookup(name@)->0),
                        ),
                    )
                    &&& final(self).valid(ptr)
                    &&& old(self).spec_syms().spec_lookup(name@) is Some ==> final(self).spec_syms().spec_lookup(name@) == old(self).spec_syms().spec_lookup(name@)
                },
                Err(e) => {
                    &&& old(self).spec_syms().spec_lookup(name@) is None
                    &&& old(self).spec_syms().intern_outcome(name@) matches Err(error)
                        && e.spec_kind() == kind_of_alloc_error(error)
                    &&& e.spec_pos() is None
                },
            },
    {
        match self.syms.lookup(name) {
            Ok(symbol) => {
                proof {
                    let at = symbol.spec_word();
                    crate::symbolmap::lemma_name_of_symbol(self.syms, name@);
                    self.spec_syms().lemma_symbols_are_aligned(at);
                    crate::pointerops::lemma_tag_untag(at, crate::pointerops::TAG_SYMBOL);
                    symbol.lemma_is_spec_new();
                    RawPtr::<Symbol>::lemma_spec_new(at);
                    assert forall|addr: int| #[trigger]
                        old(self).spec_storage().holds(addr) implies self.spec_storage().holds(addr)
                        && self.spec_storage().spec_objects()[addr] == old(self).spec_storage().spec_objects()[addr] by {}
                }
                let ptr = TaggedPtr::symbol(symbol);
                proof {
                    let at = symbol.spec_word();
                    assert(self.spec_syms().spec_lookup(name@) == Some(at));
                    assert(ptr.spec_word() == at + 1);
                    assert(spec_untag(ptr.spec_word()) == at);
                    assert(spec_get_tag(ptr.spec_word()) == 1);
                    assert(self.unpack(ptr) == Some(FatPtr::Symbol(RawPtr::spec_new(at))));
                    assert(self.holds_fat(FatPtr::Symbol(RawPtr::spec_new(at))));
                    assert(self.valid(ptr));
                }
                Ok(ptr)
            },
            Err(e) => Err(alloc_failure(e)),
        }
    }

    /// Places `object` in the heap and returns a pointer to it.
    pub fn allocate<T: AllocObject<TypeList>>(&mut self, object: T) -> (r: Result<
        RawPtr<T>,
        RuntimeError,
    >)
        requires
            old(self).wf(),
        ensures
            final(self).wf(),
            final(self).extends(*old(self)),
            final(self).grown_from(*old(self)),
            final(self).spec_syms() == old(self).spec_syms(),
            match r {
                Ok(ptr) => {
                    &&& old(self).spec_storage().alloc_outcome(object_size::<TypeList, T>())
                        == Ok::<int, AllocError>(ptr.spec_word() as int)
                    &&& final(self).holds_object(
                        ptr.spec_word(),
                        T::spec_type_id(),
                        object_size::<TypeList, T>(),
                    )
                    &&& !old(self).spec_storage().holds(ptr.spec_word() as int)
                    &&& final(self).spec_storage().payload(ptr.spec_word() as int)
                        == object_bytes::<TypeList, T>(object)
                    &&& forall|other: int|
                        old(self).spec_storage().holds(other) ==> #[trigger] final(self).spec_storage().payload(other) == old(self).spec_storage().payload(other)
                },
                Err(e) => {
                    &&& old(self).spec_storage().alloc_outcome(object_size::<TypeList, T>())
                        matches Err(error) && e.spec_kind() == kind_of_alloc_error(error)
                    &&& e.spec_pos() is None
                    &&& final(self).spec_storage().unchanged(old(self).spec_storage())
                },
            },
    {
        let ghost before = self.heap;
        proof {
            crate::symbolmap::lemma_extends_itself(self.syms);
        }
        match self.heap.allocate(object) {
            Ok(ptr) => {
                proof {
                    let size = object_size::<TypeList, T>();
                    let size_class = crate::allocator::size_class_for(
                        HeapStorage::footprint(size),
                    )->Ok_0;
                    ObjectHeader::lemma_of(
                        crate::allocator::Mark::Allocated,
                        size_class,
                        T::spec_type_id(),
                        size as u32,
                    );
                    before.lemma_allocated_keeps_payloads(
                        self.heap,
                        ptr.spec_word() as int,
                        ObjectHeader::spec_new(
                            T::spec_type_id(),
                            size as u32,
                            size_class,
                            crate::allocator::Mark::Allocated,
                        ),
                        object_bytes::<TypeList, T>(object),
                    );
                }
                Ok(ptr)
            },
            Err(e) => {
                proof {
                    before.lemma_unchanged_keeps_payloads(self.heap);
                }
                Err(alloc_failure(e))
            },
        }
    }

    /// Places an array of `capacity` zero bytes in the heap and returns a
    /// pointer to the first.
    pub fn alloc_array(&mut self, capacity: ArraySize) -> (r: Result<RawPtr<u8>, RuntimeError>)
        requires
            old(self).wf(),
        ensures
            final(self).wf(),
            final(self).extends(*old(self)),
            final(self).grown_from(*old(self)),
            final(self).spec_syms() == old(self).spec_syms(),
            match r {
                Ok(ptr) => {
                    &&& old(self).spec_storage().alloc_outcome(capacity as nat) == Ok::<
                        int,
                        AllocError,
                    >(ptr.spec_word() as int)
                    &&& final(self).holds_object(
                        ptr.spec_word(),
                        TypeList::ArrayBackingBytes,
                        capacity as nat,
                    )
                    &&& !old(self).spec_storage().holds(ptr.spec_word() as int)
                    &&& final(self).spec_storage().payload(ptr.spec_word() as int) == Seq::new(
                        capacity as nat,
                        |i: int| 0u8,
                    )
                    &&& forall|other: int|
                        old(self).spec_storage().holds(other) ==> #[trigger] final(self).spec_storage().payload(other) == old(self).spec_storage().payload(other)
                },
                Err(e) => {
                    &&& old(self).spec_storage().alloc_outcome(capacity as nat) matches Err(error)
                        && e.spec_kind() == kind_of_alloc_error(error)
                    &&& e.spec_pos() is None
                    &&& final(self).spec_storage().unchanged(old(self).spec_storage())
                },
            },
    {
        let ghost before = self.heap;
        proof {
            crate::symbolmap::lemma_extends_itself(self.syms);
        }
        match self.heap.alloc_array(capacity) {
            Ok(ptr) => {
                proof {
                    let size_class = crate::allocator::size_class_for(
                        HeapStorage::footprint(capacity as nat),
                    )->Ok_0;
                    ObjectHeader::lemma_of(
                        crate::allocator::Mark::Allocated,
                        size_class,
                        TypeList::ArrayBackingBytes,
                        capacity,
                    );
                    before.lemma_allocated_keeps_payloads(
                        self.heap,
                        ptr.spec_word() as int,
                        ObjectHeader::spec_new_array(
                            capacity,
                            size_class,
                            crate::allocator::Mark::Allocated,
                        ),
                        Seq::new(capacity as nat, |i: int| 0u8),
                    );
                }
                Ok(ptr)
            },
            Err(e) => {
                proof {
                    before.lemma_unchanged_keeps_payloads(self.heap);
                }
                Err(alloc_failure(e))
            },
        }
    }

    /// Places `object` in the heap and returns a tagged pointer to it.
    pub fn alloc_tagged<T: Managed>(&mut self, object: T) -> (r: Result<TaggedPtr, RuntimeError>)
        requires
            old(self).wf(),
            T::spec_type_id() != TypeList::Symbol,
        ensures
            final(self).wf(),
            final(self).extends(*old(self)),
            final(self).grown_from(*old(self)),
            final(self).spec_syms() == old(self).spec_syms(),
            match r {
                Ok(ptr) => {
                    &&& final(self).valid(ptr)
                    &&& final(self).unpack(ptr) matches Some(fat) && type_of_fat_ptr(fat) == Some(
                        T::spec_type_id(),
                    ) && (addr_of_fat_ptr(fat) matches Some(addr) && {
                        &&& old(self).spec_storage().alloc_outcome(object_size::<TypeList, T>())
                            == Ok::<int, AllocError>(addr as int)
                        &&& !old(self).spec_storage().holds(addr as int)
                        &&& final(self).spec_storage().payload(addr as int) == object_bytes::<
                            TypeList,
                            T,
                        >(object)
                    })
                    &&& forall|other: int|
                        old(self).spec_storage().holds(other) ==> #[trigger] final(self).spec_storage().payload(other) == old(self).spec_storage().payload(other)
                },
                Err(e) => {
                    &&& old(self).spec_storage().alloc_outcome(object_size::<TypeList, T>())
                        matches Err(error) && e.spec_kind() == kind_of_alloc_error(error)
                    &&& e.spec_pos() is None
                    &&& final(self).spec_storage().unchanged(old(self).spec_storage())
                },
            },
    {
        let raw = self.allocate(object)?;
        let fat = T::fat_ptr(raw);
        let ptr = TaggedPtr::from(fat);
        proof {
            let addr = raw.spec_word();
            T::lemma_type_size();
            self.spec_storage().lemma_objects_are_aligned(addr as int);
            self.spec_storage().lemma_object_region(addr as int);
            self.spec_storage().spec_blocks().lemma_no_block_at_null(addr as int);
            lemma_fat_ptr_round_trip(fat);
            TaggedPtr::lemma_spec_of(word_of_fat_ptr(fat));
            self.lemma_word_of_fat_ptr(fat);
        }
        Ok(ptr)
    }

    /// The word of a pointer to an object at an aligned address has the
    /// address in its upper bits.
    pub proof fn lemma_word_of_fat_ptr(&self, fat: FatPtr)
        requires
            addr_of_fat_ptr(fat) matches Some(addr) && addr % 4 == 0,
        ensures
            spec_untag(word_of_fat_ptr(fat)) == addr_of_fat_ptr(fat)->0,
            type_of_fat_ptr(fat) == Some(TypeList::Pair) ==> spec_get_tag(word_of_fat_ptr(fat))
                == crate::pointerops::TAG_PAIR,
            type_of_fat_ptr(fat) == Some(TypeList::Symbol) ==> spec_get_tag(word_of_fat_ptr(fat))
                == crate::pointerops::TAG_SYMBOL,
            type_of_fat_ptr(fat) != Some(TypeList::Symbol) && type_of_fat_ptr(fat) != Some(
                TypeList::Pair,
            ) ==> spec_get_tag(word_of_fat_ptr(fat)) == TAG_OBJECT,
    {
        let addr = addr_of_fat_ptr(fat)->0;
        crate::pointerops::lemma_tag_untag(addr, TAG_OBJECT);
        crate::pointerops::lemma_tag_untag(addr, crate::pointerops::TAG_PAIR);
        crate::pointerops::lemma_tag_untag(addr, crate::pointerops::TAG_SYMBOL);
    }

    /// The pointer that `ptr` unpacks to. For a pointer with the object tag
    /// the type is read from the header of the object.
    pub fn fat_ptr_of(&self, ptr: TaggedPtr) -> (fat: FatPtr)
        requires
            self.wf(),
            self.valid(ptr),
        ensures
            Some(fat) == self.unpack(ptr),
            self.holds_fat(fat),
    {
        let word = ptr.as_word();
        if word != 0 && get_tag(word) == TAG_OBJECT {
            let raw: RawPtr<u8> = RawPtr::untag(word);
            let header = self.heap.header_of(raw.as_word());
            ptr.into_fat_ptr(header.type_id())
        } else {
            ptr.into_fat_ptr(TypeList::Pair)
        }
    }

    /// The object that `ptr` points at.
    pub fn get<T: AllocObject<TypeList>>(&self, ptr: RawPtr<T>) -> (object: T)
        requires
            self.wf(),
            self.spec_storage().holds_a(ptr),
        ensures
            object == object_of_bytes::<TypeList, T>(
                self.spec_storage().payload(ptr.spec_word() as int),
            ),
    {
        self.heap.get(ptr)
    }

    /// Overwrites the object that `ptr` points at with `object`.
    pub fn put<T: AllocObject<TypeList>>(&mut self, ptr: RawPtr<T>, object: &T)
        requires
            old(self).wf(),
            old(self).spec_storage().holds_a(ptr),
        ensures
            final(self).wf(),
            final(self).extends(*old(self)),
            final(self).spec_syms() == old(self).spec_syms(),
            final(self).spec_storage().spec_objects() == old(self).spec_storage().spec_objects(),
            final(self).spec_storage().payload(ptr.spec_word() as int) == object_bytes::<
                TypeList,
                T,
            >(*object),
            forall|other: int|
                old(self).spec_storage().holds(other) && other != ptr.spec_word()
                    ==> #[trigger] final(self).spec_storage().payload(other) == old(self).spec_storage().payload(other),
    {
        proof {
            crate::symbolmap::lemma_extends_itself(self.syms);
        }
        self.heap.put(ptr, object);
    }
}

/// A memory extends itself.
pub proof fn lemma_extends_itself(heap: Heap)
    ensures
        heap.extends(heap),
{
    crate::symbolmap::lemma_extends_itself(heap.spec_syms());
}

/// A memory that extends one that extends a third extends the third.
pub proof fn lemma_extends_chain(first: Heap, second: Heap, third: Heap)
    requires
        second.extends(first),
        third.extends(second),
    ensures
        third.extends(first),
{
    crate::symbolmap::lemma_extends_chain(
        first.spec_syms(),
        second.spec_syms(),
        third.spec_syms(),
    );
    assert forall|addr: int| #[trigger] first.spec_storage().holds(addr) implies third.spec_storage().holds(
        addr,
    ) && third.spec_storage().spec_objects()[addr] == first.spec_storage().spec_objects()[addr] by {
        assert(second.spec_storage().holds(addr));
    }
}

/// A memory has grown from itself.
pub proof fn lemma_grown_from_itself(heap: Heap)
    ensures
        heap.grown_from(heap),
{
    lemma_extends_itself(heap);
}

/// A memory that has grown from one that has grown from a third has grown
/// from the third.
pub proof fn lemma_grown_chain(first: Heap, second: Heap, third: Heap)
    requires
        second.grown_from(first),
        third.grown_from(second),
    ensures
        third.grown_from(first),
{
    crate::symbolmap::lemma_extends_chain(
        first.spec_syms(),
        second.spec_syms(),
        third.spec_syms(),
    );
    assert forall|addr: int| #[trigger] first.spec_storage().holds(addr) implies third.spec_storage().holds(
        addr,
    ) && third.spec_storage().spec_objects()[addr] == first.spec_storage().spec_objects()[addr] by {
        assert(second.spec_storage().holds(addr));
    }
    assert forall|other: int| first.spec_storage().holds(other) implies #[trigger] third.spec_storage().payload(
        other,
    ) == first.spec_storage().payload(other) by {
        assert(second.spec_storage().holds(other));
    }
}

/// A pointer into a memory is a pointer into every memory that extends it,
/// and unpacks to the same pointer there.
pub proof fn lemma_extends_keeps_valid(before: Heap, after: Heap, ptr: TaggedPtr)
    requires
        before.wf(),
        after.wf(),
        after.extends(before),
        before.valid(ptr),
    ensures
        after.valid(ptr),
        after.unpack(ptr) == before.unpack(ptr),
{
    let word = ptr.spec_word();
    let fat = before.unpack(ptr)->0;
    if word != 0 && spec_get_tag(word) == TAG_OBJECT {
        assert(before.spec_storage().holds(spec_untag(word) as int));
    }
    match (addr_of_fat_ptr(fat), type_of_fat_ptr(fat)) {
        (Some(addr), Some(type_id)) => {
            if type_id == TypeList::Symbol {
                crate::symbolmap::lemma_name_is_stable(before.spec_syms(), after.spec_syms(), addr);
            } else {
                assert(before.spec_storage().holds(addr as int));
            }
        },
        _ => {},
    }
}

/// The witness of a mutator scope: it lives as long as one run of a
/// mutator, and so bounds the life of every pointer that is bound to it.
pub struct ScopeGuard {}

impl MutatorScope for ScopeGuard {

}

/// The view that a mutator has of the memory while it runs. Pointers made
/// through the view are bound to the scope `'memory` of the run.
pub struct MutatorView<'memory> {
    heap: Heap,
    guard: &'memory ScopeGuard,
}

impl<'memory> MutatorScope for MutatorView<'memory> {

}

impl<'memory> MutatorView<'memory> {
    /// The memory that the view shows.
    pub closed spec fn spec_heap(&self) -> Heap {
        self.heap
    }

    /// The memory is well-formed. This holds of every view.
    #[verifier::type_invariant]
    pub open spec fn wf(&self) -> bool {
        self.spec_heap().wf()
    }

    /// Whether `ptr` is a pointer into this memory that carries the value
    /// that it unpacks to.
    pub open spec fn holds(&self, ptr: TaggedScopedPtr) -> bool {
        self.spec_heap().holds_scoped(ptr)
    }

    /// Whether `ptr` points at an object of type `T` in the heap.
    pub open spec fn holds_a<T: AllocObject<TypeList>>(&self, ptr: ScopedPtr<T>) -> bool {
        self.spec_heap().holds_a(ptr.spec_raw())
    }

    /// The object of type `T` that `ptr` points at.
    pub open spec fn object_at<T: AllocObject<TypeList>>(&self, ptr: RawPtr<T>) -> T {
        object_of_bytes::<TypeList, T>(
            self.spec_heap().spec_storage().payload(ptr.spec_word() as int),
        )
    }

    /// This view shows whatever `before` shows.
    pub open spec fn extends(&self, before: MutatorView) -> bool {
        self.spec_heap().extends(before.spec_heap())
    }

    /// A view of `heap` for the scope of `guard`.
    pub fn new(heap: Heap, guard: &'memory ScopeGuard) -> (view: MutatorView<'memory>)
        requires
            heap.wf(),
        ensures
            view.spec_heap() == heap,
    {
        MutatorView { heap, guard }
    }

    /// Gives up the view and returns the memory.
    pub fn into_heap(self) -> (heap: Heap)
        ensures
            heap == self.spec_heap(),
            heap.wf(),
    {
        proof {
            use_type_invariant(&self);
        }
        self.heap
    }

    /// The witness of the scope.
    pub fn guard(&self) -> (guard: &'memory ScopeGuard) {
        self.guard
    }

    /// The symbol that stands for `name`.
    pub fn lookup_sym(&mut self, name: &str) -> (r: Result<TaggedScopedPtr<'memory>, RuntimeError>)
        ensures
            final(self).extends(*old(self)),
            final(self).spec_heap().grown_from(old(self).spec_heap()),
            final(self).spec_heap().spec_storage() == old(self).spec_heap().spec_storage(),
            match r {
                Ok(ptr) => {
                    &&& final(self).holds(ptr)
                    &&& final(self).spec_heap().spec_syms().spec_lookup(name@) is Some
                    &&& ptr.spec_value().spec_fat_ptr() == FatPtr::Symbol(
                        RawPtr::spec_new(
                            final(self).spec_heap().spec_syms().spec_lookup(name@)->0,
                        ),
                    )
                    &&& old(self).spec_heap().spec_syms().spec_lookup(name@) is Some
                        ==> final(self).spec_heap().spec_syms().spec_lookup(name@) == old(self).spec_heap().spec_syms().spec_lookup(name@)
                },
                Err(e) => {
                    &&& old(self).spec_heap().spec_syms().spec_lookup(name@) is None
                    &&& old(self).spec_heap().spec_syms().intern_outcome(name@) matches Err(error)
                        && e.spec_kind() == kind_of_alloc_error(error)
                    &&& e.spec_pos() is None
                },
            },
    {
        proof {
            use_type_invariant(&*self);
        }
        let mut heap = Heap::new();
        std::mem::swap(&mut self.heap, &mut heap);
        let r = heap.lookup_sym(name);
        std::mem::swap(&mut self.heap, &mut heap);
        match r {
            Ok(ptr) => Ok(TaggedScopedPtr::new(self, ptr)),
            Err(e) => Err(e),
        }
    }

    /// Places `object` in the heap and returns a pointer to it.
    pub fn allocate<T: AllocObject<TypeList>>(&mut self, object: T) -> (r: Result<
        ScopedPtr<'memory, T>,
        RuntimeError,
    >)
        ensures
            final(self).extends(*old(self)),
            final(self).spec_heap().grown_from(old(self).spec_heap()),
            final(self).spec_heap().spec_syms() == old(self).spec_heap().spec_syms(),
            match r {
                Ok(ptr) => {
                    &&& old(self).spec_heap().spec_storage().alloc_outcome(
                        object_size::<TypeList, T>(),
                    ) == Ok::<int, AllocError>(ptr.spec_raw().spec_word() as int)
                    &&& final(self).spec_heap().holds_object(
                        ptr.spec_raw().spec_word(),
                        T::spec_type_id(),
                        object_size::<TypeList, T>(),
                    )
                    &&& !old(self).spec_heap().spec_storage().holds(
                        ptr.spec_raw().spec_word() as int,
                    )
                    &&& final(self).spec_heap().spec_storage().payload(
                        ptr.spec_raw().spec_word() as int,
                    ) == object_bytes::<TypeList, T>(object)
                    &&& forall|other: int|
                        old(self).spec_heap().spec_storage().holds(other) ==> #[trigger] final(self).spec_heap().spec_storage().payload(other) == old(self).spec_heap().spec_storage().payload(other)
                },
                Err(e) => {
                    &&& old(self).spec_heap().spec_storage().alloc_outcome(
                        object_size::<TypeList, T>(),
                    ) matches Err(error) && e.spec_kind() == kind_of_alloc_error(error)
                    &&& e.spec_pos() is None
                    &&& final(self).spec_heap().spec_storage().unchanged(
                        old(self).spec_heap().spec_storage(),
                    )
                },
            },
    {
        proof {
            use_type_invariant(&*self);
        }
        let mut heap = Heap::new();
        std::mem::swap(&mut self.heap, &mut heap);
        let r = heap.allocate(object);
        std::mem::swap(&mut self.heap, &mut heap);
        match r {
            Ok(raw) => Ok(ScopedPtr::new(self.guard, raw)),
            Err(e) => Err(e),
        }
    }

    /// Places `object` in the heap and returns a tagged pointer to it.
    pub fn alloc_tagged<T: Managed>(&mut self, object: T) -> (r: Result<
        TaggedScopedPtr<'memory>,
        RuntimeError,
    >)
        requires
            T::spec_type_id() != TypeList::Symbol,
        ensures
            final(self).extends(*old(self)),
            final(self).spec_heap().grown_from(old(self).spec_heap()),
            final(self).spec_heap().spec_syms() == old(self).spec_heap().spec_syms(),
            match r {
                Ok(ptr) => {
                    let fat = ptr.spec_value().spec_fat_ptr();
                    &&& final(self).holds(ptr)
                    &&& type_of_fat_ptr(fat) == Some(T::spec_type_id())
                    &&& addr_of_fat_ptr(fat) matches Some(addr) && {
                        &&& old(self).spec_heap().spec_storage().alloc_outcome(
                            object_size::<TypeList, T>(),
                        ) == Ok::<int, AllocError>(addr as int)
                        &&& !old(self).spec_heap().spec_storage().holds(addr as int)
                        &&& final(self).spec_heap().spec_storage().payload(addr as int)
                            == object_bytes::<TypeList, T>(object)
                    }
                    &&& forall|other: int|
                        old(self).spec_heap().spec_storage().holds(other) ==> #[trigger] final(self).spec_heap().spec_storage().payload(other) == old(self).spec_heap().spec_storage().payload(other)
                },
                Err(e) => {
                    &&& old(self).spec_heap().spec_storage().alloc_outcome(
                        object_size::<TypeList, T>(),
                    ) matches Err(error) && e.spec_kind() == kind_of_alloc_error(error)
                    &&& e.spec_pos() is None
                    &&& final(self).spec_heap().spec_storage().unchanged(
                        old(self).spec_heap().spec_storage(),
                    )
                },
            },
    {
        proof {
            use_type_invariant(&*self);
        }
        let mut heap = Heap::new();
        std::mem::swap(&mut self.heap, &mut heap);
        let r = heap.alloc_tagged(object);
        std::mem::swap(&mut self.heap, &mut heap);
        match r {
            Ok(ptr) => Ok(TaggedScopedPtr::new(self, ptr)),
            Err(e) => Err(e),
        }
    }

    /// Places an array of `capacity` zero bytes in the heap and returns a
    /// pointer to the first.
    pub fn alloc_array(&mut self, capacity: ArraySize) -> (r: Result<RawPtr<u8>, RuntimeError>)
        ensures
            final(self).extends(*old(self)),
            final(self).spec_heap().grown_from(old(self).spec_heap()),
            final(self).spec_heap().spec_syms() == old(self).spec_heap().spec_syms(),
            match r {
                Ok(ptr) => {
                    &&& old(self).spec_heap().spec_storage().alloc_outcome(capacity as nat) == Ok::<
                        int,
                        AllocError,
                    >(ptr.spec_word() as int)
                    &&& final(self).spec_heap().holds_object(
                        ptr.spec_word(),
                        TypeList::ArrayBackingBytes,
                        capacity as nat,
                    )
                    &&& !old(self).spec_heap().spec_storage().holds(ptr.spec_word() as int)
                    &&& final(self).spec_heap().spec_storage().payload(ptr.spec_word() as int)
                        == Seq::new(capacity as nat, |i: int| 0u8)
                    &&& forall|other: int|
                        old(self).spec_heap().spec_storage().holds(other) ==> #[trigger] final(self).spec_heap().spec_storage().payload(other) == old(self).spec_heap().spec_storage().payload(other)
                },
                Err(e) => {
                    &&& old(self).spec_heap().spec_storage().alloc_outcome(capacity as nat)
                        matches Err(error) && e.spec_kind() == kind_of_alloc_error(error)
                    &&& e.spec_pos() is None
                    &&& final(self).spec_heap().spec_storage().unchanged(
                        old(self).spec_heap().spec_storage(),
                    )
                },
            },
    {
        proof {
            use_type_invariant(&*self);
        }
        let mut heap = Heap::new();
        std::mem::swap(&mut self.heap, &mut heap);
        let r = heap.alloc_array(capacity);
        std::mem::swap(&mut self.heap, &mut heap);
        r
    }

    /// The nil pointer.
    pub fn nil(&self) -> (ptr: TaggedScopedPtr<'memory>)
        ensures
            self.holds(ptr),
            ptr.spec_ptr().spec_word() == 0,
            ptr.spec_value().spec_fat_ptr() == FatPtr::Nil,
    {
        TaggedScopedPtr::from_fat_ptr(self.guard, TaggedPtr::nil(), FatPtr::Nil)
    }

    /// The object that `ptr` points at.
    pub fn get<T: AllocObject<TypeList>>(&self, ptr: ScopedPtr<'memory, T>) -> (object: T)
        requires
            self.holds_a(ptr),
        ensures
            object == self.object_at(ptr.spec_raw()),
    {
        proof {
            use_type_invariant(self);
        }
        self.heap.get(ptr.as_raw())
    }

    /// Overwrites the object that `ptr` points at with `object`.
    pub fn put<T: AllocObject<TypeList>>(&mut self, ptr: ScopedPtr<'memory, T>, object: &T)
        requires
            old(self).holds_a(ptr),
        ensures
            final(self).extends(*old(self)),
            final(self).spec_heap().spec_syms() == old(self).spec_heap().spec_syms(),
            final(self).spec_heap().spec_storage().spec_objects() == old(self).spec_heap().spec_storage().spec_objects(),
            final(self).object_at(ptr.spec_raw()) == *object,
            forall|other: int|
                old(self).spec_heap().spec_storage().holds(other) && other
                    != ptr.spec_raw().spec_word() ==> #[trigger] final(self).spec_heap().spec_storage().payload(other) == old(self).spec_heap().spec_storage().payload(other),
    {
        proof {
            use_type_invariant(&*self);
            crate::allocator::lemma_object_bytes_round_trip::<TypeList, T>(*object);
        }
        let mut heap = Heap::new();
        std::mem::swap(&mut self.heap, &mut heap);
        heap.put(ptr.as_raw(), object);
        std::mem::swap(&mut self.heap, &mut heap);
    }

    /// The `len` bytes at `offset` into the array that `ptr` points at.
    pub fn read_array(&self, ptr: RawPtr<u8>, offset: usize, len: usize) -> (bytes: Vec<u8>)
        requires
            self.spec_heap().spec_storage().holds(ptr.spec_word() as int),
            offset + len <= self.spec_heap().spec_storage().spec_objects()[ptr.spec_word() as int].1,
        ensures
            bytes@ == self.spec_heap().spec_storage().payload(ptr.spec_word() as int).subrange(
                offset as int,
                offset + len,
            ),
    {
        proof {
            use_type_invariant(self);
        }
        self.heap.read_array(ptr, offset, len)
    }

    /// Stores `bytes` at `offset` into the array that `ptr` points at.
    pub fn write_array(&mut self, ptr: RawPtr<u8>, offset: usize, bytes: &[u8])
        requires
            old(self).spec_heap().spec_storage().holds(ptr.spec_word() as int),
            offset + bytes@.len() <= old(self).spec_heap().spec_storage().spec_objects()[ptr.spec_word() as int].1,
        ensures
            final(self).extends(*old(self)),
            final(self).spec_heap().spec_syms() == old(self).spec_heap().spec_syms(),
            final(self).spec_heap().spec_storage().spec_objects() == old(self).spec_heap().spec_storage().spec_objects(),
            final(self).spec_heap().spec_storage().payload(ptr.spec_word() as int) == old(self).spec_heap().spec_storage().payload(ptr.spec_word() as int).subrange(0, offset as int)
                + bytes@ + old(self).spec_heap().spec_storage().payload(
                ptr.spec_word() as int,
            ).subrange(
                offset + bytes@.len(),
                old(self).spec_heap().spec_storage().spec_objects()[ptr.spec_word() as int].1 as int,
            ),
            forall|other: int|
                old(self).spec_heap().spec_storage().holds(other) && other != ptr.spec_word()
                    ==> #[trigger] final(self).spec_heap().spec_storage().payload(other) == old(self).spec_heap().spec_storage().payload(other),
    {
        proof {
            use_type_invariant(&*self);
        }
        let mut heap = Heap::new();
        std::mem::swap(&mut self.heap, &mut heap);
        heap.write_array(ptr, offset, bytes);
        std::mem::swap(&mut self.heap, &mut heap);
    }

    /// The name of the symbol that `ptr` points at.
    pub fn symbol_name(&self, ptr: ScopedPtr<'memory, Symbol>) -> (name: String)
        requires
            self.spec_heap().spec_syms().spec_name_of(ptr.spec_raw().spec_word()) is Some,
        ensures
            Some(name@) == self.spec_heap().spec_syms().spec_name_of(ptr.spec_raw().spec_word()),
    {
        proof {
            use_type_invariant(self);
        }
        self.heap.symbol_name(ptr.as_raw())
    }
}

impl Heap {
    /// The `len` bytes at `offset` into the array that `ptr` points at.
    pub fn read_array(&self, ptr: RawPtr<u8>, offset: usize, len: usize) -> (bytes: Vec<u8>)
        requires
            self.wf(),
            self.spec_storage().holds(ptr.spec_word() as int),
            offset + len <= self.spec_storage().spec_objects()[ptr.spec_word() as int].1,
        ensures
            bytes@ == self.spec_storage().payload(ptr.spec_word() as int).subrange(
                offset as int,
                offset + len,
            ),
    {
        self.heap.read_object_bytes(ptr.as_word(), offset, len)
    }

    /// Stores `bytes` at `offset` into the array that `ptr` points at.
    pub fn write_array(&mut self, ptr: RawPtr<u8>, offset: usize, bytes: &[u8])
        requires
            old(self).wf(),
            old(self).spec_storage().holds(ptr.spec_word() as int),
            offset + bytes@.len() <= old(self).spec_storage().spec_objects()[ptr.spec_word() as int].1,
        ensures
            final(self).wf(),
            final(self).extends(*old(self)),
            final(self).spec_syms() == old(self).spec_syms(),
            final(self).spec_storage().spec_objects() == old(self).spec_storage().spec_objects(),
            final(self).spec_storage().payload(ptr.spec_word() as int) == old(self).spec_storage().payload(ptr.spec_word() as int).subrange(0, offset as int) + bytes@
                + old(self).spec_storage().payload(ptr.spec_word() as int).subrange(
                offset + bytes@.len(),
                old(self).spec_storage().spec_objects()[ptr.spec_word() as int].1 as int,
            ),
            forall|other: int|
                old(self).spec_storage().holds(other) && other != ptr.spec_word()
                    ==> #[trigger] final(self).spec_storage().payload(other) == old(self).spec_storage().payload(other),
    {
        proof {
            crate::symbolmap::lemma_extends_itself(self.syms);
        }
        self.heap.write_object_bytes(ptr.as_word(), offset, bytes);
    }

    /// The name of the symbol that `ptr` points at.
    pub fn symbol_name(&self, ptr: RawPtr<Symbol>) -> (name: String)
        requires
            self.wf(),
            self.spec_syms().spec_name_of(ptr.spec_word()) is Some,
        ensures
            Some(name@) == self.spec_syms().spec_name_of(ptr.spec_word()),
    {
        self.syms.name_of(ptr)
    }
}

impl<'guard> TaggedScopedPtr<'guard> {
    /// Binds a tagged pointer into the memory of `mem` to the scope of
    /// `mem`, and unpacks it.
    pub fn new(mem: &MutatorView<'guard>, ptr: TaggedPtr) -> (scoped: TaggedScopedPtr<'guard>)
        requires
            mem.spec_heap().valid(ptr),
        ensures
            mem.holds(scoped),
            scoped.spec_ptr() == ptr,
    {
        proof {
            use_type_invariant(mem);
        }
        let fat = mem.heap.fat_ptr_of(ptr);
        TaggedScopedPtr::from_fat_ptr(mem.guard, ptr, fat)
    }
}

impl TaggedCellPtr {
    /// The pointer held, bound to the scope of `mem` and unpacked.
    pub fn get<'guard>(&self, mem: &MutatorView<'guard>) -> (ptr: TaggedScopedPtr<'guard>)
        requires
            mem.spec_heap().valid(self.spec_ptr()),
        ensures
            mem.holds(ptr),
            ptr.spec_ptr() == self.spec_ptr(),
    {
        TaggedScopedPtr::new(mem, self.get_ptr())
    }
}

impl<'guard, T: Managed> ScopedPtr<'guard, T> {
    /// The same pointer with the type of what it points at in its tag.
    pub fn as_tagged(&self, guard: &'guard dyn MutatorScope) -> (ptr: TaggedScopedPtr<'guard>)
        ensures
            ptr.spec_value().spec_fat_ptr() == T::spec_fat_ptr(self.spec_raw()),
            ptr.spec_ptr().spec_word() == word_of_fat_ptr(T::spec_fat_ptr(self.spec_raw())),
    {
        let fat = T::fat_ptr(self.as_raw());
        let ptr = TaggedPtr::from(fat);
        proof {
            TaggedPtr::lemma_spec_of(word_of_fat_ptr(fat));
        }
        TaggedScopedPtr::from_fat_ptr(guard, ptr, fat)
    }
}

/// The memory of the runtime. A mutator gets at it through `mutate` alone.
pub struct Memory {
    heap: Heap,
}

/// A computation on the memory.
pub trait Mutator: Sized {
    type Input;

    type Output;

    /// What a run of the computation does: whether a run on the memory
    /// `before` with `input` may leave the memory as `after` and return
    /// `r`. Each computation says this of itself; one that says nothing
    /// may do anything.
    open spec fn outcome(
        &self,
        before: Heap,
        input: Self::Input,
        after: Heap,
        r: Result<Self::Output, RuntimeError>,
    ) -> bool {
        true
    }

    /// Runs the computation on the memory that `mem` shows. Pointers made
    /// through `mem` cannot be part of the output: they are bound to the
    /// scope of this run.
    fn run(&self, mem: &mut MutatorView, input: Self::Input) -> (r: Result<
        Self::Output,
        RuntimeError,
    >)
        ensures
            self.outcome(old(mem).spec_heap(), input, final(mem).spec_heap(), r),
    ;
}

impl Memory {
    /// The memory.
    pub closed spec fn spec_heap(&self) -> Heap {
        self.heap
    }

    /// The memory is well-formed. This holds of every memory.
    #[verifier::type_invariant]
    pub open spec fn wf(&self) -> bool {
        self.spec_heap().wf()
    }

    /// A memory without objects and without symbols.
    pub fn new() -> (memory: Memory)
        ensures
            memory.spec_heap().is_empty(),
    {
        Memory { heap: Heap::new() }
    }

    /// Runs the mutator `m` on the memory, in a scope of its own, and
    /// returns what the mutator returns. The run begins on the memory as
    /// it is, and the memory is left as the run leaves it.
    pub fn mutate<M: Mutator>(&mut self, m: &M, input: M::Input) -> (r: Result<
        M::Output,
        RuntimeError,
    >)
        ensures
            m.outcome(old(self).spec_heap(), input, final(self).spec_heap(), r),
    {
        proof {
            use_type_invariant(&*self);
        }
        let guard = ScopeGuard {  };
        let mut heap = Heap::new();
        std::mem::swap(&mut self.heap, &mut heap);
        let mut view = MutatorView::new(heap, &guard);
        let r = m.run(&mut view, input);
        let mut heap = view.into_heap();
        std::mem::swap(&mut self.heap, &mut heap);
        r
    }
}

} // verus!
