//! An arena: a heap that is never collected, for values that are never
//! freed. Its objects have no header.

use vstd::prelude::*;
use crate::allocator::{
    object_bytes, object_of_bytes, object_size, AllocError, AllocHeader, AllocObject, ArraySize,
    Mark, SizeClass,
};
use crate::headers::TypeList;
use crate::heap::StickyImmixHeap;
use crate::rawptr::RawPtr;

verus! {

/// The header of an object of an arena: nothing at all. It takes no memory
/// and answers every question the same way.
pub struct ArenaHeader {}

impl AllocHeader for ArenaHeader {
    type TypeId = TypeList;

    open spec fn spec_new(type_id: TypeList, size: u32, size_class: SizeClass, mark: Mark)
        -> ArenaHeader {
        ArenaHeader {  }
    }

    fn new<O: AllocObject<TypeList>>(size: u32, size_class: SizeClass, mark: Mark) -> (header:
        ArenaHeader) {
        ArenaHeader {  }
    }

    open spec fn spec_new_array(size: ArraySize, size_class: SizeClass, mark: Mark)
        -> ArenaHeader {
        ArenaHeader {  }
    }

    fn new_array(size: ArraySize, size_class: SizeClass, mark: Mark) -> (header: ArenaHeader) {
        ArenaHeader {  }
    }

    open spec fn spec_mark(&self) -> ArenaHeader {
        ArenaHeader {  }
    }

    fn mark(&mut self) {
    }

    open spec fn spec_is_marked(&self) -> bool {
        true
    }

    fn is_marked(&self) -> (marked: bool) {
        true
    }

    open spec fn spec_size_class(&self) -> SizeClass {
        SizeClass::Small
    }

    fn size_class(&self) -> (size_class: SizeClass) {
        SizeClass::Small
    }

    open spec fn spec_size(&self) -> u32 {
        1
    }

    fn size(&self) -> (size: u32) {
        1
    }

    open spec fn spec_type_id(&self) -> TypeList {
        TypeList::Symbol
    }

    fn type_id(&self) -> (type_id: TypeList) {
        TypeList::Symbol
    }

    open spec fn spec_header_size() -> nat {
        0
    }

    fn header_size() -> (size: usize) {
        0
    }

    open spec fn spec_encode(&self) -> Seq<u8> {
        Seq::empty()
    }

    fn encode(&self) -> (bytes: Vec<u8>) {
        Vec::new()
    }

    open spec fn spec_decode(bytes: Seq<u8>) -> Option<ArenaHeader> {
        Some(ArenaHeader {  })
    }

    fn decode(bytes: &[u8]) -> (header: Option<ArenaHeader>) {
        Some(ArenaHeader {  })
    }

    proof fn lemma_decode_encode(&self) {
    }
}

/// A pool of blocks for values that are never freed.
pub struct Arena {
    heap: StickyImmixHeap<ArenaHeader>,
}

impl Arena {
    /// The heap that the arena keeps its values in.
    pub closed spec fn spec_heap(&self) -> StickyImmixHeap<ArenaHeader> {
        self.heap
    }

    /// The heap of the arena is well-formed.
    pub open spec fn wf(&self) -> bool {
        self.spec_heap().wf()
    }

    /// An arena without values.
    pub fn new() -> (arena: Arena)
        ensures
            arena.wf(),
            arena.spec_heap().spec_objects() == Map::<int, (ArenaHeader, nat)>::empty(),
    {
        Arena { heap: StickyImmixHeap::new() }
    }

    /// Places `object` in the arena and returns a pointer to it.
    pub fn allocate<T: AllocObject<TypeList>>(&mut self, object: T) -> (r: Result<
        RawPtr<T>,
        AllocError,
    >)
        requires
            old(self).wf(),
        ensures
            final(self).wf(),
            match r {
                Ok(ptr) => {
                    &&& old(self).spec_heap().alloc_outcome(object_size::<TypeList, T>()) == Ok::<
                        int,
                        AllocError,
                    >(ptr.spec_word() as int)
                    &&& final(self).spec_heap().holds_a(ptr)
                    &&& final(self).spec_heap().allocated(
                        old(self).spec_heap(),
                        ptr.spec_word() as int,
                        ArenaHeader {  },
                        object_bytes::<TypeList, T>(object),
                    )
                },
                Err(e) => {
                    &&& old(self).spec_heap().alloc_outcome(object_size::<TypeList, T>()) == Err::<
                        int,
                        AllocError,
                    >(e)
                    &&& final(self).spec_heap().unchanged(old(self).spec_heap())
                },
            },
    {
        self.heap.allocate(object)
    }

    /// Places an array of `size_bytes` zero bytes in the arena and returns a
    /// pointer to the first.
    pub fn alloc_array(&mut self, size_bytes: ArraySize) -> (r: Result<RawPtr<u8>, AllocError>)
        requires
            old(self).wf(),
        ensures
            final(self).wf(),
            match r {
                Ok(ptr) => {
                    &&& old(self).spec_heap().alloc_outcome(size_bytes as nat) == Ok::<
                        int,
                        AllocError,
                    >(ptr.spec_word() as int)
                    &&& final(self).spec_heap().allocated(
                        old(self).spec_heap(),
                        ptr.spec_word() as int,
                        ArenaHeader {  },
                        Seq::new(size_bytes as nat, |i: int| 0u8),
                    )
                },
                Err(e) => {
                    &&& old(self).spec_heap().alloc_outcome(size_bytes as nat) == Err::<
                        int,
                        AllocError,
                    >(e)
                    &&& final(self).spec_heap().unchanged(old(self).spec_heap())
                },
            },
    {
        self.heap.alloc_array(size_bytes)
    }

    /// Stores `bytes` at `offset` into the array that `ptr` points at.
    pub fn write_bytes(&mut self, ptr: RawPtr<u8>, offset: usize, bytes: &[u8])
        requires
            old(self).wf(),
            old(self).spec_heap().holds(ptr.spec_word() as int),
            offset + bytes@.len() <= old(self).spec_heap().spec_objects()[ptr.spec_word() as int].1,
        ensures
            final(self).wf(),
            final(self).spec_heap().spec_objects() == old(self).spec_heap().spec_objects(),
            final(self).spec_heap().spec_blocks().same_layout(old(self).spec_heap().spec_blocks()),
            final(self).spec_heap().payload(ptr.spec_word() as int) == old(self).spec_heap().payload(ptr.spec_word() as int).subrange(0, offset as int) + bytes@
                + old(self).spec_heap().payload(ptr.spec_word() as int).subrange(
                offset + bytes@.len(),
                old(self).spec_heap().spec_objects()[ptr.spec_word() as int].1 as int,
            ),
            forall|other: int|
                old(self).spec_heap().holds(other) && other != ptr.spec_word() ==> #[trigger] final(self).spec_heap().payload(other) == old(self).spec_heap().payload(other),
    {
        self.heap.write_object_bytes(ptr.as_word(), offset, bytes);
    }

    /// The object that `ptr` points at.
    pub fn get<T: AllocObject<TypeList>>(&self, ptr: RawPtr<T>) -> (object: T)
        requires
            self.wf(),
            self.spec_heap().holds_a(ptr),
        ensures
            object == object_of_bytes::<TypeList, T>(
                self.spec_heap().payload(ptr.spec_word() as int),
            ),
    {
        self.heap.get(ptr)
    }

    /// The `len` bytes at `offset` into the array that `ptr` points at.
    pub fn read_bytes(&self, ptr: RawPtr<u8>, offset: usize, len: usize) -> (bytes: Vec<u8>)
        requires
            self.wf(),
            self.spec_heap().holds(ptr.spec_word() as int),
            offset + len <= self.spec_heap().spec_objects()[ptr.spec_word() as int].1,
        ensures
            bytes@ == self.spec_heap().payload(ptr.spec_word() as int).subrange(
                offset as int,
                offset + len,
            ),
    {
        self.heap.read_object_bytes(ptr.as_word(), offset, len)
    }
}

} // verus!
