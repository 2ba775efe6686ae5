//! The heap: a growing list of blocks, the routing of an allocation to one
//! of them by its size class, and the objects placed so far.

use vstd::prelude::*;
use std::marker::PhantomData;
use crate::allocator::{
    alloc_size_of, object_bytes, object_of_bytes, object_size, size_class_for,
    spec_alloc_size_of, AllocError, AllocHeader, AllocObject, ArraySize, Mark, SizeClass,
};
use crate::layout::{decode_words, encode_words};
use crate::rawptr::RawPtr;
use crate::bumpblock::{
    align_down, bump_alloc, lemma_block_size_is_valid, lemma_bump_alloc_in_hole, BumpBlock,
};
use crate::constants::{ALLOC_ALIGN_BYTES, BLOCK_CAPACITY, BLOCK_PTR_MASK, BLOCK_SIZE};

verus! {

/// Where a block places `alloc_size` bytes: the address of the space and the
/// limit that the block has afterwards, or nothing if it has no room.
pub open spec fn block_places(block: BumpBlock, alloc_size: int) -> Option<(int, int)> {
    bump_alloc(
        block.spec_cursor(),
        block.spec_limit(),
        block.spec_base(),
        block.spec_marks(),
        alloc_size,
    )
}

/// The address of the space that a block with room gives to `alloc_size`
/// bytes.
pub open spec fn space_in(block: BumpBlock, alloc_size: int) -> int {
    match block_places(block, alloc_size) {
        Some((space, limit)) => space,
        None => 0,
    }
}

/// `after` is `before` once it has handed out `alloc_size` bytes at `space`,
/// whatever has been stored in the block since.
pub open spec fn block_placed(before: BumpBlock, after: BumpBlock, alloc_size: int, space: int)
    -> bool {
    &&& after.wf()
    &&& after.spec_base() == before.spec_base()
    &&& after.spec_marks() == before.spec_marks()
    &&& after.spec_cursor() == space
    &&& block_places(before, alloc_size) == Some((space, after.spec_limit()))
}

/// Two states of a block with the same base, cursor, limit and marks.
pub open spec fn same_block_layout(a: BumpBlock, b: BumpBlock) -> bool {
    &&& a.spec_base() == b.spec_base()
    &&& a.spec_cursor() == b.spec_cursor()
    &&& a.spec_limit() == b.spec_limit()
    &&& a.spec_marks() == b.spec_marks()
}

/// The index of the block that covers address `addr`.
pub open spec fn block_index_of(addr: int) -> int {
    addr / (BLOCK_SIZE as int) - 1
}

/// An address is the base of the block that covers it plus its offset into
/// that block.
pub proof fn lemma_block_address(addr: int)
    ensures
        addr == base_of_block(block_index_of(addr)) + addr % (BLOCK_SIZE as int),
        0 <= addr % (BLOCK_SIZE as int) < BLOCK_SIZE,
{
}

/// A list that has the layout of one in which space was placed is itself
/// one in which that space was placed.
pub proof fn lemma_layout_keeps_placed(
    after: BlockList,
    found: BlockList,
    before: BlockList,
    alloc_size: int,
    size_class: SizeClass,
    space: int,
)
    requires
        found.placed(before, alloc_size, size_class, space),
        after.same_layout(found),
        after.wf(),
    ensures
        after.placed(before, alloc_size, size_class, space),
{
    assert forall|i: int| 0 <= i < after.spec_blocks().len() implies same_block_layout(
        #[trigger] after.spec_blocks()[i],
        found.spec_blocks()[i],
    ) by {}
}

/// Bytes that the heap held before it grew are the same afterwards.
pub proof fn lemma_bytes_kept(after: BlockList, before: BlockList, addr: int, len: nat)
    requires
        after.memory_kept(before),
        before.range_mapped(addr, len as int),
    ensures
        after.range_mapped(addr, len as int),
        after.bytes_at(addr, len) == before.bytes_at(addr, len),
{
    assert forall|a: int| addr <= a < addr + len implies after.mapped(a) && after.byte_at(a)
        == before.byte_at(a) by {
        assert(before.mapped(a));
    }
    assert(after.bytes_at(addr, len) =~= before.bytes_at(addr, len));
}

/// Bytes outside the range of a write are the same after it.
pub proof fn lemma_bytes_beside_write(
    after: BlockList,
    before: BlockList,
    written: int,
    written_len: int,
    addr: int,
    len: nat,
)
    requires
        forall|other: int|
            !(written <= other < written + written_len) && before.mapped(other) ==> (
            #[trigger] after.byte_at(other)) == before.byte_at(other),
        before.range_mapped(addr, len as int),
        addr + len <= written || written + written_len <= addr,
    ensures
        after.bytes_at(addr, len) == before.bytes_at(addr, len),
{
    assert forall|a: int| addr <= a < addr + len implies after.byte_at(a) == before.byte_at(
        a,
    ) by {
        assert(before.mapped(a));
    }
    assert(after.bytes_at(addr, len) =~= before.bytes_at(addr, len));
}

/// An address within the block at index `index` is covered by that block, at
/// the offset that it has from the base of the block.
pub proof fn lemma_block_offset(index: int, addr: int)
    requires
        base_of_block(index) <= addr < base_of_block(index) + BLOCK_SIZE,
    ensures
        block_index_of(addr) == index,
        addr % (BLOCK_SIZE as int) == addr - base_of_block(index),
{
}

/// The base address of the block that is made when `count` blocks exist.
pub open spec fn base_of_block(count: int) -> int {
    (count + 1) * BLOCK_SIZE
}

/// The block that an allocation is routed to.
#[derive(Copy, Clone, Debug, PartialEq, Eq, Structural)]
pub enum Route {
    /// The head block has room.
    Head,
    /// There is no head block, or the head has no room: a new block becomes
    /// the head, and the old head, if any, is retired.
    NewHead,
    /// A medium object that does not fit the head's current hole goes to the
    /// overflow block, which has room.
    Overflow,
    /// There is no overflow block, or it has no room: a new block becomes
    /// the overflow block, and the old one, if any, is retired.
    NewOverflow,
}

/// The blocks of a heap. Every block made stays in `blocks`, in the order of
/// its making, which is the order of the base addresses. Two of them are
/// active: the head, which small objects go to and medium objects that fit
/// its current hole, and the overflow block for the other medium objects. All
/// the others are the rest: retired blocks, kept for a later collection.
pub struct BlockList {
    blocks: Vec<BumpBlock>,
    head: Option<usize>,
    overflow: Option<usize>,
}

impl BlockList {
    /// Every block, in the order of the base addresses.
    pub closed spec fn spec_blocks(&self) -> Seq<BumpBlock> {
        self.blocks@
    }

    /// The index of the head block.
    pub closed spec fn spec_head(&self) -> Option<int> {
        match self.head {
            Some(h) => Some(h as int),
            None => None,
        }
    }

    /// The index of the overflow block.
    pub closed spec fn spec_overflow(&self) -> Option<int> {
        match self.overflow {
            Some(o) => Some(o as int),
            None => None,
        }
    }

    /// Block `i` is well-formed and lies at `base_of_block(i)`; the head and
    /// the overflow block are two different blocks of the list; and the
    /// blocks fit into the address space.
    pub open spec fn wf(&self) -> bool {
        let blocks = self.spec_blocks();
        &&& forall|i: int|
            0 <= i < blocks.len() ==> (#[trigger] blocks[i]).wf() && blocks[i].spec_base()
                == base_of_block(i)
        &&& base_of_block(blocks.len() as int) <= usize::MAX
        &&& self.spec_head() matches Some(h) ==> 0 <= h < blocks.len()
        &&& self.spec_overflow() matches Some(o) ==> 0 <= o < blocks.len()
        &&& self.spec_head() is Some ==> self.spec_head() != self.spec_overflow()
    }

    /// Whether `addr` is the address of a byte of the object area of one of
    /// the blocks.
    pub open spec fn mapped(&self, addr: int) -> bool {
        &&& 0 <= block_index_of(addr) < self.spec_blocks().len()
        &&& addr % (BLOCK_SIZE as int) < BLOCK_CAPACITY
    }

    /// The byte at address `addr`.
    pub open spec fn byte_at(&self, addr: int) -> u8 {
        self.spec_blocks()[block_index_of(addr)].spec_memory()[addr % (BLOCK_SIZE as int)]
    }

    /// The `len` bytes from address `addr` on.
    pub open spec fn bytes_at(&self, addr: int, len: nat) -> Seq<u8> {
        Seq::new(len, |i: int| self.byte_at(addr + i))
    }

    /// Whether the `len` addresses from `addr` on are addresses of bytes that
    /// the heap holds.
    pub open spec fn range_mapped(&self, addr: int, len: int) -> bool {
        forall|a: int| addr <= a < addr + len ==> self.mapped(a)
    }

    /// Every byte that `before` holds is still there with its value, and
    /// every byte that has come with a new block is zero.
    pub open spec fn memory_kept(&self, before: BlockList) -> bool {
        &&& forall|addr: int| #[trigger]
            before.mapped(addr) ==> self.mapped(addr) && self.byte_at(addr) == before.byte_at(addr)
        &&& forall|addr: int| #[trigger]
            self.mapped(addr) && !before.mapped(addr) ==> self.byte_at(addr) == 0
    }

    /// The blocks, their cursors, limits and marks and the two active blocks
    /// are those of `before`; the bytes held may differ.
    pub open spec fn same_layout(&self, before: BlockList) -> bool {
        &&& self.spec_blocks().len() == before.spec_blocks().len()
        &&& self.spec_head() == before.spec_head()
        &&& self.spec_overflow() == before.spec_overflow()
        &&& forall|i: int|
            0 <= i < self.spec_blocks().len() ==> same_block_layout(
                #[trigger] self.spec_blocks()[i],
                before.spec_blocks()[i],
            )
    }

    /// No byte of the heap lies at the null address, or anywhere below the
    /// first block.
    pub proof fn lemma_no_block_at_null(&self, addr: int)
        requires
            self.mapped(addr),
        ensures
            addr >= BLOCK_SIZE,
    {
    }

    /// Whether block `index` belongs to the rest: it is neither the head nor
    /// the overflow block.
    pub open spec fn is_retired(&self, index: int) -> bool {
        &&& 0 <= index < self.spec_blocks().len()
        &&& self.spec_head() != Some(index)
        &&& self.spec_overflow() != Some(index)
    }

    /// The address space has room for one more block.
    pub open spec fn can_grow(&self) -> bool {
        base_of_block(self.spec_blocks().len() as int) + BLOCK_SIZE <= usize::MAX
    }

    /// The block that `alloc_size` bytes of a small or medium object are
    /// routed to.
    pub open spec fn route(&self, alloc_size: int, size_class: SizeClass) -> Route {
        let blocks = self.spec_blocks();
        match self.spec_head() {
            None => Route::NewHead,
            Some(h) => if size_class == SizeClass::Medium && alloc_size > blocks[h].spec_cursor()
                - blocks[h].spec_limit() {
                match self.spec_overflow() {
                    None => Route::NewOverflow,
                    Some(o) => if block_places(blocks[o], alloc_size) is Some {
                        Route::Overflow
                    } else {
                        Route::NewOverflow
                    },
                }
            } else if block_places(blocks[h], alloc_size) is Some {
                Route::Head
            } else {
                Route::NewHead
            },
        }
    }

    /// The address of the space that an allocation of `alloc_size` bytes in
    /// the given size class is given, or the error that it ends in: a large
    /// object is refused, and so is a new block when the address space is
    /// used up.
    pub open spec fn space_for(&self, alloc_size: int, size_class: SizeClass) -> Result<
        int,
        AllocError,
    > {
        let blocks = self.spec_blocks();
        let fresh = align_down(base_of_block(blocks.len() as int) + BLOCK_CAPACITY - alloc_size);
        if size_class == SizeClass::Large {
            Err(AllocError::BadRequest)
        } else {
            match self.route(alloc_size, size_class) {
                Route::Head => Ok(space_in(blocks[self.spec_head()->0], alloc_size)),
                Route::Overflow => Ok(space_in(blocks[self.spec_overflow()->0], alloc_size)),
                _ => if self.can_grow() {
                    Ok(fresh)
                } else {
                    Err(AllocError::OOM)
                },
            }
        }
    }

    /// `self` is `before` after an allocation of `alloc_size` bytes in the
    /// given size class was given `space`: the block that it was routed to
    /// has handed out the space, a new block has joined the list and taken
    /// the place of the head or of the overflow block if the route asked for
    /// one, and nothing else has changed.
    pub open spec fn placed(&self, before: BlockList, alloc_size: int, size_class: SizeClass, space: int)
        -> bool {
        let old_blocks = before.spec_blocks();
        let blocks = self.spec_blocks();
        let count = old_blocks.len() as int;
        match before.route(alloc_size, size_class) {
            Route::Head => {
                let h = before.spec_head()->0;
                &&& blocks.len() == count
                &&& self.spec_head() == before.spec_head()
                &&& self.spec_overflow() == before.spec_overflow()
                &&& block_placed(old_blocks[h], blocks[h], alloc_size, space)
                &&& forall|i: int|
                    0 <= i < count && i != h ==> same_block_layout(
                        #[trigger] blocks[i],
                        old_blocks[i],
                    )
            },
            Route::Overflow => {
                let o = before.spec_overflow()->0;
                &&& blocks.len() == count
                &&& self.spec_head() == before.spec_head()
                &&& self.spec_overflow() == before.spec_overflow()
                &&& block_placed(old_blocks[o], blocks[o], alloc_size, space)
                &&& forall|i: int|
                    0 <= i < count && i != o ==> same_block_layout(
                        #[trigger] blocks[i],
                        old_blocks[i],
                    )
            },
            Route::NewHead => {
                &&& blocks.len() == count + 1
                &&& self.spec_head() == Some(count)
                &&& self.spec_overflow() == before.spec_overflow()
                &&& is_fresh_block_placed(blocks[count], base_of_block(count), alloc_size, space)
                &&& forall|i: int|
                    0 <= i < count ==> same_block_layout(#[trigger] blocks[i], old_blocks[i])
            },
            Route::NewOverflow => {
                &&& blocks.len() == count + 1
                &&& self.spec_head() == before.spec_head()
                &&& self.spec_overflow() == Some(count)
                &&& is_fresh_block_placed(blocks[count], base_of_block(count), alloc_size, space)
                &&& forall|i: int|
                    0 <= i < count ==> same_block_layout(#[trigger] blocks[i], old_blocks[i])
            },
        }
    }

    /// A list without blocks.
    pub fn new() -> (list: BlockList)
        ensures
            list.wf(),
            list.spec_blocks().len() == 0,
            list.spec_head() is None,
            list.spec_overflow() is None,
    {
        BlockList { blocks: Vec::new(), head: None, overflow: None }
    }

    /// Whether `addr` is the address of a byte that the heap holds.
    pub fn is_mapped(&self, addr: usize) -> (mapped: bool)
        ensures
            mapped == self.mapped(addr as int),
    {
        let index: usize = addr / BLOCK_SIZE;
        index >= 1 && index - 1 < self.blocks.len() && addr % BLOCK_SIZE < BLOCK_CAPACITY
    }

    /// The byte at address `addr`.
    pub fn read_byte(&self, addr: usize) -> (byte: u8)
        requires
            self.wf(),
            self.mapped(addr as int),
        ensures
            byte == self.byte_at(addr as int),
    {
        let index: usize = addr / BLOCK_SIZE - 1;
        proof {
            lemma_block_address(addr as int);
        }
        self.blocks[index].read(addr)
    }

    /// Stores `byte` at address `addr`.
    pub fn write_byte(&mut self, addr: usize, byte: u8)
        requires
            old(self).wf(),
            old(self).mapped(addr as int),
        ensures
            final(self).wf(),
            final(self).same_layout(*old(self)),
            final(self).byte_at(addr as int) == byte,
            forall|other: int| final(self).mapped(other) == old(self).mapped(other),
            forall|other: int|
                other != addr && old(self).mapped(other) ==> (#[trigger] final(self).byte_at(
                    other,
                )) == old(self).byte_at(other),
    {
        let index: usize = addr / BLOCK_SIZE - 1;
        proof {
            lemma_block_address(addr as int);
            self.blocks@[index as int].lemma_wf();
        }
        self.blocks[index].write(addr, byte);
        assert forall|other: int| other != addr && old(self).mapped(other) implies (
        #[trigger] self.byte_at(other)) == old(self).byte_at(other) by {
            lemma_block_address(other);
        }
    }

    /// The `len` bytes from address `addr` on.
    pub fn read_bytes(&self, addr: usize, len: usize) -> (bytes: Vec<u8>)
        requires
            self.wf(),
            self.range_mapped(addr as int, len as int),
        ensures
            bytes@ == self.bytes_at(addr as int, len as nat),
    {
        let mut bytes: Vec<u8> = Vec::new();
        let mut i: usize = 0;
        while i < len
            invariant
                self.wf(),
                i <= len,
                self.range_mapped(addr as int, len as int),
                bytes@ == self.bytes_at(addr as int, i as nat),
            decreases len - i,
        {
            assert(self.mapped(addr + i));
            let byte = self.read_byte(addr + i);
            bytes.push(byte);
            i = i + 1;
            assert(bytes@ =~= self.bytes_at(addr as int, i as nat));
        }
        bytes
    }

    /// Stores `bytes` from address `addr` on.
    pub fn write_bytes(&mut self, addr: usize, bytes: &[u8])
        requires
            old(self).wf(),
            old(self).range_mapped(addr as int, bytes@.len() as int),
        ensures
            final(self).wf(),
            final(self).same_layout(*old(self)),
            final(self).bytes_at(addr as int, bytes@.len()) == bytes@,
            forall|other: int| final(self).mapped(other) == old(self).mapped(other),
            forall|other: int|
                !(addr <= other < addr + bytes@.len()) && old(self).mapped(other) ==> (
                #[trigger] final(self).byte_at(other)) == old(self).byte_at(other),
    {
        let mut i: usize = 0;
        while i < bytes.len()
            invariant
                self.wf(),
                i <= bytes@.len(),
                self.same_layout(*old(self)),
                forall|other: int| self.mapped(other) == old(self).mapped(other),
                old(self).range_mapped(addr as int, bytes@.len() as int),
                forall|a: int| addr <= a < addr + i ==> self.byte_at(a) == bytes@[a - addr],
                forall|other: int|
                    !(addr <= other < addr + i) && old(self).mapped(other) ==> (
                    #[trigger] self.byte_at(other)) == old(self).byte_at(other),
            decreases bytes@.len() - i,
        {
            assert(old(self).mapped(addr + i));
            let ghost before = *self;
            self.write_byte(addr + i, bytes[i]);
            
            i = i + 1;
        }
        assert(self.bytes_at(addr as int, bytes@.len()) =~= bytes@);
    }

    /// Adds a fresh block at the next base address and returns its index.
    /// The block is not yet the head or the overflow block.
    fn grow(&mut self) -> (r: Result<usize, AllocError>)
        requires
            old(self).wf(),
        ensures
            final(self).spec_head() == old(self).spec_head(),
            final(self).spec_overflow() == old(self).spec_overflow(),
            final(self).memory_kept(*old(self)),
            match r {
                Ok(index) => {
                    &&& old(self).can_grow()
                    &&& final(self).wf()
                    &&& index == old(self).spec_blocks().len()
                    &&& final(self).spec_blocks().len() == index + 1
                    &&& final(self).spec_blocks()[index as int].is_fresh_at(
                        base_of_block(index as int),
                    )
                    &&& forall|i: int|
                        0 <= i < index ==> final(self).spec_blocks()[i] == old(self).spec_blocks()[i]
                },
                Err(e) => {
                    &&& !old(self).can_grow()
                    &&& e == AllocError::OOM
                    &&& final(self).spec_blocks() == old(self).spec_blocks()
                },
            },
    {
        let count: usize = self.blocks.len();
        proof {
            lemma_block_size_is_valid();
        }
        let base: usize = (count + 1) * BLOCK_SIZE;
        match BumpBlock::at(base) {
            Ok(block) => {
                self.blocks.push(block);
                Ok(count)
            },
            Err(e) => Err(e),
        }
    }

    /// Finds space for a medium object in the overflow block, and makes a
    /// new overflow block if there is none or if it has no room.
    pub fn overflow_alloc(&mut self, alloc_size: usize) -> (r: Result<usize, AllocError>)
        requires
            old(self).wf(),
            alloc_size <= BLOCK_CAPACITY,
        ensures
            final(self).wf(),
            final(self).spec_head() == old(self).spec_head(),
            final(self).memory_kept(*old(self)),
            match r {
                Ok(space) => old(self).overflow_space_for(alloc_size as int) == Ok::<
                    int,
                    AllocError,
                >(space as int) && final(self).overflow_placed(
                    *old(self),
                    alloc_size as int,
                    space as int,
                ),
                Err(e) => old(self).overflow_space_for(alloc_size as int) == Err::<
                    int,
                    AllocError,
                >(e) && final(self).spec_blocks() == old(self).spec_blocks() && final(self).spec_overflow() == old(self).spec_overflow(),
            },
    {
        let ghost before = *self;
        match self.overflow {
            Some(o) => {
                match self.blocks[o].inner_alloc(alloc_size) {
                    Some(space) => {
                        assert(self.overflow_placed(before, alloc_size as int, space as int));
                        assert(self.memory_kept(before));
                        Ok(space)
                    },
                    None => {
                        assert(self.blocks@ =~= before.blocks@);
                        self.place_in_new_block(alloc_size, true)
                    },
                }
            },
            None => self.place_in_new_block(alloc_size, true),
        }
    }

    /// Makes a fresh block the head, or the overflow block, and takes
    /// `alloc_size` bytes from it. The block that it replaces joins the rest.
    fn place_in_new_block(&mut self, alloc_size: usize, as_overflow: bool) -> (r: Result<
        usize,
        AllocError,
    >)
        requires
            old(self).wf(),
            alloc_size <= BLOCK_CAPACITY,
        ensures
            final(self).wf(),
            final(self).memory_kept(*old(self)),
            match r {
                Ok(space) => {
                    let count = old(self).spec_blocks().len() as int;
                    &&& old(self).can_grow()
                    &&& final(self).spec_blocks().len() == count + 1
                    &&& final(self).spec_overflow() == if as_overflow {
                        Some(count)
                    } else {
                        old(self).spec_overflow()
                    }
                    &&& final(self).spec_head() == if as_overflow {
                        old(self).spec_head()
                    } else {
                        Some(count)
                    }
                    &&& is_fresh_block_placed(
                        final(self).spec_blocks()[count],
                        base_of_block(count),
                        alloc_size as int,
                        space as int,
                    )
                    &&& forall|i: int|
                        0 <= i < count ==> final(self).spec_blocks()[i] == old(self).spec_blocks()[i]
                },
                Err(e) => {
                    &&& !old(self).can_grow()
                    &&& e == AllocError::OOM
                    &&& final(self).spec_blocks() == old(self).spec_blocks()
                    &&& final(self).spec_overflow() == old(self).spec_overflow()
                    &&& final(self).spec_head() == old(self).spec_head()
                },
            },
    {
        let index = self.grow()?;
        if as_overflow {
            self.overflow = Some(index);
        } else {
            self.head = Some(index);
        }
        proof {
            lemma_fresh_block_has_room(self.blocks@[index as int], alloc_size as int);
        }
        let ghost grown = *self;
        let space = self.blocks[index].inner_alloc(alloc_size).unwrap();
        assert(forall|i: int| 0 <= i < index ==> self.blocks@[i] == grown.blocks@[i]);
        assert(self.memory_kept(grown));
        Ok(space)
    }

    /// Finds space for a small or medium object, or refuses a large one.
    pub fn find_space(&mut self, alloc_size: usize, size_class: SizeClass) -> (r: Result<
        usize,
        AllocError,
    >)
        requires
            old(self).wf(),
            size_class_for(alloc_size as int) == Ok::<SizeClass, AllocError>(size_class),
        ensures
            final(self).wf(),
            final(self).memory_kept(*old(self)),
            match r {
                Ok(space) => old(self).space_for(alloc_size as int, size_class) == Ok::<
                    int,
                    AllocError,
                >(space as int) && final(self).placed(
                    *old(self),
                    alloc_size as int,
                    size_class,
                    space as int,
                ),
                Err(e) => old(self).space_for(alloc_size as int, size_class) == Err::<
                    int,
                    AllocError,
                >(e) && final(self).spec_blocks() == old(self).spec_blocks() && final(self).spec_head()
                    == old(self).spec_head() && final(self).spec_overflow() == old(self).spec_overflow(),
            },
    {
        let ghost before = *self;
        if size_class == SizeClass::Large {
            return Err(AllocError::BadRequest);
        }
        match self.head {
            Some(h) => {
                if size_class == SizeClass::Medium && alloc_size
                    > self.blocks[h].current_hole_size() {
                    return self.overflow_alloc(alloc_size);
                }
                match self.blocks[h].inner_alloc(alloc_size) {
                    Some(space) => {
                        assert(self.memory_kept(before));
                        Ok(space)
                    },
                    None => {
                        assert(self.blocks@ =~= before.blocks@);
                        self.place_in_new_block(alloc_size, false)
                    },
                }
            },
            None => self.place_in_new_block(alloc_size, false),
        }
    }

    /// The address that the overflow route gives to `alloc_size` bytes, or
    /// the error that it ends in.
    pub open spec fn overflow_space_for(&self, alloc_size: int) -> Result<int, AllocError> {
        let blocks = self.spec_blocks();
        let fresh = align_down(base_of_block(blocks.len() as int) + BLOCK_CAPACITY - alloc_size);
        let o = self.spec_overflow()->0;
        if self.spec_overflow() is Some && block_places(blocks[o], alloc_size) is Some {
            Ok(space_in(blocks[o], alloc_size))
        } else if self.can_grow() {
            Ok(fresh)
        } else {
            Err(AllocError::OOM)
        }
    }

    /// `self` is `before` after the overflow route has given `space` to
    /// `alloc_size` bytes.
    pub open spec fn overflow_placed(&self, before: BlockList, alloc_size: int, space: int)
        -> bool {
        let old_blocks = before.spec_blocks();
        let blocks = self.spec_blocks();
        let count = old_blocks.len() as int;
        let o = before.spec_overflow()->0;
        if before.spec_overflow() is Some && block_places(old_blocks[o], alloc_size) is Some {
            &&& blocks.len() == count
            &&& self.spec_overflow() == before.spec_overflow()
            &&& block_placed(old_blocks[o], blocks[o], alloc_size, space)
            &&& forall|i: int|
                0 <= i < count && i != o ==> same_block_layout(#[trigger] blocks[i], old_blocks[i])
        } else {
            &&& blocks.len() == count + 1
            &&& self.spec_overflow() == Some(count)
            &&& is_fresh_block_placed(blocks[count], base_of_block(count), alloc_size, space)
            &&& forall|i: int|
                0 <= i < count ==> same_block_layout(#[trigger] blocks[i], old_blocks[i])
        }
    }
}

/// A fresh block has room for anything that a block can hold, at the top of
/// its object area.
pub proof fn lemma_fresh_block_has_room(block: BumpBlock, alloc_size: int)
    requires
        exists|base: int| block.is_fresh_at(base),
        0 <= alloc_size <= BLOCK_CAPACITY,
    ensures
        block_places(block, alloc_size) == Some(
            (align_down(block.spec_base() + BLOCK_CAPACITY - alloc_size), block.spec_base()),
        ),
{
    block.lemma_wf();
}

/// `block` is a block made at `base`, without marks, that has since handed
/// out `alloc_size` bytes at `space`, from the top of its object area.
pub open spec fn is_fresh_block_placed(block: BumpBlock, base: int, alloc_size: int, space: int)
    -> bool {
    &&& block.wf()
    &&& block.spec_base() == base
    &&& block.spec_limit() == base
    &&& block.spec_cursor() == space
    &&& space == align_down(base + BLOCK_CAPACITY - alloc_size)
    &&& block.spec_marks() == Seq::new(crate::constants::LINE_COUNT as nat, |i: int| 0u8)
}

/// A heap of objects, each behind a header of type `H`. It makes no block
/// before the first allocation.
pub struct StickyImmixHeap<H> {
    blocks: BlockList,
    objects: Ghost<Map<int, (H, nat)>>,
    _header_type: PhantomData<H>,
}

impl<H: AllocHeader> StickyImmixHeap<H> {
    /// The blocks of the heap.
    pub closed spec fn spec_blocks(&self) -> BlockList {
        self.blocks
    }

    /// The objects placed so far: the address of each, with its header and
    /// its size in bytes.
    pub closed spec fn spec_objects(&self) -> Map<int, (H, nat)> {
        self.objects@
    }

    /// The address of the header of the object at `object`.
    pub open spec fn spec_get_header(object: int) -> int {
        object - H::spec_header_size()
    }

    /// The address of the object behind the header at `header`.
    pub open spec fn spec_get_object(header: int) -> int {
        header + H::spec_header_size()
    }

    /// The bytes that an object of `size` bytes takes together with its
    /// header.
    pub open spec fn footprint(size: nat) -> int {
        spec_alloc_size_of((H::spec_header_size() + size) as int)
    }

    /// The object at `object` lies with its header in the object area of one
    /// block, at or above the cursor of that block; its header is aligned to
    /// the allocation alignment and is what the memory holds there.
    pub open spec fn object_ok(&self, object: int) -> bool {
        let (header, size) = self.spec_objects()[object];
        let space = Self::spec_get_header(object);
        let blocks = self.spec_blocks().spec_blocks();
        let index = block_index_of(space);
        &&& 0 <= index < blocks.len()
        &&& blocks[index].spec_cursor() <= space
        &&& 0 < Self::footprint(size)
        &&& space + Self::footprint(size) <= blocks[index].spec_base() + BLOCK_CAPACITY
        &&& align_down(space) == space
        &&& self.spec_blocks().bytes_at(space, H::spec_header_size()) == header.spec_encode()
    }

    /// The objects at `p` and `q` do not overlap, headers included.
    pub open spec fn apart(&self, p: int, q: int) -> bool {
        let end_p = Self::spec_get_header(p) + Self::footprint(self.spec_objects()[p].1);
        let end_q = Self::spec_get_header(q) + Self::footprint(self.spec_objects()[q].1);
        end_p <= Self::spec_get_header(q) || end_q <= Self::spec_get_header(p)
    }

    /// The blocks are well-formed, every object is in order, and no two
    /// objects overlap.
    pub open spec fn wf(&self) -> bool {
        &&& self.spec_blocks().wf()
        &&& forall|p: int| self.spec_objects().contains_key(p) ==> #[trigger] self.object_ok(p)
        &&& forall|p: int, q: int|
            self.spec_objects().contains_key(p) && self.spec_objects().contains_key(q) && p != q
                ==> #[trigger] self.apart(p, q)
    }

    /// The bytes of the object at `object`.
    pub open spec fn payload(&self, object: int) -> Seq<u8> {
        self.spec_blocks().bytes_at(object, self.spec_objects()[object].1)
    }

    /// The address that an object of `size` bytes is given, or the error
    /// that the allocation ends in: `BadRequest` if the object with its
    /// header has no size, is larger than a block can hold or larger than a
    /// header can record; `OOM` if a new block is needed and the address
    /// space is used up.
    pub open spec fn alloc_outcome(&self, size: nat) -> Result<int, AllocError> {
        let alloc_size = Self::footprint(size);
        match size_class_for(alloc_size) {
            Err(e) => Err(e),
            Ok(size_class) => match self.spec_blocks().space_for(alloc_size, size_class) {
                Err(e) => Err(e),
                Ok(space) => Ok(Self::spec_get_object(space)),
            },
        }
    }

    /// `self` is `before` after an object of `size` bytes with header
    /// `header` was placed at `object`: the blocks have made room for it,
    /// it is the one new object, its header and `bytes` are in the memory,
    /// and every other byte that the heap held has kept its value.
    pub open spec fn allocated(&self, before: Self, object: int, header: H, bytes: Seq<u8>)
        -> bool {
        let size = bytes.len();
        let space = Self::spec_get_header(object);
        let alloc_size = Self::footprint(size);
        &&& self.spec_blocks().placed(
            before.spec_blocks(),
            alloc_size,
            size_class_for(alloc_size)->Ok_0,
            space,
        )
        &&& self.spec_objects() == before.spec_objects().insert(object, (header, size))
        &&& !before.spec_objects().contains_key(object)
        &&& self.payload(object) == bytes
        &&& forall|addr: int| #[trigger]
            before.spec_blocks().mapped(addr) ==> self.spec_blocks().mapped(addr) && (space
                <= addr < space + alloc_size || self.spec_blocks().byte_at(addr)
                == before.spec_blocks().byte_at(addr))
    }

    /// `self` is `before`, unchanged.
    pub open spec fn unchanged(&self, before: Self) -> bool {
        &&& self.spec_blocks().spec_blocks() == before.spec_blocks().spec_blocks()
        &&& self.spec_blocks().spec_head() == before.spec_blocks().spec_head()
        &&& self.spec_blocks().spec_overflow() == before.spec_blocks().spec_overflow()
        &&& self.spec_objects() == before.spec_objects()
    }

    /// A heap without blocks and without objects.
    pub fn new() -> (heap: StickyImmixHeap<H>)
        ensures
            heap.wf(),
            heap.spec_objects() == Map::<int, (H, nat)>::empty(),
            heap.spec_blocks().spec_blocks().len() == 0,
            heap.spec_blocks().spec_head() is None,
            heap.spec_blocks().spec_overflow() is None,
    {
        StickyImmixHeap {
            blocks: BlockList::new(),
            objects: Ghost(Map::empty()),
            _header_type: PhantomData,
        }
    }

    /// The `size` bytes at `space` are free for a new object: they lie in
    /// the object area of one block, begin at its cursor, are aligned, and
    /// overlap no object.
    pub open spec fn vacant(&self, space: int, size: int) -> bool {
        let blocks = self.spec_blocks().spec_blocks();
        let index = block_index_of(space);
        &&& 0 <= index < blocks.len()
        &&& blocks[index].spec_cursor() == space
        &&& space + size <= blocks[index].spec_base() + BLOCK_CAPACITY
        &&& align_down(space) == space
        &&& forall|p: int|
            self.spec_objects().contains_key(p) ==> #[trigger] self.clear_of(p, space, size)
    }

    /// The object at `p` does not reach into the `size` bytes at `space`.
    pub open spec fn clear_of(&self, p: int, space: int, size: int) -> bool {
        ||| space + size <= Self::spec_get_header(p)
        ||| Self::spec_get_header(p) + Self::footprint(self.spec_objects()[p].1) <= space
    }

    /// Finds space for a small or medium object and refuses a large one. The
    /// space found is vacant.
    fn find_space(&mut self, alloc_size: usize, size_class: SizeClass) -> (r: Result<
        usize,
        AllocError,
    >)
        requires
            old(self).wf(),
            size_class_for(alloc_size as int) == Ok::<SizeClass, AllocError>(size_class),
        ensures
            final(self).wf(),
            final(self).spec_objects() == old(self).spec_objects(),
            final(self).spec_blocks().memory_kept(old(self).spec_blocks()),
            match r {
                Ok(space) => {
                    &&& old(self).spec_blocks().space_for(alloc_size as int, size_class) == Ok::<
                        int,
                        AllocError,
                    >(space as int)
                    &&& final(self).spec_blocks().placed(
                        old(self).spec_blocks(),
                        alloc_size as int,
                        size_class,
                        space as int,
                    )
                    &&& final(self).vacant(space as int, alloc_size as int)
                },
                Err(e) => {
                    &&& old(self).spec_blocks().space_for(alloc_size as int, size_class) == Err::<
                        int,
                        AllocError,
                    >(e)
                    &&& final(self).unchanged(*old(self))
                },
            },
    {
        let r = self.blocks.find_space(alloc_size, size_class);
        proof {
            let before = old(self).spec_blocks();
            let after = self.spec_blocks();
            match r {
                Ok(space) => {
                    let index = block_index_of(space as int);
                    let route = before.route(alloc_size as int, size_class);
                    let count = before.spec_blocks().len() as int;
                    let target = match route {
                        Route::Head => before.spec_head()->0,
                        Route::Overflow => before.spec_overflow()->0,
                        _ => count,
                    };
                    if target < count {
                        lemma_bump_alloc_in_hole(before.spec_blocks()[target], alloc_size as int);
                        before.spec_blocks()[target].lemma_wf();
                        assert(block_placed(
                            before.spec_blocks()[target],
                            after.spec_blocks()[target],
                            alloc_size as int,
                            space as int,
                        ));
                    } else {
                        assert(is_fresh_block_placed(
                            after.spec_blocks()[target],
                            base_of_block(target),
                            alloc_size as int,
                            space as int,
                        ));
                    }
                    after.spec_blocks()[target].lemma_wf();
                    lemma_block_offset(target, space as int);
                    assert(index == target);
                    assert(space + alloc_size <= base_of_block(target) + BLOCK_CAPACITY);
                    assert forall|p: int| self.spec_objects().contains_key(p) implies (
                    #[trigger] self.object_ok(p)) && self.clear_of(
                        p,
                        space as int,
                        alloc_size as int,
                    ) by {
                        old(self).lemma_object_region(p);
                        let header_at = Self::spec_get_header(p);
                        let j = block_index_of(header_at);
                        lemma_bytes_kept(after, before, header_at, H::spec_header_size());
                        if j == target {
                            assert(after.spec_blocks()[j].spec_cursor() <= header_at);
                        } else {
                            assert(same_block_layout(
                                after.spec_blocks()[j],
                                before.spec_blocks()[j],
                            ));
                        }
                        assert(self.object_ok(p));
                        assert(self.clear_of(p, space as int, alloc_size as int));
                    }
                    assert forall|p: int| self.spec_objects().contains_key(p) implies (
                    #[trigger] self.clear_of(p, space as int, alloc_size as int)) by {
                        assert(self.object_ok(p));
                    }
                    assert(self.vacant(space as int, alloc_size as int));
                    assert forall|p: int, q: int|
                        self.spec_objects().contains_key(p) && self.spec_objects().contains_key(q)
                            && p != q implies #[trigger] self.apart(p, q) by {
                        assert(old(self).apart(p, q));
                    }
                },
                Err(e) => {
                    assert forall|p: int| self.spec_objects().contains_key(p) implies (
                    #[trigger] self.object_ok(p)) by {
                        old(self).lemma_object_region(p);
                        lemma_bytes_kept(
                            after,
                            before,
                            Self::spec_get_header(p),
                            H::spec_header_size(),
                        );
                    }
                    assert forall|p: int, q: int|
                        self.spec_objects().contains_key(p) && self.spec_objects().contains_key(q)
                            && p != q implies #[trigger] self.apart(p, q) by {
                        assert(old(self).apart(p, q));
                    }
                },
            }
        }
        r
    }

    /// Writes a header and the bytes of an object into vacant space and
    /// records the object.
    fn store(&mut self, space: usize, alloc_size: usize, header: H, bytes: &[u8]) -> (object:
        usize)
        requires
            old(self).wf(),
            old(self).vacant(space as int, alloc_size as int),
            0 < alloc_size == Self::footprint(bytes@.len()),
        ensures
            final(self).wf(),
            object == Self::spec_get_object(space as int),
            final(self).spec_blocks().same_layout(old(self).spec_blocks()),
            final(self).spec_objects() == old(self).spec_objects().insert(
                object as int,
                (header, bytes@.len()),
            ),
            !old(self).spec_objects().contains_key(object as int),
            final(self).payload(object as int) == bytes@,
            forall|addr: int| #[trigger]
                old(self).spec_blocks().mapped(addr) ==> final(self).spec_blocks().mapped(addr)
                    && (space <= addr < space + alloc_size || final(self).spec_blocks().byte_at(
                    addr,
                ) == old(self).spec_blocks().byte_at(addr)),
    {
        let header_size: usize = H::header_size();
        let header_bytes = header.encode();
        let ghost size = bytes@.len();
        let ghost index = block_index_of(space as int);
        proof {
            self.spec_blocks().spec_blocks()[index].lemma_wf();
            assert forall|addr: int|
                space <= addr < space + alloc_size implies self.spec_blocks().mapped(addr) by {
                lemma_block_offset(index, addr);
            }
        }
        let ghost before = self.blocks;
        self.blocks.write_bytes(space, header_bytes.as_slice());
        let ghost between = self.blocks;
        let object: usize = space + header_size;
        self.blocks.write_bytes(object, bytes);
        proof {
            let after = self.blocks;
            lemma_bytes_beside_write(
                after,
                between,
                object as int,
                size as int,
                space as int,
                header_size as nat,
            );
            if old(self).spec_objects().contains_key(object as int) {
                assert(old(self).clear_of(object as int, space as int, alloc_size as int));
                assert(old(self).object_ok(object as int));
            }
            assert forall|p: int| old(self).spec_objects().contains_key(p) implies after.bytes_at(
                Self::spec_get_header(p),
                H::spec_header_size(),
            ) == before.bytes_at(Self::spec_get_header(p), H::spec_header_size()) by {
                old(self).lemma_object_region(p);
                assert(old(self).clear_of(p, space as int, alloc_size as int));
                lemma_bytes_beside_write(
                    between,
                    before,
                    space as int,
                    header_size as int,
                    Self::spec_get_header(p),
                    H::spec_header_size(),
                );
                lemma_bytes_beside_write(
                    after,
                    between,
                    object as int,
                    size as int,
                    Self::spec_get_header(p),
                    H::spec_header_size(),
                );
            }
            self.objects = Ghost(self.objects@.insert(object as int, (header, size)));
            assert forall|p: int| self.spec_objects().contains_key(p) implies #[trigger] self.object_ok(
                p,
            ) by {
                if p != object {
                    assert(old(self).object_ok(p));
                    assert(same_block_layout(
                        after.spec_blocks()[block_index_of(Self::spec_get_header(p))],
                        old(self).spec_blocks().spec_blocks()[block_index_of(
                            Self::spec_get_header(p),
                        )],
                    ));
                }
            }
            assert forall|p: int, q: int|
                self.spec_objects().contains_key(p) && self.spec_objects().contains_key(q) && p
                    != q implies #[trigger] self.apart(p, q) by {
                if p != object && q != object {
                    assert(old(self).apart(p, q));
                } else if p == object {
                    assert(old(self).clear_of(q, space as int, alloc_size as int));
                } else {
                    assert(old(self).clear_of(p, space as int, alloc_size as int));
                }
            }
        }
        object
    }

    /// Places `object` in the heap behind a header for its type, and returns
    /// a pointer to it.
    pub fn allocate<T: AllocObject<H::TypeId>>(&mut self, object: T) -> (r: Result<
        RawPtr<T>,
        AllocError,
    >)
        requires
            old(self).wf(),
        ensures
            final(self).wf(),
            match r {
                Ok(ptr) => {
                    &&& old(self).alloc_outcome(object_size::<H::TypeId, T>()) == Ok::<
                        int,
                        AllocError,
                    >(ptr.spec_word() as int)
                    &&& final(self).holds_a(ptr)
                    &&& final(self).allocated(
                        *old(self),
                        ptr.spec_word() as int,
                        H::spec_new(
                            T::spec_type_id(),
                            object_size::<H::TypeId, T>() as u32,
                            size_class_for(Self::footprint(object_size::<H::TypeId, T>()))->Ok_0,
                            Mark::Allocated,
                        ),
                        object_bytes::<H::TypeId, T>(object),
                    )
                },
                Err(e) => {
                    &&& old(self).alloc_outcome(object_size::<H::TypeId, T>()) == Err::<
                        int,
                        AllocError,
                    >(e)
                    &&& final(self).unchanged(*old(self))
                },
            },
    {
        let header_size: usize = H::header_size();
        let word_count: usize = T::word_count();
        if header_size > usize::MAX - 7 || word_count > (usize::MAX - 7 - header_size) / 8 {
            return Err(AllocError::BadRequest);
        }
        let object_size: usize = 8 * word_count;
        let total_size: usize = header_size + object_size;
        let alloc_size: usize = alloc_size_of(total_size);
        let size_class = SizeClass::get_for_size(alloc_size)?;
        let space = self.find_space(alloc_size, size_class)?;
        let header = H::new::<T>(object_size as ArraySize, size_class, Mark::Allocated);
        let words = object.to_words();
        let bytes = encode_words(words.as_slice());
        let ghost found = *self;
        let object_addr = self.store(space, alloc_size, header, bytes.as_slice());
        proof {
            lemma_layout_keeps_placed(
                self.spec_blocks(),
                found.spec_blocks(),
                old(self).spec_blocks(),
                alloc_size as int,
                size_class,
                space as int,
            );
            assert forall|addr: int| #[trigger]
                old(self).spec_blocks().mapped(addr) implies self.spec_blocks().mapped(addr) && (
                space <= addr < space + alloc_size || self.spec_blocks().byte_at(addr) == old(self).spec_blocks().byte_at(addr)) by {
                assert(found.spec_blocks().mapped(addr));
            }
        }
        Ok(RawPtr::new(object_addr))
    }

    /// Places an array of `size_bytes` zero bytes in the heap behind an
    /// array header, and returns a pointer to its first byte.
    pub fn alloc_array(&mut self, size_bytes: ArraySize) -> (r: Result<RawPtr<u8>, AllocError>)
        requires
            old(self).wf(),
        ensures
            final(self).wf(),
            match r {
                Ok(ptr) => {
                    &&& old(self).alloc_outcome(size_bytes as nat) == Ok::<int, AllocError>(
                        ptr.spec_word() as int,
                    )
                    &&& final(self).allocated(
                        *old(self),
                        ptr.spec_word() as int,
                        H::spec_new_array(
                            size_bytes,
                            size_class_for(Self::footprint(size_bytes as nat))->Ok_0,
                            Mark::Allocated,
                        ),
                        Seq::new(size_bytes as nat, |i: int| 0u8),
                    )
                },
                Err(e) => {
                    &&& old(self).alloc_outcome(size_bytes as nat) == Err::<int, AllocError>(e)
                    &&& final(self).unchanged(*old(self))
                },
            },
    {
        let header_size: usize = H::header_size();
        let array_size: usize = size_bytes as usize;
        if header_size > usize::MAX - 7 || array_size > usize::MAX - 7 - header_size {
            return Err(AllocError::BadRequest);
        }
        let total_size: usize = header_size + array_size;
        let alloc_size: usize = alloc_size_of(total_size);
        let size_class = SizeClass::get_for_size(alloc_size)?;
        let space = self.find_space(alloc_size, size_class)?;
        let header = H::new_array(size_bytes, size_class, Mark::Allocated);
        let bytes = vec![0u8; array_size];
        assert(bytes@ =~= Seq::new(size_bytes as nat, |i: int| 0u8));
        let ghost found = *self;
        let array_addr = self.store(space, alloc_size, header, bytes.as_slice());
        proof {
            lemma_layout_keeps_placed(
                self.spec_blocks(),
                found.spec_blocks(),
                old(self).spec_blocks(),
                alloc_size as int,
                size_class,
                space as int,
            );
            assert forall|addr: int| #[trigger]
                old(self).spec_blocks().mapped(addr) implies self.spec_blocks().mapped(addr) && (
                space <= addr < space + alloc_size || self.spec_blocks().byte_at(addr) == old(self).spec_blocks().byte_at(addr)) by {
                assert(found.spec_blocks().mapped(addr));
            }
        }
        Ok(RawPtr::new(array_addr))
    }

    /// Whether an object was placed at `object`.
    pub open spec fn holds(&self, object: int) -> bool {
        self.spec_objects().contains_key(object)
    }

    /// Whether an object of type `T` was placed at `ptr`: an object whose
    /// size is that of `T`.
    pub open spec fn holds_a<T: AllocObject<H::TypeId>>(&self, ptr: RawPtr<T>) -> bool {
        &&& self.holds(ptr.spec_word() as int)
        &&& self.spec_objects()[ptr.spec_word() as int].1 == object_size::<H::TypeId, T>()
    }

    /// The header of the object at `object`, read from the memory in front
    /// of it.
    pub fn header_of(&self, object: usize) -> (header: H)
        requires
            self.wf(),
            self.holds(object as int),
        ensures
            header == self.spec_objects()[object as int].0,
    {
        let header_size: usize = H::header_size();
        proof {
            self.lemma_object_region(object as int);
            self.spec_objects()[object as int].0.lemma_decode_encode();
            assert forall|a: int| object - header_size <= a < object implies self.spec_blocks().mapped(
                a,
            ) by {}
        }
        let bytes = self.blocks.read_bytes(object - header_size, header_size);
        H::decode(bytes.as_slice()).unwrap()
    }

    /// The `len` bytes at `offset` into the object at `object`.
    pub fn read_object_bytes(&self, object: usize, offset: usize, len: usize) -> (bytes: Vec<u8>)
        requires
            self.wf(),
            self.holds(object as int),
            offset + len <= self.spec_objects()[object as int].1,
        ensures
            bytes@ == self.payload(object as int).subrange(offset as int, offset + len),
    {
        proof {
            self.lemma_object_region(object as int);
            assert forall|a: int| object + offset <= a < object + offset + len implies self.spec_blocks().mapped(
                a,
            ) by {}
        }
        let bytes = self.blocks.read_bytes(object + offset, len);
        assert(bytes@ =~= self.payload(object as int).subrange(offset as int, offset + len));
        bytes
    }

    /// Stores `bytes` at `offset` into the object at `object`. No other
    /// object changes, and no header.
    pub fn write_object_bytes(&mut self, object: usize, offset: usize, bytes: &[u8])
        requires
            old(self).wf(),
            old(self).holds(object as int),
            offset + bytes@.len() <= old(self).spec_objects()[object as int].1,
        ensures
            final(self).wf(),
            final(self).spec_objects() == old(self).spec_objects(),
            final(self).spec_blocks().same_layout(old(self).spec_blocks()),
            final(self).payload(object as int) == old(self).payload(object as int).subrange(
                0,
                offset as int,
            ) + bytes@ + old(self).payload(object as int).subrange(
                offset + bytes@.len(),
                old(self).spec_objects()[object as int].1 as int,
            ),
            forall|other: int|
                old(self).holds(other) && other != object ==> #[trigger] final(self).payload(other)
                    == old(self).payload(other),
    {
        let ghost size = self.spec_objects()[object as int].1;
        let ghost before = self.blocks;
        proof {
            self.lemma_object_region(object as int);
            assert forall|a: int|
                object + offset <= a < object + offset + bytes@.len() implies self.spec_blocks().mapped(
                a,
            ) by {}
        }
        self.blocks.write_bytes(object + offset, bytes);
        proof {
            let after = self.blocks;
            let start = object + offset;
            let len = bytes@.len() as int;
            assert forall|p: int| self.spec_objects().contains_key(p) implies #[trigger] self.object_ok(
                p,
            ) by {
                old(self).lemma_object_region(p);
                if p != object {
                    assert(old(self).apart(p, object as int));
                }
                lemma_bytes_beside_write(
                    after,
                    before,
                    start,
                    len,
                    Self::spec_get_header(p),
                    H::spec_header_size(),
                );
                assert(same_block_layout(
                    after.spec_blocks()[block_index_of(Self::spec_get_header(p))],
                    before.spec_blocks()[block_index_of(Self::spec_get_header(p))],
                ));
            }
            assert forall|p: int, q: int|
                self.spec_objects().contains_key(p) && self.spec_objects().contains_key(q) && p
                    != q implies #[trigger] self.apart(p, q) by {
                assert(old(self).apart(p, q));
            }
            assert forall|other: int| old(self).holds(other) && other != object implies (
            #[trigger] self.payload(other)) == old(self).payload(other) by {
                old(self).lemma_object_region(other);
                assert(old(self).apart(other, object as int));
                lemma_bytes_beside_write(
                    after,
                    before,
                    start,
                    len,
                    other,
                    old(self).spec_objects()[other].1,
                );
            }
            assert forall|a: int|
                object <= a < object + size && !(start <= a < start + len) implies after.byte_at(a)
                == before.byte_at(a) by {
                assert(before.mapped(a));
            }
            assert(self.payload(object as int) =~= old(self).payload(object as int).subrange(
                0,
                offset as int,
            ) + bytes@ + old(self).payload(object as int).subrange(offset + len, size as int));
        }
    }

    /// The object that `ptr` points at, decoded from the bytes that stand
    /// for it.
    pub fn get<T: AllocObject<H::TypeId>>(&self, ptr: RawPtr<T>) -> (object: T)
        requires
            self.wf(),
            self.holds_a(ptr),
        ensures
            object == object_of_bytes::<H::TypeId, T>(self.payload(ptr.spec_word() as int)),
    {
        let word_count: usize = T::word_count();
        proof {
            self.lemma_object_region(ptr.spec_word() as int);
        }
        let bytes = self.read_object_bytes(ptr.as_word(), 0, 8 * word_count);
        assert(bytes@ =~= self.payload(ptr.spec_word() as int));
        let words = decode_words(bytes.as_slice(), word_count);
        T::from_words(words.as_slice())
    }

    /// Overwrites the object that `ptr` points at with `object`.
    pub fn put<T: AllocObject<H::TypeId>>(&mut self, ptr: RawPtr<T>, object: &T)
        requires
            old(self).wf(),
            old(self).holds_a(ptr),
        ensures
            final(self).wf(),
            final(self).spec_objects() == old(self).spec_objects(),
            final(self).spec_blocks().same_layout(old(self).spec_blocks()),
            final(self).payload(ptr.spec_word() as int) == object_bytes::<H::TypeId, T>(*object),
            forall|other: int|
                old(self).holds(other) && other != ptr.spec_word() ==> #[trigger] final(self).payload(other) == old(self).payload(other),
    {
        let words = object.to_words();
        let bytes = encode_words(words.as_slice());
        self.write_object_bytes(ptr.as_word(), 0, bytes.as_slice());
        assert(self.payload(ptr.spec_word() as int) =~= object_bytes::<H::TypeId, T>(*object));
    }

    /// An allocation leaves the bytes of every object that was there before
    /// as they were.
    pub proof fn lemma_allocated_keeps_payloads(
        &self,
        after: Self,
        object: int,
        header: H,
        bytes: Seq<u8>,
    )
        requires
            self.wf(),
            after.wf(),
            after.allocated(*self, object, header, bytes),
        ensures
            forall|other: int|
                self.holds(other) ==> #[trigger] after.payload(other) == self.payload(other),
            forall|other: int| self.holds(other) ==> after.holds(other) && after.spec_objects()[other]
                == self.spec_objects()[other],
    {
        assert forall|other: int| self.holds(other) implies #[trigger] after.payload(other)
            == self.payload(other) by {
            self.lemma_object_region(other);
            after.lemma_object_region(object);
            assert(other != object);
            assert(after.holds(other));
            assert(after.apart(other, object));
            let size = self.spec_objects()[other].1;
            assert forall|a: int| other <= a < other + size implies after.spec_blocks().byte_at(a)
                == self.spec_blocks().byte_at(a) by {
                assert(self.spec_blocks().mapped(a));
            }
            assert(after.payload(other) =~= self.payload(other));
        }
    }

    /// A heap that is unchanged holds the same bytes for every object.
    pub proof fn lemma_unchanged_keeps_payloads(&self, after: Self)
        requires
            after.unchanged(*self),
        ensures
            forall|other: int| #[trigger] after.payload(other) == self.payload(other),
    {
        assert forall|other: int| #[trigger] after.payload(other) == self.payload(other) by {
            assert(after.payload(other) =~= self.payload(other));
        }
    }

    /// The header of an object lies in front of the object, and the object
    /// behind its header: going from the one to the other and back ends
    /// where it began.
    pub proof fn lemma_header_object_round_trip(addr: int)
        ensures
            Self::spec_get_object(Self::spec_get_header(addr)) == addr,
            Self::spec_get_header(Self::spec_get_object(addr)) == addr,
    {
    }

    /// An allocation of a small or a medium object succeeds as long as the
    /// address space has room for one more block.
    pub proof fn lemma_allocation_succeeds(&self, size: nat)
        requires
            self.wf(),
            0 < Self::footprint(size) <= BLOCK_CAPACITY,
            self.spec_blocks().can_grow(),
        ensures
            self.alloc_outcome(size) is Ok,
    {
    }

    /// Every object placed in a well-formed heap has a header address that
    /// is a multiple of the allocation alignment.
    pub proof fn lemma_objects_are_aligned(&self, object: int)
        requires
            self.wf(),
            self.holds(object),
        ensures
            Self::spec_get_header(object) % (ALLOC_ALIGN_BYTES as int) == 0,
            H::spec_header_size() % (ALLOC_ALIGN_BYTES as nat) == 0 ==> object % (
            ALLOC_ALIGN_BYTES as int) == 0,
    {
        assert(self.object_ok(object));
    }

    /// Two objects of a well-formed heap share no byte: the one ends, with
    /// the padding that rounds it up to whole words, where or before the
    /// other's header begins.
    pub proof fn lemma_objects_are_apart(&self, p: int, q: int)
        requires
            self.wf(),
            self.holds(p),
            self.holds(q),
            p != q,
        ensures
            self.apart(p, q),
            p + self.spec_objects()[p].1 <= Self::spec_get_header(q) || q
                + self.spec_objects()[q].1 <= Self::spec_get_header(p),
    {
        assert(self.apart(p, q));
        self.lemma_object_region(p);
        self.lemma_object_region(q);
    }

    /// An object lies in the object area of one block: every byte of it and
    /// of its header is a byte that the heap holds.
    pub proof fn lemma_object_region(&self, object: int)
        requires
            self.wf(),
            self.spec_objects().contains_key(object),
        ensures
            self.object_ok(object),
            H::spec_header_size() + self.spec_objects()[object].1 <= Self::footprint(
                self.spec_objects()[object].1,
            ),
            self.spec_blocks().range_mapped(
                Self::spec_get_header(object),
                Self::footprint(self.spec_objects()[object].1),
            ),
            forall|addr: int|
                Self::spec_get_header(object) <= addr < Self::spec_get_header(object)
                    + Self::footprint(self.spec_objects()[object].1) ==> #[trigger] block_index_of(
                    addr,
                ) == block_index_of(Self::spec_get_header(object)),
            base_of_block(block_index_of(Self::spec_get_header(object)))
                <= Self::spec_get_header(object),
            Self::spec_get_header(object) + Self::footprint(self.spec_objects()[object].1)
                <= base_of_block(block_index_of(Self::spec_get_header(object))) + BLOCK_CAPACITY,
    {
        assert(self.object_ok(object));
        let space = Self::spec_get_header(object);
        let index = block_index_of(space);
        let size = Self::footprint(self.spec_objects()[object].1);
        self.spec_blocks().spec_blocks()[index].lemma_wf();
        assert forall|addr: int| space <= addr < space + size implies self.spec_blocks().mapped(
            addr,
        ) && block_index_of(addr) == index by {
            lemma_block_offset(index, addr);
        }
    }

    /// The address of the header of the object at `object`.
    pub fn get_header(object: usize) -> (header: usize)
        requires
            object >= H::spec_header_size(),
        ensures
            header == Self::spec_get_header(object as int),
    {
        object - H::header_size()
    }

    /// The address of the object behind the header at `header`.
    pub fn get_object(header: usize) -> (object: usize)
        requires
            header + H::spec_header_size() <= usize::MAX,
        ensures
            object == Self::spec_get_object(header as int),
    {
        header + H::header_size()
    }
}

/// The base address of the block that covers `addr`: the address with the
/// bits of the offset into the block cleared.
pub fn block_base_of(addr: usize) -> (base: usize)
    ensures
        base == addr - addr % BLOCK_SIZE,
        base == base_of_block(block_index_of(addr as int)),
{
    assert(addr & !32767usize == addr - addr % 32768) by (bit_vector);
    proof {
        lemma_block_address(addr as int);
    }
    addr & BLOCK_PTR_MASK
}

/// A type of heap: objects are placed in it, each behind a header, and stay
/// where they are placed.
pub trait AllocRaw {
    /// The type of the headers of the heap.
    type Header: AllocHeader;

    /// The heap that the objects are placed in.
    spec fn spec_raw_heap(&self) -> StickyImmixHeap<Self::Header>;

    /// Places `object` in the heap behind a header for its type, and
    /// returns a pointer to it.
    fn allocate_raw<T: AllocObject<<Self::Header as AllocHeader>::TypeId>>(
        &mut self,
        object: T,
    ) -> (r: Result<RawPtr<T>, AllocError>)
        requires
            old(self).spec_raw_heap().wf(),
        ensures
            final(self).spec_raw_heap().wf(),
            match r {
                Ok(ptr) => {
                    &&& old(self).spec_raw_heap().alloc_outcome(
                        object_size::<<Self::Header as AllocHeader>::TypeId, T>(),
                    ) == Ok::<int, AllocError>(ptr.spec_word() as int)
                    &&& final(self).spec_raw_heap().holds_a(ptr)
                    &&& final(self).spec_raw_heap().payload(ptr.spec_word() as int)
                        == object_bytes::<<Self::Header as AllocHeader>::TypeId, T>(object)
                },
                Err(e) => {
                    &&& old(self).spec_raw_heap().alloc_outcome(
                        object_size::<<Self::Header as AllocHeader>::TypeId, T>(),
                    ) == Err::<int, AllocError>(e)
                    &&& final(self).spec_raw_heap().unchanged(old(self).spec_raw_heap())
                },
            },
    ;

    /// Places an array of `size_bytes` zero bytes in the heap behind an
    /// array header, and returns a pointer to its first byte.
    fn alloc_array_raw(&mut self, size_bytes: ArraySize) -> (r: Result<RawPtr<u8>, AllocError>)
        requires
            old(self).spec_raw_heap().wf(),
        ensures
            final(self).spec_raw_heap().wf(),
            match r {
                Ok(ptr) => {
                    &&& old(self).spec_raw_heap().alloc_outcome(size_bytes as nat) == Ok::<
                        int,
                        AllocError,
                    >(ptr.spec_word() as int)
                    &&& final(self).spec_raw_heap().holds(ptr.spec_word() as int)
                    &&& final(self).spec_raw_heap().payload(ptr.spec_word() as int) == Seq::new(
                        size_bytes as nat,
                        |i: int| 0u8,
                    )
                },
                Err(e) => {
                    &&& old(self).spec_raw_heap().alloc_outcome(size_bytes as nat) == Err::<
                        int,
                        AllocError,
                    >(e)
                    &&& final(self).spec_raw_heap().unchanged(old(self).spec_raw_heap())
                },
            },
    ;
}

impl<H: AllocHeader> AllocRaw for StickyImmixHeap<H> {
    type Header = H;

    open spec fn spec_raw_heap(&self) -> StickyImmixHeap<H> {
        *self
    }

    fn allocate_raw<T: AllocObject<H::TypeId>>(&mut self, object: T) -> (r: Result<
        RawPtr<T>,
        AllocError,
    >) {
        self.allocate(object)
    }

    fn alloc_array_raw(&mut self, size_bytes: ArraySize) -> (r: Result<RawPtr<u8>, AllocError>) {
        self.alloc_array(size_bytes)
    }
}

} // verus!
