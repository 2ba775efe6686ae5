//! A block with a bump cursor. Allocation moves the cursor downward through
//! the current hole toward its limit, and goes on to the next hole below when
//! the current one is used up.

use vstd::prelude::*;
use vstd::arithmetic::power2::is_pow2;
use crate::allocator::{alloc_error_of, AllocError};
use crate::blockalloc::{block_request, Block, BlockError};
use crate::blockmeta::{
    lemma_hole_is_unmarked, line_marks, lines_required, next_available_hole, BlockMeta,
};
use crate::constants::{
    ALLOC_ALIGN_BYTES, ALLOC_ALIGN_MASK, BLOCK_CAPACITY, BLOCK_SIZE, LINE_COUNT, LINE_MARK_START,
    LINE_SIZE,
};

verus! {

/// `addr` rounded down to the allocation alignment.
pub open spec fn align_down(addr: int) -> int {
    addr - addr % (ALLOC_ALIGN_BYTES as int)
}

/// Where a block with the given cursor, limit, base and line marks places
/// `alloc_size` bytes: the new cursor, which is the address of the space, and
/// the new limit; or nothing, if no hole at or below the cursor has room.
///
/// The space is taken below the cursor if it fits above the limit. If not,
/// and if the limit lies above the base, the block moves on to the next hole
/// below the limit that has room, and takes the space from the top of it.
pub open spec fn bump_alloc(cursor: int, limit: int, base: int, marks: Seq<u8>, alloc_size: int)
    -> Option<(int, int)> {
    if alloc_size > cursor {
        None
    } else if align_down(cursor - alloc_size) >= limit {
        Some((align_down(cursor - alloc_size), limit))
    } else if limit > base {
        match next_available_hole(marks, limit - base, alloc_size) {
            Some((high, low)) => Some((align_down(base + high - alloc_size), base + low)),
            None => None,
        }
    } else {
        None
    }
}

/// A block of the heap, with its bump cursor, the limit of its current hole,
/// and its line marks.
pub struct BumpBlock {
    cursor: usize,
    limit: usize,
    block: Block,
    meta: BlockMeta,
}

impl BumpBlock {
    /// The address below which the next allocation is placed.
    pub closed spec fn spec_cursor(&self) -> int {
        self.cursor as int
    }

    /// The low edge of the current hole.
    pub closed spec fn spec_limit(&self) -> int {
        self.limit as int
    }

    /// The base address of the block.
    pub closed spec fn spec_base(&self) -> int {
        self.block.spec_ptr()
    }

    /// The bytes of the object area, the first at the base address.
    pub closed spec fn spec_memory(&self) -> Seq<u8> {
        self.block@.subrange(0, BLOCK_CAPACITY as int)
    }

    /// The line marks, one byte per line.
    pub closed spec fn spec_marks(&self) -> Seq<u8> {
        line_marks(self.block)
    }

    /// The block is a block of the heap's block size, aligned to it, with its
    /// marks; the cursor and the limit are aligned and lie in the object
    /// area, the limit at or below the cursor.
    pub closed spec fn wf(&self) -> bool {
        &&& self.meta.describes(self.block)
        &&& self.block.spec_ptr() <= self.limit <= self.cursor <= self.block.spec_ptr()
            + BLOCK_CAPACITY
        &&& self.cursor % ALLOC_ALIGN_BYTES == 0
        &&& self.limit % ALLOC_ALIGN_BYTES == 0
    }

    /// What well-formedness says of the addresses of a block.
    pub proof fn lemma_wf(&self)
        requires
            self.wf(),
        ensures
            0 < self.spec_base(),
            self.spec_base() % (BLOCK_SIZE as int) == 0,
            self.spec_base() + BLOCK_SIZE <= usize::MAX,
            self.spec_base() <= self.spec_limit() <= self.spec_cursor() <= self.spec_base()
                + BLOCK_CAPACITY,
            align_down(self.spec_cursor()) == self.spec_cursor(),
            align_down(self.spec_limit()) == self.spec_limit(),
            self.spec_memory().len() == BLOCK_CAPACITY,
            self.spec_marks().len() == LINE_COUNT,
    {
    }

    /// A fresh block at the lowest base of the address space.
    pub fn new() -> (r: Result<BumpBlock, AllocError>)
        ensures
            r matches Ok(block) && block.is_fresh_at(BLOCK_SIZE as int),
    {
        proof {
            lemma_block_size_is_valid();
        }
        BumpBlock::at(BLOCK_SIZE)
    }

    /// This is a block as `at` makes it: empty, zeroed and unmarked, at
    /// base `base`.
    pub open spec fn is_fresh_at(&self, base: int) -> bool {
        &&& self.wf()
        &&& self.spec_base() == base
        &&& self.spec_cursor() == base + BLOCK_CAPACITY
        &&& self.spec_limit() == base
        &&& self.spec_memory() == Seq::new(BLOCK_CAPACITY as nat, |i: int| 0u8)
        &&& self.spec_marks() == Seq::new(LINE_COUNT as nat, |i: int| 0u8)
    }

    /// A fresh block at base `base`: the whole object area is one hole, the
    /// memory is zeroed and no line is marked.
    pub fn at(base: usize) -> (r: Result<BumpBlock, AllocError>)
        ensures
            match r {
                Ok(block) => {
                    &&& block_request(base as int, BLOCK_SIZE as int) is Ok
                    &&& block.is_fresh_at(base as int)
                },
                Err(e) => block_request(base as int, BLOCK_SIZE as int) matches Err(b)
                    && e == alloc_error_of(b),
            },
    {
        let mut inner_block = match Block::at(base, BLOCK_SIZE) {
            Ok(block) => block,
            Err(BlockError::BadRequest) => { return Err(AllocError::BadRequest); },
            Err(BlockError::OOM) => { return Err(AllocError::OOM); },
        };
        let ghost zeroed = inner_block@;
        let meta = BlockMeta::new(&mut inner_block);
        let block = BumpBlock {
            cursor: base + BLOCK_CAPACITY,
            limit: base,
            block: inner_block,
            meta,
        };
        assert(block.spec_memory() =~= Seq::new(BLOCK_CAPACITY as nat, |i: int| 0u8)) by {
            assert(forall|i: int|
                0 <= i < BLOCK_CAPACITY ==> block.spec_memory()[i] == zeroed.subrange(
                    0,
                    LINE_MARK_START as int,
                )[i]);
        }
        Ok(block)
    }

    /// Finds `alloc_size` bytes of space, aligned to the allocation
    /// alignment, and returns the address of the space, or nothing if no hole
    /// of the block has room.
    pub fn inner_alloc(&mut self, alloc_size: usize) -> (space: Option<usize>)
        requires
            old(self).wf(),
        ensures
            final(self).wf(),
            final(self).spec_base() == old(self).spec_base(),
            final(self).spec_memory() == old(self).spec_memory(),
            final(self).spec_marks() == old(self).spec_marks(),
            match space {
                Some(addr) => bump_alloc(
                    old(self).spec_cursor(),
                    old(self).spec_limit(),
                    old(self).spec_base(),
                    old(self).spec_marks(),
                    alloc_size as int,
                ) == Some((addr as int, final(self).spec_limit()))
                    && final(self).spec_cursor() == addr,
                None => bump_alloc(
                    old(self).spec_cursor(),
                    old(self).spec_limit(),
                    old(self).spec_base(),
                    old(self).spec_marks(),
                    alloc_size as int,
                ) is None && *final(self) == *old(self),
            },
    {
        let ptr: usize = self.cursor;
        let limit: usize = self.limit;
        if alloc_size > ptr {
            return None;
        }
        let next_ptr: usize = round_down(ptr - alloc_size);
        if next_ptr < limit {
            let base: usize = self.block.as_ptr();
            let block_relative_limit: usize = limit - base;
            if block_relative_limit > 0 {
                match self.meta.find_next_available_hole(
                    &self.block,
                    block_relative_limit,
                    alloc_size,
                ) {
                    Some((high, low)) => {
                        proof {
                            lemma_hole_is_unmarked(
                                line_marks(self.block),
                                block_relative_limit as int / LINE_SIZE as int,
                                lines_required(alloc_size as int),
                            );
                            lemma_hole_has_room(
                                base as int,
                                high as int,
                                low as int,
                                alloc_size as int,
                            );
                        }
                        let next_ptr: usize = round_down(base + high - alloc_size);
                        self.cursor = next_ptr;
                        self.limit = base + low;
                        return Some(next_ptr);
                    },
                    None => {},
                }
            }
            None
        } else {
            self.cursor = next_ptr;
            Some(next_ptr)
        }
    }

    /// The size in bytes of the hole that the block is positioned at.
    pub fn current_hole_size(&self) -> (size: usize)
        requires
            self.wf(),
        ensures
            size == self.spec_cursor() - self.spec_limit(),
    {
        self.cursor - self.limit
    }

    /// The base address of the block.
    pub fn base(&self) -> (base: usize)
        ensures
            base == self.spec_base(),
    {
        self.block.as_ptr()
    }

    /// The byte at address `addr` of the object area.
    pub fn read(&self, addr: usize) -> (byte: u8)
        requires
            self.wf(),
            self.spec_base() <= addr < self.spec_base() + BLOCK_CAPACITY,
        ensures
            byte == self.spec_memory()[addr - self.spec_base()],
    {
        self.block.read(addr - self.block.as_ptr())
    }

    /// Stores `byte` at address `addr` of the object area.
    pub fn write(&mut self, addr: usize, byte: u8)
        requires
            old(self).wf(),
            old(self).spec_base() <= addr < old(self).spec_base() + BLOCK_CAPACITY,
        ensures
            final(self).wf(),
            final(self).spec_base() == old(self).spec_base(),
            final(self).spec_cursor() == old(self).spec_cursor(),
            final(self).spec_limit() == old(self).spec_limit(),
            final(self).spec_marks() == old(self).spec_marks(),
            final(self).spec_memory() == old(self).spec_memory().update(
                addr - old(self).spec_base(),
                byte,
            ),
    {
        let offset: usize = addr - self.block.as_ptr();
        self.block.write(offset, byte);
        assert(self.spec_marks() =~= old(self).spec_marks());
        assert(self.spec_memory() =~= old(self).spec_memory().update(offset as int, byte));
    }

    /// Marks line `index`, as a collector does for a line that holds a live
    /// object.
    pub fn mark_line(&mut self, index: usize)
        requires
            old(self).wf(),
            index < LINE_COUNT,
        ensures
            final(self).wf(),
            final(self).spec_base() == old(self).spec_base(),
            final(self).spec_cursor() == old(self).spec_cursor(),
            final(self).spec_limit() == old(self).spec_limit(),
            final(self).spec_memory() == old(self).spec_memory(),
            final(self).spec_marks() == old(self).spec_marks().update(index as int, 1u8),
    {
        self.meta.mark_line(&mut self.block, index);
        assert(self.spec_memory() =~= old(self).spec_memory());
    }

    /// Gives up what is left of the current hole: the limit moves up to the
    /// cursor, so that the next allocation searches the line marks for a
    /// hole below.
    pub fn recycle(&mut self)
        requires
            old(self).wf(),
        ensures
            final(self).wf(),
            final(self).spec_base() == old(self).spec_base(),
            final(self).spec_cursor() == old(self).spec_cursor(),
            final(self).spec_limit() == old(self).spec_cursor(),
            final(self).spec_memory() == old(self).spec_memory(),
            final(self).spec_marks() == old(self).spec_marks(),
    {
        self.limit = self.cursor;
    }
}

/// The space that a block hands out lies in the block, below its cursor and
/// at or above its new limit, and is aligned.
pub proof fn lemma_bump_alloc_in_hole(block: BumpBlock, alloc_size: int)
    requires
        block.wf(),
        0 <= alloc_size,
    ensures
        match bump_alloc(
            block.spec_cursor(),
            block.spec_limit(),
            block.spec_base(),
            block.spec_marks(),
            alloc_size,
        ) {
            Some((space, limit)) => {
                &&& block.spec_base() <= limit <= space
                &&& space + alloc_size <= block.spec_cursor()
                &&& align_down(space) == space
                &&& align_down(limit) == limit
            },
            None => true,
        },
{
    let cursor = block.spec_cursor();
    let limit = block.spec_limit();
    let base = block.spec_base();
    if alloc_size <= cursor && align_down(cursor - alloc_size) < limit && limit > base {
        let start = (limit - base) / (LINE_SIZE as int);
        lemma_hole_is_unmarked(block.spec_marks(), start, lines_required(alloc_size));
        match next_available_hole(block.spec_marks(), limit - base, alloc_size) {
            Some((high, low)) => {
                lemma_hole_has_room(base, high, low, alloc_size);
            },
            None => {},
        }
    }
}

/// The heap's block size is a size that a block can have.
pub proof fn lemma_block_size_is_valid()
    ensures
        is_pow2(BLOCK_SIZE as int),
        block_request(BLOCK_SIZE as int, BLOCK_SIZE as int) is Ok,
{
    reveal_with_fuel(is_pow2, 17);
}

/// A hole of whole lines with room for the lines that `alloc_size` bytes
/// need has room for the bytes themselves, aligned, at its top.
pub proof fn lemma_hole_has_room(base: int, high: int, low: int, alloc_size: int)
    requires
        base % (BLOCK_SIZE as int) == 0,
        0 <= low <= high,
        0 <= alloc_size,
        high % (LINE_SIZE as int) == 0,
        low % (LINE_SIZE as int) == 0,
        high - low >= lines_required(alloc_size) * LINE_SIZE,
    ensures
        alloc_size <= high - low,
        base + low <= align_down(base + high - alloc_size) <= base + high - alloc_size,
        align_down(base + high - alloc_size) % (ALLOC_ALIGN_BYTES as int) == 0,
        (base + low) % (ALLOC_ALIGN_BYTES as int) == 0,
{
}

/// Rounds an address down to the allocation alignment.
pub fn round_down(addr: usize) -> (aligned: usize)
    ensures
        aligned == align_down(addr as int),
{
    assert(addr & !15usize == addr - addr % 16) by (bit_vector);
    addr & ALLOC_ALIGN_MASK
}

} // verus!
