//! Tuning constants of the heap. They must agree everywhere in the runtime.

use vstd::prelude::*;

verus! {

/// Number of address bits covered by one block.
pub const BLOCK_SIZE_BITS: usize = 15;

/// Size of a block in bytes: two to the power `BLOCK_SIZE_BITS`.
pub const BLOCK_SIZE: usize = 32768;

/// Mask that clears the offset-in-block bits of an address.
pub const BLOCK_PTR_MASK: usize = !(BLOCK_SIZE - 1);

/// Number of address bits covered by one line.
pub const LINE_SIZE_BITS: usize = 7;

/// Size of a line in bytes: two to the power `LINE_SIZE_BITS`.
pub const LINE_SIZE: usize = 128;

/// Number of lines in a block: `BLOCK_SIZE / LINE_SIZE`.
pub const LINE_COUNT: usize = 256;

/// Bytes of a block that can hold objects, `BLOCK_SIZE - LINE_COUNT`: the
/// tail of the block holds one mark byte per line.
pub const BLOCK_CAPACITY: usize = 32512;

/// Offset into a block of the first line mark byte.
pub const LINE_MARK_START: usize = BLOCK_CAPACITY;

/// Every allocation is aligned to this many bytes.
pub const ALLOC_ALIGN_BYTES: usize = 16;

/// Mask that rounds an address down to the allocation alignment.
pub const ALLOC_ALIGN_MASK: usize = !(ALLOC_ALIGN_BYTES - 1);

/// Largest size in bytes that an object header can record.
pub const MAX_ALLOC_SIZE: usize = 0xFFFF_FFFF;

/// Smallest size of a small object.
pub const SMALL_OBJECT_MIN: usize = 1;

/// Largest size of a small object: one line.
pub const SMALL_OBJECT_MAX: usize = LINE_SIZE;

/// Smallest size of a medium object.
pub const MEDIUM_OBJECT_MIN: usize = SMALL_OBJECT_MAX + 1;

/// Largest size of a medium object: what a whole block can hold.
pub const MEDIUM_OBJECT_MAX: usize = BLOCK_CAPACITY;

/// Smallest size of a large object.
pub const LARGE_OBJECT_MIN: usize = MEDIUM_OBJECT_MAX + 1;

/// Largest size of a large object.
pub const LARGE_OBJECT_MAX: usize = MAX_ALLOC_SIZE;

/// The derived constants agree with the bit widths they are derived from.
pub proof fn lemma_constants_consistent()
    ensures
        BLOCK_SIZE == 1usize << BLOCK_SIZE_BITS,
        LINE_SIZE == 1usize << LINE_SIZE_BITS,
        LINE_COUNT * LINE_SIZE == BLOCK_SIZE,
        BLOCK_CAPACITY + LINE_COUNT == BLOCK_SIZE,
        BLOCK_CAPACITY % LINE_SIZE == 0,
        BLOCK_CAPACITY % ALLOC_ALIGN_BYTES == 0,
        LINE_SIZE % ALLOC_ALIGN_BYTES == 0,
{
    assert(32768usize == 1usize << 15usize) by (bit_vector);
    assert(128usize == 1usize << 7usize) by (bit_vector);
}

} // verus!
