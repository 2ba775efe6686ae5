//! Raw blocks: power-of-two sized regions of a simulated address space, each
//! aligned to its own size.
//!
//! A block owns its bytes. Its base address is a plain number: blocks made at
//! different bases cover different address ranges, so an address names at most
//! one byte of one block.

use vstd::prelude::*;
use vstd::arithmetic::power2::is_pow2;

verus! {

/// An address of the simulated address space.
pub type BlockPtr = usize;

/// A size in bytes.
pub type BlockSize = usize;

/// The largest block that the address space hands out.
pub const BLOCK_SIZE_MAX: usize = 0x4000_0000;

/// Why a block could not be made.
#[derive(Debug, PartialEq, Eq, Clone, Copy)]
pub enum BlockError {
    /// The size is not a positive power of two, or the base is not a
    /// non-null multiple of the size.
    BadRequest,
    /// The address space has no room for the block.
    OOM,
}

/// A block of memory whose base address is a multiple of its size.
pub struct Block {
    ptr: BlockPtr,
    size: BlockSize,
    bytes: Vec<u8>,
}

/// What `Block::at` returns for a base and a size, up to the block's content.
pub open spec fn block_request(ptr: int, size: int) -> Result<(), BlockError> {
    if !is_pow2(size) || ptr <= 0 || ptr % size != 0 {
        Err(BlockError::BadRequest)
    } else if size > BLOCK_SIZE_MAX || ptr + size > usize::MAX {
        Err(BlockError::OOM)
    } else {
        Ok(())
    }
}

/// Decides whether `size` is a power of two.
pub fn is_power_of_two(size: usize) -> (b: bool)
    ensures
        b == is_pow2(size as int),
{
    reveal(is_pow2);
    if size == 0 {
        return false;
    }
    let mut n: usize = size;
    while n % 2 == 0
        invariant
            n > 0,
            is_pow2(n as int) == is_pow2(size as int),
        decreases n,
    {
        proof {
            reveal(is_pow2);
        }
        n = n / 2;
    }
    n == 1
}

impl View for Block {
    type V = Seq<u8>;

    /// The bytes of the block, the first at the base address.
    closed spec fn view(&self) -> Seq<u8> {
        self.bytes@
    }
}

impl Block {
    /// The base address.
    pub closed spec fn spec_ptr(&self) -> int {
        self.ptr as int
    }

    /// The size in bytes.
    pub closed spec fn spec_size(&self) -> int {
        self.size as int
    }

    /// The block lies at a non-null base that is a multiple of its power-of-two
    /// size, fits below the top of the address space and holds one byte per
    /// address.
    pub open spec fn wf(&self) -> bool {
        &&& block_request(self.spec_ptr(), self.spec_size()) is Ok
        &&& self@.len() == self.spec_size()
    }

    /// A zeroed block of `size` bytes at the lowest base that suits it, which
    /// is `size` itself.
    pub fn new(size: BlockSize) -> (r: Result<Block, BlockError>)
        ensures
            match r {
                Ok(block) => {
                    &&& block_request(size as int, size as int) is Ok
                    &&& block.wf()
                    &&& block.spec_ptr() == size
                    &&& block.spec_size() == size
                    &&& block@ == Seq::new(size as nat, |i: int| 0u8)
                },
                Err(e) => block_request(size as int, size as int) == Err::<(), BlockError>(e),
            },
    {
        Block::at(size, size)
    }

    /// A zeroed block of `size` bytes at base `ptr`.
    pub fn at(ptr: BlockPtr, size: BlockSize) -> (r: Result<Block, BlockError>)
        ensures
            match r {
                Ok(block) => {
                    &&& block_request(ptr as int, size as int) is Ok
                    &&& block.wf()
                    &&& block.spec_ptr() == ptr
                    &&& block.spec_size() == size
                    &&& block@ == Seq::new(size as nat, |i: int| 0u8)
                },
                Err(e) => block_request(ptr as int, size as int) == Err::<(), BlockError>(e),
            },
    {
        if !is_power_of_two(size) {
            return Err(BlockError::BadRequest);
        }
        proof {
            reveal(is_pow2);
        }
        if ptr == 0 || ptr % size != 0 {
            return Err(BlockError::BadRequest);
        }
        if size > BLOCK_SIZE_MAX || ptr > usize::MAX - size {
            return Err(BlockError::OOM);
        }
        let bytes = vec![0u8; size];
        assert(bytes@ =~= Seq::new(size as nat, |i: int| 0u8));
        Ok(Block { ptr, size, bytes })
    }

    /// Gives up the block and returns its base address.
    pub fn into_mut_ptr(self) -> (ptr: BlockPtr)
        ensures
            ptr == self.spec_ptr(),
    {
        self.ptr
    }

    /// The size of the block in bytes.
    pub fn size(&self) -> (size: BlockSize)
        ensures
            size == self.spec_size(),
    {
        self.size
    }

    /// The base address of the block.
    pub fn as_ptr(&self) -> (ptr: BlockPtr)
        ensures
            ptr == self.spec_ptr(),
    {
        self.ptr
    }

    /// The byte at `offset` from the base.
    pub fn read(&self, offset: usize) -> (byte: u8)
        requires
            self.wf(),
            offset < self.spec_size(),
        ensures
            byte == self@[offset as int],
    {
        self.bytes[offset]
    }

    /// Stores `byte` at `offset` from the base.
    pub fn write(&mut self, offset: usize, byte: u8)
        requires
            old(self).wf(),
            offset < old(self).spec_size(),
        ensures
            final(self).wf(),
            final(self).spec_ptr() == old(self).spec_ptr(),
            final(self).spec_size() == old(self).spec_size(),
            final(self)@ == old(self)@.update(offset as int, byte),
    {
        self.bytes[offset] = byte;
    }
}

/// The base address of a block has no bit set below the size of the block:
/// the bitwise and of the base and of the size less one is zero.
pub proof fn lemma_base_is_aligned(block: Block)
    requires
        block.wf(),
    ensures
        block.spec_ptr() % block.spec_size() == 0,
        (block.spec_ptr() as usize) & ((block.spec_size() - 1) as usize) == 0,
{
    let size = block.spec_size();
    let ptr = block.spec_ptr() as usize;
    vstd::arithmetic::power2::is_pow2_equiv(size);
    let i = choose|i: nat| vstd::arithmetic::power::pow(2, i) == size;
    vstd::arithmetic::power2::lemma2_to64();
    if i > 30 {
        vstd::arithmetic::power2::lemma_pow2_strictly_increases(30, i);
    }
    vstd::bits::lemma_usize_low_bits_mask_is_mod(ptr, i);
}

} // verus!
