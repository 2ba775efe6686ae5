use stickyimmix::blockalloc::{Block, BlockError, BlockSize};

fn alloc_dealloc(size: BlockSize) -> Result<(), BlockError> {
    let block = Block::new(size)?;

    // the block address bitwise AND the alignment bits (size - 1) should
    // be a mutually exclusive set of bits
    let mask = size - 1;
    assert!((block.as_ptr() & mask) ^ mask == mask);

    drop(block);
    Ok(())
}

#[test]
fn test_bad_sizealign() {
    assert!(alloc_dealloc(999) == Err(BlockError::BadRequest))
}

#[test]
fn test_4k() {
    assert!(alloc_dealloc(4096).is_ok())
}

#[test]
fn test_32k() {
    assert!(alloc_dealloc(32768).is_ok())
}

#[test]
fn test_16m() {
    assert!(alloc_dealloc(16 * 1024 * 1024).is_ok())
}

#[test]
fn block_of_size_zero_is_a_bad_request() {
    assert!(Block::new(0).is_err());
    assert!(matches!(Block::new(0), Err(BlockError::BadRequest)));
}

#[test]
fn block_beyond_the_largest_size_is_out_of_memory() {
    assert!(matches!(Block::new(0x8000_0000), Err(BlockError::OOM)));
}

#[test]
fn block_is_zeroed_and_keeps_what_is_written() {
    let mut block = Block::new(4096).unwrap();
    assert_eq!(block.size(), 4096);
    assert_eq!(block.as_ptr(), 4096);
    assert_eq!(block.read(17), 0);
    block.write(17, 42);
    assert_eq!(block.read(17), 42);
    assert_eq!(block.read(16), 0);
    assert_eq!(block.into_mut_ptr(), 4096);
}

#[test]
fn block_at_a_base_that_is_not_aligned_is_a_bad_request() {
    assert!(matches!(Block::at(4096 + 8, 4096), Err(BlockError::BadRequest)));
    assert!(matches!(Block::at(0, 4096), Err(BlockError::BadRequest)));
    assert!(Block::at(3 * 4096, 4096).is_ok());
}
