use stickyimmix::bumpblock::BumpBlock;
use stickyimmix::constants;

const TEST_UNIT_SIZE: usize = constants::ALLOC_ALIGN_BYTES;

// Helper function: given the Block, fill all holes with u32 values
// and return the number of values allocated.
// Also assert that all allocated values are unchanged as allocation
// proceeds.
fn loop_check_allocate(b: &mut BumpBlock) -> usize {
    let mut v = Vec::new();
    let mut index: u32 = 0;

    loop {
        if let Some(ptr) = b.inner_alloc(TEST_UNIT_SIZE) {
            assert!(!v.contains(&ptr));

            v.push(ptr);
            for (k, byte) in index.to_le_bytes().iter().enumerate() {
                b.write(ptr + k, *byte);
            }

            index += 1;
        } else {
            break;
        }
    }

    for (index, ptr) in v.iter().enumerate() {
        let mut bytes = [0u8; 4];
        for k in 0..4 {
            bytes[k] = b.read(*ptr + k);
        }
        assert!(u32::from_le_bytes(bytes) == index as u32);
    }

    index as usize
}

#[test]
fn test_empty_block() {
    let mut b = BumpBlock::new().unwrap();

    let count = loop_check_allocate(&mut b);
    let expect = constants::BLOCK_CAPACITY / TEST_UNIT_SIZE;

    println!("expect={}, count={}", expect, count);
    assert!(count == expect);
}

#[test]
fn test_half_block() {
    // This block has an available hole as the second half of the block
    let mut b = BumpBlock::new().unwrap();

    for i in 0..(constants::LINE_COUNT / 2) {
        b.mark_line(i);
    }
    let occupied_bytes = (constants::LINE_COUNT / 2) * constants::LINE_SIZE;

    b.recycle(); // block is recycled

    let count = loop_check_allocate(&mut b);
    let expect =
        (constants::BLOCK_CAPACITY - constants::LINE_SIZE - occupied_bytes) / TEST_UNIT_SIZE;

    println!("expect={}, count={}", expect, count);
    assert!(count == expect);
}

#[test]
fn test_conservatively_marked_block() {
    // This block has every other line marked, so the alternate lines are conservatively
    // marked. Nothing should be allocated in this block.

    let mut b = BumpBlock::new().unwrap();

    for i in 0..constants::LINE_COUNT {
        if i % 2 == 0 {
            b.mark_line(i);
        }
    }

    b.recycle(); // block is recycled

    let count = loop_check_allocate(&mut b);

    println!("count={}", count);
    assert!(count == 0);
}

#[test]
fn bump_allocation_goes_downward_and_is_aligned() {
    let mut b = BumpBlock::new().unwrap();
    let base = b.base();
    assert_eq!(base, constants::BLOCK_SIZE);
    assert_eq!(b.current_hole_size(), constants::BLOCK_CAPACITY);
    let first = b.inner_alloc(24).unwrap();
    assert_eq!(first, base + constants::BLOCK_CAPACITY - 32);
    let second = b.inner_alloc(8).unwrap();
    assert_eq!(second, first - 16);
    assert_eq!(second & (constants::ALLOC_ALIGN_BYTES - 1), 0);
    assert_eq!(b.current_hole_size(), constants::BLOCK_CAPACITY - 48);
}

#[test]
fn bump_allocation_of_more_than_a_block_holds_finds_nothing() {
    let mut b = BumpBlock::new().unwrap();
    assert_eq!(b.inner_alloc(constants::BLOCK_CAPACITY + 1), None);
    assert_eq!(b.inner_alloc(usize::MAX), None);
    assert_eq!(b.current_hole_size(), constants::BLOCK_CAPACITY);
    assert!(b.inner_alloc(constants::BLOCK_CAPACITY).is_some());
    assert_eq!(b.current_hole_size(), 0);
    assert_eq!(b.inner_alloc(1), None);
}

#[test]
fn bump_allocation_moves_on_to_the_hole_below_the_marks() {
    let mut b = BumpBlock::new().unwrap();
    let base = b.base();
    for line in 100..constants::LINE_COUNT {
        b.mark_line(line);
    }
    b.recycle();
    // the one hole reaches from line 0 up to line 100
    let space = b.inner_alloc(128).unwrap();
    assert_eq!(space, base + 100 * constants::LINE_SIZE - 128);
    assert_eq!(b.current_hole_size(), 99 * constants::LINE_SIZE);
}

#[test]
fn bump_allocation_takes_the_first_hole_from_the_top() {
    let mut b = BumpBlock::new().unwrap();
    let base = b.base();
    b.mark_line(100);
    b.recycle();
    // the first hole reaches from the top down to line 102: line 101 sits
    // just above a marked line
    let space = b.inner_alloc(128).unwrap();
    assert_eq!(space, base + constants::BLOCK_CAPACITY - 128);
    assert_eq!(
        b.current_hole_size(),
        constants::BLOCK_CAPACITY - 102 * constants::LINE_SIZE - 128
    );
}
