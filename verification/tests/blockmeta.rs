use stickyimmix::blockalloc::Block;
use stickyimmix::blockmeta::BlockMeta;
use stickyimmix::constants;

#[test]
fn test_find_next_hole() {
    // A set of marked lines with a couple holes.
    // The first hole should be seen as conservatively marked.
    // The second hole should be the one selected.
    let mut block = Block::new(constants::BLOCK_SIZE).unwrap();
    let mut meta = BlockMeta::new(&mut block);

    meta.mark_line(&mut block, 0);
    meta.mark_line(&mut block, 1);
    meta.mark_line(&mut block, 2);
    meta.mark_line(&mut block, 4);
    meta.mark_line(&mut block, 10);

    // line 5 should be conservatively marked
    let expect = Some((10 * constants::LINE_SIZE, 6 * constants::LINE_SIZE));

    let got = meta.find_next_available_hole(&block, 10 * constants::LINE_SIZE, constants::LINE_SIZE);

    println!("test_find_next_hole got {:?} expected {:?}", got, expect);

    assert!(got == expect);
}

#[test]
fn test_find_next_hole_at_line_zero() {
    // Should find the hole starting at the beginning of the block
    let mut block = Block::new(constants::BLOCK_SIZE).unwrap();
    let mut meta = BlockMeta::new(&mut block);

    meta.mark_line(&mut block, 3);
    meta.mark_line(&mut block, 4);
    meta.mark_line(&mut block, 5);

    let expect = Some((3 * constants::LINE_SIZE, 0));

    let got = meta.find_next_available_hole(&block, 3 * constants::LINE_SIZE, constants::LINE_SIZE);

    println!(
        "test_find_next_hole_at_line_zero got {:?} expected {:?}",
        got, expect
    );

    assert!(got == expect);
}

#[test]
fn test_find_next_hole_at_block_end() {
    // The first half of the block is marked.
    // The second half of the block should be identified as a hole.
    let mut block = Block::new(constants::BLOCK_SIZE).unwrap();
    let mut meta = BlockMeta::new(&mut block);

    let halfway = constants::LINE_COUNT / 2;

    for i in halfway..constants::LINE_COUNT {
        meta.mark_line(&mut block, i);
    }

    // because halfway line should be conservatively marked
    let expect = Some((halfway * constants::LINE_SIZE, 0));

    let got = meta.find_next_available_hole(&block, constants::BLOCK_CAPACITY, constants::LINE_SIZE);

    println!(
        "test_find_next_hole_at_block_end got {:?} expected {:?}",
        got, expect
    );

    assert!(got == expect);
}

#[test]
fn test_find_hole_all_conservatively_marked() {
    // Every other line is marked.
    // No hole should be found.
    let mut block = Block::new(constants::BLOCK_SIZE).unwrap();
    let mut meta = BlockMeta::new(&mut block);

    for i in 0..constants::LINE_COUNT {
        if i % 2 == 0 {
            meta.mark_line(&mut block, i);
        }
    }

    let got = meta.find_next_available_hole(&block, constants::BLOCK_CAPACITY, constants::LINE_SIZE);

    println!(
        "test_find_hole_all_conservatively_marked got {:?} expected None",
        got
    );

    assert!(got == None);
}

#[test]
fn test_find_entire_block() {
    // No marked lines. Entire block is available.
    let mut block = Block::new(constants::BLOCK_SIZE).unwrap();
    let meta = BlockMeta::new(&mut block);

    let expect = Some((constants::BLOCK_CAPACITY, 0));
    let got = meta.find_next_available_hole(&block, constants::BLOCK_CAPACITY, constants::LINE_SIZE);

    println!("test_find_entire_block got {:?} expected {:?}", got, expect);

    assert!(got == expect);
}

#[test]
fn hole_search_from_the_top_stops_at_the_first_hole() {
    // lines 0, 1, 2, 4 and 10 are marked: from the top of the object area the
    // first hole reaches from the top down to line 12, since line 11 sits
    // just above a marked line
    let mut block = Block::new(constants::BLOCK_SIZE).unwrap();
    let mut meta = BlockMeta::new(&mut block);
    for line in [0, 1, 2, 4, 10] {
        meta.mark_line(&mut block, line);
    }
    let got = meta.find_next_available_hole(&block, constants::BLOCK_CAPACITY, 128);
    assert_eq!(got, Some((constants::BLOCK_CAPACITY, 12 * constants::LINE_SIZE)));
}

#[test]
fn hole_of_no_bytes_is_found_between_alternate_marks() {
    let mut block = Block::new(constants::BLOCK_SIZE).unwrap();
    let mut meta = BlockMeta::new(&mut block);
    for i in 0..constants::LINE_COUNT {
        if i % 2 == 0 {
            meta.mark_line(&mut block, i);
        }
    }
    let got = meta.find_next_available_hole(&block, constants::BLOCK_CAPACITY, 0);
    assert_eq!(got, Some((constants::BLOCK_CAPACITY, constants::BLOCK_CAPACITY)));
}

#[test]
fn hole_must_have_room_for_every_line_asked_for() {
    let mut block = Block::new(constants::BLOCK_SIZE).unwrap();
    let mut meta = BlockMeta::new(&mut block);
    meta.mark_line(&mut block, 20);
    // below line 20 there are 20 lines; 21 lines do not fit anywhere below
    // a search that starts at line 20
    let got = meta.find_next_available_hole(&block, 20 * constants::LINE_SIZE, 21 * constants::LINE_SIZE);
    assert_eq!(got, None);
    let got = meta.find_next_available_hole(&block, 20 * constants::LINE_SIZE, 20 * constants::LINE_SIZE);
    assert_eq!(got, Some((20 * constants::LINE_SIZE, 0)));
}

#[test]
fn marks_are_kept_in_the_tail_of_the_block() {
    let mut block = Block::new(constants::BLOCK_SIZE).unwrap();
    let mut meta = BlockMeta::new(&mut block);
    meta.mark_line(&mut block, 7);
    assert_eq!(block.read(constants::LINE_MARK_START + 7), 1);
    assert!(meta.is_line_marked(&block, 7));
    assert!(!meta.is_line_marked(&block, 8));
    meta.mark_block(&mut block);
    assert_eq!(block.read(constants::BLOCK_SIZE - 1), 1);
    meta.reset(&mut block);
    assert_eq!(block.read(constants::LINE_MARK_START + 7), 0);
    assert_eq!(block.read(constants::BLOCK_SIZE - 1), 0);
}
