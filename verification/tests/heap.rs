use stickyimmix::allocator::{
    alloc_size_of, AllocError, AllocHeader, Mark, SizeClass,
};
use stickyimmix::arena::{Arena, ArenaHeader};
use stickyimmix::constants;
use stickyimmix::headers::{ObjectHeader, TypeList};
use stickyimmix::heap::StickyImmixHeap;
use stickyimmix::pair::Pair;
use stickyimmix::rawptr::RawPtr;
use stickyimmix::safeptr::TaggedCellPtr;
use stickyimmix::symbol::Symbol;
use stickyimmix::taggedptr::TaggedPtr;
use stickyimmix::vm::Upvalue;

type Heap = StickyImmixHeap<ObjectHeader>;

fn block_of(addr: usize) -> usize {
    addr / constants::BLOCK_SIZE - 1
}

#[test]
fn heap_test_memory() {
    let mut mem = Heap::new();

    match mem.alloc_array(3) {
        Ok(s) => {
            mem.write_object_bytes(s.as_word(), 0, "foo".as_bytes());
            let orig = mem.read_object_bytes(s.as_word(), 0, 3);
            assert!(String::from_utf8(orig).unwrap() == String::from("foo"));
        }

        Err(_) => panic!("Allocation failed"),
    }
}

#[test]
fn heap_test_too_big() {
    let mut mem = Heap::new();
    assert!(mem.alloc_array((constants::BLOCK_SIZE + 1) as u32) == Err(AllocError::BadRequest));
}

#[test]
fn heap_test_many_obs() {
    let mut mem = Heap::new();

    let mut obs = Vec::new();

    // allocate a sequence of numbers
    for i in 0..(constants::BLOCK_SIZE * 3) {
        match mem.allocate(Upvalue::new(i as u32)) {
            Err(_) => assert!(false, "Allocation failed unexpectedly"),
            Ok(ptr) => obs.push(ptr),
        }
    }

    // check that all values of allocated words match the
    // numbers written first, that no heap corruption occurred
    for (i, ob) in obs.iter().enumerate() {
        assert!(i as u32 == mem.get(*ob).location)
    }
}

#[test]
fn test_array() {
    let mut mem = Heap::new();

    let size = 2048;

    match mem.alloc_array(size) {
        Err(_) => assert!(false, "Array allocation failed unexpectedly"),

        Ok(ptr) => {
            // Validate that array is zero initialized all the way through
            let array = mem.read_object_bytes(ptr.as_word(), 0, size as usize);

            assert!(array.len() == size as usize);
            for byte in array {
                assert!(byte == 0);
            }
        }
    }
}

#[test]
fn test_header() {
    let mut mem = Heap::new();

    match mem.allocate(Pair::new()) {
        Ok(s) => {
            let untyped_ptr = s.as_untyped();
            let header_ptr = Heap::get_header(untyped_ptr);
            assert_eq!(header_ptr, untyped_ptr - 8);
            let header = mem.header_of(untyped_ptr);

            assert!(header.type_id() == TypeList::Pair);
        }

        Err(_) => panic!("Allocation failed"),
    }
}

#[test]
fn header_round_trip_of_a_payload_of_24_bytes() {
    let mut mem = Heap::new();
    let ptr = mem.allocate(Upvalue::new(7)).unwrap();
    let object = ptr.as_word();
    let header = mem.header_of(object);
    assert!(header.size_class() == SizeClass::Small);
    assert_eq!(header.size(), 24);
    assert!(!header.is_marked());
    assert!(header.type_id() == TypeList::Upvalue);
    assert_eq!(Heap::get_object(Heap::get_header(object)), object);
    assert_eq!(Heap::get_header(Heap::get_object(object)), object);
    // the header stands in the eight bytes in front of the object
    assert_eq!(Heap::get_header(object), object - 8);
    let word = header.to_word();
    assert!(ObjectHeader::from_word(word).is_some());
    assert_eq!(word, 0 + 0x100 * 0 + 0x1_0000 * 17 + 0x1_0000_0000 * 24);
}

#[test]
fn header_of_an_array_names_the_backing_bytes() {
    let mut mem = Heap::new();
    let ptr = mem.alloc_array(200).unwrap();
    let header = mem.header_of(ptr.as_word());
    assert!(header.type_id() == TypeList::ArrayBackingBytes);
    assert!(header.size_class() == SizeClass::Medium);
    assert_eq!(header.size(), 200);
}

#[test]
fn header_mark_sets_the_mark() {
    let mut header = ObjectHeader::new_array(16, SizeClass::Small, Mark::Allocated);
    assert!(!header.is_marked());
    header.mark();
    assert!(header.is_marked());
    assert_eq!(header.size(), 16);
    let bytes = header.encode();
    assert_eq!(bytes.len(), 8);
    let back = ObjectHeader::decode(&bytes).unwrap();
    assert!(back.is_marked());
    assert!(back.type_id() == TypeList::ArrayBackingBytes);
    // a word whose mark is out of range is no header
    assert!(ObjectHeader::from_word(3).is_none());
    assert!(ObjectHeader::from_word(0x1_0000 * 18).is_none());
}

#[test]
fn every_allocation_is_aligned() {
    let mut mem = Heap::new();
    for size in [0u32, 1, 7, 8, 9, 24, 100, 120, 121, 500, 4000] {
        let ptr = mem.alloc_array(size).unwrap();
        let header = Heap::get_header(ptr.as_word());
        assert_eq!(header & (constants::ALLOC_ALIGN_BYTES - 1), 0);
    }
    let mut arena = Arena::new();
    for _ in 0..100 {
        let ptr = arena.allocate(Pair::new()).unwrap();
        // an object of an arena has no header in front of it
        assert_eq!(ptr.as_word() & (constants::ALLOC_ALIGN_BYTES - 1), 0);
    }
}

#[test]
fn small_allocations_do_not_overlap() {
    let mut mem = Heap::new();
    let mut spans: Vec<(usize, usize)> = Vec::new();
    let mut total = 0;
    let mut size = 1u32;
    while total + 8 + (size as usize) <= constants::BLOCK_CAPACITY {
        let ptr = mem.alloc_array(size).unwrap();
        let begin = ptr.as_word() - 8;
        let end = begin + alloc_size_of(8 + size as usize);
        spans.push((begin, end));
        total += 8 + size as usize;
        size = size % 120 + 1;
    }
    for (i, a) in spans.iter().enumerate() {
        for b in spans.iter().skip(i + 1) {
            assert!(a.1 <= b.0 || b.1 <= a.0);
        }
    }
}

#[test]
fn first_allocation_lies_at_the_top_of_the_first_block() {
    let mut mem = Heap::new();
    let ptr = mem.alloc_array(24).unwrap();
    // 8 bytes of header and 24 bytes of array below the top of the object
    // area of the block at the lowest base
    assert_eq!(
        ptr.as_word(),
        constants::BLOCK_SIZE + constants::BLOCK_CAPACITY - 32 + 8
    );
    let next = mem.alloc_array(1).unwrap();
    assert_eq!(next.as_word(), ptr.as_word() - 16);
}

#[test]
fn medium_object_that_does_not_fit_the_hole_goes_to_the_overflow_block() {
    let mut mem = Heap::new();
    // leave a hole of 64 bytes in the head block
    let big = mem
        .alloc_array((constants::BLOCK_CAPACITY - 64 - 8) as u32)
        .unwrap();
    assert_eq!(block_of(big.as_word()), 0);
    // two lines do not fit the hole: a new block becomes the overflow block
    let medium = mem.alloc_array((2 * constants::LINE_SIZE - 8) as u32).unwrap();
    assert_eq!(block_of(medium.as_word()), 1);
    // a small object still goes to the head
    let small = mem.alloc_array(16).unwrap();
    assert_eq!(block_of(small.as_word()), 0);
    // and the next medium object to the overflow block again
    let medium = mem.alloc_array((2 * constants::LINE_SIZE - 8) as u32).unwrap();
    assert_eq!(block_of(medium.as_word()), 1);
    // a small object that does not fit the head is given a new head
    let small = mem.alloc_array(100).unwrap();
    assert_eq!(block_of(small.as_word()), 2);
}

#[test]
fn object_that_fills_a_block_is_medium_and_one_byte_more_is_refused() {
    let mut mem = Heap::new();
    assert!(mem.alloc_array((constants::BLOCK_CAPACITY - 8) as u32).is_ok());
    assert!(mem.alloc_array((constants::BLOCK_CAPACITY - 7) as u32) == Err(AllocError::BadRequest));
    assert!(mem.alloc_array(u32::MAX) == Err(AllocError::BadRequest));
    // the heap is as usable as before
    assert!(mem.alloc_array(8).is_ok());
}

#[test]
fn arena_refuses_an_object_without_bytes() {
    let mut arena = Arena::new();
    assert!(arena.alloc_array(0) == Err(AllocError::BadRequest));
    assert!(arena.alloc_array(1).is_ok());
    let header = ArenaHeader {};
    assert!(header.is_marked());
    assert_eq!(header.size(), 1);
    assert!(header.size_class() == SizeClass::Small);
    assert!(header.type_id() == TypeList::Symbol);
}

#[test]
fn size_classes() {
    assert!(SizeClass::get_for_size(0) == Err(AllocError::BadRequest));
    assert!(SizeClass::get_for_size(1) == Ok(SizeClass::Small));
    assert!(SizeClass::get_for_size(constants::LINE_SIZE) == Ok(SizeClass::Small));
    assert!(SizeClass::get_for_size(constants::LINE_SIZE + 1) == Ok(SizeClass::Medium));
    assert!(SizeClass::get_for_size(constants::BLOCK_CAPACITY) == Ok(SizeClass::Medium));
    assert!(SizeClass::get_for_size(constants::BLOCK_CAPACITY + 1) == Ok(SizeClass::Large));
    assert!(SizeClass::get_for_size(0xFFFF_FFFF) == Ok(SizeClass::Large));
    assert!(SizeClass::get_for_size(0x1_0000_0000) == Err(AllocError::BadRequest));
    assert_eq!(alloc_size_of(0), 0);
    assert_eq!(alloc_size_of(1), 8);
    assert_eq!(alloc_size_of(8), 8);
    assert_eq!(alloc_size_of(33), 40);
}

#[test]
fn put_overwrites_one_object_and_no_other() {
    let mut mem = Heap::new();
    let first = mem.allocate(Upvalue::new(1)).unwrap();
    let second = mem.allocate(Upvalue::new(2)).unwrap();
    let mut changed = mem.get(first);
    changed.closed = true;
    changed.location = 99;
    changed.value = TaggedCellPtr::new_ptr(TaggedPtr::number(-3));
    mem.put(first, &changed);
    let back = mem.get(first);
    assert!(back.closed);
    assert_eq!(back.location, 99);
    assert!(back.value.get_ptr() == TaggedPtr::number(-3));
    let other = mem.get(second);
    assert!(!other.closed);
    assert_eq!(other.location, 2);
    assert!(mem.header_of(second.as_word()).type_id() == TypeList::Upvalue);
}

#[test]
fn symbol_record_round_trip() {
    let mut arena = Arena::new();
    let name: RawPtr<u8> = RawPtr::new(0x1234_5678);
    let ptr = arena.allocate(Symbol::new(name, 11)).unwrap();
    let back = arena.get(ptr);
    assert_eq!(back.name_ptr().as_word(), 0x1234_5678);
    assert_eq!(back.name_len(), 11);
}
