use stickyimmix::error::RuntimeError;
use stickyimmix::headers::TypeList;
use stickyimmix::memory::{Memory, Mutator, MutatorView};
use stickyimmix::pair::{cons, Pair};
use stickyimmix::pointerops::{get_tag, Tagged, TAG_NUMBER, TAG_OBJECT, TAG_PAIR, TAG_SYMBOL};
use stickyimmix::rawptr::RawPtr;
use stickyimmix::safeptr::{ScopedPtr, TaggedCellPtr};
use stickyimmix::taggedptr::{FatPtr, TaggedPtr, Value};
use stickyimmix::text::Text;
use stickyimmix::vm::Upvalue;

fn with_memory(test_fn: fn(&mut MutatorView) -> Result<(), RuntimeError>) {
    let mut mem = Memory::new();

    struct Test {}
    impl Mutator for Test {
        type Input = fn(&mut MutatorView) -> Result<(), RuntimeError>;
        type Output = ();

        fn run(
            &self,
            mem: &mut MutatorView,
            test_fn: Self::Input,
        ) -> Result<Self::Output, RuntimeError> {
            test_fn(mem)
        }
    }

    let test = Test {};
    mem.mutate(&test, test_fn).unwrap();
}

#[test]
fn tagged_number_minus_three() {
    let ptr = TaggedPtr::number(-3);
    assert_eq!(ptr.as_word() & 3, 0);
    assert_eq!(ptr.as_word(), (-12isize) as usize);
    match ptr.into_fat_ptr(TypeList::Pair) {
        FatPtr::Number(n) => assert_eq!(n, -3),
        _ => panic!("a number was expected"),
    }
}

#[test]
fn tagged_numbers_come_back() {
    for value in [1isize, -1, 2, 1000, -1000, isize::MAX / 4, isize::MIN / 4] {
        let ptr = TaggedPtr::number(value);
        assert_eq!(get_tag(ptr.as_word()), TAG_NUMBER);
        assert_eq!(ptr.as_word(), (value as usize) << 2);
        assert_eq!(TaggedPtr::number_of_word(ptr.as_word()), value);
        assert!(FatPtr::Number(value) == ptr.into_fat_ptr(TypeList::Pair));
        assert!(TaggedPtr::from(FatPtr::Number(value)) == ptr);
    }
    assert_eq!(TaggedPtr::literal_integer(-32768).as_word(), (-131072isize) as usize);
    assert_eq!(TaggedPtr::literal_integer(32767).as_word(), 131068);
}

#[test]
fn tagged_number_zero_is_nil() {
    let ptr = TaggedPtr::number(0);
    assert!(ptr.is_nil());
    assert!(ptr == TaggedPtr::nil());
    assert!(FatPtr::Nil == ptr.into_fat_ptr(TypeList::Pair));
}

#[test]
fn tagged_number_that_does_not_fit_loses_its_upper_bits() {
    let ptr = TaggedPtr::number(isize::MAX);
    assert_eq!(ptr.as_word(), usize::MAX - 3);
    assert_eq!(TaggedPtr::number_of_word(ptr.as_word()), -1);
}

#[test]
fn tagged_pointers_carry_their_tag() {
    let pair: RawPtr<Pair> = RawPtr::new(0x8000);
    let tagged = TaggedPtr::from(FatPtr::Pair(pair));
    assert_eq!(tagged.as_word(), 0x8002);
    assert_eq!(get_tag(tagged.as_word()), TAG_PAIR);
    assert!(tagged.into_fat_ptr(TypeList::Pair) == FatPtr::Pair(pair));

    let raw: RawPtr<Upvalue> = RawPtr::new(0x8010);
    let tagged = TaggedPtr::from(FatPtr::Upvalue(raw));
    assert_eq!(tagged.as_word(), 0x8013);
    assert_eq!(get_tag(tagged.as_word()), TAG_OBJECT);
    match tagged.into_fat_ptr(TypeList::Upvalue) {
        FatPtr::Upvalue(back) => assert!(back == raw),
        _ => panic!("an upvalue was expected"),
    }
    match tagged.into_fat_ptr(TypeList::Text) {
        FatPtr::Text(back) => assert_eq!(back.as_word(), 0x8010),
        _ => panic!("a text was expected"),
    }

    assert_eq!(pair.tag(TAG_SYMBOL), 0x8001);
    let back: RawPtr<Pair> = RawPtr::untag(0x8003);
    assert_eq!(back.as_word(), 0x8000);
}

#[test]
fn object_pointer_takes_its_type_from_the_header() {
    fn test_inner(mem: &mut MutatorView) -> Result<(), RuntimeError> {
        let upvalue = mem.alloc_tagged(Upvalue::new(3))?;
        assert_eq!(get_tag(upvalue.get_ptr().as_word()), TAG_OBJECT);
        match upvalue.value() {
            Value::Upvalue(ptr) => assert_eq!(mem.get(ptr).location, 3),
            _ => panic!("an upvalue was expected"),
        }
        let text = Text::new_from_str(mem, "abc")?;
        let text = mem.alloc_tagged(text)?;
        match text.value() {
            Value::Text(ptr) => assert_eq!(mem.get(ptr).as_str(mem), "abc"),
            _ => panic!("a text was expected"),
        }
        // a cell that holds the pointer gives the same value back
        let cell = TaggedCellPtr::new_with(upvalue);
        let back = cell.get(mem);
        assert!(back == upvalue);
        match back.value() {
            Value::Upvalue(_) => {}
            _ => panic!("an upvalue was expected"),
        }
        Ok(())
    }
    with_memory(test_inner)
}

#[test]
fn symbol_identity() {
    fn test_inner(mem: &mut MutatorView) -> Result<(), RuntimeError> {
        let foo = mem.lookup_sym("foo")?;
        let again = mem.lookup_sym("foo")?;
        let bar = mem.lookup_sym("bar")?;
        assert!(foo == again);
        assert_eq!(foo.get_ptr().as_word(), again.get_ptr().as_word());
        assert!(foo != bar);
        assert_eq!(get_tag(foo.get_ptr().as_word()), TAG_SYMBOL);
        match foo.value() {
            Value::Symbol(symbol) => assert_eq!(mem.symbol_name(symbol), "foo"),
            _ => panic!("a symbol was expected"),
        }
        match bar.value() {
            Value::Symbol(symbol) => assert_eq!(mem.symbol_name(symbol), "bar"),
            _ => panic!("a symbol was expected"),
        }
        // many more symbols later, foo is still foo
        for i in 0..3000 {
            mem.lookup_sym(&format!("symbol-number-{}", i))?;
        }
        let later = mem.lookup_sym("foo")?;
        assert!(later == foo);
        let other = mem.lookup_sym("symbol-number-17")?;
        match other.value() {
            Value::Symbol(symbol) => assert_eq!(mem.symbol_name(symbol), "symbol-number-17"),
            _ => panic!("a symbol was expected"),
        }
        Ok(())
    }
    with_memory(test_inner)
}

#[test]
fn scoped_pointer_as_tagged() {
    fn test_inner(mem: &mut MutatorView) -> Result<(), RuntimeError> {
        let pair: ScopedPtr<Pair> = mem.allocate(Pair::new())?;
        let tagged = pair.as_tagged(mem.guard());
        assert_eq!(get_tag(tagged.get_ptr().as_word()), TAG_PAIR);
        assert_eq!(tagged.get_ptr().as_word(), pair.as_raw().as_word() | TAG_PAIR);
        let nil = mem.nil();
        assert!(nil.get_ptr().is_nil());
        let list = cons(mem, tagged, nil)?;
        match list.value() {
            Value::Pair(ptr) => {
                let first = mem.get(ptr).first;
                assert!(first.get_ptr() == tagged.get_ptr());
            }
            _ => panic!("a pair was expected"),
        }
        Ok(())
    }
    with_memory(test_inner)
}

#[test]
fn fat_pointers_compare_by_identity() {
    let a: RawPtr<Pair> = RawPtr::new(0x8000);
    let b: RawPtr<Pair> = RawPtr::new(0x8030);
    assert!(FatPtr::Pair(a) == FatPtr::Pair(a));
    assert!(FatPtr::Pair(a) != FatPtr::Pair(b));
    assert!(FatPtr::Nil == FatPtr::Nil);
    assert!(FatPtr::Number(4) != FatPtr::Number(5));
    let text: RawPtr<Text> = RawPtr::new(0x8000);
    // texts are never equal, not even to themselves
    assert!(FatPtr::Text(text) != FatPtr::Text(text));
}
