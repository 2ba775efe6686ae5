use stickyimmix::array::{Array, ArrayU8};
use stickyimmix::containers::{
    AnyContainerFromPairList, AnyContainerFromSlice, Container, ContainerFromSlice,
    FillAnyContainer, FillContainer, IndexedAnyContainer, StackAnyContainer,
};
use stickyimmix::error::{ErrorKind, RuntimeError};
use stickyimmix::memory::{Memory, Mutator, MutatorView};
use stickyimmix::pair::Pair;
use stickyimmix::safeptr::TaggedCellPtr;
use stickyimmix::taggedptr::Value;

#[test]
fn array_generic_push_and_pop() {
    let mut mem = Memory::new();

    struct Test {}
    impl Mutator for Test {
        type Input = ();
        type Output = ();

        fn run(
            &self,
            view: &mut MutatorView,
            _input: Self::Input,
        ) -> Result<Self::Output, RuntimeError> {
            let mut array: Array<i64> = Array::new();

            for i in 0..1000 {
                array.push(view, i)?;
            }

            for i in 0..1000 {
                assert!(array.pop(view)? == 999 - i);
            }

            Ok(())
        }
    }

    let test = Test {};
    mem.mutate(&test, ()).unwrap();
}

#[test]
fn array_generic_indexing() {
    let mut mem = Memory::new();

    struct Test {}
    impl Mutator for Test {
        type Input = ();
        type Output = ();

        fn run(
            &self,
            view: &mut MutatorView,
            _input: Self::Input,
        ) -> Result<Self::Output, RuntimeError> {
            let mut array: Array<i64> = Array::new();

            for i in 0..12 {
                array.push(view, i)?;
            }

            assert!(array.get(view, 0) == Ok(0));
            assert!(array.get(view, 4) == Ok(4));

            for i in 12..1000 {
                match array.get(view, i) {
                    Ok(_) => panic!("Array index should have been out of bounds!"),
                    Err(e) => assert!(*e.error_kind() == ErrorKind::BoundsError),
                }
            }

            Ok(())
        }
    }

    let test = Test {};
    mem.mutate(&test, ()).unwrap();
}

#[test]
fn arrayany_tagged_pointers() {
    let mut mem = Memory::new();

    struct Test {}
    impl Mutator for Test {
        type Input = ();
        type Output = ();

        fn run(
            &self,
            view: &mut MutatorView,
            _input: Self::Input,
        ) -> Result<Self::Output, RuntimeError> {
            let array: Array<TaggedCellPtr> = Array::new();
            let ptr = view.allocate(array)?;
            let mut array = view.get(ptr);

            for _ in 0..12 {
                let nil = view.nil();
                StackAnyContainer::push(&mut array, view, nil)?;
            }
            view.put(ptr, &array);

            // or by copy/clone
            let pair = view.alloc_tagged(Pair::new())?;

            IndexedAnyContainer::set(&array, view, 3, pair)?;

            let array = view.get(ptr);
            assert_eq!(array.length(), 12);
            assert!(IndexedAnyContainer::get(&array, view, 3)? == pair);
            assert!(IndexedAnyContainer::get(&array, view, 2)? == view.nil());

            Ok(())
        }
    }

    let test = Test {};
    mem.mutate(&test, ()).unwrap();
}

#[test]
fn array_with_capacity_and_realloc() {
    let mut mem = Memory::new();

    struct Test {}
    impl Mutator for Test {
        type Input = ();
        type Output = ();

        fn run(
            &self,
            view: &mut MutatorView,
            _input: Self::Input,
        ) -> Result<Self::Output, RuntimeError> {
            let mut array: Array<TaggedCellPtr> = Array::with_capacity(view, 256)?;

            let ptr_before = array.data().as_ptr();

            // fill to capacity
            for _ in 0..256 {
                let nil = view.nil();
                StackAnyContainer::push(&mut array, view, nil)?;
            }

            let ptr_after = array.data().as_ptr();

            // array storage shouldn't have been reallocated
            assert!(ptr_before == ptr_after);

            // overflow capacity, requiring reallocation
            let nil = view.nil();
            StackAnyContainer::push(&mut array, view, nil)?;

            let ptr_realloc = array.data().as_ptr();

            // array storage should have been reallocated
            assert!(ptr_before != ptr_realloc);
            assert_eq!(array.data().capacity(), 384);
            assert_eq!(array.length(), 257);

            Ok(())
        }
    }

    let test = Test {};
    mem.mutate(&test, ()).unwrap();
}

#[test]
fn arrayany_from_pair_list() {
    let mut mem = Memory::new();

    struct Test {}
    impl Mutator for Test {
        type Input = ();
        type Output = ();

        fn run(
            &self,
            view: &mut MutatorView,
            _input: Self::Input,
        ) -> Result<Self::Output, RuntimeError> {
            let array: Array<TaggedCellPtr> = Array::new();
            let array_ptr = view.allocate(array)?;

            let mut pair = Pair::new();
            let thing0 = view.lookup_sym("thing0")?;
            pair.first.set(thing0);

            // the pairs of the list, from the last to the first
            let mut things = Vec::new();
            for n in 0..12 {
                things.push(view.lookup_sym(&format!("thing{}", n))?);
            }
            let mut head = view.nil();
            for thing in things.iter().rev() {
                head = stickyimmix::pair::cons(view, *thing, head)?;
            }

            let mut array = view.get(array_ptr);
            array.from_pair_list(view, head)?;
            view.put(array_ptr, &array);

            let array = view.get(array_ptr);
            for n in 0..12 {
                let thing = IndexedAnyContainer::get(&array, view, n)?;

                match thing.value() {
                    Value::Symbol(s) => assert!(view.symbol_name(s) == format!("thing{}", n)),
                    _ => panic!("expected symbol!"),
                }
            }

            Ok(())
        }
    }

    let test = Test {};
    mem.mutate(&test, ()).unwrap();
}

#[test]
fn array_stack_errors() {
    let mut mem = Memory::new();

    struct Test {}
    impl Mutator for Test {
        type Input = ();
        type Output = ();

        fn run(
            &self,
            view: &mut MutatorView,
            _input: Self::Input,
        ) -> Result<Self::Output, RuntimeError> {
            let mut array: Array<u16> = Array::new();
            assert_eq!(array.length(), 0);
            let e = array.pop(view).unwrap_err();
            assert!(*e.error_kind() == ErrorKind::BoundsError);
            assert_eq!(e.message(), "Indexing bounds error");
            let e = array.top(view).unwrap_err();
            assert!(*e.error_kind() == ErrorKind::BoundsError);
            let e = array.set(view, 0, 1).unwrap_err();
            assert!(*e.error_kind() == ErrorKind::BoundsError);

            array.push(view, 0xbeef)?;
            array.push(view, 0x1234)?;
            assert_eq!(array.data().capacity(), 8);
            assert_eq!(array.top(view)?, 0x1234);
            assert_eq!(array.length(), 2);
            array.set(view, 0, 7)?;
            assert_eq!(array.get(view, 0)?, 7);
            assert_eq!(array.get(view, 1)?, 0x1234);
            assert_eq!(array.pop(view)?, 0x1234);
            assert_eq!(array.pop(view)?, 7);
            array.push(view, 9)?;
            array.clear(view)?;
            assert_eq!(array.length(), 0);
            assert_eq!(array.data().capacity(), 8);
            Ok(())
        }
    }

    let test = Test {};
    mem.mutate(&test, ()).unwrap();
}

#[test]
fn array_growth_steps() {
    let mut mem = Memory::new();

    struct Test {}
    impl Mutator for Test {
        type Input = ();
        type Output = ();

        fn run(
            &self,
            view: &mut MutatorView,
            _input: Self::Input,
        ) -> Result<Self::Output, RuntimeError> {
            let mut array: Array<u32> = Array::new();
            let mut capacities = Vec::new();
            for i in 0..30u32 {
                array.push(view, i * i)?;
                if capacities.last() != Some(&array.data().capacity()) {
                    capacities.push(array.data().capacity());
                }
            }
            assert_eq!(capacities, vec![8, 12, 18, 27, 40]);
            for i in 0..30u32 {
                assert_eq!(array.get(view, i)?, i * i);
            }
            // an array larger than a block can hold cannot be made
            let e = Array::<u32>::with_capacity(view, 9000).err().unwrap();
            assert!(*e.error_kind() == ErrorKind::BadAllocationRequest);
            Ok(())
        }
    }

    let test = Test {};
    mem.mutate(&test, ()).unwrap();
}

#[test]
fn array_fill_and_from_slice() {
    let mut mem = Memory::new();

    struct Test {}
    impl Mutator for Test {
        type Input = ();
        type Output = ();

        fn run(
            &self,
            view: &mut MutatorView,
            _input: Self::Input,
        ) -> Result<Self::Output, RuntimeError> {
            let mut array: Array<u8> = Array::new();
            array.push(view, 1)?;
            FillContainer::fill(&mut array, view, 6, 0xaa)?;
            assert_eq!(array.length(), 6);
            assert_eq!(array.get(view, 0)?, 1);
            for i in 1..6 {
                assert_eq!(array.get(view, i)?, 0xaa);
            }
            // filling to a length that the array already has changes nothing
            FillContainer::fill(&mut array, view, 3, 0xbb)?;
            assert_eq!(array.length(), 6);
            assert_eq!(array.get(view, 2)?, 0xaa);

            let bytes = ArrayU8::from_slice(view, &[5, 6, 7])?;
            let bytes: ArrayU8 = view.get(bytes);
            assert_eq!(bytes.length(), 3);
            assert_eq!(bytes.get(view, 0)?, 5);
            assert_eq!(bytes.get(view, 2)?, 7);
            assert!(*bytes.get(view, 3).unwrap_err().error_kind() == ErrorKind::BoundsError);

            let a = view.lookup_sym("a")?;
            let b = view.lookup_sym("b")?;
            let list = <Array<TaggedCellPtr> as AnyContainerFromSlice>::from_slice(view, &[a, b, a])?;
            let list = view.get(list);
            assert_eq!(list.length(), 3);
            assert!(IndexedAnyContainer::get(&list, view, 1)? == b);
            assert!(StackAnyContainer::top(&list, view)? == a);

            let mut list: Array<TaggedCellPtr> = Container::new();
            FillAnyContainer::fill(&mut list, view, 4, b)?;
            assert_eq!(list.length(), 4);
            assert!(StackAnyContainer::pop(&mut list, view)? == b);
            assert_eq!(list.length(), 3);
            Ok(())
        }
    }

    let test = Test {};
    mem.mutate(&test, ()).unwrap();
}
