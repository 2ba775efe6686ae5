use std::hash::{Hash, Hasher};

use fnv::FnvHasher;
use stickyimmix::dict::{hash_key, needs_to_grow, Dict};
use stickyimmix::error::{ErrorKind, RuntimeError};
use stickyimmix::memory::{Memory, Mutator, MutatorView};
use stickyimmix::pair::Pair;
use stickyimmix::safeptr::TaggedScopedPtr;
use stickyimmix::taggedptr::{TaggedPtr, Value};

#[test]
fn dict_empty_assoc_lookup() {
    let mut mem = Memory::new();

    struct Test {}
    impl Mutator for Test {
        type Input = ();
        type Output = ();

        fn run(
            &self,
            mem: &mut MutatorView,
            _input: Self::Input,
        ) -> Result<Self::Output, RuntimeError> {
            let mut dict = Dict::new();

            let key = mem.lookup_sym("foo")?;
            let val = mem.lookup_sym("bar")?;

            dict.assoc(mem, key, val)?;

            let lookup = dict.lookup(mem, key)?;

            assert!(lookup == val);
            Ok(())
        }
    }

    let test = Test {};
    mem.mutate(&test, ()).unwrap();
}

#[test]
fn dict_assoc_lookup() {
    let mut mem = Memory::new();

    struct Test {}
    impl Mutator for Test {
        type Input = ();
        type Output = ();

        fn run(
            &self,
            mem: &mut MutatorView,
            _input: Self::Input,
        ) -> Result<Self::Output, RuntimeError> {
            let mut dict = Dict::with_capacity(mem, 256)?;

            let key = mem.lookup_sym("foo")?;
            let val = mem.lookup_sym("bar")?;

            dict.assoc(mem, key, val)?;

            let lookup = dict.lookup(mem, key)?;

            assert!(lookup == val);
            Ok(())
        }
    }

    let test = Test {};
    mem.mutate(&test, ()).unwrap();
}

#[test]
fn dict_lookup_fail() {
    let mut mem = Memory::new();

    struct Test {}
    impl Mutator for Test {
        type Input = ();
        type Output = ();

        fn run(
            &self,
            mem: &mut MutatorView,
            _input: Self::Input,
        ) -> Result<Self::Output, RuntimeError> {
            let dict = Dict::with_capacity(mem, 256)?;

            let key = mem.lookup_sym("foo")?;

            let lookup = dict.lookup(mem, key);

            match lookup {
                Ok(_) => panic!("Key should not have been found!"),
                Err(e) => assert!(*e.error_kind() == ErrorKind::KeyError),
            }
            Ok(())
        }
    }

    let test = Test {};
    mem.mutate(&test, ()).unwrap();
}

#[test]
fn dict_dissoc_lookup() {
    let mut mem = Memory::new();

    struct Test {}
    impl Mutator for Test {
        type Input = ();
        type Output = ();

        fn run(
            &self,
            mem: &mut MutatorView,
            _input: Self::Input,
        ) -> Result<Self::Output, RuntimeError> {
            let mut dict = Dict::with_capacity(mem, 256)?;

            let key = mem.lookup_sym("foo")?;
            let val = mem.lookup_sym("bar")?;

            dict.assoc(mem, key, val)?;

            let value = dict.lookup(mem, key)?;
            assert!(value == val);

            let value = dict.dissoc(mem, key)?;
            assert!(value == val);

            let result = dict.lookup(mem, key);
            match result {
                Ok(_) => panic!("Key should not have been found!"),
                Err(e) => assert!(*e.error_kind() == ErrorKind::KeyError),
            }
            Ok(())
        }
    }

    let test = Test {};
    mem.mutate(&test, ()).unwrap();
}

#[test]
fn dict_assoc_lookup_50_into_capacity_100() {
    // the table does not have to grow here, so this shows that the search
    // gives a fitting entry for every item that was put in
    let mut mem = Memory::new();

    struct Test {}
    impl Mutator for Test {
        type Input = ();
        type Output = ();

        fn run(
            &self,
            mem: &mut MutatorView,
            _input: Self::Input,
        ) -> Result<Self::Output, RuntimeError> {
            let mut dict = Dict::with_capacity(mem, 100)?;

            for num in 0..50 {
                let key_name = format!("foo_{}", num);
                let key = mem.lookup_sym(&key_name)?;

                let val_name = format!("val_{}", num);
                let val = mem.lookup_sym(&val_name)?;

                dict.assoc(mem, key, val)?;
            }

            for num in 0..50 {
                let key_name = format!("foo_{}", num);
                let key = mem.lookup_sym(&key_name)?;

                let val_name = format!("val_{}", num);
                let val = mem.lookup_sym(&val_name)?;

                assert!(dict.has_key(mem, key)?);

                let lookup = dict.lookup(mem, key)?;

                assert!(lookup == val);
            }
            Ok(())
        }
    }

    let test = Test {};
    mem.mutate(&test, ()).unwrap();
}

#[test]
fn dict_assoc_lookup_500_into_capacity_20() {
    // the table has to grow several times here
    let mut mem = Memory::new();

    struct Test {}
    impl Mutator for Test {
        type Input = ();
        type Output = ();

        fn run(
            &self,
            mem: &mut MutatorView,
            _input: Self::Input,
        ) -> Result<Self::Output, RuntimeError> {
            let mut dict = Dict::with_capacity(mem, 20)?;

            for num in 0..500 {
                let key_name = format!("foo_{}", num);
                let key = mem.lookup_sym(&key_name)?;

                let val_name = format!("val_{}", num);
                let val = mem.lookup_sym(&val_name)?;

                dict.assoc(mem, key, val)?;
            }

            for num in 0..500 {
                let key_name = format!("foo_{}", num);
                let key = mem.lookup_sym(&key_name)?;

                let val_name = format!("val_{}", num);
                let val = mem.lookup_sym(&val_name)?;

                assert!(dict.has_key(mem, key)?);

                let lookup = dict.lookup(mem, key)?;

                assert!(lookup == val);
            }
            Ok(())
        }
    }

    let test = Test {};
    mem.mutate(&test, ()).unwrap();
}

#[test]
fn dict_assoc_dissoc() {
    let mut mem = Memory::new();

    struct Test {}
    impl Mutator for Test {
        type Input = ();
        type Output = ();

        fn run(
            &self,
            mem: &mut MutatorView,
            _input: Self::Input,
        ) -> Result<Self::Output, RuntimeError> {
            let mut dict = Dict::with_capacity(mem, 100)?;

            for num in 0..50 {
                let key_name = format!("foo_{}", num);
                let key = mem.lookup_sym(&key_name)?;

                let val_name = format!("val_{}", num);
                let val = mem.lookup_sym(&val_name)?;

                dict.assoc(mem, key, val)?;
            }

            // delete every other key
            for num in (0..50).step_by(2) {
                let key_name = format!("foo_{}", num);
                let key = mem.lookup_sym(&key_name)?;
                dict.dissoc(mem, key)?;
            }

            // add more stuff
            for num in 0..20 {
                let key_name = format!("ignore_{}", num);
                let key = mem.lookup_sym(&key_name)?;

                let val_name = format!("val_{}", num);
                let val = mem.lookup_sym(&val_name)?;

                dict.assoc(mem, key, val)?;
            }

            // the keys put in first are found, or not, as expected
            for num in 0..50 {
                let key_name = format!("foo_{}", num);
                let key = mem.lookup_sym(&key_name)?;

                let val_name = format!("val_{}", num);
                let val = mem.lookup_sym(&val_name)?;

                if num % 2 == 0 {
                    assert!(!dict.has_key(mem, key)?);
                } else {
                    assert!(dict.has_key(mem, key)?);
                    let lookup = dict.lookup(mem, key)?;
                    assert!(lookup == val);
                }
            }
            Ok(())
        }
    }

    let test = Test {};
    mem.mutate(&test, ()).unwrap();
}

#[test]
fn dict_unhashable() {
    let mut mem = Memory::new();

    struct Test {}
    impl Mutator for Test {
        type Input = ();
        type Output = ();

        fn run(
            &self,
            mem: &mut MutatorView,
            _input: Self::Input,
        ) -> Result<Self::Output, RuntimeError> {
            let mut dict = Dict::with_capacity(mem, 256)?;

            // a pair has no hash
            let key = mem.alloc_tagged(Pair::new())?;
            let val = mem.lookup_sym("bar")?;

            let result = dict.assoc(mem, key, val);

            match result {
                Ok(_) => panic!("Key should not have been found!"),
                Err(e) => assert!(*e.error_kind() == ErrorKind::UnhashableError),
            }
            Ok(())
        }
    }

    let test = Test {};
    mem.mutate(&test, ()).unwrap();
}

#[test]
fn dict_hash_of_symbol_is_fnv_of_its_name() {
    let mut mem = Memory::new();

    struct Test {}
    impl Mutator for Test {
        type Input = ();
        type Output = ();

        fn run(
            &self,
            mem: &mut MutatorView,
            _input: Self::Input,
        ) -> Result<Self::Output, RuntimeError> {
            for name in ["foo", "", "a", "hello-world", "x1"] {
                let key = mem.lookup_sym(name)?;
                let mut hasher = FnvHasher::default();
                name.hash(&mut hasher);
                assert_eq!(hash_key(mem, key)?, hasher.finish());
            }
            // FNV-1a of the bytes of "a" and of the byte 0xff
            let key = mem.lookup_sym("a")?;
            let mut expected: u64 = 0xcbf29ce484222325;
            for byte in [0x61u8, 0xff] {
                expected ^= byte as u64;
                expected = expected.wrapping_mul(0x100000001b3);
            }
            assert_eq!(hash_key(mem, key)?, expected);
            Ok(())
        }
    }

    let test = Test {};
    mem.mutate(&test, ()).unwrap();
}

#[test]
fn dict_hash_of_number_is_its_bits() {
    let mut mem = Memory::new();

    struct Test {}
    impl Mutator for Test {
        type Input = ();
        type Output = ();

        fn run(
            &self,
            mem: &mut MutatorView,
            _input: Self::Input,
        ) -> Result<Self::Output, RuntimeError> {
            let seven = TaggedScopedPtr::new(mem, TaggedPtr::number(7));
            assert_eq!(hash_key(mem, seven)?, 7);
            let minus_one = TaggedScopedPtr::new(mem, TaggedPtr::number(-1));
            assert_eq!(hash_key(mem, minus_one)?, u64::MAX);
            let minus_five = TaggedScopedPtr::new(mem, TaggedPtr::number(-5));
            assert_eq!(hash_key(mem, minus_five)?, (-5i64) as u64);
            Ok(())
        }
    }

    let test = Test {};
    mem.mutate(&test, ()).unwrap();
}

#[test]
fn dict_hash_of_nil_fails() {
    let mut mem = Memory::new();

    struct Test {}
    impl Mutator for Test {
        type Input = ();
        type Output = ();

        fn run(
            &self,
            mem: &mut MutatorView,
            _input: Self::Input,
        ) -> Result<Self::Output, RuntimeError> {
            let nil = mem.nil();
            match hash_key(mem, nil) {
                Ok(_) => panic!("nil has no hash"),
                Err(e) => assert!(*e.error_kind() == ErrorKind::UnhashableError),
            }
            Ok(())
        }
    }

    let test = Test {};
    mem.mutate(&test, ()).unwrap();
}

#[test]
fn dict_number_keys() {
    let mut mem = Memory::new();

    struct Test {}
    impl Mutator for Test {
        type Input = ();
        type Output = ();

        fn run(
            &self,
            mem: &mut MutatorView,
            _input: Self::Input,
        ) -> Result<Self::Output, RuntimeError> {
            let mut dict = Dict::new();
            for n in 2..40 {
                let key = TaggedScopedPtr::new(mem, TaggedPtr::number(n));
                let val = TaggedScopedPtr::new(mem, TaggedPtr::number(n * 10));
                dict.assoc(mem, key, val)?;
            }
            assert_eq!(dict.length(), 38);
            for n in 2..40 {
                let key = TaggedScopedPtr::new(mem, TaggedPtr::number(n));
                match dict.lookup(mem, key)?.value() {
                    Value::Number(v) => assert_eq!(v, n * 10),
                    _ => panic!("a number was put in"),
                }
            }
            let absent = TaggedScopedPtr::new(mem, TaggedPtr::number(41));
            assert!(!dict.has_key(mem, absent)?);
            Ok(())
        }
    }

    let test = Test {};
    mem.mutate(&test, ()).unwrap();
}

#[test]
fn dict_assoc_replaces_value() {
    let mut mem = Memory::new();

    struct Test {}
    impl Mutator for Test {
        type Input = ();
        type Output = ();

        fn run(
            &self,
            mem: &mut MutatorView,
            _input: Self::Input,
        ) -> Result<Self::Output, RuntimeError> {
            let mut dict = Dict::with_capacity(mem, 8)?;
            let key = mem.lookup_sym("k")?;
            let one = mem.lookup_sym("one")?;
            let two = mem.lookup_sym("two")?;
            dict.assoc(mem, key, one)?;
            dict.assoc(mem, key, two)?;
            assert_eq!(dict.length(), 1);
            assert!(dict.lookup(mem, key)? == two);
            Ok(())
        }
    }

    let test = Test {};
    mem.mutate(&test, ()).unwrap();
}

#[test]
fn dict_lookup_without_table_is_bounds_error() {
    let mut mem = Memory::new();

    struct Test {}
    impl Mutator for Test {
        type Input = ();
        type Output = ();

        fn run(
            &self,
            mem: &mut MutatorView,
            _input: Self::Input,
        ) -> Result<Self::Output, RuntimeError> {
            let mut dict = Dict::new();
            let key = mem.lookup_sym("foo")?;
            match dict.lookup(mem, key) {
                Ok(_) => panic!("the dict has no table"),
                Err(e) => assert!(*e.error_kind() == ErrorKind::BoundsError),
            }
            match dict.dissoc(mem, key) {
                Ok(_) => panic!("the dict has no table"),
                Err(e) => assert!(*e.error_kind() == ErrorKind::BoundsError),
            }
            match dict.clear(mem) {
                Ok(_) => panic!("the dict has no table"),
                Err(e) => assert!(*e.error_kind() == ErrorKind::BoundsError),
            }
            Ok(())
        }
    }

    let test = Test {};
    mem.mutate(&test, ()).unwrap();
}

#[test]
fn dict_dissoc_absent_key_is_key_error() {
    let mut mem = Memory::new();

    struct Test {}
    impl Mutator for Test {
        type Input = ();
        type Output = ();

        fn run(
            &self,
            mem: &mut MutatorView,
            _input: Self::Input,
        ) -> Result<Self::Output, RuntimeError> {
            let mut dict = Dict::with_capacity(mem, 16)?;
            let key = mem.lookup_sym("foo")?;
            let other = mem.lookup_sym("other")?;
            let val = mem.lookup_sym("bar")?;
            dict.assoc(mem, key, val)?;
            match dict.dissoc(mem, other) {
                Ok(_) => panic!("the key is not in the dict"),
                Err(e) => assert!(*e.error_kind() == ErrorKind::KeyError),
            }
            assert_eq!(dict.length(), 1);
            assert!(dict.dissoc(mem, key)? == val);
            assert_eq!(dict.length(), 0);
            match dict.dissoc(mem, key) {
                Ok(_) => panic!("the key was removed"),
                Err(e) => assert!(*e.error_kind() == ErrorKind::KeyError),
            }
            Ok(())
        }
    }

    let test = Test {};
    mem.mutate(&test, ()).unwrap();
}

#[test]
fn dict_clear_removes_every_item() {
    let mut mem = Memory::new();

    struct Test {}
    impl Mutator for Test {
        type Input = ();
        type Output = ();

        fn run(
            &self,
            mem: &mut MutatorView,
            _input: Self::Input,
        ) -> Result<Self::Output, RuntimeError> {
            let mut dict = Dict::with_capacity(mem, 16)?;
            for n in 2..10 {
                let key = TaggedScopedPtr::new(mem, TaggedPtr::number(n));
                dict.assoc(mem, key, key)?;
            }
            assert_eq!(dict.length(), 8);
            dict.clear(mem)?;
            assert_eq!(dict.length(), 0);
            for n in 2..10 {
                let key = TaggedScopedPtr::new(mem, TaggedPtr::number(n));
                assert!(!dict.has_key(mem, key)?);
            }
            Ok(())
        }
    }

    let test = Test {};
    mem.mutate(&test, ()).unwrap();
}

#[test]
fn dict_grows_when_four_fifths_are_in_use() {
    let mut mem = Memory::new();

    struct Test {}
    impl Mutator for Test {
        type Input = ();
        type Output = ();

        fn run(
            &self,
            mem: &mut MutatorView,
            _input: Self::Input,
        ) -> Result<Self::Output, RuntimeError> {
            let mut dict = Dict::with_capacity(mem, 10)?;
            for n in 2..10 {
                let key = TaggedScopedPtr::new(mem, TaggedPtr::number(n));
                dict.assoc(mem, key, key)?;
            }
            assert_eq!(dict.length(), 8);
            assert_eq!(dict.data.capacity(), 10);
            let key = TaggedScopedPtr::new(mem, TaggedPtr::number(10));
            dict.assoc(mem, key, key)?;
            assert_eq!(dict.length(), 9);
            assert_eq!(dict.data.capacity(), 15);
            for n in 2..11 {
                let key = TaggedScopedPtr::new(mem, TaggedPtr::number(n));
                assert!(dict.has_key(mem, key)?);
            }
            Ok(())
        }
    }

    let test = Test {};
    mem.mutate(&test, ()).unwrap();
}

#[test]
fn dict_in_the_heap() {
    let mut mem = Memory::new();

    struct Test {}
    impl Mutator for Test {
        type Input = ();
        type Output = ();

        fn run(
            &self,
            mem: &mut MutatorView,
            _input: Self::Input,
        ) -> Result<Self::Output, RuntimeError> {
            let empty = Dict::allocate(mem)?;
            assert_eq!(mem.get(empty).length(), 0);
            assert_eq!(mem.get(empty).data.capacity(), 0);

            let ptr = Dict::alloc_with_capacity(mem, 32)?;
            let mut dict = mem.get(ptr);
            assert_eq!(dict.data.capacity(), 32);
            let key = mem.lookup_sym("foo")?;
            let val = mem.lookup_sym("bar")?;
            dict.assoc(mem, key, val)?;
            mem.put(ptr, &dict);
            let again = mem.get(ptr);
            assert_eq!(again.length(), 1);
            assert!(again.lookup(mem, key)? == val);
            Ok(())
        }
    }

    let test = Test {};
    mem.mutate(&test, ()).unwrap();
}

#[test]
fn dict_needs_to_grow_above_four_fifths() {
    assert!(needs_to_grow(1, 0));
    assert!(!needs_to_grow(0, 0));
    assert!(!needs_to_grow(8, 10));
    assert!(needs_to_grow(9, 10));
    assert!(!needs_to_grow(4, 5));
    assert!(needs_to_grow(5, 5));
    assert!(!needs_to_grow(204, 256));
    assert!(needs_to_grow(205, 256));
    assert!(needs_to_grow(u32::MAX, u32::MAX));
}
