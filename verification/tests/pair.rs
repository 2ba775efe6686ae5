use stickyimmix::error::RuntimeError;
use stickyimmix::memory::{Memory, Mutator, MutatorView};
use stickyimmix::pair::{cons, vec_from_n_pairs, vec_from_pairs, value_from_1_pair, values_from_2_pairs, values_from_3_pairs, Pair};
use stickyimmix::taggedptr::Value;

fn test_helper(test_fn: fn(&mut MutatorView) -> Result<(), RuntimeError>) {
    let mut mem = Memory::new();

    struct Test {}
    impl Mutator for Test {
        type Input = fn(&mut MutatorView) -> Result<(), RuntimeError>;
        type Output = ();

        fn run(
            &self,
            mem: &mut MutatorView,
            test_fn: Self::Input,
        ) -> Result<Self::Output, RuntimeError> {
            test_fn(mem)
        }
    }

    let test = Test {};
    mem.mutate(&test, test_fn).unwrap();
}

#[test]
fn unpack_pair_list_bad() {
    fn test_inner(mem: &mut MutatorView) -> Result<(), RuntimeError> {
        // this is not a Pair, it's an error to convert it to a Vec
        let thing = mem.lookup_sym("nothing")?;

        let result = vec_from_pairs(mem, thing);

        assert!(result.is_err());

        Ok(())
    }

    test_helper(test_inner)
}

#[test]
fn unpack_pair_list_n_values() {
    fn test_inner(mem: &mut MutatorView) -> Result<(), RuntimeError> {
        let alice = mem.lookup_sym("alice")?;
        let nil = mem.nil();
        let mut head = cons(mem, alice, nil)?;
        let bob = mem.lookup_sym("bob")?;
        head = cons(mem, bob, head)?;
        let carlos = mem.lookup_sym("carlos")?;
        head = cons(mem, carlos, head)?;
        let dave = mem.lookup_sym("dave")?;
        head = cons(mem, dave, head)?;
        let eve = mem.lookup_sym("eve")?;
        head = cons(mem, eve, head)?;

        let result = vec_from_pairs(mem, head);

        assert!(result.is_ok());

        let inside = result.unwrap();
        assert!(
            inside
                == vec![
                    mem.lookup_sym("eve")?,
                    mem.lookup_sym("dave")?,
                    mem.lookup_sym("carlos")?,
                    mem.lookup_sym("bob")?,
                    mem.lookup_sym("alice")?
                ]
        );

        Ok(())
    }

    test_helper(test_inner)
}

#[test]
fn unpack_pair_list_bad_terminator() {
    fn test_inner(mem: &mut MutatorView) -> Result<(), RuntimeError> {
        let alice = mem.lookup_sym("alice")?;
        let non_terminator = mem.lookup_sym("non-terminator")?;
        let mut head = cons(mem, alice, non_terminator)?;
        let bob = mem.lookup_sym("bob")?;
        head = cons(mem, bob, head)?;
        let carlos = mem.lookup_sym("carlos")?;
        head = cons(mem, carlos, head)?;
        let dave = mem.lookup_sym("dave")?;
        head = cons(mem, dave, head)?;
        let eve = mem.lookup_sym("eve")?;
        head = cons(mem, eve, head)?;

        let result = vec_from_pairs(mem, head);

        assert!(result.is_err());

        Ok(())
    }

    test_helper(test_inner)
}

#[test]
fn unpack_pair_list_n_values_expected() {
    fn test_inner(mem: &mut MutatorView) -> Result<(), RuntimeError> {
        let alice = mem.lookup_sym("alice")?;
        let nil = mem.nil();
        let mut head = cons(mem, alice, nil)?;
        let bob = mem.lookup_sym("bob")?;
        head = cons(mem, bob, head)?;
        let carlos = mem.lookup_sym("carlos")?;
        head = cons(mem, carlos, head)?;
        let dave = mem.lookup_sym("dave")?;
        head = cons(mem, dave, head)?;
        let eve = mem.lookup_sym("eve")?;
        head = cons(mem, eve, head)?;

        let result = vec_from_n_pairs(mem, head, 5);
        assert!(result.is_ok());

        let result = vec_from_n_pairs(mem, head, 3);
        assert!(result.is_err());

        let result = vec_from_n_pairs(mem, head, 6);
        assert!(result.is_err());

        Ok(())
    }

    test_helper(test_inner)
}

#[test]
fn unpack_messages_say_what_is_wrong() {
    fn test_inner(mem: &mut MutatorView) -> Result<(), RuntimeError> {
        let a = mem.lookup_sym("a")?;
        let b = mem.lookup_sym("b")?;
        let nil = mem.nil();

        let e = vec_from_pairs(mem, a).err().unwrap();
        assert_eq!(e.message(), "Evaluation error: Expected a Pair");
        assert_eq!(e.error_pos(), None);

        let dotted = cons(mem, a, b)?;
        let e = vec_from_pairs(mem, dotted).err().unwrap();
        assert_eq!(e.message(), "Evaluation error: Incorrectly terminated Pair list");

        let mut list = cons(mem, b, nil)?;
        list = cons(mem, a, list)?;
        let e = vec_from_n_pairs(mem, list, 12).err().unwrap();
        assert_eq!(e.message(), "Evaluation error: Pair list has 2 items, expected 12");
        let e = value_from_1_pair(mem, list).err().unwrap();
        assert_eq!(e.message(), "Evaluation error: Pair list has 2 items, expected 1");
        let e = values_from_3_pairs(mem, list).err().unwrap();
        assert_eq!(e.message(), "Evaluation error: Pair list has 2 items, expected 3");

        let (first, second) = values_from_2_pairs(mem, list)?;
        assert!(first == a);
        assert!(second == b);

        let empty = vec_from_pairs(mem, nil)?;
        assert!(empty.is_empty());
        Ok(())
    }

    test_helper(test_inner)
}

#[test]
fn unpack_one_and_three_values() {
    fn test_inner(mem: &mut MutatorView) -> Result<(), RuntimeError> {
        let a = mem.lookup_sym("a")?;
        let b = mem.lookup_sym("b")?;
        let c = mem.lookup_sym("c")?;
        let nil = mem.nil();
        let one = cons(mem, c, nil)?;
        let got = value_from_1_pair(mem, one)?;
        assert!(got == c);
        let two = cons(mem, b, one)?;
        let three = cons(mem, a, two)?;
        let (x, y, z) = values_from_3_pairs(mem, three)?;
        assert!(x == a && y == b && z == c);
        Ok(())
    }

    test_helper(test_inner)
}

#[test]
fn append_links_a_new_pair_behind_a_pair() {
    fn test_inner(mem: &mut MutatorView) -> Result<(), RuntimeError> {
        let a = mem.lookup_sym("a")?;
        let b = mem.lookup_sym("b")?;
        let mut pair = Pair::new();
        assert!(pair.first.is_nil());
        assert!(pair.second.is_nil());
        pair.first.set(a);
        let tail = pair.append(mem, b)?;
        assert!(pair.second.get_ptr() == tail.get_ptr());
        let head = mem.alloc_tagged(pair)?;
        let items = vec_from_pairs(mem, head)?;
        assert!(items == vec![a, b]);
        match tail.value() {
            Value::Pair(_) => {}
            _ => panic!("a pair was expected"),
        }
        Ok(())
    }

    test_helper(test_inner)
}
