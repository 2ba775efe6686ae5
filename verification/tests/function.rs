use stickyimmix::array::{Array, ArrayU16};
use stickyimmix::bytecode::ByteCode;
use stickyimmix::containers::{AnyContainerFromSlice, ContainerFromSlice};
use stickyimmix::error::RuntimeError;
use stickyimmix::function::{Function, Partial};
use stickyimmix::list::List;
use stickyimmix::memory::{Memory, Mutator, MutatorView};
use stickyimmix::safeptr::TaggedCellPtr;
use stickyimmix::taggedptr::Value;

#[test]
fn function_with_name_and_parameters() {
    let mut mem = Memory::new();

    struct Test {}
    impl Mutator for Test {
        type Input = ();
        type Output = ();

        fn run(
            &self,
            mem: &mut MutatorView,
            _input: Self::Input,
        ) -> Result<Self::Output, RuntimeError> {
            let name = mem.lookup_sym("add")?;
            let a = mem.lookup_sym("a")?;
            let b = mem.lookup_sym("b")?;
            let params: stickyimmix::safeptr::ScopedPtr<List> =
                AnyContainerFromSlice::from_slice(mem, &[a, b])?;
            let code = ByteCode::allocate(mem)?;

            let ptr = Function::allocate(mem, name, params, code, None)?;
            let function = mem.get(ptr);
            assert_eq!(function.arity(), 2);
            assert_eq!(function.name(mem), "add");
            assert!(!function.is_closure());
            assert!(function.param_names(mem.guard()) == params);
            assert!(function.code(mem.guard()) == code);
            let names = mem.get(function.param_names(mem.guard())).to_vec(mem);
            assert_eq!(names.len(), 2);
            assert!(names[0].get_ptr() == a.get_ptr());
            assert!(names[1].get_ptr() == b.get_ptr());

            Ok(())
        }
    }

    let test = Test {};
    mem.mutate(&test, ()).unwrap();
}

#[test]
fn function_without_name_is_lambda() {
    let mut mem = Memory::new();

    struct Test {}
    impl Mutator for Test {
        type Input = ();
        type Output = ();

        fn run(
            &self,
            mem: &mut MutatorView,
            _input: Self::Input,
        ) -> Result<Self::Output, RuntimeError> {
            let params = List::allocate(mem)?;
            let code = ByteCode::allocate(mem)?;
            let refs: stickyimmix::safeptr::ScopedPtr<ArrayU16> =
                ContainerFromSlice::from_slice(mem, &[0x0102u16, 0x0304])?;

            let nil = mem.nil();
            let ptr = Function::allocate(mem, nil, params, code, Some(refs))?;
            let function = mem.get(ptr);
            assert_eq!(function.arity(), 0);
            assert_eq!(function.name(mem), "<lambda>");
            assert!(function.is_closure());
            let nonlocals = function.nonlocals(mem);
            assert!(nonlocals == refs);
            assert_eq!(mem.get(nonlocals).to_vec(mem), vec![0x0102u16, 0x0304]);
            match function.nonlocal_refs.get(mem).value() {
                Value::ArrayU16(p) => assert!(p == refs),
                _ => panic!("the places are an array of 16 bits each"),
            }

            Ok(())
        }
    }

    let test = Test {};
    mem.mutate(&test, ()).unwrap();
}

#[test]
fn partial_application_and_clone() {
    let mut mem = Memory::new();

    struct Test {}
    impl Mutator for Test {
        type Input = ();
        type Output = ();

        fn run(
            &self,
            mem: &mut MutatorView,
            _input: Self::Input,
        ) -> Result<Self::Output, RuntimeError> {
            let name = mem.lookup_sym("f")?;
            let a = mem.lookup_sym("a")?;
            let b = mem.lookup_sym("b")?;
            let c = mem.lookup_sym("c")?;
            let d = mem.lookup_sym("d")?;
            let params: stickyimmix::safeptr::ScopedPtr<List> =
                AnyContainerFromSlice::from_slice(mem, &[a, b, c, d])?;
            let code = ByteCode::allocate(mem)?;
            let function = Function::allocate(mem, name, params, code, None)?;

            let one = TaggedCellPtr::new_with(a);
            let two = TaggedCellPtr::new_with(b);
            let three = TaggedCellPtr::new_with(c);

            let first = Partial::allocate(mem, function, None, &[one, two])?;
            let partial = mem.get(first);
            assert_eq!(partial.used(), 2);
            assert_eq!(partial.arity(), 2);
            assert!(partial.function(mem.guard()) == function);
            assert!(partial.closure_env().is_nil());
            let args = mem.get(partial.args(mem.guard())).to_vec(mem);
            assert_eq!(args.len(), 2);
            assert!(args[0].get_ptr() == a.get_ptr());
            assert!(args[1].get_ptr() == b.get_ptr());

            let second = Partial::alloc_clone(mem, first, &[three])?;
            let cloned = mem.get(second);
            assert_eq!(cloned.used(), 3);
            assert_eq!(cloned.arity(), 1);
            assert!(cloned.function(mem.guard()) == function);
            assert!(cloned.args(mem.guard()) != partial.args(mem.guard()));
            let args = mem.get(cloned.args(mem.guard())).to_vec(mem);
            assert_eq!(args.len(), 3);
            assert!(args[0].get_ptr() == a.get_ptr());
            assert!(args[1].get_ptr() == b.get_ptr());
            assert!(args[2].get_ptr() == c.get_ptr());

            // the partial that was cloned keeps its arguments
            let args = mem.get(mem.get(first).args(mem.guard())).to_vec(mem);
            assert_eq!(args.len(), 2);

            let env = List::allocate(mem)?;
            let closed = Partial::allocate(mem, function, Some(env), &[])?;
            let closed = mem.get(closed);
            assert_eq!(closed.used(), 0);
            assert_eq!(closed.arity(), 4);
            match closed.closure_env().get(mem).value() {
                Value::List(list) => assert!(list == env),
                _ => panic!("the environment is a list"),
            }

            Ok(())
        }
    }

    let test = Test {};
    mem.mutate(&test, ()).unwrap();
}

#[test]
fn array_alloc_clone_copies_items() {
    let mut mem = Memory::new();

    struct Test {}
    impl Mutator for Test {
        type Input = ();
        type Output = ();

        fn run(
            &self,
            mem: &mut MutatorView,
            _input: Self::Input,
        ) -> Result<Self::Output, RuntimeError> {
            let source: stickyimmix::safeptr::ScopedPtr<ArrayU16> =
                ContainerFromSlice::from_slice(mem, &[7u16, 8, 9])?;
            let copy = Array::alloc_clone(mem, source)?;
            assert!(copy != source);
            assert_eq!(mem.get(copy).to_vec(mem), vec![7u16, 8, 9]);

            let mut changed = mem.get(copy);
            changed.set(mem, 1, 80)?;
            changed.push(mem, 10)?;
            mem.put(copy, &changed);
            assert_eq!(mem.get(copy).to_vec(mem), vec![7u16, 80, 9, 10]);
            assert_eq!(mem.get(source).to_vec(mem), vec![7u16, 8, 9]);

            Ok(())
        }
    }

    let test = Test {};
    mem.mutate(&test, ()).unwrap();
}
