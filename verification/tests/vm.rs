use stickyimmix::array::{Array, ArrayItem};
use stickyimmix::bytecode::ByteCode;
use stickyimmix::containers::AnyContainerFromSlice;
use stickyimmix::error::{ErrorKind, RuntimeError};
use stickyimmix::function::Function;
use stickyimmix::list::List;
use stickyimmix::memory::{Memory, Mutator, MutatorView};
use stickyimmix::safeptr::{ScopedPtr, TaggedScopedPtr};
use stickyimmix::taggedptr::{TaggedPtr, Value};
use stickyimmix::vm::{
    alloc_stack, env_upvalue_lookup, CallFrame, CallFrameList, EvalStatus, Thread, Upvalue,
    ENV_REG, FIRST_ARG_REG, FRAMES_CAPACITY, RETURN_REG, STACK_SIZE,
};

#[test]
fn registers_with_a_fixed_use() {
    assert_eq!(RETURN_REG, 0);
    assert_eq!(ENV_REG, 1);
    assert_eq!(FIRST_ARG_REG, 2);
    assert_eq!(STACK_SIZE, 256);
    assert_eq!(FRAMES_CAPACITY, 16);
}

#[test]
fn call_frames_in_an_array() {
    let mut mem = Memory::new();

    struct Test {}
    impl Mutator for Test {
        type Input = ();
        type Output = ();

        fn run(
            &self,
            mem: &mut MutatorView,
            _input: Self::Input,
        ) -> Result<Self::Output, RuntimeError> {
            let nil = mem.nil();
            let params = List::allocate(mem)?;
            let code = ByteCode::allocate(mem)?;
            let main = Function::allocate(mem, nil, params, code, None)?;
            let other = Function::allocate(mem, nil, params, code, None)?;

            let outer = CallFrame::new_main(main);
            assert!(outer.function.get(mem.guard()) == main);
            assert_eq!(outer.ip, 0);
            assert_eq!(outer.base, 0);

            let inner = CallFrame::new(other, 7, 300);
            assert!(inner.function.get(mem.guard()) == other);
            assert_eq!(inner.ip, 7);
            assert_eq!(inner.base, 300);

            assert_eq!(CallFrame::item_size(), 24);
            let bytes = inner.item_bytes();
            assert_eq!(bytes.len(), 24);
            let back = CallFrame::item_of(&bytes);
            assert!(back.function.get(mem.guard()) == other);
            assert_eq!(back.ip, 7);
            assert_eq!(back.base, 300);

            let mut frames: CallFrameList = Array::new();
            frames.push(mem, outer)?;
            frames.push(mem, inner)?;
            assert_eq!(frames.length(), 2);
            let top = frames.top(mem)?;
            assert!(top.function.get(mem.guard()) == other);
            assert_eq!(top.base, 300);
            let popped = frames.pop(mem)?;
            assert_eq!(popped.ip, 7);
            let bottom = frames.get(mem, 0)?;
            assert!(bottom.function.get(mem.guard()) == main);
            assert_eq!(bottom.base, 0);

            Ok(())
        }
    }

    let test = Test {};
    mem.mutate(&test, ()).unwrap();
}

#[test]
fn eval_status_compares_by_value() {
    let mut mem = Memory::new();

    struct Test {}
    impl Mutator for Test {
        type Input = ();
        type Output = ();

        fn run(
            &self,
            mem: &mut MutatorView,
            _input: Self::Input,
        ) -> Result<Self::Output, RuntimeError> {
            let a = mem.lookup_sym("a")?;
            let b = mem.lookup_sym("b")?;
            assert!(EvalStatus::Pending == EvalStatus::Pending);
            assert!(EvalStatus::Return(a) == EvalStatus::Return(a));
            assert!(EvalStatus::Return(a) != EvalStatus::Return(b));
            assert!(EvalStatus::Return(a) != EvalStatus::Pending);
            Ok(())
        }
    }

    let test = Test {};
    mem.mutate(&test, ()).unwrap();
}

#[test]
fn upvalue_open_and_closed() {
    let mut mem = Memory::new();

    struct Test {}
    impl Mutator for Test {
        type Input = ();
        type Output = ();

        fn run(
            &self,
            mem: &mut MutatorView,
            _input: Self::Input,
        ) -> Result<Self::Output, RuntimeError> {
            let a = mem.lookup_sym("a")?;
            let b = mem.lookup_sym("b")?;
            let c = mem.lookup_sym("c")?;
            let stack: ScopedPtr<List> = AnyContainerFromSlice::from_slice(mem, &[a, b])?;

            let ptr = Upvalue::allocate(mem, 1)?;
            let mut upvalue = mem.get(ptr);
            assert!(!upvalue.closed);
            assert_eq!(upvalue.location, 1);
            assert!(upvalue.value.is_nil());

            // an open upvalue stands for the place on the stack
            assert!(upvalue.get(mem, stack)? == b.get_ptr());
            upvalue.set(mem, stack, c.get_ptr())?;
            assert!(upvalue.get(mem, stack)? == c.get_ptr());
            let items = mem.get(stack).to_vec(mem);
            assert!(items[0].get_ptr() == a.get_ptr());
            assert!(items[1].get_ptr() == c.get_ptr());
            assert!(upvalue.value.is_nil());

            // a closed upvalue holds its value itself
            upvalue.close(mem, stack)?;
            assert!(upvalue.closed);
            assert!(upvalue.value.get_ptr() == c.get_ptr());
            upvalue.set(mem, stack, a.get_ptr())?;
            assert!(upvalue.get(mem, stack)? == a.get_ptr());
            let items = mem.get(stack).to_vec(mem);
            assert!(items[1].get_ptr() == c.get_ptr());

            // a place above the stack
            let mut high = Upvalue::new(2);
            match high.get(mem, stack) {
                Ok(_) => panic!("the stack is not as high"),
                Err(e) => assert!(*e.error_kind() == ErrorKind::BoundsError),
            }
            match high.set(mem, stack, a.get_ptr()) {
                Ok(_) => panic!("the stack is not as high"),
                Err(e) => assert!(*e.error_kind() == ErrorKind::BoundsError),
            }
            match high.close(mem, stack) {
                Ok(_) => panic!("the stack is not as high"),
                Err(e) => assert!(*e.error_kind() == ErrorKind::BoundsError),
            }
            assert!(!high.closed);

            Ok(())
        }
    }

    let test = Test {};
    mem.mutate(&test, ()).unwrap();
}

#[test]
fn upvalue_of_an_environment() {
    let mut mem = Memory::new();

    struct Test {}
    impl Mutator for Test {
        type Input = ();
        type Output = ();

        fn run(
            &self,
            mem: &mut MutatorView,
            _input: Self::Input,
        ) -> Result<Self::Output, RuntimeError> {
            let first = mem.alloc_tagged(Upvalue::new(10))?;
            let second = mem.alloc_tagged(Upvalue::new(20))?;
            let env: ScopedPtr<List> = AnyContainerFromSlice::from_slice(mem, &[first, second])?;
            let env = env.as_tagged(mem.guard());

            let found = env_upvalue_lookup(mem, env, 0)?;
            assert_eq!(mem.get(found).location, 10);
            let found = env_upvalue_lookup(mem, env, 1)?;
            assert_eq!(mem.get(found).location, 20);
            match second.value() {
                Value::Upvalue(ptr) => assert!(ptr == found),
                _ => panic!("an upvalue was put in"),
            }
            match env_upvalue_lookup(mem, env, 2) {
                Ok(_) => panic!("the environment has two upvalues"),
                Err(e) => assert!(*e.error_kind() == ErrorKind::BoundsError),
            }
            Ok(())
        }
    }

    let test = Test {};
    mem.mutate(&test, ()).unwrap();
}

#[test]
fn new_thread_has_a_stack_of_nil() {
    let mut mem = Memory::new();

    struct Test {}
    impl Mutator for Test {
        type Input = ();
        type Output = ();

        fn run(
            &self,
            mem: &mut MutatorView,
            _input: Self::Input,
        ) -> Result<Self::Output, RuntimeError> {
            let stack = alloc_stack(mem)?;
            let items = mem.get(stack).to_vec(mem);
            assert_eq!(items.len(), 256);
            assert!(items.iter().all(|item| item.is_nil()));

            let ptr = Thread::allocate(mem)?;
            let thread = mem.get(ptr);
            assert_eq!(thread.stack_base, 0);

            let frames = mem.get(thread.frames.get(mem.guard()));
            assert_eq!(frames.length(), 0);
            assert_eq!(frames.data().capacity(), 16);

            let stack = mem.get(thread.stack.get(mem.guard()));
            assert_eq!(stack.length(), 256);
            let items = stack.to_vec(mem);
            assert!(items.iter().all(|item| item.get_ptr() == TaggedPtr::nil()));

            let upvalues = mem.get(thread.upvalues.get(mem.guard()));
            assert_eq!(upvalues.length(), 0);
            assert_eq!(upvalues.data.capacity(), 0);
            let globals = mem.get(thread.globals.get(mem.guard()));
            assert_eq!(globals.length(), 0);
            assert!(thread.upvalues.get(mem.guard()) != thread.globals.get(mem.guard()));

            let mut instr = mem.get(thread.instr.get(mem.guard()));
            assert_eq!(instr.get_next_ip(), 0);
            match instr.get_next_opcode(mem) {
                Ok(_) => panic!("the thread has no byte code to run"),
                Err(e) => assert!(*e.error_kind() == ErrorKind::BoundsError),
            }

            // the globals of the thread can be used as a dict
            let mut globals = globals;
            let key = mem.lookup_sym("x")?;
            let value = TaggedScopedPtr::new(mem, TaggedPtr::number(5));
            globals.assoc(mem, key, value)?;
            mem.put(thread.globals.get(mem.guard()), &globals);
            let again = mem.get(mem.get(ptr).globals.get(mem.guard()));
            assert!(again.lookup(mem, key)? == value);

            Ok(())
        }
    }

    let test = Test {};
    mem.mutate(&test, ()).unwrap();
}
