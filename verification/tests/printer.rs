use stickyimmix::array::{Array, ArrayU16, ArrayU32, ArrayU8};
use stickyimmix::bytecode::{ByteCode, Opcode};
use stickyimmix::containers::AnyContainerFromSlice;
use stickyimmix::dict::Dict;
use stickyimmix::error::RuntimeError;
use stickyimmix::function::{Function, Partial};
use stickyimmix::list::List;
use stickyimmix::memory::{Memory, Mutator, MutatorView};
use stickyimmix::number::NumberObject;
use stickyimmix::pair::cons;
use stickyimmix::printer::{debug, print};
use stickyimmix::safeptr::{ScopedPtr, TaggedCellPtr, TaggedScopedPtr};
use stickyimmix::taggedptr::TaggedPtr;
use stickyimmix::text::Text;
use stickyimmix::vm::Upvalue;

fn ops() -> Vec<Opcode> {
    vec![
        Opcode::NoOp,
        Opcode::Return { reg: 255 },
        Opcode::LoadLiteral { dest: 3, literal_id: 65535 },
        Opcode::IsNil { dest: 1, test: 2 },
        Opcode::IsAtom { dest: 3, test: 4 },
        Opcode::FirstOfPair { dest: 5, reg: 6 },
        Opcode::SecondOfPair { dest: 7, reg: 8 },
        Opcode::MakePair { dest: 9, reg1: 10, reg2: 11 },
        Opcode::IsIdentical { dest: 12, test1: 13, test2: 14 },
        Opcode::Jump { offset: -32768 },
        Opcode::JumpIfTrue { test: 15, offset: 300 },
        Opcode::JumpIfNotTrue { test: 16, offset: -1 },
        Opcode::LoadNil { dest: 17 },
        Opcode::LoadGlobal { dest: 18, name: 19 },
        Opcode::StoreGlobal { src: 20, name: 21 },
        Opcode::Call { function: 22, dest: 23, arg_count: 24 },
        Opcode::MakeClosure { dest: 25, function: 26 },
        Opcode::LoadInteger { dest: 27, integer: 32767 },
        Opcode::CopyRegister { dest: 28, src: 29 },
        Opcode::Add { dest: 30, reg1: 31, reg2: 32 },
        Opcode::Subtract { dest: 33, left: 34, right: 35 },
        Opcode::Multiply { dest: 36, reg1: 37, reg2: 38 },
        Opcode::DivideInteger { dest: 39, num: 40, denom: 0 },
        Opcode::GetUpvalue { dest: 42, src: 43 },
        Opcode::SetUpvalue { dest: 44, src: 45 },
        Opcode::CloseUpvalues { reg1: 46, reg2: 47, reg3: 48 },
    ]
}

#[test]
fn opcode_text_is_its_debug_form() {
    for op in ops() {
        assert_eq!(op.debug_text(), format!("{:?}", op));
    }
    assert_eq!(Opcode::NoOp.debug_text(), "NoOp");
    assert_eq!(Opcode::Jump { offset: -3 }.debug_text(), "Jump { offset: -3 }");
    assert_eq!(
        Opcode::MakePair { dest: 1, reg1: 2, reg2: 3 }.debug_text(),
        "MakePair { dest: 1, reg1: 2, reg2: 3 }"
    );
}

#[test]
fn bytecode_prints_one_instruction_to_a_line() {
    let mut mem = Memory::new();

    struct Test {}
    impl Mutator for Test {
        type Input = ();
        type Output = ();

        fn run(
            &self,
            mem: &mut MutatorView,
            _input: Self::Input,
        ) -> Result<Self::Output, RuntimeError> {
            let mut code = ByteCode::new();
            assert_eq!(code.print(mem), "");
            code.push(mem, Opcode::LoadNil { dest: 1 })?;
            assert_eq!(code.print(mem), "LoadNil { dest: 1 }");
            code.push(mem, Opcode::Return { reg: 1 })?;
            assert_eq!(code.print(mem), "LoadNil { dest: 1 }\nReturn { reg: 1 }");

            let mut all = ByteCode::new();
            let mut lines: Vec<String> = Vec::new();
            for op in ops() {
                all.push(mem, op)?;
                lines.push(format!("{:?}", op));
            }
            assert_eq!(all.print(mem), lines.join("\n"));
            Ok(())
        }
    }

    let test = Test {};
    mem.mutate(&test, ()).unwrap();
}

#[test]
fn print_list_of_values() {
    let mut mem = Memory::new();

    struct Test {}
    impl Mutator for Test {
        type Input = ();
        type Output = ();

        fn run(
            &self,
            mem: &mut MutatorView,
            _input: Self::Input,
        ) -> Result<Self::Output, RuntimeError> {
            let a = mem.lookup_sym("a")?;
            let b = mem.lookup_sym("b")?;
            let three = TaggedScopedPtr::new(mem, TaggedPtr::number(3));
            let nil = mem.nil();
            let pair = cons(mem, a, b)?;

            let empty: ScopedPtr<List> = AnyContainerFromSlice::from_slice(mem, &[])?;
            assert_eq!(print(mem, empty.as_tagged(mem.guard()).value()), "[]");
            assert_eq!(debug(mem, empty.as_tagged(mem.guard()).value()), "[]");

            let one: ScopedPtr<List> = AnyContainerFromSlice::from_slice(mem, &[a])?;
            assert_eq!(print(mem, one.as_tagged(mem.guard()).value()), "[a]");

            // a comma stands in front of every item but the first two
            let two: ScopedPtr<List> = AnyContainerFromSlice::from_slice(mem, &[a, b])?;
            assert_eq!(print(mem, two.as_tagged(mem.guard()).value()), "[ab]");

            let many: ScopedPtr<List> =
                AnyContainerFromSlice::from_slice(mem, &[a, three, nil, pair, b])?;
            assert_eq!(
                print(mem, many.as_tagged(mem.guard()).value()),
                "[a3, nil, (a . b), b]"
            );
            assert_eq!(
                debug(mem, many.as_tagged(mem.guard()).value()),
                "[a3, nil, (a . b), b]"
            );

            let inner = many.as_tagged(mem.guard());
            let nested: ScopedPtr<List> = AnyContainerFromSlice::from_slice(mem, &[inner, a, b])?;
            assert_eq!(
                print(mem, nested.as_tagged(mem.guard()).value()),
                "[[a3, nil, (a . b), b]a, b]"
            );
            Ok(())
        }
    }

    let test = Test {};
    mem.mutate(&test, ()).unwrap();
}

#[test]
fn print_function_and_partial() {
    let mut mem = Memory::new();

    struct Test {}
    impl Mutator for Test {
        type Input = ();
        type Output = ();

        fn run(
            &self,
            mem: &mut MutatorView,
            _input: Self::Input,
        ) -> Result<Self::Output, RuntimeError> {
            let name = mem.lookup_sym("add")?;
            let a = mem.lookup_sym("a")?;
            let b = mem.lookup_sym("b")?;
            let c = mem.lookup_sym("c")?;
            let params: ScopedPtr<List> = AnyContainerFromSlice::from_slice(mem, &[a, b, c])?;
            let code_ptr = ByteCode::allocate(mem)?;
            let mut code = mem.get(code_ptr);
            code.push(mem, Opcode::Add { dest: 0, reg1: 1, reg2: 2 })?;
            code.push(mem, Opcode::Return { reg: 0 })?;
            mem.put(code_ptr, &code);

            let function = Function::allocate(mem, name, params, code_ptr, None)?;
            let value = function.as_tagged(mem.guard()).value();
            assert_eq!(print(mem, value), "(Function add (a b c))");
            assert_eq!(
                debug(mem, value),
                "(Function add (a b c))\nbytecode follows:\nAdd { dest: 0, reg1: 1, reg2: 2 }\nReturn { reg: 0 }"
            );

            let nil = mem.nil();
            let lambda = Function::allocate(mem, nil, params, code_ptr, None)?;
            assert_eq!(
                print(mem, lambda.as_tagged(mem.guard()).value()),
                "(Function (a b c))"
            );

            let none: ScopedPtr<List> = AnyContainerFromSlice::from_slice(mem, &[])?;
            let thunk = Function::allocate(mem, nil, none, code_ptr, None)?;
            assert_eq!(print(mem, thunk.as_tagged(mem.guard()).value()), "(Function ())");

            let one = TaggedCellPtr::new_with(a);
            let partial = Partial::allocate(mem, function, None, &[one])?;
            let value = partial.as_tagged(mem.guard()).value();
            assert_eq!(print(mem, value), "(Partial add (b c))");
            assert_eq!(
                debug(mem, value),
                "(Partial add (b c))\nbytecode follows:\nAdd { dest: 0, reg1: 1, reg2: 2 }\nReturn { reg: 0 }"
            );

            let all = Partial::alloc_clone(mem, partial, &[one, one])?;
            assert_eq!(print(mem, all.as_tagged(mem.guard()).value()), "(Partial add ())");

            let unnamed = Partial::allocate(mem, lambda, None, &[one, one])?;
            assert_eq!(print(mem, unnamed.as_tagged(mem.guard()).value()), "(Partial (c))");
            Ok(())
        }
    }

    let test = Test {};
    mem.mutate(&test, ()).unwrap();
}

#[test]
fn print_objects_of_other_types() {
    let mut mem = Memory::new();

    struct Test {}
    impl Mutator for Test {
        type Input = ();
        type Output = ();

        fn run(
            &self,
            mem: &mut MutatorView,
            _input: Self::Input,
        ) -> Result<Self::Output, RuntimeError> {
            let bytes = ArrayU8::allocate(mem)?;
            assert_eq!(print(mem, bytes.as_tagged(mem.guard()).value()), "ArrayU8[...]");
            let shorts = ArrayU16::allocate(mem)?;
            assert_eq!(print(mem, shorts.as_tagged(mem.guard()).value()), "ArrayU16[...]");
            let words = ArrayU32::allocate(mem)?;
            assert_eq!(print(mem, words.as_tagged(mem.guard()).value()), "ArrayU32[...]");
            assert_eq!(debug(mem, words.as_tagged(mem.guard()).value()), "ArrayU32[...]");
            let dict = Dict::allocate(mem)?;
            assert_eq!(print(mem, dict.as_tagged(mem.guard()).value()), "Dict[...]");
            let upvalue = mem.alloc_tagged(Upvalue::new(1))?;
            assert_eq!(print(mem, upvalue.value()), "Upvalue");
            let number = mem.alloc_tagged(NumberObject::new(Array::new()))?;
            assert_eq!(print(mem, number.value()), "<unidentified-object-type>");
            let text = mem.alloc_tagged(Text::new_empty())?;
            assert_eq!(print(mem, text.value()), "\"\"");
            Ok(())
        }
    }

    let test = Test {};
    mem.mutate(&test, ()).unwrap();
}
