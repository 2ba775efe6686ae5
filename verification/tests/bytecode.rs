use std::mem::size_of;

use stickyimmix::array::ArrayItem;
use stickyimmix::bytecode::{
    bits_of_i16, i16_of_bits, ByteCode, InstructionStream, Opcode, JUMP_UNKNOWN,
};
use stickyimmix::error::{ErrorKind, RuntimeError};
use stickyimmix::memory::{Memory, Mutator, MutatorView};
use stickyimmix::taggedptr::TaggedPtr;

#[test]
fn test_opcode_is_32_bits() {
    // an instruction is of 32 bits; if it is any bigger, some variant is
    // defined wrongly
    assert!(size_of::<Opcode>() == 4);
    assert!(Opcode::item_size() == 4);
}

fn samples() -> Vec<Opcode> {
    vec![
        Opcode::NoOp,
        Opcode::Return { reg: 255 },
        Opcode::LoadLiteral { dest: 3, literal_id: 0xabcd },
        Opcode::LoadLiteral { dest: 0, literal_id: 0 },
        Opcode::LoadLiteral { dest: 255, literal_id: 65535 },
        Opcode::IsNil { dest: 1, test: 2 },
        Opcode::IsAtom { dest: 3, test: 4 },
        Opcode::FirstOfPair { dest: 5, reg: 6 },
        Opcode::SecondOfPair { dest: 7, reg: 8 },
        Opcode::MakePair { dest: 9, reg1: 10, reg2: 11 },
        Opcode::IsIdentical { dest: 12, test1: 13, test2: 14 },
        Opcode::Jump { offset: -1 },
        Opcode::Jump { offset: i16::MIN },
        Opcode::Jump { offset: JUMP_UNKNOWN },
        Opcode::JumpIfTrue { test: 15, offset: 300 },
        Opcode::JumpIfNotTrue { test: 16, offset: -300 },
        Opcode::LoadNil { dest: 17 },
        Opcode::LoadGlobal { dest: 18, name: 19 },
        Opcode::StoreGlobal { src: 20, name: 21 },
        Opcode::Call { function: 22, dest: 23, arg_count: 24 },
        Opcode::MakeClosure { dest: 25, function: 26 },
        Opcode::LoadInteger { dest: 27, integer: -32768 },
        Opcode::LoadInteger { dest: 27, integer: 32767 },
        Opcode::CopyRegister { dest: 28, src: 29 },
        Opcode::Add { dest: 30, reg1: 31, reg2: 32 },
        Opcode::Subtract { dest: 33, left: 34, right: 35 },
        Opcode::Multiply { dest: 36, reg1: 37, reg2: 38 },
        Opcode::DivideInteger { dest: 39, num: 40, denom: 41 },
        Opcode::GetUpvalue { dest: 42, src: 43 },
        Opcode::SetUpvalue { dest: 44, src: 45 },
        Opcode::CloseUpvalues { reg1: 46, reg2: 47, reg3: 48 },
    ]
}

#[test]
fn opcode_bytes_round_trip() {
    for op in samples() {
        let bytes = op.item_bytes();
        assert_eq!(bytes.len(), 4);
        assert_eq!(Opcode::item_of(&bytes), op);
    }
}

#[test]
fn opcode_bytes_are_kind_and_operands() {
    assert_eq!(Opcode::NoOp.item_bytes(), vec![0, 0, 0, 0]);
    assert_eq!(Opcode::Return { reg: 7 }.item_bytes(), vec![1, 7, 0, 0]);
    assert_eq!(
        Opcode::LoadLiteral { dest: 3, literal_id: 0xabcd }.item_bytes(),
        vec![2, 3, 0xcd, 0xab]
    );
    assert_eq!(Opcode::Jump { offset: -2 }.item_bytes(), vec![9, 0, 0xfe, 0xff]);
    assert_eq!(
        Opcode::MakePair { dest: 9, reg1: 10, reg2: 11 }.item_bytes(),
        vec![7, 9, 10, 11]
    );
    assert_eq!(
        Opcode::CloseUpvalues { reg1: 1, reg2: 2, reg3: 3 }.item_bytes(),
        vec![25, 1, 2, 3]
    );
}

#[test]
fn opcode_of_unknown_kind_is_noop() {
    assert_eq!(Opcode::item_of(&[26, 1, 2, 3]), Opcode::NoOp);
    assert_eq!(Opcode::item_of(&[255, 0, 0, 0]), Opcode::NoOp);
    assert_eq!(Opcode::of_parts(200, 1, 2, 3), Opcode::NoOp);
}

#[test]
fn signed_operand_bits() {
    assert_eq!(bits_of_i16(0), 0);
    assert_eq!(bits_of_i16(1), 1);
    assert_eq!(bits_of_i16(-1), 0xffff);
    assert_eq!(bits_of_i16(i16::MIN), 0x8000);
    assert_eq!(bits_of_i16(i16::MAX), 0x7fff);
    assert_eq!(i16_of_bits(0xffff), -1);
    assert_eq!(i16_of_bits(0x8000), i16::MIN);
    assert_eq!(i16_of_bits(0x7fff), i16::MAX);
    for value in [-32768i16, -300, -1, 0, 1, 255, 256, 32767] {
        assert_eq!(bits_of_i16(value), value as u16);
        assert_eq!(i16_of_bits(value as u16), value);
    }
}

#[test]
fn bytecode_push_and_read_back() {
    let mut mem = Memory::new();

    struct Test {}
    impl Mutator for Test {
        type Input = ();
        type Output = ();

        fn run(
            &self,
            mem: &mut MutatorView,
            _input: Self::Input,
        ) -> Result<Self::Output, RuntimeError> {
            let mut code = ByteCode::new();
            assert_eq!(code.next_instruction(), 0);

            let ops = samples();
            for (index, op) in ops.iter().enumerate() {
                code.push(mem, *op)?;
                assert_eq!(code.last_instruction(), index as u32);
                assert_eq!(code.next_instruction(), index as u32 + 1);
            }
            for (index, op) in ops.iter().enumerate() {
                assert_eq!(code.code.get(mem, index as u32)?, *op);
            }

            code.push_loadlit(mem, 4, 9)?;
            assert_eq!(
                code.code.get(mem, code.last_instruction())?,
                Opcode::LoadLiteral { dest: 4, literal_id: 9 }
            );

            Ok(())
        }
    }

    let test = Test {};
    mem.mutate(&test, ()).unwrap();
}

#[test]
fn bytecode_update_jump_offset() {
    let mut mem = Memory::new();

    struct Test {}
    impl Mutator for Test {
        type Input = ();
        type Output = ();

        fn run(
            &self,
            mem: &mut MutatorView,
            _input: Self::Input,
        ) -> Result<Self::Output, RuntimeError> {
            let mut code = ByteCode::new();
            code.push(mem, Opcode::Jump { offset: JUMP_UNKNOWN })?;
            code.push(mem, Opcode::JumpIfTrue { test: 3, offset: JUMP_UNKNOWN })?;
            code.push(mem, Opcode::JumpIfNotTrue { test: 4, offset: JUMP_UNKNOWN })?;
            code.push(mem, Opcode::LoadNil { dest: 1 })?;

            code.update_jump_offset(mem, 0, 5)?;
            code.update_jump_offset(mem, 1, -7)?;
            code.update_jump_offset(mem, 2, 300)?;
            assert_eq!(code.code.get(mem, 0)?, Opcode::Jump { offset: 5 });
            assert_eq!(code.code.get(mem, 1)?, Opcode::JumpIfTrue { test: 3, offset: -7 });
            assert_eq!(code.code.get(mem, 2)?, Opcode::JumpIfNotTrue { test: 4, offset: 300 });

            match code.update_jump_offset(mem, 3, 1) {
                Ok(()) => panic!("the instruction is no jump"),
                Err(e) => assert!(
                    *e.error_kind()
                        == ErrorKind::EvalError(String::from(
                            "Cannot modify jump offset for non-jump instruction"
                        ))
                ),
            }
            assert_eq!(code.code.get(mem, 3)?, Opcode::LoadNil { dest: 1 });

            match code.update_jump_offset(mem, 4, 1) {
                Ok(()) => panic!("there is no such instruction"),
                Err(e) => assert!(*e.error_kind() == ErrorKind::BoundsError),
            }

            Ok(())
        }
    }

    let test = Test {};
    mem.mutate(&test, ()).unwrap();
}

#[test]
fn bytecode_literals_and_stream() {
    let mut mem = Memory::new();

    struct Test {}
    impl Mutator for Test {
        type Input = ();
        type Output = ();

        fn run(
            &self,
            mem: &mut MutatorView,
            _input: Self::Input,
        ) -> Result<Self::Output, RuntimeError> {
            let ptr = ByteCode::allocate(mem)?;
            let mut code = mem.get(ptr);

            let foo = mem.lookup_sym("foo")?;
            let bar = mem.lookup_sym("bar")?;
            assert_eq!(code.push_lit(mem, foo)?, 0);
            assert_eq!(code.push_lit(mem, bar)?, 1);
            code.push_loadlit(mem, 0, 1)?;
            code.push(mem, Opcode::Jump { offset: -1 })?;
            code.push(mem, Opcode::Return { reg: 0 })?;
            mem.put(ptr, &code);

            let stream_ptr = InstructionStream::allocate(mem, ptr)?;
            let mut stream = mem.get(stream_ptr);
            assert_eq!(stream.get_next_ip(), 0);
            assert_eq!(
                stream.get_next_opcode(mem)?,
                Opcode::LoadLiteral { dest: 0, literal_id: 1 }
            );
            assert_eq!(stream.get_next_ip(), 1);
            assert!(stream.get_literal(mem, 0)? == foo.get_ptr());
            assert!(stream.get_literal(mem, 1)? == bar.get_ptr());
            assert!(stream.get_literal(mem, 1)? != TaggedPtr::nil());
            match stream.get_literal(mem, 2) {
                Ok(_) => panic!("there is no such literal"),
                Err(e) => assert!(*e.error_kind() == ErrorKind::BoundsError),
            }

            assert_eq!(stream.get_next_opcode(mem)?, Opcode::Jump { offset: -1 });
            stream.jump(-1);
            assert_eq!(stream.get_next_ip(), 1);
            stream.jump(1);
            assert_eq!(stream.get_next_opcode(mem)?, Opcode::Return { reg: 0 });
            match stream.get_next_opcode(mem) {
                Ok(_) => panic!("the stream is at its end"),
                Err(e) => assert!(*e.error_kind() == ErrorKind::BoundsError),
            }
            assert_eq!(stream.get_next_ip(), 3);

            stream.switch_frame(ptr, 2);
            assert_eq!(stream.get_next_opcode(mem)?, Opcode::Return { reg: 0 });

            mem.put(stream_ptr, &stream);
            assert_eq!(mem.get(stream_ptr).get_next_ip(), 3);

            Ok(())
        }
    }

    let test = Test {};
    mem.mutate(&test, ()).unwrap();
}

#[test]
fn stream_jump_wraps_at_32_bits() {
    let mut mem = Memory::new();

    struct Test {}
    impl Mutator for Test {
        type Input = ();
        type Output = ();

        fn run(
            &self,
            mem: &mut MutatorView,
            _input: Self::Input,
        ) -> Result<Self::Output, RuntimeError> {
            let ptr = ByteCode::allocate(mem)?;
            let stream_ptr = InstructionStream::allocate(mem, ptr)?;
            let mut stream = mem.get(stream_ptr);
            stream.jump(10);
            assert_eq!(stream.get_next_ip(), 10);
            stream.jump(-4);
            assert_eq!(stream.get_next_ip(), 6);
            stream.jump(-7);
            assert_eq!(stream.get_next_ip(), u32::MAX);
            stream.jump(3);
            assert_eq!(stream.get_next_ip(), 2);
            Ok(())
        }
    }

    let test = Test {};
    mem.mutate(&test, ()).unwrap();
}
