//! Byte code: the instructions of the virtual machine, the record that
//! stands for the code of a function in the heap, and the stream that
//! instructions are read from.

use vstd::prelude::*;
use crate::allocator::{AllocObject, ArraySize};
use crate::array::{array_is_held, array_items, lemma_array_is_stable, Array, ArrayItem, ArrayType};
use crate::containers::{
    cell_of, changed_at_most, is_borrow_error, is_bounds_error, is_growth_failure,
};
use crate::error::{err_eval, ErrorKind, RuntimeError};
use crate::headers::TypeList;
use crate::layout::{spec_u32_of_word, u32_of_word, word_of_u32};
use crate::list::List;
use crate::memory::{Heap, MutatorView};
use crate::safeptr::{CellPtr, ScopedPtr, TaggedCellPtr, TaggedScopedPtr};
use crate::strings::{join_texts, joined, push_signed_decimal, push_text, signed_decimal, texts_of};
use crate::taggedptr::TaggedPtr;

verus! {

/// The index of a register.
pub type Register = u8;

/// An integer that an instruction holds.
pub type LiteralInteger = i16;

/// The index of a literal in the list of literals.
pub type LiteralId = u16;

/// The index of an upvalue in the list of upvalues of a closure.
pub type UpvalueId = u8;

/// The distance of a jump, counted in instructions from the instruction
/// behind the jump.
pub type JumpOffset = i16;

/// The distance of a jump whose target is not known yet.
pub const JUMP_UNKNOWN: i16 = 0x7fff;

/// The count of arguments of a call.
pub type NumArgs = u8;

/// An instruction of the virtual machine. Every instruction fits into 32
/// bits.
#[derive(PartialEq, Eq, Debug, Clone, Copy, Structural)]
#[allow(inconsistent_fields)]
pub enum Opcode {
    /// Does nothing.
    NoOp,
    /// Leaves the function with the value of `reg`.
    Return { reg: Register },
    /// Loads a literal into `dest`.
    LoadLiteral { dest: Register, literal_id: LiteralId },
    /// Sets `dest` to whether `test` holds nil.
    IsNil { dest: Register, test: Register },
    /// Sets `dest` to whether `test` holds an atom.
    IsAtom { dest: Register, test: Register },
    /// Loads the first value of the pair in `reg` into `dest`.
    FirstOfPair { dest: Register, reg: Register },
    /// Loads the second value of the pair in `reg` into `dest`.
    SecondOfPair { dest: Register, reg: Register },
    /// Makes a pair of the values of `reg1` and `reg2`.
    MakePair { dest: Register, reg1: Register, reg2: Register },
    /// Sets `dest` to whether `test1` and `test2` hold the same pointer.
    IsIdentical { dest: Register, test1: Register, test2: Register },
    /// Jumps by `offset` instructions.
    Jump { offset: JumpOffset },
    /// Jumps by `offset` instructions if `test` holds true.
    JumpIfTrue { test: Register, offset: JumpOffset },
    /// Jumps by `offset` instructions unless `test` holds true.
    JumpIfNotTrue { test: Register, offset: JumpOffset },
    /// Loads nil into `dest`.
    LoadNil { dest: Register },
    /// Loads the global of the name in `name` into `dest`.
    LoadGlobal { dest: Register, name: Register },
    /// Stores the value of `src` as the global of the name in `name`.
    StoreGlobal { src: Register, name: Register },
    /// Calls the function in `function` with `arg_count` arguments.
    Call { function: Register, dest: Register, arg_count: NumArgs },
    /// Makes a closure of the function in `function`.
    MakeClosure { dest: Register, function: Register },
    /// Loads the number `integer` into `dest`.
    LoadInteger { dest: Register, integer: LiteralInteger },
    /// Copies `src` to `dest`.
    CopyRegister { dest: Register, src: Register },
    /// Adds the numbers of `reg1` and `reg2`.
    Add { dest: Register, reg1: Register, reg2: Register },
    /// Takes the number of `right` from that of `left`.
    Subtract { dest: Register, left: Register, right: Register },
    /// Multiplies the numbers of `reg1` and `reg2`.
    Multiply { dest: Register, reg1: Register, reg2: Register },
    /// Divides the number of `num` by that of `denom`.
    DivideInteger { dest: Register, num: Register, denom: Register },
    /// Loads the value of upvalue `src` into `dest`.
    GetUpvalue { dest: Register, src: UpvalueId },
    /// Stores the value of `src` in upvalue `dest`.
    SetUpvalue { dest: UpvalueId, src: Register },
    /// Closes the upvalues of up to three registers.
    CloseUpvalues { reg1: Register, reg2: Register, reg3: Register },
}

/// The 16 bits that stand for a signed number: the number itself where it
/// is not negative, and the number above `u16::MAX` where it is.
pub open spec fn spec_bits_of_i16(value: i16) -> u16 {
    if value >= 0 {
        value as u16
    } else {
        (value + 0x1_0000) as u16
    }
}

/// The signed number that 16 bits stand for.
pub open spec fn spec_i16_of_bits(bits: u16) -> i16 {
    if bits <= 0x7fff {
        bits as i16
    } else {
        (bits - 0x1_0000) as i16
    }
}

/// The low byte of 16 bits.
pub open spec fn spec_low_byte(bits: u16) -> u8 {
    (bits % 256) as u8
}

/// The high byte of 16 bits.
pub open spec fn spec_high_byte(bits: u16) -> u8 {
    (bits / 256) as u8
}

/// The 16 bits made of a low and a high byte.
pub open spec fn spec_join_bytes(low: u8, high: u8) -> u16 {
    (low + 256 * high) as u16
}

/// The 16 bits that stand for a signed number.
pub fn bits_of_i16(value: i16) -> (bits: u16)
    ensures
        bits == spec_bits_of_i16(value),
{
    if value >= 0 {
        value as u16
    } else {
        let below: u16 = (-(value + 1)) as u16;
        0xffff - below
    }
}

/// The signed number that 16 bits stand for.
pub fn i16_of_bits(bits: u16) -> (value: i16)
    ensures
        value == spec_i16_of_bits(bits),
{
    if bits <= 0x7fff {
        bits as i16
    } else {
        let below: i16 = (0xffff - bits) as i16;
        -below - 1
    }
}

/// The low byte of 16 bits.
pub fn low_byte(bits: u16) -> (byte: u8)
    ensures
        byte == spec_low_byte(bits),
{
    (bits % 256) as u8
}

/// The high byte of 16 bits.
pub fn high_byte(bits: u16) -> (byte: u8)
    ensures
        byte == spec_high_byte(bits),
{
    (bits / 256) as u8
}

/// The 16 bits made of a low and a high byte.
pub fn join_bytes(low: u8, high: u8) -> (bits: u16)
    ensures
        bits == spec_join_bytes(low, high),
{
    low as u16 + 256 * (high as u16)
}

/// The four bytes that stand for an instruction: the number of its kind,
/// and its operands in order. An operand of 16 bits takes the last two
/// bytes, low byte first.
pub open spec fn opcode_parts(op: Opcode) -> (u8, u8, u8, u8) {
    match op {
        Opcode::NoOp => (0u8, 0u8, 0u8, 0u8),
        Opcode::Return { reg } => (1u8, reg, 0u8, 0u8),
        Opcode::LoadLiteral { dest, literal_id } => (2u8, dest, spec_low_byte(literal_id), spec_high_byte(literal_id)),
        Opcode::IsNil { dest, test } => (3u8, dest, test, 0u8),
        Opcode::IsAtom { dest, test } => (4u8, dest, test, 0u8),
        Opcode::FirstOfPair { dest, reg } => (5u8, dest, reg, 0u8),
        Opcode::SecondOfPair { dest, reg } => (6u8, dest, reg, 0u8),
        Opcode::MakePair { dest, reg1, reg2 } => (7u8, dest, reg1, reg2),
        Opcode::IsIdentical { dest, test1, test2 } => (8u8, dest, test1, test2),
        Opcode::Jump { offset } => (9u8, 0u8, spec_low_byte(spec_bits_of_i16(offset)), spec_high_byte(spec_bits_of_i16(offset))),
        Opcode::JumpIfTrue { test, offset } => (10u8, test, spec_low_byte(spec_bits_of_i16(offset)), spec_high_byte(spec_bits_of_i16(offset))),
        Opcode::JumpIfNotTrue { test, offset } => (11u8, test, spec_low_byte(spec_bits_of_i16(offset)), spec_high_byte(spec_bits_of_i16(offset))),
        Opcode::LoadNil { dest } => (12u8, dest, 0u8, 0u8),
        Opcode::LoadGlobal { dest, name } => (13u8, dest, name, 0u8),
        Opcode::StoreGlobal { src, name } => (14u8, src, name, 0u8),
        Opcode::Call { function, dest, arg_count } => (15u8, function, dest, arg_count),
        Opcode::MakeClosure { dest, function } => (16u8, dest, function, 0u8),
        Opcode::LoadInteger { dest, integer } => (17u8, dest, spec_low_byte(spec_bits_of_i16(integer)), spec_high_byte(spec_bits_of_i16(integer))),
        Opcode::CopyRegister { dest, src } => (18u8, dest, src, 0u8),
        Opcode::Add { dest, reg1, reg2 } => (19u8, dest, reg1, reg2),
        Opcode::Subtract { dest, left, right } => (20u8, dest, left, right),
        Opcode::Multiply { dest, reg1, reg2 } => (21u8, dest, reg1, reg2),
        Opcode::DivideInteger { dest, num, denom } => (22u8, dest, num, denom),
        Opcode::GetUpvalue { dest, src } => (23u8, dest, src, 0u8),
        Opcode::SetUpvalue { dest, src } => (24u8, dest, src, 0u8),
        Opcode::CloseUpvalues { reg1, reg2, reg3 } => (25u8, reg1, reg2, reg3),
    }
}

/// The instruction that four bytes stand for. A number that is the number
/// of no kind stands for the instruction that does nothing.
pub open spec fn opcode_of_parts(code: u8, a: u8, b: u8, c: u8) -> Opcode {
    if code == 1 {
        Opcode::Return { reg: a }
    } else if code == 2 {
        Opcode::LoadLiteral { dest: a, literal_id: spec_join_bytes(b, c) }
    } else if code == 3 {
        Opcode::IsNil { dest: a, test: b }
    } else if code == 4 {
        Opcode::IsAtom { dest: a, test: b }
    } else if code == 5 {
        Opcode::FirstOfPair { dest: a, reg: b }
    } else if code == 6 {
        Opcode::SecondOfPair { dest: a, reg: b }
    } else if code == 7 {
        Opcode::MakePair { dest: a, reg1: b, reg2: c }
    } else if code == 8 {
        Opcode::IsIdentical { dest: a, test1: b, test2: c }
    } else if code == 9 {
        Opcode::Jump { offset: spec_i16_of_bits(spec_join_bytes(b, c)) }
    } else if code == 10 {
        Opcode::JumpIfTrue { test: a, offset: spec_i16_of_bits(spec_join_bytes(b, c)) }
    } else if code == 11 {
        Opcode::JumpIfNotTrue { test: a, offset: spec_i16_of_bits(spec_join_bytes(b, c)) }
    } else if code == 12 {
        Opcode::LoadNil { dest: a }
    } else if code == 13 {
        Opcode::LoadGlobal { dest: a, name: b }
    } else if code == 14 {
        Opcode::StoreGlobal { src: a, name: b }
    } else if code == 15 {
        Opcode::Call { function: a, dest: b, arg_count: c }
    } else if code == 16 {
        Opcode::MakeClosure { dest: a, function: b }
    } else if code == 17 {
        Opcode::LoadInteger { dest: a, integer: spec_i16_of_bits(spec_join_bytes(b, c)) }
    } else if code == 18 {
        Opcode::CopyRegister { dest: a, src: b }
    } else if code == 19 {
        Opcode::Add { dest: a, reg1: b, reg2: c }
    } else if code == 20 {
        Opcode::Subtract { dest: a, left: b, right: c }
    } else if code == 21 {
        Opcode::Multiply { dest: a, reg1: b, reg2: c }
    } else if code == 22 {
        Opcode::DivideInteger { dest: a, num: b, denom: c }
    } else if code == 23 {
        Opcode::GetUpvalue { dest: a, src: b }
    } else if code == 24 {
        Opcode::SetUpvalue { dest: a, src: b }
    } else if code == 25 {
        Opcode::CloseUpvalues { reg1: a, reg2: b, reg3: c }
    } else {
        Opcode::NoOp
    }
}

/// The four bytes of an instruction stand for that instruction.
pub proof fn lemma_opcode_round_trip(op: Opcode)
    ensures
        ({
            let parts = opcode_parts(op);
            opcode_of_parts(parts.0, parts.1, parts.2, parts.3) == op
        }),
{
}

impl Opcode {
    /// The four bytes that stand for the instruction.
    pub fn parts(&self) -> (parts: (u8, u8, u8, u8))
        ensures
            parts == opcode_parts(*self),
    {
        match *self {
            Opcode::NoOp => (0u8, 0u8, 0u8, 0u8),
            Opcode::Return { reg } => (1u8, reg, 0u8, 0u8),
            Opcode::LoadLiteral { dest, literal_id } => (2u8, dest, low_byte(literal_id), high_byte(literal_id)),
            Opcode::IsNil { dest, test } => (3u8, dest, test, 0u8),
            Opcode::IsAtom { dest, test } => (4u8, dest, test, 0u8),
            Opcode::FirstOfPair { dest, reg } => (5u8, dest, reg, 0u8),
            Opcode::SecondOfPair { dest, reg } => (6u8, dest, reg, 0u8),
            Opcode::MakePair { dest, reg1, reg2 } => (7u8, dest, reg1, reg2),
            Opcode::IsIdentical { dest, test1, test2 } => (8u8, dest, test1, test2),
            Opcode::Jump { offset } => (9u8, 0u8, low_byte(bits_of_i16(offset)), high_byte(bits_of_i16(offset))),
            Opcode::JumpIfTrue { test, offset } => (10u8, test, low_byte(bits_of_i16(offset)), high_byte(bits_of_i16(offset))),
            Opcode::JumpIfNotTrue { test, offset } => (11u8, test, low_byte(bits_of_i16(offset)), high_byte(bits_of_i16(offset))),
            Opcode::LoadNil { dest } => (12u8, dest, 0u8, 0u8),
            Opcode::LoadGlobal { dest, name } => (13u8, dest, name, 0u8),
            Opcode::StoreGlobal { src, name } => (14u8, src, name, 0u8),
            Opcode::Call { function, dest, arg_count } => (15u8, function, dest, arg_count),
            Opcode::MakeClosure { dest, function } => (16u8, dest, function, 0u8),
            Opcode::LoadInteger { dest, integer } => (17u8, dest, low_byte(bits_of_i16(integer)), high_byte(bits_of_i16(integer))),
            Opcode::CopyRegister { dest, src } => (18u8, dest, src, 0u8),
            Opcode::Add { dest, reg1, reg2 } => (19u8, dest, reg1, reg2),
            Opcode::Subtract { dest, left, right } => (20u8, dest, left, right),
            Opcode::Multiply { dest, reg1, reg2 } => (21u8, dest, reg1, reg2),
            Opcode::DivideInteger { dest, num, denom } => (22u8, dest, num, denom),
            Opcode::GetUpvalue { dest, src } => (23u8, dest, src, 0u8),
            Opcode::SetUpvalue { dest, src } => (24u8, dest, src, 0u8),
            Opcode::CloseUpvalues { reg1, reg2, reg3 } => (25u8, reg1, reg2, reg3),
        }
    }

    /// The instruction that four bytes stand for.
    pub fn of_parts(code: u8, a: u8, b: u8, c: u8) -> (op: Opcode)
        ensures
            op == opcode_of_parts(code, a, b, c),
    {
        if code == 1 {
            Opcode::Return { reg: a }
        } else if code == 2 {
            Opcode::LoadLiteral { dest: a, literal_id: join_bytes(b, c) }
        } else if code == 3 {
            Opcode::IsNil { dest: a, test: b }
        } else if code == 4 {
            Opcode::IsAtom { dest: a, test: b }
        } else if code == 5 {
            Opcode::FirstOfPair { dest: a, reg: b }
        } else if code == 6 {
            Opcode::SecondOfPair { dest: a, reg: b }
        } else if code == 7 {
            Opcode::MakePair { dest: a, reg1: b, reg2: c }
        } else if code == 8 {
            Opcode::IsIdentical { dest: a, test1: b, test2: c }
        } else if code == 9 {
            Opcode::Jump { offset: i16_of_bits(join_bytes(b, c)) }
        } else if code == 10 {
            Opcode::JumpIfTrue { test: a, offset: i16_of_bits(join_bytes(b, c)) }
        } else if code == 11 {
            Opcode::JumpIfNotTrue { test: a, offset: i16_of_bits(join_bytes(b, c)) }
        } else if code == 12 {
            Opcode::LoadNil { dest: a }
        } else if code == 13 {
            Opcode::LoadGlobal { dest: a, name: b }
        } else if code == 14 {
            Opcode::StoreGlobal { src: a, name: b }
        } else if code == 15 {
            Opcode::Call { function: a, dest: b, arg_count: c }
        } else if code == 16 {
            Opcode::MakeClosure { dest: a, function: b }
        } else if code == 17 {
            Opcode::LoadInteger { dest: a, integer: i16_of_bits(join_bytes(b, c)) }
        } else if code == 18 {
            Opcode::CopyRegister { dest: a, src: b }
        } else if code == 19 {
            Opcode::Add { dest: a, reg1: b, reg2: c }
        } else if code == 20 {
            Opcode::Subtract { dest: a, left: b, right: c }
        } else if code == 21 {
            Opcode::Multiply { dest: a, reg1: b, reg2: c }
        } else if code == 22 {
            Opcode::DivideInteger { dest: a, num: b, denom: c }
        } else if code == 23 {
            Opcode::GetUpvalue { dest: a, src: b }
        } else if code == 24 {
            Opcode::SetUpvalue { dest: a, src: b }
        } else if code == 25 {
            Opcode::CloseUpvalues { reg1: a, reg2: b, reg3: c }
        } else {
            Opcode::NoOp
        }
    }
}

/// The text that an instruction is printed as: the name of its kind and,
/// between braces, each operand with its name.
pub open spec fn opcode_text(op: Opcode) -> Seq<char> {
    match op {
        Opcode::NoOp => "NoOp"@,
        Opcode::Return { reg } => "Return { reg: "@ + signed_decimal(reg as int) + " }"@,
        Opcode::LoadLiteral { dest, literal_id } => "LoadLiteral { dest: "@ + signed_decimal(dest as int) + ", literal_id: "@ + signed_decimal(literal_id as int) + " }"@,
        Opcode::IsNil { dest, test } => "IsNil { dest: "@ + signed_decimal(dest as int) + ", test: "@ + signed_decimal(test as int) + " }"@,
        Opcode::IsAtom { dest, test } => "IsAtom { dest: "@ + signed_decimal(dest as int) + ", test: "@ + signed_decimal(test as int) + " }"@,
        Opcode::FirstOfPair { dest, reg } => "FirstOfPair { dest: "@ + signed_decimal(dest as int) + ", reg: "@ + signed_decimal(reg as int) + " }"@,
        Opcode::SecondOfPair { dest, reg } => "SecondOfPair { dest: "@ + signed_decimal(dest as int) + ", reg: "@ + signed_decimal(reg as int) + " }"@,
        Opcode::MakePair { dest, reg1, reg2 } => "MakePair { dest: "@ + signed_decimal(dest as int) + ", reg1: "@ + signed_decimal(reg1 as int) + ", reg2: "@ + signed_decimal(reg2 as int) + " }"@,
        Opcode::IsIdentical { dest, test1, test2 } => "IsIdentical { dest: "@ + signed_decimal(dest as int) + ", test1: "@ + signed_decimal(test1 as int) + ", test2: "@ + signed_decimal(test2 as int) + " }"@,
        Opcode::Jump { offset } => "Jump { offset: "@ + signed_decimal(offset as int) + " }"@,
        Opcode::JumpIfTrue { test, offset } => "JumpIfTrue { test: "@ + signed_decimal(test as int) + ", offset: "@ + signed_decimal(offset as int) + " }"@,
        Opcode::JumpIfNotTrue { test, offset } => "JumpIfNotTrue { test: "@ + signed_decimal(test as int) + ", offset: "@ + signed_decimal(offset as int) + " }"@,
        Opcode::LoadNil { dest } => "LoadNil { dest: "@ + signed_decimal(dest as int) + " }"@,
        Opcode::LoadGlobal { dest, name } => "LoadGlobal { dest: "@ + signed_decimal(dest as int) + ", name: "@ + signed_decimal(name as int) + " }"@,
        Opcode::StoreGlobal { src, name } => "StoreGlobal { src: "@ + signed_decimal(src as int) + ", name: "@ + signed_decimal(name as int) + " }"@,
        Opcode::Call { function, dest, arg_count } => "Call { function: "@ + signed_decimal(function as int) + ", dest: "@ + signed_decimal(dest as int) + ", arg_count: "@ + signed_decimal(arg_count as int) + " }"@,
        Opcode::MakeClosure { dest, function } => "MakeClosure { dest: "@ + signed_decimal(dest as int) + ", function: "@ + signed_decimal(function as int) + " }"@,
        Opcode::LoadInteger { dest, integer } => "LoadInteger { dest: "@ + signed_decimal(dest as int) + ", integer: "@ + signed_decimal(integer as int) + " }"@,
        Opcode::CopyRegister { dest, src } => "CopyRegister { dest: "@ + signed_decimal(dest as int) + ", src: "@ + signed_decimal(src as int) + " }"@,
        Opcode::Add { dest, reg1, reg2 } => "Add { dest: "@ + signed_decimal(dest as int) + ", reg1: "@ + signed_decimal(reg1 as int) + ", reg2: "@ + signed_decimal(reg2 as int) + " }"@,
        Opcode::Subtract { dest, left, right } => "Subtract { dest: "@ + signed_decimal(dest as int) + ", left: "@ + signed_decimal(left as int) + ", right: "@ + signed_decimal(right as int) + " }"@,
        Opcode::Multiply { dest, reg1, reg2 } => "Multiply { dest: "@ + signed_decimal(dest as int) + ", reg1: "@ + signed_decimal(reg1 as int) + ", reg2: "@ + signed_decimal(reg2 as int) + " }"@,
        Opcode::DivideInteger { dest, num, denom } => "DivideInteger { dest: "@ + signed_decimal(dest as int) + ", num: "@ + signed_decimal(num as int) + ", denom: "@ + signed_decimal(denom as int) + " }"@,
        Opcode::GetUpvalue { dest, src } => "GetUpvalue { dest: "@ + signed_decimal(dest as int) + ", src: "@ + signed_decimal(src as int) + " }"@,
        Opcode::SetUpvalue { dest, src } => "SetUpvalue { dest: "@ + signed_decimal(dest as int) + ", src: "@ + signed_decimal(src as int) + " }"@,
        Opcode::CloseUpvalues { reg1, reg2, reg3 } => "CloseUpvalues { reg1: "@ + signed_decimal(reg1 as int) + ", reg2: "@ + signed_decimal(reg2 as int) + ", reg3: "@ + signed_decimal(reg3 as int) + " }"@,
    }
}

impl Opcode {
    /// The text that the instruction is printed as.
    pub fn debug_text(&self) -> (text: String)
        ensures
            text@ == opcode_text(*self),
    {
        let mut out = String::new();
        match *self {
            Opcode::NoOp => {
                push_text(&mut out, "NoOp");
            },
            Opcode::Return { reg } => {
                push_text(&mut out, "Return { reg: ");
                push_signed_decimal(&mut out, reg as isize);
                push_text(&mut out, " }");
            },
            Opcode::LoadLiteral { dest, literal_id } => {
                push_text(&mut out, "LoadLiteral { dest: ");
                push_signed_decimal(&mut out, dest as isize);
                push_text(&mut out, ", literal_id: ");
                push_signed_decimal(&mut out, literal_id as isize);
                push_text(&mut out, " }");
            },
            Opcode::IsNil { dest, test } => {
                push_text(&mut out, "IsNil { dest: ");
                push_signed_decimal(&mut out, dest as isize);
                push_text(&mut out, ", test: ");
                push_signed_decimal(&mut out, test as isize);
                push_text(&mut out, " }");
            },
            Opcode::IsAtom { dest, test } => {
                push_text(&mut out, "IsAtom { dest: ");
                push_signed_decimal(&mut out, dest as isize);
                push_text(&mut out, ", test: ");
                push_signed_decimal(&mut out, test as isize);
                push_text(&mut out, " }");
            },
            Opcode::FirstOfPair { dest, reg } => {
                push_text(&mut out, "FirstOfPair { dest: ");
                push_signed_decimal(&mut out, dest as isize);
                push_text(&mut out, ", reg: ");
                push_signed_decimal(&mut out, reg as isize);
                push_text(&mut out, " }");
            },
            Opcode::SecondOfPair { dest, reg } => {
                push_text(&mut out, "SecondOfPair { dest: ");
                push_signed_decimal(&mut out, dest as isize);
                push_text(&mut out, ", reg: ");
                push_signed_decimal(&mut out, reg as isize);
                push_text(&mut out, " }");
            },
            Opcode::MakePair { dest, reg1, reg2 } => {
                push_text(&mut out, "MakePair { dest: ");
                push_signed_decimal(&mut out, dest as isize);
                push_text(&mut out, ", reg1: ");
                push_signed_decimal(&mut out, reg1 as isize);
                push_text(&mut out, ", reg2: ");
                push_signed_decimal(&mut out, reg2 as isize);
                push_text(&mut out, " }");
            },
            Opcode::IsIdentical { dest, test1, test2 } => {
                push_text(&mut out, "IsIdentical { dest: ");
                push_signed_decimal(&mut out, dest as isize);
                push_text(&mut out, ", test1: ");
                push_signed_decimal(&mut out, test1 as isize);
                push_text(&mut out, ", test2: ");
                push_signed_decimal(&mut out, test2 as isize);
                push_text(&mut out, " }");
            },
            Opcode::Jump { offset } => {
                push_text(&mut out, "Jump { offset: ");
                push_signed_decimal(&mut out, offset as isize);
                push_text(&mut out, " }");
            },
            Opcode::JumpIfTrue { test, offset } => {
                push_text(&mut out, "JumpIfTrue { test: ");
                push_signed_decimal(&mut out, test as isize);
                push_text(&mut out, ", offset: ");
                push_signed_decimal(&mut out, offset as isize);
                push_text(&mut out, " }");
            },
            Opcode::JumpIfNotTrue { test, offset } => {
                push_text(&mut out, "JumpIfNotTrue { test: ");
                push_signed_decimal(&mut out, test as isize);
                push_text(&mut out, ", offset: ");
                push_signed_decimal(&mut out, offset as isize);
                push_text(&mut out, " }");
            },
            Opcode::LoadNil { dest } => {
                push_text(&mut out, "LoadNil { dest: ");
                push_signed_decimal(&mut out, dest as isize);
                push_text(&mut out, " }");
            },
            Opcode::LoadGlobal { dest, name } => {
                push_text(&mut out, "LoadGlobal { dest: ");
                push_signed_decimal(&mut out, dest as isize);
                push_text(&mut out, ", name: ");
                push_signed_decimal(&mut out, name as isize);
                push_text(&mut out, " }");
            },
            Opcode::StoreGlobal { src, name } => {
                push_text(&mut out, "StoreGlobal { src: ");
                push_signed_decimal(&mut out, src as isize);
                push_text(&mut out, ", name: ");
                push_signed_decimal(&mut out, name as isize);
                push_text(&mut out, " }");
            },
            Opcode::Call { function, dest, arg_count } => {
                push_text(&mut out, "Call { function: ");
                push_signed_decimal(&mut out, function as isize);
                push_text(&mut out, ", dest: ");
                push_signed_decimal(&mut out, dest as isize);
                push_text(&mut out, ", arg_count: ");
                push_signed_decimal(&mut out, arg_count as isize);
                push_text(&mut out, " }");
            },
            Opcode::MakeClosure { dest, function } => {
                push_text(&mut out, "MakeClosure { dest: ");
                push_signed_decimal(&mut out, dest as isize);
                push_text(&mut out, ", function: ");
                push_signed_decimal(&mut out, function as isize);
                push_text(&mut out, " }");
            },
            Opcode::LoadInteger { dest, integer } => {
                push_text(&mut out, "LoadInteger { dest: ");
                push_signed_decimal(&mut out, dest as isize);
                push_text(&mut out, ", integer: ");
                push_signed_decimal(&mut out, integer as isize);
                push_text(&mut out, " }");
            },
            Opcode::CopyRegister { dest, src } => {
                push_text(&mut out, "CopyRegister { dest: ");
                push_signed_decimal(&mut out, dest as isize);
                push_text(&mut out, ", src: ");
                push_signed_decimal(&mut out, src as isize);
                push_text(&mut out, " }");
            },
            Opcode::Add { dest, reg1, reg2 } => {
                push_text(&mut out, "Add { dest: ");
                push_signed_decimal(&mut out, dest as isize);
                push_text(&mut out, ", reg1: ");
                push_signed_decimal(&mut out, reg1 as isize);
                push_text(&mut out, ", reg2: ");
                push_signed_decimal(&mut out, reg2 as isize);
                push_text(&mut out, " }");
            },
            Opcode::Subtract { dest, left, right } => {
                push_text(&mut out, "Subtract { dest: ");
                push_signed_decimal(&mut out, dest as isize);
                push_text(&mut out, ", left: ");
                push_signed_decimal(&mut out, left as isize);
                push_text(&mut out, ", right: ");
                push_signed_decimal(&mut out, right as isize);
                push_text(&mut out, " }");
            },
            Opcode::Multiply { dest, reg1, reg2 } => {
                push_text(&mut out, "Multiply { dest: ");
                push_signed_decimal(&mut out, dest as isize);
                push_text(&mut out, ", reg1: ");
                push_signed_decimal(&mut out, reg1 as isize);
                push_text(&mut out, ", reg2: ");
                push_signed_decimal(&mut out, reg2 as isize);
                push_text(&mut out, " }");
            },
            Opcode::DivideInteger { dest, num, denom } => {
                push_text(&mut out, "DivideInteger { dest: ");
                push_signed_decimal(&mut out, dest as isize);
                push_text(&mut out, ", num: ");
                push_signed_decimal(&mut out, num as isize);
                push_text(&mut out, ", denom: ");
                push_signed_decimal(&mut out, denom as isize);
                push_text(&mut out, " }");
            },
            Opcode::GetUpvalue { dest, src } => {
                push_text(&mut out, "GetUpvalue { dest: ");
                push_signed_decimal(&mut out, dest as isize);
                push_text(&mut out, ", src: ");
                push_signed_decimal(&mut out, src as isize);
                push_text(&mut out, " }");
            },
            Opcode::SetUpvalue { dest, src } => {
                push_text(&mut out, "SetUpvalue { dest: ");
                push_signed_decimal(&mut out, dest as isize);
                push_text(&mut out, ", src: ");
                push_signed_decimal(&mut out, src as isize);
                push_text(&mut out, " }");
            },
            Opcode::CloseUpvalues { reg1, reg2, reg3 } => {
                push_text(&mut out, "CloseUpvalues { reg1: ");
                push_signed_decimal(&mut out, reg1 as isize);
                push_text(&mut out, ", reg2: ");
                push_signed_decimal(&mut out, reg2 as isize);
                push_text(&mut out, ", reg3: ");
                push_signed_decimal(&mut out, reg3 as isize);
                push_text(&mut out, " }");
            },
        }
        assert(out@ =~= opcode_text(*self));
        out
    }
}

impl ArrayItem for Opcode {
    open spec fn spec_item_size() -> nat {
        4
    }

    fn item_size() -> (size: ArraySize) {
        4
    }

    open spec fn spec_item_bytes(self) -> Seq<u8> {
        let parts = opcode_parts(self);
        seq![parts.0, parts.1, parts.2, parts.3]
    }

    fn item_bytes(&self) -> (bytes: Vec<u8>) {
        let parts = self.parts();
        let mut bytes: Vec<u8> = Vec::new();
        bytes.push(parts.0);
        bytes.push(parts.1);
        bytes.push(parts.2);
        bytes.push(parts.3);
        assert(bytes@ =~= self.spec_item_bytes());
        bytes
    }

    open spec fn spec_item_of(bytes: Seq<u8>) -> Opcode {
        opcode_of_parts(bytes[0], bytes[1], bytes[2], bytes[3])
    }

    fn item_of(bytes: &[u8]) -> (item: Opcode) {
        Opcode::of_parts(bytes[0], bytes[1], bytes[2], bytes[3])
    }

    proof fn lemma_item_round_trip(self) {
        lemma_opcode_round_trip(self);
    }
}

impl ArrayType for Opcode {
    open spec fn spec_array_type() -> TypeList {
        TypeList::ArrayOpcode
    }

    fn array_type() -> (type_id: TypeList) {
        TypeList::ArrayOpcode
    }
}

/// An array of instructions.
pub type ArrayOpcode = Array<Opcode>;

/// The literals of a function.
pub type Literals = List;

/// Byte code: the instructions, each of 32 bits, and the literals that they
/// refer to.
#[derive(Copy, Clone)]
pub struct ByteCode {
    pub code: ArrayOpcode,
    pub literals: Literals,
}

impl ByteCode {
    /// Byte code without instructions and without literals.
    pub fn new() -> (bytecode: ByteCode)
        ensures
            bytecode.code == ArrayOpcode::new_spec(),
            bytecode.literals == Literals::new_spec(),
    {
        ByteCode { code: Array::new(), literals: Array::new() }
    }
}

/// Whether the instructions and the literals of `bytecode` lie in `heap`,
/// each in space of its own, in arrays that can grow.
pub open spec fn bytecode_is_held(heap: Heap, bytecode: ByteCode) -> bool {
    &&& array_is_held(heap, bytecode.code)
    &&& array_is_held(heap, bytecode.literals)
    &&& bytecode.code.spec_data().spec_capacity() != 1
    &&& bytecode.literals.spec_data().spec_capacity() != 1
    &&& bytecode.code.spec_data().spec_at() is Some ==> bytecode.code.spec_data().spec_at()
        != bytecode.literals.spec_data().spec_at()
}

/// The instructions of `bytecode`, in order.
pub open spec fn instructions_of(heap: Heap, bytecode: ByteCode) -> Seq<Opcode> {
    array_items(heap, bytecode.code)
}

/// The literals of `bytecode`, in order.
pub open spec fn literals_of(heap: Heap, bytecode: ByteCode) -> Seq<TaggedCellPtr> {
    array_items(heap, bytecode.literals)
}

/// The jump `op` with the distance `offset` in place of its own, if `op` is
/// a jump.
pub open spec fn with_jump_offset(op: Opcode, offset: JumpOffset) -> Option<Opcode> {
    match op {
        Opcode::Jump { offset: _ } => Some(Opcode::Jump { offset }),
        Opcode::JumpIfTrue { test, offset: _ } => Some(Opcode::JumpIfTrue { test, offset }),
        Opcode::JumpIfNotTrue { test, offset: _ } => Some(Opcode::JumpIfNotTrue { test, offset }),
        _ => None,
    }
}

/// Whether `e` is the error for a change of the distance of an instruction
/// that is no jump.
pub open spec fn is_no_jump_error(e: RuntimeError) -> bool {
    &&& e.spec_pos() is None
    &&& e.spec_kind() matches ErrorKind::EvalError(text) && text@
        == "Cannot modify jump offset for non-jump instruction"@
}

impl ByteCode {
    /// New byte code in the heap, without instructions and without
    /// literals.
    pub fn allocate<'guard>(mem: &mut MutatorView<'guard>) -> (r: Result<
        ScopedPtr<'guard, ByteCode>,
        RuntimeError,
    >)
        ensures
            final(mem).spec_heap().grown_from(old(mem).spec_heap()),
            match r {
                Ok(ptr) => {
                    &&& final(mem).holds_a(ptr)
                    &&& !old(mem).spec_heap().spec_storage().holds(
                        ptr.spec_raw().spec_word() as int,
                    )
                    &&& final(mem).object_at(ptr.spec_raw()).code == ArrayOpcode::new_spec()
                    &&& final(mem).object_at(ptr.spec_raw()).literals == Literals::new_spec()
                },
                Err(e) => is_growth_failure(e),
            },
    {
        let bytecode = ByteCode::new();
        proof {
            crate::allocator::lemma_object_bytes_round_trip::<TypeList, ByteCode>(bytecode);
        }
        match mem.allocate(bytecode) {
            Ok(ptr) => Ok(ptr),
            Err(e) => Err(e),
        }
    }

    /// Puts `op` behind the last instruction.
    pub fn push<'guard>(&mut self, mem: &mut MutatorView<'guard>, op: Opcode) -> (r: Result<
        (),
        RuntimeError,
    >)
        requires
            bytecode_is_held(old(mem).spec_heap(), *old(self)),
        ensures
            changed_at_most(
                final(mem).spec_heap(),
                old(mem).spec_heap(),
                old(self).code.spec_data().spec_at(),
            ),
            final(self).literals == old(self).literals,
            bytecode_is_held(final(mem).spec_heap(), *final(self)),
            literals_of(final(mem).spec_heap(), *final(self)) == literals_of(
                old(mem).spec_heap(),
                *old(self),
            ),
            match r {
                Ok(()) => {
                    &&& !old(self).code.spec_borrow()
                    &&& instructions_of(final(mem).spec_heap(), *final(self)) == instructions_of(
                        old(mem).spec_heap(),
                        *old(self),
                    ).push(op)
                },
                Err(e) => {
                    &&& *final(self) == *old(self)
                    &&& final(mem).spec_heap().grown_from(old(mem).spec_heap())
                    &&& if old(self).code.spec_borrow() {
                        is_borrow_error(e)
                    } else {
                        old(self).code.spec_length() == old(self).code.spec_data().spec_capacity()
                            && is_growth_failure(e)
                    }
                },
            },
    {
        let ghost before = mem.spec_heap();
        let r = self.code.push(mem, op);
        proof {
            lemma_array_is_stable(
                before,
                mem.spec_heap(),
                self.literals,
                old(self).code.spec_data().spec_at(),
            );
        }
        r
    }

    /// Gives the jump at the index `instruction` the distance `offset`.
    pub fn update_jump_offset<'guard>(
        &self,
        mem: &mut MutatorView<'guard>,
        instruction: ArraySize,
        offset: JumpOffset,
    ) -> (r: Result<(), RuntimeError>)
        requires
            bytecode_is_held(old(mem).spec_heap(), *self),
        ensures
            changed_at_most(
                final(mem).spec_heap(),
                old(mem).spec_heap(),
                self.code.spec_data().spec_at(),
            ),
            bytecode_is_held(final(mem).spec_heap(), *self),
            literals_of(final(mem).spec_heap(), *self) == literals_of(old(mem).spec_heap(), *self),
            match r {
                Ok(()) => {
                    let code = instructions_of(old(mem).spec_heap(), *self);
                    &&& instruction < code.len()
                    &&& with_jump_offset(code[instruction as int], offset) matches Some(jump)
                        && instructions_of(final(mem).spec_heap(), *self) == code.update(
                        instruction as int,
                        jump,
                    )
                },
                Err(e) => {
                    let code = instructions_of(old(mem).spec_heap(), *self);
                    &&& instructions_of(final(mem).spec_heap(), *self) == code
                    &&& if instruction >= code.len() {
                        is_bounds_error(e)
                    } else {
                        with_jump_offset(code[instruction as int], offset) is None
                            && is_no_jump_error(e)
                    }
                },
            },
    {
        let ghost before = mem.spec_heap();
        proof {
            use_type_invariant(&*mem);
            crate::memory::lemma_extends_itself(before);
        }
        let code = self.code.get(mem, instruction)?;
        let new_code = match code {
            Opcode::Jump { offset: _ } => Opcode::Jump { offset },
            Opcode::JumpIfTrue { test, offset: _ } => Opcode::JumpIfTrue { test, offset },
            Opcode::JumpIfNotTrue { test, offset: _ } => Opcode::JumpIfNotTrue { test, offset },
            _ => {
                return Err(err_eval("Cannot modify jump offset for non-jump instruction"));
            },
        };
        let r = self.code.set(mem, instruction, new_code);
        proof {
            lemma_array_is_stable(
                before,
                mem.spec_heap(),
                self.literals,
                self.code.spec_data().spec_at(),
            );
        }
        r
    }

    /// Puts an instruction that loads literal `literal_id` into `dest`
    /// behind the last instruction.
    pub fn push_loadlit<'guard>(
        &mut self,
        mem: &mut MutatorView<'guard>,
        dest: Register,
        literal_id: LiteralId,
    ) -> (r: Result<(), RuntimeError>)
        requires
            bytecode_is_held(old(mem).spec_heap(), *old(self)),
        ensures
            changed_at_most(
                final(mem).spec_heap(),
                old(mem).spec_heap(),
                old(self).code.spec_data().spec_at(),
            ),
            final(self).literals == old(self).literals,
            bytecode_is_held(final(mem).spec_heap(), *final(self)),
            literals_of(final(mem).spec_heap(), *final(self)) == literals_of(
                old(mem).spec_heap(),
                *old(self),
            ),
            match r {
                Ok(()) => {
                    &&& !old(self).code.spec_borrow()
                    &&& instructions_of(final(mem).spec_heap(), *final(self)) == instructions_of(
                        old(mem).spec_heap(),
                        *old(self),
                    ).push(Opcode::LoadLiteral { dest, literal_id })
                },
                Err(e) => {
                    &&& *final(self) == *old(self)
                    &&& final(mem).spec_heap().grown_from(old(mem).spec_heap())
                    &&& if old(self).code.spec_borrow() {
                        is_borrow_error(e)
                    } else {
                        old(self).code.spec_length() == old(self).code.spec_data().spec_capacity()
                            && is_growth_failure(e)
                    }
                },
            },
    {
        self.push(mem, Opcode::LoadLiteral { dest, literal_id })
    }

    /// Puts `literal` behind the last literal and returns its index, as far
    /// as 16 bits hold it.
    pub fn push_lit<'guard>(&mut self, mem: &mut MutatorView<'guard>, literal: TaggedScopedPtr<'guard>) -> (r:
        Result<LiteralId, RuntimeError>)
        requires
            bytecode_is_held(old(mem).spec_heap(), *old(self)),
        ensures
            changed_at_most(
                final(mem).spec_heap(),
                old(mem).spec_heap(),
                old(self).literals.spec_data().spec_at(),
            ),
            final(self).code == old(self).code,
            bytecode_is_held(final(mem).spec_heap(), *final(self)),
            instructions_of(final(mem).spec_heap(), *final(self)) == instructions_of(
                old(mem).spec_heap(),
                *old(self),
            ),
            match r {
                Ok(id) => {
                    &&& !old(self).literals.spec_borrow()
                    &&& id == old(self).literals.spec_length() % 0x1_0000
                    &&& literals_of(final(mem).spec_heap(), *final(self)) == literals_of(
                        old(mem).spec_heap(),
                        *old(self),
                    ).push(cell_of(literal))
                },
                Err(e) => {
                    &&& *final(self) == *old(self)
                    &&& final(mem).spec_heap().grown_from(old(mem).spec_heap())
                    &&& if old(self).literals.spec_borrow() {
                        is_borrow_error(e)
                    } else {
                        old(self).literals.spec_length()
                            == old(self).literals.spec_data().spec_capacity() && is_growth_failure(
                            e,
                        )
                    }
                },
            },
    {
        let ghost before = mem.spec_heap();
        let lit_id: u16 = (self.literals.length() % 0x1_0000) as u16;
        let cell = TaggedCellPtr::new_with(literal);
        proof {
            cell.lemma_is_spec_of();
        }
        let r = self.literals.push(mem, cell);
        proof {
            lemma_array_is_stable(
                before,
                mem.spec_heap(),
                self.code,
                old(self).literals.spec_data().spec_at(),
            );
        }
        match r {
            Ok(()) => Ok(lit_id),
            Err(e) => Err(e),
        }
    }

    /// The text that the instructions are printed as: one instruction to
    /// a line.
    pub fn print<'guard>(&self, mem: &MutatorView<'guard>) -> (text: String)
        requires
            array_is_held(mem.spec_heap(), self.code),
        ensures
            text@ == joined(
                instructions_of(mem.spec_heap(), *self).map_values(|op: Opcode| opcode_text(op)),
                "\n"@,
            ),
    {
        let code = self.code.to_vec(mem);
        let mut lines: Vec<String> = Vec::new();
        let mut index: usize = 0;
        while index < code.len()
            invariant
                index <= code@.len(),
                texts_of(lines@) == code@.subrange(0, index as int).map_values(
                    |op: Opcode| opcode_text(op),
                ),
            decreases code@.len() - index,
        {
            let line = code[index].debug_text();
            let ghost text = line@;
            let ghost before = lines@;
            lines.push(line);
            index = index + 1;
            assert(texts_of(lines@) =~= texts_of(before).push(text));
            assert(code@.subrange(0, index as int) =~= code@.subrange(0, index - 1).push(
                code@[index - 1],
            ));
            assert(texts_of(lines@) =~= code@.subrange(0, index as int).map_values(
                |op: Opcode| opcode_text(op),
            ));
        }
        assert(code@.subrange(0, index as int) =~= code@);
        join_texts(&lines, "\n")
    }

    /// The index of the last instruction.
    pub fn last_instruction(&self) -> (index: ArraySize)
        requires
            self.code.spec_length() > 0,
        ensures
            index == self.code.spec_length() - 1,
    {
        self.code.length() - 1
    }

    /// The index that the next instruction will have.
    pub fn next_instruction(&self) -> (index: ArraySize)
        ensures
            index == self.code.spec_length(),
    {
        self.code.length()
    }
}

impl AllocObject<TypeList> for ByteCode {
    open spec fn spec_type_id() -> TypeList {
        TypeList::ByteCode
    }

    fn type_id() -> (id: TypeList) {
        TypeList::ByteCode
    }

    open spec fn spec_word_count() -> nat {
        10
    }

    fn word_count() -> (count: usize) {
        10
    }

    open spec fn spec_words(&self) -> Seq<u64> {
        self.code.spec_array_words() + self.literals.spec_array_words()
    }

    fn to_words(&self) -> (words: Vec<u64>) {
        let mut words: Vec<u64> = Vec::new();
        self.code.push_words(&mut words);
        self.literals.push_words(&mut words);
        proof {
            self.code.lemma_array_words_round_trip();
            self.literals.lemma_array_words_round_trip();
            assert(words@ =~= self.spec_words());
        }
        words
    }

    open spec fn spec_from_words(words: Seq<u64>) -> ByteCode {
        ByteCode {
            code: Array::spec_from_array_words(words.subrange(0, 5)),
            literals: Array::spec_from_array_words(words.subrange(5, 10)),
        }
    }

    fn from_words(words: &[u64]) -> (object: ByteCode) {
        ByteCode {
            code: Array::from_array_words(words, 0),
            literals: Array::from_array_words(words, 5),
        }
    }

    proof fn lemma_words_round_trip(&self) {
        self.code.lemma_array_words_round_trip();
        self.literals.lemma_array_words_round_trip();
        assert(self.spec_words().subrange(0, 5) =~= self.code.spec_array_words());
        assert(self.spec_words().subrange(5, 10) =~= self.literals.spec_array_words());
    }
}

/// A stream of instructions: the byte code that is run, and the index of
/// the instruction that comes next.
pub struct InstructionStream {
    pub instructions: CellPtr<ByteCode>,
    pub ip: ArraySize,
}

/// The byte code that `stream` reads from.
pub open spec fn stream_code(heap: Heap, stream: InstructionStream) -> ByteCode {
    crate::allocator::object_of_bytes::<TypeList, ByteCode>(
        heap.spec_storage().payload(stream.instructions.spec_raw().spec_word() as int),
    )
}

/// Whether `stream` reads from byte code that lies in `heap`.
pub open spec fn stream_is_held(heap: Heap, stream: InstructionStream) -> bool {
    &&& heap.holds_a(stream.instructions.spec_raw())
    &&& bytecode_is_held(heap, stream_code(heap, stream))
}

/// The index that lies `offset` instructions from the index `ip`, as far
/// as 32 bits hold it.
pub open spec fn jump_target(ip: ArraySize, offset: JumpOffset) -> ArraySize {
    ((ip + offset) % 0x1_0000_0000) as ArraySize
}

impl InstructionStream {
    /// A new stream in the heap that reads `code` from its first
    /// instruction.
    pub fn allocate<'guard>(mem: &mut MutatorView<'guard>, code: ScopedPtr<'_, ByteCode>) -> (r:
        Result<ScopedPtr<'guard, InstructionStream>, RuntimeError>)
        ensures
            final(mem).spec_heap().grown_from(old(mem).spec_heap()),
            match r {
                Ok(ptr) => {
                    &&& final(mem).holds_a(ptr)
                    &&& !old(mem).spec_heap().spec_storage().holds(
                        ptr.spec_raw().spec_word() as int,
                    )
                    &&& final(mem).object_at(ptr.spec_raw()).instructions.spec_raw()
                        == code.spec_raw()
                    &&& final(mem).object_at(ptr.spec_raw()).ip == 0
                },
                Err(e) => is_growth_failure(e),
            },
    {
        let stream = InstructionStream { instructions: CellPtr::new_with(code), ip: 0 };
        proof {
            crate::allocator::lemma_object_bytes_round_trip::<TypeList, InstructionStream>(stream);
        }
        match mem.allocate(stream) {
            Ok(ptr) => Ok(ptr),
            Err(e) => Err(e),
        }
    }

    /// Turns to the instruction at the index `ip` of `code`: for a call, or
    /// for the return from one.
    pub fn switch_frame(&mut self, code: ScopedPtr<'_, ByteCode>, ip: ArraySize)
        ensures
            final(self).instructions.spec_raw() == code.spec_raw(),
            final(self).ip == ip,
    {
        self.instructions.set(code);
        self.ip = ip;
    }

    /// The next instruction. The stream moves on by one instruction.
    pub fn get_next_opcode<'guard>(&mut self, mem: &MutatorView<'guard>) -> (r: Result<
        Opcode,
        RuntimeError,
    >)
        requires
            stream_is_held(mem.spec_heap(), *old(self)),
        ensures
            final(self).instructions == old(self).instructions,
            match r {
                Ok(op) => {
                    let code = instructions_of(
                        mem.spec_heap(),
                        stream_code(mem.spec_heap(), *old(self)),
                    );
                    &&& old(self).ip < code.len()
                    &&& op == code[old(self).ip as int]
                    &&& final(self).ip == old(self).ip + 1
                },
                Err(e) => {
                    &&& old(self).ip >= instructions_of(
                        mem.spec_heap(),
                        stream_code(mem.spec_heap(), *old(self)),
                    ).len()
                    &&& is_bounds_error(e)
                    &&& final(self).ip == old(self).ip
                },
            },
    {
        let bytecode = mem.get(self.instructions.get(mem.guard()));
        let instr = bytecode.code.get(mem, self.ip)?;
        self.ip = self.ip + 1;
        Ok(instr)
    }

    /// The pointer that literal `lit_id` holds.
    pub fn get_literal<'guard>(&self, mem: &MutatorView<'guard>, lit_id: LiteralId) -> (r: Result<
        TaggedPtr,
        RuntimeError,
    >)
        requires
            stream_is_held(mem.spec_heap(), *self),
        ensures
            match r {
                Ok(ptr) => {
                    let literals = literals_of(
                        mem.spec_heap(),
                        stream_code(mem.spec_heap(), *self),
                    );
                    &&& lit_id < literals.len()
                    &&& ptr == literals[lit_id as int].spec_ptr()
                },
                Err(e) => {
                    &&& lit_id >= literals_of(
                        mem.spec_heap(),
                        stream_code(mem.spec_heap(), *self),
                    ).len()
                    &&& is_bounds_error(e)
                },
            },
    {
        let bytecode = mem.get(self.instructions.get(mem.guard()));
        let cell = bytecode.literals.get(mem, lit_id as ArraySize)?;
        Ok(cell.get_ptr())
    }

    /// The index of the instruction that comes next.
    pub fn get_next_ip(&self) -> (ip: ArraySize)
        ensures
            ip == self.ip,
    {
        self.ip
    }

    /// Moves the stream by `offset` instructions.
    pub fn jump(&mut self, offset: JumpOffset)
        ensures
            final(self).instructions == old(self).instructions,
            final(self).ip == jump_target(old(self).ip, offset),
    {
        let wide: i64 = self.ip as i64 + offset as i64;
        let ip: ArraySize = if wide < 0 {
            (wide + 0x1_0000_0000) as ArraySize
        } else if wide > 0xffff_ffff {
            (wide - 0x1_0000_0000) as ArraySize
        } else {
            wide as ArraySize
        };
        self.ip = ip;
    }
}

impl AllocObject<TypeList> for InstructionStream {
    open spec fn spec_type_id() -> TypeList {
        TypeList::InstructionStream
    }

    fn type_id() -> (id: TypeList) {
        TypeList::InstructionStream
    }

    open spec fn spec_word_count() -> nat {
        2
    }

    fn word_count() -> (count: usize) {
        2
    }

    open spec fn spec_words(&self) -> Seq<u64> {
        seq![self.instructions.spec_to_word(), self.ip as u64]
    }

    fn to_words(&self) -> (words: Vec<u64>) {
        let mut words: Vec<u64> = Vec::new();
        words.push(self.instructions.to_word());
        words.push(word_of_u32(self.ip));
        assert(words@ =~= self.spec_words());
        words
    }

    open spec fn spec_from_words(words: Seq<u64>) -> InstructionStream {
        InstructionStream {
            instructions: CellPtr::spec_from_word(words[0]),
            ip: spec_u32_of_word(words[1]),
        }
    }

    fn from_words(words: &[u64]) -> (object: InstructionStream) {
        InstructionStream {
            instructions: CellPtr::from_word(words[0]),
            ip: u32_of_word(words[1]),
        }
    }

    proof fn lemma_words_round_trip(&self) {
        self.instructions.lemma_word_round_trip();
    }
}

} // verus!
