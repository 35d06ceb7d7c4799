//! The opcode table: one byte per instruction tag.
//!
//! Most opcodes are followed by zero or more fixed two-byte little-endian
//! signed operands; `PutString` instead carries an inline NUL-terminated
//! string, and `EntryProc` carries three operands (declared body length in
//! bytes, procedure id, bytes reserved for variables).

use vstd::prelude::*;

verus! {

/// One-byte instruction tag.
#[derive(Clone, Copy, Debug, PartialEq, Eq, Structural)]
pub enum OpCode {
    PushValueLocalVar,
    PushValueMainVar,
    PushValueGlobalVar,
    PushAddressLocalVar,
    PushAddressMainVar,
    PushAddressGlobalVar,
    PushConstant,
    StoreValue,
    OutputValue,
    InputToAddr,
    Minusify,
    IsOdd,
    OpAdd,
    OpSubtract,
    OpMultiply,
    OpDivide,
    CompareEq,
    CompareNotEq,
    CompareLT,
    CompareGT,
    CompareLTEq,
    CompareGTEq,
    CallProc,
    ReturnProc,
    Jump,
    JumpIfFalse,
    EntryProc,
    PutString,
    Pop,
    Swap,
    EndOfCode,
    Put,
    Get,
    OpAddAddr,
}

/// The byte that encodes an opcode.
pub open spec fn spec_opcode_byte(op: OpCode) -> u8 {
    match op {
        OpCode::PushValueLocalVar => 0x00,
        OpCode::PushValueMainVar => 0x01,
        OpCode::PushValueGlobalVar => 0x02,
        OpCode::PushAddressLocalVar => 0x03,
        OpCode::PushAddressMainVar => 0x04,
        OpCode::PushAddressGlobalVar => 0x05,
        OpCode::PushConstant => 0x06,
        OpCode::StoreValue => 0x07,
        OpCode::OutputValue => 0x08,
        OpCode::InputToAddr => 0x09,
        OpCode::Minusify => 0x0A,
        OpCode::IsOdd => 0x0B,
        OpCode::OpAdd => 0x0C,
        OpCode::OpSubtract => 0x0D,
        OpCode::OpMultiply => 0x0E,
        OpCode::OpDivide => 0x0F,
        OpCode::CompareEq => 0x10,
        OpCode::CompareNotEq => 0x11,
        OpCode::CompareLT => 0x12,
        OpCode::CompareGT => 0x13,
        OpCode::CompareLTEq => 0x14,
        OpCode::CompareGTEq => 0x15,
        OpCode::CallProc => 0x16,
        OpCode::ReturnProc => 0x17,
        OpCode::Jump => 0x18,
        OpCode::JumpIfFalse => 0x19,
        OpCode::EntryProc => 0x1A,
        OpCode::PutString => 0x1B,
        OpCode::Pop => 0x1C,
        OpCode::Swap => 0x1D,
        OpCode::EndOfCode => 0x1E,
        OpCode::Put => 0x1F,
        OpCode::Get => 0x20,
        OpCode::OpAddAddr => 0x21,
    }
}

/// The opcode a byte encodes, if any.
pub open spec fn spec_opcode_of_byte(b: u8) -> Option<OpCode> {
    match b {
        0x00 => Some(OpCode::PushValueLocalVar),
        0x01 => Some(OpCode::PushValueMainVar),
        0x02 => Some(OpCode::PushValueGlobalVar),
        0x03 => Some(OpCode::PushAddressLocalVar),
        0x04 => Some(OpCode::PushAddressMainVar),
        0x05 => Some(OpCode::PushAddressGlobalVar),
        0x06 => Some(OpCode::PushConstant),
        0x07 => Some(OpCode::StoreValue),
        0x08 => Some(OpCode::OutputValue),
        0x09 => Some(OpCode::InputToAddr),
        0x0A => Some(OpCode::Minusify),
        0x0B => Some(OpCode::IsOdd),
        0x0C => Some(OpCode::OpAdd),
        0x0D => Some(OpCode::OpSubtract),
        0x0E => Some(OpCode::OpMultiply),
        0x0F => Some(OpCode::OpDivide),
        0x10 => Some(OpCode::CompareEq),
        0x11 => Some(OpCode::CompareNotEq),
        0x12 => Some(OpCode::CompareLT),
        0x13 => Some(OpCode::CompareGT),
        0x14 => Some(OpCode::CompareLTEq),
        0x15 => Some(OpCode::CompareGTEq),
        0x16 => Some(OpCode::CallProc),
        0x17 => Some(OpCode::ReturnProc),
        0x18 => Some(OpCode::Jump),
        0x19 => Some(OpCode::JumpIfFalse),
        0x1A => Some(OpCode::EntryProc),
        0x1B => Some(OpCode::PutString),
        0x1C => Some(OpCode::Pop),
        0x1D => Some(OpCode::Swap),
        0x1E => Some(OpCode::EndOfCode),
        0x1F => Some(OpCode::Put),
        0x20 => Some(OpCode::Get),
        0x21 => Some(OpCode::OpAddAddr),
        _ => None,
    }
}

/// The number of fixed two-byte operands an opcode carries.
/// `PutString`'s inline string is not counted here.
pub open spec fn spec_arg_count(op: OpCode) -> nat {
    match op {
        OpCode::PushValueLocalVar => 1,
        OpCode::PushValueMainVar => 1,
        OpCode::PushValueGlobalVar => 2,
        OpCode::PushAddressLocalVar => 1,
        OpCode::PushAddressMainVar => 1,
        OpCode::PushAddressGlobalVar => 2,
        OpCode::PushConstant => 1,
        OpCode::CallProc => 1,
        OpCode::Jump => 1,
        OpCode::JumpIfFalse => 1,
        OpCode::EntryProc => 3,
        _ => 0,
    }
}

impl OpCode {
    /// The byte that encodes this opcode.
    pub fn byte(&self) -> (r: u8)
        ensures
            r == spec_opcode_byte(*self),
    {
        match *self {
            OpCode::PushValueLocalVar => 0x00,
            OpCode::PushValueMainVar => 0x01,
            OpCode::PushValueGlobalVar => 0x02,
            OpCode::PushAddressLocalVar => 0x03,
            OpCode::PushAddressMainVar => 0x04,
            OpCode::PushAddressGlobalVar => 0x05,
            OpCode::PushConstant => 0x06,
            OpCode::StoreValue => 0x07,
            OpCode::OutputValue => 0x08,
            OpCode::InputToAddr => 0x09,
            OpCode::Minusify => 0x0A,
            OpCode::IsOdd => 0x0B,
            OpCode::OpAdd => 0x0C,
            OpCode::OpSubtract => 0x0D,
            OpCode::OpMultiply => 0x0E,
            OpCode::OpDivide => 0x0F,
            OpCode::CompareEq => 0x10,
            OpCode::CompareNotEq => 0x11,
            OpCode::CompareLT => 0x12,
            OpCode::CompareGT => 0x13,
            OpCode::CompareLTEq => 0x14,
            OpCode::CompareGTEq => 0x15,
            OpCode::CallProc => 0x16,
            OpCode::ReturnProc => 0x17,
            OpCode::Jump => 0x18,
            OpCode::JumpIfFalse => 0x19,
            OpCode::EntryProc => 0x1A,
            OpCode::PutString => 0x1B,
            OpCode::Pop => 0x1C,
            OpCode::Swap => 0x1D,
            OpCode::EndOfCode => 0x1E,
            OpCode::Put => 0x1F,
            OpCode::Get => 0x20,
            OpCode::OpAddAddr => 0x21,
        }
    }

    /// The opcode a byte encodes, if any.
    pub fn of_byte(b: u8) -> (r: Option<OpCode>)
        ensures
            r == spec_opcode_of_byte(b),
    {
        if b <= 0x21 {
            Some(
                match b {
                    0x00 => OpCode::PushValueLocalVar,
                    0x01 => OpCode::PushValueMainVar,
                    0x02 => OpCode::PushValueGlobalVar,
                    0x03 => OpCode::PushAddressLocalVar,
                    0x04 => OpCode::PushAddressMainVar,
                    0x05 => OpCode::PushAddressGlobalVar,
                    0x06 => OpCode::PushConstant,
                    0x07 => OpCode::StoreValue,
                    0x08 => OpCode::OutputValue,
                    0x09 => OpCode::InputToAddr,
                    0x0A => OpCode::Minusify,
                    0x0B => OpCode::IsOdd,
                    0x0C => OpCode::OpAdd,
                    0x0D => OpCode::OpSubtract,
                    0x0E => OpCode::OpMultiply,
                    0x0F => OpCode::OpDivide,
                    0x10 => OpCode::CompareEq,
                    0x11 => OpCode::CompareNotEq,
                    0x12 => OpCode::CompareLT,
                    0x13 => OpCode::CompareGT,
                    0x14 => OpCode::CompareLTEq,
                    0x15 => OpCode::CompareGTEq,
                    0x16 => OpCode::CallProc,
                    0x17 => OpCode::ReturnProc,
                    0x18 => OpCode::Jump,
                    0x19 => OpCode::JumpIfFalse,
                    0x1A => OpCode::EntryProc,
                    0x1B => OpCode::PutString,
                    0x1C => OpCode::Pop,
                    0x1D => OpCode::Swap,
                    0x1E => OpCode::EndOfCode,
                    0x1F => OpCode::Put,
                    0x20 => OpCode::Get,
                    _ => OpCode::OpAddAddr,
                },
            )
        } else {
            None
        }
    }

    /// The number of fixed two-byte operands this opcode carries.
    pub fn arg_count(&self) -> (r: usize)
        ensures
            r == spec_arg_count(*self),
    {
        match *self {
            OpCode::PushValueLocalVar => 1,
            OpCode::PushValueMainVar => 1,
            OpCode::PushValueGlobalVar => 2,
            OpCode::PushAddressLocalVar => 1,
            OpCode::PushAddressMainVar => 1,
            OpCode::PushAddressGlobalVar => 2,
            OpCode::PushConstant => 1,
            OpCode::CallProc => 1,
            OpCode::Jump => 1,
            OpCode::JumpIfFalse => 1,
            OpCode::EntryProc => 3,
            _ => 0,
        }
    }
}

/// Decoding a byte and re-encoding the opcode gives the byte back, and the
/// encoding of every opcode decodes to that opcode.
pub proof fn lemma_opcode_byte_inverse(op: OpCode, b: u8)
    ensures
        spec_opcode_of_byte(spec_opcode_byte(op)) == Some(op),
        spec_opcode_of_byte(b) matches Some(o) ==> spec_opcode_byte(o) == b,
{
}

} // verus!
