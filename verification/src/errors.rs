//! Structured error values.
//!
//! The core never renders user-facing text; it reports these values and
//! leaves presentation to its callers.

use vstd::prelude::*;

verus! {

/// An error while taking over a program image.
#[derive(Clone, Copy, Debug, PartialEq, Eq, Structural)]
pub enum LoadError {
    /// The buffer is too short to hold the four-byte header.
    TooShort,
    /// The header's width field is not 2, 4 or 8.
    InvalidWidth { field: u16 },
}

/// A malformed program image. Fatal to the current pass.
#[derive(Clone, Copy, Debug, PartialEq, Eq, Structural)]
pub enum FormatError {
    /// The header's width field is not 2, 4 or 8.
    InvalidWidth { field: u16 },
    /// An opcode or operand runs past the end of the buffer.
    Truncated { at: usize },
    /// The byte at `at` encodes no opcode.
    UnknownOpcode { at: usize, byte: u8 },
    /// A jump's resolved target lies outside the address space.
    JumpOutOfRange { at: usize, offset: i16 },
    /// An inline string is not well-formed UTF-8.
    InvalidUtf8 { at: usize },
    /// An `EntryProc` declares a procedure id outside the header's count.
    ProcIdOutOfRange { at: usize, id: i16 },
    /// A second `EntryProc` declares an already-assigned procedure id.
    DuplicateProc { at: usize, id: i16 },
    /// The header promises no procedure, so there is no entry point.
    NoProcedures,
}

/// A fatal condition met while executing a well-formed instruction.
#[derive(Clone, Copy, Debug, PartialEq, Eq, Structural)]
pub enum RuntimeFault {
    /// A read or write outside the runtime stack.
    StackBounds { addr: usize },
    /// Fewer bytes on the stack than an operation consumes.
    StackUnderflow,
    /// Offset arithmetic left the address space.
    AddressOverflow,
    /// An operand that must be non-negative is negative.
    NegativeOperand { value: i16 },
    /// A procedure id outside the procedure table.
    ProcOutOfRange { id: i16 },
    /// A call-linkage record restored values that address nothing.
    CorruptLinkage,
    /// A constant index outside the constant pool.
    ConstOutOfRange { idx: i16 },
    /// Division by zero.
    DivisionByZero,
    /// A reserved opcode with no defined behaviour.
    Unimplemented { byte: u8 },
}

} // verus!
