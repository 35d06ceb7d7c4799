//! A bytecode virtual machine for a PL/0-derived compiled language.
//!
//! The crate loads a binary instruction stream, statically validates and
//! disassembles it, and interprets it against a byte-addressable runtime
//! stack with procedure call frames and a configurable integer width
//! (16, 32 or 64 bits).

pub mod data;
pub mod decode;
pub mod analyzer;
pub mod errors;
pub mod encoding;
pub mod laws;
pub mod machine;
pub mod opcodes;
pub mod pl0_vm;
