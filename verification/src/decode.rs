//! Decoding single instructions, and the inverse encoding.
//!
//! The loader, the analyzer and the execution engine all read instructions
//! by these rules: one opcode byte, then either a fixed number of two-byte
//! little-endian signed operands or, for `PutString`, an inline
//! NUL-terminated UTF-8 string.

use crate::encoding::{
    i64_from_le, i64_to_le, lemma_pow256, lemma_sign_bytes_of_sign_val, lemma_sign_val_fits,
    sign_bytes, sign_val,
};
use crate::errors::FormatError;
use crate::opcodes::{spec_arg_count, spec_opcode_of_byte, OpCode};
use vstd::prelude::*;
use vstd::slice::{slice_subrange, slice_to_vec};
use vstd::utf8::valid_utf8;

verus! {

/// The two-byte signed operand starting at `i`.
pub open spec fn spec_arg_val(prog: Seq<u8>, i: int) -> int {
    sign_val(prog.subrange(i, i + 2))
}

/// The two-byte signed operand starting at `i`, as an `i16`.
pub open spec fn spec_arg_i16(prog: Seq<u8>, i: int) -> i16 {
    spec_arg_val(prog, i) as i16
}

/// Reads the two-byte signed operand at `off`.
pub fn read_arg_at(prog: &[u8], off: usize) -> (r: i16)
    requires
        off + 2 <= prog@.len(),
    ensures
        r == spec_arg_i16(prog@, off as int),
        r as int == spec_arg_val(prog@, off as int),
{
    let v = i64_from_le(prog, off, 2);
    proof {
        lemma_sign_val_fits(prog@.subrange(off as int, off + 2));
        lemma_pow256(0);
    }
    v as i16
}

/// The position of the first NUL byte at or after `i`, if any.
pub open spec fn spec_find_nul(prog: Seq<u8>, i: int) -> Option<int>
    decreases prog.len() - i,
{
    if i < 0 || i >= prog.len() {
        None
    } else if prog[i] == 0 {
        Some(i)
    } else {
        spec_find_nul(prog, i + 1)
    }
}

/// What a found NUL position means.
pub proof fn lemma_find_nul(prog: Seq<u8>, i: int, j: int)
    requires
        spec_find_nul(prog, i) == Some(j),
    ensures
        i <= j < prog.len(),
        prog[j] == 0,
        forall|k: int| i <= k < j ==> prog[k] != 0,
    decreases prog.len() - i,
{
    if !(i < 0 || i >= prog.len()) && prog[i] != 0 {
        lemma_find_nul(prog, i + 1, j);
    }
}

/// Scans for the first NUL byte at or after `start`.
pub fn find_nul(prog: &[u8], start: usize) -> (r: Option<usize>)
    ensures
        spec_find_nul(prog@, start as int) == match r {
            Some(j) => Some(j as int),
            None => None::<int>,
        },
{
    let len: usize = prog.len();
    let mut i: usize = start;
    while i < len
        invariant
            start <= i,
            len == prog@.len(),
            spec_find_nul(prog@, start as int) == spec_find_nul(prog@, i as int),
        decreases len - i,
    {
        if prog[i] == 0 {
            return Some(i);
        }
        i = i + 1;
    }
    None
}

/// Relies on str::from_utf8 of std: it returns `Ok` exactly when the bytes
/// are well-formed UTF-8, the property vstd's `valid_utf8` describes.
#[verifier::external_body]
pub fn check_utf8(bytes: &[u8]) -> (r: bool)
    ensures
        r == valid_utf8(bytes@),
{
    core::str::from_utf8(bytes).is_ok()
}

/// One decoded instruction.
#[derive(Debug, PartialEq, Eq)]
pub struct InstrLine {
    /// Position of the opcode byte.
    pub offset: usize,
    /// The raw opcode byte.
    pub byte: u8,
    /// The decoded opcode.
    pub op: OpCode,
    /// The fixed two-byte operands, in order.
    pub args: Vec<i16>,
    /// For `Jump` and `JumpIfFalse`: the resolved absolute target.
    pub target: Option<usize>,
    /// For `PutString`: the inline string's bytes, without the NUL.
    pub text: Option<Vec<u8>>,
    /// Position just past the instruction.
    pub next: usize,
}

/// The mathematical image of a decoded instruction.
pub ghost struct InstrLineV {
    pub offset: int,
    pub byte: u8,
    pub op: OpCode,
    pub args: Seq<i16>,
    pub target: Option<int>,
    pub text: Option<Seq<u8>>,
    pub next: int,
}

impl View for InstrLine {
    type V = InstrLineV;

    open spec fn view(&self) -> InstrLineV {
        InstrLineV {
            offset: self.offset as int,
            byte: self.byte,
            op: self.op,
            args: self.args@,
            target: match self.target {
                Some(t) => Some(t as int),
                None => None,
            },
            text: match self.text {
                Some(ref v) => Some(v@),
                None => None,
            },
            next: self.next as int,
        }
    }
}

/// Decodes the instruction at `pos`.
pub open spec fn spec_decode(prog: Seq<u8>, pos: nat) -> Result<InstrLineV, FormatError> {
    if pos >= prog.len() {
        Err(FormatError::Truncated { at: pos as usize })
    } else {
        let b = prog[pos as int];
        match spec_opcode_of_byte(b) {
            None => Err(FormatError::UnknownOpcode { at: pos as usize, byte: b }),
            Some(op) => {
                if op == OpCode::PutString {
                    match spec_find_nul(prog, pos + 1 as int) {
                        None => Err(FormatError::Truncated { at: pos as usize }),
                        Some(j) => {
                            let text = prog.subrange(pos + 1 as int, j);
                            if valid_utf8(text) {
                                Ok(
                                    InstrLineV {
                                        offset: pos as int,
                                        byte: b,
                                        op,
                                        args: Seq::empty(),
                                        target: None,
                                        text: Some(text),
                                        next: j + 1,
                                    },
                                )
                            } else {
                                Err(FormatError::InvalidUtf8 { at: pos as usize })
                            }
                        },
                    }
                } else {
                    let n = spec_arg_count(op);
                    if pos + 1 + 2 * n > prog.len() {
                        Err(FormatError::Truncated { at: pos as usize })
                    } else {
                        let args = Seq::new(n, |k: int| spec_arg_i16(prog, pos + 1 + 2 * k));
                        if op == OpCode::Jump || op == OpCode::JumpIfFalse {
                            let t = pos + 3 + args[0] as int;
                            if 0 <= t <= usize::MAX {
                                Ok(
                                    InstrLineV {
                                        offset: pos as int,
                                        byte: b,
                                        op,
                                        args,
                                        target: Some(t),
                                        text: None,
                                        next: pos + 1 + 2 * n as int,
                                    },
                                )
                            } else {
                                Err(
                                    FormatError::JumpOutOfRange {
                                        at: pos as usize,
                                        offset: args[0],
                                    },
                                )
                            }
                        } else {
                            Ok(
                                InstrLineV {
                                    offset: pos as int,
                                    byte: b,
                                    op,
                                    args,
                                    target: None,
                                    text: None,
                                    next: pos + 1 + 2 * n as int,
                                },
                            )
                        }
                    }
                }
            },
        }
    }
}

/// Decodes the instruction at `pos`, exactly as `spec_decode` reads it.
pub fn decode_instr(prog: &[u8], pos: usize) -> (r: Result<InstrLine, FormatError>)
    ensures
        match r {
            Ok(line) => spec_decode(prog@, pos as nat) == Ok::<InstrLineV, FormatError>(line@),
            Err(e) => spec_decode(prog@, pos as nat) == Err::<InstrLineV, FormatError>(e),
        },
{
    let len: usize = prog.len();
    if pos >= len {
        return Err(FormatError::Truncated { at: pos });
    }
    let b = prog[pos];
    let op = match OpCode::of_byte(b) {
        Some(op) => op,
        None => {
            return Err(FormatError::UnknownOpcode { at: pos, byte: b });
        },
    };
    if let OpCode::PutString = op {
        let j = match find_nul(prog, pos + 1) {
            Some(j) => j,
            None => {
                return Err(FormatError::Truncated { at: pos });
            },
        };
        proof {
            lemma_find_nul(prog@, pos + 1, j as int);
        }
        let text = slice_to_vec(slice_subrange(prog, pos + 1, j));
        if check_utf8(text.as_slice()) {
            Ok(
                InstrLine {
                    offset: pos,
                    byte: b,
                    op,
                    args: Vec::new(),
                    target: None,
                    text: Some(text),
                    next: j + 1,
                },
            )
        } else {
            Err(FormatError::InvalidUtf8 { at: pos })
        }
    } else {
        let n = op.arg_count();
        if 2 * n > len - (pos + 1) {
            return Err(FormatError::Truncated { at: pos });
        }
        let mut args: Vec<i16> = Vec::new();
        let mut k: usize = 0;
        while k < n
            invariant
                k <= n,
                n <= 3,
                pos + 1 + 2 * n <= prog@.len(),
                prog@.len() == len,
                args@.len() == k,
                forall|j: int| 0 <= j < k ==> args@[j] == spec_arg_i16(prog@, pos + 1 + 2 * j),
            decreases n - k,
        {
            args.push(read_arg_at(prog, pos + 1 + 2 * k));
            k = k + 1;
        }
        proof {
            assert(args@ =~= Seq::new(
                n as nat,
                |k: int| spec_arg_i16(prog@, pos + 1 + 2 * k),
            ));
        }
        let is_jump = match op {
            OpCode::Jump => true,
            OpCode::JumpIfFalse => true,
            _ => false,
        };
        if is_jump {
            let off = args[0];
            match (pos + 3).checked_add_signed(off as isize) {
                Some(t) => Ok(
                    InstrLine {
                        offset: pos,
                        byte: b,
                        op,
                        args,
                        target: Some(t),
                        text: None,
                        next: pos + 1 + 2 * n,
                    },
                ),
                None => Err(FormatError::JumpOutOfRange { at: pos, offset: off }),
            }
        } else {
            Ok(
                InstrLine {
                    offset: pos,
                    byte: b,
                    op,
                    args,
                    target: None,
                    text: None,
                    next: pos + 1 + 2 * n,
                },
            )
        }
    }
}

/// A decoded instruction sits inside the buffer and is at least one byte
/// long; its recorded offset, raw byte and operand count are faithful.
pub proof fn lemma_decode_next_bounds(prog: Seq<u8>, pos: nat, line: InstrLineV)
    requires
        spec_decode(prog, pos) == Ok::<InstrLineV, FormatError>(line),
    ensures
        pos < line.next <= prog.len(),
        line.offset == pos,
        line.byte == prog[pos as int],
        spec_opcode_of_byte(line.byte) == Some(line.op),
        line.op != OpCode::PutString ==> line.args.len() == spec_arg_count(line.op),
{
    let b = prog[pos as int];
    let op = spec_opcode_of_byte(b)->Some_0;
    if op == OpCode::PutString {
        let j = spec_find_nul(prog, pos + 1 as int)->Some_0;
        lemma_find_nul(prog, pos + 1 as int, j);
    }
}

/// The byte string that encodes a list of fixed two-byte operands.
pub open spec fn spec_args_bytes(args: Seq<i16>) -> Seq<u8>
    decreases args.len(),
{
    if args.len() == 0 {
        Seq::empty()
    } else {
        sign_bytes(args[0] as int, 2) + spec_args_bytes(args.skip(1))
    }
}

/// The byte string that encodes a decoded instruction.
pub open spec fn spec_encode(line: InstrLineV) -> Seq<u8> {
    let head = seq![line.byte] + spec_args_bytes(line.args);
    match line.text {
        Some(t) => head + t + seq![0u8],
        None => head,
    }
}

proof fn lemma_args_bytes_subrange(prog: Seq<u8>, args: Seq<i16>, start: int)
    requires
        0 <= start,
        start + 2 * args.len() <= prog.len(),
        forall|j: int| 0 <= j < args.len() ==> args[j] == spec_arg_i16(prog, start + 2 * j),
    ensures
        spec_args_bytes(args) == prog.subrange(start, start + 2 * args.len()),
    decreases args.len(),
{
    if args.len() == 0 {
        assert(spec_args_bytes(args) =~= prog.subrange(start, start));
    } else {
        let s2 = prog.subrange(start, start + 2);
        lemma_sign_val_fits(s2);
        lemma_pow256(0);
        assert(args[0] == spec_arg_i16(prog, start + 2 * 0));
        assert(args[0] as int == sign_val(s2));
        lemma_sign_bytes_of_sign_val(s2);
        assert(forall|j: int|
            0 <= j < args.skip(1).len() ==> args.skip(1)[j] == spec_arg_i16(
                prog,
                start + 2 + 2 * j,
            )) by {
            assert(forall|j: int|
                0 <= j < args.skip(1).len() ==> args.skip(1)[j] == args[j + 1]
                    && start + 2 + 2 * j == start + 2 * (j + 1));
        }
        lemma_args_bytes_subrange(prog, args.skip(1), start + 2);
        assert(spec_args_bytes(args) =~= prog.subrange(start, start + 2 * args.len()));
    }
}

/// Decoding an instruction and re-encoding it reproduces the original
/// bytes exactly.
pub proof fn lemma_decode_encode(prog: Seq<u8>, pos: nat, line: InstrLineV)
    requires
        spec_decode(prog, pos) == Ok::<InstrLineV, FormatError>(line),
    ensures
        pos as int <= line.next <= prog.len(),
        spec_encode(line) == prog.subrange(pos as int, line.next),
{
    let b = prog[pos as int];
    let op = spec_opcode_of_byte(b)->Some_0;
    if op == OpCode::PutString {
        let j = spec_find_nul(prog, pos + 1 as int)->Some_0;
        lemma_find_nul(prog, pos + 1 as int, j);
        assert(spec_args_bytes(line.args) =~= Seq::<u8>::empty());
        assert(spec_encode(line) =~= prog.subrange(pos as int, j + 1));
    } else {
        let n = spec_arg_count(op);
        lemma_args_bytes_subrange(prog, line.args, pos + 1 as int);
        assert(spec_encode(line) =~= prog.subrange(pos as int, line.next));
    }
}

/// Re-encodes a decoded instruction into the exact bytes it came from.
pub fn encode_instr(line: &InstrLine) -> (r: Vec<u8>)
    ensures
        r@ == spec_encode(line@),
{
    let mut r: Vec<u8> = Vec::new();
    r.push(line.byte);
    let n = line.args.len();
    let mut k: usize = 0;
    proof {
        assert(line.args@.skip(0) =~= line.args@);
        assert(r@ =~= seq![line.byte]);
    }
    while k < n
        invariant
            k <= n,
            n == line.args@.len(),
            seq![line.byte] + spec_args_bytes(line.args@) == r@ + spec_args_bytes(
                line.args@.skip(k as int),
            ),
        decreases n - k,
    {
        let mut bs = i64_to_le(line.args[k] as i64, 2);
        proof {
            let rest = line.args@.skip(k as int);
            assert(rest[0] == line.args@[k as int]);
            assert(rest.skip(1) =~= line.args@.skip(k + 1));
            assert(r@ + spec_args_bytes(rest) =~= (r@ + sign_bytes(
                line.args@[k as int] as int,
                2,
            )) + spec_args_bytes(line.args@.skip(k + 1)));
        }
        r.append(&mut bs);
        k = k + 1;
    }
    proof {
        assert(line.args@.skip(n as int) =~= Seq::<i16>::empty());
        assert(r@ + Seq::<u8>::empty() =~= r@);
        assert(r@ =~= seq![line.byte] + spec_args_bytes(line.args@));
    }
    match &line.text {
        Some(t) => {
            let mut tb = slice_to_vec(t.as_slice());
            let ghost head = r@;
            r.append(&mut tb);
            r.push(0);
            proof {
                assert(r@ =~= head + t@ + seq![0u8]);
            }
            r
        },
        None => r,
    }
}

} // verus!
