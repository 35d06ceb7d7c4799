//! General laws of the machine, stated once and proved for all inputs.

use crate::decode::{spec_decode, InstrLineV};
use crate::encoding::{
    fits_signed, le_bytes, lemma_le_bytes_len, lemma_le_nat_of_le_bytes, lemma_pow256,
    lemma_sign_bytes_of_wrap64, lemma_sign_val_sign_bytes, lemma_le_bytes_take, lemma_wrap_fits,
    sign_bytes, to_unsigned, wrap_signed,
};
use crate::errors::FormatError;
use crate::machine::{
    spec_binop_val, spec_push_value, spec_step, spec_val_at, EventV, MState,
};
use crate::opcodes::OpCode;
use vstd::arithmetic::div_mod::lemma_mod_mod;
use vstd::arithmetic::power::pow;
use vstd::prelude::*;

verus! {

/// Arithmetic narrows by truncation: the bytes an arithmetic opcode
/// pushes at width `w` are exactly the low `w` bytes of the 64-bit
/// two's-complement result.
pub proof fn lemma_arith_wraparound(op: OpCode, l: int, r: int, w: nat)
    requires
        w == 2 || w == 4 || w == 8,
        op == OpCode::OpAdd || op == OpCode::OpSubtract || op == OpCode::OpMultiply || op
            == OpCode::OpDivide,
    ensures
        sign_bytes(spec_binop_val(op, l, r), w) == sign_bytes(
            wrap_signed(spec_binop_val(op, l, r), 8),
            8,
        ).take(w as int),
{
    let x = spec_binop_val(op, l, r);
    lemma_pow256(0);
    lemma_sign_bytes_of_wrap64(x, 8);
    let u8v = to_unsigned(x, 8);
    lemma_le_bytes_take(u8v, w, 8);
    let q: int = if w == 2 {
        0x1000000000000
    } else if w == 4 {
        0x100000000
    } else {
        1
    };
    assert(pow(256, w) * q == pow(256, 8));
    lemma_mod_mod(x, pow(256, w), q);
    vstd::arithmetic::div_mod::lemma_mod_bound(x, pow(256, 8));
    vstd::arithmetic::div_mod::lemma_small_mod(u8v, pow(256, 8) as nat);
}

/// Stack neutrality: after a `ReturnProc` that matches a `CallProc` —
/// the callee's frame pointer and the link record pushed by the call are
/// still in place — the stack length, frame pointer, program counter and
/// procedure id are exactly what they were before the call.
pub proof fn lemma_call_return_neutral(
    s: MState,
    call_line: InstrLineV,
    s2: MState,
    ret_line: InstrLineV,
)
    requires
        s.pending is None,
        s.fp <= usize::MAX,
        s.cur <= usize::MAX,
        s.stack.len() + 24 <= usize::MAX,
        0 <= call_line.next <= usize::MAX,
        spec_decode(s.program, s.pc) == Ok::<InstrLineV, FormatError>(call_line),
        call_line.op == OpCode::CallProc,
        call_line.args.len() >= 1,
        0 < call_line.args[0] < s.procs.len(),
        s2.pending is None,
        spec_decode(s2.program, s2.pc) == Ok::<InstrLineV, FormatError>(ret_line),
        ret_line.op == OpCode::ReturnProc,
        s2.cur == call_line.args[0],
        s2.procs.len() == s.procs.len(),
        // the callee's frame is the one the call installed,
        s2.procs[call_line.args[0] as int].frame_ptr == spec_step(s).0.procs[call_line.args[0]
            as int].frame_ptr,
        // and its link record is still on the stack, untouched.
        s2.stack.len() >= s.stack.len() as int + 24,
        s2.stack.subrange(s.stack.len() as int, s.stack.len() as int + 24) == spec_step(
            s,
        ).0.stack.subrange(s.stack.len() as int, s.stack.len() as int + 24),
    ensures
        spec_step(s).1 == EventV::Ran,
        spec_step(s2).1 == EventV::Ran,
        spec_step(s2).0.stack.len() == s.stack.len(),
        spec_step(s2).0.fp == s.fp,
        spec_step(s2).0.cur == s.cur,
        spec_step(s2).0.pc == call_line.next,
{
    let c = call_line.args[0] as int;
    let s1 = spec_step(s).0;
    lemma_le_bytes_len(call_line.next as nat, 8);
    lemma_le_bytes_len(s.fp, 8);
    lemma_le_bytes_len(s.cur, 8);
    assert(s1.stack.len() == s.stack.len() as int + 24);
    assert(s1.procs[c].frame_ptr == s.stack.len() as int + 24);
    let fpr = s2.procs[s2.cur as int].frame_ptr as nat;
    assert(fpr == s.stack.len() as int + 24);
    let t = s2.stack.take(fpr as int);
    let tl = t.len();
    lemma_pow256(0);
    assert(t.subrange(tl - 8, tl as int) =~= le_bytes(s.cur, 8)) by {
        assert(t.subrange(tl - 8, tl as int) =~= s2.stack.subrange(
            s.stack.len() as int,
            s.stack.len() as int + 24,
        ).subrange(16, 24));
        assert(s1.stack.subrange(s.stack.len() as int, s.stack.len() as int + 24).subrange(16, 24)
            =~= le_bytes(s.cur, 8));
    }
    assert(t.subrange(tl - 16, tl - 8) =~= le_bytes(s.fp, 8)) by {
        assert(t.subrange(tl - 16, tl - 8) =~= s2.stack.subrange(
            s.stack.len() as int,
            s.stack.len() as int + 24,
        ).subrange(8, 16));
        assert(s1.stack.subrange(s.stack.len() as int, s.stack.len() as int + 24).subrange(8, 16)
            =~= le_bytes(s.fp, 8));
    }
    assert(t.subrange(tl - 24, tl - 16) =~= le_bytes(call_line.next as nat, 8)) by {
        assert(t.subrange(tl - 24, tl - 16) =~= s2.stack.subrange(
            s.stack.len() as int,
            s.stack.len() as int + 24,
        ).subrange(0, 8));
        assert(s1.stack.subrange(s.stack.len() as int, s.stack.len() as int + 24).subrange(0, 8)
            =~= le_bytes(call_line.next as nat, 8));
    }
    lemma_le_nat_of_le_bytes(s.cur, 8);
    lemma_le_nat_of_le_bytes(s.fp, 8);
    lemma_le_nat_of_le_bytes(call_line.next as nat, 8);
}

/// The target the decoder resolves for a jump is the engine's actual
/// branch destination, and it is the position after the offset operand,
/// plus two, plus the signed offset.
pub proof fn lemma_jump_target_agrees(s: MState, line: InstrLineV)
    requires
        s.pending is None,
        spec_decode(s.program, s.pc) == Ok::<InstrLineV, FormatError>(line),
        line.op == OpCode::Jump || (line.op == OpCode::JumpIfFalse && s.width
            <= s.stack.len() && spec_val_at(s.stack, s.width, s.stack.len() - s.width) == 0),
    ensures
        line.target matches Some(t) && t == s.pc + 3 + line.args[0],
        spec_step(s).0.pc == line.target->Some_0,
{
}

/// Pushing a local variable's address and dereferencing it with `Swap`
/// pushes the same value as pushing the variable itself, whenever the
/// address is representable at the configured width.
pub proof fn lemma_address_swap_is_value(s: MState, line1: InstrLineV, line2: InstrLineV)
    requires
        s.pending is None,
        s.stack.len() + s.width <= usize::MAX,
        spec_decode(s.program, s.pc) == Ok::<InstrLineV, FormatError>(line1),
        line1.op == OpCode::PushAddressLocalVar,
        line1.args.len() >= 1,
        line1.args[0] >= 0,
        s.fp + line1.args[0] + s.width <= s.stack.len(),
        fits_signed(s.fp + line1.args[0], s.width),
        spec_decode(s.program, line1.next as nat) == Ok::<InstrLineV, FormatError>(line2),
        line2.op == OpCode::Swap,
    ensures
        spec_step(s).1 == EventV::Ran,
        spec_step(spec_step(s).0).1 == EventV::Ran,
        spec_step(spec_step(s).0).0.stack == spec_push_value(s, line1, s.fp).0.stack,
{
    let w = s.width;
    let a = (s.fp + line1.args[0]) as nat;
    let s1 = spec_step(s).0;
    lemma_sign_val_sign_bytes(a as int, w);
    lemma_wrap_fits(a as int, w);
    lemma_le_bytes_len(to_unsigned(a as int, w), w);
    assert(s1.stack == s.stack + sign_bytes(a as int, w));
    assert(s1.stack.len() == s.stack.len() + w);
    assert(s1.stack.subrange(s.stack.len() as int, s1.stack.len() as int) =~= sign_bytes(
        a as int,
        w,
    ));
    assert(spec_val_at(s1.stack, w, s1.stack.len() - w) == a as int);
    let popped = s1.stack.take(s1.stack.len() - w);
    assert(popped =~= s.stack);
    assert(popped.subrange(a as int, a as int + w) =~= s.stack.subrange(a as int, a as int + w));
    assert(spec_step(s1).0.stack =~= spec_push_value(s, line1, s.fp).0.stack);
}

} // verus!
