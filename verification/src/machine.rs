//! The execution engine: a stack machine over the loaded program.
//!
//! The machine owns the program buffer, the procedure table, the constant
//! pool and one growable byte stack that serves as local-variable storage,
//! operand stack and call-linkage record at once. `step` executes one
//! instruction; input and output cross the boundary as structured events,
//! so the engine itself performs no I/O.

use crate::data::Data;
use crate::decode::{
    decode_instr, lemma_decode_next_bounds, spec_decode, InstrLine, InstrLineV,
};
use crate::encoding::{
    i64_from_le, i64_to_le, le_bytes, le_nat, le_to_u64, lemma_pow256, sign_bytes, sign_val,
    u64_to_le_vec,
};
use crate::errors::{FormatError, RuntimeFault};
use crate::opcodes::OpCode;
use crate::pl0_vm::Procedure;
use vstd::prelude::*;

verus! {

/// The mathematical image of a machine state.
#[verifier::ext_equal]
pub ghost struct MState {
    pub program: Seq<u8>,
    pub width: nat,
    pub procs: Seq<Procedure>,
    pub consts: Seq<int>,
    pub stack: Seq<u8>,
    pub pc: nat,
    pub fp: nat,
    pub cur: nat,
    pub pending: Option<usize>,
}

/// The stack machine.
pub struct Machine {
    /// The program image, header included.
    pub program: Vec<u8>,
    /// The width tag: a zero value of the configured width.
    pub bits: Data,
    /// The procedure table; `frame_ptr` entries are rewritten on calls.
    pub procedures: Vec<Procedure>,
    /// The constant pool.
    pub constants: Vec<Data>,
    /// The runtime stack.
    pub stack: Vec<u8>,
    /// Program counter: offset of the byte to execute next.
    pub pc: usize,
    /// Frame pointer: base of the active frame on the runtime stack.
    pub fp: usize,
    /// Index of the procedure being executed.
    pub cur_proc: usize,
    /// A store address waiting for an input value, if any.
    pub pending: Option<usize>,
}

impl View for Machine {
    type V = MState;

    open spec fn view(&self) -> MState {
        MState {
            program: self.program@,
            width: self.bits.spec_width(),
            procs: self.procedures@,
            consts: self.constants@.map(|i: int, d: Data| d@),
            stack: self.stack@,
            pc: self.pc as nat,
            fp: self.fp as nat,
            cur: self.cur_proc as nat,
            pending: self.pending,
        }
    }
}

impl Machine {
    /// The machine's structural invariant: the table has an entry
    /// procedure and every constant carries the configured width.
    pub open spec fn inv(&self) -> bool {
        &&& self.procedures@.len() >= 1
        &&& forall|i: int|
            0 <= i < self.constants@.len() ==> (#[trigger] self.constants@[i]).spec_width()
                == self.bits.spec_width()
        &&& match self.pending {
            Some(t) => t + self.bits.spec_width() <= usize::MAX,
            None => true,
        }
    }
}

impl MState {
    /// The width is one the header can select.
    pub open spec fn wf(self) -> bool {
        &&& (self.width == 2 || self.width == 4 || self.width == 8)
        &&& self.procs.len() >= 1
    }
}

/// What one `step` reports.
#[derive(Debug, PartialEq, Eq)]
pub enum StepEvent {
    /// An ordinary instruction ran.
    Ran,
    /// `OutputValue` asks to print a number.
    Output { value: i64 },
    /// `PutString` asks to print a string (valid UTF-8 bytes).
    OutputText { bytes: Vec<u8> },
    /// `InputToAddr` waits for a number; feed one with `give_input`.
    NeedInput,
    /// Execution ended normally.
    Halted,
    /// The program image is malformed at the current position.
    Malformed { error: FormatError },
    /// A runtime fault; the state is left as it was.
    Faulted { fault: RuntimeFault },
}

/// The mathematical image of a step event.
pub ghost enum EventV {
    Ran,
    Output { value: int },
    OutputText { bytes: Seq<u8> },
    NeedInput,
    Halted,
    Malformed { error: FormatError },
    Faulted { fault: RuntimeFault },
}

impl View for StepEvent {
    type V = EventV;

    open spec fn view(&self) -> EventV {
        match self {
            StepEvent::Ran => EventV::Ran,
            StepEvent::Output { value } => EventV::Output { value: *value as int },
            StepEvent::OutputText { bytes } => EventV::OutputText { bytes: bytes@ },
            StepEvent::NeedInput => EventV::NeedInput,
            StepEvent::Halted => EventV::Halted,
            StepEvent::Malformed { error } => EventV::Malformed { error: *error },
            StepEvent::Faulted { fault } => EventV::Faulted { fault: *fault },
        }
    }
}

/// The signed value of the `w` stack bytes at `addr`.
pub open spec fn spec_val_at(stack: Seq<u8>, w: nat, addr: int) -> int {
    sign_val(stack.subrange(addr, addr + w))
}

/// The stack with `bs` written at `addr`, first grown with zero fill when
/// `addr + bs.len()` lies beyond its end.
pub open spec fn spec_store(stack: Seq<u8>, addr: nat, bs: Seq<u8>) -> Seq<u8> {
    let grown = if stack.len() >= addr + bs.len() {
        stack
    } else {
        stack + Seq::new((addr + bs.len() - stack.len()) as nat, |i: int| 0u8)
    };
    grown.map(|i: int, b: u8| if addr <= i < addr + bs.len() {
        bs[i - addr]
    } else {
        b
    })
}

/// The stack resized to `n` bytes, zero-filling any new region.
pub open spec fn spec_resize(stack: Seq<u8>, n: nat) -> Seq<u8> {
    if n <= stack.len() {
        stack.take(n as int)
    } else {
        stack + Seq::new((n - stack.len()) as nat, |i: int| 0u8)
    }
}

/// Pushing the value read at `base + addr`.
pub open spec fn spec_push_value(pre: MState, line: InstrLineV, base: nat) -> (MState, EventV) {
    let w = pre.width;
    let addr = line.args[0];
    if addr < 0 {
        (pre, EventV::Faulted { fault: RuntimeFault::NegativeOperand { value: addr } })
    } else if base + addr > usize::MAX {
        (pre, EventV::Faulted { fault: RuntimeFault::AddressOverflow })
    } else {
        let a = base + addr;
        if a + w > pre.stack.len() {
            (pre, EventV::Faulted { fault: RuntimeFault::StackBounds { addr: a as usize } })
        } else {
            let v = spec_val_at(pre.stack, w, a as int);
            (
                MState { stack: pre.stack + sign_bytes(v, w), pc: line.next as nat, ..pre },
                EventV::Ran,
            )
        }
    }
}

/// Pushing the computed address `base + addr` itself as a data value.
pub open spec fn spec_push_address(pre: MState, line: InstrLineV, base: nat) -> (MState, EventV) {
    let w = pre.width;
    let addr = line.args[0];
    if addr < 0 {
        (pre, EventV::Faulted { fault: RuntimeFault::NegativeOperand { value: addr } })
    } else if base + addr > usize::MAX {
        (pre, EventV::Faulted { fault: RuntimeFault::AddressOverflow })
    } else {
        (
            MState {
                stack: pre.stack + sign_bytes(base + addr, w),
                pc: line.next as nat,
                ..pre
            },
            EventV::Ran,
        )
    }
}

/// The frame base of the procedure a global-variable opcode names in its
/// second operand.
pub open spec fn spec_proc_base(pre: MState, line: InstrLineV) -> Result<nat, RuntimeFault> {
    let p = line.args[1];
    if p < 0 || p >= pre.procs.len() {
        Err(RuntimeFault::ProcOutOfRange { id: p })
    } else {
        Ok(pre.procs[p as int].frame_ptr as nat)
    }
}

/// Pushing a constant-pool entry.
pub open spec fn spec_push_constant(pre: MState, line: InstrLineV) -> (MState, EventV) {
    let w = pre.width;
    let idx = line.args[0];
    if idx < 0 || idx >= pre.consts.len() {
        (pre, EventV::Faulted { fault: RuntimeFault::ConstOutOfRange { idx } })
    } else {
        (
            MState {
                stack: pre.stack + sign_bytes(pre.consts[idx as int], w),
                pc: line.next as nat,
                ..pre
            },
            EventV::Ran,
        )
    }
}

/// `StoreValue`: pop a value, pop an absolute address, write the value
/// there, growing the stack with zero fill if needed.
pub open spec fn spec_store_value(pre: MState, line: InstrLineV) -> (MState, EventV) {
    let w = pre.width;
    let len = pre.stack.len();
    if len < 2 * w {
        (pre, EventV::Faulted { fault: RuntimeFault::StackUnderflow })
    } else {
        let value = spec_val_at(pre.stack, w, len - w);
        let addr = spec_val_at(pre.stack, w, len - 2 * w);
        if addr < 0 || addr + w > usize::MAX {
            (pre, EventV::Faulted { fault: RuntimeFault::AddressOverflow })
        } else {
            let popped = pre.stack.take(len - 2 * w);
            (
                MState {
                    stack: spec_store(popped, addr as nat, sign_bytes(value, w)),
                    pc: line.next as nat,
                    ..pre
                },
                EventV::Ran,
            )
        }
    }
}

/// `OutputValue`: pop a value and hand it out for printing.
pub open spec fn spec_output_value(pre: MState, line: InstrLineV) -> (MState, EventV) {
    let w = pre.width;
    let len = pre.stack.len();
    if len < w {
        (pre, EventV::Faulted { fault: RuntimeFault::StackUnderflow })
    } else {
        let v = spec_val_at(pre.stack, w, len - w);
        (
            MState { stack: pre.stack.take(len - w), pc: line.next as nat, ..pre },
            EventV::Output { value: v },
        )
    }
}

/// `InputToAddr`: pop a frame-relative address and wait for a number.
pub open spec fn spec_input_to_addr(pre: MState, line: InstrLineV) -> (MState, EventV) {
    let w = pre.width;
    let len = pre.stack.len();
    if len < w {
        (pre, EventV::Faulted { fault: RuntimeFault::StackUnderflow })
    } else {
        let a = spec_val_at(pre.stack, w, len - w);
        let t = pre.fp + a;
        if t < 0 || t + w > usize::MAX {
            (pre, EventV::Faulted { fault: RuntimeFault::AddressOverflow })
        } else {
            (
                MState {
                    stack: pre.stack.take(len - w),
                    pc: line.next as nat,
                    pending: Some(t as usize),
                    ..pre
                },
                EventV::NeedInput,
            )
        }
    }
}

/// `Minusify`: pop, negate, push.
pub open spec fn spec_minusify(pre: MState, line: InstrLineV) -> (MState, EventV) {
    let w = pre.width;
    let len = pre.stack.len();
    if len < w {
        (pre, EventV::Faulted { fault: RuntimeFault::StackUnderflow })
    } else {
        let v = spec_val_at(pre.stack, w, len - w);
        (
            MState {
                stack: pre.stack.take(len - w) + sign_bytes(-v, w),
                pc: line.next as nat,
                ..pre
            },
            EventV::Ran,
        )
    }
}

/// `IsOdd`: pop, push the canonical boolean of the popped value's parity:
/// one exactly when the value is odd, whatever its sign.
pub open spec fn spec_is_odd(pre: MState, line: InstrLineV) -> (MState, EventV) {
    let w = pre.width;
    let len = pre.stack.len();
    if len < w {
        (pre, EventV::Faulted { fault: RuntimeFault::StackUnderflow })
    } else {
        let v = spec_val_at(pre.stack, w, len - w);
        let flag: int = if v % 2 == 1 {
            1
        } else {
            0
        };
        (
            MState {
                stack: pre.stack.take(len - w) + sign_bytes(flag, w),
                pc: line.next as nat,
                ..pre
            },
            EventV::Ran,
        )
    }
}

/// The widened 64-bit result of a two-operand opcode, before narrowing.
pub open spec fn spec_binop_val(op: OpCode, l: int, r: int) -> int {
    match op {
        OpCode::OpAdd => l + r,
        OpCode::OpSubtract => l - r,
        OpCode::OpMultiply => l * r,
        OpCode::OpDivide => crate::data::spec_div_trunc(l, r),
        OpCode::CompareEq => if l == r {
            1
        } else {
            0
        },
        OpCode::CompareNotEq => if l != r {
            1
        } else {
            0
        },
        OpCode::CompareLT => if l < r {
            1
        } else {
            0
        },
        OpCode::CompareGT => if l > r {
            1
        } else {
            0
        },
        OpCode::CompareLTEq => if l <= r {
            1
        } else {
            0
        },
        OpCode::CompareGTEq => if l >= r {
            1
        } else {
            0
        },
        _ => 0,
    }
}

/// A two-operand opcode: pop the right operand, pop the left one, push
/// the result narrowed to the configured width.
pub open spec fn spec_binop(pre: MState, line: InstrLineV) -> (MState, EventV) {
    let w = pre.width;
    let len = pre.stack.len();
    if len < 2 * w {
        (pre, EventV::Faulted { fault: RuntimeFault::StackUnderflow })
    } else {
        let r = spec_val_at(pre.stack, w, len - w);
        let l = spec_val_at(pre.stack, w, len - 2 * w);
        if line.op == OpCode::OpDivide && r == 0 {
            (pre, EventV::Faulted { fault: RuntimeFault::DivisionByZero })
        } else {
            let v = spec_binop_val(line.op, l, r);
            (
                MState {
                    stack: pre.stack.take(len - 2 * w) + sign_bytes(v, w),
                    pc: line.next as nat,
                    ..pre
                },
                EventV::Ran,
            )
        }
    }
}

/// `CallProc`: push the three eight-byte link fields (return address,
/// frame pointer, caller id), jump to the callee, and relocate the
/// callee's frame to the new stack top.
pub open spec fn spec_call(pre: MState, line: InstrLineV) -> (MState, EventV) {
    let id = line.args[0];
    if id < 0 || id >= pre.procs.len() {
        (pre, EventV::Faulted { fault: RuntimeFault::ProcOutOfRange { id } })
    } else {
        let stack2 = pre.stack + le_bytes(line.next as nat, 8) + le_bytes(pre.fp, 8) + le_bytes(
            pre.cur,
            8,
        );
        let callee = pre.procs[id as int];
        (
            MState {
                stack: stack2,
                pc: callee.start_pos as nat,
                cur: id as nat,
                procs: pre.procs.update(
                    id as int,
                    Procedure {
                        start_pos: callee.start_pos,
                        frame_ptr: stack2.len() as usize,
                    },
                ),
                ..pre
            },
            EventV::Ran,
        )
    }
}

/// `ReturnProc`: from procedure zero, halt; otherwise discard the frame,
/// pop the three link fields and restore them.
pub open spec fn spec_return(pre: MState, line: InstrLineV) -> (MState, EventV) {
    if pre.cur == 0 {
        (pre, EventV::Halted)
    } else if pre.cur >= pre.procs.len() {
        (pre, EventV::Faulted { fault: RuntimeFault::CorruptLinkage })
    } else {
        let fpr = pre.procs[pre.cur as int].frame_ptr as nat;
        let t = if fpr <= pre.stack.len() {
            pre.stack.take(fpr as int)
        } else {
            pre.stack
        };
        if t.len() < 24 {
            (pre, EventV::Faulted { fault: RuntimeFault::StackUnderflow })
        } else {
            let tl = t.len();
            let cur2 = le_nat(t.subrange(tl - 8, tl as int));
            let fp2 = le_nat(t.subrange(tl - 16, tl - 8));
            let pc2 = le_nat(t.subrange(tl - 24, tl - 16));
            if cur2 > usize::MAX || fp2 > usize::MAX || pc2 > usize::MAX {
                (pre, EventV::Faulted { fault: RuntimeFault::CorruptLinkage })
            } else {
                (
                    MState {
                        stack: t.take(tl - 24),
                        pc: pc2,
                        fp: fp2,
                        cur: cur2,
                        ..pre
                    },
                    EventV::Ran,
                )
            }
        }
    }
}

/// `JumpIfFalse`: pop a value and branch to the resolved target exactly
/// when it is zero.
pub open spec fn spec_jump_if_false(pre: MState, line: InstrLineV) -> (MState, EventV) {
    let w = pre.width;
    let len = pre.stack.len();
    if len < w {
        (pre, EventV::Faulted { fault: RuntimeFault::StackUnderflow })
    } else {
        let v = spec_val_at(pre.stack, w, len - w);
        let target = line.target->Some_0 as nat;
        (
            MState {
                stack: pre.stack.take(len - w),
                pc: if v == 0 {
                    target
                } else {
                    line.next as nat
                },
                ..pre
            },
            EventV::Ran,
        )
    }
}

/// `EntryProc`: adopt the named procedure's frame and resize the stack to
/// hold its declared variable bytes, zero-filled.
pub open spec fn spec_entry(pre: MState, line: InstrLineV) -> (MState, EventV) {
    let id = line.args[1];
    let reserved = line.args[2];
    if id < 0 || id >= pre.procs.len() {
        (pre, EventV::Faulted { fault: RuntimeFault::ProcOutOfRange { id } })
    } else if reserved < 0 {
        (pre, EventV::Faulted { fault: RuntimeFault::NegativeOperand { value: reserved } })
    } else {
        let fp2 = pre.procs[id as int].frame_ptr as nat;
        if fp2 + reserved > usize::MAX {
            (pre, EventV::Faulted { fault: RuntimeFault::AddressOverflow })
        } else {
            (
                MState {
                    stack: spec_resize(pre.stack, (fp2 + reserved) as nat),
                    fp: fp2,
                    pc: line.next as nat,
                    ..pre
                },
                EventV::Ran,
            )
        }
    }
}

/// `Pop`: discard the top value.
pub open spec fn spec_pop_op(pre: MState, line: InstrLineV) -> (MState, EventV) {
    let w = pre.width;
    let len = pre.stack.len();
    if len < w {
        (pre, EventV::Faulted { fault: RuntimeFault::StackUnderflow })
    } else {
        (MState { stack: pre.stack.take(len - w), pc: line.next as nat, ..pre }, EventV::Ran)
    }
}

/// `Swap`: pop an address-as-value and push the value read there.
pub open spec fn spec_swap(pre: MState, line: InstrLineV) -> (MState, EventV) {
    let w = pre.width;
    let len = pre.stack.len();
    if len < w {
        (pre, EventV::Faulted { fault: RuntimeFault::StackUnderflow })
    } else {
        let a = spec_val_at(pre.stack, w, len - w);
        let popped = pre.stack.take(len - w);
        if a < 0 || a > usize::MAX {
            (pre, EventV::Faulted { fault: RuntimeFault::AddressOverflow })
        } else if a + w > popped.len() {
            (pre, EventV::Faulted { fault: RuntimeFault::StackBounds { addr: a as usize } })
        } else {
            let v = spec_val_at(popped, w, a);
            (
                MState { stack: popped + sign_bytes(v, w), pc: line.next as nat, ..pre },
                EventV::Ran,
            )
        }
    }
}

/// One decoded instruction's effect on the machine state.
pub open spec fn spec_exec_instr(pre: MState, line: InstrLineV) -> (MState, EventV) {
    match line.op {
        OpCode::PushValueLocalVar => spec_push_value(pre, line, pre.fp),
        OpCode::PushValueMainVar => spec_push_value(
            pre,
            line,
            pre.procs[0].frame_ptr as nat,
        ),
        OpCode::PushValueGlobalVar => match spec_proc_base(pre, line) {
            Err(f) => (pre, EventV::Faulted { fault: f }),
            Ok(base) => spec_push_value(pre, line, base),
        },
        OpCode::PushAddressLocalVar => spec_push_address(pre, line, pre.fp),
        OpCode::PushAddressMainVar => spec_push_address(
            pre,
            line,
            pre.procs[0].frame_ptr as nat,
        ),
        OpCode::PushAddressGlobalVar => match spec_proc_base(pre, line) {
            Err(f) => (pre, EventV::Faulted { fault: f }),
            Ok(base) => spec_push_address(pre, line, base),
        },
        OpCode::PushConstant => spec_push_constant(pre, line),
        OpCode::StoreValue => spec_store_value(pre, line),
        OpCode::OutputValue => spec_output_value(pre, line),
        OpCode::InputToAddr => spec_input_to_addr(pre, line),
        OpCode::Minusify => spec_minusify(pre, line),
        OpCode::IsOdd => spec_is_odd(pre, line),
        OpCode::OpAdd => spec_binop(pre, line),
        OpCode::OpSubtract => spec_binop(pre, line),
        OpCode::OpMultiply => spec_binop(pre, line),
        OpCode::OpDivide => spec_binop(pre, line),
        OpCode::CompareEq => spec_binop(pre, line),
        OpCode::CompareNotEq => spec_binop(pre, line),
        OpCode::CompareLT => spec_binop(pre, line),
        OpCode::CompareGT => spec_binop(pre, line),
        OpCode::CompareLTEq => spec_binop(pre, line),
        OpCode::CompareGTEq => spec_binop(pre, line),
        OpCode::CallProc => spec_call(pre, line),
        OpCode::ReturnProc => spec_return(pre, line),
        OpCode::Jump => (
            MState { pc: line.target->Some_0 as nat, ..pre },
            EventV::Ran,
        ),
        OpCode::JumpIfFalse => spec_jump_if_false(pre, line),
        OpCode::EntryProc => spec_entry(pre, line),
        OpCode::PutString => (
            MState { pc: line.next as nat, ..pre },
            EventV::OutputText { bytes: line.text->Some_0 },
        ),
        OpCode::Pop => spec_pop_op(pre, line),
        OpCode::Swap => spec_swap(pre, line),
        OpCode::EndOfCode => (pre, EventV::Halted),
        OpCode::Put => (
            pre,
            EventV::Faulted { fault: RuntimeFault::Unimplemented { byte: line.byte } },
        ),
        OpCode::Get => (
            pre,
            EventV::Faulted { fault: RuntimeFault::Unimplemented { byte: line.byte } },
        ),
        OpCode::OpAddAddr => (
            pre,
            EventV::Faulted { fault: RuntimeFault::Unimplemented { byte: line.byte } },
        ),
    }
}

/// One step of the machine: while an input is pending nothing moves;
/// otherwise fetch and decode at `pc` and execute per the opcode table.
pub open spec fn spec_step(pre: MState) -> (MState, EventV) {
    if pre.pending is Some {
        (pre, EventV::NeedInput)
    } else {
        match spec_decode(pre.program, pre.pc) {
            Err(e) => (pre, EventV::Malformed { error: e }),
            Ok(line) => spec_exec_instr(pre, line),
        }
    }
}

/// The state after feeding `v` to a machine whose `pending` field holds a
/// store address: `v`, narrowed to the configured width, is written there
/// and the machine stops waiting. The frame offset was already resolved
/// when the input opcode ran, so the address is absolute.
pub open spec fn spec_feed(s: MState, v: i64) -> MState {
    match s.pending {
        Some(t) => MState {
            stack: spec_store(s.stack, t as nat, sign_bytes(v as int, s.width)),
            pending: None,
            ..s
        },
        None => s,
    }
}

/// One printable piece of program output.
#[derive(Debug, PartialEq, Eq)]
pub enum OutputItem {
    /// An `OutputValue` number.
    Number(i64),
    /// A `PutString` string (valid UTF-8 bytes).
    Text(Vec<u8>),
}

/// The mathematical image of an output item.
pub ghost enum OutputItemV {
    Number(int),
    Text(Seq<u8>),
}

impl View for OutputItem {
    type V = OutputItemV;

    open spec fn view(&self) -> OutputItemV {
        match self {
            OutputItem::Number(v) => OutputItemV::Number(*v as int),
            OutputItem::Text(b) => OutputItemV::Text(b@),
        }
    }
}

/// The views of a list of output items.
pub open spec fn spec_items_view(items: Seq<OutputItem>) -> Seq<OutputItemV> {
    items.map(|i: int, it: OutputItem| it@)
}

/// Why a bounded run ended.
#[derive(Debug, Clone, Copy, PartialEq, Eq, Structural)]
pub enum RunOutcome {
    /// Execution ended normally.
    Halted,
    /// The program image is malformed.
    Malformed { error: FormatError },
    /// A runtime fault.
    Faulted { fault: RuntimeFault },
    /// The step bound ran out first.
    OutOfFuel,
    /// The program asked for input and none was left.
    OutOfInput,
}

/// Up to `fuel` steps from `s`, feeding queued inputs on demand: the final
/// state, the output in order, and why the run ended.
pub open spec fn spec_run(s: MState, inputs: Seq<i64>, fuel: nat) -> (MState, Seq<OutputItemV>, RunOutcome)
    decreases fuel,
{
    if fuel == 0 {
        (s, Seq::empty(), RunOutcome::OutOfFuel)
    } else {
        let (s2, ev) = spec_step(s);
        match ev {
            EventV::Ran => spec_run(s2, inputs, (fuel - 1) as nat),
            EventV::Output { value } => {
                let t = spec_run(s2, inputs, (fuel - 1) as nat);
                (t.0, seq![OutputItemV::Number(value)] + t.1, t.2)
            },
            EventV::OutputText { bytes } => {
                let t = spec_run(s2, inputs, (fuel - 1) as nat);
                (t.0, seq![OutputItemV::Text(bytes)] + t.1, t.2)
            },
            EventV::NeedInput => {
                if inputs.len() == 0 {
                    (s2, Seq::empty(), RunOutcome::OutOfInput)
                } else {
                    spec_run(spec_feed(s2, inputs[0]), inputs.skip(1), (fuel - 1) as nat)
                }
            },
            EventV::Halted => (s2, Seq::empty(), RunOutcome::Halted),
            EventV::Malformed { error } => (s2, Seq::empty(), RunOutcome::Malformed { error }),
            EventV::Faulted { fault } => (s2, Seq::empty(), RunOutcome::Faulted { fault }),
        }
    }
}

/// Reads the value of the configured width at `addr`.
fn read_val(stack: &Vec<u8>, tag: &Data, addr: usize) -> (r: i64)
    requires
        addr + tag.spec_width() <= stack@.len(),
    ensures
        r as int == spec_val_at(stack@, tag.spec_width(), addr as int),
{
    let w = tag.width();
    let v = i64_from_le(stack.as_slice(), addr, w);
    v
}

/// Appends a value of the configured width, wrapped to that width.
fn push_val(stack: &mut Vec<u8>, tag: &Data, v: i64)
    ensures
        final(stack)@ == old(stack)@ + sign_bytes(v as int, tag.spec_width()),
{
    let mut bs = i64_to_le(v, tag.width());
    stack.append(&mut bs);
}

/// Removes and returns the topmost value of the configured width.
fn pop_val(stack: &mut Vec<u8>, tag: &Data) -> (r: i64)
    requires
        tag.spec_width() <= old(stack)@.len(),
    ensures
        final(stack)@ == old(stack)@.take(old(stack)@.len() - tag.spec_width()),
        r as int == spec_val_at(
            old(stack)@,
            tag.spec_width(),
            old(stack)@.len() - tag.spec_width(),
        ),
{
    let w = tag.width();
    let base = stack.len() - w;
    let v = read_val(stack, tag, base);
    stack.truncate(base);
    proof {
        assert(stack@ =~= old(stack)@.take(old(stack)@.len() - tag.spec_width()));
    }
    v
}

/// Writes a value of the configured width at `addr`, growing the stack
/// with zero fill when the address lies beyond its end.
fn store_val(stack: &mut Vec<u8>, tag: &Data, addr: usize, v: i64)
    requires
        addr + tag.spec_width() <= usize::MAX,
    ensures
        final(stack)@ == spec_store(old(stack)@, addr as nat, sign_bytes(v as int, tag.spec_width())),
{
    let w = tag.width();
    let end = addr + w;
    let ghost grown = if old(stack)@.len() >= addr + w {
        old(stack)@
    } else {
        old(stack)@ + Seq::new((addr + w - old(stack)@.len()) as nat, |i: int| 0u8)
    };
    while stack.len() < end
        invariant
            old(stack)@.len() < end ==> old(stack)@.len() <= stack@.len() <= grown.len(),
            old(stack)@.len() >= end ==> stack@ == old(stack)@,
            grown.len() >= end,
            stack@ =~= grown.take(stack@.len() as int) || stack@ == old(stack)@,
            grown == (if old(stack)@.len() >= addr + w {
                old(stack)@
            } else {
                old(stack)@ + Seq::new((addr + w - old(stack)@.len()) as nat, |i: int| 0u8)
            }),
            end == addr + w,
            w == tag.spec_width(),
        decreases end - stack@.len(),
    {
        proof {
            assert(grown.take(stack@.len() as int).push(0u8) =~= grown.take(
                stack@.len() as int + 1,
            ));
            assert(stack@ =~= grown.take(stack@.len() as int));
        }
        stack.push(0);
    }
    proof {
        assert(stack@ =~= grown);
    }
    let bytes = i64_to_le(v, w);
    let mut i: usize = 0;
    while i < w
        invariant
            i <= w,
            w == tag.spec_width(),
            end == addr + w,
            end <= stack@.len(),
            stack@.len() == grown.len(),
            bytes@ == sign_bytes(v as int, tag.spec_width()),
            bytes@.len() == w,
            forall|j: int|
                0 <= j < stack@.len() ==> stack@[j] == (if addr <= j < addr + i {
                    bytes@[j - addr]
                } else {
                    grown[j]
                }),
        decreases w - i,
    {
        stack[addr + i] = bytes[i];
        i = i + 1;
    }
    proof {
        assert(stack@ =~= spec_store(
            old(stack)@,
            addr as nat,
            sign_bytes(v as int, tag.spec_width()),
        ));
    }
}

/// Appends an eight-byte unsigned little-endian link field.
fn push_u64(stack: &mut Vec<u8>, x: u64)
    ensures
        final(stack)@ == old(stack)@ + le_bytes(x as nat, 8),
{
    let mut bs = u64_to_le_vec(x, 8);
    stack.append(&mut bs);
}

/// Resizes the stack to `n` bytes, zero-filling any new region.
fn resize_zero(stack: &mut Vec<u8>, n: usize)
    ensures
        final(stack)@ == spec_resize(old(stack)@, n as nat),
{
    if n <= stack.len() {
        stack.truncate(n);
        proof {
            assert(stack@ =~= spec_resize(old(stack)@, n as nat));
        }
    } else {
        while stack.len() < n
            invariant
                old(stack)@.len() <= stack@.len() <= n,
                stack@ =~= old(stack)@ + Seq::new(
                    (stack@.len() - old(stack)@.len()) as nat,
                    |i: int| 0u8,
                ),
            decreases n - stack@.len(),
        {
            proof {
                assert((old(stack)@ + Seq::new(
                    (stack@.len() - old(stack)@.len()) as nat,
                    |i: int| 0u8,
                )).push(0u8) =~= old(stack)@ + Seq::new(
                    (stack@.len() + 1 - old(stack)@.len()) as nat,
                    |i: int| 0u8,
                ));
            }
            stack.push(0);
        }
        proof {
            assert(stack@ =~= spec_resize(old(stack)@, n as nat));
        }
    }
}

impl Machine {
    fn exec_push_value(&mut self, line: &InstrLine, base: usize) -> (ev: StepEvent)
        requires
            old(self).inv(),
            line@.args.len() >= 1,
        ensures
            final(self).inv(),
            ({
                let (s2, ev2) = spec_push_value(old(self)@, line@, base as nat);
                final(self)@ == s2 && ev@ == ev2
            }),
    {
        let addr = line.args[0];
        if addr < 0 {
            return StepEvent::Faulted { fault: RuntimeFault::NegativeOperand { value: addr } };
        }
        let a = match base.checked_add(addr as usize) {
            Some(a) => a,
            None => {
                return StepEvent::Faulted { fault: RuntimeFault::AddressOverflow };
            },
        };
        let w = self.bits.width();
        if self.stack.len() < w || a > self.stack.len() - w {
            return StepEvent::Faulted { fault: RuntimeFault::StackBounds { addr: a } };
        }
        let v = read_val(&self.stack, &self.bits, a);
        push_val(&mut self.stack, &self.bits, v);
        self.pc = line.next;
        proof {
            assert(self@ =~= spec_push_value(old(self)@, line@, base as nat).0);
        }
        StepEvent::Ran
    }

    fn exec_push_address(&mut self, line: &InstrLine, base: usize) -> (ev: StepEvent)
        requires
            old(self).inv(),
            line@.args.len() >= 1,
        ensures
            final(self).inv(),
            ({
                let (s2, ev2) = spec_push_address(old(self)@, line@, base as nat);
                final(self)@ == s2 && ev@ == ev2
            }),
    {
        let addr = line.args[0];
        if addr < 0 {
            return StepEvent::Faulted { fault: RuntimeFault::NegativeOperand { value: addr } };
        }
        let a = match base.checked_add(addr as usize) {
            Some(a) => a,
            None => {
                return StepEvent::Faulted { fault: RuntimeFault::AddressOverflow };
            },
        };
        let x = crate::data::u64_to_signed(a as u64);
        proof {
            lemma_pow256(0);
            vstd::arithmetic::div_mod::lemma_small_mod(a as nat, vstd::arithmetic::power::pow(256, 8) as nat);
            assert(x as int == crate::encoding::wrap_signed(a as int, 8));
            crate::encoding::lemma_sign_bytes_of_wrap64(a as int, self.bits.spec_width());
        }
        push_val(&mut self.stack, &self.bits, x);
        self.pc = line.next;
        proof {
            assert(self@ =~= spec_push_address(old(self)@, line@, base as nat).0);
        }
        StepEvent::Ran
    }

    fn exec_push_constant(&mut self, line: &InstrLine) -> (ev: StepEvent)
        requires
            old(self).inv(),
            line@.args.len() >= 1,
        ensures
            final(self).inv(),
            ({
                let (s2, ev2) = spec_push_constant(old(self)@, line@);
                final(self)@ == s2 && ev@ == ev2
            }),
    {
        let idx = line.args[0];
        if idx < 0 || (idx as usize) >= self.constants.len() {
            return StepEvent::Faulted { fault: RuntimeFault::ConstOutOfRange { idx } };
        }
        let c = self.constants[idx as usize];
        let v = c.i64();
        push_val(&mut self.stack, &self.bits, v);
        self.pc = line.next;
        proof {
            assert(self@ =~= spec_push_constant(old(self)@, line@).0);
        }
        StepEvent::Ran
    }

    fn exec_store_value(&mut self, line: &InstrLine) -> (ev: StepEvent)
        requires
            old(self).inv(),
        ensures
            final(self).inv(),
            ({
                let (s2, ev2) = spec_store_value(old(self)@, line@);
                final(self)@ == s2 && ev@ == ev2
            }),
    {
        let w = self.bits.width();
        let len = self.stack.len();
        if len < 2 * w {
            return StepEvent::Faulted { fault: RuntimeFault::StackUnderflow };
        }
        let value = read_val(&self.stack, &self.bits, len - w);
        let addr = read_val(&self.stack, &self.bits, len - 2 * w);
        if addr < 0 || (addr as i128) + (w as i128) > (usize::MAX as i128) {
            return StepEvent::Faulted { fault: RuntimeFault::AddressOverflow };
        }
        let au = addr as usize;
        self.stack.truncate(len - 2 * w);
        proof {
            assert(self.stack@ =~= old(self).stack@.take(len - 2 * w));
        }
        store_val(&mut self.stack, &self.bits, au, value);
        self.pc = line.next;
        proof {
            assert(self@ =~= spec_store_value(old(self)@, line@).0);
        }
        StepEvent::Ran
    }

    fn exec_output_value(&mut self, line: &InstrLine) -> (ev: StepEvent)
        requires
            old(self).inv(),
        ensures
            final(self).inv(),
            ({
                let (s2, ev2) = spec_output_value(old(self)@, line@);
                final(self)@ == s2 && ev@ == ev2
            }),
    {
        let w = self.bits.width();
        if self.stack.len() < w {
            return StepEvent::Faulted { fault: RuntimeFault::StackUnderflow };
        }
        let v = pop_val(&mut self.stack, &self.bits);
        self.pc = line.next;
        proof {
            assert(self@ =~= spec_output_value(old(self)@, line@).0);
        }
        StepEvent::Output { value: v }
    }

    fn exec_input_to_addr(&mut self, line: &InstrLine) -> (ev: StepEvent)
        requires
            old(self).inv(),
        ensures
            final(self).inv(),
            ({
                let (s2, ev2) = spec_input_to_addr(old(self)@, line@);
                final(self)@ == s2 && ev@ == ev2
            }),
    {
        let w = self.bits.width();
        let len = self.stack.len();
        if len < w {
            return StepEvent::Faulted { fault: RuntimeFault::StackUnderflow };
        }
        let a = read_val(&self.stack, &self.bits, len - w);
        let t = (self.fp as i128) + (a as i128);
        if t < 0 || t + (w as i128) > (usize::MAX as i128) {
            return StepEvent::Faulted { fault: RuntimeFault::AddressOverflow };
        }
        self.stack.truncate(len - w);
        self.pending = Some(t as usize);
        self.pc = line.next;
        proof {
            assert(self@ =~= spec_input_to_addr(old(self)@, line@).0);
        }
        StepEvent::NeedInput
    }

    fn exec_minusify(&mut self, line: &InstrLine) -> (ev: StepEvent)
        requires
            old(self).inv(),
        ensures
            final(self).inv(),
            ({
                let (s2, ev2) = spec_minusify(old(self)@, line@);
                final(self)@ == s2 && ev@ == ev2
            }),
    {
        let w = self.bits.width();
        if self.stack.len() < w {
            return StepEvent::Faulted { fault: RuntimeFault::StackUnderflow };
        }
        let v = pop_val(&mut self.stack, &self.bits);
        let n = crate::data::wrap_sub(0, v);
        proof {
            crate::encoding::lemma_sign_bytes_of_wrap64(0 - v as int, self.bits.spec_width());
        }
        push_val(&mut self.stack, &self.bits, n);
        self.pc = line.next;
        proof {
            assert(self@ =~= spec_minusify(old(self)@, line@).0);
        }
        StepEvent::Ran
    }

    fn exec_is_odd(&mut self, line: &InstrLine) -> (ev: StepEvent)
        requires
            old(self).inv(),
        ensures
            final(self).inv(),
            ({
                let (s2, ev2) = spec_is_odd(old(self)@, line@);
                final(self)@ == s2 && ev@ == ev2
            }),
    {
        let w = self.bits.width();
        if self.stack.len() < w {
            return StepEvent::Faulted { fault: RuntimeFault::StackUnderflow };
        }
        let v = pop_val(&mut self.stack, &self.bits);
        let flag: i64 = if crate::data::is_odd(v) {
            1
        } else {
            0
        };
        push_val(&mut self.stack, &self.bits, flag);
        self.pc = line.next;
        proof {
            assert(self@ =~= spec_is_odd(old(self)@, line@).0);
        }
        StepEvent::Ran
    }

    fn exec_binop(&mut self, line: &InstrLine) -> (ev: StepEvent)
        requires
            old(self).inv(),
            line@.op == OpCode::OpAdd || line@.op == OpCode::OpSubtract || line@.op
                == OpCode::OpMultiply || line@.op == OpCode::OpDivide || line@.op
                == OpCode::CompareEq || line@.op == OpCode::CompareNotEq || line@.op
                == OpCode::CompareLT || line@.op == OpCode::CompareGT || line@.op
                == OpCode::CompareLTEq || line@.op == OpCode::CompareGTEq,
        ensures
            final(self).inv(),
            ({
                let (s2, ev2) = spec_binop(old(self)@, line@);
                final(self)@ == s2 && ev@ == ev2
            }),
    {
        let w = self.bits.width();
        let len = self.stack.len();
        if len < 2 * w {
            return StepEvent::Faulted { fault: RuntimeFault::StackUnderflow };
        }
        let r = read_val(&self.stack, &self.bits, len - w);
        let l = read_val(&self.stack, &self.bits, len - 2 * w);
        let is_div = match line.op {
            OpCode::OpDivide => true,
            _ => false,
        };
        if is_div && r == 0 {
            return StepEvent::Faulted { fault: RuntimeFault::DivisionByZero };
        }
        let v: i64 = match line.op {
            OpCode::OpAdd => crate::data::wrap_add(l, r),
            OpCode::OpSubtract => crate::data::wrap_sub(l, r),
            OpCode::OpMultiply => crate::data::wrap_mul(l, r),
            OpCode::OpDivide => crate::data::div_trunc(l, r),
            OpCode::CompareEq => if l == r {
                1
            } else {
                0
            },
            OpCode::CompareNotEq => if l != r {
                1
            } else {
                0
            },
            OpCode::CompareLT => if l < r {
                1
            } else {
                0
            },
            OpCode::CompareGT => if l > r {
                1
            } else {
                0
            },
            OpCode::CompareLTEq => if l <= r {
                1
            } else {
                0
            },
            _ => if l >= r {
                1
            } else {
                0
            },
        };
        proof {
            crate::encoding::lemma_sign_bytes_of_wrap64(
                spec_binop_val(line@.op, l as int, r as int),
                self.bits.spec_width(),
            );
        }
        self.stack.truncate(len - 2 * w);
        proof {
            assert(self.stack@ =~= old(self).stack@.take(len - 2 * w));
        }
        push_val(&mut self.stack, &self.bits, v);
        self.pc = line.next;
        proof {
            assert(self@ =~= spec_binop(old(self)@, line@).0);
        }
        StepEvent::Ran
    }

    fn exec_call(&mut self, line: &InstrLine) -> (ev: StepEvent)
        requires
            old(self).inv(),
            line@.args.len() >= 1,
        ensures
            final(self).inv(),
            ({
                let (s2, ev2) = spec_call(old(self)@, line@);
                final(self)@ == s2 && ev@ == ev2
            }),
    {
        let id = line.args[0];
        if id < 0 || (id as usize) >= self.procedures.len() {
            return StepEvent::Faulted { fault: RuntimeFault::ProcOutOfRange { id } };
        }
        let idx = id as usize;
        push_u64(&mut self.stack, line.next as u64);
        push_u64(&mut self.stack, self.fp as u64);
        push_u64(&mut self.stack, self.cur_proc as u64);
        let top = self.stack.len();
        let start = self.procedures[idx].start_pos;
        self.procedures[idx] = Procedure { start_pos: start, frame_ptr: top };
        self.cur_proc = idx;
        self.pc = start;
        proof {
            crate::encoding::lemma_le_bytes_len(line@.next as nat, 8);
            crate::encoding::lemma_le_bytes_len(old(self)@.fp, 8);
            crate::encoding::lemma_le_bytes_len(old(self)@.cur, 8);
            assert(self@.procs =~= spec_call(old(self)@, line@).0.procs);
            assert(self@ =~= spec_call(old(self)@, line@).0);
        }
        StepEvent::Ran
    }

    fn exec_return(&mut self, line: &InstrLine) -> (ev: StepEvent)
        requires
            old(self).inv(),
        ensures
            final(self).inv(),
            ({
                let (s2, ev2) = spec_return(old(self)@, line@);
                final(self)@ == s2 && ev@ == ev2
            }),
    {
        if self.cur_proc == 0 {
            return StepEvent::Halted;
        }
        if self.cur_proc >= self.procedures.len() {
            return StepEvent::Faulted { fault: RuntimeFault::CorruptLinkage };
        }
        let fpr = self.procedures[self.cur_proc].frame_ptr;
        let tl = if fpr <= self.stack.len() {
            fpr
        } else {
            self.stack.len()
        };
        if tl < 24 {
            return StepEvent::Faulted { fault: RuntimeFault::StackUnderflow };
        }
        proof {
            let pre = old(self)@;
            let t = if pre.procs[pre.cur as int].frame_ptr as nat <= pre.stack.len() {
                pre.stack.take(pre.procs[pre.cur as int].frame_ptr as int)
            } else {
                pre.stack
            };
            assert(t.subrange(t.len() - 8, t.len() as int) =~= pre.stack.subrange(
                tl - 8,
                tl as int,
            ));
            assert(t.subrange(t.len() - 16, t.len() - 8) =~= pre.stack.subrange(
                tl - 16,
                tl - 8,
            ));
            assert(t.subrange(t.len() - 24, t.len() - 16) =~= pre.stack.subrange(
                tl - 24,
                tl - 16,
            ));
        }
        let cur2 = le_to_u64(self.stack.as_slice(), tl - 8, 8);
        let fp2 = le_to_u64(self.stack.as_slice(), tl - 16, 8);
        let pc2 = le_to_u64(self.stack.as_slice(), tl - 24, 8);
        if cur2 > (usize::MAX as u64) || fp2 > (usize::MAX as u64) || pc2 > (usize::MAX
            as u64) {
            return StepEvent::Faulted { fault: RuntimeFault::CorruptLinkage };
        }
        self.stack.truncate(tl - 24);
        self.pc = pc2 as usize;
        self.fp = fp2 as usize;
        self.cur_proc = cur2 as usize;
        proof {
            let pre = old(self)@;
            let t = if pre.procs[pre.cur as int].frame_ptr as nat <= pre.stack.len() {
                pre.stack.take(pre.procs[pre.cur as int].frame_ptr as int)
            } else {
                pre.stack
            };
            assert(self.stack@ =~= t.take(t.len() - 24));
        }
        StepEvent::Ran
    }

    fn exec_jump_if_false(&mut self, line: &InstrLine) -> (ev: StepEvent)
        requires
            old(self).inv(),
            line@.target matches Some(t) && 0 <= t <= usize::MAX,
        ensures
            final(self).inv(),
            ({
                let (s2, ev2) = spec_jump_if_false(old(self)@, line@);
                final(self)@ == s2 && ev@ == ev2
            }),
    {
        let w = self.bits.width();
        if self.stack.len() < w {
            return StepEvent::Faulted { fault: RuntimeFault::StackUnderflow };
        }
        let v = pop_val(&mut self.stack, &self.bits);
        if v == 0 {
            self.pc = match line.target {
                Some(t) => t,
                None => vstd::pervasive::unreached(),
            };
        } else {
            self.pc = line.next;
        }
        proof {
            assert(self@ =~= spec_jump_if_false(old(self)@, line@).0);
        }
        StepEvent::Ran
    }

    fn exec_entry(&mut self, line: &InstrLine) -> (ev: StepEvent)
        requires
            old(self).inv(),
            line@.args.len() >= 3,
        ensures
            final(self).inv(),
            ({
                let (s2, ev2) = spec_entry(old(self)@, line@);
                final(self)@ == s2 && ev@ == ev2
            }),
    {
        let id = line.args[1];
        if id < 0 || (id as usize) >= self.procedures.len() {
            return StepEvent::Faulted { fault: RuntimeFault::ProcOutOfRange { id } };
        }
        let reserved = line.args[2];
        if reserved < 0 {
            return StepEvent::Faulted { fault: RuntimeFault::NegativeOperand { value: reserved } };
        }
        let fp2 = self.procedures[id as usize].frame_ptr;
        let n = match fp2.checked_add(reserved as usize) {
            Some(n) => n,
            None => {
                return StepEvent::Faulted { fault: RuntimeFault::AddressOverflow };
            },
        };
        resize_zero(&mut self.stack, n);
        self.fp = fp2;
        self.pc = line.next;
        proof {
            assert(self@ =~= spec_entry(old(self)@, line@).0);
        }
        StepEvent::Ran
    }

    fn exec_pop(&mut self, line: &InstrLine) -> (ev: StepEvent)
        requires
            old(self).inv(),
        ensures
            final(self).inv(),
            ({
                let (s2, ev2) = spec_pop_op(old(self)@, line@);
                final(self)@ == s2 && ev@ == ev2
            }),
    {
        let w = self.bits.width();
        if self.stack.len() < w {
            return StepEvent::Faulted { fault: RuntimeFault::StackUnderflow };
        }
        let _ = pop_val(&mut self.stack, &self.bits);
        self.pc = line.next;
        proof {
            assert(self@ =~= spec_pop_op(old(self)@, line@).0);
        }
        StepEvent::Ran
    }

    fn exec_swap(&mut self, line: &InstrLine) -> (ev: StepEvent)
        requires
            old(self).inv(),
        ensures
            final(self).inv(),
            ({
                let (s2, ev2) = spec_swap(old(self)@, line@);
                final(self)@ == s2 && ev@ == ev2
            }),
    {
        let w = self.bits.width();
        let len = self.stack.len();
        if len < w {
            return StepEvent::Faulted { fault: RuntimeFault::StackUnderflow };
        }
        let a = read_val(&self.stack, &self.bits, len - w);
        if a < 0 || (a as i128) > (usize::MAX as i128) {
            return StepEvent::Faulted { fault: RuntimeFault::AddressOverflow };
        }
        let au = a as usize;
        if au > len - w || w > (len - w) - au {
            return StepEvent::Faulted { fault: RuntimeFault::StackBounds { addr: au } };
        }
        let v = read_val(&self.stack, &self.bits, au);
        self.stack.truncate(len - w);
        proof {
            let popped = old(self).stack@.take(len - w);
            assert(self.stack@ =~= popped);
            assert(popped.subrange(au as int, au + w) =~= old(self).stack@.subrange(
                au as int,
                au + w,
            ));
        }
        push_val(&mut self.stack, &self.bits, v);
        self.pc = line.next;
        proof {
            assert(self@ =~= spec_swap(old(self)@, line@).0);
        }
        StepEvent::Ran
    }

    /// Executes the instruction at `pc`: exactly one step of `spec_step`.
    pub fn step(&mut self) -> (ev: StepEvent)
        requires
            old(self).inv(),
        ensures
            final(self).inv(),
            ({
                let (s2, ev2) = spec_step(old(self)@);
                final(self)@ == s2 && ev@ == ev2
            }),
    {
        if self.pending.is_some() {
            return StepEvent::NeedInput;
        }
        let line = match decode_instr(self.program.as_slice(), self.pc) {
            Ok(line) => line,
            Err(e) => {
                return StepEvent::Malformed { error: e };
            },
        };
        proof {
            lemma_decode_next_bounds(self.program@, self.pc as nat, line@);
        }
        match line.op {
            OpCode::PushValueLocalVar => {
                let base = self.fp;
                self.exec_push_value(&line, base)
            },
            OpCode::PushValueMainVar => {
                let base = self.procedures[0].frame_ptr;
                self.exec_push_value(&line, base)
            },
            OpCode::PushValueGlobalVar => {
                let p = line.args[1];
                if p < 0 || (p as usize) >= self.procedures.len() {
                    return StepEvent::Faulted { fault: RuntimeFault::ProcOutOfRange { id: p } };
                }
                let base = self.procedures[p as usize].frame_ptr;
                self.exec_push_value(&line, base)
            },
            OpCode::PushAddressLocalVar => {
                let base = self.fp;
                self.exec_push_address(&line, base)
            },
            OpCode::PushAddressMainVar => {
                let base = self.procedures[0].frame_ptr;
                self.exec_push_address(&line, base)
            },
            OpCode::PushAddressGlobalVar => {
                let p = line.args[1];
                if p < 0 || (p as usize) >= self.procedures.len() {
                    return StepEvent::Faulted { fault: RuntimeFault::ProcOutOfRange { id: p } };
                }
                let base = self.procedures[p as usize].frame_ptr;
                self.exec_push_address(&line, base)
            },
            OpCode::PushConstant => self.exec_push_constant(&line),
            OpCode::StoreValue => self.exec_store_value(&line),
            OpCode::OutputValue => self.exec_output_value(&line),
            OpCode::InputToAddr => self.exec_input_to_addr(&line),
            OpCode::Minusify => self.exec_minusify(&line),
            OpCode::IsOdd => self.exec_is_odd(&line),
            OpCode::OpAdd => self.exec_binop(&line),
            OpCode::OpSubtract => self.exec_binop(&line),
            OpCode::OpMultiply => self.exec_binop(&line),
            OpCode::OpDivide => self.exec_binop(&line),
            OpCode::CompareEq => self.exec_binop(&line),
            OpCode::CompareNotEq => self.exec_binop(&line),
            OpCode::CompareLT => self.exec_binop(&line),
            OpCode::CompareGT => self.exec_binop(&line),
            OpCode::CompareLTEq => self.exec_binop(&line),
            OpCode::CompareGTEq => self.exec_binop(&line),
            OpCode::CallProc => self.exec_call(&line),
            OpCode::ReturnProc => self.exec_return(&line),
            OpCode::Jump => {
                self.pc = match line.target {
                    Some(t) => t,
                    None => vstd::pervasive::unreached(),
                };
                proof {
                    assert(self@ =~= spec_exec_instr(old(self)@, line@).0);
                }
                StepEvent::Ran
            },
            OpCode::JumpIfFalse => self.exec_jump_if_false(&line),
            OpCode::EntryProc => self.exec_entry(&line),
            OpCode::PutString => {
                self.pc = line.next;
                match line.text {
                    Some(bytes) => StepEvent::OutputText { bytes },
                    None => vstd::pervasive::unreached(),
                }
            },
            OpCode::Pop => self.exec_pop(&line),
            OpCode::Swap => self.exec_swap(&line),
            OpCode::EndOfCode => StepEvent::Halted,
            OpCode::Put => StepEvent::Faulted {
                fault: RuntimeFault::Unimplemented { byte: line.byte },
            },
            OpCode::Get => StepEvent::Faulted {
                fault: RuntimeFault::Unimplemented { byte: line.byte },
            },
            OpCode::OpAddAddr => StepEvent::Faulted {
                fault: RuntimeFault::Unimplemented { byte: line.byte },
            },
        }
    }

    /// Feeds a number to a machine waiting after `InputToAddr`. Returns
    /// whether the machine was waiting; when it was not, nothing changes.
    pub fn give_input(&mut self, v: i64) -> (r: bool)
        requires
            old(self).inv(),
        ensures
            final(self).inv(),
            final(self)@ == spec_feed(old(self)@, v),
            r == (old(self)@.pending is Some),
    {
        match self.pending {
            Some(t) => {
                store_val(&mut self.stack, &self.bits, t, v);
                self.pending = None;
                proof {
                    assert(self@ =~= spec_feed(old(self)@, v));
                }
                true
            },
            None => false,
        }
    }

    /// Runs up to `fuel` steps, feeding `inputs` in order whenever the
    /// program asks for one: the collected output and why the run ended.
    #[verifier::rlimit(100)]
    pub fn run(&mut self, inputs: &Vec<i64>, fuel: usize) -> (r: (Vec<OutputItem>, RunOutcome))
        requires
            old(self).inv(),
        ensures
            final(self).inv(),
            ({
                let (s3, outs, oc) = spec_run(old(self)@, inputs@, fuel as nat);
                final(self)@ == s3 && spec_items_view(r.0@) == outs && r.1 == oc
            }),
    {
        let mut outs: Vec<OutputItem> = Vec::new();
        let mut used: usize = 0;
        let mut left: usize = fuel;
        let ghost goal = spec_run(old(self)@, inputs@, fuel as nat);
        proof {
            assert(inputs@.skip(0) =~= inputs@);
        }
        while left > 0
            invariant
                self.inv(),
                used <= inputs@.len(),
                ({
                    let cur = spec_run(self@, inputs@.skip(used as int), left as nat);
                    goal.0 == cur.0 && goal.1 == spec_items_view(outs@) + cur.1 && goal.2
                        == cur.2
                }),
                goal == spec_run(old(self)@, inputs@, fuel as nat),
            decreases left,
        {
            let ghost pre_iter = self@;
            let ev = self.step();
            match ev {
                StepEvent::Ran => {
                    left = left - 1;
                },
                StepEvent::Output { value } => {
                    proof {
                        let cur = spec_run(pre_iter, inputs@.skip(used as int), left as nat);
                        let t = spec_run(
                            self@,
                            inputs@.skip(used as int),
                            (left - 1) as nat,
                        );
                        assert(spec_items_view(outs@.push(OutputItem::Number(value)))
                            =~= spec_items_view(outs@) + seq![OutputItemV::Number(value as int)]);
                        assert(spec_items_view(outs@) + cur.1 =~= spec_items_view(
                            outs@.push(OutputItem::Number(value)),
                        ) + t.1);
                    }
                    outs.push(OutputItem::Number(value));
                    left = left - 1;
                },
                StepEvent::OutputText { bytes } => {
                    proof {
                        let cur = spec_run(pre_iter, inputs@.skip(used as int), left as nat);
                        let t = spec_run(
                            self@,
                            inputs@.skip(used as int),
                            (left - 1) as nat,
                        );
                        assert(spec_items_view(outs@.push(OutputItem::Text(bytes)))
                            =~= spec_items_view(outs@) + seq![OutputItemV::Text(bytes@)]);
                        assert(spec_items_view(outs@) + cur.1 =~= spec_items_view(
                            outs@.push(OutputItem::Text(bytes)),
                        ) + t.1);
                    }
                    let moved = bytes;
                    outs.push(OutputItem::Text(moved));
                    left = left - 1;
                },
                StepEvent::NeedInput => {
                    if used >= inputs.len() {
                        proof {
                            assert(inputs@.skip(used as int).len() == 0);
                            assert(spec_items_view(outs@) + Seq::<OutputItemV>::empty()
                                =~= spec_items_view(outs@));
                        }
                        return (outs, RunOutcome::OutOfInput);
                    }
                    let v = inputs[used];
                    let _ = self.give_input(v);
                    proof {
                        assert(inputs@.skip(used as int)[0] == inputs@[used as int]);
                        assert(inputs@.skip(used as int).skip(1) =~= inputs@.skip(
                            used + 1,
                        ));
                    }
                    used = used + 1;
                    left = left - 1;
                },
                StepEvent::Halted => {
                    proof {
                        assert(spec_items_view(outs@) + Seq::<OutputItemV>::empty()
                            =~= spec_items_view(outs@));
                    }
                    return (outs, RunOutcome::Halted);
                },
                StepEvent::Malformed { error } => {
                    proof {
                        assert(spec_items_view(outs@) + Seq::<OutputItemV>::empty()
                            =~= spec_items_view(outs@));
                    }
                    return (outs, RunOutcome::Malformed { error });
                },
                StepEvent::Faulted { fault } => {
                    proof {
                        assert(spec_items_view(outs@) + Seq::<OutputItemV>::empty()
                            =~= spec_items_view(outs@));
                    }
                    return (outs, RunOutcome::Faulted { fault });
                },
            }
        }
        proof {
            assert(spec_items_view(outs@) + Seq::<OutputItemV>::empty() =~= spec_items_view(
                outs@,
            ));
        }
        (outs, RunOutcome::OutOfFuel)
    }
}

impl crate::pl0_vm::PL0VM {
    /// Builds the execution machine: validates the header, loads the
    /// procedure table and the constant pool, and sets the initial state
    /// at procedure zero's entry point with an empty stack.
    pub fn start(&self) -> (r: Result<Machine, FormatError>)
        ensures
            ({
                let prog = self.program@;
                let f = crate::pl0_vm::spec_width_field(prog);
                let cnt = crate::pl0_vm::spec_header_count(prog);
                let scan = crate::pl0_vm::spec_scan(
                    prog,
                    4,
                    0,
                    cnt,
                    crate::pl0_vm::spec_empty_table(cnt),
                );
                if prog.len() < 4 {
                    r == Err::<Machine, FormatError>(FormatError::Truncated { at: 0 })
                } else if !(f == 2 || f == 4 || f == 8) || f != self.bits.spec_width() {
                    r == Err::<Machine, FormatError>(
                        FormatError::InvalidWidth { field: f as u16 },
                    )
                } else {
                    match scan {
                        Err(e) => r == Err::<Machine, FormatError>(e),
                        Ok(sc) => {
                            if cnt == 0 {
                                r == Err::<Machine, FormatError>(FormatError::NoProcedures)
                            } else {
                                r matches Ok(m) && {
                                    &&& m.inv()
                                    &&& m@.program == prog
                                    &&& m@.width == self.bits.spec_width()
                                    &&& m@.procs.len() == cnt
                                    &&& forall|i: int|
                                        0 <= i < cnt ==> sc.1[i] == Some(
                                            (#[trigger] m@.procs[i]).start_pos,
                                        ) && m@.procs[i].frame_ptr == 0
                                    &&& m@.consts == crate::pl0_vm::spec_pool(
                                        prog,
                                        sc.0,
                                        self.bits.spec_width(),
                                    )
                                    &&& m@.stack == Seq::<u8>::empty()
                                    &&& m@.pc == m@.procs[0].start_pos
                                    &&& m@.fp == 0
                                    &&& m@.cur == 0
                                    &&& m@.pending is None
                                }
                            }
                        },
                    }
                }
            }),
    {
        let len: usize = self.program.len();
        if len < 4 {
            return Err(FormatError::Truncated { at: 0 });
        }
        proof {
            lemma_pow256(0);
            crate::encoding::lemma_le_nat_bound(self.program@.subrange(2, 4));
        }
        let field: u16 = le_to_u64(self.program.as_slice(), 2, 2) as u16;
        let widthok = field == 2 || field == 4 || field == 8;
        if !widthok || (field as usize) != self.data_size() {
            return Err(FormatError::InvalidWidth { field });
        }
        let (procedures, constants) = match self.load_data() {
            Ok(pair) => pair,
            Err(e) => {
                return Err(e);
            },
        };
        if procedures.len() == 0 {
            return Err(FormatError::NoProcedures);
        }
        let pc0 = procedures[0].start_pos;
        let m = Machine {
            program: vstd::slice::slice_to_vec(self.program.as_slice()),
            bits: self.bits,
            procedures,
            constants,
            stack: Vec::new(),
            pc: pc0,
            fp: 0,
            cur_proc: 0,
            pending: None,
        };
        proof {
            assert(m@.consts =~= crate::pl0_vm::spec_pool(
                self.program@,
                crate::pl0_vm::spec_scan(
                    self.program@,
                    4,
                    0,
                    crate::pl0_vm::spec_header_count(self.program@),
                    crate::pl0_vm::spec_empty_table(
                        crate::pl0_vm::spec_header_count(self.program@),
                    ),
                )->Ok_0.0,
                self.bits.spec_width(),
            ));
        }
        Ok(m)
    }
}

} // verus!
