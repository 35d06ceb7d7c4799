use pl0vm::data::{wrap_add, wrap_mul, wrap_sub, Data};
use pl0vm::errors::RuntimeFault;
use pl0vm::machine::{Machine, OutputItem, RunOutcome, StepEvent};
use pl0vm::opcodes::OpCode;
use pl0vm::pl0_vm::PL0VM;

fn hdr(count: u16, width: u16) -> Vec<u8> {
    let mut v = Vec::new();
    v.extend_from_slice(&count.to_le_bytes());
    v.extend_from_slice(&width.to_le_bytes());
    v
}

fn arg(v: &mut Vec<u8>, x: i16) {
    v.extend_from_slice(&x.to_le_bytes());
}

fn op(v: &mut Vec<u8>, o: OpCode) {
    v.push(o.byte());
}

fn entry(v: &mut Vec<u8>, len: i16, id: i16, reserved: i16) {
    op(v, OpCode::EntryProc);
    arg(v, len);
    arg(v, id);
    arg(v, reserved);
}

fn machine_of(bytes: Vec<u8>) -> Machine {
    let mut vm = PL0VM::new(false);
    vm.load(bytes).expect("load");
    vm.start().expect("start")
}

fn run_program(bytes: Vec<u8>, inputs: Vec<i64>) -> (Vec<OutputItem>, RunOutcome) {
    let mut m = machine_of(bytes);
    m.run(&inputs, 10_000)
}

/// A one-procedure program of the given width: the body instructions,
/// then the constant pool records.
fn simple(width: u16, reserved: i16, body: &[u8], pool: &[u8]) -> Vec<u8> {
    let mut bytes = hdr(1, width);
    entry(&mut bytes, 7 + body.len() as i16, 0, reserved);
    bytes.extend_from_slice(body);
    bytes.extend_from_slice(pool);
    bytes
}

#[test]
fn prints_a_constant_and_halts() {
    // Header {procCount=1, width=4}; EntryProc, PushConstant 0,
    // OutputValue, ReturnProc; pool [42]: prints 42, halts normally.
    let mut body = vec![0u8; 0];
    op(&mut body, OpCode::PushConstant);
    arg(&mut body, 0);
    op(&mut body, OpCode::OutputValue);
    op(&mut body, OpCode::ReturnProc);
    let bytes = simple(4, 0, &body, &42i32.to_le_bytes());
    let (outs, oc) = run_program(bytes, vec![]);
    assert_eq!(outs, vec![OutputItem::Number(42)]);
    assert_eq!(oc, RunOutcome::Halted);
}

#[test]
fn prints_wide_and_narrow_constants() {
    let mut body = vec![0u8; 0];
    op(&mut body, OpCode::PushConstant);
    arg(&mut body, 0);
    op(&mut body, OpCode::OutputValue);
    op(&mut body, OpCode::ReturnProc);
    let w8 = simple(8, 0, &body, &(-5_000_000_000i64).to_le_bytes());
    assert_eq!(
        run_program(w8, vec![]).0,
        vec![OutputItem::Number(-5_000_000_000)]
    );
    let w2 = simple(2, 0, &body, &(-123i16).to_le_bytes());
    assert_eq!(run_program(w2, vec![]).0, vec![OutputItem::Number(-123)]);
}

#[test]
fn arithmetic_wraps_to_width() {
    // Width 2: 0x7FFF + 1 wraps to -0x8000.
    let mut body = vec![0u8; 0];
    op(&mut body, OpCode::PushConstant);
    arg(&mut body, 0);
    op(&mut body, OpCode::PushConstant);
    arg(&mut body, 1);
    op(&mut body, OpCode::OpAdd);
    op(&mut body, OpCode::OutputValue);
    op(&mut body, OpCode::ReturnProc);
    let mut pool = vec![0u8; 0];
    pool.extend_from_slice(&0x7FFFi16.to_le_bytes());
    pool.extend_from_slice(&1i16.to_le_bytes());
    let (outs, oc) = run_program(simple(2, 0, &body, &pool), vec![]);
    assert_eq!(outs, vec![OutputItem::Number(-0x8000)]);
    assert_eq!(oc, RunOutcome::Halted);
}

#[test]
fn arithmetic_results() {
    // left pushed first: 7 - 3, 6 * 7, -7 / 2, 7 / -2.
    for (a, b, o, want) in [
        (7i32, 3i32, OpCode::OpSubtract, 4i64),
        (6, 7, OpCode::OpMultiply, 42),
        (-7, 2, OpCode::OpDivide, -3),
        (7, -2, OpCode::OpDivide, -3),
        (-7, -2, OpCode::OpDivide, 3),
    ] {
        let mut body = vec![0u8; 0];
        op(&mut body, OpCode::PushConstant);
        arg(&mut body, 0);
        op(&mut body, OpCode::PushConstant);
        arg(&mut body, 1);
        op(&mut body, o);
        op(&mut body, OpCode::OutputValue);
        op(&mut body, OpCode::ReturnProc);
        let mut pool = vec![0u8; 0];
        pool.extend_from_slice(&a.to_le_bytes());
        pool.extend_from_slice(&b.to_le_bytes());
        let (outs, oc) = run_program(simple(4, 0, &body, &pool), vec![]);
        assert_eq!(outs, vec![OutputItem::Number(want)], "{a} {b:?}");
        assert_eq!(oc, RunOutcome::Halted);
    }
}

#[test]
fn comparisons_push_canonical_booleans() {
    for (a, b, o, want) in [
        (3i32, 3i32, OpCode::CompareEq, 1i64),
        (3, 4, OpCode::CompareEq, 0),
        (3, 4, OpCode::CompareNotEq, 1),
        (3, 4, OpCode::CompareLT, 1),
        (4, 3, OpCode::CompareLT, 0),
        (4, 3, OpCode::CompareGT, 1),
        (3, 3, OpCode::CompareLTEq, 1),
        (3, 3, OpCode::CompareGTEq, 1),
        (2, 3, OpCode::CompareGTEq, 0),
    ] {
        let mut body = vec![0u8; 0];
        op(&mut body, OpCode::PushConstant);
        arg(&mut body, 0);
        op(&mut body, OpCode::PushConstant);
        arg(&mut body, 1);
        op(&mut body, o);
        op(&mut body, OpCode::OutputValue);
        op(&mut body, OpCode::ReturnProc);
        let mut pool = vec![0u8; 0];
        pool.extend_from_slice(&a.to_le_bytes());
        pool.extend_from_slice(&b.to_le_bytes());
        let (outs, _) = run_program(simple(4, 0, &body, &pool), vec![]);
        assert_eq!(outs, vec![OutputItem::Number(want)], "{a} {b} {o:?}");
    }
}

#[test]
fn minusify_and_is_odd() {
    for (c, o, want) in [
        (5i32, OpCode::Minusify, -5i64),
        (-5, OpCode::Minusify, 5),
        (3, OpCode::IsOdd, 1),
        (4, OpCode::IsOdd, 0),
        (-3, OpCode::IsOdd, 1),
        (-4, OpCode::IsOdd, 0),
        (0, OpCode::IsOdd, 0),
    ] {
        let mut body = vec![0u8; 0];
        op(&mut body, OpCode::PushConstant);
        arg(&mut body, 0);
        op(&mut body, o);
        op(&mut body, OpCode::OutputValue);
        op(&mut body, OpCode::ReturnProc);
        let (outs, _) = run_program(simple(4, 0, &body, &c.to_le_bytes()), vec![]);
        assert_eq!(outs, vec![OutputItem::Number(want)], "{c} {o:?}");
    }
}

#[test]
fn store_and_read_local_variable() {
    // Reserve 8 bytes; store 123 at absolute address 0 (= fp), then read
    // it back both by value and through an address dereference.
    let mut body = vec![0u8; 0];
    op(&mut body, OpCode::PushAddressLocalVar);
    arg(&mut body, 0);
    op(&mut body, OpCode::PushConstant);
    arg(&mut body, 0);
    op(&mut body, OpCode::StoreValue);
    op(&mut body, OpCode::PushValueLocalVar);
    arg(&mut body, 0);
    op(&mut body, OpCode::OutputValue);
    op(&mut body, OpCode::PushAddressLocalVar);
    arg(&mut body, 0);
    op(&mut body, OpCode::Swap);
    op(&mut body, OpCode::OutputValue);
    op(&mut body, OpCode::ReturnProc);
    let (outs, oc) = run_program(simple(4, 8, &body, &123i32.to_le_bytes()), vec![]);
    assert_eq!(
        outs,
        vec![OutputItem::Number(123), OutputItem::Number(123)]
    );
    assert_eq!(oc, RunOutcome::Halted);
}

#[test]
fn put_string_prints_and_pop_discards() {
    let mut body = vec![0u8; 0];
    op(&mut body, OpCode::PutString);
    body.extend_from_slice(b"ok");
    body.push(0);
    op(&mut body, OpCode::PushConstant);
    arg(&mut body, 0);
    op(&mut body, OpCode::Pop);
    op(&mut body, OpCode::ReturnProc);
    let (outs, oc) = run_program(simple(4, 0, &body, &9i32.to_le_bytes()), vec![]);
    assert_eq!(outs, vec![OutputItem::Text(b"ok".to_vec())]);
    assert_eq!(oc, RunOutcome::Halted);
}

#[test]
fn jump_skips_and_jump_if_false_branches() {
    // Jump over one OutputValue; then a conditional branch taken on 0.
    let mut body = vec![0u8; 0];
    op(&mut body, OpCode::PushConstant);
    arg(&mut body, 0); // value 5, printed at the end if not skipped
    op(&mut body, OpCode::Jump);
    arg(&mut body, 1); // skip the OutputValue
    op(&mut body, OpCode::OutputValue);
    op(&mut body, OpCode::PushConstant);
    arg(&mut body, 1); // 0: false
    op(&mut body, OpCode::JumpIfFalse);
    arg(&mut body, 1); // skip the next OutputValue
    op(&mut body, OpCode::OutputValue);
    op(&mut body, OpCode::Pop);
    op(&mut body, OpCode::ReturnProc);
    let mut pool = vec![0u8; 0];
    pool.extend_from_slice(&5i32.to_le_bytes());
    pool.extend_from_slice(&0i32.to_le_bytes());
    let (outs, oc) = run_program(simple(4, 0, &body, &pool), vec![]);
    assert_eq!(outs, vec![]);
    assert_eq!(oc, RunOutcome::Halted);
}

#[test]
fn analyzer_target_is_engine_destination() {
    let mut bytes = hdr(1, 2);
    entry(&mut bytes, 11, 0, 0);
    op(&mut bytes, OpCode::Jump);
    arg(&mut bytes, 0);
    op(&mut bytes, OpCode::ReturnProc);
    let mut vm = PL0VM::new(false);
    vm.load(bytes).expect("load");
    let a = vm.analyze().expect("analyze");
    let printed = a.instrs[1].target.expect("target");
    let mut m = vm.start().expect("start");
    assert_eq!(m.step(), StepEvent::Ran); // EntryProc
    assert_eq!(m.step(), StepEvent::Ran); // Jump
    assert_eq!(m.pc, printed);
}

#[test]
fn input_is_stored_at_frame_address() {
    let mut body = vec![0u8; 0];
    op(&mut body, OpCode::PushConstant);
    arg(&mut body, 0); // address 0, frame-relative
    op(&mut body, OpCode::InputToAddr);
    op(&mut body, OpCode::PushValueLocalVar);
    arg(&mut body, 0);
    op(&mut body, OpCode::OutputValue);
    op(&mut body, OpCode::ReturnProc);
    let (outs, oc) = run_program(
        simple(4, 8, &body, &0i32.to_le_bytes()),
        vec![77],
    );
    assert_eq!(outs, vec![OutputItem::Number(77)]);
    assert_eq!(oc, RunOutcome::Halted);
    // Without input the run reports it stopped waiting.
    let mut body2 = vec![0u8; 0];
    op(&mut body2, OpCode::PushConstant);
    arg(&mut body2, 0);
    op(&mut body2, OpCode::InputToAddr);
    op(&mut body2, OpCode::ReturnProc);
    let (_, oc2) = run_program(simple(4, 8, &body2, &0i32.to_le_bytes()), vec![]);
    assert_eq!(oc2, RunOutcome::OutOfInput);
}

#[test]
fn give_input_feeds_a_waiting_machine() {
    let mut body = vec![0u8; 0];
    op(&mut body, OpCode::PushConstant);
    arg(&mut body, 0);
    op(&mut body, OpCode::InputToAddr);
    op(&mut body, OpCode::PushValueLocalVar);
    arg(&mut body, 0);
    op(&mut body, OpCode::OutputValue);
    op(&mut body, OpCode::ReturnProc);
    let mut m = machine_of(simple(4, 8, &body, &0i32.to_le_bytes()));
    assert!(!m.give_input(1)); // nothing waiting yet
    assert_eq!(m.step(), StepEvent::Ran); // EntryProc
    assert_eq!(m.step(), StepEvent::Ran); // PushConstant
    assert_eq!(m.step(), StepEvent::NeedInput); // InputToAddr
    assert_eq!(m.step(), StepEvent::NeedInput); // still waiting
    assert!(m.give_input(42));
    assert_eq!(m.step(), StepEvent::Ran); // PushValueLocalVar
    assert_eq!(m.step(), StepEvent::Output { value: 42 });
}

#[test]
fn call_and_return_restore_caller_state() {
    // Two nesting depths: procedure 0 calls 1, which calls 2. After each
    // return, pc, fp, curProc and the stack length match the call site.
    let mut bytes = hdr(3, 4);
    entry(&mut bytes, 11, 0, 0); // 4..11
    op(&mut bytes, OpCode::CallProc); // 11..14
    arg(&mut bytes, 1);
    op(&mut bytes, OpCode::ReturnProc); // 14
    entry(&mut bytes, 11, 1, 0); // 15..22
    op(&mut bytes, OpCode::CallProc); // 22..25
    arg(&mut bytes, 2);
    op(&mut bytes, OpCode::ReturnProc); // 25
    entry(&mut bytes, 8, 2, 0); // 26..33
    op(&mut bytes, OpCode::ReturnProc); // 33
    let mut m = machine_of(bytes);
    assert_eq!(m.step(), StepEvent::Ran); // EntryProc 0
    // Call site in procedure 0.
    let (fp0, cur0, len0) = (m.fp, m.cur_proc, m.stack.len());
    assert_eq!(m.step(), StepEvent::Ran); // CallProc 1
    assert_eq!(m.pc, 15);
    assert_eq!(m.cur_proc, 1);
    assert_eq!(m.step(), StepEvent::Ran); // EntryProc 1
    // Call site in procedure 1.
    let (fp1, cur1, len1) = (m.fp, m.cur_proc, m.stack.len());
    assert_eq!(m.step(), StepEvent::Ran); // CallProc 2
    assert_eq!(m.pc, 26);
    assert_eq!(m.cur_proc, 2);
    assert_eq!(m.step(), StepEvent::Ran); // EntryProc 2
    assert_eq!(m.step(), StepEvent::Ran); // ReturnProc from 2
    assert_eq!(m.pc, 25);
    assert_eq!(m.fp, fp1);
    assert_eq!(m.cur_proc, cur1);
    assert_eq!(m.stack.len(), len1);
    assert_eq!(m.step(), StepEvent::Ran); // ReturnProc from 1
    assert_eq!(m.pc, 14);
    assert_eq!(m.fp, fp0);
    assert_eq!(m.cur_proc, cur0);
    assert_eq!(m.stack.len(), len0);
    assert_eq!(m.step(), StepEvent::Halted); // ReturnProc in procedure 0
}

#[test]
fn recursive_calls_relocate_and_restore_frames() {
    // Procedure 0 stores 2 in its frame and calls procedure 1, which
    // prints the counter, decrements it and calls itself until it is
    // zero. Every re-entrant call overwrites the callee's frame pointer;
    // the link records restore each caller exactly.
    let mut bytes = hdr(2, 4);
    entry(&mut bytes, 18, 0, 4); // 4..11
    op(&mut bytes, OpCode::PushAddressLocalVar); // 11..14
    arg(&mut bytes, 0);
    op(&mut bytes, OpCode::PushConstant); // 14..17
    arg(&mut bytes, 0);
    op(&mut bytes, OpCode::StoreValue); // 17..18
    op(&mut bytes, OpCode::CallProc); // 18..21
    arg(&mut bytes, 1);
    op(&mut bytes, OpCode::ReturnProc); // 21..22
    entry(&mut bytes, 32, 1, 0); // 22..29
    op(&mut bytes, OpCode::PushValueMainVar); // 29..32
    arg(&mut bytes, 0);
    op(&mut bytes, OpCode::JumpIfFalse); // 32..35, target 53
    arg(&mut bytes, 18);
    op(&mut bytes, OpCode::PushValueMainVar); // 35..38
    arg(&mut bytes, 0);
    op(&mut bytes, OpCode::OutputValue); // 38..39
    op(&mut bytes, OpCode::PushAddressMainVar); // 39..42
    arg(&mut bytes, 0);
    op(&mut bytes, OpCode::PushValueMainVar); // 42..45
    arg(&mut bytes, 0);
    op(&mut bytes, OpCode::PushConstant); // 45..48
    arg(&mut bytes, 1);
    op(&mut bytes, OpCode::OpSubtract); // 48..49
    op(&mut bytes, OpCode::StoreValue); // 49..50
    op(&mut bytes, OpCode::CallProc); // 50..53
    arg(&mut bytes, 1);
    op(&mut bytes, OpCode::ReturnProc); // 53..54
    bytes.extend_from_slice(&2i32.to_le_bytes());
    bytes.extend_from_slice(&1i32.to_le_bytes());
    let (outs, oc) = run_program(bytes, vec![]);
    assert_eq!(
        outs,
        vec![OutputItem::Number(2), OutputItem::Number(1)]
    );
    assert_eq!(oc, RunOutcome::Halted);
}

#[test]
fn store_grows_the_stack_with_zero_fill() {
    // Store 7 at absolute address 100, far beyond the current stack end,
    // then read it back as a frame-relative variable.
    let mut body = vec![0u8; 0];
    op(&mut body, OpCode::PushConstant);
    arg(&mut body, 0); // the address, 100
    op(&mut body, OpCode::PushConstant);
    arg(&mut body, 1); // the value, 7
    op(&mut body, OpCode::StoreValue);
    op(&mut body, OpCode::PushValueLocalVar);
    arg(&mut body, 100);
    op(&mut body, OpCode::OutputValue);
    op(&mut body, OpCode::PushValueLocalVar);
    arg(&mut body, 96); // the zero-filled gap
    op(&mut body, OpCode::OutputValue);
    op(&mut body, OpCode::ReturnProc);
    let mut pool = vec![0u8; 0];
    pool.extend_from_slice(&100i32.to_le_bytes());
    pool.extend_from_slice(&7i32.to_le_bytes());
    let (outs, oc) = run_program(simple(4, 0, &body, &pool), vec![]);
    assert_eq!(
        outs,
        vec![OutputItem::Number(7), OutputItem::Number(0)]
    );
    assert_eq!(oc, RunOutcome::Halted);
}

#[test]
fn swap_out_of_bounds_faults() {
    // Dereference an address past the end of the stack.
    let mut body = vec![0u8; 0];
    op(&mut body, OpCode::PushConstant);
    arg(&mut body, 0); // the address, 500
    op(&mut body, OpCode::Swap);
    let (_, oc) = run_program(simple(4, 8, &body, &500i32.to_le_bytes()), vec![]);
    assert_eq!(
        oc,
        RunOutcome::Faulted { fault: RuntimeFault::StackBounds { addr: 500 } }
    );
}

#[test]
fn entry_proc_reserve_shrinks_or_grows() {
    // A second EntryProc for the same frame resizes local storage.
    let mut body = vec![0u8; 0];
    op(&mut body, OpCode::PushConstant);
    arg(&mut body, 0);
    op(&mut body, OpCode::OutputValue);
    op(&mut body, OpCode::ReturnProc);
    let bytes = simple(4, 12, &body, &8i32.to_le_bytes());
    let mut m = machine_of(bytes);
    assert_eq!(m.step(), StepEvent::Ran); // EntryProc reserves 12
    assert_eq!(m.stack.len(), 12);
    let (outs, oc) = m.run(&vec![], 100);
    assert_eq!(outs, vec![OutputItem::Number(8)]);
    assert_eq!(oc, RunOutcome::Halted);
}

#[test]
fn end_of_code_halts() {
    let mut body = vec![0u8; 0];
    op(&mut body, OpCode::EndOfCode);
    let (outs, oc) = run_program(simple(4, 0, &body, &[]), vec![]);
    assert_eq!(outs, vec![]);
    assert_eq!(oc, RunOutcome::Halted);
}

#[test]
fn runtime_faults() {
    // Division by zero.
    let mut body = vec![0u8; 0];
    op(&mut body, OpCode::PushConstant);
    arg(&mut body, 0);
    op(&mut body, OpCode::PushConstant);
    arg(&mut body, 1);
    op(&mut body, OpCode::OpDivide);
    op(&mut body, OpCode::ReturnProc);
    let mut pool = vec![0u8; 0];
    pool.extend_from_slice(&9i32.to_le_bytes());
    pool.extend_from_slice(&0i32.to_le_bytes());
    assert_eq!(
        run_program(simple(4, 0, &body, &pool), vec![]).1,
        RunOutcome::Faulted { fault: RuntimeFault::DivisionByZero }
    );
    // Popping from an empty stack.
    let mut body = vec![0u8; 0];
    op(&mut body, OpCode::Pop);
    assert_eq!(
        run_program(simple(4, 0, &body, &[]), vec![]).1,
        RunOutcome::Faulted { fault: RuntimeFault::StackUnderflow }
    );
    // A constant index outside the pool.
    let mut body = vec![0u8; 0];
    op(&mut body, OpCode::PushConstant);
    arg(&mut body, 7);
    assert_eq!(
        run_program(simple(4, 0, &body, &[]), vec![]).1,
        RunOutcome::Faulted { fault: RuntimeFault::ConstOutOfRange { idx: 7 } }
    );
    // A negative variable address.
    let mut body = vec![0u8; 0];
    op(&mut body, OpCode::PushValueLocalVar);
    arg(&mut body, -1);
    assert_eq!(
        run_program(simple(4, 0, &body, &[]), vec![]).1,
        RunOutcome::Faulted { fault: RuntimeFault::NegativeOperand { value: -1 } }
    );
    // A read past the end of the runtime stack.
    let mut body = vec![0u8; 0];
    op(&mut body, OpCode::PushValueLocalVar);
    arg(&mut body, 100);
    assert_eq!(
        run_program(simple(4, 0, &body, &[]), vec![]).1,
        RunOutcome::Faulted { fault: RuntimeFault::StackBounds { addr: 100 } }
    );
    // Calling a procedure that does not exist.
    let mut body = vec![0u8; 0];
    op(&mut body, OpCode::CallProc);
    arg(&mut body, 9);
    assert_eq!(
        run_program(simple(4, 0, &body, &[]), vec![]).1,
        RunOutcome::Faulted { fault: RuntimeFault::ProcOutOfRange { id: 9 } }
    );
    // The reserved opcodes have no behaviour.
    for o in [OpCode::Put, OpCode::Get, OpCode::OpAddAddr] {
        let mut body = vec![0u8; 0];
        op(&mut body, o);
        assert_eq!(
            run_program(simple(4, 0, &body, &[]), vec![]).1,
            RunOutcome::Faulted {
                fault: RuntimeFault::Unimplemented { byte: o.byte() }
            }
        );
    }
}

#[test]
fn out_of_fuel_is_reported() {
    // An unconditional self-jump never halts.
    let mut body = vec![0u8; 0];
    op(&mut body, OpCode::Jump);
    arg(&mut body, -3);
    let mut m = machine_of(simple(4, 0, &body, &[]));
    let (outs, oc) = m.run(&vec![], 50);
    assert_eq!(outs, vec![]);
    assert_eq!(oc, RunOutcome::OutOfFuel);
}

#[test]
fn wrapping_accumulator_ops() {
    assert_eq!(wrap_add(i64::MAX, 1), i64::MIN);
    assert_eq!(wrap_sub(i64::MIN, 1), i64::MAX);
    assert_eq!(wrap_mul(1 << 62, 4), 0);
    assert_eq!(wrap_add(40, 2), 42);
}

#[test]
fn data_values_round_trip_through_bytes() {
    let vm = {
        let mut vm = PL0VM::new(false);
        let mut bytes = hdr(0, 4);
        bytes.push(0);
        vm.load(bytes).expect("load");
        vm
    };
    let d = Data::B32(-77);
    assert_eq!(d.i64(), -77);
    let b = d.to_bytes();
    assert_eq!(b, (-77i32).to_le_bytes().to_vec());
    assert_eq!(vm.bytes_to_data(&b).i64(), -77);
    assert_eq!(vm.data_true().i64(), 1);
    assert_eq!(vm.data_false().i64(), 0);
    assert_eq!(vm.data_bool(true).i64(), 1);
    assert_eq!(vm.data_bool(false).i64(), 0);
}

#[test]
fn main_and_global_addressing_reach_other_frames() {
    // Procedure 0 stores 55 in its own frame, calls procedure 1, which
    // reads the value back through main-relative and global addressing.
    let mut bytes = hdr(2, 4);
    entry(&mut bytes, 18, 0, 4); // 4..11
    op(&mut bytes, OpCode::PushAddressLocalVar); // 11..14
    arg(&mut bytes, 0);
    op(&mut bytes, OpCode::PushConstant); // 14..17
    arg(&mut bytes, 0);
    op(&mut bytes, OpCode::StoreValue); // 17..18
    op(&mut bytes, OpCode::CallProc); // 18..21
    arg(&mut bytes, 1);
    op(&mut bytes, OpCode::ReturnProc); // 21..22
    entry(&mut bytes, 18, 1, 0); // 22..29
    op(&mut bytes, OpCode::PushValueMainVar); // 29..32
    arg(&mut bytes, 0);
    op(&mut bytes, OpCode::OutputValue); // 32..33
    op(&mut bytes, OpCode::PushValueGlobalVar); // 33..38: addr 0, proc 0
    arg(&mut bytes, 0);
    arg(&mut bytes, 0);
    op(&mut bytes, OpCode::OutputValue); // 38..39
    op(&mut bytes, OpCode::ReturnProc); // 39..40
    bytes.extend_from_slice(&55i32.to_le_bytes());
    let (outs, oc) = run_program(bytes, vec![]);
    assert_eq!(
        outs,
        vec![OutputItem::Number(55), OutputItem::Number(55)]
    );
    assert_eq!(oc, RunOutcome::Halted);
}
