use pl0vm::analyzer::Analysis;
use pl0vm::decode::{decode_instr, encode_instr};
use pl0vm::errors::{FormatError, LoadError};
use pl0vm::opcodes::OpCode;
use pl0vm::pl0_vm::PL0VM;

fn hdr(count: u16, width: u16) -> Vec<u8> {
    let mut v = Vec::new();
    v.extend_from_slice(&count.to_le_bytes());
    v.extend_from_slice(&width.to_le_bytes());
    v
}

fn arg(v: &mut Vec<u8>, x: i16) {
    v.extend_from_slice(&x.to_le_bytes());
}

fn op(v: &mut Vec<u8>, o: OpCode) {
    v.push(o.byte());
}

fn loaded(bytes: Vec<u8>) -> PL0VM {
    let mut vm = PL0VM::new(false);
    vm.load(bytes).expect("load");
    vm
}

#[test]
fn opcode_bytes_round_trip() {
    for b in 0u8..=0x21 {
        let o = OpCode::of_byte(b).expect("opcode");
        assert_eq!(o.byte(), b);
    }
    assert!(OpCode::of_byte(0x22).is_none());
    assert!(OpCode::of_byte(0xFF).is_none());
}

#[test]
fn decode_reencode_one_operand() {
    let mut bytes = vec![0u8; 0];
    op(&mut bytes, OpCode::PushValueLocalVar);
    arg(&mut bytes, -7);
    let line = decode_instr(&bytes, 0).expect("decode");
    assert_eq!(line.op, OpCode::PushValueLocalVar);
    assert_eq!(line.args, vec![-7]);
    assert_eq!(line.next, 3);
    assert_eq!(encode_instr(&line), bytes);
}

#[test]
fn decode_reencode_two_operands() {
    let mut bytes = vec![0u8; 0];
    op(&mut bytes, OpCode::PushValueGlobalVar);
    arg(&mut bytes, 5);
    arg(&mut bytes, 2);
    let line = decode_instr(&bytes, 0).expect("decode");
    assert_eq!(line.args, vec![5, 2]);
    assert_eq!(encode_instr(&line), bytes);
}

#[test]
fn decode_reencode_entry_proc() {
    let mut bytes = vec![0u8; 0];
    op(&mut bytes, OpCode::EntryProc);
    arg(&mut bytes, 12);
    arg(&mut bytes, 0);
    arg(&mut bytes, 8);
    let line = decode_instr(&bytes, 0).expect("decode");
    assert_eq!(line.op, OpCode::EntryProc);
    assert_eq!(line.args, vec![12, 0, 8]);
    assert_eq!(line.next, 7);
    assert_eq!(encode_instr(&line), bytes);
}

#[test]
fn decode_reencode_put_string() {
    let mut bytes = vec![0u8; 0];
    op(&mut bytes, OpCode::PutString);
    bytes.extend_from_slice(b"hi");
    bytes.push(0);
    let line = decode_instr(&bytes, 0).expect("decode");
    assert_eq!(line.text.as_deref(), Some(b"hi".as_slice()));
    assert_eq!(line.next, 4);
    assert_eq!(encode_instr(&line), bytes);
}

#[test]
fn decode_jump_resolves_target() {
    let mut bytes = vec![0u8; 10];
    bytes[4] = OpCode::Jump.byte();
    bytes[5] = 2;
    bytes[6] = 0;
    let line = decode_instr(&bytes, 4).expect("decode");
    // target = operand position (5) + 2 + offset (2) = 9
    assert_eq!(line.target, Some(9));
}

#[test]
fn decode_jump_negative_target_is_error() {
    let mut bytes = vec![0u8; 0];
    op(&mut bytes, OpCode::Jump);
    arg(&mut bytes, -100);
    assert_eq!(
        decode_instr(&bytes, 0),
        Err(FormatError::JumpOutOfRange { at: 0, offset: -100 })
    );
}

#[test]
fn decode_truncated_operand() {
    let mut bytes = vec![0u8; 0];
    op(&mut bytes, OpCode::PushConstant);
    bytes.push(1);
    assert_eq!(decode_instr(&bytes, 0), Err(FormatError::Truncated { at: 0 }));
}

#[test]
fn decode_unknown_opcode() {
    let bytes = vec![0x77u8];
    assert_eq!(
        decode_instr(&bytes, 0),
        Err(FormatError::UnknownOpcode { at: 0, byte: 0x77 })
    );
}

#[test]
fn decode_invalid_utf8_string() {
    let mut bytes = vec![0u8; 0];
    op(&mut bytes, OpCode::PutString);
    bytes.push(0xFF);
    bytes.push(0);
    assert_eq!(decode_instr(&bytes, 0), Err(FormatError::InvalidUtf8 { at: 0 }));
}

#[test]
fn decode_unterminated_string() {
    let mut bytes = vec![0u8; 0];
    op(&mut bytes, OpCode::PutString);
    bytes.extend_from_slice(b"abc");
    assert_eq!(decode_instr(&bytes, 0), Err(FormatError::Truncated { at: 0 }));
}

#[test]
fn load_rejects_short_buffer() {
    let mut vm = PL0VM::new(false);
    assert_eq!(vm.load(vec![1, 2, 3]), Err(LoadError::TooShort));
    let mut vm = PL0VM::new(false);
    assert_eq!(vm.load(hdr(0, 2)), Err(LoadError::TooShort));
}

#[test]
fn load_rejects_bad_width() {
    let mut vm = PL0VM::new(false);
    let mut bytes = hdr(1, 3);
    bytes.push(0);
    assert_eq!(vm.load(bytes), Err(LoadError::InvalidWidth { field: 3 }));
}

#[test]
fn load_accepts_each_width() {
    for (w, size) in [(2u16, 2usize), (4, 4), (8, 8)] {
        let mut vm = PL0VM::new(false);
        let mut bytes = hdr(1, w);
        bytes.push(0);
        vm.load(bytes).expect("load");
        assert_eq!(vm.data_size(), size);
    }
}

#[test]
fn bad_width_fails_everywhere_before_code() {
    // Width field 3: load, analyze and start all fail without reading code.
    let mut bytes = hdr(1, 3);
    bytes.push(OpCode::EntryProc.byte());
    let mut vm = PL0VM::new(false);
    assert_eq!(vm.load(bytes), Err(LoadError::InvalidWidth { field: 3 }));
    assert_eq!(vm.analyze(), Err(FormatError::InvalidWidth { field: 3 }));
    assert!(matches!(vm.start(), Err(FormatError::InvalidWidth { field: 3 })));
}

#[test]
fn loader_finds_procedures_and_pool() {
    // One procedure whose declared length spans the whole code section.
    let mut bytes = hdr(1, 4);
    op(&mut bytes, OpCode::EntryProc);
    arg(&mut bytes, 12);
    arg(&mut bytes, 0);
    arg(&mut bytes, 0);
    op(&mut bytes, OpCode::PushConstant);
    arg(&mut bytes, 0);
    op(&mut bytes, OpCode::OutputValue);
    op(&mut bytes, OpCode::ReturnProc);
    bytes.extend_from_slice(&42i32.to_le_bytes());
    let vm = loaded(bytes);
    let (procs, consts) = vm.load_data().expect("load_data");
    assert_eq!(procs.len(), 1);
    assert_eq!(procs[0].start_pos, 4);
    assert_eq!(procs[0].frame_ptr, 0);
    assert_eq!(consts.len(), 1);
    assert_eq!(consts[0].i64(), 42);
}

#[test]
fn loader_rejects_out_of_range_id() {
    let mut bytes = hdr(1, 4);
    op(&mut bytes, OpCode::EntryProc);
    arg(&mut bytes, 7);
    arg(&mut bytes, 5);
    arg(&mut bytes, 0);
    let vm = loaded(bytes);
    assert_eq!(
        vm.load_data(),
        Err(FormatError::ProcIdOutOfRange { at: 4, id: 5 })
    );
}

#[test]
fn loader_rejects_duplicate_id() {
    let mut bytes = hdr(2, 4);
    op(&mut bytes, OpCode::EntryProc);
    arg(&mut bytes, 7);
    arg(&mut bytes, 0);
    arg(&mut bytes, 0);
    op(&mut bytes, OpCode::EntryProc);
    arg(&mut bytes, 7);
    arg(&mut bytes, 0);
    arg(&mut bytes, 0);
    let vm = loaded(bytes);
    assert_eq!(
        vm.load_data(),
        Err(FormatError::DuplicateProc { at: 11, id: 0 })
    );
}

#[test]
fn loader_reports_truncation() {
    let mut bytes = hdr(1, 2);
    bytes.push(0);
    let vm = loaded(bytes);
    // One procedure promised, none found before the end of the buffer.
    assert_eq!(vm.load_data(), Err(FormatError::Truncated { at: 5 }));
}

#[test]
fn start_rejects_empty_procedure_table() {
    let mut bytes = hdr(0, 2);
    bytes.push(0);
    let vm = loaded(bytes);
    assert!(matches!(vm.start(), Err(FormatError::NoProcedures)));
}

fn analysis_of(bytes: Vec<u8>) -> Analysis {
    loaded(bytes).analyze().expect("analyze")
}

#[test]
fn analyzer_lists_instructions_and_constants() {
    let mut bytes = hdr(1, 4);
    op(&mut bytes, OpCode::EntryProc);
    arg(&mut bytes, 12);
    arg(&mut bytes, 0);
    arg(&mut bytes, 0);
    op(&mut bytes, OpCode::PushConstant);
    arg(&mut bytes, 0);
    op(&mut bytes, OpCode::OutputValue);
    op(&mut bytes, OpCode::ReturnProc);
    bytes.extend_from_slice(&42i32.to_le_bytes());
    let a = analysis_of(bytes);
    assert_eq!(a.proc_count, 1);
    assert_eq!(a.width_field, 4);
    assert!(a.error.is_none());
    let ops: Vec<OpCode> = a.instrs.iter().map(|l| l.op).collect();
    assert_eq!(
        ops,
        vec![
            OpCode::EntryProc,
            OpCode::PushConstant,
            OpCode::OutputValue,
            OpCode::ReturnProc
        ]
    );
    assert_eq!(a.instrs[0].offset, 4);
    assert_eq!(a.constants.len(), 1);
    assert_eq!(a.constants[0].i64(), 42);
}

#[test]
fn analyzer_halts_on_unknown_opcode() {
    let mut bytes = hdr(1, 2);
    bytes.push(0x77);
    let a = analysis_of(bytes);
    assert_eq!(a.error, Some(FormatError::UnknownOpcode { at: 4, byte: 0x77 }));
    assert!(a.instrs.is_empty());
    assert!(a.constants.is_empty());
}

#[test]
fn analyzer_halts_on_invalid_utf8() {
    let mut bytes = hdr(1, 2);
    op(&mut bytes, OpCode::PutString);
    bytes.push(0xC0);
    bytes.push(0);
    let a = analysis_of(bytes);
    assert_eq!(a.error, Some(FormatError::InvalidUtf8 { at: 4 }));
}

#[test]
fn analyzer_accepts_valid_utf8() {
    let mut bytes = hdr(1, 2);
    op(&mut bytes, OpCode::EntryProc);
    arg(&mut bytes, 11);
    arg(&mut bytes, 0);
    arg(&mut bytes, 0);
    op(&mut bytes, OpCode::PutString);
    bytes.extend_from_slice("héllo".as_bytes());
    bytes.push(0);
    let a = analysis_of(bytes);
    assert!(a.error.is_none());
    assert_eq!(a.instrs[1].text.as_deref(), Some("héllo".as_bytes()));
}

#[test]
fn analyzer_resolves_jump_targets() {
    let mut bytes = hdr(1, 2);
    op(&mut bytes, OpCode::EntryProc);
    arg(&mut bytes, 11);
    arg(&mut bytes, 0);
    arg(&mut bytes, 0);
    op(&mut bytes, OpCode::Jump);
    arg(&mut bytes, 0);
    op(&mut bytes, OpCode::ReturnProc);
    let a = analysis_of(bytes);
    assert!(a.error.is_none());
    // Operand at 12, plus two, plus offset 0: target 14.
    assert_eq!(a.instrs[1].target, Some(14));
}

#[test]
fn analyzer_reports_unresolvable_jump() {
    let mut bytes = hdr(1, 2);
    op(&mut bytes, OpCode::Jump);
    arg(&mut bytes, -32);
    let a = analysis_of(bytes);
    assert_eq!(a.error, Some(FormatError::JumpOutOfRange { at: 4, offset: -32 }));
}
