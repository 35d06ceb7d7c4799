//! The static analyzer: a decode-and-validate pass over the code section.
//!
//! It repeats the loader's scan but fully decodes every instruction,
//! resolving jump targets and checking inline strings, without allocating
//! or mutating any runtime state. The result is structured data; rendering
//! it is a presentation concern of the caller.

use crate::data::Data;
use crate::decode::{
    decode_instr, lemma_decode_next_bounds, spec_decode, InstrLine, InstrLineV,
};
use crate::encoding::{le_to_u64, lemma_le_nat_bound, lemma_pow256};
use crate::errors::FormatError;
use crate::opcodes::OpCode;
use crate::pl0_vm::{spec_header_count, spec_pool, spec_width_field, PL0VM};
use vstd::prelude::*;

verus! {

/// The analyzer's scan from `pc`, with `rem` bytes left in the current
/// procedure body and `counter` procedures still to discover: every
/// decoded instruction in order, and either the position where the
/// constant pool begins or the error that halted the scan.
pub open spec fn spec_analyze_scan(prog: Seq<u8>, pc: nat, rem: int, counter: int) -> (Seq<
    InstrLineV,
>, Result<nat, FormatError>)
    decreases prog.len() - pc,
{
    if rem <= 0 && counter == 0 {
        (Seq::empty(), Ok(pc))
    } else {
        match spec_decode(prog, pc) {
            Err(e) => (Seq::empty(), Err(e)),
            Ok(line) => {
                if pc < line.next <= prog.len() {
                    let size = line.next - pc;
                    let rem2 = if line.op == OpCode::EntryProc {
                        line.args[0] as int
                    } else {
                        rem
                    };
                    let counter2 = if line.op == OpCode::EntryProc {
                        counter - 1
                    } else {
                        counter
                    };
                    let tail = spec_analyze_scan(prog, line.next as nat, rem2 - size, counter2);
                    (seq![line] + tail.0, tail.1)
                } else {
                    // A decoded instruction always lies inside the buffer;
                    // this branch only bounds the recursion.
                    (seq![line], Err(FormatError::Truncated { at: pc as usize }))
                }
            },
        }
    }
}

/// What the analyzer produced.
#[derive(Debug, PartialEq, Eq)]
pub struct Analysis {
    /// The header's procedure count.
    pub proc_count: u16,
    /// The header's width field.
    pub width_field: u16,
    /// Every decoded instruction, in order.
    pub instrs: Vec<InstrLine>,
    /// The error that halted the scan, if any.
    pub error: Option<FormatError>,
    /// The constant pool; empty when the scan halted with an error.
    pub constants: Vec<Data>,
}

/// The views of a list of decoded instructions.
pub open spec fn spec_lines_view(lines: Seq<InstrLine>) -> Seq<InstrLineV> {
    lines.map(|i: int, l: InstrLine| l@)
}

impl PL0VM {
    /// Runs the analyzer. Fails up front when the buffer cannot hold the
    /// header, when the width field is not 2, 4 or 8, or when the machine
    /// was not loaded at that width; afterwards the scan's own outcome is
    /// reported in the result's `error` field.
    pub fn analyze(&self) -> (r: Result<Analysis, FormatError>)
        ensures
            ({
                let prog = self.program@;
                let f = spec_width_field(prog);
                let cnt = spec_header_count(prog);
                let scan = spec_analyze_scan(prog, 4, 0, cnt as int);
                if prog.len() < 4 {
                    r == Err::<Analysis, FormatError>(FormatError::Truncated { at: 0 })
                } else if !(f == 2 || f == 4 || f == 8) || f != self.bits.spec_width() {
                    r == Err::<Analysis, FormatError>(
                        FormatError::InvalidWidth { field: f as u16 },
                    )
                } else {
                    r matches Ok(a) && {
                        &&& a.proc_count == cnt
                        &&& a.width_field == f
                        &&& spec_lines_view(a.instrs@) == scan.0
                        &&& match scan.1 {
                            Ok(pool_start) => a.error matches None && {
                                let pool = spec_pool(prog, pool_start, self.bits.spec_width());
                                a.constants@.len() == pool.len() && forall|i: int|
                                    0 <= i < pool.len() ==> (#[trigger] a.constants@[i])@
                                        == pool[i] && a.constants@[i].spec_width()
                                        == self.bits.spec_width()
                            },
                            Err(e) => a.error matches Some(ae) && ae == e
                                && a.constants@.len() == 0,
                        }
                    }
                }
            }),
    {
        let prog = self.program.as_slice();
        let len: usize = prog.len();
        if len < 4 {
            return Err(FormatError::Truncated { at: 0 });
        }
        proof {
            lemma_pow256(0);
            lemma_le_nat_bound(self.program@.subrange(0, 2));
            lemma_le_nat_bound(self.program@.subrange(2, 4));
        }
        let count: u16 = le_to_u64(prog, 0, 2) as u16;
        let field: u16 = le_to_u64(prog, 2, 2) as u16;
        let widthok = field == 2 || field == 4 || field == 8;
        if !widthok || (field as usize) != self.data_size() {
            return Err(FormatError::InvalidWidth { field });
        }
        let ghost scan0 = spec_analyze_scan(self.program@, 4, 0, count as int);
        let mut lines: Vec<InstrLine> = Vec::new();
        let mut pc: usize = 4;
        let mut rem: i128 = 0;
        let mut counter: i128 = count as i128;
        while !(rem <= 0 && counter == 0)
            invariant
                4 <= pc <= len,
                prog@ == self.program@,
                self.program@.len() == len,
                count as nat == spec_header_count(self.program@),
                field as nat == spec_width_field(self.program@),
                field == 2 || field == 4 || field == 8,
                field as nat == self.bits.spec_width(),
                scan0 == spec_analyze_scan(self.program@, 4, 0, count as int),
                counter <= 0xFFFF,
                counter >= -(pc as i128),
                -0x8000 <= rem + pc as i128,
                rem <= 0x7FFF,
                scan0.0 == spec_lines_view(lines@) + spec_analyze_scan(
                    self.program@,
                    pc as nat,
                    rem as int,
                    counter as int,
                ).0,
                scan0.1 == spec_analyze_scan(
                    self.program@,
                    pc as nat,
                    rem as int,
                    counter as int,
                ).1,
            decreases len - pc,
        {
            let ghost cur = spec_analyze_scan(
                self.program@,
                pc as nat,
                rem as int,
                counter as int,
            );
            let line = match decode_instr(prog, pc) {
                Ok(line) => line,
                Err(e) => {
                    proof {
                        assert(spec_lines_view(lines@) + Seq::<InstrLineV>::empty()
                            =~= spec_lines_view(lines@));
                    }
                    return Ok(
                        Analysis {
                            proc_count: count,
                            width_field: field,
                            instrs: lines,
                            error: Some(e),
                            constants: Vec::new(),
                        },
                    );
                },
            };
            proof {
                lemma_decode_next_bounds(self.program@, pc as nat, line@);
            }
            let next = line.next;
            let size = next - pc;
            let is_entry = match line.op {
                OpCode::EntryProc => true,
                _ => false,
            };
            let rem2: i128 = if is_entry {
                line.args[0] as i128
            } else {
                rem
            };
            let counter2: i128 = if is_entry {
                counter - 1
            } else {
                counter
            };
            proof {
                let tail = spec_analyze_scan(
                    self.program@,
                    next as nat,
                    rem2 as int - size as int,
                    counter2 as int,
                );
                assert(cur.0 =~= seq![line@] + tail.0);
                assert(spec_lines_view(lines@.push(line)) =~= spec_lines_view(lines@) + seq![
                    line@,
                ]);
                assert(spec_lines_view(lines@) + cur.0 =~= spec_lines_view(lines@.push(line))
                    + tail.0);
            }
            lines.push(line);
            rem = rem2 - size as i128;
            counter = counter2;
            pc = next;
        }
        proof {
            assert(spec_lines_view(lines@) + Seq::<InstrLineV>::empty() =~= spec_lines_view(
                lines@,
            ));
        }
        let constants = self.read_pool(pc);
        Ok(
            Analysis {
                proc_count: count,
                width_field: field,
                instrs: lines,
                error: None,
                constants,
            },
        )
    }
}

} // verus!
