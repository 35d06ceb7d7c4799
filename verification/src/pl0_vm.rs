//! The virtual machine container and the procedure-table/constant-pool loader.
//!
//! A `PL0VM` owns the immutable program buffer and the width tag read from
//! the header. The loader makes one forward scan over the code section: it
//! records the entry point of every procedure the header promises, skipping
//! the bytes inside procedure bodies opaquely, and the position where the
//! scan stops is the start of the constant pool.

use crate::data::Data;
use crate::decode::{read_arg_at, spec_arg_val};
use crate::encoding::{i64_from_le, le_nat, le_to_u64, lemma_pow256, sign_val};
use crate::errors::{FormatError, LoadError};
use crate::opcodes::{spec_opcode_byte, OpCode};
use vstd::prelude::*;

verus! {

/// One entry of the procedure table.
///
/// `start_pos` is the byte offset of the procedure's `EntryProc` opcode and
/// is fixed at load time. `frame_ptr` is runtime state: the byte offset of
/// the procedure's currently active stack frame, rewritten on every call.
#[derive(Clone, Copy, Debug, PartialEq, Eq, Structural)]
pub struct Procedure {
    pub start_pos: usize,
    pub frame_ptr: usize,
}

/// A loaded program: the immutable byte buffer and the data width its
/// header selects.
pub struct PL0VM {
    /// The program image, header included.
    pub program: Vec<u8>,
    /// The width tag: a zero value of the configured width.
    pub bits: Data,
    /// Whether callers want a per-instruction trace.
    pub debug: bool,
}

/// The header's procedure count: the first two bytes, unsigned little-endian.
pub open spec fn spec_header_count(prog: Seq<u8>) -> nat {
    le_nat(prog.subrange(0, 2))
}

/// The header's width field: bytes two and three, unsigned little-endian.
pub open spec fn spec_width_field(prog: Seq<u8>) -> nat {
    le_nat(prog.subrange(2, 4))
}

/// The remaining-bytes counter after consuming `used` bytes. Only the sign
/// and zeroness of the counter are ever read, so it saturates at -1.
pub open spec fn spec_dec_rem(rem: int, used: int) -> int {
    if rem - used < 0 {
        -1
    } else {
        rem - used
    }
}

/// The loader's forward scan from `pc`, with `rem` bytes left in the
/// current procedure body, `counter` procedures still to discover, and
/// `procs` the entry points recorded so far.
///
/// The scan stops where the body is exhausted and no procedure is missing;
/// that position is the start of the constant pool.
pub open spec fn spec_scan(
    prog: Seq<u8>,
    pc: nat,
    rem: int,
    counter: nat,
    procs: Seq<Option<usize>>,
) -> Result<(nat, Seq<Option<usize>>), FormatError>
    decreases prog.len() - pc,
{
    if rem <= 0 && counter == 0 {
        Ok((pc, procs))
    } else if pc >= prog.len() {
        Err(FormatError::Truncated { at: pc as usize })
    } else {
        let b = prog[pc as int];
        if rem == 0 && b == spec_opcode_byte(OpCode::EntryProc) {
            if pc + 7 > prog.len() {
                Err(FormatError::Truncated { at: pc as usize })
            } else {
                let body_len = spec_arg_val(prog, pc + 1 as int);
                let id = spec_arg_val(prog, pc + 3 as int);
                if !(0 <= id < procs.len()) {
                    Err(FormatError::ProcIdOutOfRange { at: pc as usize, id: id as i16 })
                } else if procs[id].is_some() {
                    Err(FormatError::DuplicateProc { at: pc as usize, id: id as i16 })
                } else {
                    spec_scan(
                        prog,
                        pc + 7,
                        spec_dec_rem(body_len, 7),
                        (counter - 1) as nat,
                        procs.update(id, Some(pc as usize)),
                    )
                }
            }
        } else {
            spec_scan(prog, pc + 1, spec_dec_rem(rem, 1), counter, procs)
        }
    }
}

/// The constant pool: every whole fixed-width record from `start` to the
/// end of the buffer, as signed values.
pub open spec fn spec_pool(prog: Seq<u8>, start: nat, w: nat) -> Seq<int> {
    let count = if start <= prog.len() && w > 0 {
        ((prog.len() - start) as nat / w) as nat
    } else {
        0
    };
    Seq::new(count, |i: int| sign_val(prog.subrange(start + w * i, start + w * i + w)))
}

/// A procedure table of `n` slots, none filled yet.
pub open spec fn spec_empty_table(n: nat) -> Seq<Option<usize>> {
    Seq::new(n, |i: int| None::<usize>)
}

/// The number of filled slots of a procedure table under construction.
pub open spec fn spec_count_some(s: Seq<Option<usize>>) -> nat
    decreases s.len(),
{
    if s.len() == 0 {
        0
    } else {
        spec_count_some(s.drop_last()) + if s.last().is_some() {
            1nat
        } else {
            0nat
        }
    }
}

proof fn lemma_count_some_update(s: Seq<Option<usize>>, i: int, v: usize)
    requires
        0 <= i < s.len(),
        s[i].is_none(),
    ensures
        spec_count_some(s.update(i, Some(v))) == spec_count_some(s) + 1,
    decreases s.len(),
{
    let t = s.update(i, Some(v));
    if i == s.len() - 1 {
        assert(t.drop_last() =~= s.drop_last());
    } else {
        assert(t.drop_last() =~= s.drop_last().update(i, Some(v)));
        lemma_count_some_update(s.drop_last(), i, v);
    }
}

proof fn lemma_count_some_full(s: Seq<Option<usize>>)
    requires
        spec_count_some(s) == s.len(),
    ensures
        forall|i: int| 0 <= i < s.len() ==> s[i].is_some(),
    decreases s.len(),
{
    if s.len() > 0 {
        assert(spec_count_some(s.drop_last()) <= s.drop_last().len()) by {
            lemma_count_some_bound(s.drop_last());
        }
        lemma_count_some_full(s.drop_last());
        assert(forall|i: int| 0 <= i < s.len() - 1 ==> s[i] == s.drop_last()[i]);
    }
}

proof fn lemma_count_some_none(s: Seq<Option<usize>>)
    requires
        forall|i: int| 0 <= i < s.len() ==> s[i].is_none(),
    ensures
        spec_count_some(s) == 0,
    decreases s.len(),
{
    if s.len() > 0 {
        lemma_count_some_none(s.drop_last());
    }
}

proof fn lemma_count_some_bound(s: Seq<Option<usize>>)
    ensures
        spec_count_some(s) <= s.len(),
    decreases s.len(),
{
    if s.len() > 0 {
        lemma_count_some_bound(s.drop_last());
    }
}

impl PL0VM {
    /// A fresh machine with no program loaded.
    pub fn new(debug: bool) -> (r: PL0VM)
        ensures
            r.program@ == Seq::<u8>::empty(),
            r.bits == Data::B16(0i16),
            r.debug == debug,
    {
        PL0VM { program: Vec::new(), bits: Data::B16(0), debug }
    }

    /// The configured data width in bytes.
    pub fn data_size(&self) -> (r: usize)
        ensures
            r == self.bits.spec_width(),
    {
        match self.bits {
            Data::B16(_) => 2,
            Data::B32(_) => 4,
            Data::B64(_) => 8,
        }
    }

    /// The canonical true value, at the configured width.
    pub fn data_true(&self) -> (r: Data)
        ensures
            r@ == 1,
            r.spec_width() == self.bits.spec_width(),
    {
        match self.bits {
            Data::B16(_) => Data::B16(1),
            Data::B32(_) => Data::B32(1),
            Data::B64(_) => Data::B64(1),
        }
    }

    /// The canonical false value, at the configured width.
    pub fn data_false(&self) -> (r: Data)
        ensures
            r@ == 0,
            r.spec_width() == self.bits.spec_width(),
    {
        match self.bits {
            Data::B16(_) => Data::B16(0),
            Data::B32(_) => Data::B32(0),
            Data::B64(_) => Data::B64(0),
        }
    }

    /// The canonical boolean value (1 or 0), at the configured width.
    pub fn data_bool(&self, val: bool) -> (r: Data)
        ensures
            r@ == if val {
                1int
            } else {
                0int
            },
            r.spec_width() == self.bits.spec_width(),
    {
        if val {
            self.data_true()
        } else {
            self.data_false()
        }
    }

    /// Takes over a program image: stores the buffer and reads the width
    /// field. Fails if the buffer cannot hold more than the header, or the
    /// width field is not 2, 4 or 8.
    pub fn load(&mut self, bytes: Vec<u8>) -> (r: Result<(), LoadError>)
        ensures
            final(self).program@ == bytes@,
            final(self).debug == old(self).debug,
            match r {
                Ok(()) => bytes@.len() > 4 && {
                    let f = spec_width_field(bytes@);
                    (f == 2 || f == 4 || f == 8) && final(self).bits.spec_width() == f
                        && final(self).bits@ == 0
                },
                Err(LoadError::TooShort) => bytes@.len() <= 4 && final(self).bits == old(
                    self,
                ).bits,
                Err(LoadError::InvalidWidth { field }) => bytes@.len() > 4 && {
                    let f = spec_width_field(bytes@);
                    f == field && f != 2 && f != 4 && f != 8 && final(self).bits == old(self).bits
                },
            },
    {
        self.program = bytes;
        if self.program.len() <= 4 {
            return Err(LoadError::TooShort);
        }
        let field = le_to_u64(self.program.as_slice(), 2, 2);
        proof {
            lemma_pow256(0);
            crate::encoding::lemma_le_nat_bound(self.program@.subrange(2, 4));
        }
        match field {
            2 => {
                self.bits = Data::B16(0);
                Ok(())
            },
            4 => {
                self.bits = Data::B32(0);
                Ok(())
            },
            8 => {
                self.bits = Data::B64(0);
                Ok(())
            },
            _ => Err(LoadError::InvalidWidth { field: field as u16 }),
        }
    }

    /// Reads the two-byte signed operand at `offset`.
    pub fn read_arg(&self, offset: usize) -> (r: i16)
        requires
            offset + 2 <= self.program@.len(),
        ensures
            r as int == spec_arg_val(self.program@, offset as int),
    {
        read_arg_at(self.program.as_slice(), offset)
    }

    /// Reads a data value of the configured width from the front of `bytes`.
    pub fn bytes_to_data(&self, bytes: &[u8]) -> (r: Data)
        requires
            self.bits.spec_width() <= bytes@.len(),
        ensures
            r.spec_width() == self.bits.spec_width(),
            r@ == sign_val(bytes@.subrange(0, self.bits.spec_width() as int)),
    {
        let w = self.data_size();
        let v = i64_from_le(bytes, 0, w);
        proof {
            crate::encoding::lemma_sign_val_fits(bytes@.subrange(0, w as int));
            lemma_pow256(0);
        }
        match self.bits {
            Data::B16(_) => Data::B16(v as i16),
            Data::B32(_) => Data::B32(v as i32),
            Data::B64(_) => Data::B64(v),
        }
    }

    /// Reads the data value of the configured width at `offset` of the
    /// program buffer.
    pub fn read_data(&self, offset: usize) -> (r: Data)
        requires
            offset + self.bits.spec_width() <= self.program@.len(),
        ensures
            r.spec_width() == self.bits.spec_width(),
            r@ == sign_val(
                self.program@.subrange(offset as int, offset + self.bits.spec_width()),
            ),
    {
        let w = self.data_size();
        let v = i64_from_le(self.program.as_slice(), offset, w);
        proof {
            crate::encoding::lemma_sign_val_fits(
                self.program@.subrange(offset as int, offset + w),
            );
            lemma_pow256(0);
        }
        match self.bits {
            Data::B16(_) => Data::B16(v as i16),
            Data::B32(_) => Data::B32(v as i32),
            Data::B64(_) => Data::B64(v),
        }
    }

    /// One forward scan of the code section: the procedure table, each
    /// entry's `frame_ptr` still zero, and the constant pool after it.
    pub fn load_data(&self) -> (r: Result<(Vec<Procedure>, Vec<Data>), FormatError>)
        requires
            self.program@.len() >= 4,
        ensures
            ({
                let prog = self.program@;
                let cnt = spec_header_count(prog);
                let scan = spec_scan(prog, 4, 0, cnt, spec_empty_table(cnt));
                match r {
                    Ok((procs, consts)) => scan matches Ok(sc) && {
                        let pool = spec_pool(prog, sc.0, self.bits.spec_width());
                        &&& procs@.len() == cnt
                        &&& forall|i: int|
                            0 <= i < cnt ==> sc.1[i] == Some((#[trigger] procs@[i]).start_pos)
                                && procs@[i].frame_ptr == 0
                        &&& consts@.len() == pool.len()
                        &&& forall|i: int|
                            0 <= i < pool.len() ==> (#[trigger] consts@[i])@ == pool[i]
                                && consts@[i].spec_width() == self.bits.spec_width()
                    },
                    Err(e) => scan == Err::<(nat, Seq<Option<usize>>), FormatError>(e),
                }
            }),
    {
        let prog = self.program.as_slice();
        let len: usize = prog.len();
        let count64 = le_to_u64(prog, 0, 2);
        proof {
            lemma_pow256(0);
            crate::encoding::lemma_le_nat_bound(self.program@.subrange(0, 2));
        }
        let count: usize = count64 as usize;
        let mut procs: Vec<Option<usize>> = Vec::new();
        let mut k: usize = 0;
        while k < count
            invariant
                k <= count,
                procs@.len() == k,
                forall|i: int| 0 <= i < k ==> procs@[i].is_none(),
            decreases count - k,
        {
            procs.push(None);
            k = k + 1;
        }
        proof {
            assert(procs@ =~= spec_empty_table(count as nat));
        }
        let ghost scan0 = spec_scan(self.program@, 4, 0, count as nat, spec_empty_table(count as nat));
        let mut pc: usize = 4;
        let mut rem: i64 = 0;
        let mut counter: usize = count;
        proof {
            lemma_count_some_none(procs@);
        }
        while !(rem <= 0 && counter == 0)
            invariant
                4 <= pc,
                prog@ == self.program@,
                self.program@.len() == len,
                count as nat == spec_header_count(self.program@),
                scan0 == spec_scan(self.program@, 4, 0, count as nat, spec_empty_table(count as nat)),
                counter <= count,
                procs@.len() == count,
                spec_count_some(procs@) == count - counter,
                pc <= len,
                rem <= 0x7FFF,
                scan0 == spec_scan(self.program@, pc as nat, rem as int, counter as nat, procs@),
            decreases len + 1 - pc,
        {
            if pc >= len {
                return Err(FormatError::Truncated { at: pc });
            }
            let b = prog[pc];
            if rem == 0 && b == OpCode::EntryProc.byte() {
                if len - pc < 7 {
                    return Err(FormatError::Truncated { at: pc });
                }
                let id = read_arg_at(prog, pc + 3);
                if id < 0 || (id as usize) >= count {
                    return Err(FormatError::ProcIdOutOfRange { at: pc, id });
                }
                let idx = id as usize;
                if procs[idx].is_some() {
                    return Err(FormatError::DuplicateProc { at: pc, id });
                }
                let body_len = read_arg_at(prog, pc + 1);
                proof {
                    lemma_count_some_update(procs@, idx as int, pc);
                }
                procs[idx] = Some(pc);
                counter = counter - 1;
                rem = if body_len < 7 {
                    -1
                } else {
                    (body_len as i64) - 7
                };
                pc = pc + 7;
            } else {
                rem = if rem < 1 {
                    -1
                } else {
                    rem - 1
                };
                pc = pc + 1;
            }
        }
        proof {
            lemma_count_some_full(procs@);
        }
        let mut table: Vec<Procedure> = Vec::new();
        let mut k2: usize = 0;
        while k2 < count
            invariant
                k2 <= count,
                procs@.len() == count,
                forall|i: int| 0 <= i < count ==> procs@[i].is_some(),
                table@.len() == k2,
                forall|i: int|
                    0 <= i < k2 ==> procs@[i] == Some((#[trigger] table@[i]).start_pos)
                        && table@[i].frame_ptr == 0,
            decreases count - k2,
        {
            let start = match procs[k2] {
                Some(s) => s,
                None => 0,
            };
            table.push(Procedure { start_pos: start, frame_ptr: 0 });
            k2 = k2 + 1;
        }
        let consts = self.read_pool(pc);
        Ok((table, consts))
    }

    /// Reads the constant pool: every whole record of the configured width
    /// from `start` to the end of the buffer.
    pub fn read_pool(&self, start: usize) -> (r: Vec<Data>)
        requires
            start <= self.program@.len(),
        ensures
            ({
                let pool = spec_pool(self.program@, start as nat, self.bits.spec_width());
                r@.len() == pool.len() && forall|i: int|
                    0 <= i < pool.len() ==> (#[trigger] r@[i])@ == pool[i]
                        && r@[i].spec_width() == self.bits.spec_width()
            }),
    {
        let len: usize = self.program.len();
        let w = self.data_size();
        let n_consts: usize = (len - start) / w;
        let mut consts: Vec<Data> = Vec::new();
        let mut k3: usize = 0;
        proof {
            vstd::arithmetic::div_mod::lemma_fundamental_div_mod((len - start) as int, w as int);
            vstd::arithmetic::div_mod::lemma_mod_bound((len - start) as int, w as int);
        }
        while k3 < n_consts
            invariant
                k3 <= n_consts,
                start + w * n_consts <= len,
                w == self.bits.spec_width(),
                w >= 2,
                self.program@.len() == len,
                consts@.len() == k3,
                forall|i: int|
                    0 <= i < k3 ==> (#[trigger] consts@[i])@ == sign_val(
                        self.program@.subrange(start + w * i, start + w * i + w),
                    ) && consts@[i].spec_width() == self.bits.spec_width(),
            decreases n_consts - k3,
        {
            proof {
                assert(w * (k3 + 1) <= w * n_consts) by (nonlinear_arith)
                    requires
                        k3 + 1 <= n_consts,
                        w >= 2,
                ;
            }
            consts.push(self.read_data(start + w * k3));
            k3 = k3 + 1;
        }
        proof {
            let pool = spec_pool(self.program@, start as nat, self.bits.spec_width());
            assert(pool.len() == n_consts as nat);
        }
        consts
    }
}

} // verus!
