//! The machine's data values: signed integers of the configured width.
//!
//! Every stack cell, constant and operand value of a loaded program has one
//! width, chosen by the file header from 2, 4 or 8 bytes. Arithmetic widens
//! to 64 bits, operates, and narrows back with silent wraparound.

use crate::encoding::{
    fits_signed, lemma_pow256, lemma_wrap_fits, sign_bytes, to_unsigned, wrap_signed,
};
use vstd::arithmetic::div_mod::{
    lemma_add_mod_noop, lemma_mod_bound, lemma_mod_mod, lemma_mod_multiples_vanish,
    lemma_mul_mod_noop_general, lemma_small_mod, lemma_sub_mod_noop,
};
use vstd::arithmetic::power::pow;
use vstd::math::abs;
use vstd::prelude::*;

verus! {

/// A tagged signed integer of 2, 4 or 8 bytes.
#[derive(Clone, Copy, Debug, PartialEq, Eq, Structural)]
pub enum Data {
    B16(i16),
    B32(i32),
    B64(i64),
}

impl View for Data {
    type V = int;

    open spec fn view(&self) -> int {
        match *self {
            Data::B16(x) => x as int,
            Data::B32(x) => x as int,
            Data::B64(x) => x as int,
        }
    }
}

impl Data {
    /// The number of bytes a value of this width occupies.
    pub open spec fn spec_width(self) -> nat {
        match self {
            Data::B16(_) => 2,
            Data::B32(_) => 4,
            Data::B64(_) => 8,
        }
    }

    /// The value fits the signed range of its width.
    pub proof fn lemma_fits(self)
        ensures
            fits_signed(self@, self.spec_width()),
    {
        lemma_pow256(0);
    }

    /// The number of bytes a value of this width occupies.
    pub fn width(&self) -> (r: usize)
        ensures
            r == self.spec_width(),
    {
        match *self {
            Data::B16(_) => 2,
            Data::B32(_) => 4,
            Data::B64(_) => 8,
        }
    }

    /// The value widened to 64 bits.
    pub fn i64(&self) -> (r: i64)
        ensures
            r as int == self@,
    {
        match *self {
            Data::B16(x) => x as i64,
            Data::B32(x) => x as i64,
            Data::B64(x) => x,
        }
    }

    /// The value's little-endian bytes, at its width.
    pub fn to_bytes(&self) -> (r: Vec<u8>)
        ensures
            r@ == sign_bytes(self@, self.spec_width()),
            r@.len() == self.spec_width(),
    {
        match *self {
            Data::B16(_) => crate::encoding::i64_to_le(self.i64(), 2),
            Data::B32(_) => crate::encoding::i64_to_le(self.i64(), 4),
            Data::B64(_) => crate::encoding::i64_to_le(self.i64(), 8),
        }
    }
}

/// `v` as its 64-bit two's-complement representative in `[0, 256^8)`.
fn to_unsigned_64(v: i64) -> (u: u64)
    ensures
        u as nat == to_unsigned(v as int, 8),
{
    proof {
        lemma_pow256(0);
        if v >= 0 {
            lemma_small_mod(v as nat, pow(256, 8) as nat);
        } else {
            lemma_mod_multiples_vanish(1, v as int, pow(256, 8));
            lemma_small_mod((v + pow(256, 8)) as nat, pow(256, 8) as nat);
        }
    }
    if v >= 0 {
        v as u64
    } else {
        ((v - i64::MIN) as u64) + 0x8000000000000000
    }
}

/// Whether `v` is odd, in the mathematical sense: the remainder of `v`
/// by two, taken non-negative, is one whatever the sign of `v`.
pub fn is_odd(v: i64) -> (r: bool)
    ensures
        r == (v as int % 2 == 1),
{
    proof {
        lemma_pow256(0);
        lemma_mod_mod(v as int, 2, 0x8000000000000000);
    }
    let u = to_unsigned_64(v);
    u % 2 == 1
}

/// Wraps `v` to the signed `len`-byte range.
pub fn wrap_i64(v: i64, len: usize) -> (r: i64)
    requires
        len == 2 || len == 4 || len == 8,
    ensures
        r as int == wrap_signed(v as int, len as nat),
{
    proof {
        lemma_pow256(0);
    }
    if len == 8 {
        proof {
            lemma_wrap_fits(v as int, 8);
        }
        v
    } else {
        let u = to_unsigned_64(v);
        if len == 2 {
            proof {
                lemma_mod_mod(v as int, 0x10000, 0x1000000000000);
            }
            let m = u % 0x10000;
            if m < 0x8000 {
                m as i64
            } else {
                (m as i64) - 0x10000
            }
        } else {
            proof {
                lemma_mod_mod(v as int, 0x100000000, 0x100000000);
            }
            let m = u % 0x100000000;
            if m < 0x80000000 {
                m as i64
            } else {
                (m as i64) - 0x100000000
            }
        }
    }
}

/// The signed value a 64-bit two's-complement word stands for.
pub fn u64_to_signed(u: u64) -> (r: i64)
    ensures
        r as int == if 2 * (u as int) < pow(256, 8) {
            u as int
        } else {
            u - pow(256, 8)
        },
{
    proof {
        lemma_pow256(0);
    }
    if u < 0x8000000000000000 {
        u as i64
    } else {
        ((u - 0x8000000000000000) as i64) + i64::MIN
    }
}

/// The sum of two values in a 64-bit two's-complement accumulator.
pub fn wrap_add(l: i64, r: i64) -> (v: i64)
    ensures
        v as int == wrap_signed(l + r, 8),
{
    proof {
        lemma_pow256(0);
        lemma_add_mod_noop(l as int, r as int, pow(256, 8));
        lemma_mod_bound(l + r, pow(256, 8));
    }
    let lu = to_unsigned_64(l);
    let ru = to_unsigned_64(r);
    u64_to_signed(lu.wrapping_add(ru))
}

/// The difference of two values in a 64-bit two's-complement accumulator.
pub fn wrap_sub(l: i64, r: i64) -> (v: i64)
    ensures
        v as int == wrap_signed(l - r, 8),
{
    proof {
        lemma_pow256(0);
        lemma_sub_mod_noop(l as int, r as int, pow(256, 8));
        lemma_mod_bound(l - r, pow(256, 8));
    }
    let lu = to_unsigned_64(l);
    let ru = to_unsigned_64(r);
    u64_to_signed(lu.wrapping_sub(ru))
}

/// The product of two values in a 64-bit two's-complement accumulator.
pub fn wrap_mul(l: i64, r: i64) -> (v: i64)
    ensures
        v as int == wrap_signed(l * r, 8),
{
    proof {
        lemma_pow256(0);
        lemma_mul_mod_noop_general(l as int, r as int, pow(256, 8));
        lemma_mod_bound(l * r, pow(256, 8));
    }
    let lu = to_unsigned_64(l);
    let ru = to_unsigned_64(r);
    u64_to_signed(lu.wrapping_mul(ru))
}

/// Truncating division: the quotient rounded towards zero, as Rust's own
/// division defines it.
pub open spec fn spec_div_trunc(l: int, r: int) -> int {
    let q = abs(l) / abs(r);
    if (l < 0) != (r < 0) {
        -(q as int)
    } else {
        q as int
    }
}

/// The quotient of two values, rounded towards zero, in a 64-bit
/// two's-complement accumulator.
pub fn div_trunc(l: i64, r: i64) -> (v: i64)
    requires
        r != 0,
    ensures
        v as int == wrap_signed(spec_div_trunc(l as int, r as int), 8),
{
    proof {
        lemma_pow256(0);
    }
    let neg = (l < 0) != (r < 0);
    let la: u64 = if l >= 0 {
        l as u64
    } else if l == i64::MIN {
        0x8000000000000000
    } else {
        (-l) as u64
    };
    let ra: u64 = if r >= 0 {
        r as u64
    } else if r == i64::MIN {
        0x8000000000000000
    } else {
        (-r) as u64
    };
    let qm = la / ra;
    proof {
        assert(qm == abs(l as int) / abs(r as int));
        if qm == 0x8000000000000000 {
            lemma_wrap_fits((-0x8000000000000000) as int, 8);
            assert(spec_div_trunc(l as int, r as int) == 0x8000000000000000int
                || spec_div_trunc(l as int, r as int) == (-0x8000000000000000) as int);
            if spec_div_trunc(l as int, r as int) == 0x8000000000000000int {
                lemma_mod_multiples_vanish(-1, (-0x8000000000000000) as int, pow(256, 8));
                lemma_small_mod(0x8000000000000000, pow(256, 8) as nat);
                assert(wrap_signed(0x8000000000000000int, 8) == (-0x8000000000000000) as int);
            }
        } else {
            lemma_wrap_fits(spec_div_trunc(l as int, r as int), 8);
        }
    }
    if neg {
        if qm == 0x8000000000000000 {
            i64::MIN
        } else {
            -(qm as i64)
        }
    } else {
        if qm == 0x8000000000000000 {
            i64::MIN
        } else {
            qm as i64
        }
    }
}

/// A value of the same width as `tag`, holding `v` wrapped to that width.
pub fn data_of(tag: &Data, v: i64) -> (r: Data)
    ensures
        r.spec_width() == tag.spec_width(),
        r@ == wrap_signed(v as int, tag.spec_width()),
{
    proof {
        lemma_pow256(0);
    }
    match tag {
        Data::B16(_) => {
            let w = wrap_i64(v, 2);
            proof {
                lemma_mod_bound(v as int, pow(256, 2));
            }
            Data::B16(w as i16)
        },
        Data::B32(_) => {
            let w = wrap_i64(v, 4);
            proof {
                lemma_mod_bound(v as int, pow(256, 4));
            }
            Data::B32(w as i32)
        },
        Data::B64(_) => {
            proof {
                lemma_wrap_fits(v as int, 8);
            }
            Data::B64(v)
        },
    }
}

} // verus!
