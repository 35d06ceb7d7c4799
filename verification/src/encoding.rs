//! Little-endian byte strings and the signed values they carry.
//!
//! Every value the machine touches — operands, stack cells, constants,
//! call linkage — is a little-endian byte string of width 2, 4 or 8.
//! This module defines the mathematical reading and writing of such
//! strings and the executable conversions, proved against each other.

use vstd::arithmetic::div_mod::{
    lemma_fundamental_div_mod, lemma_mod_bound, lemma_mod_breakdown, lemma_mod_mod,
    lemma_mod_multiples_vanish, lemma_small_mod,
};
use vstd::arithmetic::power::{lemma_pow_adds, lemma_pow_increases, lemma_pow_positive, pow};
use vstd::prelude::*;

verus! {

/// The unsigned value of a little-endian byte string.
pub open spec fn le_nat(s: Seq<u8>) -> nat
    decreases s.len(),
{
    if s.len() == 0 {
        0
    } else {
        (s[0] + 256 * le_nat(s.skip(1))) as nat
    }
}

/// The `len` low-order base-256 digits of `n`, least significant first.
pub open spec fn le_bytes(n: nat, len: nat) -> Seq<u8>
    decreases len,
{
    if len == 0 {
        Seq::empty()
    } else {
        seq![(n % 256) as u8] + le_bytes(n / 256, (len - 1) as nat)
    }
}

/// The signed (two's-complement) value of a little-endian byte string.
pub open spec fn sign_val(s: Seq<u8>) -> int {
    let n = le_nat(s);
    let m = pow(256, s.len());
    if 2 * n < m {
        n as int
    } else {
        n - m
    }
}

/// `v` reduced to its `len`-byte two's-complement representative in `[0, 256^len)`.
pub open spec fn to_unsigned(v: int, len: nat) -> nat {
    (v % pow(256, len)) as nat
}

/// `v` wrapped into the signed `len`-byte range — the low `len` bytes of `v`,
/// read back as a signed value.
pub open spec fn wrap_signed(v: int, len: nat) -> int {
    let m = pow(256, len);
    let r = v % m;
    if 2 * r < m {
        r
    } else {
        r - m
    }
}

/// `v` is representable as a signed `len`-byte value.
pub open spec fn fits_signed(v: int, len: nat) -> bool {
    let m = pow(256, len);
    -m <= 2 * v < m
}

/// The signed `len`-byte little-endian encoding of `v`.
pub open spec fn sign_bytes(v: int, len: nat) -> Seq<u8> {
    le_bytes(to_unsigned(v, len), len)
}

pub proof fn lemma_pow256(e: nat)
    ensures
        pow(256, 0) == 1,
        pow(256, 1) == 256,
        pow(256, 2) == 0x10000,
        pow(256, 3) == 0x1000000,
        pow(256, 4) == 0x100000000,
        pow(256, 5) == 0x10000000000,
        pow(256, 6) == 0x1000000000000,
        pow(256, 7) == 0x100000000000000,
        pow(256, 8) == 0x10000000000000000,
        pow(256, e) >= 1,
{
    reveal_with_fuel(pow, 9);
    lemma_pow_positive(256, e);
}

pub broadcast proof fn lemma_le_bytes_len(n: nat, len: nat)
    ensures
        (#[trigger] le_bytes(n, len)).len() == len,
    decreases len,
{
    if len > 0 {
        lemma_le_bytes_len(n / 256, (len - 1) as nat);
    }
}

pub broadcast proof fn lemma_le_nat_bound(s: Seq<u8>)
    ensures
        #[trigger] le_nat(s) < pow(256, s.len()),
    decreases s.len(),
{
    lemma_pow_positive(256, s.len());
    if s.len() > 0 {
        lemma_le_nat_bound(s.skip(1));
        lemma_pow_adds(256, 1, (s.len() - 1) as nat);
        lemma_pow256(0);
        assert(s[0] + 256 * le_nat(s.skip(1)) < 256 * pow(256, (s.len() - 1) as nat)) by {
            assert(le_nat(s.skip(1)) + 1 <= pow(256, (s.len() - 1) as nat));
            assert(256 * (le_nat(s.skip(1)) + 1) <= 256 * pow(256, (s.len() - 1) as nat))
                by (nonlinear_arith)
                requires
                    le_nat(s.skip(1)) + 1 <= pow(256, (s.len() - 1) as nat),
            ;
        }
    }
}

/// Reading back the digits of `n` recovers `n` whenever `n` is small enough.
pub proof fn lemma_le_nat_of_le_bytes(n: nat, len: nat)
    requires
        n < pow(256, len),
    ensures
        le_nat(le_bytes(n, len)) == n,
    decreases len,
{
    lemma_le_bytes_len(n, len);
    lemma_pow256(0);
    if len == 0 {
    } else {
        let s = le_bytes(n, len);
        assert(n / 256 < pow(256, (len - 1) as nat)) by {
            lemma_pow_adds(256, 1, (len - 1) as nat);
            lemma_pow256(0);
            lemma_pow_positive(256, (len - 1) as nat);
            assert(n < 256 * pow(256, (len - 1) as nat));
            assert(n / 256 < pow(256, (len - 1) as nat)) by (nonlinear_arith)
                requires
                    n < 256 * pow(256, (len - 1) as nat),
                    pow(256, (len - 1) as nat) >= 1,
            ;
        }
        lemma_le_nat_of_le_bytes(n / 256, (len - 1) as nat);
        assert(s.skip(1) =~= le_bytes(n / 256, (len - 1) as nat));
        lemma_fundamental_div_mod(n as int, 256);
    }
}

/// Encoding the value of a byte string recovers the byte string.
pub proof fn lemma_le_bytes_of_le_nat(s: Seq<u8>)
    ensures
        le_bytes(le_nat(s), s.len()) == s,
    decreases s.len(),
{
    if s.len() > 0 {
        let n = le_nat(s);
        assert(n == s[0] + 256 * le_nat(s.skip(1)));
        assert(n % 256 == s[0] && n / 256 == le_nat(s.skip(1))) by {
            lemma_mod_breakdown(n as int, 256, le_nat(s.skip(1)) as int + 1);
            assert((s[0] + 256 * le_nat(s.skip(1))) % 256 == s[0]
                && (s[0] + 256 * le_nat(s.skip(1))) / 256 == le_nat(s.skip(1)))
                by (nonlinear_arith)
                requires
                    0 <= s[0] < 256,
            ;
        }
        lemma_le_bytes_of_le_nat(s.skip(1));
        assert(le_bytes(le_nat(s), s.len()) =~= s);
    } else {
        assert(le_bytes(le_nat(s), s.len()) =~= s);
    }
}

/// The signed reading of an encoded value is that value, wrapped to the width.
pub proof fn lemma_sign_val_sign_bytes(v: int, len: nat)
    ensures
        sign_val(sign_bytes(v, len)) == wrap_signed(v, len),
        sign_bytes(v, len).len() == len,
{
    let m = pow(256, len);
    lemma_pow_positive(256, len);
    lemma_mod_bound(v, m);
    lemma_le_nat_of_le_bytes(to_unsigned(v, len), len);
    lemma_le_bytes_len(to_unsigned(v, len), len);
}

/// A value already in range wraps to itself.
pub proof fn lemma_wrap_fits(v: int, len: nat)
    requires
        fits_signed(v, len),
    ensures
        wrap_signed(v, len) == v,
{
    let m = pow(256, len);
    lemma_pow_positive(256, len);
    if v >= 0 {
        lemma_small_mod(v as nat, m as nat);
    } else {
        lemma_fundamental_div_mod(v, m);
        lemma_mod_bound(v, m);
        assert((v % m) == v - m * (v / m));
        assert(v / m == -1) by {
            assert(m * ((v - (v % m)) / m) == v - (v % m)) by (nonlinear_arith)
                requires
                    m > 0,
                    v % m == v - m * (v / m),
            ;
            assert(-m <= v < 0);
            assert(0 <= v % m < m);
            assert(-2 * m < v - (v % m) < 0);
            assert(v - (v % m) == m * (v / m));
            assert(-2 * m < m * (v / m) < 0 ==> v / m == -1) by (nonlinear_arith)
                requires
                    m > 0,
            ;
        }
    }
}

/// Wrapping first does not change the encoding.
pub proof fn lemma_sign_bytes_wrap(v: int, len: nat)
    ensures
        sign_bytes(wrap_signed(v, len), len) == sign_bytes(v, len),
{
    let m = pow(256, len);
    lemma_pow_positive(256, len);
    lemma_mod_bound(v, m);
    let r = v % m;
    if 2 * r < m {
        lemma_small_mod(r as nat, m as nat);
    } else {
        lemma_mod_multiples_vanish(1, r - m, m);
        lemma_small_mod(r as nat, m as nat);
    }
}

/// Taking the low digits of a longer encoding is encoding the value
/// reduced to that many digits.
pub proof fn lemma_le_bytes_take(n: nat, len1: nat, len2: nat)
    requires
        len1 <= len2,
    ensures
        le_bytes((n as int % pow(256, len1)) as nat, len1) == le_bytes(n, len2).take(len1 as int),
    decreases len1,
{
    lemma_pow_positive(256, len1);
    lemma_le_bytes_len(n, len2);
    if len1 == 0 {
        assert(pow(256, 0) == 1) by {
            lemma_pow256(0);
        }
        assert(le_bytes((n as int % 1) as nat, 0) =~= le_bytes(n, len2).take(0));
    } else {
        let p = pow(256, (len1 - 1) as nat);
        lemma_pow_positive(256, (len1 - 1) as nat);
        lemma_pow_adds(256, 1, (len1 - 1) as nat);
        lemma_pow256(0);
        let m = (n as int % pow(256, len1)) as nat;
        assert(m == 256 * ((n as int / 256) % p) + n % 256) by {
            lemma_mod_breakdown(n as int, 256, p);
        }
        assert(m % 256 == n % 256 && m as int / 256 == (n as int / 256) % p) by {
            assert((256 * ((n as int / 256) % p) + n % 256) % 256 == n % 256 && (256 * ((n
                as int / 256) % p) + n % 256) / 256 == (n as int / 256) % p)
                by (nonlinear_arith)
                requires
                    0 <= n % 256 < 256,
                    (n as int / 256) % p >= 0,
            ;
            lemma_mod_bound(n as int / 256, p);
        }
        lemma_le_bytes_take((n / 256) as nat, (len1 - 1) as nat, (len2 - 1) as nat);
        lemma_le_bytes_len((n / 256) as nat, (len2 - 1) as nat);
        assert(le_bytes(m, len1) =~= le_bytes(n, len2).take(len1 as int));
    }
}

/// The low bytes of a value wrapped to 64 bits are the low bytes of the
/// value itself: narrowing may go through a 64-bit accumulator.
pub proof fn lemma_sign_bytes_of_wrap64(v: int, len: nat)
    requires
        len == 2 || len == 4 || len == 8,
    ensures
        sign_bytes(wrap_signed(v, 8), len) == sign_bytes(v, len),
{
    lemma_pow256(0);
    let m8 = pow(256, 8);
    let m = pow(256, len);
    let q: int = if len == 2 {
        0x1000000000000
    } else if len == 4 {
        0x100000000
    } else {
        1
    };
    assert(m * q == m8);
    lemma_mod_bound(v, m8);
    let r = v % m8;
    assert(r % m == v % m) by {
        lemma_mod_mod(v, m, q);
        assert(m * q == m8);
    }
    if 2 * r < m8 {
        assert(wrap_signed(v, 8) == r);
    } else {
        assert(wrap_signed(v, 8) == r - m8);
        assert((r - m8) % m == r % m) by {
            lemma_mod_multiples_vanish(-q, r, m);
            assert(m * (-q) + r == r - m8) by (nonlinear_arith)
                requires
                    m * q == m8,
            ;
        }
    }
}

/// A signed reading always fits the signed range of its own width.
pub proof fn lemma_sign_val_fits(s: Seq<u8>)
    ensures
        fits_signed(sign_val(s), s.len()),
{
    lemma_pow256(s.len());
    lemma_le_nat_bound(s);
}

/// Re-encoding the signed value of a byte string recovers the byte string.
pub proof fn lemma_sign_bytes_of_sign_val(s: Seq<u8>)
    ensures
        sign_bytes(sign_val(s), s.len()) == s,
{
    let m = pow(256, s.len());
    let n = le_nat(s);
    lemma_pow256(s.len());
    lemma_le_nat_bound(s);
    if 2 * n < m {
        lemma_small_mod(n, m as nat);
    } else {
        lemma_mod_multiples_vanish(1, (n - m) as int, m);
        lemma_small_mod(n, m as nat);
    }
    assert(to_unsigned(sign_val(s), s.len()) == n);
    lemma_le_bytes_of_le_nat(s);
}

/// Reads `len` bytes at `off` as an unsigned little-endian value.
pub fn le_to_u64(s: &[u8], off: usize, len: usize) -> (r: u64)
    requires
        off + len <= s@.len(),
        len <= 8,
    ensures
        r == le_nat(s@.subrange(off as int, off + len)),
{
    let slen: usize = s.len();
    let mut r: u64 = 0;
    let mut i: usize = len;
    proof {
        assert(s@.subrange(off + len, off + len) =~= Seq::empty());
        lemma_pow256(0);
    }
    while i > 0
        invariant
            i <= len,
            len <= 8,
            off + len <= s@.len(),
            s@.len() == slen,
            r == le_nat(s@.subrange(off + i, off + len)),
            r < pow(256, (len - i) as nat),
        decreases i,
    {
        i = i - 1;
        proof {
            let t = s@.subrange(off + i, off + len);
            assert(t.skip(1) =~= s@.subrange(off + i + 1, off + len));
            lemma_pow256(0);
            lemma_pow_increases(256, (len - i - 1) as nat, 7);
            lemma_pow_adds(256, 1, (len - i - 1) as nat);
            assert(256 * (r + 1) <= 256 * pow(256, (len - i - 1) as nat)) by (nonlinear_arith)
                requires
                    r + 1 <= pow(256, (len - i - 1) as nat),
            ;
        }
        r = r * 256 + s[off + i] as u64;
    }
    proof {
        assert(s@.subrange(off as int, off + len) =~= s@.subrange(off + 0, off + len));
    }
    r
}

/// Writes the `len` low-order bytes of `n`, least significant first.
pub fn u64_to_le_vec(n: u64, len: usize) -> (r: Vec<u8>)
    requires
        len <= 8,
    ensures
        r@ == le_bytes(n as nat, len as nat),
        r@.len() == len,
{
    let mut r: Vec<u8> = Vec::new();
    let mut x: u64 = n;
    let mut k: usize = 0;
    proof {
        assert(le_bytes(n as nat, len as nat) =~= Seq::empty() + le_bytes(
            n as nat,
            len as nat,
        ));
    }
    while k < len
        invariant
            k <= len,
            r@.len() == k,
            le_bytes(n as nat, len as nat) == r@ + le_bytes(x as nat, (len - k) as nat),
        decreases len - k,
    {
        proof {
            let m = (len - k) as nat;
            assert(le_bytes(x as nat, m) == seq![(x as nat % 256) as u8] + le_bytes(
                x as nat / 256,
                (m - 1) as nat,
            ));
            assert(r@ + le_bytes(x as nat, m) =~= (r@ + seq![(x as nat % 256) as u8]) + le_bytes(
                x as nat / 256,
                (m - 1) as nat,
            ));
            assert(r@.push((x as nat % 256) as u8) =~= r@ + seq![(x as nat % 256) as u8]);
        }
        r.push((x % 256) as u8);
        x = x / 256;
        k = k + 1;
    }
    proof {
        assert(le_bytes(x as nat, 0) =~= Seq::empty());
        assert(r@ + Seq::<u8>::empty() =~= r@);
    }
    r
}

/// Reads `len` bytes at `off` as a signed little-endian value.
pub fn i64_from_le(s: &[u8], off: usize, len: usize) -> (r: i64)
    requires
        off + len <= s@.len(),
        len == 2 || len == 4 || len == 8,
    ensures
        r as int == sign_val(s@.subrange(off as int, off + len)),
{
    let u = le_to_u64(s, off, len);
    proof {
        lemma_pow256(0);
        lemma_le_nat_bound(s@.subrange(off as int, off + len));
    }
    if len == 2 {
        if u < 0x8000 {
            u as i64
        } else {
            (u as i64) - 0x10000
        }
    } else if len == 4 {
        if u < 0x80000000 {
            u as i64
        } else {
            (u as i64) - 0x100000000
        }
    } else {
        if u < 0x8000000000000000 {
            u as i64
        } else {
            ((u - 0x8000000000000000) as i64) + i64::MIN
        }
    }
}

/// Writes `v` as a signed little-endian value of `len` bytes.
pub fn i64_to_le(v: i64, len: usize) -> (r: Vec<u8>)
    requires
        len == 2 || len == 4 || len == 8,
    ensures
        r@ == sign_bytes(v as int, len as nat),
        r@.len() == len,
{
    let u: u64 = if v >= 0 {
        v as u64
    } else {
        ((v - i64::MIN) as u64) + 0x8000000000000000
    };
    proof {
        lemma_pow256(0);
        if v >= 0 {
            lemma_small_mod(v as nat, pow(256, 8) as nat);
        } else {
            lemma_mod_multiples_vanish(1, v as int, pow(256, 8));
            lemma_small_mod((v + pow(256, 8)) as nat, pow(256, 8) as nat);
        }
        assert(u == to_unsigned(v as int, 8));
    }
    let masked: u64 = if len == 2 {
        proof {
            lemma_mod_mod(v as int, 0x10000, 0x1000000000000);
        }
        u % 0x10000
    } else if len == 4 {
        proof {
            lemma_mod_mod(v as int, 0x100000000, 0x100000000);
        }
        u % 0x100000000
    } else {
        u
    };
    u64_to_le_vec(masked, len)
}

} // verus!
