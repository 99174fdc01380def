//! Fixed-point base-2 logarithms and the entropy key that orders cells in the
//! observer's priority queue.
//!
//! The entropy of a cell is `log2(sumW) - sumWLogW / sumW` over the weights of
//! its admitted patterns. It is held in fixed point with [`FRACTIONAL_BITS`]
//! fractional bits: integer arithmetic gives a total, deterministic order,
//! which is all the observer needs of it.

use vstd::prelude::*;
use vstd::arithmetic::power2::{lemma2_to64, lemma_pow2_unfold, pow2};

verus! {

/// Number of fractional bits in a fixed-point logarithm.
pub const FRACTIONAL_BITS: u32 = 16;

pub open spec fn spec_pow2_int(e: nat) -> int {
    pow2(e) as int
}

/// How many times `m` halves before dropping below `2^33`: the integer part
/// of `log2(m / 2^32)` for `m >= 2^32`.
pub open spec fn spec_norm_shift(m: int) -> int
    decreases m,
{
    if m < 0x2_0000_0000 {
        0
    } else {
        1 + spec_norm_shift(m / 2)
    }
}

/// The value of `m` after those halvings: the mantissa, in `[2^32, 2^33)`
/// when `m >= 2^32`.
pub open spec fn spec_norm_mantissa(m: int) -> int
    decreases m,
{
    if m < 0x2_0000_0000 {
        m
    } else {
        spec_norm_mantissa(m / 2)
    }
}

/// Fraction bits of `log2` by repeated squaring: the mantissa `z` (in
/// `[2^32, 2^33)`, scale `2^32`) is squared and rescaled; each step that
/// renormalizes by halving contributes one set fraction bit.
pub open spec fn spec_frac_bits(z: int, k: int) -> int
    decreases k,
{
    if k <= 0 {
        0
    } else {
        let z2 = z * z / 0x1_0000_0000;
        if z2 >= 0x2_0000_0000 {
            spec_pow2_int((k - 1) as nat) + spec_frac_bits(z2 / 2, k - 1)
        } else {
            spec_frac_bits(z2, k - 1)
        }
    }
}

/// `floor`-style fixed-point `log2(x)` with sixteen fraction bits: normalize
/// `x * 2^32` to a mantissa in `[2^32, 2^33)` (the number of halvings is the
/// integer part), then extract the fraction by repeated squaring.
pub open spec fn spec_log2_fix(x: int) -> int {
    let m = x * 0x1_0000_0000;
    spec_norm_shift(m) * 0x1_0000 + spec_frac_bits(spec_norm_mantissa(m), FRACTIONAL_BITS as int)
}

proof fn lemma_norm_shift_nonneg(m: int)
    ensures
        spec_norm_shift(m) >= 0,
    decreases m,
{
    if m >= 0x2_0000_0000 {
        lemma_norm_shift_nonneg(m / 2);
    }
}

proof fn lemma_norm_shift_bound(m: int, b: nat)
    requires
        m < 0x2_0000_0000 * spec_pow2_int(b),
    ensures
        spec_norm_shift(m) <= b,
    decreases b,
{
    if m >= 0x2_0000_0000 {
        if b == 0 {
            vstd::arithmetic::power2::lemma_pow2_pos(0);
            assert(spec_pow2_int(0) == 1) by {
                lemma2_to64();
            }
        } else {
            lemma_pow2_unfold(b);
            assert(m / 2 < 0x2_0000_0000 * spec_pow2_int((b - 1) as nat));
            lemma_norm_shift_bound(m / 2, (b - 1) as nat);
        }
    }
}

proof fn lemma_norm_mantissa_range(m: int)
    requires
        m >= 0x1_0000_0000,
    ensures
        0x1_0000_0000 <= spec_norm_mantissa(m) < 0x2_0000_0000,
    decreases m,
{
    if m >= 0x2_0000_0000 {
        lemma_norm_mantissa_range(m / 2);
    }
}

pub fn log2_fix(x: u32) -> (r: u64)
    requires
        x >= 1,
    ensures
        r == spec_log2_fix(x as int),
        r < 0x20_0000,
{
    let m0: u64 = (x as u64) * 0x1_0000_0000;
    let ghost m0i = m0 as int;
    let mut m: u64 = m0;
    let mut ip: u32 = 0;
    proof {
        lemma2_to64();
        assert(spec_pow2_int(31) == 0x8000_0000);
        assert(m0i < 0x2_0000_0000 * spec_pow2_int(31));
        lemma_norm_shift_bound(m0i, 31);
        lemma_norm_shift_nonneg(m0i);
    }
    while m >= 0x2_0000_0000
        invariant
            m >= 0x1_0000_0000,
            spec_norm_shift(m0i) == ip + spec_norm_shift(m as int),
            spec_norm_mantissa(m0i) == spec_norm_mantissa(m as int),
            spec_norm_shift(m0i) <= 31,
        decreases m,
    {
        proof {
            lemma_norm_shift_nonneg(m as int / 2);
        }
        m = m / 2;
        ip = ip + 1;
    }
    proof {
        assert(spec_norm_shift(m as int) == 0);
        assert(ip == spec_norm_shift(m0i));
        lemma_norm_mantissa_range(m0i);
    }
    let mut z: u64 = m;
    let mut frac: u64 = 0;
    let mut k: u32 = FRACTIONAL_BITS;
    proof {
        assert(spec_pow2_int(16) == 0x1_0000);
    }
    while k > 0
        invariant
            0x1_0000_0000 <= z < 0x2_0000_0000,
            k <= 16,
            frac + spec_pow2_int(k as nat) <= 0x1_0000,
            frac + spec_frac_bits(z as int, k as int) == spec_frac_bits(
                spec_norm_mantissa(m0i),
                16,
            ),
        decreases k,
    {
        proof {
            assert((z as int) * (z as int) < 0x4_0000_0000_0000_0000) by (nonlinear_arith)
                requires
                    0 <= z < 0x2_0000_0000,
            ;
            assert((z as int) * (z as int) >= 0x1_0000_0000_0000_0000) by (nonlinear_arith)
                requires
                    z >= 0x1_0000_0000,
            ;
        }
        let z2_wide: u128 = (z as u128) * (z as u128) / 0x1_0000_0000;
        let mut z2: u64 = z2_wide as u64;
        proof {
            lemma_pow2_unfold(k as nat);
        }
        if z2 >= 0x2_0000_0000 {
            z2 = z2 / 2;
            frac = frac + pow16_bit(k - 1);
        }
        z = z2;
        k = k - 1;
    }
    (ip as u64) * 0x1_0000 + frac
}

/// `2^e` for `e < 16`, used to set one fraction bit.
fn pow16_bit(e: u32) -> (r: u64)
    requires
        e < 16,
    ensures
        r == spec_pow2_int(e as nat),
{
    let mut r: u64 = 1;
    let mut i: u32 = 0;
    proof {
        lemma2_to64();
    }
    while i < e
        invariant
            i <= e < 16,
            r == spec_pow2_int(i as nat),
            r <= 0x8000,
        decreases e - i,
    {
        proof {
            lemma_pow2_unfold((i + 1) as nat);
            lemma2_to64();
            if i + 1 < 15 {
                vstd::arithmetic::power2::lemma_pow2_strictly_increases((i + 1) as nat, 15);
            }
        }
        r = r * 2;
        i = i + 1;
    }
    r
}

/// The fixed-point entropy of a weight distribution:
/// `log2(sum_weight) - sum_weight_log_weight / sum_weight`, rounded down.
pub open spec fn spec_entropy_fix(sum_weight: int, sum_weight_log_weight: int) -> int {
    spec_log2_fix(sum_weight) - sum_weight_log_weight / sum_weight
}

pub fn entropy_fix(sum_weight: u32, sum_weight_log_weight: u64) -> (r: i64)
    requires
        sum_weight >= 1,
        sum_weight_log_weight < 0x20_0000_0000_0000,
    ensures
        r == spec_entropy_fix(sum_weight as int, sum_weight_log_weight as int),
{
    let lg = log2_fix(sum_weight);
    let avg = sum_weight_log_weight / (sum_weight as u64);
    (lg as i64) - (avg as i64)
}


/// `spec_frac_bits` yields a value in `[0, 2^k)`.
pub proof fn lemma_frac_bits_range(z: int, k: int)
    requires
        k >= 0,
    ensures
        0 <= spec_frac_bits(z, k) < spec_pow2_int(k as nat),
    decreases k,
{
    vstd::arithmetic::power2::lemma_pow2_pos(k as nat);
    if k == 0 {
        lemma2_to64();
    } else {
        let z2 = z * z / 0x1_0000_0000;
        lemma_pow2_unfold(k as nat);
        if z2 >= 0x2_0000_0000 {
            lemma_frac_bits_range(z2 / 2, k - 1);
        } else {
            lemma_frac_bits_range(z2, k - 1);
        }
    }
}

/// `spec_log2_fix` of a positive `u32` lies in `[0, 2^21)`.
pub proof fn lemma_log2_fix_range(x: int)
    requires
        1 <= x <= u32::MAX,
    ensures
        0 <= spec_log2_fix(x) < 0x20_0000,
{
    let m = x * 0x1_0000_0000;
    lemma2_to64();
    assert(spec_pow2_int(31) == 0x8000_0000);
    assert(spec_pow2_int(16) == 0x1_0000);
    lemma_norm_shift_nonneg(m);
    lemma_norm_shift_bound(m, 31);
    lemma_frac_bits_range(spec_norm_mantissa(m), 16);
}

} // verus!
