//! Fixed-point arithmetic: the numeric model of the library.
//!
//! A quantity is an `i64` holding the real value times `SCALE`. Products and
//! quotients are truncated toward zero and every operation saturates at
//! `FX_MAX` / `FX_MIN`, so all operations are total. Each executable operation
//! is pinned exactly to a spec function over mathematical integers.

use vstd::prelude::*;

verus! {

/// One unit of the fixed-point representation: values carry eight decimals.
pub const SCALE: i64 = 100_000_000;

/// Largest representable fixed-point value.
pub const FX_MAX: i64 = i64::MAX;

/// Smallest representable fixed-point value; symmetric to `FX_MAX` so that
/// negation is total.
pub const FX_MIN: i64 = -i64::MAX;

/// Saturate a mathematical integer into the representable range.
pub open spec fn clip(x: int) -> int {
    if x > FX_MAX as int {
        FX_MAX as int
    } else if x < FX_MIN as int {
        FX_MIN as int
    } else {
        x
    }
}

/// Division truncated toward zero, for a positive divisor.
pub open spec fn div_trunc(n: int, d: int) -> int {
    if n >= 0 {
        n / d
    } else {
        -((-n) / d)
    }
}

/// Fixed-point product: `(a * b) / SCALE`, truncated toward zero, saturated.
pub open spec fn spec_mul(a: int, b: int) -> int {
    clip(div_trunc(a * b, SCALE as int))
}

/// Fixed-point quotient: `(a * SCALE) / b`, truncated toward zero, saturated.
/// Used only with a positive divisor.
pub open spec fn spec_div(a: int, b: int) -> int {
    clip(div_trunc(a * SCALE, b))
}

/// Saturating sum.
pub open spec fn spec_add(a: int, b: int) -> int {
    clip(a + b)
}

/// Saturate an `i128` into the fixed-point range.
pub(crate) fn clip_i128(x: i128) -> (r: i64)
    ensures
        r == clip(x as int),
{
    if x > FX_MAX as i128 {
        FX_MAX
    } else if x < FX_MIN as i128 {
        FX_MIN
    } else {
        x as i64
    }
}

/// Magnitude of an `i128` that is no more extreme than `+-(i64::MAX^2)`,
/// as a `u128`.
fn abs_i128(x: i128) -> (r: u128)
    requires
        -0x7fffffffffffffffffffffffffffffff <= x,
    ensures
        r == if x >= 0 { x as int } else { -(x as int) },
{
    if x >= 0 {
        x as u128
    } else {
        (-x) as u128
    }
}

/// Divide an `i128` by a positive divisor, truncating toward zero.
pub(crate) fn div_trunc_i128(n: i128, d: i128) -> (r: i128)
    requires
        d > 0,
        -0x7fffffffffffffffffffffffffffffff <= n,
    ensures
        r == div_trunc(n as int, d as int),
{
    let m: u128 = abs_i128(n);
    let q: u128 = m / (d as u128);
    proof {
        assert(q <= m) by (nonlinear_arith)
            requires
                q == m / (d as u128),
                d > 0,
        ;
    }
    if n >= 0 {
        q as i128
    } else {
        -(q as i128)
    }
}

/// Saturating fixed-point product.
pub fn fx_mul(a: i64, b: i64) -> (r: i64)
    ensures
        r == spec_mul(a as int, b as int),
{
    proof {
        assert(-0x7fffffffffffffffffffffffffffffff <= (a as int) * (b as int)
            <= 0x7fffffffffffffffffffffffffffffff) by (nonlinear_arith)
            requires
                -0x8000000000000000 <= a <= 0x7fffffffffffffff,
                -0x8000000000000000 <= b <= 0x7fffffffffffffff,
        ;
    }
    let p: i128 = (a as i128) * (b as i128);
    let q: i128 = div_trunc_i128(p, SCALE as i128);
    clip_i128(q)
}

/// Saturating fixed-point quotient; the divisor must be positive.
pub fn fx_div(a: i64, b: i64) -> (r: i64)
    requires
        b > 0,
    ensures
        r == spec_div(a as int, b as int),
{
    proof {
        assert(-0x7fffffffffffffffffffffffffffffff <= (a as int) * (SCALE as int)
            <= 0x7fffffffffffffffffffffffffffffff) by (nonlinear_arith)
            requires
                -0x8000000000000000 <= a <= 0x7fffffffffffffff,
        ;
    }
    let p: i128 = (a as i128) * (SCALE as i128);
    let q: i128 = div_trunc_i128(p, b as i128);
    clip_i128(q)
}

/// Saturating fixed-point quotient with a wide dividend; the divisor must be
/// positive.
pub fn fx_div_wide(a: i128, b: i64) -> (r: i64)
    requires
        b > 0,
        -0x1_0000_0000_0000_0000_0000 <= a <= 0x1_0000_0000_0000_0000_0000,
    ensures
        r == spec_div(a as int, b as int),
{
    proof {
        assert(-0x7fffffffffffffffffffffffffffffff <= (a as int) * (SCALE as int)
            <= 0x7fffffffffffffffffffffffffffffff) by (nonlinear_arith)
            requires
                -0x1_0000_0000_0000_0000_0000 <= a <= 0x1_0000_0000_0000_0000_0000,
        ;
    }
    let p: i128 = a * (SCALE as i128);
    let q: i128 = div_trunc_i128(p, b as i128);
    clip_i128(q)
}

/// A non-negative value divides by a positive one into a non-negative one.
pub proof fn lemma_div_nonneg(a: int, b: int)
    requires
        a >= 0,
        b > 0,
    ensures
        spec_div(a, b) >= 0,
{
    assert(a * SCALE >= 0 && (a * SCALE) / b >= 0) by (nonlinear_arith)
        requires
            a >= 0,
            b > 0,
    ;
}

/// A proper fraction of a positive value stays below one unit.
pub proof fn lemma_div_proper_frac(a: int, b: int)
    requires
        0 <= a < b,
    ensures
        0 <= spec_div(a, b) < SCALE,
{
    assert(a * SCALE >= 0 && (a * SCALE) / b < SCALE) by (nonlinear_arith)
        requires
            0 <= a < b,
    ;
}

/// Saturating sum of two fixed-point values.
pub fn fx_add(a: i64, b: i64) -> (r: i64)
    ensures
        r == spec_add(a as int, b as int),
{
    clip_i128((a as i128) + (b as i128))
}

/// `r` is the integer square root of `v`, rounded down.
pub open spec fn is_floor_sqrt(v: int, r: int) -> bool {
    0 <= r && r * r <= v && v < (r + 1) * (r + 1)
}

/// The integer square root of `v`, rounded down (for `v >= 0`).
pub open spec fn spec_sqrt(v: int) -> int {
    choose|r: int| is_floor_sqrt(v, r)
}

/// Fixed-point square root: the real root of `x / SCALE`, times `SCALE`,
/// rounded down.
pub open spec fn spec_sqrt_fx(x: int) -> int {
    spec_sqrt(x * SCALE)
}

/// The floor square root is unique.
pub proof fn lemma_floor_sqrt_unique(v: int, r1: int, r2: int)
    requires
        is_floor_sqrt(v, r1),
        is_floor_sqrt(v, r2),
    ensures
        r1 == r2,
{
    if r1 < r2 {
        assert((r1 + 1) * (r1 + 1) <= r2 * r2) by (nonlinear_arith)
            requires
                0 <= r1,
                r1 < r2,
        ;
    }
    if r2 < r1 {
        assert((r2 + 1) * (r2 + 1) <= r1 * r1) by (nonlinear_arith)
            requires
                0 <= r2,
                r2 < r1,
        ;
    }
}

/// Integer square root by interval halving.
fn sqrt_u128(v: u128) -> (r: u128)
    requires
        v < 0x4000_0000_0000_0000_0000_0000,
    ensures
        is_floor_sqrt(v as int, r as int),
{
    let mut lo: u128 = 0;
    let mut hi: u128 = 0x8000_0000_0000;
    proof {
        assert(hi * hi == 0x4000_0000_0000_0000_0000_0000) by (nonlinear_arith)
            requires
                hi == 0x8000_0000_0000,
        ;
    }
    while hi - lo > 1
        invariant
            lo < hi,
            hi <= 0x8000_0000_0000,
            lo * lo <= v,
            v < hi * hi,
        decreases hi - lo,
    {
        let mid: u128 = lo + (hi - lo) / 2;
        proof {
            assert(mid * mid < 0x4000_0000_0000_0000_0000_0001) by (nonlinear_arith)
                requires
                    mid <= 0x8000_0000_0000,
            ;
        }
        if mid * mid <= v {
            lo = mid;
        } else {
            hi = mid;
        }
    }
    lo
}

/// Saturating fixed-point square root of a non-negative value.
pub fn fx_sqrt(x: i64) -> (r: i64)
    requires
        x >= 0,
    ensures
        r == spec_sqrt_fx(x as int),
        is_floor_sqrt(x * SCALE, r as int),
        0 <= r,
{
    proof {
        assert((x as int) * (SCALE as int) < 0x4000_0000_0000_0000_0000_0000) by (nonlinear_arith)
            requires
                0 <= x <= 0x7fff_ffff_ffff_ffff,
        ;
    }
    let v: u128 = (x as u128) * (SCALE as u128);
    let r = sqrt_u128(v);
    proof {
        assert(r < 0x8000_0000_0000) by (nonlinear_arith)
            requires
                (r as int) * (r as int) <= v as int,
                v < 0x4000_0000_0000_0000_0000_0000,
        ;
        assert(is_floor_sqrt(v as int, spec_sqrt(v as int))) by {
            assert(is_floor_sqrt(v as int, r as int));
        }
        lemma_floor_sqrt_unique(v as int, spec_sqrt(v as int), r as int);
    }
    r as i64
}

/// Fixed-point integer power: `x` to the `k`, saturating at each product.
pub open spec fn spec_ipow(x: int, k: nat) -> int
    decreases k,
{
    if k == 0 {
        SCALE as int
    } else {
        spec_mul(x, spec_ipow(x, (k - 1) as nat))
    }
}

/// A fixed-point product of non-negative values is non-negative.
pub proof fn lemma_mul_nonneg(a: int, b: int)
    requires
        a >= 0,
        b >= 0,
    ensures
        spec_mul(a, b) >= 0,
{
    assert(a * b >= 0) by (nonlinear_arith)
        requires
            a >= 0,
            b >= 0,
    ;
}

/// A fixed-point square is non-negative.
pub proof fn lemma_square_nonneg(a: int)
    ensures
        spec_mul(a, a) >= 0,
{
    assert(a * a >= 0) by (nonlinear_arith);
}

/// Saturating fixed-point integer power.
pub fn fx_ipow(x: i64, k: u64) -> (r: i64)
    requires
        x >= 0,
    ensures
        r == spec_ipow(x as int, k as nat),
        r >= 0,
{
    let mut acc: i64 = SCALE;
    let mut i: u64 = 0;
    while i < k
        invariant
            0 <= i <= k,
            0 <= x,
            acc == spec_ipow(x as int, i as nat),
            acc >= 0,
        decreases k - i,
    {
        proof {
            lemma_mul_nonneg(x as int, acc as int);
        }
        acc = fx_mul(x, acc);
        i = i + 1;
    }
    acc
}

/// Number of binary digits used for the fractional part of an exponent.
pub open spec fn frac_pow_bits() -> nat {
    32
}

/// Fixed-point power with a fractional exponent in `[0, 1)`: `x` to the
/// `rem / den`, by the binary expansion of the exponent, `bits` digits deep.
/// Each digit contributes one square root, rounded down at `SCALE`.
pub open spec fn spec_frac_pow(x: int, rem: int, den: int, bits: nat) -> int
    decreases bits,
{
    if bits == 0 || rem <= 0 {
        SCALE as int
    } else {
        let root = spec_sqrt_fx(x);
        let doubled = 2 * rem;
        if doubled >= den {
            spec_mul(root, spec_frac_pow(root, doubled - den, den, (bits - 1) as nat))
        } else {
            spec_frac_pow(root, doubled, den, (bits - 1) as nat)
        }
    }
}

/// Saturating fixed-point power with fractional exponent `rem / den < 1`.
fn fx_frac_pow(x: i64, rem: u64, den: u64, bits: u32) -> (r: i64)
    requires
        x >= 0,
        0 < den <= 0x7fff_ffff_ffff_ffff,
        rem < den,
    ensures
        r == spec_frac_pow(x as int, rem as int, den as int, bits as nat),
        r >= 0,
    decreases bits,
{
    if bits == 0 || rem == 0 {
        SCALE
    } else {
        let root = fx_sqrt(x);
        let doubled: u64 = 2 * rem;
        if doubled >= den {
            let rest = fx_frac_pow(root, doubled - den, den, bits - 1);
            proof {
                lemma_mul_nonneg(root as int, rest as int);
            }
            fx_mul(root, rest)
        } else {
            fx_frac_pow(root, doubled, den, bits - 1)
        }
    }
}

/// Fixed-point power with a non-negative rational exponent: `x` to the
/// `num / den`, as the integer-power part times the fractional-power part.
pub open spec fn spec_pow_frac(x: int, num: int, den: int) -> int {
    spec_mul(spec_ipow(x, (num / den) as nat), spec_frac_pow(x, num % den, den, frac_pow_bits()))
}

/// Saturating fixed-point power with non-negative rational exponent.
pub fn fx_pow_frac(x: i64, num: u64, den: u64) -> (r: i64)
    requires
        x >= 0,
        0 < den <= 0x7fff_ffff_ffff_ffff,
    ensures
        r == spec_pow_frac(x as int, num as int, den as int),
        r >= 0,
{
    let whole = fx_ipow(x, num / den);
    let part = fx_frac_pow(x, num % den, den, 32);
    proof {
        lemma_mul_nonneg(whole as int, part as int);
    }
    fx_mul(whole, part)
}

} // verus!
