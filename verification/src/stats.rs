//! Population statistics over fixed-point samples: mean and standard
//! deviation, the latter dividing by the sample size (not size minus one).

use vstd::prelude::*;
use crate::fixed::{
    div_trunc, spec_mul, spec_sqrt_fx, fx_sqrt, div_trunc_i128, lemma_square_nonneg, SCALE, FX_MAX,
};

verus! {

/// Largest sample size the statistics functions accept.
pub const MAX_SAMPLES: usize = 0xffff_ffff;

/// Sum of a sample, over mathematical integers.
pub open spec fn spec_sum(s: Seq<i64>) -> int
    decreases s.len(),
{
    if s.len() == 0 {
        0
    } else {
        spec_sum(s.drop_last()) + s.last()
    }
}

/// Population mean: the sum divided by the size, truncated toward zero.
pub open spec fn spec_mean(s: Seq<i64>) -> int {
    div_trunc(spec_sum(s), s.len() as int)
}

/// Sum of squared deviations from `mean`, each square a saturating
/// fixed-point product.
pub open spec fn spec_sq_dev_sum(s: Seq<i64>, mean: int) -> int
    decreases s.len(),
{
    if s.len() == 0 {
        0
    } else {
        spec_sq_dev_sum(s.drop_last(), mean) + spec_mul(s.last() - mean, s.last() - mean)
    }
}

/// Population variance: mean of the squared deviations.
pub open spec fn spec_variance(s: Seq<i64>, mean: int) -> int {
    div_trunc(spec_sq_dev_sum(s, mean), s.len() as int)
}

/// Population standard deviation: fixed-point square root of the variance.
pub open spec fn spec_std_dev(s: Seq<i64>, mean: int) -> int {
    spec_sqrt_fx(spec_variance(s, mean))
}

/// Quotient bound: a sum bounded below by `n` times `-lo` and above by `n`
/// times `hi` divides by `n` into `[-lo, hi]`.
proof fn lemma_div_trunc_bound(sum: int, n: int, lo: int, hi: int)
    requires
        n >= 1,
        lo >= 0,
        hi >= 0,
        -(n * lo) <= sum <= n * hi,
    ensures
        -lo <= div_trunc(sum, n) <= hi,
{
    if sum >= 0 {
        assert(0 <= sum / n <= hi) by (nonlinear_arith)
            requires
                n >= 1,
                0 <= sum <= n * hi,
        ;
    } else {
        assert(0 <= (-sum) / n <= lo) by (nonlinear_arith)
            requires
                n >= 1,
                0 <= -sum <= n * lo,
        ;
    }
}

/// Population mean of a non-empty sample.
pub fn compute_mean(data: &Vec<i64>) -> (r: i64)
    requires
        1 <= data@.len() <= MAX_SAMPLES,
    ensures
        r == spec_mean(data@),
{
    let mut sum: i128 = 0;
    let mut i: usize = 0;
    while i < data.len()
        invariant
            i <= data@.len() <= MAX_SAMPLES,
            sum == spec_sum(data@.take(i as int)),
            -((i as int) * 0x8000_0000_0000_0000) <= sum <= (i as int) * 0x7fff_ffff_ffff_ffff,
        decreases data@.len() - i,
    {
        proof {
            assert(data@.take(i + 1).drop_last() =~= data@.take(i as int));
        }
        sum = sum + (data[i] as i128);
        i = i + 1;
    }
    proof {
        assert(data@.take(data@.len() as int) =~= data@);
        lemma_div_trunc_bound(
            sum as int,
            data@.len() as int,
            0x8000_0000_0000_0000,
            0x7fff_ffff_ffff_ffff,
        );
    }
    let q = div_trunc_i128(sum, data.len() as i128);
    q as i64
}

/// Population standard deviation of a non-empty sample about `mean`.
pub fn compute_std_dev(data: &Vec<i64>, mean: i64) -> (r: i64)
    requires
        1 <= data@.len() <= MAX_SAMPLES,
    ensures
        r == spec_std_dev(data@, mean as int),
{
    let mut sum: u128 = 0;
    let mut i: usize = 0;
    while i < data.len()
        invariant
            i <= data@.len() <= MAX_SAMPLES,
            sum == spec_sq_dev_sum(data@.take(i as int), mean as int),
            0 <= sum <= (i as int) * (FX_MAX as int),
        decreases data@.len() - i,
    {
        proof {
            assert(data@.take(i + 1).drop_last() =~= data@.take(i as int));
        }
        let d: i128 = (data[i] as i128) - (mean as i128);
        let a: u128 = if d >= 0 {
            d as u128
        } else {
            (-d) as u128
        };
        proof {
            assert((a as int) * (a as int) == (d as int) * (d as int)
                && (a as int) * (a as int) <= 0xffff_ffff_ffff_fffe_0000_0000_0000_0001)
                by (nonlinear_arith)
                requires
                    a == if d >= 0 {
                        d as int
                    } else {
                        -(d as int)
                    },
                    -0xffff_ffff_ffff_ffff <= d <= 0xffff_ffff_ffff_ffff,
            ;
        }
        let sq: u128 = a * a;
        let q: u128 = sq / (SCALE as u128);
        let term: u128 = if q > FX_MAX as u128 {
            FX_MAX as u128
        } else {
            q
        };
        proof {
            assert(term == spec_mul(d as int, d as int));
            lemma_square_nonneg(d as int);
        }
        sum = sum + term;
        i = i + 1;
    }
    proof {
        assert(data@.take(data@.len() as int) =~= data@);
        lemma_div_trunc_bound(sum as int, data@.len() as int, 0, FX_MAX as int);
    }
    let variance: u128 = sum / (data.len() as u128);
    proof {
        assert(variance == spec_variance(data@, mean as int));
    }
    fx_sqrt(variance as i64)
}

/// Mean and population standard deviation of a non-empty sample.
pub fn compute_statistics(data: &Vec<i64>) -> (r: (i64, i64))
    requires
        1 <= data@.len() <= MAX_SAMPLES,
    ensures
        r.0 == spec_mean(data@),
        r.1 == spec_std_dev(data@, spec_mean(data@)),
{
    let mean = compute_mean(data);
    let stdev = compute_std_dev(data, mean);
    (mean, stdev)
}

} // verus!
