//! Equity-curve simulation: one resampled trajectory, its maximum drawdown,
//! the compounded annual growth rate of a finished curve, and the empirical
//! tail risk over many trajectories.

use vstd::prelude::*;
use crate::fixed::{
    clip, div_trunc, spec_add, spec_mul, spec_div, spec_pow_frac, fx_add, fx_mul, fx_div,
    fx_div_wide, fx_pow_frac, clip_i128, lemma_div_nonneg, lemma_div_proper_frac, SCALE,
};
use crate::rng::{RandomStream, uniform_index_draw, const_hist, lemma_const_hist_add};

verus! {

/// A sample as mathematical integers.
pub open spec fn seq_int(s: Seq<i64>) -> Seq<int> {
    s.map_values(|v: i64| v as int)
}

/// Largest count (steps, curves, repetitions, days) the engine accepts.
pub const MAX_COUNT: usize = 0xffff_ffff;

/// One simulation step: the equity plus `trade * fraction * equity`.
pub open spec fn step_equity(eq: int, trade: int, frac: int) -> int {
    spec_add(eq, spec_mul(spec_mul(trade, frac), eq))
}

/// The trade a draw selects; zero if the draw fell outside the series (it
/// cannot — the guard only keeps the function total).
pub open spec fn trade_at(trades: Seq<i64>, idx: int) -> int {
    if 0 <= idx < trades.len() {
        trades[idx] as int
    } else {
        0
    }
}

/// The equity curve a stream produces: `steps + 1` values, the first the
/// initial capital, each further one stepped by a uniformly drawn trade.
pub open spec fn spec_equity_curve(
    trades: Seq<i64>,
    frac: int,
    steps: nat,
    init: int,
    seed: u64,
    hist: Seq<int>,
) -> Seq<int>
    decreases steps,
{
    if steps == 0 {
        seq![init]
    } else {
        let prev = spec_equity_curve(trades, frac, (steps - 1) as nat, init, seed, hist);
        let idx = uniform_index_draw(
            seed,
            hist + const_hist(trades.len() as int, (steps - 1) as nat),
            trades.len() as int,
        );
        prev.push(step_equity(prev.last(), trade_at(trades, idx), frac))
    }
}

/// The curve has `steps + 1` values and starts at the initial capital.
pub proof fn lemma_curve_shape(
    trades: Seq<i64>,
    frac: int,
    steps: nat,
    init: int,
    seed: u64,
    hist: Seq<int>,
)
    ensures
        spec_equity_curve(trades, frac, steps, init, seed, hist).len() == steps + 1,
        spec_equity_curve(trades, frac, steps, init, seed, hist)[0] == init,
    decreases steps,
{
    if steps > 0 {
        lemma_curve_shape(trades, frac, (steps - 1) as nat, init, seed, hist);
    }
}

/// Maximum drawdown of the tail of a curve, given the running peak and the
/// largest drawdown seen so far.
pub open spec fn spec_drawdown_from(curve: Seq<int>, i: nat, peak: int, best: int) -> int
    decreases curve.len() - i,
{
    if i >= curve.len() {
        best
    } else {
        let p = if curve[i as int] > peak {
            curve[i as int]
        } else {
            peak
        };
        let dd = spec_div(p - curve[i as int], p);
        let b = if dd > best {
            dd
        } else {
            best
        };
        spec_drawdown_from(curve, i + 1, p, b)
    }
}

/// Maximum drawdown of a curve: largest relative decline from a running peak,
/// scanned from the second value on.
pub open spec fn spec_max_drawdown(curve: Seq<int>) -> int {
    spec_drawdown_from(curve, 1, curve[0], 0)
}

/// Maximum drawdown of an equity curve whose first value is positive.
pub fn calculate_drawdown(equity_curve: &Vec<i64>) -> (r: i64)
    requires
        equity_curve@.len() >= 1,
        equity_curve@[0] > 0,
    ensures
        r == spec_max_drawdown(seq_int(equity_curve@)),
        r >= 0,
        (forall|j: int| 0 <= j < equity_curve@.len() ==> equity_curve@[j] > 0) ==> r <= SCALE,
{
    let ghost gcurve = seq_int(equity_curve@);
    let mut peak: i64 = equity_curve[0];
    let mut max_drawdown: i64 = 0;
    let mut i: usize = 1;
    while i < equity_curve.len()
        invariant
            1 <= i <= equity_curve@.len(),
            gcurve == seq_int(equity_curve@),
            peak > 0,
            max_drawdown >= 0,
            spec_drawdown_from(gcurve, i as nat, peak as int, max_drawdown as int)
                == spec_max_drawdown(gcurve),
            (forall|j: int| 0 <= j < i ==> equity_curve@[j] > 0) ==> max_drawdown <= SCALE,
        decreases equity_curve@.len() - i,
    {
        let e = equity_curve[i];
        if e > peak {
            peak = e;
        }
        let num: i128 = (peak as i128) - (e as i128);
        let dd = fx_div_wide(num, peak);
        proof {
            lemma_div_nonneg(num as int, peak as int);
            if e > 0 {
                lemma_div_proper_frac(num as int, peak as int);
            }
        }
        if dd > max_drawdown {
            max_drawdown = dd;
        }
        i = i + 1;
    }
    max_drawdown
}

/// Forecast years in fixed point: trading days divided by 252.
pub open spec fn spec_years(days: int) -> int {
    spec_div(days, 252)
}

/// Forecast years in fixed point from a number of trading days.
pub fn years_from_days(number_days_in_forecast: usize) -> (r: i64)
    requires
        number_days_in_forecast <= MAX_COUNT,
    ensures
        r == spec_years(number_days_in_forecast as int),
        r >= 0,
{
    let q: u64 = (number_days_in_forecast as u64) * (SCALE as u64) / 252;
    q as i64
}

/// Compounded annual growth rate, in fixed-point percent: the growth ratio
/// raised to the reciprocal of the years, less one, times one hundred. Zero
/// whenever the initial equity, the final equity, or the years are
/// non-positive.
pub open spec fn spec_cagr(initial: int, ending: int, years: int) -> int {
    if initial <= 0 || ending <= 0 || years <= 0 {
        0
    } else {
        let ratio = spec_div(ending, initial);
        let grown = spec_pow_frac(ratio, SCALE as int, years);
        clip((grown - SCALE) * 100)
    }
}

/// Compounded annual growth rate of a capital move over a number of years.
pub fn calculate_cagr(initial_equity: i64, final_equity: i64, years: i64) -> (r: i64)
    ensures
        r == spec_cagr(initial_equity as int, final_equity as int, years as int),
{
    if initial_equity <= 0 || final_equity <= 0 || years <= 0 {
        return 0;
    }
    let ratio = fx_div(final_equity, initial_equity);
    proof {
        lemma_div_nonneg(final_equity as int, initial_equity as int);
    }
    let grown = fx_pow_frac(ratio, SCALE as u64, years as u64);
    clip_i128(((grown as i128) - (SCALE as i128)) * 100)
}

/// The CAGR is zero whenever the initial equity, the final equity, or the
/// years are non-positive.
pub proof fn lemma_cagr_zero_on_nonpositive_inputs(initial: int, ending: int, years: int)
    requires
        initial <= 0 || ending <= 0 || years <= 0,
    ensures
        spec_cagr(initial, ending, years) == 0,
{
}

/// Simulate one resampled equity curve and its maximum drawdown, consuming
/// one draw of the stream per step.
pub fn make_one_equity_sequence(
    trades: &Vec<i64>,
    fraction: i64,
    number_trades_in_forecast: usize,
    initial_capital: i64,
    rng: &mut RandomStream,
) -> (r: (Vec<i64>, i64))
    requires
        trades@.len() >= 1,
        fraction >= 0,
        initial_capital > 0,
    ensures
        seq_int(r.0@) == spec_equity_curve(
            trades@,
            fraction as int,
            number_trades_in_forecast as nat,
            initial_capital as int,
            old(rng).seed(),
            old(rng).history(),
        ),
        r.0@.len() == number_trades_in_forecast + 1,
        r.0@[0] == initial_capital,
        r.1 == spec_max_drawdown(seq_int(r.0@)),
        r.1 >= 0,
        (forall|j: int| 0 <= j < r.0@.len() ==> r.0@[j] > 0) ==> r.1 <= SCALE,
        final(rng).seed() == old(rng).seed(),
        final(rng).history() == old(rng).history() + const_hist(
            trades@.len() as int,
            number_trades_in_forecast as nat,
        ),
{
    let ghost seed = rng.seed();
    let ghost hist0 = rng.history();
    let mut curve: Vec<i64> = Vec::new();
    curve.push(initial_capital);
    proof {
        assert(seq_int(curve@) =~= spec_equity_curve(
            trades@,
            fraction as int,
            0,
            initial_capital as int,
            seed,
            hist0,
        ));
        assert(hist0 + const_hist(trades@.len() as int, 0) =~= hist0);
    }
    let mut i: usize = 0;
    while i < number_trades_in_forecast
        invariant
            i <= number_trades_in_forecast,
            trades@.len() >= 1,
            fraction >= 0,
            initial_capital > 0,
            curve@.len() == i + 1,
            curve@[0] == initial_capital,
            seq_int(curve@) == spec_equity_curve(
                trades@,
                fraction as int,
                i as nat,
                initial_capital as int,
                seed,
                hist0,
            ),
            rng.seed() == seed,
            rng.history() == hist0 + const_hist(trades@.len() as int, i as nat),
        decreases number_trades_in_forecast - i,
    {
        let ghost prev_curve = seq_int(curve@);
        let idx = rng.draw_index(trades.len());
        let last = curve[curve.len() - 1];
        let tr = trades[idx];
        let delta = fx_mul(fx_mul(tr, fraction), last);
        let new_equity = fx_add(last, delta);
        curve.push(new_equity);
        proof {
            assert((hist0 + const_hist(trades@.len() as int, i as nat)).push(
                trades@.len() as int,
            ) =~= hist0 + const_hist(trades@.len() as int, (i + 1) as nat));
            assert(prev_curve.last() == last);
            assert(seq_int(curve@) =~= prev_curve.push(
                step_equity(last as int, tr as int, fraction as int),
            ));
        }
        i = i + 1;
    }
    let max_drawdown = calculate_drawdown(&curve);
    (curve, max_drawdown)
}

/// How many of `n` simulated curves breach the drawdown tolerance.
pub open spec fn spec_exceed_count(
    trades: Seq<i64>,
    frac: int,
    steps: nat,
    init: int,
    tol: int,
    n: nat,
    seed: u64,
    hist: Seq<int>,
) -> int
    decreases n,
{
    if n == 0 {
        0
    } else {
        let prev = spec_exceed_count(trades, frac, steps, init, tol, (n - 1) as nat, seed, hist);
        let dd = spec_max_drawdown(
            spec_equity_curve(
                trades,
                frac,
                steps,
                init,
                seed,
                hist + const_hist(trades.len() as int, ((n - 1) * steps) as nat),
            ),
        );
        prev + if dd > tol {
            1int
        } else {
            0int
        }
    }
}

/// Empirical tail risk: the fraction of `n` simulated curves whose maximum
/// drawdown exceeds the tolerance, in fixed point.
pub open spec fn spec_tail_risk(
    trades: Seq<i64>,
    frac: int,
    steps: nat,
    init: int,
    tol: int,
    n: nat,
    seed: u64,
    hist: Seq<int>,
) -> int {
    div_trunc(spec_exceed_count(trades, frac, steps, init, tol, n, seed, hist) * SCALE, n as int)
}

/// Estimate the tail risk at a fixed fraction: simulate
/// `number_equity_in_cdf` curves off the stream and report the fraction of
/// them whose maximum drawdown exceeds the tolerance.
pub fn analyze_distribution_of_drawdown(
    trades: &Vec<i64>,
    fraction: i64,
    number_trades_in_forecast: usize,
    initial_capital: i64,
    drawdown_tolerance: i64,
    number_equity_in_cdf: usize,
    rng: &mut RandomStream,
) -> (r: i64)
    requires
        trades@.len() >= 1,
        fraction >= 0,
        initial_capital > 0,
        1 <= number_equity_in_cdf <= MAX_COUNT,
    ensures
        r == spec_tail_risk(
            trades@,
            fraction as int,
            number_trades_in_forecast as nat,
            initial_capital as int,
            drawdown_tolerance as int,
            number_equity_in_cdf as nat,
            old(rng).seed(),
            old(rng).history(),
        ),
        0 <= r <= SCALE,
        final(rng).seed() == old(rng).seed(),
        final(rng).history() == old(rng).history() + const_hist(
            trades@.len() as int,
            (number_equity_in_cdf * number_trades_in_forecast) as nat,
        ),
{
    let ghost seed = rng.seed();
    let ghost hist0 = rng.history();
    let ghost steps = number_trades_in_forecast as nat;
    let mut count_exceed: u64 = 0;
    let mut k: usize = 0;
    proof {
        assert(hist0 + const_hist(trades@.len() as int, 0) =~= hist0);
    }
    while k < number_equity_in_cdf
        invariant
            k <= number_equity_in_cdf <= MAX_COUNT,
            trades@.len() >= 1,
            fraction >= 0,
            initial_capital > 0,
            steps == number_trades_in_forecast as nat,
            count_exceed == spec_exceed_count(
                trades@,
                fraction as int,
                steps,
                initial_capital as int,
                drawdown_tolerance as int,
                k as nat,
                seed,
                hist0,
            ),
            count_exceed <= k,
            rng.seed() == seed,
            rng.history() == hist0 + const_hist(
                trades@.len() as int,
                (k * number_trades_in_forecast) as nat,
            ),
        decreases number_equity_in_cdf - k,
    {
        let (_equity_curve, max_drawdown) = make_one_equity_sequence(
            trades,
            fraction,
            number_trades_in_forecast,
            initial_capital,
            rng,
        );
        if max_drawdown > drawdown_tolerance {
            count_exceed = count_exceed + 1;
        }
        proof {
            lemma_const_hist_add(
                trades@.len() as int,
                (k * number_trades_in_forecast) as nat,
                steps,
            );
            assert((hist0 + const_hist(trades@.len() as int, (k * number_trades_in_forecast) as nat))
                + const_hist(trades@.len() as int, steps) =~= hist0 + (const_hist(
                trades@.len() as int,
                (k * number_trades_in_forecast) as nat,
            ) + const_hist(trades@.len() as int, steps)));
            assert((k + 1) * number_trades_in_forecast == k * number_trades_in_forecast
                + number_trades_in_forecast) by (nonlinear_arith);
            let n1 = (k + 1) as nat;
            assert(((n1 - 1) * steps) as nat == (k * number_trades_in_forecast) as nat);
            assert(spec_exceed_count(
                trades@,
                fraction as int,
                steps,
                initial_capital as int,
                drawdown_tolerance as int,
                n1,
                seed,
                hist0,
            ) == spec_exceed_count(
                trades@,
                fraction as int,
                steps,
                initial_capital as int,
                drawdown_tolerance as int,
                (n1 - 1) as nat,
                seed,
                hist0,
            ) + if spec_max_drawdown(
                spec_equity_curve(
                    trades@,
                    fraction as int,
                    steps,
                    initial_capital as int,
                    seed,
                    hist0 + const_hist(trades@.len() as int, ((n1 - 1) * steps) as nat),
                ),
            ) > drawdown_tolerance {
                1int
            } else {
                0int
            });
        }
        k = k + 1;
    }
    proof {
        assert((count_exceed as int) * (SCALE as int) <= (number_equity_in_cdf as int) * (
        SCALE as int)) by (nonlinear_arith)
            requires
                count_exceed <= number_equity_in_cdf,
        ;
        assert((count_exceed as int) * (SCALE as int) / (number_equity_in_cdf as int) <= SCALE
            && (count_exceed as int) * (SCALE as int) / (number_equity_in_cdf as int) >= 0)
            by (nonlinear_arith)
            requires
                number_equity_in_cdf >= 1,
                0 <= (count_exceed as int) * (SCALE as int) <= (number_equity_in_cdf as int) * (
                SCALE as int),
        ;
    }
    let risk: u64 = count_exceed * (SCALE as u64) / (number_equity_in_cdf as u64);
    risk as i64
}

} // verus!
