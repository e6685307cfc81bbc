//! The calibration engine: bisection search for the safe fraction, CAR25
//! aggregation, one full trial, and the sequential and parallel orchestrators
//! that repeat trials and report mean and standard deviation of both samples.

use vstd::prelude::*;
use rayon::iter::IntoParallelRefIterator;
use rayon::iter::ParallelIterator;
use crate::fixed::{div_trunc, SCALE};
use crate::rng::{
    RandomStream, stdrng_next_word, word_draw, const_hist, lemma_const_hist_add,
};
use crate::sim::{
    spec_equity_curve, spec_tail_risk, spec_cagr, spec_years, seq_int, MAX_COUNT,
    analyze_distribution_of_drawdown, make_one_equity_sequence, calculate_cagr, years_from_days,
};
use crate::sort::spec_insert_sorted;
use crate::sort::{spec_sort, sort_ascending};
use crate::stats::{spec_mean, spec_std_dev, compute_statistics};

verus! {

/// The four summary numbers of a run: mean and standard deviation of the safe
/// fraction and of CAR25, across repetitions, in fixed point.
#[derive(Clone, Copy, Debug, PartialEq, Eq, Structural)]
pub struct RiskNormalizationResult {
    pub safe_f_mean: i64,
    pub safe_f_stdev: i64,
    pub car25_mean: i64,
    pub car25_stdev: i64,
}

/// A terminal failure of a run, carrying its description.
#[derive(Debug)]
pub struct RiskNormalizationError(pub String);

impl RiskNormalizationError {
    /// The description this error carries.
    pub fn message(&self) -> (r: &String)
        ensures
            r@ == self.0@,
    {
        &self.0
    }
}

/// The character of one decimal digit.
pub open spec fn spec_digit_char(d: int) -> char {
    if d == 0 {
        '0'
    } else if d == 1 {
        '1'
    } else if d == 2 {
        '2'
    } else if d == 3 {
        '3'
    } else if d == 4 {
        '4'
    } else if d == 5 {
        '5'
    } else if d == 6 {
        '6'
    } else if d == 7 {
        '7'
    } else if d == 8 {
        '8'
    } else {
        '9'
    }
}

/// The decimal digits of a number, most significant first.
pub open spec fn spec_decimal(n: nat) -> Seq<char>
    decreases n,
{
    if n < 10 {
        seq![spec_digit_char(n as int)]
    } else {
        spec_decimal(n / 10).push(spec_digit_char((n % 10) as int))
    }
}

/// One decimal digit as text.
fn digit_str(d: u64) -> (r: &'static str)
    requires
        d < 10,
    ensures
        r@ == seq![spec_digit_char(d as int)],
{
    proof {
        reveal_strlit("0");
        reveal_strlit("1");
        reveal_strlit("2");
        reveal_strlit("3");
        reveal_strlit("4");
        reveal_strlit("5");
        reveal_strlit("6");
        reveal_strlit("7");
        reveal_strlit("8");
        reveal_strlit("9");
    }
    if d == 0 {
        "0"
    } else if d == 1 {
        "1"
    } else if d == 2 {
        "2"
    } else if d == 3 {
        "3"
    } else if d == 4 {
        "4"
    } else if d == 5 {
        "5"
    } else if d == 6 {
        "6"
    } else if d == 7 {
        "7"
    } else if d == 8 {
        "8"
    } else {
        "9"
    }
}

/// A number as decimal text.
fn decimal_string(n: u64) -> (r: String)
    ensures
        r@ == spec_decimal(n as nat),
    decreases n,
{
    if n < 10 {
        digit_str(n).to_owned()
    } else {
        let mut s = decimal_string(n / 10);
        s.append(digit_str(n % 10));
        s
    }
}

/// Bisection stops once the tail risk is within this of the target.
pub const DESIRED_ACCURACY: i64 = 300_000;

/// The fraction search starts on `[0, FRACTION_UPPER_BOUND]`.
pub const FRACTION_UPPER_BOUND: i64 = 10 * SCALE;

/// The fraction the search starts from.
pub const INITIAL_FRACTION: i64 = SCALE;

/// The search gives up after this many tail-risk evaluations.
pub const MAX_BISECTION_ITERATIONS: usize = 1000;

/// Largest admissible tail percentile (one hundred percent).
pub const MAX_PERCENTILE: i64 = 100 * SCALE;

/// The tail probability a percentile targets: the percentile over one hundred.
pub open spec fn spec_tail_target(pct: int) -> int {
    div_trunc(pct, 100)
}

/// One bisection step from the current bracket: evaluate the tail risk at the
/// midpoint; stop there if it is within the accuracy of the target, else
/// shrink the bracket toward it. Returns the final fraction and the number of
/// evaluations made. `done` evaluations, of `n * steps` draws each, have
/// already been consumed from the stream.
pub open spec fn spec_bisect(
    trades: Seq<i64>,
    steps: nat,
    init: int,
    ddtol: int,
    target: int,
    n: nat,
    seed: u64,
    hist: Seq<int>,
    lower: int,
    upper: int,
    fraction: int,
    done: nat,
    left: nat,
) -> (int, nat)
    decreases left,
{
    if left == 0 {
        (fraction, done)
    } else {
        let mid = (lower + upper) / 2;
        let risk = spec_tail_risk(
            trades,
            mid,
            steps,
            init,
            ddtol,
            n,
            seed,
            hist + const_hist(trades.len() as int, (done * (n * steps)) as nat),
        );
        let diff = if risk >= target {
            risk - target
        } else {
            target - risk
        };
        if diff < DESIRED_ACCURACY {
            (mid, (done + 1) as nat)
        } else if risk > target {
            spec_bisect(
                trades,
                steps,
                init,
                ddtol,
                target,
                n,
                seed,
                hist,
                lower,
                mid,
                mid,
                (done + 1) as nat,
                (left - 1) as nat,
            )
        } else {
            spec_bisect(
                trades,
                steps,
                init,
                ddtol,
                target,
                n,
                seed,
                hist,
                mid,
                upper,
                mid,
                (done + 1) as nat,
                (left - 1) as nat,
            )
        }
    }
}

/// The search never leaves its bracket: the returned fraction lies between
/// the bounds it started from.
pub proof fn lemma_bisect_fraction_in_bracket(
    trades: Seq<i64>,
    steps: nat,
    init: int,
    ddtol: int,
    target: int,
    n: nat,
    seed: u64,
    hist: Seq<int>,
    lower: int,
    upper: int,
    fraction: int,
    done: nat,
    left: nat,
)
    requires
        0 <= lower <= upper,
        lower <= fraction <= upper,
    ensures
        lower <= spec_bisect(
            trades,
            steps,
            init,
            ddtol,
            target,
            n,
            seed,
            hist,
            lower,
            upper,
            fraction,
            done,
            left,
        ).0 <= upper,
    decreases left,
{
    if left > 0 {
        let mid = (lower + upper) / 2;
        assert(lower <= mid <= upper) by (nonlinear_arith)
            requires
                0 <= lower <= upper,
                mid == (lower + upper) / 2,
        ;
        let risk = spec_tail_risk(
            trades,
            mid,
            steps,
            init,
            ddtol,
            n,
            seed,
            hist + const_hist(trades.len() as int, (done * (n * steps)) as nat),
        );
        let diff = if risk >= target {
            risk - target
        } else {
            target - risk
        };
        if diff < DESIRED_ACCURACY {
        } else if risk > target {
            lemma_bisect_fraction_in_bracket(
                trades,
                steps,
                init,
                ddtol,
                target,
                n,
                seed,
                hist,
                lower,
                mid,
                mid,
                (done + 1) as nat,
                (left - 1) as nat,
            );
        } else {
            lemma_bisect_fraction_in_bracket(
                trades,
                steps,
                init,
                ddtol,
                target,
                n,
                seed,
                hist,
                mid,
                upper,
                mid,
                (done + 1) as nat,
                (left - 1) as nat,
            );
        }
    }
}

/// When the search stops with iterations to spare, it stopped because the
/// tail risk it measured at the returned fraction was within the fixed
/// accuracy of the target.
pub proof fn lemma_bisect_convergence(
    trades: Seq<i64>,
    steps: nat,
    init: int,
    ddtol: int,
    target: int,
    n: nat,
    seed: u64,
    hist: Seq<int>,
    lower: int,
    upper: int,
    fraction: int,
    done: nat,
    left: nat,
)
    ensures
        ({
            let br = spec_bisect(
                trades,
                steps,
                init,
                ddtol,
                target,
                n,
                seed,
                hist,
                lower,
                upper,
                fraction,
                done,
                left,
            );
            br.1 < done + left ==> ({
                let risk = spec_tail_risk(
                    trades,
                    br.0,
                    steps,
                    init,
                    ddtol,
                    n,
                    seed,
                    hist + const_hist(trades.len() as int, ((br.1 - 1) * (n * steps)) as nat),
                );
                let diff = if risk >= target {
                    risk - target
                } else {
                    target - risk
                };
                diff < DESIRED_ACCURACY
            })
        }),
    decreases left,
{
    if left > 0 {
        let mid = (lower + upper) / 2;
        let risk = spec_tail_risk(
            trades,
            mid,
            steps,
            init,
            ddtol,
            n,
            seed,
            hist + const_hist(trades.len() as int, (done * (n * steps)) as nat),
        );
        let diff = if risk >= target {
            risk - target
        } else {
            target - risk
        };
        if diff < DESIRED_ACCURACY {
        } else if risk > target {
            lemma_bisect_convergence(
                trades,
                steps,
                init,
                ddtol,
                target,
                n,
                seed,
                hist,
                lower,
                mid,
                mid,
                (done + 1) as nat,
                (left - 1) as nat,
            );
        } else {
            lemma_bisect_convergence(
                trades,
                steps,
                init,
                ddtol,
                target,
                n,
                seed,
                hist,
                mid,
                upper,
                mid,
                (done + 1) as nat,
                (left - 1) as nat,
            );
        }
    }
}

/// Calibrate the safe fraction: bisect over `[0, FRACTION_UPPER_BOUND]` until
/// the estimated tail risk at the midpoint matches the target probability
/// within the fixed accuracy, or the iteration budget runs out, in which case
/// the last midpoint is returned without a distinguished signal.
pub fn calibrate_safe_fraction(
    trades: &Vec<i64>,
    number_trades_in_forecast: usize,
    initial_capital: i64,
    tail_percentile: i64,
    drawdown_tolerance: i64,
    number_equity_in_cdf: usize,
    rng: &mut RandomStream,
) -> (r: i64)
    requires
        trades@.len() >= 1,
        initial_capital > 0,
        tail_percentile >= 0,
        1 <= number_equity_in_cdf <= MAX_COUNT,
    ensures
        ({
            let br = spec_bisect(
                trades@,
                number_trades_in_forecast as nat,
                initial_capital as int,
                drawdown_tolerance as int,
                spec_tail_target(tail_percentile as int),
                number_equity_in_cdf as nat,
                old(rng).seed(),
                old(rng).history(),
                0,
                FRACTION_UPPER_BOUND as int,
                INITIAL_FRACTION as int,
                0,
                MAX_BISECTION_ITERATIONS as nat,
            );
            r == br.0 && final(rng).history() == old(rng).history() + const_hist(
                trades@.len() as int,
                (br.1 * (number_equity_in_cdf * number_trades_in_forecast)) as nat,
            )
        }),
        0 <= r <= FRACTION_UPPER_BOUND,
        final(rng).seed() == old(rng).seed(),
{
    let ghost seed = rng.seed();
    let ghost hist0 = rng.history();
    let ghost steps = number_trades_in_forecast as nat;
    let ghost n = number_equity_in_cdf as nat;
    let ghost gtarget = spec_tail_target(tail_percentile as int);
    let ghost br = spec_bisect(
        trades@,
        steps,
        initial_capital as int,
        drawdown_tolerance as int,
        gtarget,
        n,
        seed,
        hist0,
        0,
        FRACTION_UPPER_BOUND as int,
        INITIAL_FRACTION as int,
        0,
        MAX_BISECTION_ITERATIONS as nat,
    );
    let target: i64 = ((tail_percentile as u64) / 100) as i64;
    let mut lower: i64 = 0;
    let mut upper: i64 = FRACTION_UPPER_BOUND;
    let mut fraction: i64 = INITIAL_FRACTION;
    let mut iteration: usize = 0;
    proof {
        assert(hist0 + const_hist(trades@.len() as int, 0) =~= hist0);
    }
    while iteration < MAX_BISECTION_ITERATIONS
        invariant_except_break
            iteration <= MAX_BISECTION_ITERATIONS,
            trades@.len() >= 1,
            initial_capital > 0,
            1 <= number_equity_in_cdf <= MAX_COUNT,
            steps == number_trades_in_forecast as nat,
            n == number_equity_in_cdf as nat,
            target == gtarget,
            target >= 0,
            0 <= lower <= upper <= FRACTION_UPPER_BOUND,
            lower <= fraction <= upper,
            rng.seed() == seed,
            rng.history() == hist0 + const_hist(
                trades@.len() as int,
                (iteration * (number_equity_in_cdf * number_trades_in_forecast)) as nat,
            ),
            br == spec_bisect(
                trades@,
                steps,
                initial_capital as int,
                drawdown_tolerance as int,
                gtarget,
                n,
                seed,
                hist0,
                lower as int,
                upper as int,
                fraction as int,
                iteration as nat,
                (MAX_BISECTION_ITERATIONS - iteration) as nat,
            ),
        ensures
            fraction == br.0,
            0 <= fraction <= FRACTION_UPPER_BOUND,
            rng.seed() == seed,
            rng.history() == hist0 + const_hist(
                trades@.len() as int,
                (br.1 * (number_equity_in_cdf * number_trades_in_forecast)) as nat,
            ),
        decreases MAX_BISECTION_ITERATIONS - iteration,
    {
        let mid: i64 = (((lower + upper) as u64) / 2) as i64;
        proof {
            assert(lower <= mid <= upper) by (nonlinear_arith)
                requires
                    0 <= lower <= upper,
                    mid == (lower as int + upper as int) / 2,
            ;
        }
        fraction = mid;
        let risk = analyze_distribution_of_drawdown(
            trades,
            mid,
            number_trades_in_forecast,
            initial_capital,
            drawdown_tolerance,
            number_equity_in_cdf,
            rng,
        );
        let diff = if risk >= target {
            risk - target
        } else {
            target - risk
        };
        proof {
            lemma_const_hist_add(
                trades@.len() as int,
                (iteration * (number_equity_in_cdf * number_trades_in_forecast)) as nat,
                (number_equity_in_cdf * number_trades_in_forecast) as nat,
            );
            assert((hist0 + const_hist(
                trades@.len() as int,
                (iteration * (number_equity_in_cdf * number_trades_in_forecast)) as nat,
            )) + const_hist(
                trades@.len() as int,
                (number_equity_in_cdf * number_trades_in_forecast) as nat,
            ) =~= hist0 + (const_hist(
                trades@.len() as int,
                (iteration * (number_equity_in_cdf * number_trades_in_forecast)) as nat,
            ) + const_hist(
                trades@.len() as int,
                (number_equity_in_cdf * number_trades_in_forecast) as nat,
            )));
            assert((iteration + 1) * (number_equity_in_cdf * number_trades_in_forecast)
                == iteration * (number_equity_in_cdf * number_trades_in_forecast)
                + number_equity_in_cdf * number_trades_in_forecast) by (nonlinear_arith);
            assert((iteration as nat) * ((number_equity_in_cdf as nat) * steps) == (iteration * (
            number_equity_in_cdf * number_trades_in_forecast)) as nat);
        }
        if diff < DESIRED_ACCURACY {
            break;
        } else if risk > target {
            upper = mid;
        } else {
            lower = mid;
        }
        iteration = iteration + 1;
    }
    fraction
}

/// The CAGR of each of `n` curves simulated off the stream at a fixed
/// fraction, in simulation order.
pub open spec fn spec_car_list(
    trades: Seq<i64>,
    frac: int,
    steps: nat,
    init: int,
    years: int,
    n: nat,
    seed: u64,
    hist: Seq<int>,
) -> Seq<i64>
    decreases n,
{
    if n == 0 {
        Seq::empty()
    } else {
        let prev = spec_car_list(trades, frac, steps, init, years, (n - 1) as nat, seed, hist);
        let curve = spec_equity_curve(
            trades,
            frac,
            steps,
            init,
            seed,
            hist + const_hist(trades.len() as int, ((n - 1) * steps) as nat),
        );
        prev.push(spec_cagr(init, curve.last(), years) as i64)
    }
}

/// The car list has one entry per curve.
pub proof fn lemma_car_list_len(
    trades: Seq<i64>,
    frac: int,
    steps: nat,
    init: int,
    years: int,
    n: nat,
    seed: u64,
    hist: Seq<int>,
)
    ensures
        spec_car_list(trades, frac, steps, init, years, n, seed, hist).len() == n,
    decreases n,
{
    if n > 0 {
        lemma_car_list_len(trades, frac, steps, init, years, (n - 1) as nat, seed, hist);
    }
}

/// The position of the lower quartile among `n` ascending values: the ceiling
/// of a quarter of `n`, less one (never below zero for `n >= 1`).
pub open spec fn spec_car25_index(n: nat) -> int {
    (n + 3) / 4 - 1
}

/// CAR25: the lower-quartile CAGR among `n` curves simulated at a fraction.
pub open spec fn spec_car25(
    trades: Seq<i64>,
    frac: int,
    steps: nat,
    init: int,
    years: int,
    n: nat,
    seed: u64,
    hist: Seq<int>,
) -> i64 {
    spec_sort(spec_car_list(trades, frac, steps, init, years, n, seed, hist))[spec_car25_index(n)]
}

/// Aggregate CAR25 at a calibrated fraction: simulate `number_equity_in_cdf`
/// curves, convert each ending equity to a CAGR over the forecast years, sort
/// ascending, and take the lower-quartile entry. The index is checked at run
/// time; it is proved in range, so the error path is unreachable and the
/// result is always `Ok`.
pub fn compute_car25(
    trades: &Vec<i64>,
    fraction: i64,
    number_trades_in_forecast: usize,
    initial_capital: i64,
    number_days_in_forecast: usize,
    number_equity_in_cdf: usize,
    rng: &mut RandomStream,
) -> (r: Result<i64, RiskNormalizationError>)
    requires
        trades@.len() >= 1,
        fraction >= 0,
        initial_capital > 0,
        1 <= number_equity_in_cdf <= MAX_COUNT,
        number_days_in_forecast <= MAX_COUNT,
    ensures
        r is Ok,
        r matches Ok(v) ==> v == spec_car25(
            trades@,
            fraction as int,
            number_trades_in_forecast as nat,
            initial_capital as int,
            spec_years(number_days_in_forecast as int),
            number_equity_in_cdf as nat,
            old(rng).seed(),
            old(rng).history(),
        ),
        final(rng).seed() == old(rng).seed(),
        final(rng).history() == old(rng).history() + const_hist(
            trades@.len() as int,
            (number_equity_in_cdf * number_trades_in_forecast) as nat,
        ),
{
    let ghost seed = rng.seed();
    let ghost hist0 = rng.history();
    let ghost steps = number_trades_in_forecast as nat;
    let years = years_from_days(number_days_in_forecast);
    let mut car_list: Vec<i64> = Vec::new();
    let mut k: usize = 0;
    proof {
        assert(hist0 + const_hist(trades@.len() as int, 0) =~= hist0);
    }
    while k < number_equity_in_cdf
        invariant
            k <= number_equity_in_cdf <= MAX_COUNT,
            trades@.len() >= 1,
            fraction >= 0,
            initial_capital > 0,
            steps == number_trades_in_forecast as nat,
            years == spec_years(number_days_in_forecast as int),
            car_list@.len() == k,
            car_list@ == spec_car_list(
                trades@,
                fraction as int,
                steps,
                initial_capital as int,
                years as int,
                k as nat,
                seed,
                hist0,
            ),
            rng.seed() == seed,
            rng.history() == hist0 + const_hist(
                trades@.len() as int,
                (k * number_trades_in_forecast) as nat,
            ),
        decreases number_equity_in_cdf - k,
    {
        let ghost prev_list = car_list@;
        let (equity_curve, _max_drawdown) = make_one_equity_sequence(
            trades,
            fraction,
            number_trades_in_forecast,
            initial_capital,
            rng,
        );
        let last_equity = equity_curve[equity_curve.len() - 1];
        let cagr = calculate_cagr(initial_capital, last_equity, years);
        car_list.push(cagr);
        proof {
            lemma_const_hist_add(
                trades@.len() as int,
                (k * number_trades_in_forecast) as nat,
                steps,
            );
            assert((hist0 + const_hist(trades@.len() as int, (k * number_trades_in_forecast) as nat))
                + const_hist(trades@.len() as int, steps) =~= hist0 + (const_hist(
                trades@.len() as int,
                (k * number_trades_in_forecast) as nat,
            ) + const_hist(trades@.len() as int, steps)));
            assert((k + 1) * number_trades_in_forecast == k * number_trades_in_forecast
                + number_trades_in_forecast) by (nonlinear_arith);
            let n1 = (k + 1) as nat;
            assert(((n1 - 1) * steps) as nat == (k * number_trades_in_forecast) as nat);
            let curve = spec_equity_curve(
                trades@,
                fraction as int,
                steps,
                initial_capital as int,
                seed,
                hist0 + const_hist(trades@.len() as int, ((n1 - 1) * steps) as nat),
            );
            assert(seq_int(equity_curve@) == curve);
            assert(last_equity == curve.last());
            assert(car_list@ =~= prev_list.push(
                spec_cagr(initial_capital as int, curve.last(), years as int) as i64,
            ));
        }
        k = k + 1;
    }
    let sorted = sort_ascending(&car_list);
    proof {
        crate::sort::lemma_sort_ensures(car_list@);
    }
    let index = (((number_equity_in_cdf as u64) + 3) / 4 - 1) as usize;
    if index < sorted.len() {
        Ok(sorted[index])
    } else {
        let mut message = "failed to compute CAR25 for fraction ".to_owned();
        message.append(decimal_string(fraction as u64).as_str());
        Err(RiskNormalizationError(message))
    }
}

/// One repetition: calibrate the safe fraction off the stream, then the CAR25
/// at that fraction. Returns the pair and the number of draws consumed.
pub open spec fn spec_trial(
    trades: Seq<i64>,
    steps: nat,
    init: int,
    pct: int,
    ddtol: int,
    n: nat,
    days: int,
    seed: u64,
    hist: Seq<int>,
) -> (i64, i64, nat) {
    let br = spec_bisect(
        trades,
        steps,
        init,
        ddtol,
        spec_tail_target(pct),
        n,
        seed,
        hist,
        0,
        FRACTION_UPPER_BOUND as int,
        INITIAL_FRACTION as int,
        0,
        MAX_BISECTION_ITERATIONS as nat,
    );
    let cal_draws = (br.1 * (n * steps)) as nat;
    let car = spec_car25(
        trades,
        br.0,
        steps,
        init,
        spec_years(days),
        n,
        seed,
        hist + const_hist(trades.len() as int, cal_draws),
    );
    (br.0 as i64, car, (cal_draws + n * steps) as nat)
}

/// Run one repetition off the stream: the calibrated safe fraction and the
/// CAR25 at it. The error path comes from the aggregation's checked index and
/// is proved unreachable.
pub fn run_one_trial(
    trades: &Vec<i64>,
    number_trades_in_forecast: usize,
    initial_capital: i64,
    tail_percentile: i64,
    drawdown_tolerance: i64,
    number_equity_in_cdf: usize,
    number_days_in_forecast: usize,
    rng: &mut RandomStream,
) -> (r: Result<(i64, i64), RiskNormalizationError>)
    requires
        trades@.len() >= 1,
        initial_capital > 0,
        tail_percentile >= 0,
        1 <= number_equity_in_cdf <= MAX_COUNT,
        number_days_in_forecast <= MAX_COUNT,
    ensures
        ({
            let t = spec_trial(
                trades@,
                number_trades_in_forecast as nat,
                initial_capital as int,
                tail_percentile as int,
                drawdown_tolerance as int,
                number_equity_in_cdf as nat,
                number_days_in_forecast as int,
                old(rng).seed(),
                old(rng).history(),
            );
            r is Ok && (r matches Ok(v) ==> v.0 == t.0 && v.1 == t.1) && final(rng).history()
                == old(rng).history() + const_hist(trades@.len() as int, t.2)
        }),
        final(rng).seed() == old(rng).seed(),
{
    let ghost seed = rng.seed();
    let ghost hist0 = rng.history();
    let ghost steps = number_trades_in_forecast as nat;
    let ghost n = number_equity_in_cdf as nat;
    let ghost t = spec_trial(
        trades@,
        steps,
        initial_capital as int,
        tail_percentile as int,
        drawdown_tolerance as int,
        n,
        number_days_in_forecast as int,
        seed,
        hist0,
    );
    let fraction = calibrate_safe_fraction(
        trades,
        number_trades_in_forecast,
        initial_capital,
        tail_percentile,
        drawdown_tolerance,
        number_equity_in_cdf,
        rng,
    );
    let ghost cal_draws = (spec_bisect(
        trades@,
        steps,
        initial_capital as int,
        drawdown_tolerance as int,
        spec_tail_target(tail_percentile as int),
        n,
        seed,
        hist0,
        0,
        FRACTION_UPPER_BOUND as int,
        INITIAL_FRACTION as int,
        0,
        MAX_BISECTION_ITERATIONS as nat,
    ).1 * (n * steps)) as nat;
    let car25 = match compute_car25(
        trades,
        fraction,
        number_trades_in_forecast,
        initial_capital,
        number_days_in_forecast,
        number_equity_in_cdf,
        rng,
    ) {
        Ok(c) => c,
        Err(e) => {
            return Err(e);
        },
    };
    proof {
        lemma_const_hist_add(trades@.len() as int, cal_draws, (n * steps) as nat);
        assert((hist0 + const_hist(trades@.len() as int, cal_draws)) + const_hist(
            trades@.len() as int,
            (n * steps) as nat,
        ) =~= hist0 + (const_hist(trades@.len() as int, cal_draws) + const_hist(
            trades@.len() as int,
            (n * steps) as nat,
        )));
        assert((number_equity_in_cdf * number_trades_in_forecast) as nat == (n * steps) as nat);
    }
    Ok((fraction, car25))
}

/// The safe-fraction and CAR25 samples of `reps` repetitions run in order off
/// one stream, and the total number of draws they consume.
pub open spec fn spec_trial_lists(
    trades: Seq<i64>,
    steps: nat,
    init: int,
    pct: int,
    ddtol: int,
    n: nat,
    days: int,
    reps: nat,
    seed: u64,
    hist: Seq<int>,
) -> (Seq<i64>, Seq<i64>, nat)
    decreases reps,
{
    if reps == 0 {
        (Seq::empty(), Seq::empty(), 0nat)
    } else {
        let prev = spec_trial_lists(
            trades,
            steps,
            init,
            pct,
            ddtol,
            n,
            days,
            (reps - 1) as nat,
            seed,
            hist,
        );
        let t = spec_trial(
            trades,
            steps,
            init,
            pct,
            ddtol,
            n,
            days,
            seed,
            hist + const_hist(trades.len() as int, prev.2),
        );
        (prev.0.push(t.0), prev.1.push(t.1), (prev.2 + t.2) as nat)
    }
}

/// Each trial contributes one entry to each sample.
pub proof fn lemma_trial_lists_len(
    trades: Seq<i64>,
    steps: nat,
    init: int,
    pct: int,
    ddtol: int,
    n: nat,
    days: int,
    reps: nat,
    seed: u64,
    hist: Seq<int>,
)
    ensures
        spec_trial_lists(trades, steps, init, pct, ddtol, n, days, reps, seed, hist).0.len()
            == reps,
        spec_trial_lists(trades, steps, init, pct, ddtol, n, days, reps, seed, hist).1.len()
            == reps,
    decreases reps,
{
    if reps > 0 {
        lemma_trial_lists_len(
            trades,
            steps,
            init,
            pct,
            ddtol,
            n,
            days,
            (reps - 1) as nat,
            seed,
            hist,
        );
    }
}

/// The result of a sequential run: mean and population standard deviation of
/// the safe-fraction and CAR25 samples over `reps` ordered repetitions.
pub open spec fn spec_risk_normalization(
    trades: Seq<i64>,
    steps: nat,
    init: int,
    pct: int,
    ddtol: int,
    n: nat,
    days: int,
    reps: nat,
    seed: u64,
    hist: Seq<int>,
) -> RiskNormalizationResult {
    let lists = spec_trial_lists(trades, steps, init, pct, ddtol, n, days, reps, seed, hist);
    RiskNormalizationResult {
        safe_f_mean: spec_mean(lists.0) as i64,
        safe_f_stdev: spec_std_dev(lists.0, spec_mean(lists.0)) as i64,
        car25_mean: spec_mean(lists.1) as i64,
        car25_stdev: spec_std_dev(lists.1, spec_mean(lists.1)) as i64,
    }
}

/// Run `number_repetitions` trials in strict order off one shared stream and
/// summarize both samples. Fail-fast: a trial's error ends the run (none can
/// arise — every trial is proved to succeed — but the path is checked).
pub fn risk_normalization(
    trades: &Vec<i64>,
    number_days_in_forecast: usize,
    number_trades_in_forecast: usize,
    initial_capital: i64,
    tail_percentile: i64,
    drawdown_tolerance: i64,
    number_equity_in_cdf: usize,
    number_repetitions: usize,
    rng: &mut RandomStream,
) -> (r: Result<RiskNormalizationResult, RiskNormalizationError>)
    requires
        trades@.len() >= 1,
        initial_capital > 0,
        0 <= tail_percentile <= MAX_PERCENTILE,
        0 < drawdown_tolerance < SCALE,
        1 <= number_equity_in_cdf <= MAX_COUNT,
        1 <= number_repetitions <= MAX_COUNT,
        number_days_in_forecast <= MAX_COUNT,
    ensures
        r is Ok,
        r matches Ok(v) ==> v == spec_risk_normalization(
            trades@,
            number_trades_in_forecast as nat,
            initial_capital as int,
            tail_percentile as int,
            drawdown_tolerance as int,
            number_equity_in_cdf as nat,
            number_days_in_forecast as int,
            number_repetitions as nat,
            old(rng).seed(),
            old(rng).history(),
        ),
        final(rng).seed() == old(rng).seed(),
{
    let ghost seed = rng.seed();
    let ghost hist0 = rng.history();
    let ghost steps = number_trades_in_forecast as nat;
    let ghost n = number_equity_in_cdf as nat;
    let mut safe_f_list: Vec<i64> = Vec::new();
    let mut car25_list: Vec<i64> = Vec::new();
    let mut rep: usize = 0;
    proof {
        assert(hist0 + const_hist(trades@.len() as int, 0) =~= hist0);
    }
    while rep < number_repetitions
        invariant
            rep <= number_repetitions,
            trades@.len() >= 1,
            initial_capital > 0,
            tail_percentile >= 0,
            1 <= number_equity_in_cdf <= MAX_COUNT,
            number_days_in_forecast <= MAX_COUNT,
            steps == number_trades_in_forecast as nat,
            n == number_equity_in_cdf as nat,
            ({
                let lists = spec_trial_lists(
                    trades@,
                    steps,
                    initial_capital as int,
                    tail_percentile as int,
                    drawdown_tolerance as int,
                    n,
                    number_days_in_forecast as int,
                    rep as nat,
                    seed,
                    hist0,
                );
                safe_f_list@ == lists.0 && car25_list@ == lists.1 && rng.history() == hist0
                    + const_hist(trades@.len() as int, lists.2)
            }),
            rng.seed() == seed,
        decreases number_repetitions - rep,
    {
        let ghost lists = spec_trial_lists(
            trades@,
            steps,
            initial_capital as int,
            tail_percentile as int,
            drawdown_tolerance as int,
            n,
            number_days_in_forecast as int,
            rep as nat,
            seed,
            hist0,
        );
        let pair = match run_one_trial(
            trades,
            number_trades_in_forecast,
            initial_capital,
            tail_percentile,
            drawdown_tolerance,
            number_equity_in_cdf,
            number_days_in_forecast,
            rng,
        ) {
            Ok(p) => p,
            Err(e) => {
                return Err(e);
            },
        };
        safe_f_list.push(pair.0);
        car25_list.push(pair.1);
        proof {
            let t = spec_trial(
                trades@,
                steps,
                initial_capital as int,
                tail_percentile as int,
                drawdown_tolerance as int,
                n,
                number_days_in_forecast as int,
                seed,
                hist0 + const_hist(trades@.len() as int, lists.2),
            );
            lemma_const_hist_add(trades@.len() as int, lists.2, t.2);
            assert((hist0 + const_hist(trades@.len() as int, lists.2)) + const_hist(
                trades@.len() as int,
                t.2,
            ) =~= hist0 + (const_hist(trades@.len() as int, lists.2) + const_hist(
                trades@.len() as int,
                t.2,
            )));
        }
        rep = rep + 1;
    }
    proof {
        lemma_trial_lists_len(
            trades@,
            steps,
            initial_capital as int,
            tail_percentile as int,
            drawdown_tolerance as int,
            n,
            number_days_in_forecast as int,
            number_repetitions as nat,
            seed,
            hist0,
        );
    }
    let (safe_f_mean, safe_f_stdev) = compute_statistics(&safe_f_list);
    let (car25_mean, car25_stdev) = compute_statistics(&car25_list);
    Ok(
        RiskNormalizationResult {
            safe_f_mean,
            safe_f_stdev,
            car25_mean,
            car25_stdev,
        },
    )
}

/// The inputs the run entry points accept: a non-empty series, positive
/// initial capital, a percentile within zero and one hundred, and a drawdown
/// tolerance strictly between zero and one.
pub open spec fn spec_valid_inputs(
    trades: Seq<i64>,
    init: int,
    pct: int,
    ddtol: int,
) -> bool {
    trades.len() >= 1 && init > 0 && 0 <= pct <= MAX_PERCENTILE && 0 < ddtol < SCALE
}

/// Check the run inputs, returning the reason the first failed check rejects
/// them.
fn validate_inputs(
    trades: &Vec<i64>,
    initial_capital: i64,
    tail_percentile: i64,
    drawdown_tolerance: i64,
) -> (r: Result<(), RiskNormalizationError>)
    ensures
        r is Ok <==> spec_valid_inputs(
            trades@,
            initial_capital as int,
            tail_percentile as int,
            drawdown_tolerance as int,
        ),
{
    if trades.len() == 0 {
        return Err(RiskNormalizationError("invalid input: trade series is empty".to_owned()));
    }
    if initial_capital <= 0 {
        return Err(
            RiskNormalizationError("invalid input: initial capital must be positive".to_owned()),
        );
    }
    if tail_percentile < 0 || tail_percentile > MAX_PERCENTILE {
        return Err(
            RiskNormalizationError(
                "invalid input: tail percentile must lie between 0 and 100".to_owned(),
            ),
        );
    }
    if drawdown_tolerance <= 0 || drawdown_tolerance >= SCALE {
        return Err(
            RiskNormalizationError(
                "invalid input: drawdown tolerance must lie strictly between 0 and 1".to_owned(),
            ),
        );
    }
    Ok(())
}

/// Run the sequential engine from a seed: validate the inputs, then thread
/// one seeded stream through every repetition in order.
pub fn risk_normalization_basic(
    trades: &Vec<i64>,
    number_days_in_forecast: usize,
    number_trades_in_forecast: usize,
    initial_capital: i64,
    tail_percentile: i64,
    drawdown_tolerance: i64,
    number_equity_in_cdf: usize,
    number_repetitions: usize,
    seed: u64,
) -> (r: Result<RiskNormalizationResult, RiskNormalizationError>)
    requires
        1 <= number_equity_in_cdf <= MAX_COUNT,
        1 <= number_repetitions <= MAX_COUNT,
        number_days_in_forecast <= MAX_COUNT,
    ensures
        r is Ok <==> spec_valid_inputs(
            trades@,
            initial_capital as int,
            tail_percentile as int,
            drawdown_tolerance as int,
        ),
        r matches Ok(v) ==> v == spec_risk_normalization(
            trades@,
            number_trades_in_forecast as nat,
            initial_capital as int,
            tail_percentile as int,
            drawdown_tolerance as int,
            number_equity_in_cdf as nat,
            number_days_in_forecast as int,
            number_repetitions as nat,
            seed,
            Seq::<int>::empty(),
        ),
{
    match validate_inputs(trades, initial_capital, tail_percentile, drawdown_tolerance) {
        Ok(_) => {},
        Err(e) => {
            return Err(e);
        },
    }
    let mut rng = RandomStream::from_seed(seed);
    risk_normalization(
        trades,
        number_days_in_forecast,
        number_trades_in_forecast,
        initial_capital,
        tail_percentile,
        drawdown_tolerance,
        number_equity_in_cdf,
        number_repetitions,
        &mut rng,
    )
}

/// Run one repetition on a privately seeded stream: the trial's outcome is a
/// pure function of its seed.
pub fn run_trial_from_seed(
    trades: &Vec<i64>,
    number_trades_in_forecast: usize,
    initial_capital: i64,
    tail_percentile: i64,
    drawdown_tolerance: i64,
    number_equity_in_cdf: usize,
    number_days_in_forecast: usize,
    trial_seed: u64,
) -> (r: Result<(i64, i64), RiskNormalizationError>)
    requires
        trades@.len() >= 1,
        initial_capital > 0,
        tail_percentile >= 0,
        1 <= number_equity_in_cdf <= MAX_COUNT,
        number_days_in_forecast <= MAX_COUNT,
    ensures
        r is Ok,
        r matches Ok(v) ==> v == ({
            let t = spec_trial(
                trades@,
                number_trades_in_forecast as nat,
                initial_capital as int,
                tail_percentile as int,
                drawdown_tolerance as int,
                number_equity_in_cdf as nat,
                number_days_in_forecast as int,
                trial_seed,
                Seq::<int>::empty(),
            );
            (t.0, t.1)
        }),
{
    let mut rng = RandomStream::from_seed(trial_seed);
    run_one_trial(
        trades,
        number_trades_in_forecast,
        initial_capital,
        tail_percentile,
        drawdown_tolerance,
        number_equity_in_cdf,
        number_days_in_forecast,
        &mut rng,
    )
}

/// The per-repetition seeds a master stream hands out before any concurrent
/// work starts: one word draw each.
pub open spec fn spec_seed_list(seed: u64, reps: nat) -> Seq<u64>
    decreases reps,
{
    if reps == 0 {
        Seq::empty()
    } else {
        spec_seed_list(seed, (reps - 1) as nat).push(
            stdrng_next_word(seed, const_hist(word_draw(), (reps - 1) as nat)),
        )
    }
}

/// The safe-fraction and CAR25 samples of independent trials, one per seed,
/// each on its own stream.
pub open spec fn spec_par_lists(
    trades: Seq<i64>,
    steps: nat,
    init: int,
    pct: int,
    ddtol: int,
    n: nat,
    days: int,
    seeds: Seq<u64>,
) -> (Seq<i64>, Seq<i64>)
    decreases seeds.len(),
{
    if seeds.len() == 0 {
        (Seq::empty(), Seq::empty())
    } else {
        let prev = spec_par_lists(trades, steps, init, pct, ddtol, n, days, seeds.drop_last());
        let t = spec_trial(
            trades,
            steps,
            init,
            pct,
            ddtol,
            n,
            days,
            seeds.last(),
            Seq::empty(),
        );
        (prev.0.push(t.0), prev.1.push(t.1))
    }
}

/// Each seed contributes one entry to each sample.
pub proof fn lemma_par_lists_len(
    trades: Seq<i64>,
    steps: nat,
    init: int,
    pct: int,
    ddtol: int,
    n: nat,
    days: int,
    seeds: Seq<u64>,
)
    ensures
        spec_par_lists(trades, steps, init, pct, ddtol, n, days, seeds).0.len() == seeds.len(),
        spec_par_lists(trades, steps, init, pct, ddtol, n, days, seeds).1.len() == seeds.len(),
    decreases seeds.len(),
{
    if seeds.len() > 0 {
        lemma_par_lists_len(trades, steps, init, pct, ddtol, n, days, seeds.drop_last());
    }
}

/// The result of a parallel run: mean and population standard deviation of
/// the two samples over one independently seeded trial per repetition.
pub open spec fn spec_risk_normalization_concurrent(
    trades: Seq<i64>,
    steps: nat,
    init: int,
    pct: int,
    ddtol: int,
    n: nat,
    days: int,
    reps: nat,
    seed: u64,
) -> RiskNormalizationResult {
    let lists = spec_par_lists(
        trades,
        steps,
        init,
        pct,
        ddtol,
        n,
        days,
        spec_seed_list(seed, reps),
    );
    RiskNormalizationResult {
        safe_f_mean: spec_mean(lists.0) as i64,
        safe_f_stdev: spec_std_dev(lists.0, spec_mean(lists.0)) as i64,
        car25_mean: spec_mean(lists.1) as i64,
        car25_stdev: spec_std_dev(lists.1, spec_mean(lists.1)) as i64,
    }
}

/// With a single simulated curve, CAR25 is that curve's CAGR: the quartile
/// index resolves to zero.
pub proof fn lemma_car25_single(
    trades: Seq<i64>,
    frac: int,
    steps: nat,
    init: int,
    years: int,
    seed: u64,
    hist: Seq<int>,
)
    ensures
        spec_car25(trades, frac, steps, init, years, 1, seed, hist) == spec_cagr(
            init,
            spec_equity_curve(trades, frac, steps, init, seed, hist).last(),
            years,
        ) as i64,
{
    reveal_with_fuel(spec_car_list, 2);
    reveal_with_fuel(spec_sort, 2);
    let list = spec_car_list(trades, frac, steps, init, years, 1, seed, hist);
    assert(hist + const_hist(trades.len() as int, ((1 - 1) * steps) as nat) =~= hist);
    let c = spec_cagr(
        init,
        spec_equity_curve(trades, frac, steps, init, seed, hist).last(),
        years,
    ) as i64;
    assert(list =~= Seq::<i64>::empty().push(c));
    assert(list.drop_last() =~= Seq::<i64>::empty());
    assert(spec_sort(list) == spec_insert_sorted(spec_sort(Seq::<i64>::empty()), c));
    assert(spec_car25_index(1) == 0);
}

/// Determinism: two sequential runs with the same seed and the same
/// parameters produce the identical result.
pub proof fn lemma_sequential_deterministic(
    trades1: Seq<i64>,
    steps1: nat,
    init1: int,
    pct1: int,
    ddtol1: int,
    n1: nat,
    days1: int,
    reps1: nat,
    seed1: u64,
    trades2: Seq<i64>,
    steps2: nat,
    init2: int,
    pct2: int,
    ddtol2: int,
    n2: nat,
    days2: int,
    reps2: nat,
    seed2: u64,
)
    requires
        trades1 == trades2,
        steps1 == steps2,
        init1 == init2,
        pct1 == pct2,
        ddtol1 == ddtol2,
        n1 == n2,
        days1 == days2,
        reps1 == reps2,
        seed1 == seed2,
    ensures
        spec_risk_normalization(
            trades1,
            steps1,
            init1,
            pct1,
            ddtol1,
            n1,
            days1,
            reps1,
            seed1,
            Seq::<int>::empty(),
        ) == spec_risk_normalization(
            trades2,
            steps2,
            init2,
            pct2,
            ddtol2,
            n2,
            days2,
            reps2,
            seed2,
            Seq::<int>::empty(),
        ),
{
}

/// Relies on rayon's parallel iterator over the seed list: `map` followed by
/// `collect` keeps input order and gathers every element, and the fail-fast
/// collect into `Result` returns the first error; each element itself comes
/// from this library's verified `run_trial_from_seed`, whose contract proves
/// every trial returns `Ok` with the pair `spec_trial` gives for its seed.
#[verifier::external_body]
fn run_trials_parallel(
    trades: &Vec<i64>,
    number_trades_in_forecast: usize,
    initial_capital: i64,
    tail_percentile: i64,
    drawdown_tolerance: i64,
    number_equity_in_cdf: usize,
    number_days_in_forecast: usize,
    seeds: &Vec<u64>,
) -> (r: Result<Vec<(i64, i64)>, RiskNormalizationError>)
    requires
        trades@.len() >= 1,
        initial_capital > 0,
        tail_percentile >= 0,
        1 <= number_equity_in_cdf <= MAX_COUNT,
        number_days_in_forecast <= MAX_COUNT,
    ensures
        r is Ok,
        r matches Ok(v) ==> v@.len() == seeds@.len() && forall|i: int|
            0 <= i < seeds@.len() ==> #[trigger] v@[i] == ({
                let t = spec_trial(
                    trades@,
                    number_trades_in_forecast as nat,
                    initial_capital as int,
                    tail_percentile as int,
                    drawdown_tolerance as int,
                    number_equity_in_cdf as nat,
                    number_days_in_forecast as int,
                    seeds@[i],
                    Seq::<int>::empty(),
                );
                (t.0, t.1)
            }),
{
    seeds.par_iter().map(
        |s: &u64|
            run_trial_from_seed(
                trades,
                number_trades_in_forecast,
                initial_capital,
                tail_percentile,
                drawdown_tolerance,
                number_equity_in_cdf,
                number_days_in_forecast,
                *s,
            ),
    ).collect()
}

/// Run `number_repetitions` independent trials data-parallel and summarize
/// both samples: the master stream hands one seed to each trial before any
/// concurrent work starts, each trial owns its privately seeded stream, and
/// the first error aborts the batch (none can arise — every trial is proved
/// to succeed — but the path is checked).
pub fn risk_normalization_concurrent(
    trades: &Vec<i64>,
    number_days_in_forecast: usize,
    number_trades_in_forecast: usize,
    initial_capital: i64,
    tail_percentile: i64,
    drawdown_tolerance: i64,
    number_equity_in_cdf: usize,
    number_repetitions: usize,
    seed: u64,
) -> (r: Result<RiskNormalizationResult, RiskNormalizationError>)
    requires
        1 <= number_equity_in_cdf <= MAX_COUNT,
        1 <= number_repetitions <= MAX_COUNT,
        number_days_in_forecast <= MAX_COUNT,
    ensures
        r is Ok <==> spec_valid_inputs(
            trades@,
            initial_capital as int,
            tail_percentile as int,
            drawdown_tolerance as int,
        ),
        r matches Ok(v) ==> v == spec_risk_normalization_concurrent(
            trades@,
            number_trades_in_forecast as nat,
            initial_capital as int,
            tail_percentile as int,
            drawdown_tolerance as int,
            number_equity_in_cdf as nat,
            number_days_in_forecast as int,
            number_repetitions as nat,
            seed,
        ),
{
    match validate_inputs(trades, initial_capital, tail_percentile, drawdown_tolerance) {
        Ok(_) => {},
        Err(e) => {
            return Err(e);
        },
    }
    let mut master = RandomStream::from_seed(seed);
    let mut seeds: Vec<u64> = Vec::new();
    let mut j: usize = 0;
    proof {
        assert(master.history() =~= const_hist(word_draw(), 0));
    }
    while j < number_repetitions
        invariant
            j <= number_repetitions,
            master.seed() == seed,
            master.history() == const_hist(word_draw(), j as nat),
            seeds@.len() == j,
            seeds@ == spec_seed_list(seed, j as nat),
        decreases number_repetitions - j,
    {
        let w = master.draw_word();
        seeds.push(w);
        proof {
            assert(const_hist(word_draw(), j as nat).push(word_draw()) =~= const_hist(
                word_draw(),
                (j + 1) as nat,
            ));
        }
        j = j + 1;
    }
    let results = match run_trials_parallel(
        trades,
        number_trades_in_forecast,
        initial_capital,
        tail_percentile,
        drawdown_tolerance,
        number_equity_in_cdf,
        number_days_in_forecast,
        &seeds,
    ) {
        Ok(v) => v,
        Err(e) => {
            return Err(e);
        },
    };
    let ghost steps = number_trades_in_forecast as nat;
    let ghost n = number_equity_in_cdf as nat;
    let mut safe_f_list: Vec<i64> = Vec::new();
    let mut car25_list: Vec<i64> = Vec::new();
    let mut k: usize = 0;
    proof {
        assert(seeds@.take(0) =~= Seq::<u64>::empty());
    }
    while k < results.len()
        invariant
            k <= results@.len(),
            results@.len() == seeds@.len(),
            steps == number_trades_in_forecast as nat,
            n == number_equity_in_cdf as nat,
            forall|i: int|
                0 <= i < seeds@.len() ==> #[trigger] results@[i] == ({
                    let t = spec_trial(
                        trades@,
                        steps,
                        initial_capital as int,
                        tail_percentile as int,
                        drawdown_tolerance as int,
                        n,
                        number_days_in_forecast as int,
                        seeds@[i],
                        Seq::<int>::empty(),
                    );
                    (t.0, t.1)
                }),
            ({
                let lists = spec_par_lists(
                    trades@,
                    steps,
                    initial_capital as int,
                    tail_percentile as int,
                    drawdown_tolerance as int,
                    n,
                    number_days_in_forecast as int,
                    seeds@.take(k as int),
                );
                safe_f_list@ == lists.0 && car25_list@ == lists.1
            }),
        decreases results@.len() - k,
    {
        let pair = results[k];
        safe_f_list.push(pair.0);
        car25_list.push(pair.1);
        proof {
            assert(seeds@.take(k + 1).drop_last() =~= seeds@.take(k as int));
            assert(seeds@.take(k + 1).last() == seeds@[k as int]);
        }
        k = k + 1;
    }
    proof {
        assert(seeds@.take(seeds@.len() as int) =~= seeds@);
        lemma_par_lists_len(
            trades@,
            steps,
            initial_capital as int,
            tail_percentile as int,
            drawdown_tolerance as int,
            n,
            number_days_in_forecast as int,
            seeds@,
        );
    }
    let (safe_f_mean, safe_f_stdev) = compute_statistics(&safe_f_list);
    let (car25_mean, car25_stdev) = compute_statistics(&car25_list);
    Ok(
        RiskNormalizationResult {
            safe_f_mean,
            safe_f_stdev,
            car25_mean,
            car25_stdev,
        },
    )
}

} // verus!
