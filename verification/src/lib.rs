//! Risk-normalized position sizing for a trading strategy.
//!
//! Given a historical series of per-trade fractional returns, the library
//! estimates, by Monte Carlo resampling, the largest fraction of capital that
//! can be risked per trade without breaching a drawdown tolerance more often
//! than a target tail probability (the safe fraction), and the pessimistic
//! 25th-percentile compounded annual growth rate at that fraction (CAR25).
//!
//! All quantities are carried as fixed-point numbers: an `i64` holding the
//! real value times `SCALE`, with saturating arithmetic. Every function's
//! result is pinned exactly by spec functions over that model.

pub mod engine;
pub mod fixed;
pub mod rng;
pub mod sim;
pub mod sort;
pub mod stats;

pub use engine::{
    RiskNormalizationError, RiskNormalizationResult, calibrate_safe_fraction, compute_car25,
    risk_normalization, risk_normalization_basic, risk_normalization_concurrent, run_one_trial,
    run_trial_from_seed, DESIRED_ACCURACY, FRACTION_UPPER_BOUND, MAX_BISECTION_ITERATIONS,
    MAX_PERCENTILE,
};
pub use fixed::{fx_add, fx_div, fx_mul, fx_pow_frac, fx_sqrt, SCALE};
pub use rng::RandomStream;
pub use sim::{
    analyze_distribution_of_drawdown, calculate_cagr, calculate_drawdown,
    make_one_equity_sequence, years_from_days, MAX_COUNT,
};
pub use sort::sort_ascending;
pub use stats::{compute_mean, compute_statistics, compute_std_dev};
