use risk_normalization::{
    calculate_cagr, calculate_drawdown, compute_mean, compute_statistics, compute_std_dev,
    fx_add, fx_div, fx_mul, fx_pow_frac, fx_sqrt, sort_ascending, years_from_days, SCALE,
};

fn fx(x: f64) -> i64 {
    (x * SCALE as f64).round() as i64
}

fn to_f64(x: i64) -> f64 {
    x as f64 / SCALE as f64
}

#[test]
fn test_compute_mean() {
    let data = vec![fx(1.0), fx(2.0), fx(3.0), fx(4.0), fx(5.0)];
    assert_eq!(compute_mean(&data), fx(3.0));
}

#[test]
fn test_compute_std_dev() {
    let data = vec![fx(1.0), fx(2.0), fx(3.0), fx(4.0), fx(5.0)];
    let mean = fx(3.0);
    let expected_std_dev = 1.414213;
    let calculated_std_dev = to_f64(compute_std_dev(&data, mean));
    assert!((calculated_std_dev - expected_std_dev).abs() < 1e-6);
}

#[test]
fn test_calculate_drawdown() {
    let equity_curve = vec![fx(100.0), fx(110.0), fx(105.0), fx(115.0), fx(90.0)];
    assert!((to_f64(calculate_drawdown(&equity_curve)) - 0.2173913).abs() < 1e-5);
}

#[test]
fn test_calculate_cagr() {
    let initial = fx(100.0);
    let final_val = fx(200.0);
    let years = fx(2.0);
    let expected_cagr = 41.421356;
    let calculated_cagr = to_f64(calculate_cagr(initial, final_val, years));
    assert!(
        (calculated_cagr - expected_cagr).abs() < 1e-5,
        "Calculated CAGR: {:.6}, Expected CAGR: {:.6}",
        calculated_cagr,
        expected_cagr
    );
}

#[test]
fn test_cagr_zero_when_initial_nonpositive() {
    assert_eq!(calculate_cagr(0, fx(200.0), fx(2.0)), 0);
    assert_eq!(calculate_cagr(-fx(1.0), fx(200.0), fx(2.0)), 0);
}

#[test]
fn test_cagr_zero_when_final_nonpositive() {
    assert_eq!(calculate_cagr(fx(100.0), 0, fx(2.0)), 0);
    assert_eq!(calculate_cagr(fx(100.0), -fx(50.0), fx(2.0)), 0);
}

#[test]
fn test_cagr_zero_when_years_nonpositive() {
    assert_eq!(calculate_cagr(fx(100.0), fx(200.0), 0), 0);
    assert_eq!(calculate_cagr(fx(100.0), fx(200.0), -fx(1.0)), 0);
}

#[test]
fn test_cagr_one_year_is_plain_return() {
    // With a one-year horizon the exponent is one, so CAGR is the plain
    // percentage return: 100 -> 150 over one year is 50 percent.
    assert_eq!(calculate_cagr(fx(100.0), fx(150.0), fx(1.0)), fx(50.0));
}

#[test]
fn test_compute_statistics_pair() {
    let data = vec![fx(1.0), fx(2.0), fx(3.0), fx(4.0), fx(5.0)];
    let (mean, stdev) = compute_statistics(&data);
    assert_eq!(mean, fx(3.0));
    assert_eq!(stdev, compute_std_dev(&data, mean));
}

#[test]
fn test_compute_mean_negative_values() {
    let data = vec![fx(-1.0), fx(-2.0)];
    assert_eq!(compute_mean(&data), fx(-1.5));
}

#[test]
fn test_drawdown_monotone_curve_is_zero() {
    let equity_curve = vec![fx(100.0), fx(101.0), fx(150.0)];
    assert_eq!(calculate_drawdown(&equity_curve), 0);
}

#[test]
fn test_years_from_days() {
    assert_eq!(years_from_days(252), fx(1.0));
    assert_eq!(years_from_days(504), fx(2.0));
    assert_eq!(years_from_days(0), 0);
}

#[test]
fn test_sort_ascending() {
    let data = vec![fx(3.0), fx(-1.0), fx(2.0), fx(-1.0), fx(0.5)];
    let sorted = sort_ascending(&data);
    assert_eq!(sorted, vec![fx(-1.0), fx(-1.0), fx(0.5), fx(2.0), fx(3.0)]);
}

#[test]
fn test_fixed_point_operations() {
    assert_eq!(fx_mul(fx(1.5), fx(2.0)), fx(3.0));
    assert_eq!(fx_mul(fx(-1.5), fx(2.0)), fx(-3.0));
    assert_eq!(fx_div(fx(1.0), fx(8.0)), fx(0.125));
    assert_eq!(fx_add(fx(0.25), fx(-1.0)), fx(-0.75));
    // Saturation: the largest value times two stays at the largest value.
    assert_eq!(fx_mul(i64::MAX, fx(2.0)), i64::MAX);
}

#[test]
fn test_fixed_point_sqrt() {
    assert_eq!(fx_sqrt(fx(4.0)), fx(2.0));
    assert_eq!(fx_sqrt(0), 0);
    // The square root of 2 at eight decimals, rounded down.
    assert_eq!(fx_sqrt(fx(2.0)), 141_421_356);
}

#[test]
fn test_fixed_point_pow() {
    // Exponent one returns the base; exponent zero returns one.
    assert_eq!(fx_pow_frac(fx(3.0), 7, 7), fx(3.0));
    assert_eq!(fx_pow_frac(fx(3.0), 0, 5), fx(1.0));
    // 4 to the 3/2 is 8, up to the rounding of the iterated square roots.
    assert!((to_f64(fx_pow_frac(fx(4.0), 3, 2)) - 8.0).abs() < 1e-5);
}
