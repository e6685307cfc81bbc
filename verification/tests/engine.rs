use risk_normalization::{
    analyze_distribution_of_drawdown, calculate_cagr, calibrate_safe_fraction, compute_car25,
    make_one_equity_sequence, risk_normalization, risk_normalization_basic,
    risk_normalization_concurrent, years_from_days, RandomStream, DESIRED_ACCURACY, SCALE,
};

fn fx(x: f64) -> i64 {
    (x * SCALE as f64).round() as i64
}

fn to_f64(x: i64) -> f64 {
    x as f64 / SCALE as f64
}

fn sample_trades() -> Vec<i64> {
    vec![fx(0.03), fx(-0.02), fx(0.01), fx(-0.01), fx(0.02)]
}

#[test]
fn test_equity_sequence_shape() {
    // The curve has one value per step plus the start, begins at the initial
    // capital, and its drawdown lies in [0, 1] while equity stays positive.
    let trades = sample_trades();
    let mut rng = RandomStream::from_seed(7);
    let (curve, drawdown) = make_one_equity_sequence(&trades, fx(1.0), 50, fx(100_000.0), &mut rng);
    assert_eq!(curve.len(), 51);
    assert_eq!(curve[0], fx(100_000.0));
    if curve.iter().all(|&e| e > 0) {
        assert!(drawdown >= 0 && drawdown <= SCALE);
    }
    assert!(drawdown >= 0);
}

#[test]
fn test_equity_sequence_single_trade_is_deterministic() {
    // With one trade in the series every draw selects it, so the curve is a
    // deterministic compounding sequence whatever the seed.
    let trades = vec![fx(0.01)];
    let mut rng = RandomStream::from_seed(123);
    let (curve, drawdown) = make_one_equity_sequence(&trades, fx(1.0), 3, fx(100.0), &mut rng);
    let mut expected = fx(100.0);
    for k in 1..4 {
        let gain = (expected as i128) * (fx(0.01) as i128) / (SCALE as i128);
        expected += gain as i64;
        assert_eq!(curve[k], expected);
    }
    assert_eq!(drawdown, 0);
}

#[test]
fn test_tail_risk_all_or_nothing() {
    // Always-winning trades never breach the tolerance; a catastrophic trade
    // at full fraction always does.
    let winners = vec![fx(0.02)];
    let mut rng = RandomStream::from_seed(1);
    let risk = analyze_distribution_of_drawdown(&winners, fx(1.0), 20, fx(1000.0), fx(0.10), 30, &mut rng);
    assert_eq!(risk, 0);

    let losers = vec![fx(-0.5)];
    let mut rng = RandomStream::from_seed(1);
    let risk = analyze_distribution_of_drawdown(&losers, fx(1.0), 20, fx(1000.0), fx(0.10), 30, &mut rng);
    assert_eq!(risk, SCALE);
}

#[test]
fn test_calibrator_converges_on_monotone_risk() {
    // A series of pure winners makes tail risk identically zero, a monotone
    // function of the fraction; with a zero target the calibrator converges
    // at the first midpoint and the risk there matches the target within the
    // fixed accuracy.
    let trades = vec![fx(0.01)];
    let mut rng = RandomStream::from_seed(5);
    let fraction = calibrate_safe_fraction(&trades, 10, fx(1000.0), 0, fx(0.10), 20, &mut rng);
    assert_eq!(fraction, fx(5.0));
    let mut check_rng = RandomStream::from_seed(99);
    let risk = analyze_distribution_of_drawdown(&trades, fraction, 10, fx(1000.0), fx(0.10), 20, &mut check_rng);
    assert!((risk - 0).abs() < DESIRED_ACCURACY);

    // Symmetrically, pure heavy losers give tail risk identically one, and a
    // one-hundred-percent target converges at the first midpoint too.
    let trades = vec![fx(-0.5)];
    let mut rng = RandomStream::from_seed(5);
    let fraction = calibrate_safe_fraction(&trades, 10, fx(1000.0), fx(100.0), fx(0.10), 20, &mut rng);
    assert_eq!(fraction, fx(5.0));
    let mut check_rng = RandomStream::from_seed(100);
    let risk = analyze_distribution_of_drawdown(&trades, fraction, 10, fx(1000.0), fx(0.10), 20, &mut check_rng);
    assert!((risk - SCALE).abs() < DESIRED_ACCURACY);
}

#[test]
fn test_car25_single_curve_equals_its_cagr() {
    // With one curve per estimate the quartile index resolves to zero and
    // CAR25 is that curve's CAGR.
    let trades = sample_trades();
    let fraction = fx(1.0);
    let days = 504;
    let steps = 25;
    let init = fx(100_000.0);

    let mut rng = RandomStream::from_seed(11);
    let car25 = compute_car25(&trades, fraction, steps, init, days, 1, &mut rng).unwrap();

    let mut rng = RandomStream::from_seed(11);
    let (curve, _dd) = make_one_equity_sequence(&trades, fraction, steps, init, &mut rng);
    let years = years_from_days(days);
    let expected = calculate_cagr(init, *curve.last().unwrap(), years);
    assert_eq!(car25, expected);
}

#[test]
fn test_car25_four_curves_is_their_minimum() {
    // For four curves the quartile index is zero, so CAR25 is the smallest
    // of the four CAGRs; replaying the same stream reproduces the curves.
    let trades = sample_trades();
    let fraction = fx(1.5);
    let days = 504;
    let steps = 12;
    let init = fx(50_000.0);

    let mut rng = RandomStream::from_seed(31);
    let car25 = compute_car25(&trades, fraction, steps, init, days, 4, &mut rng).unwrap();

    let years = years_from_days(days);
    let mut rng = RandomStream::from_seed(31);
    let mut smallest = i64::MAX;
    for _ in 0..4usize {
        let (curve, _dd) = make_one_equity_sequence(&trades, fraction, steps, init, &mut rng);
        let cagr = calculate_cagr(init, *curve.last().unwrap(), years);
        smallest = smallest.min(cagr);
    }
    assert_eq!(car25, smallest);
}

#[test]
fn test_sequential_runs_are_bit_identical() {
    // Two sequential runs with the same seed and parameters agree exactly.
    let trades = sample_trades();
    let a = risk_normalization_basic(&trades, 504, 20, fx(100_000.0), fx(5.0), fx(0.10), 10, 5, 42)
        .unwrap();
    let b = risk_normalization_basic(&trades, 504, 20, fx(100_000.0), fx(5.0), fx(0.10), 10, 5, 42)
        .unwrap();
    assert_eq!(a, b);
}

#[test]
fn test_concurrent_runs_are_reproducible() {
    // The parallel mode pre-seeds each trial from the master stream, so two
    // runs with one seed agree exactly as well.
    let trades = sample_trades();
    let a = risk_normalization_concurrent(
        &trades, 504, 15, fx(100_000.0), fx(5.0), fx(0.10), 10, 6, 42,
    ).unwrap();
    let b = risk_normalization_concurrent(
        &trades, 504, 15, fx(100_000.0), fx(5.0), fx(0.10), 10, 6, 42,
    ).unwrap();
    assert_eq!(a, b);
}

#[test]
fn test_sequential_and_concurrent_agree_statistically() {
    // With the same master seed and many repetitions the two execution modes
    // estimate the same quantities; their means agree within a loose relative
    // tolerance (they are not bit-identical: per-trial sub-seeding differs).
    let trades = sample_trades();
    let days = 504;
    let steps = 10;
    let init = fx(100_000.0);
    let pct = fx(5.0);
    let tol = fx(0.10);
    let n_cdf = 40;
    let reps = 20;
    let seq = risk_normalization_basic(&trades, days, steps, init, pct, tol, n_cdf, reps, 42)
        .unwrap();
    let par = risk_normalization_concurrent(&trades, days, steps, init, pct, tol, n_cdf, reps, 42)
        .unwrap();
    let close = |a: i64, b: i64, rel: f64, abs: f64| -> bool {
        let (a, b) = (to_f64(a), to_f64(b));
        (a - b).abs() <= abs + rel * a.abs().max(b.abs())
    };
    assert!(close(seq.safe_f_mean, par.safe_f_mean, 0.5, 0.05));
    assert!(close(seq.car25_mean, par.car25_mean, 0.5, 1.0));
}

#[test]
fn test_word_draws_advance_the_stream() {
    // Two streams with one seed agree draw for draw; within one stream the
    // draws advance (the generator does not hand the same word back).
    let mut a = RandomStream::from_seed(9);
    let mut b = RandomStream::from_seed(9);
    let a1 = a.draw_word();
    let a2 = a.draw_word();
    assert_eq!(a1, b.draw_word());
    assert_eq!(a2, b.draw_word());
    assert_ne!(a1, a2);
}

#[test]
fn test_modes_agree_exactly_on_deterministic_trades() {
    // With a single trade every draw selects it, so each trial is the same
    // whatever its seed: the parallel mode must reproduce the sequential
    // result exactly, which exercises the worker dispatch end to end.
    let trades = vec![fx(-0.05)];
    let seq = risk_normalization_basic(&trades, 504, 10, fx(1000.0), fx(5.0), fx(0.10), 8, 4, 7)
        .unwrap();
    let par = risk_normalization_concurrent(&trades, 504, 10, fx(1000.0), fx(5.0), fx(0.10), 8, 4, 7)
        .unwrap();
    assert_eq!(seq, par);
}

#[test]
fn test_rejects_empty_trade_series() {
    let trades: Vec<i64> = vec![];
    let r = risk_normalization_basic(&trades, 504, 10, fx(100_000.0), fx(5.0), fx(0.10), 5, 2, 1);
    assert!(r.is_err());
    assert!(r.err().unwrap().message().contains("empty"));
}

#[test]
fn test_rejects_nonpositive_initial_capital() {
    let trades = sample_trades();
    let r = risk_normalization_basic(&trades, 504, 10, 0, fx(5.0), fx(0.10), 5, 2, 1);
    assert!(r.is_err());
}

#[test]
fn test_rejects_out_of_range_percentile() {
    let trades = sample_trades();
    let r = risk_normalization_basic(&trades, 504, 10, fx(100_000.0), fx(101.0), fx(0.10), 5, 2, 1);
    assert!(r.is_err());
    let r = risk_normalization_basic(&trades, 504, 10, fx(100_000.0), -1, fx(0.10), 5, 2, 1);
    assert!(r.is_err());
}

#[test]
fn test_rejects_out_of_range_tolerance() {
    let trades = sample_trades();
    let r = risk_normalization_basic(&trades, 504, 10, fx(100_000.0), fx(5.0), 0, 5, 2, 1);
    assert!(r.is_err());
    let r = risk_normalization_basic(&trades, 504, 10, fx(100_000.0), fx(5.0), fx(1.0), 5, 2, 1);
    assert!(r.is_err());
}

#[test]
fn test_concurrent_rejects_invalid_inputs() {
    let trades: Vec<i64> = vec![];
    let r = risk_normalization_concurrent(&trades, 504, 10, fx(100_000.0), fx(5.0), fx(0.10), 5, 2, 1);
    assert!(r.is_err());
}

#[test]
fn test_risk_normalization_with_shared_stream() {
    // The engine core threads one caller-owned stream; starting it at the
    // same seed reproduces the seeded entry point exactly.
    let trades = sample_trades();
    let mut rng = RandomStream::from_seed(42);
    let a = risk_normalization(&trades, 504, 10, fx(100_000.0), fx(5.0), fx(0.10), 5, 3, &mut rng)
        .unwrap();
    let b = risk_normalization_basic(&trades, 504, 10, fx(100_000.0), fx(5.0), fx(0.10), 5, 3, 42)
        .unwrap();
    assert_eq!(a, b);
}
