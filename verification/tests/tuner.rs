use keck::attribution::tuner::{
    consistency_error, CoefficientTuner, Fraction, OutOfRange, PidObs, MAX_ALPHA, MAX_BETA,
    MIN_ALPHA, MIN_BETA,
};

/// A number in units of 10^-12.
fn units(x: f64) -> u64 {
    (x * 1e12).round() as u64
}

fn fraction(x: f64) -> Fraction {
    Fraction { num: (x * 1e6).round() as u64, den: 1_000_000 }
}

fn tuner(alpha: f64, beta: f64) -> CoefficientTuner {
    CoefficientTuner::new(units(alpha), units(beta), None)
}

fn make_obs(time_ns: u64, ipc: f64, miss_ratio: f64, cycles: f64) -> PidObs {
    PidObs {
        time_ns,
        ipc: fraction(ipc),
        miss_ratio: fraction(miss_ratio),
        cycles: cycles as u64,
    }
}

fn error(pids: &Vec<PidObs>, alpha: f64, beta: f64) -> f64 {
    let e = consistency_error(pids, units(alpha) as u128, units(beta) as u128);
    e as f64 / 1e12
}

#[test]
fn test_consistency_error_identical_pids() {
    // Two identical PIDs should have zero consistency error
    let pids = vec![
        make_obs(1000, 2.0, 0.01, 2000.0),
        make_obs(1000, 2.0, 0.01, 2000.0),
    ];
    let err = error(&pids, 0.3, 1.5);
    assert!(err < 1e-10, "identical PIDs should have ~zero error, got {}", err);
}

#[test]
fn test_consistency_error_diverse_pids() {
    // Two PIDs with very different profiles should have non-zero error
    // (unless alpha/beta perfectly compensate)
    let pids = vec![
        make_obs(1000, 3.0, 0.001, 3000.0),  // compute-heavy
        make_obs(1000, 0.5, 0.05, 500.0),     // memory-heavy
    ];
    let err = error(&pids, 0.3, 1.5);
    assert!(err > 0.0, "diverse PIDs should have non-zero error");
}

#[test]
fn test_tuner_no_update_without_signal() {
    let mut tuner = tuner(0.3, 1.5);
    let counters = vec![];
    let times = vec![];
    let _ = tuner.update(&counters, &times);
    assert_eq!(tuner.updates, 0);
    assert_eq!(tuner.current(), (units(0.3), units(1.5)));
}

#[test]
fn test_tuner_no_update_single_pid_per_core() {
    let mut tuner = tuner(0.3, 1.5);
    let mut counters = Vec::new();
    counters.push(((0, 100), (10000u64, 5000u64, 100u64)));
    let times = vec![(0u32, 100u32, 1000u64)];
    let _ = tuner.update(&counters, &times);
    assert_eq!(tuner.updates, 0); // needs >=2 PIDs per core
}

fn diverse() -> (Vec<((u32, u32), (u64, u64, u64))>, Vec<(u32, u32, u64)>) {
    let counters = vec![
        // PID 100: high IPC (3.0), low miss ratio
        ((0, 100), (30000u64, 10000u64, 30u64)),
        // PID 200: low IPC (0.5), high miss ratio
        ((0, 200), (5000u64, 10000u64, 500u64)),
    ];
    let times = vec![
        (0u32, 100u32, 1000u64),
        (0u32, 200u32, 1000u64),
    ];
    (counters, times)
}

#[test]
fn test_tuner_updates_with_diverse_pids() {
    let mut tuner = tuner(0.3, 1.5);
    let (counters, times) = diverse();
    let _ = tuner.update(&counters, &times);
    assert!(tuner.updates > 0, "should update with diverse PIDs");
}

#[test]
fn test_tuner_clamps_bounds() {
    let mut tuner = tuner(0.05, 0.01);
    // Force a large negative gradient
    tuner.alpha = units(0.04);
    tuner.beta = units(0.005);
    tuner.alpha = tuner.alpha.clamp(units(0.05), units(2.0));
    tuner.beta = tuner.beta.clamp(units(0.01), units(10.0));
    assert_eq!(tuner.alpha, units(0.05));
    assert_eq!(tuner.beta, units(0.01));
}

#[test]
fn bounds_of_coefficients() {
    assert_eq!((MIN_ALPHA, MAX_ALPHA), (units(0.05), units(2.0)));
    assert_eq!((MIN_BETA, MAX_BETA), (units(0.01), units(10.0)));
}

#[test]
fn error_of_two_pids() {
    let pids = vec![make_obs(1000, 3.0, 0.001, 3000.0), make_obs(1000, 0.5, 0.05, 500.0)];
    assert_eq!(consistency_error(&pids, 300_000_000_000, 1_500_000_000_000), 588_931_524_617);
}

#[test]
fn error_without_weight_is_zero() {
    assert_eq!(consistency_error(&vec![], 300_000_000_000, 1_500_000_000_000), 0);
    let idle = vec![make_obs(0, 1.0, 0.0, 5.0)];
    assert_eq!(consistency_error(&idle, 300_000_000_000, 1_500_000_000_000), 0);
}

#[test]
fn error_of_huge_numbers() {
    let huge = PidObs {
        time_ns: u64::MAX,
        ipc: Fraction { num: u64::MAX, den: 1 },
        miss_ratio: Fraction { num: 0, den: 1 },
        cycles: 1,
    };
    assert_eq!(consistency_error(&vec![huge, huge], 300_000_000_000, 0), 0);
}

#[test]
fn error_ignores_units_and_order() {
    let pids = vec![
        make_obs(1000, 3.0, 0.001, 3000.0),
        make_obs(700, 0.5, 0.05, 500.0),
        make_obs(40, 1.3, 0.7, 11.0),
    ];
    let e = error(&pids, 0.3, 1.5);
    let mut other = pids.clone();
    for o in other.iter_mut() {
        o.time_ns *= 7;
        o.cycles *= 13;
    }
    other.reverse();
    assert_eq!(error(&other, 0.3, 1.5), e);
}

#[test]
fn first_update_follows_the_gradient() {
    let mut t = tuner(0.3, 1.5);
    let (counters, times) = diverse();
    assert_eq!(t.update(&counters, &times), Ok(None));
    assert_eq!((t.alpha_grad_ema, t.beta_grad_ema), (56_926_235_650, -3_683_858_870));
    assert_eq!(t.current(), (299_943_073_765, 1_500_003_683_859));
    assert_eq!((t.updates, t.qualifying_cores), (1, 1));
    assert_eq!((t.last_logged_alpha, t.last_logged_beta), (300_000_000_000, 1_500_000_000_000));
}

#[test]
fn a_large_step_is_told_and_clamped() {
    let (counters, times) = diverse();
    let mut t = CoefficientTuner::new(units(0.3), units(1.5), Some("1e3"));
    assert_eq!(t.learning_rate, 1_000_000_000_000_000_000_000);
    let change = t.update(&counters, &times).unwrap().unwrap();
    assert_eq!((change.old_alpha, change.alpha), (units(0.3), MIN_ALPHA));
    assert_eq!((change.old_beta, change.beta), (units(1.5), 5_183_858_870_000));
    assert_eq!((change.updates, change.qualifying_cores), (1, 1));
    assert_eq!((t.last_logged_alpha, t.last_logged_beta), (change.alpha, change.beta));
}

#[test]
fn learning_rate_setting() {
    assert_eq!(CoefficientTuner::new(1, 1, None).learning_rate, 1_000_000_000_000_000);
    assert_eq!(CoefficientTuner::new(1, 1, Some("0.05")).learning_rate, 50_000_000_000_000_000);
    assert_eq!(CoefficientTuner::new(1, 1, Some("-2e-9")).learning_rate, -2_000_000_000);
    assert_eq!(CoefficientTuner::new(1, 1, Some("fast")).learning_rate, 1_000_000_000_000_000);
}

#[test]
fn a_negative_rate_steps_back() {
    let (counters, times) = diverse();
    let mut t = CoefficientTuner::new(units(0.3), units(1.5), Some("-0.001"));
    assert_eq!(t.update(&counters, &times), Ok(None));
    // Rounded as the step forward is: down before it is taken off
    assert_eq!(t.current(), (300_056_926_236, 1_499_996_316_142));
}

#[test]
fn no_signal_without_diversity() {
    let mut t = tuner(0.3, 1.5);
    let times = vec![(0, 100, 1000), (0, 200, 1000), (0, 300, 0)];
    // 1.0 and 1.9
    let close = vec![((0, 100), (1000, 1000, 0)), ((0, 200), (1900, 1000, 0))];
    assert_eq!(t.update(&close, &times), Ok(None));
    assert_eq!(t.updates, 0);
    // One that retired nothing
    let idle = vec![((0, 100), (0, 1000, 0)), ((0, 200), (1900, 1000, 0))];
    assert_eq!(t.update(&idle, &times), Ok(None));
    assert_eq!(t.updates, 0);
    // On different cores
    let apart = vec![((0, 100), (1000, 1000, 0)), ((1, 200), (9000, 1000, 0))];
    assert_eq!(t.update(&apart, &vec![(0, 100, 1000), (1, 200, 1000)]), Ok(None));
    assert_eq!(t.updates, 0);
    // Exactly twice is not enough
    let twice = vec![((0, 100), (1000, 1000, 0)), ((0, 200), (2000, 1000, 0))];
    assert_eq!(t.update(&twice, &times), Ok(None));
    assert_eq!(t.updates, 0);
    let more = vec![((0, 100), (1000, 1000, 0)), ((0, 200), (2001, 1000, 0))];
    assert_eq!(t.update(&more, &times), Ok(None));
    assert_eq!(t.updates, 1);
}

#[test]
fn a_signal_of_very_low_ratios() {
    let mut t = tuner(0.3, 1.5);
    let times = vec![(0, 100, 1000), (0, 200, 1000)];
    let low = vec![((0, 100), (1, 4_000_000_000, 0)), ((0, 200), (3, 4_000_000_000, 0))];
    assert!(t.update(&low, &times).is_ok());
    assert_eq!(t.updates, 1);
}

#[test]
fn an_update_out_of_range_changes_nothing() {
    let mut t = tuner(0.3, 1.5);
    t.updates = u64::MAX;
    let before = t;
    let (counters, times) = diverse();
    assert_eq!(t.update(&counters, &times), Err(OutOfRange));
    assert_eq!(t, before);
}
