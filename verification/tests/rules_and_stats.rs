use spc_charts::dec::Dec;
use spc_charts::rules::{evaluate_rules, validate_rule};
use spc_charts::statistics;
use spc_charts::RoundingMode;
use spc_charts::Rounding;
use spc_charts::SpcRule;
use spc_charts::{is_alternating, is_decreasing, is_increasing};

fn d(units: i64, scale: u32) -> Dec {
    Dec::new(units, scale).unwrap()
}

fn ints(vals: &[i64]) -> Vec<Dec> {
    vals.iter().map(|&v| d(v, 0)).collect()
}

#[test]
fn rule1_flags_every_point_beyond_band_with_threshold_one() {
    let series = ints(&[0, 4, -5, 1, 7]);
    let res = validate_rule(&series, Dec::zero(), d(1, 0), SpcRule::Rule1Beyond3Sigma(1, 3));
    assert!(!res.validation_passed);
    assert_eq!(res.bad_point_index, vec![1, 2, 4]);
    assert_eq!(res.bad_point_data, vec![d(4, 0), d(-5, 0), d(7, 0)]);
}

#[test]
fn rule1_flags_nothing_inside_band() {
    let series = ints(&[0, 2, -3, 1]);
    let res = validate_rule(&series, Dec::zero(), d(1, 0), SpcRule::Rule1Beyond3Sigma(1, 3));
    assert!(res.validation_passed);
    assert!(res.bad_point_index.is_empty());
}

#[test]
fn rule1_higher_threshold_needs_more_points() {
    let series = ints(&[0, 4, 0, 0]);
    let res = validate_rule(&series, Dec::zero(), d(1, 0), SpcRule::Rule1Beyond3Sigma(2, 3));
    assert!(res.validation_passed);
    assert!(res.bad_point_index.is_empty());
    let res2 = validate_rule(&series, Dec::zero(), d(1, 0), SpcRule::Rule1Beyond3Sigma(1, 3));
    assert!(!res2.validation_passed);
}

#[test]
fn rule6_flags_monotonic_run_indices() {
    let series = ints(&[1, 2, 3, 4, 2, 1]);
    let res = validate_rule(&series, Dec::zero(), d(1, 0), SpcRule::Rule6PointsUpOrDown(3));
    assert!(!res.validation_passed);
    // windows [1,2,3], [2,3,4] rise; [4,2,1] falls
    assert_eq!(res.bad_point_index, vec![0, 1, 2, 3, 4, 5]);
}

#[test]
fn rule6_skips_short_series() {
    let series = ints(&[1, 2]);
    let res = validate_rule(&series, Dec::zero(), d(1, 0), SpcRule::Rule6PointsUpOrDown(3));
    assert!(res.validation_passed);
    assert!(res.bad_point_index.is_empty());
}

#[test]
fn rule2_of_3_flags_only_out_of_band_points() {
    let series = ints(&[5, 5, 0]);
    let res = validate_rule(
        &series,
        Dec::zero(),
        d(1, 0),
        SpcRule::Rule2Of3Beyond2Sigma(2, 3, 2),
    );
    assert!(!res.validation_passed);
    assert_eq!(res.bad_point_index, vec![0, 1]);
}

#[test]
fn rule8_flags_whole_window_outside_one_sigma() {
    let series = ints(&[5, -5, 0]);
    let res = validate_rule(
        &series,
        Dec::zero(),
        d(1, 0),
        SpcRule::Rule8PointsAboveOrBelowCenter(2),
    );
    assert!(!res.validation_passed);
    assert_eq!(res.bad_point_index, vec![0, 1]);
}

#[test]
fn rule9_flags_points_on_same_side() {
    let series = ints(&[1, 2, -1]);
    let res = validate_rule(
        &series,
        Dec::zero(),
        d(1, 0),
        SpcRule::Rule9PointsOnSameSideOfCenter(2),
    );
    assert!(!res.validation_passed);
    assert_eq!(res.bad_point_index, vec![0, 1]);
}

#[test]
fn rule14_flags_oscillating_points() {
    let series = ints(&[1, 3, 1, 3, 3]);
    let res = validate_rule(
        &series,
        Dec::zero(),
        d(1, 0),
        SpcRule::Rule14PointsOscillating(3),
    );
    assert!(!res.validation_passed);
    assert_eq!(res.bad_point_index, vec![0, 1, 2, 3]);
}

#[test]
fn rule15_flags_points_within_band() {
    let series = ints(&[0, 0, 9]);
    let res = validate_rule(
        &series,
        Dec::zero(),
        d(1, 0),
        SpcRule::Rule15PointsWithin1Sigma(2, 1),
    );
    assert!(!res.validation_passed);
    assert_eq!(res.bad_point_index, vec![0, 1]);
}

#[test]
fn evaluate_rules_keeps_rule_order() {
    let series = ints(&[0, 9, 0]);
    let rules = vec![
        SpcRule::Rule1Beyond3Sigma(1, 3),
        SpcRule::Rule6PointsUpOrDown(3),
    ];
    let res = evaluate_rules(&series, Dec::zero(), d(1, 0), rules);
    assert_eq!(res.len(), 2);
    assert_eq!(res[0].rule, SpcRule::Rule1Beyond3Sigma(1, 3));
    assert!(!res[0].validation_passed);
    assert_eq!(res[1].rule, SpcRule::Rule6PointsUpOrDown(3));
    assert!(res[1].validation_passed);
}

#[test]
fn direction_predicates() {
    assert!(is_increasing(&ints(&[1, 2, 3])));
    assert!(!is_increasing(&ints(&[1, 2, 2])));
    assert!(is_decreasing(&ints(&[3, 2, 1])));
    assert!(!is_decreasing(&ints(&[3, 3, 1])));
    assert!(is_alternating(&ints(&[1, 3, 2, 4])));
    assert!(!is_alternating(&ints(&[1, 3, 4, 2])));
}

#[test]
fn statistics_exact_values() {
    let data = ints(&[1, 2, 3, 4, 5]);
    assert_eq!(statistics::average(&data), d(3, 0));
    assert_eq!(statistics::min(&data), d(1, 0));
    assert_eq!(statistics::max(&data), d(5, 0));
    assert_eq!(statistics::range(&data), d(4, 0));
    assert_eq!(statistics::median(&data), d(3, 0));
    assert_eq!(statistics::variance(&data), d(25, 1));
    // std dev: floor(sqrt(2.5) * 1e9)
    assert_eq!(statistics::std_dev(&data).units(), 1_581_138_830);
}

#[test]
fn statistics_even_median_and_population_variance() {
    let data = ints(&[2, 4]);
    assert_eq!(statistics::median(&data), d(3, 0));
    assert_eq!(statistics::variance(&data), d(2, 0));
    assert_eq!(statistics::population_variance(&data), d(1, 0));
    assert_eq!(statistics::population_std_dev(&data), d(1, 0));
    let uneven = ints(&[1, 4, 2, 8]);
    assert_eq!(statistics::median(&uneven), d(3, 0));
}

#[test]
fn statistics_absolute_extremes_and_empty_sentinels() {
    let data = vec![d(-3, 0), d(1, 0), d(2, 0)];
    assert_eq!(statistics::abs_min(&data), d(1, 0));
    assert_eq!(statistics::abs_max(&data), d(3, 0));
    let empty: Vec<Dec> = Vec::new();
    assert_eq!(statistics::average(&empty), Dec::zero());
    assert_eq!(statistics::min(&empty), Dec::zero());
    assert_eq!(statistics::median(&empty), Dec::zero());
    assert_eq!(statistics::std_dev(&empty), Dec::zero());
}

#[test]
fn rounding_mode_tables() {
    // the classic one-digit rounding examples, value -> one fractional digit
    let cases: &[(i64, RoundingMode, i64)] = &[
        (55, RoundingMode::RoundUp, 60),
        (25, RoundingMode::RoundUp, 30),
        (16, RoundingMode::RoundUp, 20),
        (11, RoundingMode::RoundUp, 20),
        (10, RoundingMode::RoundUp, 10),
        (-10, RoundingMode::RoundUp, -10),
        (-11, RoundingMode::RoundUp, -20),
        (-25, RoundingMode::RoundUp, -30),
        (55, RoundingMode::RoundDown, 50),
        (25, RoundingMode::RoundDown, 20),
        (16, RoundingMode::RoundDown, 10),
        (-16, RoundingMode::RoundDown, -10),
        (-25, RoundingMode::RoundDown, -20),
        (55, RoundingMode::RoundCeiling, 60),
        (-11, RoundingMode::RoundCeiling, -10),
        (-25, RoundingMode::RoundCeiling, -20),
        (55, RoundingMode::RoundFloor, 50),
        (-11, RoundingMode::RoundFloor, -20),
        (-25, RoundingMode::RoundFloor, -30),
        (55, RoundingMode::RoundHalfUp, 60),
        (25, RoundingMode::RoundHalfUp, 30),
        (11, RoundingMode::RoundHalfUp, 10),
        (-25, RoundingMode::RoundHalfUp, -30),
        (-16, RoundingMode::RoundHalfUp, -20),
        (55, RoundingMode::RoundHalfDown, 50),
        (25, RoundingMode::RoundHalfDown, 20),
        (16, RoundingMode::RoundHalfDown, 20),
        (-25, RoundingMode::RoundHalfDown, -20),
        (55, RoundingMode::RoundHalfEven, 60),
        (25, RoundingMode::RoundHalfEven, 20),
        (16, RoundingMode::RoundHalfEven, 20),
        (-25, RoundingMode::RoundHalfEven, -20),
        (-55, RoundingMode::RoundHalfEven, -60),
    ];
    // the values are hundredths rounded to one fractional digit
    for &(v, mode, want) in cases {
        let got = d(v, 2).round_dp(1, &mode);
        assert_eq!(got, d(want, 2), "value {} mode {:?}", v, mode);
    }
}

#[test]
fn rounding_at_target_scale_is_identity() {
    let modes = [
        RoundingMode::RoundUp,
        RoundingMode::RoundDown,
        RoundingMode::RoundCeiling,
        RoundingMode::RoundFloor,
        RoundingMode::RoundHalfUp,
        RoundingMode::RoundHalfDown,
        RoundingMode::RoundHalfEven,
    ];
    for v in [d(123, 2), d(-45, 2), Dec::zero(), d(7, 0)] {
        for mode in modes {
            assert_eq!(v.round_dp(2, &mode), v);
            assert_eq!(v.scale(2, &mode), v);
            assert_eq!(v.round_dp(9, &mode), v);
        }
    }
}

#[test]
fn dec_construction_bounds() {
    assert!(Dec::new(65, 2).is_some());
    assert_eq!(Dec::new(65, 2).unwrap().units(), 650_000_000);
    assert!(Dec::new(1, 10).is_none());
    assert!(Dec::new(2_000_000, 0).is_none());
    assert_eq!(Dec::new(-1_000_000, 0).unwrap().units(), -1_000_000_000_000_000);
    assert_eq!(Dec::from_units(42).units(), 42);
    assert_eq!(Dec::zero().units(), 0);
}
