use spc_charts::attribute_stats::{AttributeStats, AttributeStatsChartType};
use spc_charts::dec::Dec;
use spc_charts::group_stats::{GroupStats, GroupStatsChartType};
use spc_charts::moving_stats::{MovingStats, MovingStatsChartType};
use spc_charts::RoundingContext;
use spc_charts::RoundingMode::RoundHalfUp;
use spc_charts::{SpcError, SpcRule};

fn d(units: i64, scale: u32) -> Dec {
    Dec::new(units, scale).unwrap()
}

fn xbar_r_dataset() -> Vec<Vec<Dec>> {
    let v1 = vec![
        65, 75, 75, 60, 70, 60, 75, 60, 65, 60, 80, 85, 70, 65, 90, 75, 75, 75, 65, 60, 50, 60,
        80, 65, 65,
    ];
    let v2 = vec![
        70, 85, 80, 70, 75, 75, 80, 70, 80, 70, 75, 75, 70, 70, 80, 80, 70, 70, 65, 60, 55, 80,
        65, 60, 70,
    ];
    let v3 = vec![
        65, 75, 80, 70, 65, 75, 65, 80, 85, 60, 90, 85, 75, 85, 80, 75, 85, 60, 85, 65, 65, 65,
        75, 65, 70,
    ];
    let v4 = vec![
        65, 85, 70, 75, 85, 85, 75, 75, 85, 80, 50, 65, 75, 75, 75, 80, 70, 70, 65, 60, 80, 65,
        65, 60, 60,
    ];
    let v5 = vec![
        85, 65, 75, 65, 80, 70, 70, 75, 75, 65, 80, 70, 70, 60, 85, 65, 80, 60, 70, 65, 80, 75,
        65, 70, 65,
    ];
    (0..25)
        .map(|i| vec![d(v1[i], 2), d(v2[i], 2), d(v3[i], 2), d(v4[i], 2), d(v5[i], 2)])
        .collect()
}

#[test]
pub fn test_xbar_r_chart() {
    let mut xbar_r_chart_stats = GroupStats::new(5, GroupStatsChartType::XbarRChart).unwrap();
    xbar_r_chart_stats.set_group_count(100);
    xbar_r_chart_stats.set_rounding_ctx(Some(RoundingContext::new(2, RoundHalfUp)));
    for row in xbar_r_dataset() {
        xbar_r_chart_stats.add_data(&row).unwrap();
    }

    xbar_r_chart_stats.update();
    let ucl = xbar_r_chart_stats.ucl();
    let lcl = xbar_r_chart_stats.lcl();
    let cl = xbar_r_chart_stats.cl();
    let average = xbar_r_chart_stats.average().clone();
    let ranges = xbar_r_chart_stats.ranges().clone();
    println!("ucl: {:?}", ucl);
    println!("cl: {:?}", cl);
    println!("lcl: {:?}", lcl);
    println!("average: {:?}", average);
    println!("range: {:?}", ranges);
    let res = xbar_r_chart_stats.apply_rule_validation(vec![
        SpcRule::Rule1Beyond3Sigma(1, 2),
        SpcRule::Rule2Of3Beyond2Sigma(2, 3, 1),
    ]);
    println!("res: {:#?}", res);
}

#[test]
fn xbar_r_limits_match_documented_dataset() {
    let mut chart = GroupStats::new(5, GroupStatsChartType::XbarRChart).unwrap();
    chart.set_group_count(100);
    chart.set_rounding_ctx(Some(RoundingContext::new(2, RoundHalfUp)));
    for row in xbar_r_dataset() {
        chart.add_data(&row).unwrap();
    }
    assert_eq!(chart.ucl(), d(82, 2));
    assert_eq!(chart.cl(), d(72, 2));
    assert_eq!(chart.lcl(), d(61, 2));
}

#[test]
fn group_chart_rejects_wrong_subgroup_length() {
    let mut chart = GroupStats::new(4, GroupStatsChartType::RChart).unwrap();
    let r = chart.add_data(&vec![d(1, 0), d(2, 0)]);
    assert_eq!(r, Err(SpcError::InputShapeError));
    assert_eq!(chart.ranges().len(), 0);
    assert!(chart.add_data(&vec![d(1, 0), d(2, 0), d(3, 0), d(4, 0)]).is_ok());
    assert_eq!(chart.ranges().len(), 1);
    assert_eq!(chart.ranges()[0], d(3, 0));
}

#[test]
fn group_chart_constructor_bounds() {
    assert!(GroupStats::new(1, GroupStatsChartType::RChart).is_err());
    assert!(GroupStats::new(26, GroupStatsChartType::RChart).is_err());
    assert!(GroupStats::new(2, GroupStatsChartType::RChart).is_ok());
    assert!(GroupStats::new(25, GroupStatsChartType::RChart).is_ok());
}

#[test]
fn group_chart_evicts_oldest_subgroup() {
    let mut chart = GroupStats::new(2, GroupStatsChartType::RChart).unwrap();
    chart.set_group_count(2);
    chart.add_data(&vec![d(1, 0), d(2, 0)]).unwrap();
    chart.add_data(&vec![d(3, 0), d(6, 0)]).unwrap();
    chart.add_data(&vec![d(5, 0), d(10, 0)]).unwrap();
    assert_eq!(chart.ranges().len(), 2);
    assert_eq!(chart.ranges()[0], d(3, 0));
    assert_eq!(chart.ranges()[1], d(5, 0));
    assert_eq!(chart.data().len(), 2);
}

#[test]
fn group_chart_recovers_after_capacity_shrink() {
    let mut chart = GroupStats::new(2, GroupStatsChartType::RChart).unwrap();
    for k in 0..5i64 {
        chart.add_data(&vec![d(k, 0), d(k + 1, 0)]).unwrap();
    }
    chart.set_group_count(2);
    // one append past a shrunken capacity drops every excess subgroup
    chart.add_data(&vec![d(10, 0), d(13, 0)]).unwrap();
    assert_eq!(chart.data().len(), 2);
    assert_eq!(chart.ranges().len(), 2);
    assert_eq!(chart.ranges()[0], d(1, 0));
    assert_eq!(chart.ranges()[1], d(3, 0));
}

#[test]
fn r_chart_limits_from_tables() {
    let mut chart = GroupStats::new(2, GroupStatsChartType::RChart).unwrap();
    chart.add_data(&vec![d(1, 0), d(2, 0)]).unwrap();
    chart.add_data(&vec![d(4, 0), d(1, 0)]).unwrap();
    // ranges 1 and 3, mean range 2; D4 = 3.267, D3 = 0, d2 = 1.128
    assert_eq!(chart.cl(), d(2, 0));
    assert_eq!(chart.ucl(), d(6_534, 3));
    assert_eq!(chart.lcl(), d(0, 0));
    // sigma estimate: 2 / 1.128 truncated at nine digits
    assert_eq!(chart.sigma_estimate().units(), 1_773_049_645);
}

#[test]
fn group_chart_reads_are_idempotent() {
    let mut chart = GroupStats::new(3, GroupStatsChartType::XbarSChart).unwrap();
    chart.add_data(&vec![d(1, 0), d(2, 0), d(3, 0)]).unwrap();
    assert!(chart.dirty());
    let first = chart.ucl();
    assert!(!chart.dirty());
    let second = chart.ucl();
    assert_eq!(first, second);
    assert_eq!(chart.average_average(), chart.average_average());
}

#[test]
fn attribute_p_chart_formulas() {
    let mut chart = AttributeStats::new(None, AttributeStatsChartType::PChart);
    chart.add_data(d(1, 0), d(10, 0)).unwrap();
    chart.add_data(d(2, 0), d(10, 0)).unwrap();
    chart.add_data(d(3, 0), d(10, 0)).unwrap();
    // average = 6/30 = 0.2; sigma term = floor(sqrt(0.2 * 0.8 / 10) * 1e9)
    assert_eq!(chart.average(), d(2, 1));
    assert_eq!(chart.cl(None), d(2, 1));
    assert_eq!(chart.ucl(None).units(), 200_000_000 + 3 * 126_491_106);
    assert_eq!(chart.lcl(None), Dec::zero());
    assert_eq!(chart.data().clone(), vec![d(1, 1), d(2, 1), d(3, 1)]);
}

#[test]
fn attribute_c_chart_formulas() {
    let mut chart = AttributeStats::new(None, AttributeStatsChartType::CChart);
    chart.add_data(d(1, 0), d(1, 0)).unwrap();
    chart.add_data(d(2, 0), d(1, 0)).unwrap();
    chart.add_data(d(3, 0), d(1, 0)).unwrap();
    // average = 2; sigma = floor(sqrt(2) * 1e9) = 1_414_213_562
    assert_eq!(chart.average().units(), 2_000_000_000);
    assert_eq!(chart.ucl(None).units(), 2_000_000_000 + 3 * 1_414_213_562);
    assert_eq!(chart.lcl(None).units(), 0);
    assert_eq!(chart.data().clone(), vec![d(1, 0), d(2, 0), d(3, 0)]);
}

#[test]
fn attribute_u_chart_formulas() {
    let mut chart = AttributeStats::new(None, AttributeStatsChartType::UChart);
    chart.add_data(d(4, 0), d(2, 0)).unwrap();
    // average = 4/2 = 2; nbar = 2; sigma = sqrt(2/2) = 1
    assert_eq!(chart.average(), d(2, 0));
    assert_eq!(chart.ucl(None), d(5, 0));
    assert_eq!(chart.lcl(None), Dec::zero());
    assert_eq!(chart.data().clone(), vec![d(2, 0)]);
}

#[test]
fn np_chart_formulas() {
    let mut chart = AttributeStats::new(None, AttributeStatsChartType::NpChart);
    chart.add_data(d(1, 0), d(5, 0)).unwrap();
    chart.add_data(d(3, 0), d(5, 0)).unwrap();
    // average = 2; p-bar = 4/10; sigma = floor(sqrt(2 * 0.6) * 1e9)
    assert_eq!(chart.average().units(), 2_000_000_000);
    assert_eq!(chart.ucl(None).units(), 5_286_335_345);
    assert_eq!(chart.lcl(None).units(), 0);
    assert_eq!(chart.data().clone(), vec![d(1, 0), d(3, 0)]);
}

#[test]
fn s_chart_limits_from_tables() {
    let mut chart = GroupStats::new(2, GroupStatsChartType::SChart).unwrap();
    chart.add_data(&vec![d(2, 0), d(4, 0)]).unwrap();
    // subgroup standard deviation: floor(sqrt(2) * 1e9); B4 = 3.276, B3 = 0
    assert_eq!(chart.stddev()[0].units(), 1_414_213_562);
    assert_eq!(chart.cl().units(), 1_414_213_562);
    assert_eq!(chart.ucl().units(), 4_632_963_629);
    assert_eq!(chart.lcl().units(), 0);
    // sigma estimate: std-dev mean over c4 = 0.7979
    assert_eq!(chart.sigma_estimate().units(), 1_772_419_553);
}

#[test]
fn np_chart_rejects_sample_size_drift_without_mutating() {
    let mut chart = AttributeStats::new(None, AttributeStatsChartType::NpChart);
    chart.add_data(d(1, 0), d(50, 0)).unwrap();
    let before_defects = chart.defects().clone();
    let before_samples = chart.samples().clone();
    let r = chart.add_data(d(2, 0), d(40, 0));
    assert_eq!(r, Err(SpcError::InputShapeError));
    assert_eq!(chart.defects().clone(), before_defects);
    assert_eq!(chart.samples().clone(), before_samples);
    assert!(chart.add_data(d(2, 0), d(50, 0)).is_ok());
    assert_eq!(chart.defects().len(), 2);
}

#[test]
fn attribute_lcl_clamps_to_zero() {
    let mut chart = AttributeStats::new(None, AttributeStatsChartType::PChart);
    chart.add_data(d(1, 0), d(10, 0)).unwrap();
    // a huge sigma multiplier drives the raw lower limit far below zero
    let lcl = chart.lcl(Some(d(60, 0)));
    assert_eq!(lcl, Dec::zero());
    let ucl = chart.ucl(Some(d(60, 0)));
    assert!(ucl.units() > 0);
}

#[test]
fn attribute_chart_evicts_oldest_pair() {
    let mut chart = AttributeStats::new(Some(3), AttributeStatsChartType::CChart);
    for k in 1..=5i64 {
        chart.add_data(d(k, 0), d(1, 0)).unwrap();
    }
    assert_eq!(chart.defects().clone(), vec![d(3, 0), d(4, 0), d(5, 0)]);
    assert_eq!(chart.max_elements(), 3);
}

#[test]
fn attribute_reads_are_idempotent() {
    let mut chart = AttributeStats::new(None, AttributeStatsChartType::UChart);
    chart.add_data(d(4, 0), d(2, 0)).unwrap();
    assert!(chart.dirty());
    let first = chart.ucl(None);
    assert!(!chart.dirty());
    assert_eq!(first, chart.ucl(None));
    assert_eq!(chart.average(), chart.average());
}

#[test]
fn attribute_empty_update_yields_zero_sentinels() {
    let mut chart = AttributeStats::new(None, AttributeStatsChartType::PChart);
    assert_eq!(chart.ucl(None), Dec::zero());
    assert_eq!(chart.lcl(None), Dec::zero());
    assert_eq!(chart.cl(None), Dec::zero());
    assert_eq!(chart.average(), Dec::zero());
    assert_eq!(chart.data().len(), 0);
}

#[test]
fn individuals_chart_moving_ranges() {
    let mut chart =
        MovingStats::new(2, MovingStatsChartType::IndividualsChart, Some(2)).unwrap();
    chart.add_data(d(1, 0));
    chart.add_data(d(3, 0));
    chart.add_data(d(2, 0));
    // moving ranges: sentinel, |3-1| = 2, |2-3| = 1; defined mean = 1.5
    assert_eq!(chart.range_data().clone(), vec![Dec::zero(), d(2, 0), d(1, 0)]);
    assert_eq!(chart.average(), d(2, 0));
    assert_eq!(chart.minimum(), d(1, 0));
    assert_eq!(chart.maximum(), d(3, 0));
    assert_eq!(chart.median(), d(2, 0));
    assert_eq!(chart.range(), d(2, 0));
    // limits: 2 +/- 2.660 * 1.5
    assert_eq!(chart.ucl_data().clone(), vec![d(599, 2); 3]);
    assert_eq!(chart.lcl_data().clone(), vec![d(-199, 2); 3]);
    // sigma estimate: 1.5 / 1.128 truncated at nine digits
    assert_eq!(chart.sigma_estimate().units(), 1_329_787_234);
}

#[test]
fn moving_range_chart_limits() {
    let mut chart =
        MovingStats::new(2, MovingStatsChartType::MovingRangeChart, None).unwrap();
    chart.add_data(d(1, 0));
    chart.add_data(d(3, 0));
    chart.add_data(d(2, 0));
    // defined moving ranges 2 and 1: mean 1.5; D4 = 3.267, D3 = 0
    assert_eq!(chart.average(), d(15, 1));
    assert_eq!(chart.minimum(), d(1, 0));
    assert_eq!(chart.maximum(), d(2, 0));
    assert_eq!(chart.ucl_data().clone(), vec![d(49_005, 4); 3]);
    assert_eq!(chart.lcl_data().clone(), vec![Dec::zero(); 3]);
}

#[test]
fn moving_chart_constructor_bounds() {
    assert!(MovingStats::new(1, MovingStatsChartType::IndividualsChart, None).is_err());
    assert!(MovingStats::new(11, MovingStatsChartType::IndividualsChart, None).is_err());
    assert!(MovingStats::new(2, MovingStatsChartType::IndividualsChart, Some(11)).is_err());
    assert!(MovingStats::new(2, MovingStatsChartType::IndividualsChart, Some(10)).is_ok());
}

#[test]
fn moving_chart_evicts_oldest_value() {
    let mut chart =
        MovingStats::new(2, MovingStatsChartType::IndividualsChart, None).unwrap();
    for k in 0..105i64 {
        chart.add_data(d(k, 0));
    }
    assert_eq!(chart.data().len(), 100);
    assert_eq!(chart.data()[0], d(5, 0));
    assert_eq!(chart.max_elements(), 100);
}

#[test]
fn moving_average_family_keeps_sentinels() {
    let mut chart =
        MovingStats::new(2, MovingStatsChartType::MovingAverageChart, None).unwrap();
    chart.add_data(d(7, 0));
    assert!(chart.dirty());
    assert_eq!(chart.average(), Dec::zero());
    assert!(!chart.dirty());
    assert_eq!(chart.range_data().len(), 0);
}
