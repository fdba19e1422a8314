//! Statistical process control (SPC) charts over exact fixed-point decimals:
//! attribute charts (p/np/c/u), subgroup charts (R / X̄-R / S / X̄-S),
//! individuals/moving-range charts, and a run-rule validation engine.

use vstd::prelude::*;

pub mod attribute_stats;
pub mod dec;
pub mod group_stats;
pub mod moving_stats;
pub mod rules;
pub mod statistics;

verus! {

/// Error taxonomy: construction-time bound violations and malformed
/// `add_data` inputs. Arithmetic edge cases (empty history, zero
/// denominators) are not errors; they yield zero sentinels instead.
#[derive(Debug, Clone, Copy, PartialEq, Eq, Structural)]
pub enum SpcError {
    /// A constructor argument is outside its allowed bounds.
    ConfigurationError,
    /// An `add_data` argument has the wrong shape for this chart
    /// (subgroup length mismatch, or np-chart sample-size drift).
    InputShapeError,
}

/// The seven decimal rounding strategies applied to derived chart values.
#[derive(Debug, Clone, Copy, PartialEq, Eq, Structural)]
pub enum RoundingMode {
    /// Round away from zero whenever any digit is dropped.
    RoundUp,
    /// Round toward zero (truncate).
    RoundDown,
    /// Round toward positive infinity.
    RoundCeiling,
    /// Round toward negative infinity.
    RoundFloor,
    /// Round to nearest; ties away from zero.
    RoundHalfUp,
    /// Round to nearest; ties toward zero.
    RoundHalfDown,
    /// Round to nearest; ties to the even digit.
    RoundHalfEven,
}

/// A rounding request: keep `scale` fractional digits, rounding with `rounding_mode`.
#[derive(Debug, Clone, Copy, PartialEq, Eq, Structural)]
pub struct RoundingContext {
    pub scale: u32,
    pub rounding_mode: RoundingMode,
}

impl RoundingContext {
    pub fn new(scale: u32, rounding_mode: RoundingMode) -> (r: RoundingContext)
        ensures
            r.scale == scale,
            r.rounding_mode == rounding_mode,
    {
        RoundingContext { scale, rounding_mode }
    }
}

/// Types whose values can be rounded to a number of decimal digits.
pub trait Rounding: Sized {
    fn scale(&self, scale: u32, rounding_mode: &RoundingMode) -> Self;
}

/// A run-rule to evaluate against a chart's plotted series. Each variant
/// carries its point-count threshold `p`, window length `n` and sigma
/// multiplier `s` where the rule uses them.
#[derive(Debug, Clone, Copy, PartialEq, Eq, Structural)]
pub enum SpcRule {
    /// `p` points beyond `s` sigma over the whole series
    /// (commonly `p = 1`, `s = 3`).
    Rule1Beyond3Sigma(usize, usize),
    /// `p` out of `n` consecutive points beyond `s` sigma
    /// (commonly `p = 2`, `n = 3`, `s = 2`).
    Rule2Of3Beyond2Sigma(usize, usize, usize),
    /// `p` out of `n` consecutive points beyond `s` sigma
    /// (commonly `p = 4`, `n = 5`, `s = 1`).
    Rule4Of5Beyond1Sigma(usize, usize, usize),
    /// `p` consecutive points strictly rising, or strictly falling
    /// (commonly `p = 6`).
    Rule6PointsUpOrDown(usize),
    /// `p` consecutive points all outside the one-sigma band
    /// (commonly `p = 8`).
    Rule8PointsAboveOrBelowCenter(usize),
    /// `p` consecutive points strictly on the same side of the center line
    /// (commonly `p = 9`).
    Rule9PointsOnSameSideOfCenter(usize),
    /// `p` consecutive points alternating strictly up and down
    /// (commonly `p = 14`).
    Rule14PointsOscillating(usize),
    /// `p` consecutive points all within the `s`-sigma band
    /// (commonly `p = 15`, `s = 1`).
    Rule15PointsWithin1Sigma(usize, usize),
}

/// The outcome of evaluating one run-rule: the rule itself, the distinct
/// offending indices into the plotted series in increasing order, the
/// series values at those indices, and the verdict.
#[derive(Debug)]
pub struct SpcRuleValidationResult {
    pub rule: SpcRule,
    pub bad_point_index: Vec<usize>,
    pub bad_point_data: Vec<dec::Dec>,
    pub validation_passed: bool,
}

/// Whether the data rises strictly at every step.
pub fn is_increasing(data: &Vec<dec::Dec>) -> (r: bool)
    ensures
        r == rules::inc_win(statistics::units_of(data@), 0, data@.len() as int),
{
    rules::check_increasing(data, 0, data.len())
}

/// Whether the data falls strictly at every step.
pub fn is_decreasing(data: &Vec<dec::Dec>) -> (r: bool)
    ensures
        r == rules::dec_win(statistics::units_of(data@), 0, data@.len() as int),
{
    rules::check_decreasing(data, 0, data.len())
}

/// Whether the data strictly alternates direction at every step.
pub fn is_alternating(data: &Vec<dec::Dec>) -> (r: bool)
    ensures
        r == rules::alt_win(statistics::units_of(data@), 0, data@.len() as int),
{
    rules::check_alternating(data, 0, data.len())
}

} // verus!
