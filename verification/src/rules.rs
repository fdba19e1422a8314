//! The run-rule validation engine: evaluates a set of SPC run-rules against
//! a plotted series with its center value and sigma estimate, reporting for
//! each rule whether it passed and which point indices violate it.

use vstd::prelude::*;
use crate::SpcRule;
use crate::SpcRuleValidationResult;
use crate::dec::Dec;
use crate::statistics::units_of;

verus! {

/// A point strictly outside the band `[lo, hi]`.
pub open spec fn outside(v: int, lo: int, hi: int) -> bool {
    v < lo || v > hi
}

/// Upper edge of the `s`-sigma band around `c`.
pub open spec fn band_hi(c: int, s: int, sg: int) -> int {
    c + s * sg
}

/// Lower edge of the `s`-sigma band around `c`.
pub open spec fn band_lo(c: int, s: int, sg: int) -> int {
    c - s * sg
}

/// Number of points of `u` strictly outside `[lo, hi]`.
pub open spec fn count_beyond(u: Seq<int>, lo: int, hi: int) -> nat
    decreases u.len(),
{
    if u.len() == 0 {
        0
    } else {
        count_beyond(u.drop_last(), lo, hi) + if outside(u.last(), lo, hi) {
            1nat
        } else {
            0nat
        }
    }
}

/// Number of points of the window `[i, i+n)` strictly outside `[lo, hi]`.
pub open spec fn count_beyond_win(u: Seq<int>, lo: int, hi: int, i: int, n: int) -> nat {
    count_beyond(u.subrange(i, i + n), lo, hi)
}

/// The series rises strictly from point `k` to point `k+1`.
pub open spec fn up_at(u: Seq<int>, k: int) -> bool {
    u[k] < u[k + 1]
}

/// The series falls strictly from point `k` to point `k+1`.
pub open spec fn down_at(u: Seq<int>, k: int) -> bool {
    u[k] > u[k + 1]
}

/// The series strictly changes direction at point `k+1`.
pub open spec fn turn_at(u: Seq<int>, k: int) -> bool {
    (up_at(u, k) && down_at(u, k + 1)) || (down_at(u, k) && up_at(u, k + 1))
}

/// The window `[i, i+n)` rises strictly at every step.
pub open spec fn inc_win(u: Seq<int>, i: int, n: int) -> bool {
    forall|k: int| i <= k < i + n - 1 ==> #[trigger] up_at(u, k)
}

/// The window `[i, i+n)` falls strictly at every step.
pub open spec fn dec_win(u: Seq<int>, i: int, n: int) -> bool {
    forall|k: int| i <= k < i + n - 1 ==> #[trigger] down_at(u, k)
}

/// Point-to-point direction strictly alternates across the window `[i, i+n)`.
pub open spec fn alt_win(u: Seq<int>, i: int, n: int) -> bool {
    forall|k: int| i <= k < i + n - 2 ==> #[trigger] turn_at(u, k)
}

/// Every point of the window is strictly outside `[lo, hi]`.
pub open spec fn all_outside_win(u: Seq<int>, lo: int, hi: int, i: int, n: int) -> bool {
    forall|k: int| i <= k < i + n ==> outside(#[trigger] u[k], lo, hi)
}

/// Every point of the window is inside `[lo, hi]`.
pub open spec fn all_within_win(u: Seq<int>, lo: int, hi: int, i: int, n: int) -> bool {
    forall|k: int| i <= k < i + n ==> !outside(#[trigger] u[k], lo, hi)
}

/// Every point of the window is strictly on one side of `c`.
pub open spec fn same_side_win(u: Seq<int>, c: int, i: int, n: int) -> bool {
    (forall|k: int| i <= k < i + n ==> #[trigger] u[k] > c) || (forall|k: int|
        i <= k < i + n ==> #[trigger] u[k] < c)
}

/// The sliding-window length a rule scans with (one for the whole-series
/// rule, which does not slide).
pub open spec fn rule_win(r: SpcRule) -> int {
    match r {
        SpcRule::Rule1Beyond3Sigma(_p, _s) => 1,
        SpcRule::Rule2Of3Beyond2Sigma(_p, n, _s) => n as int,
        SpcRule::Rule4Of5Beyond1Sigma(_p, n, _s) => n as int,
        SpcRule::Rule6PointsUpOrDown(p) => p as int,
        SpcRule::Rule8PointsAboveOrBelowCenter(p) => p as int,
        SpcRule::Rule9PointsOnSameSideOfCenter(p) => p as int,
        SpcRule::Rule14PointsOscillating(p) => p as int,
        SpcRule::Rule15PointsWithin1Sigma(p, _s) => p as int,
    }
}

/// The sigma multiplier a rule builds its band with (zero for the rules
/// that use no band).
pub open spec fn rule_sigma_mult(r: SpcRule) -> int {
    match r {
        SpcRule::Rule1Beyond3Sigma(_p, s) => s as int,
        SpcRule::Rule2Of3Beyond2Sigma(_p, _n, s) => s as int,
        SpcRule::Rule4Of5Beyond1Sigma(_p, _n, s) => s as int,
        SpcRule::Rule6PointsUpOrDown(_p) => 0,
        SpcRule::Rule8PointsAboveOrBelowCenter(_p) => 1,
        SpcRule::Rule9PointsOnSameSideOfCenter(_p) => 0,
        SpcRule::Rule14PointsOscillating(_p) => 0,
        SpcRule::Rule15PointsWithin1Sigma(_p, s) => s as int,
    }
}

/// Whether a qualifying window flags only its out-of-band points
/// (the `p`-out-of-`n` rules) rather than the whole window.
pub open spec fn rule_marks_outside_only(r: SpcRule) -> bool {
    match r {
        SpcRule::Rule2Of3Beyond2Sigma(_p, _n, _s) => true,
        SpcRule::Rule4Of5Beyond1Sigma(_p, _n, _s) => true,
        _ => false,
    }
}

/// Whether the sliding window starting at `i` triggers the rule.
/// The whole-series rule never qualifies a window; it is judged globally.
pub open spec fn rule_qualifies(r: SpcRule, u: Seq<int>, c: int, sg: int, i: int) -> bool {
    let lo = band_lo(c, rule_sigma_mult(r), sg);
    let hi = band_hi(c, rule_sigma_mult(r), sg);
    match r {
        SpcRule::Rule1Beyond3Sigma(_p, _s) => false,
        SpcRule::Rule2Of3Beyond2Sigma(p, n, _s) => count_beyond_win(u, lo, hi, i, n as int)
            >= p as int,
        SpcRule::Rule4Of5Beyond1Sigma(p, n, _s) => count_beyond_win(u, lo, hi, i, n as int)
            >= p as int,
        SpcRule::Rule6PointsUpOrDown(p) => inc_win(u, i, p as int) || dec_win(u, i, p as int),
        SpcRule::Rule8PointsAboveOrBelowCenter(p) => all_outside_win(u, lo, hi, i, p as int),
        SpcRule::Rule9PointsOnSameSideOfCenter(p) => same_side_win(u, c, i, p as int),
        SpcRule::Rule14PointsOscillating(p) => alt_win(u, i, p as int),
        SpcRule::Rule15PointsWithin1Sigma(p, _s) => all_within_win(u, lo, hi, i, p as int),
    }
}

/// `i` is a valid start of a window of the rule's length.
pub open spec fn win_start_ok(u: Seq<int>, r: SpcRule, i: int) -> bool {
    0 <= i && i + rule_win(r) <= u.len()
}

/// Whether the rule passes over the series: the whole-series rule fails when
/// enough points sit outside its band; a sliding rule fails when some full
/// window qualifies (shorter series are skipped and pass).
pub open spec fn rule_passed(r: SpcRule, u: Seq<int>, c: int, sg: int) -> bool {
    match r {
        SpcRule::Rule1Beyond3Sigma(p, s) => count_beyond(
            u,
            band_lo(c, s as int, sg),
            band_hi(c, s as int, sg),
        ) < p as int,
        _ => !(exists|i: int| win_start_ok(u, r, i) && rule_qualifies(r, u, c, sg, i)),
    }
}

/// Whether index `j` is reported for the rule: for the whole-series rule,
/// an out-of-band point once the rule fails; for a sliding rule, membership
/// in some qualifying window (restricted to out-of-band points for the
/// `p`-out-of-`n` rules).
pub open spec fn rule_flagged(r: SpcRule, u: Seq<int>, c: int, sg: int, j: int) -> bool {
    let lo = band_lo(c, rule_sigma_mult(r), sg);
    let hi = band_hi(c, rule_sigma_mult(r), sg);
    match r {
        SpcRule::Rule1Beyond3Sigma(p, _s) => !rule_passed(r, u, c, sg) && 0 <= j < u.len()
            && outside(u[j], lo, hi),
        _ => exists|i: int|
            win_start_ok(u, r, i) && #[trigger] rule_qualifies(r, u, c, sg, i) && i <= j < i
                + rule_win(r) && (rule_marks_outside_only(r) ==> outside(u[j], lo, hi)),
    }
}

/// A validation result is faithful to the series, the rule's verdict, and
/// the rule's flagged-index set: indices are strictly increasing, each
/// carries its series value, and an index appears exactly when the rule
/// flags it.
pub open spec fn result_ok(
    res: SpcRuleValidationResult,
    r: SpcRule,
    u: Seq<int>,
    c: int,
    sg: int,
) -> bool {
    &&& res.rule == r
    &&& res.validation_passed == rule_passed(r, u, c, sg)
    &&& res.bad_point_index@.len() == res.bad_point_data@.len()
    &&& forall|t: int|
        0 <= t < res.bad_point_index@.len() ==> (#[trigger] res.bad_point_index@[t] < u.len()
            && res.bad_point_data@[t]@ == u[res.bad_point_index@[t] as int])
    &&& forall|t1: int, t2: int|
        0 <= t1 < t2 < res.bad_point_index@.len() ==> res.bad_point_index@[t1]
            < res.bad_point_index@[t2]
    &&& forall|j: int|
        0 <= j < u.len() ==> (res.bad_point_index@.contains(j as usize) <==> #[trigger]
        rule_flagged(r, u, c, sg, j))
}

/// The band edges `c - s*sigma` and `c + s*sigma` as wide integers.
fn band_edges(center: Dec, sigma: Dec, s: usize) -> (e: (i128, i128))
    ensures
        e.0 == band_lo(center@, s as int, sigma@),
        e.1 == band_hi(center@, s as int, sigma@),
{
    proof {
        crate::dec::lemma_dec_view_range(center);
        crate::dec::lemma_dec_view_range(sigma);
        assert(-170141183460469231722463931679029329920 <= (s as int) * sigma@
            <= 170141183460469231722463931679029329920) by (nonlinear_arith)
            requires
                0 <= s as int <= 18446744073709551615,
                -9223372036854775808 <= sigma@ <= 9223372036854775807,
        ;
    }
    let m: i128 = (s as i128) * (sigma.units() as i128);
    let c: i128 = center.units() as i128;
    (c - m, c + m)
}

/// Whether the window of `n` points starting at `i` rises strictly.
pub fn check_increasing(series: &Vec<Dec>, i: usize, n: usize) -> (r: bool)
    requires
        i + n <= series@.len(),
    ensures
        r == inc_win(units_of(series@), i as int, n as int),
{
    let ghost u = units_of(series@);
    let sl = series.len();
    if n < 2 {
        return true;
    }
    let end = i + n - 1;
    let mut k: usize = i;
    while k < end
        invariant
            u == units_of(series@),
            i + n <= series@.len(),
            series@.len() == sl,
            end == i + n - 1,
            n >= 2,
            i <= k <= end,
            forall|t: int| i <= t < k ==> #[trigger] up_at(u, t),
        decreases end - k,
    {
        if series[k].units() >= series[k + 1].units() {
            proof {
                assert(!up_at(u, k as int));
            }
            return false;
        }
        proof {
            assert(up_at(u, k as int));
        }
        k = k + 1;
    }
    true
}

/// Whether the window of `n` points starting at `i` falls strictly.
pub fn check_decreasing(series: &Vec<Dec>, i: usize, n: usize) -> (r: bool)
    requires
        i + n <= series@.len(),
    ensures
        r == dec_win(units_of(series@), i as int, n as int),
{
    let ghost u = units_of(series@);
    let sl = series.len();
    if n < 2 {
        return true;
    }
    let end = i + n - 1;
    let mut k: usize = i;
    while k < end
        invariant
            u == units_of(series@),
            i + n <= series@.len(),
            series@.len() == sl,
            end == i + n - 1,
            n >= 2,
            i <= k <= end,
            forall|t: int| i <= t < k ==> #[trigger] down_at(u, t),
        decreases end - k,
    {
        if series[k].units() <= series[k + 1].units() {
            proof {
                assert(!down_at(u, k as int));
            }
            return false;
        }
        proof {
            assert(down_at(u, k as int));
        }
        k = k + 1;
    }
    true
}

/// Whether direction strictly alternates across the window of `n` points
/// starting at `i`.
#[verifier::rlimit(60)]
pub fn check_alternating(series: &Vec<Dec>, i: usize, n: usize) -> (r: bool)
    requires
        i + n <= series@.len(),
    ensures
        r == alt_win(units_of(series@), i as int, n as int),
{
    let ghost u = units_of(series@);
    let sl = series.len();
    if n < 3 {
        return true;
    }
    let end = i + n - 2;
    let mut k: usize = i;
    while k < end
        invariant
            u == units_of(series@),
            i + n <= series@.len(),
            series@.len() == sl,
            end == i + n - 2,
            n >= 3,
            i <= k <= end,
            forall|t: int| i <= t < k ==> #[trigger] turn_at(u, t),
        decreases end - k,
    {
        let a = series[k].units();
        let b = series[k + 1].units();
        let c = series[k + 2].units();
        proof {
            assert(u[k as int] == a && u[k as int + 1] == b && u[k as int + 2] == c);
        }
        if !((a < b && b > c) || (a > b && b < c)) {
            proof {
                assert(!turn_at(u, k as int));
            }
            return false;
        }
        proof {
            assert(turn_at(u, k as int));
        }
        k = k + 1;
    }
    true
}

/// Counts the points of the window strictly outside `[lo, hi]`.
fn count_beyond_in(series: &Vec<Dec>, lo: i128, hi: i128, i: usize, n: usize) -> (c: usize)
    requires
        i + n <= series@.len(),
    ensures
        c == count_beyond_win(units_of(series@), lo as int, hi as int, i as int, n as int),
        c <= n,
{
    let ghost u = units_of(series@);
    let sl = series.len();
    let mut c: usize = 0;
    let mut k: usize = 0;
    while k < n
        invariant
            u == units_of(series@),
            i + n <= series@.len(),
            series@.len() == sl,
            0 <= k <= n,
            c <= k,
            c == count_beyond(u.subrange(i as int, i as int + k), lo as int, hi as int),
        decreases n - k,
    {
        let ghost pre = u.subrange(i as int, i as int + k);
        proof {
            assert(u.subrange(i as int, i as int + k + 1).drop_last() =~= pre);
            assert(u.subrange(i as int, i as int + k + 1).last() == u[i as int + k]);
        }
        let v = series[i + k].units() as i128;
        if v < lo || v > hi {
            c = c + 1;
        }
        k = k + 1;
    }
    c
}

/// Whether every point of the window lies strictly outside `[lo, hi]`.
fn check_all_outside(series: &Vec<Dec>, lo: i128, hi: i128, i: usize, n: usize) -> (r: bool)
    requires
        i + n <= series@.len(),
    ensures
        r == all_outside_win(units_of(series@), lo as int, hi as int, i as int, n as int),
{
    let ghost u = units_of(series@);
    let sl = series.len();
    let mut k: usize = 0;
    while k < n
        invariant
            u == units_of(series@),
            i + n <= series@.len(),
            series@.len() == sl,
            0 <= k <= n,
            forall|t: int| i <= t < i + k ==> outside(#[trigger] u[t], lo as int, hi as int),
        decreases n - k,
    {
        let v = series[i + k].units() as i128;
        if !(v < lo || v > hi) {
            proof {
                assert(!outside(u[i as int + k], lo as int, hi as int));
            }
            return false;
        }
        k = k + 1;
    }
    true
}

/// Whether every point of the window lies inside `[lo, hi]`.
fn check_all_within(series: &Vec<Dec>, lo: i128, hi: i128, i: usize, n: usize) -> (r: bool)
    requires
        i + n <= series@.len(),
    ensures
        r == all_within_win(units_of(series@), lo as int, hi as int, i as int, n as int),
{
    let ghost u = units_of(series@);
    let sl = series.len();
    let mut k: usize = 0;
    while k < n
        invariant
            u == units_of(series@),
            i + n <= series@.len(),
            series@.len() == sl,
            0 <= k <= n,
            forall|t: int| i <= t < i + k ==> !outside(#[trigger] u[t], lo as int, hi as int),
        decreases n - k,
    {
        let v = series[i + k].units() as i128;
        if v < lo || v > hi {
            proof {
                assert(outside(u[i as int + k], lo as int, hi as int));
            }
            return false;
        }
        k = k + 1;
    }
    true
}

/// `j` is flagged by a qualifying window starting before `m`.
pub open spec fn flagged_upto(r: SpcRule, u: Seq<int>, c: int, sg: int, m: int, j: int) -> bool {
    exists|i: int|
        0 <= i < m && win_start_ok(u, r, i) && #[trigger] rule_qualifies(r, u, c, sg, i) && i <= j
            < i + rule_win(r) && (rule_marks_outside_only(r) ==> outside(
            u[j],
            band_lo(c, rule_sigma_mult(r), sg),
            band_hi(c, rule_sigma_mult(r), sg),
        ))
}

/// Some window starting before `m` qualifies.
pub open spec fn any_qual_upto(r: SpcRule, u: Seq<int>, c: int, sg: int, m: int) -> bool {
    exists|i: int| 0 <= i < m && win_start_ok(u, r, i) && #[trigger] rule_qualifies(r, u, c, sg, i)
}

proof fn lemma_flagged_upto_step(r: SpcRule, u: Seq<int>, c: int, sg: int, m: int, j: int)
    requires
        m >= 0,
    ensures
        flagged_upto(r, u, c, sg, m + 1, j) == (flagged_upto(r, u, c, sg, m, j) || (win_start_ok(
            u,
            r,
            m,
        ) && rule_qualifies(r, u, c, sg, m) && m <= j < m + rule_win(r) && (
        rule_marks_outside_only(r) ==> outside(
            u[j],
            band_lo(c, rule_sigma_mult(r), sg),
            band_hi(c, rule_sigma_mult(r), sg),
        )))),
{
    let lo = band_lo(c, rule_sigma_mult(r), sg);
    let hi = band_hi(c, rule_sigma_mult(r), sg);
    if flagged_upto(r, u, c, sg, m + 1, j) {
        let i = choose|i: int|
            0 <= i < m + 1 && win_start_ok(u, r, i) && #[trigger] rule_qualifies(r, u, c, sg, i)
                && i <= j < i + rule_win(r) && (rule_marks_outside_only(r) ==> outside(
                u[j],
                lo,
                hi,
            ));
        if i < m {
            assert(rule_qualifies(r, u, c, sg, i));
            assert(flagged_upto(r, u, c, sg, m, j));
        }
    }
    if flagged_upto(r, u, c, sg, m, j) {
        let i = choose|i: int|
            0 <= i < m && win_start_ok(u, r, i) && #[trigger] rule_qualifies(r, u, c, sg, i) && i
                <= j < i + rule_win(r) && (rule_marks_outside_only(r) ==> outside(u[j], lo, hi));
        assert(rule_qualifies(r, u, c, sg, i));
        assert(flagged_upto(r, u, c, sg, m + 1, j));
    }
    if win_start_ok(u, r, m) && rule_qualifies(r, u, c, sg, m) && m <= j < m + rule_win(r) && (
    rule_marks_outside_only(r) ==> outside(u[j], lo, hi)) {
        assert(flagged_upto(r, u, c, sg, m + 1, j));
    }
}

proof fn lemma_any_qual_upto_step(r: SpcRule, u: Seq<int>, c: int, sg: int, m: int)
    requires
        m >= 0,
    ensures
        any_qual_upto(r, u, c, sg, m + 1) == (any_qual_upto(r, u, c, sg, m) || (win_start_ok(
            u,
            r,
            m,
        ) && rule_qualifies(r, u, c, sg, m))),
{
    if any_qual_upto(r, u, c, sg, m + 1) {
        let i = choose|i: int|
            0 <= i < m + 1 && win_start_ok(u, r, i) && #[trigger] rule_qualifies(r, u, c, sg, i);
        if i < m {
            assert(rule_qualifies(r, u, c, sg, i));
            assert(any_qual_upto(r, u, c, sg, m));
        }
    }
    if any_qual_upto(r, u, c, sg, m) {
        let i = choose|i: int|
            0 <= i < m && win_start_ok(u, r, i) && #[trigger] rule_qualifies(r, u, c, sg, i);
        assert(rule_qualifies(r, u, c, sg, i));
        assert(any_qual_upto(r, u, c, sg, m + 1));
    }
}

/// Once every window start has been scanned, the scan's flag set is the
/// rule's flagged-index set, and finding a window is failing the rule.
proof fn lemma_scan_complete(r: SpcRule, u: Seq<int>, c: int, sg: int, bound: int, j: int)
    requires
        !(r is Rule1Beyond3Sigma),
        0 <= bound,
        bound + rule_win(r) == u.len(),
    ensures
        flagged_upto(r, u, c, sg, bound + 1, j) == rule_flagged(r, u, c, sg, j),
        any_qual_upto(r, u, c, sg, bound + 1) == !rule_passed(r, u, c, sg),
{
    let lo = band_lo(c, rule_sigma_mult(r), sg);
    let hi = band_hi(c, rule_sigma_mult(r), sg);
    assert forall|i: int| win_start_ok(u, r, i) implies 0 <= i < bound + 1 by {}
    if flagged_upto(r, u, c, sg, bound + 1, j) {
        let i = choose|i: int|
            0 <= i < bound + 1 && win_start_ok(u, r, i) && #[trigger] rule_qualifies(r, u, c, sg, i)
                && i <= j < i + rule_win(r) && (rule_marks_outside_only(r) ==> outside(
                u[j],
                lo,
                hi,
            ));
        assert(rule_qualifies(r, u, c, sg, i));
        assert(rule_flagged(r, u, c, sg, j));
    }
    if rule_flagged(r, u, c, sg, j) {
        let i = choose|i: int|
            win_start_ok(u, r, i) && #[trigger] rule_qualifies(r, u, c, sg, i) && i <= j < i
                + rule_win(r) && (rule_marks_outside_only(r) ==> outside(u[j], lo, hi));
        assert(rule_qualifies(r, u, c, sg, i));
        assert(flagged_upto(r, u, c, sg, bound + 1, j));
    }
    if any_qual_upto(r, u, c, sg, bound + 1) {
        let i = choose|i: int|
            0 <= i < bound + 1 && win_start_ok(u, r, i) && #[trigger] rule_qualifies(r, u, c, sg, i);
        assert(rule_qualifies(r, u, c, sg, i));
        assert(!rule_passed(r, u, c, sg));
    }
    if !rule_passed(r, u, c, sg) {
        let i = choose|i: int| win_start_ok(u, r, i) && #[trigger] rule_qualifies(r, u, c, sg, i);
        assert(rule_qualifies(r, u, c, sg, i));
        assert(any_qual_upto(r, u, c, sg, bound + 1));
    }
}

/// Whether every point of the window lies strictly on one side of `c`.
fn check_same_side(series: &Vec<Dec>, c: i64, i: usize, n: usize) -> (r: bool)
    requires
        i + n <= series@.len(),
    ensures
        r == same_side_win(units_of(series@), c as int, i as int, n as int),
{
    let ghost u = units_of(series@);
    let sl = series.len();
    let mut above = true;
    let mut below = true;
    let mut k: usize = 0;
    while k < n
        invariant
            u == units_of(series@),
            i + n <= series@.len(),
            series@.len() == sl,
            0 <= k <= n,
            above == (forall|t: int| i <= t < i + k ==> #[trigger] u[t] > c as int),
            below == (forall|t: int| i <= t < i + k ==> #[trigger] u[t] < c as int),
        decreases n - k,
    {
        let v = series[i + k].units();
        proof {
            if !(v > c) {
                assert(!(u[i as int + k] > c as int));
            }
            if !(v < c) {
                assert(!(u[i as int + k] < c as int));
            }
        }
        if v <= c {
            above = false;
        }
        if v >= c {
            below = false;
        }
        k = k + 1;
    }
    above || below
}

/// The sliding-window length of a rule.
fn rule_window_exec(rule: &SpcRule) -> (n: usize)
    ensures
        n == rule_win(*rule),
{
    match rule {
        SpcRule::Rule1Beyond3Sigma(_p, _s) => 1,
        SpcRule::Rule2Of3Beyond2Sigma(_p, n, _s) => *n,
        SpcRule::Rule4Of5Beyond1Sigma(_p, n, _s) => *n,
        SpcRule::Rule6PointsUpOrDown(p) => *p,
        SpcRule::Rule8PointsAboveOrBelowCenter(p) => *p,
        SpcRule::Rule9PointsOnSameSideOfCenter(p) => *p,
        SpcRule::Rule14PointsOscillating(p) => *p,
        SpcRule::Rule15PointsWithin1Sigma(p, _s) => *p,
    }
}

/// The sigma multiplier of a rule's band.
fn rule_sigma_mult_exec(rule: &SpcRule) -> (s: usize)
    ensures
        s as int == rule_sigma_mult(*rule),
{
    match rule {
        SpcRule::Rule1Beyond3Sigma(_p, s) => *s,
        SpcRule::Rule2Of3Beyond2Sigma(_p, _n, s) => *s,
        SpcRule::Rule4Of5Beyond1Sigma(_p, _n, s) => *s,
        SpcRule::Rule6PointsUpOrDown(_p) => 0,
        SpcRule::Rule8PointsAboveOrBelowCenter(_p) => 1,
        SpcRule::Rule9PointsOnSameSideOfCenter(_p) => 0,
        SpcRule::Rule14PointsOscillating(_p) => 0,
        SpcRule::Rule15PointsWithin1Sigma(_p, s) => *s,
    }
}

/// Whether the window starting at `i` triggers the sliding rule.
fn window_qualifies(
    series: &Vec<Dec>,
    chart_average: Dec,
    sigma: Dec,
    rule: &SpcRule,
    i: usize,
) -> (q: bool)
    requires
        i + rule_win(*rule) <= series@.len(),
    ensures
        q == rule_qualifies(*rule, units_of(series@), chart_average@, sigma@, i as int),
{
    match rule {
        SpcRule::Rule1Beyond3Sigma(_p, _s) => false,
        SpcRule::Rule2Of3Beyond2Sigma(p, n, s) => {
            let e = band_edges(chart_average, sigma, *s);
            count_beyond_in(series, e.0, e.1, i, *n) >= *p
        },
        SpcRule::Rule4Of5Beyond1Sigma(p, n, s) => {
            let e = band_edges(chart_average, sigma, *s);
            count_beyond_in(series, e.0, e.1, i, *n) >= *p
        },
        SpcRule::Rule6PointsUpOrDown(p) => {
            check_increasing(series, i, *p) || check_decreasing(series, i, *p)
        },
        SpcRule::Rule8PointsAboveOrBelowCenter(p) => {
            let e = band_edges(chart_average, sigma, 1);
            check_all_outside(series, e.0, e.1, i, *p)
        },
        SpcRule::Rule9PointsOnSameSideOfCenter(p) => {
            check_same_side(series, chart_average.units(), i, *p)
        },
        SpcRule::Rule14PointsOscillating(p) => { check_alternating(series, i, *p) },
        SpcRule::Rule15PointsWithin1Sigma(p, s) => {
            let e = band_edges(chart_average, sigma, *s);
            check_all_within(series, e.0, e.1, i, *p)
        },
    }
}

/// Marks the window `[i, i+n)` in the flag vector; when `only_outside` is
/// set, only its points strictly outside `[lo, hi]` are marked.
fn mark_window(
    flag: &mut Vec<bool>,
    series: &Vec<Dec>,
    lo: i128,
    hi: i128,
    only_outside: bool,
    i: usize,
    n: usize,
)
    requires
        i + n <= series@.len(),
        old(flag)@.len() == series@.len(),
    ensures
        final(flag)@.len() == old(flag)@.len(),
        forall|j: int|
            0 <= j < final(flag)@.len() ==> final(flag)@[j] == (old(flag)@[j] || (i <= j < i + n
                && (only_outside ==> outside(units_of(series@)[j], lo as int, hi as int)))),
{
    let ghost u = units_of(series@);
    let ghost flag0 = flag@;
    let sl = series.len();
    let mut k: usize = 0;
    while k < n
        invariant
            u == units_of(series@),
            flag0.len() == series@.len(),
            series@.len() == sl,
            i + n <= series@.len(),
            flag@.len() == flag0.len(),
            0 <= k <= n,
            forall|j: int|
                0 <= j < flag@.len() ==> #[trigger] flag@[j] == (flag0[j] || (i <= j < i + k && (
                only_outside ==> outside(u[j], lo as int, hi as int)))),
        decreases n - k,
    {
        let ghost fpre = flag@;
        let v = series[i + k].units() as i128;
        let marked = !only_outside || v < lo || v > hi;
        if marked {
            flag.set(i + k, true);
        }
        proof {
            assert(u[i as int + k as int] == v as int);
            assert forall|j: int| 0 <= j < flag@.len() implies flag@[j] == (flag0[j] || (i <= j < i
                + k + 1 && (only_outside ==> outside(u[j], lo as int, hi as int)))) by {
                assert(fpre[j] == (flag0[j] || (i <= j < i + k && (only_outside ==> outside(
                    u[j],
                    lo as int,
                    hi as int,
                )))));
                if j == i + k {
                    if marked {
                        assert(flag@[j]);
                    } else {
                        assert(flag@[j] == fpre[j]);
                        assert(only_outside && !outside(u[j], lo as int, hi as int));
                    }
                } else {
                    assert(flag@[j] == fpre[j]);
                }
            }
        }
        k = k + 1;
    }
}

/// Collects the marked indices in increasing order, together with the
/// series values at those indices.
fn collect_flagged(series: &Vec<Dec>, flag: &Vec<bool>) -> (out: (Vec<usize>, Vec<Dec>))
    requires
        flag@.len() == series@.len(),
    ensures
        out.0@.len() == out.1@.len(),
        forall|t: int|
            0 <= t < out.0@.len() ==> (#[trigger] out.0@[t] < series@.len() && out.1@[t]@
                == units_of(series@)[out.0@[t] as int]),
        forall|t1: int, t2: int| 0 <= t1 < t2 < out.0@.len() ==> out.0@[t1] < out.0@[t2],
        forall|j: int| 0 <= j < flag@.len() ==> (out.0@.contains(j as usize) <==> flag@[j]),
{
    let ghost u = units_of(series@);
    let mut idx: Vec<usize> = Vec::new();
    let mut data: Vec<Dec> = Vec::new();
    let mut j: usize = 0;
    while j < flag.len()
        invariant
            u == units_of(series@),
            flag@.len() == series@.len(),
            0 <= j <= flag@.len(),
            idx@.len() == data@.len(),
            forall|t: int|
                0 <= t < idx@.len() ==> (#[trigger] idx@[t] < j && flag@[idx@[t] as int] && data@[
                t]@ == u[idx@[t] as int]),
            forall|t1: int, t2: int| 0 <= t1 < t2 < idx@.len() ==> idx@[t1] < idx@[t2],
            forall|j2: int| 0 <= j2 < j ==> (flag@[j2] ==> idx@.contains(j2 as usize)),
        decreases flag@.len() - j,
    {
        if flag[j] {
            let ghost idx0 = idx@;
            idx.push(j);
            data.push(series[j]);
            proof {
                assert(idx@ == idx0.push(j));
                assert(idx@[idx@.len() - 1] == j);
                assert(forall|t: int| 0 <= t < idx0.len() ==> idx@[t] == #[trigger] idx0[t]);
                assert forall|j2: int| 0 <= j2 < j + 1 && flag@[j2] implies idx@.contains(
                    j2 as usize,
                ) by {
                    if j2 == j {
                        assert(idx@[idx@.len() - 1] == j2 as usize);
                    } else {
                        assert(idx0.contains(j2 as usize));
                        let t = choose|t: int| 0 <= t < idx0.len() && idx0[t] == j2 as usize;
                        assert(idx@[t] == j2 as usize);
                    }
                }
            }
        }
        j = j + 1;
    }
    proof {
        assert forall|j2: int| 0 <= j2 < flag@.len() && idx@.contains(j2 as usize) implies flag@[
        j2] by {
            let t = choose|t: int| 0 <= t < idx@.len() && idx@[t] == j2 as usize;
            assert(idx@[t] < flag@.len() && flag@[idx@[t] as int]);
        }
    }
    (idx, data)
}

/// Evaluates one run-rule against a plotted series with its center value
/// and sigma estimate.
pub fn validate_rule(
    series: &Vec<Dec>,
    chart_average: Dec,
    sigma: Dec,
    rule: SpcRule,
) -> (res: SpcRuleValidationResult)
    ensures
        result_ok(res, rule, units_of(series@), chart_average@, sigma@),
{
    let ghost u = units_of(series@);
    let ghost c = chart_average@;
    let ghost sg = sigma@;
    let len = series.len();
    match rule {
        SpcRule::Rule1Beyond3Sigma(p, s) => {
            let e = band_edges(chart_average, sigma, s);
            let cnt = count_beyond_in(series, e.0, e.1, 0, len);
            proof {
                assert(u.subrange(0, len as int) =~= u);
            }
            if cnt < p {
                let empty_idx: Vec<usize> = Vec::new();
                let empty_data: Vec<Dec> = Vec::new();
                proof {
                    assert(rule_passed(rule, u, c, sg));
                    assert(forall|j2: int| 0 <= j2 < u.len() ==> !rule_flagged(rule, u, c, sg, j2));
                    assert(forall|j2: int| !(#[trigger] empty_idx@.contains(j2 as usize)));
                }
                let res = SpcRuleValidationResult {
                    rule,
                    bad_point_index: empty_idx,
                    bad_point_data: empty_data,
                    validation_passed: true,
                };
                proof {
                    assert(res.rule == rule);
                    assert(res.validation_passed == rule_passed(rule, u, c, sg));
                    assert(res.bad_point_index@.len() == 0);
                    assert(res.bad_point_data@.len() == 0);
                    assert forall|j2: int| 0 <= j2 < u.len() implies (res.bad_point_index@.contains(
                        j2 as usize,
                    ) <==> #[trigger] rule_flagged(rule, u, c, sg, j2)) by {
                        assert(!res.bad_point_index@.contains(j2 as usize));
                        assert(!rule_flagged(rule, u, c, sg, j2));
                    }
                }
                res
            } else {
                let mut flag: Vec<bool> = Vec::new();
                let mut j: usize = 0;
                while j < len
                    invariant
                        u == units_of(series@),
                        series@.len() == len,
                        0 <= j <= len,
                        flag@.len() == j,
                        forall|j2: int|
                            0 <= j2 < j ==> #[trigger] flag@[j2] == outside(
                                u[j2],
                                e.0 as int,
                                e.1 as int,
                            ),
                    decreases len - j,
                {
                    let v = series[j].units() as i128;
                    flag.push(v < e.0 || v > e.1);
                    j = j + 1;
                }
                let out = collect_flagged(series, &flag);
                proof {
                    assert(!rule_passed(rule, u, c, sg));
                    assert forall|j2: int| 0 <= j2 < len implies (out.0@.contains(j2 as usize)
                        <==> #[trigger] rule_flagged(rule, u, c, sg, j2)) by {
                        assert(out.0@.contains(j2 as usize) <==> flag@[j2]);
                        assert(flag@[j2] == outside(u[j2], e.0 as int, e.1 as int));
                    }
                }
                let res = SpcRuleValidationResult {
                    rule,
                    bad_point_index: out.0,
                    bad_point_data: out.1,
                    validation_passed: false,
                };
                proof {
                    assert(res.rule == rule);
                    assert(res.validation_passed == rule_passed(rule, u, c, sg));
                    assert(res.bad_point_index@.len() == res.bad_point_data@.len());
                    assert(forall|t: int|
                        0 <= t < res.bad_point_index@.len() ==> (#[trigger] res.bad_point_index@[t]
                            < u.len() && res.bad_point_data@[t]@ == u[res.bad_point_index@[t] as int]));
                    assert(forall|t1: int, t2: int|
                        0 <= t1 < t2 < res.bad_point_index@.len() ==> res.bad_point_index@[t1]
                            < res.bad_point_index@[t2]);
                    assert(forall|j2: int|
                        0 <= j2 < u.len() ==> (res.bad_point_index@.contains(j2 as usize)
                            <==> #[trigger] rule_flagged(rule, u, c, sg, j2)));
                }
                res
            }
        },
        _ => {
            let n = rule_window_exec(&rule);
            let sm = rule_sigma_mult_exec(&rule);
            let e = band_edges(chart_average, sigma, sm);
            let only_outside = match rule {
                SpcRule::Rule2Of3Beyond2Sigma(_p2, _n2, _s2) => true,
                SpcRule::Rule4Of5Beyond1Sigma(_p2, _n2, _s2) => true,
                _ => false,
            };
            let mut flag: Vec<bool> = Vec::new();
            let mut j: usize = 0;
            while j < len
                invariant
                    0 <= j <= len,
                    flag@.len() == j,
                    forall|j2: int| 0 <= j2 < j ==> !(#[trigger] flag@[j2]),
                decreases len - j,
            {
                flag.push(false);
                j = j + 1;
            }
            let mut found = false;
            if n <= len {
                let bound = len - n;
                let mut i: usize = 0;
                while i <= bound
                    invariant_except_break
                        u == units_of(series@),
                        c == chart_average@,
                        sg == sigma@,
                        series@.len() == len,
                        n == rule_win(rule),
                        sm as int == rule_sigma_mult(rule),
                        e.0 == band_lo(c, rule_sigma_mult(rule), sg),
                        e.1 == band_hi(c, rule_sigma_mult(rule), sg),
                        only_outside == rule_marks_outside_only(rule),
                        !(rule is Rule1Beyond3Sigma),
                        n <= len,
                        bound == len - n,
                        0 <= i <= bound,
                        flag@.len() == len,
                        forall|j2: int|
                            0 <= j2 < len ==> #[trigger] flag@[j2] == flagged_upto(
                                rule,
                                u,
                                c,
                                sg,
                                i as int,
                                j2,
                            ),
                        found == any_qual_upto(rule, u, c, sg, i as int),
                    ensures
                        flag@.len() == len,
                        forall|j2: int|
                            0 <= j2 < len ==> flag@[j2] == flagged_upto(
                                rule,
                                u,
                                c,
                                sg,
                                bound as int + 1,
                                j2,
                            ),
                        found == any_qual_upto(rule, u, c, sg, bound as int + 1),
                    decreases bound - i,
                {
                    let ghost flag_top = flag@;
                    let ghost found_top = found;
                    let q = window_qualifies(series, chart_average, sigma, &rule, i);
                    if q {
                        found = true;
                        mark_window(&mut flag, series, e.0, e.1, only_outside, i, n);
                    }
                    proof {
                        assert forall|j2: int| 0 <= j2 < len implies flag@[j2] == flagged_upto(
                            rule,
                            u,
                            c,
                            sg,
                            i as int + 1,
                            j2,
                        ) by {
                            lemma_flagged_upto_step(rule, u, c, sg, i as int, j2);
                            assert(win_start_ok(u, rule, i as int));
                            assert(flag_top[j2] == flagged_upto(rule, u, c, sg, i as int, j2));
                            if q {
                                assert(rule_qualifies(rule, u, c, sg, i as int));
                                assert(flag@[j2] == (flag_top[j2] || (i <= j2 < i + n && (
                                only_outside ==> outside(u[j2], e.0 as int, e.1 as int)))));
                                assert((i <= j2 < i + n && (only_outside ==> outside(
                                    u[j2],
                                    e.0 as int,
                                    e.1 as int,
                                ))) == (win_start_ok(u, rule, i as int) && rule_qualifies(
                                    rule,
                                    u,
                                    c,
                                    sg,
                                    i as int,
                                ) && i as int <= j2 < i as int + rule_win(rule) && (
                                rule_marks_outside_only(rule) ==> outside(
                                    u[j2],
                                    band_lo(c, rule_sigma_mult(rule), sg),
                                    band_hi(c, rule_sigma_mult(rule), sg),
                                ))));
                            } else {
                                assert(flag@[j2] == flag_top[j2]);
                                assert(!rule_qualifies(rule, u, c, sg, i as int));
                            }
                            assert(flag@[j2] == flagged_upto(rule, u, c, sg, i as int + 1, j2));
                        }
                        lemma_any_qual_upto_step(rule, u, c, sg, i as int);
                        assert(win_start_ok(u, rule, i as int));
                        assert(q == rule_qualifies(rule, u, c, sg, i as int));
                        assert(any_qual_upto(rule, u, c, sg, i as int + 1) == (any_qual_upto(
                            rule,
                            u,
                            c,
                            sg,
                            i as int,
                        ) || q));
                        assert(found == any_qual_upto(rule, u, c, sg, i as int + 1));
                    }
                    if i == bound {
                        break ;
                    }
                    i = i + 1;
                }
                proof {
                    assert forall|j2: int| 0 <= j2 < len implies flag@[j2] == rule_flagged(
                        rule,
                        u,
                        c,
                        sg,
                        j2,
                    ) by {
                        lemma_scan_complete(rule, u, c, sg, bound as int, j2);
                    }
                    lemma_scan_complete(rule, u, c, sg, bound as int, 0);
                }
            } else {
                proof {
                    assert forall|j2: int| 0 <= j2 < len implies !rule_flagged(
                        rule,
                        u,
                        c,
                        sg,
                        j2,
                    ) by {
                        if rule_flagged(rule, u, c, sg, j2) {
                            let w = choose|w: int|
                                win_start_ok(u, rule, w) && #[trigger] rule_qualifies(
                                    rule,
                                    u,
                                    c,
                                    sg,
                                    w,
                                ) && w <= j2 < w + rule_win(rule) && (rule_marks_outside_only(rule)
                                ==> outside(
                                    u[j2],
                                    band_lo(c, rule_sigma_mult(rule), sg),
                                    band_hi(c, rule_sigma_mult(rule), sg),
                                ));
                            assert(w + rule_win(rule) <= len);
                        }
                    }
                    if !rule_passed(rule, u, c, sg) {
                        let w = choose|w: int|
                            win_start_ok(u, rule, w) && #[trigger] rule_qualifies(rule, u, c, sg, w);
                        assert(w + rule_win(rule) <= len);
                    }
                }
            }
            let out = collect_flagged(series, &flag);
            proof {
                assert forall|j2: int| 0 <= j2 < len implies (out.0@.contains(j2 as usize)
                    <==> #[trigger] rule_flagged(rule, u, c, sg, j2)) by {
                    assert(out.0@.contains(j2 as usize) <==> flag@[j2]);
                }
                assert forall|j2: int| 0 <= j2 < units_of(series@).len() implies (
                out.0@.contains(j2 as usize) <==> #[trigger] rule_flagged(
                    rule,
                    units_of(series@),
                    chart_average@,
                    sigma@,
                    j2,
                )) by {
                    assert(rule_flagged(rule, units_of(series@), chart_average@, sigma@, j2)
                        == rule_flagged(rule, u, c, sg, j2));
                }
            }
            SpcRuleValidationResult {
                rule,
                bad_point_index: out.0,
                bad_point_data: out.1,
                validation_passed: !found,
            }
        },
    }
}

/// Evaluates a set of run-rules against a plotted series with its center
/// value and sigma estimate, one result per rule, in the rules' order.
pub fn evaluate_rules(
    series: &Vec<Dec>,
    chart_average: Dec,
    sigma: Dec,
    rules: Vec<SpcRule>,
) -> (res: Vec<SpcRuleValidationResult>)
    ensures
        res@.len() == rules@.len(),
        forall|k: int|
            0 <= k < rules@.len() ==> result_ok(
                #[trigger] res@[k],
                rules@[k],
                units_of(series@),
                chart_average@,
                sigma@,
            ),
{
    let mut res: Vec<SpcRuleValidationResult> = Vec::new();
    let mut k: usize = 0;
    while k < rules.len()
        invariant
            0 <= k <= rules@.len(),
            res@.len() == k,
            forall|t: int|
                0 <= t < k ==> result_ok(
                    #[trigger] res@[t],
                    rules@[t],
                    units_of(series@),
                    chart_average@,
                    sigma@,
                ),
        decreases rules@.len() - k,
    {
        let r = validate_rule(series, chart_average, sigma, rules[k]);
        res.push(r);
        k = k + 1;
    }
    res
}


proof fn lemma_count_beyond_pos(u: Seq<int>, lo: int, hi: int, j: int)
    requires
        0 <= j < u.len(),
        outside(u[j], lo, hi),
    ensures
        count_beyond(u, lo, hi) >= 1,
    decreases u.len(),
{
    if j < u.len() - 1 {
        lemma_count_beyond_pos(u.drop_last(), lo, hi, j);
    }
}

/// The whole-series rule with a threshold of one flags exactly the points
/// strictly outside its sigma band: each such point is flagged, and no
/// in-band point ever is.
pub proof fn lemma_rule1_single_point(u: Seq<int>, c: int, sg: int, s: usize, j: int)
    requires
        0 <= j < u.len(),
    ensures
        rule_flagged(SpcRule::Rule1Beyond3Sigma(1, s), u, c, sg, j) == outside(
            u[j],
            band_lo(c, s as int, sg),
            band_hi(c, s as int, sg),
        ),
{
    let r = SpcRule::Rule1Beyond3Sigma(1, s);
    let lo = band_lo(c, s as int, sg);
    let hi = band_hi(c, s as int, sg);
    if outside(u[j], lo, hi) {
        lemma_count_beyond_pos(u, lo, hi, j);
        assert(!rule_passed(r, u, c, sg));
    }
}

/// Raising the whole-series rule's threshold never turns a passing series
/// into a failing one: more out-of-band points are needed before it fails.
pub proof fn lemma_rule1_threshold_monotone(
    u: Seq<int>,
    c: int,
    sg: int,
    p1: usize,
    p2: usize,
    s: usize,
)
    requires
        p1 <= p2,
    ensures
        rule_passed(SpcRule::Rule1Beyond3Sigma(p1, s), u, c, sg) ==> rule_passed(
            SpcRule::Rule1Beyond3Sigma(p2, s),
            u,
            c,
            sg,
        ),
{
}

/// Over a strictly monotonic stretch at least as long as the window, the
/// up-or-down rule flags every index of the stretch: each lies in some
/// qualifying window held inside the stretch.
pub proof fn lemma_rule6_monotonic_run(
    u: Seq<int>,
    c: int,
    sg: int,
    p: usize,
    a: int,
    b: int,
    j: int,
)
    requires
        1 <= p,
        0 <= a <= j < b <= u.len(),
        b - a >= p,
        inc_win(u, a, b - a) || dec_win(u, a, b - a),
    ensures
        rule_flagged(SpcRule::Rule6PointsUpOrDown(p), u, c, sg, j),
{
    let r = SpcRule::Rule6PointsUpOrDown(p);
    let w = if j <= b - p {
        j
    } else {
        b - p
    };
    assert(a <= w && w <= j && j < w + p && w + p <= b);
    if inc_win(u, a, b - a) {
        assert forall|k: int| w <= k < w + p - 1 implies #[trigger] up_at(u, k) by {
            assert(up_at(u, k));
        }
        assert(inc_win(u, w, p as int));
    } else {
        assert forall|k: int| w <= k < w + p - 1 implies #[trigger] down_at(u, k) by {
            assert(down_at(u, k));
        }
        assert(dec_win(u, w, p as int));
    }
    assert(rule_qualifies(r, u, c, sg, w));
    assert(win_start_ok(u, r, w));
}

} // verus!
