//! Descriptive statistics over a borrowed sequence of fixed-point decimals:
//! minimum, maximum, average, range, variance, standard deviation and median,
//! each computed exactly over mantissas and specified against a recursive
//! mathematical definition.

use vstd::prelude::*;
use crate::dec::Dec;
use crate::dec::DEC_UNIT;
use crate::dec::abs_i;
use crate::dec::tdiv;
use crate::dec::tdiv_exec;
use crate::dec::sqrt_floor;
use crate::dec::sqrt_units;
use crate::dec::lemma_sqrt_floor_eq;

verus! {

/// Enumeration of possible tie-breaking strategies when computing ranks.
#[derive(Debug, Copy, Clone)]
pub enum RankTieBreaker {
    /// Replaces ties with their mean.
    Average,
    /// Replace ties with their minimum.
    Min,
    /// Replace ties with their maximum.
    Max,
    /// Permutation with increasing values at each index of ties.
    First,
}

/// Largest mantissa magnitude the statistics accept per data point.
pub const STAT_MAX_UNITS: i64 = 10_000_000_000_000_000;

/// Largest number of data points the statistics accept.
pub const STAT_MAX_LEN: usize = 100_000;

/// Tighter per-point mantissa bound under which a variance still fits
/// in the fixed-point domain.
pub const VAR_MAX_UNITS: i64 = 30_000_000_000_000;

/// The sequence of mantissas behind a sequence of decimals.
pub open spec fn units_of(s: Seq<Dec>) -> Seq<int> {
    Seq::new(s.len(), |i: int| s[i]@)
}

/// Every mantissa of `s` has magnitude at most `b`.
pub open spec fn all_bounded(s: Seq<int>, b: int) -> bool {
    forall|i: int| 0 <= i < s.len() ==> abs_i(#[trigger] s[i]) <= b
}

/// The input domain of the statistics functions.
pub open spec fn stats_input_ok(s: Seq<int>) -> bool {
    s.len() <= STAT_MAX_LEN as int && all_bounded(s, STAT_MAX_UNITS as int)
}

/// Sum of a sequence of mantissas.
pub open spec fn sum_units(s: Seq<int>) -> int
    decreases s.len(),
{
    if s.len() == 0 {
        0
    } else {
        sum_units(s.drop_last()) + s.last()
    }
}

/// Smallest element; zero for the empty sequence.
pub open spec fn min_units(s: Seq<int>) -> int
    decreases s.len(),
{
    if s.len() == 0 {
        0
    } else if s.len() == 1 {
        s[0]
    } else {
        let m = min_units(s.drop_last());
        if s.last() < m {
            s.last()
        } else {
            m
        }
    }
}

/// Largest element; zero for the empty sequence.
pub open spec fn max_units(s: Seq<int>) -> int
    decreases s.len(),
{
    if s.len() == 0 {
        0
    } else if s.len() == 1 {
        s[0]
    } else {
        let m = max_units(s.drop_last());
        if s.last() > m {
            s.last()
        } else {
            m
        }
    }
}

/// The truncated mean; zero for the empty sequence.
pub open spec fn avg_units(s: Seq<int>) -> int {
    tdiv(sum_units(s), s.len() as int)
}

/// Largest minus smallest element; zero for the empty sequence.
pub open spec fn range_units(s: Seq<int>) -> int {
    if s.len() == 0 {
        0
    } else {
        max_units(s) - min_units(s)
    }
}

/// Smallest absolute element; zero for the empty sequence.
pub open spec fn amin_units(s: Seq<int>) -> int
    decreases s.len(),
{
    if s.len() == 0 {
        0
    } else if s.len() == 1 {
        abs_i(s[0])
    } else {
        let m = amin_units(s.drop_last());
        if abs_i(s.last()) < m {
            abs_i(s.last())
        } else {
            m
        }
    }
}

/// Largest absolute element; zero for the empty sequence.
pub open spec fn amax_units(s: Seq<int>) -> int
    decreases s.len(),
{
    if s.len() == 0 {
        0
    } else if s.len() == 1 {
        abs_i(s[0])
    } else {
        let m = amax_units(s.drop_last());
        if abs_i(s.last()) > m {
            abs_i(s.last())
        } else {
            m
        }
    }
}

/// Sum of squared deviations from `c`, at eighteen fractional digits.
pub open spec fn dev_sq_sum(s: Seq<int>, c: int) -> int
    decreases s.len(),
{
    if s.len() == 0 {
        0
    } else {
        dev_sq_sum(s.drop_last(), c) + (s.last() - c) * (s.last() - c)
    }
}

/// The sample variance (Bessel-corrected) as a scale-18 mantissa;
/// zero when fewer than two points exist.
pub open spec fn var18_units(s: Seq<int>) -> int {
    if s.len() < 2 {
        0
    } else {
        dev_sq_sum(s, avg_units(s)) / (s.len() - 1)
    }
}

/// The population variance as a scale-18 mantissa; zero when empty.
pub open spec fn pvar18_units(s: Seq<int>) -> int {
    if s.len() == 0 {
        0
    } else {
        dev_sq_sum(s, avg_units(s)) / (s.len() as int)
    }
}

/// Whether a sequence of mantissas is sorted in nondecreasing order.
pub open spec fn sorted_units(s: Seq<int>) -> bool {
    forall|i: int, j: int| 0 <= i < j < s.len() ==> s[i] <= s[j]
}

/// Every element of `s` is at most `m`.
pub open spec fn all_le(s: Seq<int>, m: int) -> bool {
    forall|i: int| 0 <= i < s.len() ==> #[trigger] s[i] <= m
}

/// Inserts `x` into a sorted sequence, keeping it sorted
/// (new element placed after equal ones).
pub open spec fn insert_sorted(s: Seq<int>, x: int) -> Seq<int>
    decreases s.len(),
{
    if s.len() == 0 {
        seq![x]
    } else if s.last() <= x {
        s.push(x)
    } else {
        insert_sorted(s.drop_last(), x).push(s.last())
    }
}

/// Insertion sort of a sequence of mantissas.
pub open spec fn msort(s: Seq<int>) -> Seq<int>
    decreases s.len(),
{
    if s.len() == 0 {
        Seq::empty()
    } else {
        insert_sorted(msort(s.drop_last()), s.last())
    }
}

/// The median: middle element of the sorted data for odd length, truncated
/// mean of the two middle elements for even length, zero when empty.
pub open spec fn median_units(s: Seq<int>) -> int {
    if s.len() == 0 {
        0
    } else {
        let t = msort(s);
        let n = s.len() as int;
        if n % 2 == 1 {
            t[n / 2]
        } else {
            tdiv(t[n / 2 - 1] + t[n / 2], 2)
        }
    }
}

/// The sample standard deviation as a scale-9 mantissa.
pub open spec fn std_units(s: Seq<int>) -> int {
    sqrt_floor(var18_units(s))
}

/// The population standard deviation as a scale-9 mantissa.
pub open spec fn pstd_units(s: Seq<int>) -> int {
    sqrt_floor(pvar18_units(s))
}

proof fn lemma_take_step_sum(u: Seq<int>, i: int)
    requires
        0 <= i < u.len(),
    ensures
        sum_units(u.take(i + 1)) == sum_units(u.take(i)) + u[i],
{
    assert(u.take(i + 1).drop_last() =~= u.take(i));
}

proof fn lemma_sum_bound(s: Seq<int>, b: int)
    requires
        all_bounded(s, b),
        b >= 0,
    ensures
        abs_i(sum_units(s)) <= s.len() * b,
    decreases s.len(),
{
    if s.len() > 0 {
        assert(all_bounded(s.drop_last(), b));
        lemma_sum_bound(s.drop_last(), b);
        assert(s.len() * b == (s.len() - 1) * b + b) by (nonlinear_arith);
    }
}

pub proof fn lemma_min_max_in_bounds(s: Seq<int>, b: int)
    requires
        all_bounded(s, b),
        b >= 0,
    ensures
        abs_i(min_units(s)) <= b,
        abs_i(max_units(s)) <= b,
        min_units(s) <= max_units(s),
    decreases s.len(),
{
    if s.len() > 1 {
        assert(all_bounded(s.drop_last(), b));
        lemma_min_max_in_bounds(s.drop_last(), b);
    }
}

/// The truncated mean magnitude never exceeds the largest point magnitude.
pub proof fn lemma_avg_bound(s: Seq<int>, b: int)
    requires
        all_bounded(s, b),
        b >= 0,
    ensures
        abs_i(avg_units(s)) <= b,
{
    if s.len() == 0 {
    } else {
        lemma_sum_bound(s, b);
        let n = s.len() as int;
        let a = abs_i(sum_units(s));
        vstd::arithmetic::div_mod::lemma_div_is_ordered(a, n * b, n);
        vstd::arithmetic::mul::lemma_mul_is_commutative(n, b);
        vstd::arithmetic::div_mod::lemma_div_multiples_vanish(b, n);
    }
}

proof fn lemma_dev_sq_bound(s: Seq<int>, c: int, b: int)
    requires
        all_bounded(s, b),
        abs_i(c) <= b,
        b >= 0,
    ensures
        0 <= dev_sq_sum(s, c) <= s.len() * (4 * b * b),
    decreases s.len(),
{
    if s.len() > 0 {
        assert(all_bounded(s.drop_last(), b));
        lemma_dev_sq_bound(s.drop_last(), c, b);
        let d = s.last() - c;
        assert(0 <= d * d <= 4 * b * b) by (nonlinear_arith)
            requires
                -2 * b <= d <= 2 * b,
        ;
        assert(s.len() * (4 * b * b) == (s.len() - 1) * (4 * b * b) + 4 * b * b) by (
        nonlinear_arith);
    }
}

/// The standard deviation of data bounded by `b` is bounded by `3b`.
pub proof fn lemma_std_bound(s: Seq<int>, b: int)
    requires
        all_bounded(s, b),
        b >= 0,
    ensures
        0 <= std_units(s) <= 3 * b,
{
    if s.len() < 2 {
        crate::dec::lemma_sqrt_bound(0, 0);
    } else {
        lemma_avg_bound(s, b);
        lemma_dev_sq_bound(s, avg_units(s), b);
        lemma_var_quotient_bound(
            dev_sq_sum(s, avg_units(s)),
            s.len() - 1,
            s.len() as int,
            4 * b * b,
        );
        assert(s.len() * (4 * b * b) == s.len() * 4 * b * b) by (nonlinear_arith);
        assert(2 * (4 * b * b) <= (3 * b) * (3 * b)) by (nonlinear_arith)
            requires
                b >= 0,
        ;
        crate::dec::lemma_sqrt_bound(var18_units(s), 3 * b);
    }
}

/// Returns the smallest data point (zero when the data is empty).
pub fn min(data: &Vec<Dec>) -> (r: Dec)
    ensures
        r@ == min_units(units_of(data@)),
{
    let ghost u = units_of(data@);
    let mut best: i64 = 0;
    let mut i: usize = 0;
    if data.len() > 0 {
        best = data[0].units();
        i = 1;
    }
    while i < data.len()
        invariant
            u == units_of(data@),
            data@.len() > 0 ==> 1 <= i <= data@.len(),
            data@.len() == 0 ==> i == 0 && best == 0,
            data@.len() > 0 ==> best == min_units(u.take(i as int)),
        decreases data@.len() - i,
    {
        let x = data[i].units();
        proof {
            assert(u.take(i + 1).drop_last() =~= u.take(i as int));
            assert(u.take(i + 1).len() > 1);
        }
        if x < best {
            best = x;
        }
        i = i + 1;
    }
    proof {
        if data@.len() > 0 {
            assert(u.take(data@.len() as int) =~= u);
        }
    }
    Dec::from_units(best)
}

/// Returns the largest data point (zero when the data is empty).
pub fn max(data: &Vec<Dec>) -> (r: Dec)
    ensures
        r@ == max_units(units_of(data@)),
{
    let ghost u = units_of(data@);
    let mut best: i64 = 0;
    let mut i: usize = 0;
    if data.len() > 0 {
        best = data[0].units();
        i = 1;
    }
    while i < data.len()
        invariant
            u == units_of(data@),
            data@.len() > 0 ==> 1 <= i <= data@.len(),
            data@.len() == 0 ==> i == 0 && best == 0,
            data@.len() > 0 ==> best == max_units(u.take(i as int)),
        decreases data@.len() - i,
    {
        let x = data[i].units();
        proof {
            assert(u.take(i + 1).drop_last() =~= u.take(i as int));
            assert(u.take(i + 1).len() > 1);
        }
        if x > best {
            best = x;
        }
        i = i + 1;
    }
    proof {
        if data@.len() > 0 {
            assert(u.take(data@.len() as int) =~= u);
        }
    }
    Dec::from_units(best)
}

/// Returns the range (largest minus smallest; zero when the data is empty).
pub fn range(data: &Vec<Dec>) -> (r: Dec)
    requires
        stats_input_ok(units_of(data@)),
    ensures
        r@ == range_units(units_of(data@)),
{
    if data.len() == 0 {
        return Dec::zero();
    }
    let hi = max(data);
    let lo = min(data);
    proof {
        lemma_min_max_in_bounds(units_of(data@), STAT_MAX_UNITS as int);
    }
    Dec::from_units(hi.units() - lo.units())
}

/// Returns the truncated mean (zero when the data is empty).
pub fn average(data: &Vec<Dec>) -> (r: Dec)
    requires
        stats_input_ok(units_of(data@)),
    ensures
        r@ == avg_units(units_of(data@)),
        abs_i(r@) <= STAT_MAX_UNITS as int,
{
    let ghost u = units_of(data@);
    let mut acc: i128 = 0;
    let mut i: usize = 0;
    while i < data.len()
        invariant
            u == units_of(data@),
            stats_input_ok(u),
            0 <= i <= data@.len(),
            acc == sum_units(u.take(i as int)),
            abs_i(acc as int) <= (i as int) * (STAT_MAX_UNITS as int),
        decreases data@.len() - i,
    {
        let x = data[i].units();
        proof {
            lemma_take_step_sum(u, i as int);
            assert(all_bounded(u.take(i as int), STAT_MAX_UNITS as int));
            assert((i + 1) * (STAT_MAX_UNITS as int) == (i as int) * (STAT_MAX_UNITS as int)
                + STAT_MAX_UNITS as int) by (nonlinear_arith);
        }
        acc = acc + (x as i128);
        i = i + 1;
    }
    proof {
        assert(u.take(data@.len() as int) =~= u);
        lemma_avg_bound(u, STAT_MAX_UNITS as int);
    }
    let q = tdiv_exec(acc, data.len() as i128);
    Dec::from_units(q as i64)
}

/// The sum of the mantissas, as a wide integer.
pub fn sum_wide(data: &Vec<Dec>) -> (s: i128)
    requires
        stats_input_ok(units_of(data@)),
    ensures
        s == sum_units(units_of(data@)),
        abs_i(s as int) <= data@.len() * (STAT_MAX_UNITS as int),
        -10_000_000_000_000_000_000_000 <= s <= 10_000_000_000_000_000_000_000,
{
    let ghost u = units_of(data@);
    let mut acc: i128 = 0;
    let mut i: usize = 0;
    while i < data.len()
        invariant
            u == units_of(data@),
            stats_input_ok(u),
            0 <= i <= data@.len(),
            acc == sum_units(u.take(i as int)),
            abs_i(acc as int) <= (i as int) * (STAT_MAX_UNITS as int),
            -10_000_000_000_000_000_000_000 <= acc <= 10_000_000_000_000_000_000_000,
        decreases data@.len() - i,
    {
        let x = data[i].units();
        proof {
            lemma_take_step_sum(u, i as int);
            assert(all_bounded(u.take(i as int), STAT_MAX_UNITS as int));
            assert((i + 1) * (STAT_MAX_UNITS as int) == (i as int) * (STAT_MAX_UNITS as int)
                + STAT_MAX_UNITS as int) by (nonlinear_arith);
            assert((i + 1) * (STAT_MAX_UNITS as int) <= 100_000 * (STAT_MAX_UNITS as int)) by (
            nonlinear_arith)
                requires
                    0 <= i as int,
                    i as int + 1 <= 100_000,
            ;
        }
        acc = acc + (x as i128);
        i = i + 1;
    }
    proof {
        assert(u.take(data@.len() as int) =~= u);
    }
    acc
}

/// Returns the smallest absolute data point (zero when the data is empty).
pub fn abs_min(data: &Vec<Dec>) -> (r: Dec)
    requires
        stats_input_ok(units_of(data@)),
    ensures
        r@ == amin_units(units_of(data@)),
{
    let ghost u = units_of(data@);
    let mut best: i64 = 0;
    let mut i: usize = 0;
    if data.len() > 0 {
        let x0 = data[0].units();
        proof {
            assert(abs_i(u[0]) <= STAT_MAX_UNITS as int);
        }
        best = if x0 < 0 {
            -x0
        } else {
            x0
        };
        i = 1;
    }
    while i < data.len()
        invariant
            u == units_of(data@),
            stats_input_ok(u),
            data@.len() > 0 ==> 1 <= i <= data@.len(),
            data@.len() == 0 ==> i == 0 && best == 0,
            data@.len() > 0 ==> best == amin_units(u.take(i as int)),
        decreases data@.len() - i,
    {
        let xi = data[i].units();
        proof {
            assert(abs_i(u[i as int]) <= STAT_MAX_UNITS as int);
        }
        let x = if xi < 0 {
            -xi
        } else {
            xi
        };
        proof {
            assert(u.take(i + 1).drop_last() =~= u.take(i as int));
            assert(u.take(i + 1).len() > 1);
        }
        if x < best {
            best = x;
        }
        i = i + 1;
    }
    proof {
        if data@.len() > 0 {
            assert(u.take(data@.len() as int) =~= u);
        }
    }
    Dec::from_units(best)
}

/// Returns the largest absolute data point (zero when the data is empty).
pub fn abs_max(data: &Vec<Dec>) -> (r: Dec)
    requires
        stats_input_ok(units_of(data@)),
    ensures
        r@ == amax_units(units_of(data@)),
{
    let ghost u = units_of(data@);
    let mut best: i64 = 0;
    let mut i: usize = 0;
    if data.len() > 0 {
        let x0 = data[0].units();
        proof {
            assert(abs_i(u[0]) <= STAT_MAX_UNITS as int);
        }
        best = if x0 < 0 {
            -x0
        } else {
            x0
        };
        i = 1;
    }
    while i < data.len()
        invariant
            u == units_of(data@),
            stats_input_ok(u),
            data@.len() > 0 ==> 1 <= i <= data@.len(),
            data@.len() == 0 ==> i == 0 && best == 0,
            data@.len() > 0 ==> best == amax_units(u.take(i as int)),
        decreases data@.len() - i,
    {
        let xi = data[i].units();
        proof {
            assert(abs_i(u[i as int]) <= STAT_MAX_UNITS as int);
        }
        let x = if xi < 0 {
            -xi
        } else {
            xi
        };
        proof {
            assert(u.take(i + 1).drop_last() =~= u.take(i as int));
            assert(u.take(i + 1).len() > 1);
        }
        if x > best {
            best = x;
        }
        i = i + 1;
    }
    proof {
        if data@.len() > 0 {
            assert(u.take(data@.len() as int) =~= u);
        }
    }
    Dec::from_units(best)
}

/// Sum of squared deviations from `mean`, over data bounded by `b`.
fn dev_sq_sum_exec(data: &Vec<Dec>, mean: i64, b: i64) -> (acc: i128)
    requires
        0 <= b <= STAT_MAX_UNITS,
        data@.len() <= STAT_MAX_LEN as int,
        all_bounded(units_of(data@), b as int),
        abs_i(mean as int) <= b as int,
    ensures
        acc == dev_sq_sum(units_of(data@), mean as int),
        0 <= acc <= data@.len() * 4 * (b as int) * (b as int),
{
    let ghost u = units_of(data@);
    let mut acc: i128 = 0;
    let mut i: usize = 0;
    while i < data.len()
        invariant
            u == units_of(data@),
            data@.len() <= STAT_MAX_LEN as int,
            all_bounded(u, b as int),
            abs_i(mean as int) <= b as int,
            0 <= b <= STAT_MAX_UNITS,
            0 <= i <= data@.len(),
            acc == dev_sq_sum(u.take(i as int), mean as int),
            0 <= acc <= (i as int) * 4 * (b as int) * (b as int),
        decreases data@.len() - i,
    {
        let x = data[i].units();
        let d: i128 = (x as i128) - (mean as i128);
        proof {
            assert(u.take(i + 1).drop_last() =~= u.take(i as int));
            assert(abs_i(u[i as int]) <= b as int);
            assert(0 <= d * d <= 4 * (b as int) * (b as int)
                && d * d <= 400_000_000_000_000_000_000_000_000_000_000) by (nonlinear_arith)
                requires
                    -2 * (b as int) <= d <= 2 * (b as int),
                    0 <= b <= STAT_MAX_UNITS,
            ;
            assert((i + 1) * 4 * (b as int) * (b as int) == (i as int) * 4 * (b as int) * (
            b as int) + 4 * (b as int) * (b as int)) by (nonlinear_arith);
            assert((i as int) * 4 * (b as int) * (b as int) <= 100_000 * 4 * (
            STAT_MAX_UNITS as int) * (STAT_MAX_UNITS as int)) by (nonlinear_arith)
                requires
                    0 <= i as int <= 100_000,
                    0 <= b <= STAT_MAX_UNITS,
                    (i as int) * 4 * (b as int) * (b as int) >= 0,
            ;
        }
        acc = acc + d * d;
        i = i + 1;
    }
    proof {
        assert(u.take(data@.len() as int) =~= u);
    }
    acc
}

/// The quotient of non-negative `acc` by positive `n` is bounded by twice
/// the per-point bound when `acc <= n * m` and `n <= 2 * d`.
proof fn lemma_var_quotient_bound(acc: int, d: int, n: int, m: int)
    requires
        0 <= acc <= n * m,
        0 < d,
        n <= 2 * d,
        0 <= m,
    ensures
        0 <= acc / d <= 2 * m,
{
    vstd::arithmetic::div_mod::lemma_div_is_ordered(acc, n * m, d);
    assert(n * m <= d * (2 * m)) by (nonlinear_arith)
        requires
            n <= 2 * d,
            0 <= m,
    ;
    vstd::arithmetic::div_mod::lemma_div_is_ordered(n * m, d * (2 * m), d);
    vstd::arithmetic::div_mod::lemma_div_multiples_vanish(2 * m, d);
    vstd::arithmetic::div_mod::lemma_div_basics_4(acc, d);
}

/// Returns the Bessel-corrected sample variance (zero when fewer than two
/// points exist). The tighter input bound keeps the squared spread inside
/// the fixed-point domain.
pub fn variance(data: &Vec<Dec>) -> (r: Dec)
    requires
        data@.len() <= STAT_MAX_LEN as int,
        all_bounded(units_of(data@), VAR_MAX_UNITS as int),
    ensures
        r@ == tdiv(var18_units(units_of(data@)), DEC_UNIT as int),
{
    let ghost u = units_of(data@);
    if data.len() < 2 {
        return Dec::zero();
    }
    let mean = average(data);
    proof {
        lemma_avg_bound(u, VAR_MAX_UNITS as int);
    }
    let acc = dev_sq_sum_exec(data, mean.units(), VAR_MAX_UNITS);
    let n = data.len();
    proof {
        assert(data@.len() * 4 * (VAR_MAX_UNITS as int) * (VAR_MAX_UNITS as int) == data@.len() * (
        4 * (VAR_MAX_UNITS as int) * (VAR_MAX_UNITS as int))) by (nonlinear_arith);
        lemma_var_quotient_bound(
            acc as int,
            n as int - 1,
            n as int,
            4 * (VAR_MAX_UNITS as int) * (VAR_MAX_UNITS as int),
        );
    }
    let v18 = tdiv_exec(acc, (n - 1) as i128);
    let q = tdiv_exec(v18, DEC_UNIT as i128);
    proof {
        vstd::arithmetic::div_mod::lemma_div_is_ordered(
            v18 as int,
            7_200_000_000_000_000_000_000_000_000,
            DEC_UNIT as int,
        );
        vstd::arithmetic::div_mod::lemma_div_multiples_vanish(
            7_200_000_000_000_000_000,
            DEC_UNIT as int,
        );
        vstd::arithmetic::div_mod::lemma_div_basics_4(v18 as int, DEC_UNIT as int);
    }
    Dec::from_units(q as i64)
}

/// Returns the population variance (zero when the data is empty). The
/// tighter input bound keeps the squared spread inside the fixed-point
/// domain.
pub fn population_variance(data: &Vec<Dec>) -> (r: Dec)
    requires
        data@.len() <= STAT_MAX_LEN as int,
        all_bounded(units_of(data@), VAR_MAX_UNITS as int),
    ensures
        r@ == tdiv(pvar18_units(units_of(data@)), DEC_UNIT as int),
{
    let ghost u = units_of(data@);
    if data.len() == 0 {
        return Dec::zero();
    }
    let mean = average(data);
    proof {
        lemma_avg_bound(u, VAR_MAX_UNITS as int);
    }
    let acc = dev_sq_sum_exec(data, mean.units(), VAR_MAX_UNITS);
    let n = data.len();
    proof {
        assert(data@.len() * 4 * (VAR_MAX_UNITS as int) * (VAR_MAX_UNITS as int) == data@.len() * (
        4 * (VAR_MAX_UNITS as int) * (VAR_MAX_UNITS as int))) by (nonlinear_arith);
        lemma_var_quotient_bound(
            acc as int,
            n as int,
            n as int,
            4 * (VAR_MAX_UNITS as int) * (VAR_MAX_UNITS as int),
        );
    }
    let v18 = tdiv_exec(acc, n as i128);
    let q = tdiv_exec(v18, DEC_UNIT as i128);
    proof {
        vstd::arithmetic::div_mod::lemma_div_is_ordered(
            v18 as int,
            7_200_000_000_000_000_000_000_000_000,
            DEC_UNIT as int,
        );
        vstd::arithmetic::div_mod::lemma_div_multiples_vanish(
            7_200_000_000_000_000_000,
            DEC_UNIT as int,
        );
        vstd::arithmetic::div_mod::lemma_div_basics_4(v18 as int, DEC_UNIT as int);
    }
    Dec::from_units(q as i64)
}

/// Floor square root of a non-negative scale-18 variance, as a scale-9
/// standard deviation.
fn std_from_var18(v18: i128) -> (r: Dec)
    requires
        0 <= v18 <= 8_000_000_000_000_000_000_000_000_000_000_000,
    ensures
        r@ == sqrt_floor(v18 as int),
        0 <= r@ <= 200_000_000_000_000_000,
{
    let s = sqrt_units(v18);
    Dec::from_units(s)
}

/// Returns the Bessel-corrected sample standard deviation
/// (zero when fewer than two points exist).
pub fn std_dev(data: &Vec<Dec>) -> (r: Dec)
    requires
        stats_input_ok(units_of(data@)),
    ensures
        r@ == std_units(units_of(data@)),
        0 <= r@ <= 200_000_000_000_000_000,
{
    let ghost u = units_of(data@);
    if data.len() < 2 {
        proof {
            lemma_sqrt_floor_eq(0, 0);
        }
        return Dec::zero();
    }
    let mean = average(data);
    let acc = dev_sq_sum_exec(data, mean.units(), STAT_MAX_UNITS);
    let n = data.len();
    proof {
        assert(data@.len() * 4 * (STAT_MAX_UNITS as int) * (STAT_MAX_UNITS as int) == data@.len() * (4 * (STAT_MAX_UNITS as int) * (STAT_MAX_UNITS as int))) by (nonlinear_arith);
        lemma_var_quotient_bound(
            acc as int,
            n as int - 1,
            n as int,
            4 * (STAT_MAX_UNITS as int) * (STAT_MAX_UNITS as int),
        );
    }
    let v18 = tdiv_exec(acc, (n - 1) as i128);
    std_from_var18(v18)
}

/// Returns the population standard deviation (zero when the data is empty).
pub fn population_std_dev(data: &Vec<Dec>) -> (r: Dec)
    requires
        stats_input_ok(units_of(data@)),
    ensures
        r@ == pstd_units(units_of(data@)),
{
    let ghost u = units_of(data@);
    if data.len() == 0 {
        proof {
            lemma_sqrt_floor_eq(0, 0);
        }
        return Dec::zero();
    }
    let mean = average(data);
    let acc = dev_sq_sum_exec(data, mean.units(), STAT_MAX_UNITS);
    let n = data.len();
    proof {
        assert(data@.len() * 4 * (STAT_MAX_UNITS as int) * (STAT_MAX_UNITS as int) == data@.len() * (4 * (STAT_MAX_UNITS as int) * (STAT_MAX_UNITS as int))) by (nonlinear_arith);
        lemma_var_quotient_bound(
            acc as int,
            n as int,
            n as int,
            4 * (STAT_MAX_UNITS as int) * (STAT_MAX_UNITS as int),
        );
    }
    let v18 = tdiv_exec(acc, n as i128);
    std_from_var18(v18)
}

/// The mantissa sequence behind a vector of raw `i64` mantissas.
pub open spec fn units64(s: Seq<i64>) -> Seq<int> {
    Seq::new(s.len(), |i: int| s[i] as int)
}

proof fn lemma_insert_sorted_len(s: Seq<int>, x: int)
    ensures
        insert_sorted(s, x).len() == s.len() + 1,
    decreases s.len(),
{
    if s.len() > 0 && !(s.last() <= x) {
        lemma_insert_sorted_len(s.drop_last(), x);
    }
}

proof fn lemma_insert_sorted_le(s: Seq<int>, x: int, m: int)
    requires
        all_le(s, m),
        x <= m,
    ensures
        all_le(insert_sorted(s, x), m),
    decreases s.len(),
{
    lemma_insert_sorted_len(s, x);
    if s.len() == 0 {
    } else if s.last() <= x {
    } else {
        assert(all_le(s.drop_last(), m));
        lemma_insert_sorted_le(s.drop_last(), x, m);
    }
}

proof fn lemma_insert_sorted_sorted(s: Seq<int>, x: int)
    requires
        sorted_units(s),
    ensures
        sorted_units(insert_sorted(s, x)),
    decreases s.len(),
{
    lemma_insert_sorted_len(s, x);
    if s.len() == 0 {
    } else if s.last() <= x {
        assert(all_le(s, s.last()));
    } else {
        assert(sorted_units(s.drop_last()));
        lemma_insert_sorted_sorted(s.drop_last(), x);
        lemma_insert_sorted_len(s.drop_last(), x);
        assert(all_le(s.drop_last(), s.last()));
        lemma_insert_sorted_le(s.drop_last(), x, s.last());
        let t = insert_sorted(s.drop_last(), x);
        assert forall|i: int, j: int|
            0 <= i < j < t.push(s.last()).len() implies t.push(s.last())[i] <= t.push(
            s.last(),
        )[j] by {
            if j < t.len() {
            } else {
                assert(t.push(s.last())[i] == t[i] <= s.last());
            }
        }
    }
}

/// The insertion sort of a sequence is sorted and keeps its length.
pub proof fn lemma_msort_sorted(s: Seq<int>)
    ensures
        sorted_units(msort(s)),
        msort(s).len() == s.len(),
    decreases s.len(),
{
    if s.len() > 0 {
        lemma_msort_sorted(s.drop_last());
        lemma_insert_sorted_sorted(msort(s.drop_last()), s.last());
        lemma_insert_sorted_len(msort(s.drop_last()), s.last());
    }
}

/// Where the scan from the right stops, the element is inserted.
#[verifier::rlimit(60)]
proof fn lemma_insert_sorted_at(s: Seq<int>, x: int, j: int)
    requires
        sorted_units(s),
        0 <= j <= s.len(),
        forall|k: int| j <= k < s.len() ==> #[trigger] s[k] > x,
        j > 0 ==> s[j - 1] <= x,
    ensures
        insert_sorted(s, x) =~= s.insert(j, x),
    decreases s.len(),
{
    lemma_insert_sorted_len(s, x);
    s.insert_ensures(j, x);
    if s.len() == 0 {
    } else if j == s.len() {
        assert(s.last() <= x);
        assert(s.insert(j, x) =~= s.push(x));
    } else {
        assert(s[s.len() - 1] > x);
        assert(sorted_units(s.drop_last()));
        lemma_insert_sorted_at(s.drop_last(), x, j);
        lemma_insert_sorted_len(s.drop_last(), x);
        s.drop_last().insert_ensures(j, x);
        let t = s.drop_last().insert(j, x);
        assert(insert_sorted(s, x) == t.push(s.last()));
        assert forall|i: int| 0 <= i < s.len() + 1 implies t.push(s.last())[i] == s.insert(
            j,
            x,
        )[i] by {
            if i < j {
                assert(t[i] == s.drop_last()[i]);
            } else if i == j {
            } else if i < s.len() {
                assert(t.push(s.last())[i] == t[i]);
                assert(t[(i - 1) + 1] == s.drop_last()[i - 1]);
                assert(s.insert(j, x)[(i - 1) + 1] == s[i - 1]);
            } else {
                assert(s.insert(j, x)[(s.len() - 1) + 1] == s[s.len() - 1]);
            }
        }
        assert(insert_sorted(s, x) =~= s.insert(j, x));
    }
}

/// Returns the mantissas of the data in nondecreasing order
/// (insertion sort, verified against the `msort` specification).
fn sorted_mantissas(data: &Vec<Dec>) -> (r: Vec<i64>)
    ensures
        units64(r@) == msort(units_of(data@)),
        r@.len() == data@.len(),
{
    let ghost u = units_of(data@);
    let mut out: Vec<i64> = Vec::new();
    let mut k: usize = 0;
    while k < data.len()
        invariant
            u == units_of(data@),
            0 <= k <= data@.len(),
            units64(out@) == msort(u.take(k as int)),
            out@.len() == k,
        decreases data@.len() - k,
    {
        let x = data[k].units();
        let ghost s = units64(out@);
        proof {
            lemma_msort_sorted(u.take(k as int));
        }
        let mut j: usize = out.len();
        while j > 0 && out[j - 1] > x
            invariant
                s == units64(out@),
                out@.len() == s.len(),
                sorted_units(s),
                0 <= j <= s.len(),
                forall|t: int| j <= t < s.len() ==> #[trigger] s[t] > x as int,
            decreases j,
        {
            j = j - 1;
        }
        proof {
            lemma_insert_sorted_at(s, x as int, j as int);
        }
        out.insert(j, x);
        proof {
            assert(u.take(k + 1).drop_last() =~= u.take(k as int));
            assert(units64(out@) =~= s.insert(j as int, x as int));
        }
        k = k + 1;
    }
    proof {
        assert(u.take(data@.len() as int) =~= u);
    }
    out
}

/// Returns the median (zero when the data is empty): the middle of the
/// sorted data, or the truncated mean of the two middle points.
pub fn median(data: &Vec<Dec>) -> (r: Dec)
    ensures
        r@ == median_units(units_of(data@)),
{
    let ghost u = units_of(data@);
    if data.len() == 0 {
        return Dec::zero();
    }
    let t = sorted_mantissas(data);
    let n = t.len();
    proof {
        lemma_msort_sorted(u);
    }
    if n % 2 == 1 {
        Dec::from_units(t[n / 2])
    } else {
        let a: i128 = t[n / 2 - 1] as i128;
        let b: i128 = t[n / 2] as i128;
        let q = tdiv_exec(a + b, 2);
        proof {
            let s = a as int + b as int;
            let mlo = 9_223_372_036_854_775_808int;
            let mhi = 9_223_372_036_854_775_807int;
            vstd::arithmetic::div_mod::lemma_div_is_ordered(abs_i(s), 2 * mlo, 2);
            vstd::arithmetic::div_mod::lemma_div_multiples_vanish(mlo, 2);
            if s >= 0 {
                vstd::arithmetic::div_mod::lemma_div_is_ordered(s, 2 * mhi, 2);
                vstd::arithmetic::div_mod::lemma_div_multiples_vanish(mhi, 2);
            }
        }
        Dec::from_units(q as i64)
    }
}

/// Copies a series of values.
pub fn copy_series(v: &Vec<Dec>) -> (r: Vec<Dec>)
    ensures
        r@ == v@,
        units_of(r@) == units_of(v@),
{
    let mut out: Vec<Dec> = Vec::new();
    let mut i: usize = 0;
    while i < v.len()
        invariant
            0 <= i <= v@.len(),
            out@.len() == i,
            forall|t: int| 0 <= t < i ==> #[trigger] out@[t] == v@[t],
        decreases v@.len() - i,
    {
        let x = v[i];
        out.push(x);
        i = i + 1;
    }
    proof {
        assert(out@ =~= v@);
    }
    out
}

} // verus!
