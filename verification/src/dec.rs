//! The chart value domain: exact fixed-point decimals with nine fractional
//! digits, stored as an `i64` count of billionths. All chart statistics are
//! computed exactly over this domain; the seven-mode decimal rounding step is
//! delegated to the `rust_decimal` crate.

use vstd::prelude::*;
use crate::Rounding;
use crate::RoundingMode;
use rust_decimal::Decimal;
use rust_decimal::RoundingStrategy;

verus! {

/// Number of fractional digits carried by every `Dec` value.
pub const DEC_DIGITS: u32 = 9;

/// `10^DEC_DIGITS`: the mantissa that represents the value one.
pub const DEC_UNIT: i64 = 1_000_000_000;

/// Largest mantissa magnitude accepted for chart input data
/// (a value magnitude of one million).
pub const DEC_MAX_UNITS: i64 = 1_000_000_000_000_000;

/// `10^e` as a mathematical integer.
pub open spec fn pow10(e: nat) -> int
    decreases e,
{
    if e == 0 {
        1
    } else {
        10 * pow10((e - 1) as nat)
    }
}

/// `10^e` for the small exponents used by mantissa scaling.
pub fn pow10_exec(e: u32) -> (r: i64)
    requires
        e <= 18,
    ensures
        r == pow10(e as nat),
        r >= 1,
{
    let mut r: i64 = 1;
    let mut i: u32 = 0;
    while i < e
        invariant
            i <= e <= 18,
            r == pow10(i as nat),
        decreases e - i,
    {
        proof {
            lemma_pow10_bounds();
            assert(pow10(i as nat) <= pow10(17));
        }
        r = r * 10;
        i = i + 1;
    }
    proof {
        lemma_pow10_bounds();
    }
    r
}

/// Concrete values of the powers of ten that mantissa arithmetic relies on.
pub proof fn lemma_pow10_bounds()
    ensures
        pow10(0) == 1,
        pow10(1) == 10,
        pow10(2) == 100,
        pow10(3) == 1000,
        pow10(4) == 10000,
        pow10(5) == 100000,
        pow10(6) == 1000000,
        pow10(7) == 10000000,
        pow10(8) == 100000000,
        pow10(9) == 1_000_000_000,
        pow10(18) == 1_000_000_000_000_000_000,
        forall|a: nat, b: nat| a <= b ==> #[trigger] pow10(a) <= #[trigger] pow10(b),
        forall|e: nat| #[trigger] pow10(e) >= 1,
{
    assert forall|e: nat| #[trigger] pow10(e) >= 1 by {
        lemma_pow10_pos(e);
    }
    assert forall|a: nat, b: nat| a <= b implies #[trigger] pow10(a) <= #[trigger] pow10(b) by {
        lemma_pow10_mono(a, b);
    }
    assert(pow10(0) == 1);
    assert(pow10(1) == 10);
    assert(pow10(2) == 100);
    assert(pow10(3) == 1000);
    assert(pow10(4) == 10000);
    assert(pow10(5) == 100000);
    assert(pow10(6) == 1000000);
    assert(pow10(7) == 10000000);
    assert(pow10(8) == 100000000);
    assert(pow10(9) == 1_000_000_000);
    assert(pow10(10) == 10_000_000_000);
    assert(pow10(11) == 100_000_000_000);
    assert(pow10(12) == 1_000_000_000_000);
    assert(pow10(13) == 10_000_000_000_000);
    assert(pow10(14) == 100_000_000_000_000);
    assert(pow10(15) == 1_000_000_000_000_000);
    assert(pow10(16) == 10_000_000_000_000_000);
    assert(pow10(17) == 100_000_000_000_000_000);
    assert(pow10(18) == 1_000_000_000_000_000_000);
}

proof fn lemma_pow10_pos(e: nat)
    ensures
        pow10(e) >= 1,
    decreases e,
{
    if e > 0 {
        lemma_pow10_pos((e - 1) as nat);
    }
}

proof fn lemma_pow10_mono(a: nat, b: nat)
    requires
        a <= b,
    ensures
        pow10(a) <= pow10(b),
    decreases b,
{
    if a < b {
        lemma_pow10_mono(a, (b - 1) as nat);
        lemma_pow10_pos((b - 1) as nat);
    }
}

/// A fixed-point decimal: the value `mantissa / 10^9`.
#[derive(Debug, Clone, Copy, PartialEq, Eq, Structural)]
pub struct Dec {
    m: i64,
}

impl View for Dec {
    type V = int;

    closed spec fn view(&self) -> int {
        self.m as int
    }
}

/// Whether a mantissa is inside the accepted input data domain.
pub open spec fn unit_in_range(m: int) -> bool {
    -(DEC_MAX_UNITS as int) <= m <= DEC_MAX_UNITS as int
}

impl Dec {
    /// Whether this value is inside the accepted input data domain.
    pub open spec fn wf(self) -> bool {
        unit_in_range(self@)
    }

    /// The value zero.
    pub fn zero() -> (r: Dec)
        ensures
            r@ == 0,
            r.wf(),
    {
        Dec { m: 0 }
    }

    /// Builds the value `units / 10^scale`, e.g. `new(65, 2)` for `0.65`.
    /// Returns `None` when `scale` exceeds the nine carried digits or the
    /// value magnitude exceeds one million.
    pub fn new(units: i64, scale: u32) -> (r: Option<Dec>)
        ensures
            r is Some <==> scale <= DEC_DIGITS && unit_in_range(
                units * pow10((DEC_DIGITS - scale) as nat),
            ),
            r is Some ==> r->0@ == units * pow10((DEC_DIGITS - scale) as nat) && r->0.wf(),
    {
        if scale > DEC_DIGITS {
            return None;
        }
        let p = pow10_exec(DEC_DIGITS - scale);
        proof {
            lemma_pow10_bounds();
        }
        if units > DEC_MAX_UNITS / p || units < -(DEC_MAX_UNITS / p) {
            proof {
                lemma_scaled_out_of_range(units as int, p as int);
            }
            return None;
        }
        proof {
            lemma_scaled_in_range(units as int, p as int);
        }
        Some(Dec { m: units * p })
    }

    /// Builds a value directly from its mantissa in billionths.
    pub fn from_units(m: i64) -> (r: Dec)
        ensures
            r@ == m,
    {
        Dec { m }
    }

    /// The mantissa: this value expressed in billionths.
    pub fn units(&self) -> (r: i64)
        ensures
            r == self@,
    {
        self.m
    }

    /// Rounds to `scale` fractional digits under the given mode.
    /// Rounding to nine or more digits returns the value unchanged.
    pub fn round_dp(&self, scale: u32, rounding_mode: &RoundingMode) -> (r: Dec)
        requires
            -9_200_000_000_000_000_000 <= self@ <= 9_200_000_000_000_000_000,
        ensures
            r@ == round_units(self@, scale as int, *rounding_mode),
    {
        Dec { m: round_units_exec(self.m, scale, rounding_mode) }
    }
}

impl Rounding for Dec {
    fn scale(&self, scale: u32, rounding_mode: &RoundingMode) -> (r: Self)
        ensures
            r@ == if -9_200_000_000_000_000_000 <= self@ <= 9_200_000_000_000_000_000 {
                round_units(self@, scale as int, *rounding_mode)
            } else {
                self@
            },
    {
        if self.m >= -9_200_000_000_000_000_000 && self.m <= 9_200_000_000_000_000_000 {
            self.round_dp(scale, rounding_mode)
        } else {
            *self
        }
    }
}

proof fn lemma_scaled_in_range(u: int, p: int)
    requires
        p >= 1,
        -((DEC_MAX_UNITS as int) / p) <= u <= (DEC_MAX_UNITS as int) / p,
    ensures
        unit_in_range(u * p),
        -(DEC_MAX_UNITS as int) <= u * p <= DEC_MAX_UNITS as int,
    decreases 0int,
{
    let cap = DEC_MAX_UNITS as int;
    assert(u * p <= (cap / p) * p <= cap && -cap <= -((cap / p) * p) <= u * p) by (nonlinear_arith)
        requires
            p >= 1,
            -(cap / p) <= u <= cap / p,
            cap >= 0,
    ;
}

proof fn lemma_scaled_out_of_range(u: int, p: int)
    requires
        p >= 1,
        u > (DEC_MAX_UNITS as int) / p || u < -((DEC_MAX_UNITS as int) / p),
    ensures
        !unit_in_range(u * p),
    decreases 0int,
{
    let cap = DEC_MAX_UNITS as int;
    if u > cap / p {
        assert(u * p > cap) by (nonlinear_arith)
            requires
                p >= 1,
                u > cap / p,
                cap >= 0,
        ;
    } else {
        assert(u * p < -cap) by (nonlinear_arith)
            requires
                p >= 1,
                u < -(cap / p),
                cap >= 0,
        ;
    }
}

/// The mantissa produced by rounding mantissa `m` to `dp` fractional digits
/// under `mode`, mirroring decimal rounding on the magnitude: with
/// `u = 10^(9-dp)`, the magnitude `n = q*u + r` is replaced by `q*u` or
/// `(q+1)*u` as the mode directs, and the sign is restored.
pub open spec fn round_units(m: int, dp: int, mode: RoundingMode) -> int {
    if dp >= DEC_DIGITS as int {
        m
    } else {
        let u = pow10((DEC_DIGITS as int - dp) as nat);
        let n = if m >= 0 {
            m
        } else {
            -m
        };
        let q = n / u;
        let r = n % u;
        let bump = match mode {
            RoundingMode::RoundUp => r > 0,
            RoundingMode::RoundDown => false,
            RoundingMode::RoundCeiling => m >= 0 && r > 0,
            RoundingMode::RoundFloor => m < 0 && r > 0,
            RoundingMode::RoundHalfUp => 2 * r >= u,
            RoundingMode::RoundHalfDown => 2 * r > u,
            RoundingMode::RoundHalfEven => 2 * r > u || (2 * r == u && q % 2 == 1),
        };
        let mag = if bump {
            (q + 1) * u
        } else {
            q * u
        };
        if m >= 0 {
            mag
        } else {
            -mag
        }
    }
}

/// Magnitude of an integer.
pub open spec fn abs_i(a: int) -> int {
    if a >= 0 {
        a
    } else {
        -a
    }
}

/// Division truncated toward zero; zero when the divisor is zero
/// (the "no data yet" sentinel used throughout the charts).
pub open spec fn tdiv(a: int, b: int) -> int {
    if b == 0 {
        0
    } else {
        let q = abs_i(a) / abs_i(b);
        if (a >= 0) == (b >= 0) {
            q
        } else {
            -q
        }
    }
}

/// Saturation bound for fixed-point quotients (a value magnitude of 10^8).
pub const DIV_SAT_UNITS: i64 = 100_000_000_000_000_000;

/// Clamps a mantissa into the band where later formula steps stay exact.
pub open spec fn sat_units(v: int) -> int {
    if v > DIV_SAT_UNITS as int {
        DIV_SAT_UNITS as int
    } else if v < -(DIV_SAT_UNITS as int) {
        -(DIV_SAT_UNITS as int)
    } else {
        v
    }
}

/// The mantissa of the fixed-point quotient `a / b`, truncated toward zero
/// and saturated at a value magnitude of 10^8.
pub open spec fn div_units(a: int, b: int) -> int {
    sat_units(tdiv(a * (DEC_UNIT as int), b))
}

/// The mantissa of the fixed-point product `a * b`, truncated toward zero.
pub open spec fn mul_units(a: int, b: int) -> int {
    tdiv(a * b, DEC_UNIT as int)
}

/// Truncated division of mantissas, computed over magnitudes.
pub fn tdiv_exec(a: i128, b: i128) -> (r: i128)
    requires
        -170_000_000_000_000_000_000_000_000_000_000_000_000 <= a
            <= 170_000_000_000_000_000_000_000_000_000_000_000_000,
        -170_000_000_000_000_000_000_000_000_000_000_000_000 <= b
            <= 170_000_000_000_000_000_000_000_000_000_000_000_000,
    ensures
        r == tdiv(a as int, b as int),
        abs_i(r as int) <= abs_i(a as int),
{
    if b == 0 {
        return 0;
    }
    let na: u128 = if a >= 0 {
        a as u128
    } else {
        (-a) as u128
    };
    let nb: u128 = if b >= 0 {
        b as u128
    } else {
        (-b) as u128
    };
    let q: u128 = na / nb;
    proof {
        vstd::arithmetic::div_mod::lemma_div_is_ordered_by_denominator(na as int, 1, nb as int);
        vstd::arithmetic::div_mod::lemma_div_basics(na as int);
    }
    if (a >= 0) == (b >= 0) {
        q as i128
    } else {
        -(q as i128)
    }
}

/// Fixed-point division with saturation: `a / b` at nine fractional digits.
pub fn dec_div(a: Dec, b: Dec) -> (r: Dec)
    ensures
        r@ == div_units(a@, b@),
        -(DIV_SAT_UNITS as int) <= r@ <= DIV_SAT_UNITS as int,
{
    proof {
        assert(-10_000_000_000_000_000_000_000_000_000 <= a@ * (DEC_UNIT as int)
            <= 10_000_000_000_000_000_000_000_000_000) by (nonlinear_arith)
            requires
                -9_223_372_036_854_775_808 <= a@ <= 9_223_372_036_854_775_807,
        ;
    }
    let am: i128 = (a.units() as i128) * (DEC_UNIT as i128);
    let q = tdiv_exec(am, b.units() as i128);
    if q > DIV_SAT_UNITS as i128 {
        Dec::from_units(DIV_SAT_UNITS)
    } else if q < -(DIV_SAT_UNITS as i128) {
        Dec::from_units(-DIV_SAT_UNITS)
    } else {
        Dec::from_units(q as i64)
    }
}

/// Fixed-point multiplication, truncated toward zero. The bound on the
/// mantissa product keeps the result inside `i64`.
pub fn dec_mul(a: Dec, b: Dec) -> (r: Dec)
    requires
        abs_i(a@ * b@) <= 9_000_000_000_000_000_000_000_000_000,
    ensures
        r@ == mul_units(a@, b@),
        abs_i(r@) <= 9_000_000_000_000_000_000,
{
    proof {
        assert(-100_000_000_000_000_000_000_000_000_000_000_000_000 <= a@ * b@
            <= 100_000_000_000_000_000_000_000_000_000_000_000_000) by (nonlinear_arith)
            requires
                -9_223_372_036_854_775_808 <= a@ <= 9_223_372_036_854_775_807,
                -9_223_372_036_854_775_808 <= b@ <= 9_223_372_036_854_775_807,
        ;
    }
    let p: i128 = (a.units() as i128) * (b.units() as i128);
    let q = tdiv_exec(p, DEC_UNIT as i128);
    proof {
        vstd::arithmetic::div_mod::lemma_div_is_ordered(
            abs_i(p as int),
            9_000_000_000_000_000_000_000_000_000,
            DEC_UNIT as int,
        );
        vstd::arithmetic::div_mod::lemma_div_multiples_vanish(
            9_000_000_000_000_000_000,
            DEC_UNIT as int,
        );
    }
    Dec::from_units(q as i64)
}

/// Fixed-point division of wide mantissas (sums of many values), truncated
/// toward zero and saturated at a value magnitude of 10^8.
pub fn div_wide(a: i128, b: i128) -> (r: i64)
    requires
        -100_000_000_000_000_000_000_000_000_000 <= a <= 100_000_000_000_000_000_000_000_000_000,
        -100_000_000_000_000_000_000_000_000_000 <= b <= 100_000_000_000_000_000_000_000_000_000,
    ensures
        r as int == div_units(a as int, b as int),
        -DIV_SAT_UNITS <= r <= DIV_SAT_UNITS,
{
    proof {
        assert(-100_000_000_000_000_000_000_000_000_000_000_000_000 <= (a as int) * (
        DEC_UNIT as int) <= 100_000_000_000_000_000_000_000_000_000_000_000_000) by (
        nonlinear_arith)
            requires
                -100_000_000_000_000_000_000_000_000_000 <= a as int
                    <= 100_000_000_000_000_000_000_000_000_000,
        ;
    }
    let q = tdiv_exec(a * (DEC_UNIT as i128), b);
    if q > DIV_SAT_UNITS as i128 {
        DIV_SAT_UNITS
    } else if q < -(DIV_SAT_UNITS as i128) {
        -DIV_SAT_UNITS
    } else {
        q as i64
    }
}

/// Upper saturation bound for scale-18 square-root arguments.
pub open spec fn sqrt18_cap() -> int {
    20_000_000_000_000_000_000_000_000_000_000_000
}

/// Floor square root of a scale-18 mantissa as a scale-9 mantissa, with a
/// zero sentinel for negative arguments and saturation of huge ones.
pub open spec fn sqrt18_sat(x: int) -> int {
    if x <= 0 {
        0
    } else if x > sqrt18_cap() {
        sqrt_floor(sqrt18_cap())
    } else {
        sqrt_floor(x)
    }
}

/// Executable form of `sqrt18_sat`.
pub fn sqrt18_exec(x: i128) -> (r: i64)
    ensures
        r as int == sqrt18_sat(x as int),
        0 <= r <= 150_000_000_000_000_000,
{
    if x <= 0 {
        proof {
            lemma_sqrt_floor_eq(0, 0);
        }
        return 0;
    }
    let y: i128 = if x > 20_000_000_000_000_000_000_000_000_000_000_000 {
        20_000_000_000_000_000_000_000_000_000_000_000
    } else {
        x
    };
    sqrt_units(y)
}

/// The saturated square root of a scale-18 mantissa divided by a scale-9
/// mantissa: `sqrt18_sat(tdiv(x * 10^9, b))`. The quotient is computed in
/// two division steps so the wide intermediate never overflows.
pub fn sqrt_ratio18(x: i128, b: i128) -> (r: i64)
    requires
        -100_000_000_000_000_000_000_000_000_000_000_000 <= x
            <= 100_000_000_000_000_000_000_000_000_000_000_000,
        -100_000_000_000_000_000_000_000_000_000 <= b <= 100_000_000_000_000_000_000_000_000_000,
    ensures
        r as int == sqrt18_sat(tdiv(x as int * 1_000_000_000, b as int)),
        0 <= r <= 150_000_000_000_000_000,
{
    let ghost gt = tdiv(x as int * 1_000_000_000, b as int);
    if b == 0 {
        return 0;
    }
    let neg = (x >= 0) != (b >= 0);
    let a: i128 = if x >= 0 {
        x
    } else {
        -x
    };
    let bb: i128 = if b >= 0 {
        b
    } else {
        -b
    };
    proof {
        assert(abs_i(x as int * 1_000_000_000) == (a as int) * 1_000_000_000);
    }
    let au: u128 = a as u128;
    let bu: u128 = bb as u128;
    let q: u128 = au / bu;
    let rem: u128 = au % bu;
    proof {
        vstd::arithmetic::div_mod::lemma_fundamental_div_mod(au as int, bu as int);
    }
    if neg {
        proof {
            vstd::arithmetic::div_mod::lemma_div_basics_4(
                (a as int) * 1_000_000_000,
                bb as int,
            );
        }
        return 0;
    }
    let s: u128 = (rem * 1_000_000_000) / bu;
    proof {
        vstd::arithmetic::div_mod::lemma_fundamental_div_mod(
            rem as int * 1_000_000_000,
            bu as int,
        );
        let u = (rem as int * 1_000_000_000) % (bu as int);
        assert((a as int) * 1_000_000_000 == (bu as int) * ((q as int) * 1_000_000_000
            + s as int) + u) by (nonlinear_arith)
            requires
                a as int == (bu as int) * (q as int) + rem as int,
                rem as int * 1_000_000_000 == (bu as int) * (s as int) + u,
        ;
        vstd::arithmetic::div_mod::lemma_fundamental_div_mod_converse(
            (a as int) * 1_000_000_000,
            bu as int,
            (q as int) * 1_000_000_000 + s as int,
            u,
        );
        vstd::arithmetic::div_mod::lemma_multiply_divide_lt(
            rem as int * 1_000_000_000,
            1_000_000_000,
            bu as int,
        );
    }
    if q > 20_000_000_000_000_000_000_000_000 {
        return sqrt_units(20_000_000_000_000_000_000_000_000_000_000_000);
    }
    let g: i128 = (q as i128) * 1_000_000_000 + (s as i128);
    sqrt18_exec(g)
}

/// `|x * y| <= bx * by` whenever `|x| <= bx` and `|y| <= by`.
pub proof fn lemma_abs_mul_bound(x: int, y: int, bx: int, by: int)
    requires
        abs_i(x) <= bx,
        abs_i(y) <= by,
    ensures
        abs_i(x * y) <= bx * by,
{
    assert(abs_i(x * y) <= bx * by) by (nonlinear_arith)
        requires
            abs_i(x) <= bx,
            abs_i(y) <= by,
    ;
}

/// `r` is the floor of the square root of `x`.
pub open spec fn is_floor_sqrt(x: int, r: int) -> bool {
    0 <= r && r * r <= x < (r + 1) * (r + 1)
}

/// The floor of the square root of a non-negative integer
/// (zero for negative arguments, as a sentinel).
pub open spec fn sqrt_floor(x: int) -> int {
    if x < 0 {
        0
    } else {
        choose|r: int| is_floor_sqrt(x, r)
    }
}

/// Two floor square roots of the same number are equal.
pub proof fn lemma_floor_sqrt_unique(x: int, r1: int, r2: int)
    requires
        is_floor_sqrt(x, r1),
        is_floor_sqrt(x, r2),
    ensures
        r1 == r2,
{
    if r1 < r2 {
        assert((r1 + 1) * (r1 + 1) <= r2 * r2) by (nonlinear_arith)
            requires
                0 <= r1 < r2,
        ;
    }
    if r2 < r1 {
        assert((r2 + 1) * (r2 + 1) <= r1 * r1) by (nonlinear_arith)
            requires
                0 <= r2 < r1,
        ;
    }
}

/// Every `Dec` view is the value of its `i64` mantissa.
pub proof fn lemma_dec_view_range(d: Dec)
    ensures
        -9_223_372_036_854_775_808 <= d@ <= 9_223_372_036_854_775_807,
{
}

/// Zero divided by anything truncates to zero.
pub proof fn lemma_tdiv_zero(b: int)
    ensures
        tdiv(0, b) == 0,
{
    if b != 0 {
        vstd::arithmetic::div_mod::lemma_div_basics(abs_i(b));
    }
}

/// A witness pins down `sqrt_floor`.
pub proof fn lemma_sqrt_floor_eq(x: int, r: int)
    requires
        is_floor_sqrt(x, r),
    ensures
        sqrt_floor(x) == r,
{
    lemma_floor_sqrt_unique(x, r, sqrt_floor(x));
}

/// Floor square root by bisection. The argument is a scale-18 mantissa
/// (the product of two scale-9 mantissas); the result is its scale-9 root.
pub fn sqrt_units(x: i128) -> (r: i64)
    requires
        0 <= x <= 20_000_000_000_000_000_000_000_000_000_000_000,
    ensures
        r == sqrt_floor(x as int),
        is_floor_sqrt(x as int, r as int),
        0 <= r <= 150_000_000_000_000_000,
{
    let mut lo: i128 = 0;
    let mut hi: i128 = 200_000_000_000_000_000;
    proof {
        assert(hi * hi > x) by (nonlinear_arith)
            requires
                hi == 200_000_000_000_000_000i128,
                x <= 20_000_000_000_000_000_000_000_000_000_000_000i128,
        ;
    }
    while lo + 1 < hi
        invariant
            0 <= lo < hi <= 200_000_000_000_000_000,
            lo * lo <= x,
            hi * hi > x,
        decreases hi - lo,
    {
        let delta: i128 = hi - lo;
        let mid: i128 = lo + (((delta as u128) / 2) as i128);
        proof {
            vstd::arithmetic::div_mod::lemma_div_non_zero(delta as int, 2);
            vstd::arithmetic::div_mod::lemma_div_is_strictly_smaller(delta as int, 2);
            assert(lo < mid < hi);
            assert(mid * mid <= 40_000_000_000_000_000_000_000_000_000_000_000) by (nonlinear_arith)
                requires
                    0 <= mid <= 200_000_000_000_000_000i128,
            ;
        }
        if mid * mid <= x {
            lo = mid;
        } else {
            hi = mid;
        }
    }
    proof {
        assert(hi == lo + 1);
        assert(is_floor_sqrt(x as int, lo as int));
        lemma_floor_sqrt_unique(x as int, lo as int, sqrt_floor(x as int));
        assert(lo <= 150_000_000_000_000_000) by (nonlinear_arith)
            requires
                0 <= lo,
                lo * lo <= x,
                x <= 20_000_000_000_000_000_000_000_000_000_000_000i128,
        ;
    }
    lo as i64
}

/// Relies on rust_decimal's `Decimal::from_i128_with_scale` (exact for a
/// 64-bit mantissa at scale nine) and `Decimal::round_dp_with_strategy`,
/// whose magnitude-based quotient/remainder rounding is `round_units`;
/// `mantissa`/`scale` read the result back exactly.
#[verifier::external_body]
fn round_units_exec(m: i64, dp: u32, mode: &RoundingMode) -> (r: i64)
    requires
        -9_200_000_000_000_000_000 <= m <= 9_200_000_000_000_000_000,
    ensures
        r as int == round_units(m as int, dp as int, *mode),
{
    let strategy = match mode {
        RoundingMode::RoundUp => RoundingStrategy::AwayFromZero,
        RoundingMode::RoundDown => RoundingStrategy::ToZero,
        RoundingMode::RoundCeiling => RoundingStrategy::ToPositiveInfinity,
        RoundingMode::RoundFloor => RoundingStrategy::ToNegativeInfinity,
        RoundingMode::RoundHalfUp => RoundingStrategy::MidpointAwayFromZero,
        RoundingMode::RoundHalfDown => RoundingStrategy::MidpointTowardZero,
        RoundingMode::RoundHalfEven => RoundingStrategy::MidpointNearestEven,
    };
    let rounded = Decimal::from_i128_with_scale(m as i128, 9).round_dp_with_strategy(dp, strategy);
    (rounded.mantissa() * 10i128.pow(9 - rounded.scale())) as i64
}

/// The floor square root exists for every non-negative integer, so the
/// chosen `sqrt_floor` witness satisfies its defining property.
pub proof fn lemma_sqrt_exists(x: int)
    requires
        x >= 0,
    ensures
        is_floor_sqrt(x, sqrt_floor(x)),
    decreases x,
{
    if x == 0 {
        assert(is_floor_sqrt(0, 0));
    } else {
        lemma_sqrt_exists(x - 1);
        let r = sqrt_floor(x - 1);
        if (r + 1) * (r + 1) <= x {
            assert(x == (r + 1) * (r + 1));
            assert(is_floor_sqrt(x, r + 1)) by (nonlinear_arith)
                requires
                    r >= 0,
                    x == (r + 1) * (r + 1),
            ;
        } else {
            assert(is_floor_sqrt(x, r));
        }
    }
}

/// The floor square root of `x` is at most `m` whenever `x <= m*m`.
pub proof fn lemma_sqrt_bound(x: int, m: int)
    requires
        0 <= x,
        0 <= m,
        x <= m * m,
    ensures
        0 <= sqrt_floor(x) <= m,
{
    lemma_sqrt_exists(x);
    let r = sqrt_floor(x);
    if r > m {
        assert(r * r > m * m) by (nonlinear_arith)
            requires
                r > m >= 0,
        ;
    }
}

/// Rounding moves a mantissa by less than one whole unit of value.
pub proof fn lemma_round_magnitude(m: int, dp: int, mode: RoundingMode)
    requires
        0 <= dp,
    ensures
        abs_i(round_units(m, dp, mode)) <= abs_i(m) + DEC_UNIT as int,
{
    if dp < DEC_DIGITS as int {
        let u = pow10((DEC_DIGITS as int - dp) as nat);
        lemma_pow10_bounds();
        assert(u <= pow10(9));
        let n = if m >= 0 {
            m
        } else {
            -m
        };
        vstd::arithmetic::div_mod::lemma_fundamental_div_mod(n, u);
        let q = n / u;
        let r = n % u;
        assert(q * u == n - r) by {
            vstd::arithmetic::mul::lemma_mul_is_commutative(q, u);
        }
        assert((q + 1) * u == n - r + u) by (nonlinear_arith)
            requires
                q * u == n - r,
        ;
    }
}

/// Rounding a value that already sits at the target scale returns the value
/// unchanged, under every rounding mode.
pub proof fn lemma_round_at_scale_identity(m: int, dp: int, mode: RoundingMode)
    requires
        0 <= dp,
        dp < DEC_DIGITS as int ==> m % pow10((DEC_DIGITS as int - dp) as nat) == 0,
    ensures
        round_units(m, dp, mode) == m,
{
    if dp < DEC_DIGITS as int {
        let u = pow10((DEC_DIGITS as int - dp) as nat);
        lemma_pow10_bounds();
        let n = if m >= 0 {
            m
        } else {
            -m
        };
        assert(u >= 10);
        vstd::arithmetic::div_mod::lemma_fundamental_div_mod(m, u);
        let k = m / u;
        assert(m == u * k);
        if m >= 0 {
            vstd::arithmetic::div_mod::lemma_mod_multiples_basic(k, u);
            assert(n % u == 0);
        } else {
            assert(n == (-k) * u) by (nonlinear_arith)
                requires
                    m == u * k,
                    n == -m,
            ;
            vstd::arithmetic::div_mod::lemma_mod_multiples_basic(-k, u);
            assert(n % u == 0);
        }
        vstd::arithmetic::div_mod::lemma_fundamental_div_mod(n, u);
        assert(n == u * (n / u));
        vstd::arithmetic::mul::lemma_mul_is_commutative(n / u, u);
        assert((n / u) * u == n);
    }
}

} // verus!
