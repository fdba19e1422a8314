//! Attribute control charts (p / np / c / u) over (defect-count,
//! sample-size) pairs, with bounded FIFO history and lazily recomputed
//! center line, control limits and plotted series.

use vstd::prelude::*;
use crate::SpcError;
use crate::dec::Dec;
use crate::dec::DEC_UNIT;
use crate::dec::div_units;
use crate::dec::div_wide;
use crate::dec::mul_units;
use crate::dec::dec_mul;
use crate::dec::sqrt18_sat;
use crate::dec::sqrt18_exec;
use crate::dec::tdiv;
use crate::dec::tdiv_exec;
use crate::dec::lemma_dec_view_range;
use crate::statistics::units_of;
use crate::statistics::sum_units;
use crate::statistics::sum_wide;
use crate::statistics::all_bounded;
use crate::statistics::copy_series;

verus! {

/// The attribute chart families.
#[derive(Debug, Clone, Copy, PartialEq, Eq, Structural)]
pub enum AttributeStatsChartType {
    /// Defect proportion with varying sample sizes.
    PChart,
    /// Defect count with one fixed sample size.
    NpChart,
    /// Defect count per inspection unit.
    CChart,
    /// Defects per unit with varying sample sizes.
    UChart,
}

/// Largest history capacity an attribute chart accepts.
pub const ATTR_CAP_MAX: usize = 100_000;

/// Largest sigma-multiplier mantissa accepted (a multiplier of sixty).
pub const SIGMA_MULT_MAX_UNITS: i64 = 60_000_000_000;

/// Sigma-multiplier mantissa used when none is given (three).
pub const SIGMA_MULT_DEFAULT_UNITS: i64 = 3_000_000_000;

/// The mathematical state of an attribute chart.
#[verifier::ext_equal]
pub struct AttributeStatsView {
    pub cl: int,
    pub ucl: int,
    pub lcl: int,
    pub chart_type: AttributeStatsChartType,
    pub max_elements: int,
    pub samples: Seq<int>,
    pub defects: Seq<int>,
    pub data: Seq<int>,
    pub average: int,
    pub dirty: bool,
    pub applied_sigma: int,
}

/// A sigma-multiplier mantissa the chart accepts.
pub open spec fn sigma_mult_ok(sm: int) -> bool {
    0 <= sm <= SIGMA_MULT_MAX_UNITS as int
}

/// The plotted series: proportions for p/u charts, raw counts for np/c.
pub open spec fn attr_plot(
    kind: AttributeStatsChartType,
    d: Seq<int>,
    s: Seq<int>,
) -> Seq<int> {
    match kind {
        AttributeStatsChartType::PChart => Seq::new(d.len(), |i: int| div_units(d[i], s[i])),
        AttributeStatsChartType::NpChart => d,
        AttributeStatsChartType::CChart => d,
        AttributeStatsChartType::UChart => Seq::new(d.len(), |i: int| div_units(d[i], s[i])),
    }
}

/// The center value: total defects over total samples for p/u charts,
/// mean defect count for np/c charts.
pub open spec fn attr_average(kind: AttributeStatsChartType, d: Seq<int>, s: Seq<int>) -> int {
    match kind {
        AttributeStatsChartType::PChart => div_units(sum_units(d), sum_units(s)),
        AttributeStatsChartType::NpChart => tdiv(sum_units(d), d.len() as int),
        AttributeStatsChartType::CChart => tdiv(sum_units(d), d.len() as int),
        AttributeStatsChartType::UChart => div_units(sum_units(d), sum_units(s)),
    }
}

/// The one-sigma term each family adds around the center, before the
/// sigma multiplier: `sqrt(p(1-p)/n̄)`, `sqrt(np(1-p̄))`, `sqrt(c̄)`, or
/// `sqrt(ū/n̄)`.
pub open spec fn attr_sigma_term(kind: AttributeStatsChartType, d: Seq<int>, s: Seq<int>) -> int {
    let avg = attr_average(kind, d, s);
    let u = DEC_UNIT as int;
    match kind {
        AttributeStatsChartType::PChart => {
            let nbar = tdiv(sum_units(s), s.len() as int);
            sqrt18_sat(tdiv(avg * (u - avg) * 1_000_000_000, nbar))
        },
        AttributeStatsChartType::NpChart => {
            let k = s[0];
            let pbar = div_units(sum_units(d), d.len() * k);
            sqrt18_sat(avg * (u - pbar))
        },
        AttributeStatsChartType::CChart => sqrt18_sat(avg * u),
        AttributeStatsChartType::UChart => {
            let nbar = tdiv(sum_units(s), s.len() as int);
            sqrt18_sat(tdiv(avg * pow10_18(), nbar))
        },
    }
}

/// `10^18` as a named spec value.
pub open spec fn pow10_18() -> int {
    1_000_000_000_000_000_000
}

/// The band half-width: sigma multiplier times the one-sigma term.
pub open spec fn attr_delta(
    kind: AttributeStatsChartType,
    d: Seq<int>,
    s: Seq<int>,
    sm: int,
) -> int {
    mul_units(sm, attr_sigma_term(kind, d, s))
}

/// The upper control limit.
pub open spec fn attr_ucl(kind: AttributeStatsChartType, d: Seq<int>, s: Seq<int>, sm: int) -> int {
    attr_average(kind, d, s) + attr_delta(kind, d, s, sm)
}

/// The lower control limit, clamped to zero.
pub open spec fn attr_lcl(kind: AttributeStatsChartType, d: Seq<int>, s: Seq<int>, sm: int) -> int {
    let raw = attr_average(kind, d, s) - attr_delta(kind, d, s, sm);
    if raw < 0 {
        0
    } else {
        raw
    }
}

/// The derived fields of `v` reflect its history under multiplier `sm`;
/// with no history every derived scalar is the zero sentinel.
pub open spec fn attr_derived_ok(v: AttributeStatsView, sm: int) -> bool {
    if v.defects.len() == 0 {
        v.data.len() == 0 && v.average == 0 && v.cl == 0 && v.ucl == 0 && v.lcl == 0
    } else {
        &&& v.data == attr_plot(v.chart_type, v.defects, v.samples)
        &&& v.average == attr_average(v.chart_type, v.defects, v.samples)
        &&& v.cl == v.average
        &&& v.ucl == attr_ucl(v.chart_type, v.defects, v.samples, sm)
        &&& v.lcl == attr_lcl(v.chart_type, v.defects, v.samples, sm)
    }
}

/// The chart invariant: aligned, bounded history inside the capacity, and,
/// when clean, derived fields that reflect the history under the multiplier
/// last applied.
pub open spec fn attr_inv(v: AttributeStatsView) -> bool {
    &&& v.defects.len() == v.samples.len()
    &&& v.defects.len() <= v.max_elements
    &&& 0 <= v.max_elements <= ATTR_CAP_MAX as int
    &&& all_bounded(v.defects, crate::dec::DEC_MAX_UNITS as int)
    &&& all_bounded(v.samples, crate::dec::DEC_MAX_UNITS as int)
    &&& sigma_mult_ok(v.applied_sigma)
    &&& (!v.dirty ==> attr_derived_ok(v, v.applied_sigma))
}

/// Appends `x` to a bounded FIFO history: the oldest entries are dropped
/// until the capacity holds.
pub open spec fn push_evict(s: Seq<int>, x: int, cap: int) -> Seq<int> {
    let t = s.push(x);
    if t.len() <= cap {
        t
    } else {
        t.skip(t.len() - cap)
    }
}

/// An attribute control chart (p / np / c / u) with bounded history and
/// lazily recomputed limits.
pub struct AttributeStats {
    cl: Dec,
    ucl: Dec,
    lcl: Dec,
    chart_type: AttributeStatsChartType,
    max_elements: usize,
    samples: Vec<Dec>,
    defects: Vec<Dec>,
    data: Vec<Dec>,
    average: Dec,
    dirty: bool,
    applied_sigma: Ghost<int>,
}

impl View for AttributeStats {
    type V = AttributeStatsView;

    closed spec fn view(&self) -> AttributeStatsView {
        AttributeStatsView {
            cl: self.cl@,
            ucl: self.ucl@,
            lcl: self.lcl@,
            chart_type: self.chart_type,
            max_elements: self.max_elements as int,
            samples: units_of(self.samples@),
            defects: units_of(self.defects@),
            data: units_of(self.data@),
            average: self.average@,
            dirty: self.dirty,
            applied_sigma: self.applied_sigma@,
        }
    }
}

impl AttributeStats {
    /// Creates an empty chart with the given capacity (one hundred when
    /// omitted) and family.
    pub fn new(max_elements: Option<usize>, chart_type: AttributeStatsChartType) -> (r:
        AttributeStats)
        requires
            max_elements is Some ==> max_elements->0 <= ATTR_CAP_MAX,
        ensures
            attr_inv(r@),
            r@.chart_type == chart_type,
            r@.max_elements == if max_elements is Some {
                max_elements->0 as int
            } else {
                100
            },
            r@.defects.len() == 0,
            r@.samples.len() == 0,
            r@.data.len() == 0,
            !r@.dirty,
            r@.average == 0 && r@.cl == 0 && r@.ucl == 0 && r@.lcl == 0,
    {
        let cap = match max_elements {
            Some(m) => m,
            None => 100,
        };
        AttributeStats {
            cl: Dec::zero(),
            ucl: Dec::zero(),
            lcl: Dec::zero(),
            chart_type,
            max_elements: cap,
            samples: Vec::new(),
            defects: Vec::new(),
            data: Vec::new(),
            average: Dec::zero(),
            dirty: false,
            applied_sigma: Ghost(SIGMA_MULT_DEFAULT_UNITS as int),
        }
    }

    /// Appends one (defect-count, sample-size) observation, evicting the
    /// oldest entries beyond the capacity. For an np chart a sample size
    /// different from the first recorded one is rejected and the chart is
    /// left unchanged.
    pub fn add_data(&mut self, defect: Dec, sample: Dec) -> (r: Result<(), SpcError>)
        requires
            attr_inv(old(self)@),
            defect.wf(),
            sample.wf(),
        ensures
            attr_inv(final(self)@),
            r is Err <==> (old(self)@.chart_type is NpChart && old(self)@.samples.len() > 0
                && sample@ != old(self)@.samples[0]),
            r is Err ==> final(self)@ == old(self)@,
            r is Ok ==> final(self)@ == (AttributeStatsView {
                defects: push_evict(old(self)@.defects, defect@, old(self)@.max_elements),
                samples: push_evict(old(self)@.samples, sample@, old(self)@.max_elements),
                dirty: true,
                ..old(self)@
            }),
            r is Err ==> *old(self) == *final(self),
    {
        let ghost v0 = self@;
        if let AttributeStatsChartType::NpChart = self.chart_type {
            if self.samples.len() > 0 {
                if self.samples[0].units() != sample.units() {
                    return Err(SpcError::InputShapeError);
                }
            }
        }
        self.defects.push(defect);
        self.samples.push(sample);
        let ghost dpush = v0.defects.push(defect@);
        let ghost spush = v0.samples.push(sample@);
        proof {
            assert(units_of(self.defects@) =~= dpush);
            assert(units_of(self.samples@) =~= spush);
        }
        let mut removed: usize = 0;
        loop
            invariant
                dpush == v0.defects.push(defect@),
                spush == v0.samples.push(sample@),
                self.defects@.len() == self.samples@.len(),
                units_of(self.defects@) =~= dpush.skip(removed as int),
                units_of(self.samples@) =~= spush.skip(removed as int),
                0 <= removed <= dpush.len(),
                dpush.len() <= ATTR_CAP_MAX + 1,
                removed > 0 ==> dpush.len() - removed >= v0.max_elements,
                dpush.len() == spush.len(),
                self.defects@.len() == dpush.len() - removed,
                self.max_elements == v0.max_elements,
                self.chart_type == v0.chart_type,
                self.cl@ == v0.cl && self.ucl@ == v0.ucl && self.lcl@ == v0.lcl,
                self.average@ == v0.average,
                units_of(self.data@) == v0.data,
                self.applied_sigma@ == v0.applied_sigma,
            ensures
                self.defects@.len() <= self.max_elements,
                units_of(self.defects@) =~= push_evict(v0.defects, defect@, v0.max_elements),
                units_of(self.samples@) =~= push_evict(v0.samples, sample@, v0.max_elements),
                self.defects@.len() == self.samples@.len(),
                self.max_elements == v0.max_elements,
                self.chart_type == v0.chart_type,
                self.cl@ == v0.cl && self.ucl@ == v0.ucl && self.lcl@ == v0.lcl,
                self.average@ == v0.average,
                units_of(self.data@) == v0.data,
                self.applied_sigma@ == v0.applied_sigma,
            decreases dpush.len() - removed,
        {
            if self.defects.len() <= self.max_elements {
                proof {
                    if dpush.len() <= v0.max_elements {
                        assert(removed == 0 || self.defects@.len() < dpush.len());
                        assert(push_evict(v0.defects, defect@, v0.max_elements) =~= dpush);
                        assert(units_of(self.defects@) =~= dpush.skip(removed as int));
                        if removed > 0 {
                            assert(dpush.skip(removed as int).len() < dpush.len());
                        }
                    }
                    assert(units_of(self.defects@) =~= push_evict(
                        v0.defects,
                        defect@,
                        v0.max_elements,
                    ));
                    assert(units_of(self.samples@) =~= push_evict(
                        v0.samples,
                        sample@,
                        v0.max_elements,
                    ));
                }
                break ;
            }
            let ghost dpre = self.defects@;
            let ghost spre = self.samples@;
            self.defects.remove(0);
            self.samples.remove(0);
            proof {
                dpre.remove_ensures(0);
                spre.remove_ensures(0);
                assert(forall|t: int|
                    0 <= t < self.defects@.len() ==> #[trigger] self.defects@[t] == dpre[t + 1]);
                assert(forall|t: int|
                    0 <= t < self.samples@.len() ==> #[trigger] self.samples@[t] == spre[t + 1]);
                assert(forall|t: int|
                    0 <= t < dpre.len() ==> #[trigger] units_of(dpre)[t] == dpush.skip(
                        removed as int,
                    )[t]);
                assert(forall|t: int|
                    0 <= t < spre.len() ==> #[trigger] units_of(spre)[t] == spush.skip(
                        removed as int,
                    )[t]);
                assert forall|t: int| 0 <= t < units_of(self.defects@).len() implies units_of(
                    self.defects@,
                )[t] == dpush.skip(removed as int + 1)[t] by {
                    assert(self.defects@[t] == dpre[t + 1]);
                    assert(units_of(dpre)[t + 1] == dpush.skip(removed as int)[t + 1]);
                }
                assert(units_of(self.defects@) =~= dpush.skip(removed as int + 1));
                assert forall|t: int| 0 <= t < units_of(self.samples@).len() implies units_of(
                    self.samples@,
                )[t] == spush.skip(removed as int + 1)[t] by {
                    assert(self.samples@[t] == spre[t + 1]);
                    assert(units_of(spre)[t + 1] == spush.skip(removed as int)[t + 1]);
                }
                assert(units_of(self.samples@) =~= spush.skip(removed as int + 1));
            }
            removed = removed + 1;
        }
        self.dirty = true;
        proof {
            assert(self@ =~= (AttributeStatsView {
                defects: push_evict(v0.defects, defect@, v0.max_elements),
                samples: push_evict(v0.samples, sample@, v0.max_elements),
                dirty: true,
                ..v0
            }));
        }
        Ok(())
    }

    /// Recomputes the plotted series, center line and control limits when
    /// the chart is dirty; a clean chart is left untouched. `sigma_multiple`
    /// defaults to three.
    pub fn update(&mut self, sigma_multiple: Option<Dec>)
        requires
            attr_inv(old(self)@),
            sigma_multiple is Some ==> sigma_mult_ok(sigma_multiple->0@),
        ensures
            attr_inv(final(self)@),
            final(self)@ == attr_refresh(old(self)@, sigma_mult_of(sigma_multiple)),
    {
        let ghost v0 = self@;
        let ghost smg = sigma_mult_of(sigma_multiple);
        if !self.dirty {
            return ;
        }
        let sm = match sigma_multiple {
            Some(d) => d,
            None => Dec::from_units(SIGMA_MULT_DEFAULT_UNITS),
        };
        self.data = Vec::new();
        self.ucl = Dec::zero();
        self.lcl = Dec::zero();
        self.cl = Dec::zero();
        if self.defects.len() == 0 {
            self.average = Dec::zero();
            self.dirty = false;
            proof {
                self.applied_sigma@ = smg;
            }
            proof {
                assert(self@ =~= attr_refresh(v0, smg));
            }
            return ;
        }
        proof {
            lemma_dec_view_range(sm);
        }
        let n = self.defects.len();
        let sd = sum_wide(&self.defects);
        let delta: Dec;
        let avg: i64;
        match self.chart_type {
            AttributeStatsChartType::PChart => {
                let ss = sum_wide(&self.samples);
                avg = div_wide(sd, ss);
                let nb = tdiv_exec(ss, n as i128);
                proof {
                    assert(-20_000_000_000_000_000_000_000_000_000_000_000 <= (avg as int) * ((
                    DEC_UNIT as int) - avg as int) <= 20_000_000_000_000_000_000_000_000_000_000_000)
                        by (nonlinear_arith)
                        requires
                            -100_000_000_000_000_000 <= avg as int <= 100_000_000_000_000_000,
                    ;
                }
                let g: i128 = (avg as i128) * ((DEC_UNIT as i128) - (avg as i128));
                let s1 = crate::dec::sqrt_ratio18(g, nb);
                proof {
                    crate::dec::lemma_abs_mul_bound(
                        sm@,
                        s1 as int,
                        SIGMA_MULT_MAX_UNITS as int,
                        150_000_000_000_000_000,
                    );
                }
                delta = dec_mul(sm, Dec::from_units(s1));
                self.data = build_ratio_data(&self.defects, &self.samples);
            },
            AttributeStatsChartType::NpChart => {
                proof {
                    crate::statistics::lemma_avg_bound(v0.defects, crate::dec::DEC_MAX_UNITS as int);
                }
                avg = tdiv_exec(sd, n as i128) as i64;
                let k = self.samples[0].units();
                proof {
                    assert(-10_000_000_000_000_000_000_000 <= (n as int) * (k as int)
                        <= 10_000_000_000_000_000_000_000) by (nonlinear_arith)
                        requires
                            0 <= n as int <= 100_000,
                            -1_000_000_000_000_000 <= k as int <= 1_000_000_000_000_000,
                    ;
                }
                let pbar = div_wide(sd, (n as i128) * (k as i128));
                proof {
                    assert(-20_000_000_000_000_000_000_000_000_000_000_000 <= (avg as int) * ((
                    DEC_UNIT as int) - pbar as int)
                        <= 20_000_000_000_000_000_000_000_000_000_000_000) by (nonlinear_arith)
                        requires
                            -1_000_000_000_000_000 <= avg as int <= 1_000_000_000_000_000,
                            -100_000_000_000_000_000 <= pbar as int <= 100_000_000_000_000_000,
                    ;
                }
                let g: i128 = (avg as i128) * ((DEC_UNIT as i128) - (pbar as i128));
                let s1 = sqrt18_exec(g);
                proof {
                    crate::dec::lemma_abs_mul_bound(
                        sm@,
                        s1 as int,
                        SIGMA_MULT_MAX_UNITS as int,
                        150_000_000_000_000_000,
                    );
                }
                delta = dec_mul(sm, Dec::from_units(s1));
                self.data = copy_series(&self.defects);
            },
            AttributeStatsChartType::CChart => {
                proof {
                    crate::statistics::lemma_avg_bound(v0.defects, crate::dec::DEC_MAX_UNITS as int);
                }
                avg = tdiv_exec(sd, n as i128) as i64;
                let g: i128 = (avg as i128) * (DEC_UNIT as i128);
                let s1 = sqrt18_exec(g);
                proof {
                    crate::dec::lemma_abs_mul_bound(
                        sm@,
                        s1 as int,
                        SIGMA_MULT_MAX_UNITS as int,
                        150_000_000_000_000_000,
                    );
                }
                delta = dec_mul(sm, Dec::from_units(s1));
                self.data = copy_series(&self.defects);
            },
            AttributeStatsChartType::UChart => {
                let ss = sum_wide(&self.samples);
                avg = div_wide(sd, ss);
                let nb = tdiv_exec(ss, n as i128);
                let g = tdiv_exec((avg as i128) * 1_000_000_000_000_000_000, nb);
                let s1 = sqrt18_exec(g);
                proof {
                    crate::dec::lemma_abs_mul_bound(
                        sm@,
                        s1 as int,
                        SIGMA_MULT_MAX_UNITS as int,
                        150_000_000_000_000_000,
                    );
                }
                delta = dec_mul(sm, Dec::from_units(s1));
                self.data = build_ratio_data(&self.defects, &self.samples);
            },
        }
        self.average = Dec::from_units(avg);
        self.cl = Dec::from_units(avg);
        self.ucl = Dec::from_units(avg + delta.units());
        let raw = avg - delta.units();
        self.lcl = Dec::from_units(
            if raw < 0 {
                0
            } else {
                raw
            },
        );
        self.dirty = false;
        proof {
            self.applied_sigma@ = smg;
        }
        proof {
            assert(self@ =~= attr_refresh(v0, smg));
        }
    }

    /// The lower control limit, recomputing first if needed.
    pub fn lcl(&mut self, sigma_multiple: Option<Dec>) -> (r: Dec)
        requires
            attr_inv(old(self)@),
            sigma_multiple is Some ==> sigma_mult_ok(sigma_multiple->0@),
        ensures
            attr_inv(final(self)@),
            final(self)@ == attr_refresh(old(self)@, sigma_mult_of(sigma_multiple)),
            r@ == final(self)@.lcl,
            r@ >= 0,
    {
        self.update(sigma_multiple);
        self.lcl
    }

    /// The upper control limit, recomputing first if needed.
    pub fn ucl(&mut self, sigma_multiple: Option<Dec>) -> (r: Dec)
        requires
            attr_inv(old(self)@),
            sigma_multiple is Some ==> sigma_mult_ok(sigma_multiple->0@),
        ensures
            attr_inv(final(self)@),
            final(self)@ == attr_refresh(old(self)@, sigma_mult_of(sigma_multiple)),
            r@ == final(self)@.ucl,
    {
        self.update(sigma_multiple);
        self.ucl
    }

    /// The center line, recomputing first if needed.
    pub fn cl(&mut self, sigma_multiple: Option<Dec>) -> (r: Dec)
        requires
            attr_inv(old(self)@),
            sigma_multiple is Some ==> sigma_mult_ok(sigma_multiple->0@),
        ensures
            attr_inv(final(self)@),
            final(self)@ == attr_refresh(old(self)@, sigma_mult_of(sigma_multiple)),
            r@ == final(self)@.cl,
    {
        self.update(sigma_multiple);
        self.cl
    }

    /// The chart family.
    pub fn chart_type(&self) -> (r: &AttributeStatsChartType)
        ensures
            *r == self@.chart_type,
    {
        &self.chart_type
    }

    /// The configured history capacity.
    pub fn max_elements(&self) -> (r: usize)
        ensures
            r as int == self@.max_elements,
    {
        self.max_elements
    }

    /// The retained sample sizes, oldest first.
    pub fn samples(&self) -> (r: &Vec<Dec>)
        ensures
            units_of(r@) == self@.samples,
    {
        &self.samples
    }

    /// The retained defect counts, oldest first.
    pub fn defects(&self) -> (r: &Vec<Dec>)
        ensures
            units_of(r@) == self@.defects,
    {
        &self.defects
    }

    /// The plotted series, recomputing first (with the default sigma
    /// multiplier) if needed.
    pub fn data(&mut self) -> (r: &Vec<Dec>)
        requires
            attr_inv(old(self)@),
        ensures
            attr_inv(final(self)@),
            final(self)@ == attr_refresh(old(self)@, SIGMA_MULT_DEFAULT_UNITS as int),
            units_of(r@) == final(self)@.data,
    {
        self.update(None);
        &self.data
    }

    /// The center value, recomputing first (with the default sigma
    /// multiplier) if needed.
    pub fn average(&mut self) -> (r: Dec)
        requires
            attr_inv(old(self)@),
        ensures
            attr_inv(final(self)@),
            final(self)@ == attr_refresh(old(self)@, SIGMA_MULT_DEFAULT_UNITS as int),
            r@ == final(self)@.average,
    {
        self.update(None);
        self.average
    }

    /// Whether a mutation has happened since the last recompute.
    pub fn dirty(&self) -> (r: bool)
        ensures
            r == self@.dirty,
    {
        self.dirty
    }
}

/// The sigma multiplier requested by an `update` argument (its mantissa, or
/// the default of three when absent).
pub open spec fn sigma_mult_of(o: Option<Dec>) -> int {
    if o is Some {
        o->0@
    } else {
        SIGMA_MULT_DEFAULT_UNITS as int
    }
}

/// The state after a (lazy) recompute under sigma multiplier `sm`: a clean
/// chart is unchanged; a dirty one gets derived fields recomputed from its
/// history and its dirty flag cleared.
pub open spec fn attr_refresh(v: AttributeStatsView, sm: int) -> AttributeStatsView {
    if !v.dirty {
        v
    } else if v.defects.len() == 0 {
        AttributeStatsView {
            data: Seq::empty(),
            average: 0,
            cl: 0,
            ucl: 0,
            lcl: 0,
            dirty: false,
            applied_sigma: sm,
            ..v
        }
    } else {
        AttributeStatsView {
            data: attr_plot(v.chart_type, v.defects, v.samples),
            average: attr_average(v.chart_type, v.defects, v.samples),
            cl: attr_average(v.chart_type, v.defects, v.samples),
            ucl: attr_ucl(v.chart_type, v.defects, v.samples, sm),
            lcl: attr_lcl(v.chart_type, v.defects, v.samples, sm),
            dirty: false,
            applied_sigma: sm,
            ..v
        }
    }
}

/// Builds the ratio series `defects[i] / samples[i]`.
fn build_ratio_data(defects: &Vec<Dec>, samples: &Vec<Dec>) -> (r: Vec<Dec>)
    requires
        defects@.len() == samples@.len(),
    ensures
        units_of(r@) == Seq::new(
            units_of(defects@).len(),
            |i: int| div_units(units_of(defects@)[i], units_of(samples@)[i]),
        ),
{
    let ghost d = units_of(defects@);
    let ghost s = units_of(samples@);
    let mut out: Vec<Dec> = Vec::new();
    let mut i: usize = 0;
    while i < defects.len()
        invariant
            d == units_of(defects@),
            s == units_of(samples@),
            defects@.len() == samples@.len(),
            0 <= i <= defects@.len(),
            out@.len() == i,
            forall|t: int| 0 <= t < i ==> (#[trigger] out@[t])@ == div_units(d[t], s[t]),
        decreases defects@.len() - i,
    {
        proof {
            lemma_dec_view_range(defects@[i as int]);
        }
        let q = div_wide(defects[i].units() as i128, samples[i].units() as i128);
        out.push(Dec::from_units(q));
        i = i + 1;
    }
    proof {
        assert(units_of(out@) =~= Seq::new(d.len(), |i: int| div_units(d[i], s[i])));
    }
    out
}


/// The lower control limit of an attribute chart is never negative: the
/// formula's value is clamped to zero.
pub proof fn lemma_attr_lcl_nonneg(
    kind: AttributeStatsChartType,
    d: Seq<int>,
    s: Seq<int>,
    sm: int,
)
    ensures
        attr_lcl(kind, d, s, sm) >= 0,
{
}

/// Recomputation is idempotent: refreshing an already refreshed chart
/// changes nothing, whatever multiplier the second refresh uses. Reading
/// a derived value twice without an intervening mutation therefore
/// returns identical results.
pub proof fn lemma_attr_refresh_idempotent(v: AttributeStatsView, sm1: int, sm2: int)
    ensures
        attr_refresh(attr_refresh(v, sm1), sm2) == attr_refresh(v, sm1),
{
    assert(attr_refresh(attr_refresh(v, sm1), sm2) =~= attr_refresh(v, sm1));
}

/// A bounded FIFO history stays within its capacity: appending to a
/// history at or under the capacity keeps it at or under the capacity,
/// dropping exactly the oldest entries.
pub proof fn lemma_push_evict_bounded(s: Seq<int>, x: int, cap: int)
    requires
        0 <= cap,
        s.len() <= cap,
    ensures
        push_evict(s, x, cap).len() <= cap,
        push_evict(s, x, cap).len() == if s.len() < cap {
            s.len() + 1
        } else {
            cap as nat
        },
        cap >= 1 ==> push_evict(s, x, cap).last() == x,
{
    let t = s.push(x);
    if t.len() > cap && cap >= 1 {
        assert(t.skip(t.len() - cap).last() == t.last());
    }
}

} // verus!
