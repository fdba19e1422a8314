//! Individuals and moving-range charts over a scalar measurement stream,
//! with bounded FIFO history, a sliding moving-range series, and lazily
//! recomputed descriptive statistics and control limits.

use vstd::prelude::*;
use crate::SpcError;
use crate::dec::Dec;
use crate::dec::abs_i;
use crate::dec::div_units;
use crate::dec::dec_div;
use crate::dec::dec_mul;
use crate::dec::mul_units;
use crate::statistics::units_of;
use crate::statistics::all_bounded;
use crate::statistics::avg_units;
use crate::statistics::std_units;
use crate::statistics::min_units;
use crate::statistics::max_units;
use crate::statistics::range_units;
use crate::statistics::median_units;

verus! {

/// The individuals/moving chart families.
#[derive(Debug, Clone, Copy, PartialEq, Eq, Structural)]
pub enum MovingStatsChartType {
    /// Raw values, with moving-range based limits.
    IndividualsChart,
    /// Moving averages (no formula is defined upstream; recomputation
    /// leaves the derived fields at their sentinels).
    MovingAverageChart,
    /// The moving-range series itself.
    MovingRangeChart,
}

/// The E2 factor for individuals-chart limits from the moving range, tabulated for spans two to ten,
/// as a scale-9 mantissa (zero outside the table).
pub open spec fn e2m_units(n: int) -> int {
    if n == 2 {
        2_660_000_000
    } else if n == 3 {
        1_772_000_000
    } else if n == 4 {
        1_457_000_000
    } else if n == 5 {
        1_290_000_000
    } else if n == 6 {
        1_184_000_000
    } else if n == 7 {
        1_109_000_000
    } else if n == 8 {
        1_054_000_000
    } else if n == 9 {
        1_010_000_000
    } else if n == 10 {
        975_000_000
    } else {
        0
    }
}

/// Table lookup for the factor above.
fn e2m_exec(n: usize) -> (r: i64)
    ensures
        r as int == e2m_units(n as int),
        0 <= r <= 4_000_000_000,
{
    if n == 2 {
        2_660_000_000
    } else if n == 3 {
        1_772_000_000
    } else if n == 4 {
        1_457_000_000
    } else if n == 5 {
        1_290_000_000
    } else if n == 6 {
        1_184_000_000
    } else if n == 7 {
        1_109_000_000
    } else if n == 8 {
        1_054_000_000
    } else if n == 9 {
        1_010_000_000
    } else if n == 10 {
        975_000_000
    } else {
        0
    }
}

/// The d2 factor for the moving-range sigma estimate, tabulated for spans two to ten,
/// as a scale-9 mantissa (zero outside the table).
pub open spec fn d2m_units(n: int) -> int {
    if n == 2 {
        1_128_000_000
    } else if n == 3 {
        1_693_000_000
    } else if n == 4 {
        2_059_000_000
    } else if n == 5 {
        2_326_000_000
    } else if n == 6 {
        2_534_000_000
    } else if n == 7 {
        2_704_000_000
    } else if n == 8 {
        2_847_000_000
    } else if n == 9 {
        2_970_000_000
    } else if n == 10 {
        3_078_000_000
    } else {
        0
    }
}

/// Table lookup for the factor above.
fn d2m_exec(n: usize) -> (r: i64)
    ensures
        r as int == d2m_units(n as int),
        0 <= r <= 4_000_000_000,
{
    if n == 2 {
        1_128_000_000
    } else if n == 3 {
        1_693_000_000
    } else if n == 4 {
        2_059_000_000
    } else if n == 5 {
        2_326_000_000
    } else if n == 6 {
        2_534_000_000
    } else if n == 7 {
        2_704_000_000
    } else if n == 8 {
        2_847_000_000
    } else if n == 9 {
        2_970_000_000
    } else if n == 10 {
        3_078_000_000
    } else {
        0
    }
}

/// The D3 factor for the moving-range lower limit, tabulated for spans two to ten,
/// as a scale-9 mantissa (zero outside the table).
pub open spec fn d3m_units(n: int) -> int {
    if n == 2 {
        0
    } else if n == 3 {
        0
    } else if n == 4 {
        0
    } else if n == 5 {
        0
    } else if n == 6 {
        0
    } else if n == 7 {
        76_000_000
    } else if n == 8 {
        136_000_000
    } else if n == 9 {
        184_000_000
    } else if n == 10 {
        223_000_000
    } else {
        0
    }
}

/// Table lookup for the factor above.
fn d3m_exec(n: usize) -> (r: i64)
    ensures
        r as int == d3m_units(n as int),
        0 <= r <= 4_000_000_000,
{
    if n == 2 {
        0
    } else if n == 3 {
        0
    } else if n == 4 {
        0
    } else if n == 5 {
        0
    } else if n == 6 {
        0
    } else if n == 7 {
        76_000_000
    } else if n == 8 {
        136_000_000
    } else if n == 9 {
        184_000_000
    } else if n == 10 {
        223_000_000
    } else {
        0
    }
}

/// The D4 factor for the moving-range upper limit, tabulated for spans two to ten,
/// as a scale-9 mantissa (zero outside the table).
pub open spec fn d4m_units(n: int) -> int {
    if n == 2 {
        3_267_000_000
    } else if n == 3 {
        2_574_000_000
    } else if n == 4 {
        2_282_000_000
    } else if n == 5 {
        2_114_000_000
    } else if n == 6 {
        2_004_000_000
    } else if n == 7 {
        1_924_000_000
    } else if n == 8 {
        1_864_000_000
    } else if n == 9 {
        1_816_000_000
    } else if n == 10 {
        1_777_000_000
    } else {
        0
    }
}

/// Table lookup for the factor above.
fn d4m_exec(n: usize) -> (r: i64)
    ensures
        r as int == d4m_units(n as int),
        0 <= r <= 4_000_000_000,
{
    if n == 2 {
        3_267_000_000
    } else if n == 3 {
        2_574_000_000
    } else if n == 4 {
        2_282_000_000
    } else if n == 5 {
        2_114_000_000
    } else if n == 6 {
        2_004_000_000
    } else if n == 7 {
        1_924_000_000
    } else if n == 8 {
        1_864_000_000
    } else if n == 9 {
        1_816_000_000
    } else if n == 10 {
        1_777_000_000
    } else {
        0
    }
}

/// The moving-range series: position `i` holds the range of the last
/// `span` values ending at `i`, with zero sentinels where fewer than
/// `span` values exist yet.
pub open spec fn moving_ranges(d: Seq<int>, span: int) -> Seq<int> {
    Seq::new(
        d.len(),
        |i: int|
            if i < span - 1 {
                0
            } else {
                range_units(d.subrange(i - span + 1, i + 1))
            },
    )
}

/// The defined part of the moving-range series: the sentinel positions
/// are dropped.
pub open spec fn mov_defined(d: Seq<int>, span: int) -> Seq<int> {
    let mr = moving_ranges(d, span);
    if d.len() < span - 1 {
        mr.skip(d.len() as int)
    } else {
        mr.skip(span - 1)
    }
}

/// The mathematical state of an individuals/moving chart.
#[verifier::ext_equal]
pub struct MovingStatsView {
    pub cl: int,
    pub ucl: int,
    pub lcl: int,
    pub chart_type: MovingStatsChartType,
    pub data: Seq<int>,
    pub range_data: Seq<int>,
    pub sub_group_size: int,
    pub range_span_size: int,
    pub all_data: Seq<int>,
    pub range: int,
    pub stddev: int,
    pub average: int,
    pub minimum: int,
    pub maximum: int,
    pub median: int,
    pub dirty: bool,
    pub sigma_estimate: int,
    pub max_elements: int,
    pub ucl_data: Seq<int>,
    pub lcl_data: Seq<int>,
}

/// The state after a (lazy) recompute: a clean chart is unchanged; a
/// dirty one gets its statistics, moving-range series and per-point
/// limits recomputed and its dirty flag cleared. The moving-average
/// family has no defined formula and only clears the flag.
pub open spec fn mov_refresh(v: MovingStatsView) -> MovingStatsView {
    if !v.dirty {
        v
    } else {
        let span = v.range_span_size;
        let mr = moving_ranges(v.data, span);
        let dr = mov_defined(v.data, span);
        match v.chart_type {
            MovingStatsChartType::IndividualsChart => {
                let avg = avg_units(v.data);
                let ra = avg_units(dr);
                let uclv = avg + mul_units(e2m_units(span), ra);
                let lclv = avg - mul_units(e2m_units(span), ra);
                MovingStatsView {
                    average: avg,
                    minimum: min_units(v.data),
                    maximum: max_units(v.data),
                    stddev: std_units(v.data),
                    range: range_units(v.data),
                    median: if v.data.len() > 0 {
                        median_units(v.data)
                    } else {
                        v.median
                    },
                    range_data: mr,
                    sigma_estimate: div_units(ra, d2m_units(span)),
                    ucl_data: Seq::new(mr.len(), |i: int| uclv),
                    lcl_data: Seq::new(mr.len(), |i: int| lclv),
                    dirty: false,
                    ..v
                }
            },
            MovingStatsChartType::MovingAverageChart => MovingStatsView { dirty: false, ..v },
            MovingStatsChartType::MovingRangeChart => {
                let avg = avg_units(dr);
                let uclv = mul_units(d4m_units(span), avg);
                let lclv = mul_units(d3m_units(span), avg);
                MovingStatsView {
                    average: avg,
                    minimum: min_units(dr),
                    maximum: max_units(dr),
                    stddev: std_units(dr),
                    range: range_units(dr),
                    median: if dr.len() > 0 {
                        median_units(dr)
                    } else {
                        v.median
                    },
                    range_data: mr,
                    sigma_estimate: div_units(avg, d2m_units(span)),
                    ucl_data: Seq::new(mr.len(), |i: int| uclv),
                    lcl_data: Seq::new(mr.len(), |i: int| lclv),
                    dirty: false,
                    ..v
                }
            },
        }
    }
}

/// The chart invariant: bounded history inside the capacity, table-backed
/// span and subgroup size, and, when clean, derived fields that reflect
/// the history.
pub open spec fn mov_inv(v: MovingStatsView) -> bool {
    &&& v.data.len() <= v.max_elements
    &&& 1 <= v.max_elements <= 100_000
    &&& all_bounded(v.data, crate::dec::DEC_MAX_UNITS as int)
    &&& 2 <= v.sub_group_size <= 10
    &&& 2 <= v.range_span_size <= 10
    &&& (!v.dirty ==> v == mov_refresh(MovingStatsView { dirty: true, ..v }))
}

/// The state after appending one value: the oldest value is evicted when
/// the capacity is exceeded, and the chart becomes dirty.
pub open spec fn mov_after_add(v: MovingStatsView, x: int) -> MovingStatsView {
    let d1 = v.data.push(x);
    MovingStatsView {
        data: if d1.len() > v.max_elements {
            d1.skip(1)
        } else {
            d1
        },
        dirty: true,
        ..v
    }
}

/// An individuals or moving-range chart with bounded history and lazily
/// recomputed statistics and limits.
pub struct MovingStats {
    cl: Dec,
    ucl: Dec,
    lcl: Dec,
    /// The configured chart family.
    pub chart_type: MovingStatsChartType,
    data: Vec<Dec>,
    range_data: Vec<Dec>,
    sub_group_size: usize,
    range_span_size: usize,
    all_data: Vec<Dec>,
    range: Dec,
    stddev: Dec,
    average: Dec,
    minimum: Dec,
    maximum: Dec,
    median: Dec,
    dirty: bool,
    sigma_estimate: Dec,
    max_elements: usize,
    ucl_data: Vec<Dec>,
    lcl_data: Vec<Dec>,
}

impl View for MovingStats {
    type V = MovingStatsView;

    closed spec fn view(&self) -> MovingStatsView {
        MovingStatsView {
            cl: self.cl@,
            ucl: self.ucl@,
            lcl: self.lcl@,
            chart_type: self.chart_type,
            data: units_of(self.data@),
            range_data: units_of(self.range_data@),
            sub_group_size: self.sub_group_size as int,
            range_span_size: self.range_span_size as int,
            all_data: units_of(self.all_data@),
            range: self.range@,
            stddev: self.stddev@,
            average: self.average@,
            minimum: self.minimum@,
            maximum: self.maximum@,
            median: self.median@,
            dirty: self.dirty,
            sigma_estimate: self.sigma_estimate@,
            max_elements: self.max_elements as int,
            ucl_data: units_of(self.ucl_data@),
            lcl_data: units_of(self.lcl_data@),
        }
    }
}

/// Fills a vector with `n` copies of one value.
fn fill_const(n: usize, v: Dec) -> (r: Vec<Dec>)
    ensures
        units_of(r@) == Seq::new(n as nat, |i: int| v@),
{
    let mut out: Vec<Dec> = Vec::new();
    let mut i: usize = 0;
    while i < n
        invariant
            0 <= i <= n,
            out@.len() == i,
            forall|t: int| 0 <= t < i ==> #[trigger] out@[t] == v,
        decreases n - i,
    {
        out.push(v);
        i = i + 1;
    }
    proof {
        assert(units_of(out@) =~= Seq::new(n as nat, |i: int| v@));
    }
    out
}

/// Computes the moving-range series and its defined part.
fn moving_ranges_exec(data: &Vec<Dec>, span: usize) -> (r: (Vec<Dec>, Vec<Dec>))
    requires
        2 <= span <= 10,
        data@.len() <= 100_000,
        all_bounded(units_of(data@), crate::dec::DEC_MAX_UNITS as int),
    ensures
        units_of(r.0@) == moving_ranges(units_of(data@), span as int),
        units_of(r.1@) == mov_defined(units_of(data@), span as int),
        all_bounded(units_of(r.1@), 2_000_000_000_000_000),
        r.1@.len() <= data@.len(),
{
    let ghost d = units_of(data@);
    let mut mr: Vec<Dec> = Vec::new();
    let mut df: Vec<Dec> = Vec::new();
    let mut i: usize = 0;
    while i < data.len()
        invariant
            d == units_of(data@),
            2 <= span <= 10,
            data@.len() <= 100_000,
            all_bounded(d, crate::dec::DEC_MAX_UNITS as int),
            0 <= i <= data@.len(),
            mr@.len() == i,
            forall|t: int|
                0 <= t < i ==> (#[trigger] mr@[t])@ == moving_ranges(d, span as int)[t],
            df@.len() == if i < span - 1 {
                0int
            } else {
                i - span + 1
            },
            forall|t: int| 0 <= t < df@.len() ==> #[trigger] df@[t] == mr@[t + span - 1],
            forall|t: int|
                0 <= t < df@.len() ==> abs_i((#[trigger] df@[t])@) <= 2_000_000_000_000_000,
        decreases data@.len() - i,
    {
        if i + 1 < span {
            mr.push(Dec::zero());
        } else {
            let mut w: Vec<Dec> = Vec::new();
            let start = i + 1 - span;
            let mut j: usize = start;
            while j <= i
                invariant
                    d == units_of(data@),
                    start == i + 1 - span,
                    i < data@.len(),
                    data@.len() <= 100_000,
                    start <= j <= i + 1,
                    w@.len() == j - start,
                    forall|t: int| 0 <= t < w@.len() ==> #[trigger] w@[t] == data@[start + t],
                decreases i + 1 - j,
            {
                let x = data[j];
                w.push(x);
                j = j + 1;
            }
            proof {
                assert(units_of(w@) =~= d.subrange(start as int, i + 1));
                assert(all_bounded(units_of(w@), crate::dec::DEC_MAX_UNITS as int));
                crate::statistics::lemma_min_max_in_bounds(
                    units_of(w@),
                    crate::dec::DEC_MAX_UNITS as int,
                );
            }
            let rg = crate::statistics::range(&w);
            mr.push(rg);
            df.push(rg);
        }
        i = i + 1;
    }
    proof {
        assert(units_of(mr@) =~= moving_ranges(d, span as int));
        assert forall|t: int| 0 <= t < units_of(df@).len() implies units_of(df@)[t] == mov_defined(
            d,
            span as int,
        )[t] by {
            assert(df@[t] == mr@[t + span - 1]);
        }
        assert(units_of(df@) =~= mov_defined(d, span as int));
    }
    (mr, df)
}

impl MovingStats {
    /// Creates an empty chart. Both the subgroup size and the range span
    /// (two when omitted) must lie in the tabulated range two to ten.
    pub fn new(
        sub_group_size: usize,
        chart_type: MovingStatsChartType,
        range_span_size: Option<usize>,
    ) -> (r: Result<MovingStats, SpcError>)
        ensures
            r is Ok <==> (2 <= sub_group_size <= 10 && (range_span_size is Some ==> 2
                <= range_span_size->0 <= 10)),
            r is Ok ==> {
                let v = r->Ok_0@;
                &&& mov_inv(v)
                &&& v.chart_type == chart_type
                &&& v.sub_group_size == sub_group_size as int
                &&& v.range_span_size == if range_span_size is Some {
                    range_span_size->0 as int
                } else {
                    2
                }
                &&& v.data.len() == 0
                &&& v.max_elements == 100
                &&& !v.dirty
                &&& v.cl == 0 && v.ucl == 0 && v.lcl == 0
                &&& v.average == 0 && v.minimum == 0 && v.maximum == 0
                &&& v.median == 0 && v.range == 0 && v.stddev == 0
                &&& v.sigma_estimate == 0
                &&& v.range_data.len() == 0 && v.ucl_data.len() == 0 && v.lcl_data.len() == 0
                &&& v.all_data.len() == 0
            },
    {
        if sub_group_size < 2 || sub_group_size > 10 {
            return Err(SpcError::ConfigurationError);
        }
        let span = match range_span_size {
            Some(s) => s,
            None => 2,
        };
        if span < 2 || span > 10 {
            return Err(SpcError::ConfigurationError);
        }
        let r = MovingStats {
            cl: Dec::zero(),
            ucl: Dec::zero(),
            lcl: Dec::zero(),
            chart_type,
            data: Vec::new(),
            range_data: Vec::new(),
            sub_group_size,
            range_span_size: span,
            all_data: Vec::new(),
            range: Dec::zero(),
            stddev: Dec::zero(),
            average: Dec::zero(),
            minimum: Dec::zero(),
            maximum: Dec::zero(),
            median: Dec::zero(),
            dirty: false,
            sigma_estimate: Dec::zero(),
            max_elements: 100,
            ucl_data: Vec::new(),
            lcl_data: Vec::new(),
        };
        proof {
            crate::dec::lemma_sqrt_floor_eq(0, 0);
            crate::dec::lemma_tdiv_zero(crate::dec::DEC_UNIT as int);
            crate::dec::lemma_tdiv_zero(d2m_units(span as int));
            assert(moving_ranges(r@.data, r@.range_span_size) =~= Seq::<int>::empty());
            assert(r@ =~~= mov_refresh(MovingStatsView { dirty: true, ..r@ }));
        }
        Ok(r)
    }

    /// Appends one value, evicting the oldest past the capacity; the
    /// chart becomes dirty. Appending never fails.
    pub fn add_data(&mut self, value: Dec)
        requires
            mov_inv(old(self)@),
            value.wf(),
        ensures
            mov_inv(final(self)@),
            final(self)@ == mov_after_add(old(self)@, value@),
    {
        let ghost v0 = self@;
        let ghost dpre = self.data@;
        self.data.push(value);
        if self.data.len() > self.max_elements {
            let ghost dcur = self.data@;
            self.data.remove(0);
            proof {
                dcur.remove_ensures(0);
                assert(units_of(self.data@) =~= v0.data.push(value@).skip(1));
            }
        } else {
            proof {
                assert(units_of(self.data@) =~= v0.data.push(value@));
            }
        }
        self.dirty = true;
        proof {
            assert(self@ =~~= mov_after_add(v0, value@));
        }
    }

    /// Recomputes the statistics, the moving-range series and the
    /// per-point limits when the chart is dirty; a clean chart is left
    /// untouched.
    pub fn update(&mut self)
        requires
            mov_inv(old(self)@),
        ensures
            mov_inv(final(self)@),
            final(self)@ == mov_refresh(old(self)@),
    {
        let ghost v0 = self@;
        if !self.dirty {
            return ;
        }
        let span = self.range_span_size;
        match self.chart_type {
            MovingStatsChartType::MovingAverageChart => {
                self.dirty = false;
                proof {
                    assert(self@ =~~= mov_refresh(v0));
                    assert(self@ =~~= mov_refresh(MovingStatsView { dirty: true, ..self@ }));
                }
            },
            MovingStatsChartType::IndividualsChart => {
                let avg = crate::statistics::average(&self.data);
                let mn = crate::statistics::min(&self.data);
                let mx = crate::statistics::max(&self.data);
                let sd = crate::statistics::std_dev(&self.data);
                let rg = crate::statistics::range(&self.data);
                let med = if self.data.len() > 0 {
                    crate::statistics::median(&self.data)
                } else {
                    self.median
                };
                let pair = moving_ranges_exec(&self.data, span);
                let ra = crate::statistics::average(&pair.1);
                proof {
                    crate::dec::lemma_abs_mul_bound(
                        e2m_units(span as int),
                        ra@,
                        4_000_000_000,
                        crate::statistics::STAT_MAX_UNITS as int,
                    );
                }
                let m = dec_mul(Dec::from_units(e2m_exec(span)), ra).units();
                let uclv = Dec::from_units(avg.units() + m);
                let lclv = Dec::from_units(avg.units() - m);
                let nmr = pair.0.len();
                self.average = avg;
                self.minimum = mn;
                self.maximum = mx;
                self.stddev = sd;
                self.range = rg;
                self.median = med;
                self.sigma_estimate = dec_div(ra, Dec::from_units(d2m_exec(span)));
                self.range_data = pair.0;
                self.ucl_data = fill_const(nmr, uclv);
                self.lcl_data = fill_const(nmr, lclv);
                self.dirty = false;
                proof {
                    assert(self@ =~~= mov_refresh(v0));
                    assert(self@ =~~= mov_refresh(MovingStatsView { dirty: true, ..self@ }));
                }
            },
            MovingStatsChartType::MovingRangeChart => {
                let pair = moving_ranges_exec(&self.data, span);
                let avg = crate::statistics::average(&pair.1);
                let mn = crate::statistics::min(&pair.1);
                let mx = crate::statistics::max(&pair.1);
                let sd = crate::statistics::std_dev(&pair.1);
                let rg = crate::statistics::range(&pair.1);
                let med = if pair.1.len() > 0 {
                    crate::statistics::median(&pair.1)
                } else {
                    self.median
                };
                proof {
                    crate::dec::lemma_abs_mul_bound(
                        d4m_units(span as int),
                        avg@,
                        4_000_000_000,
                        crate::statistics::STAT_MAX_UNITS as int,
                    );
                    crate::dec::lemma_abs_mul_bound(
                        d3m_units(span as int),
                        avg@,
                        4_000_000_000,
                        crate::statistics::STAT_MAX_UNITS as int,
                    );
                }
                let uclv = dec_mul(Dec::from_units(d4m_exec(span)), avg);
                let lclv = dec_mul(Dec::from_units(d3m_exec(span)), avg);
                let nmr = pair.0.len();
                self.average = avg;
                self.minimum = mn;
                self.maximum = mx;
                self.stddev = sd;
                self.range = rg;
                self.median = med;
                self.sigma_estimate = dec_div(avg, Dec::from_units(d2m_exec(span)));
                self.range_data = pair.0;
                self.ucl_data = fill_const(nmr, uclv);
                self.lcl_data = fill_const(nmr, lclv);
                self.dirty = false;
                proof {
                    assert(self@ =~~= mov_refresh(v0));
                    assert(self@ =~~= mov_refresh(MovingStatsView { dirty: true, ..self@ }));
                }
            },
        }
    }

    /// The retained values, oldest first.
    pub fn data(&self) -> (r: &Vec<Dec>)
        ensures
            units_of(r@) == self@.data,
    {
        &self.data
    }

    /// The moving-range series, recomputing first if needed.
    pub fn range_data(&mut self) -> (r: &Vec<Dec>)
        requires
            mov_inv(old(self)@),
        ensures
            mov_inv(final(self)@),
            final(self)@ == mov_refresh(old(self)@),
            units_of(r@) == final(self)@.range_data,
    {
        self.update();
        &self.range_data
    }

    /// The per-point upper limits, recomputing first if needed.
    pub fn ucl_data(&mut self) -> (r: &Vec<Dec>)
        requires
            mov_inv(old(self)@),
        ensures
            mov_inv(final(self)@),
            final(self)@ == mov_refresh(old(self)@),
            units_of(r@) == final(self)@.ucl_data,
    {
        self.update();
        &self.ucl_data
    }

    /// The per-point lower limits, recomputing first if needed.
    pub fn lcl_data(&mut self) -> (r: &Vec<Dec>)
        requires
            mov_inv(old(self)@),
        ensures
            mov_inv(final(self)@),
            final(self)@ == mov_refresh(old(self)@),
            units_of(r@) == final(self)@.lcl_data,
    {
        self.update();
        &self.lcl_data
    }

    /// The mean of the plotted series, recomputing first if needed.
    pub fn average(&mut self) -> (r: Dec)
        requires
            mov_inv(old(self)@),
        ensures
            mov_inv(final(self)@),
            final(self)@ == mov_refresh(old(self)@),
            r@ == final(self)@.average,
    {
        self.update();
        self.average
    }

    /// The smallest plotted value, recomputing first if needed.
    pub fn minimum(&mut self) -> (r: Dec)
        requires
            mov_inv(old(self)@),
        ensures
            mov_inv(final(self)@),
            final(self)@ == mov_refresh(old(self)@),
            r@ == final(self)@.minimum,
    {
        self.update();
        self.minimum
    }

    /// The largest plotted value, recomputing first if needed.
    pub fn maximum(&mut self) -> (r: Dec)
        requires
            mov_inv(old(self)@),
        ensures
            mov_inv(final(self)@),
            final(self)@ == mov_refresh(old(self)@),
            r@ == final(self)@.maximum,
    {
        self.update();
        self.maximum
    }

    /// The median of the plotted series, recomputing first if needed.
    pub fn median(&mut self) -> (r: Dec)
        requires
            mov_inv(old(self)@),
        ensures
            mov_inv(final(self)@),
            final(self)@ == mov_refresh(old(self)@),
            r@ == final(self)@.median,
    {
        self.update();
        self.median
    }

    /// The range of the plotted series, recomputing first if needed.
    pub fn range(&mut self) -> (r: Dec)
        requires
            mov_inv(old(self)@),
        ensures
            mov_inv(final(self)@),
            final(self)@ == mov_refresh(old(self)@),
            r@ == final(self)@.range,
    {
        self.update();
        self.range
    }

    /// The standard deviation of the plotted series, recomputing first if
    /// needed.
    pub fn stddev(&mut self) -> (r: Dec)
        requires
            mov_inv(old(self)@),
        ensures
            mov_inv(final(self)@),
            final(self)@ == mov_refresh(old(self)@),
            r@ == final(self)@.stddev,
    {
        self.update();
        self.stddev
    }

    /// The table-based sigma estimate, recomputing first if needed.
    pub fn sigma_estimate(&mut self) -> (r: Dec)
        requires
            mov_inv(old(self)@),
        ensures
            mov_inv(final(self)@),
            final(self)@ == mov_refresh(old(self)@),
            r@ == final(self)@.sigma_estimate,
    {
        self.update();
        self.sigma_estimate
    }

    /// The configured moving-range span.
    pub fn range_span_size(&self) -> (r: usize)
        ensures
            r as int == self@.range_span_size,
    {
        self.range_span_size
    }

    /// The configured history capacity.
    pub fn max_elements(&self) -> (r: usize)
        ensures
            r as int == self@.max_elements,
    {
        self.max_elements
    }

    /// Whether a mutation has happened since the last recompute.
    pub fn dirty(&self) -> (r: bool)
        ensures
            r == self@.dirty,
    {
        self.dirty
    }
}


/// Recomputation is idempotent: refreshing an already refreshed chart
/// changes nothing, so reading a derived value twice without an
/// intervening mutation returns identical results.
pub proof fn lemma_mov_refresh_idempotent(v: MovingStatsView)
    ensures
        mov_refresh(mov_refresh(v)) == mov_refresh(v),
{
    assert(mov_refresh(mov_refresh(v)) =~= mov_refresh(v));
}

/// Appending a value to a chart within its capacity keeps the history
/// within the capacity, evicting exactly the oldest value when full.
pub proof fn lemma_mov_add_bounded(v: MovingStatsView, x: int)
    requires
        v.data.len() <= v.max_elements,
    ensures
        mov_after_add(v, x).data.len() <= v.max_elements,
        mov_after_add(v, x).data.len() == if v.data.len() < v.max_elements {
            v.data.len() + 1
        } else {
            v.max_elements as nat
        },
{
}

} // verus!
