//! Subgroup control charts (R / X̄-R / S / X̄-S) over fixed-size subgroups
//! of measurements, with bounded FIFO history, per-subgroup derived
//! statistics, table-driven control limits and run-rule evaluation.

use vstd::prelude::*;
use crate::RoundingContext;
use crate::SpcError;
use crate::SpcRule;
use crate::SpcRuleValidationResult;
use crate::dec::Dec;
use crate::dec::abs_i;
use crate::dec::div_units;
use crate::dec::dec_div;
use crate::dec::dec_mul;
use crate::dec::mul_units;
use crate::dec::round_units;
use crate::dec::tdiv;
use crate::dec::tdiv_exec;
use crate::statistics::units_of;
use crate::statistics::all_bounded;
use crate::statistics::avg_units;
use crate::statistics::std_units;
use crate::statistics::min_units;
use crate::statistics::max_units;
use crate::statistics::range_units;
use crate::statistics::copy_series;
use crate::rules::result_ok;

verus! {

/// The subgroup chart families.
#[derive(Debug, Clone, Copy, PartialEq, Eq, Structural)]
pub enum GroupStatsChartType {
    /// Subgroup ranges.
    RChart,
    /// Subgroup means with range-based limits.
    XbarRChart,
    /// Subgroup standard deviations.
    SChart,
    /// Subgroup means with standard-deviation-based limits.
    XbarSChart,
}

/// Largest retained-subgroup capacity a group chart accepts (keeps the
/// flattened buffer within the statistics domain).
pub const GRP_CAP_MAX: usize = 4_000;

/// Bound on the per-subgroup derived statistics (spread of well-formed
/// data, widened by one rounding unit).
pub const GRP_DERIV_MAX: i64 = 4_000_000_000_000_000;

/// The A2 factor for X-bar limits from the range, tabulated for subgroup sizes two to
/// twenty-five, as a scale-9 mantissa (zero outside the table).
pub open spec fn a2_units(n: int) -> int {
    if n == 2 {
        1_880_000_000
    } else if n == 3 {
        1_023_000_000
    } else if n == 4 {
        729_000_000
    } else if n == 5 {
        577_000_000
    } else if n == 6 {
        483_000_000
    } else if n == 7 {
        419_000_000
    } else if n == 8 {
        373_000_000
    } else if n == 9 {
        337_000_000
    } else if n == 10 {
        308_000_000
    } else if n == 11 {
        285_000_000
    } else if n == 12 {
        266_000_000
    } else if n == 13 {
        249_000_000
    } else if n == 14 {
        235_000_000
    } else if n == 15 {
        223_000_000
    } else if n == 16 {
        212_000_000
    } else if n == 17 {
        203_000_000
    } else if n == 18 {
        194_000_000
    } else if n == 19 {
        187_000_000
    } else if n == 20 {
        180_000_000
    } else if n == 21 {
        173_000_000
    } else if n == 22 {
        167_000_000
    } else if n == 23 {
        162_000_000
    } else if n == 24 {
        157_000_000
    } else if n == 25 {
        153_000_000
    } else {
        0
    }
}

/// Table lookup for the A2 factor factor.
fn a2_exec(n: usize) -> (r: i64)
    ensures
        r as int == a2_units(n as int),
        0 <= r <= 4_000_000_000,
{
    if n == 2 {
        1_880_000_000
    } else if n == 3 {
        1_023_000_000
    } else if n == 4 {
        729_000_000
    } else if n == 5 {
        577_000_000
    } else if n == 6 {
        483_000_000
    } else if n == 7 {
        419_000_000
    } else if n == 8 {
        373_000_000
    } else if n == 9 {
        337_000_000
    } else if n == 10 {
        308_000_000
    } else if n == 11 {
        285_000_000
    } else if n == 12 {
        266_000_000
    } else if n == 13 {
        249_000_000
    } else if n == 14 {
        235_000_000
    } else if n == 15 {
        223_000_000
    } else if n == 16 {
        212_000_000
    } else if n == 17 {
        203_000_000
    } else if n == 18 {
        194_000_000
    } else if n == 19 {
        187_000_000
    } else if n == 20 {
        180_000_000
    } else if n == 21 {
        173_000_000
    } else if n == 22 {
        167_000_000
    } else if n == 23 {
        162_000_000
    } else if n == 24 {
        157_000_000
    } else if n == 25 {
        153_000_000
    } else {
        0
    }
}

/// The d2 factor: expected range over sigma, tabulated for subgroup sizes two to
/// twenty-five, as a scale-9 mantissa (zero outside the table).
pub open spec fn d2_units(n: int) -> int {
    if n == 2 {
        1_128_000_000
    } else if n == 3 {
        1_693_000_000
    } else if n == 4 {
        2_059_000_000
    } else if n == 5 {
        2_326_000_000
    } else if n == 6 {
        2_534_000_000
    } else if n == 7 {
        2_704_000_000
    } else if n == 8 {
        2_847_000_000
    } else if n == 9 {
        2_970_000_000
    } else if n == 10 {
        3_078_000_000
    } else if n == 11 {
        3_173_000_000
    } else if n == 12 {
        3_258_000_000
    } else if n == 13 {
        3_336_000_000
    } else if n == 14 {
        3_407_000_000
    } else if n == 15 {
        3_472_000_000
    } else if n == 16 {
        3_532_000_000
    } else if n == 17 {
        3_588_000_000
    } else if n == 18 {
        3_640_000_000
    } else if n == 19 {
        3_689_000_000
    } else if n == 20 {
        3_735_000_000
    } else if n == 21 {
        3_778_000_000
    } else if n == 22 {
        3_819_000_000
    } else if n == 23 {
        3_858_000_000
    } else if n == 24 {
        3_895_000_000
    } else if n == 25 {
        3_931_000_000
    } else {
        0
    }
}

/// Table lookup for the d2 factor factor.
fn d2_exec(n: usize) -> (r: i64)
    ensures
        r as int == d2_units(n as int),
        0 <= r <= 4_000_000_000,
{
    if n == 2 {
        1_128_000_000
    } else if n == 3 {
        1_693_000_000
    } else if n == 4 {
        2_059_000_000
    } else if n == 5 {
        2_326_000_000
    } else if n == 6 {
        2_534_000_000
    } else if n == 7 {
        2_704_000_000
    } else if n == 8 {
        2_847_000_000
    } else if n == 9 {
        2_970_000_000
    } else if n == 10 {
        3_078_000_000
    } else if n == 11 {
        3_173_000_000
    } else if n == 12 {
        3_258_000_000
    } else if n == 13 {
        3_336_000_000
    } else if n == 14 {
        3_407_000_000
    } else if n == 15 {
        3_472_000_000
    } else if n == 16 {
        3_532_000_000
    } else if n == 17 {
        3_588_000_000
    } else if n == 18 {
        3_640_000_000
    } else if n == 19 {
        3_689_000_000
    } else if n == 20 {
        3_735_000_000
    } else if n == 21 {
        3_778_000_000
    } else if n == 22 {
        3_819_000_000
    } else if n == 23 {
        3_858_000_000
    } else if n == 24 {
        3_895_000_000
    } else if n == 25 {
        3_931_000_000
    } else {
        0
    }
}

/// The D3 factor for the R-chart lower limit, tabulated for subgroup sizes two to
/// twenty-five, as a scale-9 mantissa (zero outside the table).
pub open spec fn d3_units(n: int) -> int {
    if n == 2 {
        0
    } else if n == 3 {
        0
    } else if n == 4 {
        0
    } else if n == 5 {
        0
    } else if n == 6 {
        0
    } else if n == 7 {
        76_000_000
    } else if n == 8 {
        136_000_000
    } else if n == 9 {
        184_000_000
    } else if n == 10 {
        223_000_000
    } else if n == 11 {
        256_000_000
    } else if n == 12 {
        283_000_000
    } else if n == 13 {
        307_000_000
    } else if n == 14 {
        328_000_000
    } else if n == 15 {
        347_000_000
    } else if n == 16 {
        363_000_000
    } else if n == 17 {
        378_000_000
    } else if n == 18 {
        391_000_000
    } else if n == 19 {
        403_000_000
    } else if n == 20 {
        415_000_000
    } else if n == 21 {
        425_000_000
    } else if n == 22 {
        434_000_000
    } else if n == 23 {
        443_000_000
    } else if n == 24 {
        451_000_000
    } else if n == 25 {
        459_000_000
    } else {
        0
    }
}

/// Table lookup for the D3 factor factor.
fn d3_exec(n: usize) -> (r: i64)
    ensures
        r as int == d3_units(n as int),
        0 <= r <= 4_000_000_000,
{
    if n == 2 {
        0
    } else if n == 3 {
        0
    } else if n == 4 {
        0
    } else if n == 5 {
        0
    } else if n == 6 {
        0
    } else if n == 7 {
        76_000_000
    } else if n == 8 {
        136_000_000
    } else if n == 9 {
        184_000_000
    } else if n == 10 {
        223_000_000
    } else if n == 11 {
        256_000_000
    } else if n == 12 {
        283_000_000
    } else if n == 13 {
        307_000_000
    } else if n == 14 {
        328_000_000
    } else if n == 15 {
        347_000_000
    } else if n == 16 {
        363_000_000
    } else if n == 17 {
        378_000_000
    } else if n == 18 {
        391_000_000
    } else if n == 19 {
        403_000_000
    } else if n == 20 {
        415_000_000
    } else if n == 21 {
        425_000_000
    } else if n == 22 {
        434_000_000
    } else if n == 23 {
        443_000_000
    } else if n == 24 {
        451_000_000
    } else if n == 25 {
        459_000_000
    } else {
        0
    }
}

/// The D4 factor for the R-chart upper limit, tabulated for subgroup sizes two to
/// twenty-five, as a scale-9 mantissa (zero outside the table).
pub open spec fn d4_units(n: int) -> int {
    if n == 2 {
        3_267_000_000
    } else if n == 3 {
        2_571_000_000
    } else if n == 4 {
        2_282_000_000
    } else if n == 5 {
        2_114_000_000
    } else if n == 6 {
        2_004_000_000
    } else if n == 7 {
        1_924_000_000
    } else if n == 8 {
        1_864_000_000
    } else if n == 9 {
        1_816_000_000
    } else if n == 10 {
        1_777_000_000
    } else if n == 11 {
        1_744_000_000
    } else if n == 12 {
        1_717_000_000
    } else if n == 13 {
        1_693_000_000
    } else if n == 14 {
        1_672_000_000
    } else if n == 15 {
        1_653_000_000
    } else if n == 16 {
        1_637_000_000
    } else if n == 17 {
        1_622_000_000
    } else if n == 18 {
        1_608_000_000
    } else if n == 19 {
        1_597_000_000
    } else if n == 20 {
        1_585_000_000
    } else if n == 21 {
        1_575_000_000
    } else if n == 22 {
        1_566_000_000
    } else if n == 23 {
        1_557_000_000
    } else if n == 24 {
        1_548_000_000
    } else if n == 25 {
        1_541_000_000
    } else {
        0
    }
}

/// Table lookup for the D4 factor factor.
fn d4_exec(n: usize) -> (r: i64)
    ensures
        r as int == d4_units(n as int),
        0 <= r <= 4_000_000_000,
{
    if n == 2 {
        3_267_000_000
    } else if n == 3 {
        2_571_000_000
    } else if n == 4 {
        2_282_000_000
    } else if n == 5 {
        2_114_000_000
    } else if n == 6 {
        2_004_000_000
    } else if n == 7 {
        1_924_000_000
    } else if n == 8 {
        1_864_000_000
    } else if n == 9 {
        1_816_000_000
    } else if n == 10 {
        1_777_000_000
    } else if n == 11 {
        1_744_000_000
    } else if n == 12 {
        1_717_000_000
    } else if n == 13 {
        1_693_000_000
    } else if n == 14 {
        1_672_000_000
    } else if n == 15 {
        1_653_000_000
    } else if n == 16 {
        1_637_000_000
    } else if n == 17 {
        1_622_000_000
    } else if n == 18 {
        1_608_000_000
    } else if n == 19 {
        1_597_000_000
    } else if n == 20 {
        1_585_000_000
    } else if n == 21 {
        1_575_000_000
    } else if n == 22 {
        1_566_000_000
    } else if n == 23 {
        1_557_000_000
    } else if n == 24 {
        1_548_000_000
    } else if n == 25 {
        1_541_000_000
    } else {
        0
    }
}

/// The A3 factor for X-bar limits from the standard deviation, tabulated for subgroup sizes two to
/// twenty-five, as a scale-9 mantissa (zero outside the table).
pub open spec fn a3_units(n: int) -> int {
    if n == 2 {
        2_659_000_000
    } else if n == 3 {
        1_954_000_000
    } else if n == 4 {
        1_628_000_000
    } else if n == 5 {
        1_427_000_000
    } else if n == 6 {
        1_287_000_000
    } else if n == 7 {
        1_182_000_000
    } else if n == 8 {
        1_099_000_000
    } else if n == 9 {
        1_032_000_000
    } else if n == 10 {
        975_000_000
    } else if n == 11 {
        927_000_000
    } else if n == 12 {
        886_000_000
    } else if n == 13 {
        850_000_000
    } else if n == 14 {
        817_000_000
    } else if n == 15 {
        789_000_000
    } else if n == 16 {
        763_000_000
    } else if n == 17 {
        739_000_000
    } else if n == 18 {
        718_000_000
    } else if n == 19 {
        698_000_000
    } else if n == 20 {
        680_000_000
    } else if n == 21 {
        663_000_000
    } else if n == 22 {
        647_000_000
    } else if n == 23 {
        633_000_000
    } else if n == 24 {
        619_000_000
    } else if n == 25 {
        606_000_000
    } else {
        0
    }
}

/// Table lookup for the A3 factor factor.
fn a3_exec(n: usize) -> (r: i64)
    ensures
        r as int == a3_units(n as int),
        0 <= r <= 4_000_000_000,
{
    if n == 2 {
        2_659_000_000
    } else if n == 3 {
        1_954_000_000
    } else if n == 4 {
        1_628_000_000
    } else if n == 5 {
        1_427_000_000
    } else if n == 6 {
        1_287_000_000
    } else if n == 7 {
        1_182_000_000
    } else if n == 8 {
        1_099_000_000
    } else if n == 9 {
        1_032_000_000
    } else if n == 10 {
        975_000_000
    } else if n == 11 {
        927_000_000
    } else if n == 12 {
        886_000_000
    } else if n == 13 {
        850_000_000
    } else if n == 14 {
        817_000_000
    } else if n == 15 {
        789_000_000
    } else if n == 16 {
        763_000_000
    } else if n == 17 {
        739_000_000
    } else if n == 18 {
        718_000_000
    } else if n == 19 {
        698_000_000
    } else if n == 20 {
        680_000_000
    } else if n == 21 {
        663_000_000
    } else if n == 22 {
        647_000_000
    } else if n == 23 {
        633_000_000
    } else if n == 24 {
        619_000_000
    } else if n == 25 {
        606_000_000
    } else {
        0
    }
}

/// The c4 factor: expected standard deviation over sigma, tabulated for subgroup sizes two to
/// twenty-five, as a scale-9 mantissa (zero outside the table).
pub open spec fn c4_units(n: int) -> int {
    if n == 2 {
        797_900_000
    } else if n == 3 {
        886_200_000
    } else if n == 4 {
        921_300_000
    } else if n == 5 {
        940_000_000
    } else if n == 6 {
        951_500_000
    } else if n == 7 {
        959_400_000
    } else if n == 8 {
        965_000_000
    } else if n == 9 {
        969_300_000
    } else if n == 10 {
        972_700_000
    } else if n == 11 {
        975_400_000
    } else if n == 12 {
        977_600_000
    } else if n == 13 {
        979_400_000
    } else if n == 14 {
        981_000_000
    } else if n == 15 {
        982_300_000
    } else if n == 16 {
        983_500_000
    } else if n == 17 {
        984_500_000
    } else if n == 18 {
        985_400_000
    } else if n == 19 {
        986_200_000
    } else if n == 20 {
        986_900_000
    } else if n == 21 {
        987_600_000
    } else if n == 22 {
        988_200_000
    } else if n == 23 {
        988_700_000
    } else if n == 24 {
        989_200_000
    } else if n == 25 {
        989_600_000
    } else {
        0
    }
}

/// Table lookup for the c4 factor factor.
fn c4_exec(n: usize) -> (r: i64)
    ensures
        r as int == c4_units(n as int),
        0 <= r <= 4_000_000_000,
{
    if n == 2 {
        797_900_000
    } else if n == 3 {
        886_200_000
    } else if n == 4 {
        921_300_000
    } else if n == 5 {
        940_000_000
    } else if n == 6 {
        951_500_000
    } else if n == 7 {
        959_400_000
    } else if n == 8 {
        965_000_000
    } else if n == 9 {
        969_300_000
    } else if n == 10 {
        972_700_000
    } else if n == 11 {
        975_400_000
    } else if n == 12 {
        977_600_000
    } else if n == 13 {
        979_400_000
    } else if n == 14 {
        981_000_000
    } else if n == 15 {
        982_300_000
    } else if n == 16 {
        983_500_000
    } else if n == 17 {
        984_500_000
    } else if n == 18 {
        985_400_000
    } else if n == 19 {
        986_200_000
    } else if n == 20 {
        986_900_000
    } else if n == 21 {
        987_600_000
    } else if n == 22 {
        988_200_000
    } else if n == 23 {
        988_700_000
    } else if n == 24 {
        989_200_000
    } else if n == 25 {
        989_600_000
    } else {
        0
    }
}

/// The B3 factor for the S-chart lower limit, tabulated for subgroup sizes two to
/// twenty-five, as a scale-9 mantissa (zero outside the table).
pub open spec fn b3_units(n: int) -> int {
    if n == 2 {
        0
    } else if n == 3 {
        0
    } else if n == 4 {
        0
    } else if n == 5 {
        0
    } else if n == 6 {
        30_000_000
    } else if n == 7 {
        118_000_000
    } else if n == 8 {
        185_000_000
    } else if n == 9 {
        239_000_000
    } else if n == 10 {
        284_000_000
    } else if n == 11 {
        321_000_000
    } else if n == 12 {
        354_000_000
    } else if n == 13 {
        382_000_000
    } else if n == 14 {
        406_000_000
    } else if n == 15 {
        428_000_000
    } else if n == 16 {
        448_000_000
    } else if n == 17 {
        446_000_000
    } else if n == 18 {
        482_000_000
    } else if n == 19 {
        497_000_000
    } else if n == 20 {
        510_000_000
    } else if n == 21 {
        523_000_000
    } else if n == 22 {
        534_000_000
    } else if n == 23 {
        545_000_000
    } else if n == 24 {
        555_000_000
    } else if n == 25 {
        565_000_000
    } else {
        0
    }
}

/// Table lookup for the B3 factor factor.
fn b3_exec(n: usize) -> (r: i64)
    ensures
        r as int == b3_units(n as int),
        0 <= r <= 4_000_000_000,
{
    if n == 2 {
        0
    } else if n == 3 {
        0
    } else if n == 4 {
        0
    } else if n == 5 {
        0
    } else if n == 6 {
        30_000_000
    } else if n == 7 {
        118_000_000
    } else if n == 8 {
        185_000_000
    } else if n == 9 {
        239_000_000
    } else if n == 10 {
        284_000_000
    } else if n == 11 {
        321_000_000
    } else if n == 12 {
        354_000_000
    } else if n == 13 {
        382_000_000
    } else if n == 14 {
        406_000_000
    } else if n == 15 {
        428_000_000
    } else if n == 16 {
        448_000_000
    } else if n == 17 {
        446_000_000
    } else if n == 18 {
        482_000_000
    } else if n == 19 {
        497_000_000
    } else if n == 20 {
        510_000_000
    } else if n == 21 {
        523_000_000
    } else if n == 22 {
        534_000_000
    } else if n == 23 {
        545_000_000
    } else if n == 24 {
        555_000_000
    } else if n == 25 {
        565_000_000
    } else {
        0
    }
}

/// The B4 factor for the S-chart upper limit, tabulated for subgroup sizes two to
/// twenty-five, as a scale-9 mantissa (zero outside the table).
pub open spec fn b4_units(n: int) -> int {
    if n == 2 {
        3_276_000_000
    } else if n == 3 {
        2_568_000_000
    } else if n == 4 {
        2_266_000_000
    } else if n == 5 {
        2_089_000_000
    } else if n == 6 {
        1_970_000_000
    } else if n == 7 {
        1_882_000_000
    } else if n == 8 {
        1_815_000_000
    } else if n == 9 {
        1_761_000_000
    } else if n == 10 {
        1_716_000_000
    } else if n == 11 {
        1_679_000_000
    } else if n == 12 {
        1_640_000_000
    } else if n == 13 {
        1_618_000_000
    } else if n == 14 {
        1_594_000_000
    } else if n == 15 {
        1_572_000_000
    } else if n == 16 {
        1_552_000_000
    } else if n == 17 {
        1_534_000_000
    } else if n == 18 {
        1_518_000_000
    } else if n == 19 {
        1_503_000_000
    } else if n == 20 {
        1_490_000_000
    } else if n == 21 {
        1_477_000_000
    } else if n == 22 {
        1_466_000_000
    } else if n == 23 {
        1_455_000_000
    } else if n == 24 {
        1_445_000_000
    } else if n == 25 {
        1_435_000_000
    } else {
        0
    }
}

/// Table lookup for the B4 factor factor.
fn b4_exec(n: usize) -> (r: i64)
    ensures
        r as int == b4_units(n as int),
        0 <= r <= 4_000_000_000,
{
    if n == 2 {
        3_276_000_000
    } else if n == 3 {
        2_568_000_000
    } else if n == 4 {
        2_266_000_000
    } else if n == 5 {
        2_089_000_000
    } else if n == 6 {
        1_970_000_000
    } else if n == 7 {
        1_882_000_000
    } else if n == 8 {
        1_815_000_000
    } else if n == 9 {
        1_761_000_000
    } else if n == 10 {
        1_716_000_000
    } else if n == 11 {
        1_679_000_000
    } else if n == 12 {
        1_640_000_000
    } else if n == 13 {
        1_618_000_000
    } else if n == 14 {
        1_594_000_000
    } else if n == 15 {
        1_572_000_000
    } else if n == 16 {
        1_552_000_000
    } else if n == 17 {
        1_534_000_000
    } else if n == 18 {
        1_518_000_000
    } else if n == 19 {
        1_503_000_000
    } else if n == 20 {
        1_490_000_000
    } else if n == 21 {
        1_477_000_000
    } else if n == 22 {
        1_466_000_000
    } else if n == 23 {
        1_455_000_000
    } else if n == 24 {
        1_445_000_000
    } else if n == 25 {
        1_435_000_000
    } else {
        0
    }
}

/// The mathematical state of a subgroup chart.
#[verifier::ext_equal]
pub struct GroupStatsView {
    pub cl: int,
    pub ucl: int,
    pub lcl: int,
    pub chart_type: GroupStatsChartType,
    pub data: Seq<Seq<int>>,
    pub sub_group_size: int,
    pub all_data: Seq<int>,
    pub ranges: Seq<int>,
    pub stddev: Seq<int>,
    pub average: Seq<int>,
    pub range_average: int,
    pub range_stddev: int,
    pub stddev_average: int,
    pub stddev_stddev: int,
    pub average_average: int,
    pub average_stddev: int,
    pub all_average: int,
    pub all_stddev: int,
    pub sigma_estimate: int,
    pub minimum: Seq<int>,
    pub maximum: Seq<int>,
    pub dirty: bool,
    pub group_count: int,
    pub rounding_ctx: Option<RoundingContext>,
    pub applied_ctx: Option<RoundingContext>,
}

/// Applies the rounding context to a mantissa when one is set.
pub open spec fn maybe_round(x: int, ctx: Option<RoundingContext>) -> int {
    match ctx {
        Some(c) => round_units(x, c.scale as int, c.rounding_mode),
        None => x,
    }
}

/// The chart's center value before rounding: mean of ranges, means or
/// standard deviations, per family.
pub open spec fn grp_cl(kind: GroupStatsChartType, ra: int, sa: int, aa: int) -> int {
    match kind {
        GroupStatsChartType::RChart => ra,
        GroupStatsChartType::XbarRChart => aa,
        GroupStatsChartType::SChart => sa,
        GroupStatsChartType::XbarSChart => aa,
    }
}

/// The upper control limit before rounding, from the tabulated factors.
pub open spec fn grp_ucl(kind: GroupStatsChartType, n: int, ra: int, sa: int, aa: int) -> int {
    match kind {
        GroupStatsChartType::RChart => mul_units(d4_units(n), ra),
        GroupStatsChartType::XbarRChart => aa + mul_units(a2_units(n), ra),
        GroupStatsChartType::SChart => mul_units(b4_units(n), sa),
        GroupStatsChartType::XbarSChart => aa + mul_units(a3_units(n), sa),
    }
}

/// The lower control limit before rounding, from the tabulated factors.
pub open spec fn grp_lcl(kind: GroupStatsChartType, n: int, ra: int, sa: int, aa: int) -> int {
    match kind {
        GroupStatsChartType::RChart => mul_units(d3_units(n), ra),
        GroupStatsChartType::XbarRChart => aa - mul_units(a2_units(n), ra),
        GroupStatsChartType::SChart => mul_units(b3_units(n), sa),
        GroupStatsChartType::XbarSChart => aa - mul_units(a3_units(n), sa),
    }
}

/// The table-based process sigma estimate before rounding.
pub open spec fn grp_sigma_est(kind: GroupStatsChartType, n: int, ra: int, sa: int) -> int {
    match kind {
        GroupStatsChartType::RChart => div_units(ra, d2_units(n)),
        GroupStatsChartType::XbarRChart => div_units(ra, d2_units(n)),
        GroupStatsChartType::SChart => div_units(sa, c4_units(n)),
        GroupStatsChartType::XbarSChart => div_units(sa, c4_units(n)),
    }
}

/// The derived fields of `v` reflect its per-subgroup arrays under the
/// rounding context `ctx`.
pub open spec fn grp_derived_ok(v: GroupStatsView, ctx: Option<RoundingContext>) -> bool {
    let ra = avg_units(v.ranges);
    let sa = avg_units(v.stddev);
    let aa = avg_units(v.average);
    let n = v.sub_group_size;
    &&& v.range_average == maybe_round(ra, ctx)
    &&& v.range_stddev == maybe_round(std_units(v.ranges), ctx)
    &&& v.stddev_average == maybe_round(sa, ctx)
    &&& v.stddev_stddev == maybe_round(std_units(v.stddev), ctx)
    &&& v.average_average == maybe_round(aa, ctx)
    &&& v.average_stddev == maybe_round(std_units(v.average), ctx)
    &&& v.all_average == maybe_round(avg_units(v.all_data), ctx)
    &&& v.all_stddev == maybe_round(std_units(v.all_data), ctx)
    &&& v.cl == maybe_round(grp_cl(v.chart_type, ra, sa, aa), ctx)
    &&& v.ucl == maybe_round(grp_ucl(v.chart_type, n, ra, sa, aa), ctx)
    &&& v.lcl == maybe_round(grp_lcl(v.chart_type, n, ra, sa, aa), ctx)
    &&& v.sigma_estimate == maybe_round(grp_sigma_est(v.chart_type, n, ra, sa), ctx)
}

/// The chart invariant: aligned parallel arrays, subgroups of the fixed
/// size with bounded entries, capacity bounds, and, when clean, derived
/// fields that reflect the arrays under the context last applied.
pub open spec fn grp_inv(v: GroupStatsView) -> bool {
    &&& v.data.len() == v.ranges.len()
    &&& v.data.len() == v.stddev.len()
    &&& v.data.len() == v.average.len()
    &&& v.data.len() == v.minimum.len()
    &&& v.data.len() == v.maximum.len()
    &&& v.all_data.len() == v.data.len() * v.sub_group_size
    &&& 2 <= v.sub_group_size <= 25
    &&& 0 <= v.group_count <= GRP_CAP_MAX as int
    &&& v.data.len() <= GRP_CAP_MAX as int
    &&& forall|i: int|
        0 <= i < v.data.len() ==> ((#[trigger] v.data[i]).len() == v.sub_group_size && all_bounded(
            v.data[i],
            crate::dec::DEC_MAX_UNITS as int,
        ))
    &&& all_bounded(v.all_data, crate::dec::DEC_MAX_UNITS as int)
    &&& all_bounded(v.ranges, GRP_DERIV_MAX as int)
    &&& all_bounded(v.stddev, GRP_DERIV_MAX as int)
    &&& all_bounded(v.average, GRP_DERIV_MAX as int)
    &&& all_bounded(v.minimum, GRP_DERIV_MAX as int)
    &&& all_bounded(v.maximum, GRP_DERIV_MAX as int)
    &&& (!v.dirty ==> grp_derived_ok(v, v.applied_ctx))
}

/// The state after appending one subgroup `g`: its five derived statistics
/// (rounded when a context is set) join the parallel arrays, its values
/// join the flattened buffer, and the oldest subgroups are evicted until
/// the retained count is within the capacity.
pub open spec fn grp_after_add(v: GroupStatsView, g: Seq<int>) -> GroupStatsView {
    let ctx = v.rounding_ctx;
    let data1 = v.data.push(g);
    let all1 = v.all_data + g;
    let ranges1 = v.ranges.push(maybe_round(range_units(g), ctx));
    let stddev1 = v.stddev.push(maybe_round(std_units(g), ctx));
    let average1 = v.average.push(maybe_round(avg_units(g), ctx));
    let minimum1 = v.minimum.push(maybe_round(min_units(g), ctx));
    let maximum1 = v.maximum.push(maybe_round(max_units(g), ctx));
    let dropn = if data1.len() > v.group_count {
        data1.len() - v.group_count
    } else {
        0
    };
    GroupStatsView {
        data: data1.skip(dropn),
        all_data: all1.skip(dropn * v.sub_group_size),
        ranges: ranges1.skip(dropn),
        stddev: stddev1.skip(dropn),
        average: average1.skip(dropn),
        minimum: minimum1.skip(dropn),
        maximum: maximum1.skip(dropn),
        dirty: true,
        ..v
    }
}

/// The state after a (lazy) recompute: a clean chart is unchanged; a dirty
/// one gets its aggregates, limits and sigma estimate recomputed (each
/// rounded when a context is set) and its dirty flag cleared.
pub open spec fn grp_refresh(v: GroupStatsView) -> GroupStatsView {
    if !v.dirty {
        v
    } else {
        let ctx = v.rounding_ctx;
        let ra = avg_units(v.ranges);
        let sa = avg_units(v.stddev);
        let aa = avg_units(v.average);
        let n = v.sub_group_size;
        GroupStatsView {
            range_average: maybe_round(ra, ctx),
            range_stddev: maybe_round(std_units(v.ranges), ctx),
            stddev_average: maybe_round(sa, ctx),
            stddev_stddev: maybe_round(std_units(v.stddev), ctx),
            average_average: maybe_round(aa, ctx),
            average_stddev: maybe_round(std_units(v.average), ctx),
            all_average: maybe_round(avg_units(v.all_data), ctx),
            all_stddev: maybe_round(std_units(v.all_data), ctx),
            cl: maybe_round(grp_cl(v.chart_type, ra, sa, aa), ctx),
            ucl: maybe_round(grp_ucl(v.chart_type, n, ra, sa, aa), ctx),
            lcl: maybe_round(grp_lcl(v.chart_type, n, ra, sa, aa), ctx),
            sigma_estimate: maybe_round(grp_sigma_est(v.chart_type, n, ra, sa), ctx),
            dirty: false,
            applied_ctx: v.rounding_ctx,
            ..v
        }
    }
}

/// The plotted series for the configured family: ranges, means or
/// standard deviations.
pub open spec fn grp_chart_series(v: GroupStatsView) -> Seq<int> {
    match v.chart_type {
        GroupStatsChartType::RChart => v.ranges,
        GroupStatsChartType::XbarRChart => v.average,
        GroupStatsChartType::SChart => v.stddev,
        GroupStatsChartType::XbarSChart => v.average,
    }
}

/// The plotted series' center reference: the matching stored aggregate.
pub open spec fn grp_chart_average(v: GroupStatsView) -> int {
    match v.chart_type {
        GroupStatsChartType::RChart => v.range_average,
        GroupStatsChartType::XbarRChart => v.average_average,
        GroupStatsChartType::SChart => v.stddev_average,
        GroupStatsChartType::XbarSChart => v.average_average,
    }
}

/// The sigma the rule engine uses: a third of the distance from the chart
/// average to the upper control limit.
pub open spec fn grp_chart_sigma(v: GroupStatsView) -> int {
    tdiv(v.ucl - grp_chart_average(v), 3)
}

/// A subgroup control chart (R / X̄-R / S / X̄-S) with bounded history
/// and lazily recomputed limits.
pub struct GroupStats {
    cl: Dec,
    ucl: Dec,
    lcl: Dec,
    /// The configured chart family.
    pub chart_type: GroupStatsChartType,
    data: Vec<Vec<Dec>>,
    sub_group_size: usize,
    all_data: Vec<Dec>,
    ranges: Vec<Dec>,
    stddev: Vec<Dec>,
    average: Vec<Dec>,
    range_average: Dec,
    range_stddev: Dec,
    stddev_average: Dec,
    stddev_stddev: Dec,
    average_average: Dec,
    average_stddev: Dec,
    all_average: Dec,
    all_stddev: Dec,
    sigma_estimate: Dec,
    minimum: Vec<Dec>,
    maximum: Vec<Dec>,
    dirty: bool,
    group_count: usize,
    rounding_ctx: Option<RoundingContext>,
    applied_ctx: Ghost<Option<RoundingContext>>,
}

impl View for GroupStats {
    type V = GroupStatsView;

    closed spec fn view(&self) -> GroupStatsView {
        GroupStatsView {
            cl: self.cl@,
            ucl: self.ucl@,
            lcl: self.lcl@,
            chart_type: self.chart_type,
            data: Seq::new(self.data@.len(), |i: int| units_of(self.data@[i]@)),
            sub_group_size: self.sub_group_size as int,
            all_data: units_of(self.all_data@),
            ranges: units_of(self.ranges@),
            stddev: units_of(self.stddev@),
            average: units_of(self.average@),
            range_average: self.range_average@,
            range_stddev: self.range_stddev@,
            stddev_average: self.stddev_average@,
            stddev_stddev: self.stddev_stddev@,
            average_average: self.average_average@,
            average_stddev: self.average_stddev@,
            all_average: self.all_average@,
            all_stddev: self.all_stddev@,
            sigma_estimate: self.sigma_estimate@,
            minimum: units_of(self.minimum@),
            maximum: units_of(self.maximum@),
            dirty: self.dirty,
            group_count: self.group_count as int,
            rounding_ctx: self.rounding_ctx,
            applied_ctx: self.applied_ctx@,
        }
    }
}

impl GroupStats {
    /// Creates an empty chart for subgroups of `sub_group_size`
    /// measurements (allowed sizes: two to twenty-five, the tabulated
    /// range), marked dirty, with a capacity of one hundred subgroups and
    /// no rounding context.
    pub fn new(sub_group_size: usize, chart_type: GroupStatsChartType) -> (r: Result<
        GroupStats,
        SpcError,
    >)
        ensures
            r is Ok <==> 2 <= sub_group_size <= 25,
            r is Ok ==> {
                let v = r->Ok_0@;
                &&& grp_inv(v)
                &&& v.chart_type == chart_type
                &&& v.sub_group_size == sub_group_size as int
                &&& v.data.len() == 0
                &&& v.group_count == 100
                &&& v.rounding_ctx is None
                &&& v.dirty
            },
    {
        if sub_group_size < 2 || sub_group_size > 25 {
            return Err(SpcError::ConfigurationError);
        }
        Ok(
            GroupStats {
                cl: Dec::zero(),
                ucl: Dec::zero(),
                lcl: Dec::zero(),
                chart_type,
                data: Vec::new(),
                sub_group_size,
                all_data: Vec::new(),
                ranges: Vec::new(),
                stddev: Vec::new(),
                average: Vec::new(),
                range_average: Dec::zero(),
                range_stddev: Dec::zero(),
                stddev_average: Dec::zero(),
                stddev_stddev: Dec::zero(),
                average_average: Dec::zero(),
                average_stddev: Dec::zero(),
                all_average: Dec::zero(),
                all_stddev: Dec::zero(),
                sigma_estimate: Dec::zero(),
                minimum: Vec::new(),
                maximum: Vec::new(),
                dirty: true,
                group_count: 100,
                rounding_ctx: None,
                applied_ctx: Ghost(None),
            },
        )
    }
}


/// Rounds a value under an optional rounding context.
fn round_opt(x: Dec, ctx: &Option<RoundingContext>) -> (r: Dec)
    requires
        -9_200_000_000_000_000_000 <= x@ <= 9_200_000_000_000_000_000,
    ensures
        r@ == maybe_round(x@, *ctx),
{
    match ctx {
        Some(c) => x.round_dp(c.scale, &c.rounding_mode),
        None => x,
    }
}

impl GroupStats {
    /// Appends one subgroup, computing and storing its range, standard
    /// deviation, mean, minimum and maximum (rounded when a context is
    /// set), and evicting the oldest subgroups until the retained count is
    /// within the capacity. A subgroup of the wrong length is rejected and
    /// the chart is left unchanged.
    pub fn add_data(&mut self, group_data: &Vec<Dec>) -> (r: Result<(), SpcError>)
        requires
            grp_inv(old(self)@),
            all_bounded(units_of(group_data@), crate::dec::DEC_MAX_UNITS as int),
        ensures
            grp_inv(final(self)@),
            r is Err <==> group_data@.len() != old(self)@.sub_group_size,
            r is Err ==> final(self)@ == old(self)@ && *final(self) == *old(self),
            r is Ok ==> final(self)@ == grp_after_add(old(self)@, units_of(group_data@)),
    {
        let ghost v0 = self@;
        let ghost g = units_of(group_data@);
        if group_data.len() != self.sub_group_size {
            return Err(SpcError::InputShapeError);
        }
        proof {
            crate::statistics::lemma_min_max_in_bounds(g, crate::dec::DEC_MAX_UNITS as int);
            crate::statistics::lemma_avg_bound(g, crate::dec::DEC_MAX_UNITS as int);
            crate::statistics::lemma_std_bound(g, crate::dec::DEC_MAX_UNITS as int);
            if v0.rounding_ctx is Some {
                crate::dec::lemma_round_magnitude(
                    range_units(g),
                    v0.rounding_ctx->0.scale as int,
                    v0.rounding_ctx->0.rounding_mode,
                );
                crate::dec::lemma_round_magnitude(
                    std_units(g),
                    v0.rounding_ctx->0.scale as int,
                    v0.rounding_ctx->0.rounding_mode,
                );
                crate::dec::lemma_round_magnitude(
                    avg_units(g),
                    v0.rounding_ctx->0.scale as int,
                    v0.rounding_ctx->0.rounding_mode,
                );
                crate::dec::lemma_round_magnitude(
                    min_units(g),
                    v0.rounding_ctx->0.scale as int,
                    v0.rounding_ctx->0.rounding_mode,
                );
                crate::dec::lemma_round_magnitude(
                    max_units(g),
                    v0.rounding_ctx->0.scale as int,
                    v0.rounding_ctx->0.rounding_mode,
                );
            }
        }
        let rg = round_opt(crate::statistics::range(group_data), &self.rounding_ctx);
        let sd = round_opt(crate::statistics::std_dev(group_data), &self.rounding_ctx);
        let av = round_opt(crate::statistics::average(group_data), &self.rounding_ctx);
        let mn = round_opt(crate::statistics::min(group_data), &self.rounding_ctx);
        let mx = round_opt(crate::statistics::max(group_data), &self.rounding_ctx);
        let ghost dv0 = self.data@;
        self.data.push(copy_series(group_data));
        let mut k: usize = 0;
        let ghost all0 = self.all_data@;
        let ghost dpushed = self.data@;
        while k < group_data.len()
            invariant
                self.data@ == dpushed,
                self.ranges@.len() == v0.ranges.len() && units_of(self.ranges@) == v0.ranges,
                units_of(self.stddev@) == v0.stddev,
                units_of(self.average@) == v0.average,
                units_of(self.minimum@) == v0.minimum,
                units_of(self.maximum@) == v0.maximum,
                self.cl@ == v0.cl && self.ucl@ == v0.ucl && self.lcl@ == v0.lcl,
                self.range_average@ == v0.range_average && self.range_stddev@ == v0.range_stddev,
                self.stddev_average@ == v0.stddev_average && self.stddev_stddev@
                    == v0.stddev_stddev,
                self.average_average@ == v0.average_average && self.average_stddev@
                    == v0.average_stddev,
                self.all_average@ == v0.all_average && self.all_stddev@ == v0.all_stddev,
                self.sigma_estimate@ == v0.sigma_estimate,
                self.chart_type == v0.chart_type,
                self.sub_group_size as int == v0.sub_group_size,
                self.group_count as int == v0.group_count,
                self.rounding_ctx == v0.rounding_ctx,
                self.applied_ctx@ == v0.applied_ctx,
                self.dirty == v0.dirty,
                0 <= k <= group_data@.len(),
                self.all_data@.len() == all0.len() + k,
                forall|t: int| 0 <= t < all0.len() ==> #[trigger] self.all_data@[t] == all0[t],
                forall|t: int|
                    all0.len() <= t < self.all_data@.len() ==> #[trigger] self.all_data@[t]
                        == group_data@[t - all0.len()],
            decreases group_data@.len() - k,
        {
            let x = group_data[k];
            self.all_data.push(x);
            k = k + 1;
        }
        proof {
            assert forall|t: int| 0 <= t < units_of(self.all_data@).len() implies units_of(
                self.all_data@,
            )[t] == (v0.all_data + g)[t] by {
                if t < all0.len() {
                    assert(self.all_data@[t] == all0[t]);
                } else {
                    assert(self.all_data@[t] == group_data@[t - all0.len()]);
                }
            }
            assert(units_of(self.all_data@) =~= v0.all_data + g);
        }
        self.ranges.push(rg);
        self.stddev.push(sd);
        self.average.push(av);
        self.minimum.push(mn);
        self.maximum.push(mx);
        self.dirty = true;
        let ghost ctx = v0.rounding_ctx;
        proof {
            assert forall|i: int| 0 <= i < self@.data.len() implies self@.data[i] =~= v0.data.push(
                g,
            )[i] by {
                if i < dv0.len() {
                    assert(self.data@[i] == dv0[i]);
                    assert(v0.data[i] == units_of(dv0[i]@));
                } else {
                    assert(units_of(self.data@[i]@) =~= g);
                }
            }
            assert(self@.data =~~= v0.data.push(g));
            assert(self@.all_data =~= v0.all_data + g);
            assert(self@.ranges =~= v0.ranges.push(maybe_round(range_units(g), ctx)));
            assert(self@.stddev =~= v0.stddev.push(maybe_round(std_units(g), ctx)));
            assert(self@.average =~= v0.average.push(maybe_round(avg_units(g), ctx)));
            assert(self@.minimum =~= v0.minimum.push(maybe_round(min_units(g), ctx)));
            assert(self@.maximum =~= v0.maximum.push(maybe_round(max_units(g), ctx)));
        }
        let ghost mid = self@;
        let ghost dropn: int = if v0.data.len() + 1 > v0.group_count {
            v0.data.len() + 1 - v0.group_count
        } else {
            0
        };
        proof {
            assert(mid.data.len() == v0.data.len() + 1);
            assert(mid.all_data.len() == v0.data.len() * v0.sub_group_size + v0.sub_group_size);
            assert(mid.all_data.len() == mid.data.len() * v0.sub_group_size) by (nonlinear_arith)
                requires
                    mid.all_data.len() == v0.data.len() * v0.sub_group_size + v0.sub_group_size,
                    mid.data.len() == v0.data.len() + 1,
            ;
            assert(self@.data =~~= mid.data.skip(0));
            assert(self@.all_data =~= mid.all_data.skip(0));
            assert(self@.ranges =~= mid.ranges.skip(0));
            assert(self@.stddev =~= mid.stddev.skip(0));
            assert(self@.average =~= mid.average.skip(0));
            assert(self@.minimum =~= mid.minimum.skip(0));
            assert(self@.maximum =~= mid.maximum.skip(0));
        }
        let mut dropped: usize = 0;
        while self.data.len() > self.group_count
            invariant
                self.cl@ == v0.cl && self.ucl@ == v0.ucl && self.lcl@ == v0.lcl,
                self.range_average@ == v0.range_average && self.range_stddev@ == v0.range_stddev,
                self.stddev_average@ == v0.stddev_average && self.stddev_stddev@
                    == v0.stddev_stddev,
                self.average_average@ == v0.average_average && self.average_stddev@
                    == v0.average_stddev,
                self.all_average@ == v0.all_average && self.all_stddev@ == v0.all_stddev,
                self.sigma_estimate@ == v0.sigma_estimate,
                self.chart_type == v0.chart_type,
                self.sub_group_size as int == v0.sub_group_size,
                2 <= v0.sub_group_size <= 25,
                self.group_count as int == v0.group_count,
                self.rounding_ctx == v0.rounding_ctx,
                self.applied_ctx@ == v0.applied_ctx,
                self.dirty,
                mid.data.len() == mid.ranges.len() && mid.data.len() == mid.stddev.len(),
                mid.data.len() == mid.average.len() && mid.data.len() == mid.minimum.len(),
                mid.data.len() == mid.maximum.len(),
                mid.all_data.len() == mid.data.len() * v0.sub_group_size,
                mid.data.len() <= GRP_CAP_MAX + 1,
                0 <= dropped <= mid.data.len(),
                self@.data == mid.data.skip(dropped as int),
                self@.all_data == mid.all_data.skip(dropped as int * v0.sub_group_size),
                self@.ranges == mid.ranges.skip(dropped as int),
                self@.stddev == mid.stddev.skip(dropped as int),
                self@.average == mid.average.skip(dropped as int),
                self@.minimum == mid.minimum.skip(dropped as int),
                self@.maximum == mid.maximum.skip(dropped as int),
                self.data@.len() == mid.data.len() - dropped,
                dropped > 0 ==> self.data@.len() >= self.group_count,
            decreases self.data@.len(),
        {
            let ghost dtop = self@;
            let ghost dvpre = self.data@;
            let ghost rvpre = self.ranges@;
            let ghost svpre = self.stddev@;
            let ghost avpre = self.average@;
            let ghost mnpre = self.minimum@;
            let ghost mxpre = self.maximum@;
            proof {
                assert(self.data@.len() >= 1);
                assert(self@.ranges.len() == self.data@.len());
                assert(self@.stddev.len() == self.data@.len());
                assert(self@.average.len() == self.data@.len());
                assert(self@.minimum.len() == self.data@.len());
                assert(self@.maximum.len() == self.data@.len());
            }
            self.data.remove(0);
            self.ranges.remove(0);
            self.stddev.remove(0);
            self.average.remove(0);
            self.minimum.remove(0);
            self.maximum.remove(0);
            proof {
                dvpre.remove_ensures(0);
                assert(self@.data =~~= dtop.data.skip(1));
            }
            proof {
                assert(mid.data.len() * v0.sub_group_size - dropped as int * v0.sub_group_size
                    >= v0.sub_group_size && 0 <= dropped as int * v0.sub_group_size
                    <= mid.all_data.len()) by (nonlinear_arith)
                    requires
                        mid.data.len() - dropped as int >= 1,
                        v0.sub_group_size >= 2,
                        0 <= dropped as int,
                        mid.all_data.len() == mid.data.len() * v0.sub_group_size,
                ;
                assert(units_of(self.all_data@) == dtop.all_data);
                assert(units_of(self.all_data@).len() == self.all_data@.len());
                assert(dtop.all_data == mid.all_data.skip(dropped as int * v0.sub_group_size));
                assert(self.all_data@.len() == mid.all_data.len() - dropped as int
                    * v0.sub_group_size);
                assert(self.sub_group_size as int <= self.all_data@.len());
            }
            let mut e: usize = 0;
            let ghost apre = self.all_data@;
            let ghost devict = self.data@;
            let ghost revict = self.ranges@;
            let ghost sevict = self.stddev@;
            let ghost aevict = self.average@;
            let ghost mnevict = self.minimum@;
            let ghost mxevict = self.maximum@;
            while e < self.sub_group_size
                invariant
                    self.data@ == devict,
                    self.ranges@ == revict,
                    self.stddev@ == sevict,
                    self.average@ == aevict,
                    self.minimum@ == mnevict,
                    self.maximum@ == mxevict,
                    self.cl@ == v0.cl && self.ucl@ == v0.ucl && self.lcl@ == v0.lcl,
                    self.range_average@ == v0.range_average && self.range_stddev@
                        == v0.range_stddev,
                    self.stddev_average@ == v0.stddev_average && self.stddev_stddev@
                        == v0.stddev_stddev,
                    self.average_average@ == v0.average_average && self.average_stddev@
                        == v0.average_stddev,
                    self.all_average@ == v0.all_average && self.all_stddev@ == v0.all_stddev,
                    self.sigma_estimate@ == v0.sigma_estimate,
                    self.chart_type == v0.chart_type,
                    self.sub_group_size as int == v0.sub_group_size,
                    self.group_count as int == v0.group_count,
                    self.rounding_ctx == v0.rounding_ctx,
                    self.applied_ctx@ == v0.applied_ctx,
                    self.dirty,
                    0 <= e <= self.sub_group_size,
                    self.sub_group_size <= apre.len(),
                    self.all_data@.len() == apre.len() - e,
                    forall|t: int|
                        0 <= t < self.all_data@.len() ==> #[trigger] self.all_data@[t] == apre[t
                            + e],
                decreases self.sub_group_size - e,
            {
                let ghost acur = self.all_data@;
                self.all_data.remove(0);
                proof {
                    acur.remove_ensures(0);
                }
                e = e + 1;
            }
            proof {
                assert(units_of(self.all_data@) =~= dtop.all_data.skip(v0.sub_group_size));
                assert((dropped as int + 1) * v0.sub_group_size == dropped as int
                    * v0.sub_group_size + v0.sub_group_size) by (nonlinear_arith);
                rvpre.remove_ensures(0);
                svpre.remove_ensures(0);
                avpre.remove_ensures(0);
                mnpre.remove_ensures(0);
                mxpre.remove_ensures(0);
                assert forall|t: int| 0 <= t < self@.data.len() implies self@.data[t]
                    == mid.data.skip(dropped as int + 1)[t] by {
                    assert(self@.data[t] == dtop.data.skip(1)[t]);
                    assert(dtop.data[t + 1] == mid.data.skip(dropped as int)[t + 1]);
                }
                assert(self@.data =~~= mid.data.skip(dropped as int + 1));
                assert forall|t: int| 0 <= t < self@.all_data.len() implies self@.all_data[t]
                    == mid.all_data.skip((dropped as int + 1) * v0.sub_group_size)[t] by {
                    assert(self@.all_data[t] == dtop.all_data.skip(v0.sub_group_size)[t]);
                    assert(dtop.all_data[t + v0.sub_group_size] == mid.all_data.skip(
                        dropped as int * v0.sub_group_size,
                    )[t + v0.sub_group_size]);
                }
                assert(self@.all_data =~= mid.all_data.skip(
                    (dropped as int + 1) * v0.sub_group_size,
                ));
                assert forall|t: int| 0 <= t < self@.ranges.len() implies self@.ranges[t]
                    == mid.ranges.skip(dropped as int + 1)[t] by {
                    assert(self.ranges@[t] == rvpre[t + 1]);
                    assert(dtop.ranges[t + 1] == mid.ranges.skip(dropped as int)[t + 1]);
                }
                assert(self@.ranges =~= mid.ranges.skip(dropped as int + 1));
                assert forall|t: int| 0 <= t < self@.stddev.len() implies self@.stddev[t]
                    == mid.stddev.skip(dropped as int + 1)[t] by {
                    assert(self.stddev@[t] == svpre[t + 1]);
                    assert(dtop.stddev[t + 1] == mid.stddev.skip(dropped as int)[t + 1]);
                }
                assert(self@.stddev =~= mid.stddev.skip(dropped as int + 1));
                assert forall|t: int| 0 <= t < self@.average.len() implies self@.average[t]
                    == mid.average.skip(dropped as int + 1)[t] by {
                    assert(self.average@[t] == avpre[t + 1]);
                    assert(dtop.average[t + 1] == mid.average.skip(dropped as int)[t + 1]);
                }
                assert(self@.average =~= mid.average.skip(dropped as int + 1));
                assert forall|t: int| 0 <= t < self@.minimum.len() implies self@.minimum[t]
                    == mid.minimum.skip(dropped as int + 1)[t] by {
                    assert(self.minimum@[t] == mnpre[t + 1]);
                    assert(dtop.minimum[t + 1] == mid.minimum.skip(dropped as int)[t + 1]);
                }
                assert(self@.minimum =~= mid.minimum.skip(dropped as int + 1));
                assert forall|t: int| 0 <= t < self@.maximum.len() implies self@.maximum[t]
                    == mid.maximum.skip(dropped as int + 1)[t] by {
                    assert(self.maximum@[t] == mxpre[t + 1]);
                    assert(dtop.maximum[t + 1] == mid.maximum.skip(dropped as int)[t + 1]);
                }
                assert(self@.maximum =~= mid.maximum.skip(dropped as int + 1));
            }
            dropped = dropped + 1;
        }
        proof {
            assert(dropped as int == dropn);
            assert(self@ =~~= grp_after_add(v0, g));
            lemma_after_add_inv(v0, g);
        }
        Ok(())
    }
}

/// Appending a well-formed subgroup preserves the chart invariant.
proof fn lemma_after_add_inv(v: GroupStatsView, g: Seq<int>)
    requires
        grp_inv(v),
        g.len() == v.sub_group_size,
        all_bounded(g, crate::dec::DEC_MAX_UNITS as int),
    ensures
        grp_inv(grp_after_add(v, g)),
{
    let ctx = v.rounding_ctx;
    crate::statistics::lemma_min_max_in_bounds(g, crate::dec::DEC_MAX_UNITS as int);
    crate::statistics::lemma_avg_bound(g, crate::dec::DEC_MAX_UNITS as int);
    crate::statistics::lemma_std_bound(g, crate::dec::DEC_MAX_UNITS as int);
    if ctx is Some {
        crate::dec::lemma_round_magnitude(range_units(g), ctx->0.scale as int, ctx->0.rounding_mode);
        crate::dec::lemma_round_magnitude(std_units(g), ctx->0.scale as int, ctx->0.rounding_mode);
        crate::dec::lemma_round_magnitude(avg_units(g), ctx->0.scale as int, ctx->0.rounding_mode);
        crate::dec::lemma_round_magnitude(min_units(g), ctx->0.scale as int, ctx->0.rounding_mode);
        crate::dec::lemma_round_magnitude(max_units(g), ctx->0.scale as int, ctx->0.rounding_mode);
    }
    let w = grp_after_add(v, g);
    let data1 = v.data.push(g);
    let dropn: int = if data1.len() > v.group_count {
        data1.len() - v.group_count
    } else {
        0
    };
    assert((v.data.len() + 1) * v.sub_group_size == v.data.len() * v.sub_group_size
        + v.sub_group_size) by (nonlinear_arith);
    assert((v.data.len() + 1 - dropn) * v.sub_group_size == (v.data.len() + 1)
        * v.sub_group_size - dropn * v.sub_group_size) by (nonlinear_arith);
    assert(w.all_data.len() == w.data.len() * v.sub_group_size);
    assert forall|i: int| 0 <= i < w.data.len() implies ((#[trigger] w.data[i]).len()
        == w.sub_group_size && all_bounded(w.data[i], crate::dec::DEC_MAX_UNITS as int)) by {
        assert(w.data[i] == data1[i + dropn]);
    }
}


impl GroupStats {
    /// Recomputes the aggregates, center line, control limits and sigma
    /// estimate (each rounded when a context is set) when the chart is
    /// dirty; a clean chart is left untouched.
    pub fn update(&mut self)
        requires
            grp_inv(old(self)@),
        ensures
            grp_inv(final(self)@),
            final(self)@ == grp_refresh(old(self)@),
    {
        let ghost v0 = self@;
        if !self.dirty {
            return ;
        }
        proof {
            assert(v0.data.len() * v0.sub_group_size <= 100_000) by (nonlinear_arith)
                requires
                    0 <= v0.data.len() <= 4000,
                    0 <= v0.sub_group_size <= 25,
            ;
        }
        let ra = crate::statistics::average(&self.ranges);
        let rs = crate::statistics::std_dev(&self.ranges);
        let sa = crate::statistics::average(&self.stddev);
        let ss = crate::statistics::std_dev(&self.stddev);
        let aa = crate::statistics::average(&self.average);
        let asd = crate::statistics::std_dev(&self.average);
        let alla = crate::statistics::average(&self.all_data);
        let alls = crate::statistics::std_dev(&self.all_data);
        let n = self.sub_group_size;
        let clr: i64;
        let uclr: i64;
        let lclr: i64;
        let sigr: i64;
        match self.chart_type {
            GroupStatsChartType::RChart => {
                clr = ra.units();
                proof {
                    crate::dec::lemma_abs_mul_bound(
                        d4_units(n as int),
                        ra@,
                        4_000_000_000,
                        crate::statistics::STAT_MAX_UNITS as int,
                    );
                    crate::dec::lemma_abs_mul_bound(
                        d3_units(n as int),
                        ra@,
                        4_000_000_000,
                        crate::statistics::STAT_MAX_UNITS as int,
                    );
                }
                uclr = dec_mul(Dec::from_units(d4_exec(n)), ra).units();
                lclr = dec_mul(Dec::from_units(d3_exec(n)), ra).units();
                sigr = dec_div(ra, Dec::from_units(d2_exec(n))).units();
            },
            GroupStatsChartType::XbarRChart => {
                clr = aa.units();
                proof {
                    crate::dec::lemma_abs_mul_bound(
                        a2_units(n as int),
                        ra@,
                        4_000_000_000,
                        crate::statistics::STAT_MAX_UNITS as int,
                    );
                }
                let m = dec_mul(Dec::from_units(a2_exec(n)), ra).units();
                uclr = aa.units() + m;
                lclr = aa.units() - m;
                sigr = dec_div(ra, Dec::from_units(d2_exec(n))).units();
            },
            GroupStatsChartType::SChart => {
                clr = sa.units();
                proof {
                    crate::dec::lemma_abs_mul_bound(
                        b4_units(n as int),
                        sa@,
                        4_000_000_000,
                        crate::statistics::STAT_MAX_UNITS as int,
                    );
                    crate::dec::lemma_abs_mul_bound(
                        b3_units(n as int),
                        sa@,
                        4_000_000_000,
                        crate::statistics::STAT_MAX_UNITS as int,
                    );
                }
                uclr = dec_mul(Dec::from_units(b4_exec(n)), sa).units();
                lclr = dec_mul(Dec::from_units(b3_exec(n)), sa).units();
                sigr = dec_div(sa, Dec::from_units(c4_exec(n))).units();
            },
            GroupStatsChartType::XbarSChart => {
                clr = aa.units();
                proof {
                    crate::dec::lemma_abs_mul_bound(
                        a3_units(n as int),
                        sa@,
                        4_000_000_000,
                        crate::statistics::STAT_MAX_UNITS as int,
                    );
                }
                let m = dec_mul(Dec::from_units(a3_exec(n)), sa).units();
                uclr = aa.units() + m;
                lclr = aa.units() - m;
                sigr = dec_div(sa, Dec::from_units(c4_exec(n))).units();
            },
        }
        self.range_average = round_opt(ra, &self.rounding_ctx);
        self.range_stddev = round_opt(rs, &self.rounding_ctx);
        self.stddev_average = round_opt(sa, &self.rounding_ctx);
        self.stddev_stddev = round_opt(ss, &self.rounding_ctx);
        self.average_average = round_opt(aa, &self.rounding_ctx);
        self.average_stddev = round_opt(asd, &self.rounding_ctx);
        self.all_average = round_opt(alla, &self.rounding_ctx);
        self.all_stddev = round_opt(alls, &self.rounding_ctx);
        self.cl = round_opt(Dec::from_units(clr), &self.rounding_ctx);
        self.ucl = round_opt(Dec::from_units(uclr), &self.rounding_ctx);
        self.lcl = round_opt(Dec::from_units(lclr), &self.rounding_ctx);
        self.sigma_estimate = round_opt(Dec::from_units(sigr), &self.rounding_ctx);
        self.dirty = false;
        proof {
            self.applied_ctx@ = v0.rounding_ctx;
        }
        proof {
            assert(self@ =~~= grp_refresh(v0));
        }
    }

    /// The lower control limit, recomputing first if needed.
    pub fn lcl(&mut self) -> (r: Dec)
        requires
            grp_inv(old(self)@),
        ensures
            grp_inv(final(self)@),
            final(self)@ == grp_refresh(old(self)@),
            r@ == final(self)@.lcl,
    {
        self.update();
        self.lcl
    }

    /// The upper control limit, recomputing first if needed.
    pub fn ucl(&mut self) -> (r: Dec)
        requires
            grp_inv(old(self)@),
        ensures
            grp_inv(final(self)@),
            final(self)@ == grp_refresh(old(self)@),
            r@ == final(self)@.ucl,
    {
        self.update();
        self.ucl
    }

    /// The center line, recomputing first if needed.
    pub fn cl(&mut self) -> (r: Dec)
        requires
            grp_inv(old(self)@),
        ensures
            grp_inv(final(self)@),
            final(self)@ == grp_refresh(old(self)@),
            r@ == final(self)@.cl,
    {
        self.update();
        self.cl
    }

    /// The retained subgroups, oldest first.
    pub fn data(&self) -> (r: &Vec<Vec<Dec>>)
        ensures
            Seq::new(r@.len(), |i: int| units_of(r@[i]@)) == self@.data,
    {
        &self.data
    }

    /// The plotted series for the configured family, recomputing first if
    /// needed.
    pub fn chart_data(&mut self) -> (r: Vec<Dec>)
        requires
            grp_inv(old(self)@),
        ensures
            grp_inv(final(self)@),
            final(self)@ == grp_refresh(old(self)@),
            units_of(r@) == grp_chart_series(final(self)@),
    {
        self.update();
        match self.chart_type {
            GroupStatsChartType::RChart => copy_series(&self.ranges),
            GroupStatsChartType::XbarRChart => copy_series(&self.average),
            GroupStatsChartType::SChart => copy_series(&self.stddev),
            GroupStatsChartType::XbarSChart => copy_series(&self.average),
        }
    }

    /// The plotted series' center reference, recomputing first if needed.
    pub fn chart_average(&mut self) -> (r: Dec)
        requires
            grp_inv(old(self)@),
        ensures
            grp_inv(final(self)@),
            final(self)@ == grp_refresh(old(self)@),
            r@ == grp_chart_average(final(self)@),
    {
        self.update();
        match self.chart_type {
            GroupStatsChartType::RChart => self.range_average,
            GroupStatsChartType::XbarRChart => self.average_average,
            GroupStatsChartType::SChart => self.stddev_average,
            GroupStatsChartType::XbarSChart => self.average_average,
        }
    }

    /// The rule-engine sigma, a third of the distance from the chart
    /// average to the upper control limit, recomputing first if needed.
    pub fn chart_sigma(&mut self) -> (r: Dec)
        requires
            grp_inv(old(self)@),
        ensures
            grp_inv(final(self)@),
            final(self)@ == grp_refresh(old(self)@),
            r@ == grp_chart_sigma(final(self)@),
    {
        self.update();
        let ca = match self.chart_type {
            GroupStatsChartType::RChart => self.range_average,
            GroupStatsChartType::XbarRChart => self.average_average,
            GroupStatsChartType::SChart => self.stddev_average,
            GroupStatsChartType::XbarSChart => self.average_average,
        };
        let d: i128 = (self.ucl.units() as i128) - (ca.units() as i128);
        let q = tdiv_exec(d, 3);
        proof {
            vstd::arithmetic::div_mod::lemma_div_is_ordered(
                abs_i(d as int),
                18_600_000_000_000_000_000,
                3,
            );
            vstd::arithmetic::div_mod::lemma_div_multiples_vanish(6_200_000_000_000_000_000, 3);
        }
        Dec::from_units(q as i64)
    }

    /// The configured subgroup size.
    pub fn sub_group_size(&self) -> (r: usize)
        ensures
            r as int == self@.sub_group_size,
    {
        self.sub_group_size
    }

    /// The per-subgroup ranges, oldest first.
    pub fn ranges(&self) -> (r: &Vec<Dec>)
        ensures
            units_of(r@) == self@.ranges,
    {
        &self.ranges
    }

    /// The per-subgroup standard deviations, oldest first.
    pub fn stddev(&self) -> (r: &Vec<Dec>)
        ensures
            units_of(r@) == self@.stddev,
    {
        &self.stddev
    }

    /// The per-subgroup means, oldest first.
    pub fn average(&self) -> (r: &Vec<Dec>)
        ensures
            units_of(r@) == self@.average,
    {
        &self.average
    }

    /// The mean of the per-subgroup ranges, recomputing first if needed.
    pub fn range_average(&mut self) -> (r: Dec)
        requires
            grp_inv(old(self)@),
        ensures
            grp_inv(final(self)@),
            final(self)@ == grp_refresh(old(self)@),
            r@ == final(self)@.range_average,
    {
        self.update();
        self.range_average
    }

    /// The standard deviation of the per-subgroup ranges, recomputing
    /// first if needed.
    pub fn range_stddev(&mut self) -> (r: Dec)
        requires
            grp_inv(old(self)@),
        ensures
            grp_inv(final(self)@),
            final(self)@ == grp_refresh(old(self)@),
            r@ == final(self)@.range_stddev,
    {
        self.update();
        self.range_stddev
    }

    /// The mean of the per-subgroup standard deviations, recomputing first
    /// if needed.
    pub fn stddev_average(&mut self) -> (r: Dec)
        requires
            grp_inv(old(self)@),
        ensures
            grp_inv(final(self)@),
            final(self)@ == grp_refresh(old(self)@),
            r@ == final(self)@.stddev_average,
    {
        self.update();
        self.stddev_average
    }

    /// The standard deviation of the per-subgroup standard deviations,
    /// recomputing first if needed.
    pub fn stddev_stddev(&mut self) -> (r: Dec)
        requires
            grp_inv(old(self)@),
        ensures
            grp_inv(final(self)@),
            final(self)@ == grp_refresh(old(self)@),
            r@ == final(self)@.stddev_stddev,
    {
        self.update();
        self.stddev_stddev
    }

    /// The mean of the per-subgroup means, recomputing first if needed.
    pub fn average_average(&mut self) -> (r: Dec)
        requires
            grp_inv(old(self)@),
        ensures
            grp_inv(final(self)@),
            final(self)@ == grp_refresh(old(self)@),
            r@ == final(self)@.average_average,
    {
        self.update();
        self.average_average
    }

    /// The standard deviation of the per-subgroup means, recomputing first
    /// if needed.
    pub fn average_stddev(&mut self) -> (r: Dec)
        requires
            grp_inv(old(self)@),
        ensures
            grp_inv(final(self)@),
            final(self)@ == grp_refresh(old(self)@),
            r@ == final(self)@.average_stddev,
    {
        self.update();
        self.average_stddev
    }

    /// The mean of every retained measurement, recomputing first if needed.
    pub fn all_average(&mut self) -> (r: Dec)
        requires
            grp_inv(old(self)@),
        ensures
            grp_inv(final(self)@),
            final(self)@ == grp_refresh(old(self)@),
            r@ == final(self)@.all_average,
    {
        self.update();
        self.all_average
    }

    /// The standard deviation of every retained measurement, recomputing
    /// first if needed.
    pub fn all_stddev(&mut self) -> (r: Dec)
        requires
            grp_inv(old(self)@),
        ensures
            grp_inv(final(self)@),
            final(self)@ == grp_refresh(old(self)@),
            r@ == final(self)@.all_stddev,
    {
        self.update();
        self.all_stddev
    }

    /// The table-based sigma estimate, recomputing first if needed.
    pub fn sigma_estimate(&mut self) -> (r: Dec)
        requires
            grp_inv(old(self)@),
        ensures
            grp_inv(final(self)@),
            final(self)@ == grp_refresh(old(self)@),
            r@ == final(self)@.sigma_estimate,
    {
        self.update();
        self.sigma_estimate
    }

    /// The per-subgroup minima, oldest first.
    pub fn minimum(&self) -> (r: &Vec<Dec>)
        ensures
            units_of(r@) == self@.minimum,
    {
        &self.minimum
    }

    /// The per-subgroup maxima, oldest first.
    pub fn maximum(&self) -> (r: &Vec<Dec>)
        ensures
            units_of(r@) == self@.maximum,
    {
        &self.maximum
    }

    /// Whether a mutation has happened since the last recompute.
    pub fn dirty(&self) -> (r: bool)
        ensures
            r == self@.dirty,
    {
        self.dirty
    }

    /// The configured rounding context.
    pub fn rounding_ctx(&self) -> (r: &Option<RoundingContext>)
        ensures
            *r == self@.rounding_ctx,
    {
        &self.rounding_ctx
    }

    /// Sets the rounding context applied by future recomputes.
    pub fn set_rounding_ctx(&mut self, rounding_ctx: Option<RoundingContext>)
        requires
            grp_inv(old(self)@),
        ensures
            grp_inv(final(self)@),
            final(self)@ == (GroupStatsView { rounding_ctx, ..old(self)@ }),
    {
        self.rounding_ctx = rounding_ctx;
        proof {
            assert(self@ =~~= (GroupStatsView { rounding_ctx, ..old(self)@ }));
        }
    }

    /// Sets the retained-subgroup capacity applied by future `add_data`
    /// calls.
    pub fn set_group_count(&mut self, group_count: usize)
        requires
            grp_inv(old(self)@),
            group_count <= GRP_CAP_MAX,
        ensures
            grp_inv(final(self)@),
            final(self)@ == (GroupStatsView { group_count: group_count as int, ..old(self)@ }),
    {
        self.group_count = group_count;
        proof {
            assert(self@ =~~= (GroupStatsView { group_count: group_count as int, ..old(self)@ }));
        }
    }

    /// Evaluates the given run-rules against the chart's plotted series,
    /// center reference and rule sigma, recomputing first if needed.
    pub fn apply_rule_validation(&mut self, rules: Vec<SpcRule>) -> (res: Vec<
        SpcRuleValidationResult,
    >)
        requires
            grp_inv(old(self)@),
        ensures
            grp_inv(final(self)@),
            final(self)@ == grp_refresh(old(self)@),
            res@.len() == rules@.len(),
            forall|k: int|
                0 <= k < rules@.len() ==> result_ok(
                    #[trigger] res@[k],
                    rules@[k],
                    grp_chart_series(final(self)@),
                    grp_chart_average(final(self)@),
                    grp_chart_sigma(final(self)@),
                ),
    {
        self.update();
        let cd = match self.chart_type {
            GroupStatsChartType::RChart => copy_series(&self.ranges),
            GroupStatsChartType::XbarRChart => copy_series(&self.average),
            GroupStatsChartType::SChart => copy_series(&self.stddev),
            GroupStatsChartType::XbarSChart => copy_series(&self.average),
        };
        let ca = match self.chart_type {
            GroupStatsChartType::RChart => self.range_average,
            GroupStatsChartType::XbarRChart => self.average_average,
            GroupStatsChartType::SChart => self.stddev_average,
            GroupStatsChartType::XbarSChart => self.average_average,
        };
        let d: i128 = (self.ucl.units() as i128) - (ca.units() as i128);
        let q = tdiv_exec(d, 3);
        proof {
            vstd::arithmetic::div_mod::lemma_div_is_ordered(
                abs_i(d as int),
                18_600_000_000_000_000_000,
                3,
            );
            vstd::arithmetic::div_mod::lemma_div_multiples_vanish(6_200_000_000_000_000_000, 3);
        }
        let sg = Dec::from_units(q as i64);
        crate::rules::evaluate_rules(&cd, ca, sg, rules)
    }
}


/// Recomputation is idempotent: refreshing an already refreshed chart
/// changes nothing, so reading a derived value twice without an
/// intervening mutation returns identical results.
pub proof fn lemma_grp_refresh_idempotent(v: GroupStatsView)
    ensures
        grp_refresh(grp_refresh(v)) == grp_refresh(v),
{
    assert(grp_refresh(grp_refresh(v)) =~= grp_refresh(v));
}

/// Appending a subgroup never leaves the retained count above the
/// capacity, whatever the chart held before: beyond the capacity, exactly
/// the oldest subgroups are evicted.
pub proof fn lemma_grp_add_bounded(v: GroupStatsView, g: Seq<int>)
    requires
        0 <= v.group_count,
    ensures
        grp_after_add(v, g).data.len() <= v.group_count,
        grp_after_add(v, g).data.len() as int == if v.data.len() + 1 <= v.group_count {
            v.data.len() + 1 as int
        } else {
            v.group_count
        },
{
}

} // verus!
