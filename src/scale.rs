use vstd::prelude::*;

verus! {

/// Number of segments of the system-memory bar.
pub const SYSTEM_BAR_WIDTH: usize = 50;

/// Bytes in one gibibyte.
pub const GIB: u64 = 1073741824;

/// Bytes in one mebibyte.
pub const MIB: u64 = 1048576;

/// Percentage of `part` in `whole`, in tenths of a percent, rounded half up:
/// `round(part * 1000 / whole)`.
pub open spec fn percent_tenths_of(part: int, whole: int) -> int
    recommends
        whole > 0,
{
    (2 * 1000 * part + whole) / (2 * whole)
}

/// `bytes / unit` rounded half up, scaled by `scale` (10 for one decimal).
pub open spec fn scaled_round(bytes: int, unit: int, scale: int) -> int
    recommends
        unit > 0,
{
    (2 * scale * bytes + unit) / (2 * unit)
}

/// Filled segments of the system bar: `floor(used / total * 50)`, clamped to
/// the width of the bar.
pub open spec fn system_filled_of(used: int, total: int) -> int
    recommends
        total > 0,
{
    let f = (used * 50) / total;
    if f > 50 {
        50
    } else {
        f
    }
}

/// Memory pressure, from the share of memory in use.
#[derive(Clone, Copy, Debug, PartialEq, Eq, Structural)]
pub enum Pressure {
    /// Below 70%.
    Normal,
    /// From 70% up to below 85%.
    Moderate,
    /// 85% and above.
    High,
}

/// The pressure category of `part / whole * 100`.
pub open spec fn pressure_of(part: int, whole: int) -> Pressure {
    if 100 * part < 70 * whole {
        Pressure::Normal
    } else if 100 * part < 85 * whole {
        Pressure::Moderate
    } else {
        Pressure::High
    }
}

/// Weight of one application's bar, from its share of total memory.
#[derive(Clone, Copy, Debug, PartialEq, Eq, Structural)]
pub enum BarLevel {
    /// Above 2%.
    Heavy,
    /// Above 1%, up to 2%.
    Medium,
    /// 1% or less.
    Light,
}

/// The bar level of `part / whole * 100`.
pub open spec fn bar_level_of(part: int, whole: int) -> BarLevel {
    if 100 * part > 2 * whole {
        BarLevel::Heavy
    } else if 100 * part > whole {
        BarLevel::Medium
    } else {
        BarLevel::Light
    }
}

/// The system-memory bar: how many segments are filled and how many empty.
#[derive(Clone, Copy, Debug, PartialEq, Eq, Structural)]
pub struct SystemBar {
    pub filled: usize,
    pub empty: usize,
}

/// Percentage of `part` in `whole`, in tenths of a percent (`500` is 50.0%).
pub fn percent_tenths(part: u64, whole: u64) -> (r: u128)
    requires
        whole > 0,
    ensures
        r == percent_tenths_of(part as int, whole as int),
        part <= whole ==> 0 <= r <= 1000,
{
    let num: u128 = 2000u128 * (part as u128) + (whole as u128);
    let den: u128 = 2u128 * (whole as u128);
    proof {
        assert(part <= whole ==> num / den <= 1000) by (nonlinear_arith)
            requires
                num == 2000 * part + whole,
                den == 2 * whole,
                whole > 0,
        ;
    }
    num / den
}

/// A byte count in gibibytes, in tenths, rounded half up (`15` is 1.5 GiB).
pub fn gib_tenths(bytes: u64) -> (r: u64)
    ensures
        r == scaled_round(bytes as int, GIB as int, 10),
{
    let num: u128 = 20u128 * (bytes as u128) + (GIB as u128);
    let den: u128 = 2u128 * (GIB as u128);
    proof {
        assert(num / den <= bytes) by (nonlinear_arith)
            requires
                num == 20 * bytes + 1073741824,
                den == 2 * 1073741824,
        ;
    }
    (num / den) as u64
}

/// A byte count in whole mebibytes, rounded half up.
pub fn mib_rounded(bytes: u64) -> (r: u64)
    ensures
        r == scaled_round(bytes as int, MIB as int, 1),
{
    let num: u128 = 2u128 * (bytes as u128) + (MIB as u128);
    let den: u128 = 2u128 * (MIB as u128);
    proof {
        assert(num / den <= bytes) by (nonlinear_arith)
            requires
                num == 2 * bytes + 1048576,
                den == 2 * 1048576,
        ;
    }
    (num / den) as u64
}

/// Splits the system bar for `used` bytes in use out of `total`. The filled
/// part is clamped to the bar, so the two parts always make its full width.
pub fn system_bar(used: u64, total: u64) -> (r: SystemBar)
    requires
        total > 0,
    ensures
        r.filled == system_filled_of(used as int, total as int),
        r.filled + r.empty == SYSTEM_BAR_WIDTH,
        r.filled <= SYSTEM_BAR_WIDTH,
{
    let f: u128 = (used as u128) * 50u128 / (total as u128);
    let filled: usize = if f > 50 {
        50
    } else {
        f as usize
    };
    SystemBar { filled, empty: SYSTEM_BAR_WIDTH - filled }
}

/// The memory pressure when `used` bytes of `total` are in use.
pub fn pressure(used: u64, total: u64) -> (r: Pressure)
    ensures
        r == pressure_of(used as int, total as int),
{
    let u: u128 = 100u128 * (used as u128);
    if u < 70u128 * (total as u128) {
        Pressure::Normal
    } else if u < 85u128 * (total as u128) {
        Pressure::Moderate
    } else {
        Pressure::High
    }
}

/// Width of an application's bar: `floor(percent * 2)`, not clamped.
pub fn app_bar_width(memory: u64, total: u64) -> (r: u128)
    requires
        total > 0,
    ensures
        r == (200 * memory as int) / (total as int),
{
    200u128 * (memory as u128) / (total as u128)
}

/// The bar level of an application holding `memory` bytes of `total`.
pub fn bar_level(memory: u64, total: u64) -> (r: BarLevel)
    ensures
        r == bar_level_of(memory as int, total as int),
{
    let m: u128 = 100u128 * (memory as u128);
    if m > 2u128 * (total as u128) {
        BarLevel::Heavy
    } else if m > (total as u128) {
        BarLevel::Medium
    } else {
        BarLevel::Light
    }
}

} // verus!
