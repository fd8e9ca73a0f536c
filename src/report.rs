use vstd::prelude::*;
use crate::aggregate::{
    AppUsage, ProcessRecord, lemma_records_prefix, lemma_usage_prefix, records_total, usage_total,
};
use crate::scale::{
    BarLevel, MIB, Pressure, SystemBar, GIB, SYSTEM_BAR_WIDTH, app_bar_width, bar_level,
    bar_level_of, gib_tenths, mib_rounded, percent_tenths, percent_tenths_of, pressure,
    pressure_of, scaled_round, system_bar, system_filled_of,
};
use crate::text::{truncate, truncated};

verus! {

/// Widest application name shown in the table, in characters.
pub const NAME_WIDTH: usize = 30;

/// Number of application rows shown when no valid count is given.
pub const DEFAULT_TOP: usize = 15;

/// System-wide memory counters, in bytes, read at one instant.
pub struct MemoryInfo {
    pub total_memory: u64,
    pub used_memory: u64,
    pub free_memory: u64,
    pub available_memory: u64,
}

/// The figures of the system summary: sizes in tenths of a GiB, shares in
/// tenths of a percent of total memory.
pub struct SystemSummary {
    pub total_gib_tenths: u64,
    pub used_gib_tenths: u64,
    pub free_gib_tenths: u64,
    pub available_gib_tenths: u64,
    pub used_percent_tenths: u128,
    pub free_percent_tenths: u128,
    pub available_percent_tenths: u128,
    pub bar: SystemBar,
    pub pressure: Pressure,
}

/// One row of the application table.
pub struct AppRow {
    /// The group's name, cut to the table's width.
    pub name: String,
    pub memory_mib: u64,
    pub percent_tenths: u128,
    pub bar_width: u128,
    pub level: BarLevel,
}

/// `row` shows `usage` against `total` bytes of memory.
pub open spec fn row_of(row: AppRow, usage: AppUsage, total: int) -> bool {
    &&& row.name@ == truncated(usage.name@, NAME_WIDTH as nat)
    &&& row.memory_mib == scaled_round(usage.memory as int, MIB as int, 1)
    &&& row.percent_tenths == percent_tenths_of(usage.memory as int, total)
    &&& row.bar_width == (200 * usage.memory as int) / total
    &&& row.level == bar_level_of(usage.memory as int, total)
}

/// The figures of the system summary for `info`.
pub fn system_summary(info: &MemoryInfo) -> (r: SystemSummary)
    requires
        info.total_memory > 0,
    ensures
        r.total_gib_tenths == scaled_round(info.total_memory as int, GIB as int, 10),
        r.used_gib_tenths == scaled_round(info.used_memory as int, GIB as int, 10),
        r.free_gib_tenths == scaled_round(info.free_memory as int, GIB as int, 10),
        r.available_gib_tenths == scaled_round(info.available_memory as int, GIB as int, 10),
        r.used_percent_tenths == percent_tenths_of(
            info.used_memory as int,
            info.total_memory as int,
        ),
        r.free_percent_tenths == percent_tenths_of(
            info.free_memory as int,
            info.total_memory as int,
        ),
        r.available_percent_tenths == percent_tenths_of(
            info.available_memory as int,
            info.total_memory as int,
        ),
        r.bar.filled == system_filled_of(info.used_memory as int, info.total_memory as int),
        r.bar.filled + r.bar.empty == SYSTEM_BAR_WIDTH,
        r.pressure == pressure_of(info.used_memory as int, info.total_memory as int),
{
    SystemSummary {
        total_gib_tenths: gib_tenths(info.total_memory),
        used_gib_tenths: gib_tenths(info.used_memory),
        free_gib_tenths: gib_tenths(info.free_memory),
        available_gib_tenths: gib_tenths(info.available_memory),
        used_percent_tenths: percent_tenths(info.used_memory, info.total_memory),
        free_percent_tenths: percent_tenths(info.free_memory, info.total_memory),
        available_percent_tenths: percent_tenths(info.available_memory, info.total_memory),
        bar: system_bar(info.used_memory, info.total_memory),
        pressure: pressure(info.used_memory, info.total_memory),
    }
}

/// The table row of one application group.
pub fn app_row(usage: &AppUsage, total: u64) -> (r: AppRow)
    requires
        total > 0,
    ensures
        row_of(r, *usage, total as int),
{
    AppRow {
        name: truncate(usage.name.as_str(), NAME_WIDTH),
        memory_mib: mib_rounded(usage.memory),
        percent_tenths: percent_tenths(usage.memory, total),
        bar_width: app_bar_width(usage.memory, total),
        level: bar_level(usage.memory, total),
    }
}

/// The rows of the first `top` groups of `usages` (all of them if fewer).
pub fn app_rows(usages: &Vec<AppUsage>, top: usize, total: u64) -> (r: Vec<AppRow>)
    requires
        total > 0,
    ensures
        r@.len() == if top < usages@.len() {
            top as int
        } else {
            usages@.len() as int
        },
        forall|i: int| 0 <= i < r@.len() ==> row_of(#[trigger] r@[i], usages@[i], total as int),
{
    let n: usize = if top < usages.len() {
        top
    } else {
        usages.len()
    };
    let mut rows: Vec<AppRow> = Vec::new();
    let mut i: usize = 0;
    while i < n
        invariant
            n <= usages@.len(),
            i <= n,
            total > 0,
            rows@.len() == i,
            forall|j: int| 0 <= j < i ==> row_of(#[trigger] rows@[j], usages@[j], total as int),
        decreases n - i,
    {
        rows.push(app_row(&usages[i], total));
        i += 1;
    }
    rows
}

/// Memory of all the groups, the figure of the table's totals row.
pub fn total_memory(usages: &Vec<AppUsage>) -> (r: u64)
    requires
        usage_total(usages@) <= u64::MAX,
    ensures
        r == usage_total(usages@),
{
    let mut sum: u64 = 0;
    let mut i: usize = 0;
    while i < usages.len()
        invariant
            i <= usages@.len(),
            usage_total(usages@) <= u64::MAX,
            sum == usage_total(usages@.subrange(0, i as int)),
        decreases usages@.len() - i,
    {
        proof {
            assert(usages@.subrange(0, i + 1).drop_last() =~= usages@.subrange(0, i as int));
            lemma_usage_prefix(usages@, i + 1);
        }
        sum = sum + usages[i].memory;
        i += 1;
    }
    assert(usages@.subrange(0, i as int) =~= usages@);
    sum
}

/// Memory of all the records, or `None` where it does not fit in a `u64`.
pub fn records_memory(records: &Vec<ProcessRecord>) -> (r: Option<u64>)
    ensures
        r is Some <==> records_total(records@) <= u64::MAX,
        r is Some ==> r->0 == records_total(records@),
{
    let mut sum: u64 = 0;
    let mut i: usize = 0;
    while i < records.len()
        invariant
            i <= records@.len(),
            sum == records_total(records@.subrange(0, i as int)),
        decreases records@.len() - i,
    {
        proof {
            assert(records@.subrange(0, i + 1).drop_last() =~= records@.subrange(0, i as int));
        }
        match sum.checked_add(records[i].memory) {
            Some(s) => {
                sum = s;
            },
            None => {
                proof {
                    lemma_records_prefix(records@, i + 1);
                }
                return None;
            },
        }
        i += 1;
    }
    assert(records@.subrange(0, i as int) =~= records@);
    Some(sum)
}

} // verus!
