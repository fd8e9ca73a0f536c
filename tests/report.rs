use memory_monitor::aggregate::AppUsage;
use memory_monitor::count::parse_top_count;
use memory_monitor::report::{app_row, app_rows, system_summary, MemoryInfo, DEFAULT_TOP};
use memory_monitor::scale::{
    app_bar_width, bar_level, gib_tenths, mib_rounded, percent_tenths, pressure, system_bar,
    BarLevel, Pressure,
};

fn usage(name: &str, memory: u64) -> AppUsage {
    AppUsage { name: name.to_string(), memory }
}

#[test]
fn half_used_snapshot() {
    let info = MemoryInfo {
        total_memory: 16_000_000_000,
        used_memory: 8_000_000_000,
        free_memory: 4_000_000_000,
        available_memory: 8_000_000_000,
    };
    let s = system_summary(&info);
    assert_eq!(s.used_percent_tenths, 500);
    assert_eq!(s.free_percent_tenths, 250);
    assert_eq!(s.available_percent_tenths, 500);
    assert_eq!(s.pressure, Pressure::Normal);
    assert_eq!(s.bar.filled, 25);
    assert_eq!(s.bar.empty, 25);
    assert_eq!(s.total_gib_tenths, 149);
    assert_eq!(s.used_gib_tenths, 75);
    assert_eq!(s.free_gib_tenths, 37);
}

#[test]
fn percent_stays_in_range() {
    assert_eq!(percent_tenths(0, 7), 0);
    assert_eq!(percent_tenths(7, 7), 1000);
    assert_eq!(percent_tenths(1, 3), 333);
    assert_eq!(percent_tenths(2, 3), 667);
    assert_eq!(percent_tenths(u64::MAX, u64::MAX), 1000);
    for part in 0..=50u64 {
        let p = percent_tenths(part, 50);
        assert!(p <= 1000);
    }
}

#[test]
fn percent_above_whole_is_not_clamped() {
    assert_eq!(percent_tenths(3, 2), 1500);
}

#[test]
fn system_bar_always_fifty() {
    for used in 0..=400u64 {
        let b = system_bar(used, 200);
        assert_eq!(b.filled + b.empty, 50);
    }
    assert_eq!(system_bar(200, 100).filled, 50);
    assert_eq!(system_bar(0, 100).filled, 0);
    assert_eq!(system_bar(99, 100).filled, 49);
    assert_eq!(system_bar(u64::MAX, 1).filled, 50);
}

#[test]
fn pressure_thresholds() {
    assert_eq!(pressure(699, 1000), Pressure::Normal);
    assert_eq!(pressure(700, 1000), Pressure::Moderate);
    assert_eq!(pressure(849, 1000), Pressure::Moderate);
    assert_eq!(pressure(850, 1000), Pressure::High);
    assert_eq!(pressure(1200, 1000), Pressure::High);
}

#[test]
fn bar_level_thresholds() {
    assert_eq!(bar_level(10, 1000), BarLevel::Light);
    assert_eq!(bar_level(11, 1000), BarLevel::Medium);
    assert_eq!(bar_level(20, 1000), BarLevel::Medium);
    assert_eq!(bar_level(21, 1000), BarLevel::Heavy);
}

#[test]
fn app_bar_is_not_clamped() {
    assert_eq!(app_bar_width(1, 100), 2);
    assert_eq!(app_bar_width(60, 100), 120);
    assert_eq!(app_bar_width(199, 10000), 3);
}

#[test]
fn unit_conversions_round() {
    assert_eq!(gib_tenths(1 << 30), 10);
    assert_eq!(gib_tenths(3 << 29), 15);
    assert_eq!(gib_tenths(0), 0);
    assert_eq!(mib_rounded(1 << 20), 1);
    assert_eq!(mib_rounded((1 << 20) + (1 << 19)), 2);
    assert_eq!(mib_rounded((1 << 20) - 1), 1);
    assert_eq!(mib_rounded(1000), 0);
}

#[test]
fn row_shows_usage() {
    let name = "An Application With A Long Name Indeed";
    let row = app_row(&usage(name, 3 << 20), 100 << 20);
    assert_eq!(row.name, format!("{}...", &name[..27]));
    assert_eq!(row.memory_mib, 3);
    assert_eq!(row.percent_tenths, 30);
    assert_eq!(row.bar_width, 6);
    assert_eq!(row.level, BarLevel::Heavy);
}

#[test]
fn count_parsing() {
    assert_eq!(parse_top_count("15"), 15);
    assert_eq!(parse_top_count("3"), 3);
    assert_eq!(parse_top_count("+7"), 7);
    assert_eq!(parse_top_count("007"), 7);
    assert_eq!(parse_top_count("18446744073709551615"), 18446744073709551615usize);
}

#[test]
fn bad_counts_fall_back_to_default() {
    for arg in ["0", "-3", "", "+", "abc", "1x", " 5", "99999999999999999999999", "-0"] {
        assert_eq!(parse_top_count(arg), DEFAULT_TOP, "{arg:?}");
    }
}

#[test]
fn zero_or_negative_top_shows_fifteen() {
    let usages: Vec<AppUsage> = (0..20).map(|i| usage(&format!("app{i}"), 100 - i)).collect();
    for arg in ["0", "-1"] {
        let rows = app_rows(&usages, parse_top_count(arg), 10_000);
        assert_eq!(rows.len(), 15);
    }
    let few: Vec<AppUsage> = (0..4).map(|i| usage(&format!("app{i}"), 100 - i)).collect();
    assert_eq!(app_rows(&few, parse_top_count("0"), 10_000).len(), 4);
}

#[test]
fn rows_follow_ranking() {
    let usages = vec![usage("a", 300), usage("b", 200), usage("c", 100)];
    let rows = app_rows(&usages, 2, 1000);
    assert_eq!(rows.len(), 2);
    assert_eq!(rows[0].name, "a");
    assert_eq!(rows[1].name, "b");
    assert_eq!(rows[1].percent_tenths, 200);
}
