use memory_monitor::aggregate::{aggregate, group_by_app, AppUsage, ProcessRecord};
use memory_monitor::report::{records_memory, total_memory};

fn rec(name: &str, memory: u64) -> ProcessRecord {
    ProcessRecord { name: name.to_string(), memory }
}

fn find(us: &[AppUsage], name: &str) -> Option<u64> {
    us.iter().find(|u| u.name == name).map(|u| u.memory)
}

#[test]
fn groups_are_summed_and_total_is_kept() {
    let records = vec![rec("A", 100), rec("B", 50), rec("A", 25)];
    let out = aggregate(&records);
    assert_eq!(out.len(), 2);
    assert_eq!(find(&out, "A"), Some(125));
    assert_eq!(find(&out, "B"), Some(50));
    assert_eq!(total_memory(&out), 175);
    assert_eq!(records_memory(&records), Some(175));
}

#[test]
fn helpers_join_their_application() {
    let records = vec![
        rec("Slack Helper (Renderer)", 300),
        rec("Slack", 200),
        rec("Slack Helper (GPU)", 100),
        rec("/System/Library/CoreServices/Finder.app/Contents/MacOS/Finder", 50),
        rec("Finder", 40),
    ];
    let out = aggregate(&records);
    assert_eq!(out.len(), 2);
    assert_eq!(out[0].name, "Slack");
    assert_eq!(out[0].memory, 600);
    assert_eq!(out[1].name, "Finder");
    assert_eq!(out[1].memory, 90);
}

#[test]
fn output_is_sorted_by_memory() {
    let records = vec![
        rec("small", 1),
        rec("big", 1000),
        rec("mid", 500),
        rec("small", 2),
        rec("mid", 1),
        rec("zero", 0),
    ];
    let out = aggregate(&records);
    for w in out.windows(2) {
        assert!(w[0].memory >= w[1].memory);
    }
    let names: Vec<&str> = out.iter().map(|u| u.name.as_str()).collect();
    assert_eq!(names, vec!["big", "mid", "small", "zero"]);
}

#[test]
fn no_records_give_no_groups() {
    let out = aggregate(&Vec::new());
    assert!(out.is_empty());
    assert_eq!(total_memory(&out), 0);
}

#[test]
fn grouping_keeps_first_occurrence_order() {
    let records = vec![rec("b", 1), rec("a", 9), rec("b", 20)];
    let out = group_by_app(&records);
    assert_eq!(out.len(), 2);
    assert_eq!((out[0].name.as_str(), out[0].memory), ("b", 21));
    assert_eq!((out[1].name.as_str(), out[1].memory), ("a", 9));
}

#[test]
fn equal_totals_both_appear() {
    let records = vec![rec("x", 7), rec("y", 7)];
    let out = aggregate(&records);
    assert_eq!(out.len(), 2);
    assert_eq!(find(&out, "x"), Some(7));
    assert_eq!(find(&out, "y"), Some(7));
}

#[test]
fn overflowing_sum_is_reported() {
    let records = vec![rec("a", u64::MAX), rec("b", 1)];
    assert_eq!(records_memory(&records), None);
    let records = vec![rec("a", u64::MAX - 1), rec("b", 1)];
    assert_eq!(records_memory(&records), Some(u64::MAX));
}
