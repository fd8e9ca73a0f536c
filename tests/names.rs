use memory_monitor::normalize::extract_app_name;
use memory_monitor::text::truncate;

#[test]
fn apple_name_meets_app_rule_first() {
    // The ".app" rule runs before the "com.apple." one and already takes
    // the ".app" out of ".apple", so the later rule finds nothing to remove.
    assert_eq!(extract_app_name("com.apple.Finder"), "comle.Finder");
    assert_eq!(extract_app_name("com.apple.WebKit.WebContent"), "comle.WebKit.WebContent");
}

#[test]
fn docker_prefix_is_rewritten() {
    assert_eq!(extract_app_name("com.docker.vpnkit"), "Docker vpnkit");
}

#[test]
fn helper_and_renderer_collapse_to_app() {
    assert_eq!(extract_app_name("MyApp.app Helper (Renderer)"), "MyApp");
}

#[test]
fn gpu_suffix_is_removed() {
    assert_eq!(extract_app_name("Google Chrome Helper (GPU)"), "Google Chrome");
}

#[test]
fn empty_name_stays_empty() {
    assert_eq!(extract_app_name(""), "");
}

#[test]
fn path_keeps_last_segment() {
    assert_eq!(extract_app_name("/usr/lib/systemd/systemd-journald"), "systemd-journald");
    assert_eq!(extract_app_name("dir/"), "");
}

#[test]
fn bundle_path_is_cleaned_before_split() {
    assert_eq!(
        extract_app_name("/Applications/Slack.app/Contents/MacOS/Slack Helper"),
        "Slack"
    );
}

#[test]
fn rules_apply_in_order() {
    assert_eq!(extract_app_name("com.apple.app"), "comle");
    assert_eq!(extract_app_name("com.docker.com.apple.x"), "Docker comle.x");
}

#[test]
fn normalizing_twice_changes_nothing() {
    for s in ["Finder", "bash", "/usr/bin/zsh", "a/b/c", "", "Code - Insiders"] {
        let once = extract_app_name(s);
        assert_eq!(extract_app_name(&once), once);
    }
}

#[test]
fn long_name_is_cut_to_thirty() {
    let name = "abcdefghijklmnopqrstuvwxyz0123456789"[..35].to_string();
    let cut = truncate(&name, 30);
    assert_eq!(cut.chars().count(), 30);
    assert_eq!(cut, format!("{}...", &name[..27]));
}

#[test]
fn short_names_are_not_cut() {
    let thirty = "x".repeat(30);
    assert_eq!(truncate(&thirty, 30), thirty);
    assert_eq!(truncate("Finder", 30), "Finder");
    assert_eq!(truncate("", 30), "");
}

#[test]
fn truncation_counts_characters() {
    let name = "é".repeat(31);
    let cut = truncate(&name, 30);
    assert_eq!(cut.chars().count(), 30);
    assert_eq!(cut, format!("{}...", "é".repeat(27)));
}

#[test]
fn tiny_limit_keeps_only_marker() {
    assert_eq!(truncate("abcdef", 2), "...");
}
