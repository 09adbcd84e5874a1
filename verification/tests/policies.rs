use flashlight::classify::{classify, classify_color, contains_ci};
use flashlight::fallback::{fallback_needed, fallback_signal};
use flashlight::fields::{map_fields, parse_u32, path_ok, ExecutionEvent};
use flashlight::scan::EventCollector;
use flashlight::RiskTier;

const NOW: u32 = 1_000_000;

fn strings(v: &[&str]) -> Vec<String> {
    v.iter().map(|s| s.to_string()).collect()
}

fn mapped(v: &[&str]) -> ExecutionEvent {
    map_fields(&strings(v), NOW)
}

#[test]
fn command_line_expansion_failure_token_is_replaced() {
    let e = mapped(&["s", "DOM", "acct", "x", "y", "C:\\a\\b.exe", "z", "%%123", "1"]);
    assert_eq!(e.command_line.as_deref(), Some("[n/a]"));
}

#[test]
fn command_line_of_two_characters_is_replaced() {
    let e = mapped(&["s", "DOM", "acct", "x", "y", "C:\\a\\b.exe", "z", "ab", "1"]);
    assert_eq!(e.command_line.as_deref(), Some("[n/a]"));
}

#[test]
fn command_line_of_three_characters_passes_through() {
    let e = mapped(&["s", "DOM", "acct", "x", "y", "C:\\a\\b.exe", "z", "abc", "1"]);
    assert_eq!(e.command_line.as_deref(), Some("abc"));
}

#[test]
fn missing_command_line_is_absent() {
    let e = mapped(&["s", "DOM", "acct", "x", "y", "C:\\a\\b.exe"]);
    assert_eq!(e.command_line, None);
}

#[test]
fn image_path_acceptance_heuristic() {
    assert!(path_ok("C:\\Windows\\System32\\cmd.exe"));
    assert!(path_ok("C:\\A\\B.EXE"));
    assert!(!path_ok("rundll32"));
    assert!(!path_ok("no-separator.exe"));
    assert!(!path_ok("C:\\no\\extension"));
}

#[test]
fn rejected_image_path_becomes_sentinel_and_is_refused() {
    let e = mapped(&["s", "DOM", "acct", "x", "y", "rundll32", "z", "abc", "1"]);
    assert_eq!(e.image_path, "Unknown");
    let mut col = EventCollector::new();
    assert!(!col.offer(e));
    assert_eq!(col.events.len(), 0);
}

#[test]
fn collector_stops_accepting_at_cap() {
    let mut col = EventCollector::new();
    for _ in 0..10 {
        let e = mapped(&["s", "DOM", "acct", "x", "y", "C:\\a\\b.exe", "z", "abc", "1"]);
        assert!(col.offer(e));
    }
    let e = mapped(&["s", "DOM", "acct", "x", "y", "C:\\a\\b.exe", "z", "abc", "1"]);
    assert!(!col.offer(e));
    assert_eq!(col.events.len(), 10);
}

#[test]
fn parent_pid_parses_or_is_absent() {
    let e = mapped(&["s", "DOM", "acct", "x", "y", "C:\\a\\b.exe", "z", "abc", "4321"]);
    assert_eq!(e.parent_pid, Some(4321));
    let e = mapped(&["s", "DOM", "acct", "x", "y", "C:\\a\\b.exe", "z", "abc", "12a"]);
    assert_eq!(e.parent_pid, None);
    let e = mapped(&["s", "DOM", "acct", "x", "y", "C:\\a\\b.exe", "z", "abc"]);
    assert_eq!(e.parent_pid, None);
}

#[test]
fn parse_u32_bounds() {
    assert_eq!(parse_u32("0"), Some(0));
    assert_eq!(parse_u32("123"), Some(123));
    assert_eq!(parse_u32("4294967295"), Some(4294967295));
    assert_eq!(parse_u32("4294967296"), None);
    assert_eq!(parse_u32(""), None);
    assert_eq!(parse_u32("-1"), None);
    assert_eq!(parse_u32(" 1"), None);
}

#[test]
fn user_is_domain_and_account_or_absent() {
    let e = mapped(&["s", "DOM", "acct", "x", "y", "C:\\a\\b.exe", "z", "abc", "1"]);
    assert_eq!(e.user.as_deref(), Some("DOM\\acct"));
    let e = mapped(&["s", "DOM"]);
    assert_eq!(e.user, None);
}

#[test]
fn risk_tiers_match_curated_lists() {
    assert_eq!(classify("C:\\Windows\\System32\\cmd.exe"), RiskTier::High);
    assert_eq!(classify("C:\\Tools\\POWERSHELL.EXE"), RiskTier::High);
    assert_eq!(classify("C:\\Windows\\System32\\wscript.exe"), RiskTier::High);
    assert_eq!(classify("python.exe"), RiskTier::High);
    assert_eq!(classify("C:\\Windows\\System32\\conhost.exe"), RiskTier::Medium);
    assert_eq!(classify("svchost.exe"), RiskTier::Medium);
    assert_eq!(classify("C:\\Windows\\explorer.exe"), RiskTier::Medium);
    assert_eq!(classify("C:\\Program Files\\app\\app.exe"), RiskTier::Neutral);
}

#[test]
fn classify_color_matches_tier() {
    assert_eq!(classify_color("C:\\x\\cmd.exe"), "\x1b[31m");
    assert_eq!(classify_color("C:\\x\\svchost.exe"), "\x1b[33m");
    assert_eq!(classify_color("C:\\x\\calc.exe"), "\x1b[0m");
}

#[test]
fn contains_ci_is_case_insensitive_on_the_text() {
    assert!(contains_ci("C:\\X\\CMD.EXE", "cmd.exe"));
    assert!(contains_ci("cmd.exe", "cmd.exe"));
    assert!(!contains_ci("cm.exe", "cmd.exe"));
    assert!(contains_ci("anything", ""));
}

#[test]
fn fallback_runs_only_when_nothing_was_collected() {
    let empty = EventCollector::new();
    assert!(fallback_needed(&empty));
    let mut col = EventCollector::new();
    let e = mapped(&["s", "DOM", "acct", "x", "y", "C:\\a\\b.exe", "z", "abc", "1"]);
    assert!(col.offer(e));
    assert!(!fallback_needed(&col));
}

#[test]
fn fallback_gate_invokes_scanner_exactly_once_when_scan_is_empty() {
    let empty = EventCollector::new();
    let mut invocations = 0;
    if fallback_needed(&empty) {
        invocations += 1;
        let sig = fallback_signal("CMD.EXE-1234.pf".to_string(), NOW - 5, NOW);
        assert!(sig.is_some());
    }
    assert_eq!(invocations, 1);
}

#[test]
fn fallback_signal_requires_window_and_suffix() {
    let sig = fallback_signal("CMD.EXE-1234.pf".to_string(), NOW - 5, NOW).unwrap();
    assert_eq!(sig.name, "CMD.EXE-1234.pf");
    assert_eq!(sig.tier, RiskTier::High);
    assert!(fallback_signal("calc.pf".to_string(), NOW - 59, NOW).is_some());
    assert!(fallback_signal("calc.pf".to_string(), NOW - 60, NOW).is_none());
    assert!(fallback_signal("calc.pf".to_string(), NOW + 1, NOW).is_none());
    assert!(fallback_signal("calc.txt".to_string(), NOW - 5, NOW).is_none());
    assert!(fallback_signal("pf".to_string(), NOW - 5, NOW).is_none());
    let neutral = fallback_signal("NOTEPAD.EXE-77.pf".to_string(), NOW, NOW).unwrap();
    assert_eq!(neutral.tier, RiskTier::Neutral);
}
