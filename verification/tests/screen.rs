use zj_agent::commands::{PaneContents, PaneId};
use zj_agent::screen_monitor::{
    extract_help_from_line, find_help_trigger, report_is_distinct, ScreenMonitor,
};

fn contents(lines: &[&str]) -> PaneContents {
    PaneContents { viewport: lines.iter().map(|l| l.to_string()).collect() }
}

#[test]
fn bare_marker_asks_for_general_help() {
    let h = extract_help_from_line("# help").unwrap();
    assert_eq!(h.prompt, "Help me with this terminal session");
    assert_eq!(h.context, None);
}

#[test]
fn marker_after_prompt_keeps_the_prompt_as_context() {
    let h = extract_help_from_line("user@host:~$ # help why does make fail").unwrap();
    assert_eq!(h.prompt, "why does make fail");
    assert_eq!(h.context, Some("user@host:~$".to_string()));
}

#[test]
fn line_without_marker_is_no_request() {
    assert!(extract_help_from_line("user@host:~$ ls").is_none());
    assert!(extract_help_from_line("#help").is_none());
    assert!(extract_help_from_line("").is_none());
}

#[test]
fn first_marker_on_a_line_is_used() {
    let h = extract_help_from_line("a # help b # help c").unwrap();
    assert_eq!(h.prompt, "b # help c");
    assert_eq!(h.context, Some("a".to_string()));
}

#[test]
fn marker_glued_to_a_word_still_counts() {
    let h = extract_help_from_line("x# helpme").unwrap();
    assert_eq!(h.prompt, "me");
    assert_eq!(h.context, Some("x".to_string()));
}

#[test]
fn trigger_is_looked_for_on_the_last_non_blank_lines() {
    let h = find_help_trigger("output\n$ # help me\n   \n\n").unwrap();
    assert_eq!(h.prompt, "me");
    assert_eq!(h.context, Some("$".to_string()));
    let h = find_help_trigger("$ # help foo\nfile.txt").unwrap();
    assert_eq!(h.prompt, "foo");
    assert_eq!(h.context, Some("$".to_string()));
    assert!(find_help_trigger("").is_none());
    assert!(find_help_trigger("\n  \n").is_none());
}

#[test]
fn lowest_trigger_near_the_cursor_wins() {
    let h = find_help_trigger("# help old\n\n# help new\n$").unwrap();
    assert_eq!(h.prompt, "new");
}

#[test]
fn only_three_non_blank_lines_are_searched() {
    assert!(find_help_trigger("# help a\nb\n\nc\nd\n").is_none());
    let h = find_help_trigger("# help a\n\nc\n  \nd\n").unwrap();
    assert_eq!(h.prompt, "a");
}

#[test]
fn trigger_line_is_trimmed_before_matching() {
    let h = find_help_trigger("   # help   trailing spaces   \r\n").unwrap();
    assert_eq!(h.prompt, "trailing spaces");
    assert_eq!(h.context, None);
}

#[test]
fn scan_reports_new_requests_once_per_pane() {
    let mut monitor = ScreenMonitor::new();
    let report = vec![
        (PaneId::Terminal(1), contents(&["$ # help one"])),
        (PaneId::Terminal(2), contents(&["$ ls"])),
    ];
    let found = monitor.scan_for_help(&report);
    assert_eq!(found.len(), 1);
    assert_eq!(found[0].0, PaneId::Terminal(1));
    assert_eq!(found[0].1.prompt, "one");

    let again = monitor.scan_for_help(&report);
    assert!(again.is_empty());
}

#[test]
fn scan_skips_plugin_panes() {
    let mut monitor = ScreenMonitor::new();
    let report = vec![(PaneId::Plugin(3), contents(&["# help"]))];
    assert!(monitor.scan_for_help(&report).is_empty());
}

#[test]
fn scan_reports_again_when_the_screen_changes() {
    let mut monitor = ScreenMonitor::new();
    let first = vec![(PaneId::Terminal(1), contents(&["$ # help a"]))];
    assert_eq!(monitor.scan_for_help(&first).len(), 1);
    let longer = vec![(PaneId::Terminal(1), contents(&["$ # help ab"]))];
    let found = monitor.scan_for_help(&longer);
    assert_eq!(found.len(), 1);
    assert_eq!(found[0].1.prompt, "ab");
    // Same length, other text: a new request.
    let same_length = vec![(PaneId::Terminal(1), contents(&["$ # help xy"]))];
    let found = monitor.scan_for_help(&same_length);
    assert_eq!(found.len(), 1);
    assert_eq!(found[0].1.prompt, "xy");
    assert!(monitor.scan_for_help(&same_length).is_empty());
}

#[test]
fn reports_name_each_pane_once() {
    let a = vec![
        (PaneId::Terminal(1), contents(&["x"])),
        (PaneId::Plugin(1), contents(&["y"])),
        (PaneId::Terminal(2), contents(&["z"])),
    ];
    assert!(report_is_distinct(&a));
    let b = vec![
        (PaneId::Terminal(1), contents(&["x"])),
        (PaneId::Terminal(2), contents(&["y"])),
        (PaneId::Terminal(1), contents(&["z"])),
    ];
    assert!(!report_is_distinct(&b));
    assert!(report_is_distinct(&vec![]));
}

#[test]
fn scan_keys_panes_separately() {
    let mut monitor = ScreenMonitor::new();
    let a = vec![(PaneId::Terminal(1), contents(&["# help"]))];
    let b = vec![(PaneId::Terminal(2), contents(&["# help"]))];
    assert_eq!(monitor.scan_for_help(&a).len(), 1);
    assert_eq!(monitor.scan_for_help(&b).len(), 1);
    assert!(monitor.scan_for_help(&a).is_empty());
}

#[test]
fn screen_without_request_leaves_memory_unchanged() {
    let mut monitor = ScreenMonitor::new();
    let a = vec![(PaneId::Terminal(1), contents(&["# help"]))];
    assert_eq!(monitor.scan_for_help(&a).len(), 1);
    let quiet = vec![(PaneId::Terminal(1), contents(&["$ ls"]))];
    assert!(monitor.scan_for_help(&quiet).is_empty());
    assert!(monitor.scan_for_help(&a).is_empty());
}
