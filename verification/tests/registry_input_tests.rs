//! Tool lookup and input summaries.

use agx::input::InputSummary;
use agx::registry::ToolRegistry;

#[test]
fn find_by_id_returns_tool() {
    let registry = ToolRegistry::new();
    assert!(registry.find_by_id("sort").is_some());
}

#[test]
fn find_by_id_missing_tool() {
    let registry = ToolRegistry::new();
    assert!(registry.find_by_id("does-not-exist").is_none());
}

#[test]
fn grep_accepts_the_no_match_code() {
    let registry = ToolRegistry::new();
    let grep = registry.find_by_id("grep").expect("grep is built in");
    assert_eq!(grep.command, "grep");
    assert_eq!(grep.ok_exit_codes, vec![0, 1]);
}

#[test]
fn planner_description_names_every_tool() {
    let registry = ToolRegistry::new();
    let text = registry.describe_for_planner();
    assert!(text.contains("- sort: Sort lines of text. (command: sort"));
    assert!(text.contains("patterns: dedupe, unique, remove duplicates"));
    assert_eq!(text.lines().count(), registry.tools().len());
}

#[test]
fn detects_binary_content() {
    let summary = InputSummary {
        bytes: 1,
        lines: 1,
        is_empty: false,
        is_probably_binary: [0u8].iter().any(|&b| b == b'\0'),
        content: vec![0],
    };

    assert!(summary.is_probably_binary);
}

#[test]
fn marks_empty_input() {
    let summary = InputSummary {
        bytes: 0,
        lines: 0,
        is_empty: true,
        is_probably_binary: false,
        content: Vec::new(),
    };

    assert!(summary.is_empty);
    assert!(!summary.is_probably_binary);
}

#[test]
fn summarize_counts_bytes_and_lines() {
    let s = InputSummary::summarize(b"one\ntwo\nthree".to_vec());
    assert_eq!(s.bytes, 13);
    assert_eq!(s.lines, 3);
    assert!(!s.is_empty);
    assert!(!s.is_probably_binary);

    let s = InputSummary::summarize(vec![]);
    assert_eq!(s.bytes, 0);
    assert_eq!(s.lines, 0);
    assert!(s.is_empty);

    let s = InputSummary::summarize(vec![b'a', 0, b'b']);
    assert!(s.is_probably_binary);
    assert_eq!(s.lines, 1);
}
