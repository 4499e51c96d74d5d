//! The streaming pass itself: context windows, overlap handling, early
//! stop, bounded before-context and repeatability.

use slice::engine::{slice_lines, Role, SliceEngine};
use slice::ranges::{RangeEnd, ResolvedRange};

fn source(lines: &[&str]) -> Vec<String> {
    lines.iter().map(|s| s.to_string()).collect()
}

fn bounded(start: usize, end: usize) -> ResolvedRange {
    ResolvedRange { start, end: RangeEnd::Bounded(end) }
}

#[test]
fn test_context_around_match() {
    // before_context = 1, after_context = 1, match at line 5 of 10.
    let lines = source(&["l1", "l2", "l3", "l4", "l5", "l6", "l7", "l8", "l9", "l10"]);
    let out = slice_lines(&lines, vec![bounded(4, 5)], 1, 1);
    assert_eq!(out.len(), 3);
    assert_eq!(out[0].line_number, 4);
    assert!(matches!(out[0].role, Role::ContextBefore));
    assert_eq!(out[0].text, "l4");
    assert_eq!(out[1].line_number, 5);
    assert!(matches!(out[1].role, Role::Matched));
    assert_eq!(out[1].text, "l5");
    assert_eq!(out[2].line_number, 6);
    assert!(matches!(out[2].role, Role::ContextAfter));
    assert_eq!(out[2].text, "l6");
}

#[test]
fn test_before_buffer_is_bounded() {
    // A long non-matching stretch, then a match: only the last `before`
    // lines come out as before-context, however long the stretch was.
    let mut raw: Vec<String> = Vec::new();
    for i in 1..=50 {
        raw.push(format!("line{}", i));
    }
    let out = slice_lines(&raw, vec![bounded(40, 41)], 3, 0);
    assert_eq!(out.len(), 4);
    assert_eq!(out[0].line_number, 38);
    assert!(matches!(out[0].role, Role::ContextBefore));
    assert_eq!(out[1].line_number, 39);
    assert_eq!(out[2].line_number, 40);
    assert_eq!(out[3].line_number, 41);
    assert!(matches!(out[3].role, Role::Matched));
}

#[test]
fn test_overlapping_ranges_emit_once() {
    // Overlapping ranges [0,5) and [3,8): each index in [0,8) exactly
    // once, all matched.
    let lines = source(&["a", "b", "c", "d", "e", "f", "g", "h", "i", "j"]);
    let out = slice_lines(&lines, vec![bounded(0, 5), bounded(3, 8)], 0, 0);
    assert_eq!(out.len(), 8);
    for (i, line) in out.iter().enumerate() {
        assert_eq!(line.line_number, i + 1);
        assert!(matches!(line.role, Role::Matched));
    }
}

#[test]
fn test_early_stop_reads_bounded() {
    // Head(2) with no context: the engine asks for no more than 2 lines,
    // however large the source is.
    let mut eng = SliceEngine::new(vec![bounded(0, 2)], 0, 0);
    let mut reads: usize = 0;
    while eng.wants_more() && reads < 1_000_000 {
        eng.process_line("some line");
        reads += 1;
    }
    assert_eq!(reads, 2);
}

#[test]
fn test_early_stop_includes_after_context() {
    let mut eng = SliceEngine::new(vec![bounded(0, 2)], 0, 3);
    let mut reads: usize = 0;
    while eng.wants_more() && reads < 1_000_000 {
        eng.process_line("some line");
        reads += 1;
    }
    assert_eq!(reads, 5);
}

#[test]
fn test_open_range_never_stops_wanting() {
    let mut eng = SliceEngine::new(
        vec![ResolvedRange { start: 3, end: RangeEnd::Unbounded }],
        0,
        0,
    );
    for _ in 0..100 {
        assert!(eng.wants_more());
        eng.process_line("x");
    }
    assert!(eng.wants_more());
}

#[test]
fn test_pass_is_repeatable() {
    // Two passes over an unmodified source with identical selectors
    // yield byte-identical output.
    let lines = source(&["alpha", "beta", "gamma", "delta", "epsilon"]);
    let first = slice_lines(&lines, vec![bounded(1, 3)], 1, 1);
    let second = slice_lines(&lines, vec![bounded(1, 3)], 1, 1);
    assert_eq!(first.len(), second.len());
    for (a, b) in first.iter().zip(second.iter()) {
        assert_eq!(a.line_number, b.line_number);
        assert_eq!(a.text, b.text);
        assert_eq!(format!("{:?}", a.role), format!("{:?}", b.role));
    }
}

#[test]
fn test_after_context_rearmed_by_next_match() {
    // Two matches close together: the countdown restarts, and matched
    // rendering takes priority over pending after-context.
    let lines = source(&["a", "b", "c", "d", "e", "f"]);
    let out = slice_lines(&lines, vec![bounded(0, 1), bounded(2, 3)], 0, 2);
    let got: Vec<(usize, &str)> = out
        .iter()
        .map(|l| (l.line_number, l.text.as_str()))
        .collect();
    assert_eq!(got, vec![(1, "a"), (2, "b"), (3, "c"), (4, "d"), (5, "e")]);
    assert!(matches!(out[0].role, Role::Matched));
    assert!(matches!(out[1].role, Role::ContextAfter));
    assert!(matches!(out[2].role, Role::Matched));
    assert!(matches!(out[3].role, Role::ContextAfter));
    assert!(matches!(out[4].role, Role::ContextAfter));
}

#[test]
fn test_empty_range_no_output() {
    let lines = source(&["a", "b", "c"]);
    let out = slice_lines(&lines, vec![bounded(1, 1)], 0, 0);
    assert!(out.is_empty());
}
