//! The selector behaviours the command-line tool is built on, exercised
//! through the library: head, tail and explicit-range slicing.

use slice::cli::{Args, ColorMode};
use slice::engine::slice_lines;
use slice::parser::parse_range;
use slice::render::render_line;
use slice::utils::{get_context_sizes, resolve_ranges};

fn base_args() -> Args {
    Args {
        head: None,
        tail: None,
        middle: None,
        lines: None,
        after_match: None,
        bytes: None,
        context: None,
        after_context: None,
        before_context: None,
        show_line_numbers: false,
        color: ColorMode::Never,
        quiet: false,
        follow: false,
    }
}

fn source(lines: &[&str]) -> Vec<String> {
    lines.iter().map(|s| s.to_string()).collect()
}

fn run(args: &Args, lines: &[&str], total: Option<usize>) -> String {
    let ranges = resolve_ranges(args, total).unwrap();
    let (before, after) = get_context_sizes(args);
    let out = slice_lines(&source(lines), ranges, before, after);
    let mut rendered = String::new();
    for (i, line) in out.iter().enumerate() {
        if i > 0 {
            rendered.push('\n');
        }
        rendered.push_str(&render_line(line, args.show_line_numbers, false));
    }
    rendered
}

#[test]
fn test_head_basic() {
    let mut args = base_args();
    args.head = Some(2);
    let out = run(&args, &["Line 1", "Line 2", "Line 3", "Line 4"], None);
    assert_eq!(out, "Line 1\nLine 2");
}

#[test]
fn test_tail_basic() {
    let mut args = base_args();
    args.tail = Some(2);
    let out = run(&args, &["Line 1", "Line 2", "Line 3", "Line 4"], Some(4));
    assert_eq!(out, "Line 3\nLine 4");
}

#[test]
fn test_lines_range() {
    let mut args = base_args();
    args.lines = Some(parse_range("2-4").unwrap());
    let out = run(&args, &["A", "B", "C", "D", "E"], None);
    assert_eq!(out, "B\nC\nD");
}

#[test]
fn test_open_ended_range() {
    let mut args = base_args();
    args.lines = Some(parse_range("5-").unwrap());
    let out = run(
        &args,
        &["l1", "l2", "l3", "l4", "l5", "l6", "l7", "l8", "l9", "l10"],
        None,
    );
    assert_eq!(out, "l5\nl6\nl7\nl8\nl9\nl10");
}

#[test]
fn test_middle_even_total() {
    let mut args = base_args();
    args.middle = Some(4);
    let out = run(
        &args,
        &["l1", "l2", "l3", "l4", "l5", "l6", "l7", "l8", "l9", "l10"],
        Some(10),
    );
    // mid = 5, half = 2: lines 4 through 7.
    assert_eq!(out, "l4\nl5\nl6\nl7");
}

#[test]
fn test_middle_odd_total() {
    let mut args = base_args();
    args.middle = Some(2);
    let out = run(&args, &["a", "b", "c", "d", "e"], Some(5));
    // mid = 2, half = 1: lines 2 and 3.
    assert_eq!(out, "b\nc");
}

#[test]
fn test_tail_larger_than_source() {
    let mut args = base_args();
    args.tail = Some(9);
    let out = run(&args, &["x", "y", "z"], Some(3));
    assert_eq!(out, "x\ny\nz");
}

#[test]
fn test_no_selectors_no_output() {
    let args = base_args();
    let out = run(&args, &["a", "b"], None);
    assert_eq!(out, "");
}

#[test]
fn test_combined_selectors_union() {
    let mut args = base_args();
    args.head = Some(1);
    args.tail = Some(1);
    let out = run(&args, &["first", "mid", "last"], Some(3));
    assert_eq!(out, "first\nlast");
}

#[test]
fn test_context_sizes_combined_flag() {
    let mut args = base_args();
    args.context = Some(2);
    assert_eq!(get_context_sizes(&args), (2, 2));
    args.before_context = Some(1);
    assert_eq!(get_context_sizes(&args), (1, 2));
    args.after_context = Some(0);
    assert_eq!(get_context_sizes(&args), (1, 0));
}

#[test]
fn test_color_mode_emphasis() {
    assert!(ColorMode::Auto.applies_emphasis());
    assert!(ColorMode::Always.applies_emphasis());
    assert!(!ColorMode::Never.applies_emphasis());
}
