//! Rendering and its inverse: exact grep-style formatting, the
//! number-stripping round trip, and emphasis through the color crate.

use slice::engine::{RenderedLine, Role};
use slice::render::{render_line, strip_numbering};

fn matched(num: usize, text: &str) -> RenderedLine {
    RenderedLine { line_number: num, text: text.to_string(), role: Role::Matched }
}

fn context(num: usize, text: &str) -> RenderedLine {
    RenderedLine { line_number: num, text: text.to_string(), role: Role::ContextBefore }
}

#[test]
fn test_render_matched_plain() {
    let r = render_line(&matched(5, "Hello"), true, false);
    assert_eq!(r, "5:\tHello");
}

#[test]
fn test_render_context_plain() {
    let r = render_line(&context(12, "world"), true, false);
    assert_eq!(r, "12-\tworld");
}

#[test]
fn test_render_without_numbers_is_raw_text() {
    let r = render_line(&matched(5, "Hello"), false, true);
    assert_eq!(r, "Hello");
}

#[test]
fn test_strip_recovers_text_plain() {
    let line = matched(42, "some text\twith a tab");
    let r = render_line(&line, true, false);
    assert_eq!(strip_numbering(&r), "some text\twith a tab");
}

#[test]
fn test_strip_recovers_text_colored() {
    let line = matched(7, "payload");
    let r = render_line(&line, true, true);
    assert_eq!(strip_numbering(&r), "payload");
    let c = context(8, "nearby");
    let rc = render_line(&c, true, true);
    assert_eq!(strip_numbering(&rc), "nearby");
}

#[test]
fn test_strip_without_tab_is_identity() {
    assert_eq!(strip_numbering("plain line"), "plain line");
}

#[test]
fn test_emphasis_wraps_number_when_forced() {
    // Force colors on, as the Always mode does for piped output: the
    // number field is wrapped in escape codes, yet stripping still
    // recovers the text and the number is still present.
    colored::control::set_override(true);
    let r = render_line(&matched(5, "Hello"), true, true);
    colored::control::unset_override();
    assert!(r.contains('\u{1b}'));
    assert!(r.contains('5'));
    assert!(r.ends_with("\tHello"));
    assert_eq!(strip_numbering(&r), "Hello");
}

#[test]
fn test_large_line_number() {
    let r = render_line(&matched(1234567890, "x"), true, false);
    assert_eq!(r, "1234567890:\tx");
}
