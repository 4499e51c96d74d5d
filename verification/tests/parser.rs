//! The explicit-range selector grammar and its error cases, and the
//! newline counter behind the line-count pre-scan.

use slice::parser::{parse_range, RangeError};
use slice::ranges::{RangeEnd, ResolvedRange};
use slice::utils::count_newlines;

#[test]
fn test_parse_dash_range() {
    assert_eq!(
        parse_range("2-4"),
        Ok(ResolvedRange { start: 1, end: RangeEnd::Bounded(4) })
    );
}

#[test]
fn test_parse_colon_range() {
    assert_eq!(
        parse_range("500:600"),
        Ok(ResolvedRange { start: 499, end: RangeEnd::Bounded(600) })
    );
}

#[test]
fn test_parse_open_ended() {
    assert_eq!(
        parse_range("500-"),
        Ok(ResolvedRange { start: 499, end: RangeEnd::Unbounded })
    );
}

#[test]
fn test_parse_zero_start_clamped() {
    // A start of 0 is treated as line 1, never underflowing.
    assert_eq!(
        parse_range("0-3"),
        Ok(ResolvedRange { start: 0, end: RangeEnd::Bounded(3) })
    );
}

#[test]
fn test_parse_empty_rejected() {
    assert_eq!(parse_range(""), Err(RangeError::InvalidFormat));
}

#[test]
fn test_parse_no_separator_rejected() {
    assert_eq!(parse_range("42"), Err(RangeError::InvalidFormat));
}

#[test]
fn test_parse_non_numeric_rejected() {
    assert_eq!(parse_range("a-b"), Err(RangeError::NotANumber));
    assert_eq!(parse_range("-5"), Err(RangeError::NotANumber));
    assert_eq!(parse_range("5-x"), Err(RangeError::NotANumber));
}

#[test]
fn test_parse_overflow_rejected() {
    assert_eq!(
        parse_range("99999999999999999999999-5"),
        Err(RangeError::NotANumber)
    );
}

#[test]
fn test_parse_inverted_rejected() {
    assert_eq!(parse_range("5-2"), Err(RangeError::StartAfterEnd));
}

#[test]
fn test_parse_equal_bounds_allowed() {
    assert_eq!(
        parse_range("3-3"),
        Ok(ResolvedRange { start: 2, end: RangeEnd::Bounded(3) })
    );
}

#[test]
fn test_count_newlines() {
    assert_eq!(count_newlines(b""), 0);
    assert_eq!(count_newlines(b"no newline"), 0);
    assert_eq!(count_newlines(b"a\nb\n"), 2);
    assert_eq!(count_newlines(b"\n\n\n"), 3);
}
