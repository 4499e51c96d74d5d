//! Parsing of explicit range selectors such as `"500-600"`, `"500:600"`
//! and the open-ended `"500-"`, including the verified decimal parser the
//! selector grammar rests on.

use crate::ranges::{RangeEnd, ResolvedRange};
use vstd::prelude::*;

verus! {

/// Why an explicit range selector was rejected.
#[derive(Clone, Copy, Debug, PartialEq, Eq, Structural)]
pub enum RangeError {
    /// No `-` or `:` separator was found (an empty input included).
    InvalidFormat,
    /// A bound is empty, holds a non-digit, or does not fit in `usize`.
    NotANumber,
    /// The 1-based start lies after the 1-based end.
    StartAfterEnd,
}

pub open spec fn is_digit(c: char) -> bool {
    '0' <= c && c <= '9'
}

pub open spec fn digit_val(c: char) -> nat {
    (c as int - '0' as int) as nat
}

pub open spec fn all_digits(s: Seq<char>) -> bool {
    forall|i: int| 0 <= i < s.len() ==> is_digit(#[trigger] s[i])
}

/// The value of a digit string read as a decimal numeral.
pub open spec fn dec_val(s: Seq<char>) -> nat
    decreases s.len(),
{
    if s.len() == 0 {
        0
    } else {
        dec_val(s.drop_last()) * 10 + digit_val(s.last())
    }
}

/// A prefix of a digit string never exceeds the whole string's value.
proof fn lemma_dec_val_prefix_le(s: Seq<char>, i: int)
    requires
        0 <= i <= s.len(),
    ensures
        dec_val(s.subrange(0, i)) <= dec_val(s),
    decreases s.len() - i,
{
    if i == s.len() {
        assert(s.subrange(0, i) =~= s);
    } else {
        lemma_dec_val_prefix_le(s, i + 1);
        let p = s.subrange(0, i + 1);
        assert(p.drop_last() =~= s.subrange(0, i));
        assert(dec_val(s.subrange(0, i)) <= dec_val(p));
    }
}

pub open spec fn is_sep(c: char) -> bool {
    c == '-' || c == ':'
}

/// Index of the first `-` or `:` in `s`, or -1 when there is none.
pub open spec fn first_sep(s: Seq<char>) -> int
    decreases s.len(),
{
    if s.len() == 0 {
        -1
    } else if is_sep(s[0]) {
        0
    } else {
        let r = first_sep(s.drop_first());
        if r < 0 {
            -1
        } else {
            r + 1
        }
    }
}

/// `first_sep` is exactly the index found by a left-to-right scan.
proof fn lemma_first_sep_at(s: Seq<char>, i: int)
    requires
        0 <= i < s.len(),
        is_sep(s[i]),
        forall|j: int| 0 <= j < i ==> !is_sep(#[trigger] s[j]),
    ensures
        first_sep(s) == i,
    decreases s.len(),
{
    if i == 0 {
    } else {
        assert(!is_sep(s[0]));
        let t = s.drop_first();
        assert(t[i - 1] == s[i]);
        assert(forall|j: int| 0 <= j < i - 1 ==> !is_sep(#[trigger] t[j]));
        lemma_first_sep_at(t, i - 1);
    }
}

/// A string without separators has no `first_sep`.
proof fn lemma_first_sep_none(s: Seq<char>)
    requires
        forall|j: int| 0 <= j < s.len() ==> !is_sep(#[trigger] s[j]),
    ensures
        first_sep(s) == -1,
    decreases s.len(),
{
    if s.len() > 0 {
        let t = s.drop_first();
        assert(forall|j: int| 0 <= j < t.len() ==> t[j] == s[j + 1] && !is_sep(#[trigger] t[j]));
        lemma_first_sep_none(t);
    }
}

/// Whether a digit string parses as a `usize`: non-empty, digits only,
/// and within range.
pub open spec fn parses_as_usize(s: Seq<char>) -> bool {
    s.len() > 0 && all_digits(s) && dec_val(s) <= usize::MAX
}

/// Parses a non-empty all-digit string into its decimal value; rejects
/// anything else, values above `usize::MAX` included.
pub fn parse_usize(s: &str) -> (r: Option<usize>)
    ensures
        match r {
            Some(v) => parses_as_usize(s@) && v == dec_val(s@),
            None => !parses_as_usize(s@),
        },
{
    let n = s.unicode_len();
    if n == 0 {
        return None;
    }
    let mut acc: usize = 0;
    let mut i: usize = 0;
    while i < n
        invariant
            0 <= i <= n,
            n == s@.len(),
            all_digits(s@.subrange(0, i as int)),
            acc == dec_val(s@.subrange(0, i as int)),
        decreases n - i,
    {
        let c = s.get_char(i);
        if !(c >= '0' && c <= '9') {
            assert(!is_digit(s@[i as int]));
            return None;
        }
        let d: u32 = c as u32 - '0' as u32;
        proof {
            let p = s@.subrange(0, i as int + 1);
            assert(p.drop_last() =~= s@.subrange(0, i as int));
            assert(p.last() == s@[i as int]);
        }
        let acc10 = match acc.checked_mul(10) {
            Some(v) => v,
            None => {
                proof {
                    lemma_dec_val_prefix_le(s@, i as int + 1);
                }
                return None;
            },
        };
        let next = match acc10.checked_add(d as usize) {
            Some(v) => v,
            None => {
                proof {
                    lemma_dec_val_prefix_le(s@, i as int + 1);
                }
                return None;
            },
        };
        acc = next;
        i = i + 1;
    }
    proof {
        assert(s@.subrange(0, n as int) =~= s@);
    }
    Some(acc)
}

/// What `parse_range` returns, stated over the character sequence: split
/// at the first `-`/`:`, read both 1-based bounds (an absent end bound
/// means open-ended), reject an inverted pair, clamp a start of 0 to
/// line 1, and convert the start to a zero-based index.
pub open spec fn parse_range_spec(s: Seq<char>) -> Result<ResolvedRange, RangeError> {
    let i = first_sep(s);
    if i < 0 {
        Err(RangeError::InvalidFormat)
    } else {
        let start_s = s.subrange(0, i);
        let end_s = s.subrange(i + 1, s.len() as int);
        if !parses_as_usize(start_s) {
            Err(RangeError::NotANumber)
        } else {
            let start_1 = dec_val(start_s);
            let start_0 = if start_1 == 0 {
                0
            } else {
                (start_1 - 1) as nat
            };
            if end_s.len() == 0 {
                Ok(ResolvedRange { start: start_0 as usize, end: RangeEnd::Unbounded })
            } else if !parses_as_usize(end_s) {
                Err(RangeError::NotANumber)
            } else if start_1 > dec_val(end_s) {
                Err(RangeError::StartAfterEnd)
            } else {
                Ok(
                    ResolvedRange {
                        start: start_0 as usize,
                        end: RangeEnd::Bounded(dec_val(end_s) as usize),
                    },
                )
            }
        }
    }
}

/// Parses an explicit range selector (`"START-END"`, `"START:END"`, or the
/// open-ended `"START-"`) into a half-open zero-based range.
pub fn parse_range(s: &str) -> (r: Result<ResolvedRange, RangeError>)
    ensures
        r == parse_range_spec(s@),
{
    let n = s.unicode_len();
    let mut i: usize = 0;
    while i < n
        invariant
            0 <= i <= n,
            n == s@.len(),
            forall|j: int| 0 <= j < i ==> !is_sep(#[trigger] s@[j]),
        decreases n - i,
    {
        let c = s.get_char(i);
        if c == '-' || c == ':' {
            proof {
                lemma_first_sep_at(s@, i as int);
            }
            let start_str = s.substring_char(0, i);
            let end_str = s.substring_char(i + 1, n);
            let start_1 = match parse_usize(start_str) {
                Some(v) => v,
                None => {
                    return Err(RangeError::NotANumber);
                },
            };
            let start_0 = if start_1 == 0 {
                0
            } else {
                start_1 - 1
            };
            if end_str.unicode_len() == 0 {
                return Ok(ResolvedRange { start: start_0, end: RangeEnd::Unbounded });
            }
            let end_1 = match parse_usize(end_str) {
                Some(v) => v,
                None => {
                    return Err(RangeError::NotANumber);
                },
            };
            if start_1 > end_1 {
                return Err(RangeError::StartAfterEnd);
            }
            return Ok(ResolvedRange { start: start_0, end: RangeEnd::Bounded(end_1) });
        }
        i = i + 1;
    }
    proof {
        lemma_first_sep_none(s@);
    }
    Err(RangeError::InvalidFormat)
}

} // verus!
