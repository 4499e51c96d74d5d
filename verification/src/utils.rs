//! Range resolution: turning the configured selectors (plus an optional
//! precomputed total line count) into the ordered list of resolved
//! ranges the engine scans for, and the small helpers around it.

use crate::cli::Args;
use crate::ranges::{RangeEnd, ResolvedRange};
use vstd::prelude::*;

verus! {

/// The range `Tail(n)` selects from a source of `total` lines:
/// `[total - n, total)`, saturating to the whole source when `n >= total`.
pub open spec fn tail_range(n: usize, total: usize) -> ResolvedRange {
    ResolvedRange {
        start: if n >= total {
            0
        } else {
            (total - n) as usize
        },
        end: RangeEnd::Bounded(total),
    }
}

/// The range `Middle(n)` selects from a source of `total` lines:
/// `[mid - half, mid + half)` clamped to the source extent, where
/// `mid = total / 2` and `half = n / 2` (truncating division).
pub open spec fn middle_range(n: usize, total: usize) -> ResolvedRange {
    let mid = total as int / 2;
    let half = n as int / 2;
    ResolvedRange {
        start: if half >= mid {
            0
        } else {
            (mid - half) as usize
        },
        end: RangeEnd::Bounded(
            if mid + half >= total {
                total
            } else {
                (mid + half) as usize
            },
        ),
    }
}

/// The ranges resolved from `args`: one per present selector, in the
/// fixed order head, explicit range, tail, middle; the two selectors
/// that need a total line count contribute only when one is given.
pub open spec fn resolve_spec(args: Args, total_lines: Option<usize>) -> Seq<ResolvedRange> {
    let s0 = Seq::<ResolvedRange>::empty();
    let s1 = if args.head is Some {
        s0.push(ResolvedRange { start: 0, end: RangeEnd::Bounded(args.head->0) })
    } else {
        s0
    };
    let s2 = if args.lines is Some {
        s1.push(args.lines->0)
    } else {
        s1
    };
    if total_lines is Some {
        let total = total_lines->0;
        let s3 = if args.tail is Some {
            s2.push(tail_range(args.tail->0, total))
        } else {
            s2
        };
        if args.middle is Some {
            s3.push(middle_range(args.middle->0, total))
        } else {
            s3
        }
    } else {
        s2
    }
}

/// Resolves the configured selectors into concrete ranges. Every present
/// selector yields exactly one range; the result is an error for no
/// input (inverted explicit ranges are rejected earlier, at parse time).
pub fn resolve_ranges(args: &Args, total_lines: Option<usize>) -> (r: Result<
    Vec<ResolvedRange>,
    crate::parser::RangeError,
>)
    ensures
        r is Ok,
        r->Ok_0@ == resolve_spec(*args, total_lines),
{
    let mut ranges: Vec<ResolvedRange> = Vec::new();

    if let Some(n) = args.head {
        ranges.push(ResolvedRange { start: 0, end: RangeEnd::Bounded(n) });
    }

    if let Some(s) = args.lines {
        ranges.push(s);
    }

    if let Some(total) = total_lines {
        if let Some(n) = args.tail {
            let start = if n >= total {
                0
            } else {
                total - n
            };
            ranges.push(ResolvedRange { start, end: RangeEnd::Bounded(total) });
        }
        if let Some(n) = args.middle {
            let mid = total / 2;
            let half_width = n / 2;
            let start = if half_width >= mid {
                0
            } else {
                mid - half_width
            };
            let end = if mid + half_width >= total {
                total
            } else {
                mid + half_width
            };
            ranges.push(ResolvedRange { start, end: RangeEnd::Bounded(end) });
        }
    }

    Ok(ranges)
}

/// The before/after context sizes: each side takes its own flag if set,
/// else the combined `context` flag, else zero.
pub fn get_context_sizes(args: &Args) -> (r: (usize, usize))
    ensures
        r.0 == if args.before_context is Some {
            args.before_context->0
        } else if args.context is Some {
            args.context->0
        } else {
            0
        },
        r.1 == if args.after_context is Some {
            args.after_context->0
        } else if args.context is Some {
            args.context->0
        } else {
            0
        },
{
    let before = match args.before_context {
        Some(n) => n,
        None => match args.context {
            Some(n) => n,
            None => 0,
        },
    };
    let after = match args.after_context {
        Some(n) => n,
        None => match args.context {
            Some(n) => n,
            None => 0,
        },
    };
    (before, after)
}

/// The number of newline bytes in `s`.
pub open spec fn newline_count(s: Seq<u8>) -> nat
    decreases s.len(),
{
    if s.len() == 0 {
        0
    } else {
        newline_count(s.drop_last()) + if s.last() == 10 {
            1nat
        } else {
            0nat
        }
    }
}

/// Counts the newline bytes in one chunk of a source: the computing half
/// of the line-count pre-scan that `Tail` and `Middle` need, fed chunk by
/// chunk by the reader.
pub fn count_newlines(buf: &[u8]) -> (r: usize)
    ensures
        r == newline_count(buf@),
{
    let mut count: usize = 0;
    let mut i: usize = 0;
    let n = buf.len();
    while i < n
        invariant
            0 <= i <= n,
            n == buf@.len(),
            count == newline_count(buf@.subrange(0, i as int)),
            count <= i,
        decreases n - i,
    {
        proof {
            let p = buf@.subrange(0, i as int + 1);
            assert(p.drop_last() =~= buf@.subrange(0, i as int));
        }
        if buf[i] == 10 {
            count = count + 1;
        }
        i = i + 1;
    }
    proof {
        assert(buf@.subrange(0, n as int) =~= buf@);
    }
    count
}

} // verus!
