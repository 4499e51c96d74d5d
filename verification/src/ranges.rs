//! The resolved-range model: half-open, zero-based line-index intervals,
//! possibly open-ended, and the membership and stop-bound functions the
//! slicing engine is specified against.

use vstd::prelude::*;

verus! {

/// The upper end of a resolved range: a concrete exclusive bound, or open
/// ("through end of source", from an input such as `"500-"`).
#[derive(Clone, Copy, Debug, PartialEq, Eq, Structural)]
pub enum RangeEnd {
    Bounded(usize),
    Unbounded,
}

/// A half-open interval `[start, end)` of zero-based line indices.
#[derive(Clone, Copy, Debug, PartialEq, Eq, Structural)]
pub struct ResolvedRange {
    pub start: usize,
    pub end: RangeEnd,
}

/// Whether line index `i` lies inside range `r`.
pub open spec fn in_range(r: ResolvedRange, i: int) -> bool {
    r.start <= i && match r.end {
        RangeEnd::Bounded(e) => i < e,
        RangeEnd::Unbounded => true,
    }
}

/// Whether line index `i` lies inside any of the ranges: the engine's
/// membership test, so overlapping ranges never select a line twice.
pub open spec fn in_any(rs: Seq<ResolvedRange>, i: int) -> bool {
    exists|k: int| 0 <= k < rs.len() && in_range(rs[k], i)
}

/// Whether some range is open-ended, in which case no early-stop bound
/// exists and the pass must run to end of source.
pub open spec fn has_unbounded(rs: Seq<ResolvedRange>) -> bool {
    exists|k: int| 0 <= k < rs.len() && rs[k].end is Unbounded
}

/// The largest concrete range end, or 0 when there is none. Together with
/// the after-context size this gives the early-stop bound.
pub open spec fn max_bounded_end(rs: Seq<ResolvedRange>) -> int
    decreases rs.len(),
{
    if rs.len() == 0 {
        0
    } else {
        let rest = max_bounded_end(rs.drop_last());
        let e = match rs.last().end {
            RangeEnd::Bounded(e) => e as int,
            RangeEnd::Unbounded => 0,
        };
        if e > rest {
            e
        } else {
            rest
        }
    }
}

/// No bounded range reaches past `max_bounded_end`.
pub proof fn lemma_max_bounded_end_is_bound(rs: Seq<ResolvedRange>, k: int)
    requires
        0 <= k < rs.len(),
        rs[k].end is Bounded,
    ensures
        rs[k].end->Bounded_0 <= max_bounded_end(rs),
    decreases rs.len(),
{
    if k == rs.len() - 1 {
        assert(rs.last() == rs[k]);
    } else {
        lemma_max_bounded_end_is_bound(rs.drop_last(), k);
        assert(rs.drop_last()[k] == rs[k]);
    }
}

} // verus!
