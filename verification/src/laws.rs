//! The library's laws: properties of range resolution and of the
//! streaming pass, stated over the same spec functions the executable
//! functions' contracts use, and proved once for all inputs.

use crate::engine::{
    init_model, run_spec, step_spec, stopped, EngineModel, RenderedModel, Role,
};
use crate::ranges::{
    has_unbounded, in_any, in_range, lemma_max_bounded_end_is_bound, max_bounded_end, RangeEnd,
    ResolvedRange,
};
use crate::utils::{middle_range, tail_range};
use vstd::prelude::*;

verus! {

/// Head law, resolution half: `Head(n)` is the range `[0, n)`.
pub proof fn lemma_head_resolution(n: usize)
    ensures
        in_any(seq![ResolvedRange { start: 0, end: RangeEnd::Bounded(n) }], 0nat as int)
            == (n > 0),
        forall|i: int|
            in_any(seq![ResolvedRange { start: 0, end: RangeEnd::Bounded(n) }], i) == (0 <= i
                < n),
{
    let rs = seq![ResolvedRange { start: 0, end: RangeEnd::Bounded(n) }];
    assert forall|i: int| in_any(rs, i) == (0 <= i < n) by {
        if 0 <= i < n {
            assert(in_range(rs[0], i));
        }
    }
}

/// Tail law: `Tail(n)` resolves to `[total - n, total)` with saturating
/// subtraction; when `n >= total` it covers the entire source.
pub proof fn lemma_tail_resolution(n: usize, total: usize)
    ensures
        tail_range(n, total).start as int == if n >= total {
            0int
        } else {
            total - n
        },
        tail_range(n, total).end == RangeEnd::Bounded(total),
        n >= total ==> tail_range(n, total) == (ResolvedRange {
            start: 0,
            end: RangeEnd::Bounded(total),
        }),
{
}

/// Middle law: `Middle(n)` resolves to `[max(0, total/2 - n/2),
/// min(total, total/2 + n/2))`, whose width never exceeds `n` (it may be
/// less near the source boundaries).
pub proof fn lemma_middle_resolution(n: usize, total: usize)
    ensures
        ({
            let r = middle_range(n, total);
            let mid = total as int / 2;
            let half = n as int / 2;
            &&& r.start as int == if mid - half >= 0 {
                mid - half
            } else {
                0int
            }
            &&& r.end == RangeEnd::Bounded(
                (if mid + half <= total {
                    mid + half
                } else {
                    total as int
                }) as usize,
            )
            &&& r.end->Bounded_0 - r.start <= n
        }),
{
    let mid = total as int / 2;
    let half = n as int / 2;
    assert(2 * half <= n);
    assert(2 * mid <= total);
}

/// Head law, pass half, generalised over the position reached: from line
/// index `idx` on, the pass over `[0, n)` without context emits the
/// remaining in-range lines, in order, each matched.
proof fn lemma_head_run(n: usize, lines: Seq<Seq<char>>, idx: int)
    requires
        0 <= idx,
    ensures
        ({
            let m = EngineModel {
                ranges: seq![ResolvedRange { start: 0, end: RangeEnd::Bounded(n) }],
                before: 0,
                after: 0,
                buffer: Seq::empty(),
                after_counter: 0,
                index: idx,
            };
            let out = run_spec(m, lines);
            &&& out.len() == if idx >= n {
                0int
            } else if n - idx <= lines.len() {
                n - idx
            } else {
                lines.len() as int
            }
            &&& forall|i: int|
                0 <= i < out.len() ==> out[i] == (RenderedModel {
                    line_number: idx + i + 1,
                    text: lines[i],
                    role: Role::Matched,
                })
        }),
    decreases lines.len(),
{
    let r = ResolvedRange { start: 0, end: RangeEnd::Bounded(n) };
    let rs = seq![r];
    let m = EngineModel {
        ranges: rs,
        before: 0,
        after: 0,
        buffer: Seq::empty(),
        after_counter: 0,
        index: idx,
    };
    assert(rs.drop_last() =~= Seq::<ResolvedRange>::empty());
    assert(max_bounded_end(Seq::<ResolvedRange>::empty()) == 0);
    assert(rs.last() == r);
    assert(max_bounded_end(rs) == n);
    assert(!has_unbounded(rs)) by {
        if has_unbounded(rs) {
            let k = choose|k: int| 0 <= k < rs.len() && rs[k].end is Unbounded;
            assert(rs[k] == r);
        }
    }
    if idx >= n {
        assert(stopped(m));
    } else if lines.len() == 0 {
    } else {
        assert(!stopped(m));
        assert(in_range(rs[0], idx));
        assert(in_any(rs, idx));
        let (out0, m2) = step_spec(m, lines[0]);
        assert(out0 =~= seq![
            RenderedModel { line_number: idx + 1, text: lines[0], role: Role::Matched },
        ]);
        assert(m2 == (EngineModel {
            ranges: rs,
            before: 0,
            after: 0,
            buffer: Seq::<(int, Seq<char>)>::empty(),
            after_counter: 0,
            index: idx + 1,
        })) by {
            assert(m2.buffer =~= Seq::<(int, Seq<char>)>::empty());
        }
        lemma_head_run(n, lines.drop_first(), idx + 1);
        assert(forall|i: int|
            0 <= i < lines.len() - 1 ==> #[trigger] lines.drop_first()[i] == lines[i + 1]);
    }
}

/// Head law, pass half: the pass over the single range `[0, n)` with no
/// context emits exactly `min(n, total_lines)` lines — the first
/// `min(n, total_lines)` source lines in original order, each matched.
pub proof fn lemma_head_emits_prefix(n: usize, lines: Seq<Seq<char>>)
    ensures
        ({
            let out = run_spec(
                init_model(seq![ResolvedRange { start: 0, end: RangeEnd::Bounded(n) }], 0, 0),
                lines,
            );
            &&& out.len() == if n <= lines.len() {
                n as int
            } else {
                lines.len() as int
            }
            &&& forall|i: int|
                0 <= i < out.len() ==> out[i] == (RenderedModel {
                    line_number: i + 1,
                    text: lines[i],
                    role: Role::Matched,
                })
        }),
{
    lemma_head_run(n, lines, 0);
}

/// Idempotence law: the pass output is a function of the source lines
/// and the configuration alone, so running the slicer twice on an
/// unmodified source with identical selectors yields identical output.
pub proof fn lemma_pass_deterministic(
    m1: EngineModel,
    m2: EngineModel,
    lines1: Seq<Seq<char>>,
    lines2: Seq<Seq<char>>,
)
    requires
        m1 == m2,
        lines1 == lines2,
    ensures
        run_spec(m1, lines1) == run_spec(m2, lines2),
{
}

/// Bounded-memory law: a step never grows the before-buffer beyond the
/// configured size, so at no point of a pass does the buffer length
/// exceed it, however long the source is.
pub proof fn lemma_buffer_bounded(m: EngineModel, text: Seq<char>)
    requires
        m.buffer.len() <= m.before,
    ensures
        step_spec(m, text).1.buffer.len() <= m.before,
{
}

/// How often a line number appears in the pass output.
pub open spec fn count_emissions(out: Seq<RenderedModel>, num: int) -> nat
    decreases out.len(),
{
    if out.len() == 0 {
        0
    } else {
        (if out[0].line_number == num {
            1nat
        } else {
            0nat
        }) + count_emissions(out.drop_first(), num)
    }
}

proof fn lemma_count_concat(a: Seq<RenderedModel>, b: Seq<RenderedModel>, num: int)
    ensures
        count_emissions(a + b, num) == count_emissions(a, num) + count_emissions(b, num),
    decreases a.len(),
{
    if a.len() == 0 {
        assert(a + b =~= b);
    } else {
        assert((a + b)[0] == a[0]);
        assert((a + b).drop_first() =~= a.drop_first() + b);
        lemma_count_concat(a.drop_first(), b, num);
    }
}

proof fn lemma_count_zero(out: Seq<RenderedModel>, num: int)
    requires
        forall|j: int| 0 <= j < out.len() ==> #[trigger] out[j].line_number != num,
    ensures
        count_emissions(out, num) == 0,
    decreases out.len(),
{
    if out.len() > 0 {
        assert(forall|j: int|
            0 <= j < out.drop_first().len() ==> #[trigger] out.drop_first()[j] == out[j + 1]);
        lemma_count_zero(out.drop_first(), num);
    }
}

/// Every line number in the output of a pass whose buffer and position
/// lie above `bound` also lies above `bound`.
proof fn lemma_output_numbers_above(m: EngineModel, lines: Seq<Seq<char>>, bound: int)
    requires
        forall|k: int| 0 <= k < m.buffer.len() ==> #[trigger] m.buffer[k].0 > bound,
        m.index >= bound,
    ensures
        forall|i: int|
            0 <= i < run_spec(m, lines).len() ==> #[trigger] run_spec(
                m,
                lines,
            )[i].line_number > bound,
    decreases lines.len(),
{
    if lines.len() == 0 || stopped(m) {
    } else {
        let (out0, m2) = step_spec(m, lines[0]);
        assert(forall|i: int| 0 <= i < out0.len() ==> #[trigger] out0[i].line_number > bound);
        assert(forall|k: int| 0 <= k < m2.buffer.len() ==> #[trigger] m2.buffer[k].0 > bound) by {
            if !in_any(m.ranges, m.index) && m.after_counter <= 0 && m.before > 0 {
                let pushed = m.buffer.push((m.index + 1, lines[0]));
                assert(forall|k: int|
                    0 <= k < pushed.len() ==> #[trigger] pushed[k].0 > bound);
                if pushed.len() > m.before {
                    assert(forall|k: int|
                        0 <= k < pushed.drop_first().len() ==> #[trigger] pushed.drop_first()[k]
                            == pushed[k + 1]);
                }
            }
        }
        lemma_output_numbers_above(m2, lines.drop_first(), bound);
        assert(forall|i: int|
            0 <= i < run_spec(m, lines).len() ==> #[trigger] run_spec(m, lines)[i].line_number
                > bound) by {
            assert(run_spec(m, lines) == out0 + run_spec(m2, lines.drop_first()));
            assert(forall|i: int|
                out0.len() <= i < run_spec(m, lines).len() ==> run_spec(m, lines)[i] == run_spec(
                    m2,
                    lines.drop_first(),
                )[i - out0.len()]);
        }
    }
}

/// No-double-emission law: a line index inside any resolved range —
/// overlapping ranges included — is emitted exactly once over the whole
/// pass, and that once as a matched line carrying the source line's
/// text; context rendering never duplicates it.
pub proof fn lemma_no_double_emission(m: EngineModel, lines: Seq<Seq<char>>, i: int)
    requires
        m.after >= 0,
        forall|k: int| 0 <= k < m.buffer.len() ==> #[trigger] m.buffer[k].0 <= m.index,
        in_any(m.ranges, i),
        m.index <= i,
        i - m.index < lines.len(),
    ensures
        ({
            let out = run_spec(m, lines);
            &&& count_emissions(out, i + 1) == 1
            &&& forall|j: int|
                0 <= j < out.len() && #[trigger] out[j].line_number == i + 1 ==> out[j]
                    == (RenderedModel {
                    line_number: i + 1,
                    text: lines[i - m.index],
                    role: Role::Matched,
                })
        }),
    decreases lines.len(),
{
    assert(!stopped(m)) by {
        if !has_unbounded(m.ranges) {
            let k = choose|k: int| 0 <= k < m.ranges.len() && in_range(m.ranges[k], i);
            match m.ranges[k].end {
                RangeEnd::Bounded(e) => {
                    lemma_max_bounded_end_is_bound(m.ranges, k);
                },
                RangeEnd::Unbounded => {
                    assert(has_unbounded(m.ranges));
                },
            }
        }
    }
    let (out0, m2) = step_spec(m, lines[0]);
    let rest = lines.drop_first();
    let out = run_spec(m, lines);
    assert(out == out0 + run_spec(m2, rest));
    lemma_count_concat(out0, run_spec(m2, rest), i + 1);
    if m.index == i {
        assert(in_any(m.ranges, m.index));
        let flushed = out0.drop_last();
        assert(forall|j: int|
            0 <= j < out0.len() - 1 ==> #[trigger] out0[j].line_number == m.buffer[j].0);
        lemma_count_zero(flushed, i + 1);
        assert(count_emissions(out0, i + 1) == 1) by {
            assert(out0 =~= flushed + seq![out0.last()]);
            lemma_count_concat(flushed, seq![out0.last()], i + 1);
            assert(out0.last().line_number == i + 1);
            assert(seq![out0.last()].drop_first() =~= Seq::<RenderedModel>::empty());
            assert(count_emissions(Seq::<RenderedModel>::empty(), i + 1) == 0);
            assert(count_emissions(seq![out0.last()], i + 1) == 1);
        }
        assert(m2.buffer.len() == 0 && m2.index == i + 1);
        lemma_output_numbers_above(m2, rest, i + 1);
        lemma_count_zero(run_spec(m2, rest), i + 1);
        assert(forall|j: int|
            0 <= j < out.len() && #[trigger] out[j].line_number == i + 1 ==> out[j] == (
            RenderedModel { line_number: i + 1, text: lines[0], role: Role::Matched })) by {
            assert(forall|j: int| 0 <= j < out0.len() ==> out[j] == out0[j]);
            assert(forall|j: int|
                out0.len() <= j < out.len() ==> out[j] == run_spec(m2, rest)[j - out0.len()]);
        }
    } else {
        assert(forall|j: int|
            0 <= j < out0.len() ==> #[trigger] out0[j].line_number <= m.index + 1);
        lemma_count_zero(out0, i + 1);
        assert(forall|k: int| 0 <= k < m2.buffer.len() ==> #[trigger] m2.buffer[k].0 <= m2.index)
            by {
            if !in_any(m.ranges, m.index) && m.after_counter <= 0 && m.before > 0 {
                let pushed = m.buffer.push((m.index + 1, lines[0]));
                assert(forall|k: int|
                    0 <= k < pushed.len() ==> #[trigger] pushed[k].0 <= m.index + 1);
                if pushed.len() > m.before {
                    assert(forall|k: int|
                        0 <= k < pushed.drop_first().len() ==> #[trigger] pushed.drop_first()[k]
                            == pushed[k + 1]);
                }
            }
        }
        lemma_no_double_emission(m2, rest, i);
        assert(rest[i - m2.index] == lines[i - m.index]);
        assert(forall|j: int|
            0 <= j < out.len() && #[trigger] out[j].line_number == i + 1 ==> out[j] == (
            RenderedModel { line_number: i + 1, text: lines[i - m.index], role: Role::Matched }))
            by {
            assert(forall|j: int| 0 <= j < out0.len() ==> out[j] == out0[j]);
            assert(forall|j: int|
                out0.len() <= j < out.len() ==> out[j] == run_spec(m2, rest)[j - out0.len()]);
        }
    }
}

/// No-double-emission law over a whole pass: from the initial state,
/// a line index inside any resolved range is emitted exactly once, as a
/// matched line carrying the source line's text.
pub proof fn lemma_no_double_emission_whole_pass(
    ranges: Seq<ResolvedRange>,
    before: int,
    after: int,
    lines: Seq<Seq<char>>,
    i: int,
)
    requires
        after >= 0,
        in_any(ranges, i),
        0 <= i < lines.len(),
    ensures
        ({
            let out = run_spec(init_model(ranges, before, after), lines);
            &&& count_emissions(out, i + 1) == 1
            &&& forall|j: int|
                0 <= j < out.len() && #[trigger] out[j].line_number == i + 1 ==> out[j]
                    == (RenderedModel {
                    line_number: i + 1,
                    text: lines[i],
                    role: Role::Matched,
                })
        }),
{
    lemma_no_double_emission(init_model(ranges, before, after), lines, i);
}

/// Early-stop law: when every range is concrete, lines at or past the
/// largest range end plus the after-context size cannot affect the
/// output — the pass over the whole source equals the pass over that
/// prefix, so the engine need never read further.
pub proof fn lemma_early_stop(m: EngineModel, lines: Seq<Seq<char>>, k: int)
    requires
        !has_unbounded(m.ranges),
        m.index + k >= max_bounded_end(m.ranges) + m.after,
        0 <= k <= lines.len(),
    ensures
        run_spec(m, lines) == run_spec(m, lines.subrange(0, k)),
    decreases lines.len(),
{
    if lines.len() == 0 || stopped(m) {
    } else {
        assert(k >= 1);
        let (out0, m2) = step_spec(m, lines[0]);
        let sub = lines.subrange(0, k);
        assert(sub[0] == lines[0]);
        assert(sub.drop_first() =~= lines.drop_first().subrange(0, k - 1));
        lemma_early_stop(m2, lines.drop_first(), k - 1);
    }
}

} // verus!
