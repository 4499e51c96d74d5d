//! The streaming slice engine: one forward pass over the source that
//! detects membership in any resolved range, keeps a bounded buffer of
//! before-context lines, emits a counted tail of after-context lines, and
//! stops as soon as no further input can matter.

use crate::ranges::{has_unbounded, in_any, in_range, max_bounded_end, RangeEnd, ResolvedRange};
use std::collections::VecDeque;
use vstd::prelude::*;

verus! {

/// Why a line was emitted: it satisfied a selector, or it only surrounds
/// a line that did.
#[derive(Clone, Copy, Debug, PartialEq, Eq, Structural)]
pub enum Role {
    Matched,
    ContextBefore,
    ContextAfter,
}

/// One emitted line: its 1-based number, its text (newline stripped by
/// the reader), and its role.
#[derive(Clone, Debug)]
pub struct RenderedLine {
    pub line_number: usize,
    pub text: String,
    pub role: Role,
}

/// The mathematical value of an emitted line.
#[verifier::ext_equal]
pub ghost struct RenderedModel {
    pub line_number: int,
    pub text: Seq<char>,
    pub role: Role,
}

impl View for RenderedLine {
    type V = RenderedModel;

    open spec fn view(&self) -> RenderedModel {
        RenderedModel {
            line_number: self.line_number as int,
            text: self.text@,
            role: self.role,
        }
    }
}

/// The mathematical state of a pass: the fixed configuration (ranges and
/// context sizes) and the three moving parts (before-buffer contents,
/// after-context countdown, next line index).
#[verifier::ext_equal]
pub ghost struct EngineModel {
    pub ranges: Seq<ResolvedRange>,
    pub before: int,
    pub after: int,
    pub buffer: Seq<(int, Seq<char>)>,
    pub after_counter: int,
    pub index: int,
}

/// The state a pass starts from: empty buffer, no after-context owed,
/// next line index 0.
pub open spec fn init_model(ranges: Seq<ResolvedRange>, before: int, after: int) -> EngineModel {
    EngineModel { ranges, before, after, buffer: Seq::empty(), after_counter: 0, index: 0 }
}

/// Whether the early-stop bound is reached: every range is concrete and
/// the next line index lies at or past the largest range end plus the
/// after-context size, so nothing further can be emitted.
pub open spec fn stopped(m: EngineModel) -> bool {
    !has_unbounded(m.ranges) && m.index >= max_bounded_end(m.ranges) + m.after
}

/// The emitted lines' mathematical values, in emission order.
pub open spec fn views_of(out: Seq<RenderedLine>) -> Seq<RenderedModel> {
    out.map_values(|l: RenderedLine| l@)
}

/// The before-buffer contents as emitted lines, oldest first.
pub open spec fn flush_models(buffer: Seq<(int, Seq<char>)>) -> Seq<RenderedModel> {
    buffer.map_values(
        |e: (int, Seq<char>)|
            RenderedModel { line_number: e.0, text: e.1, role: Role::ContextBefore },
    )
}

/// One step of the pass on the next line: what is emitted and the state
/// that results. A matching line drains the buffer as before-context,
/// is emitted itself, and re-arms the after-context countdown; a
/// non-matching line is emitted as after-context while the countdown
/// runs, else buffered (evicting the oldest entry at capacity), else
/// discarded.
pub open spec fn step_spec(m: EngineModel, text: Seq<char>) -> (Seq<RenderedModel>, EngineModel) {
    let num = m.index + 1;
    if in_any(m.ranges, m.index) {
        (
            flush_models(m.buffer).push(
                RenderedModel { line_number: num, text, role: Role::Matched },
            ),
            EngineModel {
                ranges: m.ranges,
                before: m.before,
                after: m.after,
                buffer: Seq::empty(),
                after_counter: m.after,
                index: num,
            },
        )
    } else if m.after_counter > 0 {
        (
            seq![RenderedModel { line_number: num, text, role: Role::ContextAfter }],
            EngineModel {
                ranges: m.ranges,
                before: m.before,
                after: m.after,
                buffer: m.buffer,
                after_counter: m.after_counter - 1,
                index: num,
            },
        )
    } else if m.before > 0 {
        let pushed = m.buffer.push((num, text));
        let buf = if pushed.len() > m.before {
            pushed.drop_first()
        } else {
            pushed
        };
        (
            Seq::empty(),
            EngineModel {
                ranges: m.ranges,
                before: m.before,
                after: m.after,
                buffer: buf,
                after_counter: m.after_counter,
                index: num,
            },
        )
    } else {
        (
            Seq::empty(),
            EngineModel {
                ranges: m.ranges,
                before: m.before,
                after: m.after,
                buffer: m.buffer,
                after_counter: m.after_counter,
                index: num,
            },
        )
    }
}

/// The whole pass over the remaining lines: empty once the input or the
/// early-stop bound is exhausted, else one step followed by the rest.
pub open spec fn run_spec(m: EngineModel, lines: Seq<Seq<char>>) -> Seq<RenderedModel>
    decreases lines.len(),
{
    if lines.len() == 0 || stopped(m) {
        Seq::empty()
    } else {
        let (out, m2) = step_spec(m, lines[0]);
        out + run_spec(m2, lines.drop_first())
    }
}

/// The streaming slice engine. Feed it lines in source order with
/// [`Self::process_line`] while [`Self::wants_more`] holds; what it
/// hands back is exactly the pass [`run_spec`] describes.
pub struct SliceEngine {
    ranges: Vec<ResolvedRange>,
    before: usize,
    after: usize,
    buffer: VecDeque<(usize, String)>,
    after_counter: usize,
    index: usize,
}

impl View for SliceEngine {
    type V = EngineModel;

    closed spec fn view(&self) -> EngineModel {
        EngineModel {
            ranges: self.ranges@,
            before: self.before as int,
            after: self.after as int,
            buffer: self.buffer@.map_values(|e: (usize, String)| (e.0 as int, e.1@)),
            after_counter: self.after_counter as int,
            index: self.index as int,
        }
    }
}

impl SliceEngine {
    /// The engine's invariant: the before-buffer never outgrows the
    /// configured size, the countdown never exceeds the configured
    /// after-context, and buffered line numbers are of lines already
    /// consumed.
    pub open spec fn wf(&self) -> bool {
        &&& self@.buffer.len() <= self@.before
        &&& self@.after_counter <= self@.after
        &&& forall|k: int|
            0 <= k < self@.buffer.len() ==> #[trigger] self@.buffer[k].0 <= self@.index
    }

    /// A fresh engine for one pass over one source.
    pub fn new(ranges: Vec<ResolvedRange>, before: usize, after: usize) -> (e: Self)
        ensures
            e.wf(),
            e@ == init_model(ranges@, before as int, after as int),
    {
        let e = SliceEngine {
            ranges,
            before,
            after,
            buffer: VecDeque::new(),
            after_counter: 0,
            index: 0,
        };
        proof {
            assert(e@.buffer =~= Seq::<(int, Seq<char>)>::empty());
        }
        e
    }

    /// Whether more input could still matter. Once this returns false
    /// the caller can stop reading: the engine will never emit again.
    pub fn wants_more(&self) -> (r: bool)
        ensures
            r == !stopped(self@),
    {
        let n = self.ranges.len();
        let mut max_end: usize = 0;
        let mut unbounded = false;
        let mut k: usize = 0;
        while k < n
            invariant
                0 <= k <= n,
                n == self.ranges@.len(),
                unbounded == has_unbounded(self.ranges@.subrange(0, k as int)),
                max_end as int == max_bounded_end(self.ranges@.subrange(0, k as int)),
            decreases n - k,
        {
            proof {
                let p = self.ranges@.subrange(0, k as int + 1);
                assert(p.drop_last() =~= self.ranges@.subrange(0, k as int));
                assert(p.last() == self.ranges@[k as int]);
            }
            match self.ranges[k].end {
                RangeEnd::Unbounded => {
                    unbounded = true;
                },
                RangeEnd::Bounded(e) => {
                    if e > max_end {
                        max_end = e;
                    }
                },
            }
            proof {
                let p = self.ranges@.subrange(0, k as int + 1);
                if unbounded {
                    if self.ranges@[k as int].end is Unbounded {
                        assert(p[k as int].end is Unbounded);
                    } else {
                        let j = choose|j: int|
                            0 <= j < k && self.ranges@.subrange(0, k as int)[j].end is Unbounded;
                        assert(p[j].end is Unbounded);
                    }
                }
            }
            k = k + 1;
        }
        proof {
            assert(self.ranges@.subrange(0, n as int) =~= self.ranges@);
        }
        if unbounded {
            true
        } else {
            (self.index as u128) < (max_end as u128) + (self.after as u128)
        }
    }

    /// Consumes the next source line and returns what it causes to be
    /// emitted, in order: exactly one [`step_spec`] step.
    pub fn process_line(&mut self, text: &str) -> (out: Vec<RenderedLine>)
        requires
            old(self).wf(),
            old(self)@.index < usize::MAX,
        ensures
            final(self).wf(),
            views_of(out@) == step_spec(old(self)@, text@).0,
            final(self)@ == step_spec(old(self)@, text@).1,
    {
        let ghost m = self@;
        let line_num = self.index + 1;

        let n = self.ranges.len();
        let mut is_match = false;
        let mut k: usize = 0;
        while k < n
            invariant
                0 <= k <= n,
                n == m.ranges.len(),
                self@ == m,
                is_match ==> in_any(m.ranges, m.index),
                !is_match ==> forall|j: int| 0 <= j < k ==> !in_range(#[trigger] m.ranges[j], m.index),
            decreases n - k,
        {
            let r = self.ranges[k];
            let hit = r.start <= self.index && (match r.end {
                RangeEnd::Bounded(e) => self.index < e,
                RangeEnd::Unbounded => true,
            });
            if hit {
                is_match = true;
                proof {
                    assert(in_range(m.ranges[k as int], m.index));
                }
            }
            k = k + 1;
        }
        proof {
            if !is_match && in_any(m.ranges, m.index) {
                let j = choose|j: int| 0 <= j < m.ranges.len() && in_range(m.ranges[j], m.index);
                assert(!in_range(m.ranges[j], m.index));
            }
        }

        if is_match {
            let mut out: Vec<RenderedLine> = Vec::new();
            let ghost bexec = self.buffer@;
            while self.buffer.len() > 0
                invariant
                    out@.len() <= bexec.len(),
                    self.buffer@ =~= bexec.subrange(out@.len() as int, bexec.len() as int),
                    views_of(out@) =~= flush_models(m.buffer.subrange(0, out@.len() as int)),
                    m.buffer =~= bexec.map_values(|e: (usize, String)| (e.0 as int, e.1@)),
                    self.ranges@ == m.ranges,
                    self.before as int == m.before,
                    self.after as int == m.after,
                    self.after_counter as int == m.after_counter,
                    self.index as int == m.index,
                decreases self.buffer@.len(),
            {
                let ghost j = out@.len() as int;
                let e = match self.buffer.pop_front() {
                    Some(e) => e,
                    None => {
                        proof {
                            assert(false);
                        }
                        unreached()
                    },
                };
                proof {
                    assert(bexec.subrange(j, bexec.len() as int)[0] == bexec[j]);
                    assert(bexec.subrange(j, bexec.len() as int).subrange(
                        1,
                        (bexec.len() - j) as int,
                    ) =~= bexec.subrange(j + 1, bexec.len() as int));
                }
                let ghost ev = e;
                let ghost out0 = out@;
                out.push(RenderedLine { line_number: e.0, text: e.1, role: Role::ContextBefore });
                proof {
                    assert(m.buffer[j] == (bexec[j].0 as int, bexec[j].1@));
                    assert(forall|i: int| 0 <= i < j ==> out@[i] == out0[i]);
                    assert(forall|i: int|
                        0 <= i < j ==> #[trigger] views_of(out@)[i] == views_of(out0)[i]
                            && views_of(out0)[i] == flush_models(m.buffer.subrange(0, j))[i]);
                    assert(forall|i: int|
                        0 <= i < j ==> #[trigger] m.buffer.subrange(0, j)[i] == m.buffer.subrange(
                            0,
                            j + 1,
                        )[i]);
                    assert(out@[j]@ == RenderedModel {
                        line_number: m.buffer[j].0,
                        text: m.buffer[j].1,
                        role: Role::ContextBefore,
                    });
                    assert(views_of(out@) =~= flush_models(m.buffer.subrange(0, j + 1)));
                }
            }
            proof {
                assert(m.buffer.subrange(0, m.buffer.len() as int) =~= m.buffer);
            }
            out.push(
                RenderedLine { line_number: line_num, text: text.to_owned(), role: Role::Matched },
            );
            self.after_counter = self.after;
            self.index = line_num;
            proof {
                assert(views_of(out@) =~= step_spec(m, text@).0);
                assert(self@.buffer =~= Seq::<(int, Seq<char>)>::empty());
                assert(self@ =~= step_spec(m, text@).1);
            }
            out
        } else if self.after_counter > 0 {
            let mut out: Vec<RenderedLine> = Vec::new();
            out.push(
                RenderedLine {
                    line_number: line_num,
                    text: text.to_owned(),
                    role: Role::ContextAfter,
                },
            );
            self.after_counter = self.after_counter - 1;
            self.index = line_num;
            proof {
                assert(views_of(out@) =~= step_spec(m, text@).0);
                assert(self@ =~= step_spec(m, text@).1);
            }
            out
        } else if self.before > 0 {
            self.buffer.push_back((line_num, text.to_owned()));
            proof {
                assert(self.buffer@.map_values(|e: (usize, String)| (e.0 as int, e.1@)) =~= m
                    .buffer
                    .push((line_num as int, text@)));
            }
            let ghost pushed = m.buffer.push((line_num as int, text@));
            if self.buffer.len() > self.before {
                let evicted = self.buffer.pop_front();
                proof {
                    assert(self.buffer@.map_values(|e: (usize, String)| (e.0 as int, e.1@))
                        =~= pushed.drop_first());
                }
            }
            self.index = line_num;
            let out: Vec<RenderedLine> = Vec::new();
            proof {
                assert(views_of(out@) =~= step_spec(m, text@).0);
                assert(self@ =~= step_spec(m, text@).1);
            }
            out
        } else {
            self.index = line_num;
            let out: Vec<RenderedLine> = Vec::new();
            proof {
                assert(views_of(out@) =~= step_spec(m, text@).0);
                assert(self@ =~= step_spec(m, text@).1);
            }
            out
        }
    }
}

/// One whole pass packaged as a function: feeds `lines` to a fresh
/// engine in source order, honouring the early-stop bound, and collects
/// everything emitted. The output is a function of the lines, the
/// ranges and the context sizes alone, so repeating a pass over an
/// unmodified source yields identical output.
pub fn slice_lines(
    lines: &Vec<String>,
    ranges: Vec<ResolvedRange>,
    before: usize,
    after: usize,
) -> (out: Vec<RenderedLine>)
    ensures
        views_of(out@) == run_spec(
            init_model(ranges@, before as int, after as int),
            lines@.map_values(|s: String| s@),
        ),
{
    let ghost lseq = lines@.map_values(|s: String| s@);
    let ghost init = init_model(ranges@, before as int, after as int);
    let mut eng = SliceEngine::new(ranges, before, after);
    let mut out: Vec<RenderedLine> = Vec::new();
    let mut i: usize = 0;
    let n = lines.len();
    proof {
        assert(lseq.subrange(0, n as int) =~= lseq);
        assert(views_of(out@) =~= Seq::<RenderedModel>::empty());
        assert(views_of(out@) + run_spec(init, lseq) =~= run_spec(init, lseq));
    }
    let mut more = eng.wants_more();
    while i < n && more
        invariant
            0 <= i <= n,
            n == lines@.len(),
            lseq == lines@.map_values(|s: String| s@),
            eng.wf(),
            eng@.index == i,
            more == !stopped(eng@),
            views_of(out@) + run_spec(eng@, lseq.subrange(i as int, n as int)) == run_spec(
                init,
                lseq,
            ),
        decreases n - i,
    {
        let ghost m0 = eng@;
        let ghost out0 = out@;
        let mut rendered = eng.process_line(lines[i].as_str());
        let ghost r0 = rendered@;
        out.append(&mut rendered);
        proof {
            let rest = lseq.subrange(i as int, n as int);
            assert(rest[0] == lseq[i as int]);
            assert(lseq[i as int] == lines@[i as int]@);
            assert(rest.drop_first() =~= lseq.subrange(i as int + 1, n as int));
            assert(run_spec(m0, rest) == step_spec(m0, rest[0]).0 + run_spec(
                step_spec(m0, rest[0]).1,
                rest.drop_first(),
            ));
            assert(views_of(out0 + r0) =~= views_of(out0) + views_of(r0));
        }
        i = i + 1;
        more = eng.wants_more();
    }
    proof {
        if i < n {
            assert(stopped(eng@));
            assert(run_spec(eng@, lseq.subrange(i as int, n as int)) =~= Seq::empty());
        } else {
            assert(lseq.subrange(i as int, n as int) =~= Seq::empty());
            assert(run_spec(eng@, lseq.subrange(i as int, n as int)) =~= Seq::empty());
        }
        assert(views_of(out@) + Seq::<RenderedModel>::empty() =~= views_of(out@));
    }
    out
}

} // verus!
