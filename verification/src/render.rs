//! Rendering of emitted lines for display: optional 1-based line number
//! with a `:` (matched) or `-` (context) separator and a tab, the number
//! optionally emphasised with ANSI styles; and the inverse operation that
//! strips the number field off a rendered line.

use crate::engine::{RenderedLine, RenderedModel, Role};
use crate::parser::is_digit;
use colored::Colorize;
use vstd::prelude::*;

verus! {

pub open spec fn digit_char(d: nat) -> char {
    ((48 + d) as u8) as char
}

/// The decimal numeral for `n`, most significant digit first.
pub open spec fn dec_of(n: nat) -> Seq<char>
    decreases n,
{
    if n < 10 {
        seq![digit_char(n)]
    } else {
        dec_of(n / 10).push(digit_char(n % 10))
    }
}

/// A decimal numeral consists of digits only.
pub proof fn lemma_dec_of_digits(n: nat)
    ensures
        forall|i: int| 0 <= i < dec_of(n).len() ==> is_digit(#[trigger] dec_of(n)[i]),
    decreases n,
{
    if n < 10 {
        assert(is_digit(digit_char(n)));
    } else {
        lemma_dec_of_digits(n / 10);
        assert(is_digit(digit_char(n % 10)));
        assert(forall|i: int|
            0 <= i < dec_of(n / 10).len() ==> #[trigger] dec_of(n)[i] == dec_of(n / 10)[i]);
    }
}

/// Relies on std's `Display` implementation for `usize`, through the
/// `format!` macro: it writes exactly the decimal numeral of the value.
#[verifier::external_body]
fn usize_to_string(n: usize) -> (r: String)
    ensures
        r@ == dec_of(n as nat),
{
    format!("{}", n)
}

/// Relies on colored's `Colorize::green` and `Colorize::bold` and on
/// `ColoredString`'s `Display` implementation: whether or not coloring
/// is active for the process, the output is the input surrounded by a
/// (possibly empty) ANSI style prefix and suffix, neither holding a tab.
#[verifier::external_body]
fn emphasize_matched(num: &str) -> (r: String)
    requires
        forall|i: int| 0 <= i < num@.len() ==> num@[i] != '\t' && num@[i] != '\u{1b}',
    ensures
        forall|i: int| 0 <= i < r@.len() ==> r@[i] != '\t',
        exists|p: Seq<char>, q: Seq<char>| r@ == p + num@ + q,
{
    num.green().bold().to_string()
}

/// Relies on colored's `Colorize::blue` and `Colorize::dimmed` and on
/// `ColoredString`'s `Display` implementation, exactly as
/// `emphasize_matched` does.
#[verifier::external_body]
fn emphasize_context(num: &str) -> (r: String)
    requires
        forall|i: int| 0 <= i < num@.len() ==> num@[i] != '\t' && num@[i] != '\u{1b}',
    ensures
        forall|i: int| 0 <= i < r@.len() ==> r@[i] != '\t',
        exists|p: Seq<char>, q: Seq<char>| r@ == p + num@ + q,
{
    num.blue().dimmed().to_string()
}

/// The separator printed after the line number: `:` for a matched line,
/// `-` for a context line.
pub open spec fn sep_char(role: Role) -> char {
    if role is Matched {
        ':'
    } else {
        '-'
    }
}

/// The uncolored numbered rendering: `<number><separator>\t<text>`.
pub open spec fn numbered_plain(l: RenderedModel) -> Seq<char> {
    dec_of(l.line_number as nat) + seq![sep_char(l.role)] + seq!['\t'] + l.text
}

/// A numbered rendering of `l`: the decimal numeral (possibly wrapped in
/// style codes), the role's separator, a tab, and the line's text.
pub open spec fn carries_numeral(r: Seq<char>, l: RenderedModel) -> bool {
    exists|c1: Seq<char>, c2: Seq<char>|
        #![trigger c1 + dec_of(l.line_number as nat) + c2]
        r == c1 + dec_of(l.line_number as nat) + c2 + seq![sep_char(l.role)] + seq!['\t'] + l.text
}

/// Renders one emitted line. With numbering off the raw text alone comes
/// back; with numbering on the text follows a tab-free number-and-
/// separator field and a tab, so the text can always be recovered by
/// [`strip_numbering`].
pub fn render_line(line: &RenderedLine, show_numbers: bool, use_colors: bool) -> (r: String)
    ensures
        !show_numbers ==> r@ == line@.text,
        show_numbers && !use_colors ==> r@ == numbered_plain(line@),
        show_numbers ==> exists|p: Seq<char>|
            (forall|i: int| 0 <= i < p.len() ==> p[i] != '\t') && r@ == p + seq!['\t'] + line@.text,
        show_numbers ==> carries_numeral(r@, line@),
{
    if !show_numbers {
        return line.text.clone();
    }
    let num = usize_to_string(line.line_number);
    proof {
        lemma_dec_of_digits(line.line_number as nat);
        assert(forall|i: int|
            0 <= i < num@.len() ==> num@[i] != '\t' && num@[i] != '\u{1b}') by {
            assert(forall|i: int| 0 <= i < num@.len() ==> is_digit(#[trigger] num@[i]));
        }
    }
    let is_match = match line.role {
        Role::Matched => true,
        _ => false,
    };
    let mut r = if use_colors {
        if is_match {
            emphasize_matched(num.as_str())
        } else {
            emphasize_context(num.as_str())
        }
    } else {
        num
    };
    let ghost field0 = r@;
    let sep = if is_match {
        ":"
    } else {
        "-"
    };
    r.append(sep);
    r.append("\t");
    r.append(line.text.as_str());
    proof {
        reveal_strlit(":");
        reveal_strlit("-");
        reveal_strlit("\t");
        assert(sep@ =~= seq![sep_char(line@.role)]);
        assert("\t"@ =~= seq!['\t']);
        let p = field0 + seq![sep_char(line@.role)];
        assert(r@ =~= p + seq!['\t'] + line@.text);
        if use_colors {
            assert(forall|i: int| 0 <= i < p.len() ==> p[i] != '\t') by {
                assert(sep_char(line@.role) != '\t');
                assert(forall|i: int| 0 <= i < field0.len() ==> field0[i] != '\t');
            }
        } else {
            assert(numbered_plain(line@) =~= p + seq!['\t'] + line@.text);
            assert(forall|i: int| 0 <= i < p.len() ==> p[i] != '\t') by {
                assert(forall|i: int|
                    0 <= i < num@.len() ==> #[trigger] p[i] == num@[i] && is_digit(num@[i]));
                assert(p[p.len() - 1] == sep_char(line@.role));
            }
        }
        assert((forall|i: int| 0 <= i < p.len() ==> p[i] != '\t') && r@ == p + seq!['\t']
            + line@.text);
        let numeral = dec_of(line@.line_number as nat);
        if use_colors {
            let (c1, c2) = choose|c1: Seq<char>, c2: Seq<char>| field0 == c1 + num@ + c2;
            assert(r@ =~= (c1 + numeral + c2) + seq![sep_char(line@.role)] + seq!['\t']
                + line@.text);
            assert(carries_numeral(r@, line@));
        } else {
            let c1 = Seq::<char>::empty();
            let c2 = Seq::<char>::empty();
            assert(r@ =~= (c1 + numeral + c2) + seq![sep_char(line@.role)] + seq!['\t']
                + line@.text);
            assert(carries_numeral(r@, line@));
        }
    }
    r
}

/// Index of the first tab in `s`, or -1 when there is none.
pub open spec fn first_tab(s: Seq<char>) -> int
    decreases s.len(),
{
    if s.len() == 0 {
        -1
    } else if s[0] == '\t' {
        0
    } else {
        let r = first_tab(s.drop_first());
        if r < 0 {
            -1
        } else {
            r + 1
        }
    }
}

/// What remains after the number field: the characters past the first
/// tab, or the whole input when there is no tab.
pub open spec fn strip_spec(s: Seq<char>) -> Seq<char> {
    let i = first_tab(s);
    if i < 0 {
        s
    } else {
        s.subrange(i + 1, s.len() as int)
    }
}

/// `first_tab` is exactly the index found by a left-to-right scan.
proof fn lemma_first_tab_at(s: Seq<char>, i: int)
    requires
        0 <= i < s.len(),
        s[i] == '\t',
        forall|j: int| 0 <= j < i ==> s[j] != '\t',
    ensures
        first_tab(s) == i,
    decreases s.len(),
{
    if i > 0 {
        let t = s.drop_first();
        assert(t[i - 1] == s[i]);
        assert(forall|j: int| 0 <= j < i - 1 ==> #[trigger] t[j] == s[j + 1]);
        lemma_first_tab_at(t, i - 1);
    }
}

/// A sequence without tabs has no `first_tab`.
proof fn lemma_first_tab_none(s: Seq<char>)
    requires
        forall|j: int| 0 <= j < s.len() ==> s[j] != '\t',
    ensures
        first_tab(s) == -1,
    decreases s.len(),
{
    if s.len() > 0 {
        let t = s.drop_first();
        assert(forall|j: int| 0 <= j < t.len() ==> #[trigger] t[j] == s[j + 1]);
        lemma_first_tab_none(t);
    }
}

/// Round trip: whatever tab-free number-and-separator field the renderer
/// put before the tab, stripping recovers the line's text exactly, with
/// no content mutation.
pub proof fn lemma_strip_recovers_text(p: Seq<char>, text: Seq<char>)
    requires
        forall|i: int| 0 <= i < p.len() ==> p[i] != '\t',
    ensures
        strip_spec(p + seq!['\t'] + text) == text,
{
    let s = p + seq!['\t'] + text;
    assert(s[p.len() as int] == '\t');
    assert(forall|j: int| 0 <= j < p.len() ==> #[trigger] s[j] == p[j]);
    lemma_first_tab_at(s, p.len() as int);
    assert(s.subrange(p.len() as int + 1, s.len() as int) =~= text);
}

/// Strips the number field (number, separator, any color codes) off a
/// rendered line: everything past the first tab, or the input unchanged
/// when it holds no tab.
pub fn strip_numbering(s: &str) -> (r: String)
    ensures
        r@ == strip_spec(s@),
{
    let n = s.unicode_len();
    let mut i: usize = 0;
    while i < n
        invariant
            0 <= i <= n,
            n == s@.len(),
            forall|j: int| 0 <= j < i ==> s@[j] != '\t',
        decreases n - i,
    {
        let c = s.get_char(i);
        if c == '\t' {
            proof {
                lemma_first_tab_at(s@, i as int);
            }
            let rest = s.substring_char(i + 1, n);
            return rest.to_owned();
        }
        i = i + 1;
    }
    proof {
        lemma_first_tab_none(s@);
    }
    s.to_owned()
}

} // verus!
