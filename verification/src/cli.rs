//! The resolved invocation configuration the core works from: selectors,
//! context sizes and display flags, already validated by the caller.

use crate::ranges::ResolvedRange;
use vstd::prelude::*;

verus! {

/// How line numbers are emphasised in the output.
#[derive(Clone, Copy, Debug, PartialEq, Eq, Structural)]
pub enum ColorMode {
    /// Use colors if the output destination supports them; the caller
    /// resolves this to one of the other two before rendering.
    Auto,
    /// Always use colors.
    Always,
    /// Never use colors.
    Never,
}

impl ColorMode {
    /// Whether the renderer applies emphasis: everything but `Never`.
    pub fn applies_emphasis(&self) -> (b: bool)
        ensures
            b == !(*self is Never),
    {
        match self {
            ColorMode::Never => false,
            _ => true,
        }
    }
}

/// One invocation's selectors, context sizes and display flags. File
/// discovery and argument syntax live with the caller; the fields here
/// are the validated values the core consumes.
#[derive(Clone, Debug)]
pub struct Args {
    /// First N lines.
    pub head: Option<usize>,
    /// Last N lines; needs a total line count.
    pub tail: Option<usize>,
    /// Middle N lines; needs a total line count.
    pub middle: Option<usize>,
    /// An explicit range selector, already parsed.
    pub lines: Option<ResolvedRange>,
    /// Start after the first line matching this pattern (deferred
    /// selector, evaluated during the pass by the caller that owns the
    /// pattern matcher).
    pub after_match: Option<String>,
    /// Byte-range mode; mutually exclusive with every line selector and
    /// handled wholly outside the line-slicing core.
    pub bytes: Option<String>,
    /// Context lines before and after matches (sets both sides).
    pub context: Option<usize>,
    /// Context lines after matches; overrides `context` on that side.
    pub after_context: Option<usize>,
    /// Context lines before matches; overrides `context` on that side.
    pub before_context: Option<usize>,
    /// Show line numbers in the output.
    pub show_line_numbers: bool,
    /// Line-number emphasis mode.
    pub color: ColorMode,
    /// Suppress per-file headers when slicing multiple files.
    pub quiet: bool,
    /// Keep reading as the source grows; incompatible with `middle`.
    pub follow: bool,
}

} // verus!
