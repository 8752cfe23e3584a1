//! Where a syntax node lies in a document.

use vstd::prelude::*;
use crate::text::{byte_slice, in_bounds, is_text_range};

verus! {

/// The extent of a syntax node, in the coordinates of the document it was
/// parsed from. A span means nothing against any other text.
#[derive(Debug, Clone, Copy, PartialEq, Eq)]
pub struct SyntaxSpan {
    /// Offset of the node's first byte.
    pub start_byte: usize,
    /// Offset of the byte after the node's last.
    pub end_byte: usize,
    /// Line on which the node starts, counted from zero.
    pub start_row: usize,
    /// Offset of the node's first byte within that line.
    pub start_col: usize,
}

impl SyntaxSpan {
    /// The span with these offsets.
    pub fn new(start_byte: usize, end_byte: usize, start_row: usize, start_col: usize) -> (span:
        SyntaxSpan)
        ensures
            span == (SyntaxSpan { start_byte, end_byte, start_row, start_col }),
    {
        SyntaxSpan { start_byte, end_byte, start_row, start_col }
    }

    /// The span lies within `text`.
    pub open spec fn fits(self, text: Seq<char>) -> bool {
        in_bounds(text, self.start_byte as int, self.end_byte as int)
    }

    /// The span lies within `text` and covers whole characters.
    pub open spec fn is_text(self, text: Seq<char>) -> bool {
        is_text_range(text, self.start_byte as int, self.end_byte as int)
    }

    /// The characters of `text` that the span covers.
    pub open spec fn text_in(self, text: Seq<char>) -> Seq<char> {
        byte_slice(text, self.start_byte as int, self.end_byte as int)
    }
}

/// The spans of one invocation.
#[derive(Debug, Clone, Copy, PartialEq, Eq)]
pub struct Match {
    /// The invoked name.
    pub id: SyntaxSpan,
    /// The argument list, parentheses included.
    pub args: SyntaxSpan,
    /// The whole invocation.
    pub call: SyntaxSpan,
}

/// One invocation as the grammar provider found it: its spans and those of
/// its arguments, in source order.
#[derive(Debug, PartialEq, Eq)]
pub struct Invocation {
    pub at: Match,
    pub keys: Vec<SyntaxSpan>,
}

impl View for Invocation {
    type V = (Match, Seq<SyntaxSpan>);

    open spec fn view(&self) -> (Match, Seq<SyntaxSpan>) {
        (self.at, self.keys@)
    }
}

/// The views of `invocations`.
pub open spec fn invocation_views(invocations: Seq<Invocation>) -> Seq<(Match, Seq<SyntaxSpan>)> {
    Seq::new(invocations.len(), |i: int| invocations[i]@)
}

/// The numbers under which the matches of the four patterns list their
/// captures.
#[derive(Debug, Clone, Copy, PartialEq, Eq)]
pub struct CaptureNumbers {
    /// The name of an invocation.
    pub id: u32,
    /// The argument list of an invocation.
    pub args: u32,
    /// The whole of an invocation.
    pub call: u32,
    /// The argument list of an argument.
    pub list: u32,
    /// An argument.
    pub key: u32,
    /// A declaration.
    pub decl: u32,
    /// The node that holds a declarator.
    pub outer: u32,
    /// A declarator.
    pub inner: u32,
}

/// The matches that `found` holds: for each, the number and the span of
/// each capture.
pub open spec fn matches_seq(found: Vec<Vec<(u32, SyntaxSpan)>>) -> Seq<Seq<(u32, SyntaxSpan)>> {
    Seq::new(found@.len(), |k: int| found@[k]@)
}

/// The span of the first of `captures` from the `i`th on that has the
/// number `number`.
pub open spec fn first_from(captures: Seq<(u32, SyntaxSpan)>, number: u32, i: int) -> Option<
    SyntaxSpan,
>
    decreases captures.len() - i,
{
    if i < 0 || i >= captures.len() {
        None
    } else if captures[i].0 == number {
        Some(captures[i].1)
    } else {
        first_from(captures, number, i + 1)
    }
}

/// The span of the first of `captures` that has the number `number`.
pub open spec fn first_numbered(captures: Seq<(u32, SyntaxSpan)>, number: u32) -> Option<
    SyntaxSpan,
> {
    first_from(captures, number, 0)
}

/// The span of the first of `captures` that has the number `number`.
pub fn first_capture(captures: &Vec<(u32, SyntaxSpan)>, number: u32) -> (r: Option<SyntaxSpan>)
    ensures
        r == first_numbered(captures@, number),
{
    let mut i: usize = 0;
    while i < captures.len()
        invariant
            i <= captures@.len(),
            first_from(captures@, number, i as int) == first_numbered(captures@, number),
        decreases captures@.len() - i,
    {
        if captures[i].0 == number {
            return Some(captures[i].1);
        }
        i += 1;
    }
    None
}

/// Two spans cover the same bytes.
pub open spec fn same_bytes(a: SyntaxSpan, b: SyntaxSpan) -> bool {
    a.start_byte == b.start_byte && a.end_byte == b.end_byte
}

} // verus!
