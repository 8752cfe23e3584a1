//! The ways in which a run can fail.

use vstd::prelude::*;

verus! {

/// A condition that ends a run. Every one but [`Error::NoMatch`] is fatal:
/// no output is produced.
#[derive(Debug, Clone, Copy, PartialEq, Eq)]
pub enum Error {
    /// The document holds no recognized layout invocation.
    NoMatch,
    /// No top-level declaration, or more than one, carries the anchor name.
    AnchorNotFound,
    /// A recognized invocation has no arguments.
    EmptyGrid,
    /// Invocations remain in the document but no extracted grid is left for them.
    QueueExhausted,
    /// Extracted grids remain but the document holds no further invocation.
    QueueLeftover,
    /// A span starts or ends inside a character of the text.
    Encoding,
    /// A span is inverted, ends beyond the text, or starts before the
    /// previous invocation has ended.
    InvalidSpan,
    /// The reformatter ran and reported failure, with its exit code if it had one.
    ReformatterFailed(Option<i32>),
    /// The grammar provider could not be set up or produced no tree.
    Grammar,
}

} // verus!
