//! Source spans.
//!
//! A span marks a half-open byte range in a source file. Spans ride along on
//! surface and core terms for diagnostics only; they never influence
//! elaboration, normalisation, or parsing.

use vstd::prelude::*;

verus! {

/// A half-open byte range in a source file.
#[derive(Debug, Clone, Copy, PartialEq, Eq, Structural)]
pub struct Span {
    pub start: u32,
    pub end: u32,
}

impl Span {
    /// The span covering bytes `start..end`.
    pub fn new(start: u32, end: u32) -> (s: Span)
        ensures
            s.start == start,
            s.end == end,
    {
        Span { start, end }
    }

    /// A placeholder span pointing at the start of the file.
    pub fn initial() -> (s: Span)
        ensures
            s.start == 0,
            s.end == 0,
    {
        Span { start: 0, end: 0 }
    }

    /// The smallest span covering both `a` and `b`.
    pub fn merge(a: Span, b: Span) -> (s: Span)
        ensures
            s.start == if a.start <= b.start { a.start } else { b.start },
            s.end == if a.end >= b.end { a.end } else { b.end },
    {
        Span {
            start: if a.start <= b.start { a.start } else { b.start },
            end: if a.end >= b.end { a.end } else { b.end },
        }
    }
}

} // verus!
