//! Positions in the source text.
use vstd::prelude::*;

verus! {

/// A range of characters of one source: from `start` up to, but without, `end`.
#[derive(Clone, Copy, Debug, PartialEq, Eq, Structural)]
pub struct Span {
    pub start: usize,
    pub end: usize,
    pub source_id: u16,
}

/// The span of a token or of a run of tokens, as the parser carries it.
#[derive(Clone, Copy, Debug, PartialEq, Eq, Structural)]
pub struct ParserSpan(pub Span);

impl ParserSpan {
    /// Ties a range of characters to the source that it belongs to.
    pub fn new(source_id: u16, range: core::ops::Range<usize>) -> (span: ParserSpan)
        ensures
            span == ParserSpan(Span { start: range.start, end: range.end, source_id }),
    {
        ParserSpan(Span { start: range.start, end: range.end, source_id })
    }
}

} // verus!
