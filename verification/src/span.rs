//! Byte ranges into a source text.

use std::ops::Range;
use vstd::prelude::*;

verus! {

/// A half-open range of byte offsets into a source text.
pub struct SourceSpan {
    pub range: Range<usize>,
}

impl Clone for SourceSpan {
    fn clone(&self) -> (r: Self)
        ensures
            r == *self,
    {
        SourceSpan { range: Range { start: self.range.start, end: self.range.end } }
    }
}

impl SourceSpan {
    /// The number of bytes the span covers; an inverted range covers none.
    pub open spec fn spec_len(&self) -> nat {
        if self.range.start <= self.range.end {
            (self.range.end - self.range.start) as nat
        } else {
            0
        }
    }

    /// The span with the given bounds.
    pub open spec fn from_bounds(start: usize, end: usize) -> SourceSpan {
        SourceSpan { range: Range { start, end } }
    }

    pub fn new(range: Range<usize>) -> (r: Self)
        ensures
            r.range == range,
    {
        SourceSpan { range }
    }

    pub fn start(&self) -> (r: usize)
        ensures
            r == self.range.start,
    {
        self.range.start
    }

    pub fn end(&self) -> (r: usize)
        ensures
            r == self.range.end,
    {
        self.range.end
    }

    pub fn len(&self) -> (r: usize)
        ensures
            r == self.spec_len(),
    {
        if self.range.start <= self.range.end {
            self.range.end - self.range.start
        } else {
            0
        }
    }

    pub fn is_empty(&self) -> (r: bool)
        ensures
            r == !(self.range.start < self.range.end),
    {
        !(self.range.start < self.range.end)
    }
}

impl From<Range<usize>> for SourceSpan {
    fn from(range: Range<usize>) -> (r: Self) {
        SourceSpan { range }
    }
}

impl vstd::std_specs::convert::FromSpecImpl<Range<usize>> for SourceSpan {
    open spec fn obeys_from_spec() -> bool {
        true
    }

    open spec fn from_spec(range: Range<usize>) -> Self {
        SourceSpan { range }
    }
}

/// A span is empty exactly when it covers no bytes.
pub proof fn lemma_span_empty_iff_len_zero(span: SourceSpan)
    ensures
        !(span.range.start < span.range.end) <==> span.spec_len() == 0,
{
}

} // verus!
