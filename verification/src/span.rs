//! Source positions: half-open byte ranges and values tagged with them.

use vstd::prelude::*;

verus! {

/// A half-open byte range `[start, end)` into a source buffer.
#[derive(Debug, Clone, Copy, PartialEq, Eq, Hash, Structural)]
pub struct Span {
    pub start: usize,
    pub end: usize,
}

impl Span {
    /// A span is well formed when its start does not lie after its end.
    pub open spec fn wf(self) -> bool {
        self.start <= self.end
    }

    /// Whether `inner` lies entirely within `self`.
    pub open spec fn contains(self, inner: Span) -> bool {
        self.start <= inner.start && inner.end <= self.end
    }

    /// The span from `start` to `end`.
    pub fn new(start: usize, end: usize) -> (span: Span)
        requires
            start <= end,
        ensures
            span == (Span { start, end }),
            span.wf(),
    {
        Span { start, end }
    }

    /// The number of bytes covered; zero for a span that is not well
    /// formed.
    pub fn len(&self) -> (n: usize)
        ensures
            n == if self.wf() {
                self.end - self.start
            } else {
                0
            },
    {
        if self.start <= self.end {
            self.end - self.start
        } else {
            0
        }
    }
}

/// A value together with the span of source text it was read from.
#[derive(Debug, Clone, PartialEq)]
pub struct Spanned<T> {
    pub value: T,
    pub span: Span,
}

impl<T> Spanned<T> {
    /// Pairs `value` with `span`.
    pub fn new(value: T, span: Span) -> (spanned: Spanned<T>)
        ensures
            spanned.value == value,
            spanned.span == span,
    {
        Spanned { value, span }
    }
}

impl<T: View> View for Spanned<T> {
    type V = Spanned<T::V>;

    open spec fn view(&self) -> Spanned<T::V> {
        Spanned { value: self.value@, span: self.span }
    }
}

} // verus!
