//! Positions, half-open spans over one file's text, and values paired
//! with the span they came from.

use vstd::prelude::*;

verus! {

/// An offset into one file's text, counted in characters.
#[derive(Debug, Default, Clone, Copy, PartialEq, Eq, Structural)]
pub struct BytePos(pub usize);

/// A half-open range `[start, end)` of positions within one file.
/// Zero-length spans are valid and mark a single point.
#[derive(Debug, Default, Clone, Copy, PartialEq, Eq, Structural)]
pub struct Span {
    pub start: BytePos,
    pub end: BytePos,
}

impl Span {
    /// A span is well formed when it does not end before it starts.
    pub open spec fn wf(self) -> bool {
        self.start.0 <= self.end.0
    }

    /// The smallest span containing both `self` and `other`.
    pub open spec fn spec_merge(self, other: Span) -> Span {
        Span {
            start: BytePos(if self.start.0 <= other.start.0 {
                self.start.0
            } else {
                other.start.0
            }),
            end: BytePos(if self.end.0 >= other.end.0 {
                self.end.0
            } else {
                other.end.0
            }),
        }
    }

    pub fn new(start: BytePos, end: BytePos) -> (s: Span)
        requires
            start.0 <= end.0,
        ensures
            s == (Span { start, end }),
            s.wf(),
    {
        Span { start, end }
    }

    pub fn from_range(range: core::ops::Range<usize>) -> (s: Span)
        requires
            range.start <= range.end,
        ensures
            s.start.0 == range.start,
            s.end.0 == range.end,
            s.wf(),
    {
        Span { start: BytePos(range.start), end: BytePos(range.end) }
    }

    pub fn len(&self) -> (n: usize)
        requires
            self.wf(),
        ensures
            n == self.end.0 - self.start.0,
    {
        self.end.0 - self.start.0
    }

    pub fn is_empty(&self) -> (b: bool)
        requires
            self.wf(),
        ensures
            b == (self.start.0 == self.end.0),
    {
        self.len() == 0
    }

    pub fn merge(self, other: Span) -> (r: Span)
        ensures
            r == self.spec_merge(other),
            r.start.0 == if self.start.0 <= other.start.0 {
                self.start.0
            } else {
                other.start.0
            },
            r.end.0 == if self.end.0 >= other.end.0 {
                self.end.0
            } else {
                other.end.0
            },
            self.wf() && other.wf() ==> r.wf(),
    {
        let start = if self.start.0 <= other.start.0 {
            self.start.0
        } else {
            other.start.0
        };
        let end = if self.end.0 >= other.end.0 {
            self.end.0
        } else {
            other.end.0
        };
        Span { start: BytePos(start), end: BytePos(end) }
    }
}

/// Merging picks the least start and the greatest end, so the result
/// contains both arguments.
pub proof fn lemma_merge_bounds(a: Span, b: Span)
    ensures
        a.spec_merge(b).start.0 == if a.start.0 <= b.start.0 {
            a.start.0
        } else {
            b.start.0
        },
        a.spec_merge(b).end.0 == if a.end.0 >= b.end.0 {
            a.end.0
        } else {
            b.end.0
        },
        a.spec_merge(b).start.0 <= a.start.0,
        a.spec_merge(b).start.0 <= b.start.0,
        a.spec_merge(b).end.0 >= a.end.0,
        a.spec_merge(b).end.0 >= b.end.0,
{
}

/// Merging spans is associative.
pub proof fn lemma_merge_assoc(a: Span, b: Span, c: Span)
    ensures
        a.spec_merge(b).spec_merge(c) == a.spec_merge(b.spec_merge(c)),
{
}

/// Merging spans is commutative.
pub proof fn lemma_merge_comm(a: Span, b: Span)
    ensures
        a.spec_merge(b) == b.spec_merge(a),
{
}

/// Merging a span with itself gives the span back.
pub proof fn lemma_merge_self(a: Span)
    ensures
        a.spec_merge(a) == a,
{
}

/// A payload paired with the span of text it was derived from. Every
/// token and every syntax-tree node carries its source location this
/// way.
#[derive(Debug, Clone, PartialEq)]
pub struct Spanned<T> {
    pub inner: T,
    pub span: Span,
}

impl<T> Spanned<T> {
    pub fn new(inner: T, span: Span) -> (r: Spanned<T>)
        ensures
            r.inner == inner,
            r.span == span,
    {
        Spanned { inner, span }
    }

    /// Apply `f` to the payload, keeping the span.
    pub fn map<U, F: Fn(T) -> U>(self, f: F) -> (r: Spanned<U>)
        requires
            f.requires((self.inner,)),
        ensures
            r.span == self.span,
            f.ensures((self.inner,), r.inner),
    {
        let Spanned { inner, span } = self;
        Spanned { span, inner: f(inner) }
    }
}

} // verus!
