//! Source spans and spanned nodes.

use std::ops::Range;
use vstd::prelude::*;
use vstd::std_specs::cmp::PartialEqSpec;
use vstd::std_specs::cmp::PartialEqSpecImpl;

verus! {

/// A node together with the half-open byte range of the source text it was
/// read from.
#[derive(Debug)]
pub struct Spanned<I> {
    pub span: Range<usize>,
    pub inner: I,
}

/// The smaller of two offsets.
pub open spec fn min_offset(a: usize, b: usize) -> usize {
    if a <= b {
        a
    } else {
        b
    }
}

/// The larger of two offsets.
pub open spec fn max_offset(a: usize, b: usize) -> usize {
    if a >= b {
        a
    } else {
        b
    }
}

/// The span `[min(a, c), max(b, d))` of the spans `[a, b)` and `[c, d)`.
pub open spec fn span_union(lhs: Range<usize>, rhs: Range<usize>) -> Range<usize> {
    Range { start: min_offset(lhs.start, rhs.start), end: max_offset(lhs.end, rhs.end) }
}

/// Whether every offset of `inner` lies in `outer`.
pub open spec fn span_covers(outer: Range<usize>, inner: Range<usize>) -> bool {
    outer.start <= inner.start && inner.end <= outer.end
}

impl<I: View> View for Spanned<I> {
    type V = Spanned<I::V>;

    open spec fn view(&self) -> Spanned<I::V> {
        Spanned { span: self.span, inner: self.inner@ }
    }
}

impl<T> Spanned<T> {
    /// Wraps `inner` with the span it was read from.
    pub fn new(span: Range<usize>, inner: T) -> (out: Self)
        ensures
            out.span == span,
            out.inner == inner,
    {
        Self { span, inner }
    }

    /// Merges the spans of two nodes into the smallest span that covers both.
    pub fn add_spans(lhs: Self, rhs: Self) -> (out: Range<usize>)
        ensures
            out == span_union(lhs.span, rhs.span),
            out.start == min_offset(lhs.span.start, rhs.span.start),
            out.end == max_offset(lhs.span.end, rhs.span.end),
    {
        let start: usize = if lhs.span.start <= rhs.span.start {
            lhs.span.start
        } else {
            rhs.span.start
        };
        let end: usize = if lhs.span.end >= rhs.span.end {
            lhs.span.end
        } else {
            rhs.span.end
        };
        start..end
    }
}

/// Merging two spans gives the same span whichever comes first.
pub proof fn span_union_commutes(lhs: Range<usize>, rhs: Range<usize>)
    ensures
        span_union(lhs, rhs) == span_union(rhs, lhs),
{
}

/// The merged span covers both of its arguments, and any span that covers
/// both arguments covers the merged span.
pub proof fn span_union_is_least_cover(lhs: Range<usize>, rhs: Range<usize>, other: Range<usize>)
    ensures
        span_covers(span_union(lhs, rhs), lhs),
        span_covers(span_union(lhs, rhs), rhs),
        span_covers(other, lhs) && span_covers(other, rhs) ==> span_covers(
            other,
            span_union(lhs, rhs),
        ),
{
}

impl<T: Clone> Clone for Spanned<T> {
    /// A copy of the node: the same span, and a clone of the inner value.
    fn clone(&self) -> (out: Self)
        ensures
            out.span == self.span,
            cloned::<T>(self.inner, out.inner),
    {
        Spanned { span: self.span.start..self.span.end, inner: self.inner.clone() }
    }
}

impl<T: PartialEq> PartialEq for Spanned<T> {
    /// Two spanned nodes are equal when their inner values are; spans are
    /// not compared.
    fn eq(&self, other: &Self) -> (out: bool) {
        self.inner == other.inner
    }
}

impl<T: PartialEq> PartialEqSpecImpl for Spanned<T> {
    open spec fn obeys_eq_spec() -> bool {
        <T as PartialEqSpec>::obeys_eq_spec()
    }

    open spec fn eq_spec(&self, other: &Self) -> bool {
        <T as PartialEqSpec>::eq_spec(&self.inner, &other.inner)
    }
}

} // verus!
