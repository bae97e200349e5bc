//! Locations in source files, and values tagged with the location they came from.
use vstd::prelude::*;

verus! {

/// Identifies one source file among those handed to the parser.
#[derive(PartialEq, Eq, Clone, Copy, Debug, Structural)]
pub struct SourceId(pub usize);

impl SourceId {
    pub fn from_usize(other: usize) -> (r: SourceId)
        ensures
            r.0 == other,
    {
        SourceId(other)
    }

    pub fn to_usize(self) -> (r: usize)
        ensures
            r == self.0,
    {
        self.0
    }
}

/// A byte range inside one source file: where it starts and how long it is.
#[derive(PartialEq, Eq, Clone, Copy, Debug, Structural)]
pub struct SourceSpan {
    pub offset: usize,
    pub length: usize,
}

impl SourceSpan {
    pub fn new(offset: usize, length: usize) -> (r: SourceSpan)
        ensures
            r.offset == offset,
            r.length == length,
    {
        SourceSpan { offset, length }
    }

    pub fn offset(&self) -> (r: usize)
        ensures
            r == self.offset,
    {
        self.offset
    }

    pub fn len(&self) -> (r: usize)
        ensures
            r == self.length,
    {
        self.length
    }

    /// The first offset past the end of the range.
    pub open spec fn end(self) -> int {
        self.offset + self.length
    }
}

/// A range inside a particular source file.
#[derive(PartialEq, Eq, Clone, Copy, Debug, Structural)]
pub struct Span {
    pub source: SourceId,
    pub span: SourceSpan,
}

/// The three-way result of comparing two spans.
#[derive(PartialEq, Eq, Clone, Copy, Debug, Structural)]
pub enum SpanOrder {
    Less,
    Equal,
    Greater,
}

/// Lexicographic comparison of integer triples.
pub open spec fn triple_order(a: (int, int, int), b: (int, int, int)) -> SpanOrder {
    if a.0 < b.0 {
        SpanOrder::Less
    } else if a.0 > b.0 {
        SpanOrder::Greater
    } else if a.1 < b.1 {
        SpanOrder::Less
    } else if a.1 > b.1 {
        SpanOrder::Greater
    } else if a.2 < b.2 {
        SpanOrder::Less
    } else if a.2 > b.2 {
        SpanOrder::Greater
    } else {
        SpanOrder::Equal
    }
}

impl Span {
    /// The key by which spans are ordered: offset, then length, then source file.
    pub open spec fn order_key(self) -> (int, int, int) {
        (self.span.offset as int, self.span.length as int, self.source.0 as int)
    }

    pub open spec fn lo(self) -> int {
        self.span.offset as int
    }

    pub open spec fn hi(self) -> int {
        self.span.end()
    }

    /// The end offset of the span fits in a `usize`.
    pub open spec fn fits(self) -> bool {
        self.hi() <= usize::MAX
    }

    pub fn new(source: SourceId, span: SourceSpan) -> (r: Span)
        ensures
            r.source == source,
            r.span == span,
    {
        Span { source, span }
    }

    pub fn with_item<T>(self, item: T) -> (r: SpannedItem<T>)
        ensures
            r.0 == item,
            r.1 == self,
    {
        SpannedItem(item, self)
    }

    /// The smallest span that covers both `self` and `after_span`.
    pub fn join(&self, after_span: Span) -> (r: Span)
        requires
            self.source == after_span.source,
            self.fits(),
            after_span.fits(),
        ensures
            r.source == self.source,
            r.lo() == joined_lo(*self, after_span),
            r.hi() == joined_hi(*self, after_span),
            r.fits(),
    {
        let (first_span, second_span) = if self.span.offset < after_span.span.offset {
            (self.span, after_span.span)
        } else {
            (after_span.span, self.span)
        };
        let first_end = first_span.length + first_span.offset;
        let second_end = second_span.length + second_span.offset;
        let end = if first_end >= second_end { first_end } else { second_end };
        let length = end - first_span.offset;
        Span { source: self.source, span: SourceSpan::new(first_span.offset, length) }
    }

    /// The span from the end of `self` to the end of `after_span`.
    pub fn hi_to_hi(&self, after_span: Span) -> (r: Span)
        requires
            self.source == after_span.source,
            self.fits(),
            after_span.fits(),
            self.hi() <= after_span.hi(),
        ensures
            r.source == self.source,
            r.lo() == self.hi(),
            r.hi() == after_span.hi(),
    {
        let lo = self.span.offset + self.span.length;
        let hi = after_span.span.offset + after_span.span.length;
        Span { source: self.source, span: SourceSpan::new(lo, hi - lo) }
    }

    /// The span with the same start whose end is moved to `hi`.
    pub fn extend(&self, hi: usize) -> (r: Span)
        requires
            hi >= self.span.offset,
        ensures
            r.source == self.source,
            r.lo() == self.lo(),
            r.hi() == hi,
    {
        let lo = self.span.offset;
        Span { source: self.source, span: SourceSpan::new(lo, hi - lo) }
    }

    pub fn span(&self) -> (r: SourceSpan)
        ensures
            r == self.span,
    {
        self.span
    }

    pub fn source(&self) -> (r: SourceId)
        ensures
            r == self.source,
    {
        self.source
    }

    /// The empty span at the start of `self`.
    pub fn zero_length(&self) -> (r: Span)
        ensures
            r.source == self.source,
            r.span.offset == self.span.offset,
            r.span.length == 0,
    {
        Span { source: self.source, span: SourceSpan::new(self.span.offset, 0) }
    }

    /// Orders spans by offset, then by length, then by source file.
    pub fn compare(&self, other: &Span) -> (r: SpanOrder)
        ensures
            r == triple_order(self.order_key(), other.order_key()),
    {
        let a0 = self.span.offset;
        let a1 = self.span.length;
        let a2 = self.source.0;
        let b0 = other.span.offset;
        let b1 = other.span.length;
        let b2 = other.source.0;
        if a0 < b0 {
            SpanOrder::Less
        } else if a0 > b0 {
            SpanOrder::Greater
        } else if a1 < b1 {
            SpanOrder::Less
        } else if a1 > b1 {
            SpanOrder::Greater
        } else if a2 < b2 {
            SpanOrder::Less
        } else if a2 > b2 {
            SpanOrder::Greater
        } else {
            SpanOrder::Equal
        }
    }
}

/// The start of the join of two spans: the earlier of the two starts.
pub open spec fn joined_lo(a: Span, b: Span) -> int {
    if a.lo() <= b.lo() {
        a.lo()
    } else {
        b.lo()
    }
}

/// The end of the join of two spans: the later of the two ends.
pub open spec fn joined_hi(a: Span, b: Span) -> int {
    if a.hi() >= b.hi() {
        a.hi()
    } else {
        b.hi()
    }
}

/// Joining two spans does not depend on the order of the arguments, and the join
/// covers both of them.
pub proof fn law_join_commutes_and_covers(a: Span, b: Span)
    ensures
        joined_lo(a, b) == joined_lo(b, a),
        joined_hi(a, b) == joined_hi(b, a),
        joined_lo(a, b) <= a.lo() && joined_lo(a, b) <= b.lo(),
        joined_hi(a, b) >= a.hi() && joined_hi(a, b) >= b.hi(),
{
}

/// A value together with the span of source text it was produced from.
#[derive(PartialEq, Eq, Clone, Copy, Debug)]
pub struct SpannedItem<T>(pub T, pub Span);

impl<T> SpannedItem<T> {
    pub fn item(&self) -> (r: &T)
        ensures
            *r == self.0,
    {
        &self.0
    }

    pub fn into_item(self) -> (r: T)
        ensures
            r == self.0,
    {
        self.0
    }

    pub fn span(&self) -> (r: Span)
        ensures
            r == self.1,
    {
        self.1
    }

    /// Applies `f` to the item and keeps the span.
    pub fn map<B, F: Fn(T) -> B>(self, f: F) -> (r: SpannedItem<B>)
        requires
            f.requires((self.0,)),
        ensures
            f.ensures((self.0,), r.0),
            r.1 == self.1,
    {
        SpannedItem(f(self.0), self.1)
    }
}

/// Ordering spans is lexicographic: equal keys mean equal order, and swapping the
/// arguments swaps `Less` and `Greater`.
pub proof fn law_span_order_antisymmetric(a: Span, b: Span)
    ensures
        triple_order(a.order_key(), b.order_key()) == SpanOrder::Equal <==> a.order_key() == b.order_key(),
        triple_order(a.order_key(), b.order_key()) == SpanOrder::Less <==> triple_order(
            b.order_key(),
            a.order_key(),
        ) == SpanOrder::Greater,
{
}

/// Ordering spans is transitive: a span before a span before a third is before the
/// third; and spans of equal order are the same span.
pub proof fn law_span_order_transitive(a: Span, b: Span, c: Span)
    ensures
        triple_order(a.order_key(), b.order_key()) == SpanOrder::Less && triple_order(b.order_key(), c.order_key())
            == SpanOrder::Less ==> triple_order(a.order_key(), c.order_key()) == SpanOrder::Less,
        triple_order(a.order_key(), b.order_key()) == SpanOrder::Equal ==> a == b,
{
}

} // verus!
