//! Positions in source text.

use vstd::prelude::*;

verus! {

/// A position in source text, counted in bytes.
#[derive(Copy, Clone, Eq, PartialEq, Structural, Debug, Hash)]
pub struct BytePos(pub u32);

/// The expansion of text that no macro made.
pub const NO_EXPANSION: u32 = 0;

/// A stretch of source text.
#[derive(Copy, Clone, Eq, PartialEq, Structural, Debug, Hash)]
pub struct Span {
    pub start: BytePos,
    pub end: BytePos,
    /// Which macro expansion the text comes from.
    pub expansion_id: u32,
}

/// Where a position lies as seen from a span.
#[derive(Copy, Clone, Eq, PartialEq, Structural, Debug, Hash)]
pub enum Containment {
    /// Before the span
    Less,
    /// In the span, its end included
    Equal,
    /// Behind the span
    Greater,
}

/// A value with the stretch of source text that it comes from.
pub struct Spanned<T> {
    pub span: Span,
    pub value: T,
}

/// `value`, which comes from `span`.
pub fn spanned<T>(span: Span, value: T) -> (res: Spanned<T>)
    ensures
        res == (Spanned { span, value }),
{
    Spanned { span, value }
}

impl Span {
    /// The span from `start` to `end`, outside of any macro.
    pub open spec fn between(start: BytePos, end: BytePos) -> Span {
        Span { start, end, expansion_id: NO_EXPANSION }
    }

    /// The span from `start` to `end`, outside of any macro.
    pub fn new(start: BytePos, end: BytePos) -> (res: Span)
        ensures
            res == Span::between(start, end),
    {
        Span { start, end, expansion_id: NO_EXPANSION }
    }

    /// Where `pos` lies as seen from the span.
    pub open spec fn contains(self, pos: BytePos) -> Containment {
        if pos.0 == self.start.0 || pos.0 == self.end.0 {
            Containment::Equal
        } else if pos.0 < self.start.0 {
            Containment::Less
        } else if pos.0 > self.end.0 {
            Containment::Greater
        } else {
            Containment::Equal
        }
    }

    /// Where `pos` lies as seen from the span.
    pub fn containment(self, pos: BytePos) -> (res: Containment)
        ensures
            res == self.contains(pos),
    {
        if pos.0 == self.start.0 || pos.0 == self.end.0 {
            Containment::Equal
        } else if pos.0 < self.start.0 {
            Containment::Less
        } else if pos.0 > self.end.0 {
            Containment::Greater
        } else {
            Containment::Equal
        }
    }
}

} // verus!
