//! Byte ranges in a source text.

use vstd::prelude::*;

verus! {

/// The half-open range `[start, end)` of byte offsets into a source text.
#[derive(Debug, Clone, Copy, PartialEq, Eq, Hash, Structural)]
pub struct Span {
    pub start: usize,
    pub end: usize,
}

impl Default for Span {
    /// The empty range at the start of a text.
    fn default() -> (span: Span)
        ensures
            span.start == 0,
            span.end == 0,
    {
        Span { start: 0, end: 0 }
    }
}

impl Span {
    /// The range from `start` up to, and without, `end`.
    pub fn new(start: usize, end: usize) -> (span: Span)
        ensures
            span.start == start,
            span.end == end,
    {
        Span { start, end }
    }

    /// The empty range at `offset`.
    pub fn empty(offset: usize) -> (span: Span)
        ensures
            span.start == offset,
            span.end == offset,
    {
        Span { start: offset, end: offset }
    }

    /// The number of bytes in the range; 0 where the end lies before the
    /// start.
    pub fn len(&self) -> (n: usize)
        ensures
            n == if self.start <= self.end {
                self.end - self.start
            } else {
                0
            },
    {
        if self.start <= self.end {
            self.end - self.start
        } else {
            0
        }
    }

    /// Whether the range holds the offset.
    pub fn contains(&self, offset: usize) -> (b: bool)
        ensures
            b == (self.start <= offset < self.end),
    {
        self.start <= offset && offset < self.end
    }
}

} // verus!
