//! Half-open byte ranges within a source file.

use vstd::prelude::*;

verus! {

/// A half-open byte range `[start, end)` within a source file.
#[derive(Clone, Copy, Debug, PartialEq, Eq, Structural)]
pub struct TextRange {
    pub start: usize,
    pub end: usize,
}

impl TextRange {
    /// A well-formed range does not end before it starts.
    pub open spec fn wf(self) -> bool {
        self.start <= self.end
    }

    /// Whether `offset` lies inside the range (inclusive of both bounds, as
    /// the suppression protocol treats the end offset as part of the range).
    pub open spec fn spec_contains(self, offset: int) -> bool {
        self.start <= offset <= self.end
    }

    pub fn new(start: usize, end: usize) -> (r: TextRange)
        requires
            start <= end,
        ensures
            r == (TextRange { start, end }),
    {
        TextRange { start, end }
    }

    pub fn empty() -> (r: TextRange)
        ensures
            r == (TextRange { start: 0usize, end: 0usize }),
    {
        TextRange { start: 0, end: 0 }
    }

    pub fn start(&self) -> (r: usize)
        ensures
            r == self.start,
    {
        self.start
    }

    pub fn end(&self) -> (r: usize)
        ensures
            r == self.end,
    {
        self.end
    }

    pub fn len(&self) -> (r: usize)
        requires
            self.wf(),
        ensures
            r == self.end - self.start,
    {
        self.end - self.start
    }

    pub fn contains(&self, offset: usize) -> (r: bool)
        ensures
            r == self.spec_contains(offset as int),
    {
        self.start <= offset && offset <= self.end
    }

    /// The smallest range covering both `self` and `other`.
    pub fn cover(&self, other: &TextRange) -> (r: TextRange)
        ensures
            r.start == if self.start <= other.start { self.start } else { other.start },
            r.end == if self.end >= other.end { self.end } else { other.end },
    {
        let start = if self.start <= other.start { self.start } else { other.start };
        let end = if self.end >= other.end { self.end } else { other.end };
        TextRange { start, end }
    }
}

} // verus!
