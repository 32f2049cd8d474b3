//! Flat chunk ranges and absolute source spans.

use vstd::prelude::*;

verus! {

/// A half-open interval `[start, end)` of character offsets inside a chunk.
#[derive(Clone, Copy, Debug, PartialEq, Eq, Structural)]
pub struct Range {
    pub start: usize,
    pub end: usize,
}

/// A position in the source file: line and column.
#[derive(Clone, Copy, Debug, PartialEq, Eq, Structural)]
pub struct LineColumn {
    pub line: usize,
    pub column: usize,
}

/// An inclusive region `[start, end]` of the source file.
#[derive(Clone, Copy, Debug, PartialEq, Eq, Structural)]
pub struct Span {
    pub start: LineColumn,
    pub end: LineColumn,
}

impl Range {
    /// Well-formed: the start does not lie beyond the end.
    pub open spec fn wf(self) -> bool {
        self.start <= self.end
    }

    /// The two ranges share at least one offset.
    pub open spec fn overlaps(self, other: Range) -> bool {
        self.start < other.end && other.start < self.end
    }

    pub open spec fn contains_offset(self, k: int) -> bool {
        self.start <= k < self.end
    }

    /// Whether the two ranges share at least one offset.
    pub fn overlaps_range(&self, other: &Range) -> (r: bool)
        ensures
            r == self.overlaps(*other),
    {
        self.start < other.end && other.start < self.end
    }
}

} // verus!
