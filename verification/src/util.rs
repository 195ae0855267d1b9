//! Range bounds, and the clamping of a range to the bounds of a sequence.
use vstd::prelude::*;
use std::ops::Range;

verus! {

/// One end of a range: included, excluded, or absent.
#[derive(Clone, Copy, Debug, PartialEq, Eq)]
pub enum Bound {
    Included(usize),
    Excluded(usize),
    Unbounded,
}

/// A range given by its two ends, in the way `a..b`, `a..`, `..=b` and `..` give one.
#[derive(Clone, Copy, Debug, PartialEq, Eq)]
pub struct Bounds {
    pub start: Bound,
    pub end: Bound,
}

impl Bounds {
    /// `start..end`
    pub fn range(start: usize, end: usize) -> (r: Bounds)
        ensures
            r == (Bounds { start: Bound::Included(start), end: Bound::Excluded(end) }),
    {
        Bounds { start: Bound::Included(start), end: Bound::Excluded(end) }
    }

    /// `start..=end`
    pub fn range_inclusive(start: usize, end: usize) -> (r: Bounds)
        ensures
            r == (Bounds { start: Bound::Included(start), end: Bound::Included(end) }),
    {
        Bounds { start: Bound::Included(start), end: Bound::Included(end) }
    }

    /// `start..`
    pub fn range_from(start: usize) -> (r: Bounds)
        ensures
            r == (Bounds { start: Bound::Included(start), end: Bound::Unbounded }),
    {
        Bounds { start: Bound::Included(start), end: Bound::Unbounded }
    }

    /// `..end`
    pub fn range_to(end: usize) -> (r: Bounds)
        ensures
            r == (Bounds { start: Bound::Unbounded, end: Bound::Excluded(end) }),
    {
        Bounds { start: Bound::Unbounded, end: Bound::Excluded(end) }
    }

    /// `..=end`
    pub fn range_to_inclusive(end: usize) -> (r: Bounds)
        ensures
            r == (Bounds { start: Bound::Unbounded, end: Bound::Included(end) }),
    {
        Bounds { start: Bound::Unbounded, end: Bound::Included(end) }
    }

    /// `..`
    pub fn full() -> (r: Bounds)
        ensures
            r == (Bounds { start: Bound::Unbounded, end: Bound::Unbounded }),
    {
        Bounds { start: Bound::Unbounded, end: Bound::Unbounded }
    }

    /// Where the range starts, counted from `lo`.
    pub open spec fn start_from(self, lo: int) -> int {
        match self.start {
            Bound::Included(n) => lo + n,
            Bound::Excluded(n) => lo + n + 1,
            Bound::Unbounded => lo,
        }
    }

    /// Where the range ends; an unbounded end is `hi`.
    pub open spec fn end_at(self, hi: int) -> int {
        match self.end {
            Bound::Included(n) => n + 1,
            Bound::Excluded(n) => n as int,
            Bound::Unbounded => hi,
        }
    }

    /// The range fits the machine's integers once placed at `lo`.
    pub open spec fn fits(self, lo: int) -> bool {
        &&& self.start_from(lo) <= usize::MAX
        &&& self.end_at(0) <= usize::MAX
    }
}

pub open spec fn min_int(a: int, b: int) -> int {
    if a < b { a } else { b }
}

/// Clamps `range` to `bounds`: its start is counted from `bounds.start`, its end is
/// taken as given, and both are cut down to `bounds.end`.
pub fn bound_range(range: &Bounds, bounds: Range<usize>) -> (r: Range<usize>)
    requires
        range.fits(bounds.start as int),
    ensures
        r.start == min_int(range.start_from(bounds.start as int), bounds.end as int),
        r.end == min_int(range.end_at(bounds.end as int), bounds.end as int),
{
    let start = match range.start {
        Bound::Included(n) => bounds.start + n,
        Bound::Excluded(n) => bounds.start + n + 1,
        Bound::Unbounded => bounds.start,
    };
    let end = match range.end {
        Bound::Included(n) => n + 1,
        Bound::Excluded(n) => n,
        Bound::Unbounded => bounds.end,
    };
    let s = if start < bounds.end { start } else { bounds.end };
    let e = if end < bounds.end { end } else { bounds.end };
    s..e
}

} // verus!
