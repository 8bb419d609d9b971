use vstd::prelude::*;

verus! {

/// Half-open interval `[start, end)` of 0-based line indices.
#[derive(Clone, Copy, Debug, PartialEq, Eq, Structural)]
pub struct Interval {
    pub start: usize,
    pub end: usize,
}

/// The ways a run of the filter can fail.
#[derive(Clone, Copy, Debug, PartialEq, Eq, Structural)]
pub enum FilterError {
    /// The range expression matches no form of the grammar, or a bound in it
    /// is not a decimal number that fits in `usize`.
    InvalidRangeSyntax,
    /// The input file could not be opened.
    SourceUnavailable,
    /// Reading the input failed part way through.
    ReadFailure,
}

impl Interval {
    /// The interval holds the 0-based index `i`.
    pub open spec fn holds(self, i: int) -> bool {
        self.start <= i && i < self.end
    }

    /// Whether the line at 0-based index `i` is selected.
    pub fn contains(&self, i: usize) -> (r: bool)
        ensures
            r == self.holds(i as int),
    {
        self.start <= i && i < self.end
    }
}

/// The lines of `lines` whose index lies in `iv`, in their original order.
pub open spec fn selection<T>(iv: Interval, lines: Seq<T>) -> Seq<T> {
    let hi = if iv.end <= lines.len() { iv.end as int } else { lines.len() as int };
    if iv.start < hi {
        lines.subrange(iv.start as int, hi)
    } else {
        Seq::empty()
    }
}

} // verus!
