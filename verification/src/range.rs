//! Inclusive line ranges and the one-line growth step.

use vstd::prelude::*;

verus! {

/// Line range with a beginning (inclusive) and end (inclusive).
#[derive(Debug, Clone, Copy, PartialEq, Eq, Structural)]
pub struct LineRange {
    /// Start of the range (inclusive).
    pub start: usize,
    /// End of the range (inclusive).
    pub end: usize,
}

/// Line range expansion position.
#[derive(Debug, Clone, Copy)]
pub enum Position {
    /// The line range will be expanded towards the top.
    Start,
    /// The line range will be expanded towards the bottom.
    End,
}

/// A well-formed range runs forward: its start does not pass its end.
pub open spec fn range_wf(r: LineRange) -> bool {
    r.start <= r.end
}

/// Length of a range, measured as the distance from start to end (a
/// single-line range has length zero, a pair of lines length one).
pub open spec fn range_len(r: LineRange) -> int {
    r.end - r.start
}

/// The range grown by one line at the given position.
pub open spec fn spec_add_row(r: LineRange, position: Position) -> LineRange {
    match position {
        Position::Start => LineRange { start: (r.start - 1) as usize, end: r.end },
        Position::End => LineRange { start: r.start, end: (r.end + 1) as usize },
    }
}

/// Whether two ranges can be scored against each other: both must run
/// forward and they must have equal length. Scoring a pair that fails this
/// check is an invariant violation, never a recoverable condition.
pub fn comparable(range1: &LineRange, range2: &LineRange) -> (r: bool)
    ensures
        r == (range_wf(*range1) && range_wf(*range2) && range_len(*range1) == range_len(*range2)),
{
    range1.start <= range1.end && range2.start <= range2.end && range1.end - range1.start
        == range2.end - range2.start
}

/// Add a row to the given line range `range`, according to `position`.
pub fn add_row(range: &LineRange, position: &Position) -> (r: LineRange)
    requires
        *position is Start ==> range.start >= 1,
        *position is End ==> range.end < usize::MAX,
    ensures
        r == spec_add_row(*range, *position),
{
    LineRange {
        start: match position {
            Position::Start => range.start - 1,
            Position::End => range.start,
        },
        end: match position {
            Position::Start => range.end,
            Position::End => range.end + 1,
        },
    }
}

} // verus!
