use vstd::prelude::*;

verus! {

/// A half-open interval `[start, end)` of instants, in milliseconds.
#[derive(Clone, Copy, Debug, PartialEq, Eq, Structural)]
pub struct TimeRange {
    pub start: i64,
    pub end: i64,
}

/// When a note happens: a single instant or a half-open range.
#[derive(Clone, Copy, Debug, PartialEq, Eq, Structural)]
pub enum Timing {
    Point(i64),
    Range(TimeRange),
}

impl TimeRange {
    /// A range is well formed when it does not run backwards.
    pub open spec fn wf(self) -> bool {
        self.start <= self.end
    }

    pub fn new(start: i64, end: i64) -> (r: TimeRange)
        ensures
            r.start == start,
            r.end == end,
    {
        TimeRange { start, end }
    }

    /// Whether the range runs backwards.
    pub fn is_reversed(&self) -> (r: bool)
        ensures
            r == !self.wf(),
    {
        self.start > self.end
    }
}

impl Timing {
    /// A point is well formed; a range must not run backwards.
    pub open spec fn wf(self) -> bool {
        match self {
            Timing::Point(_) => true,
            Timing::Range(r) => r.wf(),
        }
    }

    /// A point lies in `[q.start, q.end)`; a range overlaps the query when it
    /// starts before the query ends and ends after the query starts.
    pub open spec fn overlaps_spec(self, q: TimeRange) -> bool {
        match self {
            Timing::Point(p) => q.start <= p && p < q.end,
            Timing::Range(r) => r.start < q.end && r.end > q.start,
        }
    }

    /// Whether a note with this timing belongs in the answer to query `q`.
    #[verifier::when_used_as_spec(overlaps_spec)]
    pub fn overlaps(self, q: TimeRange) -> (r: bool)
        ensures
            r == self.overlaps_spec(q),
    {
        match self {
            Timing::Point(p) => q.start <= p && p < q.end,
            Timing::Range(r) => r.start < q.end && r.end > q.start,
        }
    }
}

} // verus!
