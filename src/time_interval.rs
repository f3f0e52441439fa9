use vstd::prelude::*;

verus! {

/// A time interval in milliseconds with closed-open semantics `[start, end)`.
#[derive(Clone, Copy, PartialEq, Eq, Structural, Debug)]
pub struct TimeInterval {
    start: i64,
    end: i64,
}

/// Errors of interval construction and interval algebra.
#[derive(Clone, Copy, PartialEq, Eq, Structural, Debug)]
pub enum TimeIntervalError {
    /// The start lies after the end.
    EndBeforeStart { start: i64, end: i64 },
    /// The two intervals neither intersect nor touch.
    UnmatchedIntervals { i1: TimeInterval, i2: TimeInterval },
}

impl TimeInterval {
    /// The inclusive lower bound.
    pub closed spec fn start_spec(self) -> i64 {
        self.start
    }

    /// The exclusive upper bound.
    pub closed spec fn end_spec(self) -> i64 {
        self.end
    }

    /// Create a new time interval and check its bounds.
    pub fn new(start: i64, end: i64) -> (r: Result<Self, TimeIntervalError>)
        ensures
            start <= end <==> r is Ok,
            r matches Ok(i) ==> i.start_spec() == start && i.end_spec() == end,
            r matches Err(e) ==> e == (TimeIntervalError::EndBeforeStart { start, end }),
    {
        if start <= end {
            Ok(Self { start, end })
        } else {
            Err(TimeIntervalError::EndBeforeStart { start, end })
        }
    }

    /// Create a new time interval without checking its bounds.
    ///
    /// The caller vouches for `start <= end`; an interval that breaks it has no
    /// meaning in the interval algebra below.
    pub fn new_unchecked(start: i64, end: i64) -> (r: Self)
        ensures
            r.start_spec() == start,
            r.end_spec() == end,
    {
        Self { start, end }
    }

    /// The inclusive lower bound.
    pub fn start(&self) -> (r: i64)
        ensures
            r == self.start_spec(),
    {
        self.start
    }

    /// The exclusive upper bound.
    pub fn end(&self) -> (r: i64)
        ensures
            r == self.end_spec(),
    {
        self.end
    }

    /// Whether `other` lies within this interval (smaller or equal).
    pub open spec fn contains_spec(self, other: Self) -> bool {
        self.start_spec() <= other.start_spec() && self.end_spec() >= other.end_spec()
    }

    /// Whether the two intervals overlap in more than a boundary point.
    pub open spec fn intersects_spec(self, other: Self) -> bool {
        self.start_spec() < other.end_spec() && self.end_spec() > other.start_spec()
    }

    /// Whether the two intervals intersect or touch, so that their union is an interval.
    pub open spec fn unionable(self, other: Self) -> bool {
        self.intersects_spec(other) || self.start_spec() == other.end_spec()
            || self.end_spec() == other.start_spec()
    }

    /// The smaller of the two starts.
    pub open spec fn min_start(self, other: Self) -> i64 {
        if self.start_spec() <= other.start_spec() { self.start_spec() } else { other.start_spec() }
    }

    /// The larger of the two ends.
    pub open spec fn max_end(self, other: Self) -> i64 {
        if self.end_spec() >= other.end_spec() { self.end_spec() } else { other.end_spec() }
    }

    /// The three-valued order: equal, entirely before, entirely after, or unordered.
    pub open spec fn order(self, other: Self) -> Option<core::cmp::Ordering> {
        if self == other {
            Some(core::cmp::Ordering::Equal)
        } else if self.end_spec() <= other.start_spec() {
            Some(core::cmp::Ordering::Less)
        } else if self.start_spec() >= other.end_spec() {
            Some(core::cmp::Ordering::Greater)
        } else {
            None
        }
    }

    /// Returns whether the other interval is contained (smaller or equal) within this one.
    pub fn contains(&self, other: &Self) -> (r: bool)
        ensures
            r == self.contains_spec(*other),
    {
        self.start <= other.start && self.end >= other.end
    }

    /// Returns whether the given interval intersects this one.
    pub fn intersects(&self, other: &Self) -> (r: bool)
        ensures
            r == self.intersects_spec(*other),
    {
        self.start < other.end && self.end > other.start
    }

    /// Unites this interval with another one that intersects or touches it.
    pub fn union(&self, other: &Self) -> (r: Result<Self, TimeIntervalError>)
        ensures
            self.unionable(*other) <==> r is Ok,
            r matches Ok(u) ==> u.start_spec() == self.min_start(*other) && u.end_spec()
                == self.max_end(*other),
            r matches Err(e) ==> e == (TimeIntervalError::UnmatchedIntervals { i1: *self, i2: *other }),
    {
        if self.intersects(other) || self.start == other.end || self.end == other.start {
            let start = if self.start <= other.start { self.start } else { other.start };
            let end = if self.end >= other.end { self.end } else { other.end };
            Ok(Self { start, end })
        } else {
            Err(TimeIntervalError::UnmatchedIntervals { i1: *self, i2: *other })
        }
    }
}

/// Two intervals are equal exactly when their bounds are.
pub proof fn lemma_eq_by_bounds(a: TimeInterval, b: TimeInterval)
    ensures
        (a == b) <==> (a.start_spec() == b.start_spec() && a.end_spec() == b.end_spec()),
{
}

/// Intersection is symmetric.
pub proof fn lemma_intersects_symmetric(a: TimeInterval, b: TimeInterval)
    ensures
        a.intersects_spec(b) == b.intersects_spec(a),
{
}

/// Every interval contains itself.
pub proof fn lemma_contains_reflexive(a: TimeInterval)
    ensures
        a.contains_spec(a),
{
}

/// Two intervals that contain each other are equal.
pub proof fn lemma_contains_antisymmetric(a: TimeInterval, b: TimeInterval)
    requires
        a.contains_spec(b),
        b.contains_spec(a),
    ensures
        a == b,
{
}

impl PartialOrd for TimeInterval {
    /// Orders intervals by whether they lie completely before, at or after each other;
    /// overlapping distinct intervals are unordered.
    fn partial_cmp(&self, other: &Self) -> (r: Option<core::cmp::Ordering>)
        ensures
            r == self.order(*other),
    {
        if *self == *other {
            Some(core::cmp::Ordering::Equal)
        } else if self.end <= other.start {
            Some(core::cmp::Ordering::Less)
        } else if self.start >= other.end {
            Some(core::cmp::Ordering::Greater)
        } else {
            None
        }
    }
}

impl vstd::std_specs::cmp::PartialOrdSpecImpl for TimeInterval {
    open spec fn obeys_partial_cmp_spec() -> bool {
        true
    }

    open spec fn partial_cmp_spec(&self, other: &Self) -> Option<core::cmp::Ordering> {
        self.order(*other)
    }
}

} // verus!
