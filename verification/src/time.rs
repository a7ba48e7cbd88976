//! Logical time: durations, instants and tags.
//!
//! Instants are counted in nanoseconds from the origin of the logical
//! timeline, which the scheduler fixes at startup. A tag pairs an instant
//! with a microstep that tells apart successive steps at the same instant.

use vstd::prelude::*;

verus! {

/// A span of logical time, in nanoseconds.
pub type Nanos = u64;

/// A point on the logical timeline: an instant and a microstep.
/// Tags are ordered lexicographically.
#[derive(Clone, Copy, Debug, PartialEq, Eq, Structural)]
pub struct Tag {
    /// Nanoseconds since the origin of the timeline.
    pub instant: Nanos,
    /// Counts the steps taken at `instant`.
    pub microstep: u32,
}

impl Tag {
    /// Strict lexicographic order on (instant, microstep).
    pub open spec fn lt(self, other: Tag) -> bool {
        self.instant < other.instant || (self.instant == other.instant && self.microstep
            < other.microstep)
    }

    /// Non-strict lexicographic order.
    pub open spec fn le(self, other: Tag) -> bool {
        self.lt(other) || self == other
    }

    /// The tag reached from `self` after `delay`: a positive delay moves the
    /// instant and resets the microstep, a zero delay takes one microstep.
    pub open spec fn after(self, delay: Nanos) -> (int, int) {
        if delay == 0 {
            (self.instant as int, self.microstep + 1)
        } else {
            (self.instant + delay, 0)
        }
    }

    /// Whether `self.after(delay)` can be held in a `Tag`.
    pub open spec fn can_advance(self, delay: Nanos) -> bool {
        if delay == 0 {
            self.microstep < u32::MAX
        } else {
            self.instant + delay <= u64::MAX
        }
    }

    /// The first tag at the given instant.
    pub fn at(instant: Nanos) -> (t: Tag)
        ensures
            t.instant == instant,
            t.microstep == 0,
    {
        Tag { instant, microstep: 0 }
    }

    pub fn new(instant: Nanos, microstep: u32) -> (t: Tag)
        ensures
            t.instant == instant,
            t.microstep == microstep,
    {
        Tag { instant, microstep }
    }

    /// `self < other`.
    pub fn is_before(&self, other: &Tag) -> (b: bool)
        ensures
            b == self.lt(*other),
    {
        self.instant < other.instant || (self.instant == other.instant && self.microstep
            < other.microstep)
    }

    /// `self <= other`.
    pub fn is_at_most(&self, other: &Tag) -> (b: bool)
        ensures
            b == self.le(*other),
    {
        !other.is_before(self)
    }

    /// The smaller of two tags.
    pub fn earliest(a: Tag, b: Tag) -> (m: Tag)
        ensures
            m == if b.lt(a) { b } else { a },
            m.le(a),
            m.le(b),
    {
        if b.is_before(&a) {
            b
        } else {
            a
        }
    }

    /// Advances by `delay`, or returns `None` where the result would not fit.
    pub fn checked_after(&self, delay: Nanos) -> (r: Option<Tag>)
        ensures
            r is Some <==> self.can_advance(delay),
            r matches Some(t) ==> (t.instant as int, t.microstep as int) == self.after(delay),
    {
        if delay == 0 {
            if self.microstep == u32::MAX {
                None
            } else {
                Some(Tag { instant: self.instant, microstep: self.microstep + 1 })
            }
        } else {
            match self.instant.checked_add(delay) {
                Some(instant) => Some(Tag { instant, microstep: 0 }),
                None => None,
            }
        }
    }

    /// Advances by `delay`.
    pub fn after_delay(&self, delay: Nanos) -> (t: Tag)
        requires
            self.can_advance(delay),
        ensures
            (t.instant as int, t.microstep as int) == self.after(delay),
            self.lt(t),
    {
        if delay == 0 {
            Tag { instant: self.instant, microstep: self.microstep + 1 }
        } else {
            Tag { instant: self.instant + delay, microstep: 0 }
        }
    }
}

/// The order on tags is irreflexive.
pub proof fn tag_order_irreflexive(a: Tag)
    ensures
        !a.lt(a),
{
}

/// The order on tags is transitive.
pub proof fn tag_order_transitive(a: Tag, b: Tag, c: Tag)
    requires
        a.lt(b),
        b.lt(c),
    ensures
        a.lt(c),
{
}

/// Any two tags are comparable: exactly one of `a < b`, `a == b`, `b < a` holds.
pub proof fn tag_order_total(a: Tag, b: Tag)
    ensures
        a.lt(b) || a == b || b.lt(a),
        !(a.lt(b) && b.lt(a)),
        !(a.lt(b) && a == b),
{
}

} // verus!
