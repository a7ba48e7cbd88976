//! Timers: triggers that fire by themselves, once or periodically.

use vstd::prelude::*;
use crate::ids::TriggerId;
use crate::time::{Nanos, Tag};

verus! {

/// A timer of a reactor.
#[derive(Clone, Copy, Debug, PartialEq, Eq, Structural)]
pub struct Timer {
    /// The trigger that is present when the timer fires.
    pub trigger: TriggerId,
    /// The delay between startup and the first firing.
    pub offset: Nanos,
    /// The delay between two firings; zero for a timer that fires once.
    pub period: Nanos,
}

impl Timer {
    pub fn new(trigger: TriggerId, offset: Nanos, period: Nanos) -> (t: Timer)
        ensures
            t.trigger == trigger,
            t.offset == offset,
            t.period == period,
    {
        Timer { trigger, offset, period }
    }

    /// Whether the timer fires again after it has fired.
    pub fn is_periodic(&self) -> (b: bool)
        ensures
            b == (self.period > 0),
    {
        self.period > 0
    }

    /// Whether the first firing belongs to the startup tag itself.
    pub fn fires_at_startup(&self) -> (b: bool)
        ensures
            b == (self.offset == 0),
    {
        self.offset == 0
    }

    /// The instant of firing number `k`, counted from zero, after a startup
    /// at `start`.
    pub open spec fn firing_instant(&self, start: Nanos, k: nat) -> int {
        start + self.offset + k * self.period
    }

    /// Whether the timer fires at `tag` after a startup at `start`: at
    /// microstep zero of the instant of its first firing, and for a periodic
    /// timer also a whole number of periods later.
    pub open spec fn fires_at_spec(&self, start: Nanos, tag: Tag) -> bool {
        &&& tag.microstep == 0
        &&& tag.instant >= start + self.offset
        &&& if self.period == 0 {
            tag.instant == start + self.offset
        } else {
            (tag.instant - start - self.offset) % (self.period as int) == 0
        }
    }

    pub fn fires_at(&self, start: Nanos, tag: Tag) -> (b: bool)
        ensures
            b == self.fires_at_spec(start, tag),
    {
        if tag.microstep != 0 {
            return false;
        }
        let first = match start.checked_add(self.offset) {
            Some(first) => first,
            None => {
                return false;
            },
        };
        if tag.instant < first {
            return false;
        }
        if self.period == 0 {
            tag.instant == first
        } else {
            (tag.instant - first) % self.period == 0
        }
    }

    /// The tag of the first firing after a startup at `start`.
    pub fn first_firing(&self, start: Nanos) -> (t: Tag)
        requires
            start + self.offset <= u64::MAX,
        ensures
            t.instant == self.firing_instant(start, 0),
            t.microstep == 0,
    {
        Tag { instant: start + self.offset, microstep: 0 }
    }

    /// The tag of the firing that follows the one at `fired`, or `None` for
    /// a timer that fires once.
    pub fn next_firing(&self, fired: Tag) -> (r: Option<Tag>)
        requires
            fired.instant + self.period <= u64::MAX,
        ensures
            self.period == 0 <==> r is None,
            r matches Some(t) ==> t.instant == fired.instant + self.period && t.microstep == 0
                && fired.lt(t),
    {
        if self.period == 0 {
            None
        } else {
            Some(Tag { instant: fired.instant + self.period, microstep: 0 })
        }
    }
}

/// A timer fires at its firing instants and at no others: it fires at a
/// tag exactly if the tag has microstep zero and its instant is the instant
/// of some firing, the first one only for a timer without period.
pub proof fn fires_exactly_at_firing_instants(t: Timer, start: Nanos, tag: Tag)
    ensures
        t.fires_at_spec(start, tag) <==> tag.microstep == 0 && exists|k: nat|
            (t.period > 0 || k == 0) && #[trigger] t.firing_instant(start, k) == tag.instant,
{
    let d = tag.instant - start - t.offset;
    let p = t.period as int;
    if t.fires_at_spec(start, tag) {
        if t.period == 0 {
            assert(t.firing_instant(start, 0) == tag.instant);
        } else {
            let k = (d / p) as nat;
            assert(d == p * (d / p) + d % p) by (nonlinear_arith)
                requires
                    p > 0,
            ;
            assert(d / p >= 0) by (nonlinear_arith)
                requires
                    p > 0,
                    d >= 0,
            ;
            assert(k * t.period == p * (d / p)) by (nonlinear_arith)
                requires
                    k == d / p,
                    p == t.period,
            ;
            assert(t.firing_instant(start, k) == tag.instant);
        }
    }
    if tag.microstep == 0 && exists|k: nat|
        (t.period > 0 || k == 0) && #[trigger] t.firing_instant(start, k) == tag.instant {
        let k = choose|k: nat|
            (t.period > 0 || k == 0) && #[trigger] t.firing_instant(start, k) == tag.instant;
        if t.period > 0 {
            assert(d == k * p);
            assert((k * p) % p == 0) by (nonlinear_arith)
                requires
                    p > 0,
            ;
            assert(k * p >= 0) by (nonlinear_arith)
                requires
                    p > 0,
            ;
        } else {
            assert(0 * t.period == 0);
        }
    }
}

/// A periodic timer fires at `offset`, `offset + period`, `offset + 2 *
/// period` and so on after startup: the firing that follows firing `k` is
/// firing `k + 1`, one period later.
pub proof fn periodic_firings(t: Timer, start: Nanos, k: nat)
    ensures
        t.firing_instant(start, 0) == start + t.offset,
        t.firing_instant(start, k + 1) == t.firing_instant(start, k) + t.period,
        t.period > 0 ==> t.firing_instant(start, k) < t.firing_instant(start, k + 1),
{
    assert((k + 1) * t.period == k * t.period + t.period) by (nonlinear_arith);
}

} // verus!
