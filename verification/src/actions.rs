//! Actions: triggers that a reaction, or the outside world, schedules for a
//! later tag.
//!
//! A logical action is scheduled relative to the current tag. A physical
//! action is scheduled relative to the physical clock, and may be scheduled
//! from outside the scheduler's own thread.

use vstd::prelude::*;
use crate::ids::TriggerId;
use crate::time::{Nanos, Tag};

verus! {

/// An action of a reactor.
#[derive(Clone, Copy, Debug, PartialEq, Eq, Structural)]
pub struct ActionId {
    /// The trigger that is present when the action fires.
    pub trigger: TriggerId,
    /// The least delay between scheduling and firing.
    pub min_delay: Nanos,
    /// Whether the action is logical, as opposed to physical.
    pub is_logical: bool,
}

/// The larger of two delays.
pub open spec fn max_delay(a: Nanos, b: Nanos) -> Nanos {
    if a >= b {
        a
    } else {
        b
    }
}

impl ActionId {
    /// A new action; without a minimum delay the delay is zero.
    pub fn new(min_delay: Option<Nanos>, trigger: TriggerId, is_logical: bool) -> (a: ActionId)
        ensures
            a.trigger == trigger,
            a.is_logical == is_logical,
            a.min_delay == match min_delay {
                Some(d) => d,
                None => 0,
            },
    {
        let d: Nanos = match min_delay {
            Some(d) => d,
            None => 0,
        };
        ActionId { trigger, min_delay: d, is_logical }
    }

    /// The delay that takes effect when the action is scheduled with an
    /// additional delay of `offset`.
    pub open spec fn effective_delay_spec(&self, offset: Nanos) -> Nanos {
        max_delay(self.min_delay, offset)
    }

    pub fn effective_delay(&self, offset: Nanos) -> (d: Nanos)
        ensures
            d == self.effective_delay_spec(offset),
    {
        if self.min_delay >= offset {
            self.min_delay
        } else {
            offset
        }
    }

    /// The tag at which the action fires when it is scheduled at `now` with
    /// an additional delay of `offset`: `now` advanced by the effective
    /// delay. A positive delay resets the microstep, a zero delay takes one
    /// microstep.
    pub fn schedule_tag(&self, now: Tag, offset: Nanos) -> (t: Tag)
        requires
            now.can_advance(self.effective_delay_spec(offset)),
        ensures
            (t.instant as int, t.microstep as int) == now.after(self.effective_delay_spec(offset)),
            now.lt(t),
    {
        let d = self.effective_delay(offset);
        now.after_delay(d)
    }

    /// As `schedule_tag`, but answers `None` where the tag would not fit.
    pub fn checked_schedule_tag(&self, now: Tag, offset: Nanos) -> (r: Option<Tag>)
        ensures
            r is Some <==> now.can_advance(self.effective_delay_spec(offset)),
            r matches Some(t) ==> (t.instant as int, t.microstep as int) == now.after(
                self.effective_delay_spec(offset),
            ) && now.lt(t),
    {
        let d = self.effective_delay(offset);
        now.checked_after(d)
    }
}

/// Where a physical action lands that is scheduled when the physical clock
/// shows `physical_now` and `latest` is the last tag that was processed: at
/// the clock's instant if that is ahead of `latest`, else one microstep
/// after `latest`.
pub open spec fn physical_tag_spec(physical_now: Nanos, latest: Tag) -> (int, int) {
    if physical_now > latest.instant {
        (physical_now as int, 0)
    } else {
        (latest.instant as int, latest.microstep + 1)
    }
}

/// The tag of a physical action scheduled now. It is after `latest`, so
/// that processing never goes back in time.
pub fn physical_tag(physical_now: Nanos, latest: Tag) -> (t: Tag)
    requires
        physical_now > latest.instant || latest.microstep < u32::MAX,
    ensures
        (t.instant as int, t.microstep as int) == physical_tag_spec(physical_now, latest),
        latest.lt(t),
        t.instant >= physical_now,
{
    if physical_now > latest.instant {
        Tag { instant: physical_now, microstep: 0 }
    } else {
        Tag { instant: latest.instant, microstep: latest.microstep + 1 }
    }
}

/// Scheduling with no delay at all takes one microstep and leaves the
/// instant alone.
pub proof fn zero_delay_advances_microstep_only(a: ActionId, now: Tag)
    requires
        a.min_delay == 0,
    ensures
        now.after(a.effective_delay_spec(0)) == (now.instant as int, now.microstep + 1),
{
}

/// Scheduling at `now` lands at `now + max(min_delay, offset)`: where that
/// delay is positive the instant advances and the microstep is zero, else the
/// instant stays and the microstep grows by one.
pub proof fn schedule_lands_after_effective_delay(a: ActionId, now: Tag, offset: Nanos)
    ensures
        a.effective_delay_spec(offset) >= a.min_delay,
        a.effective_delay_spec(offset) >= offset,
        a.effective_delay_spec(offset) == a.min_delay || a.effective_delay_spec(offset) == offset,
        a.effective_delay_spec(offset) > 0 ==> now.after(a.effective_delay_spec(offset)) == (
            now.instant + a.effective_delay_spec(offset),
            0int,
        ),
        a.effective_delay_spec(offset) == 0 ==> now.after(a.effective_delay_spec(offset)) == (
            now.instant as int,
            now.microstep + 1,
        ),
{
}

} // verus!
