//! The waves that the runtime starts by itself: the first and the last
//! wave of a program, and the firing of timers.

use vstd::prelude::*;
use crate::dataflow::DataflowInfo;
use crate::event_queue::{Event, PayloadView};
use crate::ids::{GlobalReactionId, TriggerId};
use crate::reactions::ExecutableReactions;
use crate::scheduler::{
    in_order, pushed_all, pushed_all_by_views, pushed_views, shutdown_tag_spec, stop_time,
    RuntimeFault, SyncScheduler,
};
use crate::time::{Nanos, Tag};
use crate::timers::Timer;

verus! {

/// The tags and payloads of a sequence of events.
pub open spec fn event_views(s: Seq<Event>) -> Seq<(Tag, PayloadView)> {
    Seq::new(s.len(), |i: int| (s[i].tag, s[i].payload@))
}

/// The reactions of the first wave as far as the first `n` timers go: those
/// that startup sets off, and those of every timer without offset.
pub open spec fn startup_roots(info: DataflowInfo, timers: Seq<Timer>, n: int) -> Set<
    (int, GlobalReactionId),
>
    decreases n,
{
    if n <= 0 {
        info.triggered_spec(TriggerId(0))
    } else if timers[n - 1].offset == 0 {
        startup_roots(info, timers, n - 1).union(info.triggered_spec(timers[n - 1].trigger))
    } else {
        startup_roots(info, timers, n - 1)
    }
}

/// The first firings, among the first `n` timers, of the timers that have an
/// offset: for each an event at `start + offset`.
pub open spec fn first_firings(info: DataflowInfo, timers: Seq<Timer>, start: Nanos, n: int) -> Seq<
    (Tag, PayloadView),
>
    decreases n,
{
    if n <= 0 {
        Seq::empty()
    } else if timers[n - 1].offset > 0 {
        first_firings(info, timers, start, n - 1).push(
            (
                Tag { instant: (start + timers[n - 1].offset) as Nanos, microstep: 0 },
                PayloadView::Reactions(info.triggered_spec(timers[n - 1].trigger)),
            ),
        )
    } else {
        first_firings(info, timers, start, n - 1)
    }
}

/// The next firings, among the first `n` timers, of the periodic timers that
/// fire at `fired`: for each an event one period later, unless that instant
/// cannot be represented.
pub open spec fn next_firings(
    info: DataflowInfo,
    timers: Seq<Timer>,
    start: Nanos,
    fired: Tag,
    n: int,
) -> Seq<(Tag, PayloadView)>
    decreases n,
{
    if n <= 0 {
        Seq::empty()
    } else if timers[n - 1].period > 0 && timers[n - 1].fires_at_spec(start, fired) && fired.instant
        + timers[n - 1].period <= u64::MAX {
        next_firings(info, timers, start, fired, n - 1).push(
            (
                Tag { instant: (fired.instant + timers[n - 1].period) as Nanos, microstep: 0 },
                PayloadView::Reactions(info.triggered_spec(timers[n - 1].trigger)),
            ),
        )
    } else {
        next_firings(info, timers, start, fired, n - 1)
    }
}

/// Every event of `s` is well formed.
pub open spec fn all_wf(s: Seq<Event>) -> bool {
    forall|i: int| 0 <= i < s.len() ==> (#[trigger] s[i]).wf()
}

/// The wave at startup.
pub struct StartupWave {
    /// The reactions to run at the tag of startup.
    pub roots: ExecutableReactions,
    /// The first firings of the timers that have an offset.
    pub future: Vec<Event>,
}

/// The first wave of a program that starts at `start`: startup and the
/// timers without offset set off their reactions at once; every other timer
/// gets an event for its first firing.
pub fn startup_wave(info: &DataflowInfo, timers: &Vec<Timer>, start: Nanos) -> (wave: StartupWave)
    requires
        info.wf(),
        forall|k: int| 0 <= k < timers@.len() ==> start + (#[trigger] timers@[k]).offset <= u64::MAX,
    ensures
        wave.roots.wf(),
        all_wf(wave.future@),
        wave.roots@ == startup_roots(*info, timers@, timers@.len() as int),
        event_views(wave.future@) == first_firings(*info, timers@, start, timers@.len() as int),
{
    let mut roots = info.reactions_triggered_by(TriggerId::startup());
    let mut future: Vec<Event> = Vec::new();
    let mut k: usize = 0;
    assert(event_views(future@) =~= first_firings(*info, timers@, start, 0));
    while k < timers.len()
        invariant
            k <= timers@.len(),
            info.wf(),
            roots.wf(),
            all_wf(future@),
            forall|j: int| 0 <= j < timers@.len() ==> start + (#[trigger] timers@[j]).offset <= u64::MAX,
            roots@ == startup_roots(*info, timers@, k as int),
            event_views(future@) == first_firings(*info, timers@, start, k as int),
        decreases timers@.len() - k,
    {
        let t = timers[k];
        let reactions = info.reactions_triggered_by(t.trigger);
        if t.fires_at_startup() {
            roots.absorb(&reactions);
        } else {
            let ghost before = future@;
            future.push(Event::reactions(t.first_firing(start), reactions));
            proof {
                assert(event_views(future@) =~= event_views(before).push(
                    (
                        Tag { instant: (start + t.offset) as Nanos, microstep: 0 },
                        PayloadView::Reactions(info.triggered_spec(t.trigger)),
                    ),
                ));
            }
        }
        k = k + 1;
    }
    StartupWave { roots, future }
}

/// The reactions of the last wave of a program: those that shutdown sets off.
pub fn shutdown_wave(info: &DataflowInfo) -> (roots: ExecutableReactions)
    requires
        info.wf(),
    ensures
        roots.wf(),
        roots@ == info.triggered_spec(TriggerId(1)),
{
    info.reactions_triggered_by(TriggerId::shutdown())
}

/// The events that keep the periodic timers going once `fired` has been
/// processed: every periodic timer that fires at `fired` fires again one
/// period later.
pub fn due_timers(info: &DataflowInfo, timers: &Vec<Timer>, start: Nanos, fired: Tag) -> (future:
    Vec<Event>)
    requires
        info.wf(),
    ensures
        all_wf(future@),
        event_views(future@) == next_firings(*info, timers@, start, fired, timers@.len() as int),
        forall|i: int| 0 <= i < future@.len() ==> fired.lt((#[trigger] future@[i]).tag),
{
    let mut future: Vec<Event> = Vec::new();
    let mut k: usize = 0;
    assert(event_views(future@) =~= next_firings(*info, timers@, start, fired, 0));
    while k < timers.len()
        invariant
            k <= timers@.len(),
            info.wf(),
            all_wf(future@),
            event_views(future@) == next_firings(*info, timers@, start, fired, k as int),
            forall|i: int| 0 <= i < future@.len() ==> fired.lt((#[trigger] future@[i]).tag),
        decreases timers@.len() - k,
    {
        let t = timers[k];
        if t.is_periodic() && t.fires_at(start, fired) {
            match fired.instant.checked_add(t.period) {
                Some(instant) => {
                    let reactions = info.reactions_triggered_by(t.trigger);
                    let ghost before = future@;
                    future.push(Event::reactions(Tag { instant, microstep: 0 }, reactions));
                    proof {
                        assert(event_views(future@) =~= event_views(before).push(
                            (
                                Tag { instant, microstep: 0 },
                                PayloadView::Reactions(info.triggered_spec(t.trigger)),
                            ),
                        ));
                        assert forall|i: int| 0 <= i < future@.len() implies fired.lt(
                            (#[trigger] future@[i]).tag,
                        ) by {
                            if i < before.len() {
                                assert(future@[i] == before[i]);
                            }
                        }
                    }
                },
                None => {},
            }
        }
        k = k + 1;
    }
    future
}

/// A timer without period fires once: it never gives a next firing.
pub proof fn one_shot_timer_fires_once(
    info: DataflowInfo,
    timers: Seq<Timer>,
    start: Nanos,
    fired: Tag,
    n: int,
)
    requires
        0 <= n <= timers.len(),
        forall|k: int| 0 <= k < n ==> (#[trigger] timers[k]).period == 0,
    ensures
        next_firings(info, timers, start, fired, n) == Seq::<(Tag, PayloadView)>::empty(),
    decreases n,
{
    if n > 0 {
        one_shot_timer_fires_once(info, timers, start, fired, n - 1);
    }
}

/// A periodic timer that fires at a tag fires again exactly one period
/// later: the next firing is a firing of the timer, and no firing lies in
/// between.
pub proof fn next_firing_is_a_firing(t: Timer, start: Nanos, fired: Tag)
    requires
        t.period > 0,
        t.fires_at_spec(start, fired),
        fired.instant + t.period <= u64::MAX,
    ensures
        t.fires_at_spec(
            start,
            Tag { instant: (fired.instant + t.period) as Nanos, microstep: 0 },
        ),
        forall|between: Tag|
            fired.lt(between) && between.instant < fired.instant + t.period ==> !t.fires_at_spec(
                start,
                between,
            ),
{
    let p = t.period as int;
    let d = fired.instant - start - t.offset;
    assert((d + p) % p == 0) by (nonlinear_arith)
        requires
            p > 0,
            d % p == 0,
    ;
    assert forall|between: Tag|
        fired.lt(between) && between.instant < fired.instant + t.period implies !t.fires_at_spec(
        start,
        between,
    ) by {
        let e = between.instant - start - t.offset;
        if between.microstep == 0 && e >= 0 {
            assert(d < e < d + p);
            assert(e % p != 0) by (nonlinear_arith)
                requires
                    p > 0,
                    d % p == 0,
                    d < e < d + p,
            ;
        }
    }
}

/// The queue once the processing of a tag has been taken in: the events
/// that the reactions produced are pushed, and a stop that was asked for
/// puts termination at its tag.
pub open spec fn taken_in(q: Map<Tag, PayloadView>, future: Seq<Event>, stop: Option<Tag>) -> Map<
    Tag,
    PayloadView,
> {
    match stop {
        Some(at) => pushed_all(q, future).insert(at, PayloadView::Terminate),
        None => pushed_all(q, future),
    }
}

impl SyncScheduler {
    /// Starts the program when the clock shows `now`: fixes the timeline as
    /// `startup` does, queues the first firing of every timer that has an
    /// offset, and returns the tag of the startup wave with its reactions.
    pub fn launch(&mut self, info: &DataflowInfo, timers: &Vec<Timer>, now: Nanos) -> (r: (
        Tag,
        ExecutableReactions,
    ))
        requires
            old(self).wf(),
            info.wf(),
            old(self).options.timeout matches Some(d) ==> now + d <= u64::MAX,
            forall|k: int| 0 <= k < timers@.len() ==> now + (#[trigger] timers@[k]).offset <= u64::MAX,
        ensures
            final(self).wf(),
            r.0 == (Tag { instant: now, microstep: 0 }),
            r.1.wf(),
            r.1@ == startup_roots(*info, timers@, timers@.len() as int),
            final(self).options == old(self).options,
            final(self).initial_time == Some(now),
            final(self).latest_processed_tag == Some(r.0),
            final(self).shutdown_time == match old(self).options.timeout {
                Some(d) => Some(Tag { instant: (now + d) as Nanos, microstep: 0 }),
                None => old(self).shutdown_time,
            },
            final(self).queue@ == pushed_views(
                old(self).queue@,
                first_firings(*info, timers@, now, timers@.len() as int),
            ),
    {
        let tag = self.startup(now);
        let wave = startup_wave(info, timers, now);
        proof {
            pushed_all_by_views(self.queue@, wave.future@);
        }
        self.absorb(wave.future, None);
        (tag, wave.roots)
    }

    /// Takes in what the processing of `tag` has produced: queues the
    /// events for later tags, sets a stop that was asked for, and queues the
    /// next firing of every periodic timer that fired at `tag`. Timers count
    /// from the instant of startup; before startup none has fired.
    pub fn after_tag(
        &mut self,
        info: &DataflowInfo,
        timers: &Vec<Timer>,
        tag: Tag,
        future: Vec<Event>,
        stop: Option<Tag>,
    )
        requires
            old(self).wf(),
            info.wf(),
            all_wf(future@),
        ensures
            final(self).wf(),
            final(self).options == old(self).options,
            final(self).initial_time == old(self).initial_time,
            final(self).latest_processed_tag == old(self).latest_processed_tag,
            final(self).shutdown_time == match stop {
                Some(at) => Some(stop_time(old(self).shutdown_time, at)),
                None => old(self).shutdown_time,
            },
            final(self).queue@ == match old(self).initial_time {
                Some(start) => pushed_views(
                    taken_in(old(self).queue@, future@, stop),
                    next_firings(*info, timers@, start, tag, timers@.len() as int),
                ),
                None => taken_in(old(self).queue@, future@, stop),
            },
    {
        self.absorb(future, stop);
        match self.initial_time {
            Some(start) => {
                let again = due_timers(info, timers, start, tag);
                proof {
                    pushed_all_by_views(self.queue@, again@);
                }
                self.absorb(again, None);
            },
            None => {},
        }
    }

    /// Ends the program when the clock shows `now`: returns the tag of the
    /// shutdown wave, which counts as processed, with the reactions that
    /// shutdown sets off. Fails where there is no tag for the wave.
    pub fn shut_down(&mut self, info: &DataflowInfo, now: Nanos) -> (r: Result<
        (Tag, ExecutableReactions),
        RuntimeFault,
    >)
        requires
            old(self).wf(),
            info.wf(),
        ensures
            final(self).wf(),
            final(self).options == old(self).options,
            final(self).initial_time == old(self).initial_time,
            final(self).shutdown_time == old(self).shutdown_time,
            final(self).queue == old(self).queue,
            match shutdown_tag_spec(
                old(self).shutdown_time,
                old(self).latest_processed_tag,
                now,
            ) {
                Some(t) => {
                    &&& r matches Ok(wave)
                    &&& wave.0 == t
                    &&& wave.1.wf()
                    &&& wave.1@ == info.triggered_spec(TriggerId(1))
                    &&& in_order(old(self).latest_processed_tag, t)
                    &&& final(self).latest_processed_tag == Some(t)
                },
                None => {
                    &&& r matches Err(f)
                    &&& f == (RuntimeFault::TagOrder {
                        latest: old(self).latest_processed_tag.unwrap(),
                        offending: crate::scheduler::shutdown_base(old(self).shutdown_time, now),
                    })
                    &&& final(self).latest_processed_tag == old(self).latest_processed_tag
                },
            },
    {
        match self.shutdown_tag(now) {
            Ok(tag) => {
                self.latest_processed_tag = Some(tag);
                Ok((tag, shutdown_wave(info)))
            },
            Err(f) => Err(f),
        }
    }
}

} // verus!
