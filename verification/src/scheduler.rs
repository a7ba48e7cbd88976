//! The decisions of the scheduler's event loop.
//!
//! The loop itself waits: for physical time to reach the tag of the next
//! event, and for events that arrive from other threads. What it does between
//! two waits is decided here. The scheduler is told what happened (the clock's
//! reading, an event that arrived, a wait that ran out) and answers with the
//! next step to take.

use vstd::prelude::*;
use crate::event_queue::{Event, EventPayload, EventQueue, PayloadView};
use crate::ids::GlobalReactionId;
use crate::reactions::ExecutableReactions;
use crate::time::{Nanos, Tag};

verus! {

/// How the scheduler is to run a program.
#[derive(Clone, Copy, Debug, PartialEq, Eq, Structural)]
pub struct SchedulerOptions {
    /// When set, the scheduler does not stop when the queue is empty, but
    /// waits for events from other threads.
    pub keep_alive: bool,
    /// When set, the program is shut down this long after startup.
    pub timeout: Option<Nanos>,
}

impl Default for SchedulerOptions {
    fn default() -> (o: SchedulerOptions)
        ensures
            !o.keep_alive,
            o.timeout is None,
    {
        SchedulerOptions { keep_alive: false, timeout: None }
    }
}

/// A state that a correct program never reaches.
#[derive(Clone, Copy, Debug, PartialEq, Eq, Structural)]
pub enum RuntimeFault {
    /// An event was due at a tag that is not after the last processed tag.
    TagOrder { latest: Tag, offending: Tag },
    /// A reaction belongs to a reactor that the program does not have.
    UnknownReactor { reaction: GlobalReactionId },
}

/// What the event loop is to do next.
#[derive(Debug)]
pub enum Step {
    /// Wait `delay` nanoseconds for the tag of `event` to come, or less if
    /// an event arrives from outside; then report with `resolve_wait`.
    Wait { event: Event, delay: Nanos },
    /// Run `reactions` at `tag`.
    Process { tag: Tag, reactions: ExecutableReactions },
    /// Wait for an event from outside, no longer than `timeout` if one is
    /// given; then report with `on_receive`.
    Receive { timeout: Option<Nanos> },
    /// Start the next round of the loop.
    Restart,
    /// Leave the loop and run the shutdown wave.
    Exit,
    /// Stop at once: the program or the runtime is broken.
    Fault(RuntimeFault),
}

/// How long a wait for asynchronous events may last.
#[derive(Clone, Copy, Debug, PartialEq, Eq, Structural)]
pub enum ReceiveWait {
    /// Do not wait.
    No,
    /// Wait this many nanoseconds at most.
    UpTo(Nanos),
    /// Wait until an event arrives.
    Forever,
}

/// `t` is pending in `q` and no pending tag is before it.
pub open spec fn is_earliest(q: Map<Tag, PayloadView>, t: Tag) -> bool {
    q.contains_key(t) && forall|u: Tag| q.contains_key(u) ==> t.le(u)
}

/// `t` is beyond the time of shutdown, if one is set.
pub open spec fn after_shutdown(shutdown_time: Option<Tag>, t: Tag) -> bool {
    shutdown_time matches Some(s) && s.lt(t)
}

/// The time of shutdown once a stop at `at` has been asked for: the earlier
/// of `at` and the time that was set.
pub open spec fn stop_time(shutdown_time: Option<Tag>, at: Tag) -> Tag {
    match shutdown_time {
        Some(s) => if s.lt(at) {
            s
        } else {
            at
        },
        None => at,
    }
}

/// Where the shutdown wave would stand if no tag had been processed: at
/// the time of shutdown if one is set, else at the instant that the clock
/// shows.
pub open spec fn shutdown_base(shutdown_time: Option<Tag>, now: Nanos) -> Tag {
    match shutdown_time {
        Some(s) => s,
        None => Tag { instant: now, microstep: 0 },
    }
}

/// The tag of the shutdown wave: `shutdown_base` where that is after the
/// last processed tag, else one microstep after the last processed tag, if
/// there is such a tag.
pub open spec fn shutdown_tag_spec(
    shutdown_time: Option<Tag>,
    latest: Option<Tag>,
    now: Nanos,
) -> Option<Tag> {
    let base = shutdown_base(shutdown_time, now);
    if in_order(latest, base) {
        Some(base)
    } else if latest.unwrap().microstep < u32::MAX {
        Some(
            Tag {
                instant: latest.unwrap().instant,
                microstep: (latest.unwrap().microstep + 1) as u32,
            },
        )
    } else {
        None
    }
}

/// How long the loop sleeps before it handles an event due at `target`:
/// until the clock shows the instant of the tag, and not at all if it is
/// already there or past it.
pub open spec fn catch_up_spec(now: Nanos, target: Tag) -> Option<Nanos> {
    if now < target.instant {
        Some((target.instant - now) as Nanos)
    } else {
        None
    }
}

/// The mathematical value of a step.
pub enum StepView {
    Wait { tag: Tag, payload: PayloadView, delay: Nanos },
    Process { tag: Tag, reactions: Set<(int, GlobalReactionId)> },
    Receive { timeout: Option<Nanos> },
    Restart,
    Exit,
    Fault(RuntimeFault),
}

impl Step {
    pub open spec fn view(&self) -> StepView {
        match self {
            Step::Wait { event, delay } => StepView::Wait {
                tag: event.tag,
                payload: event.payload@,
                delay: *delay,
            },
            Step::Process { tag, reactions } => StepView::Process {
                tag: *tag,
                reactions: reactions@,
            },
            Step::Receive { timeout } => StepView::Receive { timeout: *timeout },
            Step::Restart => StepView::Restart,
            Step::Exit => StepView::Exit,
            Step::Fault(f) => StepView::Fault(*f),
        }
    }

    /// The events and reactions that the step carries are well formed.
    pub open spec fn wf(&self) -> bool {
        match self {
            Step::Wait { event, delay } => event.wf(),
            Step::Process { tag, reactions } => reactions.wf(),
            _ => true,
        }
    }
}

/// Whether an event at `tag` may be processed after `latest` was.
pub open spec fn in_order(latest: Option<Tag>, tag: Tag) -> bool {
    latest matches Some(l) ==> l.lt(tag)
}

/// What becomes of an event whose time has come: termination ends the loop,
/// reactions are processed, unless their tag is not after the last one
/// that was processed.
pub open spec fn dispatch_step(latest: Option<Tag>, tag: Tag, payload: PayloadView) -> StepView {
    match payload {
        PayloadView::Terminate => StepView::Exit,
        PayloadView::Reactions(rs) => if in_order(latest, tag) {
            StepView::Process { tag, reactions: rs }
        } else {
            StepView::Fault(RuntimeFault::TagOrder { latest: latest.unwrap(), offending: tag })
        },
    }
}

/// The last processed tag after `dispatch_step`.
pub open spec fn dispatch_latest(latest: Option<Tag>, tag: Tag, payload: PayloadView) -> Option<
    Tag,
> {
    if payload is Reactions && in_order(latest, tag) {
        Some(tag)
    } else {
        latest
    }
}

/// What the loop does with the earliest pending event, due at `tag`, when
/// the clock shows `now`: a late event ends the loop; an event whose instant
/// is still to come is waited for; any other is dispatched.
pub open spec fn step_for_earliest(
    shutdown_time: Option<Tag>,
    latest: Option<Tag>,
    now: Nanos,
    tag: Tag,
    payload: PayloadView,
) -> StepView {
    if after_shutdown(shutdown_time, tag) {
        StepView::Exit
    } else {
        match catch_up_spec(now, tag) {
            Some(delay) => StepView::Wait { tag, payload, delay },
            None => dispatch_step(latest, tag, payload),
        }
    }
}

/// What the loop does when no event is pending.
pub open spec fn step_for_empty(wait: ReceiveWait) -> StepView {
    match wait {
        ReceiveWait::No => StepView::Exit,
        ReceiveWait::UpTo(d) => StepView::Receive { timeout: Some(d) },
        ReceiveWait::Forever => StepView::Receive { timeout: None },
    }
}

/// No two tags are both the earliest of a queue.
pub proof fn earliest_is_unique(q: Map<Tag, PayloadView>, t1: Tag, t2: Tag)
    requires
        is_earliest(q, t1),
        is_earliest(q, t2),
    ensures
        t1 == t2,
{
    assert(t1.le(t2));
    assert(t2.le(t1));
}

/// The state of the event loop.
#[derive(Debug)]
pub struct SyncScheduler {
    pub options: SchedulerOptions,
    /// The instant of startup, once the program has started.
    pub initial_time: Option<Nanos>,
    /// The tag of the last event that was handed out for processing.
    pub latest_processed_tag: Option<Tag>,
    /// The tag beyond which no event is processed.
    pub shutdown_time: Option<Tag>,
    /// The events that wait for their tag.
    pub queue: EventQueue,
}

impl SyncScheduler {
    pub open spec fn wf(&self) -> bool {
        self.queue.wf()
    }

    /// Everything but the queue is the same in both.
    pub open spec fn same_clock(&self, next: &SyncScheduler) -> bool {
        &&& next.options == self.options
        &&& next.initial_time == self.initial_time
        &&& next.latest_processed_tag == self.latest_processed_tag
        &&& next.shutdown_time == self.shutdown_time
    }

    /// What the receive-wait is in this state when the clock shows `now`.
    pub open spec fn receive_wait_spec(&self, now: Nanos) -> ReceiveWait {
        if !self.options.keep_alive {
            ReceiveWait::No
        } else {
            match self.shutdown_time {
                Some(s) => if now < s.instant {
                    ReceiveWait::UpTo((s.instant - now) as Nanos)
                } else {
                    ReceiveWait::No
                },
                None => ReceiveWait::Forever,
            }
        }
    }

    /// A scheduler that has not started, with an empty queue.
    pub fn new(options: SchedulerOptions) -> (s: SyncScheduler)
        ensures
            s.wf(),
            s.options == options,
            s.initial_time is None,
            s.latest_processed_tag is None,
            s.shutdown_time is None,
            s.queue@ == Map::<Tag, PayloadView>::empty(),
    {
        SyncScheduler {
            options,
            initial_time: None,
            latest_processed_tag: None,
            shutdown_time: None,
            queue: EventQueue::new(),
        }
    }

    /// Fixes the origin of the logical timeline at `now` and, where a
    /// timeout is configured, the time of shutdown at `now + timeout`.
    /// Returns the tag of the startup wave, which counts as processed: every
    /// event must be due after it.
    pub fn startup(&mut self, now: Nanos) -> (tag: Tag)
        requires
            old(self).options.timeout matches Some(d) ==> now + d <= u64::MAX,
        ensures
            tag == (Tag { instant: now, microstep: 0 }),
            final(self).initial_time == Some(now),
            final(self).shutdown_time == match old(self).options.timeout {
                Some(d) => Some(Tag { instant: (now + d) as Nanos, microstep: 0 }),
                None => old(self).shutdown_time,
            },
            final(self).options == old(self).options,
            final(self).latest_processed_tag == Some(tag),
            final(self).queue == old(self).queue,
    {
        self.initial_time = Some(now);
        self.latest_processed_tag = Some(Tag { instant: now, microstep: 0 });
        match self.options.timeout {
            Some(d) => {
                self.shutdown_time = Some(Tag { instant: now + d, microstep: 0 });
            },
            None => {},
        }
        Tag { instant: now, microstep: 0 }
    }

    /// Whether an event at `t` is late: its tag is beyond the time of
    /// shutdown. Such an event is not processed, and ends the loop.
    pub fn is_after_shutdown(&self, t: Tag) -> (b: bool)
        ensures
            b == after_shutdown(self.shutdown_time, t),
    {
        match self.shutdown_time {
            Some(s) => s.is_before(&t),
            None => false,
        }
    }

    /// Adds an event to the queue.
    pub fn push_event(&mut self, evt: Event)
        requires
            old(self).wf(),
            evt.wf(),
        ensures
            final(self).wf(),
            old(self).same_clock(final(self)),
            final(self).queue@ == pushed(old(self).queue@, evt),
    {
        self.queue.push(evt);
    }

    /// Asks for a stop at `at`: shutdown is set to `at` unless it is already
    /// set to an earlier tag, and an event that terminates the program is
    /// queued at `at`.
    pub fn request_stop(&mut self, at: Tag)
        requires
            old(self).wf(),
        ensures
            final(self).wf(),
            final(self).shutdown_time == Some(stop_time(old(self).shutdown_time, at)),
            final(self).options == old(self).options,
            final(self).initial_time == old(self).initial_time,
            final(self).latest_processed_tag == old(self).latest_processed_tag,
            final(self).queue@ == old(self).queue@.insert(at, PayloadView::Terminate),
    {
        let t = match self.shutdown_time {
            Some(s) => Tag::earliest(s, at),
            None => at,
        };
        self.shutdown_time = Some(t);
        self.queue.push(Event::terminate(at));
    }

    /// How long to sleep before an event due at `up_to` is handled, when
    /// the clock shows `now`; `None` where the tag's instant has come.
    pub fn catch_up_physical_time(now: Nanos, up_to: &Tag) -> (r: Option<Nanos>)
        ensures
            r == catch_up_spec(now, *up_to),
    {
        if now < up_to.instant {
            Some(up_to.instant - now)
        } else {
            None
        }
    }

    /// How long the loop may wait for an event from outside when the queue
    /// is empty: not at all without `keep_alive` or past the time of shutdown,
    /// else until the time of shutdown, or for ever if none is set.
    pub fn receive_wait(&self, now: Nanos) -> (w: ReceiveWait)
        ensures
            w == self.receive_wait_spec(now),
    {
        if !self.options.keep_alive {
            return ReceiveWait::No;
        }
        match self.shutdown_time {
            Some(s) => {
                if now < s.instant {
                    ReceiveWait::UpTo(s.instant - now)
                } else {
                    ReceiveWait::No
                }
            },
            None => ReceiveWait::Forever,
        }
    }

    /// The tag of the shutdown wave. It is the time of shutdown if one is
    /// set, else the instant that the clock shows; but where that tag is not
    /// after the last processed tag, the wave comes one microstep after the
    /// last processed tag, so that no tag is processed twice. Where not even
    /// that tag can be represented, there is no tag for the wave.
    pub fn shutdown_tag(&self, now: Nanos) -> (r: Result<Tag, RuntimeFault>)
        ensures
            match shutdown_tag_spec(self.shutdown_time, self.latest_processed_tag, now) {
                Some(t) => r == Ok::<Tag, RuntimeFault>(t),
                None => r == Err::<Tag, RuntimeFault>(
                    RuntimeFault::TagOrder {
                        latest: self.latest_processed_tag.unwrap(),
                        offending: shutdown_base(self.shutdown_time, now),
                    },
                ),
            },
            r matches Ok(t) ==> in_order(self.latest_processed_tag, t),
    {
        let base = match self.shutdown_time {
            Some(s) => s,
            None => Tag { instant: now, microstep: 0 },
        };
        match self.latest_processed_tag {
            None => Ok(base),
            Some(latest) => {
                if latest.is_before(&base) {
                    Ok(base)
                } else if latest.microstep < u32::MAX {
                    Ok(Tag { instant: latest.instant, microstep: latest.microstep + 1 })
                } else {
                    Err(RuntimeFault::TagOrder { latest, offending: base })
                }
            },
        }
    }

    /// Handles an event whose time has come.
    pub fn dispatch(&mut self, evt: Event) -> (step: Step)
        requires
            old(self).wf(),
            evt.wf(),
        ensures
            final(self).wf(),
            step.wf(),
            step@ == dispatch_step(old(self).latest_processed_tag, evt.tag, evt.payload@),
            final(self).latest_processed_tag == dispatch_latest(
                old(self).latest_processed_tag,
                evt.tag,
                evt.payload@,
            ),
            final(self).options == old(self).options,
            final(self).initial_time == old(self).initial_time,
            final(self).shutdown_time == old(self).shutdown_time,
            final(self).queue == old(self).queue,
    {
        let tag = evt.tag;
        match evt.payload {
            EventPayload::Terminate => Step::Exit,
            EventPayload::Reactions(reactions) => {
                match self.latest_processed_tag {
                    Some(latest) => {
                        if !latest.is_before(&tag) {
                            return Step::Fault(RuntimeFault::TagOrder { latest, offending: tag });
                        }
                    },
                    None => {},
                }
                self.latest_processed_tag = Some(tag);
                Step::Process { tag, reactions }
            },
        }
    }

    /// Decides the next step of the loop when the clock shows `now`. To be
    /// called once the events that have arrived from outside were pushed.
    ///
    /// The earliest pending event leaves the queue. If it is late, the loop
    /// ends. If its instant is still to come, the loop is to wait for it.
    /// Else it is dispatched. With an empty queue the loop ends, or waits
    /// for events from outside where `keep_alive` is set.
    pub fn next_step(&mut self, now: Nanos) -> (step: Step)
        requires
            old(self).wf(),
        ensures
            final(self).wf(),
            step.wf(),
            final(self).options == old(self).options,
            final(self).initial_time == old(self).initial_time,
            final(self).shutdown_time == old(self).shutdown_time,
            old(self).queue@ == Map::<Tag, PayloadView>::empty() ==> {
                &&& step@ == step_for_empty(old(self).receive_wait_spec(now))
                &&& final(self).queue@ == old(self).queue@
                &&& final(self).latest_processed_tag == old(self).latest_processed_tag
            },
            old(self).queue@ != Map::<Tag, PayloadView>::empty() ==> exists|t: Tag|
                {
                    &&& #[trigger] is_earliest(old(self).queue@, t)
                    &&& final(self).queue@ == old(self).queue@.remove(t)
                    &&& step@ == step_for_earliest(
                        old(self).shutdown_time,
                        old(self).latest_processed_tag,
                        now,
                        t,
                        old(self).queue@[t],
                    )
                    &&& final(self).latest_processed_tag == if step@ is Process {
                        Some(t)
                    } else {
                        old(self).latest_processed_tag
                    }
                },
            step matches Step::Process { tag, .. } ==> in_order(old(self).latest_processed_tag, tag)
                && !after_shutdown(old(self).shutdown_time, tag),
    {
        proof {
            old(self).queue.len_zero_iff_empty();
        }
        match self.queue.take_earliest() {
            Some(evt) => {
                let ghost t = evt.tag;
                assert(is_earliest(old(self).queue@, t));
                if self.is_after_shutdown(evt.tag) {
                    return Step::Exit;
                }
                match Self::catch_up_physical_time(now, &evt.tag) {
                    Some(delay) => Step::Wait { event: evt, delay },
                    None => self.dispatch(evt),
                }
            },
            None => {
                match self.receive_wait(now) {
                    ReceiveWait::No => Step::Exit,
                    ReceiveWait::UpTo(d) => Step::Receive { timeout: Some(d) },
                    ReceiveWait::Forever => Step::Receive { timeout: None },
                }
            },
        }
    }

    /// Decides the step after a wait for `evt`. With `interrupt` the wait
    /// was cut short by an event from outside: if that event is due before
    /// `evt`, both go back to the queue and the loop starts again; else it is
    /// queued and `evt` is dispatched. Without it the wait ran its course
    /// and `evt` is dispatched.
    pub fn resolve_wait(&mut self, evt: Event, interrupt: Option<Event>) -> (step: Step)
        requires
            old(self).wf(),
            evt.wf(),
            interrupt matches Some(a) ==> a.wf(),
        ensures
            final(self).wf(),
            step.wf(),
            final(self).options == old(self).options,
            final(self).initial_time == old(self).initial_time,
            final(self).shutdown_time == old(self).shutdown_time,
            match interrupt {
                None => {
                    &&& final(self).queue@ == old(self).queue@
                    &&& step@ == dispatch_step(old(self).latest_processed_tag, evt.tag, evt.payload@)
                    &&& final(self).latest_processed_tag == dispatch_latest(
                        old(self).latest_processed_tag,
                        evt.tag,
                        evt.payload@,
                    )
                },
                Some(a) => if a.tag.lt(evt.tag) {
                    &&& step@ == StepView::Restart
                    &&& final(self).latest_processed_tag == old(self).latest_processed_tag
                    &&& final(self).queue@ == pushed(pushed(old(self).queue@, evt), a)
                } else {
                    &&& step@ == dispatch_step(old(self).latest_processed_tag, evt.tag, evt.payload@)
                    &&& final(self).latest_processed_tag == dispatch_latest(
                        old(self).latest_processed_tag,
                        evt.tag,
                        evt.payload@,
                    )
                    &&& final(self).queue@ == pushed(old(self).queue@, a)
                },
            },
            step matches Step::Process { tag, .. } ==> in_order(old(self).latest_processed_tag, tag),
    {
        match interrupt {
            None => self.dispatch(evt),
            Some(a) => {
                if a.tag.is_before(&evt.tag) {
                    self.queue.push(evt);
                    self.queue.push(a);
                    Step::Restart
                } else {
                    self.queue.push(a);
                    self.dispatch(evt)
                }
            },
        }
    }

    /// Takes in what the processing of a tag has produced: the events for
    /// later tags go to the queue, and a stop that was asked for is set.
    pub fn absorb(&mut self, future: Vec<Event>, stop: Option<Tag>)
        requires
            old(self).wf(),
            forall|i: int| 0 <= i < future@.len() ==> (#[trigger] future@[i]).wf(),
        ensures
            final(self).wf(),
            final(self).options == old(self).options,
            final(self).initial_time == old(self).initial_time,
            final(self).latest_processed_tag == old(self).latest_processed_tag,
            final(self).shutdown_time == match stop {
                Some(at) => Some(stop_time(old(self).shutdown_time, at)),
                None => old(self).shutdown_time,
            },
            final(self).queue@ == match stop {
                Some(at) => pushed_all(old(self).queue@, future@).insert(
                    at,
                    PayloadView::Terminate,
                ),
                None => pushed_all(old(self).queue@, future@),
            },
    {
        let mut rest = future;
        while rest.len() > 0
            invariant
                self.wf(),
                old(self).same_clock(self),
                forall|i: int| 0 <= i < rest@.len() ==> (#[trigger] rest@[i]).wf(),
                pushed_all(self.queue@, rest@) == pushed_all(old(self).queue@, future@),
            decreases rest@.len(),
        {
            let ghost before = rest@;
            let e = rest.pop().unwrap();
            assert(rest@ == before.drop_last());
            assert(e == before.last());
            self.queue.push(e);
        }
        match stop {
            Some(at) => {
                self.request_stop(at);
            },
            None => {},
        }
    }

    /// Decides the step after a wait for events from outside: an event that
    /// arrived is queued and the loop starts again; without one the loop ends.
    pub fn on_receive(&mut self, received: Option<Event>) -> (step: Step)
        requires
            old(self).wf(),
            received matches Some(e) ==> e.wf(),
        ensures
            final(self).wf(),
            old(self).same_clock(final(self)),
            match received {
                Some(e) => step@ == StepView::Restart && final(self).queue@ == pushed(
                    old(self).queue@,
                    e,
                ),
                None => step@ == StepView::Exit && final(self).queue@ == old(self).queue@,
            },
    {
        match received {
            Some(e) => {
                self.queue.push(e);
                Step::Restart
            },
            None => Step::Exit,
        }
    }
}

/// The queue `q` after the events of `s` were pushed, the last one first.
pub open spec fn pushed_all(q: Map<Tag, PayloadView>, s: Seq<Event>) -> Map<Tag, PayloadView>
    decreases s.len(),
{
    if s.len() == 0 {
        q
    } else {
        pushed_all(pushed(q, s.last()), s.drop_last())
    }
}

/// The queue `q` after `e` was pushed.
pub open spec fn pushed(q: Map<Tag, PayloadView>, e: Event) -> Map<Tag, PayloadView> {
    pushed_view(q, e.tag, e.payload@)
}

/// The queue `q` after an event with that tag and payload was pushed.
pub open spec fn pushed_view(q: Map<Tag, PayloadView>, tag: Tag, payload: PayloadView) -> Map<
    Tag,
    PayloadView,
> {
    q.insert(
        tag,
        crate::event_queue::merge_payload(
            if q.contains_key(tag) {
                Some(q[tag])
            } else {
                None
            },
            payload,
        ),
    )
}

/// The queue `q` after events with these tags and payloads were pushed,
/// the last one first.
pub open spec fn pushed_views(q: Map<Tag, PayloadView>, s: Seq<(Tag, PayloadView)>) -> Map<
    Tag,
    PayloadView,
>
    decreases s.len(),
{
    if s.len() == 0 {
        q
    } else {
        pushed_views(pushed_view(q, s.last().0, s.last().1), s.drop_last())
    }
}

/// What pushing a sequence of events makes of a queue depends on the tags
/// and payloads of the events alone.
pub proof fn pushed_all_by_views(q: Map<Tag, PayloadView>, s: Seq<Event>)
    ensures
        pushed_all(q, s) == pushed_views(q, Seq::new(s.len(), |i: int| (s[i].tag, s[i].payload@))),
    decreases s.len(),
{
    let views = Seq::new(s.len(), |i: int| (s[i].tag, s[i].payload@));
    if s.len() > 0 {
        let front = s.drop_last();
        assert(views.drop_last() =~= Seq::new(front.len(), |i: int| (front[i].tag, front[i].payload@)));
        pushed_all_by_views(pushed(q, s.last()), front);
    }
}

/// The last wave is in order: its tag is after the last processed tag.
pub proof fn shutdown_wave_is_in_order(shutdown_time: Option<Tag>, latest: Option<Tag>, now: Nanos)
    ensures
        shutdown_tag_spec(shutdown_time, latest, now) matches Some(t) ==> in_order(latest, t),
        in_order(latest, shutdown_base(shutdown_time, now)) ==> shutdown_tag_spec(
            shutdown_time,
            latest,
            now,
        ) == Some(shutdown_base(shutdown_time, now)),
{
}

/// Events are processed in strictly ascending order of tag: whenever an
/// event is handed out for processing, its tag is after the tag of the event
/// handed out before it, and becomes the tag that the next one must exceed.
pub proof fn processing_order_is_strict(latest: Option<Tag>, tag: Tag, payload: PayloadView)
    requires
        dispatch_step(latest, tag, payload) is Process,
    ensures
        latest matches Some(l) ==> l.lt(tag),
        dispatch_latest(latest, tag, payload) == Some(tag),
        dispatch_step(latest, tag, payload)->Process_tag == tag,
{
}

/// No event beyond the time of shutdown is processed or waited for: it
/// ends the loop. With a timeout, shutdown is at `startup + timeout`, so
/// that exactly the events with a tag beyond that are cut off.
pub proof fn late_events_are_cut_off(
    shutdown_time: Option<Tag>,
    latest: Option<Tag>,
    now: Nanos,
    tag: Tag,
    payload: PayloadView,
)
    ensures
        after_shutdown(shutdown_time, tag) ==> step_for_earliest(
            shutdown_time,
            latest,
            now,
            tag,
            payload,
        ) == StepView::Exit,
        !after_shutdown(shutdown_time, tag) && payload is Reactions && in_order(latest, tag) ==> {
            ||| step_for_earliest(shutdown_time, latest, now, tag, payload) is Wait
            ||| step_for_earliest(shutdown_time, latest, now, tag, payload) is Process
        },
{
}

/// An event from outside that cuts a wait short and is due before the
/// awaited event is served before it: once both are back in the queue, the
/// earliest pending tag is at most the tag of the event from outside, and
/// before the tag of the awaited event.
pub proof fn interrupting_event_is_served_first(
    q: Map<Tag, PayloadView>,
    awaited: Event,
    arrived: Event,
    t: Tag,
)
    requires
        arrived.tag.lt(awaited.tag),
        is_earliest(pushed(pushed(q, awaited), arrived), t),
    ensures
        t.le(arrived.tag),
        t.lt(awaited.tag),
{
    assert(pushed(pushed(q, awaited), arrived).contains_key(arrived.tag));
}

/// Without `keep_alive` an empty queue ends the loop at once.
pub proof fn empty_queue_exits_without_keep_alive(s: SyncScheduler, now: Nanos)
    requires
        !s.options.keep_alive,
    ensures
        step_for_empty(s.receive_wait_spec(now)) == StepView::Exit,
{
}

/// Asking for a stop twice is the same as asking once for the earlier of
/// the two tags, in either order; asking again for the same tag changes
/// nothing.
pub proof fn stop_requests_take_the_minimum(shutdown_time: Option<Tag>, a: Tag, b: Tag)
    ensures
        stop_time(Some(stop_time(shutdown_time, a)), b) == stop_time(
            Some(stop_time(shutdown_time, b)),
            a,
        ),
        stop_time(Some(stop_time(shutdown_time, a)), a) == stop_time(shutdown_time, a),
        stop_time(Some(stop_time(shutdown_time, a)), b).le(a),
        stop_time(Some(stop_time(shutdown_time, a)), b).le(b),
        shutdown_time matches Some(s) ==> stop_time(Some(stop_time(shutdown_time, a)), b).le(s),
{
}

} // verus!
