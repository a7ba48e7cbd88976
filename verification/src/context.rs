//! The processing of one tag, and what a reaction may do while it runs.
//!
//! Within a tag the reactions run level by level, lowest level first. A
//! reaction receives a context through which it reads and writes ports,
//! schedules actions and asks for a stop. A write to a port sets off the
//! reactions that the port triggers; they run later in the same tag, at their
//! own, higher level. An action that is scheduled gives an event for a later
//! tag.

use vstd::prelude::*;
use crate::actions::ActionId;
use crate::dataflow::{DataflowInfo, Effect};
use crate::error::AssemblyError;
use crate::event_queue::Event;
use crate::ids::{GlobalReactionId, LocalReactionId, ReactorId};
use crate::ports::{PortId, PortPool};
use crate::reactions::{ascending, ExecutableReactions, Level};
use crate::scheduler::{stop_time, RuntimeFault};
use crate::time::{Nanos, Tag};

verus! {

/// Every event of `s` is well formed and due after `tag`.
pub open spec fn all_after(s: Seq<Event>, tag: Tag) -> bool {
    forall|i: int| 0 <= i < s.len() ==> (#[trigger] s[i]).wf() && tag.lt(s[i].tag)
}

/// What a reaction sees of the program while it runs at a tag.
pub struct ReactionCtx<'a, T> {
    tag: Tag,
    current: GlobalReactionId,
    floor: Level,
    todo: ExecutableReactions,
    future: Vec<Event>,
    stop: Option<Tag>,
    ports: PortPool<T>,
    dataflow: &'a DataflowInfo,
}

impl<'a, T: Copy> ReactionCtx<'a, T> {
    /// The tag that is being processed.
    pub closed spec fn tag_spec(&self) -> Tag {
        self.tag
    }

    /// The reaction that is running.
    pub closed spec fn current_spec(&self) -> GlobalReactionId {
        self.current
    }

    /// The lowest level at which a reaction can still be set off: one
    /// above the level of the batch that is running.
    pub closed spec fn floor_spec(&self) -> Level {
        self.floor
    }

    /// The reactions of this tag: those that have run, the one that runs,
    /// and those that are still to run.
    pub closed spec fn todo_spec(&self) -> Set<(int, GlobalReactionId)> {
        self.todo@
    }

    /// The events for later tags that the reactions have produced so far.
    pub closed spec fn future_spec(&self) -> Seq<Event> {
        self.future@
    }

    /// The earliest tag at which a stop was asked for, if any.
    pub closed spec fn stop_spec(&self) -> Option<Tag> {
        self.stop
    }

    /// The ports of the program.
    pub closed spec fn ports_spec(&self) -> PortPool<T> {
        self.ports
    }

    pub closed spec fn dataflow_spec(&self) -> DataflowInfo {
        *self.dataflow
    }

    pub closed spec fn wf(&self) -> bool {
        &&& self.todo.wf()
        &&& self.ports.wf()
        &&& self.dataflow.wf()
        &&& all_after(self.future@, self.tag)
        &&& self.stop matches Some(s) ==> self.tag.lt(s)
    }

    /// `later` is a state of this context later in the same tag: tag,
    /// level and bindings are as they were, no reaction has left, and the
    /// reactions that have come in stand at the floor or above.
    pub open spec fn continues(&self, later: &ReactionCtx<'a, T>) -> bool {
        &&& later.tag_spec() == self.tag_spec()
        &&& later.current_spec() == self.current_spec()
        &&& later.floor_spec() == self.floor_spec()
        &&& later.dataflow_spec() == self.dataflow_spec()
        &&& self.ports_spec().same_bindings(&later.ports_spec())
        &&& self.todo_spec().subset_of(later.todo_spec())
        &&& forall|p: (int, GlobalReactionId)|
            later.todo_spec().contains(p) && !self.todo_spec().contains(p) ==> p.0
                >= self.floor_spec()
        &&& self.future_spec().is_prefix_of(later.future_spec())
    }

    /// `later` is a state of this context later in the same batch: as
    /// `continues`, but for the reaction that is running.
    pub open spec fn proceeds(&self, later: &ReactionCtx<'a, T>) -> bool {
        &&& later.tag_spec() == self.tag_spec()
        &&& later.floor_spec() == self.floor_spec()
        &&& later.dataflow_spec() == self.dataflow_spec()
        &&& self.ports_spec().same_bindings(&later.ports_spec())
        &&& self.todo_spec().subset_of(later.todo_spec())
        &&& forall|p: (int, GlobalReactionId)|
            later.todo_spec().contains(p) && !self.todo_spec().contains(p) ==> p.0
                >= self.floor_spec()
        &&& self.future_spec().is_prefix_of(later.future_spec())
    }

    /// `next` holds what this context holds: the same tag, reactions,
    /// events, stop, ports and dataflow. The two may differ in the reaction
    /// that is running and in the floor.
    pub open spec fn hands_on(&self, next: &ReactionCtx<'a, T>) -> bool {
        &&& next.tag_spec() == self.tag_spec()
        &&& next.todo_spec() == self.todo_spec()
        &&& next.future_spec() == self.future_spec()
        &&& next.stop_spec() == self.stop_spec()
        &&& next.ports_spec() == self.ports_spec()
        &&& next.dataflow_spec() == self.dataflow_spec()
    }

    /// The context holds what a tag starts with: the roots, the ports as
    /// they were handed in, and neither an event nor a stop.
    pub open spec fn starts_with(
        &self,
        tag: Tag,
        roots: Set<(int, GlobalReactionId)>,
        ports: PortPool<T>,
        dataflow: DataflowInfo,
    ) -> bool {
        &&& self.tag_spec() == tag
        &&& self.todo_spec() == roots
        &&& self.future_spec() == Seq::<Event>::empty()
        &&& self.stop_spec() is None
        &&& self.ports_spec() == ports
        &&& self.dataflow_spec() == dataflow
    }

    /// What a well-formed context holds is well formed: its ports and its
    /// dataflow; its events and its stop are due after its tag.
    pub proof fn wf_properties(&self)
        requires
            self.wf(),
        ensures
            self.ports_spec().wf(),
            self.dataflow_spec().wf(),
            all_after(self.future_spec(), self.tag_spec()),
            self.stop_spec() matches Some(s) ==> self.tag_spec().lt(s),
    {
    }

    /// Whether `p` is a port of the program.
    pub fn has_port(&self, p: PortId) -> (b: bool)
        requires
            self.wf(),
        ensures
            b == self.ports_spec().has_port(p),
    {
        p.index() < self.ports.len()
    }

    /// The tag that is being processed.
    pub fn tag(&self) -> (t: Tag)
        ensures
            t == self.tag_spec(),
    {
        self.tag
    }

    /// The value that `p` shows at this tag: the one written to the root of
    /// its chain of bindings, or `None` if none was written.
    pub fn get(&self, p: PortId) -> (v: Option<T>)
        requires
            self.wf(),
            self.ports_spec().has_port(p),
        ensures
            v == self.ports_spec().read_spec(p),
    {
        self.ports.get(p)
    }

    /// The reactions that a write to `p` adds to those of the tag: the ones
    /// that the port's trigger sets off, as far as they stand at the floor
    /// or above.
    pub open spec fn set_off_by_write(&self, p: PortId) -> Set<(int, GlobalReactionId)> {
        self.dataflow_spec().triggered_spec(self.ports_spec().trigger_spec(p)).filter(
            |q: (int, GlobalReactionId)| q.0 >= self.floor_spec(),
        )
    }

    /// Whether the reaction that is running may write to `p`: it has
    /// declared the write, and `p` is not bound to an upstream port.
    pub open spec fn may_set(&self, p: PortId) -> bool {
        &&& self.ports_spec().bindings()[p.0 as int] is None
        &&& self.dataflow_spec().effects_spec().contains(
            Effect { reaction: self.current_spec(), port: p },
        )
    }

    /// Writes `v` to `p` for the rest of the tag, and sets off the
    /// reactions that the port triggers. Refused with `CannotSet` where `p`
    /// is bound to an upstream port or the reaction that is running has not
    /// declared the write; nothing changes then.
    pub fn set(&mut self, p: PortId, v: T) -> (r: Result<(), AssemblyError>)
        requires
            old(self).wf(),
            old(self).ports_spec().has_port(p),
        ensures
            final(self).wf(),
            old(self).continues(final(self)),
            r is Ok <==> old(self).may_set(p),
            r is Err ==> r == Err::<(), AssemblyError>(AssemblyError::CannotSet(p)) && *final(self)
                == *old(self),
            r is Ok ==> {
                &&& old(self).ports_spec().wrote(&final(self).ports_spec(), p, v)
                &&& final(self).ports_spec().read_spec(p) == Some(v)
                &&& forall|q: PortId|
                    old(self).ports_spec().has_port(q) && old(self).ports_spec().root_spec(q) == p
                        ==> #[trigger] final(self).ports_spec().read_spec(q) == Some(v)
                &&& final(self).todo_spec() == old(self).todo_spec().union(
                    old(self).set_off_by_write(p),
                )
                &&& final(self).future_spec() == old(self).future_spec()
                &&& final(self).stop_spec() == old(self).stop_spec()
            },
    {
        if !self.dataflow.is_effect(self.current, p) {
            proof {
                self.ports.same_bindings_reflexive();
            }
            return Err(AssemblyError::CannotSet(p));
        }
        match self.ports.set(p, v) {
            Err(e) => {
                return Err(e);
            },
            Ok(()) => {},
        }
        let trigger = self.ports.trigger(p);
        let set_off = self.dataflow.reactions_triggered_by(trigger);
        self.todo.absorb_after(&set_off, self.floor);
        proof {
            old(self).ports.root_properties(p);
            assert forall|q: PortId|
                old(self).ports.has_port(q) && old(self).ports.root_spec(q)
                    == p implies #[trigger] self.ports.read_spec(q) == Some(v) by {
                crate::ports::write_reaches_exactly_the_bound_ports(
                    old(self).ports,
                    self.ports,
                    p,
                    v,
                    q,
                );
            }
        }
        Ok(())
    }

    /// What `schedule` adds to the events for later tags.
    pub open spec fn scheduled(&self, later: &ReactionCtx<'a, T>, action: ActionId, at: Tag) -> bool {
        &&& later.future_spec().len() == self.future_spec().len() + 1
        &&& later.future_spec().drop_last() == self.future_spec()
        &&& later.future_spec().last().tag == at
        &&& later.future_spec().last().payload@ == crate::event_queue::PayloadView::Reactions(
            self.dataflow_spec().triggered_spec(action.trigger),
        )
    }

    /// Schedules `action`: exactly one event is produced, due at the
    /// current tag advanced by the larger of `offset` and the action's
    /// minimum delay, and holding the reactions that the action triggers.
    /// Returns the tag of the event, or `None`, with nothing changed, where
    /// that tag cannot be represented.
    pub fn schedule(&mut self, action: &ActionId, offset: Nanos) -> (r: Option<Tag>)
        requires
            old(self).wf(),
        ensures
            final(self).wf(),
            old(self).continues(final(self)),
            r is Some <==> old(self).tag_spec().can_advance(action.effective_delay_spec(offset)),
            r is None ==> *final(self) == *old(self),
            r matches Some(at) ==> {
                &&& (at.instant as int, at.microstep as int) == old(self).tag_spec().after(
                    action.effective_delay_spec(offset),
                )
                &&& old(self).scheduled(final(self), *action, at)
                &&& final(self).todo_spec() == old(self).todo_spec()
                &&& final(self).stop_spec() == old(self).stop_spec()
                &&& final(self).ports_spec() == old(self).ports_spec()
            },
    {
        match action.checked_schedule_tag(self.tag, offset) {
            None => None,
            Some(at) => {
                let reactions = self.dataflow.reactions_triggered_by(action.trigger);
                self.future.push(Event::reactions(at, reactions));
                proof {
                    assert(final(self).future@.drop_last() =~= old(self).future@);
                    old(self).ports.same_bindings_reflexive();
                }
                Some(at)
            },
        }
    }

    /// Asks for the program to stop at the current tag advanced by
    /// `offset`. Where a stop was already asked for in this tag, the
    /// earlier of the two tags holds. Returns the tag asked for, or `None`,
    /// with nothing changed, where that tag cannot be represented.
    pub fn request_stop(&mut self, offset: Nanos) -> (r: Option<Tag>)
        requires
            old(self).wf(),
        ensures
            final(self).wf(),
            old(self).continues(final(self)),
            r is Some <==> old(self).tag_spec().can_advance(offset),
            r is None ==> *final(self) == *old(self),
            r matches Some(at) ==> {
                &&& (at.instant as int, at.microstep as int) == old(self).tag_spec().after(offset)
                &&& final(self).stop_spec() == Some(stop_time(old(self).stop_spec(), at))
                &&& final(self).todo_spec() == old(self).todo_spec()
                &&& final(self).future_spec() == old(self).future_spec()
                &&& final(self).ports_spec() == old(self).ports_spec()
            },
    {
        match self.tag.checked_after(offset) {
            None => None,
            Some(at) => {
                let t = match self.stop {
                    Some(s) => Tag::earliest(s, at),
                    None => at,
                };
                self.stop = Some(t);
                proof {
                    old(self).ports.same_bindings_reflexive();
                }
                Some(at)
            },
        }
    }
}

/// What a reactor is told when a tag is over.
#[derive(Clone, Copy, Debug, PartialEq, Eq, Structural)]
pub struct CleanupCtx {
    /// The tag that is over.
    pub tag: Tag,
}

/// What the runtime asks of a reactor.
///
/// In three spec functions a reactor can say what its methods do: which id
/// it has, what each of its reactions makes of the context, and when it
/// holds nothing of a tag any more. The methods are held to that account. A
/// reactor that leaves the three as they are says nothing of itself.
pub trait ReactorBehavior<T: Copy> {
    /// Whether `id` is the id that the reactor was given when it was
    /// assembled.
    open spec fn has_id(&self, id: ReactorId) -> bool {
        true
    }

    /// Whether reaction `local_rid` of this reactor, in the state in which
    /// the reactor is, may make the context `after` of the context `before`.
    open spec fn reacts<'a>(
        &self,
        before: &ReactionCtx<'a, T>,
        after: &ReactionCtx<'a, T>,
        local_rid: LocalReactionId,
    ) -> bool {
        true
    }

    /// Whether the reactor has let go of what it kept for `tag`.
    open spec fn has_let_go(&self, tag: Tag) -> bool {
        true
    }

    /// The id that the reactor was given when it was assembled.
    fn id(&self) -> (id: ReactorId)
        ensures
            self.has_id(id),
    ;

    /// Runs the reaction `local_rid` of this reactor. The reaction works on
    /// the program through `ctx` alone, so that the context it leaves behind
    /// continues the one it found; what it makes of the context is what
    /// `reacts` says of the reactor as it was.
    fn react<'a>(&mut self, ctx: &mut ReactionCtx<'a, T>, local_rid: LocalReactionId)
        requires
            old(ctx).wf(),
        ensures
            final(ctx).wf(),
            old(ctx).continues(final(ctx)),
            old(self).reacts(old(ctx), final(ctx), local_rid),
    ;

    /// Tells the reactor that the tag is over; the reactor lets go of what
    /// it kept for the tag.
    fn cleanup_tag(&mut self, ctx: &CleanupCtx)
        ensures
            final(self).has_let_go(ctx.tag),
    ;
}

/// A boxed reactor behaves as the reactor in the box, so that reactors of
/// different types can stand in one pool: it has the id of the reactor in the
/// box, its reactions are those of that reactor, and it has let go of a tag
/// when that reactor has.
impl<T: Copy, R: ReactorBehavior<T> + ?Sized> ReactorBehavior<T> for Box<R> {
    open spec fn has_id(&self, id: ReactorId) -> bool {
        (**self).has_id(id)
    }

    open spec fn reacts<'a>(
        &self,
        before: &ReactionCtx<'a, T>,
        after: &ReactionCtx<'a, T>,
        local_rid: LocalReactionId,
    ) -> bool {
        (**self).reacts(before, after, local_rid)
    }

    open spec fn has_let_go(&self, tag: Tag) -> bool {
        (**self).has_let_go(tag)
    }

    fn id(&self) -> (id: ReactorId) {
        (**self).id()
    }

    fn react<'a>(&mut self, ctx: &mut ReactionCtx<'a, T>, local_rid: LocalReactionId) {
        (**self).react(ctx, local_rid)
    }

    fn cleanup_tag(&mut self, ctx: &CleanupCtx) {
        (**self).cleanup_tag(ctx)
    }
}

/// `a` comes before `b` in the order in which reactions run: at a lower
/// level, or at the same level with a lower id.
pub open spec fn runs_before(a: (int, GlobalReactionId), b: (int, GlobalReactionId)) -> bool {
    a.0 < b.0 || (a.0 == b.0 && a.1.0 < b.1.0)
}

/// The reactions of `ran` are in running order, none twice.
pub open spec fn in_running_order(ran: Seq<(int, GlobalReactionId)>) -> bool {
    forall|i: int, j: int| 0 <= i < j < ran.len() ==> runs_before(ran[i], ran[j])
}

/// Within a tag a reaction runs after every reaction that precedes it:
/// where an edge of the precedence graph leads from `a` to `b` and both
/// reactions ran, each at its level, `a` ran first.
pub proof fn precedence_is_respected(
    ran: Seq<(int, GlobalReactionId)>,
    levels: Seq<u32>,
    reactions: Seq<GlobalReactionId>,
    edges: Seq<(u32, u32)>,
    e: int,
    i: int,
    j: int,
)
    requires
        in_running_order(ran),
        crate::depgraph::respects_edges(levels, edges),
        0 <= e < edges.len(),
        0 <= i < ran.len(),
        0 <= j < ran.len(),
        ran[i] == (levels[edges[e].0 as int] as int, reactions[edges[e].0 as int]),
        ran[j] == (levels[edges[e].1 as int] as int, reactions[edges[e].1 as int]),
    ensures
        i < j,
{
    if j < i {
        assert(runs_before(ran[j], ran[i]));
    }
}

/// The order in which the reactions of a batch run is fixed by the batch
/// as a set: two ascending sequences with the same members are equal.
pub proof fn batch_order_is_determined(a: Seq<GlobalReactionId>, b: Seq<GlobalReactionId>)
    requires
        ascending(a),
        ascending(b),
        forall|r: GlobalReactionId| a.contains(r) <==> b.contains(r),
    ensures
        a == b,
    decreases a.len(),
{
    if a.len() == 0 {
        if b.len() > 0 {
            assert(b.contains(b[0]));
        }
        assert(a =~= b);
    } else {
        assert(a.contains(a[0]));
        assert(b.len() > 0);
        assert(b.contains(b[0]));
        // the least member of each is the least member of the other
        let ia = choose|k: int| 0 <= k < a.len() && a[k] == b[0];
        let ib = choose|k: int| 0 <= k < b.len() && b[k] == a[0];
        assert(a[0] == b[0]) by {
            if ia > 0 {
                assert(a[0].0 < a[ia].0);
            }
            if ib > 0 {
                assert(b[0].0 < b[ib].0);
            }
        }
        let ta = a.subrange(1, a.len() as int);
        let tb = b.subrange(1, b.len() as int);
        assert forall|r: GlobalReactionId| ta.contains(r) <==> tb.contains(r) by {
            if ta.contains(r) {
                let k = choose|k: int| 0 <= k < ta.len() && ta[k] == r;
                assert(a[k + 1] == r);
                assert(a[0].0 < a[k + 1].0);
                assert(a.contains(r));
                let m = choose|m: int| 0 <= m < b.len() && b[m] == r;
                assert(m > 0);
                assert(tb[m - 1] == r);
            }
            if tb.contains(r) {
                let k = choose|k: int| 0 <= k < tb.len() && tb[k] == r;
                assert(b[k + 1] == r);
                assert(b[0].0 < b[k + 1].0);
                assert(b.contains(r));
                let m = choose|m: int| 0 <= m < a.len() && a[m] == r;
                assert(m > 0);
                assert(ta[m - 1] == r);
            }
        }
        batch_order_is_determined(ta, tb);
        assert(a =~= seq![a[0]] + ta);
        assert(b =~= seq![b[0]] + tb);
    }
}

/// The order in which the reactions of a tag run is fixed by the
/// reactions as a set: two records in running order that hold the same
/// reactions are the same record.
pub proof fn running_order_is_determined(
    a: Seq<(int, GlobalReactionId)>,
    b: Seq<(int, GlobalReactionId)>,
)
    requires
        in_running_order(a),
        in_running_order(b),
        forall|p: (int, GlobalReactionId)| a.contains(p) <==> b.contains(p),
    ensures
        a == b,
    decreases a.len(),
{
    if a.len() == 0 {
        if b.len() > 0 {
            assert(b.contains(b[0]));
        }
        assert(a =~= b);
    } else {
        assert(a.contains(a[0]));
        assert(b.len() > 0);
        assert(b.contains(b[0]));
        let ia = choose|k: int| 0 <= k < a.len() && a[k] == b[0];
        let ib = choose|k: int| 0 <= k < b.len() && b[k] == a[0];
        assert(a[0] == b[0]) by {
            if ia > 0 {
                assert(runs_before(a[0], a[ia]));
            }
            if ib > 0 {
                assert(runs_before(b[0], b[ib]));
            }
        }
        let ta = a.subrange(1, a.len() as int);
        let tb = b.subrange(1, b.len() as int);
        assert forall|i: int, j: int| 0 <= i < j < ta.len() implies runs_before(ta[i], ta[j]) by {
            assert(runs_before(a[i + 1], a[j + 1]));
        }
        assert forall|i: int, j: int| 0 <= i < j < tb.len() implies runs_before(tb[i], tb[j]) by {
            assert(runs_before(b[i + 1], b[j + 1]));
        }
        assert forall|p: (int, GlobalReactionId)| ta.contains(p) <==> tb.contains(p) by {
            if ta.contains(p) {
                let k = choose|k: int| 0 <= k < ta.len() && ta[k] == p;
                assert(a[k + 1] == p);
                assert(runs_before(a[0], a[k + 1]));
                assert(a.contains(p));
                let m = choose|m: int| 0 <= m < b.len() && b[m] == p;
                assert(m > 0);
                assert(tb[m - 1] == p);
            }
            if tb.contains(p) {
                let k = choose|k: int| 0 <= k < tb.len() && tb[k] == p;
                assert(b[k + 1] == p);
                assert(runs_before(b[0], b[k + 1]));
                assert(b.contains(p));
                let m = choose|m: int| 0 <= m < a.len() && a[m] == p;
                assert(m > 0);
                assert(ta[m - 1] == p);
            }
        }
        running_order_is_determined(ta, tb);
        assert(a =~= seq![a[0]] + ta);
        assert(b =~= seq![b[0]] + tb);
    }
}

/// A write loses no reaction where every reaction that the port sets off
/// stands above the writer, and the writer runs at its own level: all of
/// them stand at the floor or above, and all are set off.
pub proof fn write_loses_no_reaction<'a, T: Copy>(
    ctx: ReactionCtx<'a, T>,
    p: PortId,
    writer_level: int,
)
    requires
        ctx.floor_spec() <= writer_level + 1,
        forall|l: int, r: GlobalReactionId| #[trigger]
            ctx.dataflow_spec().triggered_spec(ctx.ports_spec().trigger_spec(p)).contains((l, r))
                ==> writer_level < l,
    ensures
        ctx.set_off_by_write(p) == ctx.dataflow_spec().triggered_spec(
            ctx.ports_spec().trigger_spec(p),
        ),
{
    let all = ctx.dataflow_spec().triggered_spec(ctx.ports_spec().trigger_spec(p));
    assert forall|q: (int, GlobalReactionId)| all.contains(q) implies q.0 >= ctx.floor_spec() by {
        assert(all.contains((q.0, q.1)));
    }
    assert(ctx.set_off_by_write(p) =~= all);
}

/// One call of a reaction, as the record of a tag holds it.
pub struct ReactionRun<'a, T, R> {
    /// The reactors as they stood when the reaction was called.
    pub pool: Seq<R>,
    /// The context that was handed to the reaction.
    pub before: ReactionCtx<'a, T>,
    /// The context that the reaction left behind.
    pub after: ReactionCtx<'a, T>,
    /// The reactors as they stood when the reaction had returned.
    pub pool_after: Seq<R>,
}

/// `run` is the call of the reaction `p.1` at level `p.0` of `tag`: the
/// reactor that holds the reaction was handed a well-formed context for that
/// tag, with that reaction as the running one and the floor one level above
/// it; what the reactor made of the context is what it says of its reaction;
/// and no other reactor changed.
pub open spec fn is_run_of<'a, T: Copy, R: ReactorBehavior<T>>(
    run: ReactionRun<'a, T, R>,
    tag: Tag,
    p: (int, GlobalReactionId),
) -> bool {
    let c = p.1.container_spec().0 as int;
    &&& c < run.pool.len()
    &&& run.before.wf()
    &&& run.before.tag_spec() == tag
    &&& run.before.current_spec() == p.1
    &&& run.before.floor_spec() == p.0 + 1
    &&& run.pool[c].reacts(&run.before, &run.after, p.1.local_spec())
    &&& run.after.wf()
    &&& run.before.continues(&run.after)
    &&& run.pool_after.len() == run.pool.len()
    &&& forall|j: int| 0 <= j < run.pool.len() && j != c ==> run.pool_after[j] == run.pool[j]
}

/// Each run takes up what the run before it left: the context, but for the
/// running reaction and the floor, and the reactors.
pub open spec fn runs_chained<'a, T: Copy, R: ReactorBehavior<T>>(
    runs: Seq<ReactionRun<'a, T, R>>,
) -> bool {
    forall|k: int|
        0 <= k < runs.len() - 1 ==> (#[trigger] runs[k]).after.hands_on(&runs[k + 1].before)
            && runs[k + 1].pool == runs[k].pool_after
}

/// `runs` are the calls that the processing of `tag` made, one for each
/// entry of `ran` and in that order: the first was handed what the tag
/// starts with, and each took up what the one before it left.
pub open spec fn is_trace<'a, T: Copy, R: ReactorBehavior<T>>(
    runs: Seq<ReactionRun<'a, T, R>>,
    ran: Seq<(int, GlobalReactionId)>,
    tag: Tag,
    roots: Set<(int, GlobalReactionId)>,
    ports: PortPool<T>,
    dataflow: DataflowInfo,
    pool: Seq<R>,
) -> bool {
    &&& runs.len() == ran.len()
    &&& forall|k: int| 0 <= k < runs.len() ==> is_run_of(#[trigger] runs[k], tag, ran[k])
    &&& runs.len() > 0 ==> runs[0].before.starts_with(tag, roots, ports, dataflow) && runs[0].pool
        == pool
    &&& runs_chained(runs)
}

/// The set holds no reaction.
pub open spec fn holds_none(reactions: Set<(int, GlobalReactionId)>) -> bool {
    forall|p: (int, GlobalReactionId)| !reactions.contains(p)
}

/// Processing broke off at the reaction `at`: it is a reaction of the tag
/// and did not run, and what ran is what comes before it in running order.
pub open spec fn broke_off_at(
    reactions: Set<(int, GlobalReactionId)>,
    ran: Seq<(int, GlobalReactionId)>,
    at: (int, GlobalReactionId),
) -> bool {
    &&& reactions.contains(at)
    &&& !ran.contains(at)
    &&& forall|i: int| 0 <= i < ran.len() ==> runs_before(#[trigger] ran[i], at)
    &&& forall|p: (int, GlobalReactionId)|
        reactions.contains(p) && runs_before(p, at) ==> ran.contains(p)
}

/// What the processing of a tag leaves behind.
pub struct TagOutcome<'a, T, R> {
    /// The ports, with no value left in them.
    pub ports: PortPool<T>,
    /// The events for later tags that the reactions produced, in the order
    /// in which they were produced.
    pub future: Vec<Event>,
    /// The earliest tag at which a reaction asked for a stop, if any did.
    pub stop: Option<Tag>,
    /// The reactions of the tag: the roots, and those that were set off.
    pub reactions: ExecutableReactions,
    /// Set where processing broke off.
    pub fault: Option<RuntimeFault>,
    /// The reactions that were run, each with its level, in running order.
    pub ran: Ghost<Seq<(int, GlobalReactionId)>>,
    /// The calls that were made, one for each reaction that was run.
    pub runs: Ghost<Seq<ReactionRun<'a, T, R>>>,
}

impl<'a, T: Copy, R: ReactorBehavior<T>> TagOutcome<'a, T, R> {
    /// Processing broke off with a fault: at a reaction of the tag whose
    /// reactor is none of the `n` reactors of the pool. That reaction did
    /// not run; what ran is what comes before it in running order.
    pub open spec fn broke_off(&self, n: nat) -> bool {
        &&& self.fault matches Some(RuntimeFault::UnknownReactor { reaction })
        &&& reaction.container_spec().0 >= n
        &&& exists|l: int| #[trigger] broke_off_at(self.reactions@, self.ran@, (l, reaction))
    }

    /// The outcome holds what the last call left, or what the tag started
    /// with if no call was made: the events, the stop and the reactions are
    /// those of the last context, and the ports are its ports, cleared.
    pub open spec fn closes(
        &self,
        roots: Set<(int, GlobalReactionId)>,
        ports: PortPool<T>,
    ) -> bool {
        if self.runs@.len() == 0 {
            &&& self.future@ == Seq::<Event>::empty()
            &&& self.stop is None
            &&& self.reactions@ == roots
            &&& ports.cleared(&self.ports)
        } else {
            let last = self.runs@.last().after;
            &&& self.future@ == last.future_spec()
            &&& self.stop == last.stop_spec()
            &&& self.reactions@ == last.todo_spec()
            &&& last.ports_spec().cleared(&self.ports)
        }
    }
}

/// Tells every reactor that the tag is over.
fn end_tag<T: Copy, R: ReactorBehavior<T>>(reactors: &mut Vec<R>, tag: Tag)
    ensures
        final(reactors)@.len() == old(reactors)@.len(),
        forall|i: int|
            0 <= i < final(reactors)@.len() ==> (#[trigger] final(reactors)@[i]).has_let_go(tag),
{
    let cleanup = CleanupCtx { tag };
    let n = reactors.len();
    let mut i: usize = 0;
    while i < n
        invariant
            i <= n,
            reactors@.len() == n,
            cleanup.tag == tag,
            forall|j: int| 0 <= j < i ==> (#[trigger] reactors@[j]).has_let_go(tag),
        decreases n - i,
    {
        let ghost before = reactors@;
        reactors[i].cleanup_tag(&cleanup);
        proof {
            assert forall|j: int| 0 <= j < i + 1 implies (#[trigger] reactors@[j]).has_let_go(
                tag,
            ) by {
                if j < i {
                    assert(reactors@[j] == before[j]);
                }
            }
        }
        i = i + 1;
    }
}

/// What `run_batch` has done when it returns: `runs` are the calls of the
/// first `k` reactions of `batch`, at level `l` of `tag`, starting from the
/// context `start` and the reactors `pool`.
spec fn batch_was_run<'a, T: Copy, R: ReactorBehavior<T>>(
    runs: Seq<ReactionRun<'a, T, R>>,
    k: int,
    batch: Seq<GlobalReactionId>,
    l: int,
    tag: Tag,
    start: ReactionCtx<'a, T>,
    pool: Seq<R>,
) -> bool {
    &&& runs.len() == k
    &&& 0 <= k <= batch.len()
    &&& forall|i: int| 0 <= i < k ==> is_run_of(#[trigger] runs[i], tag, (l, batch[i]))
    &&& forall|i: int| 0 <= i < k ==> (#[trigger] runs[i]).pool.len() == pool.len()
    &&& k > 0 ==> start.hands_on(&runs[0].before) && runs[0].pool == pool
    &&& runs_chained(runs)
}

/// Having the same tag, floor, dataflow and bindings, and more reactions
/// and events, carries over.
proof fn proceeds_transitive<'a, T: Copy>(
    a: &ReactionCtx<'a, T>,
    b: &ReactionCtx<'a, T>,
    c: &ReactionCtx<'a, T>,
)
    requires
        a.proceeds(b),
        b.proceeds(c),
    ensures
        a.proceeds(c),
{
    a.ports_spec().same_bindings_transitive(&b.ports_spec(), &c.ports_spec());
}

/// Runs the reactions of `batch`, one after the other, until one belongs
/// to a reactor that the pool does not hold.
fn run_batch<'a, T: Copy, R: ReactorBehavior<T>>(
    reactors: &mut Vec<R>,
    ctx: &mut ReactionCtx<'a, T>,
    batch: &Vec<GlobalReactionId>,
    l: Level,
    Ghost(tag): Ghost<Tag>,
) -> (r: (Option<RuntimeFault>, Ghost<Seq<ReactionRun<'a, T, R>>>))
    requires
        old(ctx).wf(),
        old(ctx).tag_spec() == tag,
        old(ctx).floor_spec() == l + 1,
    ensures
        final(ctx).wf(),
        old(ctx).proceeds(final(ctx)),
        final(reactors)@.len() == old(reactors)@.len(),
        batch_was_run(r.1@, r.1@.len() as int, batch@, l as int, tag, *old(ctx), old(reactors)@),
        r.1@.len() == 0 ==> old(ctx).hands_on(final(ctx)) && final(reactors)@ == old(reactors)@,
        r.1@.len() > 0 ==> r.1@.last().after.hands_on(final(ctx)) && final(reactors)@
            == r.1@.last().pool_after,
        r.0 is None ==> r.1@.len() == batch@.len(),
        r.0 matches Some(f) ==> r.1@.len() < batch@.len() && f == (RuntimeFault::UnknownReactor {
            reaction: batch@[r.1@.len() as int],
        }) && batch@[r.1@.len() as int].container_spec().0 >= old(reactors)@.len(),
{
    let ghost start = *ctx;
    let ghost pool = reactors@;
    let ghost mut runs: Seq<ReactionRun<'a, T, R>> = Seq::empty();
    let mut fault: Option<RuntimeFault> = None;
    let mut k: usize = 0;
    proof {
        start.ports_spec().same_bindings_reflexive();
    }
    while k < batch.len()
        invariant_except_break
            fault is None,
        invariant
            k <= batch@.len(),
            ctx.wf(),
            start.wf(),
            start.tag_spec() == tag,
            start.floor_spec() == l + 1,
            start.proceeds(ctx),
            reactors@.len() == pool.len(),
            batch_was_run(runs, k as int, batch@, l as int, tag, start, pool),
            k == 0 ==> start.hands_on(ctx) && reactors@ == pool,
            k > 0 ==> runs.last().after.hands_on(ctx) && reactors@ == runs.last().pool_after,
        ensures
            ctx.wf(),
            start.proceeds(ctx),
            reactors@.len() == pool.len(),
            batch_was_run(runs, k as int, batch@, l as int, tag, start, pool),
            k == 0 ==> start.hands_on(ctx) && reactors@ == pool,
            k > 0 ==> runs.last().after.hands_on(ctx) && reactors@ == runs.last().pool_after,
            fault is None ==> k == batch@.len(),
            fault matches Some(f) ==> k < batch@.len() && f == (RuntimeFault::UnknownReactor {
                reaction: batch@[k as int],
            }) && batch@[k as int].container_spec().0 >= pool.len(),
        decreases batch@.len() - k,
    {
        let r = batch[k];
        let i = r.container().index();
        if i >= reactors.len() {
            fault = Some(RuntimeFault::UnknownReactor { reaction: r });
            break ;
        }
        let ghost handed = *ctx;
        ctx.current = r;
        let ghost before = *ctx;
        let ghost pool_before = reactors@;
        reactors[i].react(ctx, r.local());
        proof {
            let run = ReactionRun { pool: pool_before, before, after: *ctx, pool_after: reactors@ };
            assert(handed.hands_on(&before));
            assert(start.proceeds(&before));
            proceeds_transitive(&start, &before, ctx);
            assert(is_run_of(run, tag, (l as int, r)));
            let longer = runs.push(run);
            assert forall|j: int| 0 <= j < k + 1 implies is_run_of(
                #[trigger] longer[j],
                tag,
                (l as int, batch@[j]),
            ) by {
                if j < k {
                    assert(longer[j] == runs[j]);
                }
            }
            assert forall|j: int| 0 <= j < k + 1 implies (#[trigger] longer[j]).pool.len()
                == pool.len() by {
                if j < k {
                    assert(longer[j] == runs[j]);
                }
            }
            assert forall|j: int| 0 <= j < longer.len() - 1 implies (
            #[trigger] longer[j]).after.hands_on(&longer[j + 1].before) && longer[j + 1].pool
                == longer[j].pool_after by {
                if j < k - 1 {
                    assert(longer[j] == runs[j]);
                    assert(longer[j + 1] == runs[j + 1]);
                } else {
                    assert(longer[j] == runs.last());
                }
            }
            if k > 0 {
                assert(longer[0] == runs[0]);
            }
            runs = longer;
        }
        k = k + 1;
    }
    (fault, Ghost(runs))
}

/// The reactions of the first `k` entries of `batch`, each at level `l`.
spec fn at_level(batch: Seq<GlobalReactionId>, l: int, k: int) -> Seq<(int, GlobalReactionId)> {
    Seq::new(k as nat, |i: int| (l, batch[i]))
}

/// The calls of a batch carry on the record of the tag.
proof fn trace_extends<'a, T: Copy, R: ReactorBehavior<T>>(
    runs: Seq<ReactionRun<'a, T, R>>,
    ran: Seq<(int, GlobalReactionId)>,
    more: Seq<ReactionRun<'a, T, R>>,
    batch: Seq<GlobalReactionId>,
    l: int,
    tag: Tag,
    roots: Set<(int, GlobalReactionId)>,
    ports: PortPool<T>,
    dataflow: DataflowInfo,
    pool: Seq<R>,
    first: ReactionCtx<'a, T>,
    handed: ReactionCtx<'a, T>,
    pool_now: Seq<R>,
)
    requires
        is_trace(runs, ran, tag, roots, ports, dataflow, pool),
        first.starts_with(tag, roots, ports, dataflow),
        runs.len() == 0 ==> first.hands_on(&handed) && pool_now == pool,
        runs.len() > 0 ==> runs.last().after.hands_on(&handed) && pool_now == runs.last().pool_after,
        batch_was_run(more, more.len() as int, batch, l, tag, handed, pool_now),
    ensures
        is_trace(
            runs + more,
            ran + at_level(batch, l, more.len() as int),
            tag,
            roots,
            ports,
            dataflow,
            pool,
        ),
{
    let all = runs + more;
    let all_ran = ran + at_level(batch, l, more.len() as int);
    assert forall|k: int| 0 <= k < all.len() implies is_run_of(#[trigger] all[k], tag, all_ran[k]) by {
        if k < runs.len() {
            assert(all[k] == runs[k]);
            assert(all_ran[k] == ran[k]);
        } else {
            assert(all[k] == more[k - runs.len()]);
            assert(all_ran[k] == (l, batch[k - runs.len()]));
        }
    }
    assert forall|k: int| 0 <= k < all.len() - 1 implies (#[trigger] all[k]).after.hands_on(
        &all[k + 1].before,
    ) && all[k + 1].pool == all[k].pool_after by {
        if k + 1 < runs.len() {
            assert(all[k] == runs[k]);
            assert(all[k + 1] == runs[k + 1]);
        } else if k < runs.len() {
            assert(all[k] == runs.last());
            assert(all[k + 1] == more[0]);
        } else {
            assert(all[k] == more[k - runs.len()]);
            assert(all[k + 1] == more[k - runs.len() + 1]);
        }
    }
    if all.len() > 0 {
        if runs.len() > 0 {
            assert(all[0] == runs[0]);
        } else {
            assert(all[0] == more[0]);
        }
    }
}

/// Processes one tag: runs `roots` and every reaction that is set off on
/// the way, each of them once, level by level from the lowest and each batch
/// in ascending order of id; then ends the tag for every reactor and clears
/// the ports.
///
/// Every reaction is handed the context that the one before it left, with
/// itself as the running reaction and the floor one level above its own.
/// What the reactions leave at the end is handed out: the events for later
/// tags, the earliest stop, and the reactions of the tag.
///
/// Processing succeeds exactly if every reaction of the tag belongs to a
/// reactor of the pool. A reaction that does not breaks processing off with
/// a fault: it does not run, nor does any reaction after it. Also then
/// every reactor is told that the tag is over, and the ports are cleared.
pub fn process_tag<'a, T: Copy, R: ReactorBehavior<T>>(
    reactors: &mut Vec<R>,
    ports: PortPool<T>,
    dataflow: &'a DataflowInfo,
    tag: Tag,
    roots: ExecutableReactions,
) -> (out: TagOutcome<'a, T, R>)
    requires
        ports.wf(),
        dataflow.wf(),
        roots.wf(),
    ensures
        final(reactors)@.len() == old(reactors)@.len(),
        forall|i: int|
            0 <= i < final(reactors)@.len() ==> (#[trigger] final(reactors)@[i]).has_let_go(tag),
        out.ports.wf(),
        ports.cleared(&out.ports),
        all_after(out.future@, tag),
        out.stop matches Some(s) ==> tag.lt(s),
        in_running_order(out.ran@),
        out.reactions.wf(),
        roots@.subset_of(out.reactions@),
        forall|i: int| 0 <= i < out.ran@.len() ==> out.reactions@.contains(#[trigger] out.ran@[i]),
        is_trace(out.runs@, out.ran@, tag, roots@, ports, *dataflow, old(reactors)@),
        out.closes(roots@, ports),
        out.fault is None <==> (forall|p: (int, GlobalReactionId)|
            out.reactions@.contains(p) ==> p.1.container_spec().0 < old(reactors)@.len()),
        out.fault is None ==> forall|p: (int, GlobalReactionId)|
            out.reactions@.contains(p) ==> out.ran@.contains(p),
        out.fault is Some ==> out.broke_off(old(reactors)@.len()),
        holds_none(roots@) ==> out.ran@.len() == 0
            && out.future@.len() == 0 && out.stop is None && out.fault is None,
{
    let ghost pool = reactors@;
    let mut ctx = ReactionCtx {
        tag,
        current: GlobalReactionId(0),
        floor: 0,
        todo: roots,
        future: Vec::new(),
        stop: None,
        ports,
        dataflow,
    };
    let ghost first = ctx;
    let ghost mut ran: Seq<(int, GlobalReactionId)> = Seq::empty();
    let ghost mut runs: Seq<ReactionRun<'a, T, R>> = Seq::empty();
    let ghost mut broke: (int, GlobalReactionId) = (0, GlobalReactionId(0));
    let mut fault: Option<RuntimeFault> = None;
    let mut level: Level = 0;
    let n = reactors.len();
    proof {
        ports.same_bindings_reflexive();
        assert forall|p: (int, GlobalReactionId)| ctx.todo@.contains(p) implies p.0 >= 0 by {
            ctx.todo.batch_properties(p.0);
        }
    }
    loop
        invariant_except_break
            forall|i: int| 0 <= i < ran.len() ==> (#[trigger] ran[i]).0 < level,
            forall|p: (int, GlobalReactionId)|
                ctx.todo@.contains(p) && p.0 < level ==> ran.contains(p),
            fault is None,
        invariant
            ctx.wf(),
            ctx.tag == tag,
            reactors@.len() == n,
            n == pool.len(),
            first.starts_with(tag, roots@, ports, *dataflow),
            ports.same_bindings(&ctx.ports),
            in_running_order(ran),
            roots@.subset_of(ctx.todo@),
            forall|i: int| 0 <= i < ran.len() ==> ctx.todo@.contains(#[trigger] ran[i]),
            forall|i: int| 0 <= i < ran.len() ==> (#[trigger] ran[i]).1.container_spec().0 < n,
            is_trace(runs, ran, tag, roots@, ports, *dataflow, pool),
            runs.len() == 0 ==> first.hands_on(&ctx) && reactors@ == pool,
            runs.len() > 0 ==> runs.last().after.hands_on(&ctx) && reactors@
                == runs.last().pool_after,
            holds_none(roots@) ==> ran.len() == 0,
        ensures
            ctx.wf(),
            ctx.tag == tag,
            reactors@.len() == n,
            holds_none(roots@) ==> ran.len() == 0 && fault is None,
            ports.same_bindings(&ctx.ports),
            in_running_order(ran),
            roots@.subset_of(ctx.todo@),
            forall|i: int| 0 <= i < ran.len() ==> ctx.todo@.contains(#[trigger] ran[i]),
            forall|i: int| 0 <= i < ran.len() ==> (#[trigger] ran[i]).1.container_spec().0 < n,
            is_trace(runs, ran, tag, roots@, ports, *dataflow, pool),
            runs.len() == 0 ==> first.hands_on(&ctx) && reactors@ == pool,
            runs.len() > 0 ==> runs.last().after.hands_on(&ctx) && reactors@
                == runs.last().pool_after,
            fault is None ==> forall|p: (int, GlobalReactionId)|
                ctx.todo@.contains(p) ==> ran.contains(p),
            fault matches Some(f) ==> f == (RuntimeFault::UnknownReactor { reaction: broke.1 })
                && broke.1.container_spec().0 >= n && broke_off_at(ctx.todo@, ran, broke),
        decreases u32::MAX - level,
    {
        let next = ctx.todo.next_level(level);
        let l: Level = match next {
            Some(l) => l,
            None => {
                proof {
                    assert forall|p: (int, GlobalReactionId)| ctx.todo@.contains(p) implies ran.contains(
                        p,
                    ) by {
                        ctx.todo.batch_properties(p.0);
                        if p.0 >= level {
                            assert(ctx.todo.batch_spec(p.0).contains(p.1));
                        }
                    }
                }
                break ;
            },
        };
        let batch = ctx.todo.batch(l);
        let ghost pre_batch = ctx.todo;
        proof {
            ctx.todo.batch_properties(l as int);
            if holds_none(roots@) {
                // no batch of an empty set holds a reaction
                assert(runs.len() == 0);
                assert(ctx.todo@ == roots@);
                let r = ctx.todo.batch_spec(l as int)[0];
                assert(ctx.todo.batch_spec(l as int).contains(r));
                assert(roots@.contains((l as int, r)));
                assert(false);
            }
        }
        ctx.floor = l + 1;
        let ghost handed = ctx;
        let ghost pool_now = reactors@;
        let ghost start = ctx.todo@;
        let ghost ran0 = ran;
        let ghost runs0 = runs;
        let (batch_fault, Ghost(more)) = run_batch(reactors, &mut ctx, &batch, l, Ghost(tag));
        let ghost k = more.len() as int;
        proof {
            ports.same_bindings_transitive(&handed.ports, &ctx.ports);
            trace_extends(
                runs0,
                ran0,
                more,
                batch@,
                l as int,
                tag,
                roots@,
                ports,
                *dataflow,
                pool,
                first,
                handed,
                pool_now,
            );
            ran = ran0 + at_level(batch@, l as int, k);
            runs = runs0 + more;
            if k > 0 {
                assert(runs.last() == more.last());
            } else {
                assert(runs =~= runs0);
            }
            assert forall|i: int| 0 <= i < ran.len() implies ctx.todo@.contains(
                #[trigger] ran[i],
            ) && ran[i].1.container_spec().0 < n by {
                if i < ran0.len() {
                    assert(ran[i] == ran0[i]);
                    assert(start.contains(ran0[i]));
                } else {
                    let j = i - ran0.len();
                    assert(ran[i] == (l as int, batch@[j]));
                    assert(batch@.contains(batch@[j]));
                    assert(start.contains(ran[i]));
                    assert(is_run_of(more[j], tag, (l as int, batch@[j])));
                    assert(more[j].pool.len() == pool_now.len());
                }
            }
            assert forall|i: int, j: int| 0 <= i < j < ran.len() implies runs_before(
                ran[i],
                ran[j],
            ) by {
                if j < ran0.len() {
                    assert(ran[i] == ran0[i] && ran[j] == ran0[j]);
                    assert(runs_before(ran0[i], ran0[j]));
                } else if i < ran0.len() {
                    assert(ran[i] == ran0[i]);
                    assert(ran0[i].0 < level);
                    assert(ran[j].0 == l);
                } else {
                    assert(ran[i] == (l as int, batch@[i - ran0.len()]));
                    assert(ran[j] == (l as int, batch@[j - ran0.len()]));
                    assert(batch@[i - ran0.len()].0 < batch@[j - ran0.len()].0);
                }
            }
            // what stands below the batch, or in it, stood there when it began
            assert forall|p: (int, GlobalReactionId)|
                ctx.todo@.contains(p) && p.0 <= l implies start.contains(p) by {}
            // and has run, as far as it comes before the place that was reached
            assert forall|p: (int, GlobalReactionId)|
                ctx.todo@.contains(p) && (p.0 < l || (p.0 == l && exists|j: int|
                    0 <= j < k && batch@[j] == p.1)) implies ran.contains(p) by {
                assert(start.contains(p));
                if p.0 < level {
                    assert(ran0.contains(p));
                    let i = choose|i: int| 0 <= i < ran0.len() && ran0[i] == p;
                    assert(ran[i] == p);
                } else {
                    if p.0 < l {
                        held_reaction_fills_batch(&pre_batch, p);
                    }
                    let j = choose|j: int| 0 <= j < k && batch@[j] == p.1;
                    assert(ran[ran0.len() + j] == p);
                }
            }
        }
        match batch_fault {
            Some(f) => {
                proof {
                    let r = batch@[k];
                    broke = (l as int, r);
                    assert(batch@.contains(r));
                    assert(start.contains(broke));
                    assert forall|i: int| 0 <= i < ran.len() implies runs_before(
                        #[trigger] ran[i],
                        broke,
                    ) by {
                        if i < ran0.len() {
                            assert(ran[i] == ran0[i]);
                            assert(ran0[i].0 < level);
                        } else {
                            assert(ran[i] == (l as int, batch@[i - ran0.len()]));
                            assert(batch@[i - ran0.len()].0 < batch@[k].0);
                        }
                    }
                    assert(!ran.contains(broke)) by {
                        if ran.contains(broke) {
                            let i = choose|i: int| 0 <= i < ran.len() && ran[i] == broke;
                            assert(runs_before(ran[i], broke));
                        }
                    }
                    assert forall|p: (int, GlobalReactionId)|
                        ctx.todo@.contains(p) && runs_before(p, broke) implies ran.contains(p) by {
                        if p.0 == l {
                            assert(start.contains(p));
                            assert(batch@.contains(p.1));
                            let j = choose|j: int| 0 <= j < batch@.len() && batch@[j] == p.1;
                            if j >= k {
                                if j > k {
                                    assert(batch@[k].0 < batch@[j].0);
                                }
                            }
                            assert(0 <= j < k && batch@[j] == p.1);
                        }
                    }
                }
                fault = Some(f);
                break ;
            },
            None => {},
        }
        proof {
            assert forall|p: (int, GlobalReactionId)|
                ctx.todo@.contains(p) && p.0 < l + 1 implies ran.contains(p) by {
                if p.0 == l {
                    assert(start.contains(p));
                    assert(batch@.contains(p.1));
                    let j = choose|j: int| 0 <= j < batch@.len() && batch@[j] == p.1;
                    assert(0 <= j < k && batch@[j] == p.1);
                }
            }
            assert forall|i: int| 0 <= i < ran.len() implies (#[trigger] ran[i]).0 < l + 1 by {
                if i < ran0.len() {
                    assert(ran[i] == ran0[i]);
                }
            }
        }
        level = l + 1;
    }
    let ghost last = ctx;
    let ReactionCtx { ports: used, future, stop, todo, .. } = ctx;
    let mut cleared = used;
    end_tag(reactors, tag);
    cleared.cleanup_tag();
    proof {
        ports.same_bindings_transitive(&used, &cleared);
        if fault is Some {
            assert(fault == Some(RuntimeFault::UnknownReactor { reaction: broke.1 }));
            assert(broke_off_at(todo@, ran, (broke.0, broke.1)));
            assert(todo@.contains(broke) && broke.1.container_spec().0 >= n);
        } else {
            assert forall|p: (int, GlobalReactionId)| todo@.contains(p) implies p.1.container_spec().0
                < n by {
                assert(ran.contains(p));
                let i = choose|i: int| 0 <= i < ran.len() && ran[i] == p;
                assert(ran[i].1.container_spec().0 < n);
            }
        }
        if ran.len() == 0 {
            assert(runs.len() == 0);
        }
    }
    let out = TagOutcome {
        ports: cleared,
        future,
        stop,
        reactions: todo,
        fault,
        ran: Ghost(ran),
        runs: Ghost(runs),
    };
    proof {
        assert(n == old(reactors)@.len());
        if fault is Some {
            assert(broke_off_at(out.reactions@, out.ran@, (broke.0, broke.1)));
            assert(out.broke_off(n as nat));
            assert(out.reactions@.contains(broke));
        }
    }
    out
}

/// A reaction that is held stands in the batch of its level, which
/// therefore is not empty.
proof fn held_reaction_fills_batch(todo: &ExecutableReactions, p: (int, GlobalReactionId))
    requires
        todo.wf(),
        todo@.contains(p),
    ensures
        todo.batch_spec(p.0).len() > 0,
{
    todo.batch_properties(p.0);
    assert(todo.batch_spec(p.0).contains(p.1));
}

} // verus!
