//! Events and the queue of pending events.
//!
//! An event asks for something to happen at a tag: either a set of reactions
//! is to run, or the program is to terminate. The queue keeps at most one
//! event per tag, in ascending order of tag. Pushing an event for a tag that
//! is already pending merges the two.

use vstd::prelude::*;
use crate::ids::GlobalReactionId;
use crate::reactions::ExecutableReactions;
use crate::time::Tag;

verus! {

/// What is to happen at the tag of an event.
#[derive(Debug)]
pub enum EventPayload {
    /// Run these reactions.
    Reactions(ExecutableReactions),
    /// Stop the program.
    Terminate,
}

/// The mathematical value of a payload.
pub enum PayloadView {
    Reactions(Set<(int, GlobalReactionId)>),
    Terminate,
}

/// A payload bound to the tag at which it takes effect.
#[derive(Debug)]
pub struct Event {
    pub tag: Tag,
    pub payload: EventPayload,
}

/// What a tag holds once `new` has been pushed onto `pending`: termination
/// wins over reactions, and two sets of reactions are united.
pub open spec fn merge_payload(pending: Option<PayloadView>, new: PayloadView) -> PayloadView {
    match (pending, new) {
        (None, n) => n,
        (Some(PayloadView::Reactions(a)), PayloadView::Reactions(b)) => PayloadView::Reactions(
            a.union(b),
        ),
        _ => PayloadView::Terminate,
    }
}

impl EventPayload {
    pub open spec fn wf(&self) -> bool {
        match self {
            EventPayload::Reactions(r) => r.wf(),
            EventPayload::Terminate => true,
        }
    }

    pub open spec fn view(&self) -> PayloadView {
        match self {
            EventPayload::Reactions(r) => PayloadView::Reactions(r@),
            EventPayload::Terminate => PayloadView::Terminate,
        }
    }

    /// Merges a pending payload with one that arrives for the same tag.
    pub fn merge(pending: EventPayload, new: EventPayload) -> (m: EventPayload)
        requires
            pending.wf(),
            new.wf(),
        ensures
            m.wf(),
            m@ == merge_payload(Some(pending@), new@),
    {
        match pending {
            EventPayload::Reactions(mut a) => match new {
                EventPayload::Reactions(b) => {
                    a.absorb(&b);
                    EventPayload::Reactions(a)
                },
                EventPayload::Terminate => EventPayload::Terminate,
            },
            EventPayload::Terminate => EventPayload::Terminate,
        }
    }
}

impl Event {
    pub open spec fn wf(&self) -> bool {
        self.payload.wf()
    }

    /// An event that runs `reactions` at `tag`.
    pub fn reactions(tag: Tag, reactions: ExecutableReactions) -> (e: Event)
        ensures
            e.tag == tag,
            e.payload == EventPayload::Reactions(reactions),
    {
        Event { tag, payload: EventPayload::Reactions(reactions) }
    }

    /// An event that stops the program at `tag`.
    pub fn terminate(tag: Tag) -> (e: Event)
        ensures
            e.tag == tag,
            e.payload == EventPayload::Terminate,
            e.wf(),
    {
        Event { tag, payload: EventPayload::Terminate }
    }
}

/// Tags strictly ascending along the sequence.
spec fn tags_ascending(s: Seq<Event>) -> bool {
    forall|i: int, j: int| 0 <= i < j < s.len() ==> (#[trigger] s[i]).tag.lt((#[trigger] s[j]).tag)
}

/// Whether some event of `s` has tag `t`.
spec fn pending_at(s: Seq<Event>, t: Tag) -> bool {
    exists|i: int| 0 <= i < s.len() && (#[trigger] s[i]).tag == t
}

/// The position in `s` of the event with tag `t`.
spec fn position_of(s: Seq<Event>, t: Tag) -> int {
    choose|i: int| 0 <= i < s.len() && (#[trigger] s[i]).tag == t
}

/// The map from tags to payloads that a sequence of events stands for.
spec fn as_map(s: Seq<Event>) -> Map<Tag, PayloadView> {
    Map::new(|t: Tag| pending_at(s, t), |t: Tag| s[position_of(s, t)].payload@)
}

/// In an ascending sequence a tag is found at one position only.
proof fn position_unique(s: Seq<Event>, i: int)
    requires
        tags_ascending(s),
        0 <= i < s.len(),
    ensures
        pending_at(s, s[i].tag),
        position_of(s, s[i].tag) == i,
        as_map(s)[s[i].tag] == s[i].payload@,
{
    let t = s[i].tag;
    let j = position_of(s, t);
    assert(0 <= j < s.len() && s[j].tag == t);
    if j < i {
        assert(s[j].tag.lt(s[i].tag));
    } else if i < j {
        assert(s[i].tag.lt(s[j].tag));
    }
}

/// An ascending sequence of events stands for a map with as many tags as
/// the sequence has events.
proof fn pending_tags_counted(s: Seq<Event>)
    requires
        tags_ascending(s),
    ensures
        as_map(s).dom().finite(),
        as_map(s).dom().len() == s.len(),
    decreases s.len(),
{
    if s.len() == 0 {
        assert(as_map(s).dom() =~= Set::<Tag>::empty());
    } else {
        let front = s.drop_last();
        let last = s.last().tag;
        assert forall|i: int, j: int| 0 <= i < j < front.len() implies (#[trigger] front[i]).tag.lt(
            (#[trigger] front[j]).tag,
        ) by {
            assert(s[i].tag.lt(s[j].tag));
        }
        pending_tags_counted(front);
        assert(!as_map(front).dom().contains(last)) by {
            if pending_at(front, last) {
                let i = position_of(front, last);
                assert(s[i].tag.lt(s[s.len() - 1].tag));
            }
        }
        assert(as_map(s).dom() =~= as_map(front).dom().insert(last)) by {
            assert forall|t: Tag| as_map(s).dom().contains(t) <==> as_map(front).dom().insert(
                last,
            ).contains(t) by {
                if pending_at(s, t) {
                    let i = position_of(s, t);
                    if i < front.len() {
                        assert(front[i].tag == t);
                    }
                }
                if pending_at(front, t) {
                    let i = position_of(front, t);
                    assert(s[i].tag == t);
                }
                if t == last {
                    assert(s[s.len() - 1].tag == t);
                }
            }
        }
    }
}

/// The events that wait for their tag.
#[derive(Debug)]
pub struct EventQueue {
    events: Vec<Event>,
}

impl EventQueue {
    /// Tags are strictly ascending and every event is well formed.
    pub closed spec fn wf(&self) -> bool {
        &&& tags_ascending(self.events@)
        &&& forall|i: int| 0 <= i < self.events@.len() ==> (#[trigger] self.events@[i]).wf()
    }

    /// The pending payload of each pending tag.
    pub closed spec fn view(&self) -> Map<Tag, PayloadView> {
        as_map(self.events@)
    }

    /// The number of pending tags.
    pub closed spec fn len_spec(&self) -> nat {
        self.events@.len()
    }

    /// The length of the queue is the number of pending tags.
    pub proof fn len_counts_pending_tags(&self)
        requires
            self.wf(),
        ensures
            self@.dom().finite(),
            self@.dom().len() == self.len_spec(),
    {
        pending_tags_counted(self.events@);
    }

    /// The queue is empty exactly when no tag is pending.
    pub proof fn len_zero_iff_empty(&self)
        ensures
            self.len_spec() == 0 <==> self@ == Map::<Tag, PayloadView>::empty(),
    {
        if self.events@.len() == 0 {
            assert(self@ =~= Map::<Tag, PayloadView>::empty());
        } else {
            assert(pending_at(self.events@, self.events@[0].tag));
            assert(self@.contains_key(self.events@[0].tag));
        }
    }

    pub fn new() -> (q: EventQueue)
        ensures
            q.wf(),
            q@ == Map::<Tag, PayloadView>::empty(),
            q.len_spec() == 0,
    {
        let q = EventQueue { events: Vec::new() };
        assert(q@ =~= Map::<Tag, PayloadView>::empty());
        q
    }

    pub fn len(&self) -> (n: usize)
        ensures
            n == self.len_spec(),
    {
        self.events.len()
    }

    pub fn is_empty(&self) -> (b: bool)
        ensures
            b <==> self.len_spec() == 0,
            b <==> self@ == Map::<Tag, PayloadView>::empty(),
    {
        proof {
            self.len_zero_iff_empty();
        }
        self.events.len() == 0
    }

    /// The earliest pending tag, if any.
    pub fn peek_tag(&self) -> (r: Option<Tag>)
        requires
            self.wf(),
        ensures
            r is None <==> self.len_spec() == 0,
            r matches Some(t) ==> self@.contains_key(t) && forall|u: Tag|
                self@.contains_key(u) ==> t.le(u),
    {
        if self.events.len() == 0 {
            None
        } else {
            let t = self.events[0].tag;
            proof {
                assert(pending_at(self.events@, self.events@[0].tag));
                assert forall|u: Tag| self@.contains_key(u) implies t.le(u) by {
                    let j = position_of(self.events@, u);
                    if j > 0 {
                        assert(self.events@[0].tag.lt(self.events@[j].tag));
                    }
                }
            }
            Some(t)
        }
    }

    /// The number of pending events whose tag is before `t`: the place where
    /// an event for `t` stands or would stand.
    fn lower_bound(&self, t: Tag) -> (i: usize)
        requires
            self.wf(),
        ensures
            i <= self.events@.len(),
            forall|k: int| 0 <= k < i ==> (#[trigger] self.events@[k]).tag.lt(t),
            forall|k: int| i <= k < self.events@.len() ==> !(#[trigger] self.events@[k]).tag.lt(t),
    {
        let mut lo: usize = 0;
        let mut hi: usize = self.events.len();
        while lo < hi
            invariant
                lo <= hi <= self.events@.len(),
                tags_ascending(self.events@),
                forall|k: int| 0 <= k < lo ==> (#[trigger] self.events@[k]).tag.lt(t),
                forall|k: int| hi <= k < self.events@.len() ==> !(#[trigger] self.events@[k]).tag.lt(t),
            decreases hi - lo,
        {
            let mid: usize = lo + (hi - lo) / 2;
            if self.events[mid].tag.is_before(&t) {
                proof {
                    assert forall|k: int| 0 <= k < mid + 1 implies (#[trigger] self.events@[k]).tag.lt(t) by {
                        if k < mid {
                            assert(self.events@[k].tag.lt(self.events@[mid as int].tag));
                        }
                    }
                }
                lo = mid + 1;
            } else {
                proof {
                    assert forall|k: int| mid <= k < self.events@.len() implies !(#[trigger] self.events@[k]).tag.lt(t) by {
                        if mid < k {
                            assert(self.events@[mid as int].tag.lt(self.events@[k].tag));
                        }
                    }
                }
                hi = mid;
            }
        }
        lo
    }

    /// Adds an event. Where its tag is already pending, the two payloads are
    /// merged: sets of reactions are united, and termination wins.
    pub fn push(&mut self, evt: Event)
        requires
            old(self).wf(),
            evt.wf(),
        ensures
            final(self).wf(),
            final(self)@ == old(self)@.insert(
                evt.tag,
                merge_payload(
                    if old(self)@.contains_key(evt.tag) {
                        Some(old(self)@[evt.tag])
                    } else {
                        None
                    },
                    evt.payload@,
                ),
            ),
            final(self).len_spec() == old(self).len_spec() + if old(self)@.contains_key(evt.tag) {
                0int
            } else {
                1int
            },
    {
        let ghost before = self.events@;
        let tag = evt.tag;
        let i = self.lower_bound(tag);
        let found: bool = i < self.events.len() && self.events[i].tag == tag;
        let ghost target;
        if found {
            proof {
                position_unique(before, i as int);
            }
            let pending = self.events.remove(i);
            let merged = EventPayload::merge(pending.payload, evt.payload);
            proof {
                target = before.update(i as int, Event { tag, payload: merged });
            }
            self.events.insert(i, Event { tag, payload: merged });
            assert(self.events@ =~= target);
        } else {
            proof {
                target = before.insert(i as int, evt);
                assert forall|k: int| 0 <= k < before.len() implies (#[trigger] before[k]).tag != tag by {
                    if k < i {
                        assert(before[k].tag.lt(tag));
                    } else if k == i {
                    } else {
                        assert(before[i as int].tag.lt(before[k].tag));
                        assert(!before[i as int].tag.lt(tag));
                    }
                }
                assert(!pending_at(before, tag));
            }
            self.events.insert(i, evt);
            assert(self.events@ =~= target);
        }
        proof {
            let after = self.events@;
            // ascending
            assert forall|a: int, b: int| 0 <= a < b < after.len() implies (#[trigger] after[a]).tag.lt(
                (#[trigger] after[b]).tag,
            ) by {
                if found {
                    assert(after[a].tag == before[a].tag);
                    assert(after[b].tag == before[b].tag);
                    assert(before[a].tag.lt(before[b].tag));
                } else {
                    let a0 = if a < i { a } else { a - 1 };
                    let b0 = if b < i { b } else { b - 1 };
                    if a == i {
                        assert(after[b] == before[b0]);
                        assert(!before[b0].tag.lt(tag));
                        assert(before[b0].tag != tag);
                    } else if b == i {
                        assert(after[a] == before[a0]);
                        assert(before[a0].tag.lt(tag));
                    } else {
                        assert(after[a] == before[a0]);
                        assert(after[b] == before[b0]);
                        assert(before[a0].tag.lt(before[b0].tag));
                    }
                }
            }
            assert forall|k: int| 0 <= k < after.len() implies (#[trigger] after[k]).wf() by {
                if found {
                    if k != i {
                        assert(after[k] == before[k]);
                    }
                } else {
                    if k < i {
                        assert(after[k] == before[k]);
                    } else if k > i {
                        assert(after[k] == before[k - 1]);
                    }
                }
            }
            // the map
            let pending_view = if as_map(before).contains_key(tag) {
                Some(as_map(before)[tag])
            } else {
                None
            };
            let goal = as_map(before).insert(tag, merge_payload(pending_view, evt.payload@));
            assert forall|t: Tag| as_map(after).contains_key(t) <==> goal.contains_key(t) by {
                if pending_at(after, t) {
                    let k = position_of(after, t);
                    if found {
                        assert(before[k].tag == t);
                    } else if k < i {
                        assert(before[k].tag == t);
                    } else if k > i {
                        assert(before[k - 1].tag == t);
                    }
                }
                if pending_at(before, t) {
                    let k = position_of(before, t);
                    if found {
                        assert(after[k].tag == t);
                    } else if k < i {
                        assert(after[k].tag == t);
                    } else {
                        assert(after[k + 1].tag == t);
                    }
                }
                if t == tag {
                    assert(after[i as int].tag == t);
                }
            }
            assert forall|t: Tag| as_map(after).contains_key(t) implies as_map(after)[t] == goal[t] by {
                let k = position_of(after, t);
                position_unique(after, k);
                if t == tag {
                    position_unique(after, i as int);
                } else if found {
                    assert(after[k] == before[k]);
                    position_unique(before, k);
                } else if k < i {
                    assert(after[k] == before[k]);
                    position_unique(before, k);
                } else {
                    assert(after[k] == before[k - 1]);
                    position_unique(before, k - 1);
                }
            }
            assert(as_map(after) =~= goal);
        }
    }

    /// Removes and returns the event with the earliest tag, if any.
    pub fn take_earliest(&mut self) -> (r: Option<Event>)
        requires
            old(self).wf(),
        ensures
            final(self).wf(),
            r is None <==> old(self).len_spec() == 0,
            r is None ==> final(self)@ == old(self)@,
            r matches Some(e) ==> {
                &&& e.wf()
                &&& old(self)@.contains_key(e.tag)
                &&& old(self)@[e.tag] == e.payload@
                &&& forall|u: Tag| old(self)@.contains_key(u) ==> e.tag.le(u)
                &&& final(self)@ == old(self)@.remove(e.tag)
                &&& final(self).len_spec() == old(self).len_spec() - 1
            },
    {
        if self.events.len() == 0 {
            return None;
        }
        let ghost before = self.events@;
        let e = self.events.remove(0);
        proof {
            let after = self.events@;
            assert(e == before[0]);
            position_unique(before, 0);
            assert forall|k: int| 0 <= k < after.len() implies after[k] == before[k + 1] by {}
            assert forall|a: int, b: int| 0 <= a < b < after.len() implies (#[trigger] after[a]).tag.lt(
                (#[trigger] after[b]).tag,
            ) by {
                assert(before[a + 1].tag.lt(before[b + 1].tag));
            }
            assert forall|k: int| 0 <= k < after.len() implies (#[trigger] after[k]).wf() by {
                assert(after[k] == before[k + 1]);
            }
            assert forall|u: Tag| as_map(before).contains_key(u) implies e.tag.le(u) by {
                let j = position_of(before, u);
                if j > 0 {
                    assert(before[0].tag.lt(before[j].tag));
                }
            }
            let goal = as_map(before).remove(e.tag);
            assert forall|t: Tag| as_map(after).contains_key(t) <==> goal.contains_key(t) by {
                if pending_at(after, t) {
                    let k = position_of(after, t);
                    assert(before[k + 1].tag == t);
                    assert(before[0].tag.lt(before[k + 1].tag));
                }
                if pending_at(before, t) && t != e.tag {
                    let k = position_of(before, t);
                    assert(after[k - 1].tag == t);
                }
            }
            assert forall|t: Tag| as_map(after).contains_key(t) implies as_map(after)[t] == goal[t] by {
                let k = position_of(after, t);
                position_unique(after, k);
                position_unique(before, k + 1);
            }
            assert(as_map(after) =~= goal);
        }
        Some(e)
    }
}

} // verus!
