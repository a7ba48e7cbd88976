//! Sets of reactions to execute within one tag, grouped by level.
//!
//! Every reaction has a level, its depth in the precedence graph. The
//! reactions of one level form a batch. A batch is kept in ascending order of
//! reaction id and holds no id twice, so that walking it visits the reactions
//! in an order that depends on the set alone.

use vstd::prelude::*;
use crate::ids::GlobalReactionId;

verus! {

/// The level of a reaction. Levels stay below `u32::MAX`.
pub type Level = u32;

/// Strictly ascending by packed id.
pub open spec fn ascending(s: Seq<GlobalReactionId>) -> bool {
    forall|i: int, j: int| 0 <= i < j < s.len() ==> s[i].0 < s[j].0
}

/// Merges two ascending sequences of ids into one that holds the ids of both.
pub fn merge_ascending(a: &Vec<GlobalReactionId>, b: &Vec<GlobalReactionId>) -> (out: Vec<
    GlobalReactionId,
>)
    requires
        ascending(a@),
        ascending(b@),
    ensures
        ascending(out@),
        forall|x: GlobalReactionId| out@.contains(x) <==> (a@.contains(x) || b@.contains(x)),
{
    let mut out: Vec<GlobalReactionId> = Vec::new();
    let mut i: usize = 0;
    let mut j: usize = 0;
    while i < a.len() || j < b.len()
        invariant
            i <= a.len(),
            j <= b.len(),
            ascending(a@),
            ascending(b@),
            ascending(out@),
            forall|k: int| 0 <= k < out@.len() && i < a.len() ==> out@[k].0 < a@[i as int].0,
            forall|k: int| 0 <= k < out@.len() && j < b.len() ==> out@[k].0 < b@[j as int].0,
            forall|k: int| 0 <= k < out@.len() ==> (a@.contains(#[trigger] out@[k]) || b@.contains(
                out@[k],
            )),
            forall|k: int| 0 <= k < i ==> out@.contains(#[trigger] a@[k]),
            forall|k: int| 0 <= k < j ==> out@.contains(#[trigger] b@[k]),
        decreases a.len() - i + b.len() - j,
    {
        let ghost prev = out@;
        let take_a: bool = if i < a.len() && j < b.len() {
            a[i].0 <= b[j].0
        } else {
            i < a.len()
        };
        if take_a {
            let x = a[i];
            let both: bool = j < b.len() && b[j].0 == x.0;
            out.push(x);
            proof {
                assert(out@[prev.len() as int] == x);
                assert forall|k: int| 0 <= k < prev.len() implies out@[k] == prev[k] by {}
                assert forall|k: int| 0 <= k <= i implies out@.contains(#[trigger] a@[k]) by {
                    if k < i {
                        let w = choose|w: int| 0 <= w < prev.len() && prev[w] == a@[k];
                        assert(out@[w] == a@[k]);
                    } else {
                        assert(out@[prev.len() as int] == a@[k]);
                    }
                }
                assert forall|k: int| 0 <= k < j implies out@.contains(#[trigger] b@[k]) by {
                    let w = choose|w: int| 0 <= w < prev.len() && prev[w] == b@[k];
                    assert(out@[w] == b@[k]);
                }
                assert(a@.contains(x));
                if both {
                    assert(b@[j as int] == x);
                    assert(out@.contains(b@[j as int]));
                }
            }
            i = i + 1;
            if both {
                j = j + 1;
            }
        } else {
            let x = b[j];
            out.push(x);
            proof {
                assert(out@[prev.len() as int] == x);
                assert forall|k: int| 0 <= k < prev.len() implies out@[k] == prev[k] by {}
                assert forall|k: int| 0 <= k < i implies out@.contains(#[trigger] a@[k]) by {
                    let w = choose|w: int| 0 <= w < prev.len() && prev[w] == a@[k];
                    assert(out@[w] == a@[k]);
                }
                assert forall|k: int| 0 <= k <= j implies out@.contains(#[trigger] b@[k]) by {
                    if k < j {
                        let w = choose|w: int| 0 <= w < prev.len() && prev[w] == b@[k];
                        assert(out@[w] == b@[k]);
                    } else {
                        assert(out@[prev.len() as int] == b@[k]);
                    }
                }
                assert(b@.contains(x));
            }
            j = j + 1;
        }
    }
    proof {
        assert forall|x: GlobalReactionId| out@.contains(x) <==> (a@.contains(x) || b@.contains(
            x,
        )) by {
            if a@.contains(x) {
                let k = choose|k: int| 0 <= k < a@.len() && a@[k] == x;
                assert(out@.contains(a@[k]));
            }
            if b@.contains(x) {
                let k = choose|k: int| 0 <= k < b@.len() && b@[k] == x;
                assert(out@.contains(b@[k]));
            }
            if out@.contains(x) {
                let k = choose|k: int| 0 <= k < out@.len() && out@[k] == x;
                assert(a@.contains(out@[k]) || b@.contains(out@[k]));
            }
        }
    }
    out
}

/// The reactions to execute at one tag: for every level, a batch.
///
/// Seen from outside it is a set of pairs (level, reaction).
#[derive(Debug)]
pub struct ExecutableReactions {
    batches: Vec<Vec<GlobalReactionId>>,
}

impl ExecutableReactions {
    /// Every batch is in ascending order, and levels fit the level type.
    pub closed spec fn wf(&self) -> bool {
        &&& self.batches@.len() <= u32::MAX
        &&& forall|l: int| 0 <= l < self.batches@.len() ==> ascending(#[trigger] self.batches@[l]@)
    }

    /// Whether `r` is to be executed at `level`.
    pub closed spec fn has(&self, level: int, r: GlobalReactionId) -> bool {
        0 <= level < self.batches@.len() && self.batches@[level]@.contains(r)
    }

    /// The set of pairs (level, reaction) held.
    pub open spec fn view(&self) -> Set<(int, GlobalReactionId)> {
        Set::new(|p: (int, GlobalReactionId)| self.has(p.0, p.1))
    }

    /// The reactions held at one level, in the order in which they are walked.
    pub closed spec fn batch_spec(&self, level: int) -> Seq<GlobalReactionId> {
        if 0 <= level < self.batches@.len() {
            self.batches@[level]@
        } else {
            Seq::empty()
        }
    }

    /// The number of batches: one more than the highest level that a
    /// reaction was ever added at, or that was held by a set that was absorbed.
    pub closed spec fn level_count_spec(&self) -> int {
        self.batches@.len() as int
    }

    /// A batch holds exactly the reactions of its level, in ascending order,
    /// and no level at or above the level count holds any.
    pub proof fn batch_properties(&self, level: int)
        requires
            self.wf(),
        ensures
            ascending(self.batch_spec(level)),
            forall|r: GlobalReactionId|
                self.batch_spec(level).contains(r) <==> self@.contains((level, r)),
            level >= self.level_count_spec() || level < 0 ==> self.batch_spec(level).len() == 0,
            0 <= self.level_count_spec() <= u32::MAX,
            forall|r: GlobalReactionId|
                self@.contains((level, r)) ==> 0 <= level < self.level_count_spec(),
    {
    }

    /// The empty set.
    pub fn new() -> (e: ExecutableReactions)
        ensures
            e.wf(),
            e@ == Set::<(int, GlobalReactionId)>::empty(),
            e.level_count_spec() == 0,
    {
        let e = ExecutableReactions { batches: Vec::new() };
        assert(e@ =~= Set::<(int, GlobalReactionId)>::empty());
        e
    }

    pub fn level_count(&self) -> (n: u32)
        requires
            self.wf(),
        ensures
            n == self.level_count_spec(),
    {
        self.batches.len() as u32
    }

    /// Whether no reaction is held.
    pub fn is_empty(&self) -> (b: bool)
        requires
            self.wf(),
        ensures
            b <==> self@ == Set::<(int, GlobalReactionId)>::empty(),
    {
        let mut l: usize = 0;
        while l < self.batches.len()
            invariant
                l <= self.batches@.len(),
                forall|k: int| 0 <= k < l ==> (#[trigger] self.batches@[k])@.len() == 0,
            decreases self.batches@.len() - l,
        {
            if self.batches[l].len() > 0 {
                proof {
                    let r = self.batches@[l as int]@[0];
                    assert(self.has(l as int, r));
                    assert(self@.contains((l as int, r)));
                }
                return false;
            }
            l = l + 1;
        }
        proof {
            assert forall|p: (int, GlobalReactionId)| !self@.contains(p) by {
                if self.has(p.0, p.1) {
                    assert(self.batches@[p.0]@.len() == 0);
                }
            }
            assert(self@ =~= Set::<(int, GlobalReactionId)>::empty());
        }
        true
    }

    /// Whether `r` is held at `level`.
    pub fn contains(&self, level: Level, r: GlobalReactionId) -> (b: bool)
        requires
            self.wf(),
        ensures
            b == self@.contains((level as int, r)),
    {
        if (level as usize) >= self.batches.len() {
            return false;
        }
        let batch = &self.batches[level as usize];
        let mut k: usize = 0;
        while k < batch.len()
            invariant
                k <= batch@.len(),
                level < self.batches@.len(),
                batch@ == self.batches@[level as int]@,
                forall|m: int| 0 <= m < k ==> batch@[m] != r,
            decreases batch@.len() - k,
        {
            if batch[k].0 == r.0 {
                assert(batch@[k as int] == r);
                assert(self.has(level as int, r));
                return true;
            }
            k = k + 1;
        }
        assert(!self.has(level as int, r));
        false
    }

    /// The batch of one level: its reactions in ascending order of id.
    pub fn batch(&self, level: Level) -> (b: Vec<GlobalReactionId>)
        requires
            self.wf(),
        ensures
            b@ == self.batch_spec(level as int),
    {
        if (level as usize) < self.batches.len() {
            self.batches[level as usize].clone()
        } else {
            Vec::new()
        }
    }

    /// The lowest level at or above `from` whose batch is not empty.
    pub fn next_level(&self, from: Level) -> (r: Option<Level>)
        requires
            self.wf(),
        ensures
            match r {
                Some(l) => from <= l && self.batch_spec(l as int).len() > 0 && forall|k: int|
                    from <= k < l ==> self.batch_spec(k).len() == 0,
                None => forall|k: int| from <= k ==> self.batch_spec(k).len() == 0,
            },
    {
        let mut l: usize = from as usize;
        while l < self.batches.len()
            invariant
                from <= l,
                self.batches@.len() <= u32::MAX,
                forall|k: int| from <= k < l ==> self.batch_spec(k).len() == 0,
            decreases self.batches@.len() - l,
        {
            if self.batches[l].len() > 0 {
                return Some(l as u32);
            }
            l = l + 1;
        }
        None
    }

    /// Adds the reactions that `other` holds at `min_level` and above.
    pub fn absorb_after(&mut self, other: &ExecutableReactions, min_level: Level)
        requires
            old(self).wf(),
            other.wf(),
        ensures
            final(self).wf(),
            final(self)@ == old(self)@.union(other@.filter(|p: (int, GlobalReactionId)| p.0 >= min_level)),
            final(self).level_count_spec() == if old(self).level_count_spec()
                >= other.level_count_spec() {
                old(self).level_count_spec()
            } else {
                other.level_count_spec()
            },
    {
        let ghost start = *self;
        while self.batches.len() < other.batches.len()
            invariant
                self.wf(),
                other.wf(),
                start.batches@.len() <= self.batches@.len(),
                self.batches@.len() == start.batches@.len() || self.batches@.len()
                    <= other.batches@.len(),
                forall|l: int| 0 <= l < start.batches@.len() ==> self.batches@[l] == start.batches@[l],
                forall|l: int|
                    start.batches@.len() <= l < self.batches@.len() ==> (#[trigger] self.batches@[l])@.len() == 0,
            decreases other.batches@.len() - self.batches@.len(),
        {
            self.batches.push(Vec::new());
        }
        let ghost padded = *self;
        let mut l: usize = min_level as usize;
        while l < other.batches.len()
            invariant
                min_level <= l,
                l <= other.batches@.len() || l == min_level,
                self.wf(),
                other.wf(),
                other.batches@.len() <= self.batches@.len(),
                self.batches@.len() == padded.batches@.len(),
                forall|k: int| 0 <= k < self.batches@.len() && !(min_level <= k < l) ==> self.batches@[k] == padded.batches@[k],
                forall|k: int, x: GlobalReactionId|
                    min_level <= k < l && k < other.batches@.len() ==> (#[trigger] self.batches@[k]@.contains(x) <==> (
                    padded.batches@[k]@.contains(x) || other.batches@[k]@.contains(x))),
            decreases other.batches@.len() - l,
        {
            let merged = merge_ascending(&self.batches[l], &other.batches[l]);
            self.batches.set(l, merged);
            l = l + 1;
        }
        proof {
            let target = start@.union(other@.filter(|p: (int, GlobalReactionId)| p.0 >= min_level));
            assert forall|p: (int, GlobalReactionId)| self@.contains(p) <==> target.contains(p) by {
                let k = p.0;
                let x = p.1;
                if 0 <= k < self.batches@.len() {
                    if k < start.batches@.len() {
                        assert(padded.batches@[k] == start.batches@[k]);
                    } else {
                        assert(padded.batches@[k]@.len() == 0);
                    }
                    if min_level <= k < other.batches@.len() {
                        assert(self.batches@[k]@.contains(x) <==> (padded.batches@[k]@.contains(x)
                            || other.batches@[k]@.contains(x)));
                    } else {
                        assert(self.batches@[k] == padded.batches@[k]);
                    }
                }
                assert(start@.contains(p) <==> start.has(k, x));
                assert(other@.contains(p) <==> other.has(k, x));
            }
            assert(self@ =~= target);
        }
    }

    /// Adds all the reactions of `other`, each at its level.
    pub fn absorb(&mut self, other: &ExecutableReactions)
        requires
            old(self).wf(),
            other.wf(),
        ensures
            final(self).wf(),
            final(self)@ == old(self)@.union(other@),
            final(self).level_count_spec() == if old(self).level_count_spec()
                >= other.level_count_spec() {
                old(self).level_count_spec()
            } else {
                other.level_count_spec()
            },
    {
        self.absorb_after(other, 0);
        proof {
            assert(other@.filter(|p: (int, GlobalReactionId)| p.0 >= 0u32) =~= other@) by {
                assert forall|p: (int, GlobalReactionId)| other@.contains(p) implies p.0 >= 0 by {
                    assert(other.has(p.0, p.1));
                }
            }
        }
    }

    /// Adds one reaction at its level.
    pub fn insert(&mut self, level: Level, r: GlobalReactionId)
        requires
            old(self).wf(),
            level < u32::MAX,
        ensures
            final(self).wf(),
            final(self)@ == old(self)@.insert((level as int, r)),
            final(self).level_count_spec() == if old(self).level_count_spec() > level {
                old(self).level_count_spec()
            } else {
                level + 1
            },
    {
        let mut single: ExecutableReactions = ExecutableReactions { batches: Vec::new() };
        while single.batches.len() < level as usize
            invariant
                single.batches@.len() <= level,
                forall|l: int| 0 <= l < single.batches@.len() ==> (#[trigger] single.batches@[l])@.len() == 0,
            decreases level - single.batches@.len(),
        {
            single.batches.push(Vec::new());
        }
        let mut one: Vec<GlobalReactionId> = Vec::new();
        one.push(r);
        single.batches.push(one);
        proof {
            assert(single.batches@[level as int]@ =~= seq![r]);
            assert forall|l: int| 0 <= l < single.batches@.len() implies ascending(#[trigger] single.batches@[l]@) by {}
            assert forall|p: (int, GlobalReactionId)| single@.contains(p) <==> p == (level as int, r) by {
                if single.has(p.0, p.1) {
                    if p.0 < level {
                        assert(single.batches@[p.0]@.len() == 0);
                    }
                }
                if p == (level as int, r) {
                    assert(single.batches@[level as int]@[0] == r);
                }
            }
            assert(single@ =~= set![(level as int, r)]);
        }
        self.absorb(&single);
        proof {
            assert(old(self)@.union(set![(level as int, r)]) =~= old(self)@.insert((level as int, r)));
        }
    }
}

} // verus!
