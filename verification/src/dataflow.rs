//! What the scheduler knows of a program once it is assembled: the level of
//! every reaction, and the reactions that each trigger sets off.

use vstd::prelude::*;
use crate::depgraph::{acyclic, is_level_assignment, on_cycle, DepGraph, Edges, GraphCycle};
use crate::ids::{GlobalReactionId, TriggerId};
use crate::ports::PortId;
use crate::reactions::{ExecutableReactions, Level};

verus! {

/// A trigger sets off a reaction; the reaction is given by its node in the
/// precedence graph.
#[derive(Clone, Copy, Debug, PartialEq, Eq, Structural)]
pub struct Dependency {
    pub trigger: TriggerId,
    pub node: u32,
}

/// A reaction may write to a port.
#[derive(Clone, Copy, Debug, PartialEq, Eq, Structural)]
pub struct Effect {
    pub reaction: GlobalReactionId,
    pub port: PortId,
}

/// Every dependency names a trigger below `triggers` and a node below `nodes`.
pub open spec fn dependencies_in_range(deps: Seq<Dependency>, triggers: nat, nodes: nat) -> bool {
    forall|k: int|
        0 <= k < deps.len() ==> (#[trigger] deps[k]).trigger.0 < triggers && deps[k].node < nodes
}

/// Dependency `k` says that trigger `t` sets off reaction `r`, which has
/// level `l`.
pub open spec fn sets_off(
    deps: Seq<Dependency>,
    reactions: Seq<GlobalReactionId>,
    levels: Seq<u32>,
    k: int,
    t: int,
    l: int,
    r: GlobalReactionId,
) -> bool {
    &&& 0 <= k < deps.len()
    &&& deps[k].trigger.0 == t
    &&& reactions[deps[k].node as int] == r
    &&& levels[deps[k].node as int] == l
}

/// The reactions that trigger `t` sets off among the first `upto`
/// dependencies, each with its level.
pub open spec fn set_off_by(
    deps: Seq<Dependency>,
    reactions: Seq<GlobalReactionId>,
    levels: Seq<u32>,
    upto: int,
    t: int,
) -> Set<(int, GlobalReactionId)> {
    Set::new(
        |p: (int, GlobalReactionId)|
            exists|k: int| k < upto && sets_off(deps, reactions, levels, k, t, p.0, p.1),
    )
}

/// The result of the analysis of a program's dependencies. It does not
/// change once the program runs.
#[derive(Debug)]
pub struct DataflowInfo {
    reactions: Vec<GlobalReactionId>,
    levels: Vec<Level>,
    triggered: Vec<ExecutableReactions>,
    effects: Vec<Effect>,
}

impl DataflowInfo {
    /// The reaction at each node of the precedence graph.
    pub closed spec fn reactions_spec(&self) -> Seq<GlobalReactionId> {
        self.reactions@
    }

    /// The level of the reaction at each node.
    pub closed spec fn levels_spec(&self) -> Seq<Level> {
        self.levels@
    }

    /// The writes to ports that the reactions have declared.
    pub closed spec fn effects_spec(&self) -> Seq<Effect> {
        self.effects@
    }

    /// The number of triggers.
    pub closed spec fn trigger_count_spec(&self) -> nat {
        self.triggered@.len()
    }

    /// The reactions that a trigger sets off, each with its level.
    pub closed spec fn triggered_spec(&self, t: TriggerId) -> Set<(int, GlobalReactionId)> {
        if t.0 < self.triggered@.len() {
            self.triggered@[t.0 as int]@
        } else {
            Set::empty()
        }
    }

    pub closed spec fn wf(&self) -> bool {
        &&& self.reactions@.len() == self.levels@.len()
        &&& self.triggered@.len() <= u32::MAX
        &&& forall|t: int| 0 <= t < self.triggered@.len() ==> (#[trigger] self.triggered@[t]).wf()
    }

    /// Analyses a program: `graph` holds a node for every reaction and an
    /// edge for every precedence, `reactions` names the reaction of each
    /// node, `deps` lists which trigger sets off which reaction, and
    /// `effects` which reaction may write to which port.
    ///
    /// Fails where the graph has a cycle.
    pub fn new(
        graph: &DepGraph,
        reactions: Vec<GlobalReactionId>,
        deps: &Vec<Dependency>,
        trigger_count: u32,
        effects: Vec<Effect>,
    ) -> (r: Result<DataflowInfo, GraphCycle>)
        requires
            graph.wf(),
            reactions@.len() == graph.node_count_spec(),
            dependencies_in_range(deps@, trigger_count as nat, graph.node_count_spec()),
        ensures
            r is Ok <==> acyclic(graph.edges_spec()),
            match r {
                Ok(info) => {
                    &&& info.wf()
                    &&& info.reactions_spec() == reactions@
                    &&& info.effects_spec() == effects@
                    &&& is_level_assignment(
                        info.levels_spec(),
                        graph.node_count_spec(),
                        graph.edges_spec(),
                    )
                    &&& info.trigger_count_spec() == trigger_count
                    &&& forall|t: TriggerId|
                        t.0 < trigger_count ==> #[trigger] info.triggered_spec(t) == set_off_by(
                            deps@,
                            reactions@,
                            info.levels_spec(),
                            deps@.len() as int,
                            t.0 as int,
                        )
                },
                Err(c) => c.node < graph.node_count_spec() && on_cycle(graph.edges_spec(), c.node),
            },
    {
        let levels = match graph.levels() {
            Ok(levels) => levels,
            Err(c) => {
                return Err(c);
            },
        };
        proof {
            graph.edges_join_nodes();
        }
        let mut triggered: Vec<ExecutableReactions> = Vec::new();
        let mut t: u32 = 0;
        while t < trigger_count
            invariant
                t <= trigger_count,
                triggered@.len() == t,
                levels@.len() == reactions@.len(),
                reactions@.len() == graph.node_count_spec(),
                forall|v: int| 0 <= v < levels@.len() ==> (#[trigger] levels@[v]) < levels@.len(),
                levels@.len() <= u32::MAX,
                dependencies_in_range(deps@, trigger_count as nat, graph.node_count_spec()),
                forall|u: int| 0 <= u < t ==> (#[trigger] triggered@[u]).wf(),
                forall|u: int|
                    0 <= u < t ==> (#[trigger] triggered@[u])@ == set_off_by(
                        deps@,
                        reactions@,
                        levels@,
                        deps@.len() as int,
                        u,
                    ),
            decreases trigger_count - t,
        {
            let set = Self::collect(&reactions, &levels, deps, t);
            triggered.push(set);
            t = t + 1;
        }
        let info = DataflowInfo { reactions, levels, triggered, effects };
        Ok(info)
    }

    /// The reactions that trigger `t` sets off.
    fn collect(
        reactions: &Vec<GlobalReactionId>,
        levels: &Vec<Level>,
        deps: &Vec<Dependency>,
        t: u32,
    ) -> (set: ExecutableReactions)
        requires
            levels@.len() == reactions@.len(),
            levels@.len() <= u32::MAX,
            forall|v: int| 0 <= v < levels@.len() ==> (#[trigger] levels@[v]) < levels@.len(),
            forall|k: int| 0 <= k < deps@.len() ==> (#[trigger] deps@[k]).node < reactions@.len(),
        ensures
            set.wf(),
            set@ == set_off_by(deps@, reactions@, levels@, deps@.len() as int, t as int),
    {
        let mut set = ExecutableReactions::new();
        let mut k: usize = 0;
        assert(set@ =~= set_off_by(deps@, reactions@, levels@, 0, t as int));
        while k < deps.len()
            invariant
                k <= deps@.len(),
                set.wf(),
                levels@.len() == reactions@.len(),
                levels@.len() <= u32::MAX,
                forall|v: int| 0 <= v < levels@.len() ==> (#[trigger] levels@[v]) < levels@.len(),
                forall|j: int| 0 <= j < deps@.len() ==> (#[trigger] deps@[j]).node < reactions@.len(),
                set@ == set_off_by(deps@, reactions@, levels@, k as int, t as int),
            decreases deps@.len() - k,
        {
            let d = deps[k];
            let ghost before = set@;
            if d.trigger.0 == t {
                let node = d.node as usize;
                set.insert(levels[node], reactions[node]);
                proof {
                    let l = levels@[node as int] as int;
                    let r = reactions@[node as int];
                    assert(sets_off(deps@, reactions@, levels@, k as int, t as int, l, r));
                    assert forall|p: (int, GlobalReactionId)|
                        before.insert((l, r)).contains(p) <==> set_off_by(
                            deps@,
                            reactions@,
                            levels@,
                            k + 1,
                            t as int,
                        ).contains(p) by {
                        if before.contains(p) {
                            let j = choose|j: int|
                                j < k && sets_off(deps@, reactions@, levels@, j, t as int, p.0, p.1);
                            assert(j < k + 1);
                        }
                        if set_off_by(deps@, reactions@, levels@, k + 1, t as int).contains(p) {
                            let j = choose|j: int|
                                j < k + 1 && sets_off(
                                    deps@,
                                    reactions@,
                                    levels@,
                                    j,
                                    t as int,
                                    p.0,
                                    p.1,
                                );
                            if j < k {
                                assert(before.contains(p));
                            }
                        }
                    }
                    assert(set@ =~= set_off_by(deps@, reactions@, levels@, k + 1, t as int));
                }
            } else {
                proof {
                    assert forall|p: (int, GlobalReactionId)|
                        before.contains(p) <==> set_off_by(
                            deps@,
                            reactions@,
                            levels@,
                            k + 1,
                            t as int,
                        ).contains(p) by {
                        if before.contains(p) {
                            let j = choose|j: int|
                                j < k && sets_off(deps@, reactions@, levels@, j, t as int, p.0, p.1);
                            assert(j < k + 1);
                        }
                        if set_off_by(deps@, reactions@, levels@, k + 1, t as int).contains(p) {
                            let j = choose|j: int|
                                j < k + 1 && sets_off(
                                    deps@,
                                    reactions@,
                                    levels@,
                                    j,
                                    t as int,
                                    p.0,
                                    p.1,
                                );
                            assert(j < k);
                        }
                    }
                    assert(set@ =~= set_off_by(deps@, reactions@, levels@, k + 1, t as int));
                }
            }
            k = k + 1;
        }
        set
    }

    /// Whether `reaction` has declared that it may write to `port`.
    pub fn is_effect(&self, reaction: GlobalReactionId, port: PortId) -> (b: bool)
        ensures
            b == self.effects_spec().contains(Effect { reaction, port }),
    {
        let mut k: usize = 0;
        while k < self.effects.len()
            invariant
                k <= self.effects@.len(),
                forall|j: int| 0 <= j < k ==> self.effects@[j] != (Effect { reaction, port }),
            decreases self.effects@.len() - k,
        {
            if self.effects[k].reaction == reaction && self.effects[k].port == port {
                assert(self.effects@[k as int] == (Effect { reaction, port }));
                return true;
            }
            k = k + 1;
        }
        false
    }

    pub fn trigger_count(&self) -> (n: usize)
        ensures
            n == self.trigger_count_spec(),
    {
        self.triggered.len()
    }

    pub fn reaction_count(&self) -> (n: usize)
        ensures
            n == self.reactions_spec().len(),
    {
        self.reactions.len()
    }

    /// The level of the reaction at `node`.
    pub fn level_of(&self, node: u32) -> (l: Level)
        requires
            self.wf(),
            node < self.reactions_spec().len(),
        ensures
            l == self.levels_spec()[node as int],
    {
        self.levels[node as usize]
    }

    /// The reaction at `node`.
    pub fn reaction_at(&self, node: u32) -> (r: GlobalReactionId)
        requires
            node < self.reactions_spec().len(),
        ensures
            r == self.reactions_spec()[node as int],
    {
        self.reactions[node as usize]
    }

    /// The writes to ports that the reactions have declared.
    pub fn effects(&self) -> (e: &Vec<Effect>)
        ensures
            e@ == self.effects_spec(),
    {
        &self.effects
    }

    /// The reactions that `t` sets off; none for a trigger that the program
    /// does not have.
    pub fn reactions_triggered_by(&self, t: TriggerId) -> (r: ExecutableReactions)
        requires
            self.wf(),
        ensures
            r.wf(),
            r@ == self.triggered_spec(t),
    {
        let mut r = ExecutableReactions::new();
        if (t.0 as usize) < self.triggered.len() {
            r.absorb(&self.triggered[t.0 as usize]);
            assert(r@ =~= self.triggered_spec(t));
        }
        r
    }
}

} // verus!
