//! The assembly of a program.
//!
//! A program is a tree of reactors. The assembler walks the tree: it is
//! always inside one reactor, the current one, whose components it creates
//! and whose connections it records. When the last reactor is done, the
//! assembler turns what it has recorded into the precedence graph of the
//! reactions and has the graph analysed.

use vstd::prelude::*;
use vstd::string::StringExecFns;
use crate::actions::ActionId;
use crate::dataflow::{dependencies_in_range, DataflowInfo, Dependency, Effect};
use crate::depgraph::{
    acyclic, is_level_assignment, on_cycle, respects_edges, DepGraph, GraphCycle,
};
use crate::error::AssemblyError;
use crate::ids::{pack, GlobalReactionId, LocalReactionId, ReactorId, TriggerId};
use crate::ports::{PortId, PortKind, PortPool};
use crate::reactions::ExecutableReactions;
use crate::time::Nanos;
use crate::timers::Timer;

verus! {

/// The place of a named component: its reactor, and the position of its
/// name among the names of that reactor.
#[derive(Clone, Copy, Debug, PartialEq, Eq, Structural)]
pub struct GlobalId {
    pub container: ReactorId,
    pub index: usize,
}

/// A reactor under assembly and the names of its components so far.
struct Scope {
    reactor: ReactorId,
    names: Vec<String>,
}

/// A reaction and a port that it reads or writes; the reaction is given by
/// its node in the precedence graph.
#[derive(Clone, Copy, Debug, PartialEq, Eq, Structural)]
pub struct PortAccess {
    pub node: u32,
    pub port: PortId,
}

/// Looks `name` up among `names`.
fn find_name(names: &Vec<String>, name: &String) -> (r: Option<usize>)
    ensures
        r matches Some(i) ==> i < names@.len() && names@[i as int]@ == name@ && forall|j: int|
            0 <= j < i ==> (#[trigger] names@[j])@ != name@,
        r is None ==> forall|j: int| 0 <= j < names@.len() ==> (#[trigger] names@[j])@ != name@,
{
    let mut i: usize = 0;
    while i < names.len()
        invariant
            i <= names@.len(),
            forall|j: int| 0 <= j < i ==> (#[trigger] names@[j])@ != name@,
        decreases names@.len() - i,
    {
        if names[i] == *name {
            return Some(i);
        }
        i = i + 1;
    }
    None
}

/// The mathematical value of a scope.
pub struct ScopeView {
    pub reactor: ReactorId,
    pub names: Seq<Seq<char>>,
}

/// The mathematical value of an assembler.
pub struct AssemblerView<T> {
    /// The reactors under assembly, the current one last.
    pub scopes: Seq<ScopeView>,
    /// The parent of every reactor; the root has none.
    pub parents: Seq<Option<ReactorId>>,
    /// The path of every reactor: the path of its parent, a slash, and its
    /// own name; the path of the root is empty.
    pub paths: Seq<Seq<char>>,
    /// The number of reactions of every reactor.
    pub reaction_counts: Seq<u16>,
    /// The node of the first reaction of every reactor.
    pub first_nodes: Seq<u32>,
    /// The reaction of every node of the precedence graph.
    pub reactions: Seq<GlobalReactionId>,
    /// The precedences recorded so far.
    pub edges: Seq<(u32, u32)>,
    /// The ports and their bindings.
    pub ports: PortPool<T>,
    /// For every trigger id handed out, the two synthetic ones included,
    /// the port that it belongs to, if it belongs to a port.
    pub trigger_ports: Seq<Option<PortId>>,
    /// Which trigger sets off which reaction, ports apart.
    pub deps: Seq<Dependency>,
    /// Which reaction is set off by which port.
    pub uses: Seq<PortAccess>,
    /// Which reaction writes to which port.
    pub affects: Seq<PortAccess>,
    /// Which reaction schedules which action.
    pub schedules: Seq<(u32, TriggerId)>,
}

impl<T> AssemblerView<T> {
    /// The number of trigger ids handed out.
    pub open spec fn triggers(self) -> nat {
        self.trigger_ports.len()
    }

    /// The reactor that is being assembled.
    pub open spec fn current(self) -> ReactorId {
        self.scopes.last().reactor
    }

    /// The names given so far in the current reactor.
    pub open spec fn names(self) -> Seq<Seq<char>> {
        self.scopes.last().names
    }

    /// This value with one more name in the current reactor.
    pub open spec fn with_name(self, name: Seq<char>) -> AssemblerView<T> {
        AssemblerView {
            scopes: self.scopes.update(
                self.scopes.len() - 1,
                ScopeView { reactor: self.current(), names: self.names().push(name) },
            ),
            ..self
        }
    }

    /// The node of a reaction, if the program has the reaction.
    pub open spec fn node_of(self, r: GlobalReactionId) -> Option<u32> {
        let c = r.container_spec().0 as int;
        if c < self.reaction_counts.len() && r.local_spec().0 < self.reaction_counts[c] {
            Some((self.first_nodes[c] + r.local_spec().0) as u32)
        } else {
            None
        }
    }

    /// `r` is the parent of `child`.
    pub open spec fn is_child(self, child: ReactorId, r: ReactorId) -> bool {
        child.0 < self.parents.len() && self.parents[child.0 as int] == Some(r)
    }

    /// Some reaction writes to `p`.
    pub open spec fn is_written(self, p: PortId) -> bool {
        exists|i: int| 0 <= i < self.affects.len() && (#[trigger] self.affects[i]).port == p
    }
}

impl<T: Copy> AssemblerView<T> {
    /// Whether the current reactor may connect `up` to `down`. The upstream
    /// is an input of the current reactor or an output of one of its children;
    /// the downstream is an output of the current reactor or an input of one
    /// of its children; and a child is not connected to itself.
    pub open spec fn connection_allowed(self, up: PortId, down: PortId) -> bool {
        let this = self.current();
        let up_kind = self.ports.kind_spec(up);
        let up_owner = self.ports.owner_spec(up);
        let down_kind = self.ports.kind_spec(down);
        let down_owner = self.ports.owner_spec(down);
        let up_is_own_input = up_kind == PortKind::Input && up_owner == this;
        let up_is_child_output = up_kind == PortKind::Output && self.is_child(up_owner, this);
        let down_is_own_output = down_kind == PortKind::Output && down_owner == this;
        let down_is_child_input = down_kind == PortKind::Input && self.is_child(down_owner, this);
        ||| up_is_own_input && down_is_child_input
        ||| up_is_own_input && down_is_own_output
        ||| up_is_child_output && down_is_child_input && up_owner != down_owner
        ||| up_is_child_output && down_is_own_output
    }

    /// The reaction that writes through `affects[i]` writes to the port
    /// whose value the reaction of `uses[j]` is set off by.
    pub open spec fn linked(self, i: int, j: int) -> bool {
        &&& 0 <= i < self.affects.len()
        &&& 0 <= j < self.uses.len()
        &&& self.ports.root_spec(self.affects[i].port) == self.ports.root_spec(self.uses[j].port)
    }

    /// `edge` leads from a reaction that writes to a port to a reaction
    /// that the port sets off.
    pub open spec fn from_link(self, edge: (u32, u32)) -> bool {
        exists|i: int, j: int| #[trigger]
            self.linked(i, j) && edge == (self.affects[i].node, self.uses[j].node)
    }

    /// `edges` are the precedences of the program: those among the
    /// reactions of each reactor, which were recorded as the reactors were
    /// created, and then one for every reaction that writes to a port and
    /// every reaction that the port sets off, bindings followed.
    pub open spec fn is_precedence_graph(self, edges: Seq<(u32, u32)>) -> bool {
        &&& self.edges.is_prefix_of(edges)
        &&& forall|e: int| self.edges.len() <= e < edges.len() ==> self.from_link(#[trigger] edges[e])
        &&& forall|i: int, j: int| #[trigger]
            self.linked(i, j) ==> edges.contains((self.affects[i].node, self.uses[j].node))
    }

    /// What sets off what: the dependencies that were declared for actions,
    /// timers and the synthetic triggers, and for every port that sets off a
    /// reaction a dependency on the trigger of the port's root.
    pub open spec fn all_deps(self) -> Seq<Dependency> {
        self.deps + Seq::new(
            self.uses.len(),
            |j: int|
                Dependency {
                    trigger: self.ports.trigger_spec(self.ports.root_spec(self.uses[j].port)),
                    node: self.uses[j].node,
                },
        )
    }

    /// The writes to ports that were declared, each with the id of the
    /// reaction.
    pub open spec fn effects(self) -> Seq<Effect> {
        Seq::new(
            self.affects.len(),
            |i: int|
                Effect {
                    reaction: self.reactions[self.affects[i].node as int],
                    port: self.affects[i].port,
                },
        )
    }

    /// The ports of `ups` and `downs` exist, as far as both sequences go.
    pub open spec fn pairs_exist(self, ups: Seq<PortId>, downs: Seq<PortId>) -> bool {
        forall|i: int|
            #![trigger ups[i]]
            #![trigger downs[i]]
            0 <= i < ups.len() && i < downs.len() ==> self.ports.has_port(ups[i])
                && self.ports.has_port(downs[i])
    }

    /// `next` is this value after `down` was bound to `up`.
    pub open spec fn bound(self, next: AssemblerView<T>, up: PortId, down: PortId) -> bool {
        &&& self.bind_outcome(up, down) is Ok
        &&& self.ports.bound_to(&next.ports, up, down)
        &&& next == (AssemblerView { ports: next.ports, ..self })
    }

    /// `states` are the values that an assembler goes through while the
    /// first `k` of `downs` are bound to the first `k` of `ups`, one after
    /// the other.
    pub open spec fn bound_in_turn(
        self,
        states: Seq<AssemblerView<T>>,
        ups: Seq<PortId>,
        downs: Seq<PortId>,
        k: int,
    ) -> bool {
        &&& states.len() == k + 1
        &&& states[0] == self
        &&& forall|i: int| 0 <= i < k ==> (#[trigger] states[i]).bound(states[i + 1], ups[i], downs[i])
    }

    /// What `bind_ports(up, down)` answers: `CannotBind` where the
    /// connection is not allowed, where a reaction writes to `down`, or
    /// where `down` already has an upstream; `CyclicDependency` where `up`
    /// is downstream of `down`.
    pub open spec fn bind_outcome(self, up: PortId, down: PortId) -> Result<(), AssemblyError> {
        if !self.connection_allowed(up, down) || self.is_written(down) {
            Err(AssemblyError::CannotBind(up, down))
        } else {
            self.ports.bind_outcome(up, down)
        }
    }
}

/// The precedences among `count` reactions of one reactor whose nodes start
/// at `first`: each reaction comes before the next.
pub open spec fn chain(first: int, count: int) -> Seq<(u32, u32)> {
    Seq::new(
        if count <= 0 {
            0nat
        } else {
            (count - 1) as nat
        },
        |k: int| ((first + k) as u32, (first + k + 1) as u32),
    )
}

/// The ids of the first `count` reactions of `reactor`.
pub open spec fn reactions_of(reactor: u16, count: int) -> Seq<GlobalReactionId> {
    Seq::new(
        if count <= 0 {
            0nat
        } else {
            count as nat
        },
        |k: int| GlobalReactionId(pack(reactor, k as u16) as u32),
    )
}

/// An assembled program: its ports and what the scheduler needs to know of
/// its reactions.
pub struct World<T> {
    pub ports: PortPool<T>,
    pub dataflow: DataflowInfo,
    /// The path of every reactor, for messages.
    pub paths: Vec<String>,
}

impl<T: Copy> World<T> {
    pub open spec fn wf(&self) -> bool {
        self.ports.wf() && self.dataflow.wf()
    }

    /// The path of every reactor.
    pub open spec fn paths_spec(&self) -> Seq<Seq<char>> {
        self.paths@.map_values(|s: String| s@)
    }

    /// The path of a reactor: the names of the reactors that hold it, from
    /// the root down, and its own, each after a slash.
    pub fn path_of(&self, reactor: ReactorId) -> (path: String)
        requires
            reactor.0 < self.paths_spec().len(),
        ensures
            path@ == self.paths_spec()[reactor.0 as int],
    {
        self.paths[reactor.index()].clone()
    }

    /// The name of a reaction: the path of its reactor, a colon, and its
    /// number in the reactor.
    pub fn name_of(&self, reaction: GlobalReactionId) -> (name: String)
        requires
            reaction.container_spec().0 < self.paths_spec().len(),
        ensures
            name@ == self.paths_spec()[reaction.container_spec().0 as int] + ":"@
                + crate::debug::decimal(reaction.local_spec().0 as nat),
    {
        let mut name = self.path_of(reaction.container());
        name.append(":");
        name.append(crate::debug::decimal_string(reaction.local().raw() as u64).as_str());
        name
    }

    /// The reactions that `reaction` sets off within a tag by writing to
    /// the ports that it may write to, as far as the first `n` declared
    /// effects go.
    pub open spec fn downstream_spec(&self, reaction: GlobalReactionId, n: int) -> Set<
        (int, GlobalReactionId),
    >
        decreases n,
    {
        if n <= 0 {
            Set::empty()
        } else {
            let e = self.dataflow.effects_spec()[n - 1];
            if e.reaction == reaction && self.ports.has_port(e.port) {
                self.downstream_spec(reaction, n - 1).union(
                    self.dataflow.triggered_spec(self.ports.trigger_spec(e.port)),
                )
            } else {
                self.downstream_spec(reaction, n - 1)
            }
        }
    }

    /// The reactions that `reaction` can set off within a tag: those that
    /// are set off by the ports that it may write to.
    pub fn downstream_of(&self, reaction: GlobalReactionId) -> (r: ExecutableReactions)
        requires
            self.wf(),
        ensures
            r.wf(),
            r@ == self.downstream_spec(reaction, self.dataflow.effects_spec().len() as int),
    {
        let effects = self.dataflow.effects();
        let mut r = ExecutableReactions::new();
        let mut k: usize = 0;
        while k < effects.len()
            invariant
                k <= effects@.len(),
                effects@ == self.dataflow.effects_spec(),
                self.wf(),
                r.wf(),
                r@ == self.downstream_spec(reaction, k as int),
            decreases effects@.len() - k,
        {
            let e = effects[k];
            if e.reaction == reaction && e.port.index() < self.ports.len() {
                let set = self.dataflow.reactions_triggered_by(self.ports.trigger(e.port));
                r.absorb(&set);
            }
            k = k + 1;
        }
        r
    }
}

/// Assembles a program.
pub struct Assembler<T> {
    scopes: Vec<Scope>,
    parents: Vec<Option<ReactorId>>,
    paths: Vec<String>,
    reaction_counts: Vec<u16>,
    first_nodes: Vec<u32>,
    reactions: Vec<GlobalReactionId>,
    graph: DepGraph,
    ports: PortPool<T>,
    trigger_ports: Vec<Option<PortId>>,
    deps: Vec<Dependency>,
    uses: Vec<PortAccess>,
    affects: Vec<PortAccess>,
    schedules: Vec<(u32, TriggerId)>,
}

/// The value of a stack of scopes.
spec fn scopes_view(scopes: Seq<Scope>) -> Seq<ScopeView> {
    Seq::new(
        scopes.len(),
        |i: int| ScopeView { reactor: scopes[i].reactor, names: scopes[i].names@.map_values(|s: String| s@) },
    )
}

impl<T: Copy> Assembler<T> {
    pub closed spec fn view(&self) -> AssemblerView<T> {
        AssemblerView {
            scopes: scopes_view(self.scopes@),
            parents: self.parents@,
            paths: self.paths@.map_values(|s: String| s@),
            reaction_counts: self.reaction_counts@,
            first_nodes: self.first_nodes@,
            reactions: self.reactions@,
            edges: self.graph.edges_spec(),
            ports: self.ports,
            trigger_ports: self.trigger_ports@,
            deps: self.deps@,
            uses: self.uses@,
            affects: self.affects@,
            schedules: self.schedules@,
        }
    }

    /// What holds of an assembler at all times.
    pub closed spec fn wf(&self) -> bool {
        &&& self.records_wf()
        &&& self.scopes@.len() >= 1
        &&& forall|i: int|
            0 <= i < self.scopes@.len() ==> (#[trigger] self.scopes@[i]).reactor.0
                < self.parents@.len()
    }

    /// What holds of the records of an assembler, the scopes apart.
    spec fn records_wf(&self) -> bool {
        &&& self.graph.wf()
        &&& self.ports.wf()
        &&& self.parents@.len() <= 65536
        &&& self.paths@.len() == self.parents@.len()
        &&& self.reaction_counts@.len() == self.parents@.len()
        &&& self.first_nodes@.len() == self.parents@.len()
        &&& self.reactions@.len() == self.graph.node_count_spec()
        &&& forall|c: int|
            0 <= c < self.parents@.len() ==> (#[trigger] self.first_nodes@[c])
                + self.reaction_counts@[c] <= self.reactions@.len()
        &&& forall|c: int, k: int|
            0 <= c < self.parents@.len() && 0 <= k < self.reaction_counts@[c]
                ==> (#[trigger] self.reactions@[self.first_nodes@[c] + k]).0 == pack(
                c as u16,
                k as u16,
            )
        &&& 2 <= self.trigger_ports@.len() <= u32::MAX
        &&& dependencies_in_range(self.deps@, self.trigger_ports@.len(), self.reactions@.len())
        &&& forall|k: int|
            0 <= k < self.deps@.len() ==> self.trigger_ports@[(#[trigger] self.deps@[k]).trigger.0 as int] is None
        &&& forall|t: int|
            0 <= t < self.trigger_ports@.len() ==> (#[trigger] self.trigger_ports@[t] matches Some(
                p,
            ) ==> self.ports.has_port(p) && self.ports.trigger_spec(p).0 == t)
        &&& forall|i: int|
            0 <= i < self.uses@.len() ==> (#[trigger] self.uses@[i]).node < self.reactions@.len()
                && self.ports.has_port(self.uses@[i].port)
        &&& forall|i: int|
            0 <= i < self.affects@.len() ==> (#[trigger] self.affects@[i]).node
                < self.reactions@.len() && self.ports.has_port(self.affects@[i].port)
                && self.ports.bindings()[self.affects@[i].port.0 as int] is None
        &&& forall|p: PortId|
            self.ports.has_port(p) ==> (#[trigger] self.ports.trigger_spec(p)).0
                < self.trigger_ports@.len() && self.trigger_ports@[self.ports.trigger_spec(p).0 as int]
                == Some(p)
    }

    /// The ports that have been created so far.
    pub closed spec fn ports_spec(&self) -> PortPool<T> {
        self.ports
    }

    /// What a well-formed assembler holds is consistent: its ports are a
    /// well-formed pool, the current reactor exists, and a reaction that has a
    /// node has the node that the graph knows it by.
    pub proof fn view_properties(&self)
        requires
            self.wf(),
        ensures
            self@.ports == self.ports_spec(),
            self@.ports.wf(),
            self@.scopes.len() >= 1,
            self@.current().0 < self@.parents.len(),
            self@.parents.len() == self@.reaction_counts.len(),
            self@.parents.len() == self@.first_nodes.len(),
            self@.parents.len() == self@.paths.len(),
            forall|r: GlobalReactionId| #[trigger]
                self@.node_of(r) matches Some(n) ==> n < self@.reactions.len()
                    && self@.reactions[n as int] == r,
    {
        assert forall|r: GlobalReactionId| (#[trigger] self@.node_of(r)) is Some implies self@.node_of(
            r,
        ).unwrap() < self@.reactions.len() && self@.reactions[self@.node_of(r).unwrap() as int]
            == r by {
            let c = r.container_spec().0 as int;
            let k = r.local_spec().0 as int;
            self.graph.edges_join_nodes();
            assert(self.first_nodes@[c] + self.reaction_counts@[c] <= self.reactions@.len());
            assert(self.reactions@[self.first_nodes@[c] + k].0 == pack(c as u16, k as u16));
            assert(pack(c as u16, k as u16) == r.0);
        }
    }

    /// Registers `name` for a new component of the current reactor.
    /// Refused with `DuplicateName` where the reactor has a component of
    /// that name; the error tells the position of the name.
    pub fn new_id(&mut self, name: &str) -> (r: Result<GlobalId, AssemblyError>)
        requires
            old(self).wf(),
        ensures
            final(self).wf(),
            r is Err <==> old(self)@.names().contains(name@),
            match r {
                Ok(id) => id == (GlobalId {
                    container: old(self)@.current(),
                    index: old(self)@.names().len() as usize,
                }) && final(self)@ == old(self)@.with_name(name@),
                Err(e) => *final(self) == *old(self) && exists|i: int|
                    0 <= i < old(self)@.names().len() && old(self)@.names()[i] == name@ && e
                        == AssemblyError::DuplicateName(i as usize),
            },
    {
        let owned = name.to_owned();
        let last = self.scopes.len() - 1;
        let ghost names0 = self.scopes@[last as int].names@;
        assert(self@.names() =~= names0.map_values(|s: String| s@));
        match find_name(&self.scopes[last].names, &owned) {
            Some(i) => {
                assert(self@.names()[i as int] == name@);
                Err(AssemblyError::DuplicateName(i))
            },
            None => {
                proof {
                    if self@.names().contains(name@) {
                        let j = choose|j: int|
                            0 <= j < self@.names().len() && self@.names()[j] == name@;
                        assert(names0[j]@ == name@);
                    }
                }
                let index = self.scopes[last].names.len();
                let reactor = self.scopes[last].reactor;
                self.scopes[last].names.push(owned);
                proof {
                    let goal = old(self)@.with_name(name@);
                    assert(self.scopes@.len() == old(self).scopes@.len());
                    assert forall|i: int| 0 <= i < self.scopes@.len() implies (
                    #[trigger] scopes_view(self.scopes@)[i]) == goal.scopes[i] by {
                        if i == last {
                            assert(self.scopes@[i].names@.map_values(|s: String| s@)
                                =~= names0.map_values(|s: String| s@).push(name@));
                        } else {
                            assert(self.scopes@[i] == old(self).scopes@[i]);
                        }
                    }
                    assert(scopes_view(self.scopes@) =~= goal.scopes);
                    assert forall|i: int| 0 <= i < self.scopes@.len() implies (
                    #[trigger] self.scopes@[i]).reactor.0 < self.parents@.len() by {
                        if i != last {
                            assert(self.scopes@[i] == old(self).scopes@[i]);
                        }
                    }
                }
                Ok(GlobalId { container: reactor, index })
            },
        }
    }

    /// The reactor that is being assembled.
    pub fn current(&self) -> (r: ReactorId)
        requires
            self.wf(),
        ensures
            r == self@.current(),
    {
        self.scopes[self.scopes.len() - 1].reactor
    }

    /// Whether one more port can be created: port and trigger ids are not
    /// used up.
    pub open spec fn has_room_for_port(&self) -> bool {
        self@.ports.len_spec() < u32::MAX && self@.triggers() < u32::MAX
    }

    /// Creates a port of the current reactor.
    pub fn new_port(&mut self, kind: PortKind, name: &str) -> (r: Result<PortId, AssemblyError>)
        requires
            old(self).wf(),
            old(self).has_room_for_port(),
        ensures
            final(self).wf(),
            r is Err <==> old(self)@.names().contains(name@),
            r is Err ==> *final(self) == *old(self),
            r matches Ok(id) ==> {
                &&& old(self)@.ports.grown_by(
                    &final(self)@.ports,
                    id,
                    kind,
                    old(self)@.current(),
                    TriggerId(old(self)@.triggers() as u32),
                )
                &&& final(self)@ == (AssemblerView {
                    ports: final(self)@.ports,
                    trigger_ports: old(self)@.trigger_ports.push(Some(id)),
                    ..old(self)@.with_name(name@)
                })
            },
    {
        match self.new_id(name) {
            Err(e) => Err(e),
            Ok(gid) => {
                let trigger = TriggerId(self.trigger_ports.len() as u32);
                let ghost mid = *self;
                let id = self.ports.add_port(kind, gid.container, trigger);
                self.trigger_ports.push(Some(id));
                proof {
                    assert forall|i: int| 0 <= i < self.affects@.len() implies (
                    #[trigger] self.affects@[i]).node < self.reactions@.len()
                        && self.ports.has_port(self.affects@[i].port)
                        && self.ports.bindings()[self.affects@[i].port.0 as int] is None by {
                        assert(mid.ports.has_port(mid.affects@[i].port));
                    }
                    assert forall|p: PortId| self.ports.has_port(p) implies (
                    #[trigger] self.ports.trigger_spec(p)).0 < self.trigger_ports@.len()
                        && self.trigger_ports@[self.ports.trigger_spec(p).0 as int] == Some(p) by {
                        if p != id {
                            assert(mid.ports.has_port(p));
                            assert(mid.ports.trigger_spec(p).0 < mid.trigger_ports@.len());
                        }
                    }
                    assert forall|t: int| 0 <= t < self.trigger_ports@.len() implies (
                    #[trigger] self.trigger_ports@[t] matches Some(p) ==> self.ports.has_port(p)
                        && self.ports.trigger_spec(p).0 == t) by {
                        if t < mid.trigger_ports@.len() {
                            assert(self.trigger_ports@[t] == mid.trigger_ports@[t]);
                            if mid.trigger_ports@[t] is Some {
                                assert(mid.ports.has_port(mid.trigger_ports@[t].unwrap()));
                            }
                        }
                    }
                    assert forall|k: int| 0 <= k < self.deps@.len() implies self.trigger_ports@[(
                    #[trigger] self.deps@[k]).trigger.0 as int] is None by {
                        assert(mid.deps@[k].trigger.0 < mid.trigger_ports@.len());
                    }
                }
                Ok(id)
            },
        }
    }

    /// Creates an output port of the current reactor.
    pub fn new_output_port(&mut self, name: &str) -> (r: Result<PortId, AssemblyError>)
        requires
            old(self).wf(),
            old(self).has_room_for_port(),
        ensures
            final(self).wf(),
            r is Err <==> old(self)@.names().contains(name@),
            r is Err ==> *final(self) == *old(self),
            r matches Ok(id) ==> {
                &&& old(self)@.ports.grown_by(
                    &final(self)@.ports,
                    id,
                    PortKind::Output,
                    old(self)@.current(),
                    TriggerId(old(self)@.triggers() as u32),
                )
                &&& final(self)@ == (AssemblerView {
                    ports: final(self)@.ports,
                    trigger_ports: old(self)@.trigger_ports.push(Some(id)),
                    ..old(self)@.with_name(name@)
                })
            },
    {
        self.new_port(PortKind::Output, name)
    }

    /// Creates an input port of the current reactor.
    pub fn new_input_port(&mut self, name: &str) -> (r: Result<PortId, AssemblyError>)
        requires
            old(self).wf(),
            old(self).has_room_for_port(),
        ensures
            final(self).wf(),
            r is Err <==> old(self)@.names().contains(name@),
            r is Err ==> *final(self) == *old(self),
            r matches Ok(id) ==> {
                &&& old(self)@.ports.grown_by(
                    &final(self)@.ports,
                    id,
                    PortKind::Input,
                    old(self)@.current(),
                    TriggerId(old(self)@.triggers() as u32),
                )
                &&& final(self)@ == (AssemblerView {
                    ports: final(self)@.ports,
                    trigger_ports: old(self)@.trigger_ports.push(Some(id)),
                    ..old(self)@.with_name(name@)
                })
            },
    {
        self.new_port(PortKind::Input, name)
    }

    /// Hands out the id of a trigger that is no port.
    fn new_trigger(&mut self) -> (t: TriggerId)
        requires
            old(self).wf(),
            old(self)@.triggers() < u32::MAX,
        ensures
            final(self).wf(),
            t == TriggerId(old(self)@.triggers() as u32),
            final(self)@ == (AssemblerView {
                trigger_ports: old(self)@.trigger_ports.push(None),
                ..old(self)@
            }),
    {
        let t = TriggerId(self.trigger_ports.len() as u32);
        let ghost mid = *self;
        self.trigger_ports.push(None);
        proof {
            assert forall|p: PortId| self.ports.has_port(p) implies (
            #[trigger] self.ports.trigger_spec(p)).0 < self.trigger_ports@.len()
                && self.trigger_ports@[self.ports.trigger_spec(p).0 as int] == Some(p) by {
                assert(mid.ports.trigger_spec(p).0 < mid.trigger_ports@.len());
            }
            assert forall|u: int| 0 <= u < self.trigger_ports@.len() implies (
            #[trigger] self.trigger_ports@[u] matches Some(p) ==> self.ports.has_port(p)
                && self.ports.trigger_spec(p).0 == u) by {
                if u < mid.trigger_ports@.len() {
                    assert(self.trigger_ports@[u] == mid.trigger_ports@[u]);
                }
            }
            assert forall|k: int| 0 <= k < self.deps@.len() implies self.trigger_ports@[(
            #[trigger] self.deps@[k]).trigger.0 as int] is None by {
                assert(mid.deps@[k].trigger.0 < mid.trigger_ports@.len());
            }
        }
        t
    }

    /// Creates an action of the current reactor, logical or physical, with
    /// its minimum delay.
    pub fn new_action(&mut self, name: &str, min_delay: Option<Nanos>, is_logical: bool) -> (r:
        Result<ActionId, AssemblyError>)
        requires
            old(self).wf(),
            old(self)@.triggers() < u32::MAX,
        ensures
            final(self).wf(),
            r is Err <==> old(self)@.names().contains(name@),
            r is Err ==> *final(self) == *old(self),
            r matches Ok(a) ==> {
                &&& a.trigger == TriggerId(old(self)@.triggers() as u32)
                &&& a.is_logical == is_logical
                &&& a.min_delay == match min_delay {
                    Some(d) => d,
                    None => 0,
                }
                &&& final(self)@ == (AssemblerView {
                    trigger_ports: old(self)@.trigger_ports.push(None),
                    ..old(self)@.with_name(name@)
                })
            },
    {
        match self.new_id(name) {
            Err(e) => Err(e),
            Ok(_) => {
                let trigger = self.new_trigger();
                Ok(ActionId::new(min_delay, trigger, is_logical))
            },
        }
    }

    /// Creates a timer of the current reactor.
    pub fn new_timer(&mut self, name: &str, offset: Nanos, period: Nanos) -> (r: Result<
        Timer,
        AssemblyError,
    >)
        requires
            old(self).wf(),
            old(self)@.triggers() < u32::MAX,
        ensures
            final(self).wf(),
            r is Err <==> old(self)@.names().contains(name@),
            r is Err ==> *final(self) == *old(self),
            r matches Ok(t) ==> {
                &&& t == (Timer {
                    trigger: TriggerId(old(self)@.triggers() as u32),
                    offset,
                    period,
                })
                &&& final(self)@ == (AssemblerView {
                    trigger_ports: old(self)@.trigger_ports.push(None),
                    ..old(self)@.with_name(name@)
                })
            },
    {
        match self.new_id(name) {
            Err(e) => Err(e),
            Ok(_) => {
                let trigger = self.new_trigger();
                Ok(Timer::new(trigger, offset, period))
            },
        }
    }

    /// Whether one more reactor with `reactions` reactions can be created:
    /// reactor ids, nodes and edges are not used up.
    pub open spec fn has_room_for_reactor(&self, reactions: u16) -> bool {
        &&& self@.parents.len() < 65536
        &&& self@.reactions.len() + reactions < u32::MAX
        &&& self@.edges.len() + reactions < u32::MAX
    }

    /// Records a new reactor: a node for each of its reactions, and an edge
    /// from each reaction to the next.
    fn add_reactor(&mut self, parent: Option<ReactorId>, reactions: u16, path: String) -> (id:
        ReactorId)
        requires
            old(self).records_wf(),
            old(self).has_room_for_reactor(reactions),
        ensures
            final(self).records_wf(),
            final(self).scopes == old(self).scopes,
            id.0 == old(self)@.parents.len(),
            final(self)@ == (AssemblerView {
                parents: old(self)@.parents.push(parent),
                paths: old(self)@.paths.push(path@),
                reaction_counts: old(self)@.reaction_counts.push(reactions),
                first_nodes: old(self)@.first_nodes.push(old(self)@.reactions.len() as u32),
                reactions: old(self)@.reactions + reactions_of(id.0, reactions as int),
                edges: old(self)@.edges + chain(old(self)@.reactions.len() as int, reactions as int),
                ..old(self)@
            }),
    {
        let id = ReactorId(self.parents.len() as u16);
        let first: u32 = self.reactions.len() as u32;
        let ghost edges0 = self.graph.edges_spec();
        let ghost reactions0 = self.reactions@;
        let mut k: u16 = 0;
        proof {
            self.graph.edges_join_nodes();
            assert(self.reactions@ =~= reactions0 + reactions_of(id.0, 0));
            assert(self.graph.edges_spec() =~= edges0 + chain(first as int, 0));
        }
        while k < reactions
            invariant
                k <= reactions,
                first == reactions0.len(),
                self.graph.wf(),
                self.graph.node_count_spec() == first + k,
                first + reactions < u32::MAX,
                edges0.len() + reactions < u32::MAX,
                self.reactions@ == reactions0 + reactions_of(id.0, k as int),
                self.graph.edges_spec() == edges0 + chain(first as int, k as int),
                self.scopes == old(self).scopes,
                self.parents == old(self).parents,
                self.paths == old(self).paths,
                self.reaction_counts == old(self).reaction_counts,
                self.first_nodes == old(self).first_nodes,
                self.ports == old(self).ports,
                self.trigger_ports == old(self).trigger_ports,
                self.deps == old(self).deps,
                self.uses == old(self).uses,
                self.affects == old(self).affects,
                self.schedules == old(self).schedules,
            decreases reactions - k,
        {
            let node = self.graph.add_node();
            self.reactions.push(GlobalReactionId::new(id, LocalReactionId(k)));
            if k > 0 {
                self.graph.add_edge(node - 1, node);
            }
            proof {
                assert(self.reactions@ =~= reactions0 + reactions_of(id.0, k + 1));
                assert(self.graph.edges_spec() =~= edges0 + chain(first as int, k + 1));
            }
            k = k + 1;
        }
        self.parents.push(parent);
        self.paths.push(path);
        self.reaction_counts.push(reactions);
        self.first_nodes.push(first);
        proof {
            let n = old(self).parents@.len() as int;
            assert(self.paths@.map_values(|s: String| s@) =~= old(self).paths@.map_values(
                |s: String| s@,
            ).push(path@));
            assert forall|c: int| 0 <= c < self.parents@.len() implies (
            #[trigger] self.first_nodes@[c]) + self.reaction_counts@[c] <= self.reactions@.len() by {
                if c < n {
                    assert(self.first_nodes@[c] == old(self).first_nodes@[c]);
                    assert(self.reaction_counts@[c] == old(self).reaction_counts@[c]);
                }
            }
            assert forall|c: int, j: int|
                0 <= c < self.parents@.len() && 0 <= j < self.reaction_counts@[c] implies (
            #[trigger] self.reactions@[self.first_nodes@[c] + j]).0 == pack(c as u16, j as u16) by {
                if c < n {
                    assert(self.first_nodes@[c] == old(self).first_nodes@[c]);
                    assert(self.reaction_counts@[c] == old(self).reaction_counts@[c]);
                    assert(old(self).first_nodes@[c] + old(self).reaction_counts@[c]
                        <= reactions0.len());
                    assert(self.reactions@[self.first_nodes@[c] + j] == reactions0[
                        old(self).first_nodes@[c] + j]);
                } else {
                    assert(self.reactions@[first + j] == reactions_of(id.0, reactions as int)[j]);
                }
            }
            assert forall|i: int| 0 <= i < self.deps@.len() implies (
            #[trigger] self.deps@[i]).trigger.0 < self.trigger_ports@.len() && self.deps@[i].node
                < self.reactions@.len() by {
                assert(old(self).deps@[i].node < reactions0.len());
            }
            assert forall|i: int| 0 <= i < self.uses@.len() implies (#[trigger] self.uses@[i]).node
                < self.reactions@.len() && self.ports.has_port(self.uses@[i].port) by {
                assert(old(self).uses@[i].node < reactions0.len());
            }
            assert forall|i: int| 0 <= i < self.affects@.len() implies (
            #[trigger] self.affects@[i]).node < self.reactions@.len() && self.ports.has_port(
                self.affects@[i].port,
            ) && self.ports.bindings()[self.affects@[i].port.0 as int] is None by {
                assert(old(self).affects@[i].node < reactions0.len());
            }
        }
        id
    }

    /// An assembler at the root of a program: the current reactor is the
    /// root, which has `reactions` reactions and no components yet.
    pub fn new(reactions: u16) -> (a: Assembler<T>)
        ensures
            a.wf(),
            a@.scopes == seq![ScopeView { reactor: ReactorId(0), names: Seq::<Seq<char>>::empty() }],
            a@.parents == seq![None::<ReactorId>],
            a@.paths == seq![Seq::<char>::empty()],
            a@.reaction_counts == seq![reactions],
            a@.first_nodes == seq![0u32],
            a@.reactions == reactions_of(0, reactions as int),
            a@.edges == chain(0, reactions as int),
            a@.ports.bindings() == Seq::<Option<PortId>>::empty(),
            a@.ports.written() == Seq::<Option<T>>::empty(),
            a@.trigger_ports == seq![None::<PortId>, None::<PortId>],
            a@.deps == Seq::<Dependency>::empty(),
            a@.uses == Seq::<PortAccess>::empty(),
            a@.affects == Seq::<PortAccess>::empty(),
            a@.schedules == Seq::<(u32, TriggerId)>::empty(),
    {
        let mut a = Assembler {
            scopes: Vec::new(),
            parents: Vec::new(),
            paths: Vec::new(),
            reaction_counts: Vec::new(),
            first_nodes: Vec::new(),
            reactions: Vec::new(),
            graph: DepGraph::new(),
            ports: PortPool::new(),
            trigger_ports: Vec::new(),
            deps: Vec::new(),
            uses: Vec::new(),
            affects: Vec::new(),
            schedules: Vec::new(),
        };
        a.trigger_ports.push(None);
        a.trigger_ports.push(None);
        let root = a.add_reactor(None, reactions, String::new());
        a.scopes.push(Scope { reactor: root, names: Vec::new() });
        proof {
            assert(a@.scopes =~= seq![
                ScopeView { reactor: ReactorId(0), names: Seq::<Seq<char>>::empty() },
            ]) by {
                assert(a.scopes@[0].names@.map_values(|s: String| s@) =~= Seq::<Seq<char>>::empty());
            }
            assert(a@.parents =~= seq![None::<ReactorId>]);
            assert(a@.paths =~= seq![Seq::<char>::empty()]);
            assert(a@.reaction_counts =~= seq![reactions]);
            assert(a@.first_nodes =~= seq![0u32]);
            assert(a@.reactions =~= reactions_of(0, reactions as int));
            assert(a@.edges =~= chain(0, reactions as int));
        }
        a
    }

    /// The id that the next sub-reactor will have.
    pub fn sub_id_for(&self) -> (id: ReactorId)
        requires
            self.wf(),
            self@.parents.len() < 65536,
        ensures
            id.0 == self@.parents.len(),
    {
        ReactorId(self.parents.len() as u16)
    }

    /// The path of a reactor: the names of the reactors that hold it, from
    /// the root down, and its own, each after a slash.
    pub fn path_of(&self, reactor: ReactorId) -> (path: String)
        requires
            self.wf(),
            reactor.0 < self@.parents.len(),
        ensures
            path@ == self@.paths[reactor.0 as int],
    {
        self.paths[reactor.index()].clone()
    }

    /// Creates a reactor with `reactions` reactions inside the current
    /// reactor, under `name`, and makes it the current reactor.
    pub fn new_subreactor(&mut self, name: &str, reactions: u16) -> (r: Result<
        ReactorId,
        AssemblyError,
    >)
        requires
            old(self).wf(),
            old(self).has_room_for_reactor(reactions),
        ensures
            final(self).wf(),
            r is Err <==> old(self)@.names().contains(name@),
            r is Err ==> *final(self) == *old(self),
            r matches Ok(id) ==> {
                &&& id.0 == old(self)@.parents.len()
                &&& final(self)@ == (AssemblerView {
                    scopes: old(self)@.with_name(name@).scopes.push(
                        ScopeView { reactor: id, names: Seq::<Seq<char>>::empty() },
                    ),
                    parents: old(self)@.parents.push(Some(old(self)@.current())),
                    paths: old(self)@.paths.push(
                        old(self)@.paths[old(self)@.current().0 as int] + "/"@ + name@,
                    ),
                    reaction_counts: old(self)@.reaction_counts.push(reactions),
                    first_nodes: old(self)@.first_nodes.push(old(self)@.reactions.len() as u32),
                    reactions: old(self)@.reactions + reactions_of(id.0, reactions as int),
                    edges: old(self)@.edges + chain(
                        old(self)@.reactions.len() as int,
                        reactions as int,
                    ),
                    ..old(self)@
                })
            },
    {
        let parent = self.current();
        match self.new_id(name) {
            Err(e) => Err(e),
            Ok(_) => {
                let mut path = self.paths[parent.index()].clone();
                path.append("/");
                path.append(name);
                let ghost mid = *self;
                let id = self.add_reactor(Some(parent), reactions, path);
                self.scopes.push(Scope { reactor: id, names: Vec::new() });
                proof {
                    let goal = mid@.scopes.push(
                        ScopeView { reactor: id, names: Seq::<Seq<char>>::empty() },
                    );
                    assert forall|i: int| 0 <= i < self.scopes@.len() implies (
                    #[trigger] scopes_view(self.scopes@)[i]) == goal[i] by {
                        if i < mid.scopes@.len() {
                            assert(self.scopes@[i] == mid.scopes@[i]);
                        } else {
                            assert(self.scopes@[i].names@.map_values(|s: String| s@)
                                =~= Seq::<Seq<char>>::empty());
                        }
                    }
                    assert(scopes_view(self.scopes@) =~= goal);
                    assert forall|i: int| 0 <= i < self.scopes@.len() implies (
                    #[trigger] self.scopes@[i]).reactor.0 < self.parents@.len() by {
                        if i < mid.scopes@.len() {
                            assert(self.scopes@[i] == mid.scopes@[i]);
                        }
                    }
                }
                Ok(id)
            },
        }
    }

    /// Ends the assembly of the current reactor, a sub-reactor: its parent
    /// is the current reactor again.
    pub fn end_subreactor(&mut self)
        requires
            old(self).wf(),
            old(self)@.scopes.len() >= 2,
        ensures
            final(self).wf(),
            final(self)@ == (AssemblerView { scopes: old(self)@.scopes.drop_last(), ..old(self)@ }),
    {
        let _ = self.scopes.pop();
        proof {
            assert(scopes_view(self.scopes@) =~= old(self)@.scopes.drop_last());
        }
    }

    /// The node of a reaction in the precedence graph, if the program has
    /// the reaction.
    pub fn node_of(&self, r: GlobalReactionId) -> (n: Option<u32>)
        requires
            self.wf(),
        ensures
            n == self@.node_of(r),
    {
        let c = r.container().index();
        let k = r.local().raw();
        if c < self.reaction_counts.len() && k < self.reaction_counts[c] {
            proof {
                self.graph.edges_join_nodes();
                assert(self.first_nodes@[c as int] + self.reaction_counts@[c as int]
                    <= self.reactions@.len());
            }
            Some(self.first_nodes[c] + k as u32)
        } else {
            None
        }
    }

    /// The trigger that is present when `port` holds a value.
    pub fn trigger_of(&self, port: PortId) -> (t: TriggerId)
        requires
            self.wf(),
            self@.ports.has_port(port),
        ensures
            t == self@.ports.trigger_spec(port),
            t.0 < self@.triggers(),
            self@.trigger_ports[t.0 as int] == Some(port),
    {
        self.ports.trigger(port)
    }

    /// The records after it was declared that `trigger` sets off the
    /// reaction at `node`: where the trigger belongs to a port, the reaction is
    /// recorded as a reader of the port.
    pub open spec fn with_dependency(&self, trigger: TriggerId, node: u32) -> AssemblerView<T> {
        match self@.trigger_ports[trigger.0 as int] {
            Some(port) => AssemblerView {
                uses: self@.uses.push(PortAccess { node, port }),
                ..self@
            },
            None => AssemblerView {
                deps: self@.deps.push(Dependency { trigger, node }),
                ..self@
            },
        }
    }

    /// Records that `trigger` sets off `reaction`. For the trigger of a
    /// port this is `reaction_uses`.
    pub fn declare_triggers(&mut self, trigger: TriggerId, reaction: GlobalReactionId)
        requires
            old(self).wf(),
            trigger.0 < old(self)@.triggers(),
            old(self)@.node_of(reaction) is Some,
        ensures
            final(self).wf(),
            final(self)@ == old(self).with_dependency(
                trigger,
                old(self)@.node_of(reaction).unwrap(),
            ),
    {
        proof {
            self.view_properties();
        }
        let node = self.node_of(reaction).unwrap();
        match self.trigger_ports[trigger.index()] {
            Some(port) => {
                self.uses.push(PortAccess { node, port });
            },
            None => {
                self.deps.push(Dependency { trigger, node });
            },
        }
    }

    /// Records that `action` sets off `reaction_id`.
    pub fn action_triggers(&mut self, action: ActionId, reaction_id: GlobalReactionId)
        requires
            old(self).wf(),
            action.trigger.0 < old(self)@.triggers(),
            old(self)@.node_of(reaction_id) is Some,
        ensures
            final(self).wf(),
            final(self)@ == old(self).with_dependency(
                action.trigger,
                old(self)@.node_of(reaction_id).unwrap(),
            ),
    {
        self.declare_triggers(action.trigger, reaction_id);
    }

    /// Records that `reaction_id` may schedule `action`. This orders no
    /// reactions: the action fires at a later tag.
    pub fn reaction_schedules(&mut self, reaction_id: GlobalReactionId, action: ActionId)
        requires
            old(self).wf(),
            old(self)@.node_of(reaction_id) is Some,
        ensures
            final(self).wf(),
            final(self)@ == (AssemblerView {
                schedules: old(self)@.schedules.push(
                    (old(self)@.node_of(reaction_id).unwrap(), action.trigger),
                ),
                ..old(self)@
            }),
    {
        let node = self.node_of(reaction_id).unwrap();
        self.schedules.push((node, action.trigger));
    }

    /// Records that `reaction_id` reads `port` and is set off when the
    /// port receives a value.
    pub fn reaction_uses(&mut self, reaction_id: GlobalReactionId, port: &PortId)
        requires
            old(self).wf(),
            old(self)@.node_of(reaction_id) is Some,
            old(self)@.ports.has_port(*port),
        ensures
            final(self).wf(),
            final(self)@ == (AssemblerView {
                uses: old(self)@.uses.push(
                    PortAccess { node: old(self)@.node_of(reaction_id).unwrap(), port: *port },
                ),
                ..old(self)@
            }),
    {
        proof {
            self.view_properties();
        }
        let node = self.node_of(reaction_id).unwrap();
        self.uses.push(PortAccess { node, port: *port });
    }

    /// Records that `reaction_id` may write to `port`. Refused with
    /// `CannotSet` where the port is bound to an upstream port.
    pub fn reaction_affects(&mut self, reaction_id: GlobalReactionId, port: &PortId) -> (r: Result<
        (),
        AssemblyError,
    >)
        requires
            old(self).wf(),
            old(self)@.node_of(reaction_id) is Some,
            old(self)@.ports.has_port(*port),
        ensures
            final(self).wf(),
            r is Err <==> old(self)@.ports.bindings()[port.0 as int] is Some,
            r is Err ==> r == Err::<(), AssemblyError>(AssemblyError::CannotSet(*port)),
            r is Err ==> *final(self) == *old(self),
            r is Ok ==> final(self)@ == (AssemblerView {
                affects: old(self)@.affects.push(
                    PortAccess { node: old(self)@.node_of(reaction_id).unwrap(), port: *port },
                ),
                ..old(self)@
            }),
    {
        proof {
            self.view_properties();
        }
        if self.ports.upstream_of(*port).is_some() {
            return Err(AssemblyError::CannotSet(*port));
        }
        let node = self.node_of(reaction_id).unwrap();
        self.affects.push(PortAccess { node, port: *port });
        Ok(())
    }

    /// Whether `child` is a direct sub-reactor of `r`.
    fn is_child(&self, child: ReactorId, r: ReactorId) -> (b: bool)
        requires
            self.wf(),
        ensures
            b == self@.is_child(child, r),
    {
        let c = child.index();
        if c < self.parents.len() {
            match self.parents[c] {
                Some(p) => p == r,
                None => false,
            }
        } else {
            false
        }
    }

    /// Whether the current reactor may connect `up` to `down`.
    fn connection_allowed(&self, up: PortId, down: PortId) -> (b: bool)
        requires
            self.wf(),
            self@.ports.has_port(up),
            self@.ports.has_port(down),
        ensures
            b == self@.connection_allowed(up, down),
    {
        let this = self.current();
        let up_owner = self.ports.owner(up);
        let down_owner = self.ports.owner(down);
        let up_is_own_input = self.ports.kind(up) == PortKind::Input && up_owner == this;
        let up_is_child_output = self.ports.kind(up) == PortKind::Output && self.is_child(
            up_owner,
            this,
        );
        let down_is_own_output = self.ports.kind(down) == PortKind::Output && down_owner == this;
        let down_is_child_input = self.ports.kind(down) == PortKind::Input && self.is_child(
            down_owner,
            this,
        );
        (up_is_own_input && down_is_child_input) || (up_is_own_input && down_is_own_output) || (
        up_is_child_output && down_is_child_input && up_owner != down_owner) || (up_is_child_output
            && down_is_own_output)
    }

    /// Whether some reaction writes to `p`.
    fn is_written(&self, p: PortId) -> (b: bool)
        requires
            self.wf(),
        ensures
            b == self@.is_written(p),
    {
        let mut i: usize = 0;
        while i < self.affects.len()
            invariant
                i <= self.affects@.len(),
                forall|k: int| 0 <= k < i ==> (#[trigger] self.affects@[k]).port != p,
            decreases self.affects@.len() - i,
        {
            if self.affects[i].port == p {
                assert(self@.affects[i as int].port == p);
                return true;
            }
            i = i + 1;
        }
        false
    }

    /// Binds `downstream` to `upstream`: every value written to `upstream`
    /// shows in `downstream`, which no reaction can write to from then on.
    ///
    /// The current reactor may connect an input of its own or an output of a
    /// child to an output of its own or an input of a child, but not a child
    /// to itself. Refused with `CannotBind` where that is not so, where a
    /// reaction writes to `downstream`, or where `downstream` is already
    /// bound; with `CyclicDependency` where `upstream` is downstream of
    /// `downstream`.
    pub fn bind_ports(&mut self, upstream: &PortId, downstream: &PortId) -> (r: Result<
        (),
        AssemblyError,
    >)
        requires
            old(self).wf(),
            old(self)@.ports.has_port(*upstream),
            old(self)@.ports.has_port(*downstream),
        ensures
            final(self).wf(),
            r == old(self)@.bind_outcome(*upstream, *downstream),
            r is Err ==> *final(self) == *old(self),
            r is Ok ==> {
                &&& old(self)@.ports.bound_to(&final(self)@.ports, *upstream, *downstream)
                &&& final(self)@ == (AssemblerView { ports: final(self)@.ports, ..old(self)@ })
            },
    {
        let up = *upstream;
        let down = *downstream;
        if !self.connection_allowed(up, down) || self.is_written(down) {
            return Err(AssemblyError::CannotBind(up, down));
        }
        let ghost before = *self;
        match self.ports.bind(up, down) {
            Err(e) => Err(e),
            Ok(()) => {
                proof {
                    assert forall|i: int| 0 <= i < self.affects@.len() implies (
                    #[trigger] self.affects@[i]).node < self.reactions@.len()
                        && self.ports.has_port(self.affects@[i].port)
                        && self.ports.bindings()[self.affects@[i].port.0 as int] is None by {
                        assert(before.affects@[i].port != down);
                    }
                    assert forall|p: PortId| self.ports.has_port(p) implies (
                    #[trigger] self.ports.trigger_spec(p)).0 < self.trigger_ports@.len()
                        && self.trigger_ports@[self.ports.trigger_spec(p).0 as int] == Some(p) by {
                        assert(before.ports.has_port(p));
                        assert(before.ports.trigger_spec(p).0 < before.trigger_ports@.len());
                    }
                    assert forall|t: int| 0 <= t < self.trigger_ports@.len() implies (
                    #[trigger] self.trigger_ports@[t] matches Some(p) ==> self.ports.has_port(p)
                        && self.ports.trigger_spec(p).0 == t) by {
                        if before.trigger_ports@[t] is Some {
                            assert(before.ports.has_port(before.trigger_ports@[t].unwrap()));
                        }
                    }
                }
                Ok(())
            },
        }
    }

    /// Binds each of `downstream` to the port of `upstream` at the same
    /// place, in turn, as `bind_ports` does, up to the end of the shorter of
    /// the two. Stops at the first binding that is refused, and answers with
    /// its error; the bindings made before it stay.
    pub fn bind_ports_zip(&mut self, upstream: &Vec<PortId>, downstream: &Vec<PortId>) -> (r:
        Result<(), AssemblyError>)
        requires
            old(self).wf(),
            old(self)@.pairs_exist(upstream@, downstream@),
        ensures
            final(self).wf(),
            exists|states: Seq<AssemblerView<T>>, k: int|
                {
                    &&& 0 <= k <= upstream@.len()
                    &&& k <= downstream@.len()
                    &&& #[trigger] old(self)@.bound_in_turn(states, upstream@, downstream@, k)
                    &&& states[k] == final(self)@
                    &&& match r {
                        Ok(()) => k == upstream@.len() || k == downstream@.len(),
                        Err(e) => k < upstream@.len() && k < downstream@.len()
                            && states[k].bind_outcome(upstream@[k], downstream@[k]) == Err::<
                            (),
                            AssemblyError,
                        >(e),
                    }
                },
    {
        let n = if upstream.len() <= downstream.len() {
            upstream.len()
        } else {
            downstream.len()
        };
        let ghost mut states: Seq<AssemblerView<T>> = seq![self@];
        let mut k: usize = 0;
        while k < n
            invariant
                k <= n,
                n <= upstream@.len(),
                n <= downstream@.len(),
                n == upstream@.len() || n == downstream@.len(),
                self.wf(),
                self@.ports.len_spec() == old(self)@.ports.len_spec(),
                old(self)@.pairs_exist(upstream@, downstream@),
                old(self)@.bound_in_turn(states, upstream@, downstream@, k as int),
                states[k as int] == self@,
            decreases n - k,
        {
            let up = upstream[k];
            let down = downstream[k];
            let ghost before = self@;
            match self.bind_ports(&up, &down) {
                Err(e) => {
                    return Err(e);
                },
                Ok(()) => {
                    proof {
                        let longer = states.push(self@);
                        assert forall|i: int| 0 <= i < k + 1 implies (#[trigger] longer[i]).bound(
                            longer[i + 1],
                            upstream@[i],
                            downstream@[i],
                        ) by {
                            if i < k {
                                assert(longer[i] == states[i]);
                                assert(longer[i + 1] == states[i + 1]);
                                assert(states[i].bound(states[i + 1], upstream@[i], downstream@[i]));
                            } else {
                                assert(longer[i] == before);
                            }
                        }
                        states = longer;
                    }
                },
            }
            k = k + 1;
        }
        Ok(())
    }

    /// Whether the precedences through ports can be recorded: edges are
    /// not used up.
    pub open spec fn has_room_for_links(&self) -> bool {
        self@.edges.len() + self@.affects.len() * self@.uses.len() < u32::MAX
    }

    /// Records a precedence from every reaction that writes to a port to
    /// every reaction that the port sets off.
    fn link_reactions(&mut self)
        requires
            old(self).wf(),
            old(self).has_room_for_links(),
        ensures
            final(self).wf(),
            old(self)@.is_precedence_graph(final(self)@.edges),
            final(self)@ == (AssemblerView { edges: final(self)@.edges, ..old(self)@ }),
    {
        let ghost v = self@;
        let ghost edges0 = self.graph.edges_spec();
        let na = self.affects.len();
        let nu = self.uses.len();
        let mut i: usize = 0;
        while i < na
            invariant
                i <= na,
                na == v.affects.len(),
                nu == v.uses.len(),
                self.wf(),
                self@ == (AssemblerView { edges: self@.edges, ..v }),
                v.edges == edges0,
                edges0.len() + na * nu < u32::MAX,
                self@.edges.len() <= edges0.len() + i * nu,
                edges0.is_prefix_of(self@.edges),
                forall|e: int|
                    edges0.len() <= e < self@.edges.len() ==> v.from_link(#[trigger] self@.edges[e]),
                forall|a: int, b: int| #[trigger]
                    v.linked(a, b) && a < i ==> self@.edges.contains(
                        (v.affects[a].node, v.uses[b].node),
                    ),
            decreases na - i,
        {
            let from = self.affects[i];
            let mut j: usize = 0;
            proof {
                self.view_properties();
            }
            let root = self.ports.root(from.port);
            while j < nu
                invariant
                    i < na,
                    j <= nu,
                    na == v.affects.len(),
                    nu == v.uses.len(),
                    self.wf(),
                    self@ == (AssemblerView { edges: self@.edges, ..v }),
                    v.edges == edges0,
                    from == v.affects[i as int],
                    root == v.ports.root_spec(from.port),
                    edges0.len() + na * nu < u32::MAX,
                    self@.edges.len() <= edges0.len() + i * nu + j,
                    edges0.is_prefix_of(self@.edges),
                    forall|e: int|
                        edges0.len() <= e < self@.edges.len() ==> v.from_link(
                            #[trigger] self@.edges[e],
                        ),
                    forall|a: int, b: int| #[trigger]
                        v.linked(a, b) && (a < i || (a == i && b < j)) ==> self@.edges.contains(
                            (v.affects[a].node, v.uses[b].node),
                        ),
                decreases nu - j,
            {
                let to = self.uses[j];
                proof {
                    self.view_properties();
                    assert(i * nu + j < na * nu) by (nonlinear_arith)
                        requires
                            i < na,
                            j < nu,
                    ;
                }
                if self.ports.root(to.port) == root {
                    let ghost before = self@.edges;
                    self.graph.add_edge(from.node, to.node);
                    proof {
                        let after = self@.edges;
                        assert(after == before.push((from.node, to.node)));
                        assert(v.linked(i as int, j as int));
                        assert(v.from_link((from.node, to.node)));
                        assert forall|e: int| edges0.len() <= e < after.len() implies v.from_link(
                            #[trigger] after[e],
                        ) by {
                            if e < before.len() {
                                assert(after[e] == before[e]);
                            }
                        }
                        assert forall|a: int, b: int| #[trigger]
                            v.linked(a, b) && (a < i || (a == i && b < j + 1)) implies after.contains(
                            (v.affects[a].node, v.uses[b].node),
                        ) by {
                            let x = (v.affects[a].node, v.uses[b].node);
                            if a == i && b == j {
                                assert(after[before.len() as int] == x);
                            } else {
                                assert(before.contains(x));
                                let w = choose|w: int| 0 <= w < before.len() && before[w] == x;
                                assert(after[w] == x);
                            }
                        }
                    }
                }
                j = j + 1;
            }
            proof {
                assert(i * nu + nu == (i + 1) * nu) by (nonlinear_arith);
            }
            i = i + 1;
        }
    }

    /// The dependencies of reactions on ports, each on the trigger of the
    /// port's root, after those that were declared.
    fn resolve_dependencies(&self) -> (all: Vec<Dependency>)
        requires
            self.wf(),
        ensures
            all@ == self@.all_deps(),
            dependencies_in_range(all@, self@.triggers(), self@.reactions.len()),
    {
        let mut all: Vec<Dependency> = Vec::new();
        let mut k: usize = 0;
        while k < self.deps.len()
            invariant
                k <= self.deps@.len(),
                all@ == self.deps@.subrange(0, k as int),
            decreases self.deps@.len() - k,
        {
            all.push(self.deps[k]);
            proof {
                assert(all@ =~= self.deps@.subrange(0, k + 1));
            }
            k = k + 1;
        }
        assert(all@ =~= self.deps@);
        let mut j: usize = 0;
        while j < self.uses.len()
            invariant
                j <= self.uses@.len(),
                self.wf(),
                all@ == self.deps@ + Seq::new(
                    j as nat,
                    |j: int|
                        Dependency {
                            trigger: self.ports.trigger_spec(
                                self.ports.root_spec(self.uses@[j].port),
                            ),
                            node: self.uses@[j].node,
                        },
                ),
                dependencies_in_range(all@, self.trigger_ports@.len(), self.reactions@.len()),
            decreases self.uses@.len() - j,
        {
            let u = self.uses[j];
            let root = self.ports.root(u.port);
            let trigger = self.ports.trigger(root);
            let ghost before = all@;
            all.push(Dependency { trigger, node: u.node });
            proof {
                assert(all@ =~= self.deps@ + Seq::new(
                    (j + 1) as nat,
                    |j: int|
                        Dependency {
                            trigger: self.ports.trigger_spec(
                                self.ports.root_spec(self.uses@[j].port),
                            ),
                            node: self.uses@[j].node,
                        },
                ));
                assert forall|i: int| 0 <= i < all@.len() implies (#[trigger] all@[i]).trigger.0
                    < self.trigger_ports@.len() && all@[i].node < self.reactions@.len() by {
                    if i < before.len() {
                        assert(all@[i] == before[i]);
                    }
                }
            }
            j = j + 1;
        }
        all
    }

    /// The writes to ports that were declared, by reaction.
    fn declared_effects(&self) -> (all: Vec<Effect>)
        requires
            self.wf(),
        ensures
            all@ == self@.effects(),
    {
        let mut all: Vec<Effect> = Vec::new();
        let mut i: usize = 0;
        while i < self.affects.len()
            invariant
                i <= self.affects@.len(),
                self.wf(),
                all@ == self@.effects().subrange(0, i as int),
            decreases self.affects@.len() - i,
        {
            let a = self.affects[i];
            all.push(Effect { reaction: self.reactions[a.node as usize], port: a.port });
            proof {
                assert(all@ =~= self@.effects().subrange(0, i + 1));
            }
            i = i + 1;
        }
        assert(all@ =~= self@.effects());
        all
    }

    /// A reaction that writes to a port stands below every reaction that
    /// the port sets off.
    proof fn lemma_writes_climb(
        &self,
        v: AssemblerView<T>,
        levels: Seq<u32>,
        i: int,
        l: int,
        r: GlobalReactionId,
    )
        requires
            self.wf(),
            self@ == (AssemblerView { edges: self@.edges, ..v }),
            v.is_precedence_graph(self@.edges),
            respects_edges(levels, self@.edges),
            0 <= i < v.affects.len(),
            crate::dataflow::set_off_by(
                v.all_deps(),
                v.reactions,
                levels,
                v.all_deps().len() as int,
                v.ports.trigger_spec(v.affects[i].port).0 as int,
            ).contains((l, r)),
        ensures
            levels[v.affects[i].node as int] < l,
    {
        let all = v.all_deps();
        let p = v.affects[i].port;
        let t = v.ports.trigger_spec(p).0 as int;
        let k = choose|k: int|
            k < all.len() && crate::dataflow::sets_off(all, v.reactions, levels, k, t, l, r);
        assert(self.ports.has_port(p));
        assert(self.trigger_ports@[t] == Some(p));
        if k < v.deps.len() {
            assert(all[k] == self.deps@[k]);
            assert(self.trigger_ports@[self.deps@[k].trigger.0 as int] is None);
        } else {
            let j = k - v.deps.len();
            let q = v.uses[j].port;
            assert(self.ports.has_port(q));
            self.ports.root_properties(q);
            self.ports.root_properties(p);
            let root = self.ports.root_spec(q);
            assert(all[k].trigger == self.ports.trigger_spec(root));
            assert(self.trigger_ports@[self.ports.trigger_spec(root).0 as int] == Some(root));
            assert(root == p);
            assert(v.linked(i, j));
            let edge = (v.affects[i].node, v.uses[j].node);
            assert(self@.edges.contains(edge));
            let e = choose|e: int| 0 <= e < self@.edges.len() && self@.edges[e] == edge;
            assert(levels[self@.edges[e].0 as int] < levels[self@.edges[e].1 as int]);
        }
    }

    /// Finishes the assembly: draws the precedence graph of the reactions,
    /// gives every reaction its level, and lists for every trigger the
    /// reactions that it sets off. In the program that results, a reaction
    /// that writes to a port stands at a lower level than every reaction that
    /// the port sets off.
    ///
    /// Fails where the precedences form a cycle, and names a reaction's node
    /// on such a cycle.
    pub fn make_world(self) -> (r: Result<World<T>, GraphCycle>)
        requires
            self.wf(),
            self.has_room_for_links(),
        ensures
            exists|edges: Seq<(u32, u32)>|
                {
                    &&& #[trigger] self@.is_precedence_graph(edges)
                    &&& r is Ok <==> acyclic(edges)
                    &&& match r {
                        Ok(world) => {
                            &&& world.wf()
                            &&& world.ports == self@.ports
                            &&& world.paths_spec() == self@.paths
                            &&& world.dataflow.reactions_spec() == self@.reactions
                            &&& world.dataflow.trigger_count_spec() == self@.triggers()
                            &&& world.dataflow.effects_spec() == self@.effects()
                            &&& forall|i: int, l: int, r: GlobalReactionId|
                                0 <= i < self@.affects.len()
                                    && #[trigger] world.dataflow.triggered_spec(
                                    self@.ports.trigger_spec(self@.affects[i].port),
                                ).contains((l, r)) ==> world.dataflow.levels_spec()[self@.affects[i].node as int]
                                    < l
                            &&& is_level_assignment(
                                world.dataflow.levels_spec(),
                                self@.reactions.len(),
                                edges,
                            )
                            &&& forall|t: TriggerId|
                                t.0 < self@.triggers() ==> #[trigger] world.dataflow.triggered_spec(t)
                                    == crate::dataflow::set_off_by(
                                    self@.all_deps(),
                                    self@.reactions,
                                    world.dataflow.levels_spec(),
                                    self@.all_deps().len() as int,
                                    t.0 as int,
                                )
                        },
                        Err(c) => c.node < self@.reactions.len() && on_cycle(edges, c.node),
                    }
                },
    {
        let mut this = self;
        this.link_reactions();
        let deps = this.resolve_dependencies();
        let effects = this.declared_effects();
        let ghost edges = this@.edges;
        let ghost linked = this;
        let Assembler { graph, reactions, ports, trigger_ports, paths, .. } = this;
        match DataflowInfo::new(&graph, reactions, &deps, trigger_ports.len() as u32, effects) {
            Ok(dataflow) => {
                proof {
                    self.view_properties();
                    assert forall|i: int, l: int, r: GlobalReactionId|
                        0 <= i < self@.affects.len() && #[trigger] dataflow.triggered_spec(
                            self@.ports.trigger_spec(self@.affects[i].port),
                        ).contains((l, r)) implies dataflow.levels_spec()[self@.affects[i].node as int]
                        < l by {
                        let p = self@.affects[i].port;
                        assert(self.ports.has_port(p));
                        assert(self.ports.trigger_spec(p).0 < self@.triggers());
                        linked.lemma_writes_climb(self@, dataflow.levels_spec(), i, l, r);
                    }
                }
                let world = World { ports, dataflow, paths };
                assert(self@.is_precedence_graph(edges));
                Ok(world)
            },
            Err(c) => {
                assert(self@.is_precedence_graph(edges));
                Err(c)
            },
        }
    }
}

/// The output of the assembly of a reactor: the reactor, the id that it
/// was given, and its state.
pub struct RunnableReactor<R, S> {
    me: R,
    global_id: ReactorId,
    state: S,
}

impl<R, S> RunnableReactor<R, S> {
    pub closed spec fn reactor_spec(&self) -> R {
        self.me
    }

    pub closed spec fn global_id_spec(&self) -> ReactorId {
        self.global_id
    }

    pub closed spec fn state_spec(&self) -> S {
        self.state
    }

    /// Wraps an assembled reactor with its id and its initial state.
    pub fn new(reactor: R, global_id: ReactorId, initial_state: S) -> (r: RunnableReactor<R, S>)
        ensures
            r.reactor_spec() == reactor,
            r.global_id_spec() == global_id,
            r.state_spec() == initial_state,
    {
        RunnableReactor { me: reactor, global_id, state: initial_state }
    }

    /// The state of the reactor.
    pub fn state(&self) -> (s: &S)
        ensures
            *s == self.state_spec(),
    {
        &self.state
    }

    /// Replaces the state of the reactor.
    pub fn set_state(&mut self, state: S)
        ensures
            final(self).state_spec() == state,
            final(self).reactor_spec() == old(self).reactor_spec(),
            final(self).global_id_spec() == old(self).global_id_spec(),
    {
        self.state = state;
    }

    /// The reactor itself.
    pub fn reactor(&self) -> (r: &R)
        ensures
            *r == self.reactor_spec(),
    {
        &self.me
    }

    /// The id of the reactor in the program.
    pub fn global_id(&self) -> (id: ReactorId)
        ensures
            id == self.global_id_spec(),
    {
        self.global_id
    }
}

} // verus!
