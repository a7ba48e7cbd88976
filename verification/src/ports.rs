//! Ports: value cells that live for one tag, and their bindings.
//!
//! A port may be bound to an upstream port and then shows the upstream's
//! value. Bindings form a forest: a port has at most one upstream, and no
//! port is upstream of itself. The port at the top of a chain of bindings is
//! the root of every port of the chain; values are written to roots only.

use vstd::prelude::*;
use crate::error::AssemblyError;
use crate::ids::{ReactorId, TriggerId};

verus! {

/// Whether a port brings values into its reactor or out of it.
#[derive(Clone, Copy, Debug, PartialEq, Eq, Structural)]
pub enum PortKind {
    Input,
    Output,
}

/// Identifies a port: its position in the pool of ports.
#[derive(Clone, Copy, Debug, PartialEq, Eq, Structural)]
pub struct PortId(pub u32);

impl PortId {
    pub fn index(&self) -> (i: usize)
        ensures
            i == self.0,
    {
        self.0 as usize
    }
}

/// The upstream of each port, by position.
pub type Bindings = Seq<Option<PortId>>;

/// Every upstream is a port of the pool.
pub open spec fn links_in_range(up: Bindings) -> bool {
    forall|p: int| 0 <= p < up.len() ==> (#[trigger] up[p] matches Some(u) ==> u.0 < up.len())
}

/// Following `steps` bindings upstream from `p` leads to `q`.
pub open spec fn reaches(up: Bindings, p: int, q: int, steps: nat) -> bool
    decreases steps,
{
    if steps == 0 {
        p == q
    } else {
        0 <= p < up.len() && match up[p] {
            Some(u) => reaches(up, u.0 as int, q, (steps - 1) as nat),
            None => false,
        }
    }
}

/// `r` is the root of `p`: an unbound port that `p`'s chain of bindings
/// leads to.
pub open spec fn is_root_of(up: Bindings, p: int, r: int) -> bool {
    &&& 0 <= r < up.len()
    &&& up[r] is None
    &&& exists|steps: nat| reaches(up, p, r, steps)
}

/// Two chains that start at the same port and end at unbound ports end at
/// the same port.
pub proof fn chain_end_unique(up: Bindings, p: int, r1: int, n1: nat, r2: int, n2: nat)
    requires
        reaches(up, p, r1, n1),
        reaches(up, p, r2, n2),
        0 <= r1 < up.len() && up[r1] is None,
        0 <= r2 < up.len() && up[r2] is None,
    ensures
        r1 == r2,
        n1 == n2,
    decreases n1,
{
    if n1 == 0 {
        if n2 != 0 {
            assert(up[p] is Some);
        }
    } else {
        if n2 == 0 {
            assert(up[p] is Some);
        } else {
            chain_end_unique(up, up[p].unwrap().0 as int, r1, (n1 - 1) as nat, r2, (n2 - 1) as nat);
        }
    }
}

/// A port has at most one root.
pub proof fn root_unique(up: Bindings, p: int, r1: int, r2: int)
    requires
        is_root_of(up, p, r1),
        is_root_of(up, p, r2),
    ensures
        r1 == r2,
{
    let n1 = choose|n: nat| reaches(up, p, r1, n);
    let n2 = choose|n: nat| reaches(up, p, r2, n);
    chain_end_unique(up, p, r1, n1, r2, n2);
}

/// Chains compose.
proof fn reaches_compose(up: Bindings, p: int, q: int, r: int, a: nat, b: nat)
    requires
        reaches(up, p, q, a),
        reaches(up, q, r, b),
    ensures
        reaches(up, p, r, a + b),
    decreases a,
{
    if a > 0 {
        reaches_compose(up, up[p].unwrap().0 as int, q, r, (a - 1) as nat, b);
    }
}

/// A chain is untouched by a new binding of an unbound port that is not
/// strictly inside it.
proof fn reaches_after_bind(up: Bindings, d: int, u: PortId, p: int, q: int, steps: nat)
    requires
        0 <= d < up.len(),
        up[d] is None,
        reaches(up, p, q, steps),
    ensures
        reaches(up.update(d, Some(u)), p, q, steps),
    decreases steps,
{
    if steps > 0 {
        assert(p != d);
        reaches_after_bind(up, d, u, up[p].unwrap().0 as int, q, (steps - 1) as nat);
    }
}

/// The ports of a program, their bindings, and the values written in the
/// current tag.
pub struct PortPool<T> {
    kinds: Vec<PortKind>,
    owners: Vec<ReactorId>,
    triggers: Vec<TriggerId>,
    upstream: Vec<Option<PortId>>,
    roots: Vec<PortId>,
    values: Vec<Option<T>>,
    depth: Ghost<Seq<nat>>,
}

impl<T: Copy> PortPool<T> {
    /// The number of ports.
    pub open spec fn len_spec(&self) -> nat {
        self.bindings().len()
    }

    /// The upstream of each port.
    pub closed spec fn bindings(&self) -> Bindings {
        self.upstream@
    }

    /// The value written to each port in the current tag.
    pub closed spec fn written(&self) -> Seq<Option<T>> {
        self.values@
    }

    /// The root that the pool records for a port.
    pub closed spec fn root_spec(&self, p: PortId) -> PortId {
        self.roots@[p.0 as int]
    }

    pub closed spec fn kind_spec(&self, p: PortId) -> PortKind {
        self.kinds@[p.0 as int]
    }

    pub closed spec fn owner_spec(&self, p: PortId) -> ReactorId {
        self.owners@[p.0 as int]
    }

    /// The trigger that is present when the port holds a value.
    pub closed spec fn trigger_spec(&self, p: PortId) -> TriggerId {
        self.triggers@[p.0 as int]
    }

    /// Whether `p` is a port of this pool.
    pub open spec fn has_port(&self, p: PortId) -> bool {
        p.0 < self.len_spec()
    }

    /// What a reader of `p` sees: the value written to the root of `p`.
    pub open spec fn read_spec(&self, p: PortId) -> Option<T> {
        self.written()[self.root_spec(p).0 as int]
    }

    /// The bindings form a forest, and the recorded roots are the roots.
    pub closed spec fn wf(&self) -> bool {
        let n = self.upstream@.len();
        &&& n <= u32::MAX
        &&& self.kinds@.len() == n
        &&& self.owners@.len() == n
        &&& self.triggers@.len() == n
        &&& self.roots@.len() == n
        &&& self.values@.len() == n
        &&& self.depth@.len() == n
        &&& links_in_range(self.upstream@)
        &&& forall|p: int|
            0 <= p < n ==> {
                &&& (#[trigger] self.roots@[p]).0 < n
                &&& self.upstream@[self.roots@[p].0 as int] is None
                &&& reaches(self.upstream@, p, self.roots@[p].0 as int, self.depth@[p])
            }
    }

    /// The recorded root of a port is its root, and the sequences that
    /// describe the pool have one entry per port.
    pub proof fn root_properties(&self, p: PortId)
        requires
            self.wf(),
            self.has_port(p),
        ensures
            self.has_port(self.root_spec(p)),
            is_root_of(self.bindings(), p.0 as int, self.root_spec(p).0 as int),
            self.bindings()[p.0 as int] is None ==> self.root_spec(p) == p,
            self.bindings()[p.0 as int] matches Some(u) ==> self.has_port(u) && self.root_spec(p)
                == self.root_spec(u),
            self.root_spec(self.root_spec(p)) == self.root_spec(p),
            self.bindings().len() == self.len_spec(),
            self.written().len() == self.len_spec(),
            self.len_spec() <= u32::MAX,
    {
        let up = self.upstream@;
        let i = p.0 as int;
        let r = self.roots@[i].0 as int;
        assert(reaches(up, i, r, self.depth@[i]));
        if up[i] is None {
            chain_end_unique(up, i, r, self.depth@[i], i, 0);
        } else {
            let u = up[i].unwrap();
            let ru = self.roots@[u.0 as int].0 as int;
            assert(reaches(up, u.0 as int, ru, self.depth@[u.0 as int]));
            assert(reaches(up, i, ru, self.depth@[u.0 as int] + 1));
            chain_end_unique(up, i, r, self.depth@[i], ru, self.depth@[u.0 as int] + 1);
        }
        let rr = self.roots@[r].0 as int;
        assert(reaches(up, r, rr, self.depth@[r]));
        chain_end_unique(up, r, rr, self.depth@[r], r, 0);
    }

    /// A pool without ports.
    pub fn new() -> (pool: PortPool<T>)
        ensures
            pool.wf(),
            pool.bindings() == Seq::<Option<PortId>>::empty(),
            pool.written() == Seq::<Option<T>>::empty(),
    {
        PortPool {
            kinds: Vec::new(),
            owners: Vec::new(),
            triggers: Vec::new(),
            upstream: Vec::new(),
            roots: Vec::new(),
            values: Vec::new(),
            depth: Ghost(Seq::empty()),
        }
    }

    pub fn len(&self) -> (n: usize)
        ensures
            n == self.len_spec(),
    {
        self.upstream.len()
    }

    /// The pool `next` is this pool with one more port, `id`, unbound and
    /// without a value.
    pub open spec fn grown_by(
        &self,
        next: &PortPool<T>,
        id: PortId,
        kind: PortKind,
        owner: ReactorId,
        trigger: TriggerId,
    ) -> bool {
        &&& id.0 == self.len_spec()
        &&& next.bindings() == self.bindings().push(None)
        &&& next.written() == self.written().push(None)
        &&& next.kind_spec(id) == kind
        &&& next.owner_spec(id) == owner
        &&& next.trigger_spec(id) == trigger
        &&& next.root_spec(id) == id
        &&& forall|p: PortId| self.has_port(p) ==> #[trigger] next.root_spec(p) == self.root_spec(p)
        &&& forall|p: PortId| self.has_port(p) ==> #[trigger] next.kind_spec(p) == self.kind_spec(p)
        &&& forall|p: PortId|
            self.has_port(p) ==> #[trigger] next.owner_spec(p) == self.owner_spec(p)
        &&& forall|p: PortId|
            self.has_port(p) ==> #[trigger] next.trigger_spec(p) == self.trigger_spec(p)
    }

    /// Adds an unbound port without a value.
    pub fn add_port(&mut self, kind: PortKind, owner: ReactorId, trigger: TriggerId) -> (id:
        PortId)
        requires
            old(self).wf(),
            old(self).len_spec() < u32::MAX,
        ensures
            final(self).wf(),
            old(self).grown_by(final(self), id, kind, owner, trigger),
    {
        let ghost before = *self;
        let id = PortId(self.upstream.len() as u32);
        self.kinds.push(kind);
        self.owners.push(owner);
        self.triggers.push(trigger);
        self.upstream.push(None);
        self.roots.push(id);
        self.values.push(None);
        proof {
            self.depth@ = self.depth@.push(0);
            let n = before.upstream@.len() as int;
            assert forall|p: int| 0 <= p < n + 1 implies {
                &&& (#[trigger] self.roots@[p]).0 < n + 1
                &&& self.upstream@[self.roots@[p].0 as int] is None
                &&& reaches(self.upstream@, p, self.roots@[p].0 as int, self.depth@[p])
            } by {
                if p < n {
                    assert(self.roots@[p] == before.roots@[p]);
                    lemma_reaches_after_push(
                        before.upstream@,
                        p,
                        before.roots@[p].0 as int,
                        before.depth@[p],
                    );
                }
            }
            assert forall|p: int| 0 <= p < self.upstream@.len() implies (
            #[trigger] self.upstream@[p] matches Some(u) ==> u.0 < self.upstream@.len()) by {
                if p < n {
                    assert(self.upstream@[p] == before.upstream@[p]);
                }
            }
        }
        id
    }

    pub fn kind(&self, p: PortId) -> (k: PortKind)
        requires
            self.wf(),
            self.has_port(p),
        ensures
            k == self.kind_spec(p),
    {
        self.kinds[p.index()]
    }

    /// The reactor that the port belongs to.
    pub fn owner(&self, p: PortId) -> (r: ReactorId)
        requires
            self.wf(),
            self.has_port(p),
        ensures
            r == self.owner_spec(p),
    {
        self.owners[p.index()]
    }

    /// The trigger that is present when the port holds a value.
    pub fn trigger(&self, p: PortId) -> (t: TriggerId)
        requires
            self.wf(),
            self.has_port(p),
        ensures
            t == self.trigger_spec(p),
    {
        self.triggers[p.index()]
    }

    /// The port that `p` is bound to, if any.
    pub fn upstream_of(&self, p: PortId) -> (u: Option<PortId>)
        requires
            self.wf(),
            self.has_port(p),
        ensures
            u == self.bindings()[p.0 as int],
    {
        self.upstream[p.index()]
    }

    /// The root of `p`: the unbound port whose value `p` shows.
    pub fn root(&self, p: PortId) -> (r: PortId)
        requires
            self.wf(),
            self.has_port(p),
        ensures
            r == self.root_spec(p),
            self.has_port(r),
            is_root_of(self.bindings(), p.0 as int, r.0 as int),
    {
        proof {
            self.root_properties(p);
        }
        self.roots[p.index()]
    }

    /// A pool has the ports and bindings that it has.
    pub proof fn same_bindings_reflexive(&self)
        ensures
            self.same_bindings(self),
    {
    }

    /// Having the same ports and bindings carries over.
    pub proof fn same_bindings_transitive(&self, b: &PortPool<T>, c: &PortPool<T>)
        requires
            self.same_bindings(b),
            b.same_bindings(c),
        ensures
            self.same_bindings(c),
    {
        assert forall|p: PortId| self.has_port(p) implies #[trigger] c.kind_spec(p)
            == self.kind_spec(p) by {
            assert(b.kind_spec(p) == self.kind_spec(p));
        }
        assert forall|p: PortId| self.has_port(p) implies #[trigger] c.owner_spec(p)
            == self.owner_spec(p) by {
            assert(b.owner_spec(p) == self.owner_spec(p));
        }
        assert forall|p: PortId| self.has_port(p) implies #[trigger] c.trigger_spec(p)
            == self.trigger_spec(p) by {
            assert(b.trigger_spec(p) == self.trigger_spec(p));
        }
        assert forall|p: PortId| self.has_port(p) implies #[trigger] c.root_spec(p)
            == self.root_spec(p) by {
            assert(b.root_spec(p) == self.root_spec(p));
        }
    }

    /// What `bind(up, down)` answers in a given state.
    pub open spec fn bind_outcome(&self, up: PortId, down: PortId) -> Result<(), AssemblyError> {
        if self.bindings()[down.0 as int] is Some {
            Err(AssemblyError::CannotBind(up, down))
        } else if self.root_spec(up) == down {
            Err(AssemblyError::CyclicDependency(up, down))
        } else {
            Ok(())
        }
    }

    /// The pool `next` is this pool with `down` newly bound to `up`.
    pub open spec fn bound_to(&self, next: &PortPool<T>, up: PortId, down: PortId) -> bool {
        &&& next.len_spec() == self.len_spec()
        &&& next.bindings() == self.bindings().update(down.0 as int, Some(up))
        &&& next.written() == self.written()
        &&& forall|p: PortId|
            self.has_port(p) ==> #[trigger] next.root_spec(p) == if self.root_spec(p) == down {
                self.root_spec(up)
            } else {
                self.root_spec(p)
            }
        &&& self.same_ports(next)
    }

    /// Both pools hold the same ports, of the same kinds and owners.
    pub open spec fn same_ports(&self, next: &PortPool<T>) -> bool {
        &&& next.len_spec() == self.len_spec()
        &&& forall|p: PortId| self.has_port(p) ==> #[trigger] next.kind_spec(p) == self.kind_spec(p)
        &&& forall|p: PortId|
            self.has_port(p) ==> #[trigger] next.owner_spec(p) == self.owner_spec(p)
        &&& forall|p: PortId|
            self.has_port(p) ==> #[trigger] next.trigger_spec(p) == self.trigger_spec(p)
    }

    /// Both pools hold the same ports and the same bindings.
    pub open spec fn same_bindings(&self, next: &PortPool<T>) -> bool {
        &&& self.same_ports(next)
        &&& next.bindings() == self.bindings()
        &&& forall|p: PortId| self.has_port(p) ==> #[trigger] next.root_spec(p) == self.root_spec(p)
    }

    /// Binds `down` to `up`: from now on `down`, and every port bound to it,
    /// shows the value of the root of `up`.
    ///
    /// Refused with `CannotBind` where `down` already has an upstream, and
    /// with `CyclicDependency` where `up` is `down` or downstream of it.
    pub fn bind(&mut self, up: PortId, down: PortId) -> (r: Result<(), AssemblyError>)
        requires
            old(self).wf(),
            old(self).has_port(up),
            old(self).has_port(down),
        ensures
            final(self).wf(),
            r == old(self).bind_outcome(up, down),
            r is Ok ==> old(self).bound_to(final(self), up, down),
            r is Err ==> *final(self) == *old(self),
    {
        if self.upstream[down.index()].is_some() {
            return Err(AssemblyError::CannotBind(up, down));
        }
        let new_root = self.roots[up.index()];
        if new_root == down {
            return Err(AssemblyError::CyclicDependency(up, down));
        }
        let ghost before = *self;
        let ghost old_up = before.upstream@;
        let ghost new_up = old_up.update(down.0 as int, Some(up));
        let n = self.roots.len();
        let mut i: usize = 0;
        while i < n
            invariant
                i <= n,
                n == before.roots@.len(),
                self.roots@.len() == n,
                self.upstream == before.upstream,
                self.values == before.values,
                self.kinds == before.kinds,
                self.owners == before.owners,
                self.triggers == before.triggers,
                self.depth == before.depth,
                forall|p: int|
                    0 <= p < i ==> #[trigger] self.roots@[p] == if before.roots@[p] == down {
                        new_root
                    } else {
                        before.roots@[p]
                    },
                forall|p: int| i <= p < n ==> #[trigger] self.roots@[p] == before.roots@[p],
            decreases n - i,
        {
            if self.roots[i] == down {
                self.roots.set(i, new_root);
            }
            i = i + 1;
        }
        self.upstream.set(down.index(), Some(up));
        proof {
            let d = down.0 as int;
            let u = up.0 as int;
            let ru = new_root.0 as int;
            let du = before.depth@[u];
            self.depth@ = Seq::new(
                n as nat,
                |p: int|
                    if before.roots@[p] == down {
                        before.depth@[p] + 1 + du
                    } else {
                        before.depth@[p]
                    },
            );
            assert(self.upstream@ == new_up);
            assert(reaches(old_up, u, ru, du));
            reaches_after_bind(old_up, d, up, u, ru, du);
            assert(reaches(new_up, d, ru, du + 1));
            assert forall|p: int| 0 <= p < n implies {
                &&& (#[trigger] self.roots@[p]).0 < n
                &&& self.upstream@[self.roots@[p].0 as int] is None
                &&& reaches(self.upstream@, p, self.roots@[p].0 as int, self.depth@[p])
            } by {
                let r0 = before.roots@[p];
                assert(reaches(old_up, p, r0.0 as int, before.depth@[p]));
                reaches_after_bind(old_up, d, up, p, r0.0 as int, before.depth@[p]);
                if r0 == down {
                    reaches_compose(new_up, p, d, ru, before.depth@[p], du + 1);
                    assert(before.roots@[u].0 < n);
                } else {
                    assert(r0.0 as int != d);
                }
            }
            assert forall|p: int| 0 <= p < new_up.len() implies (#[trigger] new_up[p] matches Some(
                x,
            ) ==> x.0 < new_up.len()) by {
                if p != d {
                    assert(new_up[p] == old_up[p]);
                }
            }
        }
        Ok(())
    }

    /// Writes `v` to `p` for the rest of the tag. Refused with `CannotSet`
    /// where `p` is bound to an upstream port.
    pub fn set(&mut self, p: PortId, v: T) -> (r: Result<(), AssemblyError>)
        requires
            old(self).wf(),
            old(self).has_port(p),
        ensures
            final(self).wf(),
            r is Err <==> old(self).bindings()[p.0 as int] is Some,
            r is Err ==> r == Err::<(), AssemblyError>(AssemblyError::CannotSet(p)) && *final(self)
                == *old(self),
            r is Ok ==> old(self).wrote(final(self), p, v),
    {
        if self.upstream[p.index()].is_some() {
            return Err(AssemblyError::CannotSet(p));
        }
        self.values.set(p.index(), Some(v));
        Ok(())
    }

    /// The pool `next` is this pool after `v` was written to `p`.
    pub open spec fn wrote(&self, next: &PortPool<T>, p: PortId, v: T) -> bool {
        &&& self.same_bindings(next)
        &&& next.written() == self.written().update(p.0 as int, Some(v))
    }

    /// The value that `p` shows in the current tag: the one written to its
    /// root, or `None` if none was.
    pub fn get(&self, p: PortId) -> (v: Option<T>)
        requires
            self.wf(),
            self.has_port(p),
        ensures
            v == self.read_spec(p),
    {
        let r = self.roots[p.index()];
        self.values[r.index()]
    }

    /// Whether `p` shows a value in the current tag.
    pub fn is_present(&self, p: PortId) -> (b: bool)
        requires
            self.wf(),
            self.has_port(p),
        ensures
            b == self.read_spec(p).is_some(),
    {
        self.get(p).is_some()
    }

    /// The pool `next` is this pool with every value forgotten.
    pub open spec fn cleared(&self, next: &PortPool<T>) -> bool {
        &&& self.same_bindings(next)
        &&& next.written() == Seq::new(self.len_spec(), |i: int| None::<T>)
    }

    /// Ends the tag: every port goes back to holding no value.
    pub fn cleanup_tag(&mut self)
        requires
            old(self).wf(),
        ensures
            final(self).wf(),
            old(self).cleared(final(self)),
            forall|p: PortId| final(self).has_port(p) ==> final(self).read_spec(p) is None,
    {
        let ghost before = *self;
        let n = self.values.len();
        let mut i: usize = 0;
        while i < n
            invariant
                i <= n,
                n == self.values@.len(),
                self.upstream == before.upstream,
                self.roots == before.roots,
                self.kinds == before.kinds,
                self.owners == before.owners,
                self.triggers == before.triggers,
                self.depth == before.depth,
                forall|k: int| 0 <= k < i ==> #[trigger] self.values@[k] is None,
            decreases n - i,
        {
            self.values.set(i, None);
            i = i + 1;
        }
        proof {
            assert(self.values@ =~= Seq::new(before.len_spec(), |i: int| None::<T>));
        }
    }
}

/// A chain is untouched by the arrival of a new port.
proof fn lemma_reaches_after_push(up: Bindings, p: int, q: int, steps: nat)
    requires
        reaches(up, p, q, steps),
    ensures
        reaches(up.push(None), p, q, steps),
    decreases steps,
{
    if steps > 0 {
        lemma_reaches_after_push(up, up[p].unwrap().0 as int, q, (steps - 1) as nat);
    }
}

/// Once `b` is bound to an unbound port `a`, a value written to `a` is the
/// value that both `a` and `b` show.
pub proof fn bound_port_shows_upstream_value<T: Copy>(
    s0: PortPool<T>,
    s1: PortPool<T>,
    s2: PortPool<T>,
    a: PortId,
    b: PortId,
    v: T,
)
    requires
        s0.wf(),
        s0.has_port(a),
        s0.has_port(b),
        s0.bindings()[a.0 as int] is None,
        s0.bind_outcome(a, b) is Ok,
        s0.bound_to(&s1, a, b),
        s1.wrote(&s2, a, v),
    ensures
        s2.read_spec(a) == Some(v),
        s2.read_spec(b) == Some(v),
{
    s0.root_properties(a);
    s0.root_properties(b);
    assert(s1.root_spec(a) == a);
    assert(s1.root_spec(b) == a);
    assert(s2.root_spec(a) == a);
    assert(s2.root_spec(b) == a);
}

/// Binding passes values on through any number of ports: after `c` is bound
/// to `b`, every port that showed what `c` shows now shows what `b` shows,
/// and all other ports show what they showed before.
pub proof fn binding_is_transitive<T: Copy>(
    s0: PortPool<T>,
    s1: PortPool<T>,
    b: PortId,
    c: PortId,
    p: PortId,
)
    requires
        s0.wf(),
        s0.has_port(b),
        s0.has_port(c),
        s0.has_port(p),
        s0.bind_outcome(b, c) is Ok,
        s0.bound_to(&s1, b, c),
    ensures
        s1.read_spec(c) == s1.read_spec(b),
        s1.read_spec(b) == s0.read_spec(b),
        s0.root_spec(p) == c ==> s1.read_spec(p) == s1.read_spec(b),
        s0.root_spec(p) != c ==> s1.read_spec(p) == s0.read_spec(p),
{
    s0.root_properties(b);
    s0.root_properties(c);
    assert(s1.root_spec(c) == s0.root_spec(b));
    assert(s1.root_spec(b) == s0.root_spec(b));
    assert(s1.root_spec(p) == if s0.root_spec(p) == c {
        s0.root_spec(b)
    } else {
        s0.root_spec(p)
    });
}

/// A port shows the value written to its root in the current tag, and
/// nothing where nothing was written: a write to a root `r` changes what
/// the ports with root `r` show, and nothing else.
pub proof fn write_reaches_exactly_the_bound_ports<T: Copy>(
    s0: PortPool<T>,
    s1: PortPool<T>,
    r: PortId,
    v: T,
    p: PortId,
)
    requires
        s0.wf(),
        s0.has_port(r),
        s0.has_port(p),
        s0.bindings()[r.0 as int] is None,
        s0.wrote(&s1, r, v),
    ensures
        s0.root_spec(p) == r ==> s1.read_spec(p) == Some(v),
        s0.root_spec(p) != r ==> s1.read_spec(p) == s0.read_spec(p),
{
    s0.root_properties(p);
    assert(s1.root_spec(p) == s0.root_spec(p));
}

/// After the end of a tag no port shows a value.
pub proof fn cleanup_leaves_every_port_absent<T: Copy>(s0: PortPool<T>, s1: PortPool<T>, p: PortId)
    requires
        s0.wf(),
        s0.has_port(p),
        s0.cleared(&s1),
    ensures
        s1.read_spec(p) is None,
{
    s0.root_properties(p);
    assert(s1.root_spec(p) == s0.root_spec(p));
}

} // verus!
