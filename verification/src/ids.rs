//! Numeric identifiers of reactors, reactions and triggers.
//!
//! A reaction is known program-wide by the reactor that holds it and by its
//! index inside that reactor. Both halves are packed into one integer, the
//! reactor in the upper sixteen bits, so that the order on packed ids is the
//! lexicographic order on (reactor, local index).

use vstd::prelude::*;

verus! {

/// The packed form of a global reaction id.
pub type GlobalIdImpl = u32;

/// Number of local ids per reactor: the weight of the reactor half.
pub const LOCAL_SPAN: u32 = 65536;

/// Identifies a reactor in the program.
#[derive(Clone, Copy, Debug, PartialEq, Eq, Structural)]
pub struct ReactorId(pub u16);

/// Identifies a reaction within its reactor; reactions of one reactor are
/// numbered in the order of their declaration.
#[derive(Clone, Copy, Debug, PartialEq, Eq, Structural)]
pub struct LocalReactionId(pub u16);

/// Identifies a reaction in the program.
#[derive(Clone, Copy, Debug, PartialEq, Eq, Structural)]
pub struct GlobalReactionId(pub GlobalIdImpl);

/// Identifies a trigger: a port, an action, a timer, or one of the two
/// synthetic triggers.
#[derive(Clone, Copy, Debug, PartialEq, Eq, Structural)]
pub struct TriggerId(pub u32);

/// The packed integer that stands for (reactor, local).
pub open spec fn pack(reactor: u16, local: u16) -> int {
    reactor * 65536 + local
}

impl ReactorId {
    pub fn new(raw: u16) -> (id: ReactorId)
        ensures
            id.0 == raw,
    {
        ReactorId(raw)
    }

    pub fn raw(&self) -> (r: u16)
        ensures
            r == self.0,
    {
        self.0
    }

    /// The index of this reactor in the reactor pool.
    pub fn index(&self) -> (i: usize)
        ensures
            i == self.0,
    {
        self.0 as usize
    }
}

impl LocalReactionId {
    pub fn new(raw: u16) -> (id: LocalReactionId)
        ensures
            id.0 == raw,
    {
        LocalReactionId(raw)
    }

    pub fn raw(&self) -> (r: u16)
        ensures
            r == self.0,
    {
        self.0
    }

    pub fn index(&self) -> (i: usize)
        ensures
            i == self.0,
    {
        self.0 as usize
    }
}

impl GlobalReactionId {
    /// Packs a reactor id and a local reaction id.
    pub fn new(container: ReactorId, local: LocalReactionId) -> (id: GlobalReactionId)
        ensures
            id.0 == pack(container.0, local.0),
            id.container_spec() == container,
            id.local_spec() == local,
    {
        let hi: u32 = container.0 as u32;
        let lo: u32 = local.0 as u32;
        GlobalReactionId(hi * LOCAL_SPAN + lo)
    }

    /// Takes a packed id as it is.
    pub fn from_raw(raw: GlobalIdImpl) -> (id: GlobalReactionId)
        ensures
            id.0 == raw,
    {
        GlobalReactionId(raw)
    }

    pub fn raw(&self) -> (r: GlobalIdImpl)
        ensures
            r == self.0,
    {
        self.0
    }

    pub open spec fn container_spec(self) -> ReactorId {
        ReactorId((self.0 / 65536) as u16)
    }

    pub open spec fn local_spec(self) -> LocalReactionId {
        LocalReactionId((self.0 % 65536) as u16)
    }

    /// The reactor that holds this reaction.
    pub fn container(&self) -> (r: ReactorId)
        ensures
            r == self.container_spec(),
    {
        ReactorId((self.0 / LOCAL_SPAN) as u16)
    }

    /// The index of this reaction in its reactor.
    pub fn local(&self) -> (l: LocalReactionId)
        ensures
            l == self.local_spec(),
    {
        LocalReactionId((self.0 % LOCAL_SPAN) as u16)
    }
}

impl TriggerId {
    /// The synthetic trigger that is present at the first tag.
    pub open spec fn startup_spec() -> TriggerId {
        TriggerId(0)
    }

    /// The synthetic trigger that is present at the last tag.
    pub open spec fn shutdown_spec() -> TriggerId {
        TriggerId(1)
    }

    #[verifier::when_used_as_spec(startup_spec)]
    pub fn startup() -> (t: TriggerId)
        ensures
            t == Self::startup_spec(),
    {
        TriggerId(0)
    }

    #[verifier::when_used_as_spec(shutdown_spec)]
    pub fn shutdown() -> (t: TriggerId)
        ensures
            t == Self::shutdown_spec(),
    {
        TriggerId(1)
    }

    /// The first id that stands for a component of a reactor.
    pub open spec fn first_regular_spec() -> TriggerId {
        TriggerId(2)
    }

    #[verifier::when_used_as_spec(first_regular_spec)]
    pub fn first_regular() -> (t: TriggerId)
        ensures
            t == Self::first_regular_spec(),
    {
        TriggerId(2)
    }

    pub fn raw(&self) -> (r: u32)
        ensures
            r == self.0,
    {
        self.0
    }

    pub fn index(&self) -> (i: usize)
        ensures
            i == self.0,
    {
        self.0 as usize
    }
}

/// Makes a global reaction id from its packed form.
pub fn new_global_rid(u: GlobalIdImpl) -> (id: GlobalReactionId)
    ensures
        id.0 == u,
        pack(id.container_spec().0, id.local_spec().0) == u,
{
    GlobalReactionId::from_raw(u)
}

/// Unpacking a packed id gives back both halves, and packing the halves of
/// an id gives back the id.
pub proof fn pack_round_trip(reactor: u16, local: u16, raw: u32)
    ensures
        GlobalReactionId(pack(reactor, local) as u32).container_spec() == ReactorId(reactor),
        GlobalReactionId(pack(reactor, local) as u32).local_spec() == LocalReactionId(local),
        pack(GlobalReactionId(raw).container_spec().0, GlobalReactionId(raw).local_spec().0)
            == raw,
{
}

/// Packed ids are ordered as the pairs (reactor, local) are.
pub proof fn pack_preserves_order(r1: u16, l1: u16, r2: u16, l2: u16)
    ensures
        pack(r1, l1) < pack(r2, l2) <==> (r1 < r2 || (r1 == r2 && l1 < l2)),
{
}

} // verus!
