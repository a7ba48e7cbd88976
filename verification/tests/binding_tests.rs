use reactor_rt::error::AssemblyError;
use reactor_rt::ids::{ReactorId, TriggerId};
use reactor_rt::ports::{PortId, PortKind, PortPool};

fn pool_of(n: u32) -> (PortPool<i64>, Vec<PortId>) {
    let mut pool = PortPool::new();
    let mut ids = Vec::new();
    for i in 0..n {
        ids.push(pool.add_port(PortKind::Output, ReactorId::new(0), TriggerId(2 + i)));
    }
    (pool, ids)
}

#[test]
fn a_new_port_is_its_own_root_and_holds_nothing() {
    let mut pool: PortPool<i64> = PortPool::new();
    assert_eq!(pool.len(), 0);
    let p = pool.add_port(PortKind::Input, ReactorId::new(3), TriggerId(12));
    assert_eq!(p, PortId(0));
    assert_eq!(p.index(), 0);
    assert_eq!(pool.len(), 1);
    assert_eq!(pool.kind(p), PortKind::Input);
    assert_eq!(pool.owner(p), ReactorId::new(3));
    assert_eq!(pool.trigger(p), TriggerId(12));
    assert_eq!(pool.upstream_of(p), None);
    assert_eq!(pool.root(p), p);
    assert_eq!(pool.get(p), None);
    assert!(!pool.is_present(p));
}

#[test]
fn a_bound_port_shows_the_value_of_its_upstream() {
    let (mut pool, p) = pool_of(2);
    assert_eq!(pool.bind(p[0], p[1]), Ok(()));
    assert_eq!(pool.set(p[0], 42), Ok(()));
    assert_eq!(pool.get(p[1]), Some(42));
    assert_eq!(pool.get(p[0]), Some(42));
    assert_eq!(pool.upstream_of(p[1]), Some(p[0]));
    assert_eq!(pool.root(p[1]), p[0]);
}

#[test]
fn binding_is_transitive() {
    let (mut pool, p) = pool_of(3);
    assert_eq!(pool.bind(p[0], p[1]), Ok(()));
    assert_eq!(pool.bind(p[1], p[2]), Ok(()));
    assert_eq!(pool.set(p[0], -9), Ok(()));
    assert_eq!(pool.get(p[0]), Some(-9));
    assert_eq!(pool.get(p[1]), Some(-9));
    assert_eq!(pool.get(p[2]), Some(-9));
    pool.cleanup_tag();
    assert_eq!(pool.get(p[0]), None);
    assert_eq!(pool.get(p[1]), None);
    assert_eq!(pool.get(p[2]), None);
}

#[test]
fn binding_a_chain_from_the_bottom_up_gives_the_same_roots() {
    let (mut pool, p) = pool_of(4);
    assert_eq!(pool.bind(p[2], p[3]), Ok(()));
    assert_eq!(pool.bind(p[1], p[2]), Ok(()));
    assert_eq!(pool.bind(p[0], p[1]), Ok(()));
    for q in &p {
        assert_eq!(pool.root(*q), p[0]);
    }
    assert_eq!(pool.set(p[0], 1), Ok(()));
    assert_eq!(pool.get(p[3]), Some(1));
}

#[test]
fn one_upstream_feeds_many_downstreams() {
    let (mut pool, p) = pool_of(4);
    assert_eq!(pool.bind(p[0], p[1]), Ok(()));
    assert_eq!(pool.bind(p[0], p[2]), Ok(()));
    assert_eq!(pool.set(p[0], 5), Ok(()));
    assert_eq!(pool.get(p[1]), Some(5));
    assert_eq!(pool.get(p[2]), Some(5));
    assert_eq!(pool.get(p[3]), None);
}

#[test]
fn a_port_has_one_upstream_at_most() {
    let (mut pool, p) = pool_of(3);
    assert_eq!(pool.bind(p[0], p[2]), Ok(()));
    assert_eq!(pool.bind(p[1], p[2]), Err(AssemblyError::CannotBind(p[1], p[2])));
    assert_eq!(pool.bind(p[0], p[2]), Err(AssemblyError::CannotBind(p[0], p[2])));
    assert_eq!(pool.root(p[2]), p[0]);
}

#[test]
fn a_binding_that_closes_a_cycle_is_refused() {
    let (mut pool, p) = pool_of(3);
    assert_eq!(pool.bind(p[0], p[0]), Err(AssemblyError::CyclicDependency(p[0], p[0])));
    assert_eq!(pool.bind(p[0], p[1]), Ok(()));
    assert_eq!(pool.bind(p[1], p[2]), Ok(()));
    assert_eq!(pool.bind(p[2], p[0]), Err(AssemblyError::CyclicDependency(p[2], p[0])));
    assert_eq!(pool.bind(p[1], p[0]), Err(AssemblyError::CyclicDependency(p[1], p[0])));
    assert_eq!(pool.upstream_of(p[0]), None);
}

#[test]
fn a_bound_port_cannot_be_written_to() {
    let (mut pool, p) = pool_of(2);
    assert_eq!(pool.bind(p[0], p[1]), Ok(()));
    assert_eq!(pool.set(p[1], 3), Err(AssemblyError::CannotSet(p[1])));
    assert_eq!(pool.get(p[1]), None);
    assert_eq!(pool.get(p[0]), None);
}

#[test]
fn a_later_write_replaces_an_earlier_one() {
    let (mut pool, p) = pool_of(2);
    assert_eq!(pool.bind(p[0], p[1]), Ok(()));
    assert_eq!(pool.set(p[0], 1), Ok(()));
    assert_eq!(pool.set(p[0], 2), Ok(()));
    assert_eq!(pool.get(p[1]), Some(2));
}

#[test]
fn a_value_written_before_a_binding_shows_downstream() {
    let (mut pool, p) = pool_of(2);
    assert_eq!(pool.set(p[0], 8), Ok(()));
    assert_eq!(pool.set(p[1], 9), Ok(()));
    assert_eq!(pool.bind(p[0], p[1]), Ok(()));
    assert_eq!(pool.get(p[1]), Some(8));
}
