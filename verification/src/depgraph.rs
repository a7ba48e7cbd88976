//! The precedence graph of reactions and the levels drawn from it.
//!
//! A node stands for a reaction, an edge from `a` to `b` says that `a` must
//! have run before `b` runs within a tag. The graph itself is kept by
//! petgraph, which also orders it topologically; the levels are computed here
//! from that order.

use vstd::prelude::*;

verus! {

/// petgraph's marker for graphs whose edges have a direction. It has no
/// values; it only stands in the type of the graph.
#[verifier::external_type_specification]
#[verifier::external_body]
pub struct ExDirected(petgraph::Directed);

/// petgraph's `Graph`. What a graph holds is known here through
/// `graph_node_count` and `graph_edges` alone.
#[verifier::external_type_specification]
#[verifier::external_body]
#[verifier::reject_recursive_types(N)]
#[verifier::reject_recursive_types(E)]
#[verifier::reject_recursive_types(Ty)]
#[verifier::reject_recursive_types(Ix)]
pub struct ExGraph<N, E, Ty, Ix>(petgraph::graph::Graph<N, E, Ty, Ix>);

/// The number of nodes of a graph; its nodes are numbered from zero.
pub uninterp spec fn graph_node_count(g: petgraph::graph::Graph<(), (), petgraph::Directed, u32>) -> nat;

/// The edges of a graph, each as (source, target), in the order in which
/// they were added.
pub uninterp spec fn graph_edges(g: petgraph::graph::Graph<(), (), petgraph::Directed, u32>) -> Seq<(u32, u32)>;

/// `Graph::new`: a graph without nodes and edges.
#[verifier::external_body]
fn graph_new() -> (g: petgraph::graph::Graph<(), (), petgraph::Directed, u32>)
    ensures
        graph_node_count(g) == 0,
        graph_edges(g) == Seq::<(u32, u32)>::empty(),
{
    petgraph::graph::Graph::new()
}

/// `Graph::add_node`: adds one node, numbered after the nodes that are
/// there, and leaves the edges alone. It panics when the graph holds
/// `u32::MAX` nodes, which the precondition excludes.
#[verifier::external_body]
fn graph_add_node(g: &mut petgraph::graph::Graph<(), (), petgraph::Directed, u32>) -> (ix: u32)
    requires
        graph_node_count(*old(g)) < u32::MAX,
    ensures
        ix == graph_node_count(*old(g)),
        graph_node_count(*final(g)) == graph_node_count(*old(g)) + 1,
        graph_edges(*final(g)) == graph_edges(*old(g)),
{
    g.add_node(()).index() as u32
}

/// `Graph::add_edge`: adds an edge from `a` to `b` after the edges that are
/// there, and leaves the nodes alone. It panics when a node does not exist
/// or when the graph holds `u32::MAX` edges, which the precondition excludes.
#[verifier::external_body]
fn graph_add_edge(g: &mut petgraph::graph::Graph<(), (), petgraph::Directed, u32>, a: u32, b: u32)
    requires
        a < graph_node_count(*old(g)),
        b < graph_node_count(*old(g)),
        graph_edges(*old(g)).len() < u32::MAX,
    ensures
        graph_node_count(*final(g)) == graph_node_count(*old(g)),
        graph_edges(*final(g)) == graph_edges(*old(g)).push((a, b)),
{
    g.add_edge(petgraph::graph::NodeIndex::new(a as usize), petgraph::graph::NodeIndex::new(b as usize), ());
}

/// An edge list over nodes `0..n`: (source, target) pairs.
pub type Edges = Seq<(u32, u32)>;

/// Every edge joins two of the `n` nodes.
pub open spec fn edges_in_range(n: nat, edges: Edges) -> bool {
    forall|e: int| 0 <= e < edges.len() ==> (#[trigger] edges[e]).0 < n && edges[e].1 < n
}

/// `order` lists each of the `n` nodes exactly once.
pub open spec fn lists_every_node_once(order: Seq<u32>, n: nat) -> bool {
    &&& order.len() == n
    &&& forall|i: int| 0 <= i < n ==> (#[trigger] order[i]) < n
    &&& forall|i: int, j: int| 0 <= i < j < n ==> order[i] != order[j]
    &&& forall|v: u32| v < n ==> order.contains(v)
}

/// `order` lists each node once, and each node before its successors.
pub open spec fn is_topological_order(order: Seq<u32>, n: nat, edges: Edges) -> bool {
    &&& lists_every_node_once(order, n)
    &&& forall|i: int, j: int, e: int|
        #![trigger order[i], order[j], edges[e]]
        0 <= i < n && 0 <= j < n && 0 <= e < edges.len() && order[i] == edges[e].0 && edges[e].1
            == order[j] ==> i < j
}

/// Every two neighbours in `path` are joined by an edge.
pub open spec fn is_walk(edges: Edges, path: Seq<u32>) -> bool {
    forall|k: int| 0 <= k < path.len() - 1 ==> edges.contains((#[trigger] path[k], path[k + 1]))
}

/// Some walk of at least one edge leads from `c` back to `c`.
pub open spec fn on_cycle(edges: Edges, c: u32) -> bool {
    exists|path: Seq<u32>|
        path.len() >= 2 && path[0] == c && path[path.len() - 1] == c && #[trigger] is_walk(
            edges,
            path,
        )
}

/// No node lies on a cycle.
pub open spec fn acyclic(edges: Edges) -> bool {
    forall|c: u32| !on_cycle(edges, c)
}

/// `petgraph::algo::toposort` on the graph, with node indices as numbers.
///
/// For a graph without cycles it answers with the nodes in a topological
/// order: every node once, each before its successors. Otherwise it answers
/// with a node that lies on a cycle; a self loop is a cycle.
#[verifier::external_body]
fn graph_toposort(g: &petgraph::graph::Graph<(), (), petgraph::Directed, u32>) -> (r: Result<
    Vec<u32>,
    u32,
>)
    ensures
        match r {
            Ok(order) => is_topological_order(order@, graph_node_count(*g), graph_edges(*g)),
            Err(c) => c < graph_node_count(*g) && on_cycle(graph_edges(*g), c),
        },
{
    match petgraph::algo::toposort(g, None) {
        Ok(order) => Ok(order.into_iter().map(|n| n.index() as u32).collect()),
        Err(cycle) => Err(cycle.node_id().index() as u32),
    }
}

/// The position of node `v` in `order`.
pub open spec fn position(order: Seq<u32>, v: u32) -> int {
    choose|i: int| 0 <= i < order.len() && order[i] == v
}

/// In a list that holds every node once, the position of a node is the one
/// place where it stands.
pub proof fn position_is_inverse(order: Seq<u32>, n: nat, i: int)
    requires
        lists_every_node_once(order, n),
        0 <= i < n,
    ensures
        position(order, order[i]) == i,
{
    let j = position(order, order[i]);
    assert(0 <= j < order.len() && order[j] == order[i]);
    if j < i {
        assert(order[j] != order[i]);
    } else if i < j {
        assert(order[i] != order[j]);
    }
}

/// Along a walk, positions in a topological order strictly grow.
pub proof fn walk_climbs(order: Seq<u32>, n: nat, edges: Edges, path: Seq<u32>, k: int)
    requires
        is_topological_order(order, n, edges),
        edges_in_range(n, edges),
        is_walk(edges, path),
        1 <= k < path.len(),
    ensures
        path[0] < n,
        path[k] < n,
        position(order, path[0]) < position(order, path[k]),
    decreases k,
{
    let a = path[k - 1];
    let b = path[k];
    assert(edges.contains((a, b)));
    let e = choose|e: int| 0 <= e < edges.len() && edges[e] == (a, b);
    assert(edges[e].0 == a && edges[e].1 == b);
    assert(order.contains(a));
    assert(order.contains(b));
    let pa = position(order, a);
    let pb = position(order, b);
    assert(pa < pb);
    if k > 1 {
        walk_climbs(order, n, edges, path, k - 1);
    }
}

/// A graph that has a topological order has no cycle.
pub proof fn ordered_graph_is_acyclic(order: Seq<u32>, n: nat, edges: Edges)
    requires
        is_topological_order(order, n, edges),
        edges_in_range(n, edges),
    ensures
        acyclic(edges),
{
    assert forall|c: u32| !on_cycle(edges, c) by {
        if on_cycle(edges, c) {
            let path = choose|path: Seq<u32>|
                path.len() >= 2 && path[0] == c && path[path.len() - 1] == c && #[trigger] is_walk(
                    edges,
                    path,
                );
            walk_climbs(order, n, edges, path, path.len() - 1);
        }
    }
}

/// Edge `e` leads into `v` from a node exactly one level below `v`.
pub open spec fn tight_edge(levels: Seq<u32>, edges: Edges, v: int, e: int) -> bool {
    &&& 0 <= e < edges.len()
    &&& edges[e].1 == v
    &&& levels[edges[e].0 as int] + 1 == levels[v]
}

/// Node `v` has level zero or stands one level above a predecessor.
pub open spec fn level_justified(levels: Seq<u32>, edges: Edges, v: int) -> bool {
    levels[v] == 0 || exists|e: int| tight_edge(levels, edges, v, e)
}

/// Every edge leads to a strictly higher level.
pub open spec fn respects_edges(levels: Seq<u32>, edges: Edges) -> bool {
    forall|e: int|
        0 <= e < edges.len() ==> levels[(#[trigger] edges[e]).0 as int] < levels[edges[e].1 as int]
}

/// `levels` gives every node its depth in the graph: a node without
/// predecessors has level zero, and any other node stands one level above the
/// highest of its predecessors.
pub open spec fn is_level_assignment(levels: Seq<u32>, n: nat, edges: Edges) -> bool {
    &&& levels.len() == n
    &&& respects_edges(levels, edges)
    &&& forall|v: int| 0 <= v < n ==> #[trigger] level_justified(levels, edges, v)
}

/// The facts about positions in a topological order that the computation
/// of levels rests on.
spec fn ranked(order: Seq<u32>, n: nat, edges: Edges) -> bool {
    &&& order.len() == n
    &&& forall|v: u32|
        v < n ==> 0 <= #[trigger] position(order, v) < n && order[position(order, v)] == v
    &&& forall|i: int|
        0 <= i < n ==> position(order, #[trigger] order[i]) == i && order[i] < n
    &&& forall|e: int|
        0 <= e < edges.len() ==> position(order, (#[trigger] edges[e]).0) < position(
            order,
            edges[e].1,
        )
}

proof fn lemma_ranked(order: Seq<u32>, n: nat, edges: Edges)
    requires
        edges_in_range(n, edges),
        is_topological_order(order, n, edges),
    ensures
        ranked(order, n, edges),
{
    assert forall|v: u32| v < n implies 0 <= #[trigger] position(order, v) < n && order[position(
        order,
        v,
    )] == v by {
        assert(order.contains(v));
    }
    assert forall|i: int| 0 <= i < n implies position(order, #[trigger] order[i]) == i
        && order[i] < n by {
        position_is_inverse(order, n, i);
    }
    assert forall|e: int| 0 <= e < edges.len() implies position(order, (#[trigger] edges[e]).0)
        < position(order, edges[e].1) by {
        let a = edges[e].0;
        let b = edges[e].1;
        assert(a < n && b < n);
        let pa = position(order, a);
        let pb = position(order, b);
        assert(order[pa] == edges[e].0 && edges[e].1 == order[pb]);
    }
}

/// Edge `e` starts at one of the first `done` nodes of `order`.
spec fn source_done(order: Seq<u32>, edges: Edges, e: int, done: int) -> bool {
    position(order, edges[e].0) < done
}

/// Node `v` has level zero, or stands one level above a predecessor that is
/// among the first `done` nodes of `order`.
spec fn settled_at(levels: Seq<u32>, edges: Edges, order: Seq<u32>, done: int, v: int) -> bool {
    levels[v] == 0 || exists|e: int|
        tight_edge(levels, edges, v, e) && source_done(order, edges, e, done)
}

/// What holds while the levels are being computed, when the first `done`
/// nodes of `order` have passed their level on to their successors.
spec fn levels_settled(levels: Seq<u32>, n: nat, edges: Edges, order: Seq<u32>, done: int) -> bool {
    &&& levels.len() == n
    &&& forall|v: int| 0 <= v < n ==> (#[trigger] levels[v]) <= done
    &&& forall|e: int|
        0 <= e < edges.len() && #[trigger] source_done(order, edges, e, done)
            ==> levels[edges[e].0 as int] < levels[edges[e].1 as int]
    &&& forall|v: int| 0 <= v < n ==> #[trigger] settled_at(levels, edges, order, done, v)
}

/// Passes the level of `u`, the node at place `i` of `order`, on to its
/// successors.
fn relax_successors(
    levels: &mut Vec<u32>,
    edges: &Vec<(u32, u32)>,
    u: u32,
    n: u32,
    Ghost(order): Ghost<Seq<u32>>,
    Ghost(i): Ghost<int>,
)
    requires
        edges_in_range(n as nat, edges@),
        ranked(order, n as nat, edges@),
        0 <= i < n,
        u < n,
        position(order, u) == i,
        levels_settled(old(levels)@, n as nat, edges@, order, i),
    ensures
        levels_settled(final(levels)@, n as nat, edges@, order, i + 1),
{
    let ghost start = levels@;
    let lu = levels[u as usize];
    proof {
        assert forall|v: int| 0 <= v < n implies #[trigger] settled_at(
            start,
            edges@,
            order,
            i + 1,
            v,
        ) by {
            assert(settled_at(start, edges@, order, i, v));
            if start[v] != 0 {
                let k = choose|k: int|
                    tight_edge(start, edges@, v, k) && source_done(order, edges@, k, i);
                assert(source_done(order, edges@, k, i + 1));
            }
        }
    }
    let mut e: usize = 0;
    while e < edges.len()
        invariant
            e <= edges@.len(),
            0 <= i < n,
            u < n,
            position(order, u) == i,
            lu == start[u as int],
            lu <= i,
            edges_in_range(n as nat, edges@),
            ranked(order, n as nat, edges@),
            levels_settled(start, n as nat, edges@, order, i),
            levels@.len() == n,
            forall|v: int| 0 <= v < n ==> start[v] <= (#[trigger] levels@[v]) <= i + 1,
            forall|v: u32| v < n && #[trigger] position(order, v) <= i ==> levels@[v as int] == start[v as int],
            forall|k: int|
                0 <= k < e && (#[trigger] edges@[k]).0 == u ==> lu < levels@[edges@[k].1 as int],
            forall|v: int| 0 <= v < n ==> #[trigger] settled_at(levels@, edges@, order, i + 1, v),
        decreases edges@.len() - e,
    {
        let a = edges[e].0;
        let b = edges[e].1;
        if a == u {
            assert(i < position(order, b));
            if levels[b as usize] < lu + 1 {
                let ghost prev = levels@;
                levels.set(b as usize, lu + 1);
                proof {
                    assert forall|v: int| 0 <= v < n implies #[trigger] settled_at(
                        levels@,
                        edges@,
                        order,
                        i + 1,
                        v,
                    ) by {
                        assert(settled_at(prev, edges@, order, i + 1, v));
                        if v == b {
                            assert(tight_edge(levels@, edges@, v, e as int));
                            assert(source_done(order, edges@, e as int, i + 1));
                        } else if prev[v] != 0 {
                            let k = choose|k: int|
                                tight_edge(prev, edges@, v, k) && source_done(order, edges@, k, i + 1);
                            let src = edges@[k].0;
                            assert(src < n);
                            assert(position(order, src) <= i);
                            assert(prev[src as int] == start[src as int]);
                            assert(b != src);
                            assert(tight_edge(levels@, edges@, v, k));
                        }
                    }
                }
            }
        }
        e = e + 1;
    }
    proof {
        assert forall|k: int|
            0 <= k < edges@.len() && #[trigger] source_done(order, edges@, k, i + 1)
            implies levels@[edges@[k].0 as int] < levels@[edges@[k].1 as int] by {
            let a = edges@[k].0;
            let b = edges@[k].1;
            assert(a < n && b < n);
            if position(order, a) == i {
                assert(order[position(order, a)] == a);
                assert(a == u);
            } else {
                assert(source_done(order, edges@, k, i));
                assert(start[a as int] < start[b as int]);
                assert(levels@[a as int] == start[a as int]);
            }
        }
    }
}

/// Computes the level of every node from a topological order of the graph.
pub fn assign_levels(n: u32, edges: &Vec<(u32, u32)>, order: &Vec<u32>) -> (levels: Vec<u32>)
    requires
        edges_in_range(n as nat, edges@),
        is_topological_order(order@, n as nat, edges@),
    ensures
        is_level_assignment(levels@, n as nat, edges@),
        forall|v: int| 0 <= v < n ==> (#[trigger] levels@[v]) < n,
{
    let mut levels: Vec<u32> = Vec::new();
    while levels.len() < n as usize
        invariant
            levels@.len() <= n,
            forall|v: int| 0 <= v < levels@.len() ==> (#[trigger] levels@[v]) == 0,
        decreases n - levels@.len(),
    {
        levels.push(0);
    }
    proof {
        lemma_ranked(order@, n as nat, edges@);
        assert forall|e: int| 0 <= e < edges@.len() implies !#[trigger] source_done(
            order@,
            edges@,
            e,
            0,
        ) by {
            assert(edges@[e].0 < n);
        }
        assert forall|v: int| 0 <= v < n implies #[trigger] settled_at(
            levels@,
            edges@,
            order@,
            0,
            v,
        ) by {
            assert(levels@[v] == 0);
        }
    }
    let mut i: usize = 0;
    while i < n as usize
        invariant
            i <= n,
            order@.len() == n,
            edges_in_range(n as nat, edges@),
            ranked(order@, n as nat, edges@),
            levels_settled(levels@, n as nat, edges@, order@, i as int),
            forall|v: int| 0 <= v < n ==> (#[trigger] levels@[v]) < n,
        decreases n - i,
    {
        let u = order[i];
        assert(position(order@, order@[i as int]) == i);
        assert(position(order@, u) < n);
        relax_successors(&mut levels, edges, u, n, Ghost(order@), Ghost(i as int));
        proof {
            lemma_levels_below(levels@, n as nat, edges@, order@, i + 1);
        }
        i = i + 1;
    }
    proof {
        assert forall|k: int| 0 <= k < edges@.len() implies levels@[(#[trigger] edges@[k]).0 as int]
            < levels@[edges@[k].1 as int] by {
            assert(edges@[k].0 < n);
            assert(source_done(order@, edges@, k, n as int));
        }
        assert forall|v: int| 0 <= v < n implies #[trigger] level_justified(levels@, edges@, v) by {
            assert(settled_at(levels@, edges@, order@, n as int, v));
            if levels@[v] != 0 {
                let k = choose|k: int|
                    tight_edge(levels@, edges@, v, k) && source_done(order@, edges@, k, n as int);
                assert(tight_edge(levels@, edges@, v, k));
            }
        }
    }
    levels
}

/// A level is below the number of nodes: the node passed on its level no
/// later than at its own place in the order.
proof fn lemma_levels_below(levels: Seq<u32>, n: nat, edges: Edges, order: Seq<u32>, done: int)
    requires
        edges_in_range(n, edges),
        ranked(order, n, edges),
        levels_settled(levels, n, edges, order, done),
        0 <= done <= n,
    ensures
        forall|v: int| 0 <= v < n ==> (#[trigger] levels[v]) < n,
{
    assert forall|v: int| 0 <= v < n implies (#[trigger] levels[v]) < n by {
        lemma_level_at_most_place(levels, n, edges, order, done, v as u32);
    }
}

/// The level of a node is at most its place in the order.
proof fn lemma_level_at_most_place(
    levels: Seq<u32>,
    n: nat,
    edges: Edges,
    order: Seq<u32>,
    done: int,
    v: u32,
)
    requires
        edges_in_range(n, edges),
        ranked(order, n, edges),
        levels_settled(levels, n, edges, order, done),
        v < n,
    ensures
        levels[v as int] <= position(order, v),
    decreases position(order, v),
{
    assert(settled_at(levels, edges, order, done, v as int));
    if levels[v as int] != 0 {
        let k = choose|k: int|
            tight_edge(levels, edges, v as int, k) && source_done(order, edges, k, done);
        let a = edges[k].0;
        assert(a < n);
        assert(position(order, a) < position(order, edges[k].1));
        lemma_level_at_most_place(levels, n, edges, order, done, a);
    }
}

/// A walk that ends at `v` climbs one level at least with every edge: the
/// level of `v` is at least the number of edges of the walk.
pub proof fn level_bounds_walks(levels: Seq<u32>, n: nat, edges: Edges, path: Seq<u32>)
    requires
        is_level_assignment(levels, n, edges),
        edges_in_range(n, edges),
        is_walk(edges, path),
        path.len() >= 1,
        path[0] < n,
    ensures
        path[path.len() - 1] < n,
        levels[path[0] as int] + path.len() - 1 <= levels[path[path.len() - 1] as int],
    decreases path.len(),
{
    if path.len() >= 2 {
        let shorter = path.drop_last();
        assert forall|k: int| 0 <= k < shorter.len() - 1 implies edges.contains(
            (#[trigger] shorter[k], shorter[k + 1]),
        ) by {
            assert(edges.contains((path[k], path[k + 1])));
        }
        level_bounds_walks(levels, n, edges, shorter);
        let a = path[path.len() - 2];
        let b = path[path.len() - 1];
        assert(edges.contains((a, b)));
        let e = choose|e: int| 0 <= e < edges.len() && edges[e] == (a, b);
        assert(edges[e].0 == a && edges[e].1 == b);
    }
}

/// Some walk that ends at `v` has as many edges as the level of `v`: the
/// level is the length of the longest walk into the node.
pub proof fn level_is_attained(levels: Seq<u32>, n: nat, edges: Edges, v: u32) -> (path: Seq<u32>)
    requires
        is_level_assignment(levels, n, edges),
        edges_in_range(n, edges),
        v < n,
    ensures
        is_walk(edges, path),
        path.len() == levels[v as int] + 1,
        path[path.len() - 1] == v,
        path[0] < n,
        levels[path[0] as int] == 0,
    decreases levels[v as int],
{
    if levels[v as int] == 0 {
        seq![v]
    } else {
        assert(level_justified(levels, edges, v as int));
        let e = choose|e: int| tight_edge(levels, edges, v as int, e);
        let a = edges[e].0;
        assert(a < n);
        let shorter = level_is_attained(levels, n, edges, a);
        let path = shorter.push(v);
        assert forall|k: int| 0 <= k < path.len() - 1 implies edges.contains(
            (#[trigger] path[k], path[k + 1]),
        ) by {
            if k < shorter.len() - 1 {
                assert(edges.contains((shorter[k], shorter[k + 1])));
            } else {
                assert(edges[e] == (a, v));
            }
        }
        path
    }
}

/// There is one level assignment at most: two of them give every node the
/// same level.
pub proof fn level_assignment_is_unique(
    first: Seq<u32>,
    second: Seq<u32>,
    n: nat,
    edges: Edges,
)
    requires
        is_level_assignment(first, n, edges),
        is_level_assignment(second, n, edges),
        edges_in_range(n, edges),
    ensures
        first == second,
{
    assert forall|v: int| 0 <= v < n implies first[v] == second[v] by {
        level_is_least(first, second, n, edges, v);
        level_is_least(second, first, n, edges, v);
    }
    assert(first =~= second);
}

/// A level assignment gives every node the least level that any
/// assignment that respects the edges can give it.
pub proof fn level_is_least(levels: Seq<u32>, other: Seq<u32>, n: nat, edges: Edges, v: int)
    requires
        is_level_assignment(levels, n, edges),
        respects_edges(other, edges),
        other.len() == n,
        edges_in_range(n, edges),
        0 <= v < n,
    ensures
        levels[v] <= other[v],
    decreases levels[v],
{
    assert(level_justified(levels, edges, v));
    if levels[v] != 0 {
        let e = choose|e: int| tight_edge(levels, edges, v, e);
        let a = edges[e].0 as int;
        assert(a < n);
        level_is_least(levels, other, n, edges, a);
        assert(other[edges[e].0 as int] < other[edges[e].1 as int]);
    }
}

/// A cycle was found where none may be: `node` lies on it.
#[derive(Clone, Copy, Debug, PartialEq, Eq, Structural)]
pub struct GraphCycle {
    pub node: u32,
}

/// The precedence graph of a program.
pub struct DepGraph {
    graph: petgraph::graph::Graph<(), (), petgraph::Directed, u32>,
    edges: Vec<(u32, u32)>,
    nodes: u32,
}

impl DepGraph {
    /// The number of nodes; the nodes are numbered from zero.
    pub closed spec fn node_count_spec(&self) -> nat {
        self.nodes as nat
    }

    /// The edges, in the order in which they were added.
    pub closed spec fn edges_spec(&self) -> Edges {
        self.edges@
    }

    /// The graph that petgraph holds is the one recorded here.
    pub closed spec fn wf(&self) -> bool {
        &&& graph_node_count(self.graph) == self.nodes
        &&& graph_edges(self.graph) == self.edges@
        &&& edges_in_range(self.nodes as nat, self.edges@)
    }

    /// Every edge of a well-formed graph joins two of its nodes.
    pub proof fn edges_join_nodes(&self)
        requires
            self.wf(),
        ensures
            edges_in_range(self.node_count_spec(), self.edges_spec()),
            self.node_count_spec() <= u32::MAX,
    {
    }

    /// A graph without nodes.
    pub fn new() -> (g: DepGraph)
        ensures
            g.wf(),
            g.node_count_spec() == 0,
            g.edges_spec() == Seq::<(u32, u32)>::empty(),
    {
        DepGraph { graph: graph_new(), edges: Vec::new(), nodes: 0 }
    }

    pub fn node_count(&self) -> (n: u32)
        ensures
            n == self.node_count_spec(),
    {
        self.nodes
    }

    pub fn edge_count(&self) -> (n: usize)
        ensures
            n == self.edges_spec().len(),
    {
        self.edges.len()
    }

    /// Adds a node and returns its number.
    pub fn add_node(&mut self) -> (ix: u32)
        requires
            old(self).wf(),
            old(self).node_count_spec() < u32::MAX,
        ensures
            final(self).wf(),
            ix == old(self).node_count_spec(),
            final(self).node_count_spec() == old(self).node_count_spec() + 1,
            final(self).edges_spec() == old(self).edges_spec(),
    {
        let ix = graph_add_node(&mut self.graph);
        self.nodes = self.nodes + 1;
        ix
    }

    /// Adds an edge: `a` must run before `b`.
    pub fn add_edge(&mut self, a: u32, b: u32)
        requires
            old(self).wf(),
            a < old(self).node_count_spec(),
            b < old(self).node_count_spec(),
            old(self).edges_spec().len() < u32::MAX,
        ensures
            final(self).wf(),
            final(self).node_count_spec() == old(self).node_count_spec(),
            final(self).edges_spec() == old(self).edges_spec().push((a, b)),
    {
        graph_add_edge(&mut self.graph, a, b);
        self.edges.push((a, b));
    }

    /// The level of every node: zero for a node without predecessors, else
    /// one more than the highest level among its predecessors. A graph with
    /// a cycle has no levels; the answer then names a node of a cycle.
    pub fn levels(&self) -> (r: Result<Vec<u32>, GraphCycle>)
        requires
            self.wf(),
        ensures
            r is Ok <==> acyclic(self.edges_spec()),
            match r {
                Ok(levels) => is_level_assignment(
                    levels@,
                    self.node_count_spec(),
                    self.edges_spec(),
                ) && forall|v: int|
                    0 <= v < self.node_count_spec() ==> (#[trigger] levels@[v])
                        < self.node_count_spec(),
                Err(c) => c.node < self.node_count_spec() && on_cycle(self.edges_spec(), c.node),
            },
    {
        match graph_toposort(&self.graph) {
            Ok(order) => {
                proof {
                    ordered_graph_is_acyclic(order@, self.nodes as nat, self.edges@);
                }
                Ok(assign_levels(self.nodes, &self.edges, &order))
            },
            Err(node) => Err(GraphCycle { node }),
        }
    }
}

} // verus!
