use reactor_rt::dataflow::{DataflowInfo, Dependency, Effect};
use reactor_rt::depgraph::{assign_levels, DepGraph, GraphCycle};
use reactor_rt::ids::{GlobalReactionId, TriggerId};
use reactor_rt::ports::PortId;

fn graph(nodes: u32, edges: &[(u32, u32)]) -> DepGraph {
    let mut g = DepGraph::new();
    for i in 0..nodes {
        assert_eq!(g.add_node(), i);
    }
    for (a, b) in edges {
        g.add_edge(*a, *b);
    }
    g
}

#[test]
fn an_empty_graph_has_no_levels() {
    let g = DepGraph::new();
    assert_eq!(g.node_count(), 0);
    assert_eq!(g.edge_count(), 0);
    assert_eq!(g.levels(), Ok(vec![]));
}

#[test]
fn nodes_without_edges_have_level_zero() {
    let g = graph(3, &[]);
    assert_eq!(g.levels(), Ok(vec![0, 0, 0]));
}

#[test]
fn a_chain_climbs_one_level_per_edge() {
    let g = graph(4, &[(2, 1), (1, 3), (3, 0)]);
    assert_eq!(g.node_count(), 4);
    assert_eq!(g.edge_count(), 3);
    assert_eq!(g.levels(), Ok(vec![3, 1, 0, 2]));
}

#[test]
fn the_level_is_the_length_of_the_longest_path() {
    // 0 -> 1 -> 2 -> 3 and the shortcut 0 -> 3, and 4 -> 3
    let g = graph(5, &[(0, 3), (0, 1), (1, 2), (2, 3), (4, 3)]);
    assert_eq!(g.levels(), Ok(vec![0, 1, 2, 3, 0]));
}

#[test]
fn a_diamond() {
    let g = graph(4, &[(0, 1), (0, 2), (1, 3), (2, 3)]);
    assert_eq!(g.levels(), Ok(vec![0, 1, 1, 2]));
}

#[test]
fn parallel_edges_count_once() {
    let g = graph(2, &[(0, 1), (0, 1), (0, 1)]);
    assert_eq!(g.levels(), Ok(vec![0, 1]));
}

#[test]
fn a_cycle_has_no_levels() {
    let g = graph(4, &[(0, 1), (1, 2), (2, 1), (2, 3)]);
    match g.levels() {
        Err(GraphCycle { node }) => assert!(node == 1 || node == 2),
        Ok(levels) => panic!("no levels expected, got {:?}", levels),
    }
}

#[test]
fn a_self_loop_is_a_cycle() {
    let g = graph(2, &[(0, 1), (1, 1)]);
    assert_eq!(g.levels(), Err(GraphCycle { node: 1 }));
}

#[test]
fn levels_follow_from_any_topological_order() {
    let edges = vec![(0, 2), (1, 2), (2, 3)];
    assert_eq!(assign_levels(4, &edges, &vec![0, 1, 2, 3]), vec![0, 0, 1, 2]);
    assert_eq!(assign_levels(4, &edges, &vec![1, 0, 2, 3]), vec![0, 0, 1, 2]);
    assert_eq!(assign_levels(0, &vec![], &vec![]), Vec::<u32>::new());
}

#[test]
fn triggers_set_off_their_reactions_at_their_levels() {
    let g = graph(3, &[(0, 1), (1, 2)]);
    let reactions = vec![
        GlobalReactionId::from_raw(10),
        GlobalReactionId::from_raw(20),
        GlobalReactionId::from_raw(30),
    ];
    let deps = vec![
        Dependency { trigger: TriggerId(0), node: 0 },
        Dependency { trigger: TriggerId(2), node: 2 },
        Dependency { trigger: TriggerId(2), node: 1 },
        Dependency { trigger: TriggerId(2), node: 2 },
    ];
    let effects = vec![
        Effect { reaction: GlobalReactionId::from_raw(10), port: PortId(3) },
        Effect { reaction: GlobalReactionId::from_raw(20), port: PortId(1) },
    ];
    let info = DataflowInfo::new(&g, reactions, &deps, 4, effects).unwrap();
    assert!(info.is_effect(GlobalReactionId::from_raw(10), PortId(3)));
    assert!(info.is_effect(GlobalReactionId::from_raw(20), PortId(1)));
    assert!(!info.is_effect(GlobalReactionId::from_raw(10), PortId(1)));
    assert!(!info.is_effect(GlobalReactionId::from_raw(30), PortId(3)));
    assert_eq!(info.trigger_count(), 4);
    assert_eq!(info.reaction_count(), 3);
    assert_eq!(info.level_of(0), 0);
    assert_eq!(info.level_of(1), 1);
    assert_eq!(info.level_of(2), 2);
    assert_eq!(info.reaction_at(1), GlobalReactionId::from_raw(20));

    let startup = info.reactions_triggered_by(TriggerId(0));
    assert!(startup.contains(0, GlobalReactionId::from_raw(10)));
    assert_eq!(startup.level_count(), 1);

    let two = info.reactions_triggered_by(TriggerId(2));
    assert_eq!(two.batch(0), vec![]);
    assert_eq!(two.batch(1), vec![GlobalReactionId::from_raw(20)]);
    assert_eq!(two.batch(2), vec![GlobalReactionId::from_raw(30)]);

    assert!(info.reactions_triggered_by(TriggerId(1)).is_empty());
    assert!(info.reactions_triggered_by(TriggerId(3)).is_empty());
    assert!(info.reactions_triggered_by(TriggerId(99)).is_empty());
}

#[test]
fn a_cyclic_program_has_no_dataflow() {
    let g = graph(2, &[(0, 1), (1, 0)]);
    let reactions = vec![GlobalReactionId::from_raw(0), GlobalReactionId::from_raw(1)];
    match DataflowInfo::new(&g, reactions, &vec![], 2, vec![]) {
        Err(GraphCycle { node }) => assert!(node < 2),
        Ok(_) => panic!("a cycle was expected"),
    }
}
