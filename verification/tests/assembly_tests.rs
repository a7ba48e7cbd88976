use reactor_rt::assembler::{Assembler, GlobalId, RunnableReactor};
use reactor_rt::error::AssemblyError;
use reactor_rt::ids::{GlobalReactionId, LocalReactionId, ReactorId, TriggerId};
use reactor_rt::ports::{PortId, PortKind};
use reactor_rt::timers::Timer;

fn reaction(reactor: ReactorId, local: u16) -> GlobalReactionId {
    GlobalReactionId::new(reactor, LocalReactionId::new(local))
}

#[test]
fn names_are_unique_within_a_reactor() {
    let mut a: Assembler<u8> = Assembler::new(0);
    assert_eq!(a.new_id("x"), Ok(GlobalId { container: ReactorId::new(0), index: 0 }));
    assert_eq!(a.new_id("y"), Ok(GlobalId { container: ReactorId::new(0), index: 1 }));
    assert_eq!(a.new_id("x"), Err(AssemblyError::DuplicateName(0)));
    assert_eq!(a.new_input_port("y"), Err(AssemblyError::DuplicateName(1)));
    assert_eq!(a.new_output_port("y"), Err(AssemblyError::DuplicateName(1)));
    assert_eq!(a.new_action("x", None, true), Err(AssemblyError::DuplicateName(0)));
    assert_eq!(a.new_timer("x", 0, 0), Err(AssemblyError::DuplicateName(0)));
    assert_eq!(a.new_subreactor("y", 0), Err(AssemblyError::DuplicateName(1)));
    assert_eq!(a.new_id(""), Ok(GlobalId { container: ReactorId::new(0), index: 2 }));
    assert_eq!(a.new_id(""), Err(AssemblyError::DuplicateName(2)));
}

#[test]
fn a_name_may_be_used_again_in_another_reactor() {
    let mut a: Assembler<u8> = Assembler::new(0);
    assert_eq!(a.current(), ReactorId::new(0));
    assert_eq!(a.sub_id_for(), ReactorId::new(1));
    let child = a.new_subreactor("child", 0).unwrap();
    assert_eq!(child, ReactorId::new(1));
    assert_eq!(a.current(), child);
    assert_eq!(a.new_input_port("child"), Ok(PortId(0)));
    assert_eq!(a.new_input_port("in"), Ok(PortId(1)));
    a.end_subreactor();
    assert_eq!(a.current(), ReactorId::new(0));
    assert_eq!(a.new_input_port("in"), Ok(PortId(2)));
    assert_eq!(a.new_input_port("child"), Err(AssemblyError::DuplicateName(0)));
    assert_eq!(a.sub_id_for(), ReactorId::new(2));
}

#[test]
fn components_get_triggers_in_the_order_of_their_creation() {
    let mut a: Assembler<u8> = Assembler::new(0);
    let p = a.new_input_port("p").unwrap();
    let act = a.new_action("a", Some(5), false).unwrap();
    let t = a.new_timer("t", 10, 20).unwrap();
    let q = a.new_output_port("q").unwrap();
    assert_eq!(act.trigger, TriggerId(3));
    assert_eq!(act.min_delay, 5);
    assert!(!act.is_logical);
    assert_eq!(t, Timer { trigger: TriggerId(4), offset: 10, period: 20 });
    let world = a.make_world().unwrap();
    assert_eq!(world.ports.trigger(p), TriggerId(2));
    assert_eq!(world.ports.trigger(q), TriggerId(5));
    assert_eq!(world.ports.kind(p), PortKind::Input);
    assert_eq!(world.ports.kind(q), PortKind::Output);
    assert_eq!(world.ports.owner(q), ReactorId::new(0));
    assert_eq!(world.dataflow.trigger_count(), 6);
}

#[test]
fn reactions_have_nodes_in_the_order_of_their_reactors() {
    let mut a: Assembler<u8> = Assembler::new(2);
    let c = a.new_subreactor("c", 3).unwrap();
    a.end_subreactor();
    assert_eq!(a.node_of(reaction(ReactorId::new(0), 0)), Some(0));
    assert_eq!(a.node_of(reaction(ReactorId::new(0), 1)), Some(1));
    assert_eq!(a.node_of(reaction(ReactorId::new(0), 2)), None);
    assert_eq!(a.node_of(reaction(c, 0)), Some(2));
    assert_eq!(a.node_of(reaction(c, 2)), Some(4));
    assert_eq!(a.node_of(reaction(c, 3)), None);
    assert_eq!(a.node_of(reaction(ReactorId::new(9), 0)), None);
}

#[test]
fn the_reactions_of_a_reactor_run_in_the_order_of_their_declaration() {
    let mut a: Assembler<u8> = Assembler::new(0);
    let c = a.new_subreactor("c", 3).unwrap();
    for k in 0..3 {
        a.declare_triggers(TriggerId::startup(), reaction(c, k));
    }
    a.end_subreactor();
    let world = a.make_world().unwrap();
    assert_eq!(world.dataflow.level_of(0), 0);
    assert_eq!(world.dataflow.level_of(1), 1);
    assert_eq!(world.dataflow.level_of(2), 2);
    let startup = world.dataflow.reactions_triggered_by(TriggerId::startup());
    assert_eq!(startup.batch(0), vec![reaction(c, 0)]);
    assert_eq!(startup.batch(1), vec![reaction(c, 1)]);
    assert_eq!(startup.batch(2), vec![reaction(c, 2)]);
}

struct Pair {
    writer: ReactorId,
    reader: ReactorId,
    out: PortId,
    inp: PortId,
}

fn writer_and_reader(a: &mut Assembler<u8>) -> Pair {
    let writer = a.new_subreactor("writer", 1).unwrap();
    let out = a.new_output_port("out").unwrap();
    a.declare_triggers(TriggerId::startup(), reaction(writer, 0));
    assert_eq!(a.reaction_affects(reaction(writer, 0), &out), Ok(()));
    a.end_subreactor();
    let reader = a.new_subreactor("reader", 1).unwrap();
    let inp = a.new_input_port("in").unwrap();
    a.reaction_uses(reaction(reader, 0), &inp);
    a.end_subreactor();
    Pair { writer, reader, out, inp }
}

#[test]
fn a_reaction_that_writes_comes_before_the_reaction_that_reads() {
    let mut a: Assembler<u8> = Assembler::new(0);
    let p = writer_and_reader(&mut a);
    assert_eq!(a.bind_ports(&p.out, &p.inp), Ok(()));
    let world = a.make_world().unwrap();
    assert_eq!(world.dataflow.level_of(0), 0);
    assert_eq!(world.dataflow.level_of(1), 1);
    // the write to the root sets off the reader, through the binding
    let set_off = world.dataflow.reactions_triggered_by(world.ports.trigger(p.out));
    assert_eq!(set_off.batch(0), vec![]);
    assert_eq!(set_off.batch(1), vec![reaction(p.reader, 0)]);
    assert!(world.dataflow.reactions_triggered_by(world.ports.trigger(p.inp)).is_empty());
    let startup = world.dataflow.reactions_triggered_by(TriggerId::startup());
    assert_eq!(startup.batch(0), vec![reaction(p.writer, 0)]);
}

#[test]
fn a_reaction_sets_off_what_its_ports_set_off() {
    let mut a: Assembler<u8> = Assembler::new(0);
    let p = writer_and_reader(&mut a);
    let second = a.new_subreactor("second", 2).unwrap();
    let second_in = a.new_input_port("in").unwrap();
    a.reaction_uses(reaction(second, 1), &second_in);
    a.end_subreactor();
    assert_eq!(a.bind_ports(&p.out, &p.inp), Ok(()));
    assert_eq!(a.bind_ports(&p.out, &second_in), Ok(()));
    let world = a.make_world().unwrap();
    let down = world.downstream_of(reaction(p.writer, 0));
    assert_eq!(down.batch(0), vec![]);
    assert_eq!(down.batch(1), vec![reaction(p.reader, 0), reaction(second, 1)]);
    assert!(world.downstream_of(reaction(p.reader, 0)).is_empty());
    assert!(world.downstream_of(reaction(second, 0)).is_empty());
}

#[test]
fn declaring_the_trigger_of_a_port_declares_a_reader() {
    let mut a: Assembler<u8> = Assembler::new(2);
    let p = a.new_output_port("p").unwrap();
    let r0 = reaction(ReactorId::new(0), 0);
    let r1 = reaction(ReactorId::new(0), 1);
    assert_eq!(a.trigger_of(p), TriggerId(2));
    // the later reaction writes, the earlier one reads: a cycle
    a.declare_triggers(a.trigger_of(p), r0);
    assert_eq!(a.reaction_affects(r1, &p), Ok(()));
    assert!(a.make_world().is_err());

    let mut b: Assembler<u8> = Assembler::new(2);
    let q = b.new_output_port("q").unwrap();
    b.declare_triggers(b.trigger_of(q), r1);
    assert_eq!(b.reaction_affects(r0, &q), Ok(()));
    let world = b.make_world().unwrap();
    assert_eq!(world.dataflow.reactions_triggered_by(TriggerId(2)).batch(1), vec![r1]);
}

#[test]
fn without_a_binding_the_reactions_are_not_ordered() {
    let mut a: Assembler<u8> = Assembler::new(0);
    let p = writer_and_reader(&mut a);
    let world = a.make_world().unwrap();
    assert_eq!(world.dataflow.level_of(0), 0);
    assert_eq!(world.dataflow.level_of(1), 0);
    assert!(world.dataflow.reactions_triggered_by(world.ports.trigger(p.out)).is_empty());
    let own = world.dataflow.reactions_triggered_by(world.ports.trigger(p.inp));
    assert_eq!(own.batch(0), vec![reaction(p.reader, 0)]);
}

#[test]
fn a_port_that_a_reaction_writes_to_cannot_be_bound() {
    let mut a: Assembler<u8> = Assembler::new(0);
    let w = a.new_subreactor("w", 1).unwrap();
    let w_in = a.new_input_port("in").unwrap();
    a.end_subreactor();
    a.new_subreactor("v", 0).unwrap();
    let v_out = a.new_output_port("out").unwrap();
    a.end_subreactor();
    assert_eq!(a.reaction_affects(reaction(w, 0), &w_in), Ok(()));
    assert_eq!(a.bind_ports(&v_out, &w_in), Err(AssemblyError::CannotBind(v_out, w_in)));
}

#[test]
fn a_bound_port_cannot_be_declared_as_written() {
    let mut a: Assembler<u8> = Assembler::new(1);
    a.new_subreactor("v", 0).unwrap();
    let v_out = a.new_output_port("out").unwrap();
    a.end_subreactor();
    a.new_subreactor("w", 0).unwrap();
    let w_in = a.new_input_port("in").unwrap();
    a.end_subreactor();
    assert_eq!(a.bind_ports(&v_out, &w_in), Ok(()));
    assert_eq!(
        a.reaction_affects(reaction(ReactorId::new(0), 0), &w_in),
        Err(AssemblyError::CannotSet(w_in))
    );
    assert_eq!(a.reaction_affects(reaction(ReactorId::new(0), 0), &v_out), Ok(()));
}

#[test]
fn connections_follow_the_hierarchy() {
    let mut a: Assembler<u8> = Assembler::new(0);
    let own_in = a.new_input_port("in").unwrap();
    let own_out = a.new_output_port("out").unwrap();
    a.new_subreactor("c1", 0).unwrap();
    let c1_in = a.new_input_port("in").unwrap();
    let c1_out = a.new_output_port("out").unwrap();
    a.new_subreactor("grandchild", 0).unwrap();
    let g_in = a.new_input_port("in").unwrap();
    a.end_subreactor();
    a.end_subreactor();
    a.new_subreactor("c2", 0).unwrap();
    let c2_in = a.new_input_port("in").unwrap();
    let c2_out = a.new_output_port("out").unwrap();
    a.end_subreactor();

    let refused = |up: PortId, down: PortId| Err(AssemblyError::CannotBind(up, down));
    // a child is not connected to itself
    assert_eq!(a.bind_ports(&c1_out, &c1_in), refused(c1_out, c1_in));
    // an input of a child is no upstream, an output of a child no downstream
    assert_eq!(a.bind_ports(&c1_in, &c2_in), refused(c1_in, c2_in));
    assert_eq!(a.bind_ports(&c1_out, &c2_out), refused(c1_out, c2_out));
    // the own output is no upstream, the own input no downstream
    assert_eq!(a.bind_ports(&own_out, &c1_in), refused(own_out, c1_in));
    assert_eq!(a.bind_ports(&c1_out, &own_in), refused(c1_out, own_in));
    // a grandchild is out of reach
    assert_eq!(a.bind_ports(&own_in, &g_in), refused(own_in, g_in));
    // what is allowed
    assert_eq!(a.bind_ports(&c1_out, &c2_in), Ok(()));
    assert_eq!(a.bind_ports(&own_in, &c1_in), Ok(()));
    assert_eq!(a.bind_ports(&c2_out, &own_out), Ok(()));
    // a bound port takes no second upstream
    assert_eq!(a.bind_ports(&own_in, &c2_in), refused(own_in, c2_in));
}

#[test]
fn ports_are_bound_pairwise() {
    let mut a: Assembler<u8> = Assembler::new(0);
    a.new_subreactor("left", 0).unwrap();
    let o1 = a.new_output_port("o1").unwrap();
    let o2 = a.new_output_port("o2").unwrap();
    a.end_subreactor();
    a.new_subreactor("right", 0).unwrap();
    let i1 = a.new_input_port("i1").unwrap();
    let i2 = a.new_input_port("i2").unwrap();
    let i3 = a.new_input_port("i3").unwrap();
    a.end_subreactor();
    assert_eq!(a.bind_ports_zip(&vec![o1, o2], &vec![i1, i2, i3]), Ok(()));
    // the second pair is refused; the first one of this call stays bound
    assert_eq!(
        a.bind_ports_zip(&vec![o2, o1, o1], &vec![i3, i1, i2]),
        Err(AssemblyError::CannotBind(o1, i1))
    );
    assert_eq!(a.bind_ports_zip(&vec![], &vec![i3]), Ok(()));
    let mut world = a.make_world().unwrap();
    assert_eq!(world.ports.root(i1), o1);
    assert_eq!(world.ports.root(i2), o2);
    assert_eq!(world.ports.root(i3), o2);
    world.ports.set(o1, 1).unwrap();
    world.ports.set(o2, 2).unwrap();
    assert_eq!(world.ports.get(i1), Some(1));
    assert_eq!(world.ports.get(i2), Some(2));
    assert_eq!(world.ports.get(i3), Some(2));
}

#[test]
fn an_input_may_feed_the_output_of_the_same_reactor() {
    let mut a: Assembler<u8> = Assembler::new(0);
    let i = a.new_input_port("in").unwrap();
    let o = a.new_output_port("out").unwrap();
    assert_eq!(a.bind_ports(&i, &o), Ok(()));
    assert_eq!(a.bind_ports(&i, &o), Err(AssemblyError::CannotBind(i, o)));
}

#[test]
fn a_loop_of_bindings_is_refused() {
    // a relay whose output is led back to its input by its parent
    let mut a: Assembler<u8> = Assembler::new(0);
    a.new_subreactor("relay", 0).unwrap();
    let r_in = a.new_input_port("in").unwrap();
    let r_out = a.new_output_port("out").unwrap();
    assert_eq!(a.bind_ports(&r_in, &r_out), Ok(()));
    a.end_subreactor();
    a.new_subreactor("other", 0).unwrap();
    let o_in = a.new_input_port("in").unwrap();
    let o_out = a.new_output_port("out").unwrap();
    assert_eq!(a.bind_ports(&o_in, &o_out), Ok(()));
    a.end_subreactor();
    assert_eq!(a.bind_ports(&r_out, &o_in), Ok(()));
    assert_eq!(a.bind_ports(&o_out, &r_in), Err(AssemblyError::CyclicDependency(o_out, r_in)));
}

#[test]
fn reactions_that_feed_each_other_within_a_tag_form_a_cycle() {
    let mut a: Assembler<u8> = Assembler::new(0);
    let x = a.new_subreactor("x", 1).unwrap();
    let x_in = a.new_input_port("in").unwrap();
    let x_out = a.new_output_port("out").unwrap();
    a.reaction_uses(reaction(x, 0), &x_in);
    assert_eq!(a.reaction_affects(reaction(x, 0), &x_out), Ok(()));
    a.end_subreactor();
    let y = a.new_subreactor("y", 1).unwrap();
    let y_in = a.new_input_port("in").unwrap();
    let y_out = a.new_output_port("out").unwrap();
    a.reaction_uses(reaction(y, 0), &y_in);
    assert_eq!(a.reaction_affects(reaction(y, 0), &y_out), Ok(()));
    a.end_subreactor();
    assert_eq!(a.bind_ports(&x_out, &y_in), Ok(()));
    assert_eq!(a.bind_ports(&y_out, &x_in), Ok(()));
    match a.make_world() {
        Err(cycle) => assert!(cycle.node < 2),
        Ok(_) => panic!("a cycle was expected"),
    }
}

#[test]
fn an_action_orders_no_reactions() {
    let mut a: Assembler<u8> = Assembler::new(2);
    let act = a.new_action("again", None, true).unwrap();
    let r0 = reaction(ReactorId::new(0), 0);
    let r1 = reaction(ReactorId::new(0), 1);
    a.action_triggers(act, r0);
    a.reaction_schedules(r1, act);
    let world = a.make_world().unwrap();
    assert_eq!(world.dataflow.level_of(0), 0);
    assert_eq!(world.dataflow.level_of(1), 1);
    let set_off = world.dataflow.reactions_triggered_by(act.trigger);
    assert_eq!(set_off.batch(0), vec![r0]);
    assert_eq!(set_off.level_count(), 1);
}

#[test]
fn errors_have_messages() {
    assert_eq!(
        AssemblyError::CyclicDependency(PortId(3), PortId(1)).message(),
        "Port 3 is already in the downstream of port 1"
    );
    assert_eq!(
        AssemblyError::CannotBind(PortId(0), PortId(12)).message(),
        "Cannot bind 0 to 12, downstream is already bound"
    );
    assert_eq!(
        AssemblyError::CannotSet(PortId(7)).message(),
        "Cannot set 7 explicitly as it is bound"
    );
    assert_eq!(AssemblyError::DuplicateName(2).message(), "Name 2 is already used");
}

#[test]
fn a_runnable_reactor_keeps_reactor_id_and_state() {
    let mut r = RunnableReactor::new("me", ReactorId::new(4), 10u32);
    assert_eq!(*r.reactor(), "me");
    assert_eq!(r.global_id(), ReactorId::new(4));
    assert_eq!(*r.state(), 10);
    r.set_state(11);
    assert_eq!(*r.state(), 11);
    assert_eq!(r.global_id(), ReactorId::new(4));
}

#[test]
fn reactors_have_paths() {
    let mut a: Assembler<u8> = Assembler::new(1);
    let outer = a.new_subreactor("outer", 0).unwrap();
    let inner = a.new_subreactor("inner", 2).unwrap();
    a.end_subreactor();
    a.end_subreactor();
    let other = a.new_subreactor("other", 0).unwrap();
    a.end_subreactor();
    assert_eq!(a.path_of(ReactorId::new(0)), "");
    assert_eq!(a.path_of(outer), "/outer");
    assert_eq!(a.path_of(inner), "/outer/inner");
    assert_eq!(a.path_of(other), "/other");
    let world = a.make_world().unwrap();
    assert_eq!(world.path_of(inner), "/outer/inner");
    assert_eq!(world.paths, vec!["", "/outer", "/outer/inner", "/other"]);
    assert_eq!(world.name_of(reaction(inner, 1)), "/outer/inner:1");
    assert_eq!(world.name_of(reaction(ReactorId::new(0), 0)), ":0");
}
