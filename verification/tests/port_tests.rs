use reactor_rt::{Assembler, GlobalReactionId, LocalReactionId, PortId, World};

struct ProduceReactor {
    output_port: PortId,
}

struct ConsumeReactor {
    input_port: PortId,
}

struct PortRelay {
    input_port: PortId,
    output_port: PortId,
}

struct AppReactor {
    producer: ProduceReactor,
    relay: PortRelay,
    #[allow(dead_code)]
    relay2: PortRelay,
    consumer: ConsumeReactor,
}

fn assemble_producer(assembler: &mut Assembler<i32>) -> ProduceReactor {
    let id = assembler.new_subreactor("producer", 1).unwrap();
    let emit = GlobalReactionId::new(id, LocalReactionId::new(0));
    let emit_action = assembler.new_action("emit", Some(1_000_000_000), true).unwrap();
    let output_port = assembler.new_output_port("output").unwrap();
    assembler.action_triggers(emit_action, emit);
    assembler.reaction_affects(emit, &output_port).unwrap();
    assembler.end_subreactor();
    ProduceReactor { output_port }
}

fn assemble_relay(assembler: &mut Assembler<i32>, name: &str) -> PortRelay {
    assembler.new_subreactor(name, 0).unwrap();
    let input_port = assembler.new_input_port("input").unwrap();
    let output_port = assembler.new_output_port("output").unwrap();
    assembler.bind_ports(&input_port, &output_port).unwrap();
    assembler.end_subreactor();
    PortRelay { input_port, output_port }
}

fn assemble_consumer(assembler: &mut Assembler<i32>) -> ConsumeReactor {
    assembler.new_subreactor("consumer", 1).unwrap();
    let input_port = assembler.new_input_port("input").unwrap();
    assembler.end_subreactor();
    ConsumeReactor { input_port }
}

fn make_app() -> (AppReactor, World<i32>) {
    let mut assembler: Assembler<i32> = Assembler::new(0);
    let producer = assemble_producer(&mut assembler);
    let relay = assemble_relay(&mut assembler, "relay1");
    let relay2 = assemble_relay(&mut assembler, "relay2");
    let consumer = assemble_consumer(&mut assembler);

    assembler.bind_ports(&producer.output_port, &relay.input_port).unwrap();
    assembler.bind_ports(&relay.output_port, &relay2.input_port).unwrap();
    assembler.bind_ports(&relay2.output_port, &consumer.input_port).unwrap();

    let world = assembler.make_world().unwrap();
    (AppReactor { producer, relay, relay2, consumer }, world)
}

fn check_set(v: i32, app: &AppReactor, world: &mut World<i32>) {
    world.ports.set(app.producer.output_port, v).unwrap();

    assert_eq!(Some(v), world.ports.get(app.relay.input_port));
    assert_eq!(Some(v), world.ports.get(app.relay.output_port));
    assert_eq!(Some(v), world.ports.get(app.consumer.input_port));
}

#[test]
fn test_port_flow() {
    let (app, mut world) = make_app();

    check_set(32, &app, &mut world);
    check_set(4, &app, &mut world);
}

#[test]
fn relayed_value_reaches_second_relay() {
    let (app, mut world) = make_app();
    world.ports.set(app.producer.output_port, 7).unwrap();
    assert_eq!(Some(7), world.ports.get(app.relay2.input_port));
    assert_eq!(Some(7), world.ports.get(app.relay2.output_port));
    assert_eq!(app.producer.output_port, world.ports.root(app.consumer.input_port));
}

#[test]
fn ports_are_absent_before_a_write_and_after_cleanup() {
    let (app, mut world) = make_app();
    assert_eq!(None, world.ports.get(app.consumer.input_port));
    world.ports.set(app.producer.output_port, 5).unwrap();
    assert!(world.ports.is_present(app.consumer.input_port));
    world.ports.cleanup_tag();
    assert_eq!(None, world.ports.get(app.producer.output_port));
    assert_eq!(None, world.ports.get(app.relay.input_port));
    assert_eq!(None, world.ports.get(app.relay.output_port));
    assert_eq!(None, world.ports.get(app.consumer.input_port));
    assert!(!world.ports.is_present(app.consumer.input_port));
}
