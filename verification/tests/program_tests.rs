use reactor_rt::actions::ActionId;
use reactor_rt::assembler::{Assembler, World};
use reactor_rt::context::{process_tag, CleanupCtx, ReactionCtx, ReactorBehavior};
use reactor_rt::error::AssemblyError;
use reactor_rt::ids::{GlobalReactionId, LocalReactionId, ReactorId, TriggerId};
use reactor_rt::ports::{PortId, PortPool};
use reactor_rt::scheduler::{RuntimeFault, SyncScheduler, SchedulerOptions, Step};
use reactor_rt::time::Tag;
use reactor_rt::timers::Timer;
use reactor_rt::ExecutableReactions;

const MS: u64 = 1_000_000;

fn reaction(reactor: ReactorId, local: u16) -> GlobalReactionId {
    GlobalReactionId::new(reactor, LocalReactionId::new(local))
}

/// Runs a program to its end on a clock that jumps to the instant of
/// every wait, and returns the tags that were processed, the startup and
/// the shutdown wave included.
fn run<T: Copy, R: ReactorBehavior<T>>(
    options: SchedulerOptions,
    world: World<T>,
    timers: &Vec<Timer>,
    reactors: &mut Vec<R>,
) -> Vec<Tag> {
    let World { ports, dataflow, .. } = world;
    let mut ports = ports;
    let mut now: u64 = 0;
    let mut processed = Vec::new();
    let mut scheduler = SyncScheduler::new(options);

    let mut next = Some(scheduler.launch(&dataflow, timers, now));
    loop {
        if let Some((tag, roots)) = next.take() {
            processed.push(tag);
            let out = process_tag(reactors, ports, &dataflow, tag, roots);
            assert_eq!(out.fault, None);
            ports = out.ports;
            scheduler.after_tag(&dataflow, timers, tag, out.future, out.stop);
        }
        let mut step = scheduler.next_step(now);
        if let Step::Wait { event, delay } = step {
            now += delay;
            step = scheduler.resolve_wait(event, None);
        }
        match step {
            Step::Process { tag, reactions } => next = Some((tag, reactions)),
            Step::Exit => break,
            Step::Receive { .. } => {
                if let Step::Exit = scheduler.on_receive(None) {
                    break;
                }
            }
            Step::Restart => {}
            Step::Wait { .. } => unreachable!(),
            Step::Fault(f) => panic!("fault: {:?}", f),
        }
    }
    let (last, roots) = scheduler.shut_down(&dataflow, now).unwrap();
    processed.push(last);
    let out = process_tag(reactors, ports, &dataflow, last, roots);
    assert_eq!(out.fault, None);
    processed
}

// ---- ping and pong ----

enum PingPong {
    Main,
    Ping { pings_left: u32, send: PortId, serve: ActionId },
    Pong { count: u32, seen_at_shutdown: Option<u32>, send: PortId, receive: PortId },
}

impl ReactorBehavior<u32> for PingPong {
    fn id(&self) -> ReactorId {
        match self {
            PingPong::Main => ReactorId::new(0),
            PingPong::Ping { .. } => ReactorId::new(1),
            PingPong::Pong { .. } => ReactorId::new(2),
        }
    }

    fn react<'a>(&mut self, ctx: &mut ReactionCtx<'a, u32>, local_rid: LocalReactionId) {
        match self {
            PingPong::Main => panic!("the main reactor has no reactions"),
            PingPong::Ping { pings_left, send, serve } => match local_rid.raw() {
                0 => {
                    ctx.set(*send, *pings_left).unwrap();
                    *pings_left -= 1;
                }
                1 => {
                    if *pings_left > 0 {
                        ctx.schedule(serve, 0).unwrap();
                    } else {
                        ctx.request_stop(0).unwrap();
                    }
                }
                other => panic!("invalid reaction {}", other),
            },
            PingPong::Pong { count, seen_at_shutdown, send, receive } => match local_rid.raw() {
                0 => {
                    *count += 1;
                    let v = ctx.get(*receive).unwrap();
                    ctx.set(*send, v).unwrap();
                }
                1 => *seen_at_shutdown = Some(*count),
                other => panic!("invalid reaction {}", other),
            },
        }
    }

    fn cleanup_tag(&mut self, _ctx: &CleanupCtx) {}
}

fn ping_pong(count: u32) -> (World<u32>, Vec<PingPong>) {
    let mut a: Assembler<u32> = Assembler::new(0);

    let ping = a.new_subreactor("ping", 2).unwrap();
    let ping_send = a.new_output_port("send").unwrap();
    let ping_receive = a.new_input_port("receive").unwrap();
    let serve = a.new_action("serve", None, true).unwrap();
    a.action_triggers(serve, reaction(ping, 0));
    a.declare_triggers(TriggerId::startup(), reaction(ping, 0));
    a.reaction_affects(reaction(ping, 0), &ping_send).unwrap();
    a.reaction_uses(reaction(ping, 1), &ping_receive);
    a.reaction_schedules(reaction(ping, 1), serve);
    a.end_subreactor();

    let pong = a.new_subreactor("pong", 2).unwrap();
    let pong_send = a.new_output_port("send").unwrap();
    let pong_receive = a.new_input_port("receive").unwrap();
    a.reaction_uses(reaction(pong, 0), &pong_receive);
    a.reaction_affects(reaction(pong, 0), &pong_send).unwrap();
    a.declare_triggers(TriggerId::shutdown(), reaction(pong, 1));
    a.end_subreactor();

    a.bind_ports(&ping_send, &pong_receive).unwrap();
    a.bind_ports(&pong_send, &ping_receive).unwrap();

    let world = a.make_world().unwrap();
    let reactors = vec![
        PingPong::Main,
        PingPong::Ping { pings_left: count, send: ping_send, serve },
        PingPong::Pong { count: 0, seen_at_shutdown: None, send: pong_send, receive: pong_receive },
    ];
    (world, reactors)
}

#[test]
fn ping_pong_levels() {
    let (world, _) = ping_pong(1);
    // ping serves, pong echoes, ping receives; pong's shutdown reaction
    // comes after its echo
    assert_eq!(world.dataflow.level_of(0), 0);
    assert_eq!(world.dataflow.level_of(1), 2);
    assert_eq!(world.dataflow.level_of(2), 1);
    assert_eq!(world.dataflow.level_of(3), 2);
}

#[test]
fn ping_pong_counts_a_thousand() {
    let (world, mut reactors) = ping_pong(1000);
    let processed = run(SchedulerOptions { keep_alive: false, timeout: None }, world, &vec![], &mut reactors);
    match &reactors[2] {
        PingPong::Pong { count, seen_at_shutdown, .. } => {
            assert_eq!(*count, 1000);
            assert_eq!(*seen_at_shutdown, Some(1000));
        }
        _ => panic!("pong expected"),
    }
    match &reactors[1] {
        PingPong::Ping { pings_left, .. } => assert_eq!(*pings_left, 0),
        _ => panic!("ping expected"),
    }
    // one tag per ping, each one microstep after the other, then shutdown
    assert_eq!(processed.len(), 1001);
    for (i, tag) in processed.iter().enumerate() {
        assert_eq!(*tag, Tag::new(0, i as u32));
    }
}

#[test]
fn ping_pong_once() {
    let (world, mut reactors) = ping_pong(1);
    let processed = run(SchedulerOptions::default(), world, &vec![], &mut reactors);
    assert_eq!(processed, vec![Tag::new(0, 0), Tag::new(0, 1)]);
    match &reactors[2] {
        PingPong::Pong { seen_at_shutdown, .. } => assert_eq!(*seen_at_shutdown, Some(1)),
        _ => panic!("pong expected"),
    }
}

// ---- a timer and an action ----

struct Ticker {
    later: ActionId,
    seen: Vec<(u64, u16)>,
}

impl ReactorBehavior<u8> for Ticker {
    fn id(&self) -> ReactorId {
        ReactorId::new(0)
    }

    fn react<'a>(&mut self, ctx: &mut ReactionCtx<'a, u8>, local_rid: LocalReactionId) {
        self.seen.push((ctx.tag().instant, local_rid.raw()));
        if local_rid.raw() == 0 {
            assert_eq!(ctx.schedule(&self.later, 50 * MS), Some(Tag::at(ctx.tag().instant + 50 * MS)));
        }
    }

    fn cleanup_tag(&mut self, _ctx: &CleanupCtx) {}
}

fn ticker(offset: u64, period: u64) -> (World<u8>, Vec<Timer>, Vec<Ticker>) {
    let mut a: Assembler<u8> = Assembler::new(2);
    let timer = a.new_timer("tick", offset, period).unwrap();
    let later = a.new_action("later", None, true).unwrap();
    let r0 = reaction(ReactorId::new(0), 0);
    let r1 = reaction(ReactorId::new(0), 1);
    a.declare_triggers(timer.trigger, r0);
    a.reaction_schedules(r0, later);
    a.action_triggers(later, r1);
    let world = a.make_world().unwrap();
    (world, vec![timer], vec![Ticker { later, seen: Vec::new() }])
}

#[test]
fn a_timer_and_an_action_take_turns() {
    let (world, timers, mut reactors) = ticker(0, 100 * MS);
    let options = SchedulerOptions { keep_alive: false, timeout: Some(250 * MS) };
    let processed = run(options, world, &timers, &mut reactors);
    let instants: Vec<u64> = processed.iter().map(|t| t.instant / MS).collect();
    // the last one is the shutdown wave, at the time of shutdown
    assert_eq!(instants, vec![0, 50, 100, 150, 200, 250, 250]);
    assert_eq!(processed[5], Tag::at(250 * MS));
    assert_eq!(processed[6], Tag::new(250 * MS, 1));
    assert_eq!(
        reactors[0].seen,
        vec![
            (0, 0),
            (50 * MS, 1),
            (100 * MS, 0),
            (150 * MS, 1),
            (200 * MS, 0),
            (250 * MS, 1),
        ]
    );
}

#[test]
fn a_timer_with_an_offset_fires_first_at_the_offset() {
    let (world, timers, mut reactors) = ticker(30 * MS, 100 * MS);
    let options = SchedulerOptions { keep_alive: false, timeout: Some(200 * MS) };
    run(options, world, &timers, &mut reactors);
    assert_eq!(
        reactors[0].seen,
        vec![(30 * MS, 0), (80 * MS, 1), (130 * MS, 0), (180 * MS, 1)]
    );
}

#[test]
fn a_timer_without_period_fires_once_and_the_program_ends() {
    let (world, timers, mut reactors) = ticker(10 * MS, 0);
    let processed = run(SchedulerOptions::default(), world, &timers, &mut reactors);
    assert_eq!(reactors[0].seen, vec![(10 * MS, 0), (60 * MS, 1)]);
    // the shutdown wave comes one microstep after the last tag
    assert_eq!(
        processed,
        vec![Tag::at(0), Tag::at(10 * MS), Tag::at(60 * MS), Tag::new(60 * MS, 1)]
    );
}

#[test]
fn without_events_the_program_ends_after_the_startup_wave() {
    let a: Assembler<u8> = Assembler::new(0);
    let world = a.make_world().unwrap();
    let mut reactors: Vec<Ticker> = Vec::new();
    let processed = run(SchedulerOptions::default(), world, &vec![], &mut reactors);
    assert_eq!(processed, vec![Tag::at(0), Tag::new(0, 1)]);
}

// ---- precedence within a tag ----

struct Chain {
    p: PortId,
    q: PortId,
    log: Vec<(u16, Option<u8>)>,
    refused: Option<AssemblyError>,
}

impl ReactorBehavior<u8> for Chain {
    fn id(&self) -> ReactorId {
        ReactorId::new(0)
    }

    fn react<'a>(&mut self, ctx: &mut ReactionCtx<'a, u8>, local_rid: LocalReactionId) {
        self.log.push((local_rid.raw(), ctx.get(self.q)));
        if local_rid.raw() == 0 {
            ctx.set(self.p, 17).unwrap();
            self.refused = ctx.set(self.q, 1).err();
        }
    }

    fn cleanup_tag(&mut self, _ctx: &CleanupCtx) {}
}

fn chain() -> (World<u8>, Vec<Chain>, GlobalReactionId, GlobalReactionId) {
    let mut a: Assembler<u8> = Assembler::new(2);
    let r1 = reaction(ReactorId::new(0), 0);
    let r2 = reaction(ReactorId::new(0), 1);
    let p = a.new_input_port("p").unwrap();
    let q = a.new_output_port("q").unwrap();
    a.bind_ports(&p, &q).unwrap();
    a.reaction_affects(r1, &p).unwrap();
    a.reaction_uses(r2, &q);
    a.declare_triggers(TriggerId::startup(), r1);
    let world = a.make_world().unwrap();
    (world, vec![Chain { p, q, log: Vec::new(), refused: None }], r1, r2)
}

#[test]
fn a_write_sets_off_the_reader_later_in_the_same_tag() {
    let (world, mut reactors, r1, _) = chain();
    let World { ports, dataflow, .. } = world;
    let mut roots = ExecutableReactions::new();
    roots.insert(0, r1);
    let out = process_tag(&mut reactors, ports, &dataflow, Tag::at(5), roots);
    assert_eq!(out.fault, None);
    assert!(out.future.is_empty());
    assert_eq!(out.stop, None);
    // the writer ran first and saw nothing; the reader saw the value
    assert_eq!(reactors[0].log, vec![(0, None), (1, Some(17))]);
    assert_eq!(out.reactions.batch(0), vec![r1]);
    assert_eq!(out.reactions.batch(1), vec![reaction(ReactorId::new(0), 1)]);
    assert_eq!(reactors[0].refused, Some(AssemblyError::CannotSet(reactors[0].q)));
    // the tag is over: the ports are empty again
    assert_eq!(out.ports.get(reactors[0].p), None);
    assert_eq!(out.ports.get(reactors[0].q), None);
}

#[test]
fn reactions_run_by_level_whatever_the_order_of_the_roots() {
    let (world, mut reactors, r1, r2) = chain();
    let World { ports, dataflow, .. } = world;
    let mut roots = ExecutableReactions::new();
    roots.insert(1, r2);
    roots.insert(0, r1);
    let out = process_tag(&mut reactors, ports, &dataflow, Tag::at(5), roots);
    assert_eq!(out.fault, None);
    assert_eq!(reactors[0].log, vec![(0, None), (1, Some(17))]);
}

#[test]
fn a_reaction_of_an_unknown_reactor_is_a_fault() {
    let (world, mut reactors, _, _) = chain();
    let World { ports, dataflow, .. } = world;
    let stray = reaction(ReactorId::new(3), 0);
    let mut roots = ExecutableReactions::new();
    roots.insert(0, stray);
    let out = process_tag(&mut reactors, ports, &dataflow, Tag::at(5), roots);
    assert_eq!(out.fault, Some(RuntimeFault::UnknownReactor { reaction: stray }));
    assert!(reactors[0].log.is_empty());
}

struct Meddler {
    other: PortId,
    answer: Option<Result<(), AssemblyError>>,
}

impl ReactorBehavior<u8> for Meddler {
    fn id(&self) -> ReactorId {
        ReactorId::new(0)
    }

    fn react<'a>(&mut self, ctx: &mut ReactionCtx<'a, u8>, _local_rid: LocalReactionId) {
        let answer = ctx.set(self.other, 1);
        assert_eq!(ctx.get(self.other), answer.ok().map(|_| 1));
        self.answer = Some(answer);
    }

    fn cleanup_tag(&mut self, _ctx: &CleanupCtx) {}
}

#[test]
fn a_reaction_writes_only_where_it_has_declared_to() {
    let mut a: Assembler<u8> = Assembler::new(2);
    let r0 = reaction(ReactorId::new(0), 0);
    let r1 = reaction(ReactorId::new(0), 1);
    let other = a.new_output_port("other").unwrap();
    a.reaction_affects(r1, &other).unwrap();
    let world = a.make_world().unwrap();
    assert!(world.dataflow.is_effect(r1, other));
    assert!(!world.dataflow.is_effect(r0, other));
    let World { ports, dataflow, .. } = world;
    let mut reactors = vec![Meddler { other, answer: None }];
    let mut roots = ExecutableReactions::new();
    roots.insert(0, r0);
    let out = process_tag(&mut reactors, ports, &dataflow, Tag::at(0), roots);
    assert_eq!(reactors[0].answer, Some(Err(AssemblyError::CannotSet(other))));
    let mut roots = ExecutableReactions::new();
    roots.insert(1, r1);
    let out = process_tag(&mut reactors, out.ports, &dataflow, Tag::at(1), roots);
    assert_eq!(out.fault, None);
    assert_eq!(reactors[0].answer, Some(Ok(())));
}

// ---- reactors of different types in one pool ----

struct Source {
    out: PortId,
}

struct Sink {
    inp: PortId,
    got: std::rc::Rc<std::cell::Cell<Option<u8>>>,
    cleaned: std::rc::Rc<std::cell::Cell<Option<Tag>>>,
}

impl ReactorBehavior<u8> for Source {
    fn id(&self) -> ReactorId {
        ReactorId::new(0)
    }

    fn react<'a>(&mut self, ctx: &mut ReactionCtx<'a, u8>, _local_rid: LocalReactionId) {
        ctx.set(self.out, 99).unwrap();
    }

    fn cleanup_tag(&mut self, _ctx: &CleanupCtx) {}
}

impl ReactorBehavior<u8> for Sink {
    fn id(&self) -> ReactorId {
        ReactorId::new(1)
    }

    fn react<'a>(&mut self, ctx: &mut ReactionCtx<'a, u8>, _local_rid: LocalReactionId) {
        self.got.set(ctx.get(self.inp));
    }

    fn cleanup_tag(&mut self, ctx: &CleanupCtx) {
        self.cleaned.set(Some(ctx.tag));
    }
}

#[test]
fn boxed_reactors_share_a_pool() {
    let mut a: Assembler<u8> = Assembler::new(1);
    let out = a.new_input_port("out").unwrap();
    let source = reaction(ReactorId::new(0), 0);
    a.reaction_affects(source, &out).unwrap();
    let sink_id = a.new_subreactor("sink", 1).unwrap();
    let inp = a.new_input_port("in").unwrap();
    a.reaction_uses(reaction(sink_id, 0), &inp);
    a.end_subreactor();
    a.bind_ports(&out, &inp).unwrap();
    let World { ports, dataflow, .. } = a.make_world().unwrap();

    let got = std::rc::Rc::new(std::cell::Cell::new(None));
    let cleaned = std::rc::Rc::new(std::cell::Cell::new(None));
    let mut reactors: Vec<Box<dyn ReactorBehavior<u8>>> = vec![
        Box::new(Source { out }),
        Box::new(Sink { inp, got: got.clone(), cleaned: cleaned.clone() }),
    ];
    assert_eq!(reactors[1].id(), ReactorId::new(1));
    let mut roots = ExecutableReactions::new();
    roots.insert(0, source);
    let out = process_tag(&mut reactors, ports, &dataflow, Tag::at(3), roots);
    assert_eq!(out.fault, None);
    assert_eq!(got.get(), Some(99));
    assert_eq!(cleaned.get(), Some(Tag::at(3)));
}

#[test]
fn a_tag_without_reactions_runs_nothing_but_ends_for_every_reactor() {
    let (world, mut reactors, _, _) = chain();
    let World { mut ports, dataflow, .. } = world;
    ports.set(reactors[0].p, 4).unwrap();
    let out = process_tag(&mut reactors, ports, &dataflow, Tag::at(5), ExecutableReactions::new());
    assert_eq!(out.fault, None);
    assert!(out.future.is_empty());
    assert_eq!(out.stop, None);
    assert!(out.reactions.is_empty());
    assert!(reactors[0].log.is_empty());
    assert_eq!(out.ports.get(reactors[0].p), None);
}

#[test]
fn a_fault_stops_the_tag_where_it_stands() {
    let (world, mut reactors, r1, r2) = chain();
    let World { ports, dataflow, .. } = world;
    // at level zero: a known reaction, then one of an unknown reactor
    let stray = reaction(ReactorId::new(7), 0);
    let mut roots = ExecutableReactions::new();
    roots.insert(0, stray);
    roots.insert(0, r1);
    let out = process_tag(&mut reactors, ports, &dataflow, Tag::at(5), roots);
    assert_eq!(out.fault, Some(RuntimeFault::UnknownReactor { reaction: stray }));
    // the known reaction ran, and set off the reader, which did not run
    assert_eq!(reactors[0].log, vec![(0, None)]);
    assert!(out.reactions.contains(0, r1));
    assert!(out.reactions.contains(0, stray));
    assert!(out.reactions.contains(1, r2));
    assert_eq!(out.ports.get(reactors[0].p), None);
}

#[test]
fn a_reaction_can_ask_whether_a_port_exists() {
    struct Asks {
        p: PortId,
        answers: Vec<bool>,
    }
    impl ReactorBehavior<u8> for Asks {
        fn id(&self) -> ReactorId {
            ReactorId::new(0)
        }
        fn react<'a>(&mut self, ctx: &mut ReactionCtx<'a, u8>, _local_rid: LocalReactionId) {
            self.answers.push(ctx.has_port(self.p));
            self.answers.push(ctx.has_port(PortId(1)));
            self.answers.push(ctx.has_port(PortId(u32::MAX)));
        }
        fn cleanup_tag(&mut self, _ctx: &CleanupCtx) {}
    }
    let mut a: Assembler<u8> = Assembler::new(1);
    let p = a.new_output_port("p").unwrap();
    let World { ports, dataflow, .. } = a.make_world().unwrap();
    let mut reactors = vec![Asks { p, answers: Vec::new() }];
    let mut roots = ExecutableReactions::new();
    roots.insert(0, reaction(ReactorId::new(0), 0));
    process_tag(&mut reactors, ports, &dataflow, Tag::at(0), roots);
    assert_eq!(reactors[0].answers, vec![true, false, false]);
}

// ---- what a reaction can ask for ----

struct Asker {
    action: ActionId,
    answers: Vec<Option<Tag>>,
}

impl ReactorBehavior<u8> for Asker {
    fn id(&self) -> ReactorId {
        ReactorId::new(0)
    }

    fn react<'a>(&mut self, ctx: &mut ReactionCtx<'a, u8>, _local_rid: LocalReactionId) {
        self.answers.push(ctx.schedule(&self.action, 0));
        self.answers.push(ctx.schedule(&self.action, 100));
        self.answers.push(ctx.schedule(&self.action, u64::MAX));
        self.answers.push(ctx.request_stop(70));
        self.answers.push(ctx.request_stop(0));
        self.answers.push(ctx.request_stop(90));
    }

    fn cleanup_tag(&mut self, _ctx: &CleanupCtx) {}
}

#[test]
fn scheduling_and_stopping_from_a_reaction() {
    let mut a: Assembler<u8> = Assembler::new(1);
    let action = a.new_action("act", Some(20), true).unwrap();
    let r = reaction(ReactorId::new(0), 0);
    a.action_triggers(action, r);
    let world = a.make_world().unwrap();
    let World { ports, dataflow, .. } = world;
    let mut reactors = vec![Asker { action, answers: Vec::new() }];
    let mut roots = ExecutableReactions::new();
    roots.insert(0, r);
    let now = Tag::new(1000, 4);
    let out = process_tag(&mut reactors, ports, &dataflow, now, roots);
    assert_eq!(
        reactors[0].answers,
        vec![
            Some(Tag::new(1020, 0)),
            Some(Tag::new(1100, 0)),
            None,
            Some(Tag::new(1070, 0)),
            Some(Tag::new(1000, 5)),
            Some(Tag::new(1090, 0)),
        ]
    );
    let tags: Vec<Tag> = out.future.iter().map(|e| e.tag).collect();
    assert_eq!(tags, vec![Tag::new(1020, 0), Tag::new(1100, 0)]);
    assert_eq!(out.stop, Some(Tag::new(1000, 5)));
}

#[test]
fn a_pool_outlives_a_tag() {
    let mut pool: PortPool<u8> = PortPool::new();
    let p = pool.add_port(reactor_rt::ports::PortKind::Output, ReactorId::new(0), TriggerId(2));
    pool.set(p, 3).unwrap();
    pool.cleanup_tag();
    assert_eq!(pool.get(p), None);
    pool.set(p, 4).unwrap();
    assert_eq!(pool.get(p), Some(4));
}
