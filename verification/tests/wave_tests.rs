use reactor_rt::assembler::{Assembler, World};
use reactor_rt::event_queue::EventPayload;
use reactor_rt::ids::{GlobalReactionId, LocalReactionId, ReactorId, TriggerId};
use reactor_rt::time::Tag;
use reactor_rt::timers::Timer;
use reactor_rt::scheduler::{RuntimeFault, SchedulerOptions, Step, SyncScheduler};
use reactor_rt::waves::{due_timers, shutdown_wave, startup_wave};

fn reaction(local: u16) -> GlobalReactionId {
    GlobalReactionId::new(ReactorId::new(0), LocalReactionId::new(local))
}

/// Four reactions: set off by startup, by a timer without offset, by a
/// timer with an offset, and by shutdown.
fn program() -> (World<u8>, Vec<Timer>) {
    let mut a: Assembler<u8> = Assembler::new(4);
    let at_once = a.new_timer("at_once", 0, 100).unwrap();
    let later = a.new_timer("later", 30, 0).unwrap();
    let often = a.new_timer("often", 10, 20).unwrap();
    a.declare_triggers(TriggerId::startup(), reaction(0));
    a.declare_triggers(at_once.trigger, reaction(1));
    a.declare_triggers(later.trigger, reaction(2));
    a.declare_triggers(often.trigger, reaction(2));
    a.declare_triggers(TriggerId::shutdown(), reaction(3));
    (a.make_world().unwrap(), vec![at_once, later, often])
}

fn reactions_of(p: &EventPayload) -> Vec<Vec<GlobalReactionId>> {
    match p {
        EventPayload::Reactions(r) => (0..r.level_count()).map(|l| r.batch(l)).collect(),
        EventPayload::Terminate => panic!("reactions expected"),
    }
}

#[test]
fn the_first_wave_holds_startup_and_the_timers_without_offset() {
    let (world, timers) = program();
    let wave = startup_wave(&world.dataflow, &timers, 1000);
    assert_eq!(wave.roots.batch(0), vec![reaction(0)]);
    assert_eq!(wave.roots.batch(1), vec![reaction(1)]);
    assert_eq!(wave.roots.level_count(), 2);
    let tags: Vec<Tag> = wave.future.iter().map(|e| e.tag).collect();
    assert_eq!(tags, vec![Tag::at(1030), Tag::at(1010)]);
    for e in &wave.future {
        assert_eq!(reactions_of(&e.payload), vec![vec![], vec![], vec![reaction(2)]]);
    }
}

#[test]
fn the_last_wave_holds_what_shutdown_sets_off() {
    let (world, _) = program();
    let roots = shutdown_wave(&world.dataflow);
    assert_eq!(roots.batch(3), vec![reaction(3)]);
    assert_eq!(roots.next_level(0), Some(3));
}

#[test]
fn periodic_timers_that_fired_fire_again_one_period_later() {
    let (world, timers) = program();
    // at startup only the timer without offset has fired
    let again = due_timers(&world.dataflow, &timers, 1000, Tag::at(1000));
    assert_eq!(again.len(), 1);
    assert_eq!(again[0].tag, Tag::at(1100));
    assert_eq!(reactions_of(&again[0].payload), vec![vec![], vec![reaction(1)]]);
    // the timer with offset 10 and period 20
    let again = due_timers(&world.dataflow, &timers, 1000, Tag::at(1010));
    assert_eq!(again.len(), 1);
    assert_eq!(again[0].tag, Tag::at(1030));
    // the timer without period fires at 1030, and so does the one with
    // period 20; only the latter fires again
    let again = due_timers(&world.dataflow, &timers, 1000, Tag::at(1030));
    assert_eq!(again.len(), 1);
    assert_eq!(again[0].tag, Tag::at(1050));
    // the timer with period 100
    let again = due_timers(&world.dataflow, &timers, 1000, Tag::at(1100));
    assert_eq!(again.iter().map(|e| e.tag).collect::<Vec<_>>(), vec![Tag::at(1200)]);
    // nothing fires between two firings, nor at a later microstep
    assert!(due_timers(&world.dataflow, &timers, 1000, Tag::at(1020)).is_empty());
    assert!(due_timers(&world.dataflow, &timers, 1000, Tag::new(1010, 1)).is_empty());
    assert!(due_timers(&world.dataflow, &timers, 1000, Tag::at(999)).is_empty());
}

#[test]
fn a_firing_beyond_the_end_of_time_is_left_out() {
    let (world, _) = program();
    let timers = vec![Timer::new(TriggerId(2), 0, u64::MAX)];
    assert!(due_timers(&world.dataflow, &timers, 5, Tag::at(5)).is_empty());
    let again = due_timers(&world.dataflow, &timers, 0, Tag::at(0));
    assert_eq!(again.len(), 1);
    assert_eq!(again[0].tag, Tag::at(u64::MAX));
}

fn tags_in_queue(s: &mut SyncScheduler) -> Vec<Tag> {
    let mut tags = Vec::new();
    while let Some(e) = s.queue.take_earliest() {
        tags.push(e.tag);
    }
    tags
}

#[test]
fn launching_fixes_the_timeline_and_queues_the_first_firings() {
    let (world, timers) = program();
    let mut s = SyncScheduler::new(SchedulerOptions { keep_alive: false, timeout: Some(500) });
    let (tag, roots) = s.launch(&world.dataflow, &timers, 1000);
    assert_eq!(tag, Tag::at(1000));
    assert_eq!(roots.batch(0), vec![reaction(0)]);
    assert_eq!(roots.batch(1), vec![reaction(1)]);
    assert_eq!(s.initial_time, Some(1000));
    assert_eq!(s.shutdown_time, Some(Tag::at(1500)));
    assert_eq!(s.latest_processed_tag, Some(Tag::at(1000)));
    assert_eq!(tags_in_queue(&mut s), vec![Tag::at(1010), Tag::at(1030)]);
}

#[test]
fn after_a_tag_events_stop_and_timers_are_taken_in() {
    let (world, timers) = program();
    let mut s = SyncScheduler::new(SchedulerOptions::default());
    let (tag, _) = s.launch(&world.dataflow, &timers, 1000);
    let produced = vec![reactor_rt::Event::reactions(Tag::at(1005), shutdown_wave(&world.dataflow))];
    s.after_tag(&world.dataflow, &timers, tag, produced, Some(Tag::at(1020)));
    assert_eq!(s.shutdown_time, Some(Tag::at(1020)));
    // the produced event, the first firings, the stop, and the timer that
    // fired at startup once more
    assert_eq!(
        tags_in_queue(&mut s),
        vec![Tag::at(1005), Tag::at(1010), Tag::at(1020), Tag::at(1030), Tag::at(1100)]
    );
    // before startup no timer has fired
    let mut idle = SyncScheduler::new(SchedulerOptions::default());
    idle.after_tag(&world.dataflow, &timers, Tag::at(0), vec![], None);
    assert!(idle.queue.is_empty());
    assert_eq!(idle.shutdown_time, None);
}

#[test]
fn shutting_down_gives_the_last_wave() {
    let (world, timers) = program();
    let mut s = SyncScheduler::new(SchedulerOptions::default());
    s.launch(&world.dataflow, &timers, 1000);
    let (tag, roots) = s.shut_down(&world.dataflow, 1000).unwrap();
    assert_eq!(tag, Tag::new(1000, 1));
    assert_eq!(roots.batch(3), vec![reaction(3)]);
    assert_eq!(s.latest_processed_tag, Some(Tag::new(1000, 1)));

    let mut t = SyncScheduler::new(SchedulerOptions::default());
    t.launch(&world.dataflow, &timers, 1000);
    let (tag, _) = t.shut_down(&world.dataflow, 2000).unwrap();
    assert_eq!(tag, Tag::at(2000));

    let mut u = SyncScheduler::new(SchedulerOptions::default());
    u.launch(&world.dataflow, &timers, 0);
    let last = Tag::new(10, u32::MAX);
    assert!(matches!(u.dispatch(reactor_rt::Event::reactions(last, shutdown_wave(&world.dataflow))), Step::Process { .. }));
    match u.shut_down(&world.dataflow, 10) {
        Err(f) => assert_eq!(f, RuntimeFault::TagOrder { latest: last, offending: Tag::at(10) }),
        Ok(_) => panic!("no tag is left for the wave"),
    }
    assert_eq!(u.latest_processed_tag, Some(last));
}
