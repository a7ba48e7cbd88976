use reactor_rt::debug::{decimal_string, DebugInfoProvider};
use reactor_rt::event_queue::Event;
use reactor_rt::ids::{GlobalReactionId, LocalReactionId, ReactorId};
use reactor_rt::reactions::ExecutableReactions;
use reactor_rt::time::Tag;

fn rid(reactor: u16, local: u16) -> GlobalReactionId {
    GlobalReactionId::new(ReactorId::new(reactor), LocalReactionId::new(local))
}

#[test]
fn numbers_in_decimal() {
    assert_eq!(decimal_string(0), "0");
    assert_eq!(decimal_string(7), "7");
    assert_eq!(decimal_string(10), "10");
    assert_eq!(decimal_string(1234567890), "1234567890");
    assert_eq!(decimal_string(u64::MAX), "18446744073709551615");
}

#[test]
fn a_tag_as_text() {
    let d = DebugInfoProvider::new(1_000);
    assert_eq!(d.display_tag(Tag::new(1_000, 0)), "(T0 + 0 ns = 0 ms, 0)");
    assert_eq!(d.display_tag(Tag::new(1_501_000, 3)), "(T0 + 1500000 ns = 1 ms, 3)");
    assert_eq!(d.display_tag(Tag::new(250_000_001_000, 0)), "(T0 + 250000000000 ns = 250000 ms, 0)");
    assert_eq!(d.display_tag(Tag::new(10, 1)), "(T0 + 0 ns = 0 ms, 1)");
}

#[test]
fn a_reaction_as_text() {
    let d = DebugInfoProvider::new(0);
    assert_eq!(d.display_reaction(rid(3, 1)), "3:1");
    assert_eq!(d.display_reaction(rid(0, 0)), "0:0");
    assert_eq!(d.display_reaction(rid(65535, 65535)), "65535:65535");
}

#[test]
fn an_event_as_text() {
    let d = DebugInfoProvider::new(0);
    let mut r = ExecutableReactions::new();
    r.insert(0, rid(1, 0));
    r.insert(2, rid(2, 1));
    r.insert(2, rid(1, 1));
    let e = Event::reactions(Tag::new(5_000_000, 1), r);
    assert_eq!(
        d.display_event(&e),
        "Event(at (T0 + 5000000 ns = 5 ms, 1): run [0: {1:0}2: {1:1, 2:1}])"
    );
    let empty = Event::reactions(Tag::new(0, 0), ExecutableReactions::new());
    assert_eq!(d.display_event(&empty), "Event(at (T0 + 0 ns = 0 ms, 0): run [])");
    let t = Event::terminate(Tag::new(2_000_000, 0));
    assert_eq!(
        d.display_event(&t),
        "Event(at (T0 + 2000000 ns = 2 ms, 0): terminate program"
    );
}
