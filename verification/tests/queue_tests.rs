use reactor_rt::event_queue::{Event, EventPayload, EventQueue};
use reactor_rt::ids::GlobalReactionId;
use reactor_rt::reactions::{merge_ascending, ExecutableReactions};
use reactor_rt::time::Tag;

fn rid(raw: u32) -> GlobalReactionId {
    GlobalReactionId::from_raw(raw)
}

fn reactions(items: &[(u32, u32)]) -> ExecutableReactions {
    let mut r = ExecutableReactions::new();
    for (level, raw) in items {
        r.insert(*level, rid(*raw));
    }
    r
}

fn batches(r: &ExecutableReactions) -> Vec<Vec<u32>> {
    let mut out = Vec::new();
    for l in 0..r.level_count() {
        out.push(r.batch(l).iter().map(|x| x.raw()).collect());
    }
    out
}

#[test]
fn a_batch_is_walked_in_ascending_order_of_id() {
    let r = reactions(&[(1, 9), (1, 3), (0, 5), (1, 6), (1, 3)]);
    assert_eq!(batches(&r), vec![vec![5], vec![3, 6, 9]]);
    assert!(r.contains(1, rid(3)));
    assert!(r.contains(0, rid(5)));
    assert!(!r.contains(0, rid(3)));
    assert!(!r.contains(2, rid(3)));
    assert_eq!(r.level_count(), 2);
    assert!(!r.is_empty());
    assert!(ExecutableReactions::new().is_empty());
}

#[test]
fn the_order_of_a_batch_does_not_depend_on_the_order_of_insertion() {
    let a = reactions(&[(2, 1), (2, 2), (2, 3), (0, 7)]);
    let b = reactions(&[(0, 7), (2, 3), (2, 1), (2, 2)]);
    assert_eq!(batches(&a), batches(&b));
    assert_eq!(batches(&a), vec![vec![7], vec![], vec![1, 2, 3]]);
}

#[test]
fn merging_keeps_order_and_drops_duplicates() {
    let a = vec![rid(1), rid(4), rid(9)];
    let b = vec![rid(2), rid(4), rid(10), rid(11)];
    let m: Vec<u32> = merge_ascending(&a, &b).iter().map(|x| x.raw()).collect();
    assert_eq!(m, vec![1, 2, 4, 9, 10, 11]);
    let e: Vec<GlobalReactionId> = Vec::new();
    assert_eq!(merge_ascending(&e, &e).len(), 0);
    assert_eq!(merge_ascending(&a, &e), a);
    assert_eq!(merge_ascending(&e, &a), a);
}

#[test]
fn absorbing_unites_level_by_level() {
    let mut a = reactions(&[(0, 1), (1, 5)]);
    let b = reactions(&[(0, 2), (1, 5), (3, 8)]);
    a.absorb(&b);
    assert_eq!(batches(&a), vec![vec![1, 2], vec![5], vec![], vec![8]]);
}

#[test]
fn absorbing_after_a_level_leaves_lower_levels_out() {
    let mut a = reactions(&[(0, 1)]);
    let b = reactions(&[(0, 2), (1, 5), (3, 8)]);
    a.absorb_after(&b, 1);
    assert_eq!(batches(&a), vec![vec![1], vec![5], vec![], vec![8]]);
    let mut c = reactions(&[(0, 1)]);
    c.absorb_after(&b, 4);
    assert_eq!(batches(&c), vec![vec![1], vec![], vec![], vec![]]);
}

#[test]
fn the_next_level_skips_empty_batches() {
    let r = reactions(&[(1, 5), (4, 8)]);
    assert_eq!(r.next_level(0), Some(1));
    assert_eq!(r.next_level(1), Some(1));
    assert_eq!(r.next_level(2), Some(4));
    assert_eq!(r.next_level(5), None);
    assert_eq!(ExecutableReactions::new().next_level(0), None);
}

#[test]
fn events_leave_the_queue_in_ascending_order_of_tag() {
    let mut q = EventQueue::new();
    assert!(q.is_empty());
    assert_eq!(q.peek_tag(), None);
    assert!(q.take_earliest().is_none());
    q.push(Event::reactions(Tag::new(30, 0), reactions(&[(0, 3)])));
    q.push(Event::reactions(Tag::new(10, 1), reactions(&[(0, 1)])));
    q.push(Event::reactions(Tag::new(20, 0), reactions(&[(0, 2)])));
    q.push(Event::reactions(Tag::new(10, 0), reactions(&[(0, 0)])));
    assert_eq!(q.len(), 4);
    assert_eq!(q.peek_tag(), Some(Tag::new(10, 0)));
    let mut tags = Vec::new();
    while let Some(e) = q.take_earliest() {
        tags.push(e.tag);
    }
    assert_eq!(
        tags,
        vec![Tag::new(10, 0), Tag::new(10, 1), Tag::new(20, 0), Tag::new(30, 0)]
    );
    assert!(q.is_empty());
}

#[test]
fn events_for_one_tag_are_merged() {
    let mut q = EventQueue::new();
    q.push(Event::reactions(Tag::new(10, 0), reactions(&[(0, 1), (2, 7)])));
    q.push(Event::reactions(Tag::new(10, 0), reactions(&[(0, 4), (1, 5)])));
    assert_eq!(q.len(), 1);
    let e = q.take_earliest().unwrap();
    assert_eq!(e.tag, Tag::new(10, 0));
    match e.payload {
        EventPayload::Reactions(r) => assert_eq!(batches(&r), vec![vec![1, 4], vec![5], vec![7]]),
        EventPayload::Terminate => panic!("reactions expected"),
    }
}

#[test]
fn termination_wins_over_reactions_at_the_same_tag() {
    let mut q = EventQueue::new();
    q.push(Event::reactions(Tag::new(10, 0), reactions(&[(0, 1)])));
    q.push(Event::terminate(Tag::new(10, 0)));
    q.push(Event::reactions(Tag::new(10, 0), reactions(&[(0, 2)])));
    q.push(Event::terminate(Tag::new(5, 0)));
    q.push(Event::reactions(Tag::new(5, 0), reactions(&[(0, 3)])));
    assert_eq!(q.len(), 2);
    let first = q.take_earliest().unwrap();
    assert_eq!(first.tag, Tag::new(5, 0));
    assert!(matches!(first.payload, EventPayload::Terminate));
    let second = q.take_earliest().unwrap();
    assert_eq!(second.tag, Tag::new(10, 0));
    assert!(matches!(second.payload, EventPayload::Terminate));
}

#[test]
fn merging_payloads() {
    let a = EventPayload::Reactions(reactions(&[(0, 1)]));
    let b = EventPayload::Reactions(reactions(&[(0, 2)]));
    match EventPayload::merge(a, b) {
        EventPayload::Reactions(r) => assert_eq!(batches(&r), vec![vec![1, 2]]),
        EventPayload::Terminate => panic!("reactions expected"),
    }
    let c = EventPayload::Reactions(reactions(&[(0, 1)]));
    assert!(matches!(EventPayload::merge(c, EventPayload::Terminate), EventPayload::Terminate));
    let d = EventPayload::Reactions(reactions(&[(0, 1)]));
    assert!(matches!(EventPayload::merge(EventPayload::Terminate, d), EventPayload::Terminate));
}
