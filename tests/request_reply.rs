use pools_and_pipeline::actor::{ActorCounter, MAX_ID};
use pools_and_pipeline::request_reply::ReplyLedger;

#[test]
fn each_call_collects_its_own_reply() {
    let mut pool = ReplyLedger::new();
    let mut a = ActorCounter::new();
    let mut b = ActorCounter::new();
    let slots: Vec<u64> = (0..6).map(|_| pool.call().unwrap()).collect();
    assert_eq!(slots, vec![0, 1, 2, 3, 4, 5]);
    // two actors alternate; each hands out its own sequence 1, 2, 3
    for k in 0..6 {
        let actor = if k % 2 == 0 { &mut a } else { &mut b };
        assert!(pool.serve(actor));
    }
    assert!(!pool.serve(&mut a));
    // collect in reverse order: each slot still gets the reply it was sent
    assert_eq!(pool.collect(5), Some(3));
    assert_eq!(pool.collect(4), Some(3));
    assert_eq!(pool.collect(3), Some(2));
    assert_eq!(pool.collect(2), Some(2));
    assert_eq!(pool.collect(1), Some(1));
    assert_eq!(pool.collect(0), Some(1));
    // a reply is consumed once
    assert_eq!(pool.collect(0), None);
}

#[test]
fn unserved_call_has_no_reply_yet() {
    let mut pool = ReplyLedger::new();
    let mut a = ActorCounter::new();
    let first = pool.call().unwrap();
    let second = pool.call().unwrap();
    assert_ne!(first, second);
    assert!(pool.serve(&mut a));
    assert_eq!(pool.collect(second), None);
    assert_eq!(pool.collect(first), Some(1));
    assert!(pool.serve(&mut a));
    assert_eq!(pool.collect(second), Some(2));
}

#[test]
fn spent_actor_loses_the_reply() {
    let mut pool = ReplyLedger::new();
    let mut a = ActorCounter { next_id: MAX_ID };
    let slot = pool.call().unwrap();
    assert!(pool.serve(&mut a));
    assert_eq!(pool.collect(slot), None);
    assert!(!pool.serve(&mut a));
}
