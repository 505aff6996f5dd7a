use pools_and_pipeline::actor::ActorCounter;
use pools_and_pipeline::messages::MyActorResult;
use pools_and_pipeline::streaming::{PoolLedger, RecvOutcome, SendOutcome};

fn submit_all(pool: &mut PoolLedger, ids: &[u64]) {
    for &idx in ids {
        assert!(matches!(pool.send(idx), SendOutcome::Queued));
    }
}

fn recv_item(pool: &mut PoolLedger) -> MyActorResult {
    match pool.recv() {
        RecvOutcome::Item(r) => r,
        RecvOutcome::WouldBlock => panic!("expected a result, the receiver would wait"),
        RecvOutcome::Finished => panic!("expected a result, the pool has finished"),
    }
}

/// Every idle actor takes an item, then every busy actor finishes; returns
/// how many items were handled in this round.
fn run_round(pool: &mut PoolLedger, actors: &mut [ActorCounter]) -> usize {
    let mut taken = 0;
    while taken < actors.len() && pool.take().is_some() {
        taken += 1;
    }
    for a in actors.iter_mut().take(taken) {
        assert!(pool.finish(0, a));
    }
    taken
}

#[test]
fn four_actors_eight_items_take_two_rounds() {
    let mut pool = PoolLedger::new(4);
    let mut actors: Vec<ActorCounter> = (0..4).map(|_| ActorCounter::new()).collect();
    submit_all(&mut pool, &[0, 1, 2, 3, 4, 5, 6, 7]);
    pool.close();
    let mut rounds = 0;
    let mut results = vec![];
    loop {
        let n = run_round(&mut pool, &mut actors);
        if n == 0 {
            break;
        }
        assert_eq!(n, 4);
        rounds += 1;
        for _ in 0..n {
            results.push(recv_item(&mut pool));
        }
    }
    assert_eq!(rounds, 2);
    assert_eq!(results.len(), 8);
    for a in &actors {
        assert_eq!(a.next_id, 2);
    }
}

#[test]
fn close_with_queued_items_still_reports_them() {
    let mut pool = PoolLedger::new(2);
    let mut actors = vec![ActorCounter::new(), ActorCounter::new()];
    submit_all(&mut pool, &[10, 11, 12, 13, 14]);
    pool.close();
    // the queue is not dropped by closing: no actor may exit yet
    assert!(!pool.exit());
    let mut seen = vec![];
    while pool.take().is_some() {
        assert!(pool.finish(0, &mut actors[0]));
        seen.push(recv_item(&mut pool));
    }
    assert!(pool.exit());
    assert!(pool.exit());
    assert!(pool.is_drained());
    let mut ids: Vec<u64> = seen.iter().map(|r| match r {
        Ok(o) => o.idx,
        Err(e) => e.idx,
    }).collect();
    ids.sort();
    assert_eq!(ids, vec![10, 11, 12, 13, 14]);
    assert!(matches!(pool.recv(), RecvOutcome::Finished));
}

#[test]
fn every_item_reported_exactly_once() {
    let mut pool = PoolLedger::new(3);
    let mut actors = vec![ActorCounter::new(), ActorCounter::new(), ActorCounter::new()];
    submit_all(&mut pool, &[5, 3, 9, 1, 7, 2]);
    pool.close();
    while run_round(&mut pool, &mut actors) > 0 {
        while let RecvOutcome::Item(_) = pool.recv() {}
    }
    while pool.exit() {}
    assert!(pool.is_drained());
    let mut got = pool.received_tags();
    got.sort();
    assert_eq!(got, vec![1, 2, 3, 5, 7, 9]);
}

#[test]
fn send_after_close_fails_without_waiting() {
    let mut pool = PoolLedger::new(1);
    assert!(matches!(pool.send(1), SendOutcome::Queued));
    pool.close();
    match pool.send(2) {
        SendOutcome::Closed(msg) => assert_eq!(msg.idx, 2),
        SendOutcome::Queued => panic!("accepted after close"),
        SendOutcome::WouldBlock => panic!("waits after close"),
    }
    // closing twice is harmless
    pool.close();
    assert!(matches!(pool.send(3), SendOutcome::Closed(_)));
}

#[test]
fn full_input_queue_makes_the_sender_wait() {
    let mut pool = PoolLedger::new(1);
    submit_all(&mut pool, &[0, 1, 2, 3, 4, 5, 6, 7]);
    assert!(matches!(pool.send(8), SendOutcome::WouldBlock));
    assert!(pool.take().is_some());
    assert!(matches!(pool.send(8), SendOutcome::Queued));
}

#[test]
fn drained_pool_reports_finished_every_time() {
    let mut pool = PoolLedger::new(2);
    assert!(matches!(pool.recv(), RecvOutcome::WouldBlock));
    pool.close();
    assert!(pool.exit());
    assert!(matches!(pool.recv(), RecvOutcome::WouldBlock));
    assert!(pool.exit());
    assert!(!pool.exit());
    for _ in 0..3 {
        assert!(matches!(pool.recv(), RecvOutcome::Finished));
    }
    assert!(pool.is_drained());
}

#[test]
fn single_actor_keeps_submission_order() {
    let mut pool = PoolLedger::new(1);
    let mut actor = ActorCounter::new();
    submit_all(&mut pool, &[4, 8, 15, 16, 23, 42]);
    pool.close();
    while pool.take().is_some() {
        assert!(pool.finish(0, &mut actor));
        let r = recv_item(&mut pool);
        assert!(r.is_ok());
    }
    assert_eq!(pool.received_tags(), vec![4, 8, 15, 16, 23, 42]);
}

#[test]
fn two_actors_can_reorder_results() {
    let mut pool = PoolLedger::new(2);
    let mut fast = ActorCounter::new();
    let mut slow = ActorCounter::new();
    submit_all(&mut pool, &[0, 1]);
    assert_eq!(pool.take().map(|m| m.idx), Some(0));
    assert_eq!(pool.take().map(|m| m.idx), Some(1));
    assert_eq!(pool.in_progress(), 2);
    // the actor holding item 1 finishes first
    assert!(pool.finish(1, &mut fast));
    assert!(pool.finish(0, &mut slow));
    recv_item(&mut pool);
    recv_item(&mut pool);
    assert_eq!(pool.received_tags(), vec![1, 0]);
}

#[test]
fn finish_without_work_changes_nothing() {
    let mut pool = PoolLedger::new(2);
    let mut actor = ActorCounter::new();
    assert!(!pool.finish(0, &mut actor));
    assert_eq!(actor.next_id, 0);
    assert_eq!(pool.in_progress(), 0);
}
