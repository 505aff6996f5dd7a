use pools_and_pipeline::actor::{ActorAction, ActorCounter, ActorEvent, StreamActor, MAX_ID};
use pools_and_pipeline::messages::{idx_of, MyActorError, MyActorInputMessage, MyActorOutputMessage};
use pools_and_pipeline::utils::InterruptIndicator;

#[test]
fn counter_hands_out_increasing_ids() {
    let mut a = ActorCounter::new();
    assert_eq!(a.next_unique_id(), Some(1));
    assert_eq!(a.next_unique_id(), Some(2));
    assert_eq!(a.next_unique_id(), Some(3));
    assert_eq!(a.next_id, 3);
}

#[test]
fn spent_counter_yields_nothing() {
    let mut a = ActorCounter { next_id: MAX_ID - 1 };
    assert_eq!(a.next_unique_id(), Some(MAX_ID));
    assert_eq!(a.next_unique_id(), None);
    assert_eq!(a.next_id, MAX_ID);
}

#[test]
fn handled_item_is_tagged_with_its_idx() {
    let mut a = ActorCounter::new();
    let r = a.handle_message(MyActorInputMessage { idx: 17 });
    assert_eq!(r, Ok(MyActorOutputMessage { idx: 17, data: 1 }));
    let r = a.handle_message(MyActorInputMessage { idx: 3 });
    assert_eq!(r, Ok(MyActorOutputMessage { idx: 3, data: 2 }));
    assert_eq!(idx_of(&r), 3);
}

#[test]
fn spent_counter_reports_failure_for_the_item() {
    let mut a = ActorCounter { next_id: MAX_ID };
    let r = a.handle_message(MyActorInputMessage { idx: 9 });
    assert_eq!(r, Err(MyActorError { idx: 9 }));
    assert_eq!(idx_of(&r), 9);
    assert_eq!(MyActorError::new(4).idx, 4);
}

#[test]
fn stream_actor_delivers_until_input_closes() {
    let mut a = StreamActor::new();
    match a.step(ActorEvent::Received(MyActorInputMessage { idx: 5 })) {
        ActorAction::Deliver(r) => assert_eq!(r, Ok(MyActorOutputMessage { idx: 5, data: 1 })),
        _ => panic!("expected a delivery"),
    }
    assert!(matches!(a.step(ActorEvent::InputClosed), ActorAction::Exit));
    assert!(!a.holds_output);
    match a.step(ActorEvent::Received(MyActorInputMessage { idx: 6 })) {
        ActorAction::Discard(idx) => assert_eq!(idx, 6),
        _ => panic!("expected the result to be dropped"),
    }
}

#[test]
fn interrupt_flag_is_shared_by_clones() {
    let a = InterruptIndicator::new();
    let b = a.clone();
    assert!(!a.is_set());
    b.set();
    assert!(a.is_set());
    assert!(b.is_set());
}
