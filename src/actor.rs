use crate::messages::{MyActorError, MyActorInputMessage, MyActorOutputMessage, MyActorResult};
use vstd::prelude::*;

verus! {

/// The largest identifier an actor can hand out.
pub const MAX_ID: u32 = 0xffff_ffff;

/// The result an actor whose counter stands at `next_id` produces for item `idx`:
/// the counter's next value, or a failure tagged with `idx` once the counter is spent.
pub open spec fn handled(next_id: u32, idx: u64) -> MyActorResult {
    if next_id < MAX_ID {
        Ok(MyActorOutputMessage { idx, data: (next_id + 1) as u32 })
    } else {
        Err(MyActorError { idx })
    }
}

/// The private state of one actor: a counter that only this actor advances.
pub struct ActorCounter {
    pub next_id: u32,
}

impl ActorCounter {
    /// A fresh actor that has handed out nothing yet.
    pub fn new() -> (r: ActorCounter)
        ensures
            r.next_id == 0,
    {
        ActorCounter { next_id: 0 }
    }

    /// One request of the request/response pool: advances the counter and
    /// returns its new value, or `None` (and leaves it) once every value is spent.
    pub fn next_unique_id(&mut self) -> (r: Option<u32>)
        ensures
            old(self).next_id < MAX_ID ==> r == Some((old(self).next_id + 1) as u32)
                && final(self).next_id == old(self).next_id + 1,
            old(self).next_id == MAX_ID ==> r.is_none() && final(self).next_id == MAX_ID,
    {
        if self.next_id < MAX_ID {
            self.next_id = self.next_id + 1;
            Some(self.next_id)
        } else {
            None
        }
    }

    /// One item of the streaming pool: the result is tagged with the item's
    /// identifier and carries the counter's new value, or is a failure for
    /// that item once the counter is spent.
    pub fn handle_message(&mut self, msg: MyActorInputMessage) -> (r: MyActorResult)
        ensures
            r == handled(old(self).next_id, msg.idx),
            final(self).next_id == (if old(self).next_id < MAX_ID {
                old(self).next_id + 1
            } else {
                old(self).next_id as int
            }),
    {
        match self.next_unique_id() {
            Some(data) => Ok(MyActorOutputMessage { idx: msg.idx, data }),
            None => Err(MyActorError::new(msg.idx)),
        }
    }
}

/// What an actor's receive loop observes next on its input.
pub enum ActorEvent {
    /// An item was dequeued.
    Received(MyActorInputMessage),
    /// The input is closed and holds nothing more.
    InputClosed,
}

/// What an actor's receive loop does next.
pub enum ActorAction {
    /// Send this result to the shared output.
    Deliver(MyActorResult),
    /// The output is already released: the result for this item is dropped.
    Discard(u64),
    /// Release the output and stop.
    Exit,
}

/// The receive loop of a streaming actor, one event at a time: its counter and
/// whether it still holds its end of the shared output.
pub struct StreamActor {
    pub counter: ActorCounter,
    pub holds_output: bool,
}

impl StreamActor {
    /// A fresh actor holding its output end.
    pub fn new() -> (r: StreamActor)
        ensures
            r.counter.next_id == 0,
            r.holds_output,
    {
        StreamActor { counter: ActorCounter::new(), holds_output: true }
    }

    /// Decides what to do with the next event. A received item is always
    /// handled (per-item failures never stop the loop); only a closed input
    /// ends it, and then the output end is released.
    pub fn step(&mut self, ev: ActorEvent) -> (a: ActorAction)
        ensures
            match ev {
                ActorEvent::Received(msg) => {
                    &&& final(self).holds_output == old(self).holds_output
                    &&& old(self).holds_output ==> a == ActorAction::Deliver(
                        handled(old(self).counter.next_id, msg.idx),
                    )
                    &&& !old(self).holds_output ==> a == ActorAction::Discard(msg.idx)
                    &&& final(self).counter.next_id == (if old(self).counter.next_id < MAX_ID {
                        old(self).counter.next_id + 1
                    } else {
                        old(self).counter.next_id as int
                    })
                },
                ActorEvent::InputClosed => {
                    &&& a == ActorAction::Exit
                    &&& !final(self).holds_output
                    &&& final(self).counter == old(self).counter
                },
            },
    {
        match ev {
            ActorEvent::Received(msg) => {
                let r = self.counter.handle_message(msg);
                if self.holds_output {
                    ActorAction::Deliver(r)
                } else {
                    ActorAction::Discard(msg.idx)
                }
            },
            ActorEvent::InputClosed => {
                self.holds_output = false;
                ActorAction::Exit
            },
        }
    }
}

} // verus!
