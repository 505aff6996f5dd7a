use crate::actor::{handled, ActorCounter};
use crate::messages::{idx_of, result_idx, MyActorInputMessage, MyActorResult};
use vstd::prelude::*;

verus! {

broadcast use {vstd::seq_lib::group_to_multiset_ensures, vstd::multiset::group_multiset_axioms};

/// Capacity of the pool's input queue and of its output queue.
pub const CHANNEL_CAPACITY: usize = 8;

/// The observable state of a streaming pool.
pub struct PoolView {
    /// Number of actors the pool was built with.
    pub workers: nat,
    /// Whether `close` has been called.
    pub closed: bool,
    /// Every accepted item, in order of acceptance.
    pub submitted: Seq<u64>,
    /// Accepted items no actor has taken yet, oldest first.
    pub queue: Seq<u64>,
    /// Items an actor is working on, in the order they were taken.
    pub busy: Seq<u64>,
    /// Results waiting for the consumer, oldest first.
    pub output: Seq<MyActorResult>,
    /// Results handed to the consumer, in order.
    pub received: Seq<MyActorResult>,
    /// Actors that are running and hold no item.
    pub idle: nat,
    /// Actors that have not exited.
    pub active: nat,
}

/// What a submission came to.
pub enum SendOutcome {
    /// The item is in the input queue.
    Queued,
    /// The input queue is full: the sender waits.
    WouldBlock,
    /// The pool is closed: the item is handed back.
    Closed(MyActorInputMessage),
}

/// What a receive came to.
pub enum RecvOutcome {
    /// The oldest waiting result.
    Item(MyActorResult),
    /// Nothing is waiting yet, but actors are still running: the receiver waits.
    WouldBlock,
    /// Every actor has exited and nothing is left: no more results will come.
    Finished,
}

/// The identifiers that a sequence of results is tagged with.
pub open spec fn tags(s: Seq<MyActorResult>) -> Seq<u64> {
    s.map_values(|r: MyActorResult| result_idx(r))
}

/// The state of a pool of `workers` actors right after it was built.
pub open spec fn initial(workers: nat) -> PoolView {
    PoolView {
        workers,
        closed: false,
        submitted: Seq::empty(),
        queue: Seq::empty(),
        busy: Seq::empty(),
        output: Seq::empty(),
        received: Seq::empty(),
        idle: workers,
        active: workers,
    }
}

/// A consistent pool state. Every accepted item is in exactly one place
/// (queued, in progress, waiting as a result, or received); an actor exits
/// only once the pool is closed and its queue is empty; with a single actor
/// the items keep their order of submission.
pub open spec fn wf(v: PoolView) -> bool {
    &&& v.workers > 0
    &&& v.active <= v.workers
    &&& v.busy.len() + v.idle == v.active
    &&& v.active < v.workers ==> v.closed && v.queue.len() == 0
    &&& v.queue.len() <= CHANNEL_CAPACITY
    &&& v.output.len() <= CHANNEL_CAPACITY
    &&& v.submitted.to_multiset() == v.queue.to_multiset().add(v.busy.to_multiset()).add(
        tags(v.output).to_multiset(),
    ).add(tags(v.received).to_multiset())
    &&& v.workers == 1 ==> v.submitted == tags(v.received) + tags(v.output) + v.busy + v.queue
}

/// The pool has shut down for good: every actor exited and every result was received.
pub open spec fn drained(v: PoolView) -> bool {
    v.active == 0 && v.output.len() == 0
}

/// Submitting item `idx`.
pub open spec fn send_next(v: PoolView, idx: u64) -> (PoolView, SendOutcome) {
    if v.closed {
        (v, SendOutcome::Closed(MyActorInputMessage { idx }))
    } else if v.queue.len() >= CHANNEL_CAPACITY {
        (v, SendOutcome::WouldBlock)
    } else {
        (PoolView { submitted: v.submitted.push(idx), queue: v.queue.push(idx), ..v }, SendOutcome::Queued)
    }
}

/// Closing the pool's input.
pub open spec fn close_next(v: PoolView) -> PoolView {
    PoolView { closed: true, ..v }
}

/// An idle actor dequeuing the oldest queued item.
pub open spec fn take_next(v: PoolView) -> (PoolView, Option<u64>) {
    if v.idle > 0 && v.queue.len() > 0 {
        (
            PoolView {
                busy: v.busy.push(v.queue[0]),
                queue: v.queue.drop_first(),
                idle: (v.idle - 1) as nat,
                ..v
            },
            Some(v.queue[0]),
        )
    } else {
        (v, None)
    }
}

/// Whether the actor working on `busy[i]` can deliver now: the item exists
/// and the output queue has room.
pub open spec fn can_finish(v: PoolView, i: int) -> bool {
    0 <= i < v.busy.len() && v.output.len() < CHANNEL_CAPACITY
}

/// The actor working on `busy[i]` delivering result `r` and becoming idle.
pub open spec fn finish_next(v: PoolView, i: int, r: MyActorResult) -> (PoolView, bool) {
    if can_finish(v, i) {
        (
            PoolView {
                busy: v.busy.remove(i),
                output: v.output.push(r),
                idle: v.idle + 1,
                ..v
            },
            true,
        )
    } else {
        (v, false)
    }
}

/// An idle actor finding the input closed and empty, and exiting.
pub open spec fn exit_next(v: PoolView) -> (PoolView, bool) {
    if v.closed && v.queue.len() == 0 && v.idle > 0 {
        (PoolView { idle: (v.idle - 1) as nat, active: (v.active - 1) as nat, ..v }, true)
    } else {
        (v, false)
    }
}

/// The consumer receiving the next result.
pub open spec fn recv_next(v: PoolView) -> (PoolView, RecvOutcome) {
    if v.output.len() > 0 {
        (
            PoolView { received: v.received.push(v.output[0]), output: v.output.drop_first(), ..v },
            RecvOutcome::Item(v.output[0]),
        )
    } else if v.active == 0 {
        (v, RecvOutcome::Finished)
    } else {
        (v, RecvOutcome::WouldBlock)
    }
}

proof fn lemma_tags_push(s: Seq<MyActorResult>, r: MyActorResult)
    ensures
        tags(s.push(r)) == tags(s).push(result_idx(r)),
{
    assert(tags(s.push(r)) =~= tags(s).push(result_idx(r)));
}

proof fn lemma_tags_drop_first(s: Seq<MyActorResult>)
    requires
        s.len() > 0,
    ensures
        tags(s.drop_first()) == tags(s).drop_first(),
        tags(s).len() == s.len(),
        tags(s)[0] == result_idx(s[0]),
{
    assert(tags(s.drop_first()) =~= tags(s).drop_first());
}

proof fn lemma_drop_first_multiset(s: Seq<u64>)
    requires
        s.len() > 0,
    ensures
        s.to_multiset() == s.drop_first().to_multiset().insert(s[0]),
{
    assert(s.drop_first() =~= s.remove(0));
    assert(s.to_multiset() =~= s.remove(0).to_multiset().insert(s[0]));
}

/// A freshly built pool is consistent.
pub proof fn lemma_initial_wf(workers: nat)
    requires
        workers > 0,
    ensures
        wf(initial(workers)),
{
    let v = initial(workers);
    assert(v.submitted.to_multiset() =~= v.queue.to_multiset().add(v.busy.to_multiset()).add(
        tags(v.output).to_multiset(),
    ).add(tags(v.received).to_multiset()));
    assert(v.submitted =~= tags(v.received) + tags(v.output) + v.busy + v.queue);
}

proof fn lemma_send_wf(v: PoolView, idx: u64)
    requires
        wf(v),
    ensures
        wf(send_next(v, idx).0),
{
    if !v.closed && v.queue.len() < CHANNEL_CAPACITY {
        let w = send_next(v, idx).0;
        assert(w.submitted.to_multiset() =~= w.queue.to_multiset().add(w.busy.to_multiset()).add(
            tags(w.output).to_multiset(),
        ).add(tags(w.received).to_multiset()));
        if v.workers == 1 {
            assert(w.submitted =~= tags(w.received) + tags(w.output) + w.busy + w.queue);
        }
    }
}

proof fn lemma_take_wf(v: PoolView)
    requires
        wf(v),
    ensures
        wf(take_next(v).0),
{
    if v.idle > 0 && v.queue.len() > 0 {
        let w = take_next(v).0;
        lemma_drop_first_multiset(v.queue);
        assert(w.submitted.to_multiset() =~= w.queue.to_multiset().add(w.busy.to_multiset()).add(
            tags(w.output).to_multiset(),
        ).add(tags(w.received).to_multiset()));
        if v.workers == 1 {
            assert(w.submitted =~= tags(w.received) + tags(w.output) + w.busy + w.queue);
        }
    }
}

proof fn lemma_finish_wf(v: PoolView, i: int, r: MyActorResult)
    requires
        wf(v),
        0 <= i < v.busy.len() ==> result_idx(r) == v.busy[i],
    ensures
        wf(finish_next(v, i, r).0),
{
    if 0 <= i < v.busy.len() && v.output.len() < CHANNEL_CAPACITY {
        let w = finish_next(v, i, r).0;
        lemma_tags_push(v.output, r);
        assert(v.busy.contains(v.busy[i]));
        assert(w.submitted.to_multiset() =~= w.queue.to_multiset().add(w.busy.to_multiset()).add(
            tags(w.output).to_multiset(),
        ).add(tags(w.received).to_multiset()));
        if v.workers == 1 {
            assert(i == 0 && v.busy.len() == 1);
            assert(w.submitted =~= tags(w.received) + tags(w.output) + w.busy + w.queue);
        }
    }
}

proof fn lemma_exit_wf(v: PoolView)
    requires
        wf(v),
    ensures
        wf(exit_next(v).0),
{
}

proof fn lemma_recv_wf(v: PoolView)
    requires
        wf(v),
    ensures
        wf(recv_next(v).0),
{
    if v.output.len() > 0 {
        let w = recv_next(v).0;
        lemma_tags_push(v.received, v.output[0]);
        lemma_tags_drop_first(v.output);
        lemma_drop_first_multiset(tags(v.output));
        assert(w.submitted.to_multiset() =~= w.queue.to_multiset().add(w.busy.to_multiset()).add(
            tags(w.output).to_multiset(),
        ).add(tags(w.received).to_multiset()));
        if v.workers == 1 {
            assert(w.submitted =~= tags(w.received) + tags(w.output) + w.busy + w.queue);
        }
    }
}

proof fn lemma_close_wf(v: PoolView)
    requires
        wf(v),
    ensures
        wf(close_next(v)),
{
}

/// The bookkeeping of a streaming pool: which items are queued, in progress,
/// waiting as results or received, and how many actors are idle or gone.
/// Each operation is one transition of the pool, taken as one atomic step.
pub struct PoolLedger {
    workers: usize,
    closed: bool,
    submitted: Vec<u64>,
    queue: Vec<u64>,
    busy: Vec<u64>,
    output: Vec<MyActorResult>,
    received: Vec<MyActorResult>,
    idle: usize,
    active: usize,
}

impl View for PoolLedger {
    type V = PoolView;

    closed spec fn view(&self) -> PoolView {
        PoolView {
            workers: self.workers as nat,
            closed: self.closed,
            submitted: self.submitted@,
            queue: self.queue@,
            busy: self.busy@,
            output: self.output@,
            received: self.received@,
            idle: self.idle as nat,
            active: self.active as nat,
        }
    }
}

impl PoolLedger {
    /// A pool of `num_actors` idle actors, open, with nothing submitted.
    pub fn new(num_actors: usize) -> (r: PoolLedger)
        requires
            num_actors > 0,
        ensures
            r@ == initial(num_actors as nat),
            wf(r@),
    {
        let r = PoolLedger {
            workers: num_actors,
            closed: false,
            submitted: Vec::new(),
            queue: Vec::new(),
            busy: Vec::new(),
            output: Vec::new(),
            received: Vec::new(),
            idle: num_actors,
            active: num_actors,
        };
        proof {
            lemma_initial_wf(num_actors as nat);
            assert(r@ =~= initial(num_actors as nat));
        }
        r
    }

    /// Submits item `idx`: refused with the item handed back once the pool is
    /// closed, held back while the input queue is full, queued otherwise.
    pub fn send(&mut self, idx: u64) -> (o: SendOutcome)
        requires
            wf(old(self)@),
        ensures
            (final(self)@, o) == send_next(old(self)@, idx),
            wf(final(self)@),
    {
        proof {
            lemma_send_wf(self@, idx);
        }
        if self.closed {
            SendOutcome::Closed(MyActorInputMessage { idx })
        } else if self.queue.len() >= CHANNEL_CAPACITY {
            SendOutcome::WouldBlock
        } else {
            self.submitted.push(idx);
            self.queue.push(idx);
            SendOutcome::Queued
        }
    }

    /// Closes the input. Calling it again changes nothing.
    pub fn close(&mut self)
        requires
            wf(old(self)@),
        ensures
            final(self)@ == close_next(old(self)@),
            wf(final(self)@),
    {
        proof {
            lemma_close_wf(self@);
        }
        self.closed = true;
    }

    /// An idle actor dequeues the oldest queued item, if there is an idle
    /// actor and a queued item.
    pub fn take(&mut self) -> (o: Option<MyActorInputMessage>)
        requires
            wf(old(self)@),
        ensures
            final(self)@ == take_next(old(self)@).0,
            take_next(old(self)@).1 == match o {
                Some(m) => Some(m.idx),
                None => None::<u64>,
            },
            wf(final(self)@),
    {
        proof {
            lemma_take_wf(self@);
        }
        if self.idle > 0 && self.queue.len() > 0 {
            let idx = self.queue.remove(0);
            self.busy.push(idx);
            self.idle = self.idle - 1;
            proof {
                assert(self.queue@ =~= old(self)@.queue.drop_first());
            }
            Some(MyActorInputMessage { idx })
        } else {
            None
        }
    }

    /// The actor whose counter is `actor` completes the `i`-th item in
    /// progress: its result goes to the output and the actor becomes idle.
    /// Nothing happens (and `false` comes back) when there is no such item or
    /// the output queue is full.
    pub fn finish(&mut self, i: usize, actor: &mut ActorCounter) -> (done: bool)
        requires
            wf(old(self)@),
        ensures
            done == can_finish(old(self)@, i as int),
            done ==> final(self)@ == finish_next(
                old(self)@,
                i as int,
                handled(old(actor).next_id, old(self)@.busy[i as int]),
            ).0,
            done ==> final(actor).next_id == (if old(actor).next_id < crate::actor::MAX_ID {
                old(actor).next_id + 1
            } else {
                old(actor).next_id as int
            }),
            !done ==> final(self)@ == old(self)@ && final(actor).next_id == old(actor).next_id,
            wf(final(self)@),
    {
        if i < self.busy.len() && self.output.len() < CHANNEL_CAPACITY {
            let ghost r = handled(actor.next_id, self.busy@[i as int]);
            proof {
                lemma_finish_wf(self@, i as int, r);
            }
            let idx = self.busy.remove(i);
            let res = actor.handle_message(MyActorInputMessage { idx });
            self.output.push(res);
            self.idle = self.idle + 1;
            proof {
                assert(self@ =~= finish_next(old(self)@, i as int, r).0);
            }
            true
        } else {
            false
        }
    }

    /// An idle actor finds the input closed and empty and exits; `false` when
    /// no actor can exit yet.
    pub fn exit(&mut self) -> (done: bool)
        requires
            wf(old(self)@),
        ensures
            (final(self)@, done) == exit_next(old(self)@),
            wf(final(self)@),
    {
        proof {
            lemma_exit_wf(self@);
        }
        if self.closed && self.queue.len() == 0 && self.idle > 0 {
            self.idle = self.idle - 1;
            self.active = self.active - 1;
            true
        } else {
            false
        }
    }

    /// The consumer takes the oldest waiting result; once every actor has
    /// exited and nothing is waiting, it learns that no more will come.
    pub fn recv(&mut self) -> (o: RecvOutcome)
        requires
            wf(old(self)@),
        ensures
            (final(self)@, o) == recv_next(old(self)@),
            wf(final(self)@),
    {
        proof {
            lemma_recv_wf(self@);
        }
        if self.output.len() > 0 {
            let r = self.output.remove(0);
            self.received.push(r);
            proof {
                assert(self.output@ =~= old(self)@.output.drop_first());
            }
            RecvOutcome::Item(r)
        } else if self.active == 0 {
            RecvOutcome::Finished
        } else {
            RecvOutcome::WouldBlock
        }
    }

    /// Number of items actors are working on.
    pub fn in_progress(&self) -> (n: usize)
        ensures
            n == self@.busy.len(),
    {
        self.busy.len()
    }

    /// Whether the pool has shut down for good.
    pub fn is_drained(&self) -> (b: bool)
        ensures
            b == drained(self@),
    {
        self.active == 0 && self.output.len() == 0
    }

    /// The identifiers of the results received so far, in order.
    pub fn received_tags(&self) -> (t: Vec<u64>)
        ensures
            t@ == tags(self@.received),
    {
        let mut t: Vec<u64> = Vec::new();
        let mut k: usize = 0;
        while k < self.received.len()
            invariant
                k <= self.received@.len(),
                t@ == tags(self.received@.subrange(0, k as int)),
            decreases self.received@.len() - k,
        {
            proof {
                assert(self.received@.subrange(0, k + 1) =~= self.received@.subrange(0, k as int).push(self.received@[k as int]));
                lemma_tags_push(self.received@.subrange(0, k as int), self.received@[k as int]);
            }
            t.push(idx_of(&self.received[k]));
            k = k + 1;
        }
        proof {
            assert(self.received@.subrange(0, k as int) =~= self.received@);
        }
        t
    }
}

/// Once a pool has drained, every accepted item has been reported exactly
/// once: the results received are tagged with exactly the submitted
/// identifiers, none missing and none twice.
pub proof fn lemma_every_item_reported_once(v: PoolView)
    requires
        wf(v),
        drained(v),
    ensures
        tags(v.received).to_multiset() == v.submitted.to_multiset(),
        v.received.len() == v.submitted.len(),
{
    assert(v.queue.len() == 0 && v.busy.len() == 0);
    assert(v.queue =~= Seq::<u64>::empty());
    assert(v.busy =~= Seq::<u64>::empty());
    assert(tags(v.output) =~= Seq::<u64>::empty());
    assert(v.submitted.to_multiset() =~= tags(v.received).to_multiset());
    assert(tags(v.received).len() == v.received.len());
    assert(tags(v.received).to_multiset().len() == v.submitted.to_multiset().len());
}

/// After the pool is closed, a submission is refused with the item handed
/// back; it neither waits nor changes the pool.
pub proof fn lemma_send_after_close_fails(v: PoolView, idx: u64)
    ensures
        send_next(close_next(v), idx) == (
            close_next(v),
            SendOutcome::Closed(MyActorInputMessage { idx }),
        ),
{
}

/// Once the pool has drained, receiving reports that no more results will
/// come, and does so again on every later call, leaving the pool as it was.
pub proof fn lemma_drained_recv_finished(v: PoolView)
    requires
        drained(v),
    ensures
        recv_next(v) == (v, RecvOutcome::Finished),
        recv_next(recv_next(v).0) == (v, RecvOutcome::Finished),
{
}

/// A drained pool stays drained whatever happens next: no submission is
/// accepted, no actor takes, finishes or exits, and receiving changes nothing.
pub proof fn lemma_drained_is_final(v: PoolView, idx: u64, i: int, r: MyActorResult)
    requires
        wf(v),
        drained(v),
    ensures
        send_next(v, idx).0 == v,
        take_next(v).0 == v,
        finish_next(v, i, r).0 == v,
        exit_next(v).0 == v,
        recv_next(v).0 == v,
        close_next(v) == v,
{
}

/// With a single actor the results come back in the order the items were
/// submitted: what was received is a prefix of what was submitted.
pub proof fn lemma_single_actor_keeps_order(v: PoolView)
    requires
        wf(v),
        v.workers == 1,
    ensures
        tags(v.received).len() <= v.submitted.len(),
        tags(v.received) == v.submitted.subrange(0, tags(v.received).len() as int),
{
    let t = tags(v.received);
    assert(v.submitted.subrange(0, t.len() as int) =~= t);
}

/// Closing keeps every queued, in-progress and waiting item: nothing already
/// accepted is dropped, and the pool stays consistent, so the drained pool
/// still reports each of them.
pub proof fn lemma_close_keeps_accepted_work(v: PoolView)
    requires
        wf(v),
    ensures
        close_next(v).queue == v.queue,
        close_next(v).busy == v.busy,
        close_next(v).output == v.output,
        close_next(v).submitted == v.submitted,
        wf(close_next(v)),
{
}

} // verus!
