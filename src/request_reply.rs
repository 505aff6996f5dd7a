use crate::actor::{ActorCounter, MAX_ID};
use vstd::prelude::*;

verus! {

/// The observable state of a request/response pool: calls waiting to be
/// served, each known by its private reply slot, and replies not yet collected.
pub struct ReplyView {
    /// The slot the next call gets; every slot handed out is below it.
    pub next_slot: nat,
    /// Slots of calls waiting for an actor, oldest first.
    pub queued: Seq<u64>,
    /// Replies delivered and not yet collected: (slot, value).
    pub replies: Seq<(u64, u32)>,
}

/// Every slot in use is one that was handed out, and no slot is used twice:
/// at most one waiting call or one reply per slot.
pub open spec fn reply_wf(v: ReplyView) -> bool {
    let slots = v.queued + v.replies.map_values(|p: (u64, u32)| p.0);
    &&& forall|k: int| 0 <= k < slots.len() ==> (#[trigger] slots[k]) < v.next_slot
    &&& forall|k: int, l: int| 0 <= k < l < slots.len() ==> #[trigger] slots[k] != #[trigger] slots[l]
}

/// Position of the reply addressed to `slot`, searching from `from` on.
pub open spec fn find_reply(replies: Seq<(u64, u32)>, slot: u64, from: int) -> int
    decreases replies.len() - from,
{
    if from < 0 || from >= replies.len() {
        -1
    } else if replies[from].0 == slot {
        from
    } else {
        find_reply(replies, slot, from + 1)
    }
}

/// A new call taking a fresh slot.
pub open spec fn call_next(v: ReplyView) -> (ReplyView, Option<u64>) {
    if v.next_slot < u64::MAX {
        (
            ReplyView { next_slot: v.next_slot + 1, queued: v.queued.push(v.next_slot as u64), ..v },
            Some(v.next_slot as u64),
        )
    } else {
        (v, None)
    }
}

/// An actor whose counter stands at `next_id` serving the oldest waiting
/// call: the reply goes to that call's slot, or is lost once the counter is spent.
pub open spec fn serve_next(v: ReplyView, next_id: u32) -> ReplyView {
    if v.queued.len() == 0 {
        v
    } else if next_id < MAX_ID {
        ReplyView {
            queued: v.queued.drop_first(),
            replies: v.replies.push((v.queued[0], (next_id + 1) as u32)),
            ..v
        }
    } else {
        ReplyView { queued: v.queued.drop_first(), ..v }
    }
}

/// The caller holding `slot` collecting its reply, if it has arrived.
pub open spec fn collect_next(v: ReplyView, slot: u64) -> (ReplyView, Option<u32>) {
    let k = find_reply(v.replies, slot, 0);
    if k < 0 {
        (v, None)
    } else {
        (ReplyView { replies: v.replies.remove(k), ..v }, Some(v.replies[k].1))
    }
}

proof fn lemma_find_reply(replies: Seq<(u64, u32)>, slot: u64, from: int)
    requires
        0 <= from,
    ensures
        -1 <= find_reply(replies, slot, from) < replies.len(),
        find_reply(replies, slot, from) >= 0 ==> find_reply(replies, slot, from) >= from
            && replies[find_reply(replies, slot, from)].0 == slot,
        find_reply(replies, slot, from) < 0 ==> forall|k: int|
            from <= k < replies.len() ==> (#[trigger] replies[k]).0 != slot,
    decreases replies.len() - from,
{
    if from < replies.len() && replies[from].0 != slot {
        lemma_find_reply(replies, slot, from + 1);
    }
}

proof fn lemma_call_wf(v: ReplyView)
    requires
        reply_wf(v),
    ensures
        reply_wf(call_next(v).0),
{
    if v.next_slot < u64::MAX {
        let w = call_next(v).0;
        let f = |p: (u64, u32)| p.0;
        let s0 = v.queued + v.replies.map_values(f);
        let s1 = w.queued + w.replies.map_values(f);
        assert forall|k: int| 0 <= k < s1.len() implies (#[trigger] s1[k]) < w.next_slot by {
            if k < v.queued.len() {
                assert(s1[k] == s0[k]);
            } else if k > v.queued.len() {
                assert(s1[k] == s0[k - 1]);
            }
        }
        assert forall|k: int, l: int| 0 <= k < l < s1.len() implies #[trigger] s1[k] != #[trigger] s1[l] by {
            let k0 = if k < v.queued.len() { k } else if k == v.queued.len() { -1 } else { k - 1 };
            let l0 = if l < v.queued.len() { l } else if l == v.queued.len() { -1 } else { l - 1 };
            if k0 >= 0 {
                assert(s1[k] == s0[k0]);
            }
            if l0 >= 0 {
                assert(s1[l] == s0[l0]);
            }
        }
    }
}

proof fn lemma_serve_wf(v: ReplyView, next_id: u32)
    requires
        reply_wf(v),
    ensures
        reply_wf(serve_next(v, next_id)),
{
    if v.queued.len() > 0 {
        let w = serve_next(v, next_id);
        let f = |p: (u64, u32)| p.0;
        let s0 = v.queued + v.replies.map_values(f);
        let s1 = w.queued + w.replies.map_values(f);
        let n = v.queued.len() - 1;
        // position in the old slot list of each position of the new one
        let pos = |k: int| if k < n + v.replies.len() { k + 1 } else { 0 };
        assert forall|k: int| 0 <= k < s1.len() implies s1[k] == s0[pos(k)] by {
            if k >= n && k < n + v.replies.len() {
                assert(w.replies[k - n] == v.replies[k - n]);
            }
        }
        assert forall|k: int| 0 <= k < s1.len() implies (#[trigger] s1[k]) < w.next_slot by {
            assert(s1[k] == s0[pos(k)]);
        }
        assert forall|k: int, l: int| 0 <= k < l < s1.len() implies #[trigger] s1[k] != #[trigger] s1[l] by {
            assert(s1[k] == s0[pos(k)]);
            assert(s1[l] == s0[pos(l)]);
            if pos(k) < pos(l) {
            } else {
                assert(pos(l) < pos(k));
            }
        }
    }
}

proof fn lemma_collect_wf(v: ReplyView, slot: u64)
    requires
        reply_wf(v),
    ensures
        reply_wf(collect_next(v, slot).0),
{
    lemma_find_reply(v.replies, slot, 0);
    let r = find_reply(v.replies, slot, 0);
    if r >= 0 {
        let w = collect_next(v, slot).0;
        let f = |p: (u64, u32)| p.0;
        let s0 = v.queued + v.replies.map_values(f);
        let s1 = w.queued + w.replies.map_values(f);
        let q = v.queued.len() as int;
        let pos = |k: int| if k < q + r { k } else { k + 1 };
        assert forall|k: int| 0 <= k < s1.len() implies s1[k] == s0[pos(k)] by {
            if k >= q {
                assert(w.replies[k - q] == v.replies[pos(k) - q]);
            }
        }
        assert forall|k: int| 0 <= k < s1.len() implies (#[trigger] s1[k]) < w.next_slot by {
            assert(s1[k] == s0[pos(k)]);
        }
        assert forall|k: int, l: int| 0 <= k < l < s1.len() implies #[trigger] s1[k] != #[trigger] s1[l] by {
            assert(s1[k] == s0[pos(k)]);
            assert(s1[l] == s0[pos(l)]);
        }
    }
}

/// The bookkeeping of a request/response pool: each call waits on a private
/// reply slot, and an actor's reply is addressed to the slot of the call it
/// served.
pub struct ReplyLedger {
    next_slot: u64,
    queued: Vec<u64>,
    replies: Vec<(u64, u32)>,
}

impl View for ReplyLedger {
    type V = ReplyView;

    closed spec fn view(&self) -> ReplyView {
        ReplyView { next_slot: self.next_slot as nat, queued: self.queued@, replies: self.replies@ }
    }
}

impl ReplyLedger {
    /// No calls yet.
    pub fn new() -> (r: ReplyLedger)
        ensures
            r@ == (ReplyView { next_slot: 0, queued: Seq::empty(), replies: Seq::empty() }),
            reply_wf(r@),
    {
        let r = ReplyLedger { next_slot: 0, queued: Vec::new(), replies: Vec::new() };
        proof {
            assert((r@.queued + r@.replies.map_values(|p: (u64, u32)| p.0)).len() == 0);
        }
        r
    }

    /// Starts a call: returns its fresh reply slot, or `None` once every slot
    /// has been handed out.
    pub fn call(&mut self) -> (o: Option<u64>)
        requires
            reply_wf(old(self)@),
        ensures
            (final(self)@, o) == call_next(old(self)@),
            reply_wf(final(self)@),
    {
        proof {
            lemma_call_wf(self@);
        }
        if self.next_slot < u64::MAX {
            let slot = self.next_slot;
            self.queued.push(slot);
            self.next_slot = self.next_slot + 1;
            Some(slot)
        } else {
            None
        }
    }

    /// The actor `actor` serves the oldest waiting call, if any; `false` when
    /// no call is waiting.
    pub fn serve(&mut self, actor: &mut ActorCounter) -> (served: bool)
        requires
            reply_wf(old(self)@),
        ensures
            served == (old(self)@.queued.len() > 0),
            final(self)@ == serve_next(old(self)@, old(actor).next_id),
            served ==> final(actor).next_id == (if old(actor).next_id < MAX_ID {
                old(actor).next_id + 1
            } else {
                old(actor).next_id as int
            }),
            !served ==> final(actor).next_id == old(actor).next_id,
            reply_wf(final(self)@),
    {
        proof {
            lemma_serve_wf(self@, actor.next_id);
        }
        if self.queued.len() == 0 {
            return false;
        }
        let slot = self.queued.remove(0);
        match actor.next_unique_id() {
            Some(id) => self.replies.push((slot, id)),
            None => {},
        }
        proof {
            assert(self.queued@ =~= old(self)@.queued.drop_first());
        }
        true
    }

    /// The caller holding `slot` takes the reply addressed to it, if it has
    /// arrived.
    pub fn collect(&mut self, slot: u64) -> (o: Option<u32>)
        requires
            reply_wf(old(self)@),
        ensures
            (final(self)@, o) == collect_next(old(self)@, slot),
            reply_wf(final(self)@),
    {
        proof {
            lemma_collect_wf(self@, slot);
            lemma_find_reply(self@.replies, slot, 0);
        }
        let mut k: usize = 0;
        while k < self.replies.len()
            invariant
                k <= self.replies@.len(),
                self@ == old(self)@,
                reply_wf(collect_next(old(self)@, slot).0),
                forall|j: int| 0 <= j < k ==> (#[trigger] self.replies@[j]).0 != slot,
                find_reply(self.replies@, slot, 0) == find_reply(self.replies@, slot, k as int),
            decreases self.replies@.len() - k,
        {
            if self.replies[k].0 == slot {
                let (_, value) = self.replies.remove(k);
                proof {
                    assert(self@ =~= collect_next(old(self)@, slot).0);
                }
                return Some(value);
            }
            k = k + 1;
        }
        None
    }
}

/// Replies are never crossed between calls: two calls hold different slots,
/// each slot carries at most one reply, and what a caller collects is the
/// reply addressed to its own slot.
pub proof fn lemma_replies_not_crossed(v: ReplyView, a: u64)
    requires
        reply_wf(v),
    ensures
        call_next(v).1 matches Some(s) ==> !v.queued.contains(s)
            && forall|k: int| 0 <= k < v.replies.len() ==> (#[trigger] v.replies[k]).0 != s,
        forall|k: int, l: int|
            0 <= k < l < v.replies.len() ==> (#[trigger] v.replies[k]).0 != (#[trigger] v.replies[l]).0,
        collect_next(v, a).1 matches Some(x) ==> exists|k: int|
            0 <= k < v.replies.len() && #[trigger] v.replies[k] == (a, x),
{
    lemma_find_reply(v.replies, a, 0);
    let slots = v.queued + v.replies.map_values(|p: (u64, u32)| p.0);
    let q = v.queued.len() as int;
    assert forall|k: int| 0 <= k < v.replies.len() implies slots[q + k] == (#[trigger] v.replies[k]).0 by {}
    if let Some(s) = call_next(v).1 {
        assert forall|k: int| 0 <= k < v.queued.len() implies v.queued[k] != s by {
            assert(slots[k] == v.queued[k]);
        }
        assert forall|k: int| 0 <= k < v.replies.len() implies (#[trigger] v.replies[k]).0 != s by {
            assert(slots[q + k] == v.replies[k].0);
        }
    }
    assert forall|k: int, l: int| 0 <= k < l < v.replies.len() implies (#[trigger] v.replies[k]).0
        != (#[trigger] v.replies[l]).0 by {
        assert(slots[q + k] == v.replies[k].0);
        assert(slots[q + l] == v.replies[l].0);
    }
    let r = find_reply(v.replies, a, 0);
    if r >= 0 {
        assert(v.replies[r] == (a, v.replies[r].1));
    }
}

} // verus!
