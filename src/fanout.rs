//! One producer, many subscribers: each subscriber has a queue of at most
//! `capacity` chunks. A chunk sent while a queue is full pushes out that
//! queue's oldest chunk, and the subscriber is marked as lagging: from then on
//! it receives nothing more, since its stream has a gap. The producer never
//! waits for a subscriber.
use vstd::prelude::*;

verus! {

/// What the channel knows of one subscriber.
pub struct SubView {
    /// How many chunks had been sent when it subscribed.
    pub start: nat,
    /// The position in the sent sequence of its next chunk.
    pub cursor: nat,
    /// The chunks waiting for it.
    pub pending: Seq<Seq<u8>>,
    /// The chunks it has received, in the order received.
    pub delivered: Seq<Seq<u8>>,
    /// Whether a chunk it had not received was pushed out of its queue.
    pub lagged: bool,
}

/// What a receive on a subscription gives.
#[derive(Debug, PartialEq, Eq)]
pub enum Recv {
    /// The next chunk.
    Chunk(Vec<u8>),
    /// Nothing is waiting.
    Empty,
    /// Chunks were lost to this subscriber; the subscription is of no more use.
    Lagged,
}

struct Subscriber {
    queue: Vec<Vec<u8>>,
    lagged: bool,
    start: Ghost<nat>,
    cursor: Ghost<nat>,
    delivered: Ghost<Seq<Seq<u8>>>,
}

/// The fan-out channel of one relay.
pub struct FanOut {
    capacity: usize,
    slots: Vec<Option<Subscriber>>,
    sent: Ghost<Seq<Seq<u8>>>,
}

/// The contents of a queue of chunks.
pub open spec fn chunks_view(q: Seq<Vec<u8>>) -> Seq<Seq<u8>> {
    q.map_values(|c: Vec<u8>| c@)
}

spec fn sub_view(s: Subscriber) -> SubView {
    SubView {
        start: s.start@,
        cursor: s.cursor@,
        pending: chunks_view(s.queue@),
        delivered: s.delivered@,
        lagged: s.lagged,
    }
}

spec fn slot_view(o: Option<Subscriber>) -> Option<SubView> {
    match o {
        Some(s) => Some(sub_view(s)),
        None => None,
    }
}

/// A subscriber's state is consistent with the sequence `sent` of all chunks.
pub open spec fn sub_consistent(v: SubView, sent: Seq<Seq<u8>>, capacity: nat) -> bool {
    &&& v.start <= v.cursor <= sent.len()
    &&& v.pending == sent.subrange(v.cursor as int, sent.len() as int)
    &&& v.pending.len() <= capacity
    &&& !v.lagged ==> v.delivered == sent.subrange(v.start as int, v.cursor as int)
}

/// A subscriber after `chunk` is sent to a channel of the given capacity.
pub open spec fn sub_after_send(v: SubView, chunk: Seq<u8>, capacity: nat) -> SubView {
    if v.pending.len() >= capacity {
        SubView {
            cursor: v.cursor + 1,
            pending: v.pending.drop_first().push(chunk),
            lagged: true,
            ..v
        }
    } else {
        SubView { pending: v.pending.push(chunk), ..v }
    }
}

/// The subscriptions after `chunk` is sent.
pub open spec fn slots_after_send(slots: Seq<Option<SubView>>, chunk: Seq<u8>, capacity: nat) -> Seq<
    Option<SubView>,
> {
    slots.map_values(
        |o: Option<SubView>|
            match o {
                Some(v) => Some(sub_after_send(v, chunk, capacity)),
                None => None,
            },
    )
}

/// A new subscriber, when `n` chunks have been sent.
pub open spec fn fresh_sub(n: nat) -> SubView {
    SubView { start: n, cursor: n, pending: Seq::empty(), delivered: Seq::empty(), lagged: false }
}

impl FanOut {
    /// Every chunk sent so far, in order.
    pub closed spec fn sent(&self) -> Seq<Seq<u8>> {
        self.sent@
    }

    /// The subscriptions by handle; `None` marks a free handle.
    pub closed spec fn slots(&self) -> Seq<Option<SubView>> {
        self.slots@.map_values(|o: Option<Subscriber>| slot_view(o))
    }

    /// The most chunks that wait for one subscriber.
    pub closed spec fn capacity(&self) -> nat {
        self.capacity as nat
    }

    /// Whether `h` is a live subscription.
    pub open spec fn subscribed(&self, h: usize) -> bool {
        h < self.slots().len() && self.slots()[h as int] is Some
    }

    /// The state of the live subscription `h`.
    pub open spec fn sub(&self, h: usize) -> SubView {
        self.slots()[h as int]->Some_0
    }

    pub closed spec fn wf(&self) -> bool {
        &&& self.capacity > 0
        &&& forall|i: int|
            0 <= i < self.slots@.len() && (#[trigger] self.slots@[i]) is Some ==> sub_consistent(
                sub_view(self.slots@[i]->Some_0),
                self.sent@,
                self.capacity as nat,
            )
    }

    /// A channel with no subscribers, whose queues hold at most `capacity` chunks.
    pub fn new(capacity: usize) -> (r: Self)
        requires
            capacity > 0,
        ensures
            r.wf(),
            r.capacity() == capacity,
            r.sent() == Seq::<Seq<u8>>::empty(),
            r.slots() == Seq::<Option<SubView>>::empty(),
    {
        let r = FanOut { capacity, slots: Vec::new(), sent: Ghost(Seq::empty()) };
        assert(r.slots() =~= Seq::<Option<SubView>>::empty());
        r
    }

    proof fn lemma_wf_slot(&self, i: int)
        requires
            self.wf(),
            0 <= i < self.slots@.len(),
            self.slots@[i] is Some,
        ensures
            sub_consistent(self.slots()[i]->Some_0, self.sent(), self.capacity()),
            self.slots()[i] == slot_view(self.slots@[i]),
    {
    }

    /// Subscribes: the new subscriber receives the chunks sent from now on.
    /// The handle is the first free one, or a new one at the end; there is
    /// none only when every one of `usize::MAX` handles is taken.
    pub fn subscribe(&mut self) -> (r: Option<usize>)
        requires
            old(self).wf(),
        ensures
            final(self).wf(),
            final(self).sent() == old(self).sent(),
            final(self).capacity() == old(self).capacity(),
            r is None <==> old(self).slots().len() == usize::MAX && forall|j: int|
                0 <= j < old(self).slots().len() ==> (#[trigger] old(self).slots()[j]) is Some,
            r is None ==> final(self).slots() == old(self).slots(),
            r is Some ==> ({
                let h = r->Some_0;
                &&& h <= old(self).slots().len()
                &&& h < old(self).slots().len() ==> old(self).slots()[h as int] is None
                &&& forall|j: int| 0 <= j < h ==> (#[trigger] old(self).slots()[j]) is Some
                &&& final(self).slots() == (if h < old(self).slots().len() {
                    old(self).slots().update(h as int, Some(fresh_sub(old(self).sent().len())))
                } else {
                    old(self).slots().push(Some(fresh_sub(old(self).sent().len())))
                })
            }),
    {
        let n = Ghost(self.sent@.len());
        let s = Subscriber {
            queue: Vec::new(),
            lagged: false,
            start: n,
            cursor: n,
            delivered: Ghost(Seq::empty()),
        };
        assert(chunks_view(s.queue@) =~= Seq::<Seq<u8>>::empty());
        assert(sub_view(s) == fresh_sub(n@));
        assert(self.sent@.subrange(n@ as int, n@ as int) =~= Seq::<Seq<u8>>::empty());
        assert(sub_consistent(sub_view(s), self.sent@, self.capacity as nat));
        let mut i: usize = 0;
        while i < self.slots.len()
            invariant
                i <= self.slots@.len(),
                forall|j: int| 0 <= j < i ==> (#[trigger] self.slots()[j]) is Some,
                self.slots@ == old(self).slots@,
                self.slots() == old(self).slots(),
                self.wf(),
                self.sent@ == old(self).sent@,
                self.capacity == old(self).capacity,
                sub_view(s) == fresh_sub(n@),
                n@ == self.sent@.len(),
                sub_consistent(sub_view(s), self.sent@, self.capacity as nat),
            decreases self.slots@.len() - i,
        {
            if self.slots[i].is_none() {
                let ghost s0 = self.slots@;
                self.slots.set(i, Some(s));
                assert(self.slots() =~= old(self).slots().update(i as int, Some(fresh_sub(n@))));
                assert forall|k: int|
                    0 <= k < self.slots@.len() && (#[trigger] self.slots@[k]) is Some implies sub_consistent(
                    sub_view(self.slots@[k]->Some_0),
                    self.sent@,
                    self.capacity as nat,
                ) by {
                    if k != i {
                        assert(self.slots@[k] == s0[k]);
                    }
                }
                return Some(i);
            }
            i = i + 1;
        }
        if self.slots.len() == usize::MAX {
            return None;
        }
        let ghost s0 = self.slots@;
        self.slots.push(Some(s));
        assert(self.slots() =~= old(self).slots().push(Some(fresh_sub(n@))));
        assert forall|k: int|
            0 <= k < self.slots@.len() && (#[trigger] self.slots@[k]) is Some implies sub_consistent(
            sub_view(self.slots@[k]->Some_0),
            self.sent@,
            self.capacity as nat,
        ) by {
            if k < s0.len() {
                assert(self.slots@[k] == s0[k]);
            }
        }
        Some(i)
    }

    /// Sends `chunk` to every live subscription. A full queue loses its oldest
    /// chunk, and its subscriber is marked as lagging.
    pub fn send(&mut self, chunk: Vec<u8>)
        requires
            old(self).wf(),
        ensures
            final(self).wf(),
            final(self).sent() == old(self).sent().push(chunk@),
            final(self).capacity() == old(self).capacity(),
            final(self).slots() == slots_after_send(old(self).slots(), chunk@, old(self).capacity()),
    {
        let ghost sent1 = self.sent@.push(chunk@);
        let ghost target = slots_after_send(old(self).slots(), chunk@, self.capacity as nat);
        let mut i: usize = 0;
        while i < self.slots.len()
            invariant
                i <= self.slots@.len(),
                self.slots@.len() == old(self).slots@.len(),
                self.capacity == old(self).capacity,
                self.capacity > 0,
                self.sent@ == old(self).sent@,
                old(self).wf(),
                target == slots_after_send(old(self).slots(), chunk@, self.capacity as nat),
                sent1 == old(self).sent@.push(chunk@),
                forall|j: int| 0 <= j < i ==> #[trigger] self.slots()[j] == target[j],
                forall|j: int|
                    0 <= j < i && (#[trigger] self.slots@[j]) is Some ==> sub_consistent(
                        sub_view(self.slots@[j]->Some_0),
                        sent1,
                        self.capacity as nat,
                    ),
                forall|j: int| i <= j < self.slots@.len() ==> #[trigger] self.slots@[j] == old(self).slots@[j],
            decreases self.slots@.len() - i,
        {
            let ghost before = self.slots@;
            let ghost before_view = self.slots();
            let cur = self.slots[i].take();
            assert(self.slots@ == before.update(i as int, None));
            match cur {
                Some(mut sub) => {
                    let ghost v0 = sub_view(sub);
                    proof {
                        old(self).lemma_wf_slot(i as int);
                    }
                    if sub.queue.len() >= self.capacity {
                        let ghost q0 = sub.queue@;
                        sub.queue.remove(0);
                        sub.lagged = true;
                        sub.cursor = Ghost(sub.cursor@ + 1);
                        assert(chunks_view(sub.queue@) =~= chunks_view(q0).drop_first());
                    }
                    let ghost q1 = sub.queue@;
                    sub.queue.push(chunk.clone());
                    assert(chunks_view(sub.queue@) =~= chunks_view(q1).push(chunk@));
                    assert(sub_view(sub) == sub_after_send(v0, chunk@, self.capacity as nat));
                    assert(sub_view(sub).pending =~= sent1.subrange(sub.cursor@ as int, sent1.len() as int));
                    assert(sent1.subrange(sub.start@ as int, sub.cursor@ as int) =~= old(self).sent@.subrange(
                        sub.start@ as int,
                        sub.cursor@ as int,
                    ));
                    assert(sub_consistent(sub_view(sub), sent1, self.capacity as nat));
                    self.slots.set(i, Some(sub));
                },
                None => {
                    self.slots.set(i, None);
                },
            }
            assert(self.slots()[i as int] == target[i as int]);
            assert forall|j: int| 0 <= j < i + 1 implies #[trigger] self.slots()[j] == target[j] by {
                if j < i {
                    assert(self.slots@[j] == before[j]);
                    assert(before_view[j] == target[j]);
                    assert(before_view[j] == slot_view(before[j]));
                }
            }
            assert forall|j: int|
                0 <= j < i + 1 && (#[trigger] self.slots@[j]) is Some implies sub_consistent(
                sub_view(self.slots@[j]->Some_0),
                sent1,
                self.capacity as nat,
            ) by {
                if j < i {
                    assert(self.slots@[j] == before[j]);
                }
            }
            assert forall|j: int| i + 1 <= j < self.slots@.len() implies #[trigger] self.slots@[j] == old(self).slots@[j] by {
                assert(self.slots@[j] == before[j]);
            }
            i = i + 1;
        }
        assert(self.slots().len() == target.len());
        assert(self.slots() =~= target);
        self.sent = Ghost(sent1);
    }

    /// Receives on subscription `h`: its next chunk, if it is not lagging.
    pub fn recv(&mut self, h: usize) -> (r: Recv)
        requires
            old(self).wf(),
            old(self).subscribed(h),
        ensures
            final(self).wf(),
            final(self).sent() == old(self).sent(),
            final(self).capacity() == old(self).capacity(),
            old(self).sub(h).lagged ==> r == Recv::Lagged && final(self).slots() == old(self).slots(),
            !old(self).sub(h).lagged && old(self).sub(h).pending.len() == 0 ==> r == Recv::Empty
                && final(self).slots() == old(self).slots(),
            !old(self).sub(h).lagged && old(self).sub(h).pending.len() > 0 ==> {
                let v = old(self).sub(h);
                &&& r is Chunk
                &&& r->Chunk_0@ == v.pending[0]
                &&& r->Chunk_0@ == old(self).sent()[v.cursor as int]
                &&& final(self).slots() == old(self).slots().update(
                    h as int,
                    Some(
                        SubView {
                            cursor: v.cursor + 1,
                            pending: v.pending.drop_first(),
                            delivered: v.delivered.push(v.pending[0]),
                            ..v
                        },
                    ),
                )
            },
    {
        proof {
            self.lemma_wf_slot(h as int);
        }
        let ghost before = self.slots@;
        let cur = self.slots[h].take();
        let mut sub = match cur {
            Some(sub) => sub,
            None => {
                return Recv::Empty;
            },
        };
        let r = if sub.lagged {
            Recv::Lagged
        } else if sub.queue.len() == 0 {
            Recv::Empty
        } else {
            let ghost v = sub_view(sub);
            let ghost q0 = sub.queue@;
            let c = sub.queue.remove(0);
            sub.cursor = Ghost(sub.cursor@ + 1);
            sub.delivered = Ghost(sub.delivered@.push(c@));
            assert(chunks_view(sub.queue@) =~= chunks_view(q0).drop_first());
            assert(v.pending[0] == c@);
            assert(sub_view(sub).pending =~= self.sent@.subrange(sub.cursor@ as int, self.sent@.len() as int));
            assert(!sub.lagged ==> sub.delivered@ =~= self.sent@.subrange(sub.start@ as int, sub.cursor@ as int));
            Recv::Chunk(c)
        };
        self.slots.set(h, Some(sub));
        assert(self.slots@ =~= before.update(h as int, Some(sub)));
        proof {
            if !(r is Chunk) {
                assert(self.slots@ =~= before);
            } else {
                assert(self.slots() =~= old(self).slots().update(h as int, Some(sub_view(sub))));
            }
        }
        assert forall|k: int|
            0 <= k < self.slots@.len() && (#[trigger] self.slots@[k]) is Some implies sub_consistent(
            sub_view(self.slots@[k]->Some_0),
            self.sent@,
            self.capacity as nat,
        ) by {
            if k != h {
                assert(self.slots@[k] == before[k]);
            }
        }
        r
    }

    /// Ends the subscription `h`; no other subscription changes.
    pub fn unsubscribe(&mut self, h: usize)
        requires
            old(self).wf(),
            h < old(self).slots().len(),
        ensures
            final(self).wf(),
            final(self).sent() == old(self).sent(),
            final(self).capacity() == old(self).capacity(),
            final(self).slots() == old(self).slots().update(h as int, None),
    {
        let ghost s0 = self.slots@;
        self.slots.set(h, None);
        assert(self.slots() =~= old(self).slots().update(h as int, None));
        assert forall|k: int|
            0 <= k < self.slots@.len() && (#[trigger] self.slots@[k]) is Some implies sub_consistent(
            sub_view(self.slots@[k]->Some_0),
            self.sent@,
            self.capacity as nat,
        ) by {
            assert(self.slots@[k] == s0[k]);
        }
    }
}

/// A subscriber that has not lagged has received every chunk sent since it
/// subscribed, each once and in the order sent, and the rest of them wait in
/// its queue in that order.
pub proof fn lemma_lossless_delivery(ch: &FanOut, h: usize)
    requires
        ch.wf(),
        ch.subscribed(h),
        !ch.sub(h).lagged,
    ensures
        ch.sub(h).delivered == ch.sent().subrange(ch.sub(h).start as int, ch.sub(h).cursor as int),
        ch.sub(h).delivered + ch.sub(h).pending == ch.sent().subrange(
            ch.sub(h).start as int,
            ch.sent().len() as int,
        ),
{
    ch.lemma_wf_slot(h as int);
    let v = ch.sub(h);
    assert(v.delivered + v.pending =~= ch.sent().subrange(v.start as int, ch.sent().len() as int));
}

/// Ending one subscription leaves every other subscription, and the chunks
/// sent, as they were.
pub proof fn lemma_disconnect_isolated(before: &FanOut, after: &FanOut, h: usize, k: usize)
    requires
        after.slots() == before.slots().update(h as int, None),
        after.sent() == before.sent(),
        h < before.slots().len(),
        before.subscribed(k),
        k != h,
    ensures
        after.subscribed(k),
        after.sub(k) == before.sub(k),
        after.sent() == before.sent(),
{
}

} // verus!
