//! A model of a whole channel: every sender's buffer, the shared queue, the
//! receiver's buffer and what it handed out. The laws of the channel are
//! proved here for every run of the model, whatever the threshold and
//! however the steps of the handles interleave.
//!
//! The model shares with `Sender` and `Receiver` the step functions of
//! `buffer` (`send_outcome`, `take_result`, `local_after_take`,
//! `queue_after_take`). Its shared queue, its set of live senders and its drop
//! step (a flush, then removal) are its own: no contract of the handles ties
//! them to the running channel, whose queue and handle count change under
//! other threads.
use crate::buffer::{local_after_take, queue_after_take, send_outcome, take_result, Received};
use vstd::multiset::Multiset;
use vstd::prelude::*;

verus! {

/// One step of one handle. Senders are told apart by a number; a value in
/// the shared queue carries the number of the sender that sent it.
pub enum Event<T> {
    /// Sender `id` sends `val`; `acquired` tells whether the lock was free
    /// when the send tried it.
    SendValue { id: nat, val: T, acquired: bool },
    /// Sender `id` flushes its buffer.
    FlushSender { id: nat },
    /// Sender `id` is cloned into a new sender `new_id`.
    CloneSender { id: nat, new_id: nat },
    /// Sender `id` is dropped, which flushes its buffer.
    DropSender { id: nat },
    /// The receiver makes one pass.
    Receive,
}

/// The whole state of a channel at one moment.
pub struct ChannelState<T> {
    /// The threshold that every sender of the channel shares.
    pub lim: nat,
    /// The buffer of each live sender.
    pub buffers: Map<nat, Seq<T>>,
    /// The shared queue.
    pub queue: Seq<(nat, T)>,
    /// The receiver's buffer.
    pub taken: Seq<(nat, T)>,
    /// What the receiver handed out, in order.
    pub received: Seq<(nat, T)>,
    /// Every send, in the order the sends happened.
    pub log: Seq<(nat, T)>,
}

/// The values of `s`, each tagged with sender `id`.
pub open spec fn tagged<T>(id: nat, s: Seq<T>) -> Seq<(nat, T)> {
    s.map_values(|v: T| (id, v))
}

/// The values in `s` that sender `id` sent, in their order in `s`.
pub open spec fn of_sender<T>(s: Seq<(nat, T)>, id: nat) -> Seq<T>
    decreases s.len(),
{
    if s.len() == 0 {
        Seq::empty()
    } else {
        let rest = of_sender(s.drop_last(), id);
        if s.last().0 == id {
            rest.push(s.last().1)
        } else {
            rest
        }
    }
}

impl<T> ChannelState<T> {
    /// Sender `id` exists and has not been dropped.
    pub open spec fn live(self, id: nat) -> bool {
        self.buffers.dom().contains(id)
    }

    /// The buffer of sender `id`; empty for a sender that is not live.
    pub open spec fn buffer(self, id: nat) -> Seq<T> {
        if self.live(id) {
            self.buffers[id]
        } else {
            Seq::empty()
        }
    }

    /// Every sender has been dropped.
    pub open spec fn no_senders(self) -> bool {
        forall|id: nat| !#[trigger] self.live(id)
    }

    /// Every sender has been dropped and nothing is left in the shared
    /// queue or in the receiver's buffer.
    pub open spec fn drained(self) -> bool {
        &&& self.no_senders()
        &&& self.taken.len() == 0
        &&& self.queue.len() == 0
    }

    /// For every sender, what it sent is what the receiver handed out from
    /// it, then what of it waits in the receiver's buffer and in the shared
    /// queue, then its own buffer, each in the order it was sent.
    pub open spec fn ledger(self) -> bool {
        forall|id: nat|
            #[trigger] of_sender(self.log, id) == of_sender(
                self.received + self.taken + self.queue,
                id,
            ) + self.buffer(id)
    }
}

/// A new channel: one sender, numbered `0`, and everything empty.
pub open spec fn initial<T>(lim: nat) -> ChannelState<T> {
    ChannelState {
        lim,
        buffers: Map::empty().insert(0nat, Seq::empty()),
        queue: Seq::empty(),
        taken: Seq::empty(),
        received: Seq::empty(),
        log: Seq::empty(),
    }
}

/// What the receiver's pass yields in state `s`.
pub open spec fn receive_result<T>(s: ChannelState<T>) -> Received<(nat, T)> {
    take_result(s.taken, s.queue, s.no_senders())
}

/// The state after event `e`. A step of a sender that is not live changes
/// nothing.
pub open spec fn step<T>(s: ChannelState<T>, e: Event<T>) -> ChannelState<T> {
    match e {
        Event::SendValue { id, val, acquired } => {
            if s.live(id) {
                let out = send_outcome(s.buffers[id], val, s.lim, acquired);
                ChannelState {
                    buffers: s.buffers.insert(id, out.0),
                    queue: s.queue + tagged(id, out.1),
                    log: s.log.push((id, val)),
                    ..s
                }
            } else {
                s
            }
        },
        Event::FlushSender { id } => {
            if s.live(id) {
                ChannelState {
                    buffers: s.buffers.insert(id, Seq::empty()),
                    queue: s.queue + tagged(id, s.buffers[id]),
                    ..s
                }
            } else {
                s
            }
        },
        Event::CloneSender { id, new_id } => {
            if s.live(id) && !s.live(new_id) {
                ChannelState { buffers: s.buffers.insert(new_id, Seq::empty()), ..s }
            } else {
                s
            }
        },
        Event::DropSender { id } => {
            if s.live(id) {
                ChannelState {
                    buffers: s.buffers.remove(id),
                    queue: s.queue + tagged(id, s.buffers[id]),
                    ..s
                }
            } else {
                s
            }
        },
        Event::Receive => {
            let r = receive_result(s);
            ChannelState {
                taken: local_after_take(s.taken, s.queue),
                queue: queue_after_take(s.taken, s.queue),
                received: match r {
                    Received::Item(x) => s.received.push(x),
                    _ => s.received,
                },
                ..s
            }
        },
    }
}

/// The state after the events of `events`, in order, from `s`.
pub open spec fn run<T>(s: ChannelState<T>, events: Seq<Event<T>>) -> ChannelState<T>
    decreases events.len(),
{
    if events.len() == 0 {
        s
    } else {
        run(step(s, events[0]), events.drop_first())
    }
}

proof fn lemma_of_sender_add<T>(a: Seq<(nat, T)>, b: Seq<(nat, T)>, id: nat)
    ensures
        of_sender(a + b, id) == of_sender(a, id) + of_sender(b, id),
    decreases b.len(),
{
    if b.len() == 0 {
        assert(a + b =~= a);
        assert(of_sender(a, id) + of_sender(b, id) =~= of_sender(a, id));
    } else {
        lemma_of_sender_add(a, b.drop_last(), id);
        assert((a + b).drop_last() =~= a + b.drop_last());
        assert((a + b).last() == b.last());
        if b.last().0 == id {
            assert(of_sender(a, id) + of_sender(b.drop_last(), id).push(b.last().1) =~= (of_sender(
                a,
                id,
            ) + of_sender(b.drop_last(), id)).push(b.last().1));
        }
    }
}

proof fn lemma_of_sender_tagged<T>(id: nat, s: Seq<T>, other: nat)
    ensures
        of_sender(tagged(id, s), id) == s,
        other != id ==> of_sender(tagged(id, s), other) == Seq::<T>::empty(),
    decreases s.len(),
{
    if s.len() == 0 {
        assert(tagged(id, s) =~= Seq::<(nat, T)>::empty());
        assert(s =~= Seq::<T>::empty());
    } else {
        lemma_of_sender_tagged(id, s.drop_last(), other);
        assert(tagged(id, s).drop_last() =~= tagged(id, s.drop_last()));
        assert(s.drop_last().push(s.last()) =~= s);
    }
}

proof fn lemma_of_sender_push<T>(s: Seq<(nat, T)>, x: (nat, T), id: nat)
    ensures
        of_sender(s.push(x), id) == if x.0 == id {
            of_sender(s, id).push(x.1)
        } else {
            of_sender(s, id)
        },
{
    assert(s.push(x).drop_last() =~= s);
}

/// Each step keeps the ledger.
proof fn lemma_step_keeps_ledger<T>(s: ChannelState<T>, e: Event<T>)
    requires
        s.ledger(),
    ensures
        step(s, e).ledger(),
{
    let t = step(s, e);
    let before = s.received + s.taken + s.queue;
    match e {
        Event::SendValue { id, val, acquired } => {
            if s.live(id) {
                let out = send_outcome(s.buffers[id], val, s.lim, acquired);
                assert(t.received + t.taken + t.queue =~= before + tagged(id, out.1));
                assert(out.1 + out.0 =~= s.buffers[id].push(val));
                assert forall|j: nat| #[trigger]
                    of_sender(t.log, j) == of_sender(t.received + t.taken + t.queue, j)
                        + t.buffer(j) by {
                    lemma_of_sender_push(s.log, (id, val), j);
                    lemma_of_sender_add(before, tagged(id, out.1), j);
                    lemma_of_sender_tagged(id, out.1, j);
                    assert(of_sender(s.log, j) == of_sender(before, j) + s.buffer(j));
                    if j == id {
                        assert(of_sender(t.log, j) =~= of_sender(before, j) + out.1 + out.0);
                    } else {
                        assert(t.buffer(j) == s.buffer(j));
                        assert(of_sender(before, j) + Seq::<T>::empty() =~= of_sender(before, j));
                    }
                }
            }
        },
        Event::FlushSender { id } => {
            if s.live(id) {
                let moved = s.buffers[id];
                assert(t.received + t.taken + t.queue =~= before + tagged(id, moved));
                assert forall|j: nat| #[trigger]
                    of_sender(t.log, j) == of_sender(t.received + t.taken + t.queue, j)
                        + t.buffer(j) by {
                    lemma_of_sender_add(before, tagged(id, moved), j);
                    lemma_of_sender_tagged(id, moved, j);
                    assert(of_sender(s.log, j) == of_sender(before, j) + s.buffer(j));
                    if j == id {
                        assert(of_sender(before, j) + moved + Seq::<T>::empty() =~= of_sender(
                            before,
                            j,
                        ) + moved);
                    } else {
                        assert(t.buffer(j) == s.buffer(j));
                        assert(of_sender(before, j) + Seq::<T>::empty() =~= of_sender(before, j));
                    }
                }
            }
        },
        Event::CloneSender { id, new_id } => {
            if s.live(id) && !s.live(new_id) {
                assert forall|j: nat| #[trigger]
                    of_sender(t.log, j) == of_sender(t.received + t.taken + t.queue, j)
                        + t.buffer(j) by {
                    assert(of_sender(s.log, j) == of_sender(before, j) + s.buffer(j));
                    assert(t.buffer(j) == s.buffer(j));
                }
            }
        },
        Event::DropSender { id } => {
            if s.live(id) {
                let moved = s.buffers[id];
                assert(t.received + t.taken + t.queue =~= before + tagged(id, moved));
                assert forall|j: nat| #[trigger]
                    of_sender(t.log, j) == of_sender(t.received + t.taken + t.queue, j)
                        + t.buffer(j) by {
                    lemma_of_sender_add(before, tagged(id, moved), j);
                    lemma_of_sender_tagged(id, moved, j);
                    assert(of_sender(s.log, j) == of_sender(before, j) + s.buffer(j));
                    if j == id {
                        assert(!t.live(j));
                        assert(of_sender(before, j) + moved + Seq::<T>::empty() =~= of_sender(
                            before,
                            j,
                        ) + moved);
                    } else {
                        assert(t.buffer(j) == s.buffer(j));
                        assert(of_sender(before, j) + Seq::<T>::empty() =~= of_sender(before, j));
                    }
                }
            }
        },
        Event::Receive => {
            if s.taken.len() > 0 {
                assert(s.received.push(s.taken[0]) + s.taken.drop_first() =~= s.received
                    + s.taken);
            } else if s.queue.len() > 0 {
                assert(s.received.push(s.queue[0]) + s.queue.drop_first() + Seq::empty()
                    =~= s.received + s.taken + s.queue);
            } else {
                assert(s.received + s.queue + Seq::empty() =~= s.received + s.taken + s.queue);
            }
            assert(t.received + t.taken + t.queue =~= before);
            assert forall|j: nat| #[trigger]
                of_sender(t.log, j) == of_sender(t.received + t.taken + t.queue, j)
                    + t.buffer(j) by {
                assert(of_sender(s.log, j) == of_sender(before, j) + s.buffer(j));
                assert(t.buffer(j) == s.buffer(j));
            }
        },
    }
}

proof fn lemma_run_keeps_ledger<T>(s: ChannelState<T>, events: Seq<Event<T>>)
    requires
        s.ledger(),
    ensures
        run(s, events).ledger(),
    decreases events.len(),
{
    if events.len() > 0 {
        lemma_step_keeps_ledger(s, events[0]);
        lemma_run_keeps_ledger(step(s, events[0]), events.drop_first());
    }
}

proof fn lemma_initial_ledger<T>(lim: nat)
    ensures
        initial::<T>(lim).ledger(),
{
    let s = initial::<T>(lim);
    assert forall|j: nat| #[trigger]
        of_sender(s.log, j) == of_sender(s.received + s.taken + s.queue, j) + s.buffer(j) by {
        assert(s.received + s.taken + s.queue =~= Seq::<(nat, T)>::empty());
        assert(s.buffer(j) =~= Seq::<T>::empty());
        assert(Seq::<T>::empty() + Seq::<T>::empty() =~= Seq::<T>::empty());
    }
}

proof fn lemma_count_of_sender<T>(s: Seq<(nat, T)>, id: nat, v: T)
    ensures
        s.to_multiset().count((id, v)) == of_sender(s, id).to_multiset().count(v),
    decreases s.len(),
{
    broadcast use vstd::seq_lib::group_to_multiset_ensures;
    broadcast use vstd::multiset::group_multiset_axioms;

    if s.len() > 0 {
        let rest = s.drop_last();
        lemma_count_of_sender(rest, id, v);
        assert(rest.push(s.last()) =~= s);
        if s.last().0 == id {
            assert(of_sender(s, id) == of_sender(rest, id).push(s.last().1));
        } else {
            assert(of_sender(s, id) == of_sender(rest, id));
        }
    } else {
        assert(s.to_multiset() =~= Multiset::empty());
    }
}

/// Two sequences of tagged values that agree sender by sender hold the
/// same values as multisets.
proof fn lemma_same_per_sender<T>(a: Seq<(nat, T)>, b: Seq<(nat, T)>)
    requires
        forall|id: nat| #[trigger] of_sender(a, id) == of_sender(b, id),
    ensures
        a.to_multiset() == b.to_multiset(),
{
    assert forall|x: (nat, T)| a.to_multiset().count(x) == b.to_multiset().count(x) by {
        lemma_count_of_sender(a, x.0, x.1);
        lemma_count_of_sender(b, x.0, x.1);
        assert(of_sender(a, x.0) == of_sender(b, x.0));
    }
    assert(a.to_multiset() =~= b.to_multiset());
}

/// Every state that a run reaches from a new channel keeps the ledger,
/// whatever the threshold `lim`, the number of senders and the
/// interleaving of their steps.
pub proof fn lemma_ledger_holds<T>(lim: nat, events: Seq<Event<T>>)
    ensures
        run(initial::<T>(lim), events).ledger(),
{
    lemma_initial_ledger::<T>(lim);
    lemma_run_keeps_ledger(initial::<T>(lim), events);
}

/// Conservation: once a run has drained the channel, the receiver has
/// handed out exactly the values that were sent, as many and as a
/// multiset, whatever the number of senders and the interleaving.
pub proof fn lemma_conservation<T>(lim: nat, events: Seq<Event<T>>)
    requires
        run(initial::<T>(lim), events).drained(),
    ensures
        run(initial::<T>(lim), events).received.to_multiset() == run(
            initial::<T>(lim),
            events,
        ).log.to_multiset(),
        run(initial::<T>(lim), events).received.len() == run(initial::<T>(lim), events).log.len(),
{
    broadcast use vstd::seq_lib::group_to_multiset_ensures;

    let s = run(initial::<T>(lim), events);
    lemma_ledger_holds::<T>(lim, events);
    assert forall|id: nat| #[trigger] of_sender(s.received, id) == of_sender(s.log, id) by {
        assert(s.received + s.taken + s.queue =~= s.received);
        assert(!s.live(id));
        assert(of_sender(s.received, id) + Seq::<T>::empty() =~= of_sender(s.received, id));
    }
    lemma_same_per_sender(s.received, s.log);
    assert(s.received.len() == s.received.to_multiset().len());
    assert(s.log.len() == s.log.to_multiset().len());
}

/// Per-sender order: in every state of a run, what the receiver has handed
/// out from sender `id` is a prefix of what that sender sent, in the same
/// order; once the channel is drained it is all of it.
pub proof fn lemma_sender_order<T>(lim: nat, events: Seq<Event<T>>, id: nat)
    ensures
        of_sender(run(initial::<T>(lim), events).received, id).is_prefix_of(
            of_sender(run(initial::<T>(lim), events).log, id),
        ),
        run(initial::<T>(lim), events).drained() ==> of_sender(
            run(initial::<T>(lim), events).received,
            id,
        ) == of_sender(run(initial::<T>(lim), events).log, id),
{
    let s = run(initial::<T>(lim), events);
    lemma_ledger_holds::<T>(lim, events);
    let rest = s.taken + s.queue;
    assert(s.received + s.taken + s.queue =~= s.received + rest);
    lemma_of_sender_add(s.received, rest, id);
    let mine = of_sender(s.received, id);
    let all = of_sender(s.log, id);
    assert(all == mine + of_sender(rest, id) + s.buffer(id));
    assert(all.subrange(0, mine.len() as int) =~= mine);
    if s.drained() {
        assert(rest =~= Seq::<(nat, T)>::empty());
        assert(of_sender(rest, id) =~= Seq::<T>::empty());
        assert(!s.live(id));
        assert(all =~= mine);
    }
}

/// Threshold invariance: two channels that differ only in their threshold
/// both keep the ledger through every run, and a drained one has handed
/// out what was sent, in each sender's order.
pub proof fn lemma_threshold_invariance<T>(lim1: nat, lim2: nat, events: Seq<Event<T>>, id: nat)
    ensures
        run(initial::<T>(lim1), events).ledger(),
        run(initial::<T>(lim2), events).ledger(),
        run(initial::<T>(lim1), events).drained() ==> of_sender(
            run(initial::<T>(lim1), events).received,
            id,
        ) == of_sender(run(initial::<T>(lim1), events).log, id),
        run(initial::<T>(lim2), events).drained() ==> of_sender(
            run(initial::<T>(lim2), events).received,
            id,
        ) == of_sender(run(initial::<T>(lim2), events).log, id),
{
    lemma_ledger_holds::<T>(lim1, events);
    lemma_ledger_holds::<T>(lim2, events);
    lemma_sender_order::<T>(lim1, events, id);
    lemma_sender_order::<T>(lim2, events, id);
}

/// Closure: a pass of the receiver yields `Closed` exactly when every
/// sender has been dropped and both the shared queue and the receiver's
/// buffer are empty.
pub proof fn lemma_closed_iff_drained<T>(s: ChannelState<T>)
    ensures
        (receive_result(s) == Received::<(nat, T)>::Closed) <==> s.drained(),
{
}

/// Closure is final: from a drained state no event changes anything, so
/// every later pass of the receiver yields `Closed` again.
pub proof fn lemma_closed_is_final<T>(s: ChannelState<T>, events: Seq<Event<T>>)
    requires
        s.drained(),
    ensures
        run(s, events) == s,
        receive_result(run(s, events)) == Received::<(nat, T)>::Closed,
    decreases events.len(),
{
    if events.len() > 0 {
        let t = step(s, events[0]);
        match events[0] {
            Event::Receive => {
                assert(t.taken =~= s.taken);
                assert(t.queue =~= s.queue);
            },
            Event::SendValue { id, .. } => {
                assert(!s.live(id));
            },
            Event::FlushSender { id } => {
                assert(!s.live(id));
            },
            Event::CloneSender { id, .. } => {
                assert(!s.live(id));
            },
            Event::DropSender { id } => {
                assert(!s.live(id));
            },
        }
        assert(t == s);
        lemma_closed_is_final(s, events.drop_first());
    }
}

/// Two producers: on a run that ends drained, in which sender `0` sent
/// `1, 2, 3`, sender `1` sent `4, 5` and nothing else was sent, the receiver
/// handed out five values, those of sender `0` as `1, 2, 3` and those of
/// sender `1` as `4, 5`, however the steps interleaved.
pub proof fn lemma_two_producers(lim: nat, events: Seq<Event<u64>>)
    requires
        run(initial::<u64>(lim), events).drained(),
        of_sender(run(initial::<u64>(lim), events).log, 0) == seq![1u64, 2, 3],
        of_sender(run(initial::<u64>(lim), events).log, 1) == seq![4u64, 5],
        run(initial::<u64>(lim), events).log.len() == 5,
    ensures
        run(initial::<u64>(lim), events).received.len() == 5,
        of_sender(run(initial::<u64>(lim), events).received, 0) == seq![1u64, 2, 3],
        of_sender(run(initial::<u64>(lim), events).received, 1) == seq![4u64, 5],
{
    lemma_conservation::<u64>(lim, events);
    lemma_sender_order::<u64>(lim, events, 0);
    lemma_sender_order::<u64>(lim, events, 1);
}

/// Threshold `0`, one producer: it sends `7` and is dropped; the receiver
/// then hands out `7`, and its next pass yields `Closed`, whether or not the
/// send found the lock free.
pub proof fn lemma_single_value_then_closed(acquired: bool)
    ensures
        run(
            initial::<u64>(0),
            seq![
                Event::SendValue { id: 0, val: 7u64, acquired },
                Event::DropSender { id: 0 },
                Event::Receive,
            ],
        ).received == seq![(0nat, 7u64)],
        receive_result(
            run(
                initial::<u64>(0),
                seq![
                    Event::SendValue { id: 0, val: 7u64, acquired },
                    Event::DropSender { id: 0 },
                    Event::Receive,
                ],
            ),
        ) == Received::<(nat, u64)>::Closed,
{
    let e0 = Event::SendValue { id: 0, val: 7u64, acquired };
    let e1 = Event::<u64>::DropSender { id: 0 };
    let e2 = Event::<u64>::Receive;
    let events = seq![e0, e1, e2];
    let s0 = initial::<u64>(0);
    let s1 = step(s0, e0);
    let s2 = step(s1, e1);
    let s3 = step(s2, e2);
    assert(s0.live(0));
    assert(s1.live(0));
    assert(s1.queue + s1.buffers[0nat].map_values(|v: u64| (0nat, v)) =~= seq![(0nat, 7u64)]);
    assert(s2.queue =~= seq![(0nat, 7u64)]);
    assert forall|id: nat| !#[trigger] s2.live(id) by {
        assert(s2.buffers.dom() =~= Set::<nat>::empty());
    }
    assert(s3.received =~= seq![(0nat, 7u64)]);
    assert(s3.taken =~= Seq::<(nat, u64)>::empty());
    assert(s3.queue =~= Seq::<(nat, u64)>::empty());
    assert(events.drop_first() =~= seq![e1, e2]);
    assert(events.drop_first().drop_first() =~= seq![e2]);
    assert(events.drop_first().drop_first().drop_first() =~= Seq::<Event<u64>>::empty());
    assert(run(s3, Seq::<Event<u64>>::empty()) == s3);
    assert(run(s2, seq![e2]) == s3);
    assert(run(s1, seq![e1, e2]) == s3);
    assert(run(s0, events) == s3);
    assert(forall|id: nat| !#[trigger] s3.live(id));
}

} // verus!
