//! The two handles of a channel and the state they share.
use crate::buffer::{
    length, local_after_take, must_wait, send_outcome, senders_gone, take_next, take_result,
    threshold_reached, transfer, Received,
};
use crate::sync::{
    acquire, guarded, holders, new_shared, share, signal_one, try_acquire, wait_for_signal, Shared,
};
use std::collections::VecDeque;
use std::sync::Arc;
use vstd::prelude::*;

verus! {

/// The threshold of a channel made by `unbounded`.
pub const DEFAULT_THRESHOLD: usize = 512;

/// How long, in milliseconds, the receiver waits for a signal before it
/// looks at the channel again, in case a signal was missed.
pub const WAIT_MS: u64 = 100;

/// The sending side of a channel. Values are buffered here and move to the
/// shared queue in blocks; whatever is still buffered is delivered when the
/// sender is dropped.
#[verifier::reject_recursive_types(T)]
pub struct Sender<T> {
    local: VecDeque<T>,
    shared: Arc<Shared<VecDeque<T>>>,
    lim: usize,
    delivered: Ghost<Seq<T>>,
}

/// The receiving side of a channel; there is one per channel.
#[verifier::reject_recursive_types(T)]
pub struct Receiver<T> {
    local: VecDeque<T>,
    shared: Arc<Shared<VecDeque<T>>>,
}

/// A channel whose senders deliver once `DEFAULT_THRESHOLD` values are
/// buffered.
pub fn unbounded<T>() -> (r: (Sender<T>, Receiver<T>))
    ensures
        r.0.threshold() == DEFAULT_THRESHOLD,
        r.0.pending() == Seq::<T>::empty(),
        r.0.delivered() == Seq::<T>::empty(),
        r.1.pending() == Seq::<T>::empty(),
        r.0.channel() == r.1.channel(),
{
    unbounded_with_buffer(DEFAULT_THRESHOLD)
}

/// A channel whose senders deliver once `buf_size` values are buffered; with
/// `0` every send tries to deliver.
pub fn unbounded_with_buffer<T>(buf_size: usize) -> (r: (Sender<T>, Receiver<T>))
    ensures
        r.0.threshold() == buf_size,
        r.0.pending() == Seq::<T>::empty(),
        r.0.delivered() == Seq::<T>::empty(),
        r.1.pending() == Seq::<T>::empty(),
        r.0.channel() == r.1.channel(),
{
    let shared = Arc::new(new_shared(VecDeque::new()));
    let tx = Sender {
        local: VecDeque::new(),
        shared: share(&shared),
        lim: buf_size,
        delivered: Ghost(Seq::empty()),
    };
    let rx = Receiver { local: VecDeque::new(), shared };
    (tx, rx)
}

impl<T> Sender<T> {
    /// The values buffered here and not yet delivered, oldest first.
    pub closed spec fn pending(&self) -> Seq<T> {
        self.local@
    }

    /// This sender's own record of the values it has moved to the shared
    /// queue, in order. It is kept by the sender alone and is not a view of
    /// the queue, which other handles change too.
    pub closed spec fn delivered(&self) -> Seq<T> {
        self.delivered@
    }

    /// The number of buffered values at which a send tries to deliver.
    pub closed spec fn threshold(&self) -> nat {
        self.lim as nat
    }

    /// The state shared by the handles of this sender's channel.
    pub closed spec fn channel(&self) -> Shared<VecDeque<T>> {
        *self.shared
    }

    /// Everything sent through this sender, in order: what it delivered,
    /// then what it still holds.
    pub open spec fn history(&self) -> Seq<T> {
        self.delivered() + self.pending()
    }

    /// Buffers `val`; once the buffer reaches the threshold, moves it whole
    /// to the shared queue if the lock is free at once. Never blocks.
    pub fn send(&mut self, val: T)
        ensures
            final(self).threshold() == old(self).threshold(),
            final(self).channel() == old(self).channel(),
            final(self).history() == old(self).history().push(val),
            exists|acquired: bool|
                final(self).pending() == (#[trigger] send_outcome(
                    old(self).pending(),
                    val,
                    old(self).threshold(),
                    acquired,
                )).0 && final(self).delivered() == old(self).delivered() + send_outcome(
                    old(self).pending(),
                    val,
                    old(self).threshold(),
                    acquired,
                ).1,
    {
        let ghost before = self.local@;
        let ghost kept = send_outcome(old(self).pending(), val, old(self).threshold(), false);
        let ghost moved = send_outcome(old(self).pending(), val, old(self).threshold(), true);
        self.local.push_back(val);
        let mut flushed = false;
        if threshold_reached(self.local.len(), self.lim) {
            if let Some(mut held) = try_acquire(&self.shared) {
                transfer(&mut self.local, guarded(&mut held));
                self.delivered = Ghost(self.delivered@ + moved.1);
                signal_one(&self.shared);
                flushed = true;
            }
        }
        if flushed {
            assert(self.local@ =~= moved.0);
        } else {
            assert(self.local@ == kept.0 && self.delivered@ =~= self.delivered@ + kept.1);
        }
        assert(self.delivered@ + self.local@ =~= old(self).delivered@ + before.push(val));
    }

    /// Moves every buffered value to the shared queue, waiting for the lock
    /// if another handle holds it.
    pub fn flush(&mut self)
        ensures
            final(self).threshold() == old(self).threshold(),
            final(self).channel() == old(self).channel(),
            final(self).pending() == Seq::<T>::empty(),
            final(self).delivered() == old(self).history(),
        opens_invariants none
        no_unwind
    {
        if length(&self.local) == 0 {
            assert(self.delivered@ + self.local@ =~= self.delivered@);
            return;
        }
        let ghost moved = self.local@;
        let mut held = acquire(&self.shared);
        transfer(&mut self.local, guarded(&mut held));
        self.delivered = Ghost(self.delivered@ + moved);
        signal_one(&self.shared);
    }
}

impl<T> Clone for Sender<T> {
    /// A new sender on the same channel with the same threshold and an empty
    /// buffer; nothing buffered here moves.
    fn clone(&self) -> (r: Self)
        ensures
            r.threshold() == self.threshold(),
            r.channel() == self.channel(),
            r.pending() == Seq::<T>::empty(),
            r.delivered() == Seq::<T>::empty(),
    {
        Sender {
            local: VecDeque::new(),
            shared: share(&self.shared),
            lim: self.lim,
            delivered: Ghost(Seq::empty()),
        }
    }
}

impl<T> Drop for Sender<T> {
    /// Delivers what is still buffered, then wakes the receiver so that it
    /// looks again at whether any sender is left.
    fn drop(&mut self)
        ensures
            final(self).pending() == Seq::<T>::empty(),
            final(self).delivered() == old(self).history(),
            final(self).channel() == old(self).channel(),
        opens_invariants none
        no_unwind
    {
        self.flush();
        signal_one(&self.shared);
    }
}

impl<T> Receiver<T> {
    /// The values taken from the shared queue and not yet handed out.
    pub closed spec fn pending(&self) -> Seq<T> {
        self.local@
    }

    /// The state shared by the handles of this receiver's channel.
    pub closed spec fn channel(&self) -> Shared<VecDeque<T>> {
        *self.shared
    }

    /// One pass of receiving, where `count` handles were on the shared state
    /// when it was read. A value still buffered here is handed out at once.
    /// Otherwise, under the lock, the whole shared queue is taken over, after
    /// a bounded wait for a signal if it was empty while a sender was left;
    /// its front value is handed out. With nothing to hand out the result is
    /// `Closed` when the receiver was the one holder and `Pending` otherwise.
    pub fn poll_counted(&mut self, count: usize) -> (r: Received<T>)
        ensures
            final(self).channel() == old(self).channel(),
            old(self).pending().len() > 0 ==> r == Received::Item(old(self).pending()[0])
                && final(self).pending() == old(self).pending().drop_first(),
            exists|queue: Seq<T>|
                r == #[trigger] take_result(old(self).pending(), queue, senders_gone(count as nat))
                    && final(self).pending() == local_after_take(old(self).pending(), queue),
    {
        if self.local.len() > 0 {
            let r = match self.local.pop_front() {
                Some(v) => Received::Item(v),
                None => Received::Pending,
            };
            assert(r == take_result(old(self).pending(), Seq::<T>::empty(), senders_gone(count as nat)));
            assert(self.local@ =~= local_after_take(old(self).pending(), Seq::<T>::empty()));
            return r;
        }
        let mut held = acquire(&self.shared);
        if must_wait(count, guarded(&mut held).len()) {
            wait_for_signal(&mut held, WAIT_MS);
        }
        let queue = guarded(&mut held);
        let ghost taken = queue@;
        let r = take_next(&mut self.local, queue, count);
        assert(r == take_result(old(self).pending(), taken, senders_gone(count as nat)));
        r
    }

    /// One pass of receiving: counts the handles on the shared state, then
    /// makes the pass of `poll_counted` with that count.
    pub fn poll_recv(&mut self) -> (r: Received<T>)
        ensures
            final(self).channel() == old(self).channel(),
            old(self).pending().len() > 0 ==> r == Received::Item(old(self).pending()[0])
                && final(self).pending() == old(self).pending().drop_first(),
            exists|queue: Seq<T>, count: usize|
                r == #[trigger] take_result(
                    old(self).pending(),
                    queue,
                    senders_gone(count as nat),
                ) && final(self).pending() == local_after_take(old(self).pending(), queue),
    {
        let count = holders(&self.shared);
        self.poll_counted(count)
    }
}

} // verus!
