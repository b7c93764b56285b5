//! The buffer moves of the channel, on values that one thread owns: what a
//! send does to a sender's buffer, how a flush moves it, and how the
//! receiver refills its own buffer from the shared queue.
use std::collections::VecDeque;
use vstd::prelude::*;

verus! {

/// What one pass of the receiver yields.
#[derive(Debug, PartialEq, Eq)]
pub enum Received<T> {
    /// The value at the front of the receiver's buffer.
    Item(T),
    /// Nothing yet, and some sender may still deliver.
    Pending,
    /// No sender is left and nothing is buffered: the channel is closed.
    Closed,
}

/// A buffer of length `len` is due to be flushed under threshold `lim`.
pub open spec fn flush_due(len: nat, lim: nat) -> bool {
    len >= lim
}

/// A send of `val` onto the buffer `local` under threshold `lim`, where
/// `acquired` tells whether the shared lock was free when the send tried it.
/// The result is the buffer afterwards and the block moved to the shared
/// queue.
pub open spec fn send_outcome<A>(local: Seq<A>, val: A, lim: nat, acquired: bool) -> (Seq<A>, Seq<A>) {
    let grown = local.push(val);
    if acquired && flush_due(grown.len(), lim) {
        (Seq::empty(), grown)
    } else {
        (grown, Seq::empty())
    }
}

/// The receiver's buffer once refilled: a non-empty buffer keeps serving
/// from its front; an empty one takes over the whole shared `queue`.
pub open spec fn refilled<A>(local: Seq<A>, queue: Seq<A>) -> Seq<A> {
    if local.len() > 0 {
        local
    } else {
        queue
    }
}

/// The shared queue after one pass of the receiver.
pub open spec fn queue_after_take<A>(local: Seq<A>, queue: Seq<A>) -> Seq<A> {
    if local.len() > 0 {
        queue
    } else {
        Seq::empty()
    }
}

/// What one pass of the receiver yields from its buffer `local` and the
/// shared `queue`, where `gone` tells whether every sender had been dropped.
pub open spec fn take_result<A>(local: Seq<A>, queue: Seq<A>, gone: bool) -> Received<A> {
    let r = refilled(local, queue);
    if r.len() > 0 {
        Received::Item(r[0])
    } else if gone {
        Received::Closed
    } else {
        Received::Pending
    }
}

/// The receiver's buffer after one pass: the refilled buffer without the
/// value handed out.
pub open spec fn local_after_take<A>(local: Seq<A>, queue: Seq<A>) -> Seq<A> {
    let r = refilled(local, queue);
    if r.len() > 0 {
        r.drop_first()
    } else {
        r
    }
}

/// Whether a buffer of `len` values has reached the threshold `lim`.
pub fn threshold_reached(len: usize, lim: usize) -> (r: bool)
    ensures
        r == flush_due(len as nat, lim as nat),
{
    len >= lim
}

/// Relies on `VecDeque::len`: the number of values held. It never panics.
#[verifier::external_body]
pub(crate) fn length<T>(v: &VecDeque<T>) -> (n: usize)
    ensures
        n == v@.len(),
    opens_invariants none
    no_unwind
{
    v.len()
}

/// Relies on `VecDeque::append`: moves every value of `other`, in order, to
/// the back of `v`, leaving `other` empty. Its one documented panic is a
/// capacity overflow, when the two together would hold more values than a
/// `usize` counts or more bytes than an `isize` does. Both deques already
/// live in memory, and the channel's queues are filled one send at a time,
/// so that bound is not reached.
#[verifier::external_body]
fn append_all<T>(v: &mut VecDeque<T>, other: &mut VecDeque<T>)
    ensures
        final(v)@ == old(v)@ + old(other)@,
        final(other)@ == Seq::<T>::empty(),
    opens_invariants none
    no_unwind
{
    v.append(other)
}

/// Moves the whole of `local`, in order, to the back of `queue`.
pub fn transfer<T>(local: &mut VecDeque<T>, queue: &mut VecDeque<T>)
    ensures
        final(queue)@ == old(queue)@ + old(local)@,
        final(local)@ == Seq::<T>::empty(),
    opens_invariants none
    no_unwind
{
    append_all(queue, local);
}

/// With `holders` handles on the shared state, no sender is left: the
/// receiver is the one holder.
pub open spec fn senders_gone(holders: nat) -> bool {
    holders == 1
}

/// Whether the receiver, its own buffer empty, waits for a signal before it
/// takes over the shared queue: only while some sender is left among the
/// `holders` handles and the queue, of `queue_len` values, is empty.
pub fn must_wait(holders: usize, queue_len: usize) -> (r: bool)
    ensures
        r == (!senders_gone(holders as nat) && queue_len == 0),
{
    holders != 1 && queue_len == 0
}

/// One pass of the receiver on its buffer `local` and the shared `queue`
/// (held under the lock), where `holders` handles were on the shared state:
/// when `local` is empty it takes over the whole queue; then the front value
/// is handed out, or, with nothing buffered, `Closed` when no sender was left
/// and `Pending` otherwise.
pub fn take_next<T>(local: &mut VecDeque<T>, queue: &mut VecDeque<T>, holders: usize) -> (r:
    Received<T>)
    ensures
        r == take_result(old(local)@, old(queue)@, senders_gone(holders as nat)),
        final(local)@ == local_after_take(old(local)@, old(queue)@),
        final(queue)@ == queue_after_take(old(local)@, old(queue)@),
{
    if local.len() == 0 {
        std::mem::swap(local, queue);
    }
    match local.pop_front() {
        Some(v) => Received::Item(v),
        None => {
            if holders == 1 {
                Received::Closed
            } else {
                Received::Pending
            }
        },
    }
}

} // verus!
