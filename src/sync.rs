//! The locking primitives of `parking_lot` and the reference count of
//! `std::sync::Arc`, as the channel uses them.
use parking_lot::lock_api;
use parking_lot::{Condvar, Mutex, MutexGuard};
use std::sync::Arc;
use vstd::prelude::*;

verus! {

/// `lock_api::Mutex`, which `parking_lot::Mutex` names with the raw mutex of
/// `parking_lot`; opaque here.
#[verifier::external_type_specification]
#[verifier::external_body]
#[verifier::reject_recursive_types(R)]
#[verifier::reject_recursive_types(T)]
pub struct ExLockApiMutex<R, T: ?Sized>(lock_api::Mutex<R, T>);

/// A value under a lock, paired with the one signal that is waited on and
/// sent under that lock. The fields stay private to this module, so a signal
/// is never used with any other lock.
#[verifier::reject_recursive_types(V)]
pub struct Shared<V> {
    queue: Mutex<V>,
    signal: Condvar,
}

/// A new pair of lock and signal, the lock holding `v`.
pub fn new_shared<V>(v: V) -> (s: Shared<V>) {
    Shared { queue: new_lock(v), signal: new_signal() }
}

/// A held lock on the mutex of a `Shared`, with that `Shared`'s signal.
/// The guard type of `lock_api` is bounded by a trait of that crate, which
/// a declaration here cannot carry, so the guard is kept in a field that
/// Verus does not read. Dropping a `Held` releases the lock.
#[verifier::external_body]
#[verifier::reject_recursive_types(V)]
pub struct Held<'a, V> {
    guard: MutexGuard<'a, V>,
    signal: &'a Condvar,
}

/// `parking_lot::Condvar`; opaque here.
#[verifier::external_type_specification]
#[verifier::external_body]
pub struct ExCondvar(Condvar);

/// `parking_lot::RawMutex`, the lock inside `parking_lot::Mutex`; opaque here.
#[verifier::external_type_specification]
#[verifier::external_body]
pub struct ExRawMutex(parking_lot::RawMutex);

/// Relies on `lock_api::Mutex::new`: an unlocked mutex that holds `v`.
#[verifier::external_body]
fn new_lock<V>(v: V) -> (m: Mutex<V>) {
    Mutex::new(v)
}

/// Relies on `lock_api::Mutex::lock`: blocks until the lock is held.
#[verifier::external_body]
pub(crate) fn acquire<'a, V>(s: &'a Shared<V>) -> (g: Held<'a, V>)
    opens_invariants none
    no_unwind
{
    Held { guard: s.queue.lock(), signal: &s.signal }
}

/// Relies on `lock_api::Mutex::try_lock`: `None` when another holder has
/// the lock; never blocks.
#[verifier::external_body]
pub(crate) fn try_acquire<'a, V>(s: &'a Shared<V>) -> (g: Option<Held<'a, V>>) {
    s.queue.try_lock().map(|guard| Held { guard, signal: &s.signal })
}

/// Relies on `DerefMut` of `lock_api::MutexGuard`: the value under the held
/// lock. What it holds is shared with other threads, so nothing is said of it.
#[verifier::external_body]
pub(crate) fn guarded<'a, 'b, V>(g: &'b mut Held<'a, V>) -> (v: &'b mut V)
    opens_invariants none
    no_unwind
{
    &mut *g.guard
}

/// Relies on `parking_lot::Condvar::new`.
#[verifier::external_body]
fn new_signal() -> (c: Condvar) {
    Condvar::new()
}

/// Relies on `parking_lot::Condvar::wait_for`: releases the lock, blocks for
/// at most about `ms` milliseconds or until a notification, and holds the
/// lock again on return. It panics only when one condition variable is used
/// with two different mutexes; the signal waited on here is the one stored
/// with this guard, which is only ever used with this guard's mutex.
#[verifier::external_body]
pub(crate) fn wait_for_signal<'a, V>(g: &mut Held<'a, V>, ms: u64) {
    g.signal.wait_for(&mut g.guard, std::time::Duration::from_millis(ms));
}

/// Relies on `parking_lot::Condvar::notify_one`: wakes at most one waiter
/// on the signal of `s`.
#[verifier::external_body]
pub(crate) fn signal_one<V>(s: &Shared<V>)
    opens_invariants none
    no_unwind
{
    s.signal.notify_one();
}

/// Relies on `Arc::clone`: a second handle to the same allocation.
#[verifier::external_body]
pub(crate) fn share<S>(a: &Arc<S>) -> (r: Arc<S>)
    ensures
        r == *a,
{
    Arc::clone(a)
}

/// Relies on `Arc::strong_count`: how many `Arc` handles to the allocation
/// exist at the moment of the call; `a` itself is one of them.
#[verifier::external_body]
pub(crate) fn holders<S>(a: &Arc<S>) -> (n: usize)
    ensures
        n >= 1,
{
    Arc::strong_count(a)
}

} // verus!
