//! A value behind a lock, for what bots share across threads.
//!
//! The lock is `parking_lot::Mutex`. Of what it holds nothing is known when
//! it is taken: other threads may have changed it. So taking the lock
//! promises nothing, and what is done with the value, while the lock is held,
//! is verified for every value. What is known of a lock is the value that it
//! was made with.

use std::ops::DerefMut;
use parking_lot::{Mutex, MutexGuard};
use vstd::prelude::*;
use crate::queue::TaskQueue;
use crate::task::{Task, TaskView};

verus! {

/// `lock_api::Mutex`, of which `parking_lot::Mutex` is an instance. Nothing
/// is stated of what it holds.
#[verifier::external_type_specification]
#[verifier::external_body]
#[verifier::reject_recursive_types(R)]
#[verifier::reject_recursive_types(T)]
pub struct ExMutex<R, T: ?Sized>(parking_lot::lock_api::Mutex<R, T>);

/// `parking_lot::RawMutex`, the lock inside a `parking_lot::Mutex`.
#[verifier::external_type_specification]
#[verifier::external_body]
pub struct ExRawMutex(parking_lot::RawMutex);

/// A lock that is held, and through which its value is reached: it holds a
/// `parking_lot::MutexGuard`, and the lock is free again when it is dropped.
/// The guard is kept from the verifier, which cannot take a type that is
/// bounded by a trait of another crate.
#[verifier::external_body]
#[verifier::reject_recursive_types(T)]
pub(crate) struct Held<'a, T> {
    guard: MutexGuard<'a, T>,
}

/// The slot that the lock of a bot was made with. It says nothing of what
/// the lock holds later.
pub uninterp spec fn slot_made_with(mutex: Mutex<Option<Task>>) -> Option<TaskView>;

/// The queue that the lock of a swarm was made with. It says nothing of what
/// the lock holds later.
pub uninterp spec fn queue_made_with(mutex: Mutex<TaskQueue>) -> Seq<TaskView>;

/// `Mutex::new`, for the slot of a bot: a lock that is free and was made
/// with `slot`, which it stores as it is.
#[verifier::external_body]
pub(crate) fn new_slot(slot: Option<Task>) -> (mutex: Mutex<Option<Task>>)
    ensures
        slot_made_with(mutex) == slot.deep_view(),
{
    Mutex::new(slot)
}

/// `Mutex::new`, for the queue of a swarm: a lock that is free and was made
/// with `queue`, which it stores as it is.
#[verifier::external_body]
pub(crate) fn new_queue(queue: TaskQueue) -> (mutex: Mutex<TaskQueue>)
    ensures
        queue_made_with(mutex) == queue@,
{
    Mutex::new(queue)
}

/// `Mutex::lock`: waits until the lock is free, and takes it. It would wait
/// for ever in a thread that holds the lock already; this library takes a
/// lock only in functions that drop it before they return, and that call
/// nothing which takes the same lock.
#[verifier::external_body]
pub(crate) fn lock<'a, T>(mutex: &'a Mutex<T>) -> Held<'a, T> {
    Held { guard: mutex.lock() }
}

/// `MutexGuard::deref_mut`: the value behind the lock, for as long as the
/// lock is held. Nothing is promised of the value.
#[verifier::external_body]
pub(crate) fn value<'a, 'b, T>(held: &'a mut Held<'b, T>) -> &'a mut T {
    held.guard.deref_mut()
}

} // verus!
