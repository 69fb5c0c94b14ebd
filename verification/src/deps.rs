//! What this library assumes of the code it calls but does not verify: the
//! broadcast channel of `async_broadcast`, the lock of `tokio` and the
//! monotonic clock of std.
//!
//! The channel is shared with every receiver that was handed out, a lock's
//! content changes under whoever holds it, and the clock moves by itself, so
//! nothing is promised of what these calls return: the contracts only admit
//! the calls and rule out the inputs on which a call panics.
use async_broadcast::{InactiveReceiver, Receiver, Sender, TrySendError};
use std::time::{Duration, Instant};
use tokio::sync::Mutex;
use vstd::prelude::*;

verus! {

/// `async_broadcast::Sender`: the sending end of a broadcast channel.
#[verifier::external_type_specification]
#[verifier::external_body]
#[verifier::reject_recursive_types(T)]
pub struct ExSender<T>(Sender<T>);

/// `async_broadcast::Receiver`: an active receiving end; it counts as a
/// subscriber until it is dropped.
#[verifier::external_type_specification]
#[verifier::external_body]
#[verifier::reject_recursive_types(T)]
pub struct ExReceiver<T>(Receiver<T>);

/// `async_broadcast::InactiveReceiver`: keeps a channel open without
/// receiving from it.
#[verifier::external_type_specification]
#[verifier::external_body]
#[verifier::reject_recursive_types(T)]
pub struct ExInactiveReceiver<T>(InactiveReceiver<T>);

/// `async_broadcast::TrySendError`: why a message was not queued.
#[verifier::external_type_specification]
#[verifier::external_body]
#[verifier::reject_recursive_types(T)]
pub struct ExTrySendError<T>(TrySendError<T>);

/// `tokio::sync::Mutex`: an asynchronous lock around a value. The library
/// makes and hands out such locks and never takes one.
#[verifier::external_type_specification]
#[verifier::external_body]
#[verifier::reject_recursive_types(T)]
pub struct ExMutex<T: ?Sized>(Mutex<T>);

/// `std::time::Instant`: a reading of the monotonic clock.
#[verifier::external_type_specification]
#[verifier::external_body]
pub struct ExInstant(Instant);

/// `async_broadcast::broadcast` makes a channel that holds up to `cap`
/// messages and returns its sending end and one active receiver. It panics
/// on a capacity of zero, which the contract excludes; nothing is assumed of
/// the two ends.
pub assume_specification<T>[ async_broadcast::broadcast::<T> ](cap: usize) -> (ends: (
    Sender<T>,
    Receiver<T>,
))
    requires
        cap > 0,
;

/// `Sender::set_await_active` sets whether sending waits for an active
/// receiver. Nothing is assumed of the sender afterwards.
pub assume_specification<T>[ Sender::<T>::set_await_active ](
    sender: &mut Sender<T>,
    await_active: bool,
)
;

/// `Sender::set_overflow` sets whether a full channel drops its oldest
/// message to take a new one. Nothing is assumed of the sender afterwards.
pub assume_specification<T>[ Sender::<T>::set_overflow ](sender: &mut Sender<T>, overflow: bool)
;

/// `Sender::receiver_count` reads how many active receivers the channel has
/// at the moment of the call. Receivers come and go elsewhere, so two calls
/// may differ: nothing is assumed of the count.
pub assume_specification<T>[ Sender::<T>::receiver_count ](sender: &Sender<T>) -> (count: usize)
;

/// `Sender::try_broadcast` queues `msg` for every active receiver without
/// waiting, or hands it back in an error where the channel is closed, full
/// without overflow, or has no active receiver. Which of these happens
/// depends on the receivers, so nothing is assumed of the outcome.
pub assume_specification<T: Clone>[ Sender::<T>::try_broadcast ](
    sender: &Sender<T>,
    msg: T,
) -> (outcome: Result<Option<T>, TrySendError<T>>)
;

/// `Receiver::deactivate` turns an active receiver into an inactive one.
/// Nothing is assumed of the result.
pub assume_specification<T>[ Receiver::<T>::deactivate ](receiver: Receiver<T>) -> (idle:
    InactiveReceiver<T>)
;

/// `InactiveReceiver::activate_cloned` adds an active receiver to the
/// channel; it sees the messages sent after the call. Nothing is assumed of
/// the result.
pub assume_specification<T>[ InactiveReceiver::<T>::activate_cloned ](
    idle: &InactiveReceiver<T>,
) -> (active: Receiver<T>)
;

/// `tokio::sync::Mutex::new` makes an unlocked lock around `value`. Nothing
/// is assumed of the lock.
#[verifier::external_body]
pub(crate) fn new_lock<T>(value: T) -> (lock: Mutex<T>) {
    Mutex::new(value)
}

/// `Instant::now` reads the clock. Nothing is assumed of the reading.
pub assume_specification[ Instant::now ]() -> (now: Instant)
;

/// `Instant::elapsed` is the time from `start` to the moment of the call.
/// Nothing is assumed of it.
pub assume_specification[ Instant::elapsed ](start: &Instant) -> (idle: Duration)
;

/// `Duration::as_nanos` is the whole duration in nanoseconds. Nothing is
/// assumed of the number.
pub assume_specification[ Duration::as_nanos ](duration: &Duration) -> (nanos: u128)
;

} // verus!
