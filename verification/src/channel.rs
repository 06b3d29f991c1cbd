//! Trusted view of the bounded cross-thread queues.
//!
//! The control thread and the render thread talk to the audio engine
//! through two bounded multi-producer queues. Other threads hold clones of
//! the endpoints, so nothing can be promised about what a receive returns
//! or whether a send finds room; the library states only the shape of each
//! outcome and handles every one.

use vstd::prelude::*;

verus! {

#[verifier::external_type_specification]
#[verifier::external_body]
#[verifier::reject_recursive_types(T)]
pub struct ExSender<T>(crossbeam_channel::Sender<T>);

#[verifier::external_type_specification]
#[verifier::external_body]
#[verifier::reject_recursive_types(T)]
pub struct ExReceiver<T>(crossbeam_channel::Receiver<T>);

/// The outcome of a non-blocking send.
#[derive(Clone, Copy, Debug, PartialEq, Eq, Structural)]
pub enum SendStatus {
    /// The message was delivered into the queue.
    Accepted,
    /// The queue was full; the message was dropped.
    Full,
    /// The other endpoint is gone; the message was dropped.
    Closed,
}

/// Relies on crossbeam_channel::bounded: a queue of fixed capacity with a
/// sending and a receiving endpoint. The capacity bound keeps the
/// documented "capacity too large" panic out of reach.
#[verifier::external_body]
pub fn channel_pair<T>(cap: usize) -> (r: (crossbeam_channel::Sender<T>,
    crossbeam_channel::Receiver<T>))
    requires
        1 <= cap <= 0x100_0000,
{
    crossbeam_channel::bounded(cap)
}

/// Relies on crossbeam_channel::Sender::try_send: attempts to deliver
/// without ever blocking; on a full or disconnected queue the message is
/// dropped and the condition is reported.
#[verifier::external_body]
pub fn try_send<T>(tx: &crossbeam_channel::Sender<T>, v: T) -> (r: SendStatus) {
    match tx.try_send(v) {
        Ok(()) => SendStatus::Accepted,
        Err(crossbeam_channel::TrySendError::Full(_)) => SendStatus::Full,
        Err(crossbeam_channel::TrySendError::Disconnected(_)) => SendStatus::Closed,
    }
}

/// Relies on crossbeam_channel::Receiver::try_recv: takes the oldest
/// waiting message without ever blocking; an empty or disconnected queue
/// yields nothing.
#[verifier::external_body]
pub fn try_recv<T>(rx: &crossbeam_channel::Receiver<T>) -> (r: Option<T>) {
    match rx.try_recv() {
        Ok(v) => Some(v),
        Err(crossbeam_channel::TryRecvError::Empty) => None,
        Err(crossbeam_channel::TryRecvError::Disconnected) => None,
    }
}

} // verus!
