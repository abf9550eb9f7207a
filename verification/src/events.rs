//! Typed event channels between threads.

use vstd::prelude::*;

verus! {

#[verifier::external_type_specification]
#[verifier::external_body]
#[verifier::reject_recursive_types(T)]
pub struct ExMpscSender<T>(std::sync::mpsc::Sender<T>);

#[verifier::external_type_specification]
#[verifier::external_body]
#[verifier::reject_recursive_types(T)]
pub struct ExMpscReceiver<T>(std::sync::mpsc::Receiver<T>);

#[verifier::external_type_specification]
#[verifier::external_body]
pub struct ExMpscRecvError(std::sync::mpsc::RecvError);

#[verifier::external_type_specification]
#[verifier::external_body]
pub struct ExMpscTryRecvError(std::sync::mpsc::TryRecvError);

#[verifier::external_type_specification]
#[verifier::external_body]
#[verifier::reject_recursive_types(T)]
pub struct ExMpscIter<'a, T: 'a>(std::sync::mpsc::Iter<'a, T>);

/// Calls `std::sync::mpsc::channel` and wraps its two ends, which belong to one channel.
#[verifier::external_body]
fn mpsc_channel<T>() -> (r: (EventSender<T>, EventReceiver<T>))
    ensures
        r.0.channel_id() == r.1.channel_id(),
{
    let (tx, rx) = std::sync::mpsc::channel();
    (EventSender { tx, id: Ghost(0) }, EventReceiver { rx, id: Ghost(0) })
}

/// Calls `Sender::clone`, which gives another sender on the same channel.
#[verifier::external_body]
fn mpsc_sender_clone<T>(sender: &EventSender<T>) -> (r: EventSender<T>)
    ensures
        r.channel_id() == sender.channel_id(),
{
    EventSender { tx: sender.tx.clone(), id: Ghost(sender.id@) }
}

/// Calls `Sender::send`; whether it succeeds depends on whether the receiver still exists.
/// On failure `SendError` holds the very event that was sent, which is handed back.
#[verifier::external_body]
fn mpsc_send<T>(tx: &std::sync::mpsc::Sender<T>, event: T) -> (r: Result<(), EventSendError<T>>)
    ensures
        r matches Err(e) ==> e.0 == event,
{
    match tx.send(event) {
        Ok(()) => Ok(()),
        Err(std::sync::mpsc::SendError(v)) => Err(EventSendError(v)),
    }
}

/// Calls `Receiver::recv`, which blocks until an event arrives or every sender is gone.
#[verifier::external_body]
fn mpsc_recv<T>(rx: &std::sync::mpsc::Receiver<T>) -> Result<T, std::sync::mpsc::RecvError> {
    rx.recv()
}

/// Calls `Receiver::try_recv`.
#[verifier::external_body]
fn mpsc_try_recv<T>(rx: &std::sync::mpsc::Receiver<T>) -> Result<T, std::sync::mpsc::TryRecvError> {
    rx.try_recv()
}

/// Calls `Receiver::iter`.
#[verifier::external_body]
fn mpsc_iter<'a, T>(rx: &'a std::sync::mpsc::Receiver<T>) -> std::sync::mpsc::Iter<'a, T> {
    rx.iter()
}

/// An event that could not be sent because the receiver is gone, handed back.
pub struct EventSendError<T>(pub T);

/// The sending end of an event channel; it can be cloned to send from several threads.
#[verifier::reject_recursive_types(T)]
pub struct EventSender<T> {
    tx: std::sync::mpsc::Sender<T>,
    id: Ghost<int>,
}

/// The receiving end of an event channel.
#[verifier::reject_recursive_types(T)]
pub struct EventReceiver<T> {
    rx: std::sync::mpsc::Receiver<T>,
    id: Ghost<int>,
}

impl<T> EventSender<T> {
    /// The channel the sender sends on.
    pub closed spec fn channel_id(&self) -> int {
        self.id@
    }
}

impl<T> EventReceiver<T> {
    /// The channel the receiver receives from.
    pub closed spec fn channel_id(&self) -> int {
        self.id@
    }
}

/// A new event channel: events sent on the sender arrive, in order, at the receiver.
pub fn channel<T>() -> (r: (EventSender<T>, EventReceiver<T>))
    ensures
        r.0.channel_id() == r.1.channel_id(),
{
    mpsc_channel()
}

impl<T> Clone for EventSender<T> {
    /// Another sender on the same channel.
    fn clone(&self) -> (r: Self)
        ensures
            r.channel_id() == self.channel_id(),
    {
        mpsc_sender_clone(self)
    }
}

impl<T> EventSender<T> {
    /// Sends an event; fails, handing the very event back, when the receiver is gone.
    pub fn send(&self, event: T) -> (r: Result<(), EventSendError<T>>)
        ensures
            r matches Err(e) ==> e.0 == event,
    {
        mpsc_send(&self.tx, event)
    }
}

impl<T> EventReceiver<T> {
    /// Waits for the next event; fails when every sender is gone and no event is left.
    pub fn recv(&self) -> Result<T, std::sync::mpsc::RecvError> {
        mpsc_recv(&self.rx)
    }

    /// The next event if one is waiting.
    pub fn try_recv(&self) -> Result<T, std::sync::mpsc::TryRecvError> {
        mpsc_try_recv(&self.rx)
    }

    /// The events in arrival order, waiting for each.
    pub fn iter(&self) -> std::sync::mpsc::Iter<'_, T> {
        mpsc_iter(&self.rx)
    }
}

} // verus!
