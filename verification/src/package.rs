//! The channels between the render thread and one plugin thread: the
//! inbound queue of fire-and-forget texts, and the bridge, a pair of
//! queues over which the plugin sends a request and waits for the answer.

use std::sync::mpsc::{Receiver, RecvError, SendError, Sender, TryRecvError};
use std::sync::Arc;
use vstd::prelude::*;
use crate::error::{PackageError, PackageErrorKind};

verus! {

/// `std::sync::mpsc::Sender`, the sending half of a channel.
#[verifier::external_type_specification]
#[verifier::external_body]
#[verifier::reject_recursive_types(T)]
pub struct ExSender<T>(Sender<T>);

/// `std::sync::mpsc::Receiver`, the receiving half of a channel.
#[verifier::external_type_specification]
#[verifier::external_body]
#[verifier::reject_recursive_types(T)]
pub struct ExReceiver<T>(Receiver<T>);

/// `std::sync::mpsc::channel` makes a sender and a receiver. Nothing is
/// claimed of them.
pub assume_specification<T>[ std::sync::mpsc::channel::<T> ]() -> (r: (Sender<T>, Receiver<T>))
;

/// `Sender::send` queues a value without blocking and fails when the
/// receiver is gone. Which of the two happens depends on the other
/// thread, so nothing is claimed of the result.
pub assume_specification<T>[ Sender::<T>::send ](tx: &Sender<T>, t: T) -> (r: Result<
    (),
    SendError<T>,
>)
;

/// `Receiver::recv` blocks until a value arrives and fails when every
/// sender is gone. What arrives depends on the other thread, so nothing is
/// claimed of the result.
pub assume_specification<T>[ Receiver::<T>::recv ](rx: &Receiver<T>) -> (r: Result<T, RecvError>)
;

/// What a look into a queue found.
#[derive(Debug, PartialEq, Eq)]
pub enum Polled<M> {
    /// The oldest queued value, now taken out.
    Message(M),
    /// Nothing is queued.
    Empty,
    /// Nothing is queued and the sender is gone.
    Disconnected,
}

/// Calls `Receiver::try_recv`, which takes the oldest queued value
/// without blocking, and tells its three outcomes apart. Which one comes
/// depends on the other thread, so nothing is claimed of the result.
#[verifier::external_body]
fn poll<M>(rx: &Receiver<M>) -> (r: Polled<M>) {
    match rx.try_recv() {
        Ok(m) => Polled::Message(m),
        Err(TryRecvError::Empty) => Polled::Empty,
        Err(TryRecvError::Disconnected) => Polled::Disconnected,
    }
}

/// The plugin's end of the bridge.
#[verifier::reject_recursive_types(M)]
pub struct App<M> {
    service_tx: Sender<M>,
    service_rx: Arc<Receiver<M>>,
}

impl<M> App<M> {
    /// The sending end of the queue of requests.
    pub closed spec fn requests(&self) -> Sender<M> {
        self.service_tx
    }

    /// The receiving end of the queue of answers.
    pub closed spec fn answers(&self) -> Receiver<M> {
        *self.service_rx
    }

    /// The plugin's end of a bridge: requests leave through `service_tx`,
    /// answers arrive through `service_rx`.
    pub fn new(service_tx: Sender<M>, service_rx: Receiver<M>) -> (app: Self)
        ensures
            app.requests() == service_tx,
            app.answers() == service_rx,
    {
        App { service_tx, service_rx: Arc::new(service_rx) }
    }

    /// One round trip: sends `msg` and blocks until the render thread
    /// answers. Returns the answer, whatever it is. Fails when the render
    /// thread's end of either queue is gone: with the error of the failed
    /// send, and nothing is waited for, or with the error of the failed
    /// receive. Both are of kind `Sync`.
    pub fn sync_send(&self, msg: M) -> (r: Result<M, PackageError>)
        ensures
            r matches Err(e) ==> e.is_send_failure::<M>() || e.is_recv_failure(),
            r matches Err(e) ==> e.kind == PackageErrorKind::Sync,
    {
        match self.service_tx.send(msg) {
            Err(e) => Err(PackageError::from_send(e)),
            Ok(()) => match self.service_rx.recv() {
                Ok(answer) => Ok(answer),
                Err(e) => Err(PackageError::from_recv(e)),
            },
        }
    }
}

/// The plugin's end of the inbound queue: texts from the render thread,
/// oldest first.
pub struct Inbox {
    msg_rx: Receiver<String>,
}

impl Inbox {
    /// The receiving end of the queue of texts.
    pub closed spec fn queue(&self) -> Receiver<String> {
        self.msg_rx
    }

    /// The inbox that reads from `msg_rx`.
    pub fn new(msg_rx: Receiver<String>) -> (inbox: Self)
        ensures
            inbox.queue() == msg_rx,
    {
        Inbox { msg_rx }
    }

    /// Takes the oldest text that the render thread queued, if any.
    pub fn poll(&self) -> Polled<String> {
        poll(&self.msg_rx)
    }
}

/// The plugin's ends of its channels, as they travel to the plugin's
/// thread.
#[verifier::reject_recursive_types(M)]
pub struct PluginEnds<M> {
    /// Texts from the render thread.
    pub inbox: Inbox,
    /// Requests to the render thread.
    pub service_tx: Sender<M>,
    /// Answers from the render thread.
    pub service_rx: Receiver<M>,
}

impl<M> PluginEnds<M> {
    /// The inbox as it is, and the bridge made of the two service
    /// channels: requests leave through `service_tx`, answers arrive
    /// through `service_rx`.
    pub fn split(self) -> (r: (Inbox, App<M>))
        ensures
            r.0 == self.inbox,
            r.1.requests() == self.service_tx,
            r.1.answers() == self.service_rx,
    {
        (self.inbox, App::new(self.service_tx, self.service_rx))
    }
}

/// What the render thread holds of one plugin's channels.
#[verifier::reject_recursive_types(M)]
pub struct Package<M> {
    /// Texts for the plugin.
    pub msg_tx: Sender<String>,
    /// Requests of the plugin, oldest first.
    pub service_rx: Receiver<M>,
    /// Answers for the plugin.
    pub service_tx: Sender<M>,
}

impl<M> Package<M> {
    /// Sets up the channels of a plugin. `entry_exists` tells whether the
    /// plugin's directory holds the entry script. Without it loading fails
    /// with `NotAPackage`. With it the three channels are made: the render
    /// thread's ends come back as the package, the plugin thread's ends
    /// beside it.
    pub fn load(entry_exists: bool) -> (r: Result<(Package<M>, PluginEnds<M>), PackageError>)
        ensures
            r is Ok <==> entry_exists,
            r matches Err(e) ==> e.kind == PackageErrorKind::NotAPackage && e.msg@ == Seq::<
                char,
            >::empty(),
    {
        if !entry_exists {
            return Err(PackageError::not_a_package());
        }
        let (tx, rx) = std::sync::mpsc::channel::<String>();
        let (rtx, rrx) = std::sync::mpsc::channel::<M>();
        let (atx, arx) = std::sync::mpsc::channel::<M>();
        Ok(
            (
                Package { msg_tx: tx, service_tx: atx, service_rx: rrx },
                PluginEnds { inbox: Inbox::new(rx), service_tx: rtx, service_rx: arx },
            ),
        )
    }

    /// Queues a text for the plugin. Fails when the plugin thread is gone,
    /// with the error of the failed send, which is of kind `Sync`.
    pub fn post(&self, text: String) -> (r: Result<(), PackageError>)
        ensures
            r matches Err(e) ==> e.is_send_failure::<String>(),
            r matches Err(e) ==> e.kind == PackageErrorKind::Sync,
    {
        match self.msg_tx.send(text) {
            Ok(()) => Ok(()),
            Err(e) => Err(PackageError::from_send(e)),
        }
    }

    /// Takes the oldest request that the plugin queued, if any.
    pub fn poll_request(&self) -> Polled<M> {
        poll(&self.service_rx)
    }

    /// Sends the plugin the answer it is waiting for. Fails when the
    /// plugin thread is gone, with the error of the failed send, which is
    /// of kind `Sync`.
    pub fn reply(&self, answer: M) -> (r: Result<(), PackageError>)
        ensures
            r matches Err(e) ==> e.is_send_failure::<M>(),
            r matches Err(e) ==> e.kind == PackageErrorKind::Sync,
    {
        match self.service_tx.send(answer) {
            Ok(()) => Ok(()),
            Err(e) => Err(PackageError::from_send(e)),
        }
    }
}

/// The name of the entry script that a plugin directory must hold.
pub const ENTRY_SCRIPT: &'static str = "index.luau";

} // verus!
