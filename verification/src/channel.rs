//! The channel to the background purger.
//!
//! Only this module can put a message on the channel: an exit message, or a
//! purge request that passes an inlet whose flag was found unset.

use tokio::sync::mpsc::UnboundedSender;
use vstd::prelude::*;

use crate::flag::{FlagReading, FlagStore, Latch, SharedFlag};
use crate::purge::{FilePurgeRequest, Request};

verus! {

/// The sending half of an unbounded channel of tokio. It is opaque here: two
/// values are equal where they are halves of the same channel.
#[verifier::external_type_specification]
#[verifier::external_body]
#[verifier::reject_recursive_types(T)]
pub struct ExUnboundedSender<T>(UnboundedSender<T>);

/// `UnboundedSender::clone`: the clone sends to the same channel.
pub assume_specification<T>[ <UnboundedSender<T> as Clone>::clone ](
    sender: &UnboundedSender<T>,
) -> (r: UnboundedSender<T>)
    ensures
        r == *sender,
;

/// Stands for a message that a channel has taken. There is no way to get one
/// but to send the message.
pub struct SendReceipt {
    sender: Ghost<UnboundedSender<Request>>,
    message: Ghost<Request>,
}

impl SendReceipt {
    /// The channel that took the message.
    pub closed spec fn sender(self) -> UnboundedSender<Request> {
        self.sender@
    }

    /// The message.
    pub closed spec fn message(self) -> Request {
        self.message@
    }
}

/// A message that a channel has refused because its receiving half is closed.
/// There is no way to get one but to try to send the message.
pub struct SendRefusal {
    sender: Ghost<UnboundedSender<Request>>,
    message: Request,
}

impl SendRefusal {
    /// The channel that refused the message.
    pub closed spec fn sender(self) -> UnboundedSender<Request> {
        self.sender@
    }

    /// The message.
    pub closed spec fn message(self) -> Request {
        self.message
    }

    /// The message that was refused.
    pub fn into_request(self) -> (r: Request)
        ensures
            r == self.message(),
    {
        self.message
    }
}

/// `UnboundedSender::send`: queues the request on the channel, or gives it back
/// where the receiving half has been closed. Which of the two happens is up to
/// the receiver, so it is left open; the receipt or the refusal is of this
/// channel and this request. The call does not wait. It does not unwind either,
/// as far as waking the receiver does not: where memory or the count of queued
/// messages runs out the process is aborted.
#[verifier::external_body]
fn send_request(sender: &UnboundedSender<Request>, request: Request) -> (r: Result<
    SendReceipt,
    SendRefusal,
>)
    ensures
        match r {
            Ok(receipt) => receipt.sender() == *sender && receipt.message() == request,
            Err(refusal) => refusal.sender() == *sender && refusal.message() == request,
        },
    opens_invariants none
    no_unwind
{
    let receipt = SendReceipt { sender: Ghost(*sender), message: Ghost(request) };
    match sender.send(request) {
        Ok(()) => Ok(receipt),
        Err(error) => Err(SendRefusal { sender: Ghost(*sender), message: error.0 }),
    }
}

/// Sends an exit message.
pub(crate) fn send_exit(sender: &UnboundedSender<Request>) -> (r: Result<SendReceipt, SendRefusal>)
    ensures
        match r {
            Ok(receipt) => receipt.sender() == *sender && receipt.message() == Request::Exit,
            Err(refusal) => refusal.sender() == *sender && refusal.message() == Request::Exit,
        },
{
    send_request(sender, Request::Exit)
}

/// A way into the channel that can be closed, and not be opened again. To pass a
/// request one has to use up a reading of the inlet's own flag that found it
/// unset: nothing passes an inlet whose flag every read finds set, and no more
/// requests pass than there were reads.
pub struct Inlet {
    sender: UnboundedSender<Request>,
    closed: Latch,
}

impl Inlet {
    /// The channel behind the inlet.
    pub closed spec fn sender(self) -> UnboundedSender<Request> {
        self.sender
    }

    /// The flag that is set when the inlet is closed.
    pub closed spec fn flag(self) -> SharedFlag {
        self.closed.flag()
    }

    /// An open inlet.
    pub(crate) fn new(sender: UnboundedSender<Request>) -> (r: Self)
        ensures
            r.sender() == sender,
            !r.flag().made_with(),
    {
        Inlet { sender, closed: Latch::new() }
    }

    /// Closes the inlet.
    pub(crate) fn close(&self) -> (r: FlagStore)
        ensures
            r.flag() == self.flag(),
            r.value(),
            r.seq_cst(),
    {
        self.closed.set()
    }

    /// Looks whether the inlet is closed.
    pub(crate) fn look(&self) -> (r: FlagReading)
        ensures
            r.flag() == self.flag(),
            r.seq_cst(),
            !r.used(),
        opens_invariants none
        no_unwind
    {
        self.closed.look()
    }

    /// Sends one request, on a look that found the inlet open and that is thereby
    /// used up.
    pub(crate) fn pass(&self, found: FlagReading, request: FilePurgeRequest) -> (r: (
        FlagReading,
        Result<SendReceipt, SendRefusal>,
    ))
        requires
            found.flag() == self.flag(),
            !found.set(),
            !found.used(),
        ensures
            r.0.flag() == found.flag(),
            r.0.seq_cst() == found.seq_cst(),
            r.0.set() == found.set(),
            r.0.used(),
            match r.1 {
                Ok(receipt) => receipt.sender() == self.sender() && receipt.message()
                    == Request::Purge(request),
                Err(refusal) => refusal.sender() == self.sender() && refusal.message()
                    == Request::Purge(request),
            },
        opens_invariants none
        no_unwind
    {
        (found.use_up(), send_request(&self.sender, Request::Purge(request)))
    }
}

} // verus!
