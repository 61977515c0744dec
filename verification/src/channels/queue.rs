//! Bounded queues between the capture cores and the worker threads.
//!
//! A queue is shared with other threads, so whether a message is accepted, and
//! which message comes out, is decided outside of the calling code.  What the
//! calling code itself did is on record: an [`Outbox`] logs every message it
//! offered, with its fate, and an [`Inbox`] logs every look it took.  The logs
//! exist in proofs only.

use crossbeam_channel::{Receiver, Sender};
use vstd::prelude::*;

verus! {

/// The sending half of a queue (`crossbeam_channel::Sender`).
#[verifier::external_type_specification]
#[verifier::external_body]
#[verifier::reject_recursive_types(T)]
pub struct ExSender<T>(crossbeam_channel::Sender<T>);

/// The receiving half of a queue (`crossbeam_channel::Receiver`).
#[verifier::external_type_specification]
#[verifier::external_body]
#[verifier::reject_recursive_types(T)]
pub struct ExReceiver<T>(crossbeam_channel::Receiver<T>);

/// What became of a message that was offered to a queue.
#[derive(Clone, Copy, Debug, PartialEq, Eq, Structural)]
pub enum Fate {
    /// The queue took it.
    Taken,
    /// The queue was full.
    Full,
    /// Nobody receives from the queue any more.
    Disconnected,
}

/// A message that a queue did not take, handed back.
pub enum Refusal<T> {
    /// The queue was full.
    Full(T),
    /// Nobody receives from the queue any more.
    Disconnected(T),
}

impl<T> Refusal<T> {
    /// The message that was handed back.
    pub open spec fn message(self) -> T {
        match self {
            Refusal::Full(msg) => msg,
            Refusal::Disconnected(msg) => msg,
        }
    }
}

/// A message that was offered to a queue, and its fate.
#[verifier::ext_equal]
pub struct Attempt<T> {
    pub message: T,
    pub fate: Fate,
}

/// The fate of a message, given what came of offering it.
pub open spec fn fate_of<T>(sent: Result<(), Refusal<T>>) -> Fate {
    match sent {
        Ok(_) => Fate::Taken,
        Err(Refusal::Full(_)) => Fate::Full,
        Err(Refusal::Disconnected(_)) => Fate::Disconnected,
    }
}

/// The log entry of a message, given what came of offering it.
pub open spec fn attempt<T>(msg: T, sent: Result<(), Refusal<T>>) -> Attempt<T> {
    Attempt { message: msg, fate: fate_of(sent) }
}

/// Whether a message that was not taken came back as it was.
pub open spec fn hands_back<T>(msg: T, sent: Result<(), Refusal<T>>) -> bool {
    sent matches Err(refusal) ==> refusal.message() == msg
}

/// Whether one log follows from another by offering one message.
pub open spec fn logs<T>(
    before: Seq<Attempt<T>>,
    msg: T,
    sent: Result<(), Refusal<T>>,
    after: Seq<Attempt<T>>,
) -> bool {
    &&& after == before.push(attempt(msg, sent))
    &&& hands_back(msg, sent)
}

/// The sending end of a queue.
#[verifier::reject_recursive_types(T)]
pub struct Outbox<T> {
    tx: Sender<T>,
    log: Ghost<Seq<Attempt<T>>>,
}

impl<T> Outbox<T> {
    /// The queue.
    pub closed spec fn queue(self) -> Sender<T> {
        self.tx
    }

    /// All messages that were offered through this end, in order.
    pub closed spec fn log(self) -> Seq<Attempt<T>> {
        self.log@
    }

    /// A sending end through which nothing was offered yet.
    pub fn new(tx: Sender<T>) -> (r: Outbox<T>)
        ensures
            r.queue() == tx,
            r.log() == Seq::<Attempt<T>>::empty(),
    {
        Outbox { tx, log: Ghost(Seq::empty()) }
    }

    /// Put a message into the queue without waiting
    /// (`crossbeam_channel::Sender::try_send`).
    ///
    /// Exactly this message is offered, once.  Either the queue took it, or it
    /// comes back as it was.  Which of the two depends on what other threads
    /// have put in and taken out, and is left open.
    #[verifier::external_body]
    pub(crate) fn offer(&mut self, msg: T) -> (r: Result<(), Refusal<T>>)
        ensures
            final(self).queue() == old(self).queue(),
            logs(old(self).log(), msg, r, final(self).log()),
    {
        match self.tx.try_send(msg) {
            Ok(()) => Ok(()),
            Err(crossbeam_channel::TrySendError::Full(m)) => Err(Refusal::Full(m)),
            Err(crossbeam_channel::TrySendError::Disconnected(m)) => Err(Refusal::Disconnected(m)),
        }
    }

    /// Put a message into the queue, and wait for room where the queue is full
    /// (`crossbeam_channel::Sender::send`).
    ///
    /// Exactly this message is offered, once.  The call returns when the queue
    /// has taken it, or when nobody receives from the queue any more; only then
    /// the message comes back, as it was.  How long the call waits depends on
    /// the receiving threads, and is left open.
    #[verifier::external_body]
    pub(crate) fn send(&mut self, msg: T) -> (r: Result<(), Refusal<T>>)
        ensures
            final(self).queue() == old(self).queue(),
            logs(old(self).log(), msg, r, final(self).log()),
            fate_of(r) != Fate::Full,
    {
        match self.tx.send(msg) {
            Ok(()) => Ok(()),
            Err(crossbeam_channel::SendError(m)) => Err(Refusal::Disconnected(m)),
        }
    }
}

/// The receiving end of a queue.
#[verifier::reject_recursive_types(T)]
pub struct Inbox<T> {
    rx: Receiver<T>,
    looks: Ghost<Seq<Option<T>>>,
}

impl<T> Inbox<T> {
    /// The queue.
    pub closed spec fn queue(self) -> Receiver<T> {
        self.rx
    }

    /// All looks into the queue through this end, in order: the message that
    /// came out, or nothing where none was waiting.
    pub closed spec fn looks(self) -> Seq<Option<T>> {
        self.looks@
    }

    /// A receiving end that has not been looked into yet.
    pub fn new(rx: Receiver<T>) -> (r: Inbox<T>)
        ensures
            r.queue() == rx,
            r.looks() == Seq::<Option<T>>::empty(),
    {
        Inbox { rx, looks: Ghost(Seq::empty()) }
    }

    /// Take a message out of the queue without waiting
    /// (`crossbeam_channel::Receiver::try_recv`), if one is there.
    ///
    /// The queue is looked into exactly once.  Whether a message comes out, and
    /// which, depends on what other threads put in and took out, and is left
    /// open.
    #[verifier::external_body]
    pub(crate) fn poll(&mut self) -> (r: Option<T>)
        ensures
            final(self).queue() == old(self).queue(),
            final(self).looks() == old(self).looks().push(r),
    {
        match self.rx.try_recv() {
            Ok(msg) => Some(msg),
            Err(_) => None,
        }
    }
}

/// What a log says of one more message: the message itself stands at its end, as
/// taken exactly if the queue took it, and all that was there before it stays.
/// A message that was not taken comes back.
pub proof fn logs_grow_by_their_message<T>(
    before: Seq<Attempt<T>>,
    msg: T,
    sent: Result<(), Refusal<T>>,
    after: Seq<Attempt<T>>,
)
    requires
        logs(before, msg, sent, after),
    ensures
        after.len() == before.len() + 1,
        forall|i: int| 0 <= i < before.len() ==> #[trigger] after[i] == before[i],
        after.last().message == msg,
        after.last().fate == Fate::Taken <==> sent is Ok,
        match sent {
            Ok(_) => true,
            Err(Refusal::Full(back)) => back == msg && after.last().fate == Fate::Full,
            Err(Refusal::Disconnected(back)) => back == msg && after.last().fate
                == Fate::Disconnected,
        },
{
}

} // verus!
