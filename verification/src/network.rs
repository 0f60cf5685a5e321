//! The peer's side of its connection to the broker: what waits to be
//! written.
//!
//! Every part of the client hands its envelopes to one queue. One envelope
//! leaves it per tick, as the bytes of one frame.

use crate::codec::{decode_envelope, encode_envelope, encode_frame, fits_frame, DecodeError};
use crate::protocol::{Envelope, Protocol, MESSAGE_PACKET_SIZE};
use crossbeam_channel::{unbounded, Receiver, Sender};
use vstd::prelude::*;

verus! {

#[verifier::external_type_specification]
#[verifier::external_body]
#[verifier::reject_recursive_types(T)]
pub struct ExSender<T>(Sender<T>);

#[verifier::external_type_specification]
#[verifier::external_body]
#[verifier::reject_recursive_types(T)]
pub struct ExReceiver<T>(Receiver<T>);

/// The envelopes that wait in the channel that `receiver` is the receiving
/// end of, the next one first.
pub uninterp spec fn waiting(receiver: Receiver<Protocol>) -> Seq<Envelope>;

/// The envelope may go from a peer to the broker: it fits a frame, and it is
/// not the one that marks the end of a connection, which never leaves the
/// process that made it.
pub open spec fn sendable(envelope: Envelope) -> bool {
    fits_frame(envelope) && !(envelope is InternalRemoveConnection)
}

/// `message` is what was first in `before`, and `after` is the rest; or
/// nothing, where `before` was empty, and `after` is `before`.
pub open spec fn took_first(
    before: Seq<Envelope>,
    message: Option<Protocol>,
    after: Seq<Envelope>,
) -> bool {
    match message {
        Some(taken) => before.len() > 0 && taken@ == before[0] && after == before.drop_first(),
        None => before.len() == 0 && after == before,
    }
}

/// The queue of envelopes on their way to the broker: the two ends of one
/// channel, which nobody else holds.
#[derive(Debug)]
pub struct ServerConnection {
    outgoing_sender: Sender<Protocol>,
    outgoing_receiver: Receiver<Protocol>,
}

/// Calls `crossbeam_channel::unbounded`, which makes the two ends of a
/// channel in which nothing waits.
#[verifier::external_body]
fn open_queue() -> (connection: ServerConnection)
    ensures
        waiting(connection.outgoing_receiver) == Seq::<Envelope>::empty(),
{
    let (outgoing_sender, outgoing_receiver) = unbounded();
    ServerConnection { outgoing_sender, outgoing_receiver }
}

/// Calls `Sender::send`. On a channel without a bound, whose receiving end
/// is held, it puts the message behind those that wait. Only what may go on
/// the wire is queued, so that what holds of every queue still holds.
#[verifier::external_body]
fn enqueue(connection: &mut ServerConnection, message: Protocol)
    requires
        sendable(message@),
    ensures
        waiting(final(connection).outgoing_receiver) == waiting(
            old(connection).outgoing_receiver,
        ).push(message@),
{
    let _ = connection.outgoing_sender.send(message);
}

/// Calls `Receiver::try_recv`, which takes the message that has waited
/// longest out of the channel, or gives nothing where none waits.
#[verifier::external_body]
fn dequeue(connection: &mut ServerConnection) -> (message: Option<Protocol>)
    ensures
        took_first(
            waiting(old(connection).outgoing_receiver),
            message,
            waiting(final(connection).outgoing_receiver),
        ),
{
    connection.outgoing_receiver.try_recv().ok()
}

/// Calls `Receiver::len`, the number of messages in the channel.
#[verifier::external_body]
fn queue_len(connection: &ServerConnection) -> (n: usize)
    ensures
        n == waiting(connection.outgoing_receiver).len(),
{
    connection.outgoing_receiver.len()
}

impl ServerConnection {
    /// What waits to be written, the next one first.
    pub closed spec fn queued(&self) -> Seq<Envelope> {
        waiting(self.outgoing_receiver)
    }

    /// Everything in the queue may go on the wire.
    pub open spec fn wf(&self) -> bool {
        forall|i: int| 0 <= i < self.queued().len() ==> sendable(#[trigger] self.queued()[i])
    }

    #[verifier::type_invariant]
    closed spec fn inv(&self) -> bool {
        self.wf()
    }

    /// A connection for the peer `id`. The first thing it will write is the
    /// peer's announcement, which must fit a frame.
    pub fn new(id: String, public_key: [u8; 32]) -> (connection: Self)
        requires
            fits_frame(Envelope::NewConnection(id@, public_key@)),
        ensures
            connection.queued() == seq![Envelope::NewConnection(id@, public_key@)],
    {
        let mut connection = open_queue();
        enqueue(&mut connection, Protocol::NewConnection(id, public_key));
        assert(connection.queued() =~= seq![Envelope::NewConnection(id@, public_key@)]);
        connection
    }

    /// Puts `message`, which must be one that may go on the wire, at the end
    /// of the queue.
    pub fn send(&mut self, message: Protocol)
        requires
            sendable(message@),
        ensures
            final(self).queued() == old(self).queued().push(message@),
            final(self).wf(),
    {
        proof {
            use_type_invariant(&*self);
        }
        enqueue(self, message);
    }

    /// Takes the next envelope off the queue and gives the bytes to write for
    /// it: one frame. Gives nothing where the queue is empty.
    pub fn step(&mut self) -> (frame: Option<Vec<u8>>)
        ensures
            old(self).queued().len() == 0 ==> frame is None && final(self).queued() == old(
                self,
            ).queued(),
            old(self).queued().len() > 0 ==> final(self).queued() == old(
                self,
            ).queued().drop_first(),
            old(self).queued().len() > 0 ==> (frame matches Some(bytes) && bytes@
                == encode_envelope(old(self).queued()[0]) && bytes.len() <= MESSAGE_PACKET_SIZE
                && decode_envelope(bytes@) == Ok::<Envelope, DecodeError>(old(self).queued()[0])),
            old(self).wf(),
            final(self).wf(),
    {
        proof {
            use_type_invariant(&*self);
        }
        match dequeue(self) {
            Some(message) => Some(encode_frame(&message)),
            None => None,
        }
    }

    /// How many envelopes wait to be written.
    pub fn pending(&self) -> (n: usize)
        ensures
            n == self.queued().len(),
    {
        queue_len(self)
    }
}

} // verus!
