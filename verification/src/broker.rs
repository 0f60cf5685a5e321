//! The broker's reaction to what its connections deliver.
//!
//! One handler takes the events of all connections in turn. It alone changes
//! the directory, and it says what is to be written to whom; the writing is
//! left to the caller.

use crate::codec::{
    decode, decode_envelope, encode, encode_envelope, fits_frame, DecodeError,
};
use crate::peer::{
    lemma_consistent_same_size, lemma_insert_keeps_consistent, lemma_insert_lists,
    lemma_insert_replaces, lemma_remove_by_id_keeps_consistent, lemma_remove_by_id_unlists,
    lemma_remove_by_ip_keeps_consistent, lemma_remove_by_ip_unlists, Connection, Directory, Peer,
    PeerSet, PeerView,
};
use crate::protocol::{entries_view, Envelope, Protocol, MESSAGE_PACKET_SIZE};
use vstd::prelude::*;

verus! {

/// An envelope, or the end of a connection, together with the connection it
/// came from.
#[derive(Debug)]
pub struct NetEvent {
    pub protocol_message: Protocol,
    pub stream: Connection,
}

/// Bytes to be written to a connection.
#[derive(Debug, PartialEq, Eq)]
pub struct Outbound {
    pub stream: Connection,
    pub message: Vec<u8>,
}

/// What an [`Outbound`] holds.
pub ghost struct OutboundView {
    pub stream: Connection,
    pub message: Seq<u8>,
}

impl View for Outbound {
    type V = OutboundView;

    open spec fn view(&self) -> OutboundView {
        OutboundView { stream: self.stream, message: self.message@ }
    }
}

/// The writes of a vector, in its order.
pub open spec fn outbound_view(sends: Seq<Outbound>) -> Seq<OutboundView> {
    Seq::new(sends.len(), |i: int| sends[i]@)
}

/// What the handler made of an event.
#[derive(Clone, Copy, Debug, PartialEq, Eq, Structural)]
pub enum Handled {
    /// A peer joined: it is listed, the others are told, and it gets the peer list.
    Joined,
    /// A peer tried to join over a connection without a remote address.
    JoinRefused,
    /// A peer said that it leaves; those who stay are told.
    Left,
    /// A connection ended and its peer was taken out; those who stay are told.
    ConnectionRemoved,
    /// A connection ended that belonged to no listed peer.
    NothingToRemove,
    /// A message went on to its recipient.
    Forwarded,
    /// A message named a recipient that is not listed, and was dropped.
    UnknownRecipient,
    /// An envelope that the broker has no use for.
    Ignored,
}

/// The handler's answer to one event.
#[derive(Debug)]
pub struct Reaction {
    /// What the handler made of the event.
    pub outcome: Handled,
    /// What is to be written, in order. Each is one frame.
    pub sends: Vec<Outbound>,
    /// An envelope that was to be written does not fit a frame, and was
    /// written to nobody.
    pub oversize: bool,
}

/// One copy of `envelope` for each of `peers`, in their order.
pub open spec fn fan_out(peers: Seq<PeerView>, envelope: Envelope) -> Seq<OutboundView> {
    Seq::new(
        peers.len(),
        |i: int| OutboundView { stream: peers[i].tcp_stream, message: encode_envelope(envelope) },
    )
}

/// Identity and public key of each of `peers`, in their order.
pub open spec fn snapshot(peers: Seq<PeerView>) -> Seq<(Seq<char>, Seq<u8>)> {
    Seq::new(peers.len(), |i: int| (peers[i].peer_id, peers[i].public_key))
}

/// The peer list for `target`: everyone in `peers`.
pub open spec fn peer_list_for(target: PeerView, peers: Seq<PeerView>) -> OutboundView {
    OutboundView {
        stream: target.tcp_stream,
        message: encode_envelope(Envelope::PeerList(snapshot(peers))),
    }
}

/// The directory after an event.
pub open spec fn next_directory(d: Directory, envelope: Envelope, stream: Connection) -> Directory {
    match envelope {
        Envelope::NewConnection(id, key) => if stream.remote is Some {
            d.insert(PeerView { peer_id: id, tcp_stream: stream, public_key: key })
        } else {
            d
        },
        Envelope::Disconnect(id) => d.remove_by_id(id),
        Envelope::InternalRemoveConnection => match stream.remote {
            Some(addr) => d.remove_by_ip(addr),
            None => d,
        },
        _ => d,
    }
}

/// What the handler means to write after an event, in order, whether or not
/// it fits a frame.
pub open spec fn wanted(d: Directory, envelope: Envelope, stream: Connection) -> Seq<
    OutboundView,
> {
    let after = next_directory(d, envelope, stream);
    match envelope {
        Envelope::NewConnection(id, key) => if stream.remote is Some {
            let joined = PeerView { peer_id: id, tcp_stream: stream, public_key: key };
            fan_out(d.peers, envelope).push(peer_list_for(joined, after.peers))
        } else {
            Seq::empty()
        },
        Envelope::Disconnect(id) => fan_out(after.peers, envelope),
        Envelope::InternalRemoveConnection => match stream.remote {
            Some(addr) => if d.has_addr(addr) && d.has_id(d.id_at(addr)) {
                fan_out(after.peers, Envelope::Disconnect(d.id_at(addr)))
            } else {
                Seq::empty()
            },
            None => Seq::empty(),
        },
        Envelope::Message(m) => if d.has_id(m.to) {
            seq![
                OutboundView {
                    stream: d.peer(m.to).tcp_stream,
                    message: encode_envelope(envelope),
                },
            ]
        } else {
            Seq::empty()
        },
        Envelope::PeerList(_) => Seq::empty(),
    }
}

/// The write is no longer than a frame.
pub open spec fn fits_wire(write: OutboundView) -> bool {
    write.message.len() <= MESSAGE_PACKET_SIZE
}

/// One copy of `envelope` for each of `peers`, or nothing at all where the
/// envelope does not fit a frame.
pub open spec fn told(peers: Seq<PeerView>, envelope: Envelope) -> Seq<OutboundView> {
    if fits_frame(envelope) {
        fan_out(peers, envelope)
    } else {
        Seq::empty()
    }
}

/// What is to be written after an event, in order: what the handler means to
/// write, without the envelopes that do not fit a frame.
pub open spec fn writes(d: Directory, envelope: Envelope, stream: Connection) -> Seq<
    OutboundView,
> {
    let after = next_directory(d, envelope, stream);
    match envelope {
        Envelope::NewConnection(id, key) => if stream.remote is Some {
            let joined = PeerView { peer_id: id, tcp_stream: stream, public_key: key };
            let list = peer_list_for(joined, after.peers);
            if fits_wire(list) {
                told(d.peers, envelope).push(list)
            } else {
                told(d.peers, envelope)
            }
        } else {
            Seq::empty()
        },
        Envelope::Disconnect(id) => told(after.peers, envelope),
        Envelope::InternalRemoveConnection => match stream.remote {
            Some(addr) => if d.has_addr(addr) && d.has_id(d.id_at(addr)) {
                told(after.peers, Envelope::Disconnect(d.id_at(addr)))
            } else {
                Seq::empty()
            },
            None => Seq::empty(),
        },
        Envelope::Message(m) => if d.has_id(m.to) && fits_frame(envelope) {
            seq![
                OutboundView {
                    stream: d.peer(m.to).tcp_stream,
                    message: encode_envelope(envelope),
                },
            ]
        } else {
            Seq::empty()
        },
        Envelope::PeerList(_) => Seq::empty(),
    }
}

/// An envelope that the handler means to write does not fit a frame. It is
/// then written to nobody.
pub open spec fn oversize(d: Directory, envelope: Envelope, stream: Connection) -> bool {
    let after = next_directory(d, envelope, stream);
    match envelope {
        Envelope::NewConnection(id, key) => stream.remote is Some && (!fits_frame(envelope)
            || !fits_frame(Envelope::PeerList(snapshot(after.peers)))),
        Envelope::Disconnect(id) => !fits_frame(envelope),
        Envelope::InternalRemoveConnection => match stream.remote {
            Some(addr) => d.has_addr(addr) && d.has_id(d.id_at(addr)) && !fits_frame(
                Envelope::Disconnect(d.id_at(addr)),
            ),
            None => false,
        },
        Envelope::Message(m) => d.has_id(m.to) && !fits_frame(envelope),
        Envelope::PeerList(_) => false,
    }
}

/// What the handler makes of an event.
pub open spec fn outcome(d: Directory, envelope: Envelope, stream: Connection) -> Handled {
    match envelope {
        Envelope::NewConnection(_, _) => if stream.remote is Some {
            Handled::Joined
        } else {
            Handled::JoinRefused
        },
        Envelope::Disconnect(_) => Handled::Left,
        Envelope::InternalRemoveConnection => match stream.remote {
            Some(addr) => if d.has_addr(addr) && d.has_id(d.id_at(addr)) {
                Handled::ConnectionRemoved
            } else {
                Handled::NothingToRemove
            },
            None => Handled::NothingToRemove,
        },
        Envelope::Message(m) => if d.has_id(m.to) {
            Handled::Forwarded
        } else {
            Handled::UnknownRecipient
        },
        Envelope::PeerList(_) => Handled::Ignored,
    }
}

/// One copy of `message` for every peer in the directory, each one frame.
/// Gives nothing where the message does not fit a frame.
pub fn send_to_all_peers(message: &Protocol, peers: &PeerSet) -> (res: Option<Vec<Outbound>>)
    ensures
        res is Some <==> fits_frame(message@),
        res matches Some(sends) ==> outbound_view(sends@) == fan_out(peers@.peers, message@),
        res matches Some(sends) ==> forall|k: int|
            0 <= k < sends.len() ==> (#[trigger] sends[k]).message.len() <= MESSAGE_PACKET_SIZE
                && decode_envelope(sends[k].message@) == Ok::<Envelope, DecodeError>(message@),
{
    let bytes = encode(message);
    if bytes.len() > MESSAGE_PACKET_SIZE {
        return None;
    }
    let all = peers.values();
    let mut sends: Vec<Outbound> = Vec::new();
    let mut i: usize = 0;
    while i < all.len()
        invariant
            i <= all.len(),
            sends.len() == i,
            bytes@ == encode_envelope(message@),
            forall|j: int|
                0 <= j < i ==> (#[trigger] sends[j])@ == (OutboundView {
                    stream: all[j].tcp_stream,
                    message: bytes@,
                }),
        decreases all.len() - i,
    {
        sends.push(Outbound { stream: all[i].tcp_stream, message: bytes.clone() });
        i += 1;
    }
    assert(outbound_view(sends@) =~= fan_out(peers@.peers, message@));
    assert forall|k: int| 0 <= k < sends.len() implies (#[trigger] sends[k]).message.len()
        <= MESSAGE_PACKET_SIZE && decode_envelope(sends[k].message@) == Ok::<
        Envelope,
        DecodeError,
    >(message@) by {
        assert(sends[k]@.message == bytes@);
    }
    Some(sends)
}

/// The peer list for `target`: identity and public key of every peer in the
/// directory, as one frame. Gives nothing where the list does not fit a
/// frame.
pub fn send_peer_list(target: &Peer, peers: &PeerSet) -> (res: Option<Outbound>)
    ensures
        res is Some <==> fits_frame(Envelope::PeerList(snapshot(peers@.peers))),
        res matches Some(send) ==> send@ == peer_list_for(target@, peers@.peers),
        res matches Some(send) ==> send.message.len() <= MESSAGE_PACKET_SIZE && decode_envelope(
            send.message@,
        ) == Ok::<Envelope, DecodeError>(Envelope::PeerList(snapshot(peers@.peers))),
{
    let all = peers.values();
    let mut connected_peers: Vec<(String, [u8; 32])> = Vec::new();
    let mut i: usize = 0;
    while i < all.len()
        invariant
            i <= all.len(),
            connected_peers.len() == i,
            forall|j: int|
                0 <= j < i ==> (#[trigger] connected_peers[j]).0@ == all[j]@.peer_id
                    && connected_peers[j].1@ == all[j]@.public_key,
        decreases all.len() - i,
    {
        connected_peers.push((all[i].peer_id.clone(), all[i].public_key));
        i += 1;
    }
    assert(entries_view(connected_peers@) =~= snapshot(peers@.peers));
    let message = encode(&Protocol::PeerList(connected_peers));
    if message.len() > MESSAGE_PACKET_SIZE {
        None
    } else {
        Some(Outbound { stream: target.tcp_stream, message })
    }
}

/// The writes, or none where there are none.
fn or_none(sends: Option<Vec<Outbound>>) -> (res: Vec<Outbound>)
    ensures
        res@ == match sends {
            Some(found) => found@,
            None => Seq::empty(),
        },
{
    match sends {
        Some(found) => found,
        None => Vec::new(),
    }
}

/// Handles one event: changes the directory and says what is to be written.
///
/// * `NewConnection`: the peers already listed are told of the newcomer, then
///   the newcomer is listed and gets the peer list, itself included. It
///   takes the place of whoever was listed under its identity or under its
///   address, so that the two indices still agree. A newcomer whose
///   connection has no remote address is neither announced nor listed.
/// * `Disconnect`: the peer is taken out; everyone who stays is told.
/// * `InternalRemoveConnection`: the peer listed under the connection's
///   address is taken out; if there was one, everyone who stays is told.
/// * `Message`: the envelope goes, unchanged, to the peer it names as
///   recipient, or nowhere if no such peer is listed.
/// * `PeerList`: ignored.
pub fn message_broker(peers: &mut PeerSet, event: NetEvent) -> (reaction: Reaction)
    ensures
        final(peers)@ == next_directory(old(peers)@, event.protocol_message@, event.stream),
        outbound_view(reaction.sends@) == writes(
            old(peers)@,
            event.protocol_message@,
            event.stream,
        ),
        reaction.outcome == outcome(old(peers)@, event.protocol_message@, event.stream),
        reaction.oversize == oversize(old(peers)@, event.protocol_message@, event.stream),
        forall|k: int| 0 <= k < reaction.sends.len() ==> fits_wire((#[trigger] reaction.sends[k])@),
        old(peers)@.wf(),
        old(peers)@.consistent(),
        final(peers)@.wf(),
        final(peers)@.consistent(),
{
    proof {
        use_type_invariant(&*peers);
        lemma_writes_fit(old(peers)@, event.protocol_message@, event.stream);
    }
    let stream = event.stream;
    let reaction = match event.protocol_message {
        Protocol::NewConnection(id, public_key) => {
            let announcement = Protocol::NewConnection(id.clone(), public_key);
            let peer = Peer::new(id, stream, public_key);
            if peer.get_addr().is_ok() {
                let announced = send_to_all_peers(&announcement, peers);
                let joined = peer.clone();
                let _ = peers.insert(peer);
                let list = send_peer_list(&joined, peers);
                let oversize = announced.is_none() || list.is_none();
                let mut sends = or_none(announced);
                match list {
                    Some(list) => {
                        let ghost before = outbound_view(sends@);
                        sends.push(list);
                        assert(outbound_view(sends@) =~= before.push(list@));
                    },
                    None => {},
                }
                Reaction { outcome: Handled::Joined, sends, oversize }
            } else {
                let _ = peers.insert(peer);
                Reaction { outcome: Handled::JoinRefused, sends: Vec::new(), oversize: false }
            }
        },
        Protocol::Disconnect(id) => {
            peers.remove_by_id(id.as_str());
            let told = send_to_all_peers(&Protocol::Disconnect(id), peers);
            let oversize = told.is_none();
            Reaction { outcome: Handled::Left, sends: or_none(told), oversize }
        },
        Protocol::InternalRemoveConnection => {
            match stream.remote {
                Some(socket_addr) => match peers.remove_by_ip(&socket_addr) {
                    Some(removed_peer) => {
                        let told = send_to_all_peers(
                            &Protocol::Disconnect(removed_peer.peer_id),
                            peers,
                        );
                        let oversize = told.is_none();
                        Reaction {
                            outcome: Handled::ConnectionRemoved,
                            sends: or_none(told),
                            oversize,
                        }
                    },
                    None => Reaction {
                        outcome: Handled::NothingToRemove,
                        sends: Vec::new(),
                        oversize: false,
                    },
                },
                None => Reaction {
                    outcome: Handled::NothingToRemove,
                    sends: Vec::new(),
                    oversize: false,
                },
            }
        },
        Protocol::Message(encrypted_message) => {
            let found = {
                let (_from, to) = encrypted_message.get_info();
                match peers.find_by_id(to.as_str()) {
                    Some(receiving_participant) => Some(receiving_participant.tcp_stream),
                    None => None,
                }
            };
            match found {
                Some(receiving_stream) => {
                    let message = encode(&Protocol::Message(encrypted_message));
                    let mut sends: Vec<Outbound> = Vec::new();
                    let oversize = message.len() > MESSAGE_PACKET_SIZE;
                    if !oversize {
                        sends.push(Outbound { stream: receiving_stream, message });
                    }
                    assert(outbound_view(sends@) =~= writes(
                        old(peers)@,
                        event.protocol_message@,
                        event.stream,
                    ));
                    Reaction { outcome: Handled::Forwarded, sends, oversize }
                },
                None => Reaction {
                    outcome: Handled::UnknownRecipient,
                    sends: Vec::new(),
                    oversize: false,
                },
            }
        },
        Protocol::PeerList(_) => Reaction {
            outcome: Handled::Ignored,
            sends: Vec::new(),
            oversize: false,
        },
    };
    assert(outbound_view(reaction.sends@) =~= writes(
        old(peers)@,
        event.protocol_message@,
        event.stream,
    ));
    assert forall|k: int| 0 <= k < reaction.sends.len() implies fits_wire(
        (#[trigger] reaction.sends[k])@,
    ) by {
        assert(outbound_view(reaction.sends@)[k] == reaction.sends[k]@);
    }
    reaction
}

/// What a reader makes of one read from its connection.
#[derive(Debug)]
pub enum Traffic {
    /// An envelope arrived: hand the event to the handler and read on.
    Deliver(NetEvent),
    /// What arrived is no envelope: read on.
    Malformed(DecodeError),
    /// What arrived is the envelope that marks the end of a connection, which
    /// must not come over the wire: read on.
    Forbidden,
    /// The connection has ended: hand the event to the handler and stop.
    Closed(NetEvent),
}

/// Turns one read from `stream` into an event for the handler. `received`
/// is what the read gave: the bytes, or nothing where it failed. A failed or
/// empty read ends the connection; anything else is taken for one envelope.
/// Only the reader itself marks the end of a connection: an envelope that
/// claims to do so is not handed on.
pub fn listen_to_traffic(received: Option<&[u8]>, stream: Connection) -> (step: Traffic)
    ensures
        match received {
            Some(bytes) if bytes@.len() > 0 => match decode_envelope(bytes@) {
                Ok(Envelope::InternalRemoveConnection) => step is Forbidden,
                Ok(envelope) => step matches Traffic::Deliver(event) && event.protocol_message@
                    == envelope && event.stream == stream,
                Err(e) => step matches Traffic::Malformed(found) && found == e,
            },
            _ => step matches Traffic::Closed(event) && event.protocol_message@
                == Envelope::InternalRemoveConnection && event.stream == stream,
        },
{
    match received {
        Some(bytes) => {
            if bytes.len() == 0 {
                Traffic::Closed(
                    NetEvent { protocol_message: Protocol::InternalRemoveConnection, stream },
                )
            } else {
                match decode(bytes) {
                    Ok(Protocol::InternalRemoveConnection) => Traffic::Forbidden,
                    Ok(protocol_message) => Traffic::Deliver(NetEvent { protocol_message, stream }),
                    Err(e) => Traffic::Malformed(e),
                }
            }
        },
        None => Traffic::Closed(
            NetEvent { protocol_message: Protocol::InternalRemoveConnection, stream },
        ),
    }
}

/// The peer that a `NewConnection` from `stream` announces.
pub open spec fn newcomer(id: Seq<char>, key: Seq<u8>, stream: Connection) -> PeerView {
    PeerView { peer_id: id, tcp_stream: stream, public_key: key }
}

/// No event makes the two indices of the directory disagree, and none makes
/// it list anything twice. The directory starts out empty, where both hold.
pub proof fn lemma_event_keeps_consistent(d: Directory, envelope: Envelope, stream: Connection)
    requires
        d.wf(),
        d.consistent(),
    ensures
        next_directory(d, envelope, stream).wf(),
        next_directory(d, envelope, stream).consistent(),
        next_directory(d, envelope, stream).peers.len() == next_directory(
            d,
            envelope,
            stream,
        ).addrs.len(),
{
    match envelope {
        Envelope::NewConnection(id, key) => {
            if stream.remote is Some {
                lemma_insert_keeps_consistent(d, newcomer(id, key, stream));
            }
        },
        Envelope::Disconnect(id) => {
            lemma_remove_by_id_keeps_consistent(d, id);
        },
        Envelope::InternalRemoveConnection => {
            if stream.remote is Some {
                lemma_remove_by_ip_keeps_consistent(d, stream.remote->0);
            }
        },
        _ => {},
    }
    lemma_consistent_same_size(next_directory(d, envelope, stream));
}

/// Whatever is handed out for writing is one frame. Where nothing is too
/// long, what is handed out is all that the handler means to write.
pub proof fn lemma_writes_fit(d: Directory, envelope: Envelope, stream: Connection)
    ensures
        forall|k: int|
            0 <= k < writes(d, envelope, stream).len() ==> fits_wire(
                #[trigger] writes(d, envelope, stream)[k],
            ),
        !oversize(d, envelope, stream) ==> writes(d, envelope, stream) == wanted(
            d,
            envelope,
            stream,
        ),
{
    if !oversize(d, envelope, stream) {
        assert(writes(d, envelope, stream) =~= wanted(d, envelope, stream));
    }
}

/// The identities that a peer list names.
pub open spec fn names(entries: Seq<(Seq<char>, Seq<u8>)>, id: Seq<char>) -> bool {
    exists|k: int| 0 <= k < entries.len() && (#[trigger] entries[k]).0 == id
}

/// A peer that joins over a connection with a remote address is sent, last
/// of all, the list of exactly the peers that the directory then holds: the
/// newcomer itself with the key it announced, and everyone who was listed
/// before under another identity and another address. The list names nobody
/// twice and nobody who was taken out before. Where the newcomer's identity
/// and address are both new, the list is the old peers followed by the
/// newcomer. A peer that joins over a connection without a remote address is
/// sent nothing and not listed. These are the writes that the handler means
/// to make; they are the ones it hands out unless the announcement or the
/// list is too long for a frame, and a list that is too long is not handed
/// out.
pub proof fn lemma_join_snapshot_complete(
    d: Directory,
    id: Seq<char>,
    key: Seq<u8>,
    stream: Connection,
)
    requires
        d.wf(),
        d.consistent(),
    ensures
        ({
            let join = Envelope::NewConnection(id, key);
            let after = next_directory(d, join, stream);
            let sent = wanted(d, join, stream);
            let list = snapshot(after.peers);
            &&& !oversize(d, join, stream) ==> writes(d, join, stream) == sent
            &&& stream.remote is Some && !fits_frame(Envelope::PeerList(list)) ==> writes(
                d,
                join,
                stream,
            ) == told(d.peers, join)
            &&& stream.remote is None ==> sent.len() == 0 && after == d
            &&& stream.remote is Some ==> {
                &&& sent.len() == d.peers.len() + 1
                &&& sent.last().stream == stream
                &&& sent.last().message == encode_envelope(Envelope::PeerList(list))
                &&& after.has_id(id)
                &&& after.peer(id) == newcomer(id, key, stream)
                &&& forall|other: Seq<char>| after.has_id(other) <==> names(list, other)
                &&& forall|other: Seq<char>|
                    names(list, other) ==> other == id || d.has_id(other)
                &&& forall|other: Seq<char>|
                    d.has_id(other) && other != id && d.peer(other).tcp_stream.remote
                        != stream.remote ==> names(list, other)
                &&& forall|a: int, b: int|
                    0 <= a < list.len() && 0 <= b < list.len() && a != b ==> (#[trigger] list[a]).0
                        != (#[trigger] list[b]).0
                &&& forall|k: int|
                    0 <= k < list.len() && (#[trigger] list[k]).0 == id ==> list[k].1 == key
                &&& !d.has_id(id) && !d.has_addr(stream.remote->0) ==> list == snapshot(
                    d.peers,
                ).push((id, key))
            }
        }),
{
    let join = Envelope::NewConnection(id, key);
    let after = next_directory(d, join, stream);
    let list = snapshot(after.peers);
    lemma_writes_fit(d, join, stream);
    if stream.remote is Some {
        let joined = newcomer(id, key, stream);
        lemma_insert_lists(d, joined);
        lemma_insert_replaces(d, joined);
        assert forall|other: Seq<char>| after.has_id(other) <==> names(list, other) by {
            if after.has_id(other) {
                let k = after.index_of_id(other);
                assert(list[k].0 == other);
            }
            if names(list, other) {
                let k = choose|k: int| 0 <= k < list.len() && (#[trigger] list[k]).0 == other;
                assert(after.peers[k].peer_id == other);
            }
        }
        assert forall|a: int, b: int|
            0 <= a < list.len() && 0 <= b < list.len() && a != b implies (#[trigger] list[a]).0 != (
            #[trigger] list[b]).0 by {
            assert(after.peers[a].peer_id != after.peers[b].peer_id);
        }
        assert forall|k: int| 0 <= k < list.len() && (#[trigger] list[k]).0 == id implies list[k].1
            == key by {
            assert(after.peers[k].peer_id == id);
            assert(after.index_of_id(id) == k);
        }
        if !d.has_id(id) && !d.has_addr(stream.remote->0) {
            assert(d.cleared(id, stream.remote->0) == d);
            assert(list =~= snapshot(d.peers).push((id, key)));
        }
    }
}

/// A peer that joins over a connection that no listed peer uses is not sent
/// its own announcement. Where its connection has a remote address, one
/// announcement goes to each peer that was listed before, in their order,
/// and all that is written to the newcomer is the peer list, last. Where it
/// has none, nothing is written at all. Of what is handed out, too, nothing
/// but the peer list goes to the newcomer, whatever fits a frame.
pub proof fn lemma_newcomer_not_announced_to_itself(
    d: Directory,
    id: Seq<char>,
    key: Seq<u8>,
    stream: Connection,
)
    requires
        forall|i: int| 0 <= i < d.peers.len() ==> (#[trigger] d.peers[i]).tcp_stream != stream,
    ensures
        ({
            let join = Envelope::NewConnection(id, key);
            let after = next_directory(d, join, stream);
            let sent = wanted(d, join, stream);
            let out = writes(d, join, stream);
            &&& !oversize(d, join, stream) ==> out == sent
            &&& forall|k: int|
                0 <= k < out.len() && (#[trigger] out[k]).stream == stream ==> out[k].message
                    == encode_envelope(Envelope::PeerList(snapshot(after.peers)))
            &&& stream.remote is None ==> sent.len() == 0
            &&& stream.remote is Some ==> sent.len() == d.peers.len() + 1
            &&& forall|k: int|
                0 <= k < sent.len() - 1 ==> (#[trigger] sent[k]).stream == d.peers[k].tcp_stream
                    && sent[k].message == encode_envelope(join)
            &&& forall|k: int|
                0 <= k < sent.len() && (#[trigger] sent[k]).stream == stream ==> k == sent.len() - 1
                    && sent[k].message == encode_envelope(
                    Envelope::PeerList(snapshot(after.peers)),
                )
        }),
{
    lemma_writes_fit(d, Envelope::NewConnection(id, key), stream);
}

/// A peer that joins again under its identity, from wherever, is announced
/// with its new key to everyone who was listed, itself as it was listed
/// included. Afterwards its identity is listed once, with the new key and
/// the new connection; the address it had before, if it was another, is
/// listed no more; and the peer list it is sent names it with the new key.
pub proof fn lemma_rejoin_replaces(d: Directory, id: Seq<char>, key: Seq<u8>, stream: Connection)
    requires
        d.wf(),
        d.consistent(),
        d.has_id(id),
        stream.remote is Some,
    ensures
        ({
            let join = Envelope::NewConnection(id, key);
            let after = next_directory(d, join, stream);
            let sent = wanted(d, join, stream);
            let list = snapshot(after.peers);
            &&& !oversize(d, join, stream) ==> writes(d, join, stream) == sent
            &&& after.wf()
            &&& after.consistent()
            &&& after.peer(id) == newcomer(id, key, stream)
            &&& after.id_at(stream.remote->0) == id
            &&& d.peer(id).tcp_stream.remote != stream.remote ==> !after.has_addr(
                d.peer(id).tcp_stream.remote->0,
            )
            &&& forall|k: int|
                0 <= k < d.peers.len() ==> (#[trigger] sent[k]).stream == d.peers[k].tcp_stream
                    && sent[k].message == encode_envelope(join)
            &&& sent.last().stream == stream
            &&& sent.last().message == encode_envelope(Envelope::PeerList(list))
            &&& names(list, id)
            &&& forall|k: int|
                0 <= k < list.len() && (#[trigger] list[k]).0 == id ==> list[k].1 == key
        }),
{
    let joined = newcomer(id, key, stream);
    lemma_insert_lists(d, joined);
    lemma_insert_keeps_consistent(d, joined);
    lemma_insert_replaces(d, joined);
    lemma_join_snapshot_complete(d, id, key, stream);
}

/// After a `Disconnect`, the peer it names is listed no more, everyone else
/// still is, and what is written is one `Disconnect` to each peer that is
/// still listed, and nothing else; or nothing at all, where the `Disconnect`
/// is too long for a frame.
pub proof fn lemma_disconnect_told_once(d: Directory, id: Seq<char>, stream: Connection)
    requires
        d.wf(),
    ensures
        ({
            let leave = Envelope::Disconnect(id);
            let after = next_directory(d, leave, stream);
            let sent = wanted(d, leave, stream);
            &&& writes(d, leave, stream) == if fits_frame(leave) {
                sent
            } else {
                Seq::empty()
            }
            &&& after.wf()
            &&& !after.has_id(id)
            &&& forall|other: Seq<char>| d.has_id(other) && other != id ==> after.has_id(other)
            &&& sent.len() == after.peers.len()
            &&& forall|k: int|
                0 <= k < sent.len() ==> (#[trigger] sent[k]).stream == after.peers[k].tcp_stream
                    && sent[k].message == encode_envelope(leave)
        }),
{
    lemma_remove_by_id_unlists(d, id);
}

/// When a connection ends whose address is listed with a listed peer, that
/// peer is listed no more, and what is written is one `Disconnect`, naming
/// it, to each peer that is still listed, and nothing else; or nothing at
/// all, where that `Disconnect` is too long for a frame.
pub proof fn lemma_closed_connection_told_once(d: Directory, stream: Connection)
    requires
        d.wf(),
        stream.remote matches Some(addr) && d.has_addr(addr) && d.has_id(d.id_at(addr)),
    ensures
        ({
            let gone = d.id_at(stream.remote->0);
            let after = next_directory(d, Envelope::InternalRemoveConnection, stream);
            let sent = wanted(d, Envelope::InternalRemoveConnection, stream);
            &&& writes(d, Envelope::InternalRemoveConnection, stream) == if fits_frame(
                Envelope::Disconnect(gone),
            ) {
                sent
            } else {
                Seq::empty()
            }
            &&& after.wf()
            &&& !after.has_id(gone)
            &&& sent.len() == after.peers.len()
            &&& forall|k: int|
                0 <= k < sent.len() ==> (#[trigger] sent[k]).stream == after.peers[k].tcp_stream
                    && sent[k].message == encode_envelope(Envelope::Disconnect(gone))
        }),
{
    lemma_remove_by_ip_unlists(d, stream.remote->0);
}

/// The broker never writes the envelope that marks the end of a connection:
/// that one is made by a reader for the handler alone.
pub proof fn lemma_internal_never_written(
    d: Directory,
    envelope: Envelope,
    stream: Connection,
    k: int,
)
    requires
        0 <= k < writes(d, envelope, stream).len(),
    ensures
        writes(d, envelope, stream)[k].message != encode_envelope(
            Envelope::InternalRemoveConnection,
        ),
{
    vstd::bytes::lemma_auto_spec_u32_to_from_le_bytes();
    vstd::bytes::lemma_auto_spec_u64_to_from_le_bytes();
    let written = writes(d, envelope, stream)[k].message;
    assert(encode_envelope(Envelope::InternalRemoveConnection).len() == 4);
    assert(written.len() >= 12) by {
        match envelope {
            Envelope::NewConnection(id, key) => {
                let after = next_directory(d, envelope, stream);
                assert(written == encode_envelope(envelope) || written == encode_envelope(
                    Envelope::PeerList(snapshot(after.peers)),
                ));
            },
            Envelope::Disconnect(id) => {
                assert(written == encode_envelope(envelope));
            },
            Envelope::InternalRemoveConnection => {
                let gone = d.id_at(stream.remote->0);
                assert(written == encode_envelope(Envelope::Disconnect(gone)));
            },
            Envelope::Message(m) => {
                assert(written == encode_envelope(envelope));
            },
            Envelope::PeerList(_) => {},
        }
    }
}

} // verus!
