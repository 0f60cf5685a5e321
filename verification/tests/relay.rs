use encrypter::broker::{
    listen_to_traffic, message_broker, send_peer_list, send_to_all_peers, Handled, NetEvent,
    Outbound, Traffic,
};
use encrypter::codec::{decode, encode, DecodeError};
use encrypter::keys::KeyPair;
use encrypter::peer::{Connection, Peer, PeerSet, RemoteAddr};
use encrypter::protocol::{EncryptedMessage, Message, Protocol, MESSAGE_PACKET_SIZE};

fn stream(handle: u64) -> Connection {
    Connection { handle, remote: Some(RemoteAddr { host: 1, port: 5000 + handle as u16 }) }
}

fn join(peers: &mut PeerSet, id: &str, key: [u8; 32], handle: u64) -> Vec<Outbound> {
    let reaction = message_broker(
        peers,
        NetEvent {
            protocol_message: Protocol::NewConnection(id.to_string(), key),
            stream: stream(handle),
        },
    );
    assert_eq!(reaction.outcome, Handled::Joined);
    reaction.sends
}

fn ids(peers: &PeerSet) -> Vec<String> {
    peers.values().iter().map(|p| p.peer_id.clone()).collect()
}

fn received(sends: &[Outbound], handle: u64) -> Vec<Protocol> {
    sends
        .iter()
        .filter(|s| s.stream.handle == handle)
        .map(|s| decode(&s.message).unwrap())
        .collect()
}

#[test]
fn two_peers_join_and_exchange_a_message() {
    let alice = KeyPair::from_secret([0xA1; 32]);
    let bob = KeyPair::from_secret([0xB2; 32]);
    let a = alice.public_key();
    let b = bob.public_key();
    let mut peers = PeerSet::new();

    let sends = join(&mut peers, "alice", a, 1);
    assert_eq!(received(&sends, 1), vec![Protocol::PeerList(vec![("alice".to_string(), a)])]);
    assert_eq!(sends.len(), 1);

    let sends = join(&mut peers, "bob", b, 2);
    assert_eq!(sends.len(), 2);
    assert_eq!(received(&sends, 1), vec![Protocol::NewConnection("bob".to_string(), b)]);
    let both = Protocol::PeerList(vec![("alice".to_string(), a), ("bob".to_string(), b)]);
    assert_eq!(received(&sends, 2), vec![both]);
    // the announcement is written before the peer list
    assert_eq!(sends[0].stream, stream(1));
    assert_eq!(sends[1].stream, stream(2));

    let message =
        Message { from: "alice".to_string(), to: "bob".to_string(), content: b"hello".to_vec() };
    let sealed = EncryptedMessage::create(message, &alice.shared_secret(&b));
    let envelope = Protocol::Message(sealed.clone());
    let reaction = message_broker(
        &mut peers,
        NetEvent { protocol_message: Protocol::Message(sealed), stream: stream(1) },
    );
    assert_eq!(reaction.outcome, Handled::Forwarded);
    assert_eq!(reaction.sends.len(), 1);
    assert_eq!(reaction.sends[0].stream, stream(2));
    assert_eq!(reaction.sends[0].message, encode(&envelope));
    let at_bob = match decode(&reaction.sends[0].message).unwrap() {
        Protocol::Message(m) => m,
        other => panic!("bob got {:?}", other),
    };
    let opened = at_bob.decrypt_message(&bob.shared_secret(&a));
    assert_eq!(opened.from, "alice");
    assert_eq!(opened.to, "bob");
    assert_eq!(opened.content, b"hello\0\0\0\0\0\0\0\0\0\0\0".to_vec());
    assert_eq!(ids(&peers), vec!["alice", "bob"]);
}

#[test]
fn a_message_to_an_unknown_recipient_is_dropped() {
    let mut peers = PeerSet::new();
    join(&mut peers, "alice", [1; 32], 1);
    let message = EncryptedMessage::from_ciphertext(
        "alice".to_string(),
        "bob".to_string(),
        vec![0; 16],
    );
    let reaction = message_broker(
        &mut peers,
        NetEvent { protocol_message: Protocol::Message(message), stream: stream(1) },
    );
    assert_eq!(reaction.outcome, Handled::UnknownRecipient);
    assert!(reaction.sends.is_empty());
    assert_eq!(ids(&peers), vec!["alice"]);
    assert_eq!(peers.find_by_id("alice").unwrap().public_key, [1; 32]);
}

#[test]
fn a_closed_socket_is_told_to_those_who_stay() {
    let mut peers = PeerSet::new();
    join(&mut peers, "a", [1; 32], 1);
    join(&mut peers, "b", [2; 32], 2);
    join(&mut peers, "c", [3; 32], 3);
    let closed = match listen_to_traffic(Some(&[]), stream(2)) {
        Traffic::Closed(event) => event,
        other => panic!("{:?}", other),
    };
    let reaction = message_broker(&mut peers, closed);
    assert_eq!(reaction.outcome, Handled::ConnectionRemoved);
    assert_eq!(reaction.sends.len(), 2);
    assert_eq!(received(&reaction.sends, 1), vec![Protocol::Disconnect("b".to_string())]);
    assert_eq!(received(&reaction.sends, 3), vec![Protocol::Disconnect("b".to_string())]);
    assert!(received(&reaction.sends, 2).is_empty());
    assert_eq!(ids(&peers), vec!["a", "c"]);
    assert_eq!(peers.find_by_id("b"), None);
}

#[test]
fn a_disconnect_is_told_once_to_each_who_stays() {
    let mut peers = PeerSet::new();
    join(&mut peers, "a", [1; 32], 1);
    join(&mut peers, "b", [2; 32], 2);
    join(&mut peers, "c", [3; 32], 3);
    let reaction = message_broker(
        &mut peers,
        NetEvent { protocol_message: Protocol::Disconnect("a".to_string()), stream: stream(1) },
    );
    assert_eq!(reaction.outcome, Handled::Left);
    assert!(!reaction.oversize);
    let expected = encode(&Protocol::Disconnect("a".to_string()));
    assert_eq!(
        reaction.sends,
        vec![
            Outbound { stream: stream(2), message: expected.clone() },
            Outbound { stream: stream(3), message: expected },
        ]
    );
    assert_eq!(ids(&peers), vec!["b", "c"]);
}

#[test]
fn a_disconnect_for_an_unknown_peer_is_still_passed_on() {
    let mut peers = PeerSet::new();
    join(&mut peers, "a", [1; 32], 1);
    let reaction = message_broker(
        &mut peers,
        NetEvent { protocol_message: Protocol::Disconnect("zed".to_string()), stream: stream(9) },
    );
    assert_eq!(reaction.outcome, Handled::Left);
    assert_eq!(received(&reaction.sends, 1), vec![Protocol::Disconnect("zed".to_string())]);
    assert_eq!(ids(&peers), vec!["a"]);
}

#[test]
fn a_closed_socket_of_nobody_changes_nothing() {
    let mut peers = PeerSet::new();
    join(&mut peers, "a", [1; 32], 1);
    let reaction = message_broker(
        &mut peers,
        NetEvent { protocol_message: Protocol::InternalRemoveConnection, stream: stream(7) },
    );
    assert_eq!(reaction.outcome, Handled::NothingToRemove);
    assert!(reaction.sends.is_empty());
    let reaction = message_broker(
        &mut peers,
        NetEvent {
            protocol_message: Protocol::InternalRemoveConnection,
            stream: Connection { handle: 1, remote: None },
        },
    );
    assert_eq!(reaction.outcome, Handled::NothingToRemove);
    assert!(reaction.sends.is_empty());
    assert_eq!(ids(&peers), vec!["a"]);
}

#[test]
fn a_peer_that_rejoins_with_a_new_key_is_announced_with_it() {
    let mut peers = PeerSet::new();
    join(&mut peers, "alice", [0xA1; 32], 1);
    join(&mut peers, "bob", [0xB0; 32], 2);
    let sends = join(&mut peers, "alice", [0xA2; 32], 3);
    assert_eq!(received(&sends, 2), vec![Protocol::NewConnection("alice".to_string(), [0xA2; 32])]);
    // her first socket is still listed when the announcement goes out
    assert_eq!(received(&sends, 1), vec![Protocol::NewConnection("alice".to_string(), [0xA2; 32])]);
    assert_eq!(sends.len(), 3);
    assert_eq!(
        received(&sends, 3),
        vec![Protocol::PeerList(vec![
            ("bob".to_string(), [0xB0; 32]),
            ("alice".to_string(), [0xA2; 32]),
        ])]
    );
    assert_eq!(peers.find_by_id("alice").unwrap().tcp_stream, stream(3));
    assert_eq!(peers.find_by_id("alice").unwrap().public_key, [0xA2; 32]);
    assert_eq!(ids(&peers), vec!["bob", "alice"]);
}

#[test]
fn a_join_without_a_remote_address_is_refused() {
    let mut peers = PeerSet::new();
    join(&mut peers, "alice", [1; 32], 1);
    let reaction = message_broker(
        &mut peers,
        NetEvent {
            protocol_message: Protocol::NewConnection("bob".to_string(), [2; 32]),
            stream: Connection { handle: 2, remote: None },
        },
    );
    assert_eq!(reaction.outcome, Handled::JoinRefused);
    assert!(reaction.sends.is_empty());
    assert_eq!(ids(&peers), vec!["alice"]);
}

#[test]
fn a_peer_list_sent_to_the_broker_is_ignored() {
    let mut peers = PeerSet::new();
    join(&mut peers, "alice", [1; 32], 1);
    let reaction = message_broker(
        &mut peers,
        NetEvent {
            protocol_message: Protocol::PeerList(vec![("x".to_string(), [9; 32])]),
            stream: stream(1),
        },
    );
    assert_eq!(reaction.outcome, Handled::Ignored);
    assert!(reaction.sends.is_empty());
    assert_eq!(ids(&peers), vec!["alice"]);
}

#[test]
fn the_newcomer_is_not_sent_its_own_announcement() {
    let mut peers = PeerSet::new();
    join(&mut peers, "a", [1; 32], 1);
    join(&mut peers, "b", [2; 32], 2);
    let sends = join(&mut peers, "c", [3; 32], 3);
    let to_newcomer = received(&sends, 3);
    assert_eq!(to_newcomer.len(), 1);
    assert!(matches!(to_newcomer[0], Protocol::PeerList(_)));
    assert_eq!(received(&sends, 1), vec![Protocol::NewConnection("c".to_string(), [3; 32])]);
    assert_eq!(received(&sends, 2), vec![Protocol::NewConnection("c".to_string(), [3; 32])]);
}

#[test]
fn the_peer_list_leaves_out_who_has_left() {
    let mut peers = PeerSet::new();
    join(&mut peers, "a", [1; 32], 1);
    join(&mut peers, "b", [2; 32], 2);
    message_broker(
        &mut peers,
        NetEvent { protocol_message: Protocol::Disconnect("a".to_string()), stream: stream(1) },
    );
    let sends = join(&mut peers, "c", [3; 32], 3);
    assert_eq!(
        received(&sends, 3),
        vec![Protocol::PeerList(vec![("b".to_string(), [2; 32]), ("c".to_string(), [3; 32])])]
    );
}

#[test]
fn fan_out_helpers_write_to_everyone_in_order() {
    let mut peers = PeerSet::new();
    peers.insert(Peer::new("a".to_string(), stream(1), [1; 32])).unwrap();
    peers.insert(Peer::new("b".to_string(), stream(2), [2; 32])).unwrap();
    let note = Protocol::Disconnect("z".to_string());
    let sends = send_to_all_peers(&note, &peers);
    assert_eq!(
        sends,
        Some(vec![
            Outbound { stream: stream(1), message: encode(&note) },
            Outbound { stream: stream(2), message: encode(&note) },
        ])
    );
    assert_eq!(send_to_all_peers(&note, &PeerSet::new()), Some(vec![]));
    let long = Protocol::Disconnect("z".repeat(MESSAGE_PACKET_SIZE - 12));
    assert_eq!(send_to_all_peers(&long, &peers).unwrap().len(), 2);
    let too_long = Protocol::Disconnect("z".repeat(MESSAGE_PACKET_SIZE - 11));
    assert_eq!(send_to_all_peers(&too_long, &peers), None);
    let target = Peer::new("b".to_string(), stream(2), [2; 32]);
    let list = send_peer_list(&target, &peers).unwrap();
    assert_eq!(list.stream, stream(2));
    assert_eq!(
        decode(&list.message),
        Ok(Protocol::PeerList(vec![("a".to_string(), [1; 32]), ("b".to_string(), [2; 32])]))
    );
}

#[test]
fn the_reader_turns_reads_into_events() {
    let bytes = encode(&Protocol::Disconnect("bob".to_string()));
    match listen_to_traffic(Some(&bytes), stream(4)) {
        Traffic::Deliver(event) => {
            assert_eq!(event.protocol_message, Protocol::Disconnect("bob".to_string()));
            assert_eq!(event.stream, stream(4));
        }
        other => panic!("{:?}", other),
    }
    match listen_to_traffic(Some(&bytes[..6]), stream(4)) {
        Traffic::Malformed(e) => assert_eq!(e, DecodeError::UnexpectedEnd),
        other => panic!("{:?}", other),
    }
    match listen_to_traffic(Some(&[9, 0, 0, 0]), stream(4)) {
        Traffic::Malformed(e) => assert_eq!(e, DecodeError::UnknownVariant(9)),
        other => panic!("{:?}", other),
    }
    match listen_to_traffic(None, stream(4)) {
        Traffic::Closed(event) => {
            assert_eq!(event.protocol_message, Protocol::InternalRemoveConnection);
            assert_eq!(event.stream, stream(4));
        }
        other => panic!("{:?}", other),
    }
    assert!(matches!(listen_to_traffic(Some(&[]), stream(4)), Traffic::Closed(_)));
    let forged = encode(&Protocol::InternalRemoveConnection);
    assert!(matches!(listen_to_traffic(Some(&forged), stream(4)), Traffic::Forbidden));
}

#[test]
fn a_peer_that_joined_again_is_not_taken_out_with_its_first_socket() {
    let mut peers = PeerSet::new();
    join(&mut peers, "alice", [0xA1; 32], 1);
    join(&mut peers, "bob", [0xB0; 32], 2);
    // alice comes back over another socket
    join(&mut peers, "alice", [0xA2; 32], 3);
    // her first socket closes: its address names nobody, she stays
    let reaction = message_broker(
        &mut peers,
        NetEvent { protocol_message: Protocol::InternalRemoveConnection, stream: stream(1) },
    );
    assert_eq!(reaction.outcome, Handled::NothingToRemove);
    assert!(reaction.sends.is_empty());
    assert_eq!(ids(&peers), vec!["bob", "alice"]);
    assert_eq!(peers.find_by_id("alice").unwrap().tcp_stream, stream(3));
    // her second socket closes: she is taken out and bob is told
    let reaction = message_broker(
        &mut peers,
        NetEvent { protocol_message: Protocol::InternalRemoveConnection, stream: stream(3) },
    );
    assert_eq!(reaction.outcome, Handled::ConnectionRemoved);
    assert_eq!(received(&reaction.sends, 2), vec![Protocol::Disconnect("alice".to_string())]);
    assert_eq!(reaction.sends.len(), 1);
    assert_eq!(ids(&peers), vec!["bob"]);
}

#[test]
fn a_second_identity_over_a_listed_socket_takes_the_place_of_the_first() {
    let mut peers = PeerSet::new();
    join(&mut peers, "alice", [1; 32], 1);
    join(&mut peers, "bob", [2; 32], 2);
    let sends = join(&mut peers, "eve", [5; 32], 1);
    // the announcement goes to everyone who was listed, the list to the socket that joined
    assert_eq!(sends.len(), 3);
    assert_eq!(received(&sends, 2), vec![Protocol::NewConnection("eve".to_string(), [5; 32])]);
    assert_eq!(
        received(&sends, 1),
        vec![
            Protocol::NewConnection("eve".to_string(), [5; 32]),
            Protocol::PeerList(vec![("bob".to_string(), [2; 32]), ("eve".to_string(), [5; 32])]),
        ]
    );
    assert_eq!(ids(&peers), vec!["bob", "eve"]);
    let reaction = message_broker(
        &mut peers,
        NetEvent { protocol_message: Protocol::Disconnect("alice".to_string()), stream: stream(1) },
    );
    assert_eq!(received(&reaction.sends, 1), vec![Protocol::Disconnect("alice".to_string())]);
    assert_eq!(ids(&peers), vec!["bob", "eve"]);
}

#[test]
fn a_peer_list_that_does_not_fit_a_frame_is_not_written() {
    let mut peers = PeerSet::new();
    // each entry takes 8 + 2 + 32 bytes: seven fit behind the tag and the count, eight do not
    for i in 0..7u64 {
        let reaction = message_broker(
            &mut peers,
            NetEvent {
                protocol_message: Protocol::NewConnection(format!("n{}", i), [i as u8; 32]),
                stream: stream(i),
            },
        );
        assert!(!reaction.oversize);
        assert_eq!(reaction.sends.len(), i as usize + 1);
        assert_eq!(reaction.sends.last().unwrap().stream, stream(i));
        assert!(reaction.sends.last().unwrap().message.len() <= MESSAGE_PACKET_SIZE);
    }
    let reaction = message_broker(
        &mut peers,
        NetEvent {
            protocol_message: Protocol::NewConnection("n7".to_string(), [7; 32]),
            stream: stream(7),
        },
    );
    assert_eq!(reaction.outcome, Handled::Joined);
    assert!(reaction.oversize);
    // the others are told; the newcomer is listed but gets no list
    assert_eq!(reaction.sends.len(), 7);
    assert!(received(&reaction.sends, 7).is_empty());
    let announcement = Protocol::NewConnection("n7".to_string(), [7; 32]);
    assert_eq!(received(&reaction.sends, 0), vec![announcement]);
    assert_eq!(peers.values().len(), 8);
    assert!(send_peer_list(&Peer::new("n7".to_string(), stream(7), [7; 32]), &peers).is_none());
}

#[test]
fn an_envelope_that_does_not_fit_a_frame_is_written_to_nobody() {
    let mut peers = PeerSet::new();
    join(&mut peers, "a", [1; 32], 1);
    join(&mut peers, "b", [2; 32], 2);
    let long = "x".repeat(MESSAGE_PACKET_SIZE);
    let reaction = message_broker(
        &mut peers,
        NetEvent { protocol_message: Protocol::Disconnect(long.clone()), stream: stream(1) },
    );
    assert_eq!(reaction.outcome, Handled::Left);
    assert!(reaction.oversize);
    assert!(reaction.sends.is_empty());
    let body = vec![0u8; MESSAGE_PACKET_SIZE];
    let message = EncryptedMessage::from_ciphertext("a".to_string(), "b".to_string(), body);
    let reaction = message_broker(
        &mut peers,
        NetEvent { protocol_message: Protocol::Message(message), stream: stream(1) },
    );
    assert_eq!(reaction.outcome, Handled::Forwarded);
    assert!(reaction.oversize);
    assert!(reaction.sends.is_empty());
    let reaction = message_broker(
        &mut peers,
        NetEvent { protocol_message: Protocol::NewConnection(long, [3; 32]), stream: stream(3) },
    );
    assert_eq!(reaction.outcome, Handled::Joined);
    assert!(reaction.oversize);
    assert!(reaction.sends.is_empty());
    assert_eq!(peers.values().len(), 3);
}
