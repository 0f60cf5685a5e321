use encrypter::codec::{
    decode, encode, encode_frame, fits, read_frame, DecodeError, Frame,
};
use encrypter::protocol::MESSAGE_PACKET_SIZE;
use encrypter::protocol::{EncryptedMessage, Protocol};

fn key(fill: u8) -> [u8; 32] {
    [fill; 32]
}

fn sample_message() -> Protocol {
    Protocol::Message(EncryptedMessage::from_ciphertext(
        "alice".to_string(),
        "bob".to_string(),
        vec![1, 2, 3, 4, 5, 6, 7, 8, 9, 10, 11, 12, 13, 14, 15, 16],
    ))
}

#[test]
fn message_bytes_are_tag_then_fields() {
    let bytes = encode(&Protocol::Message(EncryptedMessage::from_ciphertext(
        "ab".to_string(),
        "c".to_string(),
        vec![0xAA, 0xBB, 0xCC],
    )));
    let expected: Vec<u8> = vec![
        0, 0, 0, 0, // tag
        2, 0, 0, 0, 0, 0, 0, 0, b'a', b'b', // from
        1, 0, 0, 0, 0, 0, 0, 0, b'c', // to
        3, 0, 0, 0, 0, 0, 0, 0, 0xAA, 0xBB, 0xCC, // body
    ];
    assert_eq!(bytes, expected);
}

#[test]
fn new_connection_bytes_hold_the_key_without_a_length() {
    let bytes = encode(&Protocol::NewConnection("bob".to_string(), key(7)));
    let mut expected: Vec<u8> = vec![1, 0, 0, 0, 3, 0, 0, 0, 0, 0, 0, 0, b'b', b'o', b'b'];
    expected.extend_from_slice(&[7u8; 32]);
    assert_eq!(bytes, expected);
    assert_eq!(bytes.len(), 4 + 8 + 3 + 32);
}

#[test]
fn disconnect_and_internal_bytes() {
    assert_eq!(
        encode(&Protocol::Disconnect("b".to_string())),
        vec![2, 0, 0, 0, 1, 0, 0, 0, 0, 0, 0, 0, b'b']
    );
    assert_eq!(encode(&Protocol::InternalRemoveConnection), vec![4, 0, 0, 0]);
}

#[test]
fn peer_list_bytes_count_the_entries() {
    let bytes = encode(&Protocol::PeerList(vec![
        ("a".to_string(), key(1)),
        ("bc".to_string(), key(2)),
    ]));
    let mut expected: Vec<u8> = vec![3, 0, 0, 0, 2, 0, 0, 0, 0, 0, 0, 0];
    expected.extend_from_slice(&[1, 0, 0, 0, 0, 0, 0, 0, b'a']);
    expected.extend_from_slice(&[1u8; 32]);
    expected.extend_from_slice(&[2, 0, 0, 0, 0, 0, 0, 0, b'b', b'c']);
    expected.extend_from_slice(&[2u8; 32]);
    assert_eq!(bytes, expected);
}

#[test]
fn every_variant_round_trips() {
    let all = vec![
        sample_message(),
        Protocol::NewConnection("alice".to_string(), key(9)),
        Protocol::Disconnect("alice".to_string()),
        Protocol::PeerList(vec![]),
        Protocol::PeerList(vec![("alice".to_string(), key(1)), ("bob".to_string(), key(2))]),
        Protocol::InternalRemoveConnection,
    ];
    for message in all {
        assert_eq!(decode(&encode(&message)), Ok(message));
    }
}

#[test]
fn round_trip_keeps_text_that_is_not_ascii() {
    let message = Protocol::Disconnect("zoë ☃ 𝄞".to_string());
    assert_eq!(decode(&encode(&message)), Ok(message));
}

#[test]
fn decode_ignores_what_follows_the_envelope() {
    let message = Protocol::NewConnection("alice".to_string(), key(3));
    let mut bytes = encode(&message);
    bytes.extend_from_slice(&[0xFF, 0xFF, 0xFF]);
    assert_eq!(decode(&bytes), Ok(message));
}

#[test]
fn decode_rejects_truncated_buffers() {
    let bytes = encode(&sample_message());
    for cut in 0..bytes.len() {
        assert_eq!(decode(&bytes[..cut]), Err(DecodeError::UnexpectedEnd), "cut at {}", cut);
    }
    let list = encode(&Protocol::PeerList(vec![("a".to_string(), key(1))]));
    for cut in 0..list.len() {
        assert_eq!(decode(&list[..cut]), Err(DecodeError::UnexpectedEnd), "cut at {}", cut);
    }
}

#[test]
fn decode_rejects_unknown_tags() {
    assert_eq!(decode(&[5, 0, 0, 0]), Err(DecodeError::UnknownVariant(5)));
    assert_eq!(decode(&[0, 1, 0, 0, 9, 9]), Err(DecodeError::UnknownVariant(256)));
    assert_eq!(decode(&[]), Err(DecodeError::UnexpectedEnd));
}

#[test]
fn decode_rejects_strings_that_are_not_utf8() {
    let bytes: Vec<u8> = vec![2, 0, 0, 0, 2, 0, 0, 0, 0, 0, 0, 0, 0xC3, 0x28];
    assert_eq!(decode(&bytes), Err(DecodeError::InvalidUtf8));
}

#[test]
fn decode_rejects_a_length_beyond_the_buffer() {
    let mut bytes: Vec<u8> = vec![2, 0, 0, 0];
    bytes.extend_from_slice(&u64::MAX.to_le_bytes());
    bytes.extend_from_slice(b"abc");
    assert_eq!(decode(&bytes), Err(DecodeError::UnexpectedEnd));
    let mut list: Vec<u8> = vec![3, 0, 0, 0];
    list.extend_from_slice(&u64::MAX.to_le_bytes());
    assert_eq!(decode(&list), Err(DecodeError::UnexpectedEnd));
}

#[test]
fn bytes_match_bincode_for_the_same_fields() {
    let body: Vec<u8> = vec![9, 8, 7];
    let ours = encode(&Protocol::Message(EncryptedMessage::from_ciphertext(
        "alice".to_string(),
        "bob".to_string(),
        body.clone(),
    )));
    let theirs = bincode::serialize(&(0u32, "alice", "bob", body)).unwrap();
    assert_eq!(ours, theirs);

    let ours = encode(&Protocol::NewConnection("alice".to_string(), key(5)));
    let theirs = bincode::serialize(&(1u32, "alice", key(5))).unwrap();
    assert_eq!(ours, theirs);

    let ours = encode(&Protocol::Disconnect("alice".to_string()));
    let theirs = bincode::serialize(&(2u32, "alice")).unwrap();
    assert_eq!(ours, theirs);

    let peers = vec![("alice".to_string(), key(1)), ("bob".to_string(), key(2))];
    let ours = encode(&Protocol::PeerList(peers.clone()));
    let theirs = bincode::serialize(&(3u32, peers)).unwrap();
    assert_eq!(ours, theirs);

    assert_eq!(encode(&Protocol::InternalRemoveConnection), bincode::serialize(&4u32).unwrap());
}

#[test]
fn decode_reads_what_bincode_wrote() {
    let peers = vec![("alice".to_string(), key(1)), ("bob".to_string(), key(2))];
    let bytes = bincode::serialize(&(3u32, peers.clone())).unwrap();
    assert_eq!(decode(&bytes), Ok(Protocol::PeerList(peers)));
}

#[test]
fn a_frame_holds_at_most_the_buffer() {
    let small = Protocol::NewConnection("alice".to_string(), key(1));
    assert!(fits(&small));
    assert_eq!(encode_frame(&small), encode(&small));
    let body = vec![0u8; MESSAGE_PACKET_SIZE - 4 - 8 - 1 - 8 - 1 - 8];
    let exact = Protocol::Message(EncryptedMessage::from_ciphertext(
        "a".to_string(),
        "b".to_string(),
        body.clone(),
    ));
    assert!(fits(&exact));
    assert_eq!(encode_frame(&exact).len(), MESSAGE_PACKET_SIZE);
    let mut longer = body;
    longer.push(0);
    let over = Protocol::Message(EncryptedMessage::from_ciphertext(
        "a".to_string(),
        "b".to_string(),
        longer,
    ));
    assert!(!fits(&over));
    let crowd: Vec<(String, [u8; 32])> = (0..8).map(|i| (format!("n{}", i), key(i))).collect();
    assert!(!fits(&Protocol::PeerList(crowd)));
}

#[test]
fn a_read_is_an_envelope_or_garbage_or_the_end() {
    let bytes = encode(&Protocol::Disconnect("bob".to_string()));
    assert_eq!(read_frame(Some(&bytes)), Frame::Envelope(Protocol::Disconnect("bob".to_string())));
    assert_eq!(read_frame(Some(&bytes[..5])), Frame::Malformed(DecodeError::UnexpectedEnd));
    assert_eq!(read_frame(Some(&[7, 0, 0, 0])), Frame::Malformed(DecodeError::UnknownVariant(7)));
    assert_eq!(read_frame(Some(&[])), Frame::Closed);
    assert_eq!(read_frame(None), Frame::Closed);
}

#[test]
fn decode_fails_where_bincode_fails() {
    let bytes = bincode::serialize(&(0u32, "alice", "bob", vec![1u8, 2, 3])).unwrap();
    for cut in 0..=bytes.len() {
        let theirs = bincode::deserialize::<(u32, String, String, Vec<u8>)>(&bytes[..cut]);
        assert_eq!(decode(&bytes[..cut]).is_ok(), theirs.is_ok(), "cut at {}", cut);
    }
    let peers = vec![("a".to_string(), key(1)), ("b".to_string(), key(2))];
    let list = bincode::serialize(&(3u32, peers)).unwrap();
    for cut in 0..=list.len() {
        let theirs = bincode::deserialize::<(u32, Vec<(String, [u8; 32])>)>(&list[..cut]);
        assert_eq!(decode(&list[..cut]).is_ok(), theirs.is_ok(), "cut at {}", cut);
    }
    let mut spoiled = bincode::serialize(&(2u32, "zoë")).unwrap();
    let last = spoiled.len() - 1;
    spoiled[last] = 0xC3;
    assert!(bincode::deserialize::<(u32, String)>(&spoiled).is_err());
    assert_eq!(decode(&spoiled), Err(DecodeError::InvalidUtf8));
}

/// What bincode reads from `bytes` for the variant that the tag names.
fn read_with_bincode(bytes: &[u8]) -> Option<Protocol> {
    let tag = bincode::deserialize::<u32>(bytes).ok()?;
    match tag {
        0 => {
            let (_, from, to, body) =
                bincode::deserialize::<(u32, String, String, Vec<u8>)>(bytes).ok()?;
            Some(Protocol::Message(EncryptedMessage::from_ciphertext(from, to, body)))
        }
        1 => {
            let (_, id, public_key) = bincode::deserialize::<(u32, String, [u8; 32])>(bytes).ok()?;
            Some(Protocol::NewConnection(id, public_key))
        }
        2 => {
            let (_, id) = bincode::deserialize::<(u32, String)>(bytes).ok()?;
            Some(Protocol::Disconnect(id))
        }
        3 => {
            let (_, peers) =
                bincode::deserialize::<(u32, Vec<(String, [u8; 32])>)>(bytes).ok()?;
            Some(Protocol::PeerList(peers))
        }
        4 => Some(Protocol::InternalRemoveConnection),
        _ => None,
    }
}

#[test]
fn decode_agrees_with_bincode_on_damaged_frames() {
    let samples = vec![
        sample_message(),
        Protocol::NewConnection("zoë".to_string(), key(9)),
        Protocol::Disconnect("alice".to_string()),
        Protocol::PeerList(vec![("alice".to_string(), key(1)), ("bøb".to_string(), key(2))]),
        Protocol::PeerList(vec![]),
        Protocol::InternalRemoveConnection,
    ];
    let mut seed: u64 = 0x2545_F491_4F6C_DD1D;
    let mut next = move || {
        seed ^= seed << 13;
        seed ^= seed >> 7;
        seed ^= seed << 17;
        seed
    };
    let mut agreed_on_failure = 0;
    let mut agreed_on_success = 0;
    for round in 0..4000 {
        let mut bytes = encode(&samples[round % samples.len()]);
        for _ in 0..(next() % 3) {
            let at = (next() % (bytes.len() as u64 + 1)) as usize;
            match next() % 4 {
                0 if at < bytes.len() => bytes[at] = next() as u8,
                1 if at < bytes.len() => bytes[at] ^= 1 << (next() % 8),
                2 => bytes.truncate(at),
                _ => bytes.push(next() as u8),
            }
        }
        let ours = decode(&bytes);
        let theirs = read_with_bincode(&bytes);
        assert_eq!(ours.clone().ok(), theirs, "round {}: {:?}", round, bytes);
        match ours {
            Ok(_) => agreed_on_success += 1,
            Err(_) => agreed_on_failure += 1,
        }
    }
    assert!(agreed_on_failure > 100 && agreed_on_success > 100);
}
