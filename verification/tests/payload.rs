use encrypter::cipher::{decrypt, encrypt};
use encrypter::keys::SharedSecret;
use encrypter::protocol::{EncryptedMessage, Message};

fn secret(fill: u8) -> SharedSecret {
    SharedSecret::from_bytes([fill; 32])
}

#[test]
fn aes256_known_answer() {
    // FIPS-197, appendix C.3.
    let mut key = [0u8; 32];
    for (i, byte) in key.iter_mut().enumerate() {
        *byte = i as u8;
    }
    let plain: Vec<u8> = vec![
        0x00, 0x11, 0x22, 0x33, 0x44, 0x55, 0x66, 0x77, 0x88, 0x99, 0xaa, 0xbb, 0xcc, 0xdd, 0xee,
        0xff,
    ];
    let expected: Vec<u8> = vec![
        0x8e, 0xa2, 0xb7, 0xca, 0x51, 0x67, 0x45, 0xbf, 0xea, 0xfc, 0x49, 0x90, 0x4b, 0x49, 0x60,
        0x89,
    ];
    let sealed = encrypt(&key, &plain);
    // a body of exactly one block needs no padding
    assert_eq!(sealed, expected);
    assert_eq!(decrypt(&key, &sealed), plain);
}

#[test]
fn a_body_is_padded_to_the_least_multiple_of_sixteen() {
    let key = [0x33u8; 32];
    assert_eq!(encrypt(&key, &[]), Vec::<u8>::new());
    assert_eq!(encrypt(&key, &[1]).len(), 16);
    assert_eq!(encrypt(&key, &[1; 15]).len(), 16);
    assert_eq!(encrypt(&key, &[1; 16]).len(), 16);
    assert_eq!(encrypt(&key, &[1; 17]).len(), 32);
    assert_eq!(encrypt(&key, &[1; 32]).len(), 32);
    assert_eq!(decrypt(&key, &encrypt(&key, &[1; 32])), vec![1u8; 32]);
    let mut padded = vec![7u8; 17];
    padded.resize(32, 0);
    assert_eq!(encrypt(&key, &[7; 17]), encrypt(&key, &padded));
}

#[test]
fn hello_decrypts_to_hello_and_eleven_zero_bytes() {
    let key = secret(0x42);
    let message =
        Message { from: "alice".to_string(), to: "bob".to_string(), content: b"hello".to_vec() };
    let sealed = EncryptedMessage::create(message, &key);
    assert_eq!(sealed.ciphertext().len(), 16);
    assert_ne!(&sealed.ciphertext()[..5], b"hello");
    assert_eq!(sealed.get_info(), (&"alice".to_string(), &"bob".to_string()));
    let opened = sealed.decrypt_message(&key);
    assert_eq!(opened.from, "alice");
    assert_eq!(opened.to, "bob");
    assert_eq!(opened.content, b"hello\0\0\0\0\0\0\0\0\0\0\0".to_vec());
}

#[test]
fn round_trip_has_the_body_as_prefix_for_every_length() {
    let key = [0x17u8; 32];
    for len in 0..70usize {
        let plain: Vec<u8> = (0..len).map(|i| (i * 7 + 1) as u8).collect();
        let sealed = encrypt(&key, &plain);
        assert_eq!(sealed.len(), (len + 15) / 16 * 16);
        let opened = decrypt(&key, &sealed);
        assert_eq!(opened.len(), sealed.len());
        assert_eq!(&opened[..len], &plain[..]);
        assert!(opened[len..].iter().all(|b| *b == 0));
    }
}

#[test]
fn equal_blocks_encrypt_to_equal_blocks() {
    let key = [3u8; 32];
    let plain = vec![0xABu8; 32];
    let sealed = encrypt(&key, &plain);
    assert_eq!(sealed.len(), 32);
    assert_eq!(&sealed[..16], &sealed[16..]);
    assert_ne!(&sealed[..16], &encrypt(&key, &[0xAC; 16])[..]);
}

#[test]
fn decrypt_leaves_a_trailing_partial_block_alone() {
    let key = [9u8; 32];
    let mut data = encrypt(&key, b"sixteen byte msg");
    data.truncate(16);
    data.extend_from_slice(&[1, 2, 3]);
    let opened = decrypt(&key, &data);
    assert_eq!(&opened[..16], b"sixteen byte msg");
    assert_eq!(&opened[16..], &[1, 2, 3]);
    assert_eq!(decrypt(&key, &[5, 6, 7]), vec![5, 6, 7]);
    assert_eq!(decrypt(&key, &[]), Vec::<u8>::new());
}

#[test]
fn another_key_does_not_decrypt() {
    let sealed = encrypt(&[1u8; 32], b"hello");
    let opened = decrypt(&[2u8; 32], &sealed);
    assert_ne!(&opened[..5], b"hello");
}
