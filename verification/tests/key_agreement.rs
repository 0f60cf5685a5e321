use encrypter::keys::{KeyPair, SharedSecret};

#[test]
fn both_sides_derive_the_same_secret() {
    let alice = KeyPair::from_secret([0x11; 32]);
    let bob = KeyPair::from_secret([0x22; 32]);
    let at_alice = alice.shared_secret(&bob.public_key());
    let at_bob = bob.shared_secret(&alice.public_key());
    assert_eq!(at_alice, at_bob);
    assert_ne!(at_alice, SharedSecret::from_bytes([0; 32]));
}

#[test]
fn generated_pairs_agree_and_differ() {
    let alice = KeyPair::generate();
    let bob = KeyPair::generate();
    assert_ne!(alice.public_key(), bob.public_key());
    assert_eq!(alice.shared_secret(&bob.public_key()), bob.shared_secret(&alice.public_key()));
}

#[test]
fn public_key_matches_the_rfc_7748_vector() {
    // RFC 7748, section 6.1: Alice's key pair.
    let secret: [u8; 32] = [
        0x77, 0x07, 0x6d, 0x0a, 0x73, 0x18, 0xa5, 0x7d, 0x3c, 0x16, 0xc1, 0x72, 0x51, 0xb2, 0x66,
        0x45, 0xdf, 0x4c, 0x2f, 0x87, 0xeb, 0xc0, 0x99, 0x2a, 0xb1, 0x77, 0xfb, 0xa5, 0x1d, 0xb9,
        0x2c, 0x2a,
    ];
    let public: [u8; 32] = [
        0x85, 0x20, 0xf0, 0x09, 0x89, 0x30, 0xa7, 0x54, 0x74, 0x8b, 0x7d, 0xdc, 0xb4, 0x3e, 0xf7,
        0x5a, 0x0d, 0xbf, 0x3a, 0x0d, 0x26, 0x38, 0x1a, 0xf4, 0xeb, 0xa4, 0xa9, 0x8e, 0xaa, 0x9b,
        0x4e, 0x6a,
    ];
    let bob_public: [u8; 32] = [
        0xde, 0x9e, 0xdb, 0x7d, 0x7b, 0x7d, 0xc1, 0xb4, 0xd3, 0x5b, 0x61, 0xc2, 0xec, 0xe4, 0x35,
        0x37, 0x3f, 0x83, 0x43, 0xc8, 0x5b, 0x78, 0x67, 0x4d, 0xad, 0xfc, 0x7e, 0x14, 0x6f, 0x88,
        0x2b, 0x4f,
    ];
    let shared: [u8; 32] = [
        0x4a, 0x5d, 0x9d, 0x5b, 0xa4, 0xce, 0x2d, 0xe1, 0x72, 0x8e, 0x3b, 0xf4, 0x80, 0x35, 0x0f,
        0x25, 0xe0, 0x7e, 0x21, 0xc9, 0x47, 0xd1, 0x9e, 0x33, 0x76, 0xf0, 0x9b, 0x3c, 0x1e, 0x16,
        0x17, 0x42,
    ];
    let alice = KeyPair::from_secret(secret);
    assert_eq!(alice.public_key(), public);
    assert_eq!(alice.shared_secret(&bob_public), SharedSecret::from_bytes(shared));
}
