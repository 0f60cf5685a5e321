//! X25519 key pairs and the secrets that two peers share.

use rand::rngs::OsRng;
use vstd::prelude::*;
use x25519_dalek::{PublicKey, StaticSecret};

verus! {

/// The X25519 public key that belongs to a 32-byte secret.
pub uninterp spec fn x25519_public(secret: Seq<u8>) -> Seq<u8>;

/// The X25519 shared secret of a 32-byte secret and a 32-byte public key.
pub uninterp spec fn x25519_shared(secret: Seq<u8>, their_public: Seq<u8>) -> Seq<u8>;

/// `shared` is also what every owner of `their_public` derives from the
/// public key of `secret`.
pub open spec fn agreed(secret: Seq<u8>, their_public: Seq<u8>, shared: Seq<u8>) -> bool {
    forall|other: Seq<u8>|
        other.len() == 32 && #[trigger] x25519_public(other) == their_public ==> x25519_shared(
            other,
            x25519_public(secret),
        ) == shared
}

/// Calls `StaticSecret::new` on the operating system's random number
/// generator and takes the secret's bytes. Nothing is known of them.
#[verifier::external_body]
fn random_secret() -> (secret: [u8; 32]) {
    StaticSecret::new(&mut OsRng).to_bytes()
}

/// Calls `PublicKey::from` on the `StaticSecret` made of `secret`. The
/// result depends on the secret's bytes alone.
#[verifier::external_body]
fn public_key_of(secret: &[u8; 32]) -> (public: [u8; 32])
    ensures
        public@ == x25519_public(secret@),
{
    *PublicKey::from(&StaticSecret::from(*secret)).as_bytes()
}

/// Calls `StaticSecret::diffie_hellman`. The result depends on the two
/// arguments alone, and it is a key agreement: the peer who holds the secret
/// behind `their_public` gets the same bytes from our public key.
#[verifier::external_body]
fn diffie_hellman(secret: &[u8; 32], their_public: &[u8; 32]) -> (shared: [u8; 32])
    ensures
        shared@ == x25519_shared(secret@, their_public@),
        agreed(secret@, their_public@, shared@),
{
    *StaticSecret::from(*secret).diffie_hellman(&PublicKey::from(*their_public)).as_bytes()
}

/// The secret that two peers share. It keys the cipher and never leaves the
/// peer.
#[derive(Debug, Clone, Copy, PartialEq, Eq)]
pub struct SharedSecret {
    bytes: [u8; 32],
}

impl View for SharedSecret {
    type V = Seq<u8>;

    closed spec fn view(&self) -> Seq<u8> {
        self.bytes@
    }
}

impl SharedSecret {
    /// A shared secret with the given bytes.
    pub fn from_bytes(bytes: [u8; 32]) -> (res: Self)
        ensures
            res@ == bytes@,
    {
        SharedSecret { bytes }
    }

    /// The secret's 32 bytes.
    pub fn as_bytes(&self) -> (res: &[u8; 32])
        ensures
            res@ == self@,
            self@.len() == 32,
    {
        &self.bytes
    }
}

/// A peer's long-term secret and the public key that belongs to it.
pub struct KeyPair {
    secret: [u8; 32],
    public: [u8; 32],
}

impl KeyPair {
    /// The secret half.
    pub closed spec fn secret_bytes(&self) -> Seq<u8> {
        self.secret@
    }

    /// The public half.
    pub closed spec fn public_bytes(&self) -> Seq<u8> {
        self.public@
    }

    /// The public half belongs to the secret half.
    pub open spec fn wf(&self) -> bool {
        &&& self.secret_bytes().len() == 32
        &&& self.public_bytes() == x25519_public(self.secret_bytes())
    }

    #[verifier::type_invariant]
    closed spec fn inv(&self) -> bool {
        self.wf()
    }

    /// A fresh pair from the system's random number generator.
    pub fn generate() -> (pair: Self)
        ensures
            pair.wf(),
    {
        KeyPair::from_secret(random_secret())
    }

    /// The pair that belongs to `secret`.
    pub fn from_secret(secret: [u8; 32]) -> (pair: Self)
        ensures
            pair.wf(),
            pair.secret_bytes() == secret@,
    {
        let public = public_key_of(&secret);
        KeyPair { secret, public }
    }

    /// The public key, to be announced on joining.
    pub fn public_key(&self) -> (key: [u8; 32])
        ensures
            self.wf(),
            key@ == self.public_bytes(),
    {
        proof {
            use_type_invariant(self);
        }
        self.public
    }

    /// The secret shared with the peer whose public key is `their_public`.
    ///
    /// Key agreement is symmetric: whoever holds the pair behind
    /// `their_public` derives the same secret from our public key.
    pub fn shared_secret(&self, their_public: &[u8; 32]) -> (shared: SharedSecret)
        ensures
            self.wf(),
            shared@ == x25519_shared(self.secret_bytes(), their_public@),
            forall|other: KeyPair|
                other.wf() && #[trigger] other.public_bytes() == their_public@ ==> shared@
                    == x25519_shared(other.secret_bytes(), self.public_bytes()),
    {
        proof {
            use_type_invariant(self);
        }
        let bytes = diffie_hellman(&self.secret, their_public);
        SharedSecret::from_bytes(bytes)
    }
}

} // verus!
