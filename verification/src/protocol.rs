//! The envelopes that travel between peers and the broker.

use crate::cipher::{decrypt, decrypt_blocks, encrypt, encrypt_blocks, padded, padding_len};
use crate::keys::SharedSecret;
use vstd::prelude::*;

verus! {

/// The identity prompt takes another character while the identity is
/// shorter than this many bytes.
pub const ID_MAX_SIZE: usize = 24;

/// The message prompt takes another character while the draft is shorter
/// than this many bytes. A draft that has stopped growing, padded and
/// encrypted, fits one frame together with two identities of `ID_MAX_SIZE`
/// bytes.
pub const MESSAGE_MAX_SIZE: usize = 232;

/// Capacity of the framing buffer: room for two identities of 32 bytes and a
/// body of 256. One read recovers at most one envelope of this size.
pub const MESSAGE_PACKET_SIZE: usize = 320;

/// A chat message: sender, recipient and body.
#[derive(Debug, PartialEq, Eq)]
pub struct Message {
    pub from: String,
    pub to: String,
    pub content: Vec<u8>,
}

/// What a [`Message`] holds.
pub ghost struct MessageView {
    pub from: Seq<char>,
    pub to: Seq<char>,
    pub content: Seq<u8>,
}

impl View for Message {
    type V = MessageView;

    open spec fn view(&self) -> MessageView {
        MessageView { from: self.from@, to: self.to@, content: self.content@ }
    }
}

impl Clone for Message {
    fn clone(&self) -> (res: Self)
        ensures
            res@ == self@,
    {
        Message { from: self.from.clone(), to: self.to.clone(), content: self.content.clone() }
    }
}

/// A message whose body is ciphertext. Sender and recipient stay in the clear,
/// so that the broker can route it.
#[derive(Debug, PartialEq, Eq)]
pub struct EncryptedMessage(Message);

impl View for EncryptedMessage {
    type V = MessageView;

    closed spec fn view(&self) -> MessageView {
        self.0@
    }
}

impl Clone for EncryptedMessage {
    fn clone(&self) -> (res: Self)
        ensures
            res@ == self@,
    {
        EncryptedMessage(self.0.clone())
    }
}

impl EncryptedMessage {
    /// Encrypts the body of `message` under `shared_key`: the body is padded
    /// with zero bytes up to a multiple of 16 and encrypted block by block, so
    /// that the new body is fewer than 16 bytes longer, and no longer where
    /// the body is a multiple of 16 already. Sender and recipient are kept as
    /// they are.
    ///
    /// Decrypting the new body under the same key gives the padded body, which
    /// starts with the body of `message`.
    pub fn create(message: Message, shared_key: &SharedSecret) -> (res: Self)
        ensures
            res@.from == message@.from,
            res@.to == message@.to,
            res@.content == encrypt_blocks(shared_key@, padded(message@.content)),
            decrypt_blocks(shared_key@, res@.content) == padded(message@.content),
            decrypt_blocks(shared_key@, res@.content).subrange(0, message@.content.len() as int)
                == message@.content,
            res@.content.len() == message@.content.len() + padding_len(message@.content.len()),
            res@.content.len() % 16 == 0,
            message@.content.len() <= res@.content.len() < message@.content.len() + 16,
    {
        proof {
            crate::cipher::lemma_padded(message@.content);
        }
        let content = encrypt(shared_key.as_bytes(), message.content.as_slice());
        EncryptedMessage(Message { from: message.from, to: message.to, content })
    }

    /// Decrypts the body under `shared_key`, block by block. The padding is
    /// not taken off: nothing says where it starts.
    pub fn decrypt_message(self, shared_key: &SharedSecret) -> (res: Message)
        ensures
            res@.from == self@.from,
            res@.to == self@.to,
            res@.content == decrypt_blocks(shared_key@, self@.content),
    {
        let content = decrypt(shared_key.as_bytes(), self.0.content.as_slice());
        Message { from: self.0.from, to: self.0.to, content }
    }

    /// Wraps a sender, a recipient and a ciphertext as they came off the wire.
    pub fn from_ciphertext(from: String, to: String, ciphertext: Vec<u8>) -> (res: Self)
        ensures
            res@ == (MessageView { from: from@, to: to@, content: ciphertext@ }),
    {
        EncryptedMessage(Message { from, to, content: ciphertext })
    }

    /// Sender and recipient.
    pub fn get_info(&self) -> (res: (&String, &String))
        ensures
            res.0@ == self@.from,
            res.1@ == self@.to,
    {
        (&self.0.from, &self.0.to)
    }

    /// The encrypted body.
    pub fn ciphertext(&self) -> (res: &Vec<u8>)
        ensures
            res@ == self@.content,
    {
        &self.0.content
    }
}

/// One wire-level message.
#[derive(Debug, PartialEq, Eq)]
pub enum Protocol {
    /// Ciphertext from one peer to another.
    Message(EncryptedMessage),
    /// A peer announces itself, or the broker announces a peer.
    NewConnection(String, [u8; 32]),
    /// A peer has left.
    Disconnect(String),
    /// Everyone in the directory, sent to a peer that has just joined.
    PeerList(Vec<(String, [u8; 32])>),
    /// A connection has ended. Made by the reader of that connection and
    /// never sent.
    InternalRemoveConnection,
}

/// What a [`Protocol`] value holds.
pub ghost enum Envelope {
    Message(MessageView),
    NewConnection(Seq<char>, Seq<u8>),
    Disconnect(Seq<char>),
    PeerList(Seq<(Seq<char>, Seq<u8>)>),
    InternalRemoveConnection,
}

/// Identity and key of an entry of a peer list.
pub open spec fn entry_view(entry: (String, [u8; 32])) -> (Seq<char>, Seq<u8>) {
    (entry.0@, entry.1@)
}

/// The entries of a peer list.
pub open spec fn entries_view(entries: Seq<(String, [u8; 32])>) -> Seq<(Seq<char>, Seq<u8>)> {
    Seq::new(entries.len(), |i: int| entry_view(entries[i]))
}

impl View for Protocol {
    type V = Envelope;

    open spec fn view(&self) -> Envelope {
        match self {
            Protocol::Message(m) => Envelope::Message(m@),
            Protocol::NewConnection(id, key) => Envelope::NewConnection(id@, key@),
            Protocol::Disconnect(id) => Envelope::Disconnect(id@),
            Protocol::PeerList(entries) => Envelope::PeerList(entries_view(entries@)),
            Protocol::InternalRemoveConnection => Envelope::InternalRemoveConnection,
        }
    }
}

/// What an envelope that may be missing holds.
pub open spec fn option_view(message: Option<Protocol>) -> Option<Envelope> {
    match message {
        Some(m) => Some(m@),
        None => None,
    }
}

/// Copies a peer list.
fn clone_entries(entries: &Vec<(String, [u8; 32])>) -> (res: Vec<(String, [u8; 32])>)
    ensures
        entries_view(res@) == entries_view(entries@),
{
    let mut res: Vec<(String, [u8; 32])> = Vec::new();
    let mut i: usize = 0;
    while i < entries.len()
        invariant
            i <= entries.len(),
            res.len() == i,
            forall|j: int| 0 <= j < i ==> entry_view(res[j]) == entry_view(#[trigger] entries[j]),
        decreases entries.len() - i,
    {
        res.push((entries[i].0.clone(), entries[i].1));
        i += 1;
    }
    assert(entries_view(res@) =~= entries_view(entries@));
    res
}

impl Clone for Protocol {
    fn clone(&self) -> (res: Self)
        ensures
            res@ == self@,
    {
        match self {
            Protocol::Message(m) => Protocol::Message(m.clone()),
            Protocol::NewConnection(id, key) => Protocol::NewConnection(id.clone(), *key),
            Protocol::Disconnect(id) => Protocol::Disconnect(id.clone()),
            Protocol::PeerList(entries) => Protocol::PeerList(clone_entries(entries)),
            Protocol::InternalRemoveConnection => Protocol::InternalRemoveConnection,
        }
    }
}

} // verus!
