//! What a peer keeps of a conversation with another peer.

use crate::keys::{x25519_shared, KeyPair, SharedSecret};
use vstd::prelude::*;

verus! {

/// A conversation: the other peer's public key, the secret shared with that
/// peer, and the lines exchanged so far.
#[derive(Debug)]
pub struct Chat {
    pub public_key: [u8; 32],
    pub shared_key: SharedSecret,
    pub messages: Vec<String>,
}

/// What a [`Chat`] holds.
pub ghost struct ChatView {
    pub public_key: Seq<u8>,
    pub shared_key: Seq<u8>,
    pub messages: Seq<Seq<char>>,
}

/// The lines of a log.
pub open spec fn lines_view(lines: Seq<String>) -> Seq<Seq<char>> {
    Seq::new(lines.len(), |i: int| lines[i]@)
}

impl View for Chat {
    type V = ChatView;

    open spec fn view(&self) -> ChatView {
        ChatView {
            public_key: self.public_key@,
            shared_key: self.shared_key@,
            messages: lines_view(self.messages@),
        }
    }
}

/// The conversation that `secret` starts with the owner of `public_key`.
pub open spec fn fresh_chat(secret: Seq<u8>, public_key: Seq<u8>) -> ChatView {
    ChatView {
        public_key,
        shared_key: x25519_shared(secret, public_key),
        messages: Seq::empty(),
    }
}

/// The conversation after the other peer has announced `public_key`: the
/// shared secret is the one that belongs to that key, the log is kept.
pub open spec fn rekeyed(chat: ChatView, secret: Seq<u8>, public_key: Seq<u8>) -> ChatView {
    ChatView { public_key, shared_key: x25519_shared(secret, public_key), messages: chat.messages }
}

impl Chat {
    /// Starts a conversation with the peer whose public key is `public_key`:
    /// derives the shared secret, with an empty log.
    pub fn new(keys: &KeyPair, public_key: [u8; 32]) -> (chat: Self)
        ensures
            chat@ == fresh_chat(keys.secret_bytes(), public_key@),
    {
        let chat = Chat {
            public_key,
            shared_key: keys.shared_secret(&public_key),
            messages: Vec::new(),
        };
        assert(chat@.messages =~= Seq::empty());
        chat
    }

    /// Derives the shared secret anew after the other peer has changed its
    /// public key. The log stays.
    pub fn change_key(&mut self, keys: &KeyPair, public_key: [u8; 32])
        ensures
            final(self)@ == rekeyed(old(self)@, keys.secret_bytes(), public_key@),
    {
        self.public_key = public_key;
        self.shared_key = keys.shared_secret(&public_key);
    }
}

} // verus!
