//! The peer's session: whom it knows, what was said, and what it is about to
//! say.
//!
//! A chat with another peer begins when the broker names that peer, in the
//! peer list or in an announcement. It gets a new key when the peer is
//! announced again, and it ends when the broker says that the peer has left.

use crate::chat::{fresh_chat, rekeyed, Chat, ChatView};
use crate::cipher::decrypt_blocks;
use crate::codec::encode_envelope;
use crate::keys::{x25519_shared, KeyPair};
use crate::network::ServerConnection;
use crate::protocol::{option_view, Envelope, MessageView, Protocol};
use crate::text::{chat_line, render_line, text_from_utf8_lossy, utf8_lossy};
use vstd::prelude::*;
use vstd::utf8::{decode_utf8, valid_utf8};

verus! {

/// The state of a session.
pub struct ChatState {
    /// Which chat is open, as an index into `chats`.
    pub current_chat_index: Option<usize>,
    /// The chats, each under the identity of the other peer.
    pub chats: Vec<(String, Chat)>,
    /// What has been typed and not yet sent.
    pub message_draft: String,
    /// The queue to the broker.
    pub connection: Option<ServerConnection>,
    /// This peer's identity.
    pub id: String,
    /// This peer's key pair.
    pub keys: KeyPair,
}

/// What a [`ChatState`] holds.
pub ghost struct ChatStateView {
    pub current_chat_index: Option<usize>,
    pub chats: Seq<(Seq<char>, ChatView)>,
    pub message_draft: Seq<char>,
    pub queued: Option<Seq<Envelope>>,
    pub id: Seq<char>,
    pub secret: Seq<u8>,
}

/// The chats of a vector, in its order.
pub open spec fn chats_view(chats: Seq<(String, Chat)>) -> Seq<(Seq<char>, ChatView)> {
    Seq::new(chats.len(), |i: int| (chats[i].0@, chats[i].1@))
}

/// What waits in a connection's queue.
pub open spec fn queue_view(connection: Option<ServerConnection>) -> Option<Seq<Envelope>> {
    match connection {
        Some(c) => Some(c.queued()),
        None => None,
    }
}

impl View for ChatState {
    type V = ChatStateView;

    open spec fn view(&self) -> ChatStateView {
        ChatStateView {
            current_chat_index: self.current_chat_index,
            chats: chats_view(self.chats@),
            message_draft: self.message_draft@,
            queued: queue_view(self.connection),
            id: self.id@,
            secret: self.keys.secret_bytes(),
        }
    }
}

/// Chat `i` is the first one with the peer `id`.
pub open spec fn is_first_chat(chats: Seq<(Seq<char>, ChatView)>, id: Seq<char>, i: int) -> bool {
    &&& 0 <= i < chats.len()
    &&& chats[i].0 == id
    &&& forall|j: int| 0 <= j < i ==> (#[trigger] chats[j]).0 != id
}

/// There is a chat with the peer `id`.
pub open spec fn has_chat(chats: Seq<(Seq<char>, ChatView)>, id: Seq<char>) -> bool {
    exists|i: int| is_first_chat(chats, id, i)
}

/// Where the first chat with the peer `id` stands.
pub open spec fn chat_index(chats: Seq<(Seq<char>, ChatView)>, id: Seq<char>) -> int {
    choose|i: int| is_first_chat(chats, id, i)
}

/// A new chat for every entry of a peer list but this peer's own.
pub open spec fn chats_listed(
    entries: Seq<(Seq<char>, Seq<u8>)>,
    me: Seq<char>,
    secret: Seq<u8>,
) -> Seq<(Seq<char>, ChatView)>
    decreases entries.len(),
{
    if entries.len() == 0 {
        Seq::empty()
    } else {
        let front = chats_listed(entries.drop_last(), me, secret);
        if entries.last().0 == me {
            front
        } else {
            front.push((entries.last().0, fresh_chat(secret, entries.last().1)))
        }
    }
}

/// What the body of a message decrypts to under the key of the first chat
/// with its sender.
pub open spec fn opened(s: ChatStateView, m: MessageView) -> Seq<u8> {
    decrypt_blocks(s.chats[chat_index(s.chats, m.from)].1.shared_key, m.content)
}

/// Where the envelope that takes `s` to `after` is a message to be logged,
/// and its body decrypts to well-formed UTF-8, the line that is logged is the
/// sender, a colon, and the text that the body decrypts to.
pub open spec fn logged_as_text(
    s: ChatStateView,
    after: ChatStateView,
    envelope: Envelope,
) -> bool {
    match envelope {
        Envelope::Message(m) => has_chat(s.chats, m.from) && valid_utf8(opened(s, m))
            ==> after.chats[chat_index(s.chats, m.from)].1.messages.last() == chat_line(
            m.from,
            decode_utf8(opened(s, m)),
        ),
        _ => true,
    }
}

/// The chat after a message with the given sender and ciphertext has come
/// in: the log has one more line, the sender and what the body decrypts to.
pub open spec fn with_line(chat: ChatView, from: Seq<char>, ciphertext: Seq<u8>) -> ChatView {
    ChatView {
        messages: chat.messages.push(
            chat_line(from, utf8_lossy(decrypt_blocks(chat.shared_key, ciphertext))),
        ),
        ..chat
    }
}

/// Which chat is open after chat `gone` has been taken out: none if it was
/// the open one; otherwise the same chat as before, which stands one place
/// further to the front if it came after the one taken out.
pub open spec fn selection_without(current: Option<usize>, gone: int) -> Option<usize> {
    match current {
        Some(open) => if open == gone {
            None
        } else if open > gone {
            Some((open - 1) as usize)
        } else {
            current
        },
        None => None,
    }
}

/// The session after an envelope from the broker.
pub open spec fn after_envelope(s: ChatStateView, envelope: Envelope) -> ChatStateView {
    match envelope {
        Envelope::Message(m) => if has_chat(s.chats, m.from) {
            let i = chat_index(s.chats, m.from);
            ChatStateView {
                chats: s.chats.update(
                    i,
                    (s.chats[i].0, with_line(s.chats[i].1, m.from, m.content)),
                ),
                ..s
            }
        } else {
            s
        },
        Envelope::PeerList(entries) => ChatStateView {
            current_chat_index: None,
            chats: chats_listed(entries, s.id, s.secret),
            ..s
        },
        Envelope::Disconnect(id) => if has_chat(s.chats, id) {
            let i = chat_index(s.chats, id);
            ChatStateView {
                current_chat_index: selection_without(s.current_chat_index, i),
                chats: s.chats.remove(i),
                ..s
            }
        } else {
            s
        },
        Envelope::NewConnection(id, key) => if has_chat(s.chats, id) {
            let i = chat_index(s.chats, id);
            ChatStateView {
                chats: s.chats.update(i, (s.chats[i].0, rekeyed(s.chats[i].1, s.secret, key))),
                ..s
            }
        } else {
            ChatStateView { chats: s.chats.push((id, fresh_chat(s.secret, key))), ..s }
        },
        Envelope::InternalRemoveConnection => s,
    }
}

/// What the session made of an envelope from the broker.
#[derive(Clone, Copy, Debug, PartialEq, Eq, Structural)]
pub enum Received {
    /// A message was decrypted into its sender's log.
    MessageLogged,
    /// A message came from a peer with whom there is no chat, so that there
    /// is no key for it. It was dropped.
    MissingKey,
    /// The chats were replaced by those of a peer list.
    PeerListTaken,
    /// The chat with a peer that left was dropped.
    ChatEnded,
    /// A peer left with whom there was no chat.
    UnknownPeerLeft,
    /// A chat was started with a peer that was announced.
    ChatStarted,
    /// The chat with a peer that was announced again got a new key.
    ChatRekeyed,
    /// The envelope is none that a peer has any use for.
    Ignored,
}

/// What the session makes of an envelope from the broker.
pub open spec fn made_of(s: ChatStateView, envelope: Envelope) -> Received {
    match envelope {
        Envelope::Message(m) => if has_chat(s.chats, m.from) {
            Received::MessageLogged
        } else {
            Received::MissingKey
        },
        Envelope::PeerList(_) => Received::PeerListTaken,
        Envelope::Disconnect(id) => if has_chat(s.chats, id) {
            Received::ChatEnded
        } else {
            Received::UnknownPeerLeft
        },
        Envelope::NewConnection(id, _) => if has_chat(s.chats, id) {
            Received::ChatRekeyed
        } else {
            Received::ChatStarted
        },
        Envelope::InternalRemoveConnection => Received::Ignored,
    }
}

/// What one tick of the session gives back.
#[derive(Debug, PartialEq, Eq)]
pub struct Tick {
    /// The frame to write to the broker, if the queue held an envelope.
    pub frame: Option<Vec<u8>>,
    /// What the session made of the envelope that came in, if one did and
    /// the session has a connection.
    pub received: Option<Received>,
}

/// What a session that starts from `s` makes, in one tick, of `incoming`.
pub open spec fn received_in_tick(s: ChatStateView, incoming: Option<Envelope>) -> Option<
    Received,
> {
    match (s.queued, incoming) {
        (Some(_), Some(envelope)) => Some(made_of(s, envelope)),
        _ => None,
    }
}

/// The session after one tick: the first envelope has left the queue, and
/// what came in from the broker has been taken in. Without a connection
/// nothing happens.
pub open spec fn after_tick(s: ChatStateView, incoming: Option<Envelope>) -> ChatStateView {
    match s.queued {
        None => s,
        Some(queue) => {
            let sent = ChatStateView {
                queued: Some(
                    if queue.len() > 0 {
                        queue.drop_first()
                    } else {
                        queue
                    },
                ),
                ..s
            };
            match incoming {
                Some(envelope) => after_envelope(sent, envelope),
                None => sent,
            }
        },
    }
}

/// What one tick writes to the broker: the first envelope in the queue.
pub open spec fn frame_of_tick(s: ChatStateView) -> Option<Seq<u8>> {
    match s.queued {
        Some(queue) if queue.len() > 0 => Some(encode_envelope(queue[0])),
        _ => None,
    }
}

/// Every chat's key is the secret that this peer shares with the public key
/// that the chat holds.
pub open spec fn keys_derived(s: ChatStateView) -> bool {
    forall|i: int|
        0 <= i < s.chats.len() ==> (#[trigger] s.chats[i]).1.shared_key == x25519_shared(
            s.secret,
            s.chats[i].1.public_key,
        )
}

/// The chats made of a peer list hold keys derived from the listed public
/// keys, and there is one for every listed identity but this peer's own.
pub proof fn lemma_chats_listed(entries: Seq<(Seq<char>, Seq<u8>)>, me: Seq<char>, secret: Seq<u8>)
    ensures
        forall|i: int|
            0 <= i < chats_listed(entries, me, secret).len() ==> (#[trigger] chats_listed(
                entries,
                me,
                secret,
            )[i]).1.shared_key == x25519_shared(
                secret,
                chats_listed(entries, me, secret)[i].1.public_key,
            ),
        forall|i: int|
            0 <= i < chats_listed(entries, me, secret).len() ==> (#[trigger] chats_listed(
                entries,
                me,
                secret,
            )[i]).0 != me,
        forall|k: int|
            0 <= k < entries.len() && (#[trigger] entries[k]).0 != me ==> has_chat(
                chats_listed(entries, me, secret),
                entries[k].0,
            ),
    decreases entries.len(),
{
    if entries.len() > 0 {
        let front = entries.drop_last();
        lemma_chats_listed(front, me, secret);
        let before = chats_listed(front, me, secret);
        let all = chats_listed(entries, me, secret);
        assert forall|k: int| 0 <= k < entries.len() && (#[trigger] entries[k]).0
            != me implies has_chat(all, entries[k].0) by {
            if k < front.len() {
                assert(front[k] == entries[k]);
                let i = chat_index(before, entries[k].0);
                assert(is_first_chat(before, entries[k].0, i));
                assert(all[i] == before[i]);
                lemma_listed_has_chat(all, entries[k].0, i);
            } else {
                lemma_listed_has_chat(all, entries[k].0, all.len() - 1);
            }
        }
    }
}

/// Where a chat with `id` stands anywhere, there is a first one.
proof fn lemma_listed_has_chat(chats: Seq<(Seq<char>, ChatView)>, id: Seq<char>, at: int)
    requires
        0 <= at < chats.len(),
        chats[at].0 == id,
    ensures
        has_chat(chats, id),
    decreases at,
{
    if exists|j: int| 0 <= j < at && (#[trigger] chats[j]).0 == id {
        let j = choose|j: int| 0 <= j < at && (#[trigger] chats[j]).0 == id;
        lemma_listed_has_chat(chats, id, j);
    } else {
        assert(is_first_chat(chats, id, at));
    }
}

/// No envelope from the broker leaves a chat with a key that does not belong
/// to the public key it holds.
pub proof fn lemma_envelope_keeps_keys_derived(s: ChatStateView, envelope: Envelope)
    requires
        keys_derived(s),
    ensures
        keys_derived(after_envelope(s, envelope)),
{
    let after = after_envelope(s, envelope);
    match envelope {
        Envelope::Message(m) => {
            if has_chat(s.chats, m.from) {
                let i = chat_index(s.chats, m.from);
                assert forall|k: int| 0 <= k < after.chats.len() implies (
                #[trigger] after.chats[k]).1.shared_key == x25519_shared(
                    after.secret,
                    after.chats[k].1.public_key,
                ) by {
                    assert(s.chats[k].1.shared_key == x25519_shared(
                        s.secret,
                        s.chats[k].1.public_key,
                    ));
                }
            }
        },
        Envelope::PeerList(entries) => {
            lemma_chats_listed(entries, s.id, s.secret);
        },
        Envelope::Disconnect(id) => {
            if has_chat(s.chats, id) {
                let i = chat_index(s.chats, id);
                assert forall|k: int| 0 <= k < after.chats.len() implies (
                #[trigger] after.chats[k]).1.shared_key == x25519_shared(
                    after.secret,
                    after.chats[k].1.public_key,
                ) by {
                    let k0 = if k < i { k } else { k + 1 };
                    assert(after.chats[k] == s.chats[k0]);
                }
            }
        },
        Envelope::NewConnection(id, key) => {
            assert forall|k: int| 0 <= k < after.chats.len() implies (
            #[trigger] after.chats[k]).1.shared_key == x25519_shared(
                after.secret,
                after.chats[k].1.public_key,
            ) by {
                if k < s.chats.len() {
                    assert(s.chats[k].1.shared_key == x25519_shared(
                        s.secret,
                        s.chats[k].1.public_key,
                    ));
                }
            }
        },
        Envelope::InternalRemoveConnection => {},
    }
}

/// Only one chat can be the first with a given peer.
proof fn lemma_first_chat_is_unique(chats: Seq<(Seq<char>, ChatView)>, id: Seq<char>, i: int)
    requires
        is_first_chat(chats, id, i),
    ensures
        has_chat(chats, id),
        chat_index(chats, id) == i,
{
    let j = chat_index(chats, id);
    assert(is_first_chat(chats, id, j));
    if j < i {
        assert(chats[j].0 != id);
    }
    if i < j {
        assert(chats[i].0 != id);
    }
}

/// After an announcement there is a chat with the announced peer. Its key
/// belongs to the announced public key; its log is the one that the chat
/// with that peer had before, or empty where there was none.
pub proof fn lemma_announcement_rekeys(s: ChatStateView, id: Seq<char>, key: Seq<u8>)
    ensures
        ({
            let after = after_envelope(s, Envelope::NewConnection(id, key));
            &&& has_chat(after.chats, id)
            &&& after.chats[chat_index(after.chats, id)].1 == if has_chat(s.chats, id) {
                rekeyed(s.chats[chat_index(s.chats, id)].1, s.secret, key)
            } else {
                fresh_chat(s.secret, key)
            }
        }),
{
    let after = after_envelope(s, Envelope::NewConnection(id, key));
    if has_chat(s.chats, id) {
        let i = chat_index(s.chats, id);
        assert(is_first_chat(s.chats, id, i));
        assert forall|j: int| 0 <= j < i implies (#[trigger] after.chats[j]).0 != id by {
            assert(s.chats[j].0 != id);
        }
        lemma_first_chat_is_unique(after.chats, id, i);
    } else {
        let i = s.chats.len() as int;
        assert forall|j: int| 0 <= j < i implies (#[trigger] after.chats[j]).0 != id by {
            if s.chats[j].0 == id {
                lemma_listed_has_chat(s.chats, id, j);
            }
        }
        lemma_first_chat_is_unique(after.chats, id, i);
    }
}

/// The open chat, if there is one, is one of the chats.
pub open spec fn selection_valid(s: ChatStateView) -> bool {
    s.current_chat_index matches Some(open) ==> open < s.chats.len()
}

/// The chat that is open in `after`, if one is, is with the peer with whom
/// the open chat of `s` is.
pub open spec fn same_peer_open(s: ChatStateView, after: ChatStateView) -> bool {
    match (s.current_chat_index, after.current_chat_index) {
        (Some(open), Some(still)) => after.chats[still as int].0 == s.chats[open as int].0,
        (None, Some(_)) => false,
        _ => true,
    }
}

/// No envelope from the broker leaves the selection beyond the chats, and
/// none moves it to a chat with another peer: the chat that is open
/// afterwards is with the peer with whom the open chat was before.
pub proof fn lemma_envelope_keeps_selection(s: ChatStateView, envelope: Envelope)
    requires
        selection_valid(s),
    ensures
        selection_valid(after_envelope(s, envelope)),
        same_peer_open(s, after_envelope(s, envelope)),
{
    let after = after_envelope(s, envelope);
    match envelope {
        Envelope::Disconnect(id) => {
            if has_chat(s.chats, id) {
                let i = chat_index(s.chats, id);
                assert(is_first_chat(s.chats, id, i));
                if s.current_chat_index is Some && s.current_chat_index->0 != i {
                    let open = s.current_chat_index->0 as int;
                    let still = after.current_chat_index->0 as int;
                    assert(after.chats[still] == s.chats[open]);
                }
            }
        },
        Envelope::Message(m) => {
            if has_chat(s.chats, m.from) {
                assert(is_first_chat(s.chats, m.from, chat_index(s.chats, m.from)));
            }
        },
        Envelope::NewConnection(id, key) => {
            if has_chat(s.chats, id) {
                assert(is_first_chat(s.chats, id, chat_index(s.chats, id)));
            }
        },
        _ => {},
    }
}

/// No two chats are with the same peer.
pub open spec fn distinct_chats(chats: Seq<(Seq<char>, ChatView)>) -> bool {
    forall|i: int, j: int|
        0 <= i < chats.len() && 0 <= j < chats.len() && i != j ==> (#[trigger] chats[i]).0 != (
        #[trigger] chats[j]).0
}

/// Going from `s` to `after`, the open chat was closed if it was the one
/// with `id`, and any other chat that was open is still the open one.
pub open spec fn closes_only_its_own(
    s: ChatStateView,
    after: ChatStateView,
    id: Seq<char>,
) -> bool {
    match s.current_chat_index {
        Some(open) => if open < s.chats.len() {
            if s.chats[open as int].0 == id {
                after.current_chat_index is None
            } else {
                match after.current_chat_index {
                    Some(still) => still < after.chats.len() && after.chats[still as int]
                        == s.chats[open as int],
                    None => false,
                }
            }
        } else {
            true
        },
        None => after.current_chat_index is None,
    }
}

/// Where no two chats are with the same peer, a `Disconnect` leaves no chat
/// with the peer it names, keeps every other chat as it was, and closes the
/// open chat if and only if it was the one with that peer: any other chat
/// that was open is still the open one.
pub proof fn lemma_disconnect_ends_chat(s: ChatStateView, id: Seq<char>)
    requires
        distinct_chats(s.chats),
    ensures
        ({
            let after = after_envelope(s, Envelope::Disconnect(id));
            &&& !has_chat(after.chats, id)
            &&& distinct_chats(after.chats)
            &&& forall|k: int|
                0 <= k < s.chats.len() && (#[trigger] s.chats[k]).0 != id ==> after.chats.contains(
                    s.chats[k],
                )
            &&& closes_only_its_own(s, after, id)
        }),
{
    let after = after_envelope(s, Envelope::Disconnect(id));
    if has_chat(s.chats, id) {
        let i = chat_index(s.chats, id);
        assert(is_first_chat(s.chats, id, i));
        assert forall|k: int| 0 <= k < after.chats.len() implies (#[trigger] after.chats[k]).0
            != id by {
            let k0 = if k < i { k } else { k + 1 };
            assert(after.chats[k] == s.chats[k0]);
        }
        assert forall|a: int, b: int|
            0 <= a < after.chats.len() && 0 <= b < after.chats.len() && a != b implies (
        #[trigger] after.chats[a]).0 != (#[trigger] after.chats[b]).0 by {
            let a0 = if a < i { a } else { a + 1 };
            let b0 = if b < i { b } else { b + 1 };
            assert(after.chats[a] == s.chats[a0]);
            assert(after.chats[b] == s.chats[b0]);
        }
        assert forall|k: int| 0 <= k < s.chats.len() && (#[trigger] s.chats[k]).0
            != id implies after.chats.contains(s.chats[k]) by {
            let k1 = if k < i { k } else { k - 1 };
            assert(after.chats[k1] == s.chats[k]);
        }
        if s.current_chat_index is Some && s.current_chat_index->0 < s.chats.len() {
            let open = s.current_chat_index->0 as int;
            if open != i {
                assert(s.chats[open].0 != s.chats[i].0);
                let still = if open > i { open - 1 } else { open };
                assert(after.chats[still] == s.chats[open]);
            }
        }
    } else {
        assert forall|k: int| 0 <= k < s.chats.len() && (#[trigger] s.chats[k]).0
            != id implies after.chats.contains(s.chats[k]) by {
            assert(after.chats[k] == s.chats[k]);
        }
        if s.current_chat_index is Some && s.current_chat_index->0 < s.chats.len() {
            let open = s.current_chat_index->0 as int;
            if s.chats[open].0 == id {
                lemma_listed_has_chat(s.chats, id, open);
            }
        }
    }
    assert(!has_chat(after.chats, id)) by {
        if has_chat(after.chats, id) {
            let k = chat_index(after.chats, id);
            assert(is_first_chat(after.chats, id, k));
            if !has_chat(s.chats, id) {
                lemma_listed_has_chat(s.chats, id, k);
            }
        }
    }
}

/// A session at its start: no chat is known, none is open, nothing is typed.
pub open spec fn fresh_session(
    id: Seq<char>,
    queue: Seq<Envelope>,
    secret: Seq<u8>,
) -> ChatStateView {
    ChatStateView {
        current_chat_index: None,
        chats: Seq::empty(),
        message_draft: Seq::empty(),
        queued: Some(queue),
        id,
        secret,
    }
}

/// `tick` is what one tick of a session that starts from `s` gives back
/// when `incoming` has come in.
pub open spec fn ticked(tick: Tick, s: ChatStateView, incoming: Option<Envelope>) -> bool {
    &&& match tick.frame {
        Some(bytes) => frame_of_tick(s) == Some(bytes@),
        None => frame_of_tick(s) is None,
    }
    &&& tick.received == received_in_tick(s, incoming)
}

/// Where the first chat with the peer `id` stands.
fn find_chat(chats: &Vec<(String, Chat)>, id: &String) -> (res: Option<usize>)
    ensures
        res matches Some(i) ==> is_first_chat(chats_view(chats@), id@, i as int) && chat_index(
            chats_view(chats@),
            id@,
        ) == i,
        res is Some <==> has_chat(chats_view(chats@), id@),
{
    let mut i: usize = 0;
    while i < chats.len()
        invariant
            i <= chats.len(),
            forall|j: int| 0 <= j < i ==> (#[trigger] chats_view(chats@)[j]).0 != id@,
        decreases chats.len() - i,
    {
        if chats[i].0 == *id {
            assert(is_first_chat(chats_view(chats@), id@, i as int));
            return Some(i);
        }
        i += 1;
    }
    assert forall|k: int| !is_first_chat(chats_view(chats@), id@, k) by {
        if 0 <= k < chats.len() {
            assert(chats_view(chats@)[k].0 != id@);
        }
    }
    None
}

impl ChatState {
    /// A session for the peer `id` with no chats yet.
    pub fn new(id: String, connection: ServerConnection, keys: KeyPair) -> (state: Self)
        ensures
            state@ == fresh_session(id@, connection.queued(), keys.secret_bytes()),
    {
        let state = ChatState {
            id,
            chats: Vec::new(),
            message_draft: String::new(),
            connection: Some(connection),
            current_chat_index: None,
            keys,
        };
        assert(state@.chats =~= Seq::empty());
        state
    }

    /// The chat that is open.
    pub fn get_current_chat(&self) -> (res: Option<&Chat>)
        ensures
            match self@.current_chat_index {
                Some(index) if index < self@.chats.len() => res matches Some(chat) && chat@
                    == self@.chats[index as int].1,
                _ => res is None,
            },
    {
        match self.current_chat_index {
            Some(index) => {
                if index < self.chats.len() {
                    Some(&self.chats[index].1)
                } else {
                    None
                }
            },
            None => None,
        }
    }

    /// The first chat with the peer `contact`.
    pub fn get_chat_for(&self, contact: &str) -> (res: Option<&Chat>)
        ensures
            res is Some <==> has_chat(self@.chats, contact@),
            res matches Some(chat) ==> chat@ == self@.chats[chat_index(self@.chats, contact@)].1,
    {
        let contact = contact.to_owned();
        match find_chat(&self.chats, &contact) {
            Some(i) => Some(&self.chats[i].1),
            None => None,
        }
    }

    /// Takes in one envelope from the broker.
    ///
    /// * `Message`: where there is a chat with the sender, the body is
    ///   decrypted with that chat's key and goes into its log as a line;
    ///   otherwise the message is dropped.
    /// * `PeerList`: the chats are replaced by a new chat for every listed
    ///   peer but this one, and no chat is open any more.
    /// * `Disconnect`: the chat with that peer is dropped; if it was the open
    ///   one, no chat is open any more, and any other chat that was open
    ///   stays open.
    /// * `NewConnection`: the chat with that peer gets the key that belongs
    ///   to the announced public key and keeps its log; where there is no
    ///   such chat, one is started.
    pub fn receive(&mut self, envelope: Protocol) -> (outcome: Received)
        ensures
            final(self)@ == after_envelope(old(self)@, envelope@),
            outcome == made_of(old(self)@, envelope@),
            logged_as_text(old(self)@, final(self)@, envelope@),
    {
        match envelope {
            Protocol::Message(encrypted_incoming) => {
                let found = {
                    let (from, _to) = encrypted_incoming.get_info();
                    find_chat(&self.chats, from)
                };
                match found {
                    Some(i) => {
                        let (id, mut chat) = self.chats.remove(i);
                        let incoming = encrypted_incoming.decrypt_message(&chat.shared_key);
                        let said = text_from_utf8_lossy(incoming.content.as_slice());
                        let ghost before = chat@;
                        chat.messages.push(render_line(incoming.from.as_str(), said.as_str()));
                        assert(chat@.messages =~= with_line(
                            before,
                            envelope@->Message_0.from,
                            envelope@->Message_0.content,
                        ).messages);
                        self.chats.insert(i, (id, chat));
                        assert(self@.chats =~= after_envelope(old(self)@, envelope@).chats);
                        Received::MessageLogged
                    },
                    None => Received::MissingKey,
                }
            },
            Protocol::PeerList(peers) => {
                let mut chats: Vec<(String, Chat)> = Vec::new();
                let ghost entries = envelope@->PeerList_0;
                let mut i: usize = 0;
                assert(entries.subrange(0, 0) =~= Seq::empty());
                assert(chats_view(chats@) =~= Seq::empty());
                while i < peers.len()
                    invariant
                        i <= peers.len(),
                        entries == crate::protocol::entries_view(peers@),
                        chats_view(chats@) == chats_listed(
                            entries.subrange(0, i as int),
                            self.id@,
                            self.keys.secret_bytes(),
                        ),
                    decreases peers.len() - i,
                {
                    let ghost before = chats_view(chats@);
                    proof {
                        let done = entries.subrange(0, i as int + 1);
                        assert(done.drop_last() =~= entries.subrange(0, i as int));
                        assert(done.last() == entries[i as int]);
                    }
                    if peers[i].0 != self.id {
                        chats.push((peers[i].0.clone(), Chat::new(&self.keys, peers[i].1)));
                        assert(chats_view(chats@) =~= before.push(
                            (
                                entries[i as int].0,
                                fresh_chat(self.keys.secret_bytes(), entries[i as int].1),
                            ),
                        ));
                    }
                    i += 1;
                }
                assert(entries.subrange(0, i as int) =~= entries);
                self.chats = chats;
                self.current_chat_index = None;
                Received::PeerListTaken
            },
            Protocol::Disconnect(id) => {
                match find_chat(&self.chats, &id) {
                    Some(index) => {
                        match self.current_chat_index {
                            Some(current_index) => {
                                if index == current_index {
                                    self.current_chat_index = None;
                                } else if current_index > index {
                                    self.current_chat_index = Some(current_index - 1);
                                }
                            },
                            None => {},
                        }
                        self.chats.remove(index);
                        assert(self@.chats =~= after_envelope(old(self)@, envelope@).chats);
                        Received::ChatEnded
                    },
                    None => Received::UnknownPeerLeft,
                }
            },
            Protocol::NewConnection(id, public_key) => {
                match find_chat(&self.chats, &id) {
                    Some(i) => {
                        let (old_id, mut chat) = self.chats.remove(i);
                        chat.change_key(&self.keys, public_key);
                        self.chats.insert(i, (old_id, chat));
                        assert(self@.chats =~= after_envelope(old(self)@, envelope@).chats);
                        Received::ChatRekeyed
                    },
                    None => {
                        let chat = Chat::new(&self.keys, public_key);
                        self.chats.push((id, chat));
                        assert(self@.chats =~= after_envelope(old(self)@, envelope@).chats);
                        Received::ChatStarted
                    },
                }
            },
            Protocol::InternalRemoveConnection => Received::Ignored,
        }
    }

    /// One tick of the session. The next envelope in the queue leaves it, and
    /// its frame is handed back to be written; then `incoming`, what the
    /// broker sent since the last tick, is taken in. A session without a
    /// connection does neither.
    pub fn network_update(&mut self, incoming: Option<Protocol>) -> (tick: Tick)
        ensures
            final(self)@ == after_tick(old(self)@, option_view(incoming)),
            ticked(tick, old(self)@, option_view(incoming)),
    {
        let frame = match &mut self.connection {
            Some(connection) => connection.step(),
            None => { return Tick { frame: None, received: None }; },
        };
        let received = match incoming {
            Some(protocol_message) => Some(self.receive(protocol_message)),
            None => None,
        };
        Tick { frame, received }
    }
}

} // verus!
