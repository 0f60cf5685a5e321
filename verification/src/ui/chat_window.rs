//! The open chat: its log, and the line in which a message is typed.

use crate::chat::ChatView;
use crate::cipher::{encrypt_blocks, padded};
use crate::codec::{fits, fits_frame};
use crate::events::Key;
use crate::protocol::{EncryptedMessage, Envelope, Message, MessageView, Protocol, MESSAGE_MAX_SIZE};
use crate::session::{ChatState, ChatStateView};
use crate::protocol::ID_MAX_SIZE;
use crate::text::{
    chat_line, lemma_drop_last_takes_bytes, lemma_push_adds_bytes, pop_char, push_char,
    render_line,
};
use crate::ui::{get_color, Style};
use vstd::prelude::*;
use vstd::slice::slice_to_vec;
use vstd::utf8::encode_utf8;

verus! {

/// The window of the open chat.
#[derive(Clone, Copy, Debug, PartialEq, Eq, Structural)]
pub struct ChatWindow {
    pub is_active: bool,
    pub is_hovered: bool,
}

/// The envelope that carries the draft to the peer of chat `index`: the
/// draft's bytes, padded and encrypted under that chat's key.
pub open spec fn sealed_draft(s: ChatStateView, index: int) -> Envelope {
    Envelope::Message(
        MessageView {
            from: s.id,
            to: s.chats[index].0,
            content: encrypt_blocks(
                s.chats[index].1.shared_key,
                padded(encode_utf8(s.message_draft)),
            ),
        },
    )
}

/// The draft can be sent in chat `index`: there is a queue to the broker, and
/// the envelope that carries the draft fits a frame.
pub open spec fn can_send(s: ChatStateView, index: int) -> bool {
    s.queued is Some && fits_frame(sealed_draft(s, index))
}

/// The session after return in chat `index`. Where the draft can be sent,
/// the envelope waits at the end of the queue, the chat's log has the draft
/// as a line of one's own, and the draft is empty. Where it cannot, the
/// session is as it was: nothing is logged that was not sent, and the draft
/// is kept.
pub open spec fn after_send(s: ChatStateView, index: int) -> ChatStateView {
    if !can_send(s, index) {
        s
    } else {
        ChatStateView {
            chats: s.chats.update(
                index,
                (
                    s.chats[index].0,
                    ChatView {
                        messages: s.chats[index].1.messages.push(
                            chat_line("Me"@, s.message_draft),
                        ),
                        ..s.chats[index].1
                    },
                ),
            ),
            message_draft: Seq::empty(),
            queued: Some(s.queued->0.push(sealed_draft(s, index))),
            ..s
        }
    }
}

/// The session after the window has taken a key. Without an open chat no key
/// does anything. Return sends the draft if it can be sent, and otherwise
/// changes nothing; another character goes to the end of the draft unless
/// the draft has reached its greatest length; backspace takes the draft's
/// last character off.
pub open spec fn window_event(s: ChatStateView, key: Key) -> ChatStateView {
    match s.current_chat_index {
        None => s,
        Some(index) => match key {
            Key::Char(c) => if c == '\n' {
                if index < s.chats.len() {
                    after_send(s, index as int)
                } else {
                    s
                }
            } else if encode_utf8(s.message_draft).len() < MESSAGE_MAX_SIZE {
                ChatStateView { message_draft: s.message_draft.push(c), ..s }
            } else {
                s
            },
            Key::Backspace => ChatStateView {
                message_draft: if s.message_draft.len() > 0 {
                    s.message_draft.drop_last()
                } else {
                    s.message_draft
                },
                ..s
            },
            _ => s,
        },
    }
}

/// A draft that the window has let grow: the last character may have taken
/// it up to three bytes beyond the length at which the window stops.
pub open spec fn window_sized(draft: Seq<char>) -> bool {
    encode_utf8(draft).len() <= MESSAGE_MAX_SIZE + 3
}

/// A draft that has reached its greatest length takes no further character:
/// the key changes nothing.
pub proof fn lemma_full_draft_takes_no_more(s: ChatStateView, c: char)
    requires
        c != '\n',
        encode_utf8(s.message_draft).len() >= MESSAGE_MAX_SIZE,
    ensures
        window_event(s, Key::Char(c)) == s,
{
}

/// The window never lets the draft grow beyond its size.
pub proof fn lemma_window_keeps_size(s: ChatStateView, key: Key)
    requires
        window_sized(s.message_draft),
    ensures
        window_sized(window_event(s, key).message_draft),
{
    assert(encode_utf8(Seq::<char>::empty()).len() == 0);
    match key {
        Key::Char(c) => {
            lemma_push_adds_bytes(s.message_draft, c);
        },
        Key::Backspace => {
            if s.message_draft.len() > 0 {
                lemma_drop_last_takes_bytes(s.message_draft);
            }
        },
        _ => {},
    }
}

/// A draft of the window's size, between two peers whose identities take
/// together no more than twice the length at which the identity prompt
/// stops and four bytes beyond, is sent in an envelope that fits a frame.
pub proof fn lemma_typed_message_fits(s: ChatStateView, index: int)
    requires
        0 <= index < s.chats.len(),
        window_sized(s.message_draft),
        encode_utf8(s.id).len() + encode_utf8(s.chats[index].0).len() <= 2 * ID_MAX_SIZE + 4,
    ensures
        fits_frame(sealed_draft(s, index)),
{
    vstd::bytes::lemma_auto_spec_u32_to_from_le_bytes();
    vstd::bytes::lemma_auto_spec_u64_to_from_le_bytes();
    crate::cipher::lemma_padded(encode_utf8(s.message_draft));
}

impl ChatWindow {
    /// A window that neither has the keys nor is pointed at.
    pub fn new() -> (window: Self)
        ensures
            window == (ChatWindow { is_active: false, is_hovered: false }),
    {
        ChatWindow { is_active: false, is_hovered: false }
    }

    pub fn is_active(&self) -> (res: bool)
        ensures
            res == self.is_active,
    {
        self.is_active
    }

    pub fn is_hovered(&self) -> (res: bool)
        ensures
            res == self.is_hovered,
    {
        self.is_hovered
    }

    pub fn set_hovered(&mut self, hovered: bool)
        ensures
            *final(self) == (ChatWindow { is_hovered: hovered, ..*old(self) }),
    {
        self.is_hovered = hovered;
    }

    pub fn set_active(&mut self, active: bool)
        ensures
            *final(self) == (ChatWindow { is_active: active, ..*old(self) }),
    {
        self.is_active = active;
    }

    /// Takes a key: edits the draft or sends it.
    pub fn handle_event(&mut self, input_key: Key, state: &mut ChatState)
        ensures
            *final(self) == *old(self),
            final(state)@ == window_event(old(state)@, input_key),
    {
        let index = match state.current_chat_index {
            Some(index) => index,
            None => { return ; },
        };
        match input_key {
            Key::Char(c) => {
                if c == '\n' {
                    if index < state.chats.len() {
                        let message = Message {
                            from: state.id.clone(),
                            to: state.chats[index].0.clone(),
                            content: slice_to_vec(state.message_draft.as_str().as_bytes()),
                        };
                        let encrypted_message = EncryptedMessage::create(
                            message,
                            &state.chats[index].1.shared_key,
                        );
                        let envelope = Protocol::Message(encrypted_message);
                        assert(envelope@ == sealed_draft(old(state)@, index as int));
                        if state.connection.is_some() && fits(&envelope) {
                            let line = render_line("Me", state.message_draft.as_str());
                            state.message_draft = String::new();
                            let (id, mut current_chat) = state.chats.remove(index);
                            let ghost before = current_chat@;
                            current_chat.messages.push(line);
                            assert(current_chat@.messages =~= before.messages.push(
                                chat_line("Me"@, old(state)@.message_draft),
                            ));
                            state.chats.insert(index, (id, current_chat));
                            assert(state@.chats =~= after_send(old(state)@, index as int).chats);
                            match &mut state.connection {
                                Some(connection) => {
                                    connection.send(envelope);
                                },
                                None => {},
                            }
                        }
                    }
                } else if state.message_draft.as_str().as_bytes().len() < MESSAGE_MAX_SIZE {
                    push_char(&mut state.message_draft, c);
                }
            },
            Key::Backspace => {
                pop_char(&mut state.message_draft);
            },
            _ => {},
        }
    }

    /// The style of the window's frames and titles.
    pub fn frame_style(&self) -> (style: Style)
        ensures
            style == (Style {
                fg: crate::ui::highlight(self.is_active, self.is_hovered),
                ..Style::plain()
            }),
    {
        get_color((self.is_active, self.is_hovered))
    }

    /// The title of the line in which a message is typed: a prompt where a
    /// chat is open, and otherwise a hint to open one.
    pub fn textbox_title(state: &ChatState) -> (title: &'static str)
        ensures
            title@ == if state@.current_chat_index is Some {
                "Type message..."@
            } else {
                "You need to select someone from the chat list before writing a message!"@
            },
    {
        if state.current_chat_index.is_some() {
            "Type message..."
        } else {
            "You need to select someone from the chat list before writing a message!"
        }
    }
}

} // verus!
