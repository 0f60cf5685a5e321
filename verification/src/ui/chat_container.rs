//! The chats: the list on the left, the open chat on the right, and the
//! session behind both.

use crate::events::Key;
use crate::keys::KeyPair;
use crate::network::ServerConnection;
use crate::protocol::{option_view, Protocol};
use crate::session::{
    after_tick, fresh_session, selection_valid, ticked, ChatState, ChatStateView, Tick,
};
use crate::ui::chat_list::{list_selection, ChatList};
use crate::ui::chat_window::{window_event, ChatWindow};
use vstd::prelude::*;

verus! {

/// The list, the window and the session.
pub struct ChatContainer {
    pub chat_window: ChatWindow,
    pub chat_list: ChatList,
    pub state: ChatState,
}

/// What a [`ChatContainer`] holds.
pub ghost struct ChatContainerView {
    pub chat_window: ChatWindow,
    pub chat_list: ChatList,
    pub state: ChatStateView,
}

impl View for ChatContainer {
    type V = ChatContainerView;

    open spec fn view(&self) -> ChatContainerView {
        ChatContainerView {
            chat_window: self.chat_window,
            chat_list: self.chat_list,
            state: self.state@,
        }
    }
}

/// The chats at the start of a session: nothing has the keys, nothing is
/// pointed at.
pub open spec fn fresh_container(state: ChatStateView) -> ChatContainerView {
    ChatContainerView {
        chat_window: ChatWindow { is_active: false, is_hovered: false },
        chat_list: ChatList { is_active: false, is_hovered: false },
        state,
    }
}

/// The session after the list has taken a key.
pub open spec fn list_event(s: ChatStateView, key: Key) -> ChatStateView {
    ChatStateView {
        current_chat_index: list_selection(s.current_chat_index, s.chats.len(), key),
        ..s
    }
}

/// No key takes the selection beyond the chats, whichever part takes it.
pub proof fn lemma_keys_keep_selection(s: ChatStateView, key: Key)
    requires
        selection_valid(s),
    ensures
        selection_valid(list_event(s, key)),
        selection_valid(window_event(s, key)),
{
}

/// The container after a key has gone to the part that has the keys, if one
/// has: the list comes before the window.
pub open spec fn dispatched(s: ChatContainerView, key: Key) -> ChatContainerView {
    if s.chat_list.is_active {
        ChatContainerView { state: list_event(s.state, key), ..s }
    } else if s.chat_window.is_active {
        ChatContainerView { state: window_event(s.state, key), ..s }
    } else {
        s
    }
}

/// The container after a key. Left points at the list and takes the keys
/// from the window; right points at the window and takes the keys from the
/// list. Any other key goes to the part that has the keys. Where none has,
/// return gives them to the part that is pointed at, which then takes the
/// return as well; other keys do nothing.
pub open spec fn container_event(s: ChatContainerView, key: Key) -> ChatContainerView {
    match key {
        Key::Left => ChatContainerView {
            chat_window: ChatWindow { is_active: false, is_hovered: false },
            chat_list: ChatList { is_hovered: true, ..s.chat_list },
            ..s
        },
        Key::Right => ChatContainerView {
            chat_window: ChatWindow { is_hovered: true, ..s.chat_window },
            chat_list: ChatList { is_active: false, is_hovered: false },
            ..s
        },
        _ => if s.chat_list.is_active || s.chat_window.is_active {
            dispatched(s, key)
        } else if key == Key::Char('\n') {
            if s.chat_list.is_hovered {
                dispatched(
                    ChatContainerView {
                        chat_list: ChatList { is_active: true, ..s.chat_list },
                        ..s
                    },
                    key,
                )
            } else if s.chat_window.is_hovered {
                dispatched(
                    ChatContainerView {
                        chat_window: ChatWindow { is_active: true, ..s.chat_window },
                        ..s
                    },
                    key,
                )
            } else {
                s
            }
        } else {
            s
        },
    }
}

impl ChatContainer {
    /// The chats of the peer `id` at the start of its session: nothing has
    /// the keys, nothing is pointed at, and no chat is known.
    pub fn new(id: String, connection: ServerConnection, keys: KeyPair) -> (container: Self)
        ensures
            container@ == fresh_container(
                fresh_session(id@, connection.queued(), keys.secret_bytes()),
            ),
    {
        ChatContainer {
            chat_window: ChatWindow::new(),
            chat_list: ChatList::new(),
            state: ChatState::new(id, connection, keys),
        }
    }

    /// Hands a key to the part that has the keys.
    fn dispatch(&mut self, input_key: Key)
        ensures
            final(self)@ == dispatched(old(self)@, input_key),
    {
        if self.chat_list.is_active() {
            self.chat_list.handle_event(input_key, &mut self.state);
        } else if self.chat_window.is_active() {
            self.chat_window.handle_event(input_key, &mut self.state);
        }
    }

    /// Takes a key.
    pub fn handle_event(&mut self, input_key: Key)
        ensures
            final(self)@ == container_event(old(self)@, input_key),
    {
        match input_key {
            Key::Left => {
                self.chat_window.set_active(false);
                self.chat_window.set_hovered(false);
                self.chat_list.set_hovered(true);
            },
            Key::Right => {
                self.chat_window.set_hovered(true);
                self.chat_list.set_active(false);
                self.chat_list.set_hovered(false);
            },
            _ => {
                if self.chat_list.is_active() || self.chat_window.is_active() {
                    self.dispatch(input_key);
                } else if input_key == Key::Char('\n') {
                    if self.chat_list.is_hovered() {
                        self.chat_list.set_active(true);
                        self.dispatch(input_key);
                    } else if self.chat_window.is_hovered() {
                        self.chat_window.set_active(true);
                        self.dispatch(input_key);
                    }
                }
            },
        }
    }

    /// One tick of the session: see [`ChatState::network_update`].
    pub fn update(&mut self, incoming: Option<Protocol>) -> (tick: Tick)
        ensures
            final(self)@ == (ChatContainerView {
                state: after_tick(old(self)@.state, option_view(incoming)),
                ..old(self)@
            }),
            ticked(tick, old(self)@.state, option_view(incoming)),
    {
        self.state.network_update(incoming)
    }
}

} // verus!
