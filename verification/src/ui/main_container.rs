//! The whole screen: the chats above, the command line below.

use crate::events::Key;
use crate::keys::KeyPair;
use crate::network::ServerConnection;
use crate::protocol::{option_view, Protocol};
use crate::session::{after_tick, fresh_session, ticked, Tick};
use crate::ui::chat_container::{
    container_event, fresh_container, ChatContainer, ChatContainerView,
};
use crate::ui::command_line::{
    command_of, fresh_line, line_event, CommandLine, CommandLineView,
};
use vstd::prelude::*;

verus! {

/// The state of the whole screen: there is none beyond that of its parts.
#[derive(Clone, Copy, Debug, Default, PartialEq, Eq, Structural)]
pub struct MainState;

/// The whole screen.
pub struct MainContainer {
    pub command_line: CommandLine,
    pub chat_container: ChatContainer,
    pub state: MainState,
}

/// What a [`MainContainer`] holds.
pub ghost struct MainContainerView {
    pub command_line: CommandLineView,
    pub chat_container: ChatContainerView,
}

impl View for MainContainer {
    type V = MainContainerView;

    open spec fn view(&self) -> MainContainerView {
        MainContainerView {
            command_line: self.command_line@,
            chat_container: self.chat_container@,
        }
    }
}

/// The screen after a key. Escape gives the keys to the command line, which
/// keeps them; until then they go to the chats.
pub open spec fn screen_event(s: MainContainerView, key: Key) -> MainContainerView {
    match key {
        Key::Esc => MainContainerView {
            command_line: CommandLineView { is_active: true, ..s.command_line },
            ..s
        },
        _ => if !s.command_line.is_active {
            MainContainerView { chat_container: container_event(s.chat_container, key), ..s }
        } else {
            MainContainerView { command_line: line_event(s.command_line, key), ..s }
        },
    }
}

/// The command that a key ends: the command line has the keys and the key is
/// return.
pub open spec fn entered(s: MainContainerView, key: Key) -> Option<Seq<char>> {
    if key != Key::Esc && s.command_line.is_active {
        command_of(s.command_line, key)
    } else {
        None
    }
}

impl MainContainer {
    /// The screen of the peer `id` at the start of its session.
    pub fn new(id: String, connection: ServerConnection, keys: KeyPair) -> (screen: Self)
        ensures
            screen@ == (MainContainerView {
                command_line: fresh_line(),
                chat_container: fresh_container(
                    fresh_session(id@, connection.queued(), keys.secret_bytes()),
                ),
            }),
    {
        MainContainer {
            chat_container: ChatContainer::new(id, connection, keys),
            command_line: CommandLine::new(),
            state: MainState,
        }
    }

    /// Takes a key. Gives the command where the key ended one.
    pub fn handle_event(&mut self, input_key: Key) -> (command: Option<String>)
        ensures
            final(self)@ == screen_event(old(self)@, input_key),
            match command {
                Some(text) => entered(old(self)@, input_key) == Some(text@),
                None => entered(old(self)@, input_key) is None,
            },
    {
        match input_key {
            Key::Esc => {
                self.command_line.set_active(true);
                None
            },
            _ => {
                if !self.command_line.is_active() {
                    self.chat_container.handle_event(input_key);
                    None
                } else {
                    self.command_line.handle_event(input_key, &mut self.state)
                }
            },
        }
    }

    /// One tick of the session: see [`crate::session::ChatState::network_update`].
    pub fn update(&mut self, incoming: Option<Protocol>) -> (tick: Tick)
        ensures
            final(self)@ == (MainContainerView {
                chat_container: ChatContainerView {
                    state: after_tick(old(self)@.chat_container.state, option_view(incoming)),
                    ..old(self)@.chat_container
                },
                ..old(self)@
            }),
            ticked(tick, old(self)@.chat_container.state, option_view(incoming)),
    {
        self.chat_container.update(incoming)
    }
}

} // verus!
