//! Keys, as the terminal reports them, and what they do before the session
//! has begun: the peer types its identity and asks to be connected.

use crate::codec::{fits, fits_frame};
use crate::keys::KeyPair;
use crate::network::ServerConnection;
use crate::protocol::{Envelope, Protocol, ID_MAX_SIZE};
use crate::session::fresh_session;
use crate::text::{lemma_drop_last_takes_bytes, lemma_push_adds_bytes, pop_char, push_char};
use crate::ui::chat_container::fresh_container;
use crate::ui::command_line::fresh_line;
use crate::ui::main_container::{MainContainer, MainContainerView};
use vstd::prelude::*;
use vstd::utf8::encode_utf8;

verus! {

/// A key press.
#[derive(Clone, Copy, Debug, PartialEq, Eq, Structural)]
pub enum Key {
    Backspace,
    Left,
    Right,
    Up,
    Down,
    Esc,
    /// A character; the return key is `'\n'`.
    Char(char),
    /// A character typed with the control key held.
    Ctrl(char),
    /// Any other key.
    Other,
}

/// The client from its start: first the prompt for the identity, then the
/// session.
pub struct App {
    /// The identity typed so far.
    pub id: String,
    /// The column of the cursor in the prompt.
    pub input_cursor_pos: u16,
    /// The row of the cursor in the prompt.
    pub cursor_vertical_offset: u16,
    /// The screen of the session, once it has begun.
    pub main_container: Option<MainContainer>,
    /// The connection that has been asked for, until the session begins.
    pub connection: Option<ServerConnection>,
    /// This peer's key pair, until the session takes it over.
    pub keys: Option<KeyPair>,
}

/// What an [`App`] holds.
pub ghost struct AppView {
    pub id: Seq<char>,
    pub input_cursor_pos: u16,
    pub cursor_vertical_offset: u16,
    pub main_container: Option<MainContainerView>,
    pub queued: Option<Seq<Envelope>>,
    pub keys: Option<KeyPairView>,
}

/// The two halves of a key pair.
pub ghost struct KeyPairView {
    pub secret: Seq<u8>,
    pub public: Seq<u8>,
}

/// The halves of `pair`.
pub open spec fn pair_view(pair: KeyPair) -> KeyPairView {
    KeyPairView { secret: pair.secret_bytes(), public: pair.public_bytes() }
}

impl View for App {
    type V = AppView;

    open spec fn view(&self) -> AppView {
        AppView {
            id: self.id@,
            input_cursor_pos: self.input_cursor_pos,
            cursor_vertical_offset: self.cursor_vertical_offset,
            main_container: match self.main_container {
                Some(screen) => Some(screen@),
                None => None,
            },
            queued: crate::session::queue_view(self.connection),
            keys: match self.keys {
                Some(pair) => Some(pair_view(pair)),
                None => None,
            },
        }
    }
}

/// The column of the cursor behind an identity of `len` bytes.
pub open spec fn cursor_behind(len: nat) -> u16 {
    if len <= u16::MAX {
        len as u16
    } else {
        u16::MAX
    }
}

/// The announcement of the peer that is being typed.
pub open spec fn announcement(app: AppView) -> Envelope {
    Envelope::NewConnection(app.id, app.keys->0.public)
}

/// The identity after a key: a character goes to its end while it is shorter
/// than the greatest length, backspace takes its last character off.
pub open spec fn id_typed(id: Seq<char>, key: Key) -> Seq<char> {
    match key {
        Key::Char(c) => if c != '\n' && encode_utf8(id).len() < ID_MAX_SIZE {
            id.push(c)
        } else {
            id
        },
        Key::Backspace => if id.len() > 0 {
            id.drop_last()
        } else {
            id
        },
        _ => id,
    }
}

/// An identity that the prompt has let grow: the last character may have
/// taken it up to three bytes beyond the length at which the prompt stops.
pub open spec fn prompt_sized(id: Seq<char>) -> bool {
    encode_utf8(id).len() <= ID_MAX_SIZE + 3
}

/// The prompt never lets the identity grow beyond its size.
pub proof fn lemma_prompt_keeps_size(id: Seq<char>, key: Key)
    requires
        prompt_sized(id),
    ensures
        prompt_sized(id_typed(id, key)),
{
    match key {
        Key::Char(c) => {
            lemma_push_adds_bytes(id, c);
        },
        Key::Backspace => {
            if id.len() > 0 {
                lemma_drop_last_takes_bytes(id);
            }
        },
        _ => {},
    }
}

/// The announcement of a peer whose identity was typed at the prompt fits a
/// frame, so that return at the prompt always asks for the connection.
pub proof fn lemma_typed_announcement_fits(id: Seq<char>, public_key: Seq<u8>)
    requires
        prompt_sized(id),
        public_key.len() == 32,
    ensures
        fits_frame(Envelope::NewConnection(id, public_key)),
{
    vstd::bytes::lemma_auto_spec_u32_to_from_le_bytes();
    vstd::bytes::lemma_auto_spec_u64_to_from_le_bytes();
}

/// The client after the prompt has taken a key. Return asks for the
/// connection, whose queue then holds the announcement, if the peer still
/// has its key pair and the announcement fits a frame. The cursor stands
/// behind the identity.
pub open spec fn prompt_event(app: AppView, key: Key) -> AppView {
    AppView {
        id: id_typed(app.id, key),
        input_cursor_pos: cursor_behind(encode_utf8(id_typed(app.id, key)).len()),
        queued: if key == Key::Char('\n') && app.keys is Some && fits_frame(announcement(app)) {
            Some(seq![announcement(app)])
        } else {
            app.queued
        },
        ..app
    }
}

/// The client after the session has begun, if it can begin: a connection
/// has been asked for and the key pair is still there. The session takes
/// both over.
pub open spec fn session_started(app: AppView) -> AppView {
    if app.queued is Some && app.keys is Some {
        AppView {
            main_container: Some(
                MainContainerView {
                    command_line: fresh_line(),
                    chat_container: fresh_container(
                        fresh_session(app.id, app.queued->0, app.keys->0.secret),
                    ),
                },
            ),
            queued: None,
            keys: None,
            ..app
        }
    } else {
        app
    }
}

impl App {
    /// The client at its start: nothing is typed, no connection is asked for.
    pub fn new(keys: KeyPair) -> (app: Self)
        ensures
            app@ == (AppView {
                id: Seq::empty(),
                input_cursor_pos: 0,
                cursor_vertical_offset: 4,
                main_container: None,
                queued: None,
                keys: Some(pair_view(keys)),
            }),
    {
        App {
            cursor_vertical_offset: 4,
            id: String::new(),
            input_cursor_pos: 0,
            main_container: None,
            connection: None,
            keys: Some(keys),
        }
    }

    /// Begins the session once a connection has been asked for.
    pub fn start_session(&mut self)
        ensures
            final(self)@ == session_started(old(self)@),
    {
        if self.connection.is_some() && self.keys.is_some() {
            let connection = self.connection.take().unwrap();
            let keys = self.keys.take().unwrap();
            self.main_container = Some(MainContainer::new(self.id.clone(), connection, keys));
        }
    }
}

/// Takes a key at the prompt for the identity.
pub fn id_handler(input: Key, app: &mut App)
    ensures
        final(app)@ == prompt_event(old(app)@, input),
{
    match input {
        Key::Char(c) => {
            if c == '\n' {
                match &app.keys {
                    Some(keys) => {
                        let join = Protocol::NewConnection(app.id.clone(), keys.public_key());
                        if fits(&join) {
                            app.connection = Some(
                                ServerConnection::new(app.id.clone(), keys.public_key()),
                            );
                        }
                    },
                    None => {},
                }
            } else if app.id.as_str().as_bytes().len() < ID_MAX_SIZE {
                push_char(&mut app.id, c);
            }
        },
        Key::Backspace => {
            pop_char(&mut app.id);
        },
        _ => {},
    }
    let len: usize = app.id.as_str().as_bytes().len();
    app.input_cursor_pos = if len <= 0xFFFF {
        len as u16
    } else {
        u16::MAX
    };
}

} // verus!
