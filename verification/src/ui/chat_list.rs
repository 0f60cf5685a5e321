//! The list of chats, from which one is picked.

use crate::events::Key;
use crate::session::{ChatState, ChatStateView};
use crate::ui::{get_color, Modifier, Style};
use vstd::prelude::*;

verus! {

/// The list of chats.
#[derive(Clone, Copy, Debug, PartialEq, Eq, Structural)]
pub struct ChatList {
    pub is_active: bool,
    pub is_hovered: bool,
}

/// Which chat is open after the list has taken a key: up and down move to
/// the neighbouring chat where there is one, return opens the first chat
/// where there is any.
pub open spec fn list_selection(current: Option<usize>, chats: nat, key: Key) -> Option<usize> {
    match key {
        Key::Up => match current {
            Some(index) if index > 0 => Some((index - 1) as usize),
            _ => current,
        },
        Key::Down => match current {
            Some(index) if index + 1 < chats => Some((index + 1) as usize),
            _ => current,
        },
        Key::Char(c) => if c == '\n' && chats > 0 {
            Some(0)
        } else {
            current
        },
        _ => current,
    }
}

impl ChatList {
    /// A list that neither has the keys nor is pointed at.
    pub fn new() -> (list: Self)
        ensures
            list == (ChatList { is_active: false, is_hovered: false }),
    {
        ChatList { is_active: false, is_hovered: false }
    }

    pub fn is_active(&self) -> (res: bool)
        ensures
            res == self.is_active,
    {
        self.is_active
    }

    pub fn is_hovered(&self) -> (res: bool)
        ensures
            res == self.is_hovered,
    {
        self.is_hovered
    }

    pub fn set_hovered(&mut self, hovered: bool)
        ensures
            *final(self) == (ChatList { is_hovered: hovered, ..*old(self) }),
    {
        self.is_hovered = hovered;
    }

    pub fn set_active(&mut self, active: bool)
        ensures
            *final(self) == (ChatList { is_active: active, ..*old(self) }),
    {
        self.is_active = active;
    }

    /// Takes a key: moves the selection, and changes nothing else.
    pub fn handle_event(&mut self, input_key: Key, state: &mut ChatState)
        ensures
            *final(self) == *old(self),
            final(state)@ == (ChatStateView {
                current_chat_index: list_selection(
                    old(state)@.current_chat_index,
                    old(state)@.chats.len(),
                    input_key,
                ),
                ..old(state)@
            }),
    {
        match input_key {
            Key::Up => {
                match state.current_chat_index {
                    Some(index) => {
                        if index > 0 {
                            state.current_chat_index = Some(index - 1);
                        }
                    },
                    None => {},
                }
            },
            Key::Down => {
                match state.current_chat_index {
                    Some(index) => {
                        if index < state.chats.len() && index + 1 < state.chats.len() {
                            state.current_chat_index = Some(index + 1);
                        }
                    },
                    None => {},
                }
            },
            Key::Char(c) => {
                if c == '\n' && state.chats.len() > 0 {
                    state.current_chat_index = Some(0);
                }
            },
            _ => {},
        }
    }

    /// The style of the list's frame and title.
    pub fn frame_style(&self) -> (style: Style)
        ensures
            style == (Style {
                fg: crate::ui::highlight(self.is_active, self.is_hovered),
                ..Style::plain()
            }),
    {
        get_color((self.is_active, self.is_hovered))
    }

    /// The style of the chat that is picked: the frame's colour with
    /// foreground and background changed over.
    pub fn highlight_style(&self) -> (style: Style)
        ensures
            style == (Style {
                fg: crate::ui::highlight(self.is_active, self.is_hovered),
                bg: crate::ui::Color::Reset,
                modifier: Modifier::Reversed,
            }),
    {
        get_color((self.is_active, self.is_hovered)).modifier(Modifier::Reversed)
    }

    /// The names in the list: the identity of each chat's peer, in order.
    pub fn contacts(state: &ChatState) -> (names: Vec<String>)
        ensures
            names.len() == state@.chats.len(),
            forall|i: int| 0 <= i < names.len() ==> (#[trigger] names[i])@ == state@.chats[i].0,
    {
        let mut names: Vec<String> = Vec::new();
        let mut i: usize = 0;
        while i < state.chats.len()
            invariant
                i <= state.chats.len(),
                names.len() == i,
                forall|j: int| 0 <= j < i ==> (#[trigger] names[j])@ == state@.chats[j].0,
            decreases state.chats.len() - i,
        {
            names.push(state.chats[i].0.clone());
            i += 1;
        }
        names
    }
}

} // verus!
