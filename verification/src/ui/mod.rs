//! What the screen shows, as far as it follows from the session: which part
//! has the keys, how each part reacts to them, and in which colours it is
//! drawn.

use vstd::prelude::*;

pub mod chat_container;
pub mod chat_list;
pub mod chat_window;
pub mod command_line;
pub mod main_container;

verus! {

/// A terminal colour. `Reset` is the terminal's own.
#[derive(Clone, Copy, Debug, PartialEq, Eq, Structural)]
pub enum Color {
    Reset,
    Black,
    Red,
    Green,
    Yellow,
    Magenta,
    Gray,
    LightCyan,
    White,
}

/// What is done to text beyond its colours.
#[derive(Clone, Copy, Debug, PartialEq, Eq, Structural)]
pub enum Modifier {
    Empty,
    Bold,
    /// Foreground and background change places.
    Reversed,
}

/// How text is drawn.
#[derive(Clone, Copy, Debug, PartialEq, Eq, Structural)]
pub struct Style {
    pub fg: Color,
    pub bg: Color,
    pub modifier: Modifier,
}

impl Style {
    /// The terminal's own colours, nothing done to the text.
    pub open spec fn plain() -> Style {
        Style { fg: Color::Reset, bg: Color::Reset, modifier: Modifier::Empty }
    }

    /// The same style with another foreground.
    pub fn fg(self, color: Color) -> (res: Style)
        ensures
            res == (Style { fg: color, ..self }),
    {
        Style { fg: color, bg: self.bg, modifier: self.modifier }
    }

    /// The same style with another background.
    pub fn bg(self, color: Color) -> (res: Style)
        ensures
            res == (Style { bg: color, ..self }),
    {
        Style { fg: self.fg, bg: color, modifier: self.modifier }
    }

    /// The same colours with `modifier` in place of what was done to the
    /// text before.
    pub fn modifier(self, modifier: Modifier) -> (res: Style)
        ensures
            res == (Style { modifier, ..self }),
    {
        Style { fg: self.fg, bg: self.bg, modifier }
    }
}

impl Default for Style {
    fn default() -> (res: Style)
        ensures
            res == Style::plain(),
    {
        Style { fg: Color::Reset, bg: Color::Reset, modifier: Modifier::Empty }
    }
}

/// The colour of a part's frame and title.
pub open spec fn highlight(is_active: bool, is_hovered: bool) -> Color {
    if is_active {
        Color::LightCyan
    } else if is_hovered {
        Color::Magenta
    } else {
        Color::Gray
    }
}

/// The style of a part's frame and title: light cyan where the part has the
/// keys, magenta where it is only pointed at, gray otherwise.
pub fn get_color(state: (bool, bool)) -> (style: Style)
    ensures
        style == (Style { fg: highlight(state.0, state.1), ..Style::plain() }),
{
    let (is_active, is_hovered) = state;
    if is_active {
        Style::default().fg(Color::LightCyan)
    } else if is_hovered {
        Style::default().fg(Color::Magenta)
    } else {
        Style::default().fg(Color::Gray)
    }
}

} // verus!
