//! The line at the bottom of the screen: it shows notices, and takes
//! commands that start with a colon.

use crate::events::Key;
use crate::text::{pop_char, push_char};
use crate::ui::main_container::MainState;
use crate::ui::{Color, Modifier, Style};
use vstd::prelude::*;
use vstd::string::{StrSliceExecFns, StringExecFns};

verus! {

/// What the line is showing.
#[derive(Clone, Copy, Debug, PartialEq, Eq, Structural)]
pub enum DisplayMode {
    /// A command that is being typed.
    Input,
    Error,
    Info,
    Warn,
    Default,
}

/// The command line.
#[derive(Debug)]
pub struct CommandLine {
    pub content: String,
    pub display_mode: DisplayMode,
    pub is_active: bool,
    pub is_hovered: bool,
}

/// What a [`CommandLine`] holds.
pub ghost struct CommandLineView {
    pub content: Seq<char>,
    pub display_mode: DisplayMode,
    pub is_active: bool,
    pub is_hovered: bool,
}

impl View for CommandLine {
    type V = CommandLineView;

    open spec fn view(&self) -> CommandLineView {
        CommandLineView {
            content: self.content@,
            display_mode: self.display_mode,
            is_active: self.is_active,
            is_hovered: self.is_hovered,
        }
    }
}

/// The styles of the line's text and of its background, in that order.
/// Notices are bold on red, green or yellow; a command is typed in black on
/// white.
pub open spec fn line_styles(mode: DisplayMode) -> (Style, Style) {
    let plain = Style::plain();
    match mode {
        DisplayMode::Default => (Style { fg: Color::Black, ..plain }, plain),
        DisplayMode::Input => (
            Style { fg: Color::Black, bg: Color::White, modifier: Modifier::Empty },
            Style { bg: Color::White, ..plain },
        ),
        DisplayMode::Error => (
            Style { fg: Color::Black, bg: Color::Red, modifier: Modifier::Bold },
            Style { bg: Color::Red, ..plain },
        ),
        DisplayMode::Info => (
            Style { fg: Color::White, bg: Color::Green, modifier: Modifier::Bold },
            Style { bg: Color::Green, ..plain },
        ),
        DisplayMode::Warn => (
            Style { fg: Color::Black, bg: Color::Yellow, modifier: Modifier::Bold },
            Style { bg: Color::Yellow, ..plain },
        ),
    }
}

/// The line after a notice: it shows the notice, unless a command is being
/// typed.
pub open spec fn shown(
    s: CommandLineView,
    content: Seq<char>,
    mode: DisplayMode,
) -> CommandLineView {
    if s.display_mode == DisplayMode::Input {
        s
    } else {
        CommandLineView { content, display_mode: mode, ..s }
    }
}

/// The line after it has taken a key. A colon starts a command afresh;
/// return ends it and empties the line; any other character goes to the end
/// of the line; backspace takes the last character off.
pub open spec fn line_event(s: CommandLineView, key: Key) -> CommandLineView {
    match key {
        Key::Char(c) => if c == ':' {
            CommandLineView { content: seq![':'], display_mode: DisplayMode::Input, ..s }
        } else if c == '\n' {
            CommandLineView { content: Seq::empty(), display_mode: DisplayMode::Default, ..s }
        } else {
            CommandLineView { content: s.content.push(c), display_mode: DisplayMode::Input, ..s }
        },
        Key::Backspace => CommandLineView {
            content: if s.content.len() > 0 {
                s.content.drop_last()
            } else {
                s.content
            },
            display_mode: DisplayMode::Input,
            ..s
        },
        _ => CommandLineView { display_mode: DisplayMode::Input, ..s },
    }
}

/// The command that return ends: the line without its first character.
pub open spec fn command_of(s: CommandLineView, key: Key) -> Option<Seq<char>> {
    if key == Key::Char('\n') {
        Some(
            if s.content.len() > 0 {
                s.content.subrange(1, s.content.len() as int)
            } else {
                s.content
            },
        )
    } else {
        None
    }
}

/// The line at the start: it shows its own name.
pub open spec fn fresh_line() -> CommandLineView {
    CommandLineView {
        content: "Commandline"@,
        display_mode: DisplayMode::Default,
        is_active: false,
        is_hovered: false,
    }
}

/// A notice with its label in front.
fn labelled(label: &str, notice: &str) -> (res: String)
    ensures
        res@ == label@ + notice@,
{
    let mut res = label.to_owned();
    res.append(notice);
    res
}

impl CommandLine {
    /// A line that shows its own name.
    pub fn new() -> (line: Self)
        ensures
            line@ == fresh_line(),
    {
        CommandLine {
            content: "Commandline".to_owned(),
            display_mode: DisplayMode::Default,
            is_active: false,
            is_hovered: false,
        }
    }

    /// The styles of the line's text and of its background.
    pub fn get_style(&self) -> (styles: (Style, Style))
        ensures
            styles == line_styles(self.display_mode),
    {
        match self.display_mode {
            DisplayMode::Default => {
                let block_style = Style::default();
                let text_style = block_style.fg(Color::Black);
                (text_style, block_style)
            },
            DisplayMode::Input => {
                let block_style = Style::default().bg(Color::White);
                let text_style = block_style.fg(Color::Black);
                (text_style, block_style)
            },
            DisplayMode::Error => {
                let block_style = Style::default().bg(Color::Red);
                let text_style = block_style.fg(Color::Black).modifier(Modifier::Bold);
                (text_style, block_style)
            },
            DisplayMode::Info => {
                let block_style = Style::default().bg(Color::Green);
                let text_style = block_style.fg(Color::White).modifier(Modifier::Bold);
                (text_style, block_style)
            },
            DisplayMode::Warn => {
                let block_style = Style::default().bg(Color::Yellow);
                let text_style = block_style.fg(Color::Black).modifier(Modifier::Bold);
                (text_style, block_style)
            },
        }
    }

    fn update_state(&mut self, content: String, mode: DisplayMode)
        ensures
            final(self)@ == shown(old(self)@, content@, mode),
    {
        match self.display_mode {
            DisplayMode::Input => {},
            _ => {
                self.content = content;
                self.display_mode = mode;
            },
        }
    }

    /// Shows an error, unless a command is being typed.
    pub fn show_error(&mut self, error: &str)
        ensures
            final(self)@ == shown(old(self)@, "[ERROR]: "@ + error@, DisplayMode::Error),
    {
        self.update_state(labelled("[ERROR]: ", error), DisplayMode::Error);
    }

    /// Shows a piece of information, unless a command is being typed.
    pub fn show_info_message(&mut self, message: &str)
        ensures
            final(self)@ == shown(old(self)@, "[INFO]: "@ + message@, DisplayMode::Info),
    {
        self.update_state(labelled("[INFO]: ", message), DisplayMode::Info);
    }

    /// Shows a warning, unless a command is being typed.
    pub fn show_warning(&mut self, warning: &str)
        ensures
            final(self)@ == shown(old(self)@, "[WARN]: "@ + warning@, DisplayMode::Warn),
    {
        self.update_state(labelled("[WARN]: ", warning), DisplayMode::Warn);
    }

    /// Takes a key. Gives the command where the key was return.
    pub fn handle_event(&mut self, input_key: Key, state: &mut MainState) -> (command: Option<
        String,
    >)
        ensures
            final(self)@ == line_event(old(self)@, input_key),
            *final(state) == *old(state),
            match command {
                Some(text) => command_of(old(self)@, input_key) == Some(text@),
                None => command_of(old(self)@, input_key) is None,
            },
    {
        self.display_mode = DisplayMode::Input;
        match input_key {
            Key::Char(c) => {
                if c == ':' {
                    self.content = String::new();
                    push_char(&mut self.content, ':');
                    assert(self.content@ =~= seq![':']);
                    None
                } else if c == '\n' {
                    let typed: usize = self.content.as_str().unicode_len();
                    let command = if typed > 0 {
                        self.content.as_str().substring_char(1, typed).to_owned()
                    } else {
                        String::new()
                    };
                    assert(typed == 0 ==> self.content@ =~= Seq::<char>::empty());
                    self.content = String::new();
                    self.display_mode = DisplayMode::Default;
                    Some(command)
                } else {
                    push_char(&mut self.content, c);
                    None
                }
            },
            Key::Backspace => {
                pop_char(&mut self.content);
                None
            },
            _ => None,
        }
    }

    pub fn is_hovered(&self) -> (res: bool)
        ensures
            res == self.is_hovered,
    {
        self.is_hovered
    }

    pub fn set_hovered(&mut self, hovered: bool)
        ensures
            final(self)@ == (CommandLineView { is_hovered: hovered, ..old(self)@ }),
    {
        self.is_hovered = hovered;
    }

    pub fn set_active(&mut self, active: bool)
        ensures
            final(self)@ == (CommandLineView { is_active: active, ..old(self)@ }),
    {
        self.is_active = active;
    }

    pub fn is_active(&self) -> (res: bool)
        ensures
            res == self.is_active,
    {
        self.is_active
    }
}

} // verus!
