//! What a keypress means, in the list and in the input box. A key is held
//! as plain values so the keymap is decided here and read off the terminal
//! elsewhere.

use vstd::prelude::*;

use crate::agenda::Period;
use crate::screen::Fold;

verus! {

/// Which key, without its modifiers.
#[derive(Debug, Clone, Copy, PartialEq, Eq, Structural)]
pub enum Code {
    Char(char),
    Enter,
    Esc,
    Backspace,
    Delete,
    Left,
    Right,
    Up,
    Down,
    Home,
    End,
    Tab,
    BackTab,
    /// A key neither keymap has a use for.
    Other,
}

/// A key event: the key, which modifiers were down, and whether it is the
/// key being let go rather than pressed or held.
#[derive(Debug, Clone, Copy, PartialEq, Eq, Structural)]
pub struct Key {
    pub code: Code,
    pub ctrl: bool,
    pub alt: bool,
    pub shift: bool,
    pub release: bool,
}

impl Key {
    /// A plain press with no modifiers.
    pub fn press(code: Code) -> (r: Key)
        ensures
            r == (Key { code, ctrl: false, alt: false, shift: false, release: false }),
    {
        Key { code, ctrl: false, alt: false, shift: false, release: false }
    }
}

/// What a keypress means on the list.
#[derive(Debug, Clone, Copy, PartialEq, Eq)]
pub enum Action {
    Quit,
    Move(isize),
    Top,
    Bottom,
    Toggle,
    /// `a`: the add form where the pane has room for it.
    Add,
    /// `o`: the one-line box, always.
    Quick,
    /// `⏎`: the input, pre-filled with the selected task.
    Change,
    /// `y`: the input pre-filled with a copy of the selected task.
    Duplicate,
    Fold(Fold),
    /// `X`: at once, with `u` to take it back.
    Delete,
    /// `d`: decided against rather than finished.
    Cancel,
    Postpone,
    Undo,
    /// Hand the terminal to `$EDITOR`.
    Edit,
    Reload,
    Help,
    Stats,
    /// `1` `2` `3` on the stats screen.
    Over(Period),
    /// `esc`: closes what is open, and never quits.
    Close,
    /// A key bound to nothing on purpose that still owes an answer.
    Say(&'static str),
    Ignore,
}

/// Ctrl down as a chord: ctrl and alt together is AltGr, which is how some
/// layouts type `#`, `@` and `$`.
pub open spec fn chord(k: Key) -> bool {
    k.ctrl && !k.alt
}

/// The list's keymap. `esc` closes and never quits; a key being let go is
/// not a second press.
pub open spec fn action_of(k: Key) -> Action {
    if k.release {
        Action::Ignore
    } else {
        match k.code {
            Code::Char(c) => if c == 'c' && chord(k) {
                Action::Quit
            } else if c == 'q' && !chord(k) {
                Action::Quit
            } else if c == 'j' {
                Action::Move(1)
            } else if c == 'k' {
                Action::Move(-1isize)
            } else if c == 'g' {
                Action::Top
            } else if c == 'G' {
                Action::Bottom
            } else if c == 'd' && chord(k) {
                Action::Move(10)
            } else if c == 'u' && chord(k) {
                Action::Move(-10isize)
            } else if c == 'd' {
                Action::Cancel
            } else if c == 'u' {
                Action::Undo
            } else if c == ' ' {
                Action::Toggle
            } else if c == 'a' {
                Action::Add
            } else if c == 'o' {
                Action::Quick
            } else if c == 'h' {
                Action::Fold(Fold::Close)
            } else if c == 'l' {
                Action::Fold(Fold::Open)
            } else if c == 'z' {
                Action::Fold(Fold::Toggle)
            } else if c == 'X' {
                Action::Delete
            } else if c == 'p' {
                Action::Postpone
            } else if c == 'y' {
                Action::Duplicate
            } else if c == 'e' {
                Action::Edit
            } else if c == 'r' {
                Action::Reload
            } else if c == 's' {
                Action::Stats
            } else if c == '1' {
                Action::Over(Period::Week)
            } else if c == '2' {
                Action::Over(Period::Month)
            } else if c == '3' {
                Action::Over(Period::Year)
            } else if c == '?' {
                Action::Help
            } else if c == ':' {
                Action::Say("no command mode - ? for keys")
            } else if c == '/' {
                Action::Say("search comes in v2")
            } else {
                Action::Ignore
            },
            Code::Down => Action::Move(1),
            Code::Up => Action::Move(-1isize),
            Code::Enter => Action::Change,
            Code::Left => Action::Fold(Fold::Close),
            Code::Right => Action::Fold(Fold::Open),
            Code::Esc => Action::Close,
            _ => Action::Ignore,
        }
    }
}

pub fn action(key: Key) -> (r: Action)
    ensures
        r == action_of(key),
{
    if key.release {
        return Action::Ignore;
    }
    let ctrl = key.ctrl && !key.alt;
    match key.code {
        Code::Char(c) => if c == 'c' && ctrl {
            Action::Quit
        } else if c == 'q' && !ctrl {
            Action::Quit
        } else if c == 'j' {
            Action::Move(1)
        } else if c == 'k' {
            Action::Move(-1isize)
        } else if c == 'g' {
            Action::Top
        } else if c == 'G' {
            Action::Bottom
        } else if c == 'd' && ctrl {
            Action::Move(10)
        } else if c == 'u' && ctrl {
            Action::Move(-10isize)
        } else if c == 'd' {
            Action::Cancel
        } else if c == 'u' {
            Action::Undo
        } else if c == ' ' {
            Action::Toggle
        } else if c == 'a' {
            Action::Add
        } else if c == 'o' {
            Action::Quick
        } else if c == 'h' {
            Action::Fold(Fold::Close)
        } else if c == 'l' {
            Action::Fold(Fold::Open)
        } else if c == 'z' {
            Action::Fold(Fold::Toggle)
        } else if c == 'X' {
            Action::Delete
        } else if c == 'p' {
            Action::Postpone
        } else if c == 'y' {
            Action::Duplicate
        } else if c == 'e' {
            Action::Edit
        } else if c == 'r' {
            Action::Reload
        } else if c == 's' {
            Action::Stats
        } else if c == '1' {
            Action::Over(Period::Week)
        } else if c == '2' {
            Action::Over(Period::Month)
        } else if c == '3' {
            Action::Over(Period::Year)
        } else if c == '?' {
            Action::Help
        } else if c == ':' {
            Action::Say("no command mode - ? for keys")
        } else if c == '/' {
            Action::Say("search comes in v2")
        } else {
            Action::Ignore
        },
        Code::Down => Action::Move(1),
        Code::Up => Action::Move(-1isize),
        Code::Enter => Action::Change,
        Code::Left => Action::Fold(Fold::Close),
        Code::Right => Action::Fold(Fold::Open),
        Code::Esc => Action::Close,
        _ => Action::Ignore,
    }
}

/// What a keypress means while the input is open: every list key is just a
/// letter in here.
#[derive(Debug, Clone, Copy, PartialEq, Eq, Structural)]
pub enum Typed {
    Char(char),
    Back,
    Delete,
    Left,
    Right,
    Home,
    End,
    /// `tab`: the date field, in and out.
    Field,
    /// `↑` `↓`, which mean nothing until the field is open.
    Step(i32),
    Save,
    /// `esc` and `ctrl-c`: lose the sentence, not the session.
    Cancel,
    Ignore,
}

/// The input's keymap. A modified key is nothing at all, except that ctrl
/// and alt together is AltGr and types its character.
pub open spec fn typed_of(k: Key) -> Typed {
    if k.release {
        Typed::Ignore
    } else {
        let alt = k.alt && !k.ctrl;
        match k.code {
            Code::Char(c) => if c == 'c' && chord(k) {
                Typed::Cancel
            } else if !chord(k) && !alt {
                Typed::Char(c)
            } else {
                Typed::Ignore
            },
            Code::Esc => Typed::Cancel,
            Code::Enter => Typed::Save,
            Code::Backspace => Typed::Back,
            Code::Delete => Typed::Delete,
            Code::Left => Typed::Left,
            Code::Right => Typed::Right,
            Code::Home => Typed::Home,
            Code::End => Typed::End,
            Code::Tab => Typed::Field,
            Code::BackTab => Typed::Field,
            Code::Up => Typed::Step(1),
            Code::Down => Typed::Step(-1i32),
            Code::Other => Typed::Ignore,
        }
    }
}

pub fn typing(key: Key) -> (r: Typed)
    ensures
        r == typed_of(key),
{
    if key.release {
        return Typed::Ignore;
    }
    let ctrl = key.ctrl && !key.alt;
    let alt = key.alt && !key.ctrl;
    match key.code {
        Code::Char(c) => if c == 'c' && ctrl {
            Typed::Cancel
        } else if !ctrl && !alt {
            Typed::Char(c)
        } else {
            Typed::Ignore
        },
        Code::Esc => Typed::Cancel,
        Code::Enter => Typed::Save,
        Code::Backspace => Typed::Back,
        Code::Delete => Typed::Delete,
        Code::Left => Typed::Left,
        Code::Right => Typed::Right,
        Code::Home => Typed::Home,
        Code::End => Typed::End,
        Code::Tab => Typed::Field,
        Code::BackTab => Typed::Field,
        Code::Up => Typed::Step(1),
        Code::Down => Typed::Step(-1i32),
        Code::Other => Typed::Ignore,
    }
}

} // verus!
