//! What each key and mouse event asks of the picker. Typing into the question box takes every
//! plain character; browsing gives each key one job, with Esc first dropping a live selection.

use vstd::prelude::*;

use crate::app::Grain;

verus! {

/// A key the picker can be handed, as the terminal reports it.
#[derive(Debug, Clone, Copy, PartialEq, Eq, Structural)]
pub enum Key {
    Char(char),
    Esc,
    Enter,
    Backspace,
    Up,
    Down,
    Left,
    Right,
    Home,
    End,
    PageUp,
    PageDown,
    Other,
}

/// A mouse event the picker can be handed.
#[derive(Debug, Clone, Copy, PartialEq, Eq, Structural)]
pub enum Mouse {
    WheelDown,
    WheelUp,
    /// The left button went down.
    Press,
    /// The left button moved while held.
    Drag,
    Other,
}

/// What an event asks the picker to do.
#[derive(Debug, Clone, Copy, PartialEq, Eq, Structural)]
pub enum Command {
    Nothing,
    Quit,
    ClearRange,
    MoveByLine(isize),
    MoveByChar(isize),
    MoveToLine(usize),
    PageBy(isize),
    NextTurn,
    PrevTurn,
    ToggleRange(Grain),
    Ask,
    EditPair,
    DeletePair,
    Send,
    CancelAsk,
    BankPair,
    Backspace,
    ClearQuestion,
    Type(char),
    ScrollBy(isize),
    Press,
    Drag,
}

/// Source lines a wheel notch moves the viewport. One, not the conventional three: the
/// picker is read at reading speed, and a three-line jump overshoots the line you came for.
pub const WHEEL: isize = 1;

/// The job of a character key while browsing.
pub open spec fn browse_char(c: char) -> Command {
    if c == 'q' {
        Command::Quit
    } else if c == 'j' {
        Command::MoveByLine(1)
    } else if c == 'k' {
        Command::MoveByLine((-1) as isize)
    } else if c == 'l' {
        Command::MoveByChar(1)
    } else if c == 'h' {
        Command::MoveByChar((-1) as isize)
    } else if c == 'g' {
        Command::MoveToLine(0)
    } else if c == 'G' {
        Command::MoveToLine(usize::MAX)
    } else if c == ']' {
        Command::NextTurn
    } else if c == '[' {
        Command::PrevTurn
    } else if c == 'v' {
        Command::ToggleRange(Grain::Char)
    } else if c == 'V' {
        Command::ToggleRange(Grain::Line)
    } else if c == 'c' || c == 'C' {
        Command::Ask
    } else if c == 'e' || c == 'E' {
        Command::EditPair
    } else if c == 'd' || c == 'D' {
        Command::DeletePair
    } else if c == 's' || c == 'S' {
        Command::Send
    } else {
        Command::Nothing
    }
}

/// What `key` does: in the question box it edits the question (Ctrl-U clears it, other
/// control chords do nothing); while browsing it moves, selects, banks or sends, whatever
/// modifier is held.
pub open spec fn key_spec(key: Key, ctrl: bool, asking: bool, selecting: bool) -> Command {
    if asking {
        match key {
            Key::Esc => Command::CancelAsk,
            Key::Enter => Command::BankPair,
            Key::Backspace => Command::Backspace,
            Key::Char(c) => if !ctrl {
                Command::Type(c)
            } else if c == 'u' {
                Command::ClearQuestion
            } else {
                Command::Nothing
            },
            _ => Command::Nothing,
        }
    } else {
        match key {
            Key::Esc => if selecting {
                Command::ClearRange
            } else {
                Command::Quit
            },
            Key::Char(c) => browse_char(c),
            Key::Down => Command::MoveByLine(1),
            Key::Up => Command::MoveByLine((-1) as isize),
            Key::Right => Command::MoveByChar(1),
            Key::Left => Command::MoveByChar((-1) as isize),
            Key::Home => Command::MoveToLine(0),
            Key::End => Command::MoveToLine(usize::MAX),
            Key::PageDown => Command::PageBy(1),
            Key::PageUp => Command::PageBy((-1) as isize),
            _ => Command::Nothing,
        }
    }
}

fn browse_char_command(c: char) -> (r: Command)
    ensures
        r == browse_char(c),
{
    if c == 'q' {
        Command::Quit
    } else if c == 'j' {
        Command::MoveByLine(1)
    } else if c == 'k' {
        Command::MoveByLine(-1)
    } else if c == 'l' {
        Command::MoveByChar(1)
    } else if c == 'h' {
        Command::MoveByChar(-1)
    } else if c == 'g' {
        Command::MoveToLine(0)
    } else if c == 'G' {
        Command::MoveToLine(usize::MAX)
    } else if c == ']' {
        Command::NextTurn
    } else if c == '[' {
        Command::PrevTurn
    } else if c == 'v' {
        Command::ToggleRange(Grain::Char)
    } else if c == 'V' {
        Command::ToggleRange(Grain::Line)
    } else if c == 'c' || c == 'C' {
        Command::Ask
    } else if c == 'e' || c == 'E' {
        Command::EditPair
    } else if c == 'd' || c == 'D' {
        Command::DeletePair
    } else if c == 's' || c == 'S' {
        Command::Send
    } else {
        Command::Nothing
    }
}

/// What a key press asks for, given whether the question box is up and a selection is live.
pub fn key_command(key: Key, ctrl: bool, asking: bool, selecting: bool) -> (r: Command)
    ensures
        r == key_spec(key, ctrl, asking, selecting),
{
    if asking {
        match key {
            Key::Esc => Command::CancelAsk,
            Key::Enter => Command::BankPair,
            Key::Backspace => Command::Backspace,
            Key::Char(c) => if !ctrl {
                Command::Type(c)
            } else if c == 'u' {
                Command::ClearQuestion
            } else {
                Command::Nothing
            },
            _ => Command::Nothing,
        }
    } else {
        match key {
            Key::Esc => if selecting {
                Command::ClearRange
            } else {
                Command::Quit
            },
            Key::Char(c) => browse_char_command(c),
            Key::Down => Command::MoveByLine(1),
            Key::Up => Command::MoveByLine(-1),
            Key::Right => Command::MoveByChar(1),
            Key::Left => Command::MoveByChar(-1),
            Key::Home => Command::MoveToLine(0),
            Key::End => Command::MoveToLine(usize::MAX),
            Key::PageDown => Command::PageBy(1),
            Key::PageUp => Command::PageBy(-1),
            _ => Command::Nothing,
        }
    }
}

/// What the mouse does: the wheel scrolls, the left button selects — and nothing while the
/// question box is up.
pub open spec fn mouse_spec(mouse: Mouse, asking: bool) -> Command {
    if asking {
        Command::Nothing
    } else {
        match mouse {
            Mouse::WheelDown => Command::ScrollBy(WHEEL),
            Mouse::WheelUp => Command::ScrollBy((-WHEEL) as isize),
            Mouse::Press => Command::Press,
            Mouse::Drag => Command::Drag,
            Mouse::Other => Command::Nothing,
        }
    }
}

pub fn mouse_command(mouse: Mouse, asking: bool) -> (r: Command)
    ensures
        r == mouse_spec(mouse, asking),
{
    if asking {
        return Command::Nothing;
    }
    match mouse {
        Mouse::WheelDown => Command::ScrollBy(WHEEL),
        Mouse::WheelUp => Command::ScrollBy(-WHEEL),
        Mouse::Press => Command::Press,
        Mouse::Drag => Command::Drag,
        Mouse::Other => Command::Nothing,
    }
}

} // verus!
