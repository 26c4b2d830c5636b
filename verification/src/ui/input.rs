//! The actions a quiz understands, and how keys map to them.

use vstd::prelude::*;

verus! {

/// One action of the person taking the quiz.
#[derive(Debug, Clone, Copy, PartialEq, Eq, Structural)]
pub enum Input {
    /// Pick the option with this index, counted from zero.
    Pick(usize),
    /// Type a character.
    Char(char),
    /// Delete the last typed character.
    Back,
    /// Confirm: reveal the answer, or move on once it is revealed.
    Enter,
    /// Leave the quiz.
    Escape,
}

/// A key press, reduced to what the quiz distinguishes.
#[derive(Debug, Clone, Copy, PartialEq, Eq, Structural)]
pub enum Key {
    Enter,
    Backspace,
    Char(char),
    Esc,
    /// Any other key or event.
    Other,
}

/// The action that a key stands for. The digits `1` to `9` pick the options
/// 0 to 8; `0` and every other event stand for no action.
pub open spec fn decoded(key: Key) -> Option<Input> {
    match key {
        Key::Enter => Some(Input::Enter),
        Key::Backspace => Some(Input::Back),
        Key::Char(c) => if '1' <= c <= '9' {
            Some(Input::Pick((c as int - '1' as int) as usize))
        } else if c == '0' {
            None
        } else {
            Some(Input::Char(c))
        },
        Key::Esc => Some(Input::Escape),
        Key::Other => None,
    }
}

/// Maps a key to the action it stands for, or to `None` where the key is to
/// be dropped.
pub fn decode(key: Key) -> (r: Option<Input>)
    ensures
        r == decoded(key),
{
    match key {
        Key::Enter => Some(Input::Enter),
        Key::Backspace => Some(Input::Back),
        Key::Char(c) => {
            if c >= '1' && c <= '9' {
                let digit: u32 = c as u32 - '1' as u32;
                Some(Input::Pick(digit as usize))
            } else if c == '0' {
                None
            } else {
                Some(Input::Char(c))
            }
        },
        Key::Esc => Some(Input::Escape),
        Key::Other => None,
    }
}

} // verus!
