//! Keys as they come from the terminal.
use crate::text;
use crate::text::lower;
use vstd::prelude::*;

verus! {

/// Which key was pressed. `Other` stands for every key that means nothing here.
#[derive(Debug, Clone, Copy, PartialEq, Eq, Structural)]
pub enum KeyCode {
    Char(char),
    Enter,
    Esc,
    Backspace,
    Up,
    Down,
    PageUp,
    PageDown,
    Home,
    End,
    Other,
}

/// A key and the modifiers held with it.
#[derive(Debug, Clone, Copy, PartialEq, Eq, Structural)]
pub struct KeyEvent {
    pub code: KeyCode,
    pub control: bool,
    pub alt: bool,
}

/// What happened to a key.
#[derive(Debug, Clone, Copy, PartialEq, Eq, Structural)]
pub enum KeyKind {
    Press,
    Repeat,
    Release,
}

/// What comes from the terminal.
#[derive(Debug, Clone, Copy, PartialEq, Eq, Structural)]
pub enum Input {
    Key(KeyEvent, KeyKind),
    Other,
}

/// The key that an input stands for: one that was pressed or is held down.
pub fn next_key(input: Input) -> (key: Option<KeyEvent>)
    ensures
        key == (match input {
            Input::Key(pressed, KeyKind::Press) => Some(pressed),
            Input::Key(pressed, KeyKind::Repeat) => Some(pressed),
            _ => None,
        }),
{
    match input {
        Input::Key(pressed, KeyKind::Press) => Some(pressed),
        Input::Key(pressed, KeyKind::Repeat) => Some(pressed),
        _ => None,
    }
}

/// The key is Ctrl+C.
pub open spec fn interrupts(key: KeyEvent) -> bool {
    key.code == KeyCode::Char('c') && key.control
}

/// The text of a character key in lowercase, whatever modifiers are held.
pub open spec fn text_of(key: KeyEvent) -> Option<Seq<char>> {
    match key.code {
        KeyCode::Char(character) => Some(text::lowered(seq![character])),
        _ => None,
    }
}

/// The character that a key types: none with Ctrl or Alt.
pub open spec fn typed(key: KeyEvent) -> Option<char> {
    match key.code {
        KeyCode::Char(character) => if key.control || key.alt {
            None
        } else {
            Some(character)
        },
        _ => None,
    }
}

/// The key is Ctrl+C.
pub fn ctrl_c(key: KeyEvent) -> (answer: bool)
    ensures
        answer == interrupts(key),
{
    key.code == KeyCode::Char('c') && key.control
}

/// The text of a character key in lowercase.
pub fn key_text(key: KeyEvent) -> (shown: Option<String>)
    ensures
        text::optional_text(shown) == text_of(key),
{
    match key.code {
        KeyCode::Char(character) => {
            let mut value = String::new();
            value.push(character);
            assert(value@ == seq![character]);
            Some(lower(value.as_str()))
        },
        _ => None,
    }
}

/// The character that a key types.
pub fn key_character(key: KeyEvent) -> (character: Option<char>)
    ensures
        character == typed(key),
{
    match key.code {
        KeyCode::Char(character) => if key.control || key.alt {
            None
        } else {
            Some(character)
        },
        _ => None,
    }
}

/// A character key stands for its character in lowercase, whatever is held with it,
/// and types the character as it is only without Ctrl and Alt. Of all keys `c` with
/// Ctrl alone interrupts, and keys that are no characters stand for no text.
pub proof fn keys_stand_for_their_characters(key: KeyEvent, character: char)
    ensures
        key.code == KeyCode::Char(character) ==> text_of(key) == Some(
            text::lowered(seq![character]),
        ),
        key.code == KeyCode::Char(character) && !key.control && !key.alt ==> typed(key) == Some(
            character,
        ),
        key.control || key.alt ==> typed(key) is None,
        !(key.code is Char) ==> text_of(key) is None && typed(key) is None && !interrupts(key),
        key.code == KeyCode::Char(character) ==> (interrupts(key) <==> character == 'c'
            && key.control),
{
}

} // verus!
