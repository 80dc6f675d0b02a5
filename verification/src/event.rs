//! Input events consumed by the matching pipeline.

use vstd::prelude::*;

verus! {

/// A key reported by an input source. Printable keys carry their character;
/// a few non-printable keys that still take part in matching (they can
/// terminate a trigger that requires a right word boundary) are classified
/// explicitly. Every other non-character key is `Other` and is treated as a
/// reset by the matcher, since it may move the cursor.
#[derive(Clone, Copy, PartialEq, Eq, Structural, Debug)]
pub enum Key {
    Char(char),
    Enter,
    Tab,
    Other,
}

/// One event of the input stream, ordered by arrival.
#[derive(Clone, Copy, PartialEq, Eq, Structural, Debug)]
pub enum Event {
    /// A key was pressed.
    Key(Key),
    /// The previously typed character was deleted.
    Backspace,
    /// The cursor moved or the focused application changed: typing context
    /// is lost and all in-progress matches must be discarded.
    Reset,
}

/// The character a key contributes to the typed stream, if any.
pub open spec fn key_char_spec(k: Key) -> Option<char> {
    match k {
        Key::Char(c) => Some(c),
        Key::Enter => Some('\n'),
        Key::Tab => Some('\t'),
        Key::Other => None,
    }
}

pub fn key_char(k: Key) -> (r: Option<char>)
    ensures
        r == key_char_spec(k),
{
    match k {
        Key::Char(c) => Some(c),
        Key::Enter => Some('\n'),
        Key::Tab => Some('\t'),
        Key::Other => None,
    }
}

/// How one event transforms the stream of typed characters: a classified
/// key appends its character, a backspace un-types the last character, and
/// a reset (or an unclassified key) starts a fresh stream.
pub open spec fn typed_step(typed: Seq<char>, ev: Event) -> Seq<char> {
    match ev {
        Event::Key(k) => match key_char_spec(k) {
            Some(c) => typed.push(c),
            None => Seq::empty(),
        },
        Event::Backspace => if typed.len() > 0 {
            typed.drop_last()
        } else {
            typed
        },
        Event::Reset => Seq::empty(),
    }
}

} // verus!
