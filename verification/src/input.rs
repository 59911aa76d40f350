//! Front-end-agnostic input model.
//!
//! Each front-end decodes its native key events into a [`KeyChord`] and hands
//! it to the editor, so the same command dispatch drives every front-end. Key
//! *releases* are filtered out by the front-end adapters and never reach the
//! core.

use vstd::prelude::*;

verus! {

/// A logical key, independent of how it was physically produced.
#[derive(Clone, Copy, PartialEq, Eq, Debug, Structural)]
pub enum LogicalKey {
    /// A character (already case-folded by the platform; `Shift` is in the chord).
    Char(char),
    Enter,
    Tab,
    Backspace,
    Delete,
    Esc,
    Left,
    Right,
    Up,
    Down,
    Home,
    End,
    PageUp,
    PageDown,
}

/// A key plus its active modifiers: the unit of input the core dispatches on.
#[derive(Clone, Copy, PartialEq, Eq, Debug, Structural)]
pub struct KeyChord {
    pub key: LogicalKey,
    pub ctrl: bool,
    pub alt: bool,
    pub shift: bool,
}

impl KeyChord {
    /// A plain (unmodified) key.
    pub fn plain(key: LogicalKey) -> (k: Self)
        ensures
            k == (KeyChord { key, ctrl: false, alt: false, shift: false }),
    {
        KeyChord { key, ctrl: false, alt: false, shift: false }
    }

    /// A `Ctrl`-modified character, e.g. `KeyChord::ctrl('s')`.
    pub fn ctrl(c: char) -> (k: Self)
        ensures
            k == (KeyChord { key: LogicalKey::Char(c), ctrl: true, alt: false, shift: false }),
    {
        KeyChord { key: LogicalKey::Char(c), ctrl: true, alt: false, shift: false }
    }

    /// An `Alt`/`Meta`-modified character.
    pub fn alt(c: char) -> (k: Self)
        ensures
            k == (KeyChord { key: LogicalKey::Char(c), ctrl: false, alt: true, shift: false }),
    {
        KeyChord { key: LogicalKey::Char(c), ctrl: false, alt: true, shift: false }
    }
}

} // verus!
