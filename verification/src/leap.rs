//! LEAP: incremental search-to-move, the editor's namesake navigation.
//!
//! Press `C-s`/`C-r` to start leaping forward/backward, then type the target
//! text and the cursor flies to each match as you type; press the key again to
//! jump to the next occurrence; `Enter` lands; `Esc`/`C-g` returns to where you
//! started. This struct is the session *state*; the editor drives the search
//! against the buffer.

use vstd::prelude::*;

use crate::text::{any_uppercase, has_uppercase, push_char};

verus! {

/// Search direction.
#[derive(Clone, Copy, PartialEq, Eq, Debug, Structural)]
pub enum Dir {
    Forward,
    Backward,
}

/// An active LEAP session.
pub struct Leap {
    pub dir: Dir,
    pub query: String,
    /// Cursor position when the session began: restored on cancel.
    pub origin: usize,
    /// Start char index of the current match, or `None` while failing/empty.
    pub matched: Option<usize>,
    /// Whether the current match was found only after wrapping around.
    pub wrapped: bool,
}

/// The arrow shown for a direction on the echo line.
pub open spec fn arrow(dir: Dir) -> char {
    match dir {
        Dir::Forward => '→',
        Dir::Backward => '←',
    }
}

/// The echo-line label of a session searching `dir` for `query`, with or
/// without a current match, e.g. `LEAP→ foo  (wrapped)`.
pub open spec fn leap_label(dir: Dir, query: Seq<char>, has_match: bool, wrapped: bool) -> Seq<char> {
    let head = "LEAP"@.push(arrow(dir)).push(' ') + query;
    if query.len() > 0 && !has_match {
        head + "  (no match)"@
    } else if wrapped {
        head + "  (wrapped)"@
    } else {
        head
    }
}

/// The echo-line label of a session.
pub open spec fn label_text(l: &Leap) -> Seq<char> {
    leap_label(l.dir, l.query@, l.matched is Some, l.wrapped)
}

impl Leap {
    /// A fresh session in `dir` that started at `origin`.
    pub fn new(dir: Dir, origin: usize) -> (l: Self)
        ensures
            l.dir == dir,
            l.query@ == Seq::<char>::empty(),
            l.origin == origin,
            l.matched is None,
            !l.wrapped,
    {
        Leap { dir, query: String::new(), origin, matched: None, wrapped: false }
    }

    /// Smart case: case-insensitive unless the query contains an uppercase
    /// letter.
    pub fn insensitive(&self) -> (b: bool)
        ensures
            b == !has_uppercase(self.query@),
    {
        !any_uppercase(self.query.as_str())
    }

    /// The echo-line label, e.g. `LEAP→ foo  (wrapped)`.
    pub fn label(&self) -> (s: String)
        ensures
            s@ == label_text(self),
    {
        let mut s = String::from_str("LEAP");
        let a = match self.dir {
            Dir::Forward => '→',
            Dir::Backward => '←',
        };
        push_char(&mut s, a);
        push_char(&mut s, ' ');
        s.append(self.query.as_str());
        if !self.query.as_str().is_empty() && self.matched.is_none() {
            s.append("  (no match)");
        } else if self.wrapped {
            s.append("  (wrapped)");
        }
        s
    }
}

} // verus!
