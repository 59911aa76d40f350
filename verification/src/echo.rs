//! The echo line: the bottom screen row, display-only.
//!
//! It replaces the Emacs-style minibuffer's *message* role without its modal
//! input role: the bottom row only ever *shows* a transient message; all real
//! input happens in the buffer or a LEAP session.

use vstd::prelude::*;

use crate::text::{clip, take_chars};

verus! {

/// A transient one-line message, cleared on the next keystroke.
pub struct Echo {
    message: String,
}

impl View for Echo {
    type V = Seq<char>;

    /// The message currently shown.
    closed spec fn view(&self) -> Seq<char> {
        self.message@
    }
}

impl Default for Echo {
    /// An echo line showing nothing.
    fn default() -> (e: Self)
        ensures
            e@ == Seq::<char>::empty(),
    {
        Echo { message: String::new() }
    }
}

impl Echo {
    /// Show a transient message.
    pub fn show(&mut self, msg: &str)
        ensures
            final(self)@ == msg@,
    {
        self.message = msg.to_owned();
    }

    /// Clear the message (called on each ordinary keystroke).
    pub fn clear(&mut self)
        ensures
            final(self)@ == Seq::<char>::empty(),
    {
        self.message = String::new();
    }

    /// The text to display, clipped to `width`.
    pub fn render(&self, width: usize) -> (r: String)
        ensures
            r@ == clip(self@, width as int),
    {
        take_chars(self.message.as_str(), width)
    }
}

} // verus!
