//! The status line: a one-row summary rendered just above the echo line.
//!
//! Pure formatting: the editor builds a [`StatusLine`] from buffer state each
//! frame and asks it to render to the exact terminal width.

use vstd::prelude::*;

use crate::text::{clip, decimal, push_char, push_decimal, push_repeat, repeat, take_chars};

verus! {

/// The data shown on the status line. Built fresh per frame.
pub struct StatusLine {
    pub name: String,
    pub dirty: bool,
    pub readonly: bool,
    /// 1-based cursor line.
    pub line: usize,
    /// 1-based cursor column.
    pub col: usize,
    pub total_lines: usize,
}

/// The left part: the name, then the modified dot and the read-only flag.
pub open spec fn left_of(name: Seq<char>, dirty: bool, readonly: bool) -> Seq<char> {
    let dot = if dirty { " ●"@ } else { Seq::<char>::empty() };
    let ro = if readonly { " (ro)"@ } else { Seq::<char>::empty() };
    seq![' '] + name + dot + ro + seq![' ']
}

/// The right part: cursor position and line count.
pub open spec fn right_of(line: nat, col: nat, total: nat) -> Seq<char> {
    " Ln "@ + decimal(line) + ", Col "@ + decimal(col) + "  "@ + decimal(total) + " lines "@
}

/// The rendered row: left part, padding so that the parts fill `width` when
/// they fit, right part, all clipped to `width`.
pub open spec fn status_row(
    name: Seq<char>,
    dirty: bool,
    readonly: bool,
    line: nat,
    col: nat,
    total: nat,
    width: int,
) -> Seq<char> {
    let l = left_of(name, dirty, readonly);
    let r = right_of(line, col, total);
    let used = l.len() + r.len();
    let gap: nat = if width > used { (width - used) as nat } else { 0 };
    clip(l + repeat(' ', gap) + r, width)
}

/// What [`StatusLine::render`] draws for `s`.
pub open spec fn status_text(s: &StatusLine, width: int) -> Seq<char> {
    status_row(s.name@, s.dirty, s.readonly, s.line as nat, s.col as nat, s.total_lines as nat, width)
}

impl StatusLine {
    /// Render to exactly `width` columns: name and flags on the left, cursor
    /// position on the right, padded (or truncated) to fill the row.
    pub fn render(&self, width: usize) -> (r: String)
        ensures
            r@ == status_text(self, width as int),
            r@.len() == width,
    {
        let mut left = String::new();
        push_char(&mut left, ' ');
        left.append(self.name.as_str());
        if self.dirty {
            left.append(" ●");
        }
        if self.readonly {
            left.append(" (ro)");
        }
        push_char(&mut left, ' ');
        let mut right = String::from_str(" Ln ");
        push_decimal(&mut right, self.line);
        right.append(", Col ");
        push_decimal(&mut right, self.col);
        right.append("  ");
        push_decimal(&mut right, self.total_lines);
        right.append(" lines ");
        assert(left@ == left_of(self.name@, self.dirty, self.readonly));
        assert(right@ == right_of(self.line as nat, self.col as nat, self.total_lines as nat));
        let used = left.as_str().unicode_len() as u128 + right.as_str().unicode_len() as u128;
        let g: usize = if (width as u128) > used { (width as u128 - used) as usize } else { 0 };
        let mut row = left;
        push_repeat(&mut row, ' ', g);
        row.append(right.as_str());
        take_chars(row.as_str(), width)
    }
}

} // verus!
