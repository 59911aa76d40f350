//! Front-end-agnostic view model.
//!
//! The editor turns its current state into a [`Frame`]: the visible rows, the
//! chrome strings, the cursor cell, and the LEAP highlight, all in character
//! cells, with no drawing. Each front-end maps a `Frame` to its medium.

use vstd::prelude::*;

use crate::text::{push_repeat, repeat};

verus! {

/// One visible text-area row.
#[derive(Clone, PartialEq, Eq, Debug)]
pub enum Row {
    /// Already display-expanded (tabs), horizontally scrolled, and clipped to
    /// the viewport width.
    Text(String),
    /// A document-boundary marker line, drawn as a full-width rule.
    MarkerRule,
    /// Past the end of the buffer, drawn as a `~` placeholder.
    Tilde,
}

/// Frame metadata: everything a front-end needs except the row contents.
#[derive(PartialEq, Eq, Debug)]
pub struct FrameMeta {
    /// First visible line and column (the settled scroll target).
    pub top: usize,
    pub left: usize,
    /// Text-area height in rows (viewport minus the two chrome rows).
    pub text_rows: usize,
    pub status: String,
    pub echo: String,
    /// Cursor `(col, row)` in cells, viewport-relative.
    pub cursor: (usize, usize),
    pub full_repaint: bool,
    pub redraw_text: bool,
}

/// A complete, render-ready snapshot of the editor for one frame, in cells.
#[derive(PartialEq, Eq, Debug)]
pub struct Frame {
    /// Exactly `text_rows` entries (viewport height minus the two chrome rows).
    pub rows: Vec<Row>,
    /// The status line, formatted to the full width.
    pub status: String,
    /// The echo line (LEAP label or a transient message), clipped to width.
    pub echo: String,
    /// Cursor position in cells, viewport-relative: `(col, row)`.
    pub cursor: (usize, usize),
    /// Per-text-row inverse highlight (the LEAP match): one entry per row, each
    /// an optional `(start_col, end_col)` span in visible cells.
    pub highlights: Vec<Option<(usize, usize)>>,
    /// The whole surface should be cleared and repainted.
    pub full_repaint: bool,
    /// Only the text rows should be force-repainted.
    pub redraw_text: bool,
}

} // verus!

verus! {

/// A full-width horizontal rule, drawn in place of a document-boundary
/// marker line.
pub fn marker_rule(width: usize) -> (s: String)
    ensures
        s@ == repeat('─', width as nat),
{
    let mut s = String::new();
    push_repeat(&mut s, '─', width);
    s
}

} // verus!
