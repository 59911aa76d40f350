//! The editable document: the single continuous text stream.
//!
//! A [`Buffer`] wraps a `ropey::Rope` and owns the editing state that goes
//! with it: the cursor, a sticky goal column for vertical movement, the dirty
//! flag, and a journal of the edits applied since it was last drained.
//!
//! Every mutation is also recorded in the journal as [`EditOp`]s, which the
//! editor drains and appends to the [store](crate::store) after each
//! keystroke; the journal always replays the text it started from into the
//! current text.
//!
//! The cursor is a single char index into the rope (`0..=len_chars`). Line and
//! column are derived from it on demand. Columns come in two flavours: **char
//! columns** (used for movement and the status line) and **display columns**
//! (tabs expanded), used for rendering and scrolling.

use vstd::prelude::*;

use crate::rope::{rope_text, breaks_before, line_count, line_start, lemma_line_start_bounds, lemma_line_of_starts_before, lemma_breaks_before_mono, rope_from_str, rope_len_chars, rope_len_lines, rope_char, rope_char_to_line, rope_line_to_char, rope_insert_char, rope_insert, rope_remove, rope_slice_string, rope_chars};
use crate::store::{apply_op, replay, replay_exact, EditOp, Op, exact, ops_of};
use crate::text::{char_is_alphanumeric, char_is_control, clip, is_alphanumeric, is_control, push_char,
    push_repeat, repeat, trimmed};

verus! {

/// Width a tab expands to on screen.
pub const TAB_WIDTH: usize = 4;

/// The most chars a buffer holds: a quarter of the address space, so that
/// with tabs expanded (at most four columns a char) every display column
/// still fits a `usize`. A rope runs out of memory long before it.
pub const MAX_CHARS: usize = usize::MAX / 4;

/// The in-band sentinel char marking a document boundary in the stream:
/// U+001E RECORD SEPARATOR.
pub const DOC_MARKER: char = '\u{1e}';

/// How many columns a character advances the cursor, given the current column.
pub open spec fn advance(c: char, col: int) -> int {
    if c == '\t' {
        4 - col % 4
    } else {
        1
    }
}

/// The display column reached after the chars of `s`, starting at column
/// `col`, stopping at a line break char (`\n` or `\r`).
pub open spec fn width_from(s: Seq<char>, col: int) -> int
    decreases s.len(),
{
    if s.len() == 0 || s[0] == '\n' || s[0] == '\r' {
        col
    } else {
        width_from(s.drop_first(), col + advance(s[0], col))
    }
}

/// The chars of `s` as shown from column `col`: tabs expanded to the next
/// tab stop, line breaks and document markers dropped.
pub open spec fn expand(s: Seq<char>, col: int) -> Seq<char>
    decreases s.len(),
{
    if s.len() == 0 {
        Seq::empty()
    } else if s[0] == '\n' || s[0] == '\r' || s[0] == DOC_MARKER {
        expand(s.drop_first(), col)
    } else if s[0] == '\t' {
        repeat(' ', advance('\t', col) as nat) + expand(s.drop_first(), col + advance('\t', col))
    } else {
        seq![s[0]] + expand(s.drop_first(), col + 1)
    }
}

/// `s` without its first `n` chars (empty when shorter).
pub open spec fn drop_chars(s: Seq<char>, n: int) -> Seq<char> {
    if n <= s.len() {
        s.skip(n)
    } else {
        Seq::empty()
    }
}

/// The chars of line `l` of `s`, its line break included.
pub open spec fn line_chars(s: Seq<char>, l: int) -> Seq<char> {
    s.subrange(line_start(s, l), line_start(s, l + 1))
}

/// Length of line `l` in chars, excluding a trailing `\n` or `\r\n`.
pub open spec fn line_len(s: Seq<char>, l: int) -> int {
    if l >= line_count(s) {
        0
    } else {
        let a = line_start(s, l);
        let b = line_start(s, l + 1);
        if b - a > 0 && s[b - 1] == '\n' {
            if b - a > 1 && s[b - 2] == '\r' {
                b - a - 2
            } else {
                b - a - 1
            }
        } else {
            b - a
        }
    }
}

/// The line holding char index `c`.
pub open spec fn line_of(s: Seq<char>, c: int) -> int {
    breaks_before(s, c) as int
}

/// The char column of index `c` within its line.
pub open spec fn col_of(s: Seq<char>, c: int) -> int {
    c - line_start(s, line_of(s, c))
}

/// The display column of char index `c` within its line (tabs expanded).
pub open spec fn display_col_of(s: Seq<char>, c: int) -> int {
    width_from(s.subrange(line_start(s, line_of(s, c)), c), 0)
}

/// Whether `c` counts as part of a word for word movement and word kills.
pub open spec fn is_word(c: char) -> bool {
    char_is_alphanumeric(c) || c == '_'
}

/// From `i`, the first index whose char is (`word`) or is not (`!word`) a
/// word char, or the end.
pub open spec fn skip_fwd(s: Seq<char>, i: int, word: bool) -> int
    decreases s.len() - i,
{
    if i < 0 || i >= s.len() {
        i
    } else if is_word(s[i]) != word {
        skip_fwd(s, i + 1, word)
    } else {
        i
    }
}

/// From `i` backwards, the first index whose preceding char is (`word`) or
/// is not (`!word`) a word char, or the start.
pub open spec fn skip_back(s: Seq<char>, i: int, word: bool) -> int
    decreases i,
{
    if i <= 0 || i > s.len() {
        i
    } else if is_word(s[i - 1]) != word {
        skip_back(s, i - 1, word)
    } else {
        i
    }
}

/// The end of the next word at or after `i`: skip non-word chars, then word
/// chars.
pub open spec fn word_end_after(s: Seq<char>, i: int) -> int {
    skip_fwd(s, skip_fwd(s, i, true), false)
}

/// The start of the word before `i`: skip non-word chars, then word chars.
pub open spec fn word_start_before(s: Seq<char>, i: int) -> int {
    skip_back(s, skip_back(s, i, true), false)
}

/// A char's ASCII-lowercased code (other chars unchanged).
pub open spec fn ascii_fold(c: char) -> u32 {
    let x = c as u32;
    if 65 <= x <= 90 {
        (x + 32) as u32
    } else {
        x
    }
}

/// Whether two chars match, ASCII-case-insensitively when `insensitive`.
pub open spec fn chars_match(a: char, b: char, insensitive: bool) -> bool {
    if insensitive {
        ascii_fold(a) == ascii_fold(b)
    } else {
        a == b
    }
}

/// Whether `needle` matches `hay` at index `i`.
pub open spec fn matches_at_spec(hay: Seq<char>, needle: Seq<char>, i: int, insensitive: bool) -> bool {
    &&& 0 <= i
    &&& i + needle.len() <= hay.len()
    &&& forall|k: int| 0 <= k < needle.len() ==> chars_match(#[trigger] hay[i + k], needle[k], insensitive)
}

/// The first index at or after `i` where `needle` matches.
pub open spec fn first_match(hay: Seq<char>, needle: Seq<char>, i: int, insensitive: bool) -> Option<int>
    decreases hay.len() - i,
{
    if i < 0 || i + needle.len() > hay.len() {
        None
    } else if matches_at_spec(hay, needle, i, insensitive) {
        Some(i)
    } else {
        first_match(hay, needle, i + 1, insensitive)
    }
}

/// The last index before `b` where `needle` matches.
pub open spec fn last_match_before(hay: Seq<char>, needle: Seq<char>, b: int, insensitive: bool) -> Option<int>
    decreases b,
{
    if b <= 0 {
        None
    } else if matches_at_spec(hay, needle, b - 1, insensitive) {
        Some(b - 1)
    } else {
        last_match_before(hay, needle, b - 1, insensitive)
    }
}

/// The first document marker at or after `i`.
pub open spec fn marker_from(s: Seq<char>, i: int) -> Option<int>
    decreases s.len() - i,
{
    if i < 0 || i >= s.len() {
        None
    } else if s[i] == DOC_MARKER {
        Some(i)
    } else {
        marker_from(s, i + 1)
    }
}

/// The last document marker before `p`.
pub open spec fn marker_before(s: Seq<char>, p: int) -> Option<int>
    decreases p,
{
    if p <= 0 || p > s.len() {
        None
    } else if s[p - 1] == DOC_MARKER {
        Some(p - 1)
    } else {
        marker_before(s, p - 1)
    }
}

/// The first char of the document body that the marker at `m` introduces:
/// the start of the line after the marker.
pub open spec fn body_start(s: Seq<char>, m: int) -> int {
    let next = breaks_before(s, m) + 1;
    line_start(s, if next <= line_count(s) { next as int } else { line_count(s) as int })
}

/// Start of the document body containing char index `p`.
pub open spec fn doc_start(s: Seq<char>, p: int) -> int {
    match marker_before(s, p) {
        Some(m) => body_start(s, m),
        None => 0,
    }
}

/// From `i`, the first index holding `\n` or a document marker, or the end.
pub open spec fn title_end(s: Seq<char>, i: int) -> int
    decreases s.len() - i,
{
    if i < 0 || i >= s.len() || s[i] == '\n' || s[i] == DOC_MARKER {
        i
    } else {
        title_end(s, i + 1)
    }
}

/// `s` without its control chars.
pub open spec fn drop_controls(s: Seq<char>) -> Seq<char>
    decreases s.len(),
{
    if s.len() == 0 {
        s
    } else if char_is_control(s.last()) {
        drop_controls(s.drop_last())
    } else {
        drop_controls(s.drop_last()).push(s.last())
    }
}

/// Edits inserting the chars of `s` one by one from index `p`.
pub open spec fn char_inserts(p: int, s: Seq<char>) -> Seq<Op> {
    Seq::new(s.len(), |i: int| Op { insert: true, pos: p + i, text: seq![s[i]] })
}

/// The state of a [`Buffer`] as plain values.
pub struct BufferState {
    pub text: Seq<char>,
    pub cursor: int,
    pub goal: Option<int>,
    pub dirty: bool,
    /// Edits applied since the journal was last drained, in apply order.
    pub journal: Seq<Op>,
    /// The text the journal starts from.
    pub base: Seq<char>,
}

/// An open document plus its cursor and edit state.
pub struct Buffer {
    rope: ropey::Rope,
    /// Cursor as a char index into the rope, in `0..=len_chars`.
    cursor: usize,
    /// Sticky target char column for up/down; cleared by any horizontal move
    /// or edit.
    goal_col: Option<usize>,
    dirty: bool,
    /// Edits applied since the last drain, in apply order, awaiting persistence.
    journal: Vec<EditOp>,
    /// The text the journal starts from.
    journal_base: Ghost<Seq<char>>,
}

impl View for Buffer {
    type V = BufferState;

    closed spec fn view(&self) -> BufferState {
        BufferState {
            text: rope_text(self.rope),
            cursor: self.cursor as int,
            goal: match self.goal_col {
                Some(g) => Some(g as int),
                None => None,
            },
            dirty: self.dirty,
            journal: ops_of(self.journal@),
            base: self.journal_base@,
        }
    }
}

/// The buffer's invariant: the cursor inside the text, the text within
/// [`MAX_CHARS`], and the journal replaying its base, edit by edit exactly,
/// into the current text.
pub open spec fn buffer_wf(b: BufferState) -> bool {
    &&& b.text.len() <= MAX_CHARS
    &&& 0 <= b.cursor <= b.text.len()
    &&& replay(b.base, b.journal) == b.text
    &&& replay_exact(b.base, b.journal)
}


/// A char's ASCII-lowercased code (`u8::to_ascii_lowercase` on ASCII letters).
fn fold(c: char) -> (x: u32)
    ensures
        x == ascii_fold(c),
{
    let x = c as u32;
    if 65 <= x && x <= 90 {
        x + 32
    } else {
        x
    }
}

/// Whether `a` and `b` match, ASCII-case-insensitively when `insensitive`.
fn chars_eq(a: char, b: char, insensitive: bool) -> (r: bool)
    ensures
        r == chars_match(a, b, insensitive),
{
    if insensitive {
        fold(a) == fold(b)
    } else {
        a == b
    }
}

/// Whether `needle` matches `hay` at index `i` (ASCII-case-insensitive when
/// `insensitive`).
pub fn matches_at(hay: &[char], needle: &[char], i: usize, insensitive: bool) -> (r: bool)
    ensures
        r == matches_at_spec(hay@, needle@, i as int, insensitive),
{
    if needle.len() > hay.len() || i > hay.len() - needle.len() {
        return false;
    }
    let hl = hay.len();
    let mut k: usize = 0;
    while k < needle.len()
        invariant
            hl == hay@.len(),
            i + needle@.len() <= hay@.len(),
            k <= needle@.len(),
            forall|j: int| 0 <= j < k ==> chars_match(#[trigger] hay@[i + j], needle@[j], insensitive),
        decreases needle.len() - k,
    {
        assert(i + k < hl);
        if !chars_eq(hay[i + k], needle[k], insensitive) {
            return false;
        }
        k += 1;
    }
    true
}

/// First index `>= from` where `needle` matches.
pub fn find_from(text: &[char], needle: &[char], from: usize, insensitive: bool) -> (r: Option<usize>)
    ensures
        r matches Some(i) ==> first_match(text@, needle@, from as int, insensitive) == Some(i as int),
        r is None ==> first_match(text@, needle@, from as int, insensitive) is None,
{
    let mut i = from;
    while needle.len() <= text.len() && i <= text.len() - needle.len()
        invariant
            from <= i,
            first_match(text@, needle@, from as int, insensitive) == first_match(text@, needle@, i as int, insensitive),
        decreases text.len() - i,
    {
        if matches_at(text, needle, i, insensitive) {
            return Some(i);
        }
        i += 1;
    }
    None
}

/// With no match in `[i, b)`, the last match before `b` is the last before `i`.
proof fn lemma_no_match_between(hay: Seq<char>, needle: Seq<char>, i: int, b: int, insensitive: bool)
    requires
        i <= b,
        forall|j: int| i <= j < b ==> !matches_at_spec(hay, needle, j, insensitive),
    ensures
        last_match_before(hay, needle, b, insensitive) == last_match_before(hay, needle, i, insensitive),
    decreases b - i,
{
    if i < b {
        lemma_no_match_between(hay, needle, i, b - 1, insensitive);
    }
}

/// Greatest index `< before` where `needle` matches.
pub fn find_last_before(text: &[char], needle: &[char], before: usize, insensitive: bool) -> (r: Option<usize>)
    ensures
        r matches Some(i) ==> last_match_before(text@, needle@, before as int, insensitive) == Some(i as int),
        r is None ==> last_match_before(text@, needle@, before as int, insensitive) is None,
{
    let mut best: Option<usize> = None;
    let mut i: usize = 0;
    while needle.len() <= text.len() && i <= text.len() - needle.len() && i < before
        invariant
            i <= before,
            best matches Some(k) ==> last_match_before(text@, needle@, i as int, insensitive) == Some(k as int),
            best is None ==> last_match_before(text@, needle@, i as int, insensitive) is None,
        decreases before - i,
    {
        if matches_at(text, needle, i, insensitive) {
            best = Some(i);
        }
        i += 1;
    }
    proof {
        lemma_no_match_between(text@, needle@, i as int, before as int, insensitive);
    }
    best
}

/// How many columns a character advances the cursor, given the current column.
fn tab_advance(c: char, col: usize) -> (n: usize)
    ensures
        n == advance(c, col as int),
{
    if c == '\t' {
        TAB_WIDTH - (col % TAB_WIDTH)
    } else {
        1
    }
}

/// Whether `c` counts as part of a word for `M-f`/`M-b`/`C-w`.
pub fn is_word_char(c: char) -> (b: bool)
    ensures
        b == is_word(c),
{
    is_alphanumeric(c) || c == '_'
}

impl Buffer {
    /// The buffer's invariant holds.
    pub open spec fn wf(&self) -> bool {
        buffer_wf(self@)
    }

    /// Build a buffer from existing text, placing the cursor at char index
    /// `cursor` (clamped). The text is treated as already persisted, so it
    /// does not enter the journal and the buffer starts clean.
    pub fn from_text(text: &str, cursor: usize) -> (b: Self)
        requires
            text@.len() <= MAX_CHARS,
        ensures
            b.wf(),
            b@.text == text@,
            b@.cursor == (if cursor <= text@.len() { cursor as int } else { text@.len() as int }),
            b@.goal is None,
            !b@.dirty,
            b@.journal == Seq::<Op>::empty(),
            b@.base == text@,
    {
        let rope = rope_from_str(text);
        let n = rope_len_chars(&rope);
        let b = Buffer {
            cursor: if cursor <= n { cursor } else { n },
            rope,
            goal_col: None,
            dirty: false,
            journal: Vec::new(),
            journal_base: Ghost(text@),
        };
        assert(ops_of(b.journal@) == Seq::<Op>::empty());
        b
    }

    // --- accessors -------------------------------------------------------

    pub fn is_dirty(&self) -> (d: bool)
        ensures
            d == self@.dirty,
    {
        self.dirty
    }

    /// Clear the dirty flag: called once the journal has been flushed to the
    /// store, so "dirty" tracks *unpersisted* edits.
    pub fn mark_saved(&mut self)
        requires
            old(self).wf(),
        ensures
            final(self).wf(),
            final(self)@ == (BufferState { dirty: false, ..old(self)@ }),
    {
        self.dirty = false;
    }

    /// Drain the pending edits for the store to append, in apply order. They
    /// replay the text the journal started from into the current text; the
    /// journal then starts afresh from the current text.
    pub fn take_journal(&mut self) -> (ops: Vec<EditOp>)
        requires
            old(self).wf(),
        ensures
            final(self).wf(),
            ops_of(ops@) == old(self)@.journal,
            replay(old(self)@.base, ops_of(ops@)) == old(self)@.text,
            replay_exact(old(self)@.base, ops_of(ops@)),
            final(self)@ == (BufferState { journal: Seq::empty(), base: old(self)@.text, ..old(self)@ }),
    {
        let mut ops: Vec<EditOp> = Vec::new();
        std::mem::swap(&mut ops, &mut self.journal);
        self.journal_base = Ghost(rope_text(self.rope));
        assert(ops_of(self.journal@) == Seq::<Op>::empty());
        ops
    }

    /// Number of lines for display. A trailing line break yields a final
    /// empty line, which is a valid cursor position.
    pub fn len_lines(&self) -> (n: usize)
        ensures
            n == line_count(self@.text),
    {
        rope_len_lines(&self.rope)
    }

    /// Total char count (one past the last valid cursor position).
    pub fn len_chars(&self) -> (n: usize)
        ensures
            n == self@.text.len(),
    {
        rope_len_chars(&self.rope)
    }

    /// The cursor as a char index.
    pub fn cursor(&self) -> (c: usize)
        ensures
            c == self@.cursor,
    {
        self.cursor
    }

    /// Move the cursor to a char index (clamped). Used by LEAP.
    pub fn set_cursor(&mut self, idx: usize)
        requires
            old(self).wf(),
        ensures
            final(self).wf(),
            final(self)@ == (BufferState {
                cursor: if idx <= old(self)@.text.len() { idx as int } else { old(self)@.text.len() as int },
                goal: None,
                ..old(self)@
            }),
    {
        let n = rope_len_chars(&self.rope);
        self.cursor = if idx <= n { idx } else { n };
        self.goal_col = None;
    }

    /// Display width of the chars in `a..b` from column 0, stopping at a line
    /// break char.
    fn width_between(&self, a: usize, b: usize) -> (w: usize)
        requires
            self.wf(),
            a <= b <= self@.text.len(),
        ensures
            w == width_from(self@.text.subrange(a as int, b as int), 0),
    {
        let ghost t = self@.text;
        let mut col: usize = 0;
        let mut i = a;
        while i < b
            invariant
                t == self@.text,
                t.len() <= MAX_CHARS,
                a <= i <= b <= t.len(),
                col <= 4 * (i - a),
                width_from(t.subrange(i as int, b as int), col as int) == width_from(t.subrange(a as int, b as int), 0),
            decreases b - i,
        {
            let c = rope_char(&self.rope, i);
            assert(t.subrange(i as int, b as int)[0] == c);
            if c == '\n' || c == '\r' {
                return col;
            }
            assert(t.subrange(i as int, b as int).drop_first() == t.subrange(i + 1, b as int));
            col = col + tab_advance(c, col);
            i += 1;
        }
        col
    }

    /// `(line, display_col)` of an arbitrary char index, tabs expanded: used
    /// to place the LEAP match highlight.
    pub fn line_col_at(&self, char_idx: usize) -> (r: (usize, usize))
        requires
            self.wf(),
            char_idx <= self@.text.len(),
        ensures
            r.0 == line_of(self@.text, char_idx as int),
            r.1 == display_col_of(self@.text, char_idx as int),
    {
        let line = rope_char_to_line(&self.rope, char_idx);
        proof {
            lemma_breaks_before_mono(self@.text, char_idx as int, self@.text.len() as int);
            lemma_line_of_starts_before(self@.text, char_idx as int);
            lemma_line_start_bounds(self@.text, line as int);
        }
        let start = rope_line_to_char(&self.rope, line);
        (line, self.width_between(start, char_idx))
    }

    // --- search (for LEAP) ----------------------------------------------

    /// First match of `needle` at or after char index `from`. `insensitive`
    /// does ASCII-case-insensitive matching. Returns the match start as a char
    /// index; `None` for an empty needle.
    pub fn search_forward(&self, from: usize, needle: &str, insensitive: bool) -> (r: Option<usize>)
        requires
            self.wf(),
            from <= self@.text.len(),
        ensures
            needle@.len() == 0 ==> r is None,
            needle@.len() > 0 ==> (r matches Some(i) ==> first_match(self@.text, needle@, from as int, insensitive) == Some(i as int)),
            needle@.len() > 0 ==> (r is None ==> first_match(self@.text, needle@, from as int, insensitive) is None),
    {
        if needle.is_empty() {
            return None;
        }
        let text = rope_chars(&self.rope);
        let nv = crate::text::chars_of(needle);
        find_from(text.as_slice(), nv.as_slice(), from, insensitive)
    }

    /// Last match of `needle` that starts strictly before char index `before`.
    pub fn search_backward(&self, before: usize, needle: &str, insensitive: bool) -> (r: Option<usize>)
        requires
            self.wf(),
            before <= self@.text.len(),
        ensures
            needle@.len() == 0 ==> r is None,
            needle@.len() > 0 ==> (r matches Some(i) ==> last_match_before(self@.text, needle@, before as int, insensitive) == Some(i as int)),
            needle@.len() > 0 ==> (r is None ==> last_match_before(self@.text, needle@, before as int, insensitive) is None),
    {
        if needle.is_empty() {
            return None;
        }
        let text = rope_chars(&self.rope);
        let nv = crate::text::chars_of(needle);
        find_last_before(text.as_slice(), nv.as_slice(), before, insensitive)
    }

    /// Cursor position as `(line, char_col)`, both 0-based.
    pub fn cursor_line_col(&self) -> (r: (usize, usize))
        requires
            self.wf(),
        ensures
            r.0 == line_of(self@.text, self@.cursor),
            r.1 == col_of(self@.text, self@.cursor),
    {
        let line = rope_char_to_line(&self.rope, self.cursor);
        proof {
            lemma_breaks_before_mono(self@.text, self@.cursor, self@.text.len() as int);
            lemma_line_of_starts_before(self@.text, self@.cursor);
        }
        let col = self.cursor - rope_line_to_char(&self.rope, line);
        (line, col)
    }

    /// Cursor's on-screen column (0-based), with tabs expanded.
    pub fn cursor_display_col(&self) -> (c: usize)
        requires
            self.wf(),
        ensures
            c == display_col_of(self@.text, self@.cursor),
    {
        let (_, col) = self.line_col_at(self.cursor);
        col
    }

    /// Build the visible slice of `line`, tabs expanded, scrolled
    /// horizontally by `left` display columns and clipped to `width` columns.
    /// Line breaks and document markers are not shown.
    pub fn display_line(&self, line: usize, left: usize, width: usize) -> (r: String)
        requires
            self.wf(),
            line < line_count(self@.text),
        ensures
            r@ == clip(drop_chars(expand(line_chars(self@.text, line as int), 0), left as int), width as int),
    {
        let ghost t = self@.text;
        proof {
            lemma_line_start_bounds(t, line as int);
            lemma_breaks_before_mono(t, t.len() as int, t.len() as int);
        }
        let a = rope_line_to_char(&self.rope, line);
        let b = rope_line_to_char(&self.rope, line + 1);
        let mut expanded = String::new();
        let mut col: usize = 0;
        let mut i = a;
        while i < b
            invariant
                t == self@.text,
                t.len() <= MAX_CHARS,
                a <= i <= b <= t.len(),
                col <= 4 * (i - a),
                expanded@ + expand(t.subrange(i as int, b as int), col as int) == expand(t.subrange(a as int, b as int), 0),
            decreases b - i,
        {
            let c = rope_char(&self.rope, i);
            let ghost rest = t.subrange(i as int, b as int);
            assert(rest[0] == c);
            assert(rest.drop_first() == t.subrange(i + 1, b as int));
            if c == '\n' || c == '\r' || c == DOC_MARKER {
            } else if c == '\t' {
                let n = tab_advance(c, col);
                let ghost before = expanded@;
                push_repeat(&mut expanded, ' ', n);
                assert(expanded@ + expand(rest.drop_first(), (col + n) as int)
                    == before + (repeat(' ', n as nat) + expand(rest.drop_first(), (col + n) as int)));
                col += n;
            } else {
                let ghost before = expanded@;
                push_char(&mut expanded, c);
                assert(expanded@ + expand(rest.drop_first(), (col + 1) as int)
                    == before + (seq![c] + expand(rest.drop_first(), (col + 1) as int)));
                col += 1;
            }
            i += 1;
        }
        let v = crate::text::chars_of(expanded.as_str());
        let ghost e = v@;
        assert(expanded@ + Seq::<char>::empty() == expanded@);
        let mut out = String::new();
        if left <= v.len() {
            let mut k = left;
            while k < v.len() && k - left < width
                invariant
                    e == v@,
                    left <= k <= v.len(),
                    k - left <= width,
                    out@ == e.subrange(left as int, k as int),
                decreases v.len() - k,
            {
                push_char(&mut out, v[k]);
                k += 1;
                assert(out@ == e.subrange(left as int, k as int));
            }
            proof {
                if k < v.len() {
                    assert(e.skip(left as int).take(width as int) == e.subrange(left as int, k as int));
                } else {
                    assert(e.skip(left as int) == e.subrange(left as int, k as int));
                }
            }
        }
        out
    }
}


/// The state after a vertical move by `dir` lines (`-1` up, `1` down): the
/// goal column is set (to the current column unless one is pending), and the
/// cursor lands on the target line at the goal column, clamped to the line's
/// length; past the first or last line the cursor stays.
pub open spec fn moved_vertically(b: BufferState, dir: int) -> BufferState {
    let l = line_of(b.text, b.cursor);
    let goal = match b.goal {
        Some(g) => g,
        None => col_of(b.text, b.cursor),
    };
    let target = l + dir;
    if target < 0 || target >= line_count(b.text) {
        BufferState { goal: Some(goal), ..b }
    } else {
        let len = line_len(b.text, target);
        BufferState {
            goal: Some(goal),
            cursor: line_start(b.text, target) + if goal <= len { goal } else { len },
            ..b
        }
    }
}

impl Buffer {
    // --- cursor movement -------------------------------------------------

    pub fn move_left(&mut self)
        requires
            old(self).wf(),
        ensures
            final(self).wf(),
            final(self)@ == (BufferState {
                cursor: if old(self)@.cursor > 0 { old(self)@.cursor - 1 } else { 0 },
                goal: None,
                ..old(self)@
            }),
    {
        self.cursor = self.cursor.saturating_sub(1);
        self.goal_col = None;
    }

    pub fn move_right(&mut self)
        requires
            old(self).wf(),
        ensures
            final(self).wf(),
            final(self)@ == (BufferState {
                cursor: if old(self)@.cursor < old(self)@.text.len() { old(self)@.cursor + 1 } else { old(self)@.cursor },
                goal: None,
                ..old(self)@
            }),
    {
        if self.cursor < rope_len_chars(&self.rope) {
            self.cursor += 1;
        }
        self.goal_col = None;
    }

    pub fn move_up(&mut self)
        requires
            old(self).wf(),
        ensures
            final(self).wf(),
            final(self)@ == moved_vertically(old(self)@, -1),
    {
        self.move_vertical(-1);
    }

    pub fn move_down(&mut self)
        requires
            old(self).wf(),
        ensures
            final(self).wf(),
            final(self)@ == moved_vertically(old(self)@, 1),
    {
        self.move_vertical(1);
    }

    pub fn move_home(&mut self)
        requires
            old(self).wf(),
        ensures
            final(self).wf(),
            final(self)@ == (BufferState {
                cursor: line_start(old(self)@.text, line_of(old(self)@.text, old(self)@.cursor)),
                goal: None,
                ..old(self)@
            }),
    {
        let (line, _) = self.cursor_line_col();
        proof {
            lemma_line_of_starts_before(self@.text, self@.cursor);
            lemma_breaks_before_mono(self@.text, self@.cursor, self@.text.len() as int);
            lemma_line_start_bounds(self@.text, line as int);
        }
        self.cursor = rope_line_to_char(&self.rope, line);
        self.goal_col = None;
    }

    pub fn move_end(&mut self)
        requires
            old(self).wf(),
        ensures
            final(self).wf(),
            final(self)@ == (BufferState {
                cursor: line_start(old(self)@.text, line_of(old(self)@.text, old(self)@.cursor))
                    + line_len(old(self)@.text, line_of(old(self)@.text, old(self)@.cursor)),
                goal: None,
                ..old(self)@
            }),
    {
        let (line, _) = self.cursor_line_col();
        proof {
            lemma_breaks_before_mono(self@.text, self@.cursor, self@.text.len() as int);
            lemma_line_start_bounds(self@.text, line as int);
        }
        self.cursor = rope_line_to_char(&self.rope, line) + self.line_char_len(line);
        self.goal_col = None;
    }

    /// `M-f`: move to the end of the next word (skip non-word chars, then word
    /// chars), Emacs-style.
    pub fn move_word_forward(&mut self)
        requires
            old(self).wf(),
        ensures
            final(self).wf(),
            final(self)@ == (BufferState {
                cursor: word_end_after(old(self)@.text, old(self)@.cursor),
                goal: None,
                ..old(self)@
            }),
    {
        let ghost t = self@.text;
        let len = rope_len_chars(&self.rope);
        let mut i = self.cursor;
        while i < len && !is_word_char(rope_char(&self.rope, i))
            invariant
                t == self@.text,
                len == t.len(),
                self@.cursor <= i <= len,
                skip_fwd(t, self@.cursor, true) == skip_fwd(t, i as int, true),
            decreases len - i,
        {
            i += 1;
        }
        let ghost mid = i as int;
        while i < len && is_word_char(rope_char(&self.rope, i))
            invariant
                t == self@.text,
                len == t.len(),
                mid <= i <= len,
                mid == skip_fwd(t, self@.cursor, true),
                skip_fwd(t, mid, false) == skip_fwd(t, i as int, false),
            decreases len - i,
        {
            i += 1;
        }
        self.cursor = i;
        self.goal_col = None;
    }

    /// `M-b`: move to the start of the previous word.
    pub fn move_word_backward(&mut self)
        requires
            old(self).wf(),
        ensures
            final(self).wf(),
            final(self)@ == (BufferState {
                cursor: word_start_before(old(self)@.text, old(self)@.cursor),
                goal: None,
                ..old(self)@
            }),
    {
        self.cursor = self.word_backward_pos();
        self.goal_col = None;
    }

    fn move_vertical(&mut self, dir: isize)
        requires
            old(self).wf(),
            dir == 1 || dir == -1,
        ensures
            final(self).wf(),
            final(self)@ == moved_vertically(old(self)@, dir as int),
    {
        let (line, col) = self.cursor_line_col();
        proof {
            lemma_breaks_before_mono(self@.text, self@.cursor, self@.text.len() as int);
        }
        // Remember the column a vertical run started from, so passing through
        // short lines doesn't permanently shrink the target column.
        let goal = match self.goal_col {
            Some(g) => g,
            None => col,
        };
        self.goal_col = Some(goal);
        let target = line as isize + dir;
        if target < 0 || target as usize >= rope_len_lines(&self.rope) {
            return;
        }
        let target = target as usize;
        proof {
            lemma_line_start_bounds(self@.text, target as int);
        }
        let len = self.line_char_len(target);
        let new_col = if goal <= len { goal } else { len };
        self.cursor = rope_line_to_char(&self.rope, target) + new_col;
    }

    // --- helpers ---------------------------------------------------------

    /// The char index at the start of the word before the cursor (skip
    /// non-word chars, then word chars), used by `M-b` and `C-w`.
    fn word_backward_pos(&self) -> (p: usize)
        requires
            self.wf(),
        ensures
            p == word_start_before(self@.text, self@.cursor),
            p <= self@.cursor,
    {
        let ghost t = self@.text;
        let mut i = self.cursor;
        while i > 0 && !is_word_char(rope_char(&self.rope, i - 1))
            invariant
                t == self@.text,
                i <= self@.cursor <= t.len(),
                skip_back(t, self@.cursor, true) == skip_back(t, i as int, true),
            decreases i,
        {
            i -= 1;
        }
        let ghost mid = i as int;
        while i > 0 && is_word_char(rope_char(&self.rope, i - 1))
            invariant
                t == self@.text,
                i <= mid <= self@.cursor <= t.len(),
                mid == skip_back(t, self@.cursor, true),
                skip_back(t, mid, false) == skip_back(t, i as int, false),
            decreases i,
        {
            i -= 1;
        }
        i
    }

    /// Length of `line` in chars, excluding the trailing line break (`\n` or
    /// `\r\n`).
    fn line_char_len(&self, line: usize) -> (n: usize)
        requires
            self.wf(),
        ensures
            n == line_len(self@.text, line as int),
            line < line_count(self@.text) ==> line_start(self@.text, line as int) + n <= line_start(
                self@.text,
                line + 1,
            ),
    {
        if line >= rope_len_lines(&self.rope) {
            return 0;
        }
        proof {
            lemma_line_start_bounds(self@.text, line as int);
        }
        let a = rope_line_to_char(&self.rope, line);
        let b = rope_line_to_char(&self.rope, line + 1);
        let mut len = b - a;
        if len > 0 && rope_char(&self.rope, b - 1) == '\n' {
            len -= 1;
            if len > 0 && rope_char(&self.rope, a + len - 1) == '\r' {
                len -= 1;
            }
        }
        len
    }
}


/// Where `kill_line` stops: the end of the cursor's line, or, at the end of
/// the line, just past the line break; `None` at the end of the text.
pub open spec fn kill_end(t: Seq<char>, c: int) -> Option<int> {
    let l = line_of(t, c);
    let eol = line_start(t, l) + line_len(t, l);
    if c < eol {
        Some(eol)
    } else if c < t.len() {
        Some(c + 1)
    } else {
        None
    }
}

/// The state after removing `t[a..b]` with the cursor landing at `cur`.
pub open spec fn removed(b: BufferState, a: int, e: int, cur: int) -> BufferState {
    BufferState {
        text: b.text.take(a) + b.text.skip(e),
        cursor: cur,
        goal: None,
        dirty: true,
        journal: b.journal.push(Op { insert: false, pos: a, text: b.text.subrange(a, e) }),
        ..b
    }
}

/// The state after inserting `s` at the cursor.
pub open spec fn inserted(b: BufferState, s: Seq<char>) -> BufferState {
    BufferState {
        text: b.text.take(b.cursor) + s + b.text.skip(b.cursor),
        cursor: b.cursor + s.len(),
        goal: None,
        dirty: true,
        journal: b.journal.push(Op { insert: true, pos: b.cursor, text: s }),
        ..b
    }
}

/// The state after moving the cursor to `c` (clearing the goal column).
pub open spec fn cursor_moved(b: BufferState, c: int) -> BufferState {
    BufferState { cursor: c, goal: None, ..b }
}

/// The state after Backspace.
pub open spec fn backspaced(b: BufferState) -> BufferState {
    if b.cursor == 0 {
        b
    } else {
        removed(b, b.cursor - 1, b.cursor, b.cursor - 1)
    }
}

/// The state after Delete.
pub open spec fn deleted_forward(b: BufferState) -> BufferState {
    if b.cursor >= b.text.len() {
        b
    } else {
        removed(b, b.cursor, b.cursor + 1, b.cursor)
    }
}

/// The state after inserting `s` at the cursor (nothing for an empty `s`).
pub open spec fn str_inserted(b: BufferState, s: Seq<char>) -> BufferState {
    if s.len() == 0 {
        b
    } else {
        inserted(b, s)
    }
}

/// The state after `kill_line`.
pub open spec fn line_killed(b: BufferState) -> BufferState {
    match kill_end(b.text, b.cursor) {
        None => b,
        Some(e) => removed(b, b.cursor, e, b.cursor),
    }
}

/// The text `kill_line` removes.
pub open spec fn line_kill_text(b: BufferState) -> Seq<char> {
    match kill_end(b.text, b.cursor) {
        None => Seq::empty(),
        Some(e) => b.text.subrange(b.cursor, e),
    }
}

/// The state after `backward_kill_word`.
pub open spec fn word_killed(b: BufferState) -> BufferState {
    let w = word_start_before(b.text, b.cursor);
    if w >= b.cursor {
        b
    } else {
        removed(b, w, b.cursor, w)
    }
}

/// The text `backward_kill_word` removes.
pub open spec fn word_kill_text(b: BufferState) -> Seq<char> {
    let w = word_start_before(b.text, b.cursor);
    if w >= b.cursor {
        Seq::empty()
    } else {
        b.text.subrange(w, b.cursor)
    }
}

/// The state after `insert_document_break`.
pub open spec fn document_broken(b: BufferState) -> BufferState {
    let brk = document_break(b.text, b.cursor);
    BufferState {
        text: b.text.take(b.cursor) + brk + b.text.skip(b.cursor),
        cursor: b.cursor + brk.len(),
        goal: None,
        dirty: true,
        journal: b.journal + char_inserts(b.cursor, brk),
        ..b
    }
}

/// The cursor after `move_home`.
pub open spec fn home_of(b: BufferState) -> int {
    line_start(b.text, line_of(b.text, b.cursor))
}

/// The cursor after `move_end`.
pub open spec fn end_of(b: BufferState) -> int {
    line_start(b.text, line_of(b.text, b.cursor)) + line_len(b.text, line_of(b.text, b.cursor))
}

/// The break `insert_document_break` drops: a marker on its own line, with a
/// line break first when the cursor is not at the start of its line.
pub open spec fn document_break(t: Seq<char>, c: int) -> Seq<char> {
    if col_of(t, c) != 0 {
        seq!['\n', DOC_MARKER, '\n']
    } else {
        seq![DOC_MARKER, '\n']
    }
}

/// The journal stays a faithful record when an exact edit is appended.
proof fn lemma_journal_push(b: BufferState, op: Op)
    requires
        buffer_wf(b),
        exact(op, b.text),
    ensures
        replay(b.base, b.journal.push(op)) == apply_op(op, b.text),
        replay_exact(b.base, b.journal.push(op)),
{
    assert(b.journal.push(op).drop_last() == b.journal);
    assert(b.journal.push(op).last() == op);
}

impl Buffer {
    // --- editing ---------------------------------------------------------

    fn on_edit(&mut self)
        ensures
            final(self)@ == (BufferState { dirty: true, goal: None, ..old(self)@ }),
    {
        self.dirty = true;
        self.goal_col = None;
    }

    pub fn insert_char(&mut self, c: char)
        requires
            old(self).wf(),
            old(self)@.text.len() < MAX_CHARS,
        ensures
            final(self).wf(),
            final(self)@ == inserted(old(self)@, seq![c]),
    {
        let ghost b = self@;
        let pos = self.cursor;
        rope_insert_char(&mut self.rope, pos, c);
        self.cursor = pos + 1;
        let mut text = String::new();
        push_char(&mut text, c);
        let op = EditOp::Insert { pos, text };
        proof {
            lemma_journal_push(b, op@);
            assert(b.text.insert(pos as int, c) == b.text.take(pos as int) + seq![c] + b.text.skip(pos as int));
        }
        self.journal.push(op);
        assert(ops_of(self.journal@) == b.journal.push(op@));
        self.on_edit();
    }

    pub fn insert_newline(&mut self)
        requires
            old(self).wf(),
            old(self)@.text.len() < MAX_CHARS,
        ensures
            final(self).wf(),
            final(self)@ == inserted(old(self)@, seq!['\n']),
    {
        self.insert_char('\n');
    }

    /// Start a new document at the cursor: drop a boundary marker on its own
    /// line. Breaks the current line first if the cursor isn't at its start,
    /// so the marker always renders as a clean rule.
    pub fn insert_document_break(&mut self)
        requires
            old(self).wf(),
            old(self)@.text.len() + 3 <= MAX_CHARS,
        ensures
            final(self).wf(),
            final(self)@ == (BufferState {
                text: old(self)@.text.take(old(self)@.cursor) + document_break(old(self)@.text, old(self)@.cursor)
                    + old(self)@.text.skip(old(self)@.cursor),
                cursor: old(self)@.cursor + document_break(old(self)@.text, old(self)@.cursor).len(),
                goal: None,
                dirty: true,
                journal: old(self)@.journal + char_inserts(
                    old(self)@.cursor,
                    document_break(old(self)@.text, old(self)@.cursor),
                ),
                ..old(self)@
            }),
    {
        let ghost b = self@;
        let ghost brk = document_break(b.text, b.cursor);
        let ghost c0 = b.cursor;
        let (_, col) = self.cursor_line_col();
        if col != 0 {
            self.insert_char('\n');
        }
        let ghost mid = self@;
        self.insert_char(DOC_MARKER);
        self.insert_char('\n');
        proof {
            let t = b.text;
            assert(self@.text == t.take(c0) + brk + t.skip(c0));
            assert(self@.journal == b.journal + char_inserts(c0, brk));
        }
    }

    /// Delete the character before the cursor (Backspace).
    pub fn backspace(&mut self)
        requires
            old(self).wf(),
        ensures
            final(self).wf(),
            old(self)@.cursor == 0 ==> final(self)@ == old(self)@,
            old(self)@.cursor > 0 ==> final(self)@ == removed(
                old(self)@,
                old(self)@.cursor - 1,
                old(self)@.cursor,
                old(self)@.cursor - 1,
            ),
    {
        if self.cursor == 0 {
            return;
        }
        let ghost b = self@;
        let pos = self.cursor - 1;
        let removed_text = rope_slice_string(&self.rope, pos, self.cursor);
        rope_remove(&mut self.rope, pos, self.cursor);
        self.cursor = pos;
        let op = EditOp::Delete { pos, text: removed_text };
        proof {
            lemma_journal_push(b, op@);
        }
        self.journal.push(op);
        assert(ops_of(self.journal@) == b.journal.push(op@));
        self.on_edit();
    }

    /// Delete the character at the cursor (Delete / `C-d`).
    pub fn delete_forward(&mut self)
        requires
            old(self).wf(),
        ensures
            final(self).wf(),
            old(self)@.cursor >= old(self)@.text.len() ==> final(self)@ == old(self)@,
            old(self)@.cursor < old(self)@.text.len() ==> final(self)@ == removed(
                old(self)@,
                old(self)@.cursor,
                old(self)@.cursor + 1,
                old(self)@.cursor,
            ),
    {
        if self.cursor >= rope_len_chars(&self.rope) {
            return;
        }
        let ghost b = self@;
        let removed_text = rope_slice_string(&self.rope, self.cursor, self.cursor + 1);
        rope_remove(&mut self.rope, self.cursor, self.cursor + 1);
        let op = EditOp::Delete { pos: self.cursor, text: removed_text };
        proof {
            lemma_journal_push(b, op@);
        }
        self.journal.push(op);
        assert(ops_of(self.journal@) == b.journal.push(op@));
        self.on_edit();
    }

    /// Insert a string at the cursor (used by yank); advances past it.
    pub fn insert_str(&mut self, s: &str)
        requires
            old(self).wf(),
            old(self)@.text.len() + s@.len() <= MAX_CHARS,
        ensures
            final(self).wf(),
            s@.len() == 0 ==> final(self)@ == old(self)@,
            s@.len() > 0 ==> final(self)@ == inserted(old(self)@, s@),
    {
        if s.is_empty() {
            return;
        }
        let ghost b = self@;
        let pos = self.cursor;
        rope_insert(&mut self.rope, pos, s);
        self.cursor = pos + s.unicode_len();
        let op = EditOp::Insert { pos, text: s.to_owned() };
        proof {
            lemma_journal_push(b, op@);
        }
        self.journal.push(op);
        assert(ops_of(self.journal@) == b.journal.push(op@));
        self.on_edit();
    }

    /// `C-k`: kill from the cursor to end of line, or, if already there, the
    /// line break itself (joining the next line). Returns the removed text so
    /// the editor can push it onto the kill ring.
    pub fn kill_line(&mut self) -> (killed: String)
        requires
            old(self).wf(),
        ensures
            final(self).wf(),
            kill_end(old(self)@.text, old(self)@.cursor) is None ==> killed@ == Seq::<char>::empty()
                && final(self)@ == old(self)@,
            kill_end(old(self)@.text, old(self)@.cursor) matches Some(e) ==> {
                &&& killed@ == old(self)@.text.subrange(old(self)@.cursor, e)
                &&& final(self)@ == removed(old(self)@, old(self)@.cursor, e, old(self)@.cursor)
            },
    {
        let ghost b = self@;
        let (line, _) = self.cursor_line_col();
        proof {
            lemma_breaks_before_mono(b.text, b.cursor, b.text.len() as int);
            lemma_line_start_bounds(b.text, line as int);
        }
        let eol = rope_line_to_char(&self.rope, line) + self.line_char_len(line);
        let end = if self.cursor < eol {
            eol
        } else if self.cursor < rope_len_chars(&self.rope) {
            self.cursor + 1
        } else {
            return String::new();
        };
        let killed = rope_slice_string(&self.rope, self.cursor, end);
        rope_remove(&mut self.rope, self.cursor, end);
        let op = EditOp::Delete { pos: self.cursor, text: killed.clone() };
        proof {
            lemma_journal_push(b, op@);
        }
        self.journal.push(op);
        assert(ops_of(self.journal@) == b.journal.push(op@));
        self.on_edit();
        killed
    }

    /// `C-w`: kill the word before the cursor. Returns the removed text.
    pub fn backward_kill_word(&mut self) -> (killed: String)
        requires
            old(self).wf(),
        ensures
            final(self).wf(),
            word_start_before(old(self)@.text, old(self)@.cursor) >= old(self)@.cursor ==> killed@
                == Seq::<char>::empty() && final(self)@ == old(self)@,
            word_start_before(old(self)@.text, old(self)@.cursor) < old(self)@.cursor ==> {
                &&& killed@ == old(self)@.text.subrange(
                    word_start_before(old(self)@.text, old(self)@.cursor),
                    old(self)@.cursor,
                )
                &&& final(self)@ == removed(
                    old(self)@,
                    word_start_before(old(self)@.text, old(self)@.cursor),
                    old(self)@.cursor,
                    word_start_before(old(self)@.text, old(self)@.cursor),
                )
            },
    {
        let ghost b = self@;
        let target = self.word_backward_pos();
        if target >= self.cursor {
            return String::new();
        }
        let killed = rope_slice_string(&self.rope, target, self.cursor);
        rope_remove(&mut self.rope, target, self.cursor);
        self.cursor = target;
        let op = EditOp::Delete { pos: target, text: killed.clone() };
        proof {
            lemma_journal_push(b, op@);
        }
        self.journal.push(op);
        assert(ops_of(self.journal@) == b.journal.push(op@));
        self.on_edit();
        killed
    }

    // --- document boundaries ---------------------------------------------

    /// Char index of the next document marker strictly after the cursor.
    fn next_marker(&self) -> (m: Option<usize>)
        requires
            self.wf(),
        ensures
            m matches Some(i) ==> marker_from(self@.text, self@.cursor + 1) == Some(i as int)
                && i < self@.text.len(),
            m is None ==> marker_from(self@.text, self@.cursor + 1) is None,
    {
        let ghost t = self@.text;
        let len = rope_len_chars(&self.rope);
        let mut i = self.cursor + 1;
        while i < len
            invariant
                t == self@.text,
                len == t.len(),
                self@.cursor + 1 <= i,
                marker_from(t, self@.cursor + 1) == marker_from(t, i as int),
            decreases len - i,
        {
            if rope_char(&self.rope, i) == DOC_MARKER {
                return Some(i);
            }
            i += 1;
        }
        None
    }

    fn prev_marker_at_or_before(&self, pos: usize) -> (m: Option<usize>)
        requires
            self.wf(),
            pos <= self@.text.len(),
        ensures
            m matches Some(i) ==> marker_before(self@.text, pos as int) == Some(i as int) && i < pos,
            m is None ==> marker_before(self@.text, pos as int) is None,
    {
        let ghost t = self@.text;
        let mut i = pos;
        while i > 0
            invariant
                t == self@.text,
                i <= pos <= t.len(),
                marker_before(t, pos as int) == marker_before(t, i as int),
            decreases i,
        {
            if rope_char(&self.rope, i - 1) == DOC_MARKER {
                return Some(i - 1);
            }
            i -= 1;
        }
        None
    }

    /// First char of the document body that the marker at char index `m`
    /// introduces: the start of the line after the marker.
    fn marker_body_start(&self, m: usize) -> (p: usize)
        requires
            self.wf(),
            m <= self@.text.len(),
        ensures
            p == body_start(self@.text, m as int),
            p <= self@.text.len(),
    {
        let ghost t = self@.text;
        proof {
            lemma_breaks_before_mono(t, m as int, t.len() as int);
        }
        let next_line = rope_char_to_line(&self.rope, m) + 1;
        let lines = rope_len_lines(&self.rope);
        let l = if next_line <= lines { next_line } else { lines };
        proof {
            lemma_line_start_bounds(t, l as int);
        }
        rope_line_to_char(&self.rope, l)
    }

    /// Start of the document body containing char index `pos`.
    fn document_start_containing(&self, pos: usize) -> (p: usize)
        requires
            self.wf(),
            pos <= self@.text.len(),
        ensures
            p == doc_start(self@.text, pos as int),
            p <= self@.text.len(),
    {
        match self.prev_marker_at_or_before(pos) {
            Some(m) => self.marker_body_start(m),
            None => 0,
        }
    }

    /// Start of the document the cursor is in.
    pub fn current_document_start(&self) -> (p: usize)
        requires
            self.wf(),
        ensures
            p == doc_start(self@.text, self@.cursor),
            p <= self@.text.len(),
    {
        self.document_start_containing(self.cursor)
    }

    /// Start of the document before the cursor's, if any.
    pub fn prev_document_start(&self) -> (p: Option<usize>)
        requires
            self.wf(),
        ensures
            doc_start(self@.text, self@.cursor) == 0 ==> p is None,
            doc_start(self@.text, self@.cursor) > 0 ==> (p matches Some(q) && q == doc_start(
                self@.text,
                if doc_start(self@.text, self@.cursor) >= 2 { doc_start(self@.text, self@.cursor) - 2 } else { 0 },
            )),
    {
        let cur = self.current_document_start();
        if cur > 0 {
            Some(self.document_start_containing(cur.saturating_sub(2)))
        } else {
            None
        }
    }

    /// Start of the next document after the cursor's, if any.
    pub fn next_document_start(&self) -> (p: Option<usize>)
        requires
            self.wf(),
        ensures
            marker_from(self@.text, self@.cursor + 1) is None ==> p is None,
            marker_from(self@.text, self@.cursor + 1) matches Some(m) ==> (p matches Some(q) && q == body_start(
                self@.text,
                m,
            )),
    {
        match self.next_marker() {
            Some(m) => Some(self.marker_body_start(m)),
            None => None,
        }
    }

    /// The leading text of the document containing the cursor (from just
    /// after the preceding marker to the end of that line), control chars
    /// dropped, at most `max` chars, trimmed: used as a status label.
    pub fn document_title(&self, max: usize) -> (s: String)
        requires
            self.wf(),
        ensures
            s@ == trimmed(clip(drop_controls(self@.text.subrange(
                doc_start(self@.text, self@.cursor),
                title_end(self@.text, doc_start(self@.text, self@.cursor)),
            )), max as int)),
    {
        let ghost t = self@.text;
        let start = self.current_document_start();
        let len = rope_len_chars(&self.rope);
        let mut out: Vec<char> = Vec::new();
        let mut i = start;
        while i < len && out.len() < max
            invariant
                t == self@.text,
                len == t.len(),
                start <= i <= len,
                out@.len() <= max,
                out@ == drop_controls(t.subrange(start as int, i as int)),
                title_end(t, start as int) == title_end(t, i as int),
            ensures
                i < len && out@.len() < max ==> t[i as int] == '\n' || t[i as int] == DOC_MARKER,
                start <= i <= len,
                out@.len() <= max,
                out@ == drop_controls(t.subrange(start as int, i as int)),
                title_end(t, start as int) == title_end(t, i as int),
            decreases len - i,
        {
            let c = rope_char(&self.rope, i);
            if c == '\n' || c == DOC_MARKER {
                break;
            }
            assert(t.subrange(start as int, i + 1).drop_last() == t.subrange(start as int, i as int));
            assert(t.subrange(start as int, i + 1).last() == c);
            if !is_control(c) {
                out.push(c);
            }
            i += 1;
        }
        proof {
            let e = title_end(t, start as int);
            lemma_title_end_bounds(t, i as int);
            lemma_drop_controls_concat(t.subrange(start as int, i as int), t.subrange(i as int, e));
            assert(t.subrange(start as int, i as int) + t.subrange(i as int, e) == t.subrange(start as int, e));
            if out@.len() < max {
                assert(e == i);
                assert(t.subrange(i as int, e) == Seq::<char>::empty());
            } else {
                assert(out@.len() == max);
                assert((out@ + drop_controls(t.subrange(i as int, e))).take(max as int) == out@);
            }
        }
        crate::text::trim(&out)
    }

    /// Whether `line` is a lone document-boundary marker (so the editor can
    /// draw it as a horizontal rule instead of a stray control char).
    pub fn line_is_marker(&self, line: usize) -> (b: bool)
        requires
            self.wf(),
        ensures
            b == (line < line_count(self@.text)
                && line_start(self@.text, line as int) < line_start(self@.text, line + 1)
                && self@.text[line_start(self@.text, line as int)] == DOC_MARKER),
    {
        if line >= rope_len_lines(&self.rope) {
            return false;
        }
        proof {
            lemma_line_start_bounds(self@.text, line as int);
        }
        let a = rope_line_to_char(&self.rope, line);
        let b = rope_line_to_char(&self.rope, line + 1);
        a < b && rope_char(&self.rope, a) == DOC_MARKER
    }
}

/// `title_end` lies between its start and the end of the text, and at a stop.
proof fn lemma_title_end_bounds(s: Seq<char>, i: int)
    requires
        0 <= i <= s.len(),
    ensures
        i <= title_end(s, i) <= s.len(),
    decreases s.len() - i,
{
    if i < s.len() && s[i] != '\n' && s[i] != DOC_MARKER {
        lemma_title_end_bounds(s, i + 1);
    }
}

/// Dropping control chars works piecewise.
pub proof fn lemma_drop_controls_concat(a: Seq<char>, b: Seq<char>)
    ensures
        drop_controls(a + b) == drop_controls(a) + drop_controls(b),
    decreases b.len(),
{
    if b.len() == 0 {
        assert(a + b == a);
        assert(drop_controls(a) + Seq::<char>::empty() == drop_controls(a));
    } else {
        assert((a + b).drop_last() == a + b.drop_last());
        assert((a + b).last() == b.last());
        lemma_drop_controls_concat(a, b.drop_last());
    }
}


/// `move_home` lands at column 0 of the cursor's line.
pub proof fn lemma_home_is_column_zero(t: Seq<char>, c: int)
    requires
        0 <= c <= t.len(),
    ensures
        line_of(t, line_start(t, line_of(t, c))) == line_of(t, c),
        col_of(t, line_start(t, line_of(t, c))) == 0,
{
    crate::rope::lemma_breaks_before_mono(t, c, t.len() as int);
    crate::rope::lemma_line_of_line_start(t, line_of(t, c));
}

/// Backspace right after typing a char takes it back: the text and the
/// cursor are as before.
pub proof fn lemma_backspace_undoes_insert(b: BufferState, c: char)
    requires
        buffer_wf(b),
    ensures
        removed(inserted(b, seq![c]), b.cursor, b.cursor + 1, b.cursor).text == b.text,
        removed(inserted(b, seq![c]), b.cursor, b.cursor + 1, b.cursor).cursor == b.cursor,
{
    let t = b.text;
    let u = t.take(b.cursor) + seq![c] + t.skip(b.cursor);
    assert(u.take(b.cursor) + u.skip(b.cursor + 1) == t);
}

/// Killing text and yanking it back at the same place restores the text and
/// leaves the cursor after it.
pub proof fn lemma_kill_then_yank_restores(b: BufferState, e: int)
    requires
        buffer_wf(b),
        b.cursor < e <= b.text.len(),
    ensures
        inserted(removed(b, b.cursor, e, b.cursor), b.text.subrange(b.cursor, e)).text == b.text,
        inserted(removed(b, b.cursor, e, b.cursor), b.text.subrange(b.cursor, e)).cursor == e,
{
    let t = b.text;
    let u = t.take(b.cursor) + t.skip(e);
    assert(u.take(b.cursor) == t.take(b.cursor));
    assert(u.skip(b.cursor) == t.skip(e));
    assert(t.take(b.cursor) + t.subrange(b.cursor, e) + t.skip(e) == t);
}


impl Buffer {
    /// The whole text stream as a `String`.
    pub fn text(&self) -> (s: String)
        requires
            self.wf(),
        ensures
            s@ == self@.text,
    {
        let v = rope_chars(&self.rope);
        let mut out = String::new();
        crate::text::push_all(&mut out, &v);
        out
    }

    /// The number of edits waiting in the journal.
    pub fn journal_len(&self) -> (n: usize)
        ensures
            n == self@.journal.len(),
    {
        self.journal.len()
    }
}

} // verus!
