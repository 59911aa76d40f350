//! Top-level editor state and its command dispatch.
//!
//! Buffer + two-row chrome (status line and a **display-only** echo line: no
//! modal minibuffer). There are **no files**: the buffer is reconstructed from
//! the [store](crate::store) on launch and every keystroke's edits are
//! appended back to it, so the workspace resumes exactly where you left off.
//! The text is one continuous stream divided into documents by boundary
//! markers (`C-x p` / `C-x n` or Ctrl+PgUp/PgDn to jump, `M-Enter` for a new
//! one). **LEAP** (`C-s`/`C-r`, see [`crate::leap`]) is incremental
//! search-to-move. Because nothing is ever unsaved, `C-q` just quits.
//!
//! The front-end feeds [`KeyChord`]s to [`Editor::input`], calls
//! [`Editor::persist_edits`] after each, and draws the [`Frame`] that
//! [`Editor::compute_frame`] returns.

use vstd::prelude::*;

use crate::buffer::{
    Buffer, BufferState, DOC_MARKER, MAX_CHARS, backspaced, body_start, buffer_wf, col_of, cursor_moved,
    deleted_forward, display_col_of, doc_start, document_broken, drop_chars, drop_controls, end_of, expand,
    first_match, home_of, inserted, kill_end, last_match_before, line_chars, line_kill_text, line_killed,
    line_of, marker_from, matches_at_spec, moved_vertically, title_end, word_end_after, word_kill_text,
    word_killed, word_start_before,
};
use crate::echo::Echo;
use crate::input::{KeyChord, LogicalKey};
use crate::leap::{Dir, Leap, leap_label};
use crate::statusline::{StatusLine, status_row};
use crate::view::{Frame, Row};
use crate::rope::{line_count, line_start};
use crate::store::{
    Log, Op, Store, StoreError, appended, keep_after, lemma_append_then_resume, log_wf, ops_of, replay, resume_text,
};
use crate::text::{clip, has_uppercase, take_chars, trimmed};

verus! {

/// Compact the append-only log into a snapshot once it grows past this many rows.
pub const COMPACT_THRESHOLD: i64 = 2000;

/// The echo line of a fresh session: the keys to get going.
pub const GREETING: &'static str = "Type · C-s LEAP · Ctrl+PgUp/PgDn or C-x p/n: documents · M-Enter: new · C-q quit";

/// A multi-key prefix awaiting its second key (Emacs-style `C-x ...`).
#[derive(Clone, Copy, PartialEq, Eq, Debug, Structural)]
pub enum Prefix {
    CtrlX,
}

/// Why the editor could not start.
#[derive(Clone, Copy, PartialEq, Eq, Debug, Structural)]
pub enum EditorError {
    /// The workspace holds more than [`MAX_CHARS`] chars.
    TooLarge,
}

/// A LEAP session as plain values.
pub struct LeapState {
    pub dir: Dir,
    pub query: Seq<char>,
    pub origin: int,
    pub matched: Option<int>,
    pub wrapped: bool,
}

/// The plain values of a LEAP session.
pub open spec fn leap_state(l: &Leap) -> LeapState {
    LeapState {
        dir: l.dir,
        query: l.query@,
        origin: l.origin as int,
        matched: match l.matched {
            Some(m) => Some(m as int),
            None => None,
        },
        wrapped: l.wrapped,
    }
}

/// The editor's state as plain values.
pub struct EditorState {
    pub buffer: BufferState,
    pub log: Log,
    pub group: int,
    pub saved: (int, int, int),
    pub top: int,
    pub left: int,
    pub running: bool,
    pub echo: Seq<char>,
    pub prefix: Option<Prefix>,
    pub leap: Option<LeapState>,
    pub kill_ring: Seq<char>,
    pub last_was_kill: bool,
    pub last_text_rows: int,
    pub repaint: bool,
}

/// The running editor: document plus viewport, chrome, and loop state.
pub struct Editor {
    buffer: Buffer,
    /// The persistent workspace; edits are appended here every keystroke.
    store: Store,
    /// Coalescing group id for the next batch of edits (bumped per keystroke).
    group: i64,
    /// Last `(cursor, top, left)` persisted, to avoid redundant state writes.
    saved_state: (usize, usize, usize),
    /// First visible line (vertical scroll offset).
    top: usize,
    /// First visible display column (horizontal scroll offset).
    left: usize,
    running: bool,
    /// Bottom-row transient message display (never an input prompt).
    echo: Echo,
    /// A pressed prefix key awaiting completion (e.g. `C-x`).
    prefix: Option<Prefix>,
    /// Active LEAP search session, if any.
    leap: Option<Leap>,
    /// Kill ring (a single register).
    kill_ring: String,
    /// Whether the previous command was a kill, so consecutive kills
    /// accumulate into one kill-ring entry (Emacs behaviour).
    last_was_kill: bool,
    /// Height of the text area on the last frame, for page up/down.
    last_text_rows: usize,
    /// The next frame must be cleared and repainted whole.
    repaint: bool,
}

impl View for Editor {
    type V = EditorState;

    closed spec fn view(&self) -> EditorState {
        EditorState {
            buffer: self.buffer@,
            log: self.store@,
            group: self.group as int,
            saved: (self.saved_state.0 as int, self.saved_state.1 as int, self.saved_state.2 as int),
            top: self.top as int,
            left: self.left as int,
            running: self.running,
            echo: self.echo@,
            prefix: self.prefix,
            leap: match &self.leap {
                Some(l) => Some(leap_state(l)),
                None => None,
            },
            kill_ring: self.kill_ring@,
            last_was_kill: self.last_was_kill,
            last_text_rows: self.last_text_rows as int,
            repaint: self.repaint,
        }
    }
}

/// Smart case: a LEAP query is matched case-insensitively unless it holds an
/// uppercase letter.
pub open spec fn smart_insensitive(q: Seq<char>) -> bool {
    !has_uppercase(q)
}

/// The editor's invariant: [`core_wf`], and a LEAP session's match is an
/// occurrence of its query, so the highlight marks a real match.
pub open spec fn editor_wf(s: EditorState) -> bool {
    &&& core_wf(s)
    &&& s.leap matches Some(l) ==> (l.matched matches Some(m) ==> matches_at_spec(
        s.buffer.text,
        l.query,
        m,
        smart_insensitive(l.query),
    ))
}

/// The editor's invariant, short of what it says of a LEAP match (a match
/// lies only somewhere inside the text): a well-formed buffer and log, the
/// log resuming the text the buffer's journal starts from (so what is on
/// screen is what the log holds once the journal is appended), the group counter
/// inside the log's `seq`s, the last position written to the log known, and
/// a LEAP session's origin inside the text with no prefix key pending.
pub open spec fn core_wf(s: EditorState) -> bool {
    &&& buffer_wf(s.buffer)
    &&& log_wf(s.log)
    &&& resume_text(s.log) == s.buffer.base
    &&& 0 <= s.group < s.log.next_seq
    &&& s.saved == (s.log.cursor, s.log.top, s.log.left)
    &&& s.leap matches Some(l) ==> {
        &&& s.prefix is None
        &&& 0 <= l.origin <= s.buffer.text.len()
        &&& l.matched matches Some(m) ==> 0 <= m <= s.buffer.text.len()
    }
}

} // verus!

verus! {

/// `s` with the buffer replaced by `b`.
pub open spec fn with_buffer(s: EditorState, b: BufferState) -> EditorState {
    EditorState { buffer: b, ..s }
}

/// `s` showing `msg` on the echo line.
pub open spec fn showing(s: EditorState, msg: Seq<char>) -> EditorState {
    EditorState { echo: msg, ..s }
}

/// The cursor moved to `idx`, clamped to the text.
pub open spec fn clamped(b: BufferState, idx: int) -> BufferState {
    cursor_moved(b, if idx <= b.text.len() { idx } else { b.text.len() as int })
}

/// Whether the log cannot take the journal: no `seq`s are left for it.
pub open spec fn log_full(s: EditorState) -> bool {
    s.buffer.journal.len() > 0 && s.log.next_seq + s.buffer.journal.len() > i64::MAX
}

/// The editor after its journal is appended to the log as one group: the
/// rows chained after the head, the group counter advanced, and the buffer
/// clean with its journal starting afresh from the current text.
pub open spec fn persisted(s: EditorState) -> EditorState {
    if s.buffer.journal.len() == 0 {
        s
    } else {
        EditorState {
            log: Log {
                rows: s.log.rows + appended(s.buffer.journal, s.log.head, s.log.next_seq, s.group),
                head: s.log.next_seq + s.buffer.journal.len() - 1,
                next_seq: s.log.next_seq + s.buffer.journal.len(),
                ..s.log
            },
            group: s.group + 1,
            buffer: BufferState { journal: Seq::empty(), base: s.buffer.text, dirty: false, ..s.buffer },
            ..s
        }
    }
}

/// Once the log holds more than [`COMPACT_THRESHOLD`] rows, the text at the
/// head becomes the snapshot and the rows it subsumes are dropped.
pub open spec fn compacted(s: EditorState) -> EditorState {
    if s.log.rows.len() > COMPACT_THRESHOLD {
        EditorState {
            log: Log {
                rows: keep_after(s.log.rows, s.log.head),
                upto: s.log.head,
                base: s.buffer.text,
                taken: true,
                ..s.log
            },
            ..s
        }
    } else {
        s
    }
}

impl Editor {
    /// The editor's invariant holds.
    pub open spec fn wf(&self) -> bool {
        editor_wf(self@)
    }

    /// Build the editor from the persistent workspace, resuming the cursor
    /// and scroll exactly where the last session left them. Refuses a
    /// workspace of more than [`MAX_CHARS`] chars.
    pub fn new(store: Store) -> (r: Result<Self, EditorError>)
        requires
            store.wf(),
        ensures
            resume_text(store@).len() > MAX_CHARS ==> r == Err::<Self, EditorError>(EditorError::TooLarge),
            resume_text(store@).len() <= MAX_CHARS ==> (r matches Ok(e) && e.wf() && {
                let s = e@;
                &&& s.log == store@
                &&& s.buffer.text == resume_text(store@)
                &&& s.buffer.cursor == (if store@.cursor <= resume_text(store@).len() { store@.cursor } else {
                    resume_text(store@).len() as int
                })
                &&& s.top == store@.top && s.left == store@.left
                &&& s.saved == (store@.cursor, store@.top, store@.left)
                &&& s.running
                &&& s.leap is None && s.prefix is None
                &&& s.kill_ring == Seq::<char>::empty() && !s.last_was_kill
                &&& s.buffer.goal is None && !s.buffer.dirty && s.buffer.journal.len() == 0
                &&& s.group == 0 && s.last_text_rows == 1 && s.repaint
                &&& s.echo == GREETING@
            }),
    {
        let resume = store.resume();
        if resume.text.as_str().unicode_len() > MAX_CHARS {
            return Err(EditorError::TooLarge);
        }
        let buffer = Buffer::from_text(resume.text.as_str(), resume.cursor);
        let mut echo = Echo::default();
        echo.show(GREETING);
        Ok(Editor {
            buffer,
            store,
            group: 0,
            saved_state: (resume.cursor, resume.top, resume.left),
            top: resume.top,
            left: resume.left,
            running: true,
            echo,
            prefix: None,
            leap: None,
            kill_ring: String::new(),
            last_was_kill: false,
            last_text_rows: 1,
            repaint: true,
        })
    }

    /// Whether the editor is still running (`C-q` stops it).
    pub fn running(&self) -> (b: bool)
        ensures
            b == self@.running,
    {
        self.running
    }

    /// The workspace log, for the front-end to mirror into its file.
    pub fn store(&self) -> (s: &Store)
        ensures
            s@ == self@.log,
    {
        &self.store
    }

    /// Drain the buffer's edit journal into the append-only log as one group.
    /// Afterwards the log resumes exactly the buffer's text. Refuses, changing
    /// nothing, when the log has run out of `seq`s.
    pub fn persist_edits(&mut self) -> (r: Result<(), StoreError>)
        requires
            old(self).wf(),
        ensures
            final(self).wf(),
            log_full(old(self)@) ==> r == Err::<(), StoreError>(StoreError::Full) && final(self)@ == old(self)@,
            !log_full(old(self)@) ==> r is Ok && final(self)@ == persisted(old(self)@),
            r is Ok ==> resume_text(final(self)@.log) == final(self)@.buffer.text,
    {
        let n = self.buffer.journal_len();
        if n == 0 {
            proof {
                assert(replay(self@.buffer.base, self@.buffer.journal) == self@.buffer.base);
            }
            return Ok(());
        }
        if n as u128 + self.store.next_seq() as u128 > i64::MAX as u128 {
            return Err(StoreError::Full);
        }
        let ghost old_log = self@.log;
        let ghost old_buf = self@.buffer;
        let ops = self.buffer.take_journal();
        let sl = ops.as_slice();
        let r = self.store.append(sl, self.group);
        proof {
            assert(ops@ == sl@);
            lemma_append_then_resume(old_log, ops_of(ops@), self.group as int);
        }
        self.group = self.group + 1;
        self.buffer.mark_saved();
        Ok(())
    }

    /// Quit cleanly: a final flush, then, once the log has grown past
    /// [`COMPACT_THRESHOLD`] rows, a snapshot of the text at the head so the
    /// next launch is fast. The log still resumes the buffer's text.
    pub fn shutdown(&mut self) -> (r: Result<(), StoreError>)
        requires
            old(self).wf(),
        ensures
            final(self).wf(),
            log_full(old(self)@) ==> r == Err::<(), StoreError>(StoreError::Full) && final(self)@ == old(self)@,
            !log_full(old(self)@) ==> r is Ok && final(self)@ == compacted(persisted(old(self)@)),
            r is Ok ==> resume_text(final(self)@.log) == final(self)@.buffer.text,
    {
        self.persist_edits()?;
        if self.store.edit_count() > COMPACT_THRESHOLD {
            let text = self.buffer_text();
            self.store.snapshot(text.as_str());
            proof {
                assert(crate::store::chain(self@.log.rows, self@.log.upto, self@.log.head) == Seq::<Op>::empty());
            }
        }
        Ok(())
    }

    /// The full stream as a `String` (for snapshot compaction).
    fn buffer_text(&self) -> (s: String)
        requires
            self.wf(),
        ensures
            s@ == self@.buffer.text,
    {
        self.buffer.text()
    }
}

} // verus!

verus! {

/// The leading text of the document holding the cursor, at most `max`
/// chars: what `Buffer::document_title` returns.
pub open spec fn title_of(b: BufferState, max: int) -> Seq<char> {
    let start = doc_start(b.text, b.cursor);
    trimmed(clip(drop_controls(b.text.subrange(start, title_end(b.text, start))), max))
}

/// The echo-line label naming the document the cursor is in.
pub open spec fn doc_label(b: BufferState) -> Seq<char> {
    let t = title_of(b, 40);
    if t.len() == 0 {
        "Untitled document"@
    } else {
        "Document: "@ + t
    }
}

/// Typing the char `c`.
pub open spec fn typed(s: EditorState, c: char) -> EditorState {
    if s.buffer.text.len() < MAX_CHARS {
        with_buffer(s, inserted(s.buffer, seq![c]))
    } else {
        showing(s, "Workspace full"@)
    }
}

/// `M-Enter`: a new document at the cursor.
pub open spec fn new_document(s: EditorState) -> EditorState {
    if s.buffer.text.len() + 3 <= MAX_CHARS {
        showing(with_buffer(s, document_broken(s.buffer)), "New document"@)
    } else {
        showing(s, "Workspace full"@)
    }
}

/// A kill command: the removed text joins the kill ring, accumulating with
/// the previous command when that was a kill too (a backward kill prepends,
/// a forward kill appends).
pub open spec fn kill_effect(s: EditorState, backward: bool) -> EditorState {
    let b = if backward { word_killed(s.buffer) } else { line_killed(s.buffer) };
    let k = if backward { word_kill_text(s.buffer) } else { line_kill_text(s.buffer) };
    let ring = if s.last_was_kill {
        if backward { k + s.kill_ring } else { s.kill_ring + k }
    } else {
        k
    };
    EditorState { buffer: b, kill_ring: ring, last_was_kill: true, ..s }
}

/// `C-y`: insert the kill ring at the cursor.
pub open spec fn yank_effect(s: EditorState) -> EditorState {
    if s.kill_ring.len() == 0 {
        showing(s, "Kill ring empty"@)
    } else if s.buffer.text.len() + s.kill_ring.len() <= MAX_CHARS {
        with_buffer(s, inserted(s.buffer, s.kill_ring))
    } else {
        showing(s, "Workspace full"@)
    }
}

/// Lines a page up/down moves: a near-screenful.
pub open spec fn page_rows(s: EditorState) -> int {
    if s.last_text_rows > 2 { s.last_text_rows - 1 } else { 1 }
}

/// `n` vertical moves by `dir`.
pub open spec fn moved_lines(b: BufferState, dir: int, n: nat) -> BufferState
    decreases n,
{
    if n == 0 {
        b
    } else {
        moved_vertically(moved_lines(b, dir, (n - 1) as nat), dir)
    }
}

/// `C-l`: scroll so the cursor's line sits in the middle of the text area,
/// and repaint everything.
pub open spec fn recentered(s: EditorState) -> EditorState {
    let line = line_of(s.buffer.text, s.buffer.cursor);
    let half = s.last_text_rows / 2;
    EditorState { top: if line > half { line - half } else { 0 }, repaint: true, ..s }
}

/// Moving to the document start `p` and naming the document.
pub open spec fn at_document(s: EditorState, p: int) -> EditorState {
    let b = clamped(s.buffer, p);
    showing(with_buffer(s, b), doc_label(b))
}

/// Ctrl+PgUp / `C-x p`: to the start of the current document, then to
/// earlier ones.
pub open spec fn prev_document_effect(s: EditorState) -> EditorState {
    let t = s.buffer.text;
    let start = doc_start(t, s.buffer.cursor);
    if s.buffer.cursor > start {
        at_document(s, start)
    } else if start > 0 {
        at_document(s, doc_start(t, if start >= 2 { start - 2 } else { 0 }))
    } else {
        showing(s, "First document"@)
    }
}

/// Ctrl+PgDn / `C-x n`: to the start of the next document.
pub open spec fn next_document_effect(s: EditorState) -> EditorState {
    match marker_from(s.buffer.text, s.buffer.cursor + 1) {
        Some(m) => at_document(s, body_start(s.buffer.text, m)),
        None => showing(s, "Last document"@),
    }
}

/// `C-s` / `C-r`: begin a LEAP session from the cursor.
pub open spec fn leap_started(s: EditorState, dir: Dir) -> EditorState {
    EditorState {
        leap: Some(LeapState { dir, query: Seq::empty(), origin: s.buffer.cursor, matched: None, wrapped: false }),
        ..s
    }
}

/// What an ordinary key does (the echo already cleared and the kill run
/// already updated).
pub open spec fn command_effect(s: EditorState, k: KeyChord) -> EditorState {
    let ctrl = k.ctrl;
    let alt = k.alt;
    let b = s.buffer;
    match k.key {
        LogicalKey::Char(c) => {
            if c == 'q' && ctrl {
                EditorState { running: false, ..s }
            } else if c == 'x' && ctrl {
                EditorState { prefix: Some(Prefix::CtrlX), echo: "C-x-"@, ..s }
            } else if c == 'g' && ctrl {
                showing(s, "Quit"@)
            } else if c == 's' && ctrl {
                leap_started(s, Dir::Forward)
            } else if c == 'r' && ctrl {
                leap_started(s, Dir::Backward)
            } else if c == 'b' && ctrl {
                with_buffer(s, cursor_moved(b, if b.cursor > 0 { b.cursor - 1 } else { 0 }))
            } else if c == 'f' && ctrl {
                with_buffer(s, cursor_moved(b, if b.cursor < b.text.len() { b.cursor + 1 } else { b.cursor }))
            } else if c == 'p' && ctrl {
                with_buffer(s, moved_vertically(b, -1))
            } else if c == 'n' && ctrl {
                with_buffer(s, moved_vertically(b, 1))
            } else if c == 'a' && ctrl {
                with_buffer(s, cursor_moved(b, home_of(b)))
            } else if c == 'e' && ctrl {
                with_buffer(s, cursor_moved(b, end_of(b)))
            } else if c == 'b' && alt {
                with_buffer(s, cursor_moved(b, word_start_before(b.text, b.cursor)))
            } else if c == 'f' && alt {
                with_buffer(s, cursor_moved(b, word_end_after(b.text, b.cursor)))
            } else if c == 'v' && ctrl {
                with_buffer(s, moved_lines(b, 1, page_rows(s) as nat))
            } else if c == 'v' && alt {
                with_buffer(s, moved_lines(b, -1, page_rows(s) as nat))
            } else if c == 'l' && ctrl {
                recentered(s)
            } else if c == 'd' && ctrl {
                with_buffer(s, deleted_forward(b))
            } else if c == 'h' && ctrl {
                with_buffer(s, backspaced(b))
            } else if c == 'k' && ctrl {
                kill_effect(s, false)
            } else if c == 'w' && ctrl {
                kill_effect(s, true)
            } else if c == 'y' && ctrl {
                yank_effect(s)
            } else if !ctrl && !alt {
                typed(s, c)
            } else {
                s
            }
        },
        LogicalKey::Left => with_buffer(s, cursor_moved(b, if b.cursor > 0 { b.cursor - 1 } else { 0 })),
        LogicalKey::Right => with_buffer(
            s,
            cursor_moved(b, if b.cursor < b.text.len() { b.cursor + 1 } else { b.cursor }),
        ),
        LogicalKey::Up => with_buffer(s, moved_vertically(b, -1)),
        LogicalKey::Down => with_buffer(s, moved_vertically(b, 1)),
        LogicalKey::Home => with_buffer(s, cursor_moved(b, home_of(b))),
        LogicalKey::End => with_buffer(s, cursor_moved(b, end_of(b))),
        LogicalKey::PageUp => if ctrl {
            prev_document_effect(s)
        } else {
            with_buffer(s, moved_lines(b, -1, page_rows(s) as nat))
        },
        LogicalKey::PageDown => if ctrl {
            next_document_effect(s)
        } else {
            with_buffer(s, moved_lines(b, 1, page_rows(s) as nat))
        },
        LogicalKey::Enter => if alt {
            new_document(s)
        } else {
            typed(s, '\n')
        },
        LogicalKey::Tab => typed(s, '\t'),
        LogicalKey::Backspace => with_buffer(s, backspaced(b)),
        LogicalKey::Delete => with_buffer(s, deleted_forward(b)),
        LogicalKey::Esc => s,
    }
}

/// Whether `k` is a kill command (`C-k` / `C-w`).
pub open spec fn is_kill_key(k: KeyChord) -> bool {
    k.ctrl && (k.key == LogicalKey::Char('k') || k.key == LogicalKey::Char('w'))
}

/// An ordinary key, outside LEAP and prefixes: any previous echo message
/// lasts only until now, and any command but a kill breaks a kill run.
pub open spec fn ordinary_effect(s: EditorState, k: KeyChord) -> EditorState {
    command_effect(
        EditorState { echo: Seq::empty(), last_was_kill: if is_kill_key(k) { s.last_was_kill } else { false }, ..s },
        k,
    )
}

/// The key after `C-x`.
pub open spec fn prefix_effect(s: EditorState, k: KeyChord) -> EditorState {
    match k.key {
        LogicalKey::Char(c) => if c == 'p' {
            prev_document_effect(s)
        } else if c == 'n' {
            next_document_effect(s)
        } else if c == 'c' && k.ctrl {
            EditorState { running: false, ..s }
        } else if c == 'g' && k.ctrl {
            showing(s, "Cancelled"@)
        } else {
            showing(s, "C-x: undefined key"@)
        },
        LogicalKey::Esc => showing(s, "Cancelled"@),
        _ => showing(s, "C-x: undefined key"@),
    }
}

/// Proof helper: a first match is a match.
pub proof fn lemma_first_match_is_match(hay: Seq<char>, needle: Seq<char>, i: int, ci: bool)
    ensures
        first_match(hay, needle, i, ci) matches Some(m) ==> i <= m && matches_at_spec(hay, needle, m, ci),
    decreases hay.len() - i,
{
    if !(i < 0 || i + needle.len() > hay.len()) && !matches_at_spec(hay, needle, i, ci) {
        lemma_first_match_is_match(hay, needle, i + 1, ci);
    }
}

/// Proof helper: a last match is a match.
pub proof fn lemma_last_match_is_match(hay: Seq<char>, needle: Seq<char>, b: int, ci: bool)
    ensures
        last_match_before(hay, needle, b, ci) matches Some(m) ==> m < b && matches_at_spec(hay, needle, m, ci),
    decreases b,
{
    if b > 0 && !matches_at_spec(hay, needle, b - 1, ci) {
        lemma_last_match_is_match(hay, needle, b - 1, ci);
    }
}

/// Where a LEAP search lands: the match found (wrapping around the buffer
/// ends when none lies ahead) and whether it wrapped. Typing extends the
/// query in place (search at/after, or at/before, the current match);
/// repeating jumps strictly past it.
pub open spec fn leap_search(t: Seq<char>, l: LeapState, repeat: bool) -> (Option<int>, bool) {
    let q = l.query;
    let ci = smart_insensitive(q);
    let base = match l.matched {
        Some(m) => m,
        None => l.origin,
    };
    let len = t.len() as int;
    match l.dir {
        Dir::Forward => {
            let from = if repeat { base + 1 } else { base };
            let from = if from <= len { from } else { len };
            match first_match(t, q, from, ci) {
                Some(m) => (Some(m), false),
                None => (first_match(t, q, 0, ci), true),
            }
        },
        Dir::Backward => {
            let before = if repeat { base } else if base + 1 <= len { base + 1 } else { len };
            match last_match_before(t, q, before, ci) {
                Some(m) => (Some(m), false),
                None => (last_match_before(t, q, len, ci), true),
            }
        },
    }
}

/// Search again for the session's query and move the cursor to the match
/// start; on a failing search the cursor stays; with an empty query the
/// cursor returns to the origin.
pub open spec fn researched(s: EditorState, repeat: bool) -> EditorState {
    let l = s.leap->0;
    if l.query.len() == 0 {
        EditorState {
            leap: Some(LeapState { matched: None, wrapped: false, ..l }),
            buffer: clamped(s.buffer, l.origin),
            ..s
        }
    } else {
        let r = leap_search(s.buffer.text, l, repeat);
        EditorState {
            leap: Some(LeapState { matched: r.0, wrapped: r.0 is Some && r.1, ..l }),
            buffer: match r.0 {
                Some(m) => clamped(s.buffer, m),
                None => s.buffer,
            },
            ..s
        }
    }
}

/// Land the session, keeping the cursor at the match.
pub open spec fn landed(s: EditorState) -> EditorState {
    EditorState { leap: None, repaint: true, ..s }
}

/// Abandon the session, returning the cursor to where it started.
pub open spec fn cancelled(s: EditorState) -> EditorState {
    EditorState {
        leap: None,
        buffer: clamped(s.buffer, s.leap->0.origin),
        repaint: true,
        echo: "Quit"@,
        ..s
    }
}

/// A key while a LEAP session is active.
pub open spec fn leap_key_effect(s: EditorState, k: KeyChord) -> EditorState {
    let l = s.leap->0;
    let ctrl = k.ctrl;
    let alt = k.alt;
    match k.key {
        LogicalKey::Char(c) => if c == 's' && ctrl {
            if l.query.len() == 0 { s } else {
                researched(EditorState { leap: Some(LeapState { dir: Dir::Forward, ..l }), ..s }, true)
            }
        } else if c == 'r' && ctrl {
            if l.query.len() == 0 { s } else {
                researched(EditorState { leap: Some(LeapState { dir: Dir::Backward, ..l }), ..s }, true)
            }
        } else if c == 'g' && ctrl {
            cancelled(s)
        } else if c == 'h' && ctrl {
            researched(EditorState { leap: Some(LeapState { query: if l.query.len() > 0 {
                l.query.drop_last()
            } else {
                l.query
            }, wrapped: false, ..l }), ..s }, false)
        } else if !ctrl && !alt {
            researched(EditorState { leap: Some(LeapState { query: l.query.push(c), wrapped: false, ..l }), ..s }, false)
        } else {
            ordinary_effect(landed(s), k)
        },
        LogicalKey::Enter => landed(s),
        LogicalKey::Esc => cancelled(s),
        LogicalKey::Backspace => researched(EditorState { leap: Some(LeapState { query: if l.query.len() > 0 {
            l.query.drop_last()
        } else {
            l.query
        }, wrapped: false, ..l }), ..s }, false),
        _ => ordinary_effect(landed(s), k),
    }
}

/// What a key does in the editor's current mode.
pub open spec fn key_effect(s: EditorState, k: KeyChord) -> EditorState {
    if s.leap is Some {
        leap_key_effect(EditorState { last_was_kill: false, ..s }, k)
    } else if s.prefix is Some {
        prefix_effect(EditorState { prefix: None, last_was_kill: false, ..s }, k)
    } else {
        ordinary_effect(s, k)
    }
}

} // verus!

verus! {

impl Editor {
    /// Type the char `c` at the cursor; refused once the workspace is full.
    fn type_char(&mut self, c: char)
        requires
            old(self).wf(),
            old(self)@.leap is None,
        ensures
            final(self).wf(),
            final(self)@ == typed(old(self)@, c),
    {
        if self.buffer.len_chars() < MAX_CHARS {
            self.buffer.insert_char(c);
        } else {
            self.echo.show("Workspace full");
        }
    }

    /// `M-Enter`: start a new document at the cursor.
    fn new_document(&mut self)
        requires
            old(self).wf(),
            old(self)@.leap is None,
        ensures
            final(self).wf(),
            final(self)@ == new_document(old(self)@),
    {
        if self.buffer.len_chars() <= MAX_CHARS - 3 {
            self.buffer.insert_document_break();
            self.echo.show("New document");
        } else {
            self.echo.show("Workspace full");
        }
    }

    /// Run a kill command: the removed text joins the kill ring, accumulating
    /// with the previous command if it was also a kill. A backward kill
    /// (`C-w`) prepends so the recovered text keeps document order; a forward
    /// kill (`C-k`) appends.
    fn kill(&mut self, backward: bool)
        requires
            old(self).wf(),
            old(self)@.leap is None,
        ensures
            final(self).wf(),
            final(self)@ == kill_effect(old(self)@, backward),
    {
        let killed = if backward {
            self.buffer.backward_kill_word()
        } else {
            self.buffer.kill_line()
        };
        if self.last_was_kill {
            if backward {
                let mut ring = killed;
                ring.append(self.kill_ring.as_str());
                self.kill_ring = ring;
            } else {
                self.kill_ring.append(killed.as_str());
            }
        } else {
            self.kill_ring = killed;
        }
        self.last_was_kill = true;
    }

    /// `C-y`: insert the kill ring at the cursor.
    fn yank(&mut self)
        requires
            old(self).wf(),
            old(self)@.leap is None,
        ensures
            final(self).wf(),
            final(self)@ == yank_effect(old(self)@),
    {
        if self.kill_ring.as_str().is_empty() {
            self.echo.show("Kill ring empty");
        } else if self.kill_ring.as_str().unicode_len() <= MAX_CHARS - self.buffer.len_chars() {
            self.buffer.insert_str(self.kill_ring.as_str());
        } else {
            self.echo.show("Workspace full");
        }
    }

    /// Lines a page up/down moves: a near-screenful.
    fn page_step(&self) -> (n: usize)
        ensures
            n == page_rows(self@),
    {
        let r = self.last_text_rows.saturating_sub(1);
        if r > 1 {
            r
        } else {
            1
        }
    }

    /// `C-v` / `M-v` / PgDn / PgUp: move the cursor a near-screenful down
    /// (`dir` 1) or up (`dir` -1).
    fn page(&mut self, dir: isize)
        requires
            old(self).wf(),
            old(self)@.leap is None,
            dir == 1 || dir == -1,
        ensures
            final(self).wf(),
            final(self)@ == with_buffer(old(self)@, moved_lines(old(self)@.buffer, dir as int, page_rows(old(self)@) as nat)),
    {
        let ghost s0 = self@;
        let n = self.page_step();
        let mut i: usize = 0;
        while i < n
            invariant
                s0.leap is None,
                editor_wf(s0),
                dir == 1 || dir == -1,
                n == page_rows(s0),
                i <= n,
                self.wf(),
                self@ == with_buffer(s0, moved_lines(s0.buffer, dir as int, i as nat)),
            decreases n - i,
        {
            if dir == 1 {
                self.buffer.move_down();
            } else {
                self.buffer.move_up();
            }
            i += 1;
        }
    }

    /// `C-l`: scroll so the cursor's line sits in the middle of the text
    /// area, and repaint everything (clears any display glitches).
    fn recenter(&mut self)
        requires
            old(self).wf(),
        ensures
            final(self).wf(),
            final(self)@ == recentered(old(self)@),
    {
        let (line, _) = self.buffer.cursor_line_col();
        self.top = line.saturating_sub(self.last_text_rows / 2);
        self.repaint = true;
    }

    /// A short label for the document the cursor is in (its leading text).
    fn doc_label(&self) -> (s: String)
        requires
            self.wf(),
        ensures
            s@ == doc_label(self@.buffer),
    {
        let title = self.buffer.document_title(40);
        if title.as_str().is_empty() {
            String::from_str("Untitled document")
        } else {
            let mut s = String::from_str("Document: ");
            s.append(title.as_str());
            s
        }
    }

    /// Move to the document start `p` and name the document.
    fn go_to_document(&mut self, p: usize)
        requires
            old(self).wf(),
            old(self)@.leap is None,
        ensures
            final(self).wf(),
            final(self)@ == at_document(old(self)@, p as int),
    {
        self.buffer.set_cursor(p);
        let label = self.doc_label();
        self.echo.show(label.as_str());
    }

    /// Ctrl+PgUp / `C-x p`: move to the start of the current document, then
    /// to earlier ones.
    fn prev_document(&mut self)
        requires
            old(self).wf(),
            old(self)@.leap is None,
        ensures
            final(self).wf(),
            final(self)@ == prev_document_effect(old(self)@),
    {
        let start = self.buffer.current_document_start();
        if self.buffer.cursor() > start {
            self.go_to_document(start);
        } else {
            match self.buffer.prev_document_start() {
                Some(p) => self.go_to_document(p),
                None => self.echo.show("First document"),
            }
        }
    }

    /// Ctrl+PgDn / `C-x n`: move to the start of the next document.
    fn next_document(&mut self)
        requires
            old(self).wf(),
            old(self)@.leap is None,
        ensures
            final(self).wf(),
            final(self)@ == next_document_effect(old(self)@),
    {
        match self.buffer.next_document_start() {
            Some(p) => self.go_to_document(p),
            None => self.echo.show("Last document"),
        }
    }

    /// Begin a LEAP session in `dir` from the current cursor.
    fn leap_start(&mut self, dir: Dir)
        requires
            old(self).wf(),
            old(self)@.leap is None,
            old(self)@.prefix is None,
        ensures
            final(self).wf(),
            final(self)@ == leap_started(old(self)@, dir),
    {
        self.leap = Some(Leap::new(dir, self.buffer.cursor()));
    }
}

} // verus!

verus! {

impl Editor {
    /// Dispatch an ordinary key (no LEAP session, no prefix pending).
    #[verifier::rlimit(40)]
    fn command(&mut self, key: KeyChord)
        requires
            old(self).wf(),
            old(self)@.leap is None,
            old(self)@.prefix is None,
        ensures
            final(self).wf(),
            final(self)@ == command_effect(old(self)@, key),
    {
        let ctrl = key.ctrl;
        let alt = key.alt;
        match key.key {
            LogicalKey::Char(c) => {
                if c == 'q' && ctrl {
                    self.running = false;
                } else if c == 'x' && ctrl {
                    self.prefix = Some(Prefix::CtrlX);
                    self.echo.show("C-x-");
                } else if c == 'g' && ctrl {
                    self.echo.show("Quit");
                } else if c == 's' && ctrl {
                    self.leap_start(Dir::Forward);
                } else if c == 'r' && ctrl {
                    self.leap_start(Dir::Backward);
                } else if c == 'b' && ctrl {
                    self.buffer.move_left();
                } else if c == 'f' && ctrl {
                    self.buffer.move_right();
                } else if c == 'p' && ctrl {
                    self.buffer.move_up();
                } else if c == 'n' && ctrl {
                    self.buffer.move_down();
                } else if c == 'a' && ctrl {
                    self.buffer.move_home();
                } else if c == 'e' && ctrl {
                    self.buffer.move_end();
                } else if c == 'b' && alt {
                    self.buffer.move_word_backward();
                } else if c == 'f' && alt {
                    self.buffer.move_word_forward();
                } else if c == 'v' && ctrl {
                    self.page(1);
                } else if c == 'v' && alt {
                    self.page(-1);
                } else if c == 'l' && ctrl {
                    self.recenter();
                } else if c == 'd' && ctrl {
                    self.buffer.delete_forward();
                } else if c == 'h' && ctrl {
                    self.buffer.backspace();
                } else if c == 'k' && ctrl {
                    self.kill(false);
                } else if c == 'w' && ctrl {
                    self.kill(true);
                } else if c == 'y' && ctrl {
                    self.yank();
                } else if !ctrl && !alt {
                    self.type_char(c);
                }
            },
            LogicalKey::Left => self.buffer.move_left(),
            LogicalKey::Right => self.buffer.move_right(),
            LogicalKey::Up => self.buffer.move_up(),
            LogicalKey::Down => self.buffer.move_down(),
            LogicalKey::Home => self.buffer.move_home(),
            LogicalKey::End => self.buffer.move_end(),
            LogicalKey::PageUp => {
                if ctrl {
                    self.prev_document();
                } else {
                    self.page(-1);
                }
            },
            LogicalKey::PageDown => {
                if ctrl {
                    self.next_document();
                } else {
                    self.page(1);
                }
            },
            LogicalKey::Enter => {
                if alt {
                    self.new_document();
                } else {
                    self.type_char('\n');
                }
            },
            LogicalKey::Tab => self.type_char('\t'),
            LogicalKey::Backspace => self.buffer.backspace(),
            LogicalKey::Delete => self.buffer.delete_forward(),
            LogicalKey::Esc => {},
        }
    }

    /// An ordinary key: any previous echo message lasts only until now, and
    /// any command but a kill ends a run of kills.
    fn ordinary_key(&mut self, key: KeyChord)
        requires
            old(self).wf(),
            old(self)@.leap is None,
            old(self)@.prefix is None,
        ensures
            final(self).wf(),
            final(self)@ == ordinary_effect(old(self)@, key),
    {
        self.echo.clear();
        let is_kill = key.ctrl && (key.key == LogicalKey::Char('k') || key.key == LogicalKey::Char('w'));
        if !is_kill {
            self.last_was_kill = false;
        }
        self.command(key);
    }

    /// Complete a pending `C-x` prefix with `key`.
    fn prefix_key(&mut self, key: KeyChord)
        requires
            old(self).wf(),
            old(self)@.leap is None,
            old(self)@.prefix is None,
        ensures
            final(self).wf(),
            final(self)@ == prefix_effect(old(self)@, key),
    {
        match key.key {
            LogicalKey::Char(c) => {
                if c == 'p' {
                    self.prev_document();
                } else if c == 'n' {
                    self.next_document();
                } else if c == 'c' && key.ctrl {
                    self.running = false;
                } else if c == 'g' && key.ctrl {
                    self.echo.show("Cancelled");
                } else {
                    self.echo.show("C-x: undefined key");
                }
            },
            LogicalKey::Esc => self.echo.show("Cancelled"),
            _ => self.echo.show("C-x: undefined key"),
        }
    }
}

} // verus!

verus! {

impl Editor {
    /// Search again for the session's query, wrapping around the buffer ends,
    /// and move the cursor to the match start. `repeat` tells "jump to the
    /// next match" (`C-s`/`C-r`) from "extend the query in place" (typing):
    /// they search from adjacent positions so typing doesn't skip the
    /// current match.
    fn leap_research(&mut self, repeat: bool)
        requires
            core_wf(old(self)@),
            old(self)@.leap is Some,
        ensures
            final(self).wf(),
            final(self)@ == researched(old(self)@, repeat),
    {
        let (query, dir, origin, base, ci) = match &self.leap {
            Some(l) => (
                l.query.clone(),
                l.dir,
                l.origin,
                match l.matched {
                    Some(m) => m,
                    None => l.origin,
                },
                l.insensitive(),
            ),
            None => {
                return;
            },
        };
        if query.as_str().is_empty() {
            self.leap = Some(Leap { dir, query, origin, matched: None, wrapped: false });
            self.buffer.set_cursor(origin);
            return;
        }
        let ghost t = self@.buffer.text;
        let ghost q = query@;
        let len = self.buffer.len_chars();
        let (found, wrapped) = match dir {
            Dir::Forward => {
                // Extend: at/after the current match; repeat: strictly after.
                let from = if repeat { base + 1 } else { base };
                let from = if from <= len { from } else { len };
                match self.buffer.search_forward(from, query.as_str(), ci) {
                    Some(m) => (Some(m), false),
                    None => (self.buffer.search_forward(0, query.as_str(), ci), true),
                }
            },
            Dir::Backward => {
                // Extend: at/before the current match; repeat: strictly before.
                let before = if repeat {
                    base
                } else if base + 1 <= len {
                    base + 1
                } else {
                    len
                };
                match self.buffer.search_backward(before, query.as_str(), ci) {
                    Some(m) => (Some(m), false),
                    None => (self.buffer.search_backward(len, query.as_str(), ci), true),
                }
            },
        };
        proof {
            match found {
                Some(m) => {
                    match dir {
                        Dir::Forward => {
                            let from = if repeat { base + 1 } else { base as int };
                            let from = if from <= len { from } else { len as int };
                            lemma_first_match_is_match(t, q, from, ci);
                            lemma_first_match_is_match(t, q, 0, ci);
                        },
                        Dir::Backward => {
                            let before = if repeat { base as int } else if base + 1 <= len { base + 1 } else { len as int };
                            lemma_last_match_is_match(t, q, before, ci);
                            lemma_last_match_is_match(t, q, len as int, ci);
                        },
                    }
                },
                None => {},
            }
        }
        self.leap = Some(Leap { dir, query, origin, matched: found, wrapped: found.is_some() && wrapped });
        // Move to the match start; on a failing search, stay put.
        match found {
            Some(m) => self.buffer.set_cursor(m),
            None => {},
        }
    }

    /// A typed char extends the query.
    fn leap_input(&mut self, c: char)
        requires
            old(self).wf(),
            old(self)@.leap is Some,
        ensures
            final(self).wf(),
            final(self)@ == researched(
                EditorState {
                    leap: Some(LeapState { query: old(self)@.leap->0.query.push(c), wrapped: false, ..old(self)@.leap->0 }),
                    ..old(self)@
                },
                false,
            ),
    {
        match &self.leap {
            Some(l) => {
                let mut query = l.query.clone();
                crate::text::push_char(&mut query, c);
                self.leap = Some(Leap { dir: l.dir, query, origin: l.origin, matched: l.matched, wrapped: false });
            },
            None => {},
        }
        self.leap_research(false);
    }

    /// Backspace drops the query's last char.
    fn leap_backspace(&mut self)
        requires
            old(self).wf(),
            old(self)@.leap is Some,
        ensures
            final(self).wf(),
            final(self)@ == researched(
                EditorState {
                    leap: Some(LeapState {
                        query: if old(self)@.leap->0.query.len() > 0 {
                            old(self)@.leap->0.query.drop_last()
                        } else {
                            old(self)@.leap->0.query
                        },
                        wrapped: false,
                        ..old(self)@.leap->0
                    }),
                    ..old(self)@
                },
                false,
            ),
    {
        match &self.leap {
            Some(l) => {
                let n = l.query.as_str().unicode_len();
                let query = if n > 0 {
                    take_chars(l.query.as_str(), n - 1)
                } else {
                    l.query.clone()
                };
                assert(n > 0 ==> l.query@.drop_last() == l.query@.take(n - 1));
                self.leap = Some(Leap { dir: l.dir, query, origin: l.origin, matched: l.matched, wrapped: false });
            },
            None => {},
        }
        self.leap_research(false);
    }

    /// Jump to the next/previous occurrence (and switch direction if needed).
    fn leap_repeat(&mut self, dir: Dir)
        requires
            old(self).wf(),
            old(self)@.leap is Some,
        ensures
            final(self).wf(),
            old(self)@.leap->0.query.len() == 0 ==> final(self)@ == old(self)@,
            old(self)@.leap->0.query.len() > 0 ==> final(self)@ == researched(
                EditorState { leap: Some(LeapState { dir, ..old(self)@.leap->0 }), ..old(self)@ },
                true,
            ),
    {
        match &self.leap {
            Some(l) => {
                if l.query.as_str().is_empty() {
                    return;
                }
                let query = l.query.clone();
                self.leap = Some(Leap { dir, query, origin: l.origin, matched: l.matched, wrapped: l.wrapped });
            },
            None => {
                return;
            },
        }
        self.leap_research(true);
    }

    /// Land the session, keeping the cursor at the match.
    fn leap_land(&mut self)
        requires
            old(self).wf(),
        ensures
            final(self).wf(),
            final(self)@ == landed(old(self)@),
    {
        self.leap = None;
        self.repaint = true;
    }

    /// Abandon the session, returning the cursor to where it started.
    fn leap_cancel(&mut self)
        requires
            old(self).wf(),
            old(self)@.leap is Some,
        ensures
            final(self).wf(),
            final(self)@ == cancelled(old(self)@),
    {
        let origin = match &self.leap {
            Some(l) => l.origin,
            None => self.buffer.cursor(),
        };
        self.leap = None;
        self.buffer.set_cursor(origin);
        self.repaint = true;
        self.echo.show("Quit");
    }

    /// A keystroke while a LEAP session is active.
    fn leap_key(&mut self, key: KeyChord)
        requires
            old(self).wf(),
            old(self)@.leap is Some,
        ensures
            final(self).wf(),
            final(self)@ == leap_key_effect(old(self)@, key),
    {
        let ctrl = key.ctrl;
        let alt = key.alt;
        match key.key {
            LogicalKey::Char(c) => {
                if c == 's' && ctrl {
                    self.leap_repeat(Dir::Forward);
                } else if c == 'r' && ctrl {
                    self.leap_repeat(Dir::Backward);
                } else if c == 'g' && ctrl {
                    self.leap_cancel();
                } else if c == 'h' && ctrl {
                    self.leap_backspace();
                } else if !ctrl && !alt {
                    self.leap_input(c);
                } else {
                    self.leap_land();
                    self.ordinary_key(key);
                }
            },
            LogicalKey::Enter => self.leap_land(),
            LogicalKey::Esc => self.leap_cancel(),
            LogicalKey::Backspace => self.leap_backspace(),
            // Any other key lands the session and is then handled normally,
            // so LEAP is never a trap (C-q quits, arrows move, etc.).
            _ => {
                self.leap_land();
                self.ordinary_key(key);
            },
        }
    }

    /// Handle one key: it drives the LEAP session when one is active,
    /// completes a pending prefix, or runs an ordinary command.
    pub fn input(&mut self, key: KeyChord)
        requires
            old(self).wf(),
        ensures
            final(self).wf(),
            final(self)@ == key_effect(old(self)@, key),
    {
        if self.leap.is_some() {
            self.last_was_kill = false;
            self.leap_key(key);
            return;
        }
        if self.prefix.is_some() {
            self.prefix = None;
            self.last_was_kill = false;
            self.prefix_key(key);
            return;
        }
        self.ordinary_key(key);
    }
}

} // verus!

verus! {

/// The first visible position after scrolling a window of `n` positions,
/// which starts at `first`, just enough to bring `pos` into it.
pub open spec fn scrolled(first: int, n: int, pos: int) -> int {
    if pos < first {
        pos
    } else if n > 0 && pos >= first + n {
        pos + 1 - n
    } else {
        first
    }
}

/// The text-area height of a viewport `rows` high: the bottom two rows are
/// the status line and the echo line.
pub open spec fn text_rows_of(rows: int) -> int {
    if rows > 2 {
        rows - 2
    } else {
        0
    }
}

/// The editor after laying out a `cols` × `rows` frame: the viewport
/// scrolled just enough to show the cursor, the resume position written to
/// the log when it moved, the text-area height kept for paging, and a
/// pending full repaint consumed.
pub open spec fn framed(s: EditorState, cols: int, rows: int) -> EditorState {
    let t = s.buffer.text;
    let c = s.buffer.cursor;
    let n = text_rows_of(rows);
    let top = scrolled(s.top, n, line_of(t, c));
    let left = scrolled(s.left, cols, display_col_of(t, c));
    let moved = c != s.saved.0 || top != s.saved.1 || left != s.saved.2;
    EditorState {
        top,
        left,
        last_text_rows: n,
        repaint: false,
        saved: (c, top, left),
        log: if moved {
            Log { cursor: c, top, left, ..s.log }
        } else {
            s.log
        },
        ..s
    }
}

/// Whether line `l` of `t` is a lone document marker.
pub open spec fn marker_line(t: Seq<char>, l: int) -> bool {
    &&& l < line_count(t)
    &&& line_start(t, l) < line_start(t, l + 1)
    &&& t[line_start(t, l)] == DOC_MARKER
}

/// Row `r` shows line `idx` of `t` scrolled by `left` in a `cols`-wide text
/// area: `~` past the end, a rule for a marker line, else the line's visible
/// cells.
pub open spec fn row_shows(r: Row, t: Seq<char>, idx: int, left: int, cols: int) -> bool {
    if idx >= line_count(t) {
        r == Row::Tilde
    } else if marker_line(t, idx) {
        r == Row::MarkerRule
    } else {
        r matches Row::Text(x) && x@ == clip(drop_chars(expand(line_chars(t, idx), 0), left), cols)
    }
}

/// The status line for the buffer: the document's title (or the editor's
/// name for an untitled one), the modified dot, and the 1-based cursor line
/// and column out of the line count.
pub open spec fn status_of(b: BufferState, width: int) -> Seq<char> {
    let title = title_of(b, 40);
    let name = if title.len() == 0 { "·leap·"@ } else { title };
    status_row(
        name,
        b.dirty,
        false,
        (line_of(b.text, b.cursor) + 1) as nat,
        (col_of(b.text, b.cursor) + 1) as nat,
        line_count(b.text),
        width,
    )
}

/// The echo line: the LEAP label while leaping, else the message, clipped.
pub open spec fn echo_of(s: EditorState, cols: int) -> Seq<char> {
    match s.leap {
        Some(l) => clip(leap_label(l.dir, l.query, l.matched is Some, l.wrapped), cols),
        None => clip(s.echo, cols),
    }
}

/// The LEAP match to highlight: its line and the display columns it spans,
/// when there is one and it lies on a single line.
pub open spec fn match_span(s: EditorState) -> Option<(int, int, int)> {
    match s.leap {
        Some(l) => match l.matched {
            Some(m) => {
                let t = s.buffer.text;
                let e = m + l.query.len();
                if line_of(t, m) == line_of(t, e) {
                    Some((line_of(t, m), display_col_of(t, m), display_col_of(t, e)))
                } else {
                    None
                }
            },
            None => None,
        },
        None => None,
    }
}

/// Display column `a` as a visible cell when the view starts at `left`.
pub open spec fn cells_from(a: int, left: int) -> int {
    if a > left {
        a - left
    } else {
        0
    }
}

/// The highlight of the row showing line `idx`: the match's visible cells
/// when the match lies on that line.
pub open spec fn highlight_shows(h: Option<(usize, usize)>, span: Option<(int, int, int)>, idx: int, left: int) -> bool {
    match span {
        Some(sp) => if sp.0 == idx {
            h matches Some(p) && p.0 == cells_from(sp.1, left) && p.1 == cells_from(sp.2, left)
        } else {
            h is None
        },
        None => h is None,
    }
}

/// What a `cols` × `rows` frame of the editor in state `s` shows.
pub open spec fn frame_shows(fr: Frame, s: EditorState, cols: int, rows: int) -> bool {
    let f = framed(s, cols, rows);
    let t = s.buffer.text;
    let n = text_rows_of(rows);
    &&& fr.rows@.len() == n
    &&& fr.highlights@.len() == n
    &&& forall|i: int| 0 <= i < n ==> row_shows(#[trigger] fr.rows@[i], t, f.top + i, f.left, cols)
    &&& forall|i: int| 0 <= i < n ==> highlight_shows(#[trigger] fr.highlights@[i], match_span(s), f.top + i, f.left)
    &&& fr.status@ == status_of(s.buffer, cols)
    &&& fr.echo@ == echo_of(s, cols)
    &&& fr.cursor.0 == display_col_of(t, s.buffer.cursor) - f.left
    &&& fr.cursor.1 == line_of(t, s.buffer.cursor) - f.top
    &&& fr.full_repaint == s.repaint
    &&& fr.redraw_text == s.leap is Some
}

impl Editor {
    /// Adjust the viewport so the cursor stays on screen.
    fn scroll_to_cursor(&mut self, text_rows: usize, text_cols: usize)
        requires
            old(self).wf(),
        ensures
            final(self).wf(),
            final(self)@ == (EditorState {
                top: scrolled(old(self)@.top, text_rows as int, line_of(old(self)@.buffer.text, old(self)@.buffer.cursor)),
                left: scrolled(
                    old(self)@.left,
                    text_cols as int,
                    display_col_of(old(self)@.buffer.text, old(self)@.buffer.cursor),
                ),
                ..old(self)@
            }),
    {
        let (line, _) = self.buffer.cursor_line_col();
        let col = self.buffer.cursor_display_col();
        if line < self.top {
            self.top = line;
        } else if text_rows > 0 && line - self.top >= text_rows {
            self.top = line - text_rows + 1;
        }
        if col < self.left {
            self.left = col;
        } else if text_cols > 0 && col - self.left >= text_cols {
            self.left = col - text_cols + 1;
        }
    }

    /// The current LEAP match as `(line, start_dcol, end_dcol)` in absolute
    /// display columns, or `None` when not leaping, without a match, or when
    /// the match spans lines.
    fn leap_highlight(&self) -> (h: Option<(usize, usize, usize)>)
        requires
            self.wf(),
        ensures
            match_span(self@) is None ==> h is None,
            match_span(self@) matches Some(sp) ==> (h matches Some(x) && x.0 == sp.0 && x.1 == sp.1 && x.2 == sp.2),
    {
        match &self.leap {
            Some(l) => match l.matched {
                Some(m) => {
                    let qlen = l.query.as_str().unicode_len();
                    let (line, start) = self.buffer.line_col_at(m);
                    let (end_line, end) = self.buffer.line_col_at(m + qlen);
                    if end_line == line {
                        Some((line, start, end))
                    } else {
                        None
                    }
                },
                None => None,
            },
            None => None,
        }
    }

    /// The status line, formatted to `width`.
    fn status_string(&self, width: usize) -> (s: String)
        requires
            self.wf(),
        ensures
            s@ == status_of(self@.buffer, width as int),
    {
        let (line, col) = self.buffer.cursor_line_col();
        proof {
            let t = self@.buffer.text;
            let c = self@.buffer.cursor;
            crate::rope::lemma_breaks_before_le(t, c);
            crate::rope::lemma_line_of_starts_before(t, c);
            crate::rope::lemma_line_start_bounds(t, line_of(t, c));
        }
        let title = self.buffer.document_title(40);
        let name = if title.as_str().is_empty() {
            String::from_str("·leap·")
        } else {
            title
        };
        let status = StatusLine {
            name,
            // Every keystroke is persisted before a frame is laid out, so
            // this is in practice always false: the Cat never shows
            // "unsaved".
            dirty: self.buffer.is_dirty(),
            readonly: false,
            line: line + 1,
            col: col + 1,
            total_lines: self.buffer.len_lines(),
        };
        status.render(width)
    }

    /// Lay out the next `cols` × `rows` frame: scroll the viewport to the
    /// cursor, record the resume position in the log when it moved, and
    /// return the visible rows, the chrome, the cursor cell and the LEAP
    /// highlight. The cursor is always inside the text area.
    #[verifier::rlimit(40)]
    pub fn compute_frame(&mut self, cols: u16, rows: u16) -> (fr: Frame)
        requires
            old(self).wf(),
        ensures
            final(self).wf(),
            final(self)@ == framed(old(self)@, cols as int, rows as int),
            frame_shows(fr, old(self)@, cols as int, rows as int),
            rows > 2 ==> fr.cursor.1 < rows - 2,
            cols > 0 ==> fr.cursor.0 < cols,
    {
        let ghost s0 = self@;
        let text_rows = rows.saturating_sub(2) as usize;
        let text_cols = cols as usize;
        self.last_text_rows = text_rows;
        self.scroll_to_cursor(text_rows, text_cols);
        let cur = self.buffer.cursor();
        if cur != self.saved_state.0 || self.top != self.saved_state.1 || self.left != self.saved_state.2 {
            self.store.set_state(cur, self.top, self.left);
            self.saved_state = (cur, self.top, self.left);
        }
        let ghost t = self@.buffer.text;
        proof {
            crate::rope::lemma_breaks_before_le(t, cur as int);
        }
        let span = self.leap_highlight();
        let total = self.buffer.len_lines();
        let mut out: Vec<Row> = Vec::new();
        let mut highlights: Vec<Option<(usize, usize)>> = Vec::new();
        let mut i: usize = 0;
        while i < text_rows
            invariant
                self.wf(),
                t == self@.buffer.text,
                total == line_count(t),
                self.top <= t.len() <= MAX_CHARS,
                text_rows <= u16::MAX,
                i <= text_rows,
                out@.len() == i,
                highlights@.len() == i,
                match_span(self@) is None ==> span is None,
                match_span(self@) matches Some(sp) ==> (span matches Some(x) && x.0 == sp.0 && x.1 == sp.1 && x.2
                    == sp.2),
                forall|j: int| 0 <= j < i ==> row_shows(#[trigger] out@[j], t, self.top + j, self.left as int, text_cols as int),
                forall|j: int|
                    0 <= j < i ==> highlight_shows(#[trigger] highlights@[j], match_span(self@), self.top + j, self.left as int),
            decreases text_rows - i,
        {
            let idx = self.top + i;
            let row = if idx >= total {
                Row::Tilde
            } else if self.buffer.line_is_marker(idx) {
                Row::MarkerRule
            } else {
                Row::Text(self.buffer.display_line(idx, self.left, text_cols))
            };
            out.push(row);
            let h = match span {
                Some((line, a, b)) => if line == idx {
                    Some((a.saturating_sub(self.left), b.saturating_sub(self.left)))
                } else {
                    None
                },
                None => None,
            };
            highlights.push(h);
            i += 1;
        }
        let status = self.status_string(text_cols);
        // Echo line. Priority: LEAP label > transient message.
        let echo = match &self.leap {
            Some(l) => {
                let label = l.label();
                take_chars(label.as_str(), text_cols)
            },
            None => self.echo.render(text_cols),
        };
        let (line, _) = self.buffer.cursor_line_col();
        let cursor = (self.buffer.cursor_display_col() - self.left, line - self.top);
        let full_repaint = self.repaint;
        self.repaint = false;
        Frame {
            rows: out,
            status,
            echo,
            cursor,
            highlights,
            full_repaint,
            redraw_text: self.leap.is_some(),
        }
    }
}

} // verus!

verus! {

/// Laying out a frame writes the position it shows to the log: reopening
/// the workspace resumes the cursor and the scroll exactly as last drawn,
/// and the text it resumes is untouched.
pub proof fn lemma_frame_records_position(s: EditorState, cols: int, rows: int)
    requires
        editor_wf(s),
    ensures
        framed(s, cols, rows).log.cursor == s.buffer.cursor,
        framed(s, cols, rows).log.top == framed(s, cols, rows).top,
        framed(s, cols, rows).log.left == framed(s, cols, rows).left,
        resume_text(framed(s, cols, rows).log) == resume_text(s.log),
        framed(s, cols, rows).buffer == s.buffer,
{
}

/// `Esc` (or `C-g`) during a LEAP session returns the cursor to where the
/// session began and ends it, leaving the text as it was.
pub proof fn lemma_leap_cancel_returns(s: EditorState, k: KeyChord)
    requires
        editor_wf(s),
        s.leap is Some,
        k.key == LogicalKey::Esc || (k.key == LogicalKey::Char('g') && k.ctrl),
    ensures
        key_effect(s, k).leap is None,
        key_effect(s, k).buffer.cursor == s.leap->0.origin,
        key_effect(s, k).buffer.text == s.buffer.text,
{
}

/// While a LEAP session goes on, keystrokes drive the search and never the
/// buffer: a key after which the session is still active leaves the text,
/// and what is waiting to be logged, as they were.
pub proof fn lemma_leap_keys_never_edit(s: EditorState, k: KeyChord)
    requires
        editor_wf(s),
        s.leap is Some,
        key_effect(s, k).leap is Some,
    ensures
        key_effect(s, k).buffer.text == s.buffer.text,
        key_effect(s, k).buffer.journal == s.buffer.journal,
{
    let s1 = EditorState { last_was_kill: false, ..s };
    let landed_at = landed(s1);
    match k.key {
        LogicalKey::Char(c) => {
            if !((c == 's' || c == 'r' || c == 'g' || c == 'h') && k.ctrl) && (k.ctrl || k.alt) {
                // A chord that lands the session and runs as an ordinary key:
                // only `C-s` / `C-r` would start a new session.
                assert(key_effect(s, k) == ordinary_effect(landed_at, k));
                assert(ordinary_effect(landed_at, k).leap is None);
            }
        },
        LogicalKey::Enter => {},
        LogicalKey::Esc => {},
        LogicalKey::Backspace => {},
        _ => {
            assert(key_effect(s, k) == ordinary_effect(landed_at, k));
            assert(ordinary_effect(landed_at, k).leap is None);
        },
    }
}

/// `C-k` then `C-y` puts the killed text back where it was.
pub proof fn lemma_kill_then_yank_restores_text(s: EditorState, kill: KeyChord, yank: KeyChord)
    requires
        editor_wf(s),
        s.leap is None,
        s.prefix is None,
        !s.last_was_kill,
        kill_end(s.buffer.text, s.buffer.cursor) is Some,
        kill.key == LogicalKey::Char('k') && kill.ctrl,
        yank.key == LogicalKey::Char('y') && yank.ctrl,
    ensures
        key_effect(key_effect(s, kill), yank).buffer.text == s.buffer.text,
{
    let t = s.buffer.text;
    let e = kill_end(t, s.buffer.cursor)->0;
    crate::rope::lemma_line_start_bounds(t, line_of(t, s.buffer.cursor));
    crate::buffer::lemma_kill_then_yank_restores(s.buffer, e);
}

/// Consecutive kills accumulate into one kill-ring entry: two `C-k`s in a
/// row leave both killed pieces in the ring, in document order.
pub proof fn lemma_kills_accumulate(s: EditorState, k1: KeyChord, k2: KeyChord)
    requires
        editor_wf(s),
        s.leap is None,
        s.prefix is None,
        !s.last_was_kill,
        k1.key == LogicalKey::Char('k') && k1.ctrl,
        k2.key == LogicalKey::Char('k') && k2.ctrl,
    ensures
        key_effect(key_effect(s, k1), k2).kill_ring == line_kill_text(s.buffer) + line_kill_text(
            line_killed(s.buffer),
        ),
{
}

} // verus!

verus! {

/// Nothing is ever lost: once a key's edits are persisted and the frame is
/// laid out, the log holds exactly what is on screen, so reopening the
/// workspace resumes the same text with the cursor and the scroll where
/// they were.
pub proof fn lemma_reopen_resumes(s: EditorState, cols: int, rows: int)
    requires
        editor_wf(s),
        s.buffer.journal.len() == 0,
    ensures
        resume_text(framed(s, cols, rows).log) == s.buffer.text,
        framed(s, cols, rows).log.cursor == s.buffer.cursor <= s.buffer.text.len(),
        framed(s, cols, rows).log.top == framed(s, cols, rows).top,
        framed(s, cols, rows).log.left == framed(s, cols, rows).left,
{
    assert(replay(s.buffer.base, s.buffer.journal) == s.buffer.base);
}

} // verus!

verus! {

/// Typing extends the query in place: when the current match still matches
/// the longer query, the session stays on it instead of skipping ahead (or
/// back), and the cursor stays at its start.
pub proof fn lemma_typing_keeps_current_match(s: EditorState, k: KeyChord, c: char)
    requires
        editor_wf(s),
        s.leap matches Some(l) && l.matched matches Some(m) && matches_at_spec(
            s.buffer.text,
            l.query.push(c),
            m,
            smart_insensitive(l.query.push(c)),
        ),
        k.key == LogicalKey::Char(c) && !k.ctrl && !k.alt,
    ensures
        key_effect(s, k).leap matches Some(l2) && l2.matched == s.leap->0.matched,
        key_effect(s, k).buffer.cursor == s.leap->0.matched->0,
{
    let l = s.leap->0;
    let m = l.matched->0;
    let q = l.query.push(c);
    let t = s.buffer.text;
    assert(q.len() > 0);
    match l.dir {
        Dir::Forward => {
            assert(first_match(t, q, m, smart_insensitive(q)) == Some(m));
        },
        Dir::Backward => {
            assert(m + 1 <= t.len());
            assert(last_match_before(t, q, m + 1, smart_insensitive(q)) == Some(m));
        },
    }
}

} // verus!

verus! {

/// Laying out a frame puts the cursor inside the text area, remembers the
/// text-area height for paging, writes the shown position to the log (so
/// the log, the last written position and the screen agree), and leaves the
/// buffer as it was.
pub proof fn lemma_frame_shows_cursor(s: EditorState, cols: int, rows: int)
    requires
        editor_wf(s),
        rows > 2,
        cols > 0,
    ensures
        ({
            let f = framed(s, cols, rows);
            let l = line_of(s.buffer.text, s.buffer.cursor);
            let c = display_col_of(s.buffer.text, s.buffer.cursor);
            &&& (f.log.cursor, f.log.top, f.log.left) == f.saved
            &&& f.saved == (s.buffer.cursor, f.top, f.left)
            &&& f.last_text_rows == rows - 2
            &&& f.top <= l < f.top + rows - 2
            &&& f.left <= c < f.left + cols
            &&& f.buffer == s.buffer
            &&& editor_wf(f)
        }),
{
}

} // verus!

verus! {

/// `C-y` puts the kill ring into the text at the cursor and leaves the
/// cursor just past it, so what is typed next follows the yanked text.
pub proof fn lemma_yank_lands_after_the_text(s: EditorState, k: KeyChord)
    requires
        s.leap is None,
        s.prefix is None,
        k.key == LogicalKey::Char('y'),
        k.ctrl,
        s.kill_ring.len() > 0,
        s.buffer.text.len() + s.kill_ring.len() <= MAX_CHARS,
    ensures
        key_effect(s, k).buffer.text == s.buffer.text.take(s.buffer.cursor) + s.kill_ring + s.buffer.text.skip(
            s.buffer.cursor,
        ),
        key_effect(s, k).buffer.cursor == s.buffer.cursor + s.kill_ring.len(),
        key_effect(s, k).kill_ring == s.kill_ring,
{
}

/// Previous-document (`C-x p`, Ctrl+PgUp) from inside a document's body goes
/// to the start of that same document first, leaving the text alone.
pub proof fn lemma_prev_document_starts_with_the_current_one(s: EditorState, k: KeyChord)
    requires
        s.leap is None,
        (s.prefix is Some && k.key == LogicalKey::Char('p')) || (s.prefix is None && k.key == LogicalKey::PageUp
            && k.ctrl),
        s.buffer.cursor <= s.buffer.text.len(),
        s.buffer.cursor > doc_start(s.buffer.text, s.buffer.cursor),
    ensures
        key_effect(s, k).buffer.cursor == doc_start(s.buffer.text, s.buffer.cursor),
        key_effect(s, k).buffer.text == s.buffer.text,
{
}

} // verus!

verus! {

/// Nothing matches from `i` up to the first match (or anywhere from `i` on,
/// when there is none).
pub proof fn lemma_first_match_is_first(hay: Seq<char>, needle: Seq<char>, i: int, ci: bool)
    requires
        0 <= i,
    ensures
        match first_match(hay, needle, i, ci) {
            Some(m) => forall|j: int| i <= j < m ==> !matches_at_spec(hay, needle, j, ci),
            None => forall|j: int| i <= j ==> !matches_at_spec(hay, needle, j, ci),
        },
    decreases hay.len() - i,
{
    if !(i + needle.len() > hay.len()) && !matches_at_spec(hay, needle, i, ci) {
        lemma_first_match_is_first(hay, needle, i + 1, ci);
    }
}

/// Nothing matches after the last match before `b` and below `b` (or
/// anywhere below `b`, when there is none).
pub proof fn lemma_last_match_is_last(hay: Seq<char>, needle: Seq<char>, b: int, ci: bool)
    ensures
        match last_match_before(hay, needle, b, ci) {
            Some(m) => forall|j: int| m < j < b ==> !matches_at_spec(hay, needle, j, ci),
            None => forall|j: int| j < b ==> !matches_at_spec(hay, needle, j, ci),
        },
    decreases b,
{
    if b > 0 && !matches_at_spec(hay, needle, b - 1, ci) {
        lemma_last_match_is_last(hay, needle, b - 1, ci);
    }
}

/// LEAP lands on a match of its query. A search that does not wrap lands at
/// or after where it searched from (at or before, searching backward); one
/// that wraps around the buffer ends lands on the first match of the whole
/// text (the last one, searching backward), and finds nothing only when the
/// query occurs nowhere.
pub proof fn lemma_leap_wraps_to_the_text_ends(t: Seq<char>, l: LeapState, repeat: bool)
    requires
        l.query.len() > 0,
        0 <= (match l.matched {
            Some(m) => m,
            None => l.origin,
        }) <= t.len(),
    ensures
        ({
            let r = leap_search(t, l, repeat);
            let q = l.query;
            let ci = smart_insensitive(q);
            let base = match l.matched {
                Some(m) => m,
                None => l.origin,
            };
            &&& r.0 matches Some(m) ==> matches_at_spec(t, q, m, ci)
            &&& !r.1 ==> (r.0 matches Some(m) && (l.dir == Dir::Forward ==> base <= m) && (l.dir == Dir::Backward
                ==> m <= base))
            &&& (r.1 && l.dir == Dir::Forward) ==> match r.0 {
                Some(m) => forall|j: int| 0 <= j < m ==> !matches_at_spec(t, q, j, ci),
                None => forall|j: int| !matches_at_spec(t, q, j, ci),
            }
            &&& (r.1 && l.dir == Dir::Backward) ==> match r.0 {
                Some(m) => forall|j: int| m < j ==> !matches_at_spec(t, q, j, ci),
                None => forall|j: int| !matches_at_spec(t, q, j, ci),
            }
        }),
{
    let q = l.query;
    let ci = smart_insensitive(q);
    let len = t.len() as int;
    let base = match l.matched {
        Some(m) => m,
        None => l.origin,
    };
    match l.dir {
        Dir::Forward => {
            let from = if repeat { base + 1 } else { base };
            let from = if from <= len { from } else { len };
            lemma_first_match_is_match(t, q, from, ci);
            lemma_first_match_is_match(t, q, 0, ci);
            lemma_first_match_is_first(t, q, 0, ci);
            assert forall|j: int| j < 0 implies !matches_at_spec(t, q, j, ci) by {}
        },
        Dir::Backward => {
            let before = if repeat { base } else if base + 1 <= len { base + 1 } else { len };
            lemma_last_match_is_match(t, q, before, ci);
            lemma_last_match_is_match(t, q, len, ci);
            lemma_last_match_is_last(t, q, len, ci);
            assert forall|j: int| j >= len implies !matches_at_spec(t, q, j, ci) by {}
        },
    }
}

} // verus!
