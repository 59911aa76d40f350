use leap::editor::Editor;
use leap::input::{KeyChord, LogicalKey};
use leap::store::{EditOp, Store};
use leap::view::Row;

fn editor_with(text: &str, cursor: usize) -> Editor {
    let mut store = Store::open_in_memory();
    if !text.is_empty() {
        store.append(&[EditOp::Insert { pos: 0, text: text.into() }], 0).unwrap();
    }
    store.set_state(cursor, 0, 0);
    Editor::new(store).unwrap()
}

fn press(e: &mut Editor, k: KeyChord) {
    e.input(k);
    e.persist_edits().unwrap();
}

fn typed(e: &mut Editor, s: &str) {
    for c in s.chars() {
        press(e, KeyChord::plain(LogicalKey::Char(c)));
    }
}

fn text(e: &Editor) -> String {
    e.store().resume().text
}

fn cursor_cell(e: &mut Editor) -> (usize, usize) {
    e.compute_frame(80, 24).cursor
}

#[test]
fn typing_is_persisted_after_every_key() {
    let mut e = editor_with("", 0);
    typed(&mut e, "hi");
    assert_eq!(text(&e), "hi");
    press(&mut e, KeyChord::plain(LogicalKey::Enter));
    typed(&mut e, "x");
    assert_eq!(text(&e), "hi\nx");
    assert_eq!(cursor_cell(&mut e), (1, 1));
}

#[test]
fn the_first_frame_greets_and_repaints() {
    let mut e = editor_with("hello", 0);
    let f = e.compute_frame(80, 5);
    assert!(f.full_repaint);
    assert!(f.echo.starts_with("Type · C-s LEAP"));
    assert_eq!(f.rows.len(), 3);
    assert_eq!(f.rows[0], Row::Text("hello".into()));
    assert_eq!(f.rows[1], Row::Tilde);
    assert_eq!(f.status.chars().count(), 80);
    assert!(f.status.starts_with(" hello "));
    assert!(f.status.ends_with(" Ln 1, Col 1  1 lines "));
    // The repaint request is consumed; the next key clears the greeting.
    press(&mut e, KeyChord::ctrl('f'));
    let f = e.compute_frame(80, 5);
    assert!(!f.full_repaint);
    assert_eq!(f.echo, "");
    assert_eq!(f.cursor, (1, 0));
}

#[test]
fn leap_flies_to_matches_and_lands() {
    let mut e = editor_with("foo bar foo baz", 0);
    press(&mut e, KeyChord::ctrl('s'));
    typed(&mut e, "ba");
    let f = e.compute_frame(80, 5);
    assert_eq!(f.cursor, (4, 0));
    assert_eq!(f.echo, "LEAP→ ba");
    assert!(f.redraw_text);
    assert_eq!(f.highlights[0], Some((4, 6)));
    // Again: the next occurrence.
    press(&mut e, KeyChord::ctrl('s'));
    assert_eq!(e.compute_frame(80, 5).cursor, (12, 0));
    // Again: wraps round to the first.
    press(&mut e, KeyChord::ctrl('s'));
    let f = e.compute_frame(80, 5);
    assert_eq!(f.cursor, (4, 0));
    assert_eq!(f.echo, "LEAP→ ba  (wrapped)");
    press(&mut e, KeyChord::plain(LogicalKey::Enter));
    let f = e.compute_frame(80, 5);
    assert_eq!(f.cursor, (4, 0));
    assert!(f.full_repaint);
    assert_eq!(f.highlights[0], None);
    // Landing never edits.
    assert_eq!(text(&e), "foo bar foo baz");
}

#[test]
fn leap_cancel_returns_to_where_it_started() {
    let mut e = editor_with("one two three", 4);
    press(&mut e, KeyChord::ctrl('s'));
    typed(&mut e, "thr");
    assert_eq!(e.compute_frame(80, 5).cursor, (8, 0));
    press(&mut e, KeyChord::plain(LogicalKey::Esc));
    let f = e.compute_frame(80, 5);
    assert_eq!(f.cursor, (4, 0));
    assert_eq!(f.echo, "Quit");
}

#[test]
fn leap_reports_a_failing_search_and_backspace_recovers() {
    let mut e = editor_with("abc", 0);
    press(&mut e, KeyChord::ctrl('r'));
    typed(&mut e, "bz");
    let f = e.compute_frame(80, 5);
    assert_eq!(f.echo, "LEAP← bz  (no match)");
    press(&mut e, KeyChord::plain(LogicalKey::Backspace));
    let f = e.compute_frame(80, 5);
    assert_eq!(f.echo, "LEAP← b  (wrapped)");
    assert_eq!(f.cursor, (1, 0));
}

#[test]
fn smart_case_leap() {
    let mut e = editor_with("Alpha alpha", 11);
    press(&mut e, KeyChord::ctrl('r'));
    typed(&mut e, "alpha");
    assert_eq!(e.compute_frame(80, 5).cursor, (6, 0));
    press(&mut e, KeyChord::ctrl('r'));
    assert_eq!(e.compute_frame(80, 5).cursor, (0, 0));
    press(&mut e, KeyChord::plain(LogicalKey::Esc));
    press(&mut e, KeyChord::ctrl('r'));
    typed(&mut e, "Alpha");
    assert_eq!(e.compute_frame(80, 5).cursor, (0, 0));
}

#[test]
fn any_other_key_lands_then_acts() {
    let mut e = editor_with("xyz", 0);
    press(&mut e, KeyChord::ctrl('s'));
    typed(&mut e, "y");
    press(&mut e, KeyChord::ctrl('e'));
    assert_eq!(e.compute_frame(80, 5).cursor, (3, 0));
    // The session is over: typing now edits.
    typed(&mut e, "!");
    assert_eq!(text(&e), "xyz!");
}

#[test]
fn kill_then_yank_restores_and_kills_accumulate() {
    let mut e = editor_with("one\ntwo", 0);
    press(&mut e, KeyChord::ctrl('k'));
    assert_eq!(text(&e), "\ntwo");
    press(&mut e, KeyChord::ctrl('y'));
    assert_eq!(text(&e), "one\ntwo");
    // Two kills in a row make one entry: the line and its break.
    press(&mut e, KeyChord::ctrl('a'));
    press(&mut e, KeyChord::ctrl('k'));
    press(&mut e, KeyChord::ctrl('k'));
    assert_eq!(text(&e), "two");
    press(&mut e, KeyChord::ctrl('e'));
    press(&mut e, KeyChord::ctrl('y'));
    assert_eq!(text(&e), "twoone\n");
}

#[test]
fn backward_word_kills_prepend() {
    let mut e = editor_with("alpha beta", 10);
    press(&mut e, KeyChord::ctrl('w'));
    press(&mut e, KeyChord::ctrl('w'));
    assert_eq!(text(&e), "");
    press(&mut e, KeyChord::ctrl('y'));
    assert_eq!(text(&e), "alpha beta");
}

#[test]
fn yank_with_an_empty_ring_says_so() {
    let mut e = editor_with("a", 0);
    press(&mut e, KeyChord::ctrl('y'));
    assert_eq!(e.compute_frame(80, 5).echo, "Kill ring empty");
    assert_eq!(text(&e), "a");
}

#[test]
fn documents_are_navigated_with_prefix_and_page_keys() {
    let mut e = editor_with("one\n\u{1e}\ntwo\n\u{1e}\nthree", 0);
    press(&mut e, KeyChord::ctrl('x'));
    assert_eq!(e.compute_frame(80, 10).echo, "C-x-");
    press(&mut e, KeyChord::plain(LogicalKey::Char('n')));
    let f = e.compute_frame(80, 10);
    assert_eq!(f.echo, "Document: two");
    assert_eq!(f.cursor, (0, 2));
    assert_eq!(f.rows[1], Row::MarkerRule);
    press(&mut e, KeyChord { key: LogicalKey::PageDown, ctrl: true, alt: false, shift: false });
    assert_eq!(e.compute_frame(80, 10).echo, "Document: three");
    press(&mut e, KeyChord { key: LogicalKey::PageDown, ctrl: true, alt: false, shift: false });
    assert_eq!(e.compute_frame(80, 10).echo, "Last document");
    press(&mut e, KeyChord::ctrl('x'));
    press(&mut e, KeyChord::plain(LogicalKey::Char('p')));
    assert_eq!(e.compute_frame(80, 10).echo, "Document: two");
    press(&mut e, KeyChord { key: LogicalKey::PageUp, ctrl: true, alt: false, shift: false });
    press(&mut e, KeyChord { key: LogicalKey::PageUp, ctrl: true, alt: false, shift: false });
    assert_eq!(e.compute_frame(80, 10).echo, "First document");
    press(&mut e, KeyChord::ctrl('x'));
    press(&mut e, KeyChord::plain(LogicalKey::Char('z')));
    assert_eq!(e.compute_frame(80, 10).echo, "C-x: undefined key");
}

#[test]
fn alt_enter_starts_a_new_document() {
    let mut e = editor_with("notes", 5);
    press(&mut e, KeyChord { key: LogicalKey::Enter, ctrl: false, alt: true, shift: false });
    let f = e.compute_frame(80, 6);
    assert_eq!(f.echo, "New document");
    assert_eq!(f.cursor, (0, 2));
    assert_eq!(text(&e), "notes\n\u{1e}\n");
    assert_eq!(f.rows[1], Row::MarkerRule);
    assert!(f.status.starts_with(" ·leap· "));
}

#[test]
fn quitting_keys_stop_the_editor() {
    let mut e = editor_with("", 0);
    assert!(e.running());
    press(&mut e, KeyChord::ctrl('q'));
    assert!(!e.running());
    let mut e = editor_with("", 0);
    press(&mut e, KeyChord::ctrl('x'));
    press(&mut e, KeyChord::ctrl('c'));
    assert!(!e.running());
}

#[test]
fn frames_scroll_to_keep_the_cursor_visible_and_record_it() {
    let body: String = (0..30).map(|i| format!("line {i}\n")).collect();
    let mut e = editor_with(&body, 0);
    for _ in 0..12 {
        press(&mut e, KeyChord::ctrl('n'));
    }
    // Six rows: four of text, the status line and the echo line.
    let f = e.compute_frame(8, 6);
    assert_eq!(f.cursor, (0, 3));
    assert_eq!(f.rows[0], Row::Text("line 9".into()));
    let r = e.store().resume();
    assert_eq!((r.cursor, r.top, r.left), (body.find("line 12").unwrap(), 9, 0));
    // Page down moves a near-screenful (text rows - 1).
    press(&mut e, KeyChord::plain(LogicalKey::PageDown));
    let f = e.compute_frame(8, 6);
    assert_eq!(f.cursor, (0, 3));
    assert_eq!(f.rows[0], Row::Text("line 12".into()));
    assert!(e.compute_frame(80, 6).status.contains("Ln 16, Col 1"));
    // Recenter puts the cursor's line mid-screen.
    press(&mut e, KeyChord::ctrl('l'));
    let f = e.compute_frame(8, 6);
    assert!(f.full_repaint);
    assert_eq!(f.cursor.1, 2);
}

#[test]
fn horizontal_scroll_follows_long_lines() {
    let mut e = editor_with("abcdefghij", 10);
    let f = e.compute_frame(4, 3);
    assert_eq!(f.cursor, (3, 0));
    assert_eq!(f.rows[0], Row::Text("hij".into()));
}

#[test]
fn shutdown_keeps_the_text() {
    let mut e = editor_with("", 0);
    typed(&mut e, "abc");
    e.shutdown().unwrap();
    assert_eq!(text(&e), "abc");
}
