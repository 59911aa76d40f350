use leap::buffer::{Buffer, TAB_WIDTH};
use leap::store::EditOp;

/// Build a buffer containing `s`, cursor left at the end.
fn buf(s: &str) -> Buffer {
    let mut b = Buffer::from_text("", 0);
    for c in s.chars() {
        b.insert_char(c);
    }
    b
}

#[test]
fn empty_buffer_has_one_line() {
    let b = buf("");
    assert_eq!(b.len_lines(), 1);
    assert_eq!(b.cursor_line_col(), (0, 0));
    assert!(!b.is_dirty());
}

#[test]
fn insert_advances_cursor_and_dirties() {
    let b = buf("abc");
    assert_eq!(b.cursor_line_col(), (0, 3));
    assert_eq!(b.display_line(0, 0, 80), "abc");
    assert!(b.is_dirty());
}

#[test]
fn newline_splits_into_lines() {
    let b = buf("ab\ncd");
    assert_eq!(b.len_lines(), 2);
    assert_eq!(b.cursor_line_col(), (1, 2));
    assert_eq!(b.display_line(0, 0, 80), "ab");
    assert_eq!(b.display_line(1, 0, 80), "cd");
}

#[test]
fn horizontal_movement_clamps_at_ends() {
    let mut b = buf("ab");
    b.move_right(); // already at end -> no-op
    assert_eq!(b.cursor_line_col(), (0, 2));
    b.move_left();
    b.move_left();
    b.move_left(); // clamps at start
    assert_eq!(b.cursor_line_col(), (0, 0));
}

#[test]
fn vertical_movement_keeps_goal_column() {
    // Long, short, long: moving down then down should return to column 5.
    let mut b = buf("abcdef\nx\nyyyyyy");
    b.set_cursor(0);
    for _ in 0..5 {
        b.move_right(); // column 5 on the long first line
    }
    assert_eq!(b.cursor_line_col(), (0, 5));
    b.move_down(); // short line "x" -> clamp to col 1
    assert_eq!(b.cursor_line_col(), (1, 1));
    b.move_down(); // long line again -> goal column 5 restored
    assert_eq!(b.cursor_line_col(), (2, 5));
}

#[test]
fn backspace_merges_lines() {
    let mut b = buf("ab\ncd");
    b.move_home(); // start of "cd"
    assert_eq!(b.cursor_line_col(), (1, 0));
    b.backspace(); // remove the newline, merging the lines
    assert_eq!(b.len_lines(), 1);
    assert_eq!(b.cursor_line_col(), (0, 2));
    assert_eq!(b.display_line(0, 0, 80), "abcd");
}

#[test]
fn delete_forward_at_eol_merges_next_line() {
    let mut b = buf("ab\ncd");
    b.set_cursor(0);
    b.move_end(); // end of "ab"
    b.delete_forward();
    assert_eq!(b.display_line(0, 0, 80), "abcd");
    assert_eq!(b.len_lines(), 1);
}

#[test]
fn move_end_stops_before_newline() {
    let mut b = buf("hello\nx");
    b.set_cursor(0);
    b.move_end();
    assert_eq!(b.cursor_line_col(), (0, 5));
}

#[test]
fn tabs_expand_for_display_and_cursor_column() {
    let b = buf("\tx"); // tab then x
    assert_eq!(b.display_line(0, 0, 80), "    x");
    assert_eq!(b.cursor_line_col(), (0, 2));
    assert_eq!(b.cursor_display_col(), TAB_WIDTH + 1);
}

#[test]
fn word_movement_skips_punctuation() {
    let mut b = buf("foo, bar_baz qux");
    b.set_cursor(0);
    b.move_word_forward(); // end of "foo"
    assert_eq!(b.cursor_line_col(), (0, 3));
    b.move_word_forward(); // end of "bar_baz" (underscore is a word char)
    assert_eq!(b.cursor_line_col(), (0, 12));
    b.move_word_backward(); // back to start of "bar_baz"
    assert_eq!(b.cursor_line_col(), (0, 5));
}

#[test]
fn kill_line_to_eol_then_newline() {
    let mut b = buf("hello world\nnext");
    b.set_cursor(0);
    for _ in 0..6 {
        b.move_right(); // before "world"
    }
    assert_eq!(b.kill_line(), "world");
    assert_eq!(b.display_line(0, 0, 80), "hello ");
    // At end of line now: a second kill removes the newline, joining lines.
    assert_eq!(b.kill_line(), "\n");
    assert_eq!(b.len_lines(), 1);
    assert_eq!(b.display_line(0, 0, 80), "hello next");
}

#[test]
fn backward_kill_word_removes_and_returns() {
    let mut b = buf("alpha beta");
    let killed = b.backward_kill_word();
    assert_eq!(killed, "beta");
    assert_eq!(b.display_line(0, 0, 80), "alpha ");
    assert_eq!(b.cursor_line_col(), (0, 6));
}

#[test]
fn insert_str_yanks_at_cursor() {
    let mut b = buf("ac");
    b.move_left(); // between a and c
    b.insert_str("XYZ");
    assert_eq!(b.display_line(0, 0, 80), "aXYZc");
    assert_eq!(b.cursor_line_col(), (0, 4));
}

#[test]
fn from_text_starts_clean_with_no_journal() {
    let mut b = Buffer::from_text("hello\nworld", 3);
    assert_eq!(b.cursor_line_col(), (0, 3));
    assert!(!b.is_dirty());
    assert!(b.take_journal().is_empty());
}

#[test]
fn edits_are_journalled_as_ops() {
    let mut b = Buffer::from_text("abc", 3);
    b.insert_char('d'); // Insert at 3
    b.backspace(); // Delete at 3
    b.set_cursor(0);
    b.delete_forward(); // Delete at 0 ("a")
    let ops = b.take_journal();
    assert_eq!(
        ops,
        vec![
            EditOp::Insert { pos: 3, text: "d".into() },
            EditOp::Delete { pos: 3, text: "d".into() },
            EditOp::Delete { pos: 0, text: "a".into() },
        ]
    );
    // Draining empties the journal.
    assert!(b.take_journal().is_empty());
}

#[test]
fn journal_replays_to_same_text() {
    // The ops a buffer emits, applied to a String, reproduce its content.
    let mut b = Buffer::from_text("", 0);
    for c in "héllo".chars() {
        b.insert_char(c);
    }
    b.set_cursor(2);
    b.insert_str("XY");
    let mut s = String::new();
    for op in b.take_journal() {
        match op {
            EditOp::Insert { pos, text } => {
                let at = s.char_indices().nth(pos).map(|(b, _)| b).unwrap_or(s.len());
                s.insert_str(at, &text);
            }
            EditOp::Delete { .. } => unreachable!(),
        }
    }
    assert_eq!(s, "héXYllo");
}

#[test]
fn document_start_navigation_steps_between_docs() {
    // Two markers → three documents: "one", "two", "three".
    let mut b = Buffer::from_text("one\u{1e}\ntwo\u{1e}\nthree", 0);
    let doc2 = b.next_document_start().unwrap();
    b.set_cursor(doc2);
    assert_eq!(b.document_title(40), "two");
    let doc3 = b.next_document_start().unwrap();
    b.set_cursor(doc3);
    assert_eq!(b.document_title(40), "three");
    assert_eq!(b.next_document_start(), None, "last document");
    // Back up: into doc 2, then doc 1.
    b.set_cursor(b.prev_document_start().unwrap());
    assert_eq!(b.document_title(40), "two");
    b.set_cursor(b.prev_document_start().unwrap());
    assert_eq!(b.document_title(40), "one");
    assert_eq!(b.prev_document_start(), None, "first document");
}

#[test]
fn marker_lines_are_recognised_and_hidden() {
    let b = Buffer::from_text("a\n\u{1e}\nb", 0);
    assert!(b.line_is_marker(1));
    assert!(!b.line_is_marker(0));
    // The marker never renders as a raw control char.
    assert_eq!(b.display_line(1, 0, 80), "");
}

#[test]
fn insert_document_break_drops_a_marker_line() {
    // Mid-line: the line is broken first so the marker sits on its own line.
    let mut b = Buffer::from_text("end", 3);
    b.insert_document_break();
    assert!(b.line_is_marker(1));
    assert_eq!(b.cursor_line_col(), (2, 0), "cursor starts the new document");
}

#[test]
fn search_forward_finds_next_match() {
    let b = buf("foo bar foo baz");
    assert_eq!(b.search_forward(0, "foo", false), Some(0));
    assert_eq!(b.search_forward(1, "foo", false), Some(8));
    assert_eq!(b.search_forward(9, "foo", false), None);
}

#[test]
fn search_is_ascii_case_insensitive_when_asked() {
    let b = buf("Hello WORLD");
    assert_eq!(b.search_forward(0, "world", true), Some(6));
    assert_eq!(b.search_forward(0, "world", false), None);
}

#[test]
fn search_backward_finds_previous_match() {
    let b = buf("foo bar foo baz");
    assert_eq!(b.search_backward(15, "foo", false), Some(8));
    assert_eq!(b.search_backward(8, "foo", false), Some(0));
    assert_eq!(b.search_backward(0, "foo", false), None);
}

#[test]
fn line_col_at_accounts_for_tabs() {
    let b = buf("a\n\tx"); // line 1 is "\tx"; 'x' is at char col 1, display col TAB_WIDTH
    let x_idx = 3; // chars: a(0) \n(1) \t(2) x(3)
    assert_eq!(b.line_col_at(x_idx), (1, TAB_WIDTH));
}

// --- more cases -----------------------------------------------------------

#[test]
fn document_break_at_line_start_needs_no_extra_newline() {
    let mut b = Buffer::from_text("ab\n", 3);
    b.insert_document_break();
    assert_eq!(b.text(), "ab\n\u{1e}\n");
    assert_eq!(b.cursor(), 5);
    assert_eq!(b.journal_len(), 2);
}

#[test]
fn backspace_right_after_typing_takes_the_char_back() {
    let mut b = Buffer::from_text("hello", 2);
    b.insert_char('X');
    b.backspace();
    assert_eq!(b.text(), "hello");
    assert_eq!(b.cursor(), 2);
}

#[test]
fn kill_then_yank_at_the_same_place_restores_the_text() {
    let mut b = Buffer::from_text("one two\nthree", 4);
    let killed = b.kill_line();
    assert_eq!(killed, "two");
    b.insert_str(&killed);
    assert_eq!(b.text(), "one two\nthree");
    assert_eq!(b.cursor(), 7);
}

#[test]
fn kill_line_at_end_of_text_kills_nothing() {
    let mut b = Buffer::from_text("abc", 3);
    assert_eq!(b.kill_line(), "");
    assert_eq!(b.text(), "abc");
    assert!(!b.is_dirty());
}

#[test]
fn home_lands_at_column_zero() {
    let mut b = Buffer::from_text("x\n  indented", 9);
    b.move_home();
    assert_eq!(b.cursor_line_col(), (1, 0));
}

#[test]
fn display_line_scrolls_and_clips() {
    let b = Buffer::from_text("\tabcdef", 0);
    assert_eq!(b.display_line(0, 2, 4), "  ab");
    assert_eq!(b.display_line(0, 6, 80), "cdef");
    assert_eq!(b.display_line(0, 20, 80), "");
}

#[test]
fn crlf_line_length_excludes_the_break() {
    let mut b = Buffer::from_text("ab\r\ncd", 0);
    b.move_end();
    assert_eq!(b.cursor(), 2);
    assert_eq!(b.len_lines(), 2);
}

#[test]
fn document_title_skips_control_chars_and_is_trimmed() {
    let b = Buffer::from_text("  My\u{7}Title  \nbody", 0);
    assert_eq!(b.document_title(40), "MyTitle");
    assert_eq!(b.document_title(4), "My");
}

#[test]
fn search_backward_is_case_insensitive_when_asked() {
    let b = Buffer::from_text("ABC abc", 0);
    assert_eq!(b.search_backward(7, "abc", true), Some(4));
    assert_eq!(b.search_backward(4, "abc", true), Some(0));
    assert_eq!(b.search_backward(4, "abc", false), None);
}

#[test]
fn mark_saved_clears_dirty_but_keeps_text() {
    let mut b = Buffer::from_text("", 0);
    b.insert_char('a');
    assert!(b.is_dirty());
    b.take_journal();
    b.mark_saved();
    assert!(!b.is_dirty());
    assert_eq!(b.text(), "a");
}
