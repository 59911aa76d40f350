use leap::store::{decode_op, fresh_seq, invert, Edit, EditOp, Resume, Store, StoreError};

fn ins(pos: usize, text: &str) -> EditOp {
    EditOp::Insert { pos, text: text.into() }
}
fn del(pos: usize, text: &str) -> EditOp {
    EditOp::Delete { pos, text: text.into() }
}

#[test]
fn empty_workspace_resumes_blank() {
    let s = Store::open_in_memory();
    let r = s.resume();
    assert_eq!(r, Resume::default());
}

#[test]
fn append_then_resume_reconstructs_text() {
    let mut s = Store::open_in_memory();
    s.append(&[ins(0, "hello")], 1).unwrap();
    s.append(&[ins(5, " world")], 2).unwrap();
    assert_eq!(s.resume().text, "hello world");
}

#[test]
fn delete_replays_correctly() {
    let mut s = Store::open_in_memory();
    s.append(&[ins(0, "hello world")], 1).unwrap();
    // Remove "lo wor" (chars 3..9), leaving "helld".
    s.append(&[del(3, "lo wor")], 2).unwrap();
    assert_eq!(s.resume().text, "helld");
}

#[test]
fn batched_ops_in_one_append() {
    let mut s = Store::open_in_memory();
    s.append(&[ins(0, "ab"), del(0, "a"), ins(1, "Z")], 1).unwrap();
    assert_eq!(s.resume().text, "bZ");
}

#[test]
fn state_round_trips() {
    let mut s = Store::open_in_memory();
    s.append(&[ins(0, "abcdef")], 1).unwrap();
    s.set_state(4, 0, 2);
    let r = s.resume();
    assert_eq!((r.cursor, r.top, r.left), (4, 0, 2));
}

#[test]
fn snapshot_compacts_but_preserves_text() {
    let mut s = Store::open_in_memory();
    s.append(&[ins(0, "one ")], 1).unwrap();
    s.append(&[ins(4, "two ")], 2).unwrap();
    let text = s.resume().text;
    s.snapshot(&text);
    assert_eq!(s.edit_count(), 0, "log compacted");
    // Further edits stack on top of the snapshot.
    s.append(&[ins(8, "three")], 3).unwrap();
    assert_eq!(s.resume().text, "one two three");
}

#[test]
fn undo_redo_move_the_head_for_resume() {
    // resume() reconstructs from the head, so undo/redo survive a restart.
    let mut s = Store::open_in_memory();
    s.append(&[ins(0, "ab")], 1).unwrap();
    s.append(&[ins(2, "cd")], 1).unwrap(); // same group → one undo step
    assert_eq!(s.resume().text, "abcd");

    assert!(!s.undo().is_empty());
    assert_eq!(s.resume().text, ""); // head walked back past the group

    assert!(!s.redo().is_empty());
    assert_eq!(s.resume().text, "abcd");

    assert!(s.redo().is_empty()); // nothing left to redo
}

#[test]
fn new_edit_after_undo_forks_and_orphans_redo() {
    let mut s = Store::open_in_memory();
    s.append(&[ins(0, "abc")], 1).unwrap();
    s.undo(); // back to empty
    s.append(&[ins(0, "X")], 2).unwrap(); // forks; the "abc" branch is orphaned
    assert_eq!(s.resume().text, "X");
    assert!(s.redo().is_empty()); // can't redo across the new edit
}

#[test]
fn unicode_positions_use_char_indices() {
    let mut s = Store::open_in_memory();
    s.append(&[ins(0, "héllo")], 1).unwrap();
    // Insert at char index 2 (after 'é'), not byte index.
    s.append(&[ins(2, "X")], 2).unwrap();
    assert_eq!(s.resume().text, "héXllo");
}

// --- more cases -----------------------------------------------------------

#[test]
fn append_returns_the_new_head_and_links_rows() {
    let mut s = Store::open_in_memory();
    assert_eq!(s.head(), 0);
    assert_eq!(s.append(&[ins(0, "a"), ins(1, "b")], 7), Ok(2));
    assert_eq!(s.head(), 2);
    let rows = s.rows();
    assert_eq!((rows[0].seq, rows[0].parent, rows[0].group), (1, 0, 7));
    assert_eq!((rows[1].seq, rows[1].parent, rows[1].group), (2, 1, 7));
    // An empty batch changes nothing.
    assert_eq!(s.append(&[], 8), Ok(2));
    assert_eq!(s.next_seq(), 3);
}

#[test]
fn undo_returns_inverses_newest_first() {
    let mut s = Store::open_in_memory();
    s.append(&[ins(0, "ab"), del(0, "a")], 1).unwrap();
    let inv = s.undo();
    assert_eq!(inv, vec![ins(0, "a"), del(0, "ab")]);
    assert_eq!(s.head(), 0);
    assert!(s.undo().is_empty());
}

#[test]
fn undo_stops_at_the_group_boundary() {
    let mut s = Store::open_in_memory();
    s.append(&[ins(0, "one")], 1).unwrap();
    s.append(&[ins(3, "two")], 2).unwrap();
    assert_eq!(s.undo(), vec![del(3, "two")]);
    assert_eq!(s.resume().text, "one");
    assert_eq!(s.redo(), vec![ins(3, "two")]);
    assert_eq!(s.resume().text, "onetwo");
}

#[test]
fn edit_op_codes_and_inverse() {
    assert_eq!(ins(3, "x").op_code(), 0);
    assert_eq!(del(3, "x").op_code(), 1);
    assert_eq!(decode_op(0, 2, "ab".into()), ins(2, "ab"));
    assert_eq!(decode_op(5, 2, "ab".into()), del(2, "ab"));
    assert_eq!(invert(&ins(1, "q")), del(1, "q"));
    assert_eq!(invert(&del(1, "q")), ins(1, "q"));
    let mut t = String::from("héllo");
    ins(5, "!").apply(&mut t);
    del(0, "h").apply(&mut t);
    assert_eq!(t, "éllo!");
}

#[test]
fn from_parts_rebuilds_a_log_and_refuses_a_broken_one() {
    let rows = vec![
        Edit { seq: 3, parent: 0, group: 1, op: ins(0, "hi") },
        Edit { seq: 5, parent: 3, group: 1, op: ins(2, "!") },
    ];
    let s = Store::from_parts(rows, 5, None, 1, 0, 0, 6).unwrap();
    assert_eq!(s.resume(), Resume { text: "hi!".into(), cursor: 1, top: 0, left: 0 });
    // Rows out of `seq` order are refused.
    let bad = vec![
        Edit { seq: 5, parent: 0, group: 1, op: ins(0, "a") },
        Edit { seq: 3, parent: 0, group: 1, op: ins(0, "b") },
    ];
    assert!(Store::from_parts(bad, 5, None, 0, 0, 0, 6).is_none());
    // A head past the `seq`s handed out is refused.
    assert!(Store::from_parts(Vec::new(), 9, None, 0, 0, 0, 6).is_none());
    // A snapshot with the edits after it.
    let after = vec![Edit { seq: 4, parent: 2, group: 3, op: ins(3, "d") }];
    let s = Store::from_parts(after, 4, Some((2, "abc".into())), 0, 0, 0, 5).unwrap();
    assert_eq!(s.resume().text, "abcd");
}

#[test]
fn a_full_log_refuses_more_edits() {
    let s = Store::from_parts(Vec::new(), 0, None, 0, 0, 0, i64::MAX).unwrap();
    let mut s = s;
    assert_eq!(s.append(&[ins(0, "a"), ins(1, "b")], 1), Err(StoreError::Full));
    assert_eq!(s.resume().text, "");
}

#[test]
fn undo_from_a_non_zero_head_always_steps_back() {
    let mut s = Store::open_in_memory();
    s.append(&[ins(0, "a")], 1).unwrap();
    s.append(&[ins(1, "b")], 2).unwrap();
    s.append(&[ins(2, "c")], 2).unwrap();
    s.undo();
    s.redo();
    let rows = s.edit_count();
    let mut last = s.head();
    while last != 0 {
        let inv = s.undo();
        assert!(!inv.is_empty());
        assert!(s.head() < last);
        assert_eq!(s.edit_count(), rows);
        last = s.head();
    }
    assert!(s.undo().is_empty());
    assert_eq!(s.head(), 0);
    assert_eq!(s.resume().text, "");
}

#[test]
fn from_parts_refuses_a_dangling_link_before_any_snapshot() {
    let rows = vec![Edit { seq: 4, parent: 2, group: 1, op: ins(0, "a") }];
    assert!(Store::from_parts(rows, 4, None, 0, 0, 0, 5).is_none());
    assert!(Store::from_parts(Vec::new(), 2, None, 0, 0, 0, 5).is_none());
    let rows = vec![Edit { seq: 4, parent: 2, group: 1, op: ins(0, "a") }];
    assert!(Store::from_parts(rows, 4, Some((2, String::new())), 0, 0, 0, 5).is_some());
}

#[test]
fn a_reopened_log_continues_past_every_seq_it_used() {
    assert_eq!(fresh_seq(7, 5, 3, 2), Some(8));
    assert_eq!(fresh_seq(0, 5, 9, 2), Some(10));
    assert_eq!(fresh_seq(0, 0, 0, 4), Some(5));
    assert_eq!(fresh_seq(0, 0, 0, 0), Some(1));
    assert_eq!(fresh_seq(i64::MAX, 0, 0, 0), None);
}
