use leap::finder::{Action, Mode, Outcome, State};
use leap::input::{KeyChord, LogicalKey};
use leap::walk::Candidate;

fn cand(display: &str, mtime: i64) -> Candidate {
    Candidate {
        path: format!("/root/{display}"),
        display: display.to_string(),
        mtime,
    }
}

fn state(displays: &[&str]) -> State {
    let pool = displays.iter().map(|d| cand(d, 0)).collect();
    State::new(pool, String::new())
}

fn names(s: &State) -> Vec<String> {
    s.results().iter().map(|&i| s.pool()[i].display.clone()).collect()
}

#[test]
fn empty_query_keeps_pool_order() {
    let mut s = state(&["a.rs", "b.rs", "c.rs"]);
    s.refilter();
    assert_eq!(s.results(), &vec![0, 1, 2]);
}

#[test]
fn fuzzy_query_filters_and_ranks() {
    let mut s = state(&["src/main.rs", "src/buffer.rs", "README.md"]);
    s.set_query("buf".to_string());
    s.refilter();
    assert_eq!(names(&s), vec!["src/buffer.rs"]);
}

#[test]
fn ranks_better_match_first() {
    let mut s = state(&["xayzb", "ab"]);
    s.set_query("ab".to_string());
    s.refilter();
    // "ab" (contiguous) should outrank "xayzb" (scattered).
    assert_eq!(s.pool()[s.results()[0]].display, "ab");
}

#[test]
fn save_accepts_query_as_relative_path() {
    let mut s = state(&["existing.rs"]);
    s.set_query("new/file.txt".to_string());
    s.refilter();
    let root = "/root";
    match s.accept(Mode::Save, root) {
        Some(Outcome::Save(p)) => assert_eq!(p, "/root/new/file.txt"),
        _ => panic!("expected Save outcome"),
    }
}

#[test]
fn open_accepts_selected_candidate() {
    let mut s = state(&["one.rs", "two.rs"]);
    s.refilter();
    s.move_selection(1);
    match s.accept(Mode::Open, "/root") {
        Some(Outcome::Open(p)) => assert_eq!(p, "/root/two.rs"),
        _ => panic!("expected Open outcome"),
    }
}

#[test]
fn ctrl_q_requests_quit() {
    let mut s = state(&["a.rs"]);
    let ev = KeyChord::ctrl('q');
    assert!(matches!(s.handle_key(ev), Action::Quit));
}

#[test]
fn query_editing_respects_cursor() {
    let mut s = state(&[]);
    for c in "abcd".chars() {
        s.q_insert(c);
    }
    assert_eq!((s.query(), s.qcursor()), ("abcd", 4));
    s.handle_key(KeyChord::ctrl('a')); // C-a / Home
    s.handle_key(KeyChord::ctrl('f')); // C-f
    s.q_insert('X'); // insert after 'a'
    assert_eq!(s.query(), "aXbcd");
    s.q_delete(); // delete the 'b' at the cursor
    assert_eq!(s.query(), "aXcd");
}

#[test]
fn ctrl_k_kills_to_end_of_query() {
    let mut s = state(&[]);
    for c in "hello".chars() {
        s.q_insert(c);
    }
    s.handle_key(KeyChord::ctrl('a'));
    s.handle_key(KeyChord::ctrl('f'));
    s.handle_key(KeyChord::ctrl('f')); // after "he"
    s.q_kill_to_end();
    assert_eq!(s.query(), "he");
}

#[test]
fn ctrl_u_kills_to_start_of_query() {
    let mut s = state(&[]);
    for c in "hello".chars() {
        s.q_insert(c);
    }
    s.handle_key(KeyChord::ctrl('a'));
    s.handle_key(KeyChord::ctrl('f'));
    s.handle_key(KeyChord::ctrl('f')); // after "he"
    s.q_kill_to_start();
    assert_eq!((s.query(), s.qcursor()), ("llo", 0));
}

#[test]
fn ctrl_w_kills_word_back_in_query() {
    let mut s = state(&[]);
    for c in "src/buffer".chars() {
        s.q_insert(c);
    }
    s.q_kill_word_back(); // removes "buffer"
    assert_eq!(s.query(), "src/");
}

// --- more cases -----------------------------------------------------------

#[test]
fn leaving_keys_leave_the_state_alone() {
    let mut s = state(&["a.rs"]);
    s.refilter();
    assert_eq!(s.handle_key(KeyChord::plain(LogicalKey::Esc)), Action::Cancel);
    assert_eq!(s.handle_key(KeyChord::ctrl('g')), Action::Cancel);
    assert_eq!(s.handle_key(KeyChord::plain(LogicalKey::Enter)), Action::Accept);
    assert_eq!(s.query(), "");
    assert_eq!(s.results(), &vec![0]);
}

#[test]
fn typing_refilters_and_resets_the_selection() {
    let mut s = state(&["alpha.rs", "beta.rs", "alps.md"]);
    s.refilter();
    s.handle_key(KeyChord::plain(LogicalKey::Down));
    assert_eq!(s.selected(), 1);
    for c in "alp".chars() {
        assert_eq!(s.handle_key(KeyChord::plain(LogicalKey::Char(c))), Action::Continue);
    }
    assert_eq!(s.selected(), 0);
    let got = names(&s);
    assert_eq!(got.len(), 2);
    assert!(got.contains(&"alpha.rs".to_string()));
    assert!(got.contains(&"alps.md".to_string()));
    // Backspacing the whole query brings the walk order back.
    for _ in 0..3 {
        s.handle_key(KeyChord::plain(LogicalKey::Backspace));
    }
    assert_eq!(s.results(), &vec![0, 1, 2]);
}

#[test]
fn selection_clamps_at_both_ends() {
    let mut s = state(&["a", "b", "c"]);
    s.refilter();
    s.move_selection(-1);
    assert_eq!(s.selected(), 0);
    s.move_selection(1);
    s.move_selection(1);
    s.move_selection(1);
    assert_eq!(s.selected(), 2);
    s.handle_key(KeyChord::ctrl('p'));
    assert_eq!(s.selected(), 1);
}

#[test]
fn no_results_accepts_nothing() {
    let mut s = state(&["a.rs"]);
    s.set_query("zzz".to_string());
    s.refilter();
    assert!(s.results().is_empty());
    assert_eq!(s.accept(Mode::Open, "/root"), None);
}

#[test]
fn save_with_absolute_query_ignores_the_root() {
    let mut s = state(&[]);
    s.set_query("  /tmp/x.txt ".to_string());
    assert_eq!(s.accept(Mode::Save, "/root"), Some(Outcome::Save("/tmp/x.txt".to_string())));
    s.set_query("y".to_string());
    assert_eq!(s.accept(Mode::Save, "/root/"), Some(Outcome::Save("/root/y".to_string())));
}

#[test]
fn save_with_blank_query_overwrites_the_highlighted_file() {
    let mut s = state(&["one.rs", "two.rs"]);
    s.refilter();
    s.move_selection(1);
    assert_eq!(s.accept(Mode::Save, "/root"), Some(Outcome::Save("/root/two.rs".to_string())));
}

#[test]
fn tab_completes_to_the_highlighted_result() {
    let mut s = state(&["one.rs", "two.rs"]);
    s.refilter();
    s.move_selection(1);
    s.handle_key(KeyChord::plain(LogicalKey::Tab));
    assert_eq!((s.query(), s.qcursor()), ("two.rs", 6));
    assert_eq!(names(&s), vec!["two.rs"]);
}

#[test]
fn word_motion_in_the_query() {
    let mut s = state(&[]);
    s.set_query("src/buffer.rs".to_string());
    s.handle_key(KeyChord::alt('b'));
    assert_eq!(s.qcursor(), 11);
    s.handle_key(KeyChord::alt('b'));
    assert_eq!(s.qcursor(), 4);
    s.handle_key(KeyChord::alt('f'));
    assert_eq!(s.qcursor(), 10);
    s.handle_key(KeyChord::plain(LogicalKey::End));
    assert_eq!(s.qcursor(), 13);
    s.handle_key(KeyChord::plain(LogicalKey::Right));
    assert_eq!(s.qcursor(), 13);
}

#[test]
fn newer_files_win_ties() {
    let pool = vec![cand("a/x.rs", 1), cand("b/x.rs", 5)];
    let mut s = State::new(pool, "x.rs".to_string());
    s.refilter();
    assert_eq!(names(&s), vec!["b/x.rs", "a/x.rs"]);
}

#[test]
fn layout_scrolls_the_selection_into_view() {
    let mut s = state(&["a", "b", "c", "d", "e"]);
    s.refilter();
    for _ in 0..4 {
        s.move_selection(1);
    }
    // Three screen rows: the prompt and two results.
    let f = s.layout(Mode::Open, 20, 3);
    assert_eq!(f.prompt, "find ›          5/5 ");
    assert_eq!(f.rows.len(), 2);
    let shown: Vec<(String, bool)> =
        f.rows.iter().map(|r| r.as_ref().map(|x| (x.display.clone(), x.selected)).unwrap()).collect();
    assert_eq!(shown, vec![("d".to_string(), false), ("e".to_string(), true)]);
    assert_eq!(f.cursor_col, 7);
}

#[test]
fn layout_marks_matches_and_clips_the_prompt() {
    let mut s = state(&["ab"]);
    s.set_query("ab".to_string());
    s.refilter();
    let f = s.layout(Mode::Save, 8, 4);
    assert_eq!(f.prompt, "save › a");
    assert_eq!(f.rows.len(), 3);
    let first = f.rows[0].as_ref().unwrap();
    assert!(first.selected);
    let mut m = first.matched.clone();
    m.sort();
    assert_eq!(m, vec![0, 1]);
    assert!(f.rows[1].is_none());
    assert_eq!(f.cursor_col, 7);
}
