use leap::echo::Echo;
use leap::input::{KeyChord, LogicalKey};
use leap::leap::{Dir, Leap};
use leap::statusline::StatusLine;
use leap::view::marker_rule;

#[test]
fn shows_and_clears() {
    let mut e = Echo::default();
    assert_eq!(e.render(80), "");
    e.show("Saved foo.txt");
    assert_eq!(e.render(80), "Saved foo.txt");
    e.clear();
    assert_eq!(e.render(80), "");
}

#[test]
fn clips_to_width() {
    let mut e = Echo::default();
    e.show("abcdefgh");
    assert_eq!(e.render(3), "abc");
}

#[test]
fn smart_case_is_insensitive_until_uppercase() {
    let mut l = Leap::new(Dir::Forward, 0);
    l.query = "foo".into();
    assert!(l.insensitive());
    l.query = "Foo".into();
    assert!(!l.insensitive());
}

#[test]
fn label_shows_direction_and_state() {
    let mut l = Leap::new(Dir::Forward, 0);
    l.query = "bar".into();
    l.matched = Some(10);
    assert_eq!(l.label(), "LEAP→ bar");
    l.wrapped = true;
    assert_eq!(l.label(), "LEAP→ bar  (wrapped)");
    l.matched = None;
    assert_eq!(l.label(), "LEAP→ bar  (no match)");

    let mut b = Leap::new(Dir::Backward, 0);
    b.query = "x".into();
    b.matched = Some(1);
    assert_eq!(b.label(), "LEAP← x");
}

fn sample() -> StatusLine {
    StatusLine {
        name: "file.rs".into(),
        dirty: true,
        readonly: false,
        line: 2,
        col: 5,
        total_lines: 9,
    }
}

#[test]
fn fills_exact_width() {
    let s = sample().render(80);
    assert_eq!(s.chars().count(), 80);
    assert!(s.contains("file.rs"));
    assert!(s.contains('●'));
    assert!(s.contains("Ln 2, Col 5"));
    assert!(s.contains("9 lines"));
}

#[test]
fn truncates_to_width() {
    let s = sample().render(10);
    assert_eq!(s.chars().count(), 10);
}

#[test]
fn readonly_flag_shown() {
    let mut s = sample();
    s.readonly = true;
    assert!(s.render(80).contains("(ro)"));
}

// --- more cases -----------------------------------------------------------

#[test]
fn status_line_layout_is_exact() {
    let s = sample().render(40);
    assert_eq!(s, " file.rs ●         Ln 2, Col 5  9 lines ");
    assert_eq!(sample().render(10), " file.rs ●");
}

#[test]
fn empty_query_label_never_says_no_match() {
    let l = Leap::new(Dir::Backward, 3);
    assert_eq!(l.label(), "LEAP← ");
    assert!(l.insensitive());
}

#[test]
fn smart_case_ignores_non_letters() {
    let mut l = Leap::new(Dir::Forward, 0);
    l.query = "a1_-".into();
    assert!(l.insensitive());
    l.query = "ÉTÉ".into();
    assert!(!l.insensitive());
}

#[test]
fn key_chord_constructors() {
    assert_eq!(
        KeyChord::plain(LogicalKey::Enter),
        KeyChord { key: LogicalKey::Enter, ctrl: false, alt: false, shift: false }
    );
    assert_eq!(
        KeyChord::ctrl('s'),
        KeyChord { key: LogicalKey::Char('s'), ctrl: true, alt: false, shift: false }
    );
    assert_eq!(
        KeyChord::alt('f'),
        KeyChord { key: LogicalKey::Char('f'), ctrl: false, alt: true, shift: false }
    );
}

#[test]
fn marker_rule_fills_the_width() {
    assert_eq!(marker_rule(4), "────");
    assert_eq!(marker_rule(0), "");
}
