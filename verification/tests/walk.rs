use leap::walk::{keeps_entry, nearest_repo, sort_candidates, text_before, Candidate};

fn cand(display: &str, mtime: i64) -> Candidate {
    Candidate { path: format!("/r/{display}"), display: display.to_string(), mtime }
}

#[test]
fn sort_puts_recent_files_first_then_by_name() {
    let v = vec![cand("old.txt", 1), cand("b.txt", 9), cand("new.txt", 9), cand("a.txt", 9)];
    let got: Vec<String> = sort_candidates(v).into_iter().map(|c| c.display).collect();
    assert_eq!(got, vec!["a.txt", "b.txt", "new.txt", "old.txt"]);
}

#[test]
fn sort_keeps_walk_order_on_full_ties() {
    let v = vec![
        Candidate { path: "/one/x".into(), display: "x".into(), mtime: 3 },
        Candidate { path: "/two/x".into(), display: "x".into(), mtime: 3 },
    ];
    let got: Vec<String> = sort_candidates(v).into_iter().map(|c| c.path).collect();
    assert_eq!(got, vec!["/one/x", "/two/x"]);
}

#[test]
fn names_compare_by_code_point() {
    assert!(text_before("a", "b"));
    assert!(text_before("ab", "abc"));
    assert!(!text_before("abc", "ab"));
    assert!(!text_before("x", "x"));
    assert!(text_before("Z", "a"));
    assert!(text_before("z", "é"));
    assert_eq!(text_before("é", "z"), "é" < "z");
}

#[test]
fn sort_of_nothing_is_nothing() {
    assert!(sort_candidates(Vec::new()).is_empty());
}

#[test]
fn heavy_directories_are_pruned_but_files_pass() {
    assert!(!keeps_entry(true, "target"));
    assert!(!keeps_entry(true, "node_modules"));
    assert!(!keeps_entry(true, ".git"));
    assert!(keeps_entry(true, "src"));
    assert!(keeps_entry(true, "targets"));
    assert!(keeps_entry(false, "target"));
}

#[test]
fn the_nearest_ancestor_with_git_is_the_repo_root() {
    assert_eq!(nearest_repo(&vec![false, true, true]), Some(1));
    assert_eq!(nearest_repo(&vec![true, false]), Some(0));
    assert_eq!(nearest_repo(&vec![false, false]), None);
    assert_eq!(nearest_repo(&Vec::new()), None);
}
