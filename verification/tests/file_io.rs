use cloakroom::file_io::{contains_name, decide_write, is_stale, prune_objects, WriteOutcome};

#[test]
fn writing_creates_and_then_reports_unchanged() {
    assert_eq!(decide_write(&None, "content\n"), WriteOutcome::Wrote);
    let existing = Some(b"content\n".to_vec());
    assert_eq!(decide_write(&existing, "content\n"), WriteOutcome::Unchanged);
    assert_eq!(decide_write(&existing, "changed\n"), WriteOutcome::Wrote);
}

#[test]
fn prune_removes_only_stale_gitconfig_files() {
    let names = vec![
        Some("keep.gitconfig".to_owned()),
        Some("stale.gitconfig".to_owned()),
        Some("unrelated.txt".to_owned()),
    ];
    let keep = vec!["keep".to_owned()];
    assert_eq!(prune_objects(&names, &keep), vec!["stale.gitconfig"]);
}

#[test]
fn pruned_names_are_sorted() {
    let names = ["b", "\u{e9}", "a", "aa", ""].map(|key| Some(format!("{key}.gitconfig")));
    assert_eq!(
        prune_objects(&names.to_vec(), &Vec::new()),
        vec![".gitconfig", "a.gitconfig", "aa.gitconfig", "b.gitconfig", "\u{e9}.gitconfig"]
    );
}

#[test]
fn names_that_are_not_text_are_left_alone() {
    assert!(!is_stale(&None, &Vec::new()));
    assert!(!is_stale(&Some("x.gitconfig.bak".to_owned()), &Vec::new()));
    assert!(is_stale(&Some("x.gitconfig".to_owned()), &vec!["y".to_owned()]));
    assert!(contains_name(&vec!["y".to_owned()], "y"));
}
