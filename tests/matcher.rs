use project_below::matcher::{check_dir_is_project, dirs_to_read, match_entries, start};
use project_below::pattern::{Kind, Pattern};
use project_below::tree::{DirTree, EntryKind};

fn file_pattern(id: usize, text: &str) -> Pattern {
    Pattern::new(id, Kind::File, text).unwrap()
}

fn dir_pattern(id: usize, text: &str) -> Pattern {
    Pattern::new(id, Kind::Directory, text).unwrap()
}

#[test]
fn git_directory_marks_a_project() {
    // /repo/.git/ and /repo/src/
    let mut repo = DirTree::empty_dir("repo".to_string());
    repo.add(0, ".git".to_string(), EntryKind::Directory);
    let src = repo.add(0, "src".to_string(), EntryKind::Directory);
    repo.add(src, "lib.rs".to_string(), EntryKind::File);
    let patterns = vec![dir_pattern(0, "*.git")];
    assert!(check_dir_is_project(&patterns, &repo));

    let mut src_dir = DirTree::empty_dir("src".to_string());
    src_dir.add(0, "lib.rs".to_string(), EntryKind::File);
    assert!(!check_dir_is_project(&patterns, &src_dir));
}

#[test]
fn anywhere_pattern_finds_nested_files() {
    let mut proj = DirTree::empty_dir("proj".to_string());
    proj.add(0, "README.md".to_string(), EntryKind::File);
    let src = proj.add(0, "src".to_string(), EntryKind::Directory);
    proj.add(src, "lib.rs".to_string(), EntryKind::File);
    let patterns = vec![file_pattern(0, "**/*.rs")];
    assert!(check_dir_is_project(&patterns, &proj));
}

#[test]
fn anywhere_pattern_includes_the_top_level() {
    let mut proj = DirTree::empty_dir("proj".to_string());
    proj.add(0, "main.rs".to_string(), EntryKind::File);
    assert!(check_dir_is_project(&vec![file_pattern(0, "**/*.rs")], &proj));
}

#[test]
fn anywhere_pattern_misses_when_nothing_matches() {
    let mut proj = DirTree::empty_dir("proj".to_string());
    let a = proj.add(0, "a".to_string(), EntryKind::Directory);
    let b = proj.add(a, "b".to_string(), EntryKind::Directory);
    proj.add(b, "main.py".to_string(), EntryKind::File);
    assert!(!check_dir_is_project(&vec![file_pattern(0, "**/*.rs")], &proj));
}

#[test]
fn position_pattern_needs_the_right_directory() {
    let mut good = DirTree::empty_dir("proj".to_string());
    let foo = good.add(0, "foo".to_string(), EntryKind::Directory);
    good.add(foo, "main.rs".to_string(), EntryKind::File);
    let patterns = vec![file_pattern(0, "f*o/*.rs")];
    assert!(check_dir_is_project(&patterns, &good));

    let mut bad = DirTree::empty_dir("proj".to_string());
    let bar = bad.add(0, "bar".to_string(), EntryKind::Directory);
    bad.add(bar, "main.rs".to_string(), EntryKind::File);
    assert!(!check_dir_is_project(&patterns, &bad));
}

#[test]
fn position_pattern_does_not_match_deeper() {
    let mut proj = DirTree::empty_dir("proj".to_string());
    let foo = proj.add(0, "foo".to_string(), EntryKind::Directory);
    let deeper = proj.add(foo, "deeper".to_string(), EntryKind::Directory);
    proj.add(deeper, "main.rs".to_string(), EntryKind::File);
    assert!(!check_dir_is_project(&vec![file_pattern(0, "f*o/*.rs")], &proj));
}

#[test]
fn all_patterns_must_be_satisfied() {
    let mut repo = DirTree::empty_dir("repo".to_string());
    repo.add(0, ".git".to_string(), EntryKind::Directory);
    let patterns = Pattern::many(vec!["*.git".to_string()], vec!["package.json".to_string()]).unwrap();
    assert!(!check_dir_is_project(&patterns, &repo));
    repo.add(0, "package.json".to_string(), EntryKind::File);
    assert!(check_dir_is_project(&patterns, &repo));
}

#[test]
fn kinds_must_agree() {
    let mut repo = DirTree::empty_dir("repo".to_string());
    repo.add(0, "Cargo.toml".to_string(), EntryKind::Directory);
    repo.add(0, ".git".to_string(), EntryKind::File);
    repo.add(0, "link".to_string(), EntryKind::Other);
    assert!(!check_dir_is_project(&vec![file_pattern(0, "Cargo.toml")], &repo));
    assert!(!check_dir_is_project(&vec![dir_pattern(0, ".git")], &repo));
    assert!(!check_dir_is_project(&vec![file_pattern(0, "link")], &repo));
    assert!(!check_dir_is_project(&vec![dir_pattern(0, "link")], &repo));
}

#[test]
fn here_pattern_matches_direct_children_only() {
    let mut repo = DirTree::empty_dir("repo".to_string());
    let sub = repo.add(0, "sub".to_string(), EntryKind::Directory);
    repo.add(sub, "Cargo.toml".to_string(), EntryKind::File);
    let patterns = vec![file_pattern(0, "Cargo.toml")];
    assert!(!check_dir_is_project(&patterns, &repo));
    repo.add(0, "Cargo.toml".to_string(), EntryKind::File);
    assert!(check_dir_is_project(&patterns, &repo));
}

#[test]
fn no_patterns_accept_every_directory() {
    let repo = DirTree::empty_dir("repo".to_string());
    assert!(check_dir_is_project(&Vec::new(), &repo));
}

#[test]
fn files_are_not_descended_into() {
    let mut repo = DirTree::empty_dir("repo".to_string());
    let weird = repo.add(0, "weird".to_string(), EntryKind::File);
    repo.add(weird, "main.rs".to_string(), EntryKind::File);
    assert!(!check_dir_is_project(&vec![file_pattern(0, "**/*.rs")], &repo));
}

#[test]
fn no_directory_is_read_once_only_here_patterns_remain() {
    let mut repo = DirTree::empty_dir("repo".to_string());
    repo.add(0, "src".to_string(), EntryKind::Directory);
    repo.add(0, "docs".to_string(), EntryKind::Directory);
    let patterns = vec![file_pattern(0, "Cargo.toml"), dir_pattern(1, "src")];
    let (mut pending, live) = start(&patterns);
    match_entries(&mut pending, &repo, 0, &patterns, &live);
    assert_eq!(pending, vec![true, false]);
    assert!(dirs_to_read(&pending, &repo, 0, &patterns, &live).is_empty());
}

#[test]
fn only_directories_a_pattern_can_enter_are_read() {
    let mut proj = DirTree::empty_dir("proj".to_string());
    let bar = proj.add(0, "bar".to_string(), EntryKind::Directory);
    let foo = proj.add(0, "foo".to_string(), EntryKind::Directory);
    proj.add(0, "fxo".to_string(), EntryKind::File);
    let patterns = vec![file_pattern(0, "f*o/*.rs")];
    let (mut pending, live) = start(&patterns);
    match_entries(&mut pending, &proj, 0, &patterns, &live);
    let next = dirs_to_read(&pending, &proj, 0, &patterns, &live);
    assert_eq!(next.len(), 1);
    assert_eq!(next[0].0, foo);
    assert_ne!(next[0].0, bar);
    assert!(next[0].1[0].1.is_here());

    proj.add(foo, "main.rs".to_string(), EntryKind::File);
    match_entries(&mut pending, &proj, foo, &patterns, &next[0].1);
    assert_eq!(pending, vec![false]);
    assert!(dirs_to_read(&pending, &proj, foo, &patterns, &next[0].1).is_empty());
    assert!(check_dir_is_project(&patterns, &proj));
}

#[test]
fn anywhere_patterns_keep_reading_until_found() {
    let mut proj = DirTree::empty_dir("proj".to_string());
    let a = proj.add(0, "a".to_string(), EntryKind::Directory);
    let b = proj.add(0, "b".to_string(), EntryKind::Directory);
    let patterns = vec![file_pattern(0, "**/*.rs")];
    let (mut pending, live) = start(&patterns);
    match_entries(&mut pending, &proj, 0, &patterns, &live);
    let next = dirs_to_read(&pending, &proj, 0, &patterns, &live);
    assert_eq!(next.iter().map(|(dir, _)| *dir).collect::<Vec<_>>(), vec![a, b]);
    proj.add(a, "lib.rs".to_string(), EntryKind::File);
    match_entries(&mut pending, &proj, a, &patterns, &next[0].1);
    assert_eq!(pending, vec![false]);
    assert!(dirs_to_read(&pending, &proj, b, &patterns, &next[1].1).is_empty());
}
