use project_below::path_style::shortened_path;
use project_below::shortened_path::shortest_unique;

fn check_unique(input: &str, expected: &str, others: &[&str]) {
    let result = shortest_unique(input, others.to_vec());
    assert_eq!(result, expected);
    assert!(!result.is_empty(), "Should have at least one character");
}

#[test]
fn short_and_unique() {
    check_unique("a", "a", &["b"]);
}

#[test]
fn shortest_is_unique() {
    check_unique("abc", "a", &["b"]);
}

#[test]
fn no_others() {
    check_unique("abc", "a", &[]);
}

#[test]
fn requires_two_chars() {
    check_unique("abc", "ab", &["asdf"]);
}

#[test]
fn ignores_non_alphanum() {
    check_unique("a-b-c", "a-b", &["a-s-d-f"]);
}

#[test]
fn ignores_longer_of_itself() {
    check_unique("abc", "ab", &["abcd", "asdf"]);
}

#[test]
fn version_numbers_work() {
    check_unique("0.1.2", "0", &[]);
    check_unique("0.1.2", "0.1", &["0.2.0"]);
    check_unique("0.1.2", "0.1.2", &["0.1.3"]);
}

#[test]
fn shortened_path_cuts_every_directory_but_the_last() {
    let siblings = vec![
        Some(vec!["go".to_string(), "git".to_string()]),
        Some(vec!["hub".to_string(), "other".to_string()]),
    ];
    let short = shortened_path("/home/git/hub/project-below", "/home", &siblings);
    assert_eq!(short, Some("gi/h/project-below".to_string()));
}

#[test]
fn shortened_path_keeps_names_whose_siblings_are_unknown() {
    let siblings = vec![None, None];
    let short = shortened_path("base/one/two/three", "base", &siblings);
    assert_eq!(short, Some("one/two/three".to_string()));
}

#[test]
fn shortened_path_outside_base_is_none() {
    assert_eq!(shortened_path("/elsewhere/x", "/home", &Vec::new()), None);
    assert_eq!(shortened_path("/home", "/home", &Vec::new()), None);
}
