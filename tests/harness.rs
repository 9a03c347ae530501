use project_below::byte_lines::ByteLines;
use project_below::cli::{threads, CommandResult, PathStyle as CliPathStyle};
use project_below::harness::{Config, Separator};
use project_below::path_style::{PathFacts, PathStyle};
use project_below::took::Took;
use project_below::walk::{after_check, is_candidate, walk_threads, WalkState};

fn no_facts() -> PathFacts {
    PathFacts { canonical: None, siblings: Vec::new() }
}

#[test]
fn command_result_print() {
    assert!(CommandResult::Always.print(true));
    assert!(CommandResult::Always.print(false));
    assert!(!CommandResult::Never.print(true));
    assert!(!CommandResult::Never.print(false));
    assert!(!CommandResult::NonZero.print(true));
    assert!(CommandResult::NonZero.print(false));
}

#[test]
fn thread_counts() {
    assert_eq!(threads(None, Some(8)), 1);
    assert_eq!(threads(Some(Some(3)), Some(8)), 3);
    assert_eq!(threads(Some(None), Some(8)), 8);
    assert_eq!(threads(Some(None), None), 1);
    assert_eq!(walk_threads(None), 1);
    assert_eq!(walk_threads(Some(12)), 12);
    assert_eq!(walk_threads(Some(200)), 64);
}

#[test]
fn walk_decisions() {
    assert!(!is_candidate(0));
    assert!(is_candidate(1));
    assert_eq!(after_check(false, false, false), WalkState::Continue);
    assert_eq!(after_check(true, true, false), WalkState::Skip);
    assert_eq!(after_check(true, true, true), WalkState::Continue);
    assert_eq!(after_check(true, false, true), WalkState::Quit);
}

#[test]
fn line_prefix_pads_the_path() {
    let config = Config::new(PathStyle::BaseDir("/base".to_string()), 2, 8, false, CommandResult::Always);
    let harness = config.create("/base/abc");
    assert_eq!(harness.line_prefix(&no_facts()), "abc       ");
    let config = Config::new(PathStyle::BaseDir("/base".to_string()), 2, 2, false, CommandResult::Always);
    let harness = config.create("/base/abc/def");
    assert_eq!(harness.line_prefix(&no_facts()), "abc/def  ");
}

#[test]
fn result_line() {
    let config = Config::new(PathStyle::Dirname, 1, 40, false, CommandResult::NonZero);
    let harness = config.create("/x/project");
    let took = Took::new(1, 337);
    assert_eq!(harness.result(&took, "exit status: 0", true, &no_facts()), None);
    assert_eq!(
        harness.result(&took, "exit status: 1", false, &no_facts()),
        Some("took         1s337ms  exit status: 1 in project".to_string())
    );
}

#[test]
fn inherit_header_separates_commands() {
    let config = Config::new(PathStyle::Dirname, 1, 40, false, CommandResult::Always);
    let mut separator = Separator::new();
    let first = config.create("/x/one").inherit_header(&mut separator, &no_facts());
    let second = config.create("/x/two").inherit_header(&mut separator, &no_facts());
    assert_eq!(first, Some("one\n".to_string()));
    assert_eq!(second, Some("\ntwo\n".to_string()));

    let parallel = Config::new(PathStyle::Dirname, 4, 40, false, CommandResult::Always);
    assert_eq!(parallel.create("/x/one").inherit_header(&mut Separator::new(), &no_facts()), None);
}

/// Runs three collected commands one after the other, as a single thread
/// does, and writes down what they print.
#[test]
fn collected_output_keeps_order_and_blocks() {
    let config = Config::new(PathStyle::Dirname, 1, 40, false, CommandResult::Always);
    let mut separator = Separator::new();
    let mut transcript = String::new();
    for (path, out) in [("/x/a", "alpha\n"), ("/x/b", "beta"), ("/x/c", "gamma\n")] {
        let stdout = out.as_bytes().to_vec();
        let plan = config.create(path).collect(&mut separator, &stdout, &Vec::new(), true, &no_facts());
        assert!(plan.show);
        if plan.blank_line {
            transcript.push('\n');
        }
        if let Some(header) = plan.stdout_header {
            transcript.push_str(&header);
            transcript.push('\n');
        }
        transcript.push_str(out);
        if plan.stdout_newline {
            transcript.push('\n');
        }
        assert!(plan.stderr_header.is_none());
    }
    assert_eq!(transcript, "a  stdout:\nalpha\n\nb  stdout:\nbeta\n\nc  stdout:\ngamma\n");
}

#[test]
fn collect_skips_silent_hidden_results() {
    let config = Config::new(PathStyle::Dirname, 1, 40, true, CommandResult::Never);
    let mut separator = Separator::new();
    let plan = config.create("/x/a").collect(&mut separator, &Vec::new(), &Vec::new(), true, &no_facts());
    assert!(!plan.show);
    assert!(separator.first);
    let plan = config.create("/x/a").collect(&mut separator, &b"e".to_vec(), &b"r".to_vec(), true, &no_facts());
    assert!(plan.show);
    assert!(!plan.blank_line);
    assert!(plan.stdout_header.is_none());
    assert!(plan.stdout_newline);
    assert!(plan.stderr_newline);
}

#[test]
fn byte_lines_split_on_line_breaks() {
    let mut lines = ByteLines::new();
    let mut out = Vec::new();
    for byte in b"one\n\ntwo\nthree" {
        if let Some(line) = lines.push(*byte) {
            out.push(line);
        }
    }
    if let Some(line) = lines.finish() {
        out.push(line);
    }
    assert_eq!(out, vec![b"one".to_vec(), Vec::new(), b"two".to_vec(), b"three".to_vec()]);
    let mut ended = ByteLines::new();
    assert_eq!(ended.push(b'\n'), Some(Vec::new()));
    assert_eq!(ended.finish(), None);
}

#[test]
fn path_styles_render() {
    let facts = no_facts();
    let base = PathStyle::new(CliPathStyle::BaseDir, "/home/me".to_string(), None);
    assert_eq!(base.path("/home/me/code/x").render(&facts), "code/x");
    assert_eq!(base.path("/elsewhere/x").render(&facts), "/elsewhere/x");
    let dirname = PathStyle::new(CliPathStyle::Dirname, "/home/me".to_string(), None);
    assert_eq!(dirname.path("/home/me/code/x").render(&facts), "x");
    let working = PathStyle::new(CliPathStyle::WorkingDir, "/b".to_string(), Some("/home/me/work".to_string()));
    assert_eq!(working.path("/home/me/code/x").render(&facts), "../code/x");
    let no_working = PathStyle::new(CliPathStyle::WorkingDir, "/b".to_string(), None);
    assert!(matches!(no_working, PathStyle::Canonical));
    let canonical = PathFacts { canonical: Some("/real/x".to_string()), siblings: Vec::new() };
    assert_eq!(PathStyle::Canonical.path("x").render(&canonical), "/real/x");
    assert_eq!(PathStyle::Canonical.path("x").render(&facts), "x");
    let short = PathStyle::new(CliPathStyle::Short, "/home".to_string(), None);
    let siblings = PathFacts {
        canonical: None,
        siblings: vec![Some(vec!["go".to_string(), "git".to_string()]), Some(vec!["hub".to_string()])],
    };
    assert_eq!(short.path("/home/git/hub/p").render(&siblings), "gi/h/p");
}
