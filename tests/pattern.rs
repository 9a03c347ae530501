use project_below::pattern::{Kind, Pattern, PatternError, Position};

#[test]
fn pattern_works_anywhere() {
    let kind = Kind::File;
    let result = Pattern::new(42, kind, "**/*.rs").unwrap();
    assert_eq!(result.kind, kind);
    assert_eq!(result.target.glob(), "*.rs");
    assert!(matches!(result.position, Position::Anywhere));
}

#[test]
fn pattern_works_in_base() {
    let kind = Kind::File;
    let result = Pattern::new(42, kind, "*.rs").unwrap();
    assert_eq!(result.kind, kind);
    assert_eq!(result.target.glob(), "*.rs");
    assert!(matches!(result.position, Position::Here));
}

#[test]
fn pattern_works_in_subdir() {
    let kind = Kind::File;
    let result = Pattern::new(42, kind, "f*o/*.rs").unwrap();
    assert_eq!(result.kind, kind);
    assert_eq!(result.target.glob(), "*.rs");
    if let Position::Below { direct, below } = result.position {
        assert_eq!(direct.glob(), "f*o");
        assert!(matches!(*below, Position::Here));
    } else {
        panic!("wrong position");
    }
}

#[test]
fn pattern_works_anywhere_in_subdir() {
    let kind = Kind::File;
    let result = Pattern::new(42, kind, "f*o/**/*.rs").unwrap();
    assert_eq!(result.kind, kind);
    assert_eq!(result.target.glob(), "*.rs");
    if let Position::Below { direct, below } = result.position {
        assert_eq!(direct.glob(), "f*o");
        assert!(matches!(*below, Position::Anywhere));
    } else {
        panic!("wrong position");
    }
}

#[test]
fn empty_pattern_is_a_configuration_error() {
    assert_eq!(Pattern::new(0, Kind::File, "").err(), Some(PatternError::Empty));
    assert_eq!(Pattern::new(0, Kind::File, "/").err(), Some(PatternError::Empty));
    assert_eq!(Pattern::new(0, Kind::Directory, "//").err(), Some(PatternError::Empty));
}

#[test]
fn double_star_must_be_last_position_segment() {
    assert_eq!(Pattern::new(0, Kind::File, "**/src/*.rs").err(), Some(PatternError::TooDeep));
    assert_eq!(Pattern::new(0, Kind::File, "a/**/b/c").err(), Some(PatternError::TooDeep));
    assert!(Pattern::new(0, Kind::File, "a/b/**/c").is_ok());
}

#[test]
fn invalid_glob_is_rejected() {
    assert_eq!(Pattern::new(0, Kind::File, "a[").err(), Some(PatternError::InvalidGlob));
    assert_eq!(Pattern::new(0, Kind::File, "{a/b").err(), Some(PatternError::InvalidGlob));
    assert_eq!(Pattern::new(0, Kind::File, "x[/y").err(), Some(PatternError::InvalidGlob));
}

#[test]
fn root_and_repeated_separators_are_dropped() {
    let result = Pattern::new(7, Kind::Directory, "/src//lib/").unwrap();
    assert_eq!(result.unique_identifier, 7);
    assert_eq!(result.target.glob(), "lib");
    if let Position::Below { direct, below } = result.position {
        assert_eq!(direct.glob(), "src");
        assert!(matches!(*below, Position::Here));
    } else {
        panic!("wrong position");
    }
}

#[test]
fn many_numbers_directories_then_files() {
    let patterns = Pattern::many(
        vec!["*.git".to_string(), "node_modules".to_string()],
        vec!["package.json".to_string()],
    )
    .unwrap();
    assert_eq!(patterns.len(), 3);
    assert_eq!(patterns[0].unique_identifier, 0);
    assert_eq!(patterns[0].kind, Kind::Directory);
    assert_eq!(patterns[1].unique_identifier, 1);
    assert_eq!(patterns[2].unique_identifier, 2);
    assert_eq!(patterns[2].kind, Kind::File);
    assert_eq!(patterns[2].target.glob(), "package.json");
}

#[test]
fn many_reports_the_first_error() {
    let result = Pattern::many(
        vec!["ok".to_string(), "**/a/b".to_string()],
        vec!["".to_string()],
    );
    assert_eq!(result.err(), Some(PatternError::TooDeep));
}

#[test]
fn compiling_twice_gives_the_same_matchers() {
    let first = Pattern::new(0, Kind::File, "f*o/**/*.rs").unwrap();
    let second = Pattern::new(0, Kind::File, "f*o/**/*.rs").unwrap();
    for name in ["main.rs", "lib.rs", "main.rsx", "a.b.rs", ".rs", "x/y.rs"] {
        assert_eq!(first.target.is_match(name), second.target.is_match(name));
    }
    let (Position::Below { direct: a, .. }, Position::Below { direct: b, .. }) =
        (&first.position, &second.position)
    else {
        panic!("wrong position");
    };
    for name in ["foo", "fo", "fxo", "foo.bar", "bar"] {
        assert_eq!(a.is_match(name), b.is_match(name));
    }
}

#[test]
fn descend_follows_the_position() {
    let pattern = Pattern::new(0, Kind::File, "f*o/*.rs").unwrap();
    let below = pattern.position.descend("foo").unwrap();
    assert!(below.is_here());
    assert!(pattern.position.descend("bar").is_none());
    assert!(below.descend("anything").is_none());
    let anywhere = Pattern::new(0, Kind::File, "**/*.rs").unwrap();
    assert!(matches!(anywhere.position.descend("x"), Some(Position::Anywhere)));
}

#[test]
fn star_does_not_cross_separators() {
    let pattern = Pattern::new(0, Kind::File, "*.rs").unwrap();
    assert!(pattern.target.is_match("main.rs"));
    assert!(!pattern.target.is_match("src/main.rs"));
    assert!(!pattern.target.is_match("main.rs.bak"));
}

#[test]
fn deeply_nested_alternates_compile_or_fail_without_panic() {
    for depth in [90, 120, 300] {
        let mut glob = String::from("a");
        for _ in 0..depth {
            glob = format!("{{b,{glob}}}");
        }
        match Pattern::new(0, Kind::File, &glob) {
            Ok(pattern) => {
                assert!(pattern.target.is_match("a"));
                assert!(!pattern.target.is_match("c"));
            }
            Err(error) => assert_eq!(error, PatternError::InvalidGlob),
        }
        let nested_dir = format!("{glob}/x");
        match Pattern::new(0, Kind::File, &nested_dir) {
            Ok(pattern) => assert!(matches!(pattern.position, Position::Below { .. })),
            Err(error) => assert_eq!(error, PatternError::InvalidGlob),
        }
    }
}
