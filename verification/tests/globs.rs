use stalker::globs::{build_set, GlobPattern};

#[test]
fn patterns_keep_their_text() {
    assert_eq!(GlobPattern::new("src/**/*.rs").unwrap().glob(), "src/**/*.rs");
}

#[test]
fn broken_patterns_are_refused() {
    let error = GlobPattern::new("[z-a").unwrap_err();
    assert_eq!(error.pattern, "[z-a");
    assert_eq!(
        GlobPattern::new("[a").unwrap_err().reason(),
        "error parsing glob '[a': unclosed character class; missing ']'"
    );
    assert_eq!(
        GlobPattern::new("[z-a]").unwrap_err().reason(),
        "error parsing glob '[z-a]': invalid range; 'z' > 'a'"
    );
}

#[test]
fn sets_match_if_any_pattern_does() {
    let globs = vec![
        GlobPattern::new("*.rs").unwrap(),
        GlobPattern::new("docs/**").unwrap(),
    ];
    let set = build_set(&globs).unwrap();
    assert!(!set.is_empty());
    assert!(set.is_match(b"main.rs"));
    assert!(set.is_match(b"docs/a/b"));
    assert!(!set.is_match(b"main.c"));
}

#[test]
fn empty_sets_match_nothing() {
    let set = build_set(&Vec::new()).unwrap();
    assert!(set.is_empty());
    assert!(!set.is_match(b""));
    assert!(!set.is_match(b"main.rs"));
}

#[test]
fn patterns_match_alone() {
    let glob = GlobPattern::new("**/..").unwrap();
    assert!(glob.is_match(b"x/.."));
    assert!(!glob.is_match(b"x/y"));
}
