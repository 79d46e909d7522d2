use ignore::gitignore::GitignoreBuilder;
use stalker::config::WatchSpec;
use stalker::filter::{
    normalize_path, pattern_ignores_all_below, pattern_may_match_below, PathFilter, PathKind,
    RuleMatches,
};
use stalker::gitignore::{GitignoreRules, IgnoreFile};
use stalker::globs::GlobPattern;
use stalker::path::FilePath;
use stalker::time::Duration;

fn path(text: &str) -> FilePath {
    FilePath::from_bytes(text.as_bytes())
}

fn globs(patterns: &[&str]) -> Vec<GlobPattern> {
    patterns
        .iter()
        .map(|pattern| GlobPattern::new(pattern).unwrap())
        .collect()
}

fn texts(globs: &[GlobPattern]) -> Vec<String> {
    globs.iter().map(|glob| glob.glob().to_owned()).collect()
}

fn filter(includes: &[&str], ignores: &[&str]) -> PathFilter {
    let includes = globs(includes);
    let ignores = globs(ignores);
    PathFilter::new_with_patterns(
        path("/repo"),
        &includes,
        &ignores,
        texts(&includes),
        texts(&ignores),
        None,
        None,
    )
    .unwrap()
}

fn accepts(filter: &PathFilter, text: &str, kind: PathKind) -> bool {
    filter.accepts(&path(text), kind, &Vec::new())
}

fn ignore_file(directory: &str, rules: &[&str]) -> IgnoreFile {
    let mut builder = GitignoreBuilder::new(directory);
    for rule in rules {
        builder.add_line(None, rule).unwrap();
    }
    IgnoreFile {
        directory: path(directory),
        matcher: builder.build().unwrap(),
    }
}

#[test]
fn ignores_win_over_includes() {
    let filter = filter(&["**/*.rs"], &["target/**"]);
    assert!(accepts(&filter, "/repo/src/main.rs", PathKind::File));
    assert!(!accepts(&filter, "/repo/target/main.rs", PathKind::File));
}

#[test]
fn normalizes_relative_and_absolute_paths() {
    let filter = filter(&[], &[]);
    assert_eq!(
        filter.normalize(&path("src/../src/main.rs")),
        Some(path("src/main.rs"))
    );
    assert_eq!(filter.normalize(&path("/outside/main.rs")), None);
}

#[test]
fn directory_events_are_conservative_for_matching_descendants() {
    let filter = PathFilter::new_with_patterns(
        path("/repo"),
        &globs(&["src/**/*.rs"]),
        &globs(&["target/**"]),
        vec!["src/**/*.rs".to_owned()],
        vec!["target/**".to_owned()],
        None,
        None,
    )
    .unwrap();
    assert!(accepts(&filter, "/repo/src", PathKind::Directory));
    assert!(!accepts(&filter, "/repo/docs", PathKind::Directory));
    assert!(!accepts(&filter, "/repo/target", PathKind::Directory));
}

#[test]
fn working_directory_broad_event_can_match_an_included_descendant() {
    let filter = filter(&["src/**/*.rs"], &[]);

    assert!(accepts(&filter, "/repo", PathKind::Directory));
}

#[test]
fn wildcard_ignored_directories_do_not_schedule_broad_events() {
    let filter = filter(&["**/*.rs"], &["**/target/**"]);

    assert!(!accepts(&filter, "/repo/target", PathKind::Directory));
    assert!(!accepts(&filter, "/repo/nested/target", PathKind::Directory));
}

#[test]
fn file_watch_root_filters_sibling_events_but_accepts_its_parent_broad_event() {
    let filter = PathFilter::new_with_patterns(
        path("/repo"),
        &Vec::new(),
        &Vec::new(),
        Vec::new(),
        Vec::new(),
        Some(vec![path("/repo/tsconfig.json")]),
        None,
    )
    .unwrap();

    assert!(accepts(&filter, "/repo/tsconfig.json", PathKind::File));
    assert!(!accepts(&filter, "/repo/other.json", PathKind::File));
    assert!(accepts(&filter, "/repo", PathKind::Directory));
}

#[test]
fn external_watch_roots_bypass_cwd_gitignore_rules() {
    let cwd = path("/repo");
    let filter = PathFilter::new_with_patterns(
        path("/repo"),
        &Vec::new(),
        &Vec::new(),
        Vec::new(),
        Vec::new(),
        Some(vec![path("/elsewhere/gfx")]),
        GitignoreRules::discover(&cwd, &vec![true]),
    )
    .unwrap();
    let files = vec![ignore_file("/repo", &["*"])];

    assert!(filter.accepts(&path("/elsewhere/gfx"), PathKind::File, &files));
    assert!(filter.consulted_directories(&path("/elsewhere/gfx")).is_empty());
}

#[test]
fn repository_and_nested_gitignore_rules_filter_events() {
    let cwd = path("/repo");
    let filter = PathFilter::new_with_patterns(
        path("/repo"),
        &Vec::new(),
        &Vec::new(),
        Vec::new(),
        Vec::new(),
        None,
        GitignoreRules::discover(&cwd, &vec![true, false]),
    )
    .unwrap();
    let files = vec![
        ignore_file("/repo", &["target/", "*.log"]),
        ignore_file("/repo/src", &["!keep.log"]),
    ];

    assert!(!filter.accepts(&path("/repo/target/output.o"), PathKind::File, &files));
    assert!(!filter.accepts(&path("/repo/error.log"), PathKind::File, &files));
    assert!(filter.accepts(&path("/repo/src/keep.log"), PathKind::File, &files));
    assert!(!filter.accepts(&path("/repo/.git/HEAD"), PathKind::File, &files));
    assert!(filter.accepts(&path("/repo/src/main.rs"), PathKind::File, &files));
}

#[test]
fn only_consulted_ignore_files_matter() {
    let cwd = path("/repo/app");
    let filter = PathFilter::new_with_patterns(
        path("/repo/app"),
        &Vec::new(),
        &Vec::new(),
        Vec::new(),
        Vec::new(),
        None,
        GitignoreRules::discover(&cwd, &vec![false, true, false]),
    )
    .unwrap();

    assert_eq!(
        filter.consulted_directories(&path("src/main.rs")),
        vec![path("/repo"), path("/repo/app"), path("/repo/app/src")]
    );
    let files = vec![
        ignore_file("/repo/app/docs", &["*"]),
        ignore_file("/repo", &["*.tmp"]),
    ];
    assert!(filter.accepts(&path("src/main.rs"), PathKind::File, &files));
    assert!(!filter.accepts(&path("src/main.tmp"), PathKind::File, &files));
    assert!(!filter.accepts(&path("docs/main.rs"), PathKind::File, &files));
}

#[test]
fn relative_names_stay_below_the_working_directory() {
    let cwd = path("/repo");
    assert_eq!(normalize_path(&cwd, &path("./a/./b")), Some(path("a/b")));
    assert_eq!(normalize_path(&cwd, &path("a/../../repo")), None);
    assert_eq!(normalize_path(&cwd, &path("..")), None);
    assert_eq!(normalize_path(&cwd, &path("/repo")), Some(path("")));
    assert_eq!(normalize_path(&cwd, &path("/repository")), None);
    let name = normalize_path(&cwd, &path("/repo/x/../y")).unwrap();
    assert_eq!(name, path("y"));
    assert_eq!(normalize_path(&cwd, &name), Some(path("y")));
}

#[test]
fn includes_select_files_and_directories_above_them() {
    let filter = filter(&["src/**/*.rs", "./docs/*.md"], &[]);
    assert!(accepts(&filter, "/repo/src/a/b.rs", PathKind::File));
    assert!(!accepts(&filter, "/repo/src/a/b.c", PathKind::File));
    assert!(accepts(&filter, "/repo/src/a", PathKind::Directory));
    assert!(accepts(&filter, "/repo/docs", PathKind::Directory));
    assert!(!accepts(&filter, "/repo/src2", PathKind::Directory));
}

#[test]
fn compiled_globs_alone_make_directories_conservative() {
    let filter = PathFilter::new(
        path("/repo"),
        &globs(&["src/**/*.rs"]),
        &globs(&["target/**"]),
    )
    .unwrap();
    assert!(accepts(&filter, "/repo/docs", PathKind::Directory));
    assert!(accepts(&filter, "/repo/target", PathKind::Directory));
    assert!(!accepts(&filter, "/repo/docs", PathKind::File));
    assert!(!accepts(&filter, "/repo/target/x", PathKind::Directory));
}

#[test]
fn pattern_prefixes_bound_what_may_match() {
    assert!(pattern_may_match_below("src/**/*.rs", &path("src")));
    assert!(pattern_may_match_below("./src/**", &path("src/deep/er")));
    assert!(pattern_may_match_below("a/b/c.rs", &path("a")));
    assert!(pattern_may_match_below("**/x", &path("anything")));
    assert!(pattern_may_match_below("/a/*.rs", &path("a")));
    assert!(!pattern_may_match_below("src/**", &path("srcs")));
    assert!(!pattern_may_match_below("src/**", &path("docs")));
    // A wildcard or an escape may stand within a name.
    assert!(pattern_may_match_below("src/ma*/x.rs", &path("src/main")));
    assert!(pattern_may_match_below("src*/a.rs", &path("src2")));
    assert!(pattern_may_match_below("a\\*b/x", &path("a*b")));
    assert!(!pattern_may_match_below("src*/a.rs", &path("docs")));
    assert!(!pattern_may_match_below("src/ma*/x.rs", &path("src/lib")));
    // Several slashes before the wildcard count as one.
    assert!(pattern_may_match_below("src//*.rs", &path("src/a")));
    assert!(pattern_may_match_below("src///*.rs", &path("src")));
    assert!(!pattern_may_match_below("src//*.rs", &path("src2")));
    // Without a wildcard whole names count.
    assert!(!pattern_may_match_below("src", &path("src2")));
    assert!(pattern_may_match_below("src/main.rs", &path("src")));
}

#[test]
fn only_patterns_for_everything_below_ignore_directories() {
    assert!(pattern_ignores_all_below("target/**", b"target"));
    assert!(pattern_ignores_all_below("./target/**/", b"target"));
    assert!(pattern_ignores_all_below("**/out/**", b"a/out"));
    assert!(!pattern_ignores_all_below("target/**", b"src"));
    assert!(!pattern_ignores_all_below("target/*", b"target"));
    assert!(!pattern_ignores_all_below("target", b"target"));
    assert!(!pattern_ignores_all_below("[/**", b"["));
    assert!(pattern_ignores_all_below("**/../**", b"x/.."));
    assert!(pattern_ignores_all_below("*./**", b".."));
}

fn deep_pattern() -> String {
    format!("{}a{}", "{".repeat(400), "}".repeat(400))
}

#[test]
fn patterns_that_cannot_be_compiled_match_nothing() {
    let everything_below = format!("{}/**", deep_pattern());
    assert!(!pattern_ignores_all_below(&everything_below, b"a"));
    assert!(pattern_ignores_all_below("{{{a}}}/**", b"a"));
    let deep = deep_pattern();
    let glob = GlobPattern::new(&deep).unwrap();
    let error = PathFilter::new(path("/repo"), &vec![glob], &Vec::new()).unwrap_err();
    assert_eq!(error.reason(), error.cause.to_string());
}

#[test]
fn broad_events_reach_directories_that_wildcards_name_in_part() {
    let filter = filter(&["src*/a.rs"], &[]);
    assert!(accepts(&filter, "/repo/src2/a.rs", PathKind::File));
    assert!(accepts(&filter, "/repo/src2", PathKind::Directory));
    assert!(!accepts(&filter, "/repo/lib", PathKind::Directory));
}

#[test]
fn more_patterns_only_move_one_way() {
    let base = filter(&["src/*.rs"], &["gen/**"]);
    let more_ignores = filter(&["src/*.rs"], &["gen/**", "**/old.rs"]);
    let more_includes = filter(&["src/*.rs", "docs/*"], &["gen/**"]);
    for name in ["src/a.rs", "src/old.rs", "docs/x", "docs", "src", "gen", "gen/x", ""] {
        for kind in [PathKind::File, PathKind::Directory] {
            let accepted = base.accepts_normalized(name.as_bytes(), kind);
            assert!(!more_ignores.accepts_normalized(name.as_bytes(), kind) || accepted);
            assert!(!accepted || more_includes.accepts_normalized(name.as_bytes(), kind));
        }
    }
    assert!(!more_ignores.accepts_normalized(b"src/old.rs", PathKind::File));
    assert!(more_includes.accepts_normalized(b"docs/x", PathKind::File));
    assert!(!base.accepts_normalized(b"docs/x", PathKind::File));
}

#[test]
fn normalized_paths_are_matched_as_they_are_spelled() {
    let filter = filter(&[], &["target"]);
    assert!(!filter.accepts_normalized(b"target", PathKind::File));
    assert!(filter.accepts_normalized(b"target/", PathKind::File));
}

#[test]
fn rules_decide_by_kind() {
    let quiet = RuleMatches {
        ignored: false,
        fully_ignored: false,
        no_includes: false,
        included: false,
        may_contain_include: true,
    };
    assert!(quiet.decide(PathKind::Directory));
    assert!(!quiet.decide(PathKind::File));
    let fully = RuleMatches {
        fully_ignored: true,
        included: true,
        ..quiet
    };
    assert!(!fully.decide(PathKind::Directory));
    assert!(fully.decide(PathKind::File));
    let ignored = RuleMatches {
        ignored: true,
        no_includes: true,
        ..quiet
    };
    assert!(!ignored.decide(PathKind::Directory));
    assert!(!ignored.decide(PathKind::File));
    let open = RuleMatches {
        no_includes: true,
        may_contain_include: false,
        ..quiet
    };
    assert!(open.decide(PathKind::File));
}

#[test]
fn watch_specification_makes_a_filter() {
    let watch = WatchSpec {
        roots: vec![path("/repo/src")],
        includes: globs(&["**/*.rs"]),
        ignores: globs(&["**/gen.rs"]),
        include_patterns: vec!["**/*.rs".to_owned()],
        ignore_patterns: vec!["**/gen.rs".to_owned()],
        debounce: Duration::from_millis(150),
    };
    let files = vec![ignore_file("/repo", &["skip.rs"])];
    let with = PathFilter::from_watch_spec(path("/repo"), &watch, true, &vec![true]).unwrap();
    let without = PathFilter::from_watch_spec(path("/repo"), &watch, false, &vec![true]).unwrap();

    assert!(with.accepts(&path("/repo/src/a.rs"), PathKind::File, &files));
    assert!(!with.accepts(&path("/repo/a.rs"), PathKind::File, &files));
    assert!(!with.accepts(&path("/repo/src/gen.rs"), PathKind::File, &files));
    assert!(!with.accepts(&path("/repo/src/skip.rs"), PathKind::File, &files));
    assert!(without.accepts(&path("/repo/src/skip.rs"), PathKind::File, &files));
}

#[test]
fn odd_names_are_matched_by_their_bytes() {
    let filter = filter(&["*.rs"], &[]);
    let odd = FilePath::from_bytes(b"/repo/\xff.rs");
    let other = FilePath::from_bytes(b"/repo/\xff.c");
    assert!(filter.accepts(&odd, PathKind::File, &Vec::new()));
    assert!(!filter.accepts(&other, PathKind::File, &Vec::new()));
    // As a directory the name counts as text with replacement characters.
    assert!(pattern_may_match_below(
        "\u{fffd}/*.rs",
        &FilePath::from_bytes(b"\xff")
    ));
}
