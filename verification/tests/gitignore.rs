use ignore::gitignore::GitignoreBuilder;
use stalker::gitignore::{settle, GitignoreRules, IgnoreFile, Verdict};
use stalker::path::FilePath;

fn path(text: &str) -> FilePath {
    FilePath::from_bytes(text.as_bytes())
}

fn ignore_file(directory: &str, rules: &[&str]) -> IgnoreFile {
    let mut builder = GitignoreBuilder::new(directory);
    for rule in rules {
        builder.add_line(None, rule).unwrap();
    }
    IgnoreFile {
        directory: path(directory),
        matcher: builder.build().unwrap(),
    }
}

fn rules() -> GitignoreRules {
    GitignoreRules::discover(&path("/repo"), &vec![true]).unwrap()
}

#[test]
fn the_nearest_verdict_wins_on_each_level() {
    assert!(settle(&vec![vec![Verdict::Kept, Verdict::Ignored, Verdict::Undecided]]));
    assert!(!settle(&vec![vec![Verdict::Ignored, Verdict::Kept, Verdict::Undecided]]));
    assert!(!settle(&vec![vec![Verdict::Undecided], vec![Verdict::Undecided, Verdict::Undecided]]));
    assert!(!settle(&vec![vec![], vec![]]));
    assert!(!settle(&vec![]));
}

#[test]
fn an_ignored_level_is_final() {
    assert!(settle(&vec![vec![Verdict::Ignored], vec![Verdict::Undecided, Verdict::Kept]]));
    assert!(settle(&vec![vec![Verdict::Undecided], vec![Verdict::Ignored, Verdict::Undecided], vec![Verdict::Kept]]));
    assert!(!settle(&vec![vec![Verdict::Ignored, Verdict::Kept], vec![Verdict::Undecided]]));
}

#[test]
fn files_judge_what_lies_below_them() {
    let files = vec![
        ignore_file("/repo", &["target/", "*.log", "!keep.log"]),
        ignore_file("/repo/src", &["!a.log"]),
    ];
    let verdicts = |text: &str, is_directory| rules().verdicts(&path(text), is_directory, &files);
    assert_eq!(verdicts("/repo/a.log", false), vec![Verdict::Ignored]);
    assert_eq!(verdicts("/repo/keep.log", false), vec![Verdict::Kept]);
    assert_eq!(verdicts("/repo/main.rs", false), vec![Verdict::Undecided]);
    assert_eq!(verdicts("/repo/target", true), vec![Verdict::Ignored]);
    assert_eq!(verdicts("/repo/target", false), vec![Verdict::Undecided]);
    assert_eq!(
        verdicts("/repo/src/a.log", false),
        vec![Verdict::Ignored, Verdict::Kept]
    );
    assert!(verdicts("/repo", true).is_empty());
}

#[test]
fn nearer_rules_take_precedence_for_directories() {
    let files = vec![
        ignore_file("/repo", &["logs/"]),
        ignore_file("/repo/a", &["!logs/"]),
    ];
    assert!(!rules().is_ignored(&path("/repo/a/logs/x.log"), false, &files));
    assert!(!rules().is_ignored(&path("/repo/a/logs"), true, &files));
    assert!(rules().is_ignored(&path("/repo/b/logs/x.log"), false, &files));
    assert!(!rules().is_ignored(&path("/repo/a/b/logs/c/x.log"), false, &files));
    assert!(rules().is_ignored(&path("/repo/b/logs/c/d"), true, &files));
}

#[test]
fn directories_above_the_file_do_not_count() {
    let files = vec![ignore_file("/repo/src", &["repo", "src"])];
    assert!(!rules().is_ignored(&path("/repo/src/main.rs"), false, &files));
    assert!(rules().is_ignored(&path("/repo/src/src/main.rs"), false, &files));
}

#[test]
fn names_that_are_not_text_are_matched_by_their_bytes() {
    let files = vec![ignore_file("/repo", &["?.txt"])];
    let odd = FilePath::from_bytes(b"/repo/\xff.txt");
    assert!(rules().is_ignored(&odd, false, &files));
    let longer = FilePath::from_bytes(b"/repo/\xff\xff.txt");
    assert!(!rules().is_ignored(&longer, false, &files));
}

#[test]
fn the_nearest_repository_is_found() {
    let cwd = path("/a/b/c");
    assert_eq!(
        GitignoreRules::candidates(&cwd),
        vec![path("/a/b/c"), path("/a/b"), path("/a"), path("/")]
    );
    let rules = GitignoreRules::discover(&cwd, &vec![false, true, true, false]).unwrap();
    assert_eq!(
        rules.gitignore_directories(&path("/a/b/c/d/e")),
        vec![path("/a/b"), path("/a/b/c"), path("/a/b/c/d")]
    );
    assert!(GitignoreRules::discover(&cwd, &vec![false, false, false, false]).is_none());
    assert!(GitignoreRules::discover(&cwd, &vec![]).is_none());
}

#[test]
fn nothing_outside_the_repository_is_ignored() {
    let rules = GitignoreRules::discover(&path("/repo"), &vec![true]).unwrap();
    let files = vec![ignore_file("/repo", &["*"])];
    assert!(rules.is_ignored(&path("/repo/x"), false, &files));
    assert!(!rules.is_ignored(&path("/other/x"), false, &files));
    assert!(!rules.is_ignored(&path("/repository/x"), false, &files));
    assert!(rules.is_ignored(&path("/repo/.git"), true, &Vec::new()));
    assert!(rules.is_ignored(&path("/repo/.git/objects/00"), false, &Vec::new()));
    assert!(!rules.is_ignored(&path("/repo/.github/x"), false, &Vec::new()));
}

#[test]
fn nested_files_cannot_keep_what_lies_below_an_ignored_directory() {
    let rules = GitignoreRules::discover(&path("/repo"), &vec![true]).unwrap();
    let files = vec![
        ignore_file("/repo", &["build/"]),
        ignore_file("/repo/build", &["!keep"]),
    ];
    assert!(rules.is_ignored(&path("/repo/build/keep"), false, &files));
}
