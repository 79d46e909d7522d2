use stalker::path::{FilePath, PathPart};

fn path(text: &str) -> FilePath {
    FilePath::from_bytes(text.as_bytes())
}

fn text(path: &FilePath) -> String {
    String::from_utf8(path.to_bytes()).unwrap()
}

#[test]
fn paths_are_read_by_their_components() {
    for (raw, shortest) in [
        ("", ""),
        ("/", "/"),
        ("//", "/"),
        (".", "."),
        ("./a", "./a"),
        ("a/./b", "a/b"),
        ("a//b/", "a/b"),
        ("/a/../b", "/a/../b"),
        ("../..", "../.."),
        ("/./a", "/a"),
        ("...", "..."),
        (".a", ".a"),
        ("a/..b", "a/..b"),
    ] {
        assert_eq!(text(&path(raw)), shortest, "{raw}");
        assert!(path(raw).same(&path(shortest)), "{raw}");
    }
}

#[test]
fn components_are_told_apart() {
    let parts = path("/a/..");
    assert_eq!(parts.len(), 3);
    assert_eq!(*parts.part(0), PathPart::RootDir);
    assert_eq!(*parts.part(1), PathPart::Normal(b"a".to_vec()));
    assert_eq!(*parts.part(2), PathPart::ParentDir);
    assert_eq!(*path("./a").part(0), PathPart::CurDir);
}

#[test]
fn prefixes_go_by_whole_components() {
    assert!(path("/repo/src/main.rs").starts_with(&path("/repo/src")));
    assert!(path("/repo").starts_with(&path("/repo/")));
    assert!(!path("/repository").starts_with(&path("/repo")));
    assert!(!path("repo/src").starts_with(&path("/repo")));
    assert_eq!(
        path("/repo/src/main.rs").strip_prefix(&path("/repo")),
        Some(path("src/main.rs"))
    );
    assert_eq!(path("/repo").strip_prefix(&path("/repo")), Some(path("")));
    assert_eq!(path("/other").strip_prefix(&path("/repo")), None);
}

#[test]
fn joining_prefers_absolute_paths() {
    assert_eq!(path("/repo").join(&path("src")), path("/repo/src"));
    assert_eq!(path("/repo").join(&path("./src")), path("/repo/src"));
    assert_eq!(path("/repo").join(&path("../src")), path("/repo/../src"));
    assert_eq!(path("/repo").join(&path("/etc")), path("/etc"));
    assert_eq!(path("").join(&path("./src")), path("./src"));
    assert!(path("/repo").is_absolute());
    assert!(!path("repo").is_absolute());
}

#[test]
fn parents_end_at_the_root() {
    assert_eq!(path("/a/b").parent(), Some(path("/a")));
    assert_eq!(path("/a").parent(), Some(path("/")));
    assert_eq!(path("/").parent(), None);
    assert_eq!(path("a").parent(), Some(path("")));
    assert_eq!(path("").parent(), None);
}

#[test]
fn popping_removes_one_component() {
    let mut popped = path("/a/b");
    assert!(popped.pop());
    assert_eq!(popped, path("/a"));
    assert!(popped.pop());
    assert!(!popped.pop());
    assert_eq!(popped, path("/"));
    popped.push(&PathPart::Normal(b"c".to_vec()));
    assert_eq!(text(&popped), "/c");
}

#[test]
fn names_need_not_be_text() {
    let raw = b"/tmp/\xff\xfe";
    let path = FilePath::from_bytes(raw);
    assert_eq!(path.len(), 3);
    assert_eq!(path.to_bytes(), raw);
}

#[test]
fn joining_and_stripping_undo_each_other() {
    let base = path("/repo");
    for rest in ["src/main.rs", "../x", ""] {
        let joined = base.join(&path(rest));
        assert_eq!(joined.strip_prefix(&base), Some(path(rest)));
        assert_eq!(base.join(&joined.strip_prefix(&base).unwrap()), joined);
    }
}
