use notify::event::{AccessKind, CreateKind, Flag, ModifyKind, RemoveKind};
use notify::{Event, EventKind};
use stalker::path::FilePath;
use stalker::watcher::{
    deduplicate_roots, deliver, named_paths, normalize_notify_result, normalize_report, read_report,
    registration_root, ChangeKind, Delivery, Receipt, Report, WatchEvent, WatcherError,
};
use std::path::PathBuf;

fn path(text: &str) -> FilePath {
    FilePath::from_bytes(text.as_bytes())
}

#[test]
fn rescan_events_become_overflow_events() {
    let event = Event::new(EventKind::Other)
        .add_path(PathBuf::from("src"))
        .set_flag(Flag::Rescan);

    assert_eq!(
        normalize_notify_result(Ok(event), &vec![false]).unwrap(),
        WatchEvent {
            paths: vec![path("src")],
            is_directory: true,
            is_broad: true,
            is_overflow: true,
        }
    );
}

#[test]
fn notify_errors_become_overflow_events() {
    let event =
        normalize_notify_result(Err(notify::Error::generic("dropped events")), &vec![]).unwrap();

    assert!(event.is_overflow);
    assert!(event.is_broad);
    assert!(event.paths.is_empty());
}

#[test]
fn folder_events_are_directories_even_after_removal() {
    let event = Event::new(EventKind::Remove(notify::event::RemoveKind::Folder))
        .add_path(PathBuf::from("removed"));

    assert!(
        normalize_notify_result(Ok(event), &vec![false])
            .unwrap()
            .is_directory
    );
}

#[test]
fn broad_events_preserve_their_path() {
    let event = Event::new(EventKind::Any).add_path(PathBuf::from("src/./nested/../module"));
    let normalized = normalize_notify_result(Ok(event), &vec![false]).unwrap();

    assert_eq!(normalized.paths, vec![path("src/module")]);
    assert!(normalized.is_broad);
}

#[test]
fn access_events_are_dropped() {
    let event = Event::new(EventKind::Access(notify::event::AccessKind::Any))
        .add_path(PathBuf::from("opened.rs"));

    assert_eq!(normalize_notify_result(Ok(event), &vec![false]), None);
}

#[test]
fn canonicalize_roots_deduplicates_equivalent_paths() {
    let roots = deduplicate_roots(vec![
        path("/b"),
        path("/a"),
        path("/b/."),
        path("/a/"),
        path("/c"),
    ]);
    assert_eq!(roots, vec![path("/b"), path("/a"), path("/c")]);
}

#[test]
fn reports_say_what_notifications_say() {
    for (kind, change) in [
        (EventKind::Any, ChangeKind::Any),
        (EventKind::Access(AccessKind::Read), ChangeKind::Access),
        (
            EventKind::Create(CreateKind::Folder),
            ChangeKind::CreateFolder,
        ),
        (EventKind::Create(CreateKind::File), ChangeKind::CreateFile),
        (EventKind::Create(CreateKind::Any), ChangeKind::CreateAny),
        (EventKind::Create(CreateKind::Other), ChangeKind::CreateOther),
        (EventKind::Modify(ModifyKind::Any), ChangeKind::Modify),
        (
            EventKind::Remove(RemoveKind::Folder),
            ChangeKind::RemoveFolder,
        ),
        (EventKind::Remove(RemoveKind::File), ChangeKind::RemoveFile),
        (EventKind::Remove(RemoveKind::Any), ChangeKind::RemoveAny),
        (EventKind::Remove(RemoveKind::Other), ChangeKind::RemoveOther),
        (EventKind::Other, ChangeKind::Other),
    ] {
        let report = read_report(&Event::new(kind).add_path(PathBuf::from("/a//b")));
        assert_eq!(report.change, change);
        assert_eq!(report.paths, vec![path("/a/b")]);
        assert!(!report.rescan);
    }
    assert!(read_report(&Event::new(EventKind::Any).set_flag(Flag::Rescan)).rescan);
}

#[test]
fn named_paths_are_normalized() {
    let event = Event::new(EventKind::Any)
        .add_path(PathBuf::from("/a/../../b"))
        .add_path(PathBuf::from("./c"));
    assert_eq!(named_paths(&Ok(event)), vec![path("/b"), path("c")]);
    assert!(named_paths(&Err(notify::Error::generic("lost"))).is_empty());
}

fn report(change: ChangeKind, paths: &[&str]) -> Report {
    Report {
        rescan: false,
        change,
        paths: paths.iter().map(|text| path(text)).collect(),
    }
}

#[test]
fn paths_on_disk_tell_directories() {
    let modified = report(ChangeKind::Modify, &["a", "b"]);
    assert_eq!(
        normalize_report(&modified, &vec![false, true]),
        Some(WatchEvent {
            paths: vec![path("a"), path("b")],
            is_directory: true,
            is_broad: false,
            is_overflow: false,
        })
    );
    let event = normalize_report(&modified, &vec![false, false]).unwrap();
    assert!(!event.is_directory);
    assert!(!event.is_broad);
    let created = report(ChangeKind::CreateFolder, &["new"]);
    assert!(normalize_report(&created, &vec![false]).unwrap().is_directory);
    for change in [
        ChangeKind::RemoveAny,
        ChangeKind::RemoveOther,
        ChangeKind::CreateAny,
        ChangeKind::CreateOther,
    ] {
        let unknown = report(change, &["x"]);
        assert!(!normalize_report(&unknown, &vec![false]).unwrap().is_directory);
        assert!(normalize_report(&unknown, &vec![true]).unwrap().is_directory);
    }
}

#[test]
fn known_kinds_take_precedence_over_the_disk() {
    for on_disk in [false, true] {
        for change in [ChangeKind::CreateFolder, ChangeKind::RemoveFolder] {
            let event = normalize_report(&report(change, &["x"]), &vec![on_disk]).unwrap();
            assert!(event.is_directory);
        }
        for change in [ChangeKind::CreateFile, ChangeKind::RemoveFile] {
            let event = normalize_report(&report(change, &["x"]), &vec![on_disk]).unwrap();
            assert!(!event.is_directory);
        }
    }
}

#[test]
fn events_without_paths_are_broad() {
    assert!(
        normalize_report(&report(ChangeKind::Modify, &[]), &vec![])
            .unwrap()
            .is_broad
    );
    assert!(
        normalize_report(&report(ChangeKind::Other, &["x"]), &vec![false])
            .unwrap()
            .is_broad
    );
}

#[test]
fn missed_events_outweigh_access() {
    let missed = Report {
        rescan: true,
        ..report(ChangeKind::Access, &["a/.."])
    };
    assert_eq!(
        normalize_report(&missed, &vec![false]),
        Some(WatchEvent::overflow(vec![path("")]))
    );
    assert_eq!(
        normalize_report(&report(ChangeKind::Access, &["a"]), &vec![true]),
        None
    );
}

#[test]
fn files_are_watched_through_their_directory() {
    assert_eq!(
        registration_root(&path("/repo/tsconfig.json"), true).unwrap(),
        path("/repo")
    );
    assert_eq!(
        registration_root(&path("/repo/src"), false).unwrap(),
        path("/repo/src")
    );
    assert_eq!(
        registration_root(&path("/"), true).unwrap_err().message(),
        "could not find watch file parent: watch file has no parent directory"
    );
}

#[test]
fn watcher_errors_tell_what_failed() {
    let error = WatcherError::new("watch configured path", "no such file".to_owned());
    assert_eq!(
        error.message(),
        "could not watch configured path: no such file"
    );
}

#[test]
fn dropped_notifications_are_passed_over() {
    assert!(matches!(deliver(Receipt::Notice(None)), Delivery::Again));
    assert!(matches!(deliver(Receipt::Empty), Delivery::Nothing));
    let event = WatchEvent::overflow(Vec::new());
    match deliver(Receipt::Notice(Some(event.clone()))) {
        Delivery::Event(delivered) => assert_eq!(delivered, event),
        other => panic!("{other:?}"),
    }
    match deliver(Receipt::Disconnected("channel closed".to_owned())) {
        Delivery::Failed(error) => assert_eq!(
            error.message(),
            "could not receive filesystem events: channel closed"
        ),
        other => panic!("{other:?}"),
    }
}

#[test]
fn normalizing_paths_twice_changes_nothing() {
    let once = normalize_report(
        &report(ChangeKind::Modify, &["/../a/./b/..", "../x", "."]),
        &vec![],
    )
    .unwrap();
    assert_eq!(once.paths, vec![path("/a"), path("x"), path("")]);
    let again = Report {
        rescan: false,
        change: ChangeKind::Modify,
        paths: once.paths.clone(),
    };
    assert_eq!(normalize_report(&again, &vec![]).unwrap(), once);
}
