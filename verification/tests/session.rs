use stalker::config::{Cli, Config};
use stalker::filter::PathFilter;
use stalker::globs::GlobPattern;
use stalker::path::FilePath;
use stalker::runner::{
    read_event, ChildRunner, ChildStreams, ExitReport, Worker, WorkerAction, WorkerEvent,
};
use stalker::scheduler::ScheduledRun;
use stalker::session::{describe_event, event_is_relevant, Session, Step};
use stalker::time::{Duration, Instant};
use stalker::watcher::WatchEvent;
use stalker::{
    CommandId, OutputStream, RunEvent, RunEventKind, RunStatus, RunTrigger,
};
use std::time::SystemTime;

fn path(text: &str) -> FilePath {
    FilePath::from_bytes(text.as_bytes())
}

fn at(millis: u64) -> Instant {
    Instant::origin().after(Duration::from_millis(millis))
}

fn cli() -> Cli {
    Cli {
        includes: Vec::new(),
        ignores: Vec::new(),
        debounce: Duration::from_millis(20),
        no_initial_run: false,
        markers: true,
        print_events: false,
        no_gitignore: false,
        until_success: true,
        raw_output: false,
        command: vec![b"sh".to_vec()],
    }
}

fn session(cli: Cli) -> Session {
    Session::new(&Config::from_cli(cli, path("/work"), vec![path("/work/watched")]).unwrap())
}

fn everything() -> PathFilter {
    PathFilter::new(path("/work"), &Vec::new(), &Vec::new()).unwrap()
}

fn change(name: &str) -> WatchEvent {
    WatchEvent {
        paths: vec![path(name)],
        is_directory: false,
        is_broad: false,
        is_overflow: false,
    }
}

fn event(run_id: u64, kind: RunEventKind) -> RunEvent {
    RunEvent {
        command_id: CommandId("default".to_owned()),
        run_id,
        kind,
        timestamp: SystemTime::UNIX_EPOCH,
    }
}

fn started(session: &mut Session, run: ScheduledRun, now: Instant) {
    session.handle_run_event(
        &event(
            run.id,
            RunEventKind::Started {
                trigger: run.trigger,
            },
        ),
        now,
    );
}

fn finished(session: &mut Session, run: ScheduledRun, status: RunStatus, now: Instant) {
    session.handle_run_event(&event(run.id, RunEventKind::Finished { status }), now);
}

fn due(session: &mut Session, now: Instant) -> Option<ScheduledRun> {
    assert!(session.can_go_on(false, now));
    match session.poll(false, false, now) {
        Step::Watch { run } => run,
        other => panic!("{other:?}"),
    }
}

fn output(session: &mut Session) -> String {
    String::from_utf8(session.take_pending().0).unwrap()
}

#[test]
fn empty_broad_event_schedules_conservatively() {
    let filter = PathFilter::new(
        path("/repo"),
        &vec![GlobPattern::new("src/**/*.rs").unwrap()],
        &Vec::new(),
    )
    .unwrap();
    let event = WatchEvent {
        paths: Vec::new(),
        is_directory: true,
        is_broad: true,
        is_overflow: false,
    };

    assert!(event_is_relevant(&event, &filter, &Vec::new()));
}

#[test]
fn initial_success_exits_and_preserves_output_in_each_mode() {
    for (markers, raw_output) in [(false, false), (true, false), (false, true)] {
        let cli = Cli {
            markers,
            raw_output,
            ..cli()
        };
        let config = Config::from_cli(cli, path("/work"), Vec::new()).unwrap();
        let mut runner = ChildRunner::new(config.raw_output);
        let mut session = Session::new(&config);
        let id = CommandId("default".to_owned());
        // What reaches standard output: through the session, or from the child
        // itself where its streams are Stalker's own.
        let mut stdout = Vec::new();

        let run = due(&mut session, at(0)).unwrap();
        assert!(runner.start(&id));
        let mut worker = Worker::new(&id, run.trigger);
        worker.step(&mut runner, WorkerEvent::Begin);
        let launch = match worker.step(&mut runner, WorkerEvent::Spawned(7)) {
            WorkerAction::Watch(launch) => launch,
            other => panic!("{other:?}"),
        };
        session.handle_run_event(&event(run.id, launch.event), at(1));
        stdout.append(&mut session.take_pending().0);
        match launch.streams {
            ChildStreams::Inherited => stdout.extend_from_slice(b"hello"),
            ChildStreams::Captured => {
                let kind = read_event(OutputStream::Stdout, b"hello", Some(5)).unwrap();
                session.handle_run_event(&event(run.id, kind), at(2));
            }
        }
        let exit = ExitReport {
            signal: None,
            code: Some(0),
        };
        match worker.step(&mut runner, WorkerEvent::Exited(Some(exit))) {
            WorkerAction::Complete(kind) => {
                session.handle_run_event(&event(run.id, kind), at(3));
            }
            other => panic!("{other:?}"),
        }
        assert_eq!(
            session.poll(false, runner.is_active(), at(4)),
            Step::Shutdown
        );
        assert_eq!(session.poll(false, runner.is_active(), at(5)), Step::Exit);
        let (mut output, diagnostics) = session.take_pending();
        stdout.append(&mut output);
        if markers {
            assert_eq!(
                String::from_utf8(stdout).unwrap(),
                "@@stalker:start command=default run=1 trigger=initial@@\n\
                 hello\n@@stalker:end command=default run=1 exit=0@@\n"
            );
        } else {
            assert_eq!(stdout, b"hello");
        }
        assert_eq!(
            launch.streams == ChildStreams::Inherited,
            raw_output
        );
        assert!(diagnostics.is_empty());
    }
}

#[test]
fn failed_runs_wait_for_changes_then_exit_on_success() {
    for (failure, marker) in [
        (RunStatus::ExitCode(7), "run=1 exit=7@@"),
        (
            RunStatus::Signal("SIGTERM".to_owned()),
            "run=1 signal=SIGTERM@@",
        ),
    ] {
        let mut session = session(cli());
        let run = due(&mut session, at(0)).unwrap();
        started(&mut session, run, at(0));
        finished(&mut session, run, failure, at(10));
        let before = output(&mut session);
        assert!(before.contains(marker));
        assert_eq!(due(&mut session, at(110)), None);
        assert_eq!(before.matches("@@stalker:start").count(), 1);

        session.watch_event(&change("/work/watched/input"), &everything(), &Vec::new(), at(200));
        assert_eq!(due(&mut session, at(219)), None);
        let run = due(&mut session, at(220)).unwrap();
        started(&mut session, run, at(221));
        finished(&mut session, run, RunStatus::ExitCode(0), at(230));
        let text = output(&mut session);
        assert!(text.contains("run=2 trigger=filesystem@@"));
        assert!(text.ends_with("run=2 exit=0@@\n"));
        assert_eq!((before + &text).matches("@@stalker:start").count(), 2);
        assert_eq!(session.poll(false, false, at(231)), Step::Shutdown);
    }
}

#[test]
fn no_initial_run_waits_for_a_change_before_succeeding() {
    let mut session = session(Cli {
        no_initial_run: true,
        ..cli()
    });
    assert_eq!(due(&mut session, at(150)), None);
    assert!(output(&mut session).is_empty());
    session.watch_event(&change("/work/watched/input"), &everything(), &Vec::new(), at(160));
    let run = due(&mut session, at(180)).unwrap();
    started(&mut session, run, at(181));
    finished(&mut session, run, RunStatus::ExitCode(0), at(190));
    let text = output(&mut session);
    assert!(text.contains("run=1 trigger=filesystem@@"));
    assert!(text.ends_with("run=1 exit=0@@\n"));
    assert_eq!(text.matches("@@stalker:start").count(), 1);
    assert_eq!(session.poll(false, false, at(191)), Step::Shutdown);
}

#[test]
fn success_discards_a_queued_rerun() {
    let mut session = session(Cli {
        print_events: true,
        ..cli()
    });
    let run = due(&mut session, at(0)).unwrap();
    started(&mut session, run, at(1));
    let report = session.watch_event(
        &change("/work/watched/input"),
        &everything(),
        &Vec::new(),
        at(5),
    );
    assert!(report.unwrap().contains("accepted filesystem event"));
    session.handle_run_event(
        &event(
            run.id,
            RunEventKind::Output {
                stream: OutputStream::Stdout,
                bytes: b"done".to_vec(),
            },
        ),
        at(8),
    );
    finished(&mut session, run, RunStatus::ExitCode(0), at(10));
    assert_eq!(session.poll(false, true, at(11)), Step::Shutdown);
    assert_eq!(session.poll(false, false, at(12)), Step::Exit);
    assert_eq!(session.poll(false, false, at(13)), Step::Exit);
    let text = output(&mut session);
    assert_eq!(text.matches("@@stalker:start").count(), 1);
    assert!(text.ends_with("done\n@@stalker:end command=default run=1 exit=0@@\n"));
}

#[test]
fn spawn_failure_keeps_watching_until_the_command_is_available() {
    let mut session = session(cli());
    let run = due(&mut session, at(0)).unwrap();
    session.handle_run_event(
        &event(
            run.id,
            RunEventKind::SpawnFailed {
                message: "no such file".to_owned(),
            },
        ),
        at(1),
    );
    let (_, diagnostics) = session.take_pending();
    assert!(String::from_utf8(diagnostics)
        .unwrap()
        .contains("failed to spawn"));
    assert_eq!(due(&mut session, at(2)), None);
    session.watch_event(&change("/work/watched/input"), &everything(), &Vec::new(), at(10));
    let run = due(&mut session, at(30)).unwrap();
    assert_eq!(run.id, 2);
    started(&mut session, run, at(31));
    session.handle_run_event(
        &event(
            run.id,
            RunEventKind::Output {
                stream: OutputStream::Stdout,
                bytes: b"recovered".to_vec(),
            },
        ),
        at(35),
    );
    finished(&mut session, run, RunStatus::ExitCode(0), at(40));
    let text = output(&mut session);
    assert!(text.contains("recovered\n"));
    assert!(text.ends_with("run=2 exit=0@@\n"));
    assert_eq!(session.poll(false, false, at(41)), Step::Shutdown);
}

#[test]
fn success_without_the_flag_keeps_watching() {
    let mut session = session(Cli {
        until_success: false,
        ..cli()
    });
    let run = due(&mut session, at(0)).unwrap();
    finished(&mut session, run, RunStatus::ExitCode(0), at(5));
    assert_eq!(due(&mut session, at(6)), None);
    session.watch_event(&change("/work/watched/input"), &everything(), &Vec::new(), at(10));
    let run = due(&mut session, at(30)).unwrap();
    assert_eq!(
        run,
        ScheduledRun {
            id: 2,
            trigger: RunTrigger::Filesystem
        }
    );
    finished(&mut session, run, RunStatus::ExitCode(0), at(35));
    assert_eq!(due(&mut session, at(36)), None);
}

#[test]
fn children_have_a_grace_period() {
    let mut session = session(cli());
    assert!(due(&mut session, at(0)).is_some());
    assert_eq!(session.poll(true, true, at(100)), Step::Shutdown);
    let wait = Step::Wait {
        span: Duration::from_millis(25),
    };
    assert_eq!(session.poll(true, true, at(101)), wait);
    assert_eq!(session.poll(true, true, at(599)), wait);
    assert_eq!(session.poll(true, true, at(600)), Step::ForceShutdown);
    assert_eq!(session.poll(true, true, at(5000)), wait);
    assert_eq!(session.poll(true, false, at(5001)), Step::Exit);
}

#[test]
fn children_that_stop_are_not_killed() {
    let mut session = session(cli());
    assert_eq!(session.poll(true, true, at(0)), Step::Shutdown);
    assert_eq!(session.poll(true, false, at(9000)), Step::Exit);
}

#[test]
fn waits_end_at_the_next_deadline() {
    let mut session = session(Cli {
        no_initial_run: true,
        ..cli()
    });
    assert_eq!(session.wait(at(0)), Duration::from_millis(25));
    assert!(session.can_change(at(100)));
    session.watch_event(&change("/work/x"), &everything(), &Vec::new(), at(100));
    assert_eq!(session.wait(at(100)), Duration::from_millis(20));
    assert_eq!(session.wait(at(113)), Duration::from_millis(7));
    assert_eq!(session.wait(at(120)), Duration::from_millis(0));
    assert_eq!(session.wait(at(500)), Duration::from_millis(0));
}

#[test]
fn irrelevant_events_change_nothing() {
    let filter = PathFilter::new(
        path("/work"),
        &vec![GlobPattern::new("*.rs").unwrap()],
        &Vec::new(),
    )
    .unwrap();
    let mut session = session(Cli {
        no_initial_run: true,
        print_events: true,
        ..cli()
    });
    let report = session.watch_event(&change("/work/a.c"), &filter, &Vec::new(), at(1));
    assert_eq!(report, None);
    assert_eq!(due(&mut session, at(1000)), None);
    let report = session.watch_event(&change("/work/a.rs"), &filter, &Vec::new(), at(1001));
    assert_eq!(
        report.unwrap(),
        "stalker: accepted filesystem event /work/a.rs\n"
    );
    assert!(due(&mut session, at(1021)).is_some());
}

#[test]
fn broad_and_directory_events_count_for_what_lies_below() {
    let filter = PathFilter::new(
        path("/work"),
        &vec![GlobPattern::new("src/*.rs").unwrap()],
        &Vec::new(),
    )
    .unwrap();
    let files = Vec::new();
    let plain = change("/work/src");
    assert!(!event_is_relevant(&plain, &filter, &files));
    let directory = WatchEvent {
        is_directory: true,
        ..plain.clone()
    };
    assert!(event_is_relevant(&directory, &filter, &files));
    let broad = WatchEvent {
        is_broad: true,
        ..plain.clone()
    };
    assert!(event_is_relevant(&broad, &filter, &files));
    let overflow = WatchEvent {
        is_overflow: true,
        ..plain
    };
    assert!(event_is_relevant(&overflow, &filter, &files));
}

#[test]
fn accepted_events_are_described() {
    let two = WatchEvent {
        paths: vec![path("/a"), FilePath::from_bytes(b"/\xff")],
        is_directory: false,
        is_broad: true,
        is_overflow: false,
    };
    assert_eq!(
        describe_event(&two),
        "stalker: accepted filesystem event /a\n\
         stalker: accepted filesystem event /\u{fffd}\n"
    );
    let broad = WatchEvent {
        paths: Vec::new(),
        ..two
    };
    assert_eq!(
        describe_event(&broad),
        "stalker: accepted broad filesystem event\n"
    );
    assert_eq!(
        describe_event(&WatchEvent::overflow(vec![path("/a")])),
        "stalker: accepted filesystem overflow/rescan\n"
    );
}

#[test]
fn only_what_is_needed_bounds_the_clock() {
    let last = Instant { nanos: u128::MAX };
    let mut watching = session(cli());
    // There is no room for a grace period, but none is needed to start a run.
    assert!(!watching.can_go_on(true, last));
    assert!(watching.can_go_on(false, last));
    assert!(due(&mut watching, last).is_some());

    let mut stopping = session(Cli {
        no_initial_run: true,
        ..cli()
    });
    assert_eq!(stopping.poll(true, true, at(0)), Step::Shutdown);
    assert!(stopping.can_go_on(true, last));
    assert_eq!(stopping.poll(true, true, last), Step::ForceShutdown);

    // An event that does not count needs no deadline.
    let filter = PathFilter::new(
        path("/work"),
        &vec![GlobPattern::new("*.rs").unwrap()],
        &Vec::new(),
    )
    .unwrap();
    let mut idle = session(Cli {
        no_initial_run: true,
        ..cli()
    });
    assert!(!idle.can_change(last));
    assert_eq!(
        idle.watch_event(&change("/work/a.c"), &filter, &Vec::new(), last),
        None
    );
}
