use stalker::runner::{
    read_event, run_event, signal_process, status_to_run_status, ChildRunner, ChildStreams,
    ExitReport, SignalRequest, Worker, WorkerAction, WorkerEvent, SIGINT, SIGKILL, SIGTERM,
};
use stalker::{CommandId, OutputStream, RunEventKind, RunStatus, RunTrigger};
use std::time::SystemTime;

fn id() -> CommandId {
    CommandId("test".to_owned())
}

fn exit(code: i32) -> Option<ExitReport> {
    Some(ExitReport {
        signal: None,
        code: Some(code),
    })
}

fn killed(signal: i32) -> Option<ExitReport> {
    Some(ExitReport {
        signal: Some(signal),
        code: None,
    })
}

/// Takes a run up to its process, and gives its worker.
fn running(runner: &mut ChildRunner, pid: u32, trigger: RunTrigger) -> Worker {
    assert!(runner.start(&id()));
    let mut worker = Worker::new(&id(), trigger);
    assert!(matches!(
        worker.step(runner, WorkerEvent::Begin),
        WorkerAction::Spawn(ChildStreams::Captured)
    ));
    match worker.step(runner, WorkerEvent::Spawned(pid)) {
        WorkerAction::Watch(launch) => {
            assert_eq!(launch.event, RunEventKind::Started { trigger });
            assert_eq!(launch.signal, None);
            assert_eq!(launch.streams, ChildStreams::Captured);
        }
        other => panic!("{other:?}"),
    }
    worker
}

fn complete(runner: &mut ChildRunner, worker: &mut Worker, event: WorkerEvent) -> RunEventKind {
    match worker.step(runner, event) {
        WorkerAction::Complete(kind) => kind,
        other => panic!("{other:?}"),
    }
}

#[test]
fn emits_started_output_and_finished() {
    let mut runner = ChildRunner::new(false);
    let mut worker = running(&mut runner, 4711, RunTrigger::Initial);
    let mut buffer = [0; 8 * 1024];
    buffer[..5].copy_from_slice(b"hello");
    let output = read_event(OutputStream::Stdout, &buffer, Some(5)).unwrap();
    assert!(matches!(output, RunEventKind::Output { ref bytes, .. } if bytes == b"hello"));
    assert!(runner.is_active());
    assert_eq!(
        complete(&mut runner, &mut worker, WorkerEvent::Exited(exit(0))),
        RunEventKind::Finished {
            status: RunStatus::ExitCode(0)
        }
    );
    assert!(!runner.is_active());
}

#[test]
fn shutdown_terminates_the_active_process_group() {
    let mut runner = ChildRunner::new(false);
    let mut worker = running(&mut runner, 4711, RunTrigger::Filesystem);
    assert_eq!(
        runner.shutdown(),
        vec![SignalRequest {
            target: -4711,
            signal: SIGTERM
        }]
    );
    assert_eq!(
        complete(&mut runner, &mut worker, WorkerEvent::Exited(killed(15))),
        RunEventKind::Finished {
            status: RunStatus::Signal("SIGTERM".to_owned())
        }
    );
}

#[test]
fn forced_shutdown_kills_a_term_ignoring_child_group() {
    let mut runner = ChildRunner::new(false);
    let mut worker = running(&mut runner, 10, RunTrigger::Initial);
    runner.shutdown();
    assert_eq!(
        runner.force_shutdown(),
        vec![SignalRequest {
            target: -10,
            signal: SIGKILL
        }]
    );
    assert_eq!(
        complete(&mut runner, &mut worker, WorkerEvent::Exited(killed(9))),
        RunEventKind::Finished {
            status: RunStatus::Signal("SIGKILL".to_owned())
        }
    );
    assert!(runner.force_shutdown().is_empty());
}

#[test]
fn reports_spawn_failure() {
    let mut runner = ChildRunner::new(false);
    assert!(runner.start(&id()));
    let mut worker = Worker::new(&id(), RunTrigger::Filesystem);
    worker.step(&mut runner, WorkerEvent::Begin);
    assert!(runner.shutdown().is_empty());
    let event = complete(
        &mut runner,
        &mut worker,
        WorkerEvent::SpawnFailed("no such file".to_owned()),
    );
    assert_eq!(
        event,
        RunEventKind::SpawnFailed {
            message: "no such file".to_owned()
        }
    );
    assert!(!runner.is_active());
}

#[test]
fn stopping_runners_start_nothing() {
    let mut runner = ChildRunner::new(false);
    runner.shutdown();
    assert!(!runner.start(&id()));
    assert!(!runner.is_active());
}

#[test]
fn workers_that_begin_too_late_leave() {
    let mut runner = ChildRunner::new(true);
    assert!(runner.start(&id()));
    let mut worker = Worker::new(&id(), RunTrigger::Initial);
    assert!(runner.is_active());
    runner.shutdown();
    assert!(matches!(
        worker.step(&mut runner, WorkerEvent::Begin),
        WorkerAction::Stop
    ));
    assert!(!runner.is_active());
}

#[test]
fn processes_that_come_too_late_are_stopped() {
    let mut runner = ChildRunner::new(true);
    assert!(runner.start(&id()));
    let mut worker = Worker::new(&id(), RunTrigger::Initial);
    assert!(matches!(
        worker.step(&mut runner, WorkerEvent::Begin),
        WorkerAction::Spawn(ChildStreams::Inherited)
    ));
    assert!(runner.shutdown().is_empty());
    match worker.step(&mut runner, WorkerEvent::Spawned(7)) {
        WorkerAction::Watch(launch) => {
            assert_eq!(
                launch.signal,
                Some(SignalRequest {
                    target: -7,
                    signal: SIGTERM
                })
            );
            assert_eq!(launch.streams, ChildStreams::Inherited);
        }
        other => panic!("{other:?}"),
    }
    assert_eq!(runner.force_shutdown().len(), 1);
}

#[test]
fn runs_complete_only_once() {
    let mut runner = ChildRunner::new(false);
    let mut worker = running(&mut runner, 3, RunTrigger::Initial);
    complete(&mut runner, &mut worker, WorkerEvent::Exited(exit(1)));
    assert!(matches!(
        worker.step(&mut runner, WorkerEvent::Exited(exit(1))),
        WorkerAction::Stop
    ));
}

#[test]
fn commands_keep_slots_of_their_own() {
    let mut runner = ChildRunner::new(false);
    let other = CommandId("other".to_owned());
    let mut worker = running(&mut runner, 3, RunTrigger::Initial);
    assert!(runner.start(&other));
    runner.spawned(&other, 4, RunTrigger::Initial);
    let mut targets: Vec<i32> = runner
        .force_shutdown()
        .iter()
        .map(|request| request.target)
        .collect();
    targets.sort();
    assert_eq!(targets, vec![-4, -3]);
    complete(&mut runner, &mut worker, WorkerEvent::Exited(exit(0)));
    assert!(runner.is_active());
    runner.finished(&other, exit(0));
    assert!(!runner.is_active());
}

#[test]
fn exits_are_told_by_signal_or_code() {
    assert_eq!(status_to_run_status(exit(7)), RunStatus::ExitCode(7));
    for (signal, name) in [
        (SIGINT, "SIGINT"),
        (SIGTERM, "SIGTERM"),
        (SIGKILL, "SIGKILL"),
        (11, "SIGNAL"),
    ] {
        assert_eq!(
            status_to_run_status(killed(signal)),
            RunStatus::Signal(name.to_owned())
        );
    }
    let neither = ExitReport {
        signal: None,
        code: None,
    };
    assert_eq!(status_to_run_status(Some(neither)), RunStatus::ExitCode(-1));
    assert_eq!(
        status_to_run_status(None),
        RunStatus::Signal("UNKNOWN".to_owned())
    );
}

#[test]
fn streams_end_at_nothing_or_failure() {
    assert_eq!(read_event(OutputStream::Stderr, b"xyz", Some(0)), None);
    assert_eq!(read_event(OutputStream::Stderr, b"xyz", None), None);
    assert_eq!(
        read_event(OutputStream::Stderr, b"xyz", Some(2)),
        Some(RunEventKind::Output {
            stream: OutputStream::Stderr,
            bytes: b"xy".to_vec()
        })
    );
}

#[test]
fn groups_are_named_by_negative_numbers() {
    for (pid, target) in [
        (1u32, -1),
        (0x7fff_ffff, -0x7fff_ffff),
        (0x8000_0000, i32::MIN),
        (0xffff_ffff, 1),
        (0, 0),
    ] {
        assert_eq!(signal_process(pid, SIGTERM).target, target);
        assert_eq!(signal_process(pid, SIGTERM).target, -(pid as i64) as i32);
    }
}

#[test]
fn events_carry_command_and_run() {
    let event = run_event(
        &id(),
        9,
        RunEventKind::Started {
            trigger: RunTrigger::Initial,
        },
        SystemTime::UNIX_EPOCH,
    );
    assert_eq!(event.command_id, id());
    assert_eq!(event.run_id, 9);
    assert_eq!(event.timestamp, SystemTime::UNIX_EPOCH);
}
