use stalker::output::{OutputMode, OutputRenderer};
use stalker::{CommandId, OutputStream, RunEvent, RunEventKind, RunStatus, RunTrigger};
use std::time::SystemTime;

fn event(run_id: u64, kind: RunEventKind) -> RunEvent {
    RunEvent {
        command_id: CommandId("default".into()),
        run_id,
        kind,
        timestamp: SystemTime::UNIX_EPOCH,
    }
}

fn started(run_id: u64, trigger: RunTrigger) -> RunEvent {
    event(run_id, RunEventKind::Started { trigger })
}

fn output(run_id: u64, stream: OutputStream, bytes: &[u8]) -> RunEvent {
    event(
        run_id,
        RunEventKind::Output {
            stream,
            bytes: bytes.to_vec(),
        },
    )
}

fn finished(run_id: u64, status: RunStatus) -> RunEvent {
    event(run_id, RunEventKind::Finished { status })
}

fn render(mode: OutputMode, events: Vec<RunEvent>) -> (Vec<u8>, Vec<u8>) {
    let mut renderer = OutputRenderer::new(mode, Vec::new(), Vec::new());
    for event in &events {
        renderer.render(event);
    }
    renderer.into_inner()
}

#[test]
fn passthrough_preserves_received_stream_order_without_markers() {
    let (output, diagnostics) = render(
        OutputMode::Passthrough,
        vec![
            event(
                1,
                RunEventKind::Started {
                    trigger: RunTrigger::Initial,
                },
            ),
            event(
                1,
                RunEventKind::Output {
                    stream: OutputStream::Stderr,
                    bytes: b"err ".to_vec(),
                },
            ),
            event(
                1,
                RunEventKind::Output {
                    stream: OutputStream::Stdout,
                    bytes: b"out\n".to_vec(),
                },
            ),
            event(
                1,
                RunEventKind::Finished {
                    status: RunStatus::ExitCode(0),
                },
            ),
        ],
    );

    assert_eq!(output, b"err out\n");
    assert!(diagnostics.is_empty());
}

#[test]
fn markers_frame_a_successful_initial_run() {
    let (output, diagnostics) = render(
        OutputMode::Markers,
        vec![
            event(
                1,
                RunEventKind::Started {
                    trigger: RunTrigger::Initial,
                },
            ),
            event(
                1,
                RunEventKind::Output {
                    stream: OutputStream::Stdout,
                    bytes: b"hello\n".to_vec(),
                },
            ),
            event(
                1,
                RunEventKind::Finished {
                    status: RunStatus::ExitCode(0),
                },
            ),
        ],
    );

    assert_eq!(
        output,
        b"@@stalker:start command=default run=1 trigger=initial@@\nhello\n@@stalker:end command=default run=1 exit=0@@\n"
    );
    assert!(diagnostics.is_empty());
}

#[test]
fn marker_mode_separates_unterminated_output_and_formats_signal_status() {
    let (output, _) = render(
        OutputMode::Markers,
        vec![
            event(
                7,
                RunEventKind::Started {
                    trigger: RunTrigger::Filesystem,
                },
            ),
            event(
                7,
                RunEventKind::Output {
                    stream: OutputStream::Stderr,
                    bytes: b"stopping".to_vec(),
                },
            ),
            event(
                7,
                RunEventKind::Finished {
                    status: RunStatus::Signal("SIGTERM".into()),
                },
            ),
        ],
    );

    assert_eq!(
        output,
        b"@@stalker:start command=default run=7 trigger=filesystem@@\nstopping\n@@stalker:end command=default run=7 signal=SIGTERM@@\n"
    );
}

#[test]
fn spawn_failures_are_diagnostics() {
    let (output, diagnostics) = render(
        OutputMode::Markers,
        vec![event(
            2,
            RunEventKind::SpawnFailed {
                message: "missing program".into(),
            },
        )],
    );

    assert!(output.is_empty());
    assert_eq!(
        diagnostics,
        b"stalker: command=default run=2 failed to spawn: missing program\n"
    );
}

#[test]
fn empty_output_leaves_the_line_as_it_was() {
    let (output, _) = render(
        OutputMode::Markers,
        vec![
            started(1, RunTrigger::Initial),
            output(1, OutputStream::Stdout, b"x"),
            output(1, OutputStream::Stdout, b""),
            finished(1, RunStatus::ExitCode(-7)),
        ],
    );

    assert_eq!(
        output,
        b"@@stalker:start command=default run=1 trigger=initial@@\nx\n@@stalker:end command=default run=1 exit=-7@@\n"
    );
}

#[test]
fn run_numbers_are_written_in_full() {
    let (output, _) = render(
        OutputMode::Markers,
        vec![finished(u64::MAX, RunStatus::ExitCode(i32::MIN))],
    );

    assert_eq!(
        output,
        b"@@stalker:end command=default run=18446744073709551615 exit=-2147483648@@\n"
    );
}

#[test]
fn pending_bytes_are_handed_over_once() {
    let mut renderer = OutputRenderer::terminal(OutputMode::Markers);
    renderer.render(&output(1, OutputStream::Stdout, b"half"));
    let (first, diagnostics) = renderer.take_pending();
    assert_eq!(first, b"half");
    assert!(diagnostics.is_empty());

    // The line that was handed over is still unfinished.
    renderer.render(&finished(1, RunStatus::ExitCode(0)));
    let (second, _) = renderer.take_pending();
    assert_eq!(
        second,
        b"\n@@stalker:end command=default run=1 exit=0@@\n"
    );
    assert!(renderer.take_pending().0.is_empty());
}

#[test]
fn passthrough_is_the_default() {
    assert_eq!(OutputMode::default(), OutputMode::Passthrough);
}

#[test]
fn renderer_continues_behind_what_the_buffers_hold() {
    let mut renderer = OutputRenderer::new(
        OutputMode::Passthrough,
        b"before ".to_vec(),
        b"noted ".to_vec(),
    );
    renderer.render(&output(1, OutputStream::Stderr, &[0xff, 0xfe]));
    renderer.render(&event(
        1,
        RunEventKind::SpawnFailed {
            message: "\u{e4}".into(),
        },
    ));
    let (output, diagnostics) = renderer.into_inner();
    assert_eq!(output, b"before \xff\xfe");
    assert_eq!(
        diagnostics,
        b"noted stalker: command=default run=1 failed to spawn: \xc3\xa4\n"
    );
}
