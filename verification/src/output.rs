//! Render structured run events for terminal output.

use vstd::prelude::*;
use vstd::utf8::encode_utf8;

use crate::text::{decimal, push_decimal, push_signed, signed_decimal};
use crate::{EventModel, KindModel, RunEvent, RunEventKind, RunStatus, RunTrigger, StatusModel};

verus! {

/// The terminal format used for command output.
#[derive(Clone, Copy, Debug, PartialEq, Eq, Structural)]
pub enum OutputMode {
    /// Forward child output without Stalker framing.
    Passthrough,
    /// Frame each run with machine-readable start and end lines.
    Markers,
}

impl Default for OutputMode {
    fn default() -> (mode: OutputMode)
        ensures
            mode == OutputMode::Passthrough,
    {
        OutputMode::Passthrough
    }
}

pub const NEWLINE: u8 = 10;

/// Renders [`RunEvent`] values to separate output and diagnostic streams.
///
/// Both child streams share `output`: preserving the order in which the event
/// bus publishes them matters more than preserving their original file
/// descriptors. `diagnostics` is reserved for Stalker itself.
#[derive(Debug)]
pub struct OutputRenderer {
    mode: OutputMode,
    output: Vec<u8>,
    diagnostics: Vec<u8>,
    output_at_line_start: bool,
}

/// What a renderer has rendered, and where it stands.
pub ghost struct RendererModel {
    pub mode: OutputMode,
    pub output: Seq<u8>,
    pub diagnostics: Seq<u8>,
    pub at_line_start: bool,
}

/// The name of a trigger in a marker.
pub open spec fn trigger_text(trigger: RunTrigger) -> Seq<char> {
    match trigger {
        RunTrigger::Initial => "initial"@,
        RunTrigger::Filesystem => "filesystem"@,
    }
}

/// The outcome of a run in a marker.
pub open spec fn status_text(status: StatusModel) -> Seq<char> {
    match status {
        StatusModel::ExitCode(code) => "exit="@ + signed_decimal(code),
        StatusModel::Signal(name) => "signal="@ + name,
    }
}

/// The line that marks the start of a run.
pub open spec fn start_marker(command: Seq<char>, run: nat, trigger: RunTrigger) -> Seq<char> {
    "@@stalker:start command="@ + command + " run="@ + decimal(run) + " trigger="@ + trigger_text(
        trigger,
    ) + "@@\n"@
}

/// The line that marks the end of a run.
pub open spec fn end_marker(command: Seq<char>, run: nat, status: StatusModel) -> Seq<char> {
    "@@stalker:end command="@ + command + " run="@ + decimal(run) + " "@ + status_text(status)
        + "@@\n"@
}

/// The line that reports a command which could not be started.
pub open spec fn spawn_failure(command: Seq<char>, run: nat, message: Seq<char>) -> Seq<char> {
    "stalker: command="@ + command + " run="@ + decimal(run) + " failed to spawn: "@ + message
        + "\n"@
}

impl RendererModel {
    /// A renderer that starts behind what the streams already hold.
    pub open spec fn fresh(mode: OutputMode, output: Seq<u8>, diagnostics: Seq<u8>) -> RendererModel {
        RendererModel { mode, output, diagnostics, at_line_start: true }
    }

    /// After a marker line, which begins at the start of a line.
    pub open spec fn with_marker(self, marker: Seq<char>) -> RendererModel {
        RendererModel {
            output: if self.at_line_start {
                self.output + encode_utf8(marker)
            } else {
                self.output.push(NEWLINE) + encode_utf8(marker)
            },
            at_line_start: true,
            ..self
        }
    }

    /// After output of the child, which passes through unchanged.
    pub open spec fn with_child_output(self, bytes: Seq<u8>) -> RendererModel {
        if bytes.len() == 0 {
            self
        } else {
            RendererModel {
                output: self.output + bytes,
                at_line_start: bytes.last() == NEWLINE,
                ..self
            }
        }
    }

    /// After one event.
    pub open spec fn rendered(self, event: EventModel) -> RendererModel {
        match event.kind {
            KindModel::Started { trigger } => if self.mode == OutputMode::Markers {
                self.with_marker(start_marker(event.command_id, event.run_id as nat, trigger))
            } else {
                self
            },
            KindModel::Output { bytes, .. } => self.with_child_output(bytes),
            KindModel::Finished { status } => if self.mode == OutputMode::Markers {
                self.with_marker(end_marker(event.command_id, event.run_id as nat, status))
            } else {
                self
            },
            KindModel::SpawnFailed { message } => RendererModel {
                diagnostics: self.diagnostics + encode_utf8(
                    spawn_failure(event.command_id, event.run_id as nat, message),
                ),
                ..self
            },
        }
    }

    /// After what waits to be written was handed over.
    pub open spec fn handed_over(self) -> RendererModel {
        RendererModel { output: Seq::empty(), diagnostics: Seq::empty(), ..self }
    }

    /// After each of `events`, in order.
    pub open spec fn rendered_all(self, events: Seq<EventModel>) -> RendererModel
        decreases events.len(),
    {
        if events.len() == 0 {
            self
        } else {
            self.rendered_all(events.drop_last()).rendered(events.last())
        }
    }
}

impl View for OutputRenderer {
    type V = RendererModel;

    closed spec fn view(&self) -> RendererModel {
        RendererModel {
            mode: self.mode,
            output: self.output@,
            diagnostics: self.diagnostics@,
            at_line_start: self.output_at_line_start,
        }
    }
}

fn append_bytes(buffer: &mut Vec<u8>, bytes: &[u8])
    ensures
        final(buffer)@ == old(buffer)@ + bytes@,
{
    buffer.extend_from_slice(bytes);
    assert(buffer@ =~= old(buffer)@ + bytes@);
}

impl OutputRenderer {
    /// Create a renderer that appends to caller-provided buffers.
    pub fn new(mode: OutputMode, output: Vec<u8>, diagnostics: Vec<u8>) -> (renderer:
        OutputRenderer)
        ensures
            renderer@ == RendererModel::fresh(mode, output@, diagnostics@),
    {
        OutputRenderer { mode, output, diagnostics, output_at_line_start: true }
    }

    /// Create a renderer for the process terminal, with nothing to write yet.
    pub fn terminal(mode: OutputMode) -> (renderer: OutputRenderer)
        ensures
            renderer@ == RendererModel::fresh(mode, Seq::empty(), Seq::empty()),
    {
        OutputRenderer::new(mode, Vec::new(), Vec::new())
    }

    /// Render one event.
    pub fn render(&mut self, event: &RunEvent)
        ensures
            final(self)@ == old(self)@.rendered(event@),
    {
        match &event.kind {
            RunEventKind::Started { trigger } => {
                if self.mode == OutputMode::Markers {
                    let mut marker = "@@stalker:start command=".to_owned();
                    marker.append(event.command_id.0.as_str());
                    marker.append(" run=");
                    push_decimal(&mut marker, event.run_id);
                    marker.append(" trigger=");
                    marker.append(trigger_name(trigger));
                    marker.append("@@\n");
                    self.write_marker(marker.as_str());
                }
            },
            RunEventKind::Output { bytes, .. } => {
                self.write_child_output(bytes.as_slice());
            },
            RunEventKind::Finished { status } => {
                if self.mode == OutputMode::Markers {
                    let mut marker = "@@stalker:end command=".to_owned();
                    marker.append(event.command_id.0.as_str());
                    marker.append(" run=");
                    push_decimal(&mut marker, event.run_id);
                    marker.append(" ");
                    let field = status_field(status);
                    marker.append(field.as_str());
                    marker.append("@@\n");
                    self.write_marker(marker.as_str());
                }
            },
            RunEventKind::SpawnFailed { message } => {
                let mut line = "stalker: command=".to_owned();
                line.append(event.command_id.0.as_str());
                line.append(" run=");
                push_decimal(&mut line, event.run_id);
                line.append(" failed to spawn: ");
                line.append(message.as_str());
                line.append("\n");
                append_bytes(&mut self.diagnostics, line.as_str().as_bytes());
            },
        }
    }

    /// Hand over what waits to be written to the two streams, and go on with
    /// empty buffers.
    pub fn take_pending(&mut self) -> (pending: (Vec<u8>, Vec<u8>))
        ensures
            pending.0@ == old(self)@.output,
            pending.1@ == old(self)@.diagnostics,
            final(self)@ == old(self)@.handed_over(),
    {
        let mut output: Vec<u8> = Vec::new();
        let mut diagnostics: Vec<u8> = Vec::new();
        std::mem::swap(&mut output, &mut self.output);
        std::mem::swap(&mut diagnostics, &mut self.diagnostics);
        (output, diagnostics)
    }

    /// Return the buffers after rendering has finished.
    pub fn into_inner(self) -> (buffers: (Vec<u8>, Vec<u8>))
        ensures
            buffers.0@ == self@.output,
            buffers.1@ == self@.diagnostics,
    {
        (self.output, self.diagnostics)
    }

    fn write_child_output(&mut self, bytes: &[u8])
        ensures
            final(self)@ == old(self)@.with_child_output(bytes@),
    {
        if bytes.len() == 0 {
            return ;
        }
        append_bytes(&mut self.output, bytes);
        self.output_at_line_start = bytes[bytes.len() - 1] == NEWLINE;
    }

    fn write_marker(&mut self, marker: &str)
        ensures
            final(self)@ == old(self)@.with_marker(marker@),
    {
        if !self.output_at_line_start {
            self.output.push(NEWLINE);
        }
        append_bytes(&mut self.output, marker.as_bytes());
        self.output_at_line_start = true;
    }
}

fn trigger_name(trigger: &RunTrigger) -> (name: &'static str)
    ensures
        name@ == trigger_text(*trigger),
{
    match trigger {
        RunTrigger::Initial => "initial",
        RunTrigger::Filesystem => "filesystem",
    }
}

fn status_field(status: &RunStatus) -> (field: String)
    ensures
        field@ == status_text(status@),
{
    match status {
        RunStatus::ExitCode(code) => {
            let mut field = "exit=".to_owned();
            push_signed(&mut field, *code);
            field
        },
        RunStatus::Signal(signal) => {
            let mut field = "signal=".to_owned();
            field.append(signal.as_str());
            field
        },
    }
}

/// The bytes that the children wrote, in the order of the events.
pub open spec fn child_bytes(events: Seq<EventModel>) -> Seq<u8>
    decreases events.len(),
{
    if events.len() == 0 {
        Seq::empty()
    } else {
        match events.last().kind {
            KindModel::Output { bytes, .. } => child_bytes(events.drop_last()) + bytes,
            _ => child_bytes(events.drop_last()),
        }
    }
}

/// The bytes of the reports on commands that could not be started.
pub open spec fn failure_bytes(events: Seq<EventModel>) -> Seq<u8>
    decreases events.len(),
{
    if events.len() == 0 {
        Seq::empty()
    } else {
        let before = failure_bytes(events.drop_last());
        let event = events.last();
        match event.kind {
            KindModel::SpawnFailed { message } => before + encode_utf8(
                spawn_failure(event.command_id, event.run_id as nat, message),
            ),
            _ => before,
        }
    }
}

/// Without markers the output is what the children wrote, in the order in which
/// it was received, and nothing else.
pub proof fn passthrough_preserves_child_output(m: RendererModel, events: Seq<EventModel>)
    requires
        m.mode == OutputMode::Passthrough,
    ensures
        m.rendered_all(events).output == m.output + child_bytes(events),
        m.rendered_all(events).mode == m.mode,
    decreases events.len(),
{
    if events.len() > 0 {
        passthrough_preserves_child_output(m, events.drop_last());
        assert(m.output + child_bytes(events) =~= m.rendered_all(events).output);
    } else {
        assert(m.output + child_bytes(events) =~= m.output);
    }
}

/// In every mode diagnostics are the reports on commands that could not be
/// started, and nothing else.
pub proof fn only_spawn_failures_are_diagnostics(m: RendererModel, events: Seq<EventModel>)
    ensures
        m.rendered_all(events).diagnostics == m.diagnostics + failure_bytes(events),
    decreases events.len(),
{
    if events.len() > 0 {
        only_spawn_failures_are_diagnostics(m, events.drop_last());
        assert(m.diagnostics + failure_bytes(events) =~= m.rendered_all(events).diagnostics);
    } else {
        assert(m.diagnostics + failure_bytes(events) =~= m.diagnostics);
    }
}

proof fn encode_utf8_append(a: Seq<char>, b: Seq<char>)
    ensures
        encode_utf8(a + b) == encode_utf8(a) + encode_utf8(b),
    decreases a.len(),
{
    if a.len() == 0 {
        assert(a + b =~= b);
        assert(encode_utf8(a) =~= Seq::<u8>::empty());
        assert(encode_utf8(a) + encode_utf8(b) =~= encode_utf8(b));
    } else {
        encode_utf8_append(a.drop_first(), b);
        assert((a + b).drop_first() =~= a.drop_first() + b);
        assert((a + b)[0] == a[0]);
        assert(encode_utf8(a + b) =~= encode_utf8(a) + encode_utf8(b));
    }
}

/// A line of text ends in a newline byte.
proof fn line_ends_in_newline(text: Seq<char>)
    ensures
        encode_utf8(text + "@@\n"@).len() > 0,
        encode_utf8(text + "@@\n"@).last() == NEWLINE,
{
    reveal_strlit("@@\n");
    encode_utf8_append(text, "@@\n"@);
    vstd::utf8::is_ascii_chars_encode_utf8("@@\n"@);
}

/// Whether the renderer knows where its output stands: at the start of a line
/// when it is empty or ends in a newline.
pub open spec fn knows_its_place(m: RendererModel) -> bool {
    m.at_line_start <==> m.output.len() == 0 || m.output.last() == NEWLINE
}

/// A renderer that starts with no output always knows whether its output stands
/// at the start of a line.
pub proof fn rendering_keeps_place(m: RendererModel, event: EventModel)
    requires
        knows_its_place(m),
    ensures
        knows_its_place(m.rendered(event)),
{
    match event.kind {
        KindModel::Started { trigger } => {
            line_ends_in_newline(
                "@@stalker:start command="@ + event.command_id + " run="@ + decimal(
                    event.run_id as nat,
                ) + " trigger="@ + trigger_text(trigger),
            );
        },
        KindModel::Finished { status } => {
            line_ends_in_newline(
                "@@stalker:end command="@ + event.command_id + " run="@ + decimal(
                    event.run_id as nat,
                ) + " "@ + status_text(status),
            );
        },
        _ => {},
    }
}

/// Every marker begins at the start of a line: what stands before it is empty or
/// ends in a newline, which only output without one makes necessary.
pub proof fn markers_begin_lines(m: RendererModel, marker: Seq<char>)
    requires
        knows_its_place(m),
    ensures
        ({
            let before = if m.at_line_start {
                m.output
            } else {
                m.output.push(NEWLINE)
            };
            &&& m.with_marker(marker).output == before + encode_utf8(marker)
            &&& before.len() == 0 || before.last() == NEWLINE
        }),
{
}

/// The output events of one run.
pub open spec fn output_events(
    command: Seq<char>,
    run: u64,
    chunks: Seq<(crate::OutputStream, Seq<u8>)>,
) -> Seq<EventModel> {
    Seq::new(
        chunks.len(),
        |i: int|
            EventModel {
                command_id: command,
                run_id: run,
                kind: KindModel::Output { stream: chunks[i].0, bytes: chunks[i].1 },
            },
    )
}

/// The events of one run, from start to end.
pub open spec fn run_events(
    command: Seq<char>,
    run: u64,
    trigger: RunTrigger,
    chunks: Seq<(crate::OutputStream, Seq<u8>)>,
    status: StatusModel,
) -> Seq<EventModel> {
    let started = EventModel {
        command_id: command,
        run_id: run,
        kind: KindModel::Started { trigger },
    };
    let finished = EventModel {
        command_id: command,
        run_id: run,
        kind: KindModel::Finished { status },
    };
    (seq![started] + output_events(command, run, chunks)).push(finished)
}

proof fn chunks_pass_through(m: RendererModel, events: Seq<EventModel>)
    requires
        forall|i: int| 0 <= i < events.len() ==> (#[trigger] events[i]).kind is Output,
    ensures
        ({
            let after = m.rendered_all(events);
            let bytes = child_bytes(events);
            &&& after.output == m.output + bytes
            &&& after.mode == m.mode
            &&& after.at_line_start == if bytes.len() == 0 {
                m.at_line_start
            } else {
                bytes.last() == NEWLINE
            }
        }),
    decreases events.len(),
{
    if events.len() > 0 {
        let init = events.drop_last();
        assert forall|i: int| 0 <= i < init.len() implies (#[trigger] init[i]).kind is Output by {
            assert(events[i].kind is Output);
        }
        chunks_pass_through(m, init);
        assert(events[events.len() - 1].kind is Output);
        assert(m.rendered_all(events).output =~= m.output + child_bytes(events));
    } else {
        assert(m.output + child_bytes(events) =~= m.output);
    }
}

proof fn rendered_all_splits(m: RendererModel, a: Seq<EventModel>, b: Seq<EventModel>)
    ensures
        m.rendered_all(a + b) == m.rendered_all(a).rendered_all(b),
    decreases b.len(),
{
    if b.len() > 0 {
        rendered_all_splits(m, a, b.drop_last());
        assert((a + b).drop_last() =~= a + b.drop_last());
        assert((a + b).last() == b.last());
    } else {
        assert(a + b =~= a);
    }
}

/// With markers a run is its start line, the bytes that the child wrote, a
/// newline if they do not end in one, and its end line.
pub proof fn markers_frame_a_run(
    m: RendererModel,
    command: Seq<char>,
    run: u64,
    trigger: RunTrigger,
    chunks: Seq<(crate::OutputStream, Seq<u8>)>,
    status: StatusModel,
)
    requires
        m.mode == OutputMode::Markers,
        m.at_line_start,
    ensures
        ({
            let after = m.rendered_all(run_events(command, run, trigger, chunks, status));
            let bytes = child_bytes(output_events(command, run, chunks));
            let separator = if bytes.len() == 0 || bytes.last() == NEWLINE {
                Seq::<u8>::empty()
            } else {
                seq![NEWLINE]
            };
            &&& after.output == m.output + encode_utf8(start_marker(command, run as nat, trigger))
                + bytes + separator + encode_utf8(end_marker(command, run as nat, status))
            &&& after.at_line_start
        }),
{
    let events = run_events(command, run, trigger, chunks, status);
    let outputs = output_events(command, run, chunks);
    let start = seq![events[0]];
    let bytes = child_bytes(outputs);
    assert(events.drop_last() =~= start + outputs);
    rendered_all_splits(m, start, outputs);
    assert(start.drop_last() =~= Seq::<EventModel>::empty());
    assert(m.rendered_all(Seq::<EventModel>::empty()) == m);
    let started = m.rendered_all(start);
    assert(started == m.rendered(events[0]));
    chunks_pass_through(started, outputs);
    let after = m.rendered_all(events);
    assert(after == started.rendered_all(outputs).rendered(events.last()));
    let separator = if bytes.len() == 0 || bytes.last() == NEWLINE {
        Seq::<u8>::empty()
    } else {
        seq![NEWLINE]
    };
    assert(after.output =~= m.output + encode_utf8(start_marker(command, run as nat, trigger))
        + bytes + separator + encode_utf8(end_marker(command, run as nat, status)));
}

/// Handing output over in between loses and adds nothing: what was handed over
/// and what is rendered afterwards make up what would have been rendered at once.
pub proof fn handing_over_loses_nothing(m: RendererModel, events: Seq<EventModel>)
    ensures
        ({
            let at_once = m.rendered_all(events);
            let afterwards = m.handed_over().rendered_all(events);
            &&& at_once.output == m.output + afterwards.output
            &&& at_once.diagnostics == m.diagnostics + afterwards.diagnostics
            &&& at_once.at_line_start == afterwards.at_line_start
            &&& at_once.mode == afterwards.mode
        }),
    decreases events.len(),
{
    let at_once = m.rendered_all(events);
    let afterwards = m.handed_over().rendered_all(events);
    if events.len() > 0 {
        handing_over_loses_nothing(m, events.drop_last());
    }
    assert(at_once.output =~= m.output + afterwards.output);
    assert(at_once.diagnostics =~= m.diagnostics + afterwards.diagnostics);
}

/// What a child writes is added to the output as it is, from either stream and in
/// every mode, and to nothing else.
pub proof fn child_output_is_added_as_it_is(m: RendererModel, event: EventModel)
    requires
        event.kind is Output,
    ensures
        m.rendered(event).output == m.output + event.kind->bytes,
        m.rendered(event).diagnostics == m.diagnostics,
        m.rendered(event).mode == m.mode,
        m.rendered(event).at_line_start == if event.kind->bytes.len() == 0 {
            m.at_line_start
        } else {
            event.kind->bytes.last() == 10
        },
{
    assert(m.rendered(event).output =~= m.output + event.kind->bytes);
}

/// Without markers neither the start nor the end of a run is written.
pub proof fn passthrough_writes_no_frames(m: RendererModel, event: EventModel)
    requires
        m.mode == OutputMode::Passthrough,
        event.kind is Started || event.kind is Finished,
    ensures
        m.rendered(event) == m,
{
}

/// With markers the start of a run is a line of its own that names the command,
/// the run and the trigger.
pub proof fn starts_are_marked(m: RendererModel, event: EventModel)
    requires
        m.mode == OutputMode::Markers,
        event.kind is Started,
    ensures
        m.rendered(event) == (RendererModel {
            output: m.output + (if m.at_line_start {
                Seq::<u8>::empty()
            } else {
                seq![10u8]
            }) + encode_utf8(
                "@@stalker:start command="@ + event.command_id + " run="@ + decimal(
                    event.run_id as nat,
                ) + " trigger="@ + (if event.kind->trigger == RunTrigger::Initial {
                    "initial"@
                } else {
                    "filesystem"@
                }) + "@@\n"@,
            ),
            at_line_start: true,
            ..m
        }),
{
    let marker = start_marker(event.command_id, event.run_id as nat, event.kind->trigger);
    assert(m.output + Seq::<u8>::empty() + encode_utf8(marker) =~= m.output + encode_utf8(marker));
    assert(m.output + seq![10u8] + encode_utf8(marker) =~= m.output.push(10u8) + encode_utf8(
        marker,
    ));
}

/// With markers the end of a run is a line of its own that names the command, the
/// run and the outcome.
pub proof fn ends_are_marked(m: RendererModel, event: EventModel)
    requires
        m.mode == OutputMode::Markers,
        event.kind is Finished,
    ensures
        m.rendered(event) == (RendererModel {
            output: m.output + (if m.at_line_start {
                Seq::<u8>::empty()
            } else {
                seq![10u8]
            }) + encode_utf8(
                "@@stalker:end command="@ + event.command_id + " run="@ + decimal(
                    event.run_id as nat,
                ) + " "@ + (match event.kind->status {
                    StatusModel::ExitCode(code) => "exit="@ + if code < 0 {
                        seq!['-'] + decimal((-code) as nat)
                    } else {
                        decimal(code as nat)
                    },
                    StatusModel::Signal(name) => "signal="@ + name,
                }) + "@@\n"@,
            ),
            at_line_start: true,
            ..m
        }),
{
    let marker = end_marker(event.command_id, event.run_id as nat, event.kind->status);
    assert(m.output + Seq::<u8>::empty() + encode_utf8(marker) =~= m.output + encode_utf8(marker));
    assert(m.output + seq![10u8] + encode_utf8(marker) =~= m.output.push(10u8) + encode_utf8(
        marker,
    ));
}

/// A command that could not be started is reported in the diagnostics, in every
/// mode, and nowhere else.
pub proof fn spawn_failures_are_reported(m: RendererModel, event: EventModel)
    requires
        event.kind is SpawnFailed,
    ensures
        m.rendered(event) == (RendererModel {
            diagnostics: m.diagnostics + encode_utf8(
                "stalker: command="@ + event.command_id + " run="@ + decimal(event.run_id as nat)
                    + " failed to spawn: "@ + event.kind->message + "\n"@,
            ),
            ..m
        }),
{
}

/// The bytes that the children wrote are those of every output event, of either
/// stream, one behind the other.
pub proof fn child_bytes_are_those_of_every_output(events: Seq<EventModel>, event: EventModel)
    ensures
        child_bytes(Seq::empty()) == Seq::<u8>::empty(),
        event.kind is Output ==> child_bytes(events.push(event)) == child_bytes(events)
            + event.kind->bytes,
        !(event.kind is Output) ==> child_bytes(events.push(event)) == child_bytes(events),
{
    assert(events.push(event).drop_last() =~= events);
}

} // verus!
