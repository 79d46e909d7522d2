//! The event loop of one session: what to do next, from what has happened.
//!
//! The session decides; whoever owns the clock, the watcher and the processes
//! does as it says and reports back.

use vstd::prelude::*;

use crate::config::Config;
use crate::filter::{FilterModel, PathFilter, PathKind};
use crate::gitignore::{files_view, IgnoreFile, IgnoreModel};
use crate::output::{
    child_bytes, child_output_is_added_as_it_is, passthrough_preserves_child_output, OutputMode,
    OutputRenderer, RendererModel,
};
use crate::path::{bytes_of, paths_view, Part};
use crate::scheduler::{
    a_change_restarts_the_quiet_period, ScheduledRun, Scheduler, SchedulerModel, SchedulerState,
};
use crate::text::{lossy, lossy_text};
use crate::time::{Duration, Instant};
use crate::watcher::{WatchEvent, WatchModel};
use crate::{EventModel, KindModel, RunEvent, RunEventKind, RunStatus, RunTrigger, StatusModel};

verus! {

/// The longest time that the loop waits for run events, in nanoseconds.
pub const POLL_NANOS: u128 = 25_000_000;

/// The time that children have to stop by themselves, in nanoseconds.
pub const GRACE_NANOS: u128 = 500_000_000;

/// Where a session stands.
#[derive(Clone, Copy, Debug, PartialEq, Eq, Structural)]
pub enum Phase {
    /// Changes make runs.
    Watching,
    /// Children were told to stop and have until `deadline`.
    Stopping { deadline: Instant },
    /// Children were killed.
    Killing,
    /// No child is left.
    Over,
}

/// What the loop has to do next.
#[derive(Clone, Copy, Debug, PartialEq, Eq, Structural)]
pub enum Step {
    /// Start the run if there is one, then take in watch events and run events.
    Watch { run: Option<ScheduledRun> },
    /// Tell every child to stop.
    Shutdown,
    /// Take in run events for no longer than this.
    Wait { span: Duration },
    /// Kill every child.
    ForceShutdown,
    /// Take in the run events that are left, and end.
    Exit,
}

/// One session: a command's scheduler, its output, and where the session stands.
#[derive(Debug)]
pub struct Session {
    scheduler: Scheduler,
    output: OutputRenderer,
    until_success: bool,
    print_events: bool,
    succeeded: bool,
    phase: Phase,
}

/// One session.
pub ghost struct SessionModel {
    pub scheduler: SchedulerModel,
    pub output: RendererModel,
    /// Whether the session ends with the first run that succeeds.
    pub until_success: bool,
    /// Whether accepted filesystem events are reported.
    pub print_events: bool,
    /// Whether a run has succeeded that ends the session.
    pub succeeded: bool,
    pub phase: Phase,
}

/// Whether a run that ends like this has succeeded.
pub open spec fn is_success(kind: KindModel) -> bool {
    kind == (KindModel::Finished { status: StatusModel::ExitCode(0) })
}

/// Whether the run is over with this event.
pub open spec fn is_completion(kind: KindModel) -> bool {
    kind is Finished || kind is SpawnFailed
}

/// Whether a filesystem event has to make a run. Missed events always do, and so
/// does a broad event without a path, which may concern anything; a broad or
/// directory event counts for what may lie below its paths.
pub open spec fn is_relevant(
    event: WatchModel,
    filter: FilterModel,
    files: Seq<IgnoreModel>,
) -> bool {
    ||| event.is_overflow
    ||| event.is_broad && event.paths.len() == 0
    ||| exists|i: int|
        0 <= i < event.paths.len() && filter.accepts(
            #[trigger] event.paths[i],
            kind_of(event),
            files,
        )
}

/// Whether the paths of an event are taken for files or for directories.
pub open spec fn kind_of(event: WatchModel) -> PathKind {
    if event.is_directory || event.is_broad {
        PathKind::Directory
    } else {
        PathKind::File
    }
}

/// The line that reports one path of an accepted event.
pub open spec fn path_line(path: Seq<Part>) -> Seq<char> {
    "stalker: accepted filesystem event "@ + lossy_text(bytes_of(path)) + "\n"@
}

/// The lines that report the paths of an accepted event.
pub open spec fn path_lines(paths: Seq<Seq<Part>>) -> Seq<char>
    decreases paths.len(),
{
    if paths.len() == 0 {
        Seq::empty()
    } else {
        path_lines(paths.drop_last()) + path_line(paths.last())
    }
}

/// The lines that report an accepted event.
pub open spec fn event_text(event: WatchModel) -> Seq<char> {
    if event.is_overflow {
        "stalker: accepted filesystem overflow/rescan\n"@
    } else if event.paths.len() == 0 {
        "stalker: accepted broad filesystem event\n"@
    } else {
        path_lines(event.paths)
    }
}

/// What a session is told.
pub ghost enum Input {
    /// It is asked what to do next.
    Poll { interrupted: bool, active: bool, now: Instant },
    /// A filesystem event came.
    Watch { change: WatchModel, filter: FilterModel, files: Seq<IgnoreModel>, now: Instant },
    /// An event of a run came.
    Run { event: EventModel, now: Instant },
}

impl SessionModel {
    /// A session at the origin of its clock.
    pub open spec fn fresh(
        debounce: Duration,
        initial_run: bool,
        mode: OutputMode,
        until_success: bool,
        print_events: bool,
    ) -> SessionModel {
        SessionModel {
            scheduler: SchedulerModel::fresh(debounce, initial_run, Instant::at_origin()),
            output: RendererModel::fresh(mode, Seq::empty(), Seq::empty()),
            until_success,
            print_events,
            succeeded: false,
            phase: Phase::Watching,
        }
    }

    /// Whether the session can go on at `now`: while it watches, the run that is
    /// due can be numbered or, if it is to stop, the clock can name the end of
    /// the grace period.
    pub open spec fn can_go_on(self, interrupted: bool, now: Instant) -> bool {
        self.phase == Phase::Watching ==> if self.wants_to_stop(interrupted) {
            now.reaches(Duration { nanos: GRACE_NANOS })
        } else {
            self.scheduler.due(now) ==> self.scheduler.next_run_id < u64::MAX
        }
    }

    /// Whether the clock can name the deadline that a change at `now` makes.
    pub open spec fn can_change(self, now: Instant) -> bool {
        self.scheduler.rearms() ==> now.reaches(self.scheduler.debounce)
    }

    /// Whether it is time to stop.
    pub open spec fn wants_to_stop(self, interrupted: bool) -> bool {
        interrupted || self.succeeded
    }

    /// What to do next, where `interrupted` tells whether the user asked to
    /// stop, and `active` whether a child still holds a slot.
    pub open spec fn next_step(self, interrupted: bool, active: bool, now: Instant) -> Step {
        match self.phase {
            Phase::Watching => if self.wants_to_stop(interrupted) {
                Step::Shutdown
            } else {
                Step::Watch { run: self.scheduler.due_run(now) }
            },
            Phase::Stopping { deadline } => if !active {
                Step::Exit
            } else if now.nanos < deadline.nanos {
                Step::Wait { span: Duration { nanos: POLL_NANOS } }
            } else {
                Step::ForceShutdown
            },
            Phase::Killing => if active {
                Step::Wait { span: Duration { nanos: POLL_NANOS } }
            } else {
                Step::Exit
            },
            Phase::Over => Step::Exit,
        }
    }

    /// The session after that.
    pub open spec fn stepped(self, interrupted: bool, active: bool, now: Instant) -> SessionModel {
        match self.next_step(interrupted, active, now) {
            Step::Watch { .. } => SessionModel { scheduler: self.scheduler.taken(now), ..self },
            Step::Shutdown => SessionModel {
                phase: Phase::Stopping { deadline: now.plus(Duration { nanos: GRACE_NANOS }) },
                ..self
            },
            Step::Wait { .. } => self,
            Step::ForceShutdown => SessionModel { phase: Phase::Killing, ..self },
            Step::Exit => SessionModel { phase: Phase::Over, ..self },
        }
    }

    /// After a filesystem event at `now`.
    pub open spec fn after_watch_event(
        self,
        event: WatchModel,
        filter: FilterModel,
        files: Seq<IgnoreModel>,
        now: Instant,
    ) -> SessionModel {
        if is_relevant(event, filter, files) {
            SessionModel { scheduler: self.scheduler.changed(now), ..self }
        } else {
            self
        }
    }

    /// After an event of a run at `now`. A completed run releases the scheduler.
    pub open spec fn after_run_event(self, event: EventModel, now: Instant) -> SessionModel {
        SessionModel {
            scheduler: if is_completion(event.kind) {
                self.scheduler.finished(event.run_id, now)
            } else {
                self.scheduler
            },
            output: self.output.rendered(event),
            succeeded: self.succeeded || (self.until_success && is_success(event.kind)),
            ..self
        }
    }

    /// After `input`.
    pub open spec fn after(self, input: Input) -> SessionModel {
        match input {
            Input::Poll { interrupted, active, now } => self.stepped(interrupted, active, now),
            Input::Watch { change, filter, files, now } => self.after_watch_event(
                change,
                filter,
                files,
                now,
            ),
            Input::Run { event, now } => self.after_run_event(event, now),
        }
    }

    /// After each of `inputs`, in order.
    pub open spec fn after_all(self, inputs: Seq<Input>) -> SessionModel
        decreases inputs.len(),
    {
        if inputs.len() == 0 {
            self
        } else {
            self.after_all(inputs.drop_last()).after(inputs.last())
        }
    }

    /// How long to wait for run events at `now`: until the next deadline, but
    /// never for long.
    pub open spec fn wait_nanos(self, now: Instant) -> int {
        match self.scheduler.state {
            SchedulerState::Debouncing { deadline, .. } => if deadline.nanos <= now.nanos {
                0
            } else if deadline.nanos - now.nanos <= POLL_NANOS {
                deadline.nanos - now.nanos
            } else {
                POLL_NANOS as int
            },
            _ => POLL_NANOS as int,
        }
    }
}

impl View for Session {
    type V = SessionModel;

    closed spec fn view(&self) -> SessionModel {
        SessionModel {
            scheduler: self.scheduler@,
            output: self.output@,
            until_success: self.until_success,
            print_events: self.print_events,
            succeeded: self.succeeded,
            phase: self.phase,
        }
    }
}

/// Whether a filesystem event has to make a run, where `files` are the ignore
/// files that exist in the directories consulted for its paths.
pub fn event_is_relevant(event: &WatchEvent, filter: &PathFilter, files: &Vec<IgnoreFile>) -> (
relevant: bool)
    ensures
        relevant == is_relevant(event@, filter@, files_view(files@)),
{
    if event.is_overflow {
        return true;
    }
    // A backend can report a broad directory-level change without a usable
    // path. It may contain an included descendant, so rerun conservatively.
    if event.is_broad && event.paths.len() == 0 {
        assert(event@.paths.len() == 0);
        return true;
    }
    let kind = if event.is_directory || event.is_broad {
        PathKind::Directory
    } else {
        PathKind::File
    };
    let mut i: usize = 0;
    while i < event.paths.len()
        invariant
            i <= event.paths@.len(),
            kind == kind_of(event@),
            event@.paths == paths_view(event.paths@),
            forall|j: int|
                0 <= j < i ==> !filter@.accepts(
                    #[trigger] event@.paths[j],
                    kind,
                    files_view(files@),
                ),
        decreases event.paths@.len() - i,
    {
        assert(event@.paths[i as int] == event.paths@[i as int]@);
        if filter.accepts(&event.paths[i], kind, files) {
            return true;
        }
        i = i + 1;
    }
    assert(event@.paths.len() == event.paths@.len());
    false
}

/// The lines that report an accepted event.
pub fn describe_event(event: &WatchEvent) -> (text: String)
    ensures
        text@ == event_text(event@),
{
    if event.is_overflow {
        return "stalker: accepted filesystem overflow/rescan\n".to_owned();
    }
    if event.paths.len() == 0 {
        assert(event@.paths.len() == 0);
        return "stalker: accepted broad filesystem event\n".to_owned();
    }
    let ghost paths = paths_view(event.paths@);
    let mut text = String::new();
    let mut i: usize = 0;
    assert(paths.take(0) =~= Seq::<Seq<Part>>::empty());
    while i < event.paths.len()
        invariant
            i <= event.paths@.len(),
            paths == paths_view(event.paths@),
            text@ == path_lines(paths.take(i as int)),
        decreases event.paths@.len() - i,
    {
        proof {
            assert(paths.take(i + 1).drop_last() =~= paths.take(i as int));
            assert(paths.take(i + 1).last() == event.paths@[i as int]@);
        }
        let bytes = event.paths[i].to_bytes();
        let name = lossy(bytes.as_slice());
        let ghost before = text@;
        text.append("stalker: accepted filesystem event ");
        text.append(name.as_str());
        text.append("\n");
        assert(text@ =~= before + path_line(event.paths@[i as int]@));
        i = i + 1;
    }
    assert(paths.take(i as int) =~= paths);
    text
}

impl Session {
    /// A session for the configuration, at the origin of its clock.
    pub fn new(config: &Config) -> (session: Session)
        ensures
            session@ == SessionModel::fresh(
                config.watch.debounce,
                config.initial_run,
                config.output.rendered_as(),
                config.until_success,
                config.print_events,
            ),
    {
        Session {
            scheduler: Scheduler::new(config.watch.debounce, config.initial_run),
            output: OutputRenderer::terminal(config.output.render_mode()),
            until_success: config.until_success,
            print_events: config.print_events,
            succeeded: false,
            phase: Phase::Watching,
        }
    }

    /// Whether the session can go on at `now`.
    pub fn can_go_on(&self, interrupted: bool, now: Instant) -> (can: bool)
        ensures
            can == self@.can_go_on(interrupted, now),
    {
        if self.phase != Phase::Watching {
            return true;
        }
        if interrupted || self.succeeded {
            return now.nanos <= u128::MAX - GRACE_NANOS;
        }
        match self.scheduler.next_deadline() {
            Some(deadline) => now.nanos < deadline.nanos || self.scheduler.has_next_run_id(),
            None => true,
        }
    }

    /// Whether the clock can name the deadline that a change at `now` makes.
    pub fn can_change(&self, now: Instant) -> (can: bool)
        ensures
            can == self@.can_change(now),
    {
        self.scheduler.can_change(now)
    }

    /// Says what to do next.
    pub fn poll(&mut self, interrupted: bool, active: bool, now: Instant) -> (step: Step)
        requires
            old(self)@.can_go_on(interrupted, now),
        ensures
            step == old(self)@.next_step(interrupted, active, now),
            final(self)@ == old(self)@.stepped(interrupted, active, now),
    {
        match self.phase {
            Phase::Watching => {
                if interrupted || self.succeeded {
                    let deadline = now.after(Duration { nanos: GRACE_NANOS });
                    self.phase = Phase::Stopping { deadline };
                    Step::Shutdown
                } else {
                    Step::Watch { run: self.scheduler.take_due_run(now) }
                }
            },
            Phase::Stopping { deadline } => {
                if !active {
                    self.phase = Phase::Over;
                    Step::Exit
                } else if now.nanos < deadline.nanos {
                    Step::Wait { span: Duration { nanos: POLL_NANOS } }
                } else {
                    self.phase = Phase::Killing;
                    Step::ForceShutdown
                }
            },
            Phase::Killing => {
                if active {
                    Step::Wait { span: Duration { nanos: POLL_NANOS } }
                } else {
                    self.phase = Phase::Over;
                    Step::Exit
                }
            },
            Phase::Over => Step::Exit,
        }
    }

    /// How long to wait for run events at `now`.
    pub fn wait(&self, now: Instant) -> (span: Duration)
        ensures
            span.nanos == self@.wait_nanos(now),
    {
        let longest = Duration { nanos: POLL_NANOS };
        match self.scheduler.next_deadline() {
            Some(deadline) => deadline.saturating_duration_since(now).min(longest),
            None => longest,
        }
    }

    /// Takes in a filesystem event, where `files` are the ignore files that
    /// exist in the directories consulted for its paths, and gives the lines to
    /// report it with, if it is to be reported.
    pub fn watch_event(
        &mut self,
        event: &WatchEvent,
        filter: &PathFilter,
        files: &Vec<IgnoreFile>,
        now: Instant,
    ) -> (report: Option<String>)
        requires
            is_relevant(event@, filter@, files_view(files@)) ==> old(self)@.can_change(now),
        ensures
            final(self)@ == old(self)@.after_watch_event(event@, filter@, files_view(files@), now),
            match report {
                Some(text) => {
                    &&& old(self)@.print_events
                    &&& is_relevant(event@, filter@, files_view(files@))
                    &&& text@ == event_text(event@)
                },
                None => !old(self)@.print_events || !is_relevant(
                    event@,
                    filter@,
                    files_view(files@),
                ),
            },
    {
        if !event_is_relevant(event, filter, files) {
            return None;
        }
        let report = if self.print_events {
            Some(describe_event(event))
        } else {
            None
        };
        self.scheduler.change(now);
        report
    }

    /// Takes in an event of a run.
    pub fn handle_run_event(&mut self, event: &RunEvent, now: Instant)
        ensures
            final(self)@ == old(self)@.after_run_event(event@, now),
    {
        self.output.render(event);
        match &event.kind {
            RunEventKind::Finished { status } => {
                let _ = self.scheduler.finish(event.run_id, now);
                match status {
                    RunStatus::ExitCode(code) => {
                        if self.until_success && *code == 0 {
                            self.succeeded = true;
                        }
                    },
                    RunStatus::Signal(_) => {},
                }
            },
            RunEventKind::SpawnFailed { .. } => {
                let _ = self.scheduler.finish(event.run_id, now);
            },
            RunEventKind::Started { .. } | RunEventKind::Output { .. } => {},
        }
    }

    /// Hands over what waits to be written to standard output and standard
    /// error.
    pub fn take_pending(&mut self) -> (pending: (Vec<u8>, Vec<u8>))
        ensures
            pending.0@ == old(self)@.output.output,
            pending.1@ == old(self)@.output.diagnostics,
            final(self)@ == (SessionModel { output: old(self)@.output.handed_over(), ..old(self)@ }),
    {
        self.output.take_pending()
    }
}

/// With `until_success`, a run that succeeds ends the session: the next step
/// tells children to stop, even if changes during the run asked for another one.
pub proof fn success_ends_the_session(
    m: SessionModel,
    event: EventModel,
    end: Instant,
    interrupted: bool,
    active: bool,
    now: Instant,
)
    requires
        m.until_success,
        m.phase == Phase::Watching,
        is_success(event.kind),
    ensures
        m.after_run_event(event, end).next_step(interrupted, active, now) == Step::Shutdown,
{
}

/// A run that fails, by its exit code, a signal or for want of a process, does
/// not end the session; without `until_success` no run does.
pub proof fn only_success_ends_the_session(
    m: SessionModel,
    event: EventModel,
    end: Instant,
    active: bool,
    now: Instant,
)
    requires
        !m.until_success || !is_success(event.kind),
        m.phase == Phase::Watching,
        !m.succeeded,
    ensures
        m.after_run_event(event, end).next_step(false, active, now) is Watch,
{
}

/// A session that began to stop starts no run any more and never watches again.
pub proof fn stopping_sessions_start_nothing(
    m: SessionModel,
    interrupted: bool,
    active: bool,
    now: Instant,
)
    requires
        m.phase != Phase::Watching,
    ensures
        !(m.next_step(interrupted, active, now) is Watch),
        m.stepped(interrupted, active, now).phase != Phase::Watching,
        m.stepped(interrupted, active, now).scheduler == m.scheduler,
{
}

/// After a success that ends the session no run is started, whatever happens.
pub proof fn nothing_starts_after_success(
    m: SessionModel,
    inputs: Seq<Input>,
    interrupted: bool,
    active: bool,
    now: Instant,
)
    requires
        m.succeeded || m.phase != Phase::Watching,
    ensures
        !(m.after_all(inputs).next_step(interrupted, active, now) is Watch),
{
    ending_goes_on(m, inputs);
}

proof fn ending_goes_on(m: SessionModel, inputs: Seq<Input>)
    requires
        m.succeeded || m.phase != Phase::Watching,
    ensures
        m.after_all(inputs).succeeded || m.after_all(inputs).phase != Phase::Watching,
    decreases inputs.len(),
{
    if inputs.len() > 0 {
        ending_goes_on(m, inputs.drop_last());
    }
}

/// Without `until_success` a session goes on watching until it is interrupted,
/// whatever its runs come to.
pub proof fn sessions_watch_until_interrupted(
    m: SessionModel,
    inputs: Seq<Input>,
    active: bool,
    now: Instant,
)
    requires
        !m.until_success,
        !m.succeeded,
        m.phase == Phase::Watching,
        forall|i: int|
            0 <= i < inputs.len() ==> ((#[trigger] inputs[i]) matches Input::Poll {
                interrupted,
                ..
            } ==> !interrupted),
    ensures
        m.after_all(inputs).next_step(false, active, now) is Watch,
{
    watching_goes_on(m, inputs);
}

proof fn watching_goes_on(m: SessionModel, inputs: Seq<Input>)
    requires
        !m.until_success,
        !m.succeeded,
        m.phase == Phase::Watching,
        forall|i: int|
            0 <= i < inputs.len() ==> ((#[trigger] inputs[i]) matches Input::Poll {
                interrupted,
                ..
            } ==> !interrupted),
    ensures
        !m.after_all(inputs).until_success,
        !m.after_all(inputs).succeeded,
        m.after_all(inputs).phase == Phase::Watching,
    decreases inputs.len(),
{
    if inputs.len() > 0 {
        let init = inputs.drop_last();
        assert forall|i: int| 0 <= i < init.len() implies ((
        #[trigger] init[i]) matches Input::Poll { interrupted, .. } ==> !interrupted) by {
            assert(init[i] == inputs[i]);
        }
        watching_goes_on(m, init);
        assert(inputs[inputs.len() - 1] == inputs.last());
    }
}

/// A session starts the run that is due, and only that one.
pub proof fn due_runs_are_started(m: SessionModel, active: bool, now: Instant)
    requires
        m.phase == Phase::Watching,
        !m.succeeded,
    ensures
        m.next_step(false, active, now) == (Step::Watch { run: m.scheduler.due_run(now) }),
        m.stepped(false, active, now).scheduler == m.scheduler.taken(now),
{
}

/// Children are killed only after they had the whole grace period to stop, and
/// not a second time.
pub proof fn children_get_a_grace_period(
    m: SessionModel,
    begin: Instant,
    interrupted: bool,
    still_interrupted: bool,
    active: bool,
    still_active: bool,
    now: Instant,
)
    requires
        m.can_go_on(interrupted, begin),
        m.next_step(interrupted, active, begin) == Step::Shutdown,
    ensures
        ({
            let stopping = m.stepped(interrupted, active, begin);
            let step = stopping.next_step(still_interrupted, still_active, now);
            &&& step == Step::ForceShutdown <==> still_active && begin.nanos + GRACE_NANOS
                <= now.nanos
            &&& step == Step::ForceShutdown ==> stopping.stepped(
                still_interrupted,
                still_active,
                now,
            ).phase == Phase::Killing
        }),
{
}

/// A session that killed its children does not do so again.
pub proof fn children_are_killed_once(
    m: SessionModel,
    interrupted: bool,
    active: bool,
    now: Instant,
)
    requires
        m.phase == Phase::Killing || m.phase == Phase::Over,
    ensures
        m.next_step(interrupted, active, now) != Step::ForceShutdown,
        m.next_step(interrupted, active, now) != Step::Shutdown,
        m.stepped(interrupted, active, now).phase == Phase::Killing || m.stepped(
            interrupted,
            active,
            now,
        ).phase == Phase::Over,
{
}

/// A session ends only when no child is left.
pub proof fn sessions_wait_for_children(
    m: SessionModel,
    interrupted: bool,
    active: bool,
    now: Instant,
)
    requires
        m.phase != Phase::Over,
        m.next_step(interrupted, active, now) == Step::Exit,
    ensures
        !active,
{
}

/// A session that began to stop ends as soon as no child is left.
pub proof fn stopping_sessions_end_with_their_children(
    m: SessionModel,
    interrupted: bool,
    now: Instant,
)
    requires
        m.phase != Phase::Watching,
    ensures
        m.next_step(interrupted, false, now) == Step::Exit,
        m.stepped(interrupted, false, now).phase == Phase::Over,
{
}

/// A completed run releases the scheduler, whether it ran or could not be
/// spawned, so that it can never be stuck in a run.
pub proof fn completions_release_the_scheduler(m: SessionModel, event: EventModel, now: Instant)
    requires
        is_completion(event.kind),
        m.scheduler.runs(event.run_id),
    ensures
        !(m.after_run_event(event, now).scheduler.state is Running),
{
}

/// Whatever happens in a session, its runs are numbered in order.
pub proof fn sessions_number_runs_in_order(
    m: SessionModel,
    interrupted: bool,
    active: bool,
    event: EventModel,
    change: WatchModel,
    filter: FilterModel,
    files: Seq<IgnoreModel>,
    now: Instant,
)
    requires
        m.scheduler.wf(),
        m.can_go_on(interrupted, now),
    ensures
        m.stepped(interrupted, active, now).scheduler.wf(),
        m.after_run_event(event, now).scheduler.wf(),
        m.after_watch_event(change, filter, files, now).scheduler.wf(),
{
}

/// The loop never waits past the next deadline, nor for long.
pub proof fn waits_are_short(m: SessionModel, now: Instant)
    ensures
        0 <= m.wait_nanos(now) <= POLL_NANOS,
        m.scheduler.state matches SchedulerState::Debouncing { deadline, .. } ==> {
            &&& now.nanos <= deadline.nanos ==> now.nanos + m.wait_nanos(now) <= deadline.nanos
            &&& m.scheduler.due(now) ==> m.wait_nanos(now) == 0
        },
{
}

/// Missed events, and broad events without a path, always count.
pub proof fn conservative_events_always_count(
    event: WatchModel,
    filter: FilterModel,
    files: Seq<IgnoreModel>,
)
    requires
        event.is_overflow || (event.is_broad && event.paths.len() == 0),
    ensures
        is_relevant(event, filter, files),
{
}

/// An event that counts always leads to a run: one waits for its deadline, or
/// the run in progress is followed by another. One that does not count changes
/// nothing.
pub proof fn relevant_events_lead_to_a_run(
    m: SessionModel,
    event: WatchModel,
    filter: FilterModel,
    files: Seq<IgnoreModel>,
    now: Instant,
)
    ensures
        ({
            let after = m.after_watch_event(event, filter, files, now);
            &&& is_relevant(event, filter, files) ==> match after.scheduler.state {
                SchedulerState::Idle => false,
                SchedulerState::Debouncing { .. } => true,
                SchedulerState::Running { dirty, .. } => dirty,
            }
            &&& !is_relevant(event, filter, files) ==> after == m
        }),
{
}

/// An event counts as soon as any one of its paths is accepted, taken for a
/// directory if the event is broad or concerns one, and for a file otherwise.
pub proof fn any_accepted_path_counts(
    event: WatchModel,
    filter: FilterModel,
    files: Seq<IgnoreModel>,
    i: int,
)
    requires
        0 <= i < event.paths.len(),
        filter.accepts(
            event.paths[i],
            if event.is_directory || event.is_broad {
                PathKind::Directory
            } else {
                PathKind::File
            },
            files,
        ),
    ensures
        is_relevant(event, filter, files),
{
    assert(filter.accepts(event.paths[i], kind_of(event), files));
}

/// An event that names paths, and stands for no missed events, does not count if
/// none of its paths is accepted.
pub proof fn events_without_accepted_paths_do_not_count(
    event: WatchModel,
    filter: FilterModel,
    files: Seq<IgnoreModel>,
)
    requires
        !event.is_overflow,
        event.paths.len() > 0 || !event.is_broad,
        forall|i: int|
            0 <= i < event.paths.len() ==> !filter.accepts(
                #[trigger] event.paths[i],
                if event.is_directory || event.is_broad {
                    PathKind::Directory
                } else {
                    PathKind::File
                },
                files,
            ),
    ensures
        !is_relevant(event, filter, files),
{
}

/// An event that names more paths counts wherever one that names fewer does.
pub proof fn more_paths_count_more(
    event: WatchModel,
    more: Seq<Seq<Part>>,
    filter: FilterModel,
    files: Seq<IgnoreModel>,
)
    requires
        event.paths.len() > 0,
        is_relevant(event, filter, files),
    ensures
        is_relevant(WatchModel { paths: event.paths + more, ..event }, filter, files),
        is_relevant(WatchModel { paths: more + event.paths, ..event }, filter, files),
{
    if !event.is_overflow {
        let i = choose|i: int|
            0 <= i < event.paths.len() && filter.accepts(
                #[trigger] event.paths[i],
                kind_of(event),
                files,
            );
        let behind = WatchModel { paths: event.paths + more, ..event };
        let before = WatchModel { paths: more + event.paths, ..event };
        assert(behind.paths[i] == event.paths[i]);
        assert(filter.accepts(behind.paths[i], kind_of(behind), files));
        assert(before.paths[more.len() + i] == event.paths[i]);
        assert(filter.accepts(before.paths[more.len() + i], kind_of(before), files));
    }
}

/// An event that counts moves the scheduler exactly as a change at its time does,
/// and nothing else; one that does not count moves nothing.
pub proof fn watch_events_are_changes(
    m: SessionModel,
    event: WatchModel,
    filter: FilterModel,
    files: Seq<IgnoreModel>,
    now: Instant,
)
    ensures
        ({
            let after = m.after_watch_event(event, filter, files, now);
            &&& is_relevant(event, filter, files) ==> after.scheduler == m.scheduler.changed(now)
            &&& !is_relevant(event, filter, files) ==> after.scheduler == m.scheduler
            &&& after.output == m.output
            &&& after.phase == m.phase
            &&& after.succeeded == m.succeeded
            &&& after.until_success == m.until_success
            &&& after.print_events == m.print_events
        }),
{
}

/// Rapid changes make one run, due when the last of them has been quiet for the
/// whole debounce period: after events that count, with nothing else in between,
/// a session that waits for changes starts a run at a poll exactly if that period
/// is over.
pub proof fn bursts_make_one_run(m: SessionModel, inputs: Seq<Input>, active: bool, now: Instant)
    requires
        m.phase == Phase::Watching,
        !m.succeeded,
        m.scheduler.state is Idle || (m.scheduler.state matches SchedulerState::Debouncing {
            trigger,
            ..
        } && trigger == RunTrigger::Filesystem),
        inputs.len() > 0,
        forall|i: int|
            0 <= i < inputs.len() ==> ((#[trigger] inputs[i]) matches Input::Watch {
                change,
                filter,
                files,
                ..
            } && is_relevant(change, filter, files)),
        inputs.last()->Watch_now.nanos + m.scheduler.debounce.nanos <= u128::MAX,
    ensures
        m.after_all(inputs).next_step(false, active, now) == (Step::Watch {
            run: if inputs.last()->Watch_now.nanos + m.scheduler.debounce.nanos <= now.nanos {
                Some(
                    ScheduledRun {
                        id: m.scheduler.next_run_id,
                        trigger: RunTrigger::Filesystem,
                    },
                )
            } else {
                None
            },
        }),
        m.after_all(inputs).output == m.output,
{
    let init = inputs.drop_last();
    assert forall|i: int| 0 <= i < init.len() implies ((#[trigger] init[i]) matches Input::Watch {
        change,
        filter,
        files,
        ..
    } && is_relevant(change, filter, files)) by {
        assert(init[i] == inputs[i]);
    }
    bursts_keep_waiting(m, init);
    assert(inputs[inputs.len() - 1] == inputs.last());
    a_change_restarts_the_quiet_period(
        m.after_all(init).scheduler,
        inputs.last()->Watch_now,
        now,
    );
}

proof fn bursts_keep_waiting(m: SessionModel, inputs: Seq<Input>)
    requires
        m.scheduler.state is Idle || (m.scheduler.state matches SchedulerState::Debouncing {
            trigger,
            ..
        } && trigger == RunTrigger::Filesystem),
        forall|i: int|
            0 <= i < inputs.len() ==> ((#[trigger] inputs[i]) matches Input::Watch {
                change,
                filter,
                files,
                ..
            } && is_relevant(change, filter, files)),
    ensures
        ({
            let after = m.after_all(inputs);
            &&& after == (SessionModel {
                scheduler: SchedulerModel { state: after.scheduler.state, ..m.scheduler },
                ..m
            })
            &&& after.scheduler.state is Idle || (
            after.scheduler.state matches SchedulerState::Debouncing { trigger, .. } && trigger
                == RunTrigger::Filesystem)
        }),
    decreases inputs.len(),
{
    if inputs.len() > 0 {
        let init = inputs.drop_last();
        assert forall|i: int| 0 <= i < init.len() implies ((
        #[trigger] init[i]) matches Input::Watch { change, filter, files, .. } && is_relevant(
            change,
            filter,
            files,
        )) by {
            assert(init[i] == inputs[i]);
        }
        bursts_keep_waiting(m, init);
        assert(inputs[inputs.len() - 1] == inputs.last());
    }
}

/// Changes during a run start nothing while it goes on, and one follow-up as soon
/// as it completes, unless the session then ends.
pub proof fn changes_during_a_run_are_followed_up(
    m: SessionModel,
    change: WatchModel,
    filter: FilterModel,
    files: Seq<IgnoreModel>,
    at: Instant,
    event: EventModel,
    end: Instant,
    active: bool,
    now: Instant,
)
    requires
        m.phase == Phase::Watching,
        !m.succeeded,
        m.scheduler.state matches SchedulerState::Running { run_id, .. } && run_id == event.run_id,
        is_relevant(change, filter, files),
        event.kind is Finished || event.kind is SpawnFailed,
        event.kind != (KindModel::Finished { status: StatusModel::ExitCode(0) }),
        end.nanos <= now.nanos,
    ensures
        m.after_watch_event(change, filter, files, at).next_step(false, active, now) == (
        Step::Watch { run: None }),
        m.after_watch_event(change, filter, files, at).after_run_event(event, end).next_step(
            false,
            active,
            now,
        ) == (Step::Watch {
            run: Some(
                ScheduledRun { id: m.scheduler.next_run_id, trigger: RunTrigger::Filesystem },
            ),
        }),
{
}

/// A watching session that is interrupted tells children to stop, whether or not
/// there is one, starts nothing, and gives them half a second.
pub proof fn interruptions_stop_the_session(m: SessionModel, active: bool, now: Instant)
    requires
        m.phase == Phase::Watching,
        now.nanos + 500_000_000 <= u128::MAX,
    ensures
        m.next_step(true, active, now) == Step::Shutdown,
        m.stepped(true, active, now) == (SessionModel {
            phase: Phase::Stopping { deadline: Instant { nanos: (now.nanos + 500_000_000) as u128 } },
            ..m
        }),
{
}

/// A session that is interrupted while no child is left ends with the poll after.
pub proof fn interrupted_sessions_without_children_end(
    m: SessionModel,
    now: Instant,
    interrupted: bool,
    later: Instant,
)
    requires
        m.phase == Phase::Watching,
    ensures
        m.next_step(true, false, now) == Step::Shutdown,
        m.stepped(true, false, now).next_step(interrupted, false, later) == Step::Exit,
{
}

/// A session that is not to stop takes the run that is due, if one is, and leaves
/// everything but its scheduler alone.
pub proof fn watching_sessions_take_due_runs(m: SessionModel, active: bool, now: Instant)
    requires
        m.phase == Phase::Watching,
        !m.succeeded,
        m.scheduler.next_run_id < u64::MAX,
    ensures
        m.next_step(false, active, now) == (Step::Watch {
            run: match m.scheduler.state {
                SchedulerState::Debouncing { deadline, trigger } if deadline.nanos
                    <= now.nanos => Some(ScheduledRun { id: m.scheduler.next_run_id, trigger }),
                _ => None,
            },
        }),
        m.stepped(false, active, now) == (SessionModel {
            scheduler: m.scheduler.taken(now),
            ..m
        }),
        // A run that was taken is not taken again.
        m.next_step(false, active, now)->run is Some ==> m.stepped(false, active, now).next_step(
            false,
            active,
            now,
        ) == (Step::Watch { run: None }),
{
}

/// Children that were told to stop are waited for, 25 milliseconds at a time,
/// until they are gone or the deadline has come, and are killed then. Nothing but
/// the phase changes.
pub proof fn stopping_sessions_wait_then_kill(
    m: SessionModel,
    deadline: Instant,
    interrupted: bool,
    active: bool,
    now: Instant,
)
    requires
        m.phase == (Phase::Stopping { deadline }),
    ensures
        m.next_step(interrupted, active, now) == if !active {
            Step::Exit
        } else if now.nanos < deadline.nanos {
            Step::Wait { span: Duration { nanos: 25_000_000 } }
        } else {
            Step::ForceShutdown
        },
        m.stepped(interrupted, active, now) == (SessionModel {
            phase: if !active {
                Phase::Over
            } else if now.nanos < deadline.nanos {
                m.phase
            } else {
                Phase::Killing
            },
            ..m
        }),
{
}

/// Children that were killed are waited for until they are gone; then the session
/// is over and stays so.
pub proof fn killed_children_are_waited_for(
    m: SessionModel,
    interrupted: bool,
    active: bool,
    now: Instant,
)
    ensures
        m.phase == Phase::Killing && active ==> {
            &&& m.next_step(interrupted, active, now) == (Step::Wait {
                span: Duration { nanos: 25_000_000 },
            })
            &&& m.stepped(interrupted, active, now) == m
        },
        m.phase == Phase::Killing && !active ==> {
            &&& m.next_step(interrupted, active, now) == Step::Exit
            &&& m.stepped(interrupted, active, now) == (SessionModel { phase: Phase::Over, ..m })
        },
        m.phase == Phase::Over ==> {
            &&& m.next_step(interrupted, active, now) == Step::Exit
            &&& m.stepped(interrupted, active, now) == m
        },
{
}

/// Every event of a run is rendered, whatever it is, and the events of a run
/// change neither the phase nor the settings.
pub proof fn every_run_event_is_rendered(m: SessionModel, event: EventModel, now: Instant)
    ensures
        m.after_run_event(event, now).output == m.output.rendered(event),
        m.after_run_event(event, now).phase == m.phase,
        m.after_run_event(event, now).until_success == m.until_success,
        m.after_run_event(event, now).print_events == m.print_events,
{
}

/// What a child writes, to either stream and in every mode, is added to what
/// waits for standard output as it is.
pub proof fn child_output_waits_to_be_written(m: SessionModel, event: EventModel, now: Instant)
    requires
        event.kind is Output,
    ensures
        m.after_run_event(event, now).output.output == m.output.output + event.kind->bytes,
        m.after_run_event(event, now).output.diagnostics == m.output.diagnostics,
{
    child_output_is_added_as_it_is(m.output, event);
}

/// The inputs that tell a session of `events`, one at each of `times`.
pub open spec fn run_inputs(events: Seq<EventModel>, times: Seq<Instant>) -> Seq<Input> {
    Seq::new(events.len(), |i: int| Input::Run { event: events[i], now: times[i] })
}

/// What a session has to write after a sequence of run events is what the
/// renderer makes of all of them in order and, without markers, the bytes of every
/// output event, of either stream, behind what waited before.
pub proof fn sessions_write_what_was_rendered(
    m: SessionModel,
    events: Seq<EventModel>,
    times: Seq<Instant>,
)
    requires
        times.len() == events.len(),
    ensures
        m.after_all(run_inputs(events, times)).output == m.output.rendered_all(events),
        m.output.mode == OutputMode::Passthrough ==> m.after_all(
            run_inputs(events, times),
        ).output.output == m.output.output + child_bytes(events),
    decreases events.len(),
{
    let inputs = run_inputs(events, times);
    if events.len() > 0 {
        sessions_write_what_was_rendered(m, events.drop_last(), times.drop_last());
        assert(inputs.drop_last() =~= run_inputs(events.drop_last(), times.drop_last()));
        assert(inputs.last() == (Input::Run { event: events.last(), now: times.last() }));
    }
    if m.output.mode == OutputMode::Passthrough {
        passthrough_preserves_child_output(m.output, events);
    }
}

/// The end of a run, and a failure to spawn it, complete that run at that time;
/// its start and its output leave the scheduler alone.
pub proof fn only_completions_move_the_scheduler(m: SessionModel, event: EventModel, now: Instant)
    ensures
        event.kind is Finished || event.kind is SpawnFailed ==> m.after_run_event(
            event,
            now,
        ).scheduler == m.scheduler.finished(event.run_id, now),
        event.kind is Started || event.kind is Output ==> m.after_run_event(event, now).scheduler
            == m.scheduler,
{
}

/// The session ends by itself exactly if it was asked to and a run exits with
/// code zero: not by another code, a signal, a failure to spawn, or anything that
/// is no completion.
pub proof fn only_exit_code_zero_is_success(
    m: SessionModel,
    event: EventModel,
    end: Instant,
    active: bool,
    now: Instant,
)
    requires
        m.phase == Phase::Watching,
        !m.succeeded,
    ensures
        m.after_run_event(event, end).next_step(false, active, now) == Step::Shutdown
            <==> (m.until_success && event.kind == (KindModel::Finished {
            status: StatusModel::ExitCode(0),
        })),
{
}

/// A fresh session watches, has nothing to write, and goes by the settings it was
/// given.
pub proof fn fresh_sessions_watch(
    debounce: Duration,
    initial_run: bool,
    mode: OutputMode,
    until_success: bool,
    print_events: bool,
    active: bool,
    now: Instant,
)
    ensures
        ({
            let m = SessionModel::fresh(debounce, initial_run, mode, until_success, print_events);
            &&& m.next_step(false, active, now) == (Step::Watch {
                run: if initial_run {
                    Some(ScheduledRun { id: 1, trigger: RunTrigger::Initial })
                } else {
                    None
                },
            })
            &&& m.output.output.len() == 0 && m.output.diagnostics.len() == 0
            &&& m.output.at_line_start && m.output.mode == mode
            &&& m.until_success == until_success && m.print_events == print_events
            &&& m.scheduler.debounce == debounce
        }),
{
}

/// The loop waits until the next deadline, or for 25 milliseconds if that is
/// further away or there is none.
pub proof fn waits_reach_the_next_deadline(m: SessionModel, now: Instant)
    ensures
        m.wait_nanos(now) == match m.scheduler.state {
            SchedulerState::Debouncing { deadline, .. } => if deadline.nanos <= now.nanos {
                0
            } else if deadline.nanos < now.nanos + 25_000_000 {
                deadline.nanos - now.nanos
            } else {
                25_000_000
            },
            _ => 25_000_000,
        },
{
}

/// A session can go on, and take in changes, as long as runs can be numbered and
/// the clock can name what lies ahead.
pub proof fn sessions_can_go_on(m: SessionModel, interrupted: bool, now: Instant)
    requires
        m.scheduler.next_run_id < u64::MAX,
        now.nanos + 500_000_000 <= u128::MAX,
        now.nanos + m.scheduler.debounce.nanos <= u128::MAX,
    ensures
        m.can_go_on(interrupted, now),
        m.can_change(now),
{
}

/// An accepted event is reported by a line for each of its paths, in order; one
/// without paths, and one that stands for missed events, by a line of its own.
pub proof fn accepted_events_are_reported(event: WatchModel, path: Seq<Part>)
    ensures
        event.is_overflow ==> event_text(event)
            == "stalker: accepted filesystem overflow/rescan\n"@,
        !event.is_overflow && event.paths.len() == 0 ==> event_text(event)
            == "stalker: accepted broad filesystem event\n"@,
        !event.is_overflow && event.paths.len() > 0 ==> event_text(
            WatchModel { paths: event.paths.push(path), ..event },
        ) == event_text(event) + ("stalker: accepted filesystem event "@ + lossy_text(
            bytes_of(path),
        ) + "\n"@),
        !event.is_overflow ==> event_text(WatchModel { paths: seq![path], ..event })
            == "stalker: accepted filesystem event "@ + lossy_text(bytes_of(path)) + "\n"@,
{
    assert(event.paths.push(path).drop_last() =~= event.paths);
    assert(seq![path].drop_last() =~= Seq::<Seq<Part>>::empty());
    assert(path_lines(Seq::<Seq<Part>>::empty()) =~= Seq::<char>::empty());
    assert(Seq::<char>::empty() + path_line(path) =~= path_line(path));
}

/// A run event leaves the phase and the settings alone, and a success is never
/// forgotten: after it the session has succeeded exactly if it had before, or if
/// it was asked to end so and the run exits with code zero.
pub proof fn successes_are_never_forgotten(m: SessionModel, event: EventModel, now: Instant)
    ensures
        m.after_run_event(event, now).succeeded <==> m.succeeded || (m.until_success && event.kind
            == (KindModel::Finished { status: StatusModel::ExitCode(0) })),
        m.after_run_event(event, now).phase == m.phase,
        m.after_run_event(event, now).until_success == m.until_success,
        m.after_run_event(event, now).print_events == m.print_events,
{
}

} // verus!
