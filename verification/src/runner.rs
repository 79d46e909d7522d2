//! Child-process bookkeeping, output streaming, and shutdown.
//!
//! The runner decides; whoever owns the processes spawns, reads, waits and
//! signals as it says.

use vstd::prelude::*;

use crate::path::copy_bytes;
use crate::{
    CommandId, EventModel, KindModel, OutputStream, RunEvent, RunEventKind, RunId, RunStatus,
    RunTrigger, StatusModel,
};

verus! {

pub const SIGINT: i32 = 2;

pub const SIGKILL: i32 = 9;

pub const SIGTERM: i32 = 15;

/// How the child's two output streams are set up.
#[derive(Clone, Copy, Debug, PartialEq, Eq, Structural)]
pub enum ChildStreams {
    /// They are Stalker's own.
    Inherited,
    /// They are read and forwarded as events.
    Captured,
}

/// A signal for a process group, named as the operating system wants it: by the
/// negative number of its leader.
#[derive(Clone, Copy, Debug, PartialEq, Eq, Structural)]
pub struct SignalRequest {
    pub target: i32,
    pub signal: i32,
}

/// How a child exited: by a signal, or else with a code if there is one. Where
/// the operating system has no signals there is never one.
#[derive(Clone, Copy, Debug, PartialEq, Eq, Structural)]
pub struct ExitReport {
    pub signal: Option<i32>,
    pub code: Option<i32>,
}

/// The number by which the process group of `pid` is signalled: the two's
/// complement negative of `pid`.
pub open spec fn group_of(pid: u32) -> int {
    if pid <= 0x8000_0000 {
        -(pid as int)
    } else {
        0x1_0000_0000 - pid
    }
}

/// The signal request for the process group of `pid`.
pub open spec fn request_for(pid: u32, signal: i32) -> SignalRequest {
    SignalRequest { target: group_of(pid) as i32, signal }
}

/// The request that signals the process group of `pid`.
pub fn signal_process(pid: u32, signal: i32) -> (request: SignalRequest)
    ensures
        request == request_for(pid, signal),
        request.target == group_of(pid),
{
    let target: i32 = if pid < 0x8000_0000 {
        -(pid as i32)
    } else if pid == 0x8000_0000 {
        i32::MIN
    } else {
        ((0xffff_ffff - pid) + 1) as i32
    };
    SignalRequest { target, signal }
}

/// The name of a signal in a run's outcome.
pub open spec fn name_of_signal(signal: i32) -> Seq<char> {
    if signal == SIGINT {
        "SIGINT"@
    } else if signal == SIGTERM {
        "SIGTERM"@
    } else if signal == SIGKILL {
        "SIGKILL"@
    } else {
        "SIGNAL"@
    }
}

/// The outcome of a run, from what waiting for the child gave: an exit, or
/// nothing when the wait failed.
pub open spec fn outcome(waited: Option<ExitReport>) -> StatusModel {
    match waited {
        None => StatusModel::Signal("UNKNOWN"@),
        Some(report) => match (report.signal, report.code) {
            (Some(signal), _) => StatusModel::Signal(name_of_signal(signal)),
            (None, Some(code)) => StatusModel::ExitCode(code as int),
            (None, None) => StatusModel::ExitCode(-1),
        },
    }
}

/// The outcome of a run. A failed wait is rare, but the run must still complete
/// so the scheduler cannot become stuck in Running.
pub fn status_to_run_status(waited: Option<ExitReport>) -> (status: RunStatus)
    ensures
        status@ == outcome(waited),
{
    match waited {
        Some(report) => exit_status_to_run_status(report),
        None => RunStatus::Signal("UNKNOWN".to_owned()),
    }
}

fn exit_status_to_run_status(report: ExitReport) -> (status: RunStatus)
    ensures
        status@ == outcome(Some(report)),
{
    match report.signal {
        Some(signal) => RunStatus::Signal(signal_name(signal).to_owned()),
        None => match report.code {
            Some(code) => RunStatus::ExitCode(code),
            None => RunStatus::ExitCode(-1),
        },
    }
}

fn signal_name(signal: i32) -> (name: &'static str)
    ensures
        name@ == name_of_signal(signal),
{
    if signal == SIGINT {
        "SIGINT"
    } else if signal == SIGTERM {
        "SIGTERM"
    } else if signal == SIGKILL {
        "SIGKILL"
    } else {
        "SIGNAL"
    }
}

/// The event for one read of a child's stream into `buffer`, where `read` is
/// the number of bytes read, or nothing when the read failed. The stream is
/// finished, and there is no event, at its end and after a failure.
pub fn read_event(stream: OutputStream, buffer: &[u8], read: Option<usize>) -> (event: Option<
    RunEventKind,
>)
    requires
        read matches Some(length) ==> length <= buffer@.len(),
    ensures
        match event {
            Some(kind) => {
                &&& read matches Some(length) && length > 0
                &&& kind@ == (KindModel::Output { stream, bytes: buffer@.take(read->0 as int) })
            },
            None => read is None || read == Some(0usize),
        },
{
    match read {
        Some(length) => if length == 0 {
            None
        } else {
            let bytes = copy_bytes(buffer, 0, length);
            assert(bytes@ =~= buffer@.take(length as int));
            Some(RunEventKind::Output { stream, bytes })
        },
        None => None,
    }
}

/// An event of run `run_id` of the command.
pub fn run_event(
    command_id: &CommandId,
    run_id: RunId,
    kind: RunEventKind,
    timestamp: std::time::SystemTime,
) -> (event: RunEvent)
    ensures
        event@ == (EventModel { command_id: command_id@, run_id, kind: kind@ }),
        event.timestamp == timestamp,
{
    RunEvent { command_id: command_id.clone(), run_id, kind, timestamp }
}

/// A command whose process slot is taken, and the process once it exists.
#[derive(Debug)]
struct ActiveProcess {
    id: CommandId,
    pid: Option<u32>,
}

/// Decides what to do about child processes, from start to end.
///
/// A command's slot is taken before its worker exists and freed before its
/// completion is published, so shutdown can wait for every worker, and a
/// completed run has no process.
#[derive(Debug)]
pub struct ChildRunner {
    raw_output: bool,
    active: Vec<ActiveProcess>,
    stopping: bool,
}

/// What a runner knows: which commands hold a slot, with the process where there
/// is one, and whether it is stopping.
pub ghost struct RunnerModel {
    pub raw_output: bool,
    pub active: Map<Seq<char>, Option<u32>>,
    pub stopping: bool,
}

impl RunnerModel {
    /// A runner with nothing to run.
    pub open spec fn fresh(raw_output: bool) -> RunnerModel {
        RunnerModel { raw_output, active: Map::empty(), stopping: false }
    }

    /// After the start of `id` was asked for: the slot is taken, unless the
    /// runner is stopping.
    pub open spec fn started(self, id: Seq<char>) -> RunnerModel {
        if self.stopping {
            self
        } else {
            RunnerModel { active: self.active.insert(id, None), ..self }
        }
    }

    /// After the slot of `id` was freed.
    pub open spec fn freed(self, id: Seq<char>) -> RunnerModel {
        RunnerModel { active: self.active.remove(id), ..self }
    }

    /// After the worker of `id` began: a stopping runner frees the slot.
    pub open spec fn begun(self, id: Seq<char>) -> RunnerModel {
        if self.stopping {
            self.freed(id)
        } else {
            self
        }
    }

    /// After the process of `id` came to be.
    pub open spec fn spawned(self, id: Seq<char>, pid: u32) -> RunnerModel {
        RunnerModel {
            active: if self.active.contains_key(id) {
                self.active.insert(id, Some(pid))
            } else {
                self.active
            },
            ..self
        }
    }

    /// After shutdown began.
    pub open spec fn stopped(self) -> RunnerModel {
        RunnerModel { stopping: true, ..self }
    }

    /// Whether `requests` are one request with `signal` for each process, in
    /// some order.
    pub open spec fn signals_each(self, requests: Seq<SignalRequest>, signal: i32) -> bool {
        exists|ids: Seq<Seq<char>>| #[trigger]
            self.lists_processes(ids) && requests == ids.map_values(
                |id: Seq<char>| request_for(self.active[id]->0, signal),
            )
    }

    /// Whether `request` is the one with `signal` for the process of `id`.
    pub open spec fn owns(self, id: Seq<char>, signal: i32, request: SignalRequest) -> bool {
        &&& self.active.contains_key(id)
        &&& self.active[id] matches Some(pid) && request == request_for(pid, signal)
    }

    /// Whether `ids` are the commands that have a process, each of them once.
    pub open spec fn lists_processes(self, ids: Seq<Seq<char>>) -> bool {
        &&& ids.no_duplicates()
        &&& forall|id: Seq<char>| #[trigger]
            ids.contains(id) <==> self.active.contains_key(id) && self.active[id] is Some
    }
}

/// The slots that a table of active processes stands for.
spec fn table(active: Seq<ActiveProcess>) -> Map<Seq<char>, Option<u32>>
    decreases active.len(),
{
    if active.len() == 0 {
        Map::empty()
    } else {
        table(active.drop_last()).insert(active.last().id@, active.last().pid)
    }
}

spec fn distinct(active: Seq<ActiveProcess>) -> bool {
    forall|i: int, j: int|
        0 <= i < j < active.len() ==> (#[trigger] active[i]).id@ != (#[trigger] active[j]).id@
}

proof fn table_lookup(active: Seq<ActiveProcess>)
    requires
        distinct(active),
    ensures
        forall|i: int|
            0 <= i < active.len() ==> table(active).contains_key((#[trigger] active[i]).id@)
                && table(active)[active[i].id@] == active[i].pid,
        forall|id: Seq<char>| #[trigger]
            table(active).contains_key(id) ==> exists|i: int|
                0 <= i < active.len() && (#[trigger] active[i]).id@ == id,
    decreases active.len(),
{
    if active.len() > 0 {
        let init = active.drop_last();
        assert(distinct(init)) by {
            assert forall|i: int, j: int| 0 <= i < j < init.len() implies (#[trigger] init[i]).id@
                != (#[trigger] init[j]).id@ by {
                assert(active[i].id@ != active[j].id@);
            }
        }
        table_lookup(init);
        assert forall|i: int| 0 <= i < active.len() implies table(active).contains_key(
            (#[trigger] active[i]).id@,
        ) && table(active)[active[i].id@] == active[i].pid by {
            if i < init.len() {
                assert(init[i] == active[i]);
                assert(active[i].id@ != active[active.len() - 1].id@);
            }
        }
        assert forall|id: Seq<char>| #[trigger] table(active).contains_key(id) implies exists|
            i: int,
        |
            0 <= i < active.len() && (#[trigger] active[i]).id@ == id by {
            if id == active.last().id@ {
                assert(active[active.len() - 1].id@ == id);
            } else {
                assert(table(init).contains_key(id));
                let i = choose|i: int| 0 <= i < init.len() && (#[trigger] init[i]).id@ == id;
                assert(active[i].id@ == id);
            }
        }
    }
}

impl View for ChildRunner {
    type V = RunnerModel;

    closed spec fn view(&self) -> RunnerModel {
        RunnerModel {
            raw_output: self.raw_output,
            active: table(self.active@),
            stopping: self.stopping,
        }
    }
}

fn find_process(active: &Vec<ActiveProcess>, id: &CommandId) -> (place: Option<usize>)
    requires
        distinct(active@),
    ensures
        match place {
            Some(i) => i < active@.len() && active@[i as int].id@ == id@,
            None => !table(active@).contains_key(id@),
        },
{
    let mut i: usize = 0;
    while i < active.len()
        invariant
            i <= active@.len(),
            forall|j: int| 0 <= j < i ==> (#[trigger] active@[j]).id@ != id@,
        decreases active@.len() - i,
    {
        if active[i].id.0 == id.0 {
            return Some(i);
        }
        i = i + 1;
    }
    proof {
        table_lookup(active@);
    }
    None
}

/// What to do once a process exists.
#[derive(Debug)]
pub struct Launch {
    /// The event to publish.
    pub event: RunEventKind,
    /// The signal to send at once, when shutdown came first.
    pub signal: Option<SignalRequest>,
    /// Whether the child's streams are to be read.
    pub streams: ChildStreams,
}

/// How a runner sets up the streams of a child. With raw output they are
/// Stalker's own, so that terminal-aware programs keep their terminal.
pub open spec fn streams_for(raw_output: bool) -> ChildStreams {
    if raw_output {
        ChildStreams::Inherited
    } else {
        ChildStreams::Captured
    }
}

impl ChildRunner {
    #[verifier::type_invariant]
    spec fn slots_are_distinct(self) -> bool {
        distinct(self.active@)
    }

    /// When `raw_output` is enabled, child stdout and stderr inherit Stalker's
    /// terminal instead of being captured and forwarded through the event bus.
    pub fn new(raw_output: bool) -> (runner: ChildRunner)
        ensures
            runner@ == RunnerModel::fresh(raw_output),
    {
        ChildRunner { raw_output, active: Vec::new(), stopping: false }
    }

    fn streams(&self) -> (streams: ChildStreams)
        ensures
            streams == streams_for(self@.raw_output),
    {
        if self.raw_output {
            ChildStreams::Inherited
        } else {
            ChildStreams::Captured
        }
    }

    /// Put `pid` into the slot of `id`, which is taken if need be.
    fn set_slot(&mut self, id: &CommandId, pid: Option<u32>)
        ensures
            final(self)@ == (RunnerModel {
                active: old(self)@.active.insert(id@, pid),
                ..old(self)@
            }),
    {
        proof {
            use_type_invariant(&*self);
        }
        let mut active: Vec<ActiveProcess> = Vec::new();
        std::mem::swap(&mut active, &mut self.active);
        let ghost before = active@;
        let process = ActiveProcess { id: id.clone(), pid };
        match find_process(&active, id) {
            Some(i) => {
                active.set(i, process);
            },
            None => {
                active.push(process);
            },
        }
        proof {
            table_lookup(before);
            assert(distinct(active@)) by {
                assert forall|i: int, j: int| 0 <= i < j < active@.len() implies (
                #[trigger] active@[i]).id@ != (#[trigger] active@[j]).id@ by {
                    if i < before.len() && j < before.len() {
                        assert(before[i].id@ != before[j].id@);
                    } else {
                        assert(table(before).contains_key(before[i].id@));
                    }
                }
            }
            table_lookup(active@);
            assert forall|key: Seq<char>| #[trigger]
                table(active@).contains_key(key) == table(before).insert(id@, pid).contains_key(
                    key,
                ) by {
                if table(active@).contains_key(key) && key != id@ {
                    let i = choose|i: int|
                        0 <= i < active@.len() && (#[trigger] active@[i]).id@ == key;
                    assert(before[i].id@ == key);
                }
                if table(before).contains_key(key) {
                    let i = choose|i: int|
                        0 <= i < before.len() && (#[trigger] before[i]).id@ == key;
                    assert(active@[i].id@ == key);
                }
                if key == id@ {
                    let i = choose|i: int|
                        0 <= i < active@.len() && (#[trigger] active@[i]).id@ == key;
                }
            }
            assert forall|key: Seq<char>| #[trigger]
                table(active@).contains_key(key) implies table(active@)[key] == table(
                before,
            ).insert(id@, pid)[key] by {
                let i = choose|i: int| 0 <= i < active@.len() && (#[trigger] active@[i]).id@ == key;
                if key != id@ {
                    assert(before[i].id@ == key);
                }
            }
            assert(table(active@) =~= table(before).insert(id@, pid));
        }
        self.active = active;
    }

    /// Free the slot of `id`.
    fn remove_active(&mut self, id: &CommandId)
        ensures
            final(self)@ == old(self)@.freed(id@),
    {
        proof {
            use_type_invariant(&*self);
        }
        let mut active: Vec<ActiveProcess> = Vec::new();
        std::mem::swap(&mut active, &mut self.active);
        let ghost before = active@;
        match find_process(&active, id) {
            Some(i) => {
                active.remove(i);
                proof {
                    table_lookup(before);
                    assert(distinct(active@)) by {
                        assert forall|a: int, b: int| 0 <= a < b < active@.len() implies (
                        #[trigger] active@[a]).id@ != (#[trigger] active@[b]).id@ by {
                            let a0 = if a < i {
                                a
                            } else {
                                a + 1
                            };
                            let b0 = if b < i {
                                b
                            } else {
                                b + 1
                            };
                            assert(before[a0].id@ != before[b0].id@);
                        }
                    }
                    table_lookup(active@);
                    assert forall|key: Seq<char>| #[trigger]
                        table(active@).contains_key(key) == table(before).remove(id@).contains_key(
                            key,
                        ) by {
                        if table(active@).contains_key(key) {
                            let a = choose|a: int|
                                0 <= a < active@.len() && (#[trigger] active@[a]).id@ == key;
                            let a0 = if a < i {
                                a
                            } else {
                                a + 1
                            };
                            assert(before[a0].id@ == key);
                            assert(before[i as int].id@ == id@);
                            assert(key != id@);
                        }
                        if table(before).contains_key(key) && key != id@ {
                            let a = choose|a: int|
                                0 <= a < before.len() && (#[trigger] before[a]).id@ == key;
                            let a0 = if a < i {
                                a
                            } else {
                                a - 1
                            };
                            assert(active@[a0].id@ == key);
                        }
                    }
                    assert forall|key: Seq<char>| #[trigger]
                        table(active@).contains_key(key) implies table(active@)[key] == table(
                        before,
                    ).remove(id@)[key] by {
                        let a = choose|a: int|
                            0 <= a < active@.len() && (#[trigger] active@[a]).id@ == key;
                        let a0 = if a < i {
                            a
                        } else {
                            a + 1
                        };
                        assert(before[a0].id@ == key);
                    }
                    assert(table(active@) =~= table(before).remove(id@));
                }
            },
            None => {
                assert(table(before) =~= table(before).remove(id@));
            },
        }
        self.active = active;
    }

    /// Whether a command has to be started, which takes its slot. Shutdown can
    /// then wait for a worker still between scheduling and spawning.
    pub fn start(&mut self, id: &CommandId) -> (start: bool)
        ensures
            start == !old(self)@.stopping,
            final(self)@ == old(self)@.started(id@),
    {
        if self.stopping {
            return false;
        }
        self.set_slot(id, None);
        true
    }

    /// Whether the worker of a started command is to spawn it, and with which
    /// streams. A stopping runner spawns nothing and frees the slot.
    pub fn begin(&mut self, id: &CommandId) -> (streams: Option<ChildStreams>)
        ensures
            streams == if old(self)@.stopping {
                None
            } else {
                Some(streams_for(old(self)@.raw_output))
            },
            final(self)@ == old(self)@.begun(id@),
    {
        if self.stopping {
            self.remove_active(id);
            return None;
        }
        Some(self.streams())
    }

    /// Records that a command could not be spawned, and gives the completion to
    /// publish.
    pub fn spawn_failed(&mut self, id: &CommandId, message: String) -> (event: RunEventKind)
        ensures
            event@ == (KindModel::SpawnFailed { message: message@ }),
            final(self)@ == old(self)@.freed(id@),
    {
        self.remove_active(id);
        RunEventKind::SpawnFailed { message }
    }

    /// Records the process of a command, and tells what to do about it. When
    /// shutdown came first, the process is stopped at once.
    pub fn spawned(&mut self, id: &CommandId, pid: u32, trigger: RunTrigger) -> (launch: Launch)
        ensures
            launch.event@ == (KindModel::Started { trigger }),
            launch.signal == if old(self)@.stopping {
                Some(request_for(pid, SIGTERM))
            } else {
                None
            },
            launch.streams == streams_for(old(self)@.raw_output),
            final(self)@ == old(self)@.spawned(id@, pid),
    {
        proof {
            use_type_invariant(&*self);
            table_lookup(self.active@);
        }
        match find_process(&self.active, id) {
            Some(_) => {
                self.set_slot(id, Some(pid));
            },
            None => {},
        }
        Launch {
            event: RunEventKind::Started { trigger },
            signal: if self.stopping {
                Some(signal_process(pid, SIGTERM))
            } else {
                None
            },
            streams: self.streams(),
        }
    }

    /// Records that a command's process ended and its streams are read, and
    /// gives the completion to publish.
    pub fn finished(&mut self, id: &CommandId, waited: Option<ExitReport>) -> (event: RunEventKind)
        ensures
            event@ == (KindModel::Finished { status: outcome(waited) }),
            final(self)@ == old(self)@.freed(id@),
    {
        self.remove_active(id);
        RunEventKind::Finished { status: status_to_run_status(waited) }
    }

    /// Stop every active child. Each child runs in its own process group, so
    /// this also stops descendants such as test runners.
    pub fn shutdown(&mut self) -> (requests: Vec<SignalRequest>)
        ensures
            old(self)@.signals_each(requests@, SIGTERM),
            final(self)@ == old(self)@.stopped(),
    {
        proof {
            use_type_invariant(&*self);
        }
        self.stopping = true;
        let requests = self.signal_active_processes(SIGTERM);
        proof {
            let before = old(self)@;
            let ids = choose|ids: Seq<Seq<char>>| #[trigger]
                self@.lists_processes(ids) && requests@ == ids.map_values(
                    |id: Seq<char>| request_for(self@.active[id]->0, SIGTERM),
                );
            assert(before.active == self@.active);
            assert(before.lists_processes(ids));
            assert(requests@ =~= ids.map_values(
                |id: Seq<char>| request_for(before.active[id]->0, SIGTERM),
            ));
        }
        requests
    }

    /// Force-stop every active child group after a graceful shutdown period.
    pub fn force_shutdown(&self) -> (requests: Vec<SignalRequest>)
        ensures
            self@.signals_each(requests@, SIGKILL),
    {
        self.signal_active_processes(SIGKILL)
    }

    fn signal_active_processes(&self, signal: i32) -> (requests: Vec<SignalRequest>)
        ensures
            self@.signals_each(requests@, signal),
    {
        proof {
            use_type_invariant(self);
            table_lookup(self.active@);
        }
        let ghost model = self@;
        let mut requests: Vec<SignalRequest> = Vec::new();
        let mut ids: Ghost<Seq<Seq<char>>> = Ghost(Seq::empty());
        let mut i: usize = 0;
        while i < self.active.len()
            invariant
                i <= self.active@.len(),
                model == self@,
                model.active == table(self.active@),
                distinct(self.active@),
                forall|j: int|
                    0 <= j < self.active@.len() ==> model.active.contains_key(
                        (#[trigger] self.active@[j]).id@,
                    ) && model.active[self.active@[j].id@] == self.active@[j].pid,
                ids@.no_duplicates(),
                requests@ == ids@.map_values(
                    |id: Seq<char>| request_for(model.active[id]->0, signal),
                ),
                forall|id: Seq<char>| #[trigger]
                    ids@.contains(id) <==> exists|j: int|
                        0 <= j < i && (#[trigger] self.active@[j]).id@ == id
                            && self.active@[j].pid is Some,
            decreases self.active@.len() - i,
        {
            let ghost before = ids@;
            let ghost key = self.active@[i as int].id@;
            match self.active[i].pid {
                Some(pid) => {
                    requests.push(signal_process(pid, signal));
                    proof {
                        if before.contains(key) {
                            let j = choose|j: int|
                                0 <= j < i && (#[trigger] self.active@[j]).id@ == key
                                    && self.active@[j].pid is Some;
                            assert(self.active@[j].id@ != self.active@[i as int].id@);
                        }
                        ids@ = before.push(key);
                        assert(ids@.no_duplicates());
                        assert(requests@ =~= ids@.map_values(
                            |id: Seq<char>| request_for(model.active[id]->0, signal),
                        ));
                        assert forall|id: Seq<char>| #[trigger]
                            ids@.contains(id) <==> exists|j: int|
                                0 <= j < i + 1 && (#[trigger] self.active@[j]).id@ == id
                                    && self.active@[j].pid is Some by {
                            if ids@.contains(id) {
                                if id == key {
                                    assert(self.active@[i as int].id@ == id);
                                } else {
                                    let k = choose|k: int| 0 <= k < ids@.len() && ids@[k] == id;
                                    assert(before[k] == id);
                                    assert(before.contains(id));
                                }
                            }
                            if exists|j: int|
                                0 <= j < i + 1 && (#[trigger] self.active@[j]).id@ == id
                                    && self.active@[j].pid is Some {
                                let j = choose|j: int|
                                    0 <= j < i + 1 && (#[trigger] self.active@[j]).id@ == id
                                        && self.active@[j].pid is Some;
                                if j == i {
                                    assert(ids@[before.len() as int] == id);
                                } else {
                                    assert(before.contains(id));
                                    let k = choose|k: int| 0 <= k < before.len() && before[k] == id;
                                    assert(ids@[k] == id);
                                }
                            }
                        }
                    }
                },
                None => {
                    proof {
                        assert forall|id: Seq<char>| #[trigger]
                            ids@.contains(id) <==> exists|j: int|
                                0 <= j < i + 1 && (#[trigger] self.active@[j]).id@ == id
                                    && self.active@[j].pid is Some by {
                            if exists|j: int|
                                0 <= j < i + 1 && (#[trigger] self.active@[j]).id@ == id
                                    && self.active@[j].pid is Some {
                                let j = choose|j: int|
                                    0 <= j < i + 1 && (#[trigger] self.active@[j]).id@ == id
                                        && self.active@[j].pid is Some;
                                assert(j < i);
                            }
                        }
                    }
                },
            }
            i = i + 1;
        }
        proof {
            table_lookup(self.active@);
            assert forall|id: Seq<char>| #[trigger] ids@.contains(id) <==> model.active.contains_key(
                id,
            ) && model.active[id] is Some by {
                if model.active.contains_key(id) && model.active[id] is Some {
                    let j = choose|j: int|
                        0 <= j < self.active@.len() && (#[trigger] self.active@[j]).id@ == id;
                    assert(self.active@[j].pid is Some);
                }
            }
            assert(model.lists_processes(ids@));
        }
        requests
    }

    /// Whether at least one child still owns an active process slot.
    pub fn is_active(&self) -> (active: bool)
        ensures
            active == exists|id: Seq<char>| #[trigger] self@.active.contains_key(id),
    {
        proof {
            use_type_invariant(self);
            table_lookup(self.active@);
            if self.active@.len() > 0 {
                assert(self@.active.contains_key(self.active@[0].id@));
            }
        }
        self.active.len() > 0
    }
}

/// How far the worker of one run has come.
#[derive(Clone, Copy, Debug, PartialEq, Eq, Structural)]
pub enum WorkerStage {
    /// The slot is taken and nothing else has happened.
    Ready,
    /// The process is being spawned.
    Spawning,
    /// The process runs.
    Running,
    /// The run is over.
    Done,
}

/// What the worker of one run learns from the operating system.
#[derive(Debug)]
pub enum WorkerEvent {
    /// The worker came to be.
    Begin,
    /// The process could not be spawned.
    SpawnFailed(String),
    /// The process came to be.
    Spawned(u32),
    /// The process ended and its streams are read; nothing is known of its exit
    /// when waiting for it failed.
    Exited(Option<ExitReport>),
}

/// What the worker of one run learns from the operating system.
pub ghost enum WorkerEventModel {
    Begin,
    SpawnFailed(Seq<char>),
    Spawned(u32),
    Exited(Option<ExitReport>),
}

impl View for WorkerEvent {
    type V = WorkerEventModel;

    open spec fn view(&self) -> WorkerEventModel {
        match self {
            WorkerEvent::Begin => WorkerEventModel::Begin,
            WorkerEvent::SpawnFailed(message) => WorkerEventModel::SpawnFailed(message@),
            WorkerEvent::Spawned(pid) => WorkerEventModel::Spawned(*pid),
            WorkerEvent::Exited(waited) => WorkerEventModel::Exited(*waited),
        }
    }
}

/// What the worker of one run has to do next.
#[derive(Debug)]
pub enum WorkerAction {
    /// Spawn the process with these streams.
    Spawn(ChildStreams),
    /// Send the signal if there is one, publish the event, read the streams and
    /// wait for the end.
    Watch(Launch),
    /// Publish the completion and end.
    Complete(RunEventKind),
    /// End.
    Stop,
}

/// What the worker of one run has to do next.
pub ghost enum WorkerActionModel {
    Spawn(ChildStreams),
    Watch { event: KindModel, signal: Option<SignalRequest>, streams: ChildStreams },
    Complete(KindModel),
    Stop,
}

impl View for WorkerAction {
    type V = WorkerActionModel;

    open spec fn view(&self) -> WorkerActionModel {
        match self {
            WorkerAction::Spawn(streams) => WorkerActionModel::Spawn(*streams),
            WorkerAction::Watch(launch) => WorkerActionModel::Watch {
                event: launch.event@,
                signal: launch.signal,
                streams: launch.streams,
            },
            WorkerAction::Complete(event) => WorkerActionModel::Complete(event@),
            WorkerAction::Stop => WorkerActionModel::Stop,
        }
    }
}

/// The worker of one run: spawns the command, watches its process, and reports
/// how it ended.
#[derive(Debug)]
pub struct Worker {
    id: CommandId,
    trigger: RunTrigger,
    stage: WorkerStage,
}

/// The worker of one run.
pub ghost struct WorkerModel {
    pub id: Seq<char>,
    pub trigger: RunTrigger,
    pub stage: WorkerStage,
}

impl View for Worker {
    type V = WorkerModel;

    closed spec fn view(&self) -> WorkerModel {
        WorkerModel { id: self.id@, trigger: self.trigger, stage: self.stage }
    }
}

impl WorkerModel {
    /// The stage after `event`. An event out of turn ends the worker.
    pub open spec fn next_stage(self, stopping: bool, event: WorkerEventModel) -> WorkerStage {
        match (self.stage, event) {
            (WorkerStage::Ready, WorkerEventModel::Begin) => if stopping {
                WorkerStage::Done
            } else {
                WorkerStage::Spawning
            },
            (WorkerStage::Spawning, WorkerEventModel::Spawned(_)) => WorkerStage::Running,
            _ => WorkerStage::Done,
        }
    }

    /// The worker after `event`.
    pub open spec fn next(self, stopping: bool, event: WorkerEventModel) -> WorkerModel {
        WorkerModel { stage: self.next_stage(stopping, event), ..self }
    }

    /// What `runner` has come to after `event`. The slot is free once the worker
    /// is done.
    pub open spec fn runner_after(
        self,
        runner: RunnerModel,
        event: WorkerEventModel,
    ) -> RunnerModel {
        match (self.stage, event) {
            (WorkerStage::Done, _) => runner,
            (WorkerStage::Ready, WorkerEventModel::Begin) => runner.begun(self.id),
            (WorkerStage::Spawning, WorkerEventModel::Spawned(pid)) => runner.spawned(self.id, pid),
            _ => runner.freed(self.id),
        }
    }

    /// What to do after `event`.
    pub open spec fn action(
        self,
        runner: RunnerModel,
        event: WorkerEventModel,
    ) -> WorkerActionModel {
        match (self.stage, event) {
            (WorkerStage::Ready, WorkerEventModel::Begin) => if runner.stopping {
                WorkerActionModel::Stop
            } else {
                WorkerActionModel::Spawn(streams_for(runner.raw_output))
            },
            (WorkerStage::Spawning, WorkerEventModel::SpawnFailed(
                message,
            )) => WorkerActionModel::Complete(KindModel::SpawnFailed { message }),
            (WorkerStage::Spawning, WorkerEventModel::Spawned(pid)) => WorkerActionModel::Watch {
                event: KindModel::Started { trigger: self.trigger },
                signal: if runner.stopping {
                    Some(request_for(pid, SIGTERM))
                } else {
                    None
                },
                streams: streams_for(runner.raw_output),
            },
            (WorkerStage::Running, WorkerEventModel::Exited(
                waited,
            )) => WorkerActionModel::Complete(KindModel::Finished { status: outcome(waited) }),
            _ => WorkerActionModel::Stop,
        }
    }
}

impl Worker {
    /// The worker of a run that was just started.
    pub fn new(id: &CommandId, trigger: RunTrigger) -> (worker: Worker)
        ensures
            worker@ == (WorkerModel { id: id@, trigger, stage: WorkerStage::Ready }),
    {
        Worker { id: id.clone(), trigger, stage: WorkerStage::Ready }
    }

    /// Takes note of `event` and says what to do next.
    pub fn step(&mut self, runner: &mut ChildRunner, event: WorkerEvent) -> (action: WorkerAction)
        ensures
            final(self)@ == old(self)@.next(old(runner)@.stopping, event@),
            final(runner)@ == old(self)@.runner_after(old(runner)@, event@),
            action@ == old(self)@.action(old(runner)@, event@),
    {
        let stage = self.stage;
        self.stage = WorkerStage::Done;
        match (stage, event) {
            (WorkerStage::Done, _) => WorkerAction::Stop,
            (WorkerStage::Ready, WorkerEvent::Begin) => match runner.begin(&self.id) {
                Some(streams) => {
                    self.stage = WorkerStage::Spawning;
                    WorkerAction::Spawn(streams)
                },
                None => WorkerAction::Stop,
            },
            (WorkerStage::Spawning, WorkerEvent::SpawnFailed(message)) => {
                WorkerAction::Complete(runner.spawn_failed(&self.id, message))
            },
            (WorkerStage::Spawning, WorkerEvent::Spawned(pid)) => {
                self.stage = WorkerStage::Running;
                WorkerAction::Watch(runner.spawned(&self.id, pid, self.trigger))
            },
            (WorkerStage::Running, WorkerEvent::Exited(waited)) => {
                WorkerAction::Complete(runner.finished(&self.id, waited))
            },
            _ => {
                runner.remove_active(&self.id);
                WorkerAction::Stop
            },
        }
    }
}

/// A runner that stops goes on stopping, and starts nothing.
pub proof fn stopping_is_final(m: RunnerModel, id: Seq<char>, pid: u32)
    requires
        m.stopping,
    ensures
        m.started(id) == m,
        m.begun(id) == m.freed(id),
        m.begun(id).stopping,
        m.spawned(id, pid).stopping,
        m.freed(id).stopping,
        m.stopped() == m,
{
}

/// A command's slot is taken from its start until its completion, and no other
/// command's slot is touched meanwhile.
pub proof fn slot_is_held_until_completion(
    m: RunnerModel,
    id: Seq<char>,
    pid: u32,
    other: Seq<char>,
)
    requires
        !m.stopping,
        other != id,
    ensures
        m.started(id).active.contains_key(id),
        m.started(id).begun(id).active.contains_key(id),
        m.started(id).spawned(id, pid).active[id] == Some(pid),
        m.started(id).stopped().spawned(id, pid).active[id] == Some(pid),
        !m.started(id).spawned(id, pid).freed(id).active.contains_key(id),
        ({
            let over = m.started(id).spawned(id, pid).freed(id);
            &&& over.active.contains_key(other) == m.active.contains_key(other)
            &&& over.active[other] == m.active[other]
        }),
{
}

/// Shutdown reaches every process and nothing else.
pub proof fn every_process_is_signalled(
    m: RunnerModel,
    requests: Seq<SignalRequest>,
    signal: i32,
    request: SignalRequest,
)
    requires
        m.signals_each(requests, signal),
    ensures
        requests.contains(request) <==> exists|id: Seq<char>| #[trigger]
            m.owns(id, signal, request),
{
    let ids = choose|ids: Seq<Seq<char>>| #[trigger]
        m.lists_processes(ids) && requests == ids.map_values(
            |id: Seq<char>| request_for(m.active[id]->0, signal),
        );
    if requests.contains(request) {
        let i = choose|i: int| 0 <= i < requests.len() && requests[i] == request;
        assert(ids.contains(ids[i]));
        assert(m.owns(ids[i], signal, request));
    }
    if exists|id: Seq<char>| #[trigger] m.owns(id, signal, request) {
        let id = choose|id: Seq<char>| #[trigger] m.owns(id, signal, request);
        assert(ids.contains(id));
        let i = choose|i: int| 0 <= i < ids.len() && ids[i] == id;
        assert(requests[i] == request);
    }
}

/// A process that comes to be only after shutdown began is told to stop at once.
pub proof fn late_process_is_stopped(worker: WorkerModel, runner: RunnerModel, pid: u32)
    requires
        runner.stopping,
        worker.stage == WorkerStage::Spawning,
    ensures
        worker.action(runner, WorkerEventModel::Spawned(pid))->signal == Some(
            request_for(pid, SIGTERM),
        ),
{
}

/// A worker that is done has freed its slot, whichever way the run went.
pub proof fn done_workers_hold_no_slot(
    worker: WorkerModel,
    runner: RunnerModel,
    event: WorkerEventModel,
)
    requires
        worker.stage != WorkerStage::Done,
        worker.next(runner.stopping, event).stage == WorkerStage::Done,
    ensures
        !worker.runner_after(runner, event).active.contains_key(worker.id),
{
}

/// A run completes at most once, and then nothing more comes of it: only a
/// completion or an early stop ends a worker, and a worker that is done does
/// nothing.
pub proof fn runs_complete_once(
    worker: WorkerModel,
    runner: RunnerModel,
    event: WorkerEventModel,
    later: RunnerModel,
    next: WorkerEventModel,
)
    ensures
        worker.action(runner, event) is Complete ==> worker.next(runner.stopping, event).stage
            == WorkerStage::Done,
        worker.action(runner, event) is Stop ==> worker.next(runner.stopping, event).stage
            == WorkerStage::Done,
        worker.stage == WorkerStage::Done ==> {
            &&& worker.action(later, next) is Stop
            &&& worker.runner_after(later, next) == later
            &&& worker.next(later.stopping, next) == worker
        },
{
}

/// A run is reported as finished only after it was reported as started, and as
/// failed to spawn only if it never was.
pub proof fn started_comes_before_finished(
    worker: WorkerModel,
    runner: RunnerModel,
    event: WorkerEventModel,
)
    ensures
        worker.action(runner, event) matches WorkerActionModel::Complete(KindModel::Finished { .. })
            ==> worker.stage == WorkerStage::Running,
        worker.action(runner, event) matches WorkerActionModel::Complete(
            KindModel::SpawnFailed { .. },
        ) ==> worker.stage == WorkerStage::Spawning,
        worker.next(runner.stopping, event).stage == WorkerStage::Running <==> worker.action(
            runner,
            event,
        ) is Watch,
        worker.action(runner, event) matches WorkerActionModel::Watch { event: published, .. }
            ==> published == (KindModel::Started { trigger: worker.trigger }),
{
}

/// A process is signalled through its group: by the negative of its number, in 32
/// bits, which for every number that fits in 31 bits is the negative itself.
pub proof fn groups_are_named_by_the_negative(pid: u32, signal: i32)
    ensures
        pid <= i32::MAX ==> request_for(pid, signal).target == -(pid as int),
        request_for(pid, signal).target + pid == 0 || request_for(pid, signal).target + pid
            == 0x1_0000_0000,
        request_for(pid, signal).signal == signal,
{
}

/// No two processes have the same group.
pub proof fn groups_are_told_apart(pid: u32, other: u32, signal: i32)
    ensures
        request_for(pid, signal) == request_for(other, signal) <==> pid == other,
        request_for(pid, signal).signal == signal,
{
}

/// The three signals have the numbers that the operating system gives them.
pub proof fn signals_have_their_numbers()
    ensures
        SIGINT == 2,
        SIGKILL == 9,
        SIGTERM == 15,
{
}

/// Each of the three signals is told by its own name, and all others by one.
pub proof fn signals_are_told_by_name(signal: i32)
    ensures
        signal == 2 ==> name_of_signal(signal) == "SIGINT"@,
        signal == 9 ==> name_of_signal(signal) == "SIGKILL"@,
        signal == 15 ==> name_of_signal(signal) == "SIGTERM"@,
        signal != 2 && signal != 9 && signal != 15 ==> name_of_signal(signal) == "SIGNAL"@,
{
}

/// A run that exits by itself is told by its code, a run that a signal ended by
/// the signal whatever the code, and a run whose end is unknown as such.
pub proof fn outcomes_are_what_the_child_left(signal: Option<i32>, code: Option<i32>)
    ensures
        outcome(None) == StatusModel::Signal("UNKNOWN"@),
        signal matches Some(signal) ==> outcome(Some(ExitReport { signal: Some(signal), code }))
            == StatusModel::Signal(name_of_signal(signal)),
        code matches Some(code) ==> outcome(Some(ExitReport { signal: None, code: Some(code) }))
            == StatusModel::ExitCode(code as int),
        outcome(Some(ExitReport { signal: None, code: None })) == StatusModel::ExitCode(-1),
{
}

/// A fresh runner holds no slot and is not stopping.
pub proof fn fresh_runners_are_idle(raw_output: bool, id: Seq<char>)
    ensures
        !RunnerModel::fresh(raw_output).active.contains_key(id),
        !RunnerModel::fresh(raw_output).stopping,
        RunnerModel::fresh(raw_output).raw_output == raw_output,
{
}

/// A start takes the slot, without a process, exactly if the runner is not
/// stopping.
pub proof fn starts_take_the_slot(m: RunnerModel, id: Seq<char>)
    ensures
        !m.stopping ==> m.started(id).active == m.active.insert(id, None),
        m.stopping ==> m.started(id).active == m.active,
        m.started(id).stopping == m.stopping,
        m.started(id).raw_output == m.raw_output,
{
}

/// A worker that begins keeps the slot, unless the runner is stopping.
pub proof fn beginnings_keep_the_slot(m: RunnerModel, id: Seq<char>)
    ensures
        !m.stopping ==> m.begun(id) == m,
        m.stopping ==> m.begun(id).active == m.active.remove(id),
        m.begun(id).stopping == m.stopping,
        m.begun(id).raw_output == m.raw_output,
{
}

/// A process is put into the slot of its command, and into none where the slot is
/// not taken.
pub proof fn processes_are_put_into_their_slot(m: RunnerModel, id: Seq<char>, pid: u32)
    ensures
        m.active.contains_key(id) ==> m.spawned(id, pid).active == m.active.insert(id, Some(pid)),
        !m.active.contains_key(id) ==> m.spawned(id, pid).active == m.active,
        m.spawned(id, pid).stopping == m.stopping,
        m.spawned(id, pid).raw_output == m.raw_output,
{
}

/// Freeing a slot frees that slot alone, and shutdown frees none.
pub proof fn freeing_touches_one_slot(m: RunnerModel, id: Seq<char>)
    ensures
        m.freed(id).active == m.active.remove(id),
        m.freed(id).stopping == m.stopping,
        m.freed(id).raw_output == m.raw_output,
        m.stopped().active == m.active,
        m.stopped().stopping,
        m.stopped().raw_output == m.raw_output,
{
}

/// Shutdown sends each process one signal: as many as there are processes.
pub proof fn each_process_is_signalled_once(
    m: RunnerModel,
    requests: Seq<SignalRequest>,
    signal: i32,
    processes: Set<Seq<char>>,
)
    requires
        m.signals_each(requests, signal),
        forall|id: Seq<char>| #[trigger]
            processes.contains(id) <==> m.active.contains_key(id) && m.active[id] is Some,
    ensures
        requests.len() == processes.len(),
        forall|i: int| 0 <= i < requests.len() ==> (#[trigger] requests[i]).signal == signal,
{
    let ids = choose|ids: Seq<Seq<char>>| #[trigger]
        m.lists_processes(ids) && requests == ids.map_values(
            |id: Seq<char>| request_for(m.active[id]->0, signal),
        );
    ids.unique_seq_to_set();
    assert forall|id: Seq<char>| #[trigger]
        ids.to_set().contains(id) == processes.contains(id) by {
        assert(ids.to_set().contains(id) == ids.contains(id));
    }
    assert(ids.to_set() =~= processes);
}

/// With raw output a child has Stalker's own streams, and otherwise its output is
/// read.
pub proof fn raw_output_is_inherited()
    ensures
        streams_for(true) == ChildStreams::Inherited,
        streams_for(false) == ChildStreams::Captured,
{
}

/// A worker that begins spawns the command, with the streams as configured, unless
/// the runner is stopping; then it ends and its slot is free.
pub proof fn workers_spawn_first(worker: WorkerModel, runner: RunnerModel)
    requires
        worker.stage == WorkerStage::Ready,
    ensures
        !runner.stopping ==> {
            &&& worker.action(runner, WorkerEventModel::Begin) == WorkerActionModel::Spawn(
                if runner.raw_output {
                    ChildStreams::Inherited
                } else {
                    ChildStreams::Captured
                },
            )
            &&& worker.next(false, WorkerEventModel::Begin).stage == WorkerStage::Spawning
            &&& worker.runner_after(runner, WorkerEventModel::Begin) == runner
        },
        runner.stopping ==> {
            &&& worker.action(runner, WorkerEventModel::Begin) is Stop
            &&& worker.next(true, WorkerEventModel::Begin).stage == WorkerStage::Done
            &&& worker.runner_after(runner, WorkerEventModel::Begin).active == runner.active.remove(
                worker.id,
            )
        },
{
}

/// A process that came to be is reported as started, and signalled exactly if the
/// runner is stopping.
pub proof fn processes_are_reported_as_started(
    worker: WorkerModel,
    runner: RunnerModel,
    pid: u32,
)
    requires
        worker.stage == WorkerStage::Spawning,
    ensures
        worker.action(runner, WorkerEventModel::Spawned(pid)) == (WorkerActionModel::Watch {
            event: KindModel::Started { trigger: worker.trigger },
            signal: if runner.stopping {
                Some(request_for(pid, 15))
            } else {
                None
            },
            streams: if runner.raw_output {
                ChildStreams::Inherited
            } else {
                ChildStreams::Captured
            },
        }),
        worker.next(runner.stopping, WorkerEventModel::Spawned(pid)).stage == WorkerStage::Running,
        runner.active.contains_key(worker.id) ==> worker.runner_after(
            runner,
            WorkerEventModel::Spawned(pid),
        ).active == runner.active.insert(worker.id, Some(pid)),
{
}

/// A process that ended completes the run with its outcome, and a process that
/// could not be spawned completes it with the reason; either way the slot is free.
pub proof fn ends_complete_the_run(
    worker: WorkerModel,
    runner: RunnerModel,
    waited: Option<ExitReport>,
    message: Seq<char>,
)
    ensures
        worker.stage == WorkerStage::Running ==> {
            &&& worker.action(runner, WorkerEventModel::Exited(waited))
                == WorkerActionModel::Complete(KindModel::Finished { status: outcome(waited) })
            &&& worker.next(runner.stopping, WorkerEventModel::Exited(waited)).stage
                == WorkerStage::Done
            &&& worker.runner_after(runner, WorkerEventModel::Exited(waited)).active
                == runner.active.remove(worker.id)
        },
        worker.stage == WorkerStage::Spawning ==> {
            &&& worker.action(runner, WorkerEventModel::SpawnFailed(message))
                == WorkerActionModel::Complete(KindModel::SpawnFailed { message })
            &&& worker.next(runner.stopping, WorkerEventModel::SpawnFailed(message)).stage
                == WorkerStage::Done
            &&& worker.runner_after(runner, WorkerEventModel::SpawnFailed(message)).active
                == runner.active.remove(worker.id)
        },
{
}

/// No event changes which run a worker is for, nor whether the runner is stopping
/// or how it sets up streams.
pub proof fn workers_stay_with_their_run(
    worker: WorkerModel,
    runner: RunnerModel,
    event: WorkerEventModel,
    other: Seq<char>,
)
    requires
        other != worker.id,
    ensures
        worker.next(runner.stopping, event).id == worker.id,
        worker.next(runner.stopping, event).trigger == worker.trigger,
        worker.runner_after(runner, event).stopping == runner.stopping,
        worker.runner_after(runner, event).raw_output == runner.raw_output,
        worker.runner_after(runner, event).active.contains_key(other)
            == runner.active.contains_key(other),
        worker.runner_after(runner, event).active[other] == runner.active[other],
{
}

} // verus!
