//! `stalker` reruns configured commands after relevant filesystem changes.

pub mod config;
pub mod filter;
pub mod gitignore;
pub mod globs;
pub mod output;
pub mod path;
pub mod runner;
pub mod scheduler;
pub mod session;
pub mod text;
pub mod time;
pub mod watcher;

use vstd::prelude::*;

use crate::path::{copy_bytes, FilePath, Part};

verus! {

/// `std::time::SystemTime`, carried along with events and never read.
#[verifier::external_type_specification]
#[verifier::external_body]
pub struct ExSystemTime(std::time::SystemTime);

#[derive(Debug, Hash, PartialEq, Eq)]
pub struct CommandId(pub String);

impl View for CommandId {
    type V = Seq<char>;

    open spec fn view(&self) -> Seq<char> {
        self.0@
    }
}

impl Clone for CommandId {
    fn clone(&self) -> (copy: CommandId)
        ensures
            copy@ == self@,
    {
        CommandId(self.0.clone())
    }
}

/// A command to run. The program and its arguments are the bytes by which the
/// operating system knows them.
#[derive(Debug, PartialEq, Eq)]
pub struct CommandSpec {
    pub id: CommandId,
    pub program: Vec<u8>,
    pub args: Vec<Vec<u8>>,
    pub cwd: FilePath,
}

/// A command to run.
pub ghost struct CommandModel {
    pub id: Seq<char>,
    pub program: Seq<u8>,
    pub args: Seq<Seq<u8>>,
    pub cwd: Seq<Part>,
}

impl View for CommandSpec {
    type V = CommandModel;

    open spec fn view(&self) -> CommandModel {
        CommandModel {
            id: self.id@,
            program: self.program@,
            args: bytes_view(self.args@),
            cwd: self.cwd@,
        }
    }
}

impl Clone for CommandSpec {
    fn clone(&self) -> (copy: CommandSpec)
        ensures
            copy@ == self@,
    {
        let program = copy_bytes(self.program.as_slice(), 0, self.program.len());
        assert(program@ =~= self.program@);
        assert(bytes_view(self.args@).skip(0) =~= bytes_view(self.args@));
        CommandSpec {
            id: self.id.clone(),
            program,
            args: copy_words(&self.args, 0),
            cwd: self.cwd.clone(),
        }
    }
}

/// The byte strings that a sequence of vectors holds.
pub open spec fn bytes_view(words: Seq<Vec<u8>>) -> Seq<Seq<u8>> {
    words.map_values(|word: Vec<u8>| word@)
}

/// The byte strings of `words` from `start` on.
pub(crate) fn copy_words(words: &Vec<Vec<u8>>, start: usize) -> (copy: Vec<Vec<u8>>)
    requires
        start <= words@.len(),
    ensures
        bytes_view(copy@) == bytes_view(words@).skip(start as int),
{
    let mut copy: Vec<Vec<u8>> = Vec::new();
    let mut i: usize = start;
    while i < words.len()
        invariant
            start <= i <= words@.len(),
            copy@.len() == i - start,
            forall|j: int| 0 <= j < i - start ==> (#[trigger] copy@[j])@ == words@[start + j]@,
        decreases words@.len() - i,
    {
        let word = copy_bytes(words[i].as_slice(), 0, words[i].len());
        assert(word@ =~= words@[i as int]@);
        copy.push(word);
        i = i + 1;
    }
    assert(bytes_view(copy@) =~= bytes_view(words@).skip(start as int));
    copy
}

/// The number of one run of a command, counted from one.
pub type RunId = u64;

#[derive(Clone, Copy, Debug, PartialEq, Eq, Structural)]
pub enum OutputStream {
    Stdout,
    Stderr,
}

/// What made a run due.
#[derive(Clone, Copy, Debug, PartialEq, Eq, Structural)]
pub enum RunTrigger {
    Initial,
    Filesystem,
}

/// How a run ended.
#[derive(Debug, PartialEq, Eq)]
pub enum RunStatus {
    ExitCode(i32),
    Signal(String),
}

/// How a run ended.
pub ghost enum StatusModel {
    ExitCode(int),
    Signal(Seq<char>),
}

impl View for RunStatus {
    type V = StatusModel;

    open spec fn view(&self) -> StatusModel {
        match self {
            RunStatus::ExitCode(code) => StatusModel::ExitCode(*code as int),
            RunStatus::Signal(name) => StatusModel::Signal(name@),
        }
    }
}

impl Clone for RunStatus {
    fn clone(&self) -> (copy: RunStatus)
        ensures
            copy@ == self@,
    {
        match self {
            RunStatus::ExitCode(code) => RunStatus::ExitCode(*code),
            RunStatus::Signal(name) => RunStatus::Signal(name.clone()),
        }
    }
}

/// What happened in a run.
#[derive(Debug, PartialEq, Eq)]
pub enum RunEventKind {
    Started { trigger: RunTrigger },
    Output { stream: OutputStream, bytes: Vec<u8> },
    Finished { status: RunStatus },
    SpawnFailed { message: String },
}

/// What happened in a run.
pub ghost enum KindModel {
    Started { trigger: RunTrigger },
    Output { stream: OutputStream, bytes: Seq<u8> },
    Finished { status: StatusModel },
    SpawnFailed { message: Seq<char> },
}

impl View for RunEventKind {
    type V = KindModel;

    open spec fn view(&self) -> KindModel {
        match self {
            RunEventKind::Started { trigger } => KindModel::Started { trigger: *trigger },
            RunEventKind::Output { stream, bytes } => KindModel::Output {
                stream: *stream,
                bytes: bytes@,
            },
            RunEventKind::Finished { status } => KindModel::Finished { status: status@ },
            RunEventKind::SpawnFailed { message } => KindModel::SpawnFailed { message: message@ },
        }
    }
}

impl Clone for RunEventKind {
    fn clone(&self) -> (copy: RunEventKind)
        ensures
            copy@ == self@,
    {
        match self {
            RunEventKind::Started { trigger } => RunEventKind::Started { trigger: *trigger },
            RunEventKind::Output { stream, bytes } => {
                let copy = copy_bytes(bytes.as_slice(), 0, bytes.len());
                assert(copy@ =~= bytes@);
                RunEventKind::Output { stream: *stream, bytes: copy }
            },
            RunEventKind::Finished { status } => RunEventKind::Finished { status: status.clone() },
            RunEventKind::SpawnFailed { message } => RunEventKind::SpawnFailed {
                message: message.clone(),
            },
        }
    }
}

/// One event of a run.
#[derive(Debug, PartialEq, Eq)]
pub struct RunEvent {
    pub command_id: CommandId,
    pub run_id: RunId,
    pub kind: RunEventKind,
    pub timestamp: std::time::SystemTime,
}

/// One event of a run, without its time.
pub ghost struct EventModel {
    pub command_id: Seq<char>,
    pub run_id: RunId,
    pub kind: KindModel,
}

impl View for RunEvent {
    type V = EventModel;

    open spec fn view(&self) -> EventModel {
        EventModel { command_id: self.command_id@, run_id: self.run_id, kind: self.kind@ }
    }
}

impl Clone for RunEvent {
    fn clone(&self) -> (copy: RunEvent)
        ensures
            copy@ == self@,
            copy.timestamp == self.timestamp,
    {
        RunEvent {
            command_id: self.command_id.clone(),
            run_id: self.run_id,
            kind: self.kind.clone(),
            timestamp: self.timestamp,
        }
    }
}

/// The model of a list of words holds the bytes of each, in order.
pub proof fn every_word_is_seen(words: Seq<Vec<u8>>, i: int)
    requires
        0 <= i < words.len(),
    ensures
        bytes_view(words).len() == words.len(),
        bytes_view(words)[i] == words[i]@,
{
}

/// The model of a command holds all of it.
pub proof fn commands_are_seen_whole(command: CommandSpec)
    ensures
        command@.id == command.id.0@,
        command@.program == command.program@,
        command@.args == bytes_view(command.args@),
        command@.cwd == command.cwd@,
{
}

/// The model of an event holds all of it but the time.
pub proof fn events_are_seen_whole(event: RunEvent)
    ensures
        event@.command_id == event.command_id.0@,
        event@.run_id == event.run_id,
        match event.kind {
            RunEventKind::Started { trigger } => event@.kind == KindModel::Started { trigger },
            RunEventKind::Output { stream, bytes } => event@.kind == KindModel::Output {
                stream,
                bytes: bytes@,
            },
            RunEventKind::Finished { status: RunStatus::ExitCode(code) } => event@.kind
                == KindModel::Finished { status: StatusModel::ExitCode(code as int) },
            RunEventKind::Finished { status: RunStatus::Signal(name) } => event@.kind
                == KindModel::Finished { status: StatusModel::Signal(name@) },
            RunEventKind::SpawnFailed { message } => event@.kind == KindModel::SpawnFailed {
                message: message@,
            },
        },
{
}

} // verus!
