//! Normalized watch events, and what a native watcher is set up with.

use notify::event::{CreateKind, EventKind, RemoveKind};
use vstd::prelude::*;

use crate::bytes_view;
use crate::filter::resolved;
use crate::path::{
    copy_paths, parent_of, parts_of, paths_view, well_formed, FilePath, Part, PathPart,
};

verus! {

/// `notify::Event`, one notification of the operating system.
#[verifier::external_type_specification]
#[verifier::external_body]
pub struct ExNotifyEvent(notify::Event);

/// `notify::Error`, why a notification could not be given.
#[verifier::external_type_specification]
#[verifier::external_body]
pub struct ExNotifyError(notify::Error);

/// What kind of change a notification tells of, as far as it matters here.
#[derive(Clone, Copy, Debug, PartialEq, Eq, Structural)]
pub enum ChangeKind {
    /// Anything may have happened.
    Any,
    /// Something was read, opened, closed or executed.
    Access,
    /// Something came to be, and nothing more is known.
    CreateAny,
    /// A file came to be.
    CreateFile,
    /// A directory came to be.
    CreateFolder,
    /// Something else came to be.
    CreateOther,
    /// Content, name or attributes changed.
    Modify,
    /// Something is gone, and nothing more is known.
    RemoveAny,
    /// A file is gone.
    RemoveFile,
    /// A directory is gone.
    RemoveFolder,
    /// Something else is gone.
    RemoveOther,
    /// Something that is none of these.
    Other,
}

/// The paths that the notification names, as bytes.
pub uninterp spec fn notify_paths(event: notify::Event) -> Seq<Seq<u8>>;

/// The kind of change that the notification tells of.
pub uninterp spec fn notify_change(event: notify::Event) -> ChangeKind;

/// Whether the notification is flagged as one after which events were missed.
pub uninterp spec fn notify_rescans(event: notify::Event) -> bool;

/// The field `paths` of a `notify::Event`, each path by its bytes.
#[verifier::external_body]
fn event_paths(event: &notify::Event) -> (paths: Vec<Vec<u8>>)
    ensures
        bytes_view(paths@) == notify_paths(*event),
{
    event.paths.iter().map(|path| path.as_os_str().as_encoded_bytes().to_vec()).collect()
}

/// The field `kind` of a `notify::Event`, with the variants told apart.
#[verifier::external_body]
fn event_change(event: &notify::Event) -> (change: ChangeKind)
    ensures
        change == notify_change(*event),
{
    match event.kind {
        EventKind::Any => ChangeKind::Any,
        EventKind::Access(_) => ChangeKind::Access,
        EventKind::Create(CreateKind::Any) => ChangeKind::CreateAny,
        EventKind::Create(CreateKind::File) => ChangeKind::CreateFile,
        EventKind::Create(CreateKind::Folder) => ChangeKind::CreateFolder,
        EventKind::Create(CreateKind::Other) => ChangeKind::CreateOther,
        EventKind::Modify(_) => ChangeKind::Modify,
        EventKind::Remove(RemoveKind::Any) => ChangeKind::RemoveAny,
        EventKind::Remove(RemoveKind::File) => ChangeKind::RemoveFile,
        EventKind::Remove(RemoveKind::Folder) => ChangeKind::RemoveFolder,
        EventKind::Remove(RemoveKind::Other) => ChangeKind::RemoveOther,
        EventKind::Other => ChangeKind::Other,
    }
}

/// `notify::Event::need_rescan` says whether the notification is flagged as one
/// after which events were missed.
#[verifier::external_body]
fn event_needs_rescan(event: &notify::Event) -> (rescan: bool)
    ensures
        rescan == notify_rescans(*event),
{
    event.need_rescan()
}

/// A normalized notification for the scheduler and path filter.
///
/// `is_directory` is a hint, not a filesystem query contract: removed paths no
/// longer exist, so the notification's kind takes precedence when it knows the
/// answer. `is_broad` means that a directory-level event may describe changed
/// descendants. `is_overflow` covers missed events and callback errors; both
/// require one conservative follow-up run.
#[derive(Debug, PartialEq, Eq)]
pub struct WatchEvent {
    pub paths: Vec<FilePath>,
    pub is_directory: bool,
    pub is_broad: bool,
    pub is_overflow: bool,
}

/// A normalized notification.
pub ghost struct WatchModel {
    pub paths: Seq<Seq<Part>>,
    pub is_directory: bool,
    pub is_broad: bool,
    pub is_overflow: bool,
}

impl View for WatchEvent {
    type V = WatchModel;

    open spec fn view(&self) -> WatchModel {
        WatchModel {
            paths: paths_view(self.paths@),
            is_directory: self.is_directory,
            is_broad: self.is_broad,
            is_overflow: self.is_overflow,
        }
    }
}

impl Clone for WatchEvent {
    fn clone(&self) -> (copy: WatchEvent)
        ensures
            copy@ == self@,
    {
        WatchEvent {
            paths: copy_paths(&self.paths),
            is_directory: self.is_directory,
            is_broad: self.is_broad,
            is_overflow: self.is_overflow,
        }
    }
}

impl WatchModel {
    /// The event that stands for missed events on `paths`.
    pub open spec fn overflow(paths: Seq<Seq<Part>>) -> WatchModel {
        WatchModel { paths, is_directory: true, is_broad: true, is_overflow: true }
    }
}

impl WatchEvent {
    /// The event that stands for missed events on `paths`.
    pub fn overflow(paths: Vec<FilePath>) -> (event: WatchEvent)
        ensures
            event@ == WatchModel::overflow(paths_view(paths@)),
    {
        WatchEvent { paths, is_directory: true, is_broad: true, is_overflow: true }
    }
}

/// A notification as plain values: whether events were missed, what kind of
/// change it tells of, and the paths as they were named.
#[derive(Debug)]
pub struct Report {
    pub rescan: bool,
    pub change: ChangeKind,
    pub paths: Vec<FilePath>,
}

/// A notification as plain values.
pub ghost struct ReportModel {
    pub rescan: bool,
    pub change: ChangeKind,
    pub paths: Seq<Seq<Part>>,
}

impl View for Report {
    type V = ReportModel;

    open spec fn view(&self) -> ReportModel {
        ReportModel { rescan: self.rescan, change: self.change, paths: paths_view(self.paths@) }
    }
}

/// What `event` says.
pub open spec fn report_of(event: notify::Event) -> ReportModel {
    ReportModel {
        rescan: notify_rescans(event),
        change: notify_change(event),
        paths: notify_paths(event).map_values(|bytes: Seq<u8>| parts_of(bytes)),
    }
}

/// `path` with `.` left out and each `..` resolved against what stands before
/// it. A `..` with nothing before it but the root means nothing.
pub open spec fn collapsed(path: Seq<Part>) -> Seq<Part>
    decreases path.len(),
{
    if path.len() == 0 {
        Seq::empty()
    } else {
        let before = collapsed(path.drop_last());
        match path.last() {
            Part::CurDir => before,
            Part::ParentDir => match parent_of(before) {
                Some(parent) => parent,
                None => before,
            },
            Part::RootDir => seq![Part::RootDir],
            Part::Normal(name) => before.push(Part::Normal(name)),
        }
    }
}

/// Whether `path` is made of names only, but for a root in front.
pub open spec fn is_collapsed(path: Seq<Part>) -> bool {
    &&& well_formed(path)
    &&& forall|i: int|
        0 <= i < path.len() ==> #[trigger] path[i] is Normal || (i == 0 && path[i] is RootDir)
}

/// The paths of an event, each of them collapsed.
pub open spec fn all_collapsed(paths: Seq<Seq<Part>>) -> Seq<Seq<Part>> {
    paths.map_values(|path: Seq<Part>| collapsed(path))
}

/// Whether a change of this kind concerns a file, whatever is on disk.
pub open spec fn is_file_change(change: ChangeKind) -> bool {
    change == ChangeKind::CreateFile || change == ChangeKind::RemoveFile
}

/// Whether a change of this kind concerns a directory, whatever is on disk.
pub open spec fn is_folder_change(change: ChangeKind) -> bool {
    change == ChangeKind::CreateFolder || change == ChangeKind::RemoveFolder
}

impl ReportModel {
    /// The normalized notification, where `directories` tells of the collapsed
    /// paths which are directories on disk. Mere access is none.
    pub open spec fn normalized(self, directories: Seq<bool>) -> Option<WatchModel> {
        let paths = all_collapsed(self.paths);
        if self.rescan {
            Some(WatchModel::overflow(paths))
        } else if self.change == ChangeKind::Access {
            None
        } else {
            Some(
                WatchModel {
                    paths,
                    is_directory: is_folder_change(self.change) || (!is_file_change(self.change)
                        && directories.contains(true)),
                    is_broad: paths.len() == 0 || self.change == ChangeKind::Any || self.change
                        == ChangeKind::Other,
                    is_overflow: false,
                },
            )
        }
    }
}

/// The normalized notification of what a watcher's callback was given. A failure
/// does not promise a recovered event, so it stands for missed events.
pub open spec fn normalized_result(
    result: Result<notify::Event, notify::Error>,
    directories: Seq<bool>,
) -> Option<WatchModel> {
    match result {
        Ok(event) => report_of(event).normalized(directories),
        Err(_) => Some(WatchModel::overflow(Seq::empty())),
    }
}

/// A collapsed path is made of names only, but for a root in front, which is
/// there exactly if the path leads from the root.
pub proof fn collapsing_leaves_names(path: Seq<Part>)
    requires
        well_formed(path),
    ensures
        is_collapsed(collapsed(path)),
        crate::path::is_rooted(collapsed(path)) == crate::path::is_rooted(path),
        collapsed(path).len() <= path.len(),
    decreases path.len(),
{
    if path.len() > 0 {
        let init = path.drop_last();
        assert(init =~= path.subrange(0, path.len() - 1));
        crate::path::subrange_is_well_formed(path, 0, path.len() - 1);
        collapsing_leaves_names(init);
        let before = collapsed(init);
        assert(path[path.len() - 1] == path.last());
        if path.len() == 1 {
            assert(init =~= Seq::<Part>::empty());
            assert(before =~= Seq::<Part>::empty());
        } else {
            assert(path.last() is ParentDir || path.last() is Normal);
            assert(init[0] == path[0]);
        }
        if let Some(parent) = parent_of(before) {
            assert(parent =~= before.subrange(0, before.len() - 1));
            crate::path::subrange_is_well_formed(before, 0, before.len() - 1);
            assert forall|i: int| 0 <= i < parent.len() implies #[trigger] parent[i] is Normal || (i
                == 0 && parent[i] is RootDir) by {
                assert(before[i] is Normal || (i == 0 && before[i] is RootDir));
            }
            assert(before[before.len() - 1] == before.last());
            if parent.len() > 0 {
                assert(parent[0] == before[0]);
            } else {
                assert(before[0] is Normal);
            }
        }
        if let Part::Normal(name) = path.last() {
            let after = before.push(path.last());
            assert forall|i: int| 0 <= i < after.len() implies (#[trigger] after[i] is Normal || (i
                == 0 && after[i] is RootDir)) && (after[i] matches Part::Normal(n)
                ==> crate::path::is_name(n)) && (i > 0 ==> after[i] is Normal) by {
                if i < before.len() {
                    assert(after[i] == before[i]);
                    assert(before[i] is Normal || (i == 0 && before[i] is RootDir));
                }
            }
        }
    }
}

/// Collapsing a collapsed path changes nothing.
pub proof fn collapsing_twice_is_collapsing_once(path: Seq<Part>)
    requires
        is_collapsed(path),
    ensures
        collapsed(path) == path,
    decreases path.len(),
{
    if path.len() > 0 {
        let init = path.drop_last();
        assert(init =~= path.subrange(0, path.len() - 1));
        crate::path::subrange_is_well_formed(path, 0, path.len() - 1);
        assert forall|i: int| 0 <= i < init.len() implies #[trigger] init[i] is Normal || (i == 0
            && init[i] is RootDir) by {
            assert(path[i] is Normal || (i == 0 && path[i] is RootDir));
        }
        collapsing_twice_is_collapsing_once(init);
        assert(path[path.len() - 1] is Normal || (path.len() == 1 && path[0] is RootDir));
        assert(init.push(path.last()) =~= path);
        if path.last() is RootDir {
            assert(path =~= seq![Part::RootDir]);
        }
    } else {
        assert(path =~= Seq::<Part>::empty());
    }
}

/// Where a path can be resolved strictly, collapsing it gives the same names.
pub proof fn collapsing_agrees_with_resolving(path: Seq<Part>)
    ensures
        resolved(path) matches Some(names) ==> collapsed(path) == names,
    decreases path.len(),
{
    if path.len() > 0 {
        collapsing_agrees_with_resolving(path.drop_last());
        if let Some(names) = resolved(path.drop_last()) {
            crate::filter::resolved_has_only_names(path.drop_last());
            if names.len() > 0 {
                assert(names[names.len() - 1] is Normal);
            }
        }
    }
}

fn normalize_path(path: &FilePath) -> (normalized: FilePath)
    ensures
        normalized@ == collapsed(path@),
{
    proof {
        use_type_invariant(path);
    }
    let mut normalized = FilePath::empty();
    let mut i: usize = 0;
    let n: usize = path.len();
    assert(path@.take(0) =~= Seq::<Part>::empty());
    while i < n
        invariant
            i <= n == path@.len(),
            well_formed(path@),
            normalized@ == collapsed(path@.take(i as int)),
        decreases n - i,
    {
        let ghost upto = path@.take(i + 1);
        proof {
            assert(upto.drop_last() =~= path@.take(i as int));
            assert(upto.last() == path@[i as int]);
            assert(upto =~= path@.subrange(0, i + 1));
            crate::path::subrange_is_well_formed(path@, 0, i + 1);
            collapsing_leaves_names(upto);
            if upto.last() is RootDir {
                assert(i == 0);
                assert(normalized@ =~= Seq::<Part>::empty());
                assert(normalized@.push(Part::RootDir) =~= seq![Part::RootDir]);
            }
        }
        match path.part(i) {
            PathPart::CurDir => {},
            PathPart::ParentDir => {
                let _ = normalized.pop();
            },
            PathPart::RootDir | PathPart::Normal(_) => {
                normalized.push(path.part(i));
            },
        }
        i = i + 1;
    }
    assert(path@.take(i as int) =~= path@);
    normalized
}

fn normalize_paths(paths: &Vec<FilePath>) -> (normalized: Vec<FilePath>)
    ensures
        paths_view(normalized@) == all_collapsed(paths_view(paths@)),
{
    let mut normalized: Vec<FilePath> = Vec::new();
    let mut i: usize = 0;
    while i < paths.len()
        invariant
            i <= paths@.len(),
            normalized@.len() == i,
            forall|j: int| 0 <= j < i ==> (#[trigger] normalized@[j])@ == collapsed(paths@[j]@),
        decreases paths@.len() - i,
    {
        normalized.push(normalize_path(&paths[i]));
        i = i + 1;
    }
    assert(paths_view(normalized@) =~= all_collapsed(paths_view(paths@)));
    normalized
}

fn event_is_directory(change: ChangeKind, directories: &Vec<bool>) -> (directory: bool)
    ensures
        directory == (is_folder_change(change) || (!is_file_change(change)
            && directories@.contains(true))),
{
    if change == ChangeKind::CreateFolder || change == ChangeKind::RemoveFolder {
        return true;
    }
    if change == ChangeKind::CreateFile || change == ChangeKind::RemoveFile {
        return false;
    }
    let mut i: usize = 0;
    while i < directories.len()
        invariant
            i <= directories@.len(),
            !is_file_change(change),
            forall|j: int| 0 <= j < i ==> !#[trigger] directories@[j],
        decreases directories@.len() - i,
    {
        if directories[i] {
            assert(directories@[i as int] == true);
            return true;
        }
        i = i + 1;
    }
    false
}

/// Normalizes one notification, where `directories` tells of the paths, once
/// normalized, which are directories on disk.
pub fn normalize_report(report: &Report, directories: &Vec<bool>) -> (event: Option<WatchEvent>)
    ensures
        match event {
            Some(event) => report@.normalized(directories@) == Some(event@),
            None => report@.normalized(directories@) is None,
        },
{
    let paths = normalize_paths(&report.paths);
    if report.rescan {
        return Some(WatchEvent::overflow(paths));
    }
    if report.change == ChangeKind::Access {
        return None;
    }
    let is_broad = paths.len() == 0 || report.change == ChangeKind::Any || report.change
        == ChangeKind::Other;
    assert(paths_view(paths@).len() == paths@.len());
    Some(
        WatchEvent {
            paths,
            is_directory: event_is_directory(report.change, directories),
            is_broad,
            is_overflow: false,
        },
    )
}

/// Reads what a notification says.
pub fn read_report(event: &notify::Event) -> (report: Report)
    ensures
        report@ == report_of(*event),
{
    let names = event_paths(event);
    let mut paths: Vec<FilePath> = Vec::new();
    let mut i: usize = 0;
    while i < names.len()
        invariant
            i <= names@.len(),
            paths@.len() == i,
            forall|j: int| 0 <= j < i ==> (#[trigger] paths@[j])@ == parts_of(names@[j]@),
        decreases names@.len() - i,
    {
        paths.push(FilePath::from_bytes(names[i].as_slice()));
        i = i + 1;
    }
    assert(paths_view(paths@) =~= bytes_view(names@).map_values(|bytes: Seq<u8>| parts_of(bytes)));
    Report { rescan: event_needs_rescan(event), change: event_change(event), paths }
}

/// The normalized paths of what a watcher's callback was given.
pub fn named_paths(result: &Result<notify::Event, notify::Error>) -> (paths: Vec<FilePath>)
    ensures
        paths_view(paths@) == match *result {
            Ok(event) => all_collapsed(report_of(event).paths),
            Err(_) => Seq::empty(),
        },
{
    match result {
        Ok(event) => {
            let report = read_report(event);
            normalize_paths(&report.paths)
        },
        Err(_) => {
            let none: Vec<FilePath> = Vec::new();
            assert(paths_view(none@) =~= Seq::<Seq<Part>>::empty());
            none
        },
    }
}

/// Normalizes what a watcher's callback was given, where `directories` tells of
/// the named paths which are directories on disk.
pub fn normalize_notify_result(
    result: Result<notify::Event, notify::Error>,
    directories: &Vec<bool>,
) -> (event: Option<WatchEvent>)
    ensures
        match event {
            Some(event) => normalized_result(result, directories@) == Some(event@),
            None => normalized_result(result, directories@) is None,
        },
{
    match result {
        Ok(event) => {
            let report = read_report(&event);
            normalize_report(&report, directories)
        },
        // No recovered event is promised after a callback error. Schedule once
        // instead of silently losing the change.
        Err(_) => {
            let none: Vec<FilePath> = Vec::new();
            assert(paths_view(none@) =~= Seq::<Seq<Part>>::empty());
            Some(WatchEvent::overflow(none))
        },
    }
}

/// Missed events always make an event, whatever kind of change was told.
pub proof fn missed_events_are_never_dropped(report: ReportModel, directories: Seq<bool>)
    requires
        report.rescan,
    ensures
        report.normalized(directories) == Some(WatchModel::overflow(all_collapsed(report.paths))),
{
}

/// Only mere access is dropped, and only when no events were missed.
pub proof fn only_access_is_dropped(report: ReportModel, directories: Seq<bool>)
    ensures
        report.normalized(directories) is None <==> report.change == ChangeKind::Access
            && !report.rescan,
{
}

/// When the kind of change knows whether it concerns a directory, that decides,
/// whatever is on disk.
pub proof fn known_kinds_take_precedence(report: ReportModel, directories: Seq<bool>)
    requires
        !report.rescan,
        is_folder_change(report.change) || is_file_change(report.change),
    ensures
        report.normalized(directories) matches Some(event) && event.is_directory
            == is_folder_change(report.change),
{
}

/// An event without paths is broad, so that it is never mistaken for one that
/// concerns nothing.
pub proof fn events_without_paths_are_broad(report: ReportModel, directories: Seq<bool>)
    requires
        report.paths.len() == 0,
    ensures
        report.normalized(directories) matches Some(event) ==> event.is_broad,
{
}

/// A failure that prevents Stalker from keeping its native watcher alive.
#[derive(Debug)]
pub struct WatcherError {
    operation: &'static str,
    source: String,
}

/// A failed operation, and why it failed.
pub ghost struct WatcherFailure {
    pub operation: Seq<char>,
    pub source: Seq<char>,
}

impl View for WatcherError {
    type V = WatcherFailure;

    closed spec fn view(&self) -> WatcherFailure {
        WatcherFailure { operation: self.operation@, source: self.source@ }
    }
}

impl WatcherError {
    /// A failure of `operation` for the reason that `source` tells.
    pub fn new(operation: &'static str, source: String) -> (error: WatcherError)
        ensures
            error@ == (WatcherFailure { operation: operation@, source: source@ }),
    {
        WatcherError { operation, source }
    }

    /// The text that tells the user.
    pub fn message(&self) -> (text: String)
        ensures
            text@ == "could not "@ + self@.operation + ": "@ + self@.source,
    {
        let mut text = "could not ".to_owned();
        text.append(self.operation);
        text.append(": ");
        text.append(self.source.as_str());
        text
    }
}

/// What came of asking a watcher's channel for the next notification.
#[derive(Debug)]
pub enum Receipt {
    /// A notification, normalized.
    Notice(Option<WatchEvent>),
    /// None is ready.
    Empty,
    /// The callback is gone, for the reason that the text tells.
    Disconnected(String),
}

/// What came of asking a watcher's channel for the next notification.
pub ghost enum ReceiptModel {
    Notice(Option<WatchModel>),
    Empty,
    Disconnected(Seq<char>),
}

impl View for Receipt {
    type V = ReceiptModel;

    open spec fn view(&self) -> ReceiptModel {
        match self {
            Receipt::Notice(Some(event)) => ReceiptModel::Notice(Some(event@)),
            Receipt::Notice(None) => ReceiptModel::Notice(None),
            Receipt::Empty => ReceiptModel::Empty,
            Receipt::Disconnected(reason) => ReceiptModel::Disconnected(reason@),
        }
    }
}

/// What to do with it.
#[derive(Debug)]
pub enum Delivery {
    /// Deliver the event.
    Event(WatchEvent),
    /// Deliver nothing.
    Nothing,
    /// Ask again.
    Again,
    /// Fail.
    Failed(WatcherError),
}

/// What to do with it.
pub ghost enum DeliveryModel {
    Event(WatchModel),
    Nothing,
    Again,
    Failed(WatcherFailure),
}

impl View for Delivery {
    type V = DeliveryModel;

    open spec fn view(&self) -> DeliveryModel {
        match self {
            Delivery::Event(event) => DeliveryModel::Event(event@),
            Delivery::Nothing => DeliveryModel::Nothing,
            Delivery::Again => DeliveryModel::Again,
            Delivery::Failed(error) => DeliveryModel::Failed(error@),
        }
    }
}

impl ReceiptModel {
    /// What to do: dropped notifications are passed over, and a callback that is
    /// gone is fatal.
    pub open spec fn delivery(self) -> DeliveryModel {
        match self {
            ReceiptModel::Notice(Some(event)) => DeliveryModel::Event(event),
            ReceiptModel::Notice(None) => DeliveryModel::Again,
            ReceiptModel::Empty => DeliveryModel::Nothing,
            ReceiptModel::Disconnected(reason) => DeliveryModel::Failed(
                WatcherFailure { operation: "receive filesystem events"@, source: reason },
            ),
        }
    }
}

/// Says what to do with what came of asking for the next notification.
pub fn deliver(receipt: Receipt) -> (delivery: Delivery)
    ensures
        delivery@ == receipt@.delivery(),
{
    match receipt {
        Receipt::Notice(Some(event)) => Delivery::Event(event),
        Receipt::Notice(None) => Delivery::Again,
        Receipt::Empty => Delivery::Nothing,
        Receipt::Disconnected(reason) => Delivery::Failed(
            WatcherError::new("receive filesystem events", reason),
        ),
    }
}

/// What to register with the operating system for the watched path `root`: the
/// path itself, or for a file the directory that holds it.
pub fn registration_root(root: &FilePath, is_file: bool) -> (registered: Result<
    FilePath,
    WatcherError,
>)
    ensures
        match registered {
            Ok(path) => if is_file {
                parent_of(root@) == Some(path@)
            } else {
                path@ == root@
            },
            Err(error) => {
                &&& is_file
                &&& parent_of(root@) is None
                &&& error@ == (WatcherFailure {
                    operation: "find watch file parent"@,
                    source: "watch file has no parent directory"@,
                })
            },
        },
{
    if is_file {
        match root.parent() {
            Some(parent) => Ok(parent),
            None => Err(
                WatcherError::new(
                    "find watch file parent",
                    "watch file has no parent directory".to_owned(),
                ),
            ),
        }
    } else {
        Ok(root.clone())
    }
}

/// `paths` with each path kept only where it occurs first.
pub open spec fn deduplicated(paths: Seq<Seq<Part>>) -> Seq<Seq<Part>>
    decreases paths.len(),
{
    if paths.len() == 0 {
        Seq::empty()
    } else {
        let before = deduplicated(paths.drop_last());
        if before.contains(paths.last()) {
            before
        } else {
            before.push(paths.last())
        }
    }
}

/// Deduplicated paths are the same paths, each of them once.
pub proof fn deduplicating_keeps_each_path_once(paths: Seq<Seq<Part>>, path: Seq<Part>)
    ensures
        deduplicated(paths).no_duplicates(),
        deduplicated(paths).contains(path) <==> paths.contains(path),
    decreases paths.len(),
{
    if paths.len() > 0 {
        let init = paths.drop_last();
        let last = paths.last();
        let before = deduplicated(init);
        deduplicating_keeps_each_path_once(init, path);
        deduplicating_keeps_each_path_once(init, last);
        assert(paths =~= init.push(last));
        assert(paths.contains(path) <==> init.contains(path) || path == last) by {
            if init.contains(path) {
                let i = choose|i: int| 0 <= i < init.len() && init[i] == path;
                assert(paths[i] == path);
            }
            assert(paths[paths.len() - 1] == last);
            if paths.contains(path) && path != last {
                let i = choose|i: int| 0 <= i < paths.len() && paths[i] == path;
                assert(init[i] == path);
            }
        }
        if !before.contains(last) {
            let after = before.push(last);
            assert(after.contains(path) <==> before.contains(path) || path == last) by {
                if before.contains(path) {
                    let i = choose|i: int| 0 <= i < before.len() && before[i] == path;
                    assert(after[i] == path);
                }
                assert(after[before.len() as int] == last);
                if after.contains(path) && path != last {
                    let i = choose|i: int| 0 <= i < after.len() && after[i] == path;
                    assert(before[i] == path);
                }
            }
        }
    }
}

/// The watched paths, where `canonical` are the canonical paths that were
/// configured: each of them once.
pub fn deduplicate_roots(canonical: Vec<FilePath>) -> (roots: Vec<FilePath>)
    ensures
        paths_view(roots@) == deduplicated(paths_view(canonical@)),
{
    let ghost all = paths_view(canonical@);
    let mut roots: Vec<FilePath> = Vec::new();
    let mut i: usize = 0;
    assert(all.take(0) =~= Seq::<Seq<Part>>::empty());
    assert(paths_view(roots@) =~= Seq::<Seq<Part>>::empty());
    while i < canonical.len()
        invariant
            i <= canonical@.len(),
            all == paths_view(canonical@),
            paths_view(roots@) == deduplicated(all.take(i as int)),
        decreases canonical@.len() - i,
    {
        let ghost before = paths_view(roots@);
        proof {
            assert(all.take(i + 1).drop_last() =~= all.take(i as int));
            assert(all.take(i + 1).last() == canonical@[i as int]@);
        }
        if !contains_path(&roots, &canonical[i]) {
            roots.push(canonical[i].clone());
            assert(paths_view(roots@) =~= before.push(canonical@[i as int]@));
        }
        i = i + 1;
    }
    assert(all.take(i as int) =~= all);
    roots
}

fn contains_path(paths: &Vec<FilePath>, path: &FilePath) -> (contained: bool)
    ensures
        contained == paths_view(paths@).contains(path@),
{
    let mut i: usize = 0;
    while i < paths.len()
        invariant
            i <= paths@.len(),
            forall|j: int| 0 <= j < i ==> (#[trigger] paths@[j])@ != path@,
        decreases paths@.len() - i,
    {
        if paths[i].same(path) {
            assert(paths_view(paths@)[i as int] == path@);
            return true;
        }
        i = i + 1;
    }
    proof {
        if paths_view(paths@).contains(path@) {
            let j = choose|j: int|
                0 <= j < paths_view(paths@).len() && paths_view(paths@)[j] == path@;
            assert(paths@[j]@ == path@);
        }
    }
    false
}

/// A name is kept behind what stands before it, a dot means nothing, two dots take
/// the last name away and nothing else, and a root starts anew.
pub proof fn collapsing_goes_name_by_name(path: Seq<Part>, name: Seq<u8>)
    ensures
        collapsed(Seq::empty()) == Seq::<Part>::empty(),
        collapsed(path.push(Part::Normal(name))) == collapsed(path).push(Part::Normal(name)),
        collapsed(path.push(Part::CurDir)) == collapsed(path),
        collapsed(path.push(Part::RootDir)) == seq![Part::RootDir],
        collapsed(path).len() > 0 && collapsed(path).last() is Normal ==> collapsed(
            path.push(Part::ParentDir),
        ) == collapsed(path).drop_last(),
        collapsed(path).len() == 0 || collapsed(path).last() is RootDir ==> collapsed(
            path.push(Part::ParentDir),
        ) == collapsed(path),
        collapsed(path.push(Part::Normal(name)).push(Part::ParentDir)) == collapsed(path),
{
    let below = path.push(Part::Normal(name));
    assert(below.drop_last() =~= path);
    assert(path.push(Part::CurDir).drop_last() =~= path);
    assert(path.push(Part::RootDir).drop_last() =~= path);
    assert(path.push(Part::ParentDir).drop_last() =~= path);
    assert(below.push(Part::ParentDir).drop_last() =~= below);
    assert(collapsed(below).drop_last() =~= collapsed(path));
}

/// An event keeps every path of the notification, in order, each of them
/// collapsed.
pub proof fn events_keep_every_path(report: ReportModel, directories: Seq<bool>)
    ensures
        report.normalized(directories) matches Some(event) ==> {
            &&& event.paths.len() == report.paths.len()
            &&& forall|i: int|
                0 <= i < report.paths.len() ==> #[trigger] event.paths[i] == collapsed(
                    report.paths[i],
                )
        },
        all_collapsed(report.paths).len() == report.paths.len(),
        forall|i: int|
            0 <= i < report.paths.len() ==> #[trigger] all_collapsed(report.paths)[i] == collapsed(
                report.paths[i],
            ),
{
}

/// An event tells of missed events exactly if the notification does, and then it
/// is as broad as an event can be.
pub proof fn only_missed_events_overflow(report: ReportModel, directories: Seq<bool>)
    ensures
        report.normalized(directories) matches Some(event) ==> event.is_overflow == report.rescan,
        report.rescan ==> report.normalized(directories) == Some(
            WatchModel {
                paths: all_collapsed(report.paths),
                is_directory: true,
                is_broad: true,
                is_overflow: true,
            },
        ),
{
}

/// Where no events were missed, an event is broad exactly if it names no path or
/// its kind says nothing.
pub proof fn vague_events_are_broad(report: ReportModel, directories: Seq<bool>)
    requires
        !report.rescan,
    ensures
        report.normalized(directories) matches Some(event) ==> (event.is_broad <==> {
            ||| report.paths.len() == 0
            ||| report.change == ChangeKind::Any
            ||| report.change == ChangeKind::Other
        }),
{
}

/// Where no events were missed, an event concerns a directory exactly if its kind
/// says so, or says nothing of it and one of the paths is a directory on disk.
pub proof fn directories_are_told_by_kind_or_disk(report: ReportModel, directories: Seq<bool>)
    requires
        !report.rescan,
    ensures
        report.normalized(directories) matches Some(event) ==> match report.change {
            ChangeKind::CreateFolder | ChangeKind::RemoveFolder => event.is_directory,
            ChangeKind::CreateFile | ChangeKind::RemoveFile => !event.is_directory,
            _ => event.is_directory <==> exists|i: int|
                0 <= i < directories.len() && #[trigger] directories[i],
        },
{
    if exists|i: int| 0 <= i < directories.len() && #[trigger] directories[i] {
        let i = choose|i: int| 0 <= i < directories.len() && #[trigger] directories[i];
        assert(directories[i] == true);
        assert(directories.contains(true));
    }
}

/// A failure of the callback makes an event that names no path and is as broad as
/// an event can be; a notification makes the event that its report makes.
pub proof fn failures_count_as_missed_events(
    event: notify::Event,
    error: notify::Error,
    directories: Seq<bool>,
)
    ensures
        normalized_result(Err(error), directories) == Some(
            WatchModel {
                paths: Seq::empty(),
                is_directory: true,
                is_broad: true,
                is_overflow: true,
            },
        ),
        normalized_result(Ok(event), directories) == report_of(event).normalized(directories),
{
}

/// A report says what the notification says, and names its paths in order.
pub proof fn reports_say_what_notifications_say(event: notify::Event)
    ensures
        report_of(event).rescan == notify_rescans(event),
        report_of(event).change == notify_change(event),
        report_of(event).paths.len() == notify_paths(event).len(),
        forall|i: int|
            0 <= i < notify_paths(event).len() ==> #[trigger] report_of(event).paths[i] == parts_of(
                notify_paths(event)[i],
            ),
{
}

/// A path that was there before is not added again, and one that was not is added
/// at the end.
pub proof fn first_occurrences_stay_in_order(paths: Seq<Seq<Part>>, path: Seq<Part>)
    ensures
        paths.contains(path) ==> deduplicated(paths.push(path)) == deduplicated(paths),
        !paths.contains(path) ==> deduplicated(paths.push(path)) == deduplicated(paths).push(path),
        deduplicated(Seq::empty()) == Seq::<Seq<Part>>::empty(),
{
    assert(paths.push(path).drop_last() =~= paths);
    deduplicating_keeps_each_path_once(paths, path);
}

/// Paths that are all different stay as they are.
pub proof fn different_paths_all_stay(paths: Seq<Seq<Part>>)
    requires
        paths.no_duplicates(),
    ensures
        deduplicated(paths) == paths,
    decreases paths.len(),
{
    if paths.len() > 0 {
        let init = paths.drop_last();
        different_paths_all_stay(init);
        assert(init.push(paths.last()) =~= paths);
        if init.contains(paths.last()) {
            let i = choose|i: int| 0 <= i < init.len() && init[i] == paths.last();
            assert(paths[i] == paths[paths.len() - 1]);
        }
    } else {
        assert(paths =~= Seq::<Seq<Part>>::empty());
    }
}

/// Every event is delivered as it is, a dropped notification is passed over, and
/// only a callback that is gone fails, for the reason that was given.
pub proof fn events_are_delivered_as_they_are(event: WatchModel, reason: Seq<char>)
    ensures
        ReceiptModel::Notice(Some(event)).delivery() == DeliveryModel::Event(event),
        ReceiptModel::Notice(None).delivery() is Again,
        ReceiptModel::Empty.delivery() is Nothing,
        ReceiptModel::Disconnected(reason).delivery() == DeliveryModel::Failed(
            WatcherFailure { operation: "receive filesystem events"@, source: reason },
        ),
{
}

/// Missed events are those of a directory, broad, and name the paths they were
/// missed on.
pub proof fn overflows_are_broad(paths: Seq<Seq<Part>>)
    ensures
        WatchModel::overflow(paths).paths == paths,
        WatchModel::overflow(paths).is_directory,
        WatchModel::overflow(paths).is_broad,
        WatchModel::overflow(paths).is_overflow,
{
}

} // verus!
