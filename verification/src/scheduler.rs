//! Per-command debounce and dirty-run state machine.

use vstd::prelude::*;

use crate::time::{Duration, Instant};
use crate::{RunId, RunTrigger};

verus! {

/// The externally useful state of one command scheduler.
#[derive(Clone, Copy, Debug, PartialEq, Eq, Structural)]
pub enum SchedulerState {
    Idle,
    Debouncing { deadline: Instant, trigger: RunTrigger },
    Running { run_id: RunId, dirty: bool },
}

/// A run which the event loop must attempt to spawn.
#[derive(Clone, Copy, Debug, PartialEq, Eq, Structural)]
pub struct ScheduledRun {
    pub id: RunId,
    pub trigger: RunTrigger,
}

/// State machine for one configured command.
///
/// The event loop calls [`Self::change`] for accepted watcher events,
/// [`Self::take_due_run`] as its clock advances, and [`Self::finish`] after a
/// child exits or fails to spawn. Calling `finish` for spawn failures releases
/// the scheduler so a later change can retry the command.
#[derive(Debug)]
pub struct Scheduler {
    debounce: Duration,
    next_run_id: RunId,
    state: SchedulerState,
}

/// What a scheduler knows: the quiet period, the number of the next run, and
/// the state.
pub ghost struct SchedulerModel {
    pub debounce: Duration,
    pub next_run_id: RunId,
    pub state: SchedulerState,
}

impl SchedulerModel {
    /// A fresh scheduler: run 1 comes first, and it is due at `now` if an
    /// initial run was asked for.
    pub open spec fn fresh(debounce: Duration, initial_run: bool, now: Instant) -> SchedulerModel {
        SchedulerModel {
            debounce,
            next_run_id: 1,
            state: if initial_run {
                SchedulerState::Debouncing { deadline: now, trigger: RunTrigger::Initial }
            } else {
                SchedulerState::Idle
            },
        }
    }

    /// Runs are numbered from one, and the run in progress is the newest.
    pub open spec fn wf(self) -> bool {
        &&& self.next_run_id >= 1
        &&& self.state matches SchedulerState::Running { run_id, .. } ==> run_id + 1
            == self.next_run_id
    }

    /// Whether a run waits for a deadline that has come by `now`.
    pub open spec fn due(self, now: Instant) -> bool {
        self.state matches SchedulerState::Debouncing { deadline, .. } && deadline.nanos
            <= now.nanos
    }

    /// Whether `run_id` is the run in progress.
    pub open spec fn runs(self, run_id: RunId) -> bool {
        self.state matches SchedulerState::Running { run_id: active, .. } && active == run_id
    }

    /// Whether a change at `now` moves a deadline to the end of a quiet period.
    pub open spec fn rearms(self) -> bool {
        match self.state {
            SchedulerState::Idle => true,
            SchedulerState::Debouncing { trigger, .. } => trigger == RunTrigger::Filesystem,
            SchedulerState::Running { .. } => false,
        }
    }

    /// After a change at `now`: a new quiet period, unless the initial run is
    /// still to come, which nothing postpones, or a run is in progress, which
    /// becomes dirty.
    pub open spec fn changed(self, now: Instant) -> SchedulerModel {
        SchedulerModel {
            state: match self.state {
                SchedulerState::Running { run_id, .. } => SchedulerState::Running {
                    run_id,
                    dirty: true,
                },
                _ => if self.rearms() {
                    SchedulerState::Debouncing {
                        deadline: now.plus(self.debounce),
                        trigger: RunTrigger::Filesystem,
                    }
                } else {
                    self.state
                },
            },
            ..self
        }
    }

    /// The run that is handed out at `now`, if one is due.
    pub open spec fn due_run(self, now: Instant) -> Option<ScheduledRun> {
        match self.state {
            SchedulerState::Debouncing { deadline, trigger } if deadline.nanos <= now.nanos => Some(
                ScheduledRun { id: self.next_run_id, trigger },
            ),
            _ => None,
        }
    }

    /// After the due run was handed out at `now`.
    pub open spec fn taken(self, now: Instant) -> SchedulerModel {
        if self.due(now) {
            SchedulerModel {
                next_run_id: (self.next_run_id + 1) as RunId,
                state: SchedulerState::Running { run_id: self.next_run_id, dirty: false },
                ..self
            }
        } else {
            self
        }
    }

    /// After run `run_id` completed at `now`: a dirty run leaves one follow-up
    /// run that is due at once; any other run number changes nothing.
    pub open spec fn finished(self, run_id: RunId, now: Instant) -> SchedulerModel {
        if self.runs(run_id) {
            SchedulerModel {
                state: if self.state->dirty {
                    SchedulerState::Debouncing { deadline: now, trigger: RunTrigger::Filesystem }
                } else {
                    SchedulerState::Idle
                },
                ..self
            }
        } else {
            self
        }
    }

    /// After accepted changes at each of `times`, in order.
    pub open spec fn changed_at_all(self, times: Seq<Instant>) -> SchedulerModel
        decreases times.len(),
    {
        if times.len() == 0 {
            self
        } else {
            self.changed_at_all(times.drop_last()).changed(times.last())
        }
    }
}

impl View for Scheduler {
    type V = SchedulerModel;

    closed spec fn view(&self) -> SchedulerModel {
        SchedulerModel {
            debounce: self.debounce,
            next_run_id: self.next_run_id,
            state: self.state,
        }
    }
}

impl Clone for Scheduler {
    fn clone(&self) -> (copy: Scheduler)
        ensures
            copy@ == self@,
    {
        Scheduler { debounce: self.debounce, next_run_id: self.next_run_id, state: self.state }
    }
}

impl Scheduler {
    /// Creates a scheduler at the origin of the session's clock.
    pub fn new(debounce: Duration, initial_run: bool) -> (scheduler: Scheduler)
        ensures
            scheduler@ == SchedulerModel::fresh(debounce, initial_run, Instant::at_origin()),
            scheduler@.wf(),
    {
        Scheduler::new_at(debounce, initial_run, Instant::origin())
    }

    /// Creates a scheduler at a caller-supplied time.
    pub fn new_at(debounce: Duration, initial_run: bool, now: Instant) -> (scheduler: Scheduler)
        ensures
            scheduler@ == SchedulerModel::fresh(debounce, initial_run, now),
            scheduler@.wf(),
    {
        let state = if initial_run {
            SchedulerState::Debouncing { deadline: now, trigger: RunTrigger::Initial }
        } else {
            SchedulerState::Idle
        };
        Scheduler { debounce, next_run_id: 1, state }
    }

    pub fn state(&self) -> (state: &SchedulerState)
        ensures
            *state == self@.state,
    {
        &self.state
    }

    /// Whether another run can be numbered.
    pub fn has_next_run_id(&self) -> (left: bool)
        ensures
            left == (self@.next_run_id < u64::MAX),
    {
        self.next_run_id < u64::MAX
    }

    /// Whether the clock can name the deadline that a change at `now` makes.
    pub fn can_change(&self, now: Instant) -> (can: bool)
        ensures
            can == (self@.rearms() ==> now.reaches(self@.debounce)),
    {
        let rearms: bool = match self.state {
            SchedulerState::Idle => true,
            SchedulerState::Debouncing { trigger, .. } => trigger == RunTrigger::Filesystem,
            SchedulerState::Running { .. } => false,
        };
        !rearms || now.nanos <= u128::MAX - self.debounce.nanos
    }

    /// Returns the deadline to use in the event loop timeout calculation.
    pub fn next_deadline(&self) -> (deadline: Option<Instant>)
        ensures
            deadline == match self@.state {
                SchedulerState::Debouncing { deadline, .. } => Some(deadline),
                _ => None,
            },
    {
        match self.state {
            SchedulerState::Debouncing { deadline, .. } => Some(deadline),
            SchedulerState::Idle | SchedulerState::Running { .. } => None,
        }
    }

    /// Records an accepted filesystem change, including overflow/rescan.
    pub fn change(&mut self, now: Instant)
        requires
            old(self)@.rearms() ==> now.reaches(old(self)@.debounce),
        ensures
            final(self)@ == old(self)@.changed(now),
    {
        match self.state {
            SchedulerState::Idle => {
                self.state = SchedulerState::Debouncing {
                    deadline: now.after(self.debounce),
                    trigger: RunTrigger::Filesystem,
                };
            },
            SchedulerState::Debouncing { trigger, .. } => {
                // A startup event must not postpone the promised initial run.
                if trigger == RunTrigger::Filesystem {
                    self.state = SchedulerState::Debouncing {
                        deadline: now.after(self.debounce),
                        trigger: RunTrigger::Filesystem,
                    };
                }
            },
            SchedulerState::Running { run_id, .. } => {
                self.state = SchedulerState::Running { run_id, dirty: true };
            },
        }
    }

    /// Takes one due run. It cannot return another run until this one finishes.
    pub fn take_due_run(&mut self, now: Instant) -> (run: Option<ScheduledRun>)
        requires
            old(self)@.due(now) ==> old(self)@.next_run_id < u64::MAX,
        ensures
            run == old(self)@.due_run(now),
            final(self)@ == old(self)@.taken(now),
    {
        match self.state {
            SchedulerState::Debouncing { deadline, trigger } => {
                if now.nanos < deadline.nanos {
                    return None;
                }
                let id: RunId = self.next_run_id;
                self.next_run_id = self.next_run_id + 1;
                self.state = SchedulerState::Running { run_id: id, dirty: false };
                Some(ScheduledRun { id, trigger })
            },
            SchedulerState::Idle | SchedulerState::Running { .. } => None,
        }
    }

    /// Marks a started run as complete.
    ///
    /// Returns false for a stale or duplicate completion. Dirty changes create
    /// exactly one follow-up run due immediately, without another debounce.
    pub fn finish(&mut self, run_id: RunId, now: Instant) -> (completed: bool)
        ensures
            completed == old(self)@.runs(run_id),
            final(self)@ == old(self)@.finished(run_id, now),
    {
        match self.state {
            SchedulerState::Running { run_id: active_id, dirty } => {
                if run_id != active_id {
                    return false;
                }
                self.state = if dirty {
                    SchedulerState::Debouncing { deadline: now, trigger: RunTrigger::Filesystem }
                } else {
                    SchedulerState::Idle
                };
                true
            },
            SchedulerState::Idle | SchedulerState::Debouncing { .. } => false,
        }
    }
}

/// Every transition keeps the numbering of runs in order.
pub proof fn transitions_keep_wf(m: SchedulerModel, run_id: RunId, now: Instant)
    requires
        m.wf(),
        m.due(now) ==> m.next_run_id < u64::MAX,
    ensures
        m.changed(now).wf(),
        m.taken(now).wf(),
        m.finished(run_id, now).wf(),
{
}

/// Run numbers are handed out in order, each of them once: a run carries the
/// next number, which only taking a run moves on.
pub proof fn run_ids_are_consecutive(m: SchedulerModel, run_id: RunId, now: Instant)
    requires
        m.due(now) ==> m.next_run_id < u64::MAX,
    ensures
        m.due_run(now) matches Some(run) ==> {
            &&& run.id == m.next_run_id
            &&& m.taken(now).next_run_id == run.id + 1
            &&& m.taken(now).runs(run.id)
        },
        m.due_run(now) is None ==> m.taken(now) == m,
        m.changed(now).next_run_id == m.next_run_id,
        m.finished(run_id, now).next_run_id == m.next_run_id,
{
}

/// An initial run is due at once, and only once.
pub proof fn initial_run_is_due_once(debounce: Duration, now: Instant, later: Instant)
    ensures
        ({
            let m = SchedulerModel::fresh(debounce, true, now);
            &&& m.due_run(now) == Some(ScheduledRun { id: 1, trigger: RunTrigger::Initial })
            &&& m.taken(now).due_run(later) is None
        }),
{
}

/// Without an initial run nothing is due before the first change.
pub proof fn no_run_is_due_without_a_change(debounce: Duration, now: Instant, later: Instant)
    ensures
        SchedulerModel::fresh(debounce, false, now).due_run(later) is None,
{
}

/// Rapid changes group into one run, due when the last of them has been quiet
/// for the whole debounce period and not before.
pub proof fn changes_debounce_until_the_last_is_quiet(
    m: SchedulerModel,
    times: Seq<Instant>,
    now: Instant,
)
    requires
        m.rearms(),
        times.len() > 0,
        times.last().reaches(m.debounce),
    ensures
        m.changed_at_all(times).due(now) <==> times.last().nanos + m.debounce.nanos <= now.nanos,
        m.changed_at_all(times).due(now) ==> m.changed_at_all(times).due_run(now) == Some(
            ScheduledRun { id: m.next_run_id, trigger: RunTrigger::Filesystem },
        ),
        m.changed_at_all(times).rearms(),
        m.changed_at_all(times).debounce == m.debounce,
        m.changed_at_all(times).next_run_id == m.next_run_id,
{
    changes_keep_rearming(m, times);
    changes_keep_rearming(m, times.drop_last());
}

proof fn changes_keep_rearming(m: SchedulerModel, times: Seq<Instant>)
    requires
        m.rearms(),
    ensures
        m.changed_at_all(times).rearms(),
        m.changed_at_all(times).debounce == m.debounce,
        m.changed_at_all(times).next_run_id == m.next_run_id,
    decreases times.len(),
{
    if times.len() > 0 {
        changes_keep_rearming(m, times.drop_last());
    }
}

/// Changes before the initial run do not postpone it.
pub proof fn startup_changes_do_not_delay_the_initial_run(m: SchedulerModel, times: Seq<Instant>)
    requires
        m.state matches SchedulerState::Debouncing { trigger, .. } && trigger
            == RunTrigger::Initial,
    ensures
        m.changed_at_all(times) == m,
    decreases times.len(),
{
    if times.len() > 0 {
        startup_changes_do_not_delay_the_initial_run(m, times.drop_last());
    }
}

/// While a run is in progress no other run is handed out, whatever changes.
pub proof fn runs_never_overlap(m: SchedulerModel, times: Seq<Instant>, now: Instant)
    requires
        m.state is Running,
    ensures
        m.changed_at_all(times).due_run(now) is None,
        m.changed_at_all(times) == (SchedulerModel {
            state: SchedulerState::Running {
                run_id: m.state->run_id,
                dirty: m.state->dirty || times.len() > 0,
            },
            ..m
        }),
    decreases times.len(),
{
    if times.len() > 0 {
        runs_never_overlap(m, times.drop_last(), now);
    }
}

/// However many changes come during a run, its completion makes exactly one
/// follow-up run due, at once; without another change that run is the last.
pub proof fn changes_during_a_run_make_one_followup(
    m: SchedulerModel,
    run_id: RunId,
    times: Seq<Instant>,
    end: Instant,
    next_end: Instant,
    later: Instant,
)
    requires
        m.runs(run_id),
        times.len() > 0,
        m.next_run_id < u64::MAX,
    ensures
        ({
            let completed = m.changed_at_all(times).finished(run_id, end);
            let followup = completed.taken(end);
            &&& completed.due_run(end) == Some(
                ScheduledRun { id: m.next_run_id, trigger: RunTrigger::Filesystem },
            )
            &&& followup.due_run(later) is None
            &&& followup.finished(m.next_run_id, next_end).state == SchedulerState::Idle
        }),
{
    runs_never_overlap(m, times, end);
}

/// A run without a change in between completes into an idle scheduler, from
/// which a later change debounces as usual.
pub proof fn clean_completion_becomes_idle(
    m: SchedulerModel,
    run_id: RunId,
    end: Instant,
    later: Instant,
)
    requires
        m.runs(run_id),
        !m.state->dirty,
    ensures
        m.finished(run_id, end).state == SchedulerState::Idle,
        m.finished(run_id, end).due_run(later) is None,
        m.finished(run_id, end).rearms(),
{
}

/// A stale or duplicate completion changes nothing.
pub proof fn stale_completion_changes_nothing(
    m: SchedulerModel,
    run_id: RunId,
    now: Instant,
    later: Instant,
)
    ensures
        !m.runs(run_id) ==> m.finished(run_id, now) == m,
        m.finished(run_id, now).finished(run_id, later) == m.finished(run_id, now),
{
}

/// A change while nothing runs starts the quiet period anew, whether or not one
/// had begun: the run is due a whole debounce period after this change, and not
/// before.
pub proof fn a_change_restarts_the_quiet_period(m: SchedulerModel, change: Instant, now: Instant)
    requires
        m.state is Idle || (m.state matches SchedulerState::Debouncing { trigger, .. } && trigger
            == RunTrigger::Filesystem),
        change.nanos + m.debounce.nanos <= u128::MAX,
    ensures
        m.changed(change).due_run(now) == if change.nanos + m.debounce.nanos <= now.nanos {
            Some(ScheduledRun { id: m.next_run_id, trigger: RunTrigger::Filesystem })
        } else {
            None
        },
        m.changed(change).state matches SchedulerState::Debouncing { deadline, trigger }
            && deadline.nanos == change.nanos + m.debounce.nanos && trigger
            == RunTrigger::Filesystem,
        m.changed(change).debounce == m.debounce,
        m.changed(change).next_run_id == m.next_run_id,
{
}

/// A change during a run leaves the run in progress and marks it as dirty; one
/// before the initial run leaves that as it was.
pub proof fn a_change_never_disturbs_a_run(m: SchedulerModel, change: Instant)
    ensures
        m.state matches SchedulerState::Running { run_id, .. } ==> m.changed(change) == (
        SchedulerModel { state: SchedulerState::Running { run_id, dirty: true }, ..m }),
        m.state matches SchedulerState::Debouncing { trigger: RunTrigger::Initial, .. }
            ==> m.changed(change) == m,
{
}

/// A run is handed out exactly if one waits for a deadline that has come, under
/// the next number and with the trigger it waited with, and it is then the run in
/// progress, with nothing changed since. Otherwise nothing happens.
pub proof fn due_runs_are_handed_out(m: SchedulerModel, now: Instant)
    requires
        m.next_run_id < u64::MAX,
    ensures
        match m.state {
            SchedulerState::Debouncing { deadline, trigger } => if deadline.nanos <= now.nanos {
                &&& m.due_run(now) == Some(ScheduledRun { id: m.next_run_id, trigger })
                &&& m.taken(now) == (SchedulerModel {
                    next_run_id: (m.next_run_id + 1) as u64,
                    state: SchedulerState::Running { run_id: m.next_run_id, dirty: false },
                    ..m
                })
            } else {
                m.due_run(now) is None && m.taken(now) == m
            },
            _ => m.due_run(now) is None && m.taken(now) == m,
        },
{
}

/// The completion of the run in progress makes the scheduler idle or, if changes
/// came during the run, a follow-up due at once. The completion of another run
/// changes nothing.
pub proof fn completions_end_the_run_in_progress(
    m: SchedulerModel,
    run_id: RunId,
    end: Instant,
    now: Instant,
)
    ensures
        m.state is Running && m.state->run_id == run_id ==> {
            &&& m.finished(run_id, end).due_run(now) == if m.state->dirty && end.nanos <= now.nanos {
                Some(ScheduledRun { id: m.next_run_id, trigger: RunTrigger::Filesystem })
            } else {
                None
            }
            &&& !m.state->dirty ==> m.finished(run_id, end).state is Idle
            &&& !(m.finished(run_id, end).state is Running)
            &&& m.finished(run_id, end).debounce == m.debounce
            &&& m.finished(run_id, end).next_run_id == m.next_run_id
        },
        !(m.state is Running && m.state->run_id == run_id) ==> m.finished(run_id, end) == m,
{
}

/// A fresh scheduler keeps the quiet period it was given, numbers runs from one,
/// and has at most the initial run to hand out, from the start on.
pub proof fn fresh_schedulers_wait_for_the_initial_run(
    debounce: Duration,
    initial_run: bool,
    start: Instant,
    now: Instant,
)
    ensures
        ({
            let m = SchedulerModel::fresh(debounce, initial_run, start);
            &&& m.debounce == debounce
            &&& m.due_run(now) == if initial_run && start.nanos <= now.nanos {
                Some(ScheduledRun { id: 1, trigger: RunTrigger::Initial })
            } else {
                None
            }
            &&& m.next_run_id == 1
            &&& initial_run == !(m.state is Idle)
        }),
{
}

} // verus!
