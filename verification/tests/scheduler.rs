use stalker::scheduler::{ScheduledRun, Scheduler, SchedulerState};
use stalker::time::{Duration, Instant};
use stalker::RunTrigger;

fn clock() -> Instant {
    Instant { nanos: 7_000_000_123 }
}

#[test]
fn initial_run_is_due_once_immediately() {
    let now = clock();
    let mut scheduler = Scheduler::new_at(Duration::from_millis(150), true, now);
    assert_eq!(
        scheduler.take_due_run(now),
        Some(ScheduledRun {
            id: 1,
            trigger: RunTrigger::Initial
        })
    );
    assert_eq!(scheduler.take_due_run(now), None);
}

#[test]
fn changes_debounce_until_the_last_change_is_quiet() {
    let now = clock();
    let mut scheduler = Scheduler::new_at(Duration::from_millis(150), false, now);
    scheduler.change(now);
    scheduler.change(now.after(Duration::from_millis(100)));
    assert_eq!(
        scheduler.take_due_run(now.after(Duration::from_millis(249))),
        None
    );
    assert_eq!(
        scheduler.take_due_run(now.after(Duration::from_millis(250))),
        Some(ScheduledRun {
            id: 1,
            trigger: RunTrigger::Filesystem
        })
    );
}

#[test]
fn change_during_run_makes_one_immediate_followup_without_overlap() {
    let now = clock();
    let mut scheduler = Scheduler::new_at(Duration::from_secs(1), false, now);
    scheduler.change(now);
    let first = scheduler
        .take_due_run(now.after(Duration::from_secs(1)))
        .unwrap();
    scheduler.change(now.after(Duration::from_secs(2)));
    scheduler.change(now.after(Duration::from_secs(3)));
    assert_eq!(
        scheduler.take_due_run(now.after(Duration::from_secs(3))),
        None
    );
    assert!(scheduler.finish(first.id, now.after(Duration::from_secs(4))));
    assert_eq!(
        scheduler.take_due_run(now.after(Duration::from_secs(4))),
        Some(ScheduledRun {
            id: 2,
            trigger: RunTrigger::Filesystem
        })
    );
    assert_eq!(
        scheduler.take_due_run(now.after(Duration::from_secs(4))),
        None
    );
}

#[test]
fn clean_completion_becomes_idle_and_later_changes_run_normally() {
    let now = clock();
    let mut scheduler = Scheduler::new_at(Duration::from_secs(0), false, now);
    scheduler.change(now);
    let first = scheduler.take_due_run(now).unwrap();
    assert!(scheduler.finish(first.id, now));
    assert_eq!(scheduler.state(), &SchedulerState::Idle);
    scheduler.change(now.after(Duration::from_secs(1)));
    assert_eq!(
        scheduler
            .take_due_run(now.after(Duration::from_secs(1)))
            .unwrap()
            .id,
        2
    );
}

#[test]
fn spawn_failure_is_a_completion_and_later_change_retries() {
    let now = clock();
    let mut scheduler = Scheduler::new_at(Duration::from_secs(0), false, now);
    scheduler.change(now);
    let failed_spawn = scheduler.take_due_run(now).unwrap();
    assert!(scheduler.finish(failed_spawn.id, now));
    assert_eq!(scheduler.state(), &SchedulerState::Idle);
    scheduler.change(now.after(Duration::from_secs(1)));
    assert_eq!(
        scheduler
            .take_due_run(now.after(Duration::from_secs(1)))
            .unwrap()
            .id,
        2
    );
}

#[test]
fn stale_completion_cannot_finish_the_current_run() {
    let now = clock();
    let mut scheduler = Scheduler::new_at(Duration::from_secs(0), false, now);
    scheduler.change(now);
    let run = scheduler.take_due_run(now).unwrap();
    assert!(!scheduler.finish(run.id + 1, now));
    assert!(
        matches!(scheduler.state(), SchedulerState::Running { run_id, .. } if *run_id == run.id)
    );
}

#[test]
fn startup_change_does_not_delay_initial_run() {
    let now = clock();
    let mut scheduler = Scheduler::new_at(Duration::from_secs(1), true, now);
    scheduler.change(now);
    assert_eq!(
        scheduler.take_due_run(now).unwrap().trigger,
        RunTrigger::Initial
    );
}

#[test]
fn nothing_is_due_without_an_initial_run_or_a_change() {
    let mut scheduler = Scheduler::new(Duration::from_millis(150), false);
    assert_eq!(scheduler.next_deadline(), None);
    assert_eq!(scheduler.take_due_run(clock()), None);
    let mut initial = Scheduler::new(Duration::from_millis(150), true);
    assert_eq!(initial.next_deadline(), Some(Instant::origin()));
    assert_eq!(initial.take_due_run(Instant::origin()).unwrap().id, 1);
}

#[test]
fn runs_are_numbered_in_order() {
    let now = clock();
    let mut scheduler = Scheduler::new_at(Duration::from_secs(0), true, now);
    for id in 1..=5 {
        assert!(scheduler.has_next_run_id());
        assert_eq!(scheduler.take_due_run(now).unwrap().id, id);
        scheduler.change(now);
        assert!(scheduler.finish(id, now));
        assert!(!scheduler.finish(id, now));
    }
    assert_eq!(scheduler.clone().state(), scheduler.state());
}

#[test]
fn the_clock_bounds_the_quiet_period() {
    let late = Instant { nanos: u128::MAX };
    let mut scheduler = Scheduler::new_at(Duration { nanos: 1 }, false, late);
    assert!(!scheduler.can_change(late));
    assert!(scheduler.can_change(clock()));
    scheduler.change(clock());
    scheduler.take_due_run(late).unwrap();
    // A run in progress only becomes dirty.
    assert!(scheduler.can_change(late));
    scheduler.change(late);
    assert_eq!(
        scheduler.state(),
        &SchedulerState::Running {
            run_id: 1,
            dirty: true
        }
    );
}

#[test]
fn spans_and_points_of_time_add_up() {
    assert_eq!(Duration::from_millis(3).nanos, 3_000_000);
    assert_eq!(Duration::from_secs(3).nanos, 3_000_000_000);
    assert_eq!(
        Duration::from_secs(1).min(Duration::from_millis(999)),
        Duration::from_millis(999)
    );
    let now = clock();
    let later = now.after(Duration::from_secs(2));
    assert_eq!(later.saturating_duration_since(now), Duration::from_secs(2));
    assert_eq!(now.saturating_duration_since(later), Duration::from_secs(0));
}
