use roomsync::daemon::{Outcome, Severity, Sweeper, Task, CLEANUP_DELAY_SECS};
use roomsync::room::Stats;

#[test]
fn sweeper_starts_asleep() {
    assert_eq!(CLEANUP_DELAY_SECS, 60);
    let sweeper = Sweeper::new();
    assert_eq!(sweeper.task(), Task::Sleep(60));
}

#[test]
fn sweeper_alternates_between_sleep_and_sweep() {
    let mut sweeper = Sweeper::new();
    let quiet = Stats { active_rooms: 3, expired_rooms: 0, clients: 7 };
    for _ in 0..3 {
        assert_eq!(sweeper.advance(Outcome::Woke), None);
        assert_eq!(sweeper.task(), Task::Sweep);
        assert_eq!(sweeper.advance(Outcome::Swept(quiet)), Some(Severity::Trace));
        assert_eq!(sweeper.task(), Task::Sleep(60));
    }
}

#[test]
fn sweep_with_evictions_is_logged_louder() {
    let mut sweeper = Sweeper::new();
    sweeper.advance(Outcome::Woke);
    let stats = Stats { active_rooms: 0, expired_rooms: 1, clients: 0 };
    assert_eq!(sweeper.advance(Outcome::Swept(stats)), Some(Severity::Debug));
}

#[test]
fn report_that_does_not_answer_the_task_changes_nothing() {
    let mut sweeper = Sweeper::new();
    let stats = Stats { active_rooms: 1, expired_rooms: 1, clients: 0 };
    assert_eq!(sweeper.advance(Outcome::Swept(stats)), None);
    assert_eq!(sweeper.task(), Task::Sleep(60));
    sweeper.advance(Outcome::Woke);
    assert_eq!(sweeper.advance(Outcome::Woke), None);
    assert_eq!(sweeper.task(), Task::Sweep);
}
