use rust_py_scheduler::executor::{keep_waiting, wait_step, wake_deadline, Attempts, WaitStep, IDLE_POLL_NANOS};

#[test]
fn wake_deadline_prefers_the_next_job() {
    assert_eq!(wake_deadline(Some(42), 10), 42);
    assert_eq!(wake_deadline(None, 10), 10 + IDLE_POLL_NANOS);
    assert_eq!(wake_deadline(None, u64::MAX), u64::MAX);
}

#[test]
fn wait_step_finishes_when_stopped_or_due() {
    assert_eq!(wait_step(true, 0, 100), WaitStep::Finish);
    assert_eq!(wait_step(false, 100, 100), WaitStep::Finish);
    assert_eq!(wait_step(false, 30, 100), WaitStep::Sleep(70));
    assert!(keep_waiting(false, false));
    assert!(!keep_waiting(true, false));
    assert!(!keep_waiting(false, true));
}

fn run_tick(max_retries: u32, outcomes: &[Option<&str>]) -> (usize, Option<String>) {
    let mut attempts = Attempts::new(max_retries);
    let mut used = 0;
    while attempts.wants_attempt() {
        attempts.record(outcomes[used].map(|m| m.to_string()));
        used += 1;
    }
    (used, attempts.into_last_error())
}

#[test]
fn a_tick_stops_at_the_first_success() {
    assert_eq!(run_tick(2, &[Some("a"), None, Some("c")]), (2, None));
    assert_eq!(run_tick(0, &[None]), (1, None));
}

#[test]
fn a_failing_tick_uses_every_retry_and_keeps_the_last_error() {
    assert_eq!(run_tick(2, &[Some("a"), Some("b"), Some("c"), None]), (3, Some("c".to_string())));
    assert_eq!(run_tick(0, &[Some("only"), None]), (1, Some("only".to_string())));
}
