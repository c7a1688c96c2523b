use rust_py_scheduler::error::{ExceptionKind, SchedulerError};
use rust_py_scheduler::job::Schedule;
use rust_py_scheduler::registry::JobRegistry;
use rust_py_scheduler::scheduler::{job_name, register, remove_job, Lifecycle, PendingRegistration};

#[test]
fn names_default_to_job() {
    assert_eq!(job_name(Some("report".to_string())), "report");
    assert_eq!(job_name(None), "job");
}

#[test]
fn register_then_remove() {
    let mut registry: JobRegistry<u8> = JobRegistry::new();
    let id = register(&mut registry, "report".to_string(), Schedule::Every(3), 2, 7);
    let jobs = registry.snapshot();
    assert_eq!(jobs.len(), 1);
    assert_eq!(jobs[0].name, "report");
    assert_eq!(jobs[0].max_retries, 2);
    assert_eq!(jobs[0].schedule.describe(), "every 3s");
    assert_eq!(remove_job(&mut registry, &id), Ok(()));
    assert_eq!(remove_job(&mut registry, &id), Err(SchedulerError::JobNotFound(id.clone())));
}

#[test]
fn a_pending_registration_can_be_applied() {
    let mut registry: JobRegistry<u8> = JobRegistry::new();
    let pending = PendingRegistration { schedule: Schedule::Every(5), max_retries: 1 };
    let a = pending.apply(&mut registry, "a".to_string(), 1);
    let b = pending.apply(&mut registry, "b".to_string(), 2);
    assert_ne!(a, b);
    assert_eq!(registry.snapshot().len(), 2);
    assert_eq!(registry.lookup(&b), Some((&2, 1)));
}

#[test]
fn background_start_is_exclusive_and_shutdown_is_final() {
    let mut life = Lifecycle::new();
    assert_eq!(life.begin_background(), Ok(()));
    assert_eq!(life.begin_background(), Err(SchedulerError::AlreadyRunningInBackground));
    assert!(life.shutdown());
    assert!(!life.shutdown());
    assert!(life.stop_requested());
    assert_eq!(life.begin_background(), Ok(()));
    assert!(life.stop_requested());
    let e = life.spawn_failed("no threads".to_string());
    assert_eq!(e, SchedulerError::BackgroundThreadSpawnFailed("no threads".to_string()));
    assert_eq!(life.begin_background(), Ok(()));
}

#[test]
fn error_messages_and_kinds() {
    let cases = [
        (
            SchedulerError::InvalidInterval("10x".to_string()),
            "invalid interval '10x': expected formats like '10s', '5m' or '1h'",
            ExceptionKind::ValueError,
        ),
        (
            SchedulerError::InvalidCron("* *".to_string()),
            "invalid cron expression '* *': expected 5 fields like '0 * * * *' (minute hour day-of-month month day-of-week)",
            ExceptionKind::ValueError,
        ),
        (
            SchedulerError::AlreadyRunningInBackground,
            "scheduler is already running in the background",
            ExceptionKind::RuntimeError,
        ),
        (
            SchedulerError::BackgroundThreadSpawnFailed("oops".to_string()),
            "failed to start background thread: oops",
            ExceptionKind::RuntimeError,
        ),
        (
            SchedulerError::JobNotFound("abc".to_string()),
            "no job registered with id 'abc'",
            ExceptionKind::KeyError,
        ),
    ];
    for (err, message, kind) in cases {
        assert_eq!(err.message(), message);
        assert_eq!(err.exception_kind(), kind);
    }
}
