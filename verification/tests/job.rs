use rust_py_scheduler::cron::CronSchedule;
use rust_py_scheduler::job::{Job, Schedule};

#[test]
fn new_job_has_sane_defaults() {
    let job = Job::new("cleanup".to_string(), Schedule::Every(5));
    assert_eq!(job.name, "cleanup");
    assert!(job.enabled);
    assert_eq!(job.run_count, 0);
    assert_eq!(job.error_count, 0);
    assert!(job.last_run_at.is_none());
    assert!(job.next_run_at.is_none());
    assert_eq!(job.max_retries, 0);
    assert!(job.last_error.is_none());
}

#[test]
fn with_max_retries_overrides_the_default() {
    let job = Job::new("cleanup".to_string(), Schedule::Every(5)).with_max_retries(3);
    assert_eq!(job.max_retries, 3);
}

#[test]
fn each_job_gets_a_unique_id() {
    let job_a = Job::new("a".to_string(), Schedule::Every(1));
    let job_b = Job::new("b".to_string(), Schedule::Every(1));
    assert_ne!(job_a.id, job_b.id);
}

// ---------------------------------------------------------------------

#[test]
fn ids_are_hyphenated_lowercase_uuids() {
    let job = Job::new("a".to_string(), Schedule::Every(1));
    assert_eq!(job.id.len(), 36);
    for (i, c) in job.id.chars().enumerate() {
        if [8, 13, 18, 23].contains(&i) {
            assert_eq!(c, '-');
        } else {
            assert!(c.is_ascii_hexdigit() && !c.is_ascii_uppercase());
        }
    }
    assert_eq!(job.id.chars().nth(14), Some('4'));
}

#[test]
fn describe_intervals_and_cron_expressions() {
    assert_eq!(Schedule::Every(300).describe(), "every 300s");
    assert_eq!(Schedule::Every(0).describe(), "every 0s");
    let cron = CronSchedule::parse(" 0 9 * * 1-5 ").unwrap();
    assert_eq!(Schedule::Cron(cron).describe(), "cron 0 9 * * 1-5");
}

#[test]
fn duplicate_copies_every_field() {
    let mut job = Job::new("x".to_string(), Schedule::Cron(CronSchedule::parse("*/5 * * * *").unwrap()));
    job.last_error = Some("boom".to_string());
    job.run_count = 4;
    let copy = job.duplicate();
    assert_eq!(copy.id, job.id);
    assert_eq!(copy.name, "x");
    assert_eq!(copy.last_error.as_deref(), Some("boom"));
    assert_eq!(copy.run_count, 4);
    assert_eq!(copy.schedule.describe(), "cron */5 * * * *");
}
