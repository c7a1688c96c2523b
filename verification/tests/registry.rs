use rust_py_scheduler::cron::CronSchedule;
use rust_py_scheduler::job::{Job, Schedule};
use rust_py_scheduler::registry::{schedule_next_at, JobRegistry};
use rust_py_scheduler::time_utils::Moment;

const SECOND: u64 = 1_000_000_000;

fn moment(mono_nanos: u64, epoch_seconds: u64) -> Moment {
    Moment { mono_nanos, wall_millis: Some(epoch_seconds as i64 * 1000), epoch_seconds }
}

fn job(name: &str, secs: u64) -> Job {
    Job::new(name.to_string(), Schedule::Every(secs))
}

#[test]
fn insert_schedules_interval_jobs_from_now() {
    let mut registry: JobRegistry<&str> = JobRegistry::new();
    let id = registry.insert_at(job("a", 5), "callback-a", moment(1_000, 1_718_721_000));
    let jobs = registry.snapshot();
    assert_eq!(jobs.len(), 1);
    assert_eq!(jobs[0].id, id);
    assert_eq!(jobs[0].next_run_at.as_deref(), Some("1718721005"));
    assert_eq!(registry.next_deadline(), Some(1_000 + 5 * SECOND));
    assert_eq!(registry.lookup(&id), Some((&"callback-a", 0)));
}

#[test]
fn snapshot_is_sorted_by_id() {
    let mut registry: JobRegistry<u32> = JobRegistry::new();
    for (i, name) in ["c", "a", "d", "b", "e"].iter().enumerate() {
        let mut j = job(name, 1);
        j.id = name.to_string();
        registry.insert_at(j, i as u32, moment(0, 0));
    }
    let names: Vec<String> = registry.snapshot().into_iter().map(|j| j.id).collect();
    assert_eq!(names, vec!["a", "b", "c", "d", "e"]);
}

#[test]
fn inserting_an_existing_id_replaces_it() {
    let mut registry: JobRegistry<u32> = JobRegistry::new();
    let mut first = job("first", 1);
    first.id = "same".to_string();
    let mut second = job("second", 2);
    second.id = "same".to_string();
    registry.insert_at(first, 1, moment(0, 0));
    registry.insert_at(second, 2, moment(0, 0));
    let jobs = registry.snapshot();
    assert_eq!(jobs.len(), 1);
    assert_eq!(jobs[0].name, "second");
    assert_eq!(registry.lookup("same"), Some((&2, 0)));
}

#[test]
fn remove_reports_whether_the_job_was_there() {
    let mut registry: JobRegistry<()> = JobRegistry::new();
    let id = registry.insert_at(job("a", 1), (), moment(0, 0));
    assert!(registry.remove(&id));
    assert!(!registry.remove(&id));
    assert!(registry.snapshot().is_empty());
    assert_eq!(registry.next_deadline(), None);
    assert!(registry.lookup(&id).is_none());
}

#[test]
fn due_jobs_are_the_enabled_ones_past_their_deadline() {
    let mut registry: JobRegistry<()> = JobRegistry::new();
    let fast = registry.insert_at(job("fast", 1), (), moment(0, 0));
    let slow = registry.insert_at(job("slow", 10), (), moment(0, 0));
    assert!(registry.due_job_ids(SECOND - 1).is_empty());
    assert_eq!(registry.due_job_ids(SECOND), vec![fast.clone()]);
    let mut both = registry.due_job_ids(10 * SECOND);
    both.sort();
    let mut expected = vec![fast, slow];
    expected.sort();
    assert_eq!(both, expected);
    assert_eq!(registry.next_deadline(), Some(SECOND));
}

#[test]
fn disabled_jobs_are_never_due() {
    let mut registry: JobRegistry<()> = JobRegistry::new();
    let mut j = job("off", 1);
    j.enabled = false;
    registry.insert_at(j, (), moment(0, 0));
    assert!(registry.due_job_ids(u64::MAX).is_empty());
    assert_eq!(registry.next_deadline(), None);
}

#[test]
fn finishing_a_run_updates_counts_and_reschedules() {
    let mut registry: JobRegistry<()> = JobRegistry::new();
    let id = registry.insert_at(job("a", 3).with_max_retries(2), (), moment(0, 100));
    registry.finish_run_at(&id, Some("boom".to_string()), moment(3 * SECOND, 103));
    let j = &registry.snapshot()[0];
    assert_eq!((j.run_count, j.error_count), (0, 1));
    assert_eq!(j.last_error.as_deref(), Some("boom"));
    assert_eq!(j.last_run_at.as_deref(), Some("103"));
    assert_eq!(j.next_run_at.as_deref(), Some("106"));
    assert_eq!(registry.next_deadline(), Some(6 * SECOND));
    registry.finish_run_at(&id, None, moment(6 * SECOND, 106));
    let j = &registry.snapshot()[0];
    assert_eq!((j.run_count, j.error_count), (1, 1));
    assert!(j.last_error.is_none());
    assert_eq!(j.last_run_at.as_deref(), Some("106"));
    assert_eq!(j.max_retries, 2);
}

#[test]
fn finishing_a_removed_job_does_nothing() {
    let mut registry: JobRegistry<()> = JobRegistry::new();
    let id = registry.insert_at(job("a", 3), (), moment(0, 0));
    registry.remove(&id);
    registry.finish_run_at(&id, None, moment(0, 0));
    assert!(registry.snapshot().is_empty());
    assert!(registry.has_room(&id, true));
}

#[test]
fn has_room_checks_the_counter_that_would_grow() {
    let mut registry: JobRegistry<()> = JobRegistry::new();
    let mut j = job("a", 3);
    j.run_count = u64::MAX;
    let id = registry.insert_at(j, (), moment(0, 0));
    assert!(!registry.has_room(&id, true));
    assert!(registry.has_room(&id, false));
}

#[test]
fn huge_intervals_saturate() {
    let (deadline, text) = schedule_next_at(&Schedule::Every(u64::MAX), moment(1, 2));
    assert_eq!(deadline, u64::MAX);
    assert_eq!(text, Some(u64::MAX.to_string()));
}

#[test]
fn cron_jobs_get_a_deadline_no_earlier_than_now() {
    let schedule = Schedule::Cron(CronSchedule::parse("* * * * *").unwrap());
    let now = Moment { mono_nanos: 500, wall_millis: Some(1_718_721_030_000), epoch_seconds: 1_718_721_030 };
    let (deadline, text) = schedule_next_at(&schedule, now);
    assert_eq!(deadline, 500 + 30 * SECOND);
    assert_eq!(text.as_deref(), Some("1718721060"));
}

#[test]
fn insert_and_finish_run_read_the_clock() {
    let mut registry: JobRegistry<()> = JobRegistry::new();
    let id = registry.insert(job("a", 60), ());
    let first = registry.next_deadline().unwrap();
    assert!(first >= 60 * SECOND);
    registry.finish_run(&id, None);
    let j = &registry.snapshot()[0];
    assert_eq!(j.run_count, 1);
    assert!(j.last_run_at.is_some());
    assert!(registry.next_deadline().unwrap() >= first);
}

#[test]
fn the_clock_is_kept_across_operations() {
    let mut registry: JobRegistry<()> = JobRegistry::new();
    let before = registry.clock().now_nanos();
    let id = registry.insert(job("a", 1), ());
    registry.finish_run(&id, None);
    registry.remove(&id);
    assert!(registry.clock().now_nanos() >= before);
}

#[test]
fn cron_jobs_without_a_wall_reading_read_the_clock() {
    let schedule = Schedule::Cron(CronSchedule::parse("* * * * *").unwrap());
    let now = Moment { mono_nanos: 500, wall_millis: None, epoch_seconds: 0 };
    let (deadline, text) = schedule_next_at(&schedule, now);
    assert!(deadline > 500 && deadline <= 500 + 60 * SECOND);
    let shown: i64 = text.unwrap().parse().unwrap();
    assert_eq!(shown % 60, 0);
}
