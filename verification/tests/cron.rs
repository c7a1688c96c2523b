use chrono::{Datelike, Local, TimeZone, Timelike};
use rust_py_scheduler::cron::{
    calendar_fields, next_deadline, occurrence_deadline, parse_field, CalendarFields, CronSchedule, SearchStep, PARK_NANOS,
};
use rust_py_scheduler::error::SchedulerError;

fn local_from_ymd_hm(year: i32, month: u32, day: u32, hour: u32, minute: u32) -> i64 {
    Local
        .with_ymd_and_hms(year, month, day, hour, minute, 0)
        .single()
        .expect("valid local datetime in tests")
        .timestamp_millis()
}

fn local_at(millis: i64) -> chrono::DateTime<Local> {
    Local.timestamp_millis_opt(millis).single().expect("representable time")
}

#[test]
fn rejects_wrong_field_count() {
    assert!(CronSchedule::parse("* * * *").is_err());
    assert!(CronSchedule::parse("* * * * * *").is_err());
    assert!(CronSchedule::parse("").is_err());
}

#[test]
fn parses_every_minute() {
    let schedule = CronSchedule::parse("* * * * *").unwrap();
    assert_eq!(schedule.minutes.len(), 60);
    assert_eq!(schedule.hours.len(), 24);
}

#[test]
fn parses_specific_values() {
    let schedule = CronSchedule::parse("0 9 * * *").unwrap();
    assert_eq!(schedule.minutes, vec![0]);
    assert_eq!(schedule.hours, vec![9]);
}

#[test]
fn parses_step_values() {
    let schedule = CronSchedule::parse("*/15 * * * *").unwrap();
    assert_eq!(schedule.minutes, vec![0, 15, 30, 45]);
}

#[test]
fn parses_ranges_and_lists() {
    let schedule = CronSchedule::parse("0 9-11,17 * * *").unwrap();
    assert_eq!(schedule.hours, vec![9, 10, 11, 17]);
}

#[test]
fn rejects_out_of_range() {
    assert!(CronSchedule::parse("60 * * * *").is_err());
    assert!(CronSchedule::parse("* 24 * * *").is_err());
    assert!(CronSchedule::parse("* * 0 * *").is_err()); // day-of-month is 1-31
    assert!(CronSchedule::parse("* * * 13 *").is_err());
}

#[test]
fn rejects_non_numeric() {
    assert!(CronSchedule::parse("a * * * *").is_err());
    assert!(CronSchedule::parse("*/0 * * * *").is_err());
}

#[test]
fn sunday_accepts_both_zero_and_seven() {
    let zero = CronSchedule::parse("0 0 * * 0").unwrap();
    let seven = CronSchedule::parse("0 0 * * 7").unwrap();
    assert_eq!(zero.days_of_week, seven.days_of_week);
    assert_eq!(zero.days_of_week, vec![0]);
}

#[test]
fn next_after_finds_the_next_top_of_hour() {
    let schedule = CronSchedule::parse("0 * * * *").unwrap();
    let now = local_from_ymd_hm(2026, 6, 19, 10, 30);
    let next = local_at(schedule.next_after(now).unwrap().0);
    assert_eq!(next.hour(), 11);
    assert_eq!(next.minute(), 0);
}

#[test]
fn next_after_is_strictly_after_now() {
    // At exactly 11:00, "0 * * * *" must return 12:00, never 11:00 again.
    let schedule = CronSchedule::parse("0 * * * *").unwrap();
    let now = local_from_ymd_hm(2026, 6, 19, 11, 0);
    let next = local_at(schedule.next_after(now).unwrap().0);
    assert_eq!(next.hour(), 12);
    assert_eq!(next.minute(), 0);
}

#[test]
fn next_after_handles_daily_time() {
    let schedule = CronSchedule::parse("30 9 * * *").unwrap();
    let now = local_from_ymd_hm(2026, 6, 19, 10, 0);
    let next = local_at(schedule.next_after(now).unwrap().0);
    assert_eq!(next.day(), 20);
    assert_eq!(next.hour(), 9);
    assert_eq!(next.minute(), 30);
}

#[test]
fn impossible_expression_returns_none() {
    // February 30th never happens.
    let schedule = CronSchedule::parse("0 0 30 2 *").unwrap();
    let now = local_from_ymd_hm(2026, 1, 1, 0, 0);
    assert!(schedule.next_after(now).is_none());
}

// ---------------------------------------------------------------------

#[test]
fn invalid_cron_error_carries_the_expression() {
    assert_eq!(
        CronSchedule::parse("* * *").unwrap_err(),
        SchedulerError::InvalidCron("* * *".to_string())
    );
    assert_eq!(
        CronSchedule::parse("1-70 * * * *").unwrap_err(),
        SchedulerError::InvalidCron("1-70 * * * *".to_string())
    );
}

#[test]
fn parses_every_field_kind() {
    let s = CronSchedule::parse("  5,10-20/5 */6 1,15 */4 1-5  ").unwrap();
    assert_eq!(s.expression(), "5,10-20/5 */6 1,15 */4 1-5");
    assert_eq!(s.minutes, vec![5, 10, 15, 20]);
    assert_eq!(s.hours, vec![0, 6, 12, 18]);
    assert_eq!(s.days_of_month, vec![1, 15]);
    assert_eq!(s.months, vec![1, 5, 9]);
    assert_eq!(s.days_of_week, vec![1, 2, 3, 4, 5]);
    assert!(s.dom_restricted);
    assert!(s.dow_restricted);
}

#[test]
fn duplicates_and_unsorted_lists_are_normalised() {
    let s = CronSchedule::parse("30,10,10,20 * * * 7,0,3").unwrap();
    assert_eq!(s.minutes, vec![10, 20, 30]);
    assert_eq!(s.days_of_week, vec![0, 3]);
    assert!(!s.dom_restricted);
}

#[test]
fn plus_sign_and_edge_values_are_accepted() {
    let s = CronSchedule::parse("+5 23 31 12 6").unwrap();
    assert_eq!(s.minutes, vec![5]);
    assert_eq!(s.hours, vec![23]);
    assert_eq!(s.days_of_month, vec![31]);
    assert_eq!(s.months, vec![12]);
    assert_eq!(s.days_of_week, vec![6]);
}

#[test]
fn malformed_parts_are_rejected() {
    for bad in [
        "5- * * * *", "-5 * * * *", "1-2-3 * * * *", "*/ * * * *", "1,,2 * * * *",
        "5-1 * * * *", "*/5/5 * * * *", "* * * * 8", "*-5 * * * *", "+ * * * *",
    ] {
        assert!(CronSchedule::parse(bad).is_err(), "{bad}");
    }
}

#[test]
fn matches_applies_the_vixie_day_rule() {
    let both = CronSchedule::parse("0 9 13 * 5").unwrap();
    let on = |day, weekday| CalendarFields { minute: 0, hour: 9, day, month: 6, weekday };
    assert!(both.matches(&on(13, 2)));
    assert!(both.matches(&on(14, 5)));
    assert!(!both.matches(&on(14, 2)));
    let dom_only = CronSchedule::parse("0 9 13 * *").unwrap();
    assert!(dom_only.matches(&on(13, 2)));
    assert!(!dom_only.matches(&on(14, 5)));
    let dow_only = CronSchedule::parse("0 9 * * 5").unwrap();
    assert!(dow_only.matches(&on(14, 5)));
    assert!(!dow_only.matches(&on(13, 2)));
    let every_day = CronSchedule::parse("0 9 * * *").unwrap();
    assert!(every_day.matches(&on(1, 0)));
    assert!(!every_day.matches(&CalendarFields { minute: 1, hour: 9, day: 1, month: 6, weekday: 0 }));
}

#[test]
fn occurrence_deadline_applies_the_gap() {
    let (deadline, text) = occurrence_deadline(1_000, 50_000, Some((110_000, 110)));
    assert_eq!(deadline, 1_000 + 60_000 * 1_000_000);
    assert_eq!(text.as_deref(), Some("110"));
    let (deadline, text) = occurrence_deadline(1_000, 50_000, Some((40_000, -3)));
    assert_eq!(deadline, 1_000);
    assert_eq!(text.as_deref(), Some("-3"));
    let (deadline, text) = occurrence_deadline(5, 0, None);
    assert_eq!(deadline, 5 + PARK_NANOS);
    assert_eq!(PARK_NANOS, 365 * 24 * 60 * 60 * 1_000_000_000);
    assert!(text.is_none());
    let (deadline, _) = occurrence_deadline(u64::MAX - 1, 0, Some((10, 0)));
    assert_eq!(deadline, u64::MAX);
}

#[test]
fn next_deadline_reports_the_next_occurrence() {
    let schedule = CronSchedule::parse("0 * * * *").unwrap();
    let now = local_from_ymd_hm(2026, 6, 19, 10, 30);
    let (deadline, text) = next_deadline(&schedule, 7, now);
    assert_eq!(deadline, 7 + 30 * 60 * 1_000_000_000);
    let expected = local_from_ymd_hm(2026, 6, 19, 11, 0) / 1000;
    assert_eq!(text, Some(expected.to_string()));
}

#[test]
fn calendar_fields_exist_exactly_within_chronos_range() {
    assert_eq!(chrono::DateTime::<chrono::Utc>::MIN_UTC.timestamp_millis(), -8334601228800000);
    assert_eq!(chrono::DateTime::<chrono::Utc>::MAX_UTC.timestamp_millis(), 8210266876799999);
    assert!(calendar_fields(-8334601228800000).is_some());
    assert!(calendar_fields(-8334601228800001).is_none());
    assert!(calendar_fields(8210266876799999).is_some());
    assert!(calendar_fields(8210266876800000).is_none());
    assert!(calendar_fields(i64::MIN).is_none());
    let fields = calendar_fields(local_from_ymd_hm(2026, 6, 19, 10, 30)).unwrap();
    assert_eq!((fields.minute, fields.hour, fields.day, fields.month, fields.weekday), (30, 10, 19, 6, 5));
}

#[test]
fn a_step_past_the_range_keeps_only_the_start() {
    let schedule = CronSchedule::parse("1-59/4294967295 * * * *").unwrap();
    assert_eq!(schedule.minutes, vec![1]);
    let schedule = CronSchedule::parse("59/4294967295 * * * *").unwrap();
    assert_eq!(schedule.minutes, vec![59]);
    let schedule = CronSchedule::parse("* */4294967295 * * *").unwrap();
    assert_eq!(schedule.hours, vec![0]);
    assert!(CronSchedule::parse("*/4294967296 * * * *").is_err());
}

#[test]
fn next_after_reports_the_fields_it_matched() {
    let schedule = CronSchedule::parse("30 9 * * *").unwrap();
    let now = local_from_ymd_hm(2026, 6, 19, 10, 0);
    let (next, fields) = schedule.next_after(now).unwrap();
    assert!(next > now);
    assert!(schedule.matches(&fields));
    assert_eq!((fields.minute, fields.hour, fields.day, fields.month), (30, 9, 20, 6));
    assert_eq!(next, local_from_ymd_hm(2026, 6, 20, 9, 30));
}

#[test]
fn search_steps() {
    let schedule = CronSchedule::parse("0 9 * * *").unwrap();
    let at_nine = CalendarFields { minute: 0, hour: 9, day: 1, month: 6, weekday: 1 };
    let at_ten = CalendarFields { minute: 0, hour: 10, day: 1, month: 6, weekday: 1 };
    assert!(matches!(schedule.search_step(100, 200, Some(at_nine)), SearchStep::Accept(f) if f == at_nine));
    assert!(matches!(schedule.search_step(200, 200, Some(at_nine)), SearchStep::Skip));
    assert!(matches!(schedule.search_step(100, 200, Some(at_ten)), SearchStep::Skip));
    assert!(matches!(schedule.search_step(100, 200, None), SearchStep::Stop));
}

#[test]
fn first_occurrence_takes_the_first_accepted_minute() {
    let schedule = CronSchedule::parse("0 9 * * *").unwrap();
    let at_nine = CalendarFields { minute: 0, hour: 9, day: 1, month: 6, weekday: 1 };
    let at_ten = CalendarFields { minute: 0, hour: 10, day: 1, month: 6, weekday: 1 };
    assert_eq!(schedule.first_occurrence(100, 0, &vec![Some(at_ten), Some(at_nine), Some(at_nine)]), Some((60_000, at_nine)));
    assert_eq!(schedule.first_occurrence(100, 0, &vec![Some(at_ten), None, Some(at_nine)]), None);
    assert_eq!(schedule.first_occurrence(100, 0, &vec![Some(at_ten), Some(at_ten)]), None);
    assert_eq!(schedule.first_occurrence(100, 0, &vec![]), None);
    assert_eq!(schedule.first_occurrence(0, 0, &vec![Some(at_nine)]), None);
    assert_eq!(schedule.first_occurrence(0, 0, &vec![Some(at_nine), Some(at_nine)]), Some((60_000, at_nine)));
}

#[test]
fn search_from_a_given_minute() {
    let schedule = CronSchedule::parse("30 9 * * *").unwrap();
    let start = local_from_ymd_hm(2026, 6, 19, 10, 0);
    let (t, fields) = schedule.search_from(start - 1, start).unwrap();
    assert_eq!(t, local_from_ymd_hm(2026, 6, 20, 9, 30));
    assert_eq!((fields.minute, fields.hour, fields.day), (30, 9, 20));
    let at_start = schedule.search_from(start - 1, local_from_ymd_hm(2026, 6, 20, 9, 30)).unwrap();
    assert_eq!(at_start.0, local_from_ymd_hm(2026, 6, 20, 9, 30));
    let not_at_after = schedule.search_from(at_start.0, at_start.0).unwrap();
    assert_eq!(not_at_after.0, local_from_ymd_hm(2026, 6, 21, 9, 30));
}

#[test]
fn parse_field_reads_each_form() {
    let chars = |s: &str| s.chars().collect::<Vec<char>>();
    assert_eq!(parse_field(&chars("*/20"), 0, 59), Some(vec![0, 20, 40]));
    assert_eq!(parse_field(&chars("5,1-3,2"), 0, 59), Some(vec![1, 2, 3, 5]));
    assert_eq!(parse_field(&chars("10-20/5"), 0, 23), Some(vec![10, 15, 20]));
    assert_eq!(parse_field(&chars("1-59/4294967295"), 0, 59), Some(vec![1]));
    assert_eq!(parse_field(&chars("0"), 1, 31), None);
    assert_eq!(parse_field(&chars("3-1"), 0, 59), None);
    assert_eq!(parse_field(&chars("1,"), 0, 59), None);
    assert_eq!(parse_field(&chars("*/0"), 0, 59), None);
}
