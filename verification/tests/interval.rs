use std::time::Duration;

use rust_py_scheduler::error::SchedulerError;
use rust_py_scheduler::interval::parse_interval;
use rust_py_scheduler::job::Schedule;

#[test]
fn parses_seconds() {
    assert_eq!(Duration::from_secs(parse_interval("10s").unwrap()), Duration::from_secs(10));
}

#[test]
fn parses_minutes() {
    assert_eq!(Duration::from_secs(parse_interval("5m").unwrap()), Duration::from_secs(5 * 60));
}

#[test]
fn parses_hours() {
    assert_eq!(Duration::from_secs(parse_interval("1h").unwrap()), Duration::from_secs(3600));
}

#[test]
fn rejects_empty_string() {
    assert!(parse_interval("").is_err());
}

#[test]
fn rejects_missing_unit() {
    assert!(parse_interval("10").is_err());
}

#[test]
fn rejects_unknown_unit() {
    assert!(parse_interval("10x").is_err());
}

#[test]
fn rejects_zero_amount() {
    assert!(parse_interval("0s").is_err());
}

#[test]
fn rejects_negative_amount() {
    assert!(parse_interval("-5s").is_err());
}

#[test]
fn rejects_non_numeric_amount() {
    assert!(parse_interval("abcs").is_err());
}

// ---------------------------------------------------------------------

#[test]
fn surrounding_whitespace_and_plus_sign_are_accepted() {
    assert_eq!(parse_interval("  30s\t").unwrap(), 30);
    assert_eq!(parse_interval("+2h").unwrap(), 7200);
    assert_eq!(parse_interval("007m").unwrap(), 420);
}

#[test]
fn the_error_carries_the_input_as_given() {
    assert_eq!(
        parse_interval(" 5 s").unwrap_err(),
        SchedulerError::InvalidInterval(" 5 s".to_string())
    );
    assert_eq!(parse_interval("s").unwrap_err(), SchedulerError::InvalidInterval("s".to_string()));
    assert_eq!(parse_interval("+s").unwrap_err(), SchedulerError::InvalidInterval("+s".to_string()));
}

#[test]
fn largest_amounts() {
    assert_eq!(parse_interval("18446744073709551615s").unwrap(), u64::MAX);
    assert!(parse_interval("18446744073709551616s").is_err());
    assert_eq!(parse_interval("5124095576030431h").unwrap(), 5124095576030431 * 3600);
}

#[test]
fn described_intervals_parse_back() {
    for secs in [1u64, 9, 10, 300, 86_400, u64::MAX] {
        let text = Schedule::Every(secs).describe();
        let interval = text.strip_prefix("every ").unwrap();
        assert_eq!(parse_interval(interval).unwrap(), secs);
    }
}

#[test]
fn non_ascii_units_and_overflowing_amounts_are_invalid() {
    assert_eq!(parse_interval("5\u{e9}").unwrap_err(), SchedulerError::InvalidInterval("5\u{e9}".to_string()));
    assert_eq!(
        parse_interval("5124095576030432h").unwrap_err(),
        SchedulerError::InvalidInterval("5124095576030432h".to_string())
    );
    assert_eq!(
        parse_interval("307445734561825861m").unwrap_err(),
        SchedulerError::InvalidInterval("307445734561825861m".to_string())
    );
    assert_eq!(parse_interval("307445734561825860m").unwrap(), 307445734561825860 * 60);
}
