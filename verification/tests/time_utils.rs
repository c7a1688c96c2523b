use rust_py_scheduler::time_utils::{
    future_as_string, millis_from_offset, seconds_from_offset, now_as_string, timestamp_text_after, wall_clock_millis, MonotonicClock,
};

#[test]
fn now_as_string_is_a_parseable_unix_timestamp() {
    let value: u64 = now_as_string().parse().expect("must be a valid u64");
    assert!(value > 0);
}

#[test]
fn future_as_string_is_later_than_now_as_string() {
    let now: u64 = now_as_string().parse().expect("must be a valid u64");
    let future: u64 = future_as_string(60).parse().expect("must be a valid u64");
    assert!(future >= now + 60);
}

// ---------------------------------------------------------------------

#[test]
fn timestamp_text_after_adds_and_saturates() {
    assert_eq!(timestamp_text_after(1_718_721_000, 3), "1718721003");
    assert_eq!(timestamp_text_after(0, 0), "0");
    assert_eq!(timestamp_text_after(u64::MAX - 1, 5), u64::MAX.to_string());
}

#[test]
fn monotonic_clock_never_goes_back() {
    let clock = MonotonicClock::new();
    let a = clock.now_nanos();
    let b = clock.now_nanos();
    assert!(b >= a);
    let m = clock.moment(true);
    assert!(m.mono_nanos >= b);
    assert!(m.epoch_seconds > 0);
    assert!(m.wall_millis.unwrap() / 1000 >= m.epoch_seconds as i64 - 5);
    assert!(clock.moment(false).wall_millis.is_none());
}

#[test]
fn offsets_from_the_epoch_become_signed_milliseconds() {
    assert_eq!(millis_from_offset(Ok((1, 500))), 1_500);
    assert_eq!(millis_from_offset(Err((2, 250))), -2_250);
    assert_eq!(millis_from_offset(Ok((0, 0))), 0);
    assert_eq!(millis_from_offset(Ok((u64::MAX, 999))), i64::MAX);
    assert_eq!(millis_from_offset(Err((u64::MAX, 0))), i64::MIN);
    assert_eq!(millis_from_offset(Ok((9_223_372_036_854_775, 807))), i64::MAX);
    assert_eq!(millis_from_offset(Ok((9_223_372_036_854_775, 806))), i64::MAX - 1);
}

#[test]
fn the_wall_clock_agrees_with_the_epoch_seconds() {
    let now: i64 = now_as_string().parse().unwrap();
    let wall = wall_clock_millis();
    assert!(wall / 1000 >= now - 5 && wall / 1000 <= now + 5);
}

#[test]
fn a_clock_before_the_epoch_shows_zero_seconds() {
    assert_eq!(seconds_from_offset(Ok((1_718_721_000, 999))), 1_718_721_000);
    assert_eq!(seconds_from_offset(Err((3, 500))), 0);
    assert_eq!(seconds_from_offset(Ok((0, 0))), 0);
}
