//! Wall-clock timestamps for display (`last_run_at`, `next_run_at`) and the
//! monotonic clock that scheduling deadlines are measured on.
use vstd::prelude::*;
use crate::text::{decimal, decimal_string};

verus! {

#[verifier::external_type_specification]
#[verifier::external_body]
pub struct ExSystemTime(std::time::SystemTime);

#[verifier::external_type_specification]
#[verifier::external_body]
pub struct ExInstant(std::time::Instant);

/// `SystemTime::now`: reads the wall clock, so nothing is stated of it.
#[verifier::external_body]
fn system_time_now() -> std::time::SystemTime {
    std::time::SystemTime::now()
}

/// `SystemTime::duration_since(UNIX_EPOCH)`: `Ok` with the time since
/// the epoch, or, for a time before the epoch, `Err` with how far before it
/// (the duration its documented error carries). It reads nothing but `t`,
/// yet nothing about a `SystemTime` is visible here, so nothing is stated.
#[verifier::external_body]
fn since_epoch(t: &std::time::SystemTime) -> Result<std::time::Duration, std::time::Duration> {
    match t.duration_since(std::time::UNIX_EPOCH) {
        Ok(d) => Ok(d),
        Err(e) => Err(e.duration()),
    }
}

/// `Duration::as_secs`: the whole seconds of `d`.
#[verifier::external_body]
fn whole_seconds(d: &std::time::Duration) -> u64 {
    d.as_secs()
}

/// `Duration::subsec_millis`: the whole milliseconds past the whole
/// seconds of `d`, documented to be below 1000.
#[verifier::external_body]
fn subsec_millis(d: &std::time::Duration) -> (r: u32)
    ensures
        r < 1000,
{
    d.subsec_millis()
}

/// `Duration::as_nanos`: the whole nanoseconds of `d`.
#[verifier::external_body]
fn whole_nanos(d: &std::time::Duration) -> u128 {
    d.as_nanos()
}

/// The offset of `t` from the Unix epoch, as whole seconds and the
/// milliseconds past them: `Ok` at or after the epoch, `Err` (how far
/// before) before it.
fn offset_from_epoch(t: &std::time::SystemTime) -> (r: Result<(u64, u32), (u64, u32)>)
    ensures
        r matches Ok((_, ms)) ==> ms < 1000,
        r matches Err((_, ms)) ==> ms < 1000,
{
    match since_epoch(t) {
        Ok(d) => Ok((whole_seconds(&d), subsec_millis(&d))),
        Err(d) => Err((whole_seconds(&d), subsec_millis(&d))),
    }
}

/// `Instant::now`: reads the monotonic clock.
#[verifier::external_body]
fn instant_now() -> std::time::Instant {
    std::time::Instant::now()
}

/// `Instant::saturating_duration_since`: how long after `earlier` the
/// instant `later` is (zero if it is not after it).
#[verifier::external_body]
fn elapsed_between(earlier: &std::time::Instant, later: &std::time::Instant) -> std::time::Duration {
    later.saturating_duration_since(*earlier)
}

/// `n`, or `u64::MAX` when it does not fit.
pub fn saturating_u64(n: u128) -> (r: u64)
    ensures
        r == (if n > u64::MAX {
            u64::MAX as int
        } else {
            n as int
        }),
{
    if n > u64::MAX as u128 {
        u64::MAX
    } else {
        n as u64
    }
}

/// `a + b`, or `u64::MAX` when that does not fit.
pub open spec fn saturating_sum(a: nat, b: nat) -> nat {
    if a + b > u64::MAX {
        u64::MAX as nat
    } else {
        a + b
    }
}

/// Whole seconds since the Unix epoch of a clock reading given by its
/// offset from the epoch; 0 for a time before the epoch.
pub open spec fn offset_seconds(offset: Result<(u64, u32), (u64, u32)>) -> nat {
    match offset {
        Ok((secs, _)) => secs as nat,
        Err(_) => 0,
    }
}

/// The whole seconds since the Unix epoch of a clock reading given by its
/// offset from the epoch: a clock set before 1970 gives 0 rather than an
/// error, since the value is only ever displayed.
pub fn seconds_from_offset(offset: Result<(u64, u32), (u64, u32)>) -> (r: u64)
    ensures
        r == offset_seconds(offset),
{
    match offset {
        Ok((secs, _)) => secs,
        Err(_) => 0,
    }
}

/// Wall-clock seconds since the Unix epoch (0 before 1970).
pub fn epoch_seconds() -> (r: u64)
    ensures
        exists|offset: Result<(u64, u32), (u64, u32)>| r == offset_seconds(offset),
{
    seconds_from_offset(offset_from_epoch(&system_time_now()))
}

/// `v` clamped to the range of `i64`.
pub open spec fn clamp_i64(v: int) -> int {
    if v > i64::MAX {
        i64::MAX as int
    } else if v < i64::MIN {
        i64::MIN as int
    } else {
        v
    }
}

/// Milliseconds since the Unix epoch of a clock reading given by its
/// offset from the epoch (`Ok` after it, `Err` before it, each as whole
/// seconds and milliseconds), clamped to `i64`. A time before the epoch
/// is negative, rounded toward the epoch.
pub open spec fn offset_millis(offset: Result<(u64, u32), (u64, u32)>) -> int {
    match offset {
        Ok((secs, ms)) => clamp_i64(secs * 1000 + ms),
        Err((secs, ms)) => clamp_i64(-(secs * 1000 + ms)),
    }
}

/// The milliseconds since the Unix epoch of a clock reading given by its
/// offset from the epoch.
pub fn millis_from_offset(offset: Result<(u64, u32), (u64, u32)>) -> (r: i64)
    ensures
        r == offset_millis(offset),
{
    match offset {
        Ok((secs, ms)) => {
            let total: i128 = (secs as i128) * 1000 + (ms as i128);
            if total > i64::MAX as i128 {
                i64::MAX
            } else {
                total as i64
            }
        },
        Err((secs, ms)) => {
            let total: i128 = -((secs as i128) * 1000 + (ms as i128));
            if total < i64::MIN as i128 {
                i64::MIN
            } else {
                total as i64
            }
        },
    }
}

/// The current wall-clock time, in milliseconds since the Unix epoch,
/// read from the system clock (before 1970 it is negative; it never
/// fails).
pub fn wall_clock_millis() -> (r: i64)
    ensures
        exists|offset: Result<(u64, u32), (u64, u32)>| r == offset_millis(offset),
{
    millis_from_offset(offset_from_epoch(&system_time_now()))
}

/// The decimal text of the timestamp `seconds_from_now` seconds after
/// `now` (both in seconds since the Unix epoch), saturating at
/// `u64::MAX`.
pub fn timestamp_text_after(now: u64, seconds_from_now: u64) -> (r: String)
    ensures
        r@ == decimal(saturating_sum(now as nat, seconds_from_now as nat)),
{
    decimal_string(now.saturating_add(seconds_from_now))
}

/// Wall-clock seconds since the Unix epoch, as a string.
pub fn now_as_string() -> (r: String)
    ensures
        exists|offset: Result<(u64, u32), (u64, u32)>| r@ == decimal(#[trigger] offset_seconds(offset)),
{
    let now = epoch_seconds();
    decimal_string(now)
}

/// Wall-clock seconds since the Unix epoch, `seconds_from_now` seconds in
/// the future, as a string.
pub fn future_as_string(seconds_from_now: u64) -> (r: String)
    ensures
        exists|offset: Result<(u64, u32), (u64, u32)>|
            r@ == decimal(saturating_sum(#[trigger] offset_seconds(offset), seconds_from_now as nat)),
{
    let now = epoch_seconds();
    timestamp_text_after(now, seconds_from_now)
}

/// A monotonic clock that counts nanoseconds from its creation.
#[derive(Clone, Copy)]
pub struct MonotonicClock {
    origin: std::time::Instant,
}

/// One reading of the clocks a schedule needs: monotonic nanoseconds,
/// wall-clock milliseconds since the epoch (read only for the cron
/// schedules that need it) and wall-clock seconds since the epoch.
#[derive(Debug, Clone, Copy, PartialEq, Eq)]
pub struct Moment {
    pub mono_nanos: u64,
    pub wall_millis: Option<i64>,
    pub epoch_seconds: u64,
}

impl MonotonicClock {
    /// A clock that reads 0 now.
    pub fn new() -> Self {
        MonotonicClock { origin: instant_now() }
    }

    /// Nanoseconds since this clock was created.
    pub fn now_nanos(&self) -> u64 {
        saturating_u64(whole_nanos(&elapsed_between(&self.origin, &instant_now())))
    }

    /// Reads the clocks once; the wall clock in milliseconds only when
    /// `with_wall_clock`.
    pub fn moment(&self, with_wall_clock: bool) -> (m: Moment)
        ensures
            m.wall_millis is Some <==> with_wall_clock,
    {
        let wall_millis = if with_wall_clock {
            Some(wall_clock_millis())
        } else {
            None
        };
        Moment { mono_nanos: self.now_nanos(), wall_millis, epoch_seconds: epoch_seconds() }
    }
}

} // verus!
