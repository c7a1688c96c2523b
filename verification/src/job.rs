//! Jobs: what runs when, and what has happened to it so far.
use vstd::prelude::*;
use crate::text::append_str;
use crate::cron::{CronSchedule, CronView};
use crate::text::{decimal, decimal_string};
use crate::cron::copy_string;

verus! {

#[verifier::external_type_specification]
#[verifier::external_body]
pub struct ExUuid(uuid::Uuid);

/// When a job runs.
#[derive(Debug, Clone)]
pub enum Schedule {
    /// Every so many seconds.
    Every(u64),
    /// At the times a cron expression selects.
    Cron(CronSchedule),
}

/// The mathematical content of a [`Schedule`].
pub enum ScheduleView {
    Every(u64),
    Cron(CronView),
}

impl View for Schedule {
    type V = ScheduleView;

    open spec fn view(&self) -> ScheduleView {
        match self {
            Schedule::Every(secs) => ScheduleView::Every(*secs),
            Schedule::Cron(c) => ScheduleView::Cron(c@),
        }
    }
}

/// How a schedule is shown in a job listing: `every <seconds>s` for an
/// interval (always in seconds, whatever unit it was written in), or
/// `cron <expression>` with the expression as written.
pub open spec fn describe_of(s: ScheduleView) -> Seq<char> {
    match s {
        ScheduleView::Every(secs) => "every "@ + decimal(secs as nat) + "s"@,
        ScheduleView::Cron(c) => "cron "@ + c.expression,
    }
}

impl Schedule {
    /// Human-readable form used in job listings.
    pub fn describe(&self) -> (r: String)
        ensures
            r@ == describe_of(self@),
    {
        let mut r = String::new();
        match self {
            Schedule::Every(secs) => {
                append_str(&mut r, "every ");
                let digits = decimal_string(*secs);
                append_str(&mut r, digits.as_str());
                append_str(&mut r, "s");
            },
            Schedule::Cron(c) => {
                append_str(&mut r, "cron ");
                append_str(&mut r, c.expression());
            },
        }
        r
    }

    /// Whether this is a cron schedule.
    pub fn is_cron(&self) -> (r: bool)
        ensures
            r == self@ is Cron,
    {
        match self {
            Schedule::Every(_) => false,
            Schedule::Cron(_) => true,
        }
    }

    /// A copy of this schedule.
    pub fn duplicate(&self) -> (r: Schedule)
        ensures
            r@ == self@,
    {
        match self {
            Schedule::Every(secs) => Schedule::Every(*secs),
            Schedule::Cron(c) => Schedule::Cron(c.duplicate()),
        }
    }
}

/// A registered job and its run statistics.
#[derive(Debug, Clone)]
pub struct Job {
    pub id: String,
    pub name: String,
    pub schedule: Schedule,
    pub enabled: bool,
    /// Ticks that succeeded.
    pub run_count: u64,
    /// Ticks that failed after exhausting their retries.
    pub error_count: u64,
    /// Unix timestamp text of the last run.
    pub last_run_at: Option<String>,
    /// Unix timestamp text of the next scheduled run.
    pub next_run_at: Option<String>,
    /// Extra attempts allowed after the first failure, before a tick is
    /// counted as an error. 0 means no retries.
    pub max_retries: u32,
    /// Message from the most recent failed attempt; cleared when the job
    /// next runs successfully.
    pub last_error: Option<String>,
}

/// The mathematical content of a [`Job`].
pub struct JobView {
    pub id: Seq<char>,
    pub name: Seq<char>,
    pub schedule: ScheduleView,
    pub enabled: bool,
    pub run_count: u64,
    pub error_count: u64,
    pub last_run_at: Option<Seq<char>>,
    pub next_run_at: Option<Seq<char>>,
    pub max_retries: u32,
    pub last_error: Option<Seq<char>>,
}

pub open spec fn opt_view(o: Option<String>) -> Option<Seq<char>> {
    match o {
        Some(s) => Some(s@),
        None => None,
    }
}

impl View for Job {
    type V = JobView;

    open spec fn view(&self) -> JobView {
        JobView {
            id: self.id@,
            name: self.name@,
            schedule: self.schedule@,
            enabled: self.enabled,
            run_count: self.run_count,
            error_count: self.error_count,
            last_run_at: opt_view(self.last_run_at),
            next_run_at: opt_view(self.next_run_at),
            max_retries: self.max_retries,
            last_error: opt_view(self.last_error),
        }
    }
}

/// A lowercase hexadecimal digit.
pub open spec fn is_lower_hex(c: char) -> bool {
    ('0' <= c && c <= '9') || ('a' <= c && c <= 'f')
}

/// The hyphenated text form of a UUID:
/// `xxxxxxxx-xxxx-xxxx-xxxx-xxxxxxxxxxxx` in lowercase hexadecimal.
pub open spec fn is_uuid_text(s: Seq<char>) -> bool {
    &&& s.len() == 36
    &&& forall|i: int|
        0 <= i < 36 ==> if i == 8 || i == 13 || i == 18 || i == 23 {
            s[i] == '-'
        } else {
            is_lower_hex(#[trigger] s[i])
        }
}

/// `Uuid::new_v4`: a random UUID.
#[verifier::external_body]
fn random_uuid() -> uuid::Uuid {
    uuid::Uuid::new_v4()
}

/// `Uuid`'s `Display` (`to_string`): the hyphenated lowercase form.
#[verifier::external_body]
fn uuid_text(u: &uuid::Uuid) -> (s: String)
    ensures
        is_uuid_text(s@),
{
    u.to_string()
}

pub fn copy_opt_string(o: &Option<String>) -> (r: Option<String>)
    ensures
        opt_view(r) == opt_view(*o),
{
    match o {
        Some(s) => Some(copy_string(s)),
        None => None,
    }
}

impl Job {
    /// A new, enabled job with a fresh random id, no runs yet and no
    /// retries.
    pub fn new(name: String, schedule: Schedule) -> (j: Job)
        ensures
            is_uuid_text(j.id@),
            j.name@ == name@,
            j.schedule@ == schedule@,
            j.enabled,
            j.run_count == 0,
            j.error_count == 0,
            j.last_run_at is None,
            j.next_run_at is None,
            j.max_retries == 0,
            j.last_error is None,
    {
        Job {
            id: uuid_text(&random_uuid()),
            name,
            schedule,
            enabled: true,
            run_count: 0,
            error_count: 0,
            last_run_at: None,
            next_run_at: None,
            max_retries: 0,
            last_error: None,
        }
    }

    /// The same job with a different retry budget.
    pub fn with_max_retries(self, max_retries: u32) -> (j: Job)
        ensures
            j@ == (JobView { max_retries, ..self@ }),
    {
        let mut j = self;
        j.max_retries = max_retries;
        j
    }

    /// A copy of this job.
    pub fn duplicate(&self) -> (j: Job)
        ensures
            j@ == self@,
    {
        Job {
            id: copy_string(&self.id),
            name: copy_string(&self.name),
            schedule: self.schedule.duplicate(),
            enabled: self.enabled,
            run_count: self.run_count,
            error_count: self.error_count,
            last_run_at: copy_opt_string(&self.last_run_at),
            next_run_at: copy_opt_string(&self.next_run_at),
            max_retries: self.max_retries,
            last_error: copy_opt_string(&self.last_error),
        }
    }
}

} // verus!
