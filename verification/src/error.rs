//! The errors the scheduler reports, and the text each one carries.
use vstd::prelude::*;
use crate::text::append_str;

verus! {

/// Everything that can go wrong when registering, removing or running
/// jobs.
#[derive(Debug, PartialEq, Eq)]
pub enum SchedulerError {
    /// The interval text is not an amount followed by `s`, `m` or `h`.
    InvalidInterval(String),
    /// The cron expression is not five valid fields.
    InvalidCron(String),
    /// `start_background` was called while a background loop runs.
    AlreadyRunningInBackground,
    /// The operating system refused to start the background thread.
    BackgroundThreadSpawnFailed(String),
    /// No job carries the given id.
    JobNotFound(String),
}

/// The mathematical content of a [`SchedulerError`].
pub enum ErrorView {
    InvalidInterval(Seq<char>),
    InvalidCron(Seq<char>),
    AlreadyRunningInBackground,
    BackgroundThreadSpawnFailed(Seq<char>),
    JobNotFound(Seq<char>),
}

impl View for SchedulerError {
    type V = ErrorView;

    open spec fn view(&self) -> ErrorView {
        match self {
            SchedulerError::InvalidInterval(s) => ErrorView::InvalidInterval(s@),
            SchedulerError::InvalidCron(s) => ErrorView::InvalidCron(s@),
            SchedulerError::AlreadyRunningInBackground => ErrorView::AlreadyRunningInBackground,
            SchedulerError::BackgroundThreadSpawnFailed(s) => ErrorView::BackgroundThreadSpawnFailed(
                s@,
            ),
            SchedulerError::JobNotFound(s) => ErrorView::JobNotFound(s@),
        }
    }
}

/// The Python exception class an error is raised as.
#[derive(Debug, Clone, Copy, PartialEq, Eq)]
pub enum ExceptionKind {
    ValueError,
    RuntimeError,
    KeyError,
}

/// The human-readable text of an error.
pub open spec fn message_of(e: ErrorView) -> Seq<char> {
    match e {
        ErrorView::InvalidInterval(s) => "invalid interval '"@ + s
            + "': expected formats like '10s', '5m' or '1h'"@,
        ErrorView::InvalidCron(s) => "invalid cron expression '"@ + s
            + "': expected 5 fields like '0 * * * *' (minute hour day-of-month month day-of-week)"@,
        ErrorView::AlreadyRunningInBackground => "scheduler is already running in the background"@,
        ErrorView::BackgroundThreadSpawnFailed(s) => "failed to start background thread: "@ + s,
        ErrorView::JobNotFound(s) => "no job registered with id '"@ + s + "'"@,
    }
}

impl SchedulerError {
    /// The human-readable text of this error.
    pub fn message(&self) -> (m: String)
        ensures
            m@ == message_of(self@),
    {
        let mut m = String::new();
        match self {
            SchedulerError::InvalidInterval(s) => {
                append_str(&mut m, "invalid interval '");
                append_str(&mut m, s.as_str());
                append_str(&mut m, "': expected formats like '10s', '5m' or '1h'");
            },
            SchedulerError::InvalidCron(s) => {
                append_str(&mut m, "invalid cron expression '");
                append_str(&mut m, s.as_str());
                append_str(
                    &mut m,
                    "': expected 5 fields like '0 * * * *' (minute hour day-of-month month day-of-week)",
                );
            },
            SchedulerError::AlreadyRunningInBackground => {
                append_str(&mut m, "scheduler is already running in the background");
            },
            SchedulerError::BackgroundThreadSpawnFailed(s) => {
                append_str(&mut m, "failed to start background thread: ");
                append_str(&mut m, s.as_str());
            },
            SchedulerError::JobNotFound(s) => {
                append_str(&mut m, "no job registered with id '");
                append_str(&mut m, s.as_str());
                append_str(&mut m, "'");
            },
        }
        m
    }

    /// The Python exception class this error is raised as: bad input is a
    /// `ValueError`, a failure of the background thread a `RuntimeError`,
    /// and an unknown job id a `KeyError`.
    pub fn exception_kind(&self) -> (k: ExceptionKind)
        ensures
            k == (match self@ {
                ErrorView::InvalidInterval(_) | ErrorView::InvalidCron(_) => ExceptionKind::ValueError,
                ErrorView::AlreadyRunningInBackground | ErrorView::BackgroundThreadSpawnFailed(_) =>
                    ExceptionKind::RuntimeError,
                ErrorView::JobNotFound(_) => ExceptionKind::KeyError,
            }),
    {
        match self {
            SchedulerError::InvalidInterval(_) | SchedulerError::InvalidCron(_) => {
                ExceptionKind::ValueError
            },
            SchedulerError::AlreadyRunningInBackground
            | SchedulerError::BackgroundThreadSpawnFailed(_) => ExceptionKind::RuntimeError,
            SchedulerError::JobNotFound(_) => ExceptionKind::KeyError,
        }
    }
}

} // verus!
