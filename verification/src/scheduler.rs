//! What the scheduler's public operations decide: how a job is named and
//! registered, what removing an unknown job answers, and when starting or
//! stopping the background loop is allowed.
use vstd::prelude::*;
use crate::error::{ErrorView, SchedulerError};
use crate::job::{is_uuid_text, opt_view, Job, JobView, Schedule, ScheduleView};
use crate::registry::{Entry, JobRegistry, next_run_fits};
use crate::time_utils::Moment;

verus! {

/// A job's name: its callback's `__name__` when it has one, else `job`.
pub fn job_name(name_attribute: Option<String>) -> (r: String)
    ensures
        r@ == match name_attribute {
            Some(s) => s@,
            None => "job"@,
        },
{
    match name_attribute {
        Some(s) => s,
        None => "job".to_owned(),
    }
}

/// The job a registration creates: enabled, never run, with the given
/// name, schedule and retry budget, and no next run computed yet.
pub open spec fn fresh_job(id: Seq<char>, name: Seq<char>, schedule: ScheduleView, max_retries: u32) -> JobView {
    JobView {
        id,
        name,
        schedule,
        enabled: true,
        run_count: 0,
        error_count: 0,
        last_run_at: None,
        next_run_at: None,
        max_retries,
        last_error: None,
    }
}

/// Registers a new job running `callback` on `schedule`, reading the
/// clock for its first deadline, and returns its fresh id.
pub fn register<C>(
    registry: &mut JobRegistry<C>,
    name: String,
    schedule: Schedule,
    max_retries: u32,
    callback: C,
) -> (id: String)
    requires
        old(registry).wf(),
    ensures
        final(registry).wf(),
        is_uuid_text(id@),
        final(registry).view() == old(registry).view().insert(id@, final(registry).view()[id@]),
        final(registry).view()[id@].job == (JobView {
            next_run_at: final(registry).view()[id@].job.next_run_at,
            ..fresh_job(id@, name@, schedule@, max_retries)
        }),
        final(registry).view()[id@].callback == callback,
        exists|now: Moment|
            #[trigger] next_run_fits(
                schedule@,
                now,
                final(registry).view()[id@].deadline,
                final(registry).view()[id@].job.next_run_at,
            ),
{
    let job = Job::new(name, schedule).with_max_retries(max_retries);
    registry.insert(job, callback)
}

/// Unregisters job `job_id`, so it never runs again; `JobNotFound` when no
/// job has that id.
pub fn remove_job<C>(registry: &mut JobRegistry<C>, job_id: &str) -> (r: Result<(), SchedulerError>)
    requires
        old(registry).wf(),
    ensures
        final(registry).wf(),
        final(registry).view() == old(registry).view().remove(job_id@),
        r is Ok <==> old(registry).view().contains_key(job_id@),
        r matches Err(e) ==> e@ == ErrorView::JobNotFound(job_id@),
{
    if registry.remove(job_id) {
        Ok(())
    } else {
        Err(SchedulerError::JobNotFound(job_id.to_owned()))
    }
}

/// A registration waiting for its callback: what `every()` and `cron()`
/// hand back when used as decorators.
pub struct PendingRegistration {
    pub schedule: Schedule,
    pub max_retries: u32,
}

impl PendingRegistration {
    /// Registers `callback` under `name` with this schedule and retry
    /// budget (the pending registration can be applied again).
    pub fn apply<C>(&self, registry: &mut JobRegistry<C>, name: String, callback: C) -> (id: String)
        requires
            old(registry).wf(),
        ensures
            final(registry).wf(),
            is_uuid_text(id@),
            final(registry).view() == old(registry).view().insert(id@, final(registry).view()[id@]),
            final(registry).view()[id@].job == (JobView {
                next_run_at: final(registry).view()[id@].job.next_run_at,
                ..fresh_job(id@, name@, self.schedule@, self.max_retries)
            }),
            final(registry).view()[id@].callback == callback,
    {
        register(registry, name, self.schedule.duplicate(), self.max_retries, callback)
    }
}

/// Whether the background loop runs and whether a stop was requested.
pub struct Lifecycle {
    background_running: bool,
    stop_requested: bool,
}

pub struct LifecycleView {
    pub background_running: bool,
    pub stop_requested: bool,
}

/// The lifecycle after the background slot was claimed.
pub open spec fn claimed(v: LifecycleView) -> LifecycleView {
    LifecycleView { background_running: true, ..v }
}

/// The lifecycle after a stop.
pub open spec fn stopped(v: LifecycleView) -> LifecycleView {
    LifecycleView { background_running: false, stop_requested: true }
}

impl View for Lifecycle {
    type V = LifecycleView;

    closed spec fn view(&self) -> LifecycleView {
        LifecycleView {
            background_running: self.background_running,
            stop_requested: self.stop_requested,
        }
    }
}

impl Lifecycle {
    /// A scheduler that has not started.
    pub fn new() -> (r: Lifecycle)
        ensures
            r@ == (LifecycleView { background_running: false, stop_requested: false }),
    {
        Lifecycle { background_running: false, stop_requested: false }
    }

    /// Claims the background slot before spawning the loop's thread:
    /// `AlreadyRunningInBackground` while a background loop runs.
    pub fn begin_background(&mut self) -> (r: Result<(), SchedulerError>)
        ensures
            r is Ok <==> !old(self)@.background_running,
            r matches Err(e) ==> e@ == ErrorView::AlreadyRunningInBackground,
            final(self)@ == claimed(old(self)@),
    {
        if self.background_running {
            Err(SchedulerError::AlreadyRunningInBackground)
        } else {
            self.background_running = true;
            Ok(())
        }
    }

    /// Gives the slot back when the thread could not be spawned, turning
    /// the system's message into `BackgroundThreadSpawnFailed`.
    pub fn spawn_failed(&mut self, message: String) -> (e: SchedulerError)
        ensures
            e@ == ErrorView::BackgroundThreadSpawnFailed(message@),
            final(self)@ == (LifecycleView { background_running: false, ..old(self)@ }),
    {
        self.background_running = false;
        SchedulerError::BackgroundThreadSpawnFailed(message)
    }

    /// Requests a stop. Returns whether a background loop was running, so
    /// the caller knows to wait for its thread. A stop cannot be undone.
    pub fn shutdown(&mut self) -> (had_background: bool)
        ensures
            had_background == old(self)@.background_running,
            final(self)@ == stopped(old(self)@),
    {
        let had = self.background_running;
        self.background_running = false;
        self.stop_requested = true;
        had
    }

    /// Whether a stop was requested.
    pub fn stop_requested(&self) -> (r: bool)
        ensures
            r == self@.stop_requested,
    {
        self.stop_requested
    }
}

/// Starting the background loop a second time without a stop in between
/// fails, and a stop cannot be undone: stopping again, or starting again
/// afterwards, leaves the stop in place.
pub proof fn law_background_start_and_stop(v: LifecycleView)
    ensures
        claimed(v).background_running,
        stopped(stopped(v)) == stopped(v),
        !stopped(v).background_running,
        stopped(v).stop_requested,
        claimed(stopped(v)).stop_requested,
{
}

} // verus!
