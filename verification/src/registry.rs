//! The job registry: every registered job with its callback and its next
//! monotonic deadline, keyed by job id.
//!
//! The registry itself is single-threaded; whoever shares it between
//! threads wraps it in a lock. Callbacks are opaque values of type `C` that
//! the registry only stores and hands back.
use vstd::prelude::*;
use crate::job::{opt_view, Job, JobView, Schedule, ScheduleView};
use crate::text::{chars_of, decimal, decimal_string, lex_less, str_less};
use crate::time_utils::{saturating_sum, timestamp_text_after, wall_clock_millis, Moment, MonotonicClock};
use crate::cron::cron_deadline_fits;
use crate::cron::copy_string;

verus! {

/// A job as the registry holds it.
pub struct RegisteredJob<C> {
    pub job: Job,
    pub callback: C,
    /// Monotonic deadline of the next run, in nanoseconds on the
    /// registry's clock. Kept apart from `job.next_run_at`, which is
    /// wall-clock text for display.
    pub next_run_at: u64,
}

/// The mathematical content of a [`RegisteredJob`].
pub struct Entry<C> {
    pub job: JobView,
    pub callback: C,
    pub deadline: u64,
}

pub open spec fn entry_of<C>(r: RegisteredJob<C>) -> Entry<C> {
    Entry { job: r.job@, callback: r.callback, deadline: r.next_run_at }
}

/// Whether `deadline` and `display` are what scheduling the next run of
/// `s` at `now` gives: for an interval, the deadline that many seconds
/// after the monotonic now (saturating) and the decimal Unix timestamp that
/// many seconds after the wall-clock now; for a cron schedule, the
/// deadline of its next occurrence after the wall-clock now in
/// milliseconds, measured from the monotonic now, with the Unix timestamp
/// text of that occurrence (or, with none found, a deadline parked a year
/// away). A reading without the wall clock in milliseconds has it read at
/// scheduling time.
pub open spec fn next_run_fits(s: ScheduleView, now: Moment, deadline: u64, display: Option<Seq<char>>) -> bool {
    match s {
        ScheduleView::Every(secs) => {
            &&& deadline == saturating_sum(now.mono_nanos as nat, secs as nat * 1000000000)
            &&& display == Some(decimal(saturating_sum(now.epoch_seconds as nat, secs as nat)))
        },
        ScheduleView::Cron(c) => {
            &&& now.wall_millis matches Some(wall) ==> cron_deadline_fits(
                c,
                now.mono_nanos,
                wall,
                deadline,
                display,
            )
            &&& now.wall_millis is None ==> cron_fits_some_wall(c, now.mono_nanos, deadline, display)
        },
    }
}

/// Whether `deadline` and `display` are what scheduling the next run of
/// `c` gives at monotonic time `now_mono` for some wall-clock reading.
pub open spec fn cron_fits_some_wall(
    c: crate::cron::CronView,
    now_mono: u64,
    deadline: u64,
    display: Option<Seq<char>>,
) -> bool {
    exists|wall: i64| #[trigger] cron_deadline_fits(c, now_mono, wall, deadline, display)
}

/// The next monotonic deadline for a schedule, plus the matching Unix
/// timestamp text for display, both anchored to the same reading `now`.
/// Interval jobs add their interval to now; cron jobs look up the next
/// local occurrence and convert the gap into a monotonic deadline.
pub fn schedule_next_at(schedule: &Schedule, now: Moment) -> (r: (u64, Option<String>))
    ensures
        next_run_fits(schedule@, now, r.0, opt_view(r.1)),
{
    match schedule {
        Schedule::Every(secs) => {
            let nanos: u64 = if *secs > u64::MAX / 1000000000 {
                u64::MAX
            } else {
                *secs * 1000000000
            };
            (now.mono_nanos.saturating_add(nanos), Some(timestamp_text_after(now.epoch_seconds, *secs)))
        },
        Schedule::Cron(c) => match now.wall_millis {
            Some(wall) => crate::cron::next_deadline(c, now.mono_nanos, wall),
            None => {
                let wall = wall_clock_millis();
                let next = crate::cron::next_deadline(c, now.mono_nanos, wall);
                assert(cron_deadline_fits(c@, now.mono_nanos, wall, next.0, opt_view(next.1)));
                next
            },
        },
    }
}

/// The registered jobs, keyed by id.
pub struct JobRegistry<C> {
    jobs: Vec<RegisteredJob<C>>,
    clock: MonotonicClock,
}

impl<C> JobRegistry<C> {
    /// No two stored jobs share an id.
    pub closed spec fn wf(&self) -> bool {
        forall|i: int, j: int|
            0 <= i < self.jobs@.len() && 0 <= j < self.jobs@.len() && i != j ==> (
            #[trigger] self.jobs@[i]).job.id@ != (#[trigger] self.jobs@[j]).job.id@
    }

    /// The position holding job `id`.
    pub closed spec fn index_of(&self, id: Seq<char>) -> int {
        choose|i: int| 0 <= i < self.jobs@.len() && self.jobs@[i].job.id@ == id
    }

    /// Every registered job by id.
    pub closed spec fn view(&self) -> Map<Seq<char>, Entry<C>> {
        Map::new(
            |id: Seq<char>| exists|i: int| 0 <= i < self.jobs@.len() && self.jobs@[i].job.id@ == id,
            |id: Seq<char>| entry_of(self.jobs@[self.index_of(id)]),
        )
    }

    proof fn lemma_view_at(&self, i: int)
        requires
            self.wf(),
            0 <= i < self.jobs@.len(),
        ensures
            self.view().contains_key(self.jobs@[i].job.id@),
            self.view()[self.jobs@[i].job.id@] == entry_of(self.jobs@[i]),
            self.index_of(self.jobs@[i].job.id@) == i,
    {
        let id = self.jobs@[i].job.id@;
        assert(exists|k: int| 0 <= k < self.jobs@.len() && self.jobs@[k].job.id@ == id);
        let k = self.index_of(id);
        assert(self.jobs@[k].job.id@ == id);
        if k != i {
            assert(self.jobs@[k].job.id@ != self.jobs@[i].job.id@);
        }
    }

    proof fn lemma_view_all(&self)
        requires
            self.wf(),
        ensures
            forall|i: int|
                0 <= i < self.jobs@.len() ==> #[trigger] self.view().contains_key(self.jobs@[i].job.id@)
                    && self.view()[self.jobs@[i].job.id@] == entry_of(self.jobs@[i]),
            forall|id: Seq<char>|
                #[trigger] self.view().contains_key(id) ==> 0 <= self.index_of(id) < self.jobs@.len()
                    && self.jobs@[self.index_of(id)].job.id@ == id,
    {
        assert forall|i: int| 0 <= i < self.jobs@.len() implies #[trigger] self.view().contains_key(
            self.jobs@[i].job.id@,
        ) && self.view()[self.jobs@[i].job.id@] == entry_of(self.jobs@[i]) by {
            self.lemma_view_at(i);
        }
    }

    /// An empty registry.
    pub fn new() -> (r: Self)
        ensures
            r.wf(),
            r.view() == Map::<Seq<char>, Entry<C>>::empty(),
    {
        let r = JobRegistry { jobs: Vec::new(), clock: MonotonicClock::new() };
        assert(r.view() =~= Map::<Seq<char>, Entry<C>>::empty());
        r
    }

    /// The clock that the registry's deadlines are measured on.
    pub closed spec fn clock_of(&self) -> MonotonicClock {
        self.clock
    }

    /// The registry's monotonic clock: the one its deadlines are measured
    /// on, which no operation replaces.
    pub fn clock(&self) -> (c: &MonotonicClock)
        ensures
            *c == self.clock_of(),
    {
        &self.clock
    }

    /// Where job `id` is stored, if anywhere.
    fn position(&self, id: &String) -> (r: Option<usize>)
        requires
            self.wf(),
        ensures
            r matches Some(i) ==> i < self.jobs@.len() && self.jobs@[i as int].job.id@ == id@,
            r is None ==> !self.view().contains_key(id@),
    {
        let mut i: usize = 0;
        while i < self.jobs.len()
            invariant
                i <= self.jobs@.len(),
                forall|k: int| 0 <= k < i ==> self.jobs@[k].job.id@ != id@,
            decreases self.jobs.len() - i,
        {
            if self.jobs[i].job.id == *id {
                return Some(i);
            }
            i = i + 1;
        }
        None
    }

    /// Whether job `job_id` is registered with a cron schedule (which is
    /// when scheduling its next run needs the wall clock).
    fn runs_on_cron(&self, job_id: &str) -> (r: bool)
        requires
            self.wf(),
    {
        let id = job_id.to_owned();
        match self.position(&id) {
            Some(i) => self.jobs[i].job.schedule.is_cron(),
            None => false,
        }
    }

    /// Registers `job` with `callback`, scheduling its first run from the
    /// clock reading `now`, and returns its id. A job already registered
    /// under the same id is replaced.
    pub fn insert_at(&mut self, job: Job, callback: C, now: Moment) -> (id: String)
        requires
            old(self).wf(),
        ensures
            final(self).wf(),
            final(self).clock_of() == old(self).clock_of(),
            id@ == job.id@,
            final(self).view() == old(self).view().insert(job.id@, final(self).view()[job.id@]),
            final(self).view()[job.id@].job == (JobView {
                next_run_at: final(self).view()[job.id@].job.next_run_at,
                ..job@
            }),
            final(self).view()[job.id@].callback == callback,
            next_run_fits(
                job.schedule@,
                now,
                final(self).view()[job.id@].deadline,
                final(self).view()[job.id@].job.next_run_at,
            ),
    {
        let ghost old_self = *self;
        let (deadline, display) = schedule_next_at(&job.schedule, now);
        let mut job = job;
        job.next_run_at = display;
        let id = copy_string(&job.id);
        let registered = RegisteredJob { job, callback, next_run_at: deadline };
        proof {
            old_self.lemma_view_all();
        }
        match self.position(&id) {
            Some(i) => {
                self.jobs.set(i, registered);
                proof {
                    assert(self.wf()) by {
                        assert forall|a: int, b: int|
                            0 <= a < self.jobs@.len() && 0 <= b < self.jobs@.len() && a != b implies (
                        #[trigger] self.jobs@[a]).job.id@ != (#[trigger] self.jobs@[b]).job.id@ by {
                            if a != i && b != i {
                                assert(old_self.jobs@[a] == self.jobs@[a]);
                                assert(old_self.jobs@[b] == self.jobs@[b]);
                            } else if a == i {
                                assert(old_self.jobs@[b] == self.jobs@[b]);
                                assert(old_self.jobs@[a].job.id@ == id@);
                            } else {
                                assert(old_self.jobs@[a] == self.jobs@[a]);
                                assert(old_self.jobs@[b].job.id@ == id@);
                            }
                        }
                    }
                    self.lemma_view_all();
                    self.lemma_view_at(i as int);
                    assert(self.view().dom() =~= old_self.view().dom().insert(id@)) by {
                        assert forall|k: Seq<char>| #[trigger] self.view().dom().contains(k) implies old_self.view().dom().insert(id@).contains(k) by {
                            let p = self.index_of(k);
                            if p != i {
                                assert(old_self.jobs@[p] == self.jobs@[p]);
                            }
                        }
                        assert forall|k: Seq<char>| #[trigger] old_self.view().dom().contains(k) implies self.view().dom().contains(k) by {
                            let p = old_self.index_of(k);
                            if p != i {
                                assert(old_self.jobs@[p] == self.jobs@[p]);
                            }
                        }
                    }
                    assert forall|other: Seq<char>|
                        other != id@ && #[trigger] old_self.view().contains_key(other) implies self.view()[other]
                            == old_self.view()[other] by {
                        let p = old_self.index_of(other);
                        assert(p != i);
                        assert(old_self.jobs@[p] == self.jobs@[p]);
                        self.lemma_view_at(p);
                    }
                }
            },
            None => {
                self.jobs.push(registered);
                proof {
                    let n = old_self.jobs@.len() as int;
                    assert(self.wf()) by {
                        assert forall|a: int, b: int|
                            0 <= a < self.jobs@.len() && 0 <= b < self.jobs@.len() && a != b implies (
                        #[trigger] self.jobs@[a]).job.id@ != (#[trigger] self.jobs@[b]).job.id@ by {
                            if a < n && b < n {
                                assert(old_self.jobs@[a] == self.jobs@[a]);
                                assert(old_self.jobs@[b] == self.jobs@[b]);
                            } else if a == n {
                                assert(old_self.jobs@[b] == self.jobs@[b]);
                                assert(!old_self.view().contains_key(id@));
                            } else {
                                assert(old_self.jobs@[a] == self.jobs@[a]);
                                assert(!old_self.view().contains_key(id@));
                            }
                        }
                    }
                    self.lemma_view_all();
                    self.lemma_view_at(n);
                    assert(self.view().dom() =~= old_self.view().dom().insert(id@)) by {
                        assert forall|k: Seq<char>| #[trigger] self.view().dom().contains(k) implies old_self.view().dom().insert(id@).contains(k) by {
                            let p = self.index_of(k);
                            if p != n {
                                assert(old_self.jobs@[p] == self.jobs@[p]);
                            }
                        }
                        assert forall|k: Seq<char>| #[trigger] old_self.view().dom().contains(k) implies self.view().dom().contains(k) by {
                            let p = old_self.index_of(k);
                            assert(old_self.jobs@[p] == self.jobs@[p]);
                        }
                    }
                    assert forall|other: Seq<char>|
                        other != id@ && #[trigger] old_self.view().contains_key(other) implies self.view()[other]
                            == old_self.view()[other] by {
                        let p = old_self.index_of(other);
                        assert(old_self.jobs@[p] == self.jobs@[p]);
                        self.lemma_view_at(p);
                    }
                }
            },
        }
        proof {
            assert(self.view() =~= old_self.view().insert(id@, self.view()[id@]));
        }
        id
    }

    /// Removes job `id`. Returns whether it was registered.
    pub fn remove(&mut self, job_id: &str) -> (removed: bool)
        requires
            old(self).wf(),
        ensures
            final(self).wf(),
            final(self).clock_of() == old(self).clock_of(),
            removed == old(self).view().contains_key(job_id@),
            final(self).view() == old(self).view().remove(job_id@),
    {
        let ghost old_self = *self;
        let id = job_id.to_owned();
        proof {
            old_self.lemma_view_all();
        }
        match self.position(&id) {
            Some(i) => {
                self.jobs.remove(i);
                proof {
                    let n = old_self.jobs@.len() as int;
                    assert forall|a: int| 0 <= a < self.jobs@.len() implies #[trigger] self.jobs@[a]
                        == old_self.jobs@[if a < i {
                        a
                    } else {
                        a + 1
                    }] by {}
                    assert(self.wf()) by {
                        assert forall|a: int, b: int|
                            0 <= a < self.jobs@.len() && 0 <= b < self.jobs@.len() && a != b implies (
                        #[trigger] self.jobs@[a]).job.id@ != (#[trigger] self.jobs@[b]).job.id@ by {
                            let a2 = if a < i { a } else { a + 1 };
                            let b2 = if b < i { b } else { b + 1 };
                            assert(self.jobs@[a] == old_self.jobs@[a2]);
                            assert(self.jobs@[b] == old_self.jobs@[b2]);
                        }
                    }
                    self.lemma_view_all();
                    old_self.lemma_view_at(i as int);
                    assert(self.view() =~= old_self.view().remove(id@)) by {
                        assert forall|k: Seq<char>| #[trigger] self.view().dom().contains(k) implies old_self.view().remove(id@).dom().contains(k) by {
                            let p = self.index_of(k);
                            let p2 = if p < i { p } else { p + 1 };
                            assert(self.jobs@[p] == old_self.jobs@[p2]);
                            assert(p2 != i);
                        }
                        assert forall|k: Seq<char>| #[trigger] old_self.view().remove(id@).dom().contains(k) implies self.view().dom().contains(k) by {
                            let p = old_self.index_of(k);
                            assert(p != i);
                            let q = if p < i { p } else { p - 1 };
                            assert(self.jobs@[q] == old_self.jobs@[p]);
                        }
                        assert forall|k: Seq<char>| #[trigger] self.view().dom().contains(k) implies self.view()[k] == old_self.view()[k] by {
                            let p = self.index_of(k);
                            let p2 = if p < i { p } else { p + 1 };
                            assert(self.jobs@[p] == old_self.jobs@[p2]);
                            old_self.lemma_view_at(p2);
                        }
                    }
                }
                true
            },
            None => {
                assert(self.view() =~= old_self.view().remove(id@));
                false
            },
        }
    }

    /// A point-in-time copy of every registered job, sorted by id so the
    /// order is stable.
    pub fn snapshot(&self) -> (out: Vec<Job>)
        requires
            self.wf(),
        ensures
            forall|i: int|
                0 <= i < out@.len() ==> #[trigger] self.view().contains_key(out@[i].id@) && out@[i]@
                    == self.view()[out@[i].id@].job,
            forall|id: Seq<char>|
                #[trigger] self.view().contains_key(id) ==> exists|i: int|
                    0 <= i < out@.len() && out@[i].id@ == id,
            forall|i: int, j: int| 0 <= i < j < out@.len() ==> lex_less(out@[i].id@, out@[j].id@),
    {
        proof {
            self.lemma_view_all();
        }
        let mut out: Vec<Job> = Vec::new();
        let mut k: usize = 0;
        while k < self.jobs.len()
            invariant
                self.wf(),
                k <= self.jobs@.len(),
                forall|i: int|
                    0 <= i < out@.len() ==> exists|j: int|
                        0 <= j < k && #[trigger] out@[i]@ == self.jobs@[j].job@,
                forall|j: int|
                    0 <= j < k ==> exists|i: int|
                        0 <= i < out@.len() && out@[i].id@ == (#[trigger] self.jobs@[j]).job.id@,
                forall|i: int, j: int| 0 <= i < j < out@.len() ==> lex_less(out@[i].id@, out@[j].id@),
            decreases self.jobs.len() - k,
        {
            let job = self.jobs[k].job.duplicate();
            let key = chars_of(job.id.as_str());
            let ghost x = job.id@;
            proof {
                assert forall|i: int| 0 <= i < out@.len() implies out@[i].id@ != x by {
                    let j = choose|j: int| 0 <= j < k && #[trigger] out@[i]@ == self.jobs@[j].job@;
                    assert(self.jobs@[j].job.id@ != self.jobs@[k as int].job.id@);
                }
            }
            let mut p: usize = 0;
            while p < out.len() && str_less(&chars_of(out[p].id.as_str()), &key)
                invariant
                    p <= out@.len(),
                    key@ == x,
                    forall|i: int| 0 <= i < p ==> lex_less(out@[i].id@, x),
                decreases out.len() - p,
            {
                p = p + 1;
            }
            proof {
                if p < out@.len() {
                    let y = out@[p as int].id@;
                    assert(!lex_less(y, x));
                    assert(y != x);
                    assert(y.subrange(0, 0) =~= x.subrange(0, 0));
                    crate::text::lemma_lex_total(x, y, 0);
                    assert(lex_less(x, y));
                    assert forall|i: int| p <= i < out@.len() implies lex_less(x, out@[i].id@) by {
                        if i > p {
                            assert(lex_less(out@[p as int].id@, out@[i].id@));
                            crate::text::lemma_lex_transitive(x, y, out@[i].id@, 0);
                        }
                    }
                }
            }
            let ghost before = out@;
            out.insert(p, job);
            proof {
                assert forall|i: int, j: int| 0 <= i < j < out@.len() implies lex_less(
                    out@[i].id@,
                    out@[j].id@,
                ) by {
                    if j < p {
                        assert(out@[i] == before[i] && out@[j] == before[j]);
                    } else if j == p {
                        assert(out@[i] == before[i]);
                    } else if i < p {
                        assert(out@[i] == before[i] && out@[j] == before[j - 1]);
                        crate::text::lemma_lex_transitive(out@[i].id@, x, out@[j].id@, 0);
                    } else if i == p {
                        assert(out@[j] == before[j - 1]);
                    } else {
                        assert(out@[i] == before[i - 1] && out@[j] == before[j - 1]);
                    }
                }
                assert forall|i: int| 0 <= i < out@.len() implies exists|j: int|
                    0 <= j < k + 1 && #[trigger] out@[i]@ == self.jobs@[j].job@ by {
                    if i < p {
                        assert(out@[i] == before[i]);
                        let j = choose|j: int| 0 <= j < k && #[trigger] before[i]@ == self.jobs@[j].job@;
                        assert(out@[i]@ == self.jobs@[j].job@);
                    } else if i == p {
                        assert(out@[i]@ == self.jobs@[k as int].job@);
                    } else {
                        assert(out@[i] == before[i - 1]);
                        let j = choose|j: int|
                            0 <= j < k && #[trigger] before[i - 1]@ == self.jobs@[j].job@;
                        assert(out@[i]@ == self.jobs@[j].job@);
                    }
                }
                assert forall|j: int| 0 <= j < k + 1 implies exists|i: int|
                    0 <= i < out@.len() && out@[i].id@ == (#[trigger] self.jobs@[j]).job.id@ by {
                    if j == k {
                        assert(out@[p as int].id@ == self.jobs@[j].job.id@);
                    } else {
                        let i = choose|i: int|
                            0 <= i < before.len() && before[i].id@ == (#[trigger] self.jobs@[j]).job.id@;
                        if i < p {
                            assert(out@[i] == before[i]);
                        } else {
                            assert(out@[i + 1] == before[i]);
                        }
                    }
                }
            }
            k = k + 1;
        }
        proof {
            assert forall|i: int| 0 <= i < out@.len() implies #[trigger] self.view().contains_key(
                out@[i].id@,
            ) && out@[i]@ == self.view()[out@[i].id@].job by {
                let j = choose|j: int| 0 <= j < k && #[trigger] out@[i]@ == self.jobs@[j].job@;
                self.lemma_view_at(j);
            }
            assert forall|id: Seq<char>| #[trigger] self.view().contains_key(id) implies exists|i: int|
                0 <= i < out@.len() && out@[i].id@ == id by {
                let j = self.index_of(id);
                assert(self.jobs@[j].job.id@ == id);
            }
        }
        out
    }

    /// Ids of every enabled job whose deadline is at or before `now`, each
    /// once.
    pub fn due_job_ids(&self, now: u64) -> (out: Vec<String>)
        requires
            self.wf(),
        ensures
            forall|i: int|
                0 <= i < out@.len() ==> #[trigger] self.view().contains_key(out@[i]@) && self.view()[out@[i]@].job.enabled
                    && self.view()[out@[i]@].deadline <= now,
            forall|id: Seq<char>|
                #[trigger] self.view().contains_key(id) && self.view()[id].job.enabled
                    && self.view()[id].deadline <= now ==> exists|i: int|
                    0 <= i < out@.len() && out@[i]@ == id,
            forall|i: int, j: int| 0 <= i < j < out@.len() ==> out@[i]@ != out@[j]@,
    {
        proof {
            self.lemma_view_all();
        }
        let mut out: Vec<String> = Vec::new();
        let ghost mut from: Seq<int> = Seq::empty();
        let mut k: usize = 0;
        while k < self.jobs.len()
            invariant
                self.wf(),
                k <= self.jobs@.len(),
                from.len() == out@.len(),
                forall|i: int|
                    0 <= i < out@.len() ==> 0 <= #[trigger] from[i] < k && out@[i]@ == self.jobs@[from[i]].job.id@
                        && self.jobs@[from[i]].job.enabled && self.jobs@[from[i]].next_run_at <= now,
                forall|i: int, j: int| 0 <= i < j < out@.len() ==> from[i] < from[j],
                forall|j: int|
                    0 <= j < k && (#[trigger] self.jobs@[j]).job.enabled && self.jobs@[j].next_run_at
                        <= now ==> exists|i: int| 0 <= i < out@.len() && from[i] == j,
            decreases self.jobs.len() - k,
        {
            let registered = &self.jobs[k];
            let ghost old_from = from;
            if registered.job.enabled && registered.next_run_at <= now {
                out.push(copy_string(&registered.job.id));
                proof {
                    from = from.push(k as int);
                    assert(from[from.len() - 1] == k);
                }
            }
            proof {
                assert forall|j: int|
                    0 <= j < k + 1 && (#[trigger] self.jobs@[j]).job.enabled && self.jobs@[j].next_run_at
                        <= now implies exists|i: int| 0 <= i < out@.len() && from[i] == j by {
                    if j < k {
                        let i = choose|i: int| 0 <= i < old_from.len() && old_from[i] == j;
                        assert(from[i] == j);
                    } else {
                        assert(from[from.len() - 1] == j);
                    }
                }
            }
            k = k + 1;
        }
        proof {
            assert forall|i: int|
                0 <= i < out@.len() implies #[trigger] self.view().contains_key(out@[i]@) && self.view()[out@[i]@].job.enabled
                    && self.view()[out@[i]@].deadline <= now by {
                self.lemma_view_at(from[i]);
            }
            assert forall|id: Seq<char>|
                #[trigger] self.view().contains_key(id) && self.view()[id].job.enabled
                    && self.view()[id].deadline <= now implies exists|i: int|
                    0 <= i < out@.len() && out@[i]@ == id by {
                let j = self.index_of(id);
                self.lemma_view_at(j);
                let i = choose|i: int| 0 <= i < out@.len() && from[i] == j;
                assert(out@[i]@ == id);
            }
            assert forall|i: int, j: int| 0 <= i < j < out@.len() implies out@[i]@ != out@[j]@ by {
                assert(from[i] != from[j]);
            }
        }
        out
    }

    /// The earliest deadline among enabled jobs, if any job is enabled.
    pub fn next_deadline(&self) -> (r: Option<u64>)
        requires
            self.wf(),
        ensures
            r is None <==> forall|id: Seq<char>|
                #[trigger] self.view().contains_key(id) ==> !self.view()[id].job.enabled,
            r matches Some(d) ==> (exists|id: Seq<char>|
                #[trigger] self.view().contains_key(id) && self.view()[id].job.enabled
                    && self.view()[id].deadline == d) && (forall|id: Seq<char>|
                #[trigger] self.view().contains_key(id) && self.view()[id].job.enabled ==> d
                    <= self.view()[id].deadline),
    {
        proof {
            self.lemma_view_all();
        }
        let mut best: Option<u64> = None;
        let ghost mut at: int = 0;
        let mut k: usize = 0;
        while k < self.jobs.len()
            invariant
                self.wf(),
                k <= self.jobs@.len(),
                best is None ==> forall|j: int| 0 <= j < k ==> !(#[trigger] self.jobs@[j]).job.enabled,
                best matches Some(d) ==> 0 <= at < k && self.jobs@[at].job.enabled
                    && self.jobs@[at].next_run_at == d && forall|j: int|
                    0 <= j < k && (#[trigger] self.jobs@[j]).job.enabled ==> d <= self.jobs@[j].next_run_at,
            decreases self.jobs.len() - k,
        {
            let registered = &self.jobs[k];
            if registered.job.enabled {
                match best {
                    Some(d) => {
                        if registered.next_run_at < d {
                            best = Some(registered.next_run_at);
                            proof {
                                at = k as int;
                            }
                        }
                    },
                    None => {
                        best = Some(registered.next_run_at);
                        proof {
                            at = k as int;
                        }
                    },
                }
            }
            k = k + 1;
        }
        proof {
            match best {
                Some(d) => {
                    self.lemma_view_at(at);
                    let witness = self.jobs@[at].job.id@;
                    assert(self.view().contains_key(witness) && self.view()[witness].job.enabled
                        && self.view()[witness].deadline == d);
                    assert forall|id: Seq<char>|
                        #[trigger] self.view().contains_key(id) && self.view()[id].job.enabled implies d
                            <= self.view()[id].deadline by {
                        let j = self.index_of(id);
                        self.lemma_view_at(j);
                    }
                },
                None => {
                    assert forall|id: Seq<char>| #[trigger] self.view().contains_key(id) implies !self.view()[id].job.enabled by {
                        let j = self.index_of(id);
                        self.lemma_view_at(j);
                    }
                },
            }
        }
        best
    }

    /// The callback and retry budget of job `id`, if it is registered.
    pub fn lookup(&self, job_id: &str) -> (r: Option<(&C, u32)>)
        requires
            self.wf(),
        ensures
            r is Some <==> self.view().contains_key(job_id@),
            r matches Some((c, m)) ==> *c == self.view()[job_id@].callback && m
                == self.view()[job_id@].job.max_retries,
    {
        let id = job_id.to_owned();
        proof {
            self.lemma_view_all();
        }
        match self.position(&id) {
            Some(i) => {
                proof {
                    self.lemma_view_at(i as int);
                }
                let registered = &self.jobs[i];
                Some((&registered.callback, registered.job.max_retries))
            },
            None => None,
        }
    }

    /// Whether recording one more tick of job `id` (a successful one if
    /// `succeeded`) keeps its counter within `u64`. True for unknown ids.
    pub fn has_room(&self, job_id: &str, succeeded: bool) -> (r: bool)
        requires
            self.wf(),
        ensures
            r == count_has_room(self.view(), job_id@, succeeded),
    {
        let id = job_id.to_owned();
        proof {
            self.lemma_view_all();
        }
        match self.position(&id) {
            Some(i) => {
                proof {
                    self.lemma_view_at(i as int);
                }
                let job = &self.jobs[i].job;
                if succeeded {
                    job.run_count < u64::MAX
                } else {
                    job.error_count < u64::MAX
                }
            },
            None => true,
        }
    }

    /// Records the outcome of one tick of job `id` and schedules its next
    /// run from the clock reading `now`. `last_error` is `None` when some
    /// attempt of the tick succeeded, and otherwise the message of the last
    /// failed attempt. A success bumps `run_count`, a failure
    /// `error_count`; either way `last_error` takes the tick's error (so a
    /// success clears it) and `last_run_at` becomes now. Nothing happens
    /// when the job was removed meanwhile.
    pub fn finish_run_at(&mut self, job_id: &str, last_error: Option<String>, now: Moment)
        requires
            old(self).wf(),
            count_has_room(old(self).view(), job_id@, last_error is None),
        ensures
            final(self).wf(),
            final(self).clock_of() == old(self).clock_of(),
            !old(self).view().contains_key(job_id@) ==> final(self).view() == old(self).view(),
            old(self).view().contains_key(job_id@) ==> final(self).view() == old(self).view().insert(
                job_id@,
                final(self).view()[job_id@],
            ),
            old(self).view().contains_key(job_id@) ==> ran_once(
                old(self).view()[job_id@],
                final(self).view()[job_id@],
                opt_view(last_error),
                now,
            ),
    {
        let ghost old_self = *self;
        let id = job_id.to_owned();
        proof {
            old_self.lemma_view_all();
        }
        match self.position(&id) {
            Some(i) => {
                proof {
                    old_self.lemma_view_at(i as int);
                }
                let mut registered = self.jobs.remove(i);
                if last_error.is_none() {
                    registered.job.run_count = registered.job.run_count + 1;
                } else {
                    registered.job.error_count = registered.job.error_count + 1;
                }
                registered.job.last_error = last_error;
                let (deadline, display) = schedule_next_at(&registered.job.schedule, now);
                registered.next_run_at = deadline;
                registered.job.last_run_at = Some(decimal_string(now.epoch_seconds));
                registered.job.next_run_at = display;
                self.jobs.insert(i, registered);
                proof {
                    assert forall|a: int| 0 <= a < self.jobs@.len() && a != i implies #[trigger] self.jobs@[a]
                        == old_self.jobs@[a] by {}
                    assert(self.wf()) by {
                        assert forall|a: int, b: int|
                            0 <= a < self.jobs@.len() && 0 <= b < self.jobs@.len() && a != b implies (
                        #[trigger] self.jobs@[a]).job.id@ != (#[trigger] self.jobs@[b]).job.id@ by {
                            assert(self.jobs@[a].job.id@ == old_self.jobs@[a].job.id@);
                            assert(self.jobs@[b].job.id@ == old_self.jobs@[b].job.id@);
                        }
                    }
                    self.lemma_view_all();
                    self.lemma_view_at(i as int);
                    assert(self.view().dom() =~= old_self.view().dom()) by {
                        assert forall|k: Seq<char>| #[trigger] self.view().dom().contains(k) implies old_self.view().dom().contains(k) by {
                            let p = self.index_of(k);
                            assert(self.jobs@[p].job.id@ == old_self.jobs@[p].job.id@);
                        }
                        assert forall|k: Seq<char>| #[trigger] old_self.view().dom().contains(k) implies self.view().dom().contains(k) by {
                            let p = old_self.index_of(k);
                            assert(self.jobs@[p].job.id@ == old_self.jobs@[p].job.id@);
                        }
                    }
                    assert forall|other: Seq<char>|
                        other != id@ && #[trigger] old_self.view().contains_key(other) implies self.view()[other]
                            == old_self.view()[other] by {
                        let p = old_self.index_of(other);
                        assert(p != i);
                        self.lemma_view_at(p);
                    }
                    assert(self.view() =~= old_self.view().insert(id@, self.view()[id@]));
                }
            },
            None => {},
        }
    }

    /// Records the outcome of one tick of job `id`, reading the clock for
    /// the new `last_run_at` and the next deadline.
    pub fn finish_run(&mut self, job_id: &str, last_error: Option<String>)
        requires
            old(self).wf(),
            count_has_room(old(self).view(), job_id@, last_error is None),
        ensures
            final(self).wf(),
            final(self).clock_of() == old(self).clock_of(),
            !old(self).view().contains_key(job_id@) ==> final(self).view() == old(self).view(),
            old(self).view().contains_key(job_id@) ==> final(self).view() == old(self).view().insert(
                job_id@,
                final(self).view()[job_id@],
            ),
            old(self).view().contains_key(job_id@) ==> exists|now: Moment|
                #[trigger] ran_once(
                    old(self).view()[job_id@],
                    final(self).view()[job_id@],
                    opt_view(last_error),
                    now,
                ),
    {
        let now = self.clock.moment(self.runs_on_cron(job_id));
        self.finish_run_at(job_id, last_error, now);
    }

    /// Registers `job` with `callback`, scheduling its first run from the
    /// current time, and returns its id.
    pub fn insert(&mut self, job: Job, callback: C) -> (id: String)
        requires
            old(self).wf(),
        ensures
            final(self).wf(),
            final(self).clock_of() == old(self).clock_of(),
            id@ == job.id@,
            final(self).view() == old(self).view().insert(job.id@, final(self).view()[job.id@]),
            final(self).view()[job.id@].job == (JobView {
                next_run_at: final(self).view()[job.id@].job.next_run_at,
                ..job@
            }),
            final(self).view()[job.id@].callback == callback,
            exists|now: Moment|
                #[trigger] next_run_fits(
                    job.schedule@,
                    now,
                    final(self).view()[job.id@].deadline,
                    final(self).view()[job.id@].job.next_run_at,
                ),
    {
        let now = self.clock.moment(job.schedule.is_cron());
        self.insert_at(job, callback, now)
    }
}

/// Whether one more tick of job `id` fits its counter.
pub open spec fn count_has_room<C>(v: Map<Seq<char>, Entry<C>>, id: Seq<char>, succeeded: bool) -> bool {
    v.contains_key(id) ==> if succeeded {
        v[id].job.run_count < u64::MAX
    } else {
        v[id].job.error_count < u64::MAX
    }
}

/// `after` is `before` after one tick whose error (if any) was
/// `last_error`, recorded at `now`.
pub open spec fn ran_once<C>(before: Entry<C>, after: Entry<C>, last_error: Option<Seq<char>>, now: Moment) -> bool {
    &&& after.callback == before.callback
    &&& after.job == JobView {
        run_count: if last_error is None {
            (before.job.run_count + 1) as u64
        } else {
            before.job.run_count
        },
        error_count: if last_error is None {
            before.job.error_count
        } else {
            (before.job.error_count + 1) as u64
        },
        last_error,
        last_run_at: Some(decimal(now.epoch_seconds as nat)),
        next_run_at: after.job.next_run_at,
        ..before.job
    }
    &&& next_run_fits(before.job.schedule, now, after.deadline, after.job.next_run_at)
}


// ---------------------------------------------------------------------
// Laws
// ---------------------------------------------------------------------

/// Removing a job that was just registered under a fresh id gives the
/// registry back as it was.
pub proof fn law_remove_undoes_insert<C>(
    before: Map<Seq<char>, Entry<C>>,
    id: Seq<char>,
    entry: Entry<C>,
)
    requires
        !before.contains_key(id),
    ensures
        before.insert(id, entry).remove(id) == before,
        before.insert(id, entry).contains_key(id),
{
    assert(before.insert(id, entry).remove(id) =~= before);
}

/// What the run loop relies on to sleep exactly as long as it may: with
/// `d` the earliest deadline among enabled jobs (as `next_deadline`
/// reports it), some job is due at `now` (as `due_job_ids` reports it)
/// exactly when `now` has reached `d`; with no enabled job none is ever
/// due.
pub proof fn law_nothing_due_before_next_deadline<C>(
    jobs: Map<Seq<char>, Entry<C>>,
    next: Option<u64>,
    now: u64,
)
    requires
        next is None <==> forall|id: Seq<char>|
            #[trigger] jobs.contains_key(id) ==> !jobs[id].job.enabled,
        next matches Some(d) ==> (exists|id: Seq<char>|
            #[trigger] jobs.contains_key(id) && jobs[id].job.enabled && jobs[id].deadline == d) && (
        forall|id: Seq<char>|
            #[trigger] jobs.contains_key(id) && jobs[id].job.enabled ==> d <= jobs[id].deadline),
    ensures
        (exists|id: Seq<char>|
            #[trigger] jobs.contains_key(id) && jobs[id].job.enabled && jobs[id].deadline <= now) <==> (
        next matches Some(d) && d <= now),
{
    match next {
        Some(d) => {
            if d <= now {
                let id = choose|id: Seq<char>|
                    #[trigger] jobs.contains_key(id) && jobs[id].job.enabled && jobs[id].deadline == d;
                assert(jobs.contains_key(id) && jobs[id].job.enabled && jobs[id].deadline <= now);
            }
        },
        None => {},
    }
}

/// Every tick counts once: exactly one of `run_count` and `error_count`
/// grows by one, `run_count` when the tick succeeded (its error is `None`),
/// and `last_error` is the tick's error, so a success clears it. Name,
/// schedule, retry budget, callback and id are untouched.
pub proof fn law_tick_counts_once<C>(
    before: Entry<C>,
    after: Entry<C>,
    last_error: Option<Seq<char>>,
    now: Moment,
)
    requires
        ran_once(before, after, last_error, now),
        before.job.run_count < u64::MAX,
        before.job.error_count < u64::MAX,
    ensures
        after.job.run_count + after.job.error_count == before.job.run_count + before.job.error_count
            + 1,
        after.job.run_count == before.job.run_count + 1 <==> last_error is None,
        after.job.last_error == last_error,
        after.job.id == before.job.id,
        after.job.name == before.job.name,
        after.job.schedule == before.job.schedule,
        after.job.max_retries == before.job.max_retries,
        after.callback == before.callback,
{
}

} // verus!
