//! The decisions of the run loop: when to wake up, when a wait is over,
//! and how the attempts of one tick (a run with its retries) play out.
//!
//! The loop itself, the sleeping and the calls into job callbacks are done
//! by the caller; each decision here takes what happened as an argument.
use vstd::prelude::*;

verus! {

/// How long the loop sleeps when no job is enabled, so it still notices new
/// jobs or a stop request without spinning.
pub const IDLE_POLL_NANOS: u64 = 200000000;

/// When the loop should wake up next: at the earliest job deadline, or
/// after the idle poll interval when there is none.
pub fn wake_deadline(next_deadline: Option<u64>, now: u64) -> (r: u64)
    ensures
        r == match next_deadline {
            Some(d) => d as int,
            None => if now + IDLE_POLL_NANOS > u64::MAX {
                u64::MAX as int
            } else {
                now + IDLE_POLL_NANOS
            },
        },
{
    match next_deadline {
        Some(d) => d,
        None => now.saturating_add(IDLE_POLL_NANOS),
    }
}

/// What a wait for a deadline does next.
#[derive(Debug, Clone, Copy, PartialEq, Eq)]
pub enum WaitStep {
    /// Stop waiting.
    Finish,
    /// Sleep this many nanoseconds (or until woken).
    Sleep(u64),
}

/// The next step of waiting until `deadline`: finish at once when a stop
/// was requested or the deadline has passed, else sleep for the time left.
pub fn wait_step(stopped: bool, now: u64, deadline: u64) -> (r: WaitStep)
    ensures
        r == (if stopped || now >= deadline {
            WaitStep::Finish
        } else {
            WaitStep::Sleep((deadline - now) as u64)
        }),
{
    if stopped || now >= deadline {
        WaitStep::Finish
    } else {
        WaitStep::Sleep(deadline - now)
    }
}

/// Whether to keep waiting after being woken: not when the sleep ran its
/// full time or a stop was requested; a spurious wake-up waits again.
pub fn keep_waiting(timed_out: bool, stopped: bool) -> (r: bool)
    ensures
        r == (!timed_out && !stopped),
{
    !timed_out && !stopped
}

// ---------------------------------------------------------------------
// Retries within one tick
// ---------------------------------------------------------------------

/// The state of one tick: how many attempts were made, whether one
/// succeeded, and the message of the last failed attempt.
pub struct AttemptsView {
    pub max_retries: u32,
    pub made: nat,
    pub succeeded: bool,
    pub last_error: Option<Seq<char>>,
}

pub open spec fn initial_attempts(max_retries: u32) -> AttemptsView {
    AttemptsView { max_retries, made: 0, succeeded: false, last_error: None }
}

/// Another attempt is due until one succeeds or the retries run out (the
/// first attempt plus `max_retries` more).
pub open spec fn wants_attempt(a: AttemptsView) -> bool {
    !a.succeeded && a.made <= a.max_retries
}

/// One attempt's outcome: `None` for success, or the failure's message.
pub open spec fn step(a: AttemptsView, outcome: Option<Seq<char>>) -> AttemptsView {
    match outcome {
        None => AttemptsView { made: a.made + 1, succeeded: true, last_error: None, ..a },
        Some(msg) => AttemptsView { made: a.made + 1, last_error: Some(msg), ..a },
    }
}

/// Feeding successive outcomes to a tick while it wants attempts.
pub open spec fn drive(a: AttemptsView, outcomes: Seq<Option<Seq<char>>>) -> AttemptsView
    decreases outcomes.len(),
{
    if outcomes.len() == 0 || !wants_attempt(a) {
        a
    } else {
        drive(step(a, outcomes[0]), outcomes.drop_first())
    }
}

/// The attempts of one tick of a job.
pub struct Attempts {
    max_retries: u32,
    made: u64,
    succeeded: bool,
    last_error: Option<String>,
}

impl View for Attempts {
    type V = AttemptsView;

    closed spec fn view(&self) -> AttemptsView {
        AttemptsView {
            max_retries: self.max_retries,
            made: self.made as nat,
            succeeded: self.succeeded,
            last_error: crate::job::opt_view(self.last_error),
        }
    }
}

impl Attempts {
    /// A tick with no attempts made yet.
    pub fn new(max_retries: u32) -> (r: Attempts)
        ensures
            r@ == initial_attempts(max_retries),
    {
        Attempts { max_retries, made: 0, succeeded: false, last_error: None }
    }

    /// Whether another attempt is due.
    pub fn wants_attempt(&self) -> (r: bool)
        ensures
            r == wants_attempt(self@),
    {
        !self.succeeded && self.made <= self.max_retries as u64
    }

    /// Records the outcome of an attempt: `None` for success, or the
    /// failure's message.
    pub fn record(&mut self, outcome: Option<String>)
        requires
            wants_attempt(old(self)@),
        ensures
            final(self)@ == step(old(self)@, crate::job::opt_view(outcome)),
    {
        self.made = self.made + 1;
        match outcome {
            None => {
                self.succeeded = true;
                self.last_error = None;
            },
            Some(msg) => {
                self.last_error = Some(msg);
            },
        }
    }

    /// Whether an attempt succeeded.
    pub fn succeeded(&self) -> (r: bool)
        ensures
            r == self@.succeeded,
    {
        self.succeeded
    }

    /// The tick's error: `None` after a success, else the message of the
    /// last failed attempt.
    pub fn into_last_error(self) -> (r: Option<String>)
        ensures
            crate::job::opt_view(r) == self@.last_error,
    {
        self.last_error
    }
}

proof fn lemma_drive_from(
    max_retries: u32,
    outcomes: Seq<Option<Seq<char>>>,
    k: nat,
    last: Option<Seq<char>>,
)
    requires
        outcomes.len() > max_retries,
        k <= max_retries + 1,
        k > 0 ==> last == outcomes[k - 1],
        forall|j: int| 0 <= j < k ==> (#[trigger] outcomes[j]) is Some,
    ensures
        ({
            let r = drive(
                AttemptsView { max_retries, made: k, succeeded: false, last_error: last },
                outcomes.subrange(k as int, outcomes.len() as int),
            );
            &&& r.made <= max_retries + 1
            &&& !wants_attempt(r)
            &&& forall|j: int| 0 <= j < r.made - 1 ==> (#[trigger] outcomes[j]) is Some
            &&& r.succeeded <==> (exists|i: int| 0 <= i <= max_retries && (#[trigger] outcomes[i]) is None)
            &&& r.succeeded ==> r.last_error is None && r.made >= 1 && outcomes[r.made - 1] is None
            &&& !r.succeeded ==> r.made == max_retries + 1 && r.last_error == outcomes[max_retries as int]
        }),
    decreases max_retries + 1 - k,
{
    let a = AttemptsView { max_retries, made: k, succeeded: false, last_error: last };
    let rest = outcomes.subrange(k as int, outcomes.len() as int);
    if k > max_retries {
        assert(!wants_attempt(a));
        assert forall|i: int| 0 <= i <= max_retries implies !((#[trigger] outcomes[i]) is None) by {}
    } else {
        assert(rest[0] == outcomes[k as int]);
        assert(rest.drop_first() =~= outcomes.subrange(k + 1 as int, outcomes.len() as int));
        match outcomes[k as int] {
            None => {
                let b = step(a, outcomes[k as int]);
                assert(!wants_attempt(b));
                assert(drive(b, rest.drop_first()) == b);
            },
            Some(msg) => {
                lemma_drive_from(max_retries, outcomes, (k + 1) as nat, outcomes[k as int]);
            },
        }
    }
}

/// A tick makes at most `max_retries + 1` attempts, back to back; it
/// succeeds exactly when one of them does, stopping at the first success
/// and clearing the error; otherwise it makes all of them and keeps the
/// message of the last. `outcomes` are the outcomes the attempts would
/// have, in order.
pub proof fn law_retry_tick(max_retries: u32, outcomes: Seq<Option<Seq<char>>>)
    requires
        outcomes.len() > max_retries,
    ensures
        ({
            let r = drive(initial_attempts(max_retries), outcomes);
            &&& 1 <= r.made <= max_retries + 1
            &&& !wants_attempt(r)
            &&& forall|j: int| 0 <= j < r.made - 1 ==> (#[trigger] outcomes[j]) is Some
            &&& r.succeeded <==> (exists|i: int| 0 <= i <= max_retries && (#[trigger] outcomes[i]) is None)
            &&& r.succeeded ==> r.last_error is None && outcomes[r.made - 1] is None
            &&& !r.succeeded ==> r.made == max_retries + 1 && r.last_error == outcomes[max_retries as int]
        }),
{
    assert(outcomes.subrange(0, outcomes.len() as int) =~= outcomes);
    lemma_drive_from(max_retries, outcomes, 0, None);
}

} // verus!
