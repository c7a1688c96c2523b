//! Interval text such as `"10s"`, `"5m"` or `"1h"`.
use vstd::prelude::*;
use crate::error::{ErrorView, SchedulerError};
use crate::text::{chars_of, copy_range, parse_decimal, parse_unsigned, trim, trim_bounds};

verus! {

/// What parsing an interval text leads to.
pub enum IntervalOutcome {
    /// The text is rejected with `InvalidInterval`.
    Invalid,
    /// The interval, in seconds.
    Seconds(nat),
}

/// Seconds per unit: `s`, `m` and `h`; 0 for any other unit.
pub open spec fn unit_seconds(unit: char) -> nat {
    if unit == 's' {
        1
    } else if unit == 'm' {
        60
    } else if unit == 'h' {
        3600
    } else {
        0
    }
}

/// The meaning of an interval text: after trimming whitespace, a positive
/// decimal amount (optionally written with a leading `+`) followed by one
/// unit character, the whole interval fitting in 64 bits of seconds.
pub open spec fn interval_outcome(input: Seq<char>) -> IntervalOutcome {
    let t = trim(input);
    let n = t.len() as int;
    if n < 2 {
        IntervalOutcome::Invalid
    } else {
        match parse_unsigned(t.subrange(0, n - 1), u64::MAX as nat) {
            None => IntervalOutcome::Invalid,
            Some(amount) => {
                if amount == 0 || unit_seconds(t[n - 1]) == 0 {
                    IntervalOutcome::Invalid
                } else if amount * unit_seconds(t[n - 1]) > u64::MAX {
                    IntervalOutcome::Invalid
                } else {
                    IntervalOutcome::Seconds(amount * unit_seconds(t[n - 1]))
                }
            },
        }
    }
}

/// Parses strings like `"10s"`, `"5m"` or `"1h"` into a number of seconds.
pub fn parse_interval(input: &str) -> (r: Result<u64, SchedulerError>)
    ensures
        match interval_outcome(input@) {
            IntervalOutcome::Seconds(secs) => r == Ok::<u64, SchedulerError>(secs as u64),
            IntervalOutcome::Invalid => r matches Err(e) && e@ == ErrorView::InvalidInterval(input@),
        },
{
    let chars = chars_of(input);
    let (lo, hi) = trim_bounds(&chars);
    let ghost t = trim(input@);
    if hi - lo < 2 {
        return Err(SchedulerError::InvalidInterval(input.to_owned()));
    }
    let unit = chars[hi - 1];
    assert(unit == t[t.len() - 1]);
    let amount_chars = copy_range(&chars, lo, hi - 1);
    assert(amount_chars@ == t.subrange(0, t.len() - 1));
    let amount = match parse_decimal(&amount_chars, u64::MAX) {
        Some(a) => a,
        None => {
            return Err(SchedulerError::InvalidInterval(input.to_owned()));
        },
    };
    if amount == 0 {
        return Err(SchedulerError::InvalidInterval(input.to_owned()));
    }
    let per_unit: u64 = if unit == 's' {
        1
    } else if unit == 'm' {
        60
    } else if unit == 'h' {
        3600
    } else {
        return Err(SchedulerError::InvalidInterval(input.to_owned()));
    };
    if amount > u64::MAX / per_unit {
        proof {
            assert(amount * per_unit > u64::MAX) by (nonlinear_arith)
                requires
                    amount > u64::MAX / per_unit,
                    per_unit > 0,
            ;
        }
        return Err(SchedulerError::InvalidInterval(input.to_owned()));
    }
    proof {
        assert(amount * per_unit <= u64::MAX) by (nonlinear_arith)
            requires
                amount <= u64::MAX / per_unit,
                per_unit > 0,
        ;
    }
    Ok(amount * per_unit)
}


/// The listing text of an interval job, `every <seconds>s`, ends in an
/// interval text that parses back to the same number of seconds.
pub proof fn law_described_interval_parses_back(secs: u64)
    requires
        secs > 0,
    ensures
        crate::job::describe_of(crate::job::ScheduleView::Every(secs)) == "every "@ + (
        crate::text::decimal(secs as nat) + "s"@),
        interval_outcome(crate::text::decimal(secs as nat) + "s"@) == IntervalOutcome::Seconds(
            secs as nat,
        ),
{
    reveal_strlit("s");
    let d = crate::text::decimal(secs as nat);
    let t = d + "s"@;
    assert("s"@ =~= seq!['s']);
    assert(t =~= d.push('s'));
    crate::text::lemma_decimal_digits(secs as nat);
    crate::text::law_parse_decimal_round_trip(secs as nat, u64::MAX as nat);
    assert(crate::text::skip_white_from(t, 0) == 0);
    assert(crate::text::trailing_end(t, t.len() as int) == t.len());
    assert(trim(t) =~= t);
    assert(t.subrange(0, t.len() - 1) =~= d);
    assert(t[t.len() - 1] == 's');
    assert(t.len() >= 2);
    assert(unit_seconds('s') == 1);
    assert(parse_unsigned(t.subrange(0, t.len() - 1), u64::MAX as nat) == Some(secs as nat));
    assert(secs as nat * unit_seconds('s') == secs);
    assert(("every "@ + d) + "s"@ =~= "every "@ + (d + "s"@));
}

} // verus!
