//! Five-field Unix cron expressions: `minute hour day-of-month month
//! day-of-week`.
//!
//! Day-of-week follows the common Unix convention: 0-6 with Sunday = 0, and
//! 7 is also accepted as Sunday. When both day-of-month and day-of-week are
//! restricted (neither is `*`), a time matches if it satisfies either field,
//! as in Vixie cron.
use vstd::prelude::*;
use crate::error::{ErrorView, SchedulerError};
use crate::time_utils::saturating_sum;
use crate::text::{
    chars_of, copy_range, find, find_char, parse_decimal, parse_unsigned, push_chars, token_bounds,
    tokens_from, trim, trim_bounds,
};

verus! {

// ---------------------------------------------------------------------
// The meaning of a field
// ---------------------------------------------------------------------

/// What parsing a field (or one comma-separated part of it) leads to.
pub enum FieldOutcome {
    /// The field is malformed or out of range.
    Invalid,
    /// The values the field selects.
    Values(Set<u32>),
}

/// `start`, `start + step`, ... up to `end`.
pub open spec fn step_set(start: nat, end: nat, step: nat) -> Set<u32> {
    Set::new(|v: u32| start <= v <= end && (v - start) % (step as int) == 0)
}

/// The bounds a range part names: `*` for the whole range, `a-b`, or a
/// single value `a`.
pub open spec fn range_bounds(r: Seq<char>, min: nat, max: nat) -> Option<(nat, nat)> {
    if r == seq!['*'] {
        Some((min, max))
    } else {
        let dash = find(r, '-');
        if dash < r.len() {
            match (
                parse_unsigned(r.subrange(0, dash), u32::MAX as nat),
                parse_unsigned(r.subrange(dash + 1, r.len() as int), u32::MAX as nat),
            ) {
                (Some(a), Some(b)) => Some((a, b)),
                _ => None,
            }
        } else {
            match parse_unsigned(r, u32::MAX as nat) {
                Some(v) => Some((v, v)),
                None => None,
            }
        }
    }
}

/// The step a part names after its first `/` (1 when it has none).
pub open spec fn part_step(p: Seq<char>) -> Option<nat> {
    let slash = find(p, '/');
    if slash < p.len() {
        parse_unsigned(p.subrange(slash + 1, p.len() as int), u32::MAX as nat)
    } else {
        Some(1)
    }
}

/// One comma-separated part: `*`, `*/step`, `a`, `a-b` or `a-b/step`.
pub open spec fn part_outcome(p: Seq<char>, min: nat, max: nat) -> FieldOutcome {
    let slash = find(p, '/');
    match part_step(p) {
        None => FieldOutcome::Invalid,
        Some(step) => {
            if step == 0 {
                FieldOutcome::Invalid
            } else {
                match range_bounds(p.subrange(0, slash), min, max) {
                    None => FieldOutcome::Invalid,
                    Some((start, end)) => {
                        if start < min || end > max || start > end {
                            FieldOutcome::Invalid
                        } else {
                            FieldOutcome::Values(step_set(start, end, step))
                        }
                    },
                }
            }
        },
    }
}

/// Adds the values already collected to an outcome.
pub open spec fn merge(acc: Set<u32>, o: FieldOutcome) -> FieldOutcome {
    match o {
        FieldOutcome::Values(s) => FieldOutcome::Values(acc.union(s)),
        other => other,
    }
}

/// A whole field: its comma-separated parts, read left to right; the
/// first part that fails decides the outcome.
pub open spec fn field_outcome(f: Seq<char>, min: nat, max: nat) -> FieldOutcome
    decreases f.len(),
{
    let comma = find(f, ',');
    let first = part_outcome(f.subrange(0, comma), min, max);
    if comma < 0 || comma >= f.len() {
        first
    } else {
        match first {
            FieldOutcome::Values(s) => merge(s, field_outcome(f.subrange(comma + 1, f.len() as int), min, max)),
            other => other,
        }
    }
}

/// The members of `s` in `lo..=hi`, in increasing order.
pub open spec fn ordered(s: Set<u32>, lo: int, hi: int) -> Seq<u32>
    decreases hi - lo + 1,
{
    if hi < lo {
        Seq::empty()
    } else if s.contains(hi as u32) {
        ordered(s, lo, hi - 1).push(hi as u32)
    } else {
        ordered(s, lo, hi - 1)
    }
}

/// Day-of-week 7 is Sunday, like 0.
pub open spec fn fold_sunday(s: Set<u32>) -> Set<u32> {
    if s.contains(7) {
        s.remove(7).insert(0)
    } else {
        s
    }
}

// ---------------------------------------------------------------------
// The meaning of an expression
// ---------------------------------------------------------------------

/// The mathematical content of a [`CronSchedule`].
pub struct CronView {
    pub expression: Seq<char>,
    pub minutes: Seq<u32>,
    pub hours: Seq<u32>,
    pub days_of_month: Seq<u32>,
    pub months: Seq<u32>,
    pub days_of_week: Seq<u32>,
    pub dom_restricted: bool,
    pub dow_restricted: bool,
}

/// What parsing a cron expression leads to.
pub enum CronOutcome {
    Invalid,
    Parsed(CronView),
}

/// The `k`-th whitespace-separated field of `e`.
pub open spec fn field_text(e: Seq<char>, k: int) -> Seq<char> {
    e.subrange(tokens_from(e, 0)[k].0, tokens_from(e, 0)[k].1)
}

/// Field `k`'s range.
pub open spec fn field_min(k: int) -> nat {
    if k == 0 || k == 1 || k == 4 {
        0
    } else {
        1
    }
}

pub open spec fn field_max(k: int) -> nat {
    if k == 0 {
        59
    } else if k == 1 {
        23
    } else if k == 2 {
        31
    } else if k == 3 {
        12
    } else {
        7
    }
}

pub open spec fn field_k(e: Seq<char>, k: int) -> FieldOutcome {
    field_outcome(field_text(e, k), field_min(k), field_max(k))
}

pub open spec fn values_of(o: FieldOutcome) -> Set<u32> {
    match o {
        FieldOutcome::Values(s) => s,
        _ => Set::empty(),
    }
}

/// The first of fields `0..k` that is not a set of values, if any.
pub open spec fn first_failure(e: Seq<char>, k: int) -> Option<FieldOutcome>
    decreases k,
{
    if k <= 0 {
        None
    } else {
        match first_failure(e, k - 1) {
            Some(o) => Some(o),
            None => match field_k(e, k - 1) {
                FieldOutcome::Values(_) => None,
                o => Some(o),
            },
        }
    }
}

/// The schedule a well-formed expression denotes.
pub open spec fn cron_view_of(e: Seq<char>) -> CronView {
    CronView {
        expression: trim(e),
        minutes: ordered(values_of(field_k(e, 0)), 0, 59),
        hours: ordered(values_of(field_k(e, 1)), 0, 23),
        days_of_month: ordered(values_of(field_k(e, 2)), 1, 31),
        months: ordered(values_of(field_k(e, 3)), 1, 12),
        days_of_week: ordered(fold_sunday(values_of(field_k(e, 4))), 0, 7),
        dom_restricted: field_text(e, 2) != seq!['*'],
        dow_restricted: field_text(e, 4) != seq!['*'],
    }
}

/// The meaning of a cron expression: exactly five whitespace-separated
/// fields, read left to right.
pub open spec fn cron_outcome(e: Seq<char>) -> CronOutcome {
    if tokens_from(e, 0).len() != 5 {
        CronOutcome::Invalid
    } else {
        match first_failure(e, 5) {
            Some(_) => CronOutcome::Invalid,
            None => CronOutcome::Parsed(cron_view_of(e)),
        }
    }
}

// ---------------------------------------------------------------------
// Lemmas
// ---------------------------------------------------------------------

pub proof fn lemma_ordered_contains(s: Set<u32>, lo: int, hi: int)
    requires
        0 <= lo,
        hi <= u32::MAX,
    ensures
        forall|i: int| 0 <= i < ordered(s, lo, hi).len() ==> lo <= #[trigger] ordered(s, lo, hi)[i] <= hi,
        forall|i: int| 0 <= i < ordered(s, lo, hi).len() ==> s.contains(#[trigger] ordered(s, lo, hi)[i]),
        forall|v: u32| #[trigger] ordered(s, lo, hi).contains(v) <==> (lo <= v <= hi && s.contains(v)),
    decreases hi - lo + 1,
{
    if hi >= lo {
        lemma_ordered_contains(s, lo, hi - 1);
        let prev = ordered(s, lo, hi - 1);
        let cur = ordered(s, lo, hi);
        if s.contains(hi as u32) {
            assert(cur == prev.push(hi as u32));
            assert forall|i: int| 0 <= i < cur.len() implies lo <= #[trigger] cur[i] <= hi && s.contains(cur[i]) by {
                if i < prev.len() {
                    assert(cur[i] == prev[i]);
                }
            }
            assert forall|v: u32| #[trigger] cur.contains(v) <==> (lo <= v <= hi && s.contains(v)) by {
                if v == hi as u32 {
                    assert(cur[prev.len() as int] == v);
                }
                if cur.contains(v) {
                    let i = choose|i: int| 0 <= i < cur.len() && cur[i] == v;
                    assert(lo <= cur[i] <= hi && s.contains(cur[i]));
                }
                if lo <= v < hi && s.contains(v) {
                    assert(prev.contains(v));
                    let i = choose|i: int| 0 <= i < prev.len() && prev[i] == v;
                    assert(cur[i] == v);
                }
            }
        } else {
            assert(cur == prev);
            assert forall|v: u32| #[trigger] cur.contains(v) <==> (lo <= v <= hi && s.contains(v)) by {
                if lo <= v < hi && s.contains(v) {
                    assert(prev.contains(v));
                }
            }
        }
    }
}

pub proof fn lemma_ordered_increasing(s: Set<u32>, lo: int, hi: int)
    requires
        0 <= lo,
        hi <= u32::MAX,
    ensures
        forall|i: int, j: int|
            0 <= i < j < ordered(s, lo, hi).len() ==> ordered(s, lo, hi)[i] < ordered(s, lo, hi)[j],
    decreases hi - lo + 1,
{
    if hi >= lo {
        lemma_ordered_increasing(s, lo, hi - 1);
        lemma_ordered_contains(s, lo, hi - 1);
        let prev = ordered(s, lo, hi - 1);
        let cur = ordered(s, lo, hi);
        if s.contains(hi as u32) {
            assert forall|i: int, j: int| 0 <= i < j < cur.len() implies cur[i] < cur[j] by {
                assert(cur[i] == prev[i]);
                if j < prev.len() {
                    assert(cur[j] == prev[j]);
                } else {
                    assert(prev[i] <= hi - 1);
                }
            }
        }
    }
}

/// Values of a part lie in its range.
pub proof fn lemma_part_in_range(p: Seq<char>, min: nat, max: nat)
    ensures
        part_outcome(p, min, max) matches FieldOutcome::Values(s) ==> forall|v: u32|
            #[trigger] s.contains(v) ==> min <= v <= max,
{
}

pub proof fn lemma_field_in_range(f: Seq<char>, min: nat, max: nat)
    ensures
        field_outcome(f, min, max) matches FieldOutcome::Values(s) ==> forall|v: u32|
            #[trigger] s.contains(v) ==> min <= v <= max,
    decreases f.len(),
{
    let comma = find(f, ',');
    crate::text::lemma_find_from_bounds(f, ',', 0);
    lemma_part_in_range(f.subrange(0, comma), min, max);
    if comma < f.len() {
        lemma_field_in_range(f.subrange(comma + 1, f.len() as int), min, max);
    }
}

/// Two multiples of `step` (offset by `start`) cannot lie strictly within
/// one step of each other.
proof fn lemma_no_multiple_between(w: int, v: int, start: int, step: int)
    requires
        step > 0,
        start <= w,
        start <= v,
        (w - start) % step == 0,
        (v - start) % step == 0,
    ensures
        !(v - step < w && w < v),
{
    if v - step < w && w < v {
    let x = w - start;
    let y = v - start;
    vstd::arithmetic::div_mod::lemma_fundamental_div_mod(x, step);
    vstd::arithmetic::div_mod::lemma_fundamental_div_mod(y, step);
    let qx = x / step;
    let qy = y / step;
    assert(x == step * qx);
    assert(y == step * qy);
    assert(step * qy - step < step * qx < step * qy);
    assert(qy - 1 < qx < qy) by (nonlinear_arith)
        requires
            step > 0,
            step * qy - step < step * qx,
            step * qx < step * qy,
    ;
    }
}

// ---------------------------------------------------------------------
// Parsing
// ---------------------------------------------------------------------

/// The set of indices marked in `marks`.
pub open spec fn marked(marks: Seq<bool>) -> Set<u32> {
    Set::new(|v: u32| (v as int) < marks.len() && marks[v as int])
}

/// Marks the values of one comma-separated part; `false` when the part is
/// malformed or out of range. Stepping is done in 64 bits, so a step far
/// past the range simply ends after the first value.
fn mark_part(p: &Vec<char>, min: u32, max: u32, marks: &mut Vec<bool>) -> (r: bool)
    requires
        min <= max <= 59,
        old(marks)@.len() == max + 1,
    ensures
        final(marks)@.len() == max + 1,
        !r <==> (part_outcome(p@, min as nat, max as nat) is Invalid),
        r ==> marked(final(marks)@) == marked(old(marks)@).union(
            values_of(part_outcome(p@, min as nat, max as nat)),
        ),
{
    let slash = find_char(p, '/');
    proof {
        crate::text::lemma_find_from_bounds(p@, '/', 0);
    }
    let range_part = copy_range(p, 0, slash);
    let step: u32 = if slash < p.len() {
        let step_text = copy_range(p, slash + 1, p.len());
        match parse_decimal(&step_text, u32::MAX as u64) {
            Some(v) => v as u32,
            None => {
                return false;
            },
        }
    } else {
        1
    };
    assert(part_step(p@) == Some(step as nat));
    if step == 0 {
        return false;
    }
    let is_star = range_part.len() == 1 && range_part[0] == '*';
    assert(is_star == (range_part@ == seq!['*'])) by {
        if range_part@.len() == 1 && range_part@[0] == '*' {
            assert(range_part@ =~= seq!['*']);
        }
    }
    let (start, end): (u32, u32) = if is_star {
        (min, max)
    } else {
        let dash = find_char(&range_part, '-');
        proof {
            crate::text::lemma_find_from_bounds(range_part@, '-', 0);
        }
        if dash < range_part.len() {
            let a_text = copy_range(&range_part, 0, dash);
            let b_text = copy_range(&range_part, dash + 1, range_part.len());
            let a = match parse_decimal(&a_text, u32::MAX as u64) {
                Some(a) => a,
                None => {
                    return false;
                },
            };
            let b = match parse_decimal(&b_text, u32::MAX as u64) {
                Some(b) => b,
                None => {
                    return false;
                },
            };
            (a as u32, b as u32)
        } else {
            match parse_decimal(&range_part, u32::MAX as u64) {
                Some(v) => (v as u32, v as u32),
                None => {
                    return false;
                },
            }
        }
    };
    assert(range_bounds(range_part@, min as nat, max as nat) == Some((start as nat, end as nat)));
    if start < min || end > max || start > end {
        return false;
    }
    let ghost old_marks = marks@;
    let ghost values = step_set(start as nat, end as nat, step as nat);
    let mut v: u64 = start as u64;
    proof {
        vstd::arithmetic::div_mod::lemma_small_mod(0nat, step as nat);
        assert((v - start) % (step as int) == 0);
    }
    while v <= end as u64
        invariant
            min <= start <= end <= max,
            step > 0,
            marks@.len() == max + 1,
            start <= v,
            v <= end + step,
            v == start || v - step <= end,
            (v - start) % (step as int) == 0,
            forall|w: int|
                0 <= w <= max ==> #[trigger] marks@[w] == (old_marks[w] || (start <= w < v && (w
                    - start) % (step as int) == 0)),
        decreases end + step - v,
    {
        let ghost before = marks@;
        marks.set(v as usize, true);
        proof {
            vstd::arithmetic::div_mod::lemma_mod_add_multiples_vanish(v - start, step as int);
            assert forall|w: int| 0 <= w <= max implies #[trigger] marks@[w] == (old_marks[w] || (
            start <= w < v + step && (w - start) % (step as int) == 0)) by {
                if w != v {
                    assert(marks@[w] == before[w]);
                    if start <= w && v < w < v + step && (w - start) % (step as int) == 0 {
                        lemma_no_multiple_between(w, v + step, start as int, step as int);
                    }
                }
            }
        }
        v = v + step as u64;
    }
    proof {
        assert forall|w: u32| #[trigger]
            marked(marks@).contains(w) == marked(old_marks).union(values).contains(w) by {
            if w <= max {
                if start <= w < v && (w - start) % (step as int) == 0 && w > end {
                    lemma_no_multiple_between(w as int, v as int, start as int, step as int);
                }
            }
        }
        assert(marked(marks@) =~= marked(old_marks).union(values));
    }
    true
}

/// The marks of a whole field (one entry per value in `0..=max`), or
/// `None` when the field is malformed or out of range.
fn field_marks(f: &Vec<char>, min: u32, max: u32) -> (r: Option<Vec<bool>>)
    requires
        min <= max <= 59,
    ensures
        field_outcome(f@, min as nat, max as nat) is Invalid ==> r is None,
        field_outcome(f@, min as nat, max as nat) matches FieldOutcome::Values(s) ==> r matches Some(
            marks,
        ) && marks@.len() == max + 1 && marked(marks@) == s,
{
    let mut marks: Vec<bool> = Vec::new();
    let mut i: u32 = 0;
    while i <= max
        invariant
            i <= max + 1,
            max <= 59,
            marks@.len() == i,
            forall|k: int| 0 <= k < i ==> !#[trigger] marks@[k],
        decreases max + 1 - i,
    {
        marks.push(false);
        i = i + 1;
    }
    assert(marked(marks@) =~= Set::<u32>::empty());
    let mut rest = copy_range(f, 0, f.len());
    assert(rest@ =~= f@);
    proof {
        match field_outcome(f@, min as nat, max as nat) {
            FieldOutcome::Values(s) => {
                assert(marked(marks@).union(s) =~= s);
            },
            _ => {},
        }
    }
    loop
        invariant_except_break
            field_outcome(f@, min as nat, max as nat) == merge(
                marked(marks@),
                field_outcome(rest@, min as nat, max as nat),
            ),
        invariant
            min <= max <= 59,
            marks@.len() == max + 1,
        ensures
            marks@.len() == max + 1,
            field_outcome(f@, min as nat, max as nat) == FieldOutcome::Values(marked(marks@)),
        decreases rest@.len(),
    {
        let comma = find_char(&rest, ',');
        proof {
            crate::text::lemma_find_from_bounds(rest@, ',', 0);
        }
        let part = copy_range(&rest, 0, comma);
        let ghost acc = marked(marks@);
        let ghost po = part_outcome(part@, min as nat, max as nat);
        if !mark_part(&part, min, max, &mut marks) {
            assert(field_outcome(rest@, min as nat, max as nat) is Invalid);
            return None;
        }
        let ghost s1 = values_of(po);
        if comma >= rest.len() {
            assert(field_outcome(rest@, min as nat, max as nat) == po);
            assert(acc.union(s1) =~= marked(marks@));
            break;
        }
        let next = copy_range(&rest, comma + 1, rest.len());
        proof {
            let fo_next = field_outcome(next@, min as nat, max as nat);
            assert(field_outcome(rest@, min as nat, max as nat) == merge(s1, fo_next));
            match fo_next {
                FieldOutcome::Values(s2) => {
                    assert(acc.union(s1.union(s2)) =~= marked(marks@).union(s2));
                },
                _ => {},
            }
        }
        rest = next;
    }
    Some(marks)
}

/// The marked values of `marks` in `lo..=hi`, in increasing order.
fn marked_in_order(marks: &Vec<bool>, lo: u32, hi: u32) -> (r: Vec<u32>)
    requires
        lo <= hi,
        hi < marks@.len(),
        hi <= 59,
    ensures
        r@ == ordered(marked(marks@), lo as int, hi as int),
{
    let mut out: Vec<u32> = Vec::new();
    let mut v: u32 = lo;
    while v <= hi
        invariant
            lo <= v <= hi + 1,
            hi < marks@.len(),
            hi <= 59,
            out@ == ordered(marked(marks@), lo as int, v - 1),
        decreases hi + 1 - v,
    {
        if marks[v as usize] {
            out.push(v);
        }
        v = v + 1;
    }
    out
}

/// Parses a single cron field over the inclusive range `min..=max`.
/// Supports `*`, `*/step`, `a`, `a-b`, `a-b/step`, and comma-separated
/// lists of any of those. `None` on anything malformed or out of range.
pub fn parse_field(field: &Vec<char>, min: u32, max: u32) -> (r: Option<Vec<u32>>)
    requires
        min <= max <= 59,
    ensures
        field_outcome(field@, min as nat, max as nat) is Invalid ==> r is None,
        field_outcome(field@, min as nat, max as nat) matches FieldOutcome::Values(s) ==> r matches Some(
            v,
        ) && v@ == ordered(s, min as int, max as int),
{
    match field_marks(field, min, max) {
        Some(marks) => Some(marked_in_order(&marks, min, max)),
        None => None,
    }
}


// ---------------------------------------------------------------------
// Schedules
// ---------------------------------------------------------------------

/// A parsed 5-field Unix cron expression: `minute hour day-of-month month
/// day-of-week`, each field kept as its selected values in increasing
/// order.
#[derive(Debug, Clone)]
pub struct CronSchedule {
    /// The expression as written (without surrounding whitespace), so a
    /// listing can show it rather than a reconstructed form.
    pub expression: String,
    pub minutes: Vec<u32>,
    pub hours: Vec<u32>,
    pub days_of_month: Vec<u32>,
    pub months: Vec<u32>,
    /// Sunday is 0; a 7 in the expression is stored as 0.
    pub days_of_week: Vec<u32>,
    /// Whether the day-of-month field was something other than `*`.
    pub dom_restricted: bool,
    /// Whether the day-of-week field was something other than `*`.
    pub dow_restricted: bool,
}

impl View for CronSchedule {
    type V = CronView;

    open spec fn view(&self) -> CronView {
        CronView {
            expression: self.expression@,
            minutes: self.minutes@,
            hours: self.hours@,
            days_of_month: self.days_of_month@,
            months: self.months@,
            days_of_week: self.days_of_week@,
            dom_restricted: self.dom_restricted,
            dow_restricted: self.dow_restricted,
        }
    }
}

proof fn lemma_first_failure_stable(e: Seq<char>, k: int, j: int)
    requires
        0 <= k <= j,
        first_failure(e, k) is Some,
    ensures
        first_failure(e, j) == first_failure(e, k),
    decreases j - k,
{
    if j > k {
        lemma_first_failure_stable(e, k, j - 1);
    }
}

/// A copy of a vector of values.
fn copy_values(v: &Vec<u32>) -> (r: Vec<u32>)
    ensures
        r@ == v@,
{
    let mut r: Vec<u32> = Vec::new();
    let mut i: usize = 0;
    while i < v.len()
        invariant
            i <= v@.len(),
            r@ == v@.subrange(0, i as int),
        decreases v.len() - i,
    {
        r.push(v[i]);
        i = i + 1;
    }
    r
}

/// A copy of a string.
pub fn copy_string(s: &String) -> (r: String)
    ensures
        r@ == s@,
{
    s.clone()
}

impl CronSchedule {
    /// Parses a 5-field cron expression. Fails with `InvalidCron` on a
    /// wrong number of fields, a malformed field or a value out of range.
    pub fn parse(expression: &str) -> (r: Result<Self, SchedulerError>)
        ensures
            match cron_outcome(expression@) {
                CronOutcome::Parsed(v) => r matches Ok(c) && c@ == v,
                CronOutcome::Invalid => r matches Err(e) && e@ == ErrorView::InvalidCron(expression@),
            },
    {
        let ghost e = expression@;
        let chars = chars_of(expression);
        let toks = token_bounds(&chars);
        if toks.len() != 5 {
            return Err(SchedulerError::InvalidCron(expression.to_owned()));
        }
        let f0 = copy_range(&chars, toks[0].0, toks[0].1);
        let f1 = copy_range(&chars, toks[1].0, toks[1].1);
        let f2 = copy_range(&chars, toks[2].0, toks[2].1);
        let f3 = copy_range(&chars, toks[3].0, toks[3].1);
        let f4 = copy_range(&chars, toks[4].0, toks[4].1);
        assert(f0@ == field_text(e, 0));
        assert(f1@ == field_text(e, 1));
        assert(f2@ == field_text(e, 2));
        assert(f3@ == field_text(e, 3));
        assert(f4@ == field_text(e, 4));
        assert(first_failure(e, 0) is None);
        let minutes = match parse_field(&f0, 0, 59) {
            Some(v) => v,
            None => {
                proof {
                    lemma_first_failure_stable(e, 1, 5);
                }
                return Err(SchedulerError::InvalidCron(expression.to_owned()));
            },
        };
        assert(first_failure(e, 1) is None);
        let hours = match parse_field(&f1, 0, 23) {
            Some(v) => v,
            None => {
                proof {
                    lemma_first_failure_stable(e, 2, 5);
                }
                return Err(SchedulerError::InvalidCron(expression.to_owned()));
            },
        };
        assert(first_failure(e, 2) is None);
        let days_of_month = match parse_field(&f2, 1, 31) {
            Some(v) => v,
            None => {
                proof {
                    lemma_first_failure_stable(e, 3, 5);
                }
                return Err(SchedulerError::InvalidCron(expression.to_owned()));
            },
        };
        assert(first_failure(e, 3) is None);
        let months = match parse_field(&f3, 1, 12) {
            Some(v) => v,
            None => {
                proof {
                    lemma_first_failure_stable(e, 4, 5);
                }
                return Err(SchedulerError::InvalidCron(expression.to_owned()));
            },
        };
        assert(first_failure(e, 4) is None);
        // Day-of-week is read over 0..=7, then 7 is folded onto 0 (Sunday).
        let mut dow_marks = match field_marks(&f4, 0, 7) {
            Some(m) => m,
            None => {
                return Err(SchedulerError::InvalidCron(expression.to_owned()));
            },
        };
        let ghost dow_values = values_of(field_k(e, 4));
        assert(first_failure(e, 5) is None);
        proof {
            lemma_field_in_range(f4@, 0, 7);
        }
        if dow_marks[7] {
            dow_marks.set(7, false);
            dow_marks.set(0, true);
        }
        proof {
            assert(marked(dow_marks@) =~= fold_sunday(dow_values));
        }
        let days_of_week = marked_in_order(&dow_marks, 0, 7);
        let (lo, hi) = trim_bounds(&chars);
        let mut text = String::new();
        push_chars(&mut text, &copy_range(&chars, lo, hi));
        let dom_restricted = !(f2.len() == 1 && f2[0] == '*');
        let dow_restricted = !(f4.len() == 1 && f4[0] == '*');
        proof {
            if f2@.len() == 1 && f2@[0] == '*' {
                assert(f2@ =~= seq!['*']);
            }
            if f4@.len() == 1 && f4@[0] == '*' {
                assert(f4@ =~= seq!['*']);
            }
        }
        Ok(
            CronSchedule {
                expression: text,
                minutes,
                hours,
                days_of_month,
                months,
                days_of_week,
                dom_restricted,
                dow_restricted,
            },
        )
    }

    /// The expression as written, without surrounding whitespace.
    pub fn expression(&self) -> (r: &str)
        ensures
            r@ == self.expression@,
    {
        self.expression.as_str()
    }

    /// A copy of this schedule.
    pub fn duplicate(&self) -> (r: CronSchedule)
        ensures
            r@ == self@,
    {
        CronSchedule {
            expression: copy_string(&self.expression),
            minutes: copy_values(&self.minutes),
            hours: copy_values(&self.hours),
            days_of_month: copy_values(&self.days_of_month),
            months: copy_values(&self.months),
            days_of_week: copy_values(&self.days_of_week),
            dom_restricted: self.dom_restricted,
            dow_restricted: self.dow_restricted,
        }
    }
}


// ---------------------------------------------------------------------
// Calendar times (chrono)
// ---------------------------------------------------------------------

/// The calendar fields of a local time that a cron schedule looks at.
#[derive(Debug, Clone, Copy, PartialEq, Eq)]
pub struct CalendarFields {
    pub minute: u32,
    pub hour: u32,
    /// Day of the month, from 1.
    pub day: u32,
    /// Month of the year, from 1.
    pub month: u32,
    /// Day of the week, Sunday = 0.
    pub weekday: u32,
}

/// Whether a schedule selects a time with the given fields. Minute, hour
/// and month must all be selected; for the day, when both day fields are
/// restricted either one may match, otherwise the restricted one must
/// (and with neither restricted every day matches).
pub open spec fn schedule_matches(c: CronView, t: CalendarFields) -> bool {
    let dom_ok = c.days_of_month.contains(t.day);
    let dow_ok = c.days_of_week.contains(t.weekday);
    &&& c.minutes.contains(t.minute)
    &&& c.hours.contains(t.hour)
    &&& c.months.contains(t.month)
    &&& if c.dom_restricted && c.dow_restricted {
        dom_ok || dow_ok
    } else if c.dom_restricted {
        dom_ok
    } else if c.dow_restricted {
        dow_ok
    } else {
        true
    }
}

/// Whether `x` occurs in `v`.
pub fn contains_value(v: &Vec<u32>, x: u32) -> (r: bool)
    ensures
        r == v@.contains(x),
{
    let mut i: usize = 0;
    while i < v.len()
        invariant
            i <= v@.len(),
            forall|k: int| 0 <= k < i ==> v@[k] != x,
        decreases v.len() - i,
    {
        if v[i] == x {
            assert(v@[i as int] == x);
            return true;
        }
        i = i + 1;
    }
    false
}

/// `DateTime::checked_add_signed` with one minute, on the local time at
/// `millis` (`TimeZone::timestamp_millis_opt`): chrono documents it as the
/// time one minute later, or `None` when that is out of its range; the
/// time at `millis` itself exists exactly when chrono can represent it.
#[verifier::external_body]
fn plus_one_minute(millis: i64) -> (r: Option<i64>)
    ensures
        r is Some <==> (chrono_can_represent(millis as int) && chrono_can_represent(millis + 60000)),
        r matches Some(m) ==> m == millis + 60000,
{
    let t = chrono::TimeZone::timestamp_millis_opt(&chrono::Local, millis).single()?;
    Some(t.checked_add_signed(chrono::TimeDelta::minutes(1))?.timestamp_millis())
}

/// `Timelike::with_second` on the local time at `millis`: the same local
/// time with the second changed, or `None` when that local time does not
/// exist or is ambiguous. It needs the time at `millis` to exist, and
/// chrono keeps what it gives back within its range (`map_local`); which
/// instant that is depends on the machine's time zone and is not stated.
#[verifier::external_body]
fn with_second_at(millis: i64, second: u32) -> (r: Option<i64>)
    ensures
        r matches Some(m) ==> chrono_can_represent(millis as int) && chrono_can_represent(m as int),
{
    let t = chrono::TimeZone::timestamp_millis_opt(&chrono::Local, millis).single()?;
    Some(chrono::Timelike::with_second(&t, second)?.timestamp_millis())
}

/// `Timelike::with_nanosecond` on the local time at `millis`; like
/// `with_second_at`, within chrono's range, with the instant left unstated.
#[verifier::external_body]
fn with_nanosecond_at(millis: i64, nanosecond: u32) -> (r: Option<i64>)
    ensures
        r matches Some(m) ==> chrono_can_represent(millis as int) && chrono_can_represent(m as int),
{
    let t = chrono::TimeZone::timestamp_millis_opt(&chrono::Local, millis).single()?;
    Some(chrono::Timelike::with_nanosecond(&t, nanosecond)?.timestamp_millis())
}

/// Whether chrono can represent the time `millis` milliseconds after the
/// Unix epoch: whether it lies from `DateTime::<Utc>::MIN_UTC` through
/// `DateTime::<Utc>::MAX_UTC` (the ends of chrono's date range, years
/// -262143 and 262142). `TimeZone::timestamp_millis_opt` is documented to
/// give a single local time for these and none for others.
pub open spec fn chrono_can_represent(millis: int) -> bool {
    -8334601228800000 <= millis <= 8210266876799999
}

/// `Timelike::minute` of the local time at `millis`: documented as 0 to 59;
/// `None` when chrono cannot represent that time.
#[verifier::external_body]
fn minute_at(millis: i64) -> (r: Option<u32>)
    ensures
        r is Some <==> chrono_can_represent(millis as int),
        r matches Some(v) ==> v <= 59,
{
    let t = chrono::TimeZone::timestamp_millis_opt(&chrono::Local, millis).single()?;
    Some(chrono::Timelike::minute(&t))
}

/// `Timelike::hour` of the local time at `millis`: documented as 0 to 23;
/// `None` when chrono cannot represent that time.
#[verifier::external_body]
fn hour_at(millis: i64) -> (r: Option<u32>)
    ensures
        r is Some <==> chrono_can_represent(millis as int),
        r matches Some(v) ==> v <= 23,
{
    let t = chrono::TimeZone::timestamp_millis_opt(&chrono::Local, millis).single()?;
    Some(chrono::Timelike::hour(&t))
}

/// `Datelike::day` of the local time at `millis`: documented as 1 to 31;
/// `None` when chrono cannot represent that time.
#[verifier::external_body]
fn day_at(millis: i64) -> (r: Option<u32>)
    ensures
        r is Some <==> chrono_can_represent(millis as int),
        r matches Some(v) ==> 1 <= v <= 31,
{
    let t = chrono::TimeZone::timestamp_millis_opt(&chrono::Local, millis).single()?;
    Some(chrono::Datelike::day(&t))
}

/// `Datelike::month` of the local time at `millis`: documented as 1 to 12;
/// `None` when chrono cannot represent that time.
#[verifier::external_body]
fn month_at(millis: i64) -> (r: Option<u32>)
    ensures
        r is Some <==> chrono_can_represent(millis as int),
        r matches Some(v) ==> 1 <= v <= 12,
{
    let t = chrono::TimeZone::timestamp_millis_opt(&chrono::Local, millis).single()?;
    Some(chrono::Datelike::month(&t))
}

/// Whether `millis` lies at least a day inside chrono's range, so that
/// its local date (at most a day away from its UTC date) is an ordinary
/// date.
pub open spec fn a_day_inside_range(millis: int) -> bool {
    chrono_can_represent(millis - 86400000) && chrono_can_represent(millis + 86400000)
}

/// Whether `weekday` (Sunday = 0) is the day of the week of the UTC day
/// before, of, or after the time `millis` milliseconds after the epoch:
/// the days a local date can fall on, since a local offset is less than a
/// day. Day 0, 1970-01-01, was a Thursday (4).
pub open spec fn weekday_near(millis: int, weekday: int) -> bool {
    let d = millis / 86400000;
    ||| weekday == (d + 3) % 7
    ||| weekday == (d + 4) % 7
    ||| weekday == (d + 5) % 7
}

/// `Datelike::weekday` of the local time at `millis`, through
/// `Weekday::num_days_from_sunday`: Sunday is 0, Saturday 6; `None` when
/// chrono cannot represent that time. The local date is the UTC date
/// moved by the local offset, which chrono keeps below a day
/// (`FixedOffset::east_opt`), so away from the ends of chrono's range the
/// weekday is that of the UTC day before, of, or after.
#[verifier::external_body]
fn weekday_at(millis: i64) -> (r: Option<u32>)
    ensures
        r is Some <==> chrono_can_represent(millis as int),
        r matches Some(v) ==> v <= 6,
        r matches Some(v) ==> (a_day_inside_range(millis as int) ==> weekday_near(millis as int, v as int)),
{
    let t = chrono::TimeZone::timestamp_millis_opt(&chrono::Local, millis).single()?;
    Some(chrono::Datelike::weekday(&t).num_days_from_sunday())
}

/// The calendar fields of the local time `millis` milliseconds after the
/// Unix epoch; `None` exactly when chrono cannot represent that time.
pub fn calendar_fields(millis: i64) -> (r: Option<CalendarFields>)
    ensures
        reading_fits(millis as int, r),
{
    let minute = minute_at(millis)?;
    let hour = hour_at(millis)?;
    let day = day_at(millis)?;
    let month = month_at(millis)?;
    let weekday = weekday_at(millis)?;
    Some(CalendarFields { minute, hour, day, month, weekday })
}

/// How many minutes `next_after` searches: four years of minutes covers
/// every leap-year case, so an impossible expression such as February 30
/// ends with `None`.
pub const SEARCH_MINUTES: u64 = 2108160;

/// One year, in nanoseconds: how far away a schedule with no upcoming
/// occurrence is parked.
pub const PARK_NANOS: u64 = 31536000000000000;

/// What the search for the next occurrence does with one candidate minute.
pub enum SearchStep {
    /// The candidate is the occurrence; these are its calendar fields.
    Accept(CalendarFields),
    /// Go on to the next minute.
    Skip,
    /// Chrono could not read the candidate's calendar fields: give up.
    Stop,
}

/// Whether the fields of a calendar reading are in their ranges.
pub open spec fn fields_in_range(f: CalendarFields) -> bool {
    f.minute <= 59 && f.hour <= 23 && 1 <= f.day <= 31 && 1 <= f.month <= 12 && f.weekday <= 6
}

/// Whether `reading` can be chrono's reading of the local calendar fields
/// at `millis` milliseconds since the epoch: there is one exactly when
/// chrono can represent that time, and its fields are in range.
pub open spec fn reading_fits(millis: int, reading: Option<CalendarFields>) -> bool {
    &&& (reading is Some <==> chrono_can_represent(millis))
    &&& (reading matches Some(f) ==> fields_in_range(f))
    &&& (reading matches Some(f) ==> (a_day_inside_range(millis) ==> weekday_near(millis, f.weekday as int)))
}

/// What the search does with the candidate `candidate` (milliseconds since
/// the epoch) whose local calendar fields chrono read as `reading`: stop
/// when there is no reading, accept the candidate when it lies strictly
/// after `after` and the schedule selects its fields, and skip it
/// otherwise.
pub open spec fn search_step_of(c: CronView, after: i64, candidate: int, reading: Option<CalendarFields>) -> SearchStep {
    match reading {
        None => SearchStep::Stop,
        Some(f) => if candidate > after && schedule_matches(c, f) {
            SearchStep::Accept(f)
        } else {
            SearchStep::Skip
        },
    }
}

/// What the minute-by-minute search finds when its candidates are `start`,
/// `start` plus one minute, and so on, and `readings` are the calendar
/// fields read for them in turn: the first accepted candidate with its
/// fields; `None` at the first candidate without a reading, or when the
/// readings run out first.
pub open spec fn first_occurrence_of(
    c: CronView,
    after: i64,
    start: int,
    readings: Seq<Option<CalendarFields>>,
) -> Option<(int, CalendarFields)>
    decreases readings.len(),
{
    if readings.len() == 0 {
        None
    } else {
        match search_step_of(c, after, start, readings[0]) {
            SearchStep::Accept(f) => Some((start, f)),
            SearchStep::Stop => None,
            SearchStep::Skip => first_occurrence_of(c, after, start + 60000, readings.drop_first()),
        }
    }
}

/// An occurrence with its time widened to `int`.
pub open spec fn widened(r: Option<(i64, CalendarFields)>) -> Option<(int, CalendarFields)> {
    match r {
        Some((t, f)) => Some((t as int, f)),
        None => None,
    }
}

/// Whether a search from `start` that took `readings` went as far as it
/// should: over all `SEARCH_MINUTES` minutes, or up to the candidate that
/// decided it, or up to a next minute that chrono cannot represent.
pub open spec fn search_complete(
    c: CronView,
    after: i64,
    start: int,
    readings: Seq<Option<CalendarFields>>,
) -> bool {
    let n = readings.len() as int;
    ||| n == SEARCH_MINUTES
    ||| n > 0 && !(search_step_of(c, after, start + 60000 * (n - 1), readings[n - 1]) is Skip)
    ||| !chrono_can_represent(start + 60000 * n)
}

/// Whether `r` is what the minute-by-minute search for the next occurrence
/// of `c` after `after` gives when it starts at `start` and chrono reads
/// `readings` for its candidates: every reading fits its candidate, the
/// search went as far as it should, and `r` is its first accepted
/// candidate.
pub open spec fn searched(
    c: CronView,
    after: i64,
    start: i64,
    readings: Seq<Option<CalendarFields>>,
    r: Option<(i64, CalendarFields)>,
) -> bool {
    &&& chrono_can_represent(start as int)
    &&& readings.len() <= SEARCH_MINUTES
    &&& forall|k: int| 0 <= k < readings.len() ==> reading_fits(start + 60000 * k, #[trigger] readings[k])
    &&& search_complete(c, after, start as int, readings)
    &&& widened(r) == first_occurrence_of(c, after, start as int, readings)
}

/// Whether `r` is what the search from `start` gives for some readings
/// chrono may take.
pub open spec fn searched_from(c: CronView, after: i64, start: i64, r: Option<(i64, CalendarFields)>) -> bool {
    exists|readings: Seq<Option<CalendarFields>>| #[trigger] searched(c, after, start, readings, r)
}

/// Whether `r` is what the search gives from some starting minute.
pub open spec fn search_result(c: CronView, after: i64, r: Option<(i64, CalendarFields)>) -> bool {
    exists|start: i64| #[trigger] searched_from(c, after, start, r)
}

/// Whether the time `t` (milliseconds since the epoch), whose local
/// calendar fields are `f`, can be the next occurrence of `c` after
/// `after`: it lies strictly after `after`, chrono can represent it, its
/// fields are in range and fit the time, and the schedule selects them.
pub open spec fn occurrence_of(c: CronView, after: i64, t: i64, f: CalendarFields) -> bool {
    &&& t > after
    &&& reading_fits(t as int, Some(f))
    &&& schedule_matches(c, f)
}

/// Skipped candidates can be dropped from the front of a search.
proof fn lemma_skipped_prefix(
    c: CronView,
    after: i64,
    start: int,
    readings: Seq<Option<CalendarFields>>,
    n: int,
)
    requires
        0 <= n <= readings.len(),
        forall|k: int| 0 <= k < n ==> #[trigger] search_step_of(c, after, start + 60000 * k, readings[k]) is Skip,
    ensures
        first_occurrence_of(c, after, start, readings) == first_occurrence_of(
            c,
            after,
            start + 60000 * n,
            readings.subrange(n, readings.len() as int),
        ),
    decreases n,
{
    if n > 0 {
        assert(search_step_of(c, after, start + 60000 * 0, readings[0]) is Skip);
        let rest = readings.drop_first();
        assert forall|k: int| 0 <= k < n - 1 implies #[trigger] search_step_of(
            c,
            after,
            (start + 60000) + 60000 * k,
            rest[k],
        ) is Skip by {
            assert(rest[k] == readings[k + 1]);
            assert(search_step_of(c, after, start + 60000 * (k + 1), readings[k + 1]) is Skip);
            assert((start + 60000) + 60000 * k == start + 60000 * (k + 1));
        }
        lemma_skipped_prefix(c, after, start + 60000, rest, n - 1);
        assert(rest.subrange(n - 1, rest.len() as int) =~= readings.subrange(n, readings.len() as int));
        assert((start + 60000) + 60000 * (n - 1) == start + 60000 * n);
    } else {
        assert(readings.subrange(0, readings.len() as int) =~= readings);
    }
}

/// What the search finds is one of its candidates, accepted on its
/// reading.
proof fn lemma_found_is_candidate(c: CronView, after: i64, start: int, readings: Seq<Option<CalendarFields>>)
    ensures
        first_occurrence_of(c, after, start, readings) matches Some((t, f)) ==> exists|k: int|
            0 <= k < readings.len() && t == start + 60000 * k && #[trigger] readings[k] == Some(f) && t
                > after && schedule_matches(c, f),
    decreases readings.len(),
{
    if readings.len() > 0 {
        match search_step_of(c, after, start, readings[0]) {
            SearchStep::Accept(f) => {
                assert(readings[0] == Some(f) && start == start + 60000 * 0);
            },
            SearchStep::Stop => {},
            SearchStep::Skip => {
                let rest = readings.drop_first();
                lemma_found_is_candidate(c, after, start + 60000, rest);
                if let Some((t, f)) = first_occurrence_of(c, after, start, readings) {
                    let k = choose|k: int|
                        0 <= k < rest.len() && t == (start + 60000) + 60000 * k && #[trigger] rest[k]
                            == Some(f) && t > after && schedule_matches(c, f);
                    assert(readings[k + 1] == Some(f));
                    assert(t == start + 60000 * (k + 1));
                }
            },
        }
    }
}

/// A search result is an occurrence of the schedule.
pub proof fn lemma_search_result_is_occurrence(c: CronView, after: i64, r: Option<(i64, CalendarFields)>)
    requires
        search_result(c, after, r),
    ensures
        r matches Some((t, f)) ==> occurrence_of(c, after, t, f),
{
    let start = choose|start: i64| #[trigger] searched_from(c, after, start, r);
    let readings = choose|readings: Seq<Option<CalendarFields>>| #[trigger] searched(c, after, start, readings, r);
    lemma_found_is_candidate(c, after, start as int, readings);
    if let Some((t, f)) = r {
        let k = choose|k: int|
            0 <= k < readings.len() && t == start + 60000 * k && #[trigger] readings[k] == Some(f) && t
                > after && schedule_matches(c, f);
        assert(reading_fits(start + 60000 * k, readings[k]));
    }
}

impl CronSchedule {
    /// Whether this schedule selects a time with the given calendar
    /// fields.
    pub fn matches(&self, when: &CalendarFields) -> (r: bool)
        ensures
            r == schedule_matches(self@, *when),
    {
        if !contains_value(&self.minutes, when.minute) || !contains_value(&self.hours, when.hour)
            || !contains_value(&self.months, when.month) {
            return false;
        }
        let dom_ok = contains_value(&self.days_of_month, when.day);
        let dow_ok = contains_value(&self.days_of_week, when.weekday);
        if self.dom_restricted && self.dow_restricted {
            dom_ok || dow_ok
        } else if self.dom_restricted {
            dom_ok
        } else if self.dow_restricted {
            dow_ok
        } else {
            true
        }
    }

    /// What the minute-by-minute search does with the candidate minute
    /// `candidate` whose local calendar fields chrono read as `reading`.
    pub fn search_step(&self, after: i64, candidate: i64, reading: Option<CalendarFields>) -> (r:
        SearchStep)
        ensures
            r == search_step_of(self@, after, candidate as int, reading),
    {
        match reading {
            None => SearchStep::Stop,
            Some(fields) => {
                if candidate > after && self.matches(&fields) {
                    SearchStep::Accept(fields)
                } else {
                    SearchStep::Skip
                }
            },
        }
    }

    /// What the search finds when its candidates are `start`, `start` plus
    /// one minute, and so on, and `readings` are the calendar fields read
    /// for them in turn.
    pub fn first_occurrence(&self, after: i64, start: i64, readings: &Vec<Option<CalendarFields>>) -> (r:
        Option<(i64, CalendarFields)>)
        requires
            start + 60000 * readings@.len() <= i64::MAX,
        ensures
            widened(r) == first_occurrence_of(self@, after, start as int, readings@),
    {
        let mut i: usize = 0;
        while i < readings.len()
            invariant
                i <= readings@.len(),
                start + 60000 * readings@.len() <= i64::MAX,
                forall|k: int|
                    0 <= k < i ==> #[trigger] search_step_of(self@, after, start + 60000 * k, readings@[k]) is Skip,
            decreases readings.len() - i,
        {
            let wide: i128 = (start as i128) + 60000 * (i as i128);
            let candidate: i64 = wide as i64;
            let step = self.search_step(after, candidate, readings[i]);
            match step {
                SearchStep::Skip => {},
                _ => {
                    proof {
                        lemma_skipped_prefix(self@, after, start as int, readings@, i as int);
                        let rest = readings@.subrange(i as int, readings@.len() as int);
                        assert(rest[0] == readings@[i as int]);
                    }
                    return match step {
                        SearchStep::Accept(fields) => Some((candidate, fields)),
                        _ => None,
                    };
                },
            }
            i = i + 1;
        }
        proof {
            lemma_skipped_prefix(self@, after, start as int, readings@, i as int);
        }
        None
    }

    /// The search for the next occurrence after `after`, starting at the
    /// minute `start` (milliseconds since the epoch): each minute in turn,
    /// over `SEARCH_MINUTES` minutes, has its local calendar fields read and
    /// goes through `search_step`; the first accepted minute is the answer.
    /// `None` when no minute is accepted, or when a minute cannot be read or
    /// the next one cannot be represented.
    pub fn search_from(&self, after: i64, start: i64) -> (r: Option<(i64, CalendarFields)>)
        requires
            chrono_can_represent(start as int),
        ensures
            searched_from(self@, after, start, r),
    {
        let mut candidate = start;
        let mut i: u64 = 0;
        let ghost mut trace: Seq<Option<CalendarFields>> = Seq::empty();
        while i < SEARCH_MINUTES
            invariant
                i <= SEARCH_MINUTES,
                trace.len() == i,
                candidate == start + 60000 * i,
                chrono_can_represent(start as int),
                chrono_can_represent(candidate as int),
                forall|k: int| 0 <= k < i ==> reading_fits(start + 60000 * k, #[trigger] trace[k]),
                forall|k: int|
                    0 <= k < i ==> #[trigger] search_step_of(self@, after, start + 60000 * k, trace[k]) is Skip,
            decreases SEARCH_MINUTES - i,
        {
            let reading = calendar_fields(candidate);
            let step = self.search_step(after, candidate, reading);
            let ghost before = trace;
            proof {
                trace = trace.push(reading);
                assert(trace[i as int] == reading);
                assert forall|k: int| 0 <= k < i implies trace[k] == before[k] by {}
                assert forall|k: int| 0 <= k < i + 1 implies reading_fits(start + 60000 * k, #[trigger] trace[k]) by {
                    if k < i {
                        assert(trace[k] == before[k]);
                    }
                }
            }
            match step {
                SearchStep::Skip => {},
                _ => {
                    proof {
                        assert forall|k: int| 0 <= k < i implies #[trigger] search_step_of(
                            self@,
                            after,
                            start + 60000 * k,
                            trace[k],
                        ) is Skip by {
                            assert(trace[k] == before[k]);
                        }
                        lemma_skipped_prefix(self@, after, start as int, trace, i as int);
                        let rest = trace.subrange(i as int, trace.len() as int);
                        assert(rest[0] == reading);
                        assert(search_complete(self@, after, start as int, trace));
                    }
                    let r = match step {
                        SearchStep::Accept(fields) => Some((candidate, fields)),
                        _ => None,
                    };
                    assert(searched(self@, after, start, trace, r));
                    return r;
                },
            }
            proof {
                assert forall|k: int| 0 <= k < i + 1 implies #[trigger] search_step_of(
                    self@,
                    after,
                    start + 60000 * k,
                    trace[k],
                ) is Skip by {
                    if k < i {
                        assert(trace[k] == before[k]);
                    }
                }
            }
            match plus_one_minute(candidate) {
                Some(next) => {
                    candidate = next;
                },
                None => {
                    proof {
                        lemma_skipped_prefix(self@, after, start as int, trace, (i + 1) as int);
                        assert(trace.subrange(i + 1, trace.len() as int) =~= Seq::<Option<CalendarFields>>::empty());
                        assert(!chrono_can_represent(start + 60000 * trace.len()));
                    }
                    let r: Option<(i64, CalendarFields)> = None;
                    assert(searched(self@, after, start, trace, r));
                    return r;
                },
            }
            i = i + 1;
        }
        proof {
            lemma_skipped_prefix(self@, after, start as int, trace, i as int);
            assert(trace.subrange(i as int, trace.len() as int) =~= Seq::<Option<CalendarFields>>::empty());
        }
        let r: Option<(i64, CalendarFields)> = None;
        assert(searched(self@, after, start, trace, r));
        r
    }

    /// The first matching local minute strictly after `after` (a time in
    /// milliseconds since the Unix epoch), with the calendar fields it was
    /// matched on. The search starts at the start of the local minute after
    /// `after` and goes on minute by minute over four years (`search_from`);
    /// it gives `None` when nothing in that span matches, when chrono cannot
    /// represent a time in it, or when the starting minute cannot be formed
    /// (a local time that the machine's time zone does not resolve to one
    /// instant). Which instant starts the search depends on that time zone
    /// and is not stated.
    pub fn next_after(&self, after: i64) -> (r: Option<(i64, CalendarFields)>)
        ensures
            r is Some ==> search_result(self@, after, r),
            r matches Some((t, f)) ==> occurrence_of(self@, after, t, f),
    {
        let next = plus_one_minute(after)?;
        let whole_second = with_second_at(next, 0)?;
        let start = with_nanosecond_at(whole_second, 0)?;
        let r = self.search_from(after, start);
        proof {
            assert(searched_from(self@, after, start, r));
            lemma_search_result_is_occurrence(self@, after, r);
        }
        r
    }
}

/// The monotonic deadline, and the timestamp text, for a schedule's next
/// occurrence. `occurrence` is `None` when there is no upcoming
/// occurrence, or holds the occurrence in milliseconds and in whole seconds
/// since the Unix epoch; `now_wall` is the current time in milliseconds
/// since the epoch and `now_mono` the current monotonic time in
/// nanoseconds. The deadline lies as far after `now_mono` as the
/// occurrence lies after now (never before `now_mono`); with no occurrence
/// the schedule is parked a year away. Deadlines saturate at `u64::MAX`.
pub fn occurrence_deadline(now_mono: u64, now_wall: i64, occurrence: Option<(i64, i64)>) -> (r: (
    u64,
    Option<String>,
))
    ensures
        match occurrence {
            Some((millis, secs)) => {
                &&& r.0 == (if millis <= now_wall {
                    now_mono as nat
                } else {
                    saturating_sum(now_mono as nat, ((millis - now_wall) * 1000000) as nat)
                })
                &&& r.1 matches Some(s) && s@ == crate::text::signed_decimal(secs as int)
            },
            None => {
                &&& r.0 == saturating_sum(now_mono as nat, PARK_NANOS as nat)
                &&& r.1 is None
            },
        },
{
    match occurrence {
        Some((millis, secs)) => {
            let gap: i128 = (millis as i128) - (now_wall as i128);
            let deadline: u64 = if gap <= 0 {
                now_mono
            } else {
                let total: i128 = (now_mono as i128) + gap * 1000000;
                if total > u64::MAX as i128 {
                    u64::MAX
                } else {
                    total as u64
                }
            };
            (deadline, Some(crate::text::signed_decimal_string(secs)))
        },
        None => (now_mono.saturating_add(PARK_NANOS), None),
    }
}

/// The deadline and display text that `occurrence_deadline` gives for the
/// search result `occ` at monotonic time `now_mono` and wall-clock time
/// `now_wall`: for an occurrence, as far after `now_mono` as it lies after
/// now (in nanoseconds, saturating) with its Unix timestamp in whole
/// seconds as text; with none, a deadline parked a year away and no text.
pub open spec fn deadline_for(now_mono: u64, now_wall: i64, occ: Option<(i64, CalendarFields)>) -> (
    nat,
    Option<Seq<char>>,
) {
    match occ {
        Some((t, _)) => (
            if t <= now_wall {
                now_mono as nat
            } else {
                saturating_sum(now_mono as nat, ((t - now_wall) * 1000000) as nat)
            },
            Some(crate::text::signed_decimal(t as int / 1000)),
        ),
        None => (saturating_sum(now_mono as nat, PARK_NANOS as nat), None),
    }
}

/// Whether `deadline` and `display` are what scheduling the next run of
/// `c` gives at monotonic time `now_mono` and wall-clock time `now_wall`:
/// those of the result of the search for the next occurrence after now,
/// where that result is an occurrence found by the search, or `None`
/// (nothing found, or no starting minute).
pub open spec fn cron_deadline_fits(
    c: CronView,
    now_mono: u64,
    now_wall: i64,
    deadline: u64,
    display: Option<Seq<char>>,
) -> bool {
    exists|occ: Option<(i64, CalendarFields)>|
        (occ is Some ==> search_result(c, now_wall, occ)) && #[trigger] deadline_for(
            now_mono,
            now_wall,
            occ,
        ) == (deadline as nat, display)
}

/// The next monotonic deadline for a cron schedule, plus the Unix
/// timestamp text of that occurrence for display, taking the current
/// monotonic time (`now_mono`, in nanoseconds) and wall-clock time
/// (`now_wall`, in milliseconds since the Unix epoch) together so the gap
/// to the occurrence is applied to the same instant. The schedule is
/// parked a year away only when `next_after` finds nothing.
pub fn next_deadline(schedule: &CronSchedule, now_mono: u64, now_wall: i64) -> (r: (
    u64,
    Option<String>,
))
    ensures
        cron_deadline_fits(schedule@, now_mono, now_wall, r.0, crate::job::opt_view(r.1)),
{
    let occ = schedule.next_after(now_wall);
    let r = match occ {
        Some((next, _)) => occurrence_deadline(now_mono, now_wall, Some((next, floor_seconds(next)))),
        None => occurrence_deadline(now_mono, now_wall, None),
    };
    assert(deadline_for(now_mono, now_wall, occ) == (r.0 as nat, crate::job::opt_view(r.1)));
    r
}

/// Rescheduling a cron job never sets a deadline before the monotonic now;
/// a deadline with display text belongs to an occurrence the search found
/// after now and lies exactly as far after now as that occurrence does, and
/// one without is parked a year away.
pub proof fn law_cron_deadline_not_before_now(
    c: CronView,
    now_mono: u64,
    now_wall: i64,
    deadline: u64,
    display: Option<Seq<char>>,
)
    requires
        cron_deadline_fits(c, now_mono, now_wall, deadline, display),
    ensures
        deadline >= now_mono,
        display is None ==> deadline == saturating_sum(now_mono as nat, PARK_NANOS as nat),
        display is Some ==> exists|t: i64, f: CalendarFields|
            #[trigger] occurrence_of(c, now_wall, t, f) && deadline == saturating_sum(
                now_mono as nat,
                ((t - now_wall) * 1000000) as nat,
            ),
{
    let occ = choose|occ: Option<(i64, CalendarFields)>|
        (occ is Some ==> search_result(c, now_wall, occ)) && #[trigger] deadline_for(now_mono, now_wall, occ)
            == (deadline as nat, display);
    if let Some((t, f)) = occ {
        lemma_search_result_is_occurrence(c, now_wall, occ);
        assert(occurrence_of(c, now_wall, t, f));
    }
}

/// Whole seconds in `millis` milliseconds, rounded down (what chrono's
/// `timestamp` gives for a time whose `timestamp_millis` is `millis`).
pub fn floor_seconds(millis: i64) -> (r: i64)
    ensures
        r == millis as int / 1000,
{
    let q = millis / 1000;
    let rem = millis % 1000;
    if rem < 0 {
        q - 1
    } else {
        q
    }
}



// ---------------------------------------------------------------------
// Laws
// ---------------------------------------------------------------------

pub open spec fn strictly_increasing(s: Seq<u32>) -> bool {
    forall|i: int, j: int| 0 <= i < j < s.len() ==> s[i] < s[j]
}

pub open spec fn all_within(s: Seq<u32>, lo: int, hi: int) -> bool {
    forall|i: int| 0 <= i < s.len() ==> lo <= #[trigger] s[i] <= hi
}

/// Every field of a parsed schedule lists its values in increasing order,
/// without repeats, within the field's range (day-of-week within 0-6).
pub proof fn law_fields_sorted_and_in_range(e: Seq<char>)
    requires
        cron_outcome(e) is Parsed,
    ensures
        ({
            let v = cron_view_of(e);
            &&& strictly_increasing(v.minutes) && all_within(v.minutes, 0, 59)
            &&& strictly_increasing(v.hours) && all_within(v.hours, 0, 23)
            &&& strictly_increasing(v.days_of_month) && all_within(v.days_of_month, 1, 31)
            &&& strictly_increasing(v.months) && all_within(v.months, 1, 12)
            &&& strictly_increasing(v.days_of_week) && all_within(v.days_of_week, 0, 6)
        }),
{
    let v = cron_view_of(e);
    lemma_ordered_increasing(values_of(field_k(e, 0)), 0, 59);
    lemma_ordered_contains(values_of(field_k(e, 0)), 0, 59);
    lemma_ordered_increasing(values_of(field_k(e, 1)), 0, 23);
    lemma_ordered_contains(values_of(field_k(e, 1)), 0, 23);
    lemma_ordered_increasing(values_of(field_k(e, 2)), 1, 31);
    lemma_ordered_contains(values_of(field_k(e, 2)), 1, 31);
    lemma_ordered_increasing(values_of(field_k(e, 3)), 1, 12);
    lemma_ordered_contains(values_of(field_k(e, 3)), 1, 12);
    let dow = fold_sunday(values_of(field_k(e, 4)));
    lemma_ordered_increasing(dow, 0, 7);
    lemma_ordered_contains(dow, 0, 7);
    assert forall|i: int| 0 <= i < v.days_of_week.len() implies 0 <= #[trigger] v.days_of_week[i]
        <= 6 by {
        assert(dow.contains(v.days_of_week[i]));
        assert(!dow.contains(7u32));
    }
}

/// A time matches a schedule only if its minute, its hour and its month
/// are all selected, whatever the day fields say.
pub proof fn law_match_needs_minute_hour_month(c: CronView, t: CalendarFields)
    ensures
        schedule_matches(c, t) ==> c.minutes.contains(t.minute) && c.hours.contains(t.hour)
            && c.months.contains(t.month),
{
}

/// The day rule, for a time whose minute, hour and month are selected:
/// with neither day field restricted it matches; with one restricted, that
/// field decides; with both restricted (Vixie cron), either one suffices.
pub proof fn law_day_rule(c: CronView, t: CalendarFields)
    requires
        c.minutes.contains(t.minute),
        c.hours.contains(t.hour),
        c.months.contains(t.month),
    ensures
        !c.dom_restricted && !c.dow_restricted ==> schedule_matches(c, t),
        c.dom_restricted && !c.dow_restricted ==> (schedule_matches(c, t) <==> c.days_of_month.contains(
            t.day,
        )),
        !c.dom_restricted && c.dow_restricted ==> (schedule_matches(c, t) <==> c.days_of_week.contains(
            t.weekday,
        )),
        c.dom_restricted && c.dow_restricted ==> (schedule_matches(c, t) <==> (c.days_of_month.contains(
            t.day,
        ) || c.days_of_week.contains(t.weekday))),
{
}

/// A parsed expression matches a time only if the time's minute, hour and
/// month are among the values its first, second and fourth fields select.
pub proof fn law_parsed_match_needs_fields(e: Seq<char>, t: CalendarFields)
    requires
        cron_outcome(e) is Parsed,
    ensures
        schedule_matches(cron_view_of(e), t) ==> values_of(field_k(e, 0)).contains(t.minute)
            && values_of(field_k(e, 1)).contains(t.hour) && values_of(field_k(e, 3)).contains(t.month),
{
    lemma_ordered_contains(values_of(field_k(e, 0)), 0, 59);
    lemma_ordered_contains(values_of(field_k(e, 1)), 0, 23);
    lemma_ordered_contains(values_of(field_k(e, 3)), 1, 12);
}

/// The minute a cron search accepts lies after its start time, is selected
/// by the schedule on the calendar fields read for it, and those fields
/// are that minute's own: away from the ends of chrono's range its day of
/// the week (Sunday = 0) is that of its UTC day or of the day before or
/// after. So a day-of-week field such as `1-5` is checked against the day
/// the minute falls on.
pub proof fn law_found_minute_is_its_own_day(c: CronView, after: i64, r: Option<(i64, CalendarFields)>)
    requires
        search_result(c, after, r),
    ensures
        r matches Some((t, f)) ==> t > after && schedule_matches(c, f) && (a_day_inside_range(t as int)
            ==> weekday_near(t as int, f.weekday as int)),
        r matches Some((t, f)) ==> (c.dow_restricted && !c.dom_restricted ==> c.days_of_week.contains(
            f.weekday,
        )),
{
    lemma_search_result_is_occurrence(c, after, r);
}

/// Day-of-week 0 and 7 both mean Sunday: a parsed schedule never lists 7,
/// and lists 0 exactly when its day-of-week field selects 0 or 7.
pub proof fn law_sunday_is_zero_or_seven(e: Seq<char>)
    requires
        cron_outcome(e) is Parsed,
    ensures
        !cron_view_of(e).days_of_week.contains(7),
        cron_view_of(e).days_of_week.contains(0) <==> (values_of(field_k(e, 4)).contains(0)
            || values_of(field_k(e, 4)).contains(7)),
        forall|d: u32|
            1 <= d <= 6 ==> (#[trigger] cron_view_of(e).days_of_week.contains(d) <==> values_of(
                field_k(e, 4),
            ).contains(d)),
{
    let dow = fold_sunday(values_of(field_k(e, 4)));
    lemma_ordered_contains(dow, 0, 7);
}

} // verus!
