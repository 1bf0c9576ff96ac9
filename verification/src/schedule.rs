//! The next-occurrence search: when a parsed schedule fires, and the bounded
//! minute-granularity forward search for the next firing instant.
//!
//! The day test follows the classic cron day disjunction. With both day
//! fields restricted, a day qualifies when either matches; a field that
//! covers every legal value for the current calendar context (a "wildcard
//! field") cedes the decision to the other field; two wildcards always
//! qualify. Wildcard detection for the day-of-month field depends on the
//! length of the month under test, so it is recomputed per probe.

use vstd::prelude::*;

use crate::calendar::{
    DateTime, MAX_YEAR, days_in_month, days_in_month_of, lemma_minute_index_injective,
    lemma_next_day, lemma_next_hour, lemma_next_minute, lemma_next_month, lemma_same_date_range,
    lemma_same_hour_range, lemma_day_index_increases, lemma_minute_index_increases, next_day,
    next_day_s, next_hour, next_hour_s, next_minute, next_minute_s, next_month, next_month_s,
    same_date, date_lt, weekday_of,
};
use crate::errors::CronError;
use crate::parser::{ScheduleSpec, cron_err, cron_parse_ok, parse, strictly_sorted};

verus! {

/// The probe budget of one search: exceeding it means the schedule is treated
/// as unsatisfiable.
pub const LOOP_LIMIT: u32 = 128;

/// Whether `value` is in the sorted field `seq`.
pub fn match_schedule(value: u32, seq: &Vec<u32>) -> (r: bool)
    requires
        strictly_sorted(seq@),
    ensures
        r == seq@.contains(value),
{
    let n = seq.len();
    let mut i: usize = 0;
    while i < n
        invariant
            i <= n,
            n == seq@.len(),
            strictly_sorted(seq@),
            forall|j: int| 0 <= j < i ==> seq@[j] < value,
        decreases n - i,
    {
        let x = seq[i];
        if x == value {
            assert(seq@.contains(value)) by {
                assert(seq@[i as int] == value);
            }
            return true;
        }
        if x > value {
            assert(!seq@.contains(value)) by {
                if seq@.contains(value) {
                    let k = choose|k: int| 0 <= k < seq@.len() && seq@[k] == value;
                    if k > i {
                        assert(seq@[i as int] < seq@[k]);
                    }
                }
            }
            return false;
        }
        i = i + 1;
    }
    assert(!seq@.contains(value)) by {
        if seq@.contains(value) {
            let k = choose|k: int| 0 <= k < seq@.len() && seq@[k] == value;
        }
    }
    false
}

/// The day-of-week field matches weekday `w` (Monday = 0); the value 7 is an
/// alias for 0.
pub open spec fn dow_matches(field: Seq<u32>, w: u32) -> bool {
    field.contains(w) || (w == 0 && field.contains(7u32))
}

/// The day-of-month field covers every day of the given month: a wildcard
/// field in that month's context.
pub open spec fn dom_wildcard(field: Seq<u32>, y: int, m: int) -> bool {
    forall|d: u32| 1 <= d <= days_in_month(y, m) ==> #[trigger] field.contains(d)
}

/// The day-of-week field covers every weekday.
pub open spec fn dow_wildcard(field: Seq<u32>) -> bool {
    forall|w: u32| w <= 6 ==> #[trigger] dow_matches(field, w)
}

/// The day-disjunction test: does `dt`'s day qualify under schedule `s`?
pub open spec fn day_ok(s: ScheduleSpec, dt: DateTime) -> bool {
    let dom_m = s.day_of_month.values@.contains(dt.day);
    let dow_m = dow_matches(s.day_of_week.values@, dt.weekday() as u32);
    let wd = dom_wildcard(s.day_of_month.values@, dt.year as int, dt.month as int);
    let ww = dow_wildcard(s.day_of_week.values@);
    if wd && ww {
        true
    } else if wd {
        dow_m
    } else if ww {
        dom_m
    } else {
        dom_m || dow_m
    }
}

/// The schedule fires at `dt`: minute, hour and month lie in their sets and
/// the day passes the day-disjunction test.
pub open spec fn fires_at(s: ScheduleSpec, dt: DateTime) -> bool {
    &&& s.minute.values@.contains(dt.minute)
    &&& s.hour.values@.contains(dt.hour)
    &&& s.month.values@.contains(dt.month)
    &&& day_ok(s, dt)
}

fn dom_wildcard_exec(field: &Vec<u32>, y: u32, m: u32) -> (r: bool)
    requires
        strictly_sorted(field@),
        1 <= m <= 12,
    ensures
        r == dom_wildcard(field@, y as int, m as int),
{
    let dim = days_in_month_of(y, m);
    let mut d: u32 = 1;
    while d <= dim
        invariant
            1 <= d <= dim + 1,
            dim == days_in_month(y as int, m as int),
            strictly_sorted(field@),
            forall|x: u32| 1 <= x < d ==> #[trigger] field@.contains(x),
        decreases dim + 1 - d,
    {
        if !match_schedule(d, field) {
            assert(!dom_wildcard(field@, y as int, m as int)) by {
                assert(1 <= d <= days_in_month(y as int, m as int) && !field@.contains(d));
            }
            return false;
        }
        d = d + 1;
    }
    true
}

fn dow_wildcard_exec(field: &Vec<u32>) -> (r: bool)
    requires
        strictly_sorted(field@),
    ensures
        r == dow_wildcard(field@),
{
    let mut w: u32 = 0;
    while w <= 6
        invariant
            w <= 7,
            strictly_sorted(field@),
            forall|x: u32| x < w ==> #[trigger] dow_matches(field@, x),
        decreases 7 - w,
    {
        let m = match_schedule(w, field) || (w == 0 && match_schedule(7, field));
        if !m {
            assert(!dow_wildcard(field@)) by {
                assert(w <= 6 && !dow_matches(field@, w));
            }
            return false;
        }
        assert(dow_matches(field@, w));
        w = w + 1;
    }
    true
}

fn day_ok_exec(s: &ScheduleSpec, dt: &DateTime) -> (r: bool)
    requires
        s.wf(),
        dt.wf(),
    ensures
        r == day_ok(*s, *dt),
{
    let dom_m = match_schedule(dt.day, &s.day_of_month.values);
    let w = weekday_of(dt);
    let dow_m = match_schedule(w, &s.day_of_week.values) || (w == 0 && match_schedule(
        7,
        &s.day_of_week.values,
    ));
    let wd = dom_wildcard_exec(&s.day_of_month.values, dt.year, dt.month);
    let ww = dow_wildcard_exec(&s.day_of_week.values);
    if wd && ww {
        true
    } else if wd {
        dow_m
    } else if ww {
        dom_m
    } else {
        dom_m || dow_m
    }
}

/// Whether the schedule fires at `dt`, computed.
pub fn fires_at_exec(s: &ScheduleSpec, dt: &DateTime) -> (r: bool)
    requires
        s.wf(),
        dt.wf(),
    ensures
        r == fires_at(*s, *dt),
{
    let minute_m = match_schedule(dt.minute, &s.minute.values);
    let hour_m = match_schedule(dt.hour, &s.hour.values);
    let month_m = match_schedule(dt.month, &s.month.values);
    let d = day_ok_exec(s, dt);
    minute_m && hour_m && month_m && d
}

/// One probe step: the advance the search makes from a candidate that does
/// not fire, following the day, month, hour, minute test order.
pub open spec fn probe_next(s: ScheduleSpec, dt: DateTime) -> DateTime {
    if !day_ok(s, dt) {
        next_day_s(dt)
    } else if !s.month.values@.contains(dt.month) {
        next_month_s(dt)
    } else if !s.hour.values@.contains(dt.hour) {
        next_hour_s(dt)
    } else {
        next_minute_s(dt)
    }
}

/// The candidate the search examines after `n` probe steps from `from`.
pub open spec fn nth_candidate(s: ScheduleSpec, from: DateTime, n: nat) -> DateTime
    decreases n,
{
    if n == 0 {
        from
    } else {
        probe_next(s, nth_candidate(s, from, (n - 1) as nat))
    }
}

/// A probe step from a non-firing candidate skips no firing instant: every
/// valid instant from the candidate up to (excluding) the next candidate does
/// not fire either.
proof fn lemma_probe_skips_nothing(s: ScheduleSpec, dt: DateTime)
    requires
        s.wf(),
        dt.wf(),
        dt.year < MAX_YEAR,
        !fires_at(s, dt),
    ensures
        probe_next(s, dt).wf(),
        probe_next(s, dt).year <= dt.year + 1,
        dt.minute_index() < probe_next(s, dt).minute_index(),
        forall|e: DateTime|
            e.wf() && dt.minute_index() <= e.minute_index() < probe_next(s, dt).minute_index()
                ==> !#[trigger] fires_at(s, e),
{
    let nxt = probe_next(s, dt);
    if !day_ok(s, dt) {
        lemma_next_day(dt);
        assert forall|e: DateTime|
            e.wf() && dt.minute_index() <= e.minute_index() < nxt.minute_index()
                implies !fires_at(s, e) by {
            lemma_same_date_range(dt, e);
            assert(day_ok(s, e) == day_ok(s, dt));
        }
    } else if !s.month.values@.contains(dt.month) {
        lemma_next_month(dt);
        assert forall|e: DateTime|
            e.wf() && dt.minute_index() <= e.minute_index() < nxt.minute_index()
                implies !fires_at(s, e) by {
            if !(e.year == dt.year && e.month == dt.month) {
                if date_lt(e, nxt) {
                    assert(date_lt(e, dt));
                    lemma_minute_index_increases(e, dt);
                    assert(false);
                } else if same_date(e, nxt) {
                    assert(e.day_index() == nxt.day_index());
                    assert(e.minute_index() >= nxt.day_index() * 1440);
                    assert(false);
                } else {
                    assert(date_lt(nxt, e));
                    lemma_day_index_increases(nxt, e);
                    assert(e.minute_index() >= e.day_index() * 1440);
                    assert((nxt.day_index() + 1) * 1440 <= e.day_index() * 1440);
                    assert(false);
                }
            }
        }
    } else if !s.hour.values@.contains(dt.hour) {
        lemma_next_hour(dt);
        assert forall|e: DateTime|
            e.wf() && dt.minute_index() <= e.minute_index() < nxt.minute_index()
                implies !fires_at(s, e) by {
            lemma_same_hour_range(dt, e);
        }
    } else {
        lemma_next_minute(dt);
        assert(!s.minute.values@.contains(dt.minute));
        assert forall|e: DateTime|
            e.wf() && dt.minute_index() <= e.minute_index() < nxt.minute_index()
                implies !fires_at(s, e) by {
            lemma_minute_index_injective(e, dt);
        }
    }
}

/// `dt` is the result of a successful search from `from`: it fires, no valid
/// instant at or after `from` and before it fires, and an exactly matching
/// `from` is returned unchanged.
pub open spec fn next_run_found(s: ScheduleSpec, from: DateTime, dt: DateTime) -> bool {
    &&& dt.wf()
    &&& fires_at(s, dt)
    &&& from.minute_index() <= dt.minute_index()
    &&& (forall|e: DateTime|
        e.wf() && from.minute_index() <= e.minute_index() < dt.minute_index()
            ==> !#[trigger] fires_at(s, e))
    &&& (fires_at(s, from) ==> dt == from)
    &&& (!fires_at(s, from) ==> from.minute_index() < dt.minute_index())
}

/// Finds the next instant at or after `from` at which the schedule fires.
///
/// The search starts at `from` itself (so an exactly matching `from` is
/// returned unchanged) and examines one candidate per probe, `LOOP_LIMIT`
/// probes at most; if none of the candidates fires, the schedule is reported
/// unsatisfiable. A successful result is the earliest valid firing instant at
/// or after `from`. The year headroom in the precondition keeps the whole
/// search inside the representable calendar.
pub fn next_run_at(s: &ScheduleSpec, from: &DateTime) -> (r: Result<DateTime, CronError>)
    requires
        s.wf(),
        from.wf(),
        from.year + 130 <= MAX_YEAR,
    ensures
        match r {
            Ok(dt) => {
                &&& next_run_found(*s, *from, dt)
                &&& (exists|n: nat| n <= LOOP_LIMIT && dt == nth_candidate(*s, *from, n))
            },
            Err(e) => {
                &&& e == CronError::ScheduleUnsatisfiable
                &&& (forall|n: nat|
                    n <= LOOP_LIMIT ==> !fires_at(*s, #[trigger] nth_candidate(*s, *from, n)))
            },
        },
{
    let mut cand: DateTime = *from;
    let mut count: u32 = 0;
    loop
        invariant
            s.wf(),
            from.wf(),
            from.year + 130 <= MAX_YEAR,
            cand.wf(),
            count <= LOOP_LIMIT,
            cand.year <= from.year + count,
            cand == nth_candidate(*s, *from, count as nat),
            from.minute_index() <= cand.minute_index(),
            forall|j: nat| j < count ==> !fires_at(*s, #[trigger] nth_candidate(*s, *from, j)),
            forall|e: DateTime|
                e.wf() && from.minute_index() <= e.minute_index() < cand.minute_index()
                    ==> !#[trigger] fires_at(*s, e),
            fires_at(*s, *from) ==> count == 0,
        decreases LOOP_LIMIT - count,
    {
        if fires_at_exec(s, &cand) {
            assert(cand == nth_candidate(*s, *from, count as nat));
            proof {
                if !fires_at(*s, *from) && cand.minute_index() == from.minute_index() {
                    lemma_minute_index_injective(cand, *from);
                }
            }
            return Ok(cand);
        }
        if count == LOOP_LIMIT {
            assert forall|n: nat| n <= LOOP_LIMIT implies !fires_at(
                *s,
                #[trigger] nth_candidate(*s, *from, n),
            ) by {
                if n == LOOP_LIMIT {
                    assert(nth_candidate(*s, *from, n) == cand);
                }
            }
            return Err(CronError::ScheduleUnsatisfiable);
        }
        proof {
            lemma_probe_skips_nothing(*s, cand);
        }
        let prev = cand;
        cand = if !day_ok_exec(s, &cand) {
            next_day(&cand)
        } else if !match_schedule(cand.month, &s.month.values) {
            next_month(&cand)
        } else if !match_schedule(cand.hour, &s.hour.values) {
            next_hour(&cand)
        } else {
            next_minute(&cand)
        };
        assert(cand == probe_next(*s, prev));
        count = count + 1;
        assert(cand == nth_candidate(*s, *from, count as nat));
    }
}

/// Day disjunction: when neither day field is a wildcard in `dt`'s calendar
/// context, a day matching either the day-of-month or the day-of-week field
/// qualifies.
pub proof fn lemma_day_disjunction(s: ScheduleSpec, dt: DateTime)
    requires
        s.wf(),
        dt.wf(),
        !dom_wildcard(s.day_of_month.values@, dt.year as int, dt.month as int),
        !dow_wildcard(s.day_of_week.values@),
        s.day_of_month.values@.contains(dt.day) || dow_matches(
            s.day_of_week.values@,
            dt.weekday() as u32,
        ),
    ensures
        day_ok(s, dt),
{
}

/// The most days any year gives month `m`.
pub open spec fn month_max_days(m: int) -> int {
    if m == 2 {
        29
    } else if m == 4 || m == 6 || m == 9 || m == 11 {
        30
    } else {
        31
    }
}

/// A schedule whose allowed days of month all exceed the length that any year
/// gives its allowed months (day-of-week left a wildcard) fires at no instant
/// at all.
pub proof fn lemma_unsatisfiable_never_fires(s: ScheduleSpec, dt: DateTime)
    requires
        s.wf(),
        dt.wf(),
        dow_wildcard(s.day_of_week.values@),
        forall|m: u32, d: u32|
            #[trigger] s.month.values@.contains(m) && #[trigger] s.day_of_month.values@.contains(d) ==> d
                > month_max_days(m as int),
    ensures
        !fires_at(s, dt),
{
    if fires_at(s, dt) {
        assert(s.month.values@.contains(dt.month));
        let y = dt.year as int;
        let m = dt.month as int;
        assert(days_in_month(y, m) <= month_max_days(m));
        assert(!dom_wildcard(s.day_of_month.values@, y, m)) by {
            if s.day_of_month.values@.contains(1u32) {
                assert(1 > month_max_days(m));
            }
        }
        assert(!s.day_of_month.values@.contains(dt.day));
        assert(!day_ok(s, dt));
    }
}

proof fn lemma_unsat_rec(s: ScheduleSpec, from: DateTime, n: nat)
    requires
        s.wf(),
        from.wf(),
        from.year + 130 <= MAX_YEAR,
        n <= LOOP_LIMIT,
        dow_wildcard(s.day_of_week.values@),
        forall|m: u32, d: u32|
            #[trigger] s.month.values@.contains(m) && #[trigger] s.day_of_month.values@.contains(d) ==> d
                > month_max_days(m as int),
    ensures
        nth_candidate(s, from, n).wf(),
        nth_candidate(s, from, n).year <= from.year + n,
        !fires_at(s, nth_candidate(s, from, n)),
    decreases n,
{
    if n == 0 {
        lemma_unsatisfiable_never_fires(s, from);
    } else {
        lemma_unsat_rec(s, from, (n - 1) as nat);
        let prev = nth_candidate(s, from, (n - 1) as nat);
        lemma_probe_skips_nothing(s, prev);
        lemma_unsatisfiable_never_fires(s, nth_candidate(s, from, n));
    }
}

/// Under the hypotheses of `lemma_unsatisfiable_never_fires`, every candidate
/// the bounded search would examine fails, so `next_run_at` reports
/// `ScheduleUnsatisfiable` rather than finding an instant or looping on.
pub proof fn lemma_unsatisfiable_search_fails(s: ScheduleSpec, from: DateTime)
    requires
        s.wf(),
        from.wf(),
        from.year + 130 <= MAX_YEAR,
        dow_wildcard(s.day_of_week.values@),
        forall|m: u32, d: u32|
            #[trigger] s.month.values@.contains(m) && #[trigger] s.day_of_month.values@.contains(d) ==> d
                > month_max_days(m as int),
    ensures
        forall|n: nat| n <= LOOP_LIMIT ==> !fires_at(s, #[trigger] nth_candidate(s, from, n)),
{
    assert forall|n: nat| n <= LOOP_LIMIT implies !fires_at(
        s,
        #[trigger] nth_candidate(s, from, n),
    ) by {
        lemma_unsat_rec(s, from, n);
    }
}

/// A successful next-run search from `from` on the schedule text `cron`
/// yields `dt`: some schedule parses from `cron`, fires at `dt`, fires at no
/// earlier valid instant at or after `from`, and leaves an exactly matching
/// `from` unchanged.
pub open spec fn next_run_ok(cron: Seq<char>, from: DateTime, dt: DateTime) -> bool {
    exists|sp: ScheduleSpec|
        {
            &&& #[trigger] cron_parse_ok(sp, cron)
            &&& next_run_found(sp, from, dt)
            &&& (exists|n: nat| n <= LOOP_LIMIT && dt == nth_candidate(sp, from, n))
        }
}

/// The two schedules allow exactly the same values in each of the five
/// fields.
pub open spec fn same_sets(a: ScheduleSpec, b: ScheduleSpec) -> bool {
    &&& (forall|x: u32| a.minute.values@.contains(x) == b.minute.values@.contains(x))
    &&& (forall|x: u32| a.hour.values@.contains(x) == b.hour.values@.contains(x))
    &&& (forall|x: u32|
        a.day_of_month.values@.contains(x) == b.day_of_month.values@.contains(x))
    &&& (forall|x: u32| a.month.values@.contains(x) == b.month.values@.contains(x))
    &&& (forall|x: u32| a.day_of_week.values@.contains(x) == b.day_of_week.values@.contains(x))
}

/// Firing and probing depend only on the fields' value sets.
pub proof fn lemma_same_sets_behavior(a: ScheduleSpec, b: ScheduleSpec, dt: DateTime)
    requires
        same_sets(a, b),
    ensures
        day_ok(a, dt) == day_ok(b, dt),
        fires_at(a, dt) == fires_at(b, dt),
        probe_next(a, dt) == probe_next(b, dt),
{
    let y = dt.year as int;
    let m = dt.month as int;
    assert(dom_wildcard(a.day_of_month.values@, y, m) == dom_wildcard(
        b.day_of_month.values@,
        y,
        m,
    )) by {
        if dom_wildcard(a.day_of_month.values@, y, m) {
            assert forall|d: u32| 1 <= d <= days_in_month(y, m) implies #[trigger] b.day_of_month.values@.contains(d) by {
                assert(a.day_of_month.values@.contains(d));
            }
        }
        if dom_wildcard(b.day_of_month.values@, y, m) {
            assert forall|d: u32| 1 <= d <= days_in_month(y, m) implies #[trigger] a.day_of_month.values@.contains(d) by {
                assert(b.day_of_month.values@.contains(d));
            }
        }
    }
    assert(dow_wildcard(a.day_of_week.values@) == dow_wildcard(b.day_of_week.values@)) by {
        if dow_wildcard(a.day_of_week.values@) {
            assert forall|w: u32| w <= 6 implies #[trigger] dow_matches(b.day_of_week.values@, w) by {
                assert(dow_matches(a.day_of_week.values@, w));
            }
        }
        if dow_wildcard(b.day_of_week.values@) {
            assert forall|w: u32| w <= 6 implies #[trigger] dow_matches(a.day_of_week.values@, w) by {
                assert(dow_matches(b.day_of_week.values@, w));
            }
        }
    }
}

/// The probe chain depends only on the fields' value sets.
pub proof fn lemma_same_sets_candidates(a: ScheduleSpec, b: ScheduleSpec, from: DateTime, n: nat)
    requires
        same_sets(a, b),
    ensures
        nth_candidate(a, from, n) == nth_candidate(b, from, n),
    decreases n,
{
    if n > 0 {
        lemma_same_sets_candidates(a, b, from, (n - 1) as nat);
        lemma_same_sets_behavior(a, b, nth_candidate(a, from, (n - 1) as nat));
    }
}

/// Any two schedules parsed from the same text allow the same value sets:
/// parsing is deterministic up to the sets that drive all behavior.
pub proof fn lemma_parse_deterministic(a: ScheduleSpec, b: ScheduleSpec, cron: Seq<char>)
    requires
        cron_parse_ok(a, cron),
        cron_parse_ok(b, cron),
    ensures
        same_sets(a, b),
{
    let parts = crate::parser::split_spaces(cron);
    assert forall|x: u32| a.minute.values@.contains(x) == b.minute.values@.contains(x) by {
        let vs = crate::parser::field_sem(parts[0], 0, 59).unwrap();
        assert(a.minute.values@.contains(x) == vs.contains(x));
        assert(b.minute.values@.contains(x) == vs.contains(x));
    }
    assert forall|x: u32| a.hour.values@.contains(x) == b.hour.values@.contains(x) by {
        let vs = crate::parser::field_sem(parts[1], 0, 23).unwrap();
        assert(a.hour.values@.contains(x) == vs.contains(x));
        assert(b.hour.values@.contains(x) == vs.contains(x));
    }
    assert forall|x: u32|
        a.day_of_month.values@.contains(x) == b.day_of_month.values@.contains(x) by {
        let vs = crate::parser::field_sem(parts[2], 1, 31).unwrap();
        assert(a.day_of_month.values@.contains(x) == vs.contains(x));
        assert(b.day_of_month.values@.contains(x) == vs.contains(x));
    }
    assert forall|x: u32| a.month.values@.contains(x) == b.month.values@.contains(x) by {
        let vs = crate::parser::field_sem(parts[3], 1, 12).unwrap();
        assert(a.month.values@.contains(x) == vs.contains(x));
        assert(b.month.values@.contains(x) == vs.contains(x));
    }
    assert forall|x: u32|
        a.day_of_week.values@.contains(x) == b.day_of_week.values@.contains(x) by {
        let vs = crate::parser::field_sem(parts[4], 0, 7).unwrap();
        assert(a.day_of_week.values@.contains(x) == vs.contains(x));
        assert(b.day_of_week.values@.contains(x) == vs.contains(x));
    }
}

/// The bounded search from `from` on the schedule text `cron` exhausts its
/// probe budget: no examined candidate fires.
pub open spec fn next_run_unsat(cron: Seq<char>, from: DateTime) -> bool {
    exists|sp: ScheduleSpec|
        #[trigger] cron_parse_ok(sp, cron) && (forall|n: nat|
            n <= LOOP_LIMIT ==> !fires_at(sp, #[trigger] nth_candidate(sp, from, n)))
}

/// A search on one schedule text cannot both succeed and exhaust its budget:
/// parsing is deterministic up to value sets, and the probe chain follows the
/// sets alone.
pub proof fn lemma_ok_not_unsat(cron: Seq<char>, from: DateTime, dt: DateTime)
    requires
        next_run_ok(cron, from, dt),
    ensures
        !next_run_unsat(cron, from),
{
    if next_run_unsat(cron, from) {
        let sp = choose|sp: ScheduleSpec|
            #[trigger] cron_parse_ok(sp, cron) && next_run_found(sp, from, dt) && (exists|n: nat|
                n <= LOOP_LIMIT && dt == nth_candidate(sp, from, n));
        let sp2 = choose|sp2: ScheduleSpec|
            #[trigger] cron_parse_ok(sp2, cron) && (forall|n: nat|
                n <= LOOP_LIMIT ==> !fires_at(sp2, #[trigger] nth_candidate(sp2, from, n)));
        lemma_parse_deterministic(sp, sp2, cron);
        let n = choose|n: nat| n <= LOOP_LIMIT && dt == nth_candidate(sp, from, n);
        lemma_same_sets_candidates(sp, sp2, from, n);
        lemma_same_sets_behavior(sp, sp2, dt);
        assert(fires_at(sp2, nth_candidate(sp2, from, n)));
    }
}

/// Parses `cron` and finds the next instant at or after `start` at which it
/// fires. Parse errors take precedence; an exhausted search reports
/// `ScheduleUnsatisfiable`.
pub fn get_next_run_from(start: &DateTime, cron: &str) -> (r: Result<DateTime, CronError>)
    requires
        start.wf(),
        start.year + 130 <= MAX_YEAR,
    ensures
        match r {
            Ok(dt) => dt.wf() && cron_err(cron@) is None && next_run_ok(cron@, *start, dt),
            Err(e) => match cron_err(cron@) {
                Some(pe) => e == pe,
                None => e == CronError::ScheduleUnsatisfiable && next_run_unsat(cron@, *start),
            },
        },
{
    let sp = match parse(cron) {
        Ok(sp) => sp,
        Err(e) => {
            return Err(e);
        },
    };
    match next_run_at(&sp, start) {
        Ok(dt) => {
            assert(cron_parse_ok(sp, cron@));
            Ok(dt)
        },
        Err(e) => {
            assert(cron_parse_ok(sp, cron@));
            Err(e)
        },
    }
}

/// Parses `cron` and finds its next firing instant from the current system
/// time on. The clock's value is whatever the machine reports; the result is
/// only promised to be a valid instant of a schedule that parsed.
pub fn get_next_run(cron: &str) -> (r: Result<DateTime, CronError>)
    ensures
        match r {
            Ok(dt) => {
                &&& dt.wf()
                &&& cron_err(cron@) is None
                &&& exists|from: DateTime| from.wf() && #[trigger] next_run_ok(cron@, from, dt)
            },
            Err(e) => {
                ||| (cron_err(cron@) matches Some(pe) && e == pe)
                ||| (cron_err(cron@) is None && (e == CronError::ScheduleUnsatisfiable || e
                    == CronError::TimeOutOfRange))
            },
        },
{
    let sp = match parse(cron) {
        Ok(sp) => sp,
        Err(e) => {
            return Err(e);
        },
    };
    let now = match crate::calendar::current_datetime() {
        Some(dt) => dt,
        None => {
            return Err(CronError::TimeOutOfRange);
        },
    };
    if now.year + 130 > MAX_YEAR {
        return Err(CronError::TimeOutOfRange);
    }
    match next_run_at(&sp, &now) {
        Ok(dt) => {
            assert(cron_parse_ok(sp, cron@));
            assert(next_run_ok(cron@, now, dt));
            Ok(dt)
        },
        Err(e) => Err(e),
    }
}

} // verus!

