//! Civil calendar arithmetic over the proleptic Gregorian calendar in UTC,
//! at minute granularity.
//!
//! An instant is a `DateTime` of plain year/month/day/hour/minute values. Its
//! mathematical meaning is `minute_index`, the number of minutes since
//! 1970-01-01 00:00 UTC, from which ordering, weekdays and epoch milliseconds
//! all derive.

use vstd::prelude::*;

verus! {

/// Years the calendar can represent.
pub const EPOCH_YEAR: u32 = 1970;

pub const MAX_YEAR: u32 = 9999;

/// Gregorian leap year rule.
pub open spec fn is_leap_year(y: int) -> bool {
    y % 4 == 0 && (y % 100 != 0 || y % 400 == 0)
}

/// Days in month `m` (1-12) of year `y`.
pub open spec fn days_in_month(y: int, m: int) -> int {
    if m == 2 {
        if is_leap_year(y) {
            29
        } else {
            28
        }
    } else if m == 4 || m == 6 || m == 9 || m == 11 {
        30
    } else {
        31
    }
}

pub open spec fn days_in_year(y: int) -> int {
    if is_leap_year(y) {
        366
    } else {
        365
    }
}

/// Days from 1970-01-01 up to January 1st of year `y`.
pub open spec fn days_before_year(y: int) -> int
    decreases y - 1970,
{
    if y <= 1970 {
        0
    } else {
        days_before_year(y - 1) + days_in_year(y - 1)
    }
}

/// Days from January 1st of year `y` up to the first of month `m`.
pub open spec fn days_before_month(y: int, m: int) -> int
    decreases m,
{
    if m <= 1 {
        0
    } else {
        days_before_month(y, m - 1) + days_in_month(y, m - 1)
    }
}

/// A wall-clock instant in UTC at minute granularity.
#[derive(Clone, Copy, PartialEq, Eq, Structural, Debug)]
pub struct DateTime {
    pub year: u32,
    pub month: u32,
    pub day: u32,
    pub hour: u32,
    pub minute: u32,
}

impl DateTime {
    /// The instant denotes a real calendar date within the representable
    /// years.
    pub open spec fn wf(&self) -> bool {
        &&& EPOCH_YEAR <= self.year <= MAX_YEAR
        &&& 1 <= self.month <= 12
        &&& 1 <= self.day <= days_in_month(self.year as int, self.month as int)
        &&& self.hour <= 23
        &&& self.minute <= 59
    }

    /// Days since 1970-01-01.
    pub open spec fn day_index(&self) -> int {
        days_before_year(self.year as int) + days_before_month(self.year as int, self.month as int)
            + self.day - 1
    }

    /// Minutes since 1970-01-01 00:00 UTC: the instant's mathematical value.
    pub open spec fn minute_index(&self) -> int {
        self.day_index() * 1440 + self.hour * 60 + self.minute
    }

    /// Milliseconds since the Unix epoch.
    pub open spec fn epoch_millis(&self) -> int {
        self.minute_index() * 60000
    }

    /// Day of the week, Monday = 0 through Sunday = 6.
    /// (1970-01-01 was a Thursday, day 3 of that week.)
    pub open spec fn weekday(&self) -> int {
        (self.day_index() + 3) % 7
    }
}

/// The twelve months of a year sum to its length.
pub proof fn lemma_months_sum(y: int)
    ensures
        days_before_month(y, 13) == days_in_year(y),
{
    reveal_with_fuel(days_before_month, 14);
}

proof fn lemma_dbm_nonneg(y: int, m: int)
    requires
        1 <= m,
    ensures
        0 <= days_before_month(y, m),
    decreases m,
{
    if m > 1 {
        lemma_dbm_nonneg(y, m - 1);
    }
}

pub proof fn lemma_dbm_nonneg_monotone(y: int, m1: int, m2: int)
    requires
        1 <= m1 <= m2,
    ensures
        0 <= days_before_month(y, m1) <= days_before_month(y, m2),
    decreases m2 - m1,
{
    lemma_dbm_nonneg(y, m1);
    if m1 < m2 {
        lemma_dbm_nonneg_monotone(y, m1, m2 - 1);
    }
}

pub proof fn lemma_dby_monotone(y1: int, y2: int)
    requires
        1970 <= y1 <= y2,
    ensures
        0 <= days_before_year(y1) <= days_before_year(y2),
        days_before_year(y2) - days_before_year(y1) >= 365 * (y2 - y1),
        days_before_year(y2) - days_before_year(y1) <= 366 * (y2 - y1),
    decreases y2 - y1,
{
    lemma_dby_nonneg(y1);
    if y1 < y2 {
        lemma_dby_monotone(y1, y2 - 1);
    }
}

proof fn lemma_dby_nonneg(y: int)
    requires
        1970 <= y,
    ensures
        0 <= days_before_year(y),
    decreases y - 1970,
{
    if y > 1970 {
        lemma_dby_nonneg(y - 1);
    }
}

/// Every valid date's day index is nonnegative and below the calendar cap.
pub proof fn lemma_day_index_bounds(dt: DateTime)
    requires
        dt.wf(),
    ensures
        0 <= dt.day_index(),
        dt.day_index() < days_before_year(MAX_YEAR + 1),
        days_before_year(MAX_YEAR + 1) <= 366 * (MAX_YEAR + 1 - EPOCH_YEAR),
{
    let y = dt.year as int;
    let m = dt.month as int;
    lemma_dbm_nonneg_monotone(y, 1, m);
    lemma_dby_monotone(1970, y);
    lemma_dbm_nonneg_monotone(y, m, 13);
    assert(days_before_month(y, m) + days_in_month(y, m) == days_before_month(y, m + 1));
    lemma_dbm_nonneg_monotone(y, m + 1, 13);
    lemma_months_sum(y);
    assert(dt.day_index() < days_before_year(y) + days_in_year(y));
    assert(days_before_year(y) + days_in_year(y) == days_before_year(y + 1));
    lemma_dby_monotone(y + 1, MAX_YEAR + 1);
    lemma_dby_monotone(1970, MAX_YEAR + 1);
}

/// Every valid instant's minute index is nonnegative and below the cap.
pub proof fn lemma_minute_index_bounds(dt: DateTime)
    requires
        dt.wf(),
    ensures
        0 <= dt.minute_index(),
        dt.minute_index() < days_before_year(MAX_YEAR + 1) * 1440,
        dt.minute_index() < 4_232_131_200,
{
    lemma_day_index_bounds(dt);
    assert(dt.day_index() * 1440 + 1440 <= days_before_year(MAX_YEAR + 1) * 1440) by {
        vstd::arithmetic::mul::lemma_mul_inequality(
            dt.day_index() + 1,
            days_before_year(MAX_YEAR + 1),
            1440,
        );
        vstd::arithmetic::mul::lemma_mul_is_distributive_add_other_way(
            1440,
            dt.day_index(),
            1,
        );
    }
    assert(dt.day_index() * 1440 >= 0) by {
        vstd::arithmetic::mul::lemma_mul_nonnegative(dt.day_index(), 1440);
    }
    assert(days_before_year(MAX_YEAR + 1) * 1440 <= 366 * (MAX_YEAR + 1 - EPOCH_YEAR) * 1440) by {
        vstd::arithmetic::mul::lemma_mul_inequality(
            days_before_year(MAX_YEAR + 1),
            366 * (MAX_YEAR + 1 - EPOCH_YEAR),
            1440,
        );
    }
}

/// Whether `y` is a leap year.
pub fn is_leap_year_of(y: u32) -> (r: bool)
    ensures
        r == is_leap_year(y as int),
{
    y % 4 == 0 && (y % 100 != 0 || y % 400 == 0)
}

/// Days in month `m` of year `y`.
pub fn days_in_month_of(y: u32, m: u32) -> (r: u32)
    requires
        1 <= m <= 12,
    ensures
        r == days_in_month(y as int, m as int),
        28 <= r <= 31,
{
    if m == 2 {
        if is_leap_year_of(y) {
            29
        } else {
            28
        }
    } else if m == 4 || m == 6 || m == 9 || m == 11 {
        30
    } else {
        31
    }
}

fn days_in_year_of(y: u32) -> (r: u32)
    ensures
        r == days_in_year(y as int),
{
    if is_leap_year_of(y) {
        366
    } else {
        365
    }
}

/// Days from the epoch to January 1st of year `y`.
fn days_before_year_of(y: u32) -> (r: u64)
    requires
        EPOCH_YEAR <= y <= MAX_YEAR + 1,
    ensures
        r == days_before_year(y as int),
{
    let mut acc: u64 = 0;
    let mut i: u32 = EPOCH_YEAR;
    while i < y
        invariant
            EPOCH_YEAR <= i <= y <= MAX_YEAR + 1,
            acc == days_before_year(i as int),
            acc <= 366 * (i - EPOCH_YEAR),
        decreases y - i,
    {
        acc = acc + days_in_year_of(i) as u64;
        i = i + 1;
    }
    acc
}

/// Days from January 1st to the first of month `m` in year `y`.
fn days_before_month_of(y: u32, m: u32) -> (r: u32)
    requires
        1 <= m <= 13,
    ensures
        r == days_before_month(y as int, m as int),
{
    let mut acc: u32 = 0;
    let mut i: u32 = 1;
    while i < m
        invariant
            1 <= i <= m <= 13,
            acc == days_before_month(y as int, i as int),
            acc <= 31 * (i - 1),
        decreases m - i,
    {
        acc = acc + days_in_month_of(y, i);
        i = i + 1;
    }
    acc
}

/// Days since 1970-01-01.
pub fn day_index_of(dt: &DateTime) -> (r: u64)
    requires
        dt.wf(),
    ensures
        r == dt.day_index(),
        r < days_before_year(MAX_YEAR + 1),
        r < 2_938_980,
{
    proof {
        lemma_day_index_bounds(*dt);
        lemma_dby_monotone(1970, dt.year as int);
        lemma_dbm_nonneg_monotone(dt.year as int, 1, dt.month as int);
    }
    let dby = days_before_year_of(dt.year);
    let dbm = days_before_month_of(dt.year, dt.month);
    dby + dbm as u64 + dt.day as u64 - 1
}

/// Minutes since the epoch: the instant's mathematical value, computed.
pub fn minute_index_of(dt: &DateTime) -> (r: u64)
    requires
        dt.wf(),
    ensures
        r == dt.minute_index(),
        r < 4_232_131_200,
{
    proof {
        lemma_minute_index_bounds(*dt);
    }
    let di = day_index_of(dt);
    di * 1440 + (dt.hour as u64) * 60 + dt.minute as u64
}

/// Milliseconds since the Unix epoch.
pub fn epoch_millis_of(dt: &DateTime) -> (r: i64)
    requires
        dt.wf(),
    ensures
        r == dt.epoch_millis(),
        0 <= r,
{
    proof {
        lemma_minute_index_bounds(*dt);
    }
    let mi = minute_index_of(dt);
    (mi * 60000) as i64
}

/// Day of the week, Monday = 0 through Sunday = 6.
pub fn weekday_of(dt: &DateTime) -> (r: u32)
    requires
        dt.wf(),
    ensures
        r == dt.weekday(),
        r <= 6,
{
    let di = day_index_of(dt);
    ((di + 3) % 7) as u32
}

/// Strict order on the date parts (year, month, day), lexicographically.
pub open spec fn date_lt(a: DateTime, b: DateTime) -> bool {
    ||| a.year < b.year
    ||| (a.year == b.year && a.month < b.month)
    ||| (a.year == b.year && a.month == b.month && a.day < b.day)
}

pub open spec fn same_date(a: DateTime, b: DateTime) -> bool {
    a.year == b.year && a.month == b.month && a.day == b.day
}

/// Strict order on whole instants, lexicographically.
pub open spec fn dt_lt(a: DateTime, b: DateTime) -> bool {
    ||| date_lt(a, b)
    ||| (same_date(a, b) && a.hour < b.hour)
    ||| (same_date(a, b) && a.hour == b.hour && a.minute < b.minute)
}

/// An earlier date has a strictly smaller day index.
pub proof fn lemma_day_index_increases(a: DateTime, b: DateTime)
    requires
        a.wf(),
        b.wf(),
        date_lt(a, b),
    ensures
        a.day_index() < b.day_index(),
{
    let y1 = a.year as int;
    let m1 = a.month as int;
    let y2 = b.year as int;
    let m2 = b.month as int;
    if y1 == y2 && m1 == m2 {
    } else if y1 == y2 {
        assert(days_before_month(y1, m1) + days_in_month(y1, m1) == days_before_month(y1, m1 + 1));
        lemma_dbm_nonneg_monotone(y1, m1 + 1, m2);
    } else {
        assert(days_before_month(y1, m1) + days_in_month(y1, m1) == days_before_month(y1, m1 + 1));
        lemma_dbm_nonneg_monotone(y1, m1 + 1, 13);
        lemma_months_sum(y1);
        assert(days_before_year(y1) + days_in_year(y1) == days_before_year(y1 + 1));
        lemma_dby_monotone(y1 + 1, y2);
        lemma_dbm_nonneg_monotone(y2, 1, m2);
    }
}

/// An earlier instant has a strictly smaller minute index.
pub proof fn lemma_minute_index_increases(a: DateTime, b: DateTime)
    requires
        a.wf(),
        b.wf(),
        dt_lt(a, b),
    ensures
        a.minute_index() < b.minute_index(),
{
    if date_lt(a, b) {
        lemma_day_index_increases(a, b);
        assert(a.minute_index() < (a.day_index() + 1) * 1440);
        assert((a.day_index() + 1) * 1440 <= b.day_index() * 1440);
        assert(b.day_index() * 1440 <= b.minute_index());
    }
}

/// The minute index identifies the instant: equal indices mean equal fields.
pub proof fn lemma_minute_index_injective(a: DateTime, b: DateTime)
    requires
        a.wf(),
        b.wf(),
        a.minute_index() == b.minute_index(),
    ensures
        a == b,
{
    if dt_lt(a, b) {
        lemma_minute_index_increases(a, b);
    } else if dt_lt(b, a) {
        lemma_minute_index_increases(b, a);
    }
}

/// Every valid instant from `a` (inclusive) up to the end of `a`'s day lies on
/// the same calendar date as `a`.
pub proof fn lemma_same_date_range(a: DateTime, e: DateTime)
    requires
        a.wf(),
        e.wf(),
        a.minute_index() <= e.minute_index(),
        e.minute_index() < (a.day_index() + 1) * 1440,
    ensures
        same_date(e, a),
{
    if date_lt(e, a) {
        lemma_day_index_increases(e, a);
        assert(e.minute_index() < (e.day_index() + 1) * 1440);
        assert((e.day_index() + 1) * 1440 <= a.day_index() * 1440);
        assert(a.day_index() * 1440 <= a.minute_index());
    } else if date_lt(a, e) {
        lemma_day_index_increases(a, e);
        assert((a.day_index() + 1) * 1440 <= e.day_index() * 1440);
        assert(e.day_index() * 1440 <= e.minute_index());
    }
}

/// Every valid instant from `a` (inclusive) up to the end of `a`'s hour lies
/// in the same date and hour as `a`.
pub proof fn lemma_same_hour_range(a: DateTime, e: DateTime)
    requires
        a.wf(),
        e.wf(),
        a.minute_index() <= e.minute_index(),
        e.minute_index() < a.day_index() * 1440 + (a.hour + 1) * 60,
    ensures
        same_date(e, a),
        e.hour == a.hour,
{
    lemma_same_date_range(a, e);
}

/// 00:00 of the day after `dt`.
pub open spec fn next_day_s(dt: DateTime) -> DateTime {
    if dt.day < days_in_month(dt.year as int, dt.month as int) {
        DateTime { day: (dt.day + 1) as u32, hour: 0, minute: 0, ..dt }
    } else if dt.month < 12 {
        DateTime { month: (dt.month + 1) as u32, day: 1, hour: 0, minute: 0, ..dt }
    } else {
        DateTime { year: (dt.year + 1) as u32, month: 1, day: 1, hour: 0, minute: 0, ..dt }
    }
}

/// 00:00 of the first day of the month after `dt`'s.
pub open spec fn next_month_s(dt: DateTime) -> DateTime {
    if dt.month < 12 {
        DateTime { month: (dt.month + 1) as u32, day: 1, hour: 0, minute: 0, ..dt }
    } else {
        DateTime { year: (dt.year + 1) as u32, month: 1, day: 1, hour: 0, minute: 0, ..dt }
    }
}

/// The next hour boundary after `dt` (minutes zeroed).
pub open spec fn next_hour_s(dt: DateTime) -> DateTime {
    if dt.hour < 23 {
        DateTime { hour: (dt.hour + 1) as u32, minute: 0, ..dt }
    } else {
        next_day_s(dt)
    }
}

/// The minute after `dt`.
pub open spec fn next_minute_s(dt: DateTime) -> DateTime {
    if dt.minute < 59 {
        DateTime { minute: (dt.minute + 1) as u32, ..dt }
    } else if dt.hour < 23 {
        DateTime { hour: (dt.hour + 1) as u32, minute: 0, ..dt }
    } else {
        next_day_s(dt)
    }
}

pub proof fn lemma_next_day(dt: DateTime)
    requires
        dt.wf(),
        dt.year < MAX_YEAR,
    ensures
        next_day_s(dt).wf(),
        next_day_s(dt).day_index() == dt.day_index() + 1,
        next_day_s(dt).minute_index() == (dt.day_index() + 1) * 1440,
{
    let y = dt.year as int;
    let m = dt.month as int;
    if dt.day < days_in_month(y, m) {
    } else if dt.month < 12 {
        assert(days_before_month(y, m) + days_in_month(y, m) == days_before_month(y, m + 1));
    } else {
        assert(days_before_month(y, 12) + days_in_month(y, 12) == days_before_month(y, 13));
        lemma_months_sum(y);
        assert(days_before_year(y) + days_in_year(y) == days_before_year(y + 1));
    }
}

pub proof fn lemma_next_month(dt: DateTime)
    requires
        dt.wf(),
        dt.year < MAX_YEAR,
    ensures
        next_month_s(dt).wf(),
        dt.day_index() < next_month_s(dt).day_index(),
        next_month_s(dt).minute_index() == next_month_s(dt).day_index() * 1440,
        dt.minute_index() < next_month_s(dt).minute_index(),
{
    let y = dt.year as int;
    let m = dt.month as int;
    let nm = next_month_s(dt);
    assert(date_lt(dt, nm));
    lemma_next_month_wf(dt);
    lemma_day_index_increases(dt, nm);
    assert(dt.minute_index() < (dt.day_index() + 1) * 1440);
    assert((dt.day_index() + 1) * 1440 <= nm.day_index() * 1440);
}

proof fn lemma_next_month_wf(dt: DateTime)
    requires
        dt.wf(),
        dt.year < MAX_YEAR,
    ensures
        next_month_s(dt).wf(),
{
}

pub proof fn lemma_next_hour(dt: DateTime)
    requires
        dt.wf(),
        dt.year < MAX_YEAR,
    ensures
        next_hour_s(dt).wf(),
        next_hour_s(dt).minute_index() == dt.day_index() * 1440 + (dt.hour + 1) * 60,
{
    if dt.hour < 23 {
    } else {
        lemma_next_day(dt);
    }
}

pub proof fn lemma_next_minute(dt: DateTime)
    requires
        dt.wf(),
        dt.year < MAX_YEAR,
    ensures
        next_minute_s(dt).wf(),
        next_minute_s(dt).minute_index() == dt.minute_index() + 1,
{
    if dt.minute < 59 {
    } else if dt.hour < 23 {
    } else {
        lemma_next_day(dt);
    }
}

/// 00:00 of the next calendar day.
pub fn next_day(dt: &DateTime) -> (r: DateTime)
    requires
        dt.wf(),
        dt.year < MAX_YEAR,
    ensures
        r == next_day_s(*dt),
{
    if dt.day < days_in_month_of(dt.year, dt.month) {
        DateTime { day: dt.day + 1, hour: 0, minute: 0, ..*dt }
    } else if dt.month < 12 {
        DateTime { month: dt.month + 1, day: 1, hour: 0, minute: 0, ..*dt }
    } else {
        DateTime { year: dt.year + 1, month: 1, day: 1, hour: 0, minute: 0, ..*dt }
    }
}

/// 00:00 of the first day of the next month.
pub fn next_month(dt: &DateTime) -> (r: DateTime)
    requires
        dt.wf(),
        dt.year < MAX_YEAR,
    ensures
        r == next_month_s(*dt),
{
    if dt.month < 12 {
        DateTime { month: dt.month + 1, day: 1, hour: 0, minute: 0, ..*dt }
    } else {
        DateTime { year: dt.year + 1, month: 1, day: 1, hour: 0, minute: 0, ..*dt }
    }
}

/// The next hour boundary, minutes zeroed.
pub fn next_hour(dt: &DateTime) -> (r: DateTime)
    requires
        dt.wf(),
        dt.year < MAX_YEAR,
    ensures
        r == next_hour_s(*dt),
{
    if dt.hour < 23 {
        DateTime { hour: dt.hour + 1, minute: 0, ..*dt }
    } else {
        next_day(dt)
    }
}

/// Minute indices the calendar can represent: below this cap, every index
/// denotes an instant in some year up to `MAX_YEAR`.
pub open spec fn minute_cap() -> int {
    days_before_year(MAX_YEAR + 1) * 1440
}

/// Recovers the instant holding a millisecond timestamp: the unique valid
/// `DateTime` whose minute contains `ms`. Fails outside the representable
/// range.
pub fn datetime_from_millis(ms: i64) -> (r: Option<DateTime>)
    ensures
        match r {
            Some(dt) => dt.wf() && 0 <= ms && dt.minute_index() == ms / 60000 && ms / 60000
                < minute_cap(),
            None => ms < 0 || ms / 60000 >= minute_cap(),
        },
{
    if ms < 0 {
        return None;
    }
    let total_min: u64 = (ms as u64) / 60000;
    assert(total_min == ms / 60000);
    let dby_cap = days_before_year_of(MAX_YEAR + 1);
    proof {
        lemma_dby_monotone(EPOCH_YEAR as int, MAX_YEAR + 1);
        assert(dby_cap <= 366 * (MAX_YEAR + 1 - EPOCH_YEAR));
    }
    let cap: u64 = dby_cap * 1440;
    if total_min >= cap {
        return None;
    }
    let days: u64 = total_min / 1440;
    let rem: u64 = total_min % 1440;
    let hour: u32 = (rem / 60) as u32;
    let minute: u32 = (rem % 60) as u32;
    assert(days * 1440 + rem == total_min) by {
        vstd::arithmetic::div_mod::lemma_fundamental_div_mod(total_min as int, 1440);
    }
    assert(days < dby_cap) by {
        if days >= dby_cap {
            vstd::arithmetic::mul::lemma_mul_inequality(dby_cap as int, days as int, 1440);
        }
    }
    assert(hour * 60 + minute == rem && hour <= 23 && minute <= 59) by {
        vstd::arithmetic::div_mod::lemma_fundamental_div_mod(rem as int, 60);
    }

    assert(days < 2_938_980);
    let mut y: u32 = EPOCH_YEAR;
    let mut acc: u64 = 0;
    loop
        invariant
            EPOCH_YEAR <= y <= MAX_YEAR,
            acc == days_before_year(y as int),
            acc <= days,
            days < days_before_year(MAX_YEAR + 1),
            days < 2_938_980,
        ensures
            EPOCH_YEAR <= y <= MAX_YEAR,
            acc == days_before_year(y as int),
            acc <= days,
            days - acc < days_in_year(y as int),
        decreases MAX_YEAR - y,
    {
        let len = days_in_year_of(y) as u64;
        assert(acc + len == days_before_year(y + 1));
        if acc + len <= days {
            assert(y < MAX_YEAR) by {
                if y == MAX_YEAR {
                    assert(days_before_year(MAX_YEAR + 1) <= days);
                }
            }
            acc = acc + len;
            y = y + 1;
        } else {
            break ;
        }
    }
    let day_rem: u32 = (days - acc) as u32;
    assert(day_rem < days_in_year(y as int));

    let mut m: u32 = 1;
    let mut macc: u32 = 0;
    loop
        invariant
            1 <= m <= 12,
            macc == days_before_month(y as int, m as int),
            macc <= day_rem,
            day_rem < days_in_year(y as int),
            day_rem < 366,
        ensures
            1 <= m <= 12,
            macc == days_before_month(y as int, m as int),
            macc <= day_rem,
            day_rem - macc < days_in_month(y as int, m as int),
        decreases 12 - m,
    {
        let ml = days_in_month_of(y, m);
        assert(macc + ml == days_before_month(y as int, m + 1));
        if macc + ml <= day_rem {
            assert(m < 12) by {
                if m == 12 {
                    lemma_months_sum(y as int);
                    assert(days_before_month(y as int, 13) <= day_rem);
                }
            }
            macc = macc + ml;
            m = m + 1;
        } else {
            break ;
        }
    }
    let day: u32 = day_rem - macc + 1;
    let dt = DateTime { year: y, month: m, day, hour, minute };
    assert(dt.wf());
    assert(dt.day_index() == days);
    assert(dt.minute_index() == total_min);
    Some(dt)
}

/// The instant's text form, `YYYY-MM-DD HH:MM:00 UTC`.
pub open spec fn dt_display(dt: DateTime) -> Seq<char> {
    crate::chars::dec_str(dt.year as int) + seq!['-'] + pad2(dt.month as int) + seq!['-'] + pad2(
        dt.day as int,
    ) + seq![' '] + pad2(dt.hour as int) + seq![':'] + pad2(dt.minute as int) + seq![
        ':',
        '0',
        '0',
        ' ',
        'U',
        'T',
        'C',
    ]
}

/// A number rendered with at least two digits, zero-padded.
pub open spec fn pad2(n: int) -> Seq<char> {
    if n < 10 {
        seq!['0'] + crate::chars::dec_str(n)
    } else {
        crate::chars::dec_str(n)
    }
}

fn pad2_string(n: u32) -> (r: String)
    requires
        n <= 99,
    ensures
        r@ == pad2(n as int),
{
    proof {
        reveal_strlit("0");
    }
    if n < 10 {
        let mut s = String::from_str("0");
        let d = crate::chars::u64_to_string(n as u64);
        s.append(d.as_str());
        assert(s@ =~= pad2(n as int));
        s
    } else {
        crate::chars::u64_to_string(n as u64)
    }
}

impl DateTime {
    /// Renders the instant as `YYYY-MM-DD HH:MM:00 UTC`.
    pub fn to_display_string(&self) -> (r: String)
        requires
            self.wf(),
        ensures
            r@ == dt_display(*self),
    {
        proof {
            reveal_strlit("-");
            reveal_strlit(" ");
            reveal_strlit(":");
            reveal_strlit(":00 UTC");
        }
        let mut s = crate::chars::u64_to_string(self.year as u64);
        s.append("-");
        let p = pad2_string(self.month);
        s.append(p.as_str());
        s.append("-");
        let p = pad2_string(self.day);
        s.append(p.as_str());
        s.append(" ");
        let p = pad2_string(self.hour);
        s.append(p.as_str());
        s.append(":");
        let p = pad2_string(self.minute);
        s.append(p.as_str());
        s.append(":00 UTC");
        assert(s@ =~= dt_display(*self));
        s
    }
}

/// Relies on chrono's `Utc::now` and `DateTime::timestamp_millis`: the current
/// wall-clock time as milliseconds since the Unix epoch. The value depends on
/// the system clock, so nothing is promised of it.
#[verifier::external_body]
fn clock_millis() -> i64 {
    chrono::Utc::now().timestamp_millis()
}

/// The current instant according to the system clock, if it falls within the
/// representable calendar range.
pub fn current_datetime() -> (r: Option<DateTime>)
    ensures
        r matches Some(dt) ==> dt.wf(),
{
    datetime_from_millis(clock_millis())
}

/// The next minute.
pub fn next_minute(dt: &DateTime) -> (r: DateTime)
    requires
        dt.wf(),
        dt.year < MAX_YEAR,
    ensures
        r == next_minute_s(*dt),
{
    if dt.minute < 59 {
        DateTime { minute: dt.minute + 1, ..*dt }
    } else if dt.hour < 23 {
        DateTime { hour: dt.hour + 1, minute: 0, ..*dt }
    } else {
        next_day(dt)
    }
}

} // verus!
