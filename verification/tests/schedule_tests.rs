use chrono::{Datelike, TimeZone, Timelike, Utc};
use job_scheduler::calendar::{datetime_from_millis, epoch_millis_of, weekday_of, DateTime};
use job_scheduler::errors::CronError;
use job_scheduler::{get_next_run, get_next_run_from};

fn dt(year: u32, month: u32, day: u32, hour: u32, minute: u32) -> DateTime {
    DateTime { year, month, day, hour, minute }
}

#[test]
fn simple_cron() {
    let start = dt(2024, 05, 1, 0, 0);
    let date = get_next_run_from(&start, "5 4 * * 6").unwrap();
    assert_eq!(date.to_display_string(), "2024-05-05 04:05:00 UTC");
}

#[test]
fn matching_start_is_returned_unchanged() {
    let start = dt(2024, 5, 5, 4, 5);
    let date = get_next_run_from(&start, "5 4 * * 6").unwrap();
    assert_eq!(date, start);
}

#[test]
fn minute_rollover() {
    let start = dt(2024, 5, 1, 0, 30);
    let date = get_next_run_from(&start, "15 * * * *").unwrap();
    assert_eq!(date, dt(2024, 5, 1, 1, 15));
}

#[test]
fn month_rollover_crosses_year() {
    let start = dt(2024, 12, 31, 23, 59);
    let date = get_next_run_from(&start, "0 0 1 1 *").unwrap();
    assert_eq!(date, dt(2025, 1, 1, 0, 0));
}

#[test]
fn day_disjunction_picks_the_nearer_weekday() {
    // day-of-month {1} and day-of-week {1} both restricted: starting just
    // after the first of a month whose first day is not weekday 1, the
    // nearer weekday match fires before the first of the next month.
    let start = dt(2024, 5, 2, 0, 0);
    let date = get_next_run_from(&start, "0 0 1 * 1").unwrap();
    assert_eq!(date, dt(2024, 5, 7, 0, 0));
}

#[test]
fn unsatisfiable_schedule_is_reported() {
    let start = dt(2024, 1, 1, 0, 0);
    let r = get_next_run_from(&start, "0 0 31 2 *");
    assert_eq!(r, Err(CronError::ScheduleUnsatisfiable));
}

#[test]
fn parse_errors_take_precedence() {
    let start = dt(2024, 1, 1, 0, 0);
    assert_eq!(get_next_run_from(&start, "99 * * * *"), Err(CronError::ValueOutOfRange));
    assert_eq!(get_next_run_from(&start, "x * * * *"), Err(CronError::InvalidFieldSyntax));
}

#[test]
fn next_run_from_the_clock() {
    // exercises the clock: whatever the current time, a full wildcard
    // schedule has a next firing instant
    let r = get_next_run("* * * * *").unwrap();
    assert!(r.year >= 2024);
    assert_eq!(get_next_run("* * * *"), Err(CronError::InvalidFieldSyntax));
}

#[test]
fn weekday_agrees_with_chrono() {
    let samples = [
        (1970, 1, 1),
        (2000, 2, 29),
        (2024, 5, 1),
        (2024, 5, 5),
        (2026, 10, 11),
        (2100, 3, 1),
    ];
    for (y, m, d) in samples {
        let ours = weekday_of(&dt(y, m, d, 0, 0));
        let chronos = Utc
            .with_ymd_and_hms(y as i32, m, d, 0, 0, 0)
            .unwrap()
            .weekday()
            .num_days_from_monday();
        assert_eq!(ours, chronos, "weekday of {y}-{m}-{d}");
    }
}

#[test]
fn epoch_millis_agrees_with_chrono() {
    let samples = [
        (1970, 1, 1, 0, 0),
        (2024, 5, 5, 4, 5),
        (2024, 2, 29, 23, 59),
        (2077, 12, 31, 1, 30),
    ];
    for (y, m, d, h, min) in samples {
        let ours = epoch_millis_of(&dt(y, m, d, h, min));
        let chronos = Utc
            .with_ymd_and_hms(y as i32, m, d, h, min, 0)
            .unwrap()
            .timestamp_millis();
        assert_eq!(ours, chronos, "millis of {y}-{m}-{d} {h}:{min}");
    }
}

#[test]
fn datetime_from_millis_inverts_epoch_millis() {
    let samples = [
        dt(1970, 1, 1, 0, 0),
        dt(2024, 5, 5, 4, 5),
        dt(2000, 2, 29, 12, 34),
        (dt(9999, 12, 31, 23, 59)),
    ];
    for d in samples {
        let ms = epoch_millis_of(&d);
        assert_eq!(datetime_from_millis(ms), Some(d));
        // a timestamp inside the same minute lands on the same instant
        assert_eq!(datetime_from_millis(ms + 59_999), Some(d));
    }
    assert_eq!(datetime_from_millis(-1), None);
}

#[test]
fn chrono_parses_our_display_format() {
    let d = dt(2024, 5, 5, 4, 5);
    let text = d.to_display_string();
    let parsed = Utc
        .datetime_from_str(&text, "%Y-%m-%d %H:%M:%S UTC")
        .unwrap();
    assert_eq!(parsed.hour(), 4);
    assert_eq!(parsed.timestamp_millis(), epoch_millis_of(&d));
}

#[test]
fn hour_advance_lands_on_the_hour() {
    // advancing past a non-matching hour zeroes the minutes, so an earlier
    // minute of the next hour is still found
    let start = dt(2024, 5, 1, 4, 45);
    let date = get_next_run_from(&start, "10 5 * * *").unwrap();
    assert_eq!(date, dt(2024, 5, 1, 5, 10));
}

#[test]
fn day_of_week_seven_means_day_zero() {
    let start = dt(2024, 5, 1, 0, 0);
    let with_zero = get_next_run_from(&start, "0 0 * * 0").unwrap();
    let with_seven = get_next_run_from(&start, "0 0 * * 7").unwrap();
    assert_eq!(with_zero, dt(2024, 5, 6, 0, 0));
    assert_eq!(with_seven, with_zero);
}
