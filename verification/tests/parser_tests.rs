use job_scheduler::errors::CronError;
use job_scheduler::parser::{parse, parse_field, parse_range, parse_repeat, parse_sequence};

#[test]
fn simple_sequence() {
    let result = parse_sequence("0,2").unwrap();
    assert_eq!(result, vec![0, 2]);
}

#[test]
fn sequence_with_range() {
    let result = parse_sequence("2-20").unwrap();
    assert_eq!(
        result,
        vec![2, 3, 4, 5, 6, 7, 8, 9, 10, 11, 12, 13, 14, 15, 16, 17, 18, 19, 20]
    );
}

#[test]
fn sequence_with_repeat_and_range() {
    let result = parse_sequence("0-20/2").unwrap();
    assert_eq!(result, vec![0, 2, 4, 6, 8, 10, 12, 14, 16, 18, 20]);
}

#[test]
fn cron_with_repeat_and_star() {
    let result = parse("23 0-20/2 * * *").unwrap();
    assert_eq!(result.minute.values, vec![23]);
    assert_eq!(result.hour.values, vec![0, 2, 4, 6, 8, 10, 12, 14, 16, 18, 20]);
    assert_eq!(
        result.day_of_month.values,
        vec![
            1, 2, 3, 4, 5, 6, 7, 8, 9, 10, 11, 12, 13, 14, 15, 16, 17, 18, 19, 20, 21, 22, 23,
            24, 25, 26, 27, 28, 29, 30, 31
        ]
    );
    assert_eq!(result.month.values, vec![1, 2, 3, 4, 5, 6, 7, 8, 9, 10, 11, 12]);
    assert_eq!(result.day_of_week.values, vec![0, 1, 2, 3, 4, 5, 6, 7]);
}

#[test]
fn stepped_range_field() {
    let f = parse_field("0-20/2", 0, 59).unwrap();
    assert_eq!(f.values, vec![0, 2, 4, 6, 8, 10, 12, 14, 16, 18, 20]);
}

#[test]
fn wildcard_field_expands_to_full_range() {
    let f = parse_field("*", 1, 12).unwrap();
    assert_eq!(f.values, vec![1, 2, 3, 4, 5, 6, 7, 8, 9, 10, 11, 12]);
}

#[test]
fn question_mark_is_a_wildcard() {
    let f = parse_field("?", 0, 23).unwrap();
    assert_eq!(f.values.len(), 24);
    assert_eq!(f.values[0], 0);
    assert_eq!(f.values[23], 23);
}

#[test]
fn field_is_sorted_and_deduplicated() {
    let f = parse_field("30,10,20,10", 0, 59).unwrap();
    assert_eq!(f.values, vec![10, 20, 30]);
}

#[test]
fn stepped_wildcard() {
    let f = parse_field("*/15", 0, 59).unwrap();
    assert_eq!(f.values, vec![0, 15, 30, 45]);
}

#[test]
fn out_of_range_value_is_reported() {
    assert_eq!(parse_field("99", 0, 59), Err(CronError::ValueOutOfRange));
    assert_eq!(parse_field("5,99", 0, 59), Err(CronError::ValueOutOfRange));
}

#[test]
fn malformed_fields_are_reported() {
    assert_eq!(parse_field("abc", 0, 59), Err(CronError::InvalidFieldSyntax));
    assert_eq!(parse_field("5-1", 0, 59), Err(CronError::InvalidFieldSyntax));
    assert_eq!(parse_field("1//2", 0, 59), Err(CronError::InvalidFieldSyntax));
    assert_eq!(parse_field("1/0", 0, 59), Err(CronError::InvalidFieldSyntax));
    assert_eq!(parse_field("", 0, 59), Err(CronError::InvalidFieldSyntax));
    assert_eq!(parse_field("1,", 0, 59), Err(CronError::InvalidFieldSyntax));
}

#[test]
fn schedule_needs_exactly_five_fields() {
    assert_eq!(parse("* * * *"), Err(CronError::InvalidFieldSyntax));
    assert_eq!(parse("* * * * * *"), Err(CronError::InvalidFieldSyntax));
    assert_eq!(parse(""), Err(CronError::InvalidFieldSyntax));
}

#[test]
fn range_respects_interval() {
    assert_eq!(parse_range("2-11", 3).unwrap(), vec![2, 5, 8, 11]);
    assert_eq!(parse_range("7", 1).unwrap(), vec![7]);
    assert_eq!(parse_range("2-11", 0), Err(CronError::InvalidFieldSyntax));
}

#[test]
fn repeat_splits_off_the_step() {
    assert_eq!(parse_repeat("3-9/3").unwrap(), vec![3, 6, 9]);
    assert_eq!(parse_repeat("4").unwrap(), vec![4]);
    assert_eq!(parse_repeat("4/5/6"), Err(CronError::InvalidFieldSyntax));
}
