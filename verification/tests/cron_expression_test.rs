use chrono::{TimeZone, Utc};
use chronographer::calendar::{MAX_UNIX_TIMESTAMP, MIN_UNIX_TIMESTAMP};
use chronographer::cron_field::CronField;
use chronographer::cron_lexer::CronExpressionLexerErrors;
use chronographer::cron_parser::CronExpressionParserErrors;
use chronographer::cron_schedule::TaskScheduleCron;
use chronographer::errors::{CronError, CronErrorTypes};

fn at(y: i32, mo: u32, d: u32, h: u32, mi: u32, s: u32) -> i64 {
    Utc.with_ymd_and_hms(y, mo, d, h, mi, s).unwrap().timestamp()
}

fn parse_error(expr: &str) -> CronError {
    match TaskScheduleCron::from_str(expr) {
        Ok(c) => panic!("unexpectedly accepted: {}", c.to_string()),
        Err(e) => e,
    }
}

fn lexer(field_pos: usize, position: usize, e: CronExpressionLexerErrors) -> CronError {
    CronError { field_pos, position, error_type: CronErrorTypes::Lexer(e) }
}

fn parser(field_pos: usize, position: usize, e: CronExpressionParserErrors) -> CronError {
    CronError { field_pos, position, error_type: CronErrorTypes::Parser(e) }
}

#[test]
fn calendar_bounds_are_the_representable_years() {
    assert_eq!(MIN_UNIX_TIMESTAMP, at(-9999, 1, 1, 0, 0, 0));
    assert_eq!(MAX_UNIX_TIMESTAMP, at(9999, 12, 31, 23, 59, 59));
}

#[test]
fn lexer_errors_name_field_and_position() {
    assert_eq!(parse_error("@ * * * * *"), lexer(0, 0, CronExpressionLexerErrors::UnknownCharacter));
    assert_eq!(parse_error("* * *"), lexer(2, 4, CronExpressionLexerErrors::UnknownFieldFormat));
    assert_eq!(
        parse_error("* * * * * * *"),
        lexer(5, 11, CronExpressionLexerErrors::UnknownFieldFormat)
    );
    assert_eq!(parse_error("*  * * * *"), lexer(1, 2, CronExpressionLexerErrors::EmptyField));
}

#[test]
fn parser_errors_name_field_and_token() {
    assert_eq!(parse_error("1- * * * * *"), parser(0, 1, CronExpressionParserErrors::ExpectedNumber));
    assert_eq!(
        parse_error("1,,2 * * * * *"),
        parser(0, 2, CronExpressionParserErrors::UnexpectedToken)
    );
}

#[test]
fn checks_reject_values_out_of_their_field() {
    assert_eq!(
        parse_error("60 * * * * *"),
        parser(0, 1, CronExpressionParserErrors::ValueOutOfRange { value: 60, field: "seconds", min: 0, max: 59 })
    );
    assert_eq!(
        parse_error("5-3 * * * * *"),
        parser(
            0,
            0,
            CronExpressionParserErrors::InvalidRange { start: 5, end: 3, field: "seconds", min: 0, max: 59 }
        )
    );
    assert_eq!(
        parse_error("*/0 * * * * ?"),
        parser(0, 0, CronExpressionParserErrors::InvalidStepValue { step: 0 })
    );
    assert_eq!(parse_error("L * * * * *"), parser(0, 0, CronExpressionParserErrors::InvalidLastOperator));
    assert_eq!(
        parse_error("0 0 0 * * 6#6"),
        parser(5, 10, CronExpressionParserErrors::InvalidNthWeekday { nth: 6 })
    );
}

#[test]
fn both_day_fields_unspecified_is_an_error() {
    assert_eq!(
        parse_error("0 0 0 ? * ?"),
        parser(3, 6, CronExpressionParserErrors::InvalidUnspecifiedField {
            field: "day_of_month and day_of_week cannot both be unspecified"
        })
    );
}

#[test]
fn parsed_expressions_are_written_back() {
    let text = |e: &str| TaskScheduleCron::from_str(e).unwrap().to_string();
    assert_eq!(text("0 0 9,12,15 * * *"), "0 0 [9, 12, 15] * * * *");
    assert_eq!(text("*/15 * * * * *"), "*-15 * * * * * *");
    assert_eq!(text("0 0 0 L-3 * ?"), "0 0 0 L--3 * ? *");
    assert_eq!(text("0 0 0 ? * 6L"), "0 0 0 ? * 6L *");
    assert_eq!(text("0 0 0 15W * ?"), "0 0 0 15W * ? *");
    assert_eq!(text("0 0 0 LW * ?"), "0 0 0 0W * ? *");
    assert_eq!(text("0 0 0 ? * 6#3"), "0 0 0 ? * 6#3 *");
    assert_eq!(text("0 0 9 * JAN-MAR MON"), "0 0 9 * 1-3 2 *");
    assert_eq!(text("0 12 * * *"), "0 12 * * * * *");
}

#[test]
fn fields_are_given_in_order() {
    let c = TaskScheduleCron::from_str("1 2 3 4 5 ?").unwrap();
    let f = c.fields();
    assert_eq!(*f[0], CronField::Exact(1));
    assert_eq!(*f[1], CronField::Exact(2));
    assert_eq!(*f[2], CronField::Exact(3));
    assert_eq!(*f[3], CronField::Exact(4));
    assert_eq!(*f[4], CronField::Exact(5));
    assert_eq!(*f[5], CronField::Unspecified);
    assert_eq!(*f[6], CronField::Wildcard);
    assert_eq!(*c.year(), CronField::Wildcard);
}

#[test]
fn schedule_built_from_fields() {
    let c = TaskScheduleCron::new([
        CronField::Exact(30),
        CronField::Wildcard,
        CronField::Wildcard,
        CronField::Wildcard,
        CronField::Wildcard,
        CronField::Unspecified,
        CronField::Wildcard,
    ]);
    let now = at(2026, 5, 1, 8, 0, 40);
    assert_eq!(c.next_time_from(now, 0), Some((at(2026, 5, 1, 8, 1, 30), 0)));
}

#[test]
fn a_schedule_that_never_fires_gives_none() {
    let c = TaskScheduleCron::from_str("0 0 0 30 2 ?").unwrap();
    assert_eq!(c.next_time_from(at(2026, 1, 1, 0, 0, 0), 0), None);
}

#[test]
fn the_sub_second_part_is_kept_only_when_firing_right_away() {
    let every = TaskScheduleCron::from_str("* * * * * *").unwrap();
    let now = at(2026, 3, 14, 12, 0, 0);
    assert_eq!(every.next_time_from(now, 500), Some((now + 1, 500)));
    let noon = TaskScheduleCron::from_str("0 0 12 * * *").unwrap();
    assert_eq!(noon.next_time_from(now - 7200, 500), Some((now, 0)));
}

#[test]
fn stepped_minutes_roll_over_the_hour() {
    let c = TaskScheduleCron::from_str("0 */20 * * * *").unwrap();
    let now = at(2026, 7, 4, 23, 50, 0);
    assert_eq!(c.next_time_from(now, 0), Some((at(2026, 7, 5, 0, 0, 0), 0)));
}

#[test]
fn last_weekday_of_the_month() {
    // The last Friday (6L) of April 2026 is the 24th.
    let c = TaskScheduleCron::from_str("0 0 0 ? * 6L").unwrap();
    assert_eq!(c.next_time_from(at(2026, 4, 1, 0, 0, 0), 0), Some((at(2026, 4, 24, 0, 0, 0), 0)));
}

#[test]
fn field_search_and_matching() {
    let step = CronField::Step(Box::new(CronField::Exact(5)), 10);
    assert!(step.matches(25));
    assert!(!step.matches(26));
    assert_eq!(step.next_valid(26, 59), Some(35));
    assert_eq!(step.next_valid(56, 59), None);
    let list = CronField::List(vec![CronField::Exact(40), CronField::Range(10, 12)]);
    assert_eq!(list.next_valid(13, 59), Some(40));
    assert_eq!(list.next_valid(11, 59), Some(11));
    assert_eq!(list.min(), 10);
    assert_eq!(list.max(), 40);
}

#[test]
fn a_step_over_a_reversed_range_is_rejected() {
    assert_eq!(
        parse_error("5-3/2 * * * * *"),
        parser(
            0,
            0,
            CronExpressionParserErrors::InvalidRange { start: 5, end: 3, field: "seconds", min: 0, max: 59 }
        )
    );
}

#[test]
fn a_step_base_outside_its_field_is_rejected() {
    assert_eq!(
        parse_error("70/5 * * * * *"),
        parser(0, 1, CronExpressionParserErrors::ValueOutOfRange { value: 70, field: "seconds", min: 0, max: 59 })
    );
}

#[test]
fn numbers_beyond_a_byte_are_out_of_range() {
    assert_eq!(
        parse_error("300 * * * * *"),
        parser(0, 2, CronExpressionParserErrors::ValueOutOfRange { value: 300, field: "seconds", min: 0, max: 59 })
    );
    assert_eq!(
        parse_error("0 0 99999999999 * * *"),
        parser(
            2,
            14,
            CronExpressionParserErrors::ValueOutOfRange { value: 100000, field: "hours", min: 0, max: 23 }
        )
    );
}

#[test]
fn the_empty_expression_has_no_fields() {
    assert_eq!(parse_error(""), lexer(0, 0, CronExpressionLexerErrors::UnknownFieldFormat));
}

#[test]
fn month_and_day_names_are_read() {
    let july = TaskScheduleCron::from_str("* * * * JUL *").unwrap();
    assert_eq!(*july.fields()[4], CronField::Exact(7));
    let weekdays = TaskScheduleCron::from_str("0 15 10 ? * MON-FRI").unwrap();
    let expected = TaskScheduleCron::new([
        CronField::Exact(0),
        CronField::Exact(15),
        CronField::Exact(10),
        CronField::Unspecified,
        CronField::Wildcard,
        CronField::Range(2, 6),
        CronField::Wildcard,
    ]);
    assert_eq!(weekdays, expected);
}

#[test]
fn stepped_ranges_stop_at_their_end() {
    let step = CronField::Step(Box::new(CronField::Range(10, 20)), 5);
    assert!(step.matches(20));
    assert!(!step.matches(25));
    assert_eq!(step.next_valid(21, 59), None);
    let c = TaskScheduleCron::from_str("0 10-20/5 * * * *").unwrap();
    assert_eq!(c.next_time_from(at(2026, 3, 14, 12, 20, 0), 0), Some((at(2026, 3, 14, 13, 10, 0), 0)));
}

#[test]
fn list_items_are_searched_up_to_the_field_end() {
    let list = CronField::List(vec![CronField::Step(Box::new(CronField::Exact(5)), 15), CronField::Exact(30)]);
    assert_eq!(list.next_valid(6, 59), Some(20));
    let c = TaskScheduleCron::from_str("0 5/15,30 * * * *").unwrap();
    assert_eq!(c.next_time_from(at(2026, 3, 14, 12, 6, 0), 0), Some((at(2026, 3, 14, 12, 20, 0), 0)));
}

#[test]
fn a_day_of_month_alone_decides_the_day() {
    let c = TaskScheduleCron::from_str("0 0 0 15 * ?").unwrap();
    assert_eq!(c.next_time_from(at(2026, 3, 14, 0, 0, 0), 0), Some((at(2026, 3, 15, 0, 0, 0), 0)));
    let sundays = TaskScheduleCron::from_str("0 0 0 ? * 1").unwrap();
    assert_eq!(sundays.next_time_from(at(2026, 3, 14, 0, 0, 0), 0), Some((at(2026, 3, 15, 0, 0, 0), 0)));
}

#[test]
fn values_no_field_reaches_never_fire() {
    let c = TaskScheduleCron::new([
        CronField::Exact(1000),
        CronField::Wildcard,
        CronField::Wildcard,
        CronField::Wildcard,
        CronField::Wildcard,
        CronField::Unspecified,
        CronField::Wildcard,
    ]);
    assert_eq!(c.next_time_from(at(2026, 3, 14, 0, 0, 0), 0), None);
}

#[test]
fn times_before_year_zero_are_searched() {
    let every = TaskScheduleCron::from_str("* * * * * *").unwrap();
    let before = at(-5, 3, 14, 12, 0, 0);
    assert_eq!(every.next_time_from(before, 0), Some((before + 1, 0)));
    let new_year = TaskScheduleCron::from_str("0 0 0 1 1 ?").unwrap();
    assert_eq!(new_year.next_time_from(at(-1, 6, 1, 0, 0, 0), 0), Some((at(0, 1, 1, 0, 0, 0), 0)));
    let in_2030 = TaskScheduleCron::new([
        CronField::Exact(0),
        CronField::Exact(0),
        CronField::Exact(0),
        CronField::Wildcard,
        CronField::Wildcard,
        CronField::Unspecified,
        CronField::Exact(2030),
    ]);
    assert_eq!(in_2030.next_time_from(at(-1, 6, 1, 0, 0, 0), 0), Some((at(2030, 1, 1, 0, 0, 0), 0)));
}

#[test]
fn copies_behave_alike() {
    assert_eq!(CronField::default(), CronField::Wildcard);
    let field = CronField::List(vec![CronField::Step(Box::new(CronField::Range(10, 20)), 5), CronField::Exact(30)]);
    assert_eq!(field.clone(), field);
    let c = TaskScheduleCron::from_str("0 5/15,30 9-17 ? JAN-MAR MON-FRI").unwrap();
    let d = c.clone();
    assert_eq!(c, d);
    let now = at(2026, 3, 14, 12, 6, 0);
    assert_eq!(c.next_time_from(now, 0), d.next_time_from(now, 0));
}
