use chrono::{TimeZone, Utc};
use chronographer::calendar::{epoch_distance, unix_parts};
use chronographer::cron_schedule::TaskScheduleCron;

fn at(y: i32, mo: u32, d: u32, h: u32, mi: u32, s: u32) -> i64 {
    Utc.with_ymd_and_hms(y, mo, d, h, mi, s).unwrap().timestamp()
}

fn cron(expr: &str) -> TaskScheduleCron {
    TaskScheduleCron::from_str(expr).unwrap()
}

fn next(c: &TaskScheduleCron, now: i64) -> i64 {
    c.next_time_from(now, 0).unwrap().0
}

#[test]
fn test_cron_every_second() {
    let c = cron("* * * * * *");
    let now = at(2026, 3, 14, 12, 0, 0);
    assert_eq!(next(&c, now), at(2026, 3, 14, 12, 0, 1));
}

#[test]
fn test_cron_specific_noon() {
    let c = cron("0 0 12 * * *");
    let now = at(2026, 3, 14, 10, 0, 0);
    assert_eq!(next(&c, now), at(2026, 3, 14, 12, 0, 0));

    let now2 = at(2026, 3, 14, 13, 0, 0);
    assert_eq!(next(&c, now2), at(2026, 3, 15, 12, 0, 0));
}

#[test]
fn test_cron_steps() {
    let c = cron("*/15 * * * * *");
    let now = at(2026, 3, 14, 12, 0, 0);
    assert_eq!(next(&c, now), at(2026, 3, 14, 12, 0, 15));

    let now2 = at(2026, 3, 14, 12, 0, 45);
    assert_eq!(next(&c, now2), at(2026, 3, 14, 12, 1, 0));
}

#[test]
fn test_cron_list() {
    let c = cron("0 0 9,12,15 * * *");
    let now = at(2026, 3, 14, 10, 0, 0);
    assert_eq!(next(&c, now), at(2026, 3, 14, 12, 0, 0));
}

#[test]
fn test_cron_dow_named() {
    // MON-FRI at 9am; Mar 14, 2026 is a Saturday and Mar 16 the next Monday.
    let c = cron("0 0 9 * * MON-FRI");
    let now = at(2026, 3, 14, 8, 0, 0);
    assert_eq!(next(&c, now), at(2026, 3, 16, 9, 0, 0));
}

#[test]
fn test_cron_last_day_of_month() {
    let c = cron("0 0 0 L * ?");
    let now = at(2026, 2, 28, 0, 0, 0);
    assert_eq!(next(&c, now), at(2026, 3, 31, 0, 0, 0));

    let now2 = at(2026, 2, 27, 0, 0, 0);
    assert_eq!(next(&c, now2), at(2026, 2, 28, 0, 0, 0));
}

#[test]
fn test_cron_weekday_nearest() {
    // Mar 15, 2026 is a Sunday: the nearest weekday is Monday the 16th.
    let c = cron("0 0 0 15W * ?");
    let now = at(2026, 3, 1, 0, 0, 0);
    assert_eq!(next(&c, now), at(2026, 3, 16, 0, 0, 0));
}

#[test]
fn test_cron_nth_weekday() {
    // Third Friday of the month: Mar 6, 13, 20 are the Fridays of March 2026.
    let c = cron("0 0 0 ? * 6#3");
    let now = at(2026, 3, 1, 0, 0, 0);
    assert_eq!(next(&c, now), at(2026, 3, 20, 0, 0, 0));
}

#[test]
fn unix_parts_round_down_before_the_epoch() {
    assert_eq!(unix_parts(false, 5, 250), Some((5, 250)));
    assert_eq!(unix_parts(true, 5, 250), Some((-6, 999_999_750)));
    assert_eq!(unix_parts(true, 5, 0), Some((-5, 0)));
    assert_eq!(unix_parts(false, u64::MAX, 0), None);
    assert_eq!(epoch_distance(-6, 999_999_750), (true, 5, 250));
    assert_eq!(epoch_distance(7, 1), (false, 7, 1));
    assert_eq!(epoch_distance(-5, 0), (true, 5, 0));
}
