use vstd::prelude::*;

verus! {

/// The first Unix timestamp the calendar can represent (`-9999-01-01 00:00:00 UTC`).
pub const MIN_UNIX_TIMESTAMP: i64 = -377705116800i64;

/// The last Unix timestamp the calendar can represent (`9999-12-31 23:59:59 UTC`).
pub const MAX_UNIX_TIMESTAMP: i64 = 253402300799i64;

/// A UTC date and time of day, to the second, in the proleptic Gregorian calendar.
#[derive(Clone, Copy, Debug, PartialEq, Eq, Structural)]
pub struct DateTimeFields {
    pub year: i32,
    pub month: u8,
    pub day: u8,
    pub hour: u8,
    pub minute: u8,
    pub second: u8,
}

/// Gregorian leap year rule (astronomical year numbering).
pub open spec fn is_leap_year(year: int) -> bool {
    (year % 4 == 0 && year % 100 != 0) || year % 400 == 0
}

/// Number of days in a month of a year.
pub open spec fn days_in_month(year: int, month: int) -> int {
    if month == 2 {
        if is_leap_year(year) { 29 } else { 28 }
    } else if month == 4 || month == 6 || month == 9 || month == 11 {
        30
    } else {
        31
    }
}

/// A calendar date that the calendar can represent.
pub open spec fn valid_date(year: int, month: int, day: int) -> bool {
    &&& -9999 <= year <= 9999
    &&& 1 <= month <= 12
    &&& 1 <= day <= days_in_month(year, month)
}

/// The calendar date that follows a valid date, if it can be represented.
pub open spec fn date_after(year: int, month: int, day: int) -> Option<(int, int, int)> {
    if day < days_in_month(year, month) {
        Some((year, month, day + 1))
    } else if month < 12 {
        Some((year, month + 1, 1))
    } else if year < 9999 {
        Some((year + 1, 1, 1))
    } else {
        None
    }
}

/// Days from `1970-01-01` to a date of the proleptic Gregorian calendar (negative before it):
/// the year is counted from March, so that the leap day ends it, and split into 400-year eras of
/// 146097 days.
pub open spec fn days_from_civil(year: int, month: int, day: int) -> int {
    let y = if month <= 2 { year - 1 } else { year };
    let era = y / 400;
    let year_of_era = y - era * 400;
    let month_from_march = if month > 2 { month - 3 } else { month + 9 };
    let day_of_year = (153 * month_from_march + 2) / 5 + day - 1;
    let day_of_era = year_of_era * 365 + year_of_era / 4 - year_of_era / 100 + day_of_year;
    era * 146097 + day_of_era - 719468
}

/// Day of the week of a date, counted from Sunday (`0`) to Saturday (`6`); `1970-01-01` was a
/// Thursday.
pub open spec fn weekday_from_sunday_of(year: int, month: int, day: int) -> int {
    (days_from_civil(year, month, day) + 4) % 7
}

/// Unix timestamp of calendar fields `(year, month, day, hour, minute, second)`.
pub open spec fn unix_of_utc_fields(
    year: int,
    month: int,
    day: int,
    hour: int,
    minute: int,
    second: int,
) -> int {
    days_from_civil(year, month, day) * 86400 + hour * 3600 + minute * 60 + second
}

/// Days from `1970-01-01` to the first of March of `y`, counted in years that start in March.
pub open spec fn march_year_start(y: int) -> int {
    365 * y + y / 4 - y / 100 + y / 400 - 719468
}

/// Days from the first of March to the first of the month `month_from_march` months later.
pub open spec fn days_before_month(month_from_march: int) -> int {
    (153 * month_from_march + 2) / 5
}

proof fn lemma_era_split(y: int)
    ensures
        ({
            let era = y / 400;
            let yoe = y - era * 400;
            &&& 0 <= yoe < 400
            &&& era * 146097 + yoe * 365 + yoe / 4 - yoe / 100 == 365 * y + y / 4 - y / 100 + y
                / 400
        }),
{
    let era = y / 400;
    let yoe = y - era * 400;
    assert(0 <= yoe < 400 && y == era * 400 + yoe) by (nonlinear_arith)
        requires
            era == y / 400,
            yoe == y - era * 400,
    ;
    assert(y / 4 == era * 100 + yoe / 4) by (nonlinear_arith)
        requires
            y == era * 400 + yoe,
            0 <= yoe < 400,
    ;
    assert(y / 100 == era * 4 + yoe / 100) by (nonlinear_arith)
        requires
            y == era * 400 + yoe,
            0 <= yoe < 400,
    ;
}

/// The day count of a date: the start of its March-based year, the months before it in that
/// year, and its day.
proof fn lemma_days_split(year: int, month: int, day: int)
    ensures
        ({
            let y = if month <= 2 { year - 1 } else { year };
            let mp = if month > 2 { month - 3 } else { month + 9 };
            days_from_civil(year, month, day) == march_year_start(y) + days_before_month(mp) + day
                - 1
        }),
{
    let y = if month <= 2 { year - 1 } else { year };
    lemma_era_split(y);
}

/// A March-based year has 366 days when the February that ends it is a leap one, else 365.
proof fn lemma_march_year_length(y: int)
    ensures
        march_year_start(y + 1) - march_year_start(y) == if is_leap_year(y + 1) { 366int } else {
            365int
        },
{
    assert((y + 1) / 4 - y / 4 == if (y + 1) % 4 == 0 { 1int } else { 0int }) by (nonlinear_arith);
    assert((y + 1) / 100 - y / 100 == if (y + 1) % 100 == 0 { 1int } else { 0int }) by (
    nonlinear_arith);
    assert((y + 1) / 400 - y / 400 == if (y + 1) % 400 == 0 { 1int } else { 0int }) by (
    nonlinear_arith);
    assert((y + 1) % 100 == 0 ==> (y + 1) % 4 == 0) by (nonlinear_arith);
    assert((y + 1) % 400 == 0 ==> (y + 1) % 100 == 0) by (nonlinear_arith);
}

proof fn lemma_march_years_increase(a: int, b: int)
    requires
        a < b,
    ensures
        march_year_start(a + 1) <= march_year_start(b),
    decreases b - a,
{
    if a + 1 < b {
        lemma_march_years_increase(a, b - 1);
        lemma_march_year_length(b - 1);
    }
}

/// The months of a March-based year: each starts where the one before it ends, and the
/// last one, February, ends with the year.
proof fn lemma_month_starts(mp: int)
    requires
        0 <= mp < 12,
    ensures
        mp < 11 ==> days_before_month(mp) + days_in_month(
            if mp < 10 { 2000 } else { 2001 },
            if mp < 10 { mp + 3 } else { mp - 9 },
        ) == days_before_month(mp + 1),
        days_before_month(mp) <= 337,
        days_before_month(11) == 337,
{
    assert(days_before_month(0) == 0);
    assert(days_before_month(1) == 31);
    assert(days_before_month(2) == 61);
    assert(days_before_month(3) == 92);
    assert(days_before_month(4) == 122);
    assert(days_before_month(5) == 153);
    assert(days_before_month(6) == 184);
    assert(days_before_month(7) == 214);
    assert(days_before_month(8) == 245);
    assert(days_before_month(9) == 275);
    assert(days_before_month(10) == 306);
    assert(days_before_month(11) == 337);
}

/// The day count grows with the date.
pub proof fn lemma_days_increase(y1: int, m1: int, d1: int, y2: int, m2: int, d2: int)
    requires
        valid_date(y1, m1, d1),
        valid_date(y2, m2, d2),
        y1 < y2 || (y1 == y2 && m1 < m2) || (y1 == y2 && m1 == m2 && d1 < d2),
    ensures
        days_from_civil(y1, m1, d1) < days_from_civil(y2, m2, d2),
{
    lemma_days_split(y1, m1, d1);
    lemma_days_split(y2, m2, d2);
    let a = if m1 <= 2 { y1 - 1 } else { y1 };
    let b = if m2 <= 2 { y2 - 1 } else { y2 };
    let p = if m1 > 2 { m1 - 3 } else { m1 + 9 };
    let q = if m2 > 2 { m2 - 3 } else { m2 + 9 };
    lemma_month_starts(p);
    lemma_month_starts(q);
    // The day lies within its month, and the month within its March-based year.
    assert(days_before_month(p) + d1 - 1 < march_year_start(a + 1) - march_year_start(a)) by {
        lemma_march_year_length(a);
        if p < 11 {
            assert(days_in_month(y1, m1) == days_in_month(
                if p < 10 { 2000int } else { 2001int },
                if p < 10 { p + 3 } else { p - 9 },
            ));
            lemma_months_before(p + 1);
        } else {
            assert(y1 == a + 1);
        }
    }
    if a < b {
        lemma_march_years_increase(a, b);
    } else {
        assert(a == b && p <= q);
        if p < q {
            assert(days_in_month(y1, m1) == days_in_month(
                if p < 10 { 2000int } else { 2001int },
                if p < 10 { p + 3 } else { p - 9 },
            ));
            lemma_months_before_increase(p + 1, q);
        }
    }
}

proof fn lemma_months_before(mp: int)
    requires
        0 < mp <= 11,
    ensures
        days_before_month(mp) <= 337,
{
    lemma_month_starts(mp);
}

proof fn lemma_months_before_increase(p: int, q: int)
    requires
        0 <= p <= q < 12,
    ensures
        days_before_month(p) <= days_before_month(q),
    decreases q - p,
{
    if p < q {
        lemma_months_before_increase(p, q - 1);
        lemma_month_starts(q - 1);
    }
}

/// Earlier valid fields have a smaller Unix timestamp.
pub proof fn lemma_unix_increases(g: DateTimeFields, f: DateTimeFields)
    requires
        g.wf(),
        f.wf(),
        g.before(f),
    ensures
        unix_of_utc_fields(
            g.year as int,
            g.month as int,
            g.day as int,
            g.hour as int,
            g.minute as int,
            g.second as int,
        ) < unix_of_utc_fields(
            f.year as int,
            f.month as int,
            f.day as int,
            f.hour as int,
            f.minute as int,
            f.second as int,
        ),
{
    if !g.same_date(f) {
        lemma_days_increase(
            g.year as int,
            g.month as int,
            g.day as int,
            f.year as int,
            f.month as int,
            f.day as int,
        );
    }
}

/// Within a month, the day count moves with the day: `day2 - day` days lie between two dates of
/// the same month.
pub proof fn lemma_days_within_month(year: int, month: int, day: int, day2: int)
    ensures
        days_from_civil(year, month, day2) - days_from_civil(year, month, day) == day2 - day,
{
    lemma_days_split(year, month, day);
    lemma_days_split(year, month, day2);
}

/// The day count starts at `1970-01-01` and counts the days of a month one by one from its
/// first: with the month lengths (see `law_month_lengths`) this fixes the count of every date.
pub proof fn law_day_count_start(year: int, month: int, day: int)
    ensures
        days_from_civil(1970, 1, 1) == 0,
        days_from_civil(year, month, day) == days_from_civil(year, month, 1) + day - 1,
        weekday_from_sunday_of(1970, 1, 1) == 4,
{
    lemma_days_within_month(year, month, 1, day);
}

/// The length of each month is the number of days from its first day to the first day of the
/// month after it.
pub proof fn law_month_lengths(year: int, month: int)
    requires
        1 <= month <= 12,
    ensures
        days_in_month(year, month) == (if month < 12 {
            days_from_civil(year, month + 1, 1)
        } else {
            days_from_civil(year + 1, 1, 1)
        }) - days_from_civil(year, month, 1),
{
    lemma_days_split(year, month, 1);
    if month < 12 {
        lemma_days_split(year, month + 1, 1);
    } else {
        lemma_days_split(year + 1, 1, 1);
    }
    let p = if month > 2 { month - 3 } else { month + 9 };
    lemma_month_starts(p);
    if month == 2 {
        lemma_march_year_length(year - 1);
    } else if month < 12 {
        assert(days_in_month(year, month) == days_in_month(
            if p < 10 { 2000int } else { 2001int },
            if p < 10 { p + 3 } else { p - 9 },
        ));
    }
}

impl DateTimeFields {
    /// A representable date with a valid time of day.
    pub open spec fn wf(self) -> bool {
        &&& valid_date(self.year as int, self.month as int, self.day as int)
        &&& self.hour < 24
        &&& self.minute < 60
        &&& self.second < 60
    }

    /// Chronological order: `self` comes strictly before `other`.
    pub open spec fn before(self, other: DateTimeFields) -> bool {
        ||| self.year < other.year
        ||| self.year == other.year && self.month < other.month
        ||| self.year == other.year && self.month == other.month && self.day < other.day
        ||| self.year == other.year && self.month == other.month && self.day == other.day
            && self.hour < other.hour
        ||| self.year == other.year && self.month == other.month && self.day == other.day
            && self.hour == other.hour && self.minute < other.minute
        ||| self.year == other.year && self.month == other.month && self.day == other.day
            && self.hour == other.hour && self.minute == other.minute && self.second
            < other.second
    }

    pub open spec fn same_date(self, other: DateTimeFields) -> bool {
        self.year == other.year && self.month == other.month && self.day == other.day
    }
}

/// Number of days in a month, from `time::util::days_in_month`.
///
/// Trusted: the contract states that `time` follows the Gregorian leap year rule.
#[verifier::external_body]
pub(crate) fn month_length(year: i32, month: u8) -> (r: u8)
    requires
        -9999 <= year <= 9999,
        1 <= month <= 12,
    ensures
        r as int == days_in_month(year as int, month as int),
{
    match time::Month::try_from(month) {
        Ok(m) => time::util::days_in_month(m, year),
        Err(_) => 0,
    }
}

/// Day of the week counted from Sunday, from `time::Date::weekday` and
/// `time::Weekday::number_days_from_sunday` on the date built by
/// `time::Date::from_calendar_date`.
///
/// Trusted: the contract states that the result is the weekday that the day count from
/// `1970-01-01` gives.
#[verifier::external_body]
pub(crate) fn weekday_from_sunday(year: i32, month: u8, day: u8) -> (r: u8)
    requires
        valid_date(year as int, month as int, day as int),
    ensures
        r as int == weekday_from_sunday_of(year as int, month as int, day as int),
{
    match time::Month::try_from(month) {
        Ok(m) => match time::Date::from_calendar_date(year, m, day) {
            Ok(date) => date.weekday().number_days_from_sunday(),
            Err(_) => 0,
        },
        Err(_) => 0,
    }
}

/// The following calendar date, from `time::Date::next_day` on the date built by
/// `time::Date::from_calendar_date`.
///
/// Trusted: the contract states the successor rule that the documentation of `next_day`
/// shows (the next day of the month, else the first of the next month or year, and `None`
/// after the last representable date).
#[verifier::external_body]
pub(crate) fn following_date(year: i32, month: u8, day: u8) -> (r: Option<(i32, u8, u8)>)
    requires
        valid_date(year as int, month as int, day as int),
    ensures
        match r {
            Some((y, m, d)) => date_after(year as int, month as int, day as int) == Some(
                (y as int, m as int, d as int),
            ),
            None => date_after(year as int, month as int, day as int) is None,
        },
{
    match time::Month::try_from(month) {
        Ok(m) => match time::Date::from_calendar_date(year, m, day) {
            Ok(date) => match date.next_day() {
                Some(next) => Some((next.year(), u8::from(next.month()), next.day())),
                None => None,
            },
            Err(_) => None,
        },
        Err(_) => None,
    }
}

/// Calendar fields of a Unix timestamp, from `time::UtcDateTime::from_unix_timestamp`.
///
/// Trusted: the contract states that the timestamp is accepted exactly within the representable
/// range, and that the fields form a valid date and time whose timestamp is the given one.
#[verifier::external_body]
pub(crate) fn fields_from_unix(timestamp: i64) -> (r: Option<DateTimeFields>)
    ensures
        r is Some <==> MIN_UNIX_TIMESTAMP <= timestamp <= MAX_UNIX_TIMESTAMP,
        r matches Some(f) ==> f.wf(),
        r matches Some(f) ==> unix_of_utc_fields(
            f.year as int,
            f.month as int,
            f.day as int,
            f.hour as int,
            f.minute as int,
            f.second as int,
        ) == timestamp,
{
    match time::UtcDateTime::from_unix_timestamp(timestamp) {
        Ok(dt) => Some(
            DateTimeFields {
                year: dt.year(),
                month: u8::from(dt.month()),
                day: dt.day(),
                hour: dt.hour(),
                minute: dt.minute(),
                second: dt.second(),
            },
        ),
        Err(_) => None,
    }
}

/// Unix timestamp of valid calendar fields, from `time::UtcDateTime::unix_timestamp` on the
/// value built by `time::UtcDateTime::new` from `time::Date::from_calendar_date` and
/// `time::Time::from_hms`.
///
/// Trusted: the contract states that the result is the timestamp that the day count from
/// `1970-01-01` and the time of day give.
#[verifier::external_body]
pub(crate) fn unix_from_fields(f: DateTimeFields) -> (r: i64)
    requires
        f.wf(),
    ensures
        r as int == unix_of_utc_fields(
            f.year as int,
            f.month as int,
            f.day as int,
            f.hour as int,
            f.minute as int,
            f.second as int,
        ),
{
    let date = match time::Month::try_from(f.month) {
        Ok(m) => time::Date::from_calendar_date(f.year, m, f.day),
        Err(e) => Err(e),
    };
    let time_of_day = time::Time::from_hms(f.hour, f.minute, f.second);
    match (date, time_of_day) {
        (Ok(d), Ok(t)) => time::UtcDateTime::new(d, t).unix_timestamp(),
        _ => 0,
    }
}

/// Nanoseconds from the Unix epoch to a time `secs` seconds and `nanos` nanoseconds after it, or
/// before it.
pub open spec fn signed_nanos(before_epoch: bool, secs: int, nanos: int) -> int {
    if before_epoch {
        -(secs * 1_000_000_000 + nanos)
    } else {
        secs * 1_000_000_000 + nanos
    }
}

/// A time `secs` seconds and `nanos` nanoseconds after (or before) the Unix epoch as Unix
/// seconds, rounded down, and the nanoseconds past them; none when the seconds do not fit an
/// `i64`.
pub fn unix_parts(before_epoch: bool, secs: u64, nanos: u32) -> (r: Option<(i64, u32)>)
    requires
        nanos < 1_000_000_000,
    ensures
        match r {
            Some((s, n)) => n < 1_000_000_000 && s * 1_000_000_000 + n == signed_nanos(
                before_epoch,
                secs as int,
                nanos as int,
            ),
            None => if before_epoch {
                secs + (if nanos > 0 { 1int } else { 0 }) > i64::MAX + 1
            } else {
                secs > i64::MAX
            },
        },
{
    if !before_epoch {
        if secs > i64::MAX as u64 {
            return None;
        }
        Some((secs as i64, nanos))
    } else if nanos == 0 {
        if secs > i64::MAX as u64 + 1 {
            return None;
        }
        if secs == i64::MAX as u64 + 1 {
            Some((i64::MIN, 0))
        } else {
            Some((-(secs as i64), 0))
        }
    } else {
        if secs > i64::MAX as u64 {
            return None;
        }
        Some((-(secs as i64) - 1, 1_000_000_000 - nanos))
    }
}

/// Unix seconds `secs` and nanoseconds `nanos` past them as a distance from the epoch: whether
/// the time lies before it, and the seconds and nanoseconds of the distance.
pub fn epoch_distance(secs: i64, nanos: u32) -> (r: (bool, u64, u32))
    requires
        nanos < 1_000_000_000,
    ensures
        r.2 < 1_000_000_000,
        signed_nanos(r.0, r.1 as int, r.2 as int) == secs * 1_000_000_000 + nanos,
{
    if secs >= 0 {
        (false, secs as u64, nanos)
    } else if nanos == 0 {
        (true, (-(secs as i128)) as u64, 0)
    } else {
        (true, (-(secs as i128) - 1) as u64, 1_000_000_000 - nanos)
    }
}

} // verus!
