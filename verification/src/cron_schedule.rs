use vstd::prelude::*;

use crate::calendar::{
    date_after, days_from_civil, days_in_month, fields_from_unix, following_date,
    lemma_days_within_month, lemma_unix_increases, month_length, unix_from_fields,
    unix_of_utc_fields, valid_date, weekday_from_sunday, weekday_from_sunday_of, DateTimeFields,
    MAX_UNIX_TIMESTAMP, MIN_UNIX_TIMESTAMP,
};
use crate::cron_parser::{AstNode, AstTreeNode, CronExpressionParserErrors};
use crate::cron_field::{
    lemma_item_smaller, lemma_min_value_lower_bound, lemma_negative_values, lemma_next_valid_beyond,
    lemma_next_valid_least, lemma_next_valid_sound, same_behaviour, CronField,
};

verus! {

/// Last year that the year search of a CRON schedule considers.
pub const LAST_CRON_YEAR: u32 = 2099;

/// Every number written in the field is at most `bound`.
/// Day of the month picked by `dW` (or by `LW` when `target` is `0`): the weekday nearest to
/// the target day within the same month.
pub open spec fn nearest_weekday_day(year: int, month: int, target: int) -> int {
    let dim = days_in_month(year, month);
    let t = if target == 0 { dim } else { target };
    let wd = weekday_from_sunday_of(year, month, t);
    if wd == 6 {
        if t == 1 { 3 } else { t - 1 }
    } else if wd == 0 {
        if t == dim { t - 2 } else { t + 1 }
    } else {
        t
    }
}

/// Whether a day-of-month field accepts a date.
pub open spec fn month_day_accepts(f: CronField, year: int, month: int, day: int) -> bool {
    let dim = days_in_month(year, month);
    match f {
        CronField::Last(None) => day == dim,
        CronField::Last(Some(k)) => k <= 0 && day == dim + k,
        CronField::NearestWeekday(t) => t <= dim && day == nearest_weekday_day(year, month, t as int),
        _ => f.matches_value(day),
    }
}

/// Whether a day-of-week field (Sunday is `1`, Saturday is `7`) accepts a date.
pub open spec fn week_day_accepts(f: CronField, year: int, month: int, day: int) -> bool {
    let dim = days_in_month(year, month);
    let wd = weekday_from_sunday_of(year, month, day) + 1;
    match f {
        CronField::Last(None) => wd == 7,
        CronField::Last(Some(w)) => wd == w && day + 7 > dim,
        CronField::NthWeekday(w, n) => wd == w && (day - 1) / 7 + 1 == n,
        _ => f.matches_value(wd),
    }
}

/// A schedule given by a CRON expression (Quartz syntax): seconds, minutes, hours, day of
/// month, month, day of week and year.
#[derive(Debug, PartialEq, Eq)]
pub struct TaskScheduleCron {
    seconds: CronField,
    minute: CronField,
    hour: CronField,
    day_of_month: CronField,
    month: CronField,
    day_of_week: CronField,
    year: CronField,
}

impl TaskScheduleCron {
    pub closed spec fn seconds_field(self) -> CronField {
        self.seconds
    }

    pub closed spec fn minute_field(self) -> CronField {
        self.minute
    }

    pub closed spec fn hour_field(self) -> CronField {
        self.hour
    }

    pub closed spec fn day_of_month_field(self) -> CronField {
        self.day_of_month
    }

    pub closed spec fn month_field(self) -> CronField {
        self.month
    }

    pub closed spec fn day_of_week_field(self) -> CronField {
        self.day_of_week
    }

    pub closed spec fn year_field(self) -> CronField {
        self.year
    }

    /// The day fields accept a date: when one of the two day fields is `?`, the other decides;
    /// otherwise both must accept it.
    pub open spec fn day_accepts(self, year: int, month: int, day: int) -> bool {
        let dom = self.day_of_month_field();
        let dow = self.day_of_week_field();
        if dom is Unspecified && dow is Unspecified {
            true
        } else if dom is Unspecified {
            week_day_accepts(dow, year, month, day)
        } else if dow is Unspecified {
            month_day_accepts(dom, year, month, day)
        } else {
            month_day_accepts(dom, year, month, day) && week_day_accepts(dow, year, month, day)
        }
    }

    /// The schedule fires at the given second.
    pub open spec fn fires_at(self, t: DateTimeFields) -> bool {
        &&& self.year_field().matches_value(t.year as int)
        &&& self.month_field().matches_value(t.month as int)
        &&& self.day_accepts(t.year as int, t.month as int, t.day as int)
        &&& self.hour_field().matches_value(t.hour as int)
        &&& self.minute_field().matches_value(t.minute as int)
        &&& self.seconds_field().matches_value(t.second as int)
    }

    /// Constructs a schedule from its seven fields, in the order seconds, minutes, hours, day of
    /// month, month, day of week, year.
    pub fn new(cron: [CronField; 7]) -> (r: Self)
        ensures
            r.seconds_field() == cron@[0],
            r.minute_field() == cron@[1],
            r.hour_field() == cron@[2],
            r.day_of_month_field() == cron@[3],
            r.month_field() == cron@[4],
            r.day_of_week_field() == cron@[5],
            r.year_field() == cron@[6],
    {
        let mut cron = cron;
        let mut seconds = CronField::Wildcard;
        std::mem::swap(&mut seconds, &mut cron[0]);
        let mut minute = CronField::Wildcard;
        std::mem::swap(&mut minute, &mut cron[1]);
        let mut hour = CronField::Wildcard;
        std::mem::swap(&mut hour, &mut cron[2]);
        let mut day_of_month = CronField::Wildcard;
        std::mem::swap(&mut day_of_month, &mut cron[3]);
        let mut month = CronField::Wildcard;
        std::mem::swap(&mut month, &mut cron[4]);
        let mut day_of_week = CronField::Wildcard;
        std::mem::swap(&mut day_of_week, &mut cron[5]);
        let mut year = CronField::Wildcard;
        std::mem::swap(&mut year, &mut cron[6]);
        TaskScheduleCron { seconds, minute, hour, day_of_month, month, day_of_week, year }
    }

    pub fn year(&self) -> (r: &CronField)
        ensures
            *r == self.year_field(),
    {
        &self.year
    }

    /// The seven fields, in the order of `new`.
    pub fn fields(&self) -> (r: [&CronField; 7])
        ensures
            *r@[0] == self.seconds_field(),
            *r@[1] == self.minute_field(),
            *r@[2] == self.hour_field(),
            *r@[3] == self.day_of_month_field(),
            *r@[4] == self.month_field(),
            *r@[5] == self.day_of_week_field(),
            *r@[6] == self.year_field(),
    {
        [
            &self.seconds,
            &self.minute,
            &self.hour,
            &self.day_of_month,
            &self.month,
            &self.day_of_week,
            &self.year,
        ]
    }
}

/// Whether a day-of-month field accepts a date.
fn month_day_matches(f: &CronField, year: i32, month: u8, day: u8) -> (r: bool)
    requires
        valid_date(year as int, month as int, day as int),
    ensures
        r == month_day_accepts(*f, year as int, month as int, day as int),
{
    let dim = month_length(year, month);
    match f {
        CronField::Last(None) => day == dim,
        CronField::Last(Some(k)) => *k <= 0 && day as i32 == dim as i32 + *k as i32,
        CronField::NearestWeekday(t) => {
            if *t > dim as u32 {
                false
            } else {
                let target: u8 = if *t == 0 {
                    dim
                } else {
                    *t as u8
                };
                let wd = weekday_from_sunday(year, month, target);
                let nearest: u8 = if wd == 6 {
                    if target == 1 {
                        3
                    } else {
                        target - 1
                    }
                } else if wd == 0 {
                    if target == dim {
                        target - 2
                    } else {
                        target + 1
                    }
                } else {
                    target
                };
                day == nearest
            }
        },
        _ => f.matches(day as u32),
    }
}

/// Whether a day-of-week field (Sunday is `1`, Saturday is `7`) accepts a date.
fn week_day_matches(f: &CronField, year: i32, month: u8, day: u8) -> (r: bool)
    requires
        valid_date(year as int, month as int, day as int),
    ensures
        r == week_day_accepts(*f, year as int, month as int, day as int),
{
    let dim = month_length(year, month);
    let wd: u32 = weekday_from_sunday(year, month, day) as u32 + 1;
    match f {
        CronField::Last(None) => wd == 7,
        CronField::Last(Some(w)) => wd as i32 == *w as i32 && day as u32 + 7 > dim as u32,
        CronField::NthWeekday(w, n) => wd == *w && (day as u32 - 1) / 7 + 1 == *n,
        _ => f.matches(wd),
    }
}

impl TaskScheduleCron {
    fn matches_year(&self, year: u32) -> (r: bool)
        ensures
            r == self.year_field().matches_value(year as int),
    {
        self.year.matches(year)
    }

    /// The first year, from `current` on and no later than `LAST_CRON_YEAR`, that the year
    /// field's search yields.
    fn next_valid_year(&self, current: u32) -> (r: Option<u32>)
        ensures
            current > LAST_CRON_YEAR ==> r is None,
            current <= LAST_CRON_YEAR ==> r == (match self.year_field().next_valid_value(
                current as int,
                LAST_CRON_YEAR as int,
            ) {
                Some(x) => Some(x as u32),
                None => None::<u32>,
            }),
            r matches Some(y) ==> current <= LAST_CRON_YEAR && self.year_field().next_valid_value(
                current as int,
                LAST_CRON_YEAR as int,
            ) == Some(y as int),
    {
        if current > LAST_CRON_YEAR {
            return None;
        }
        self.year.next_valid(current, LAST_CRON_YEAR)
    }

    /// Whether the day fields accept a date (see `day_accepts`).
    fn matches_day(&self, year: i32, month: u8, day: u8) -> (r: bool)
        requires
            valid_date(year as int, month as int, day as int),
        ensures
            r == self.day_accepts(year as int, month as int, day as int),
    {
        let dom_unspecified = match self.day_of_month {
            CronField::Unspecified => true,
            _ => false,
        };
        let dow_unspecified = match self.day_of_week {
            CronField::Unspecified => true,
            _ => false,
        };
        if dom_unspecified && dow_unspecified {
            true
        } else if dom_unspecified {
            week_day_matches(&self.day_of_week, year, month, day)
        } else if dow_unspecified {
            month_day_matches(&self.day_of_month, year, month, day)
        } else {
            month_day_matches(&self.day_of_month, year, month, day) && week_day_matches(
                &self.day_of_week,
                year,
                month,
                day,
            )
        }
    }
}

impl Clone for TaskScheduleCron {
    /// A copy whose fields behave alike, so that it fires at the same seconds.
    fn clone(&self) -> (r: Self)
        ensures
            same_behaviour(r.seconds_field(), self.seconds_field()),
            same_behaviour(r.minute_field(), self.minute_field()),
            same_behaviour(r.hour_field(), self.hour_field()),
            same_behaviour(r.day_of_month_field(), self.day_of_month_field()),
            same_behaviour(r.month_field(), self.month_field()),
            same_behaviour(r.day_of_week_field(), self.day_of_week_field()),
            same_behaviour(r.year_field(), self.year_field()),
            forall|t: DateTimeFields| #[trigger] r.fires_at(t) == self.fires_at(t),
    {
        let r = TaskScheduleCron {
            seconds: self.seconds.clone(),
            minute: self.minute.clone(),
            hour: self.hour.clone(),
            day_of_month: self.day_of_month.clone(),
            month: self.month.clone(),
            day_of_week: self.day_of_week.clone(),
            year: self.year.clone(),
        };
        proof {
            assert forall|t: DateTimeFields| #[trigger] r.fires_at(t) == self.fires_at(t) by {
                let (y, m, d) = (t.year as int, t.month as int, t.day as int);
                let wd = weekday_from_sunday_of(y, m, d) + 1;
                assert(r.day_of_month.matches_value(d) == self.day_of_month.matches_value(d));
                assert(r.day_of_week.matches_value(wd) == self.day_of_week.matches_value(wd));
                assert(r.year.matches_value(y) == self.year.matches_value(y));
                assert(r.month.matches_value(m) == self.month.matches_value(m));
                assert(r.hour.matches_value(t.hour as int) == self.hour.matches_value(t.hour as int));
                assert(r.minute.matches_value(t.minute as int) == self.minute.matches_value(
                    t.minute as int,
                ));
                assert(r.seconds.matches_value(t.second as int) == self.seconds.matches_value(
                    t.second as int,
                ));
                assert(r.day_accepts(y, m, d) == self.day_accepts(y, m, d));
            }
        }
        r
    }
}

/// A field of plain values: `*`, a value, a range, a step or a list.
pub open spec fn value_field(f: CronField) -> bool {
    f is Wildcard || f is Exact || f is Range || f is Step || f is List
}

/// When the day of week is `?`, a day-of-month field of plain values decides a date by the
/// day of the month alone; when the day of month is `?`, a day-of-week field of plain values
/// decides it by the weekday alone (Sunday is `1`, Saturday is `7`).
pub proof fn law_day_rule_of_value_fields(c: TaskScheduleCron, year: int, month: int, day: int)
    ensures
        c.day_of_week_field() is Unspecified && value_field(c.day_of_month_field()) ==> (
        c.day_accepts(year, month, day) == c.day_of_month_field().matches_value(day)),
        c.day_of_month_field() is Unspecified && value_field(c.day_of_week_field()) ==> (
        c.day_accepts(year, month, day) == c.day_of_week_field().matches_value(
            weekday_from_sunday_of(year, month, day) + 1,
        )),
{
}

impl TaskScheduleCron {
    /// The schedule does not fire at any second in `[from, to)`.
    pub open spec fn silent_between(self, from: DateTimeFields, to: DateTimeFields) -> bool {
        forall|t: DateTimeFields|
            t.wf() && !t.before(from) && t.before(to) ==> !#[trigger] self.fires_at(t)
    }

    /// The schedule does not fire at any second from `from` up to the end of
    /// `LAST_CRON_YEAR`.
    pub open spec fn silent_from(self, from: DateTimeFields) -> bool {
        forall|t: DateTimeFields|
            t.wf() && !t.before(from) && t.year <= LAST_CRON_YEAR ==> !#[trigger] self.fires_at(
                t,
            )
    }
}

pub open spec fn midnight(year: int, month: int, day: int) -> DateTimeFields {
    DateTimeFields {
        year: year as i32,
        month: month as u8,
        day: day as u8,
        hour: 0,
        minute: 0,
        second: 0,
    }
}

proof fn lemma_silent_concat(
    s: TaskScheduleCron,
    a: DateTimeFields,
    b: DateTimeFields,
    c: DateTimeFields,
)
    requires
        s.silent_between(a, b),
        s.silent_between(b, c),
    ensures
        s.silent_between(a, c),
{
    assert forall|t: DateTimeFields| t.wf() && !t.before(a) && t.before(c) implies !s.fires_at(
        t,
    ) by {
        if t.before(b) {
        } else {
        }
    }
}

proof fn lemma_silent_from_concat(s: TaskScheduleCron, a: DateTimeFields, b: DateTimeFields)
    requires
        s.silent_between(a, b),
        s.silent_from(b),
    ensures
        s.silent_from(a),
{
    assert forall|t: DateTimeFields|
        t.wf() && !t.before(a) && t.year <= LAST_CRON_YEAR implies !s.fires_at(t) by {
        if t.before(b) {
        } else {
        }
    }
}

/// The seconds from `dt` up to the midnight that starts the following date all lie on the
/// date of `dt`.
proof fn lemma_rest_of_date(dt: DateTimeFields, y: int, m: int, d: int)
    requires
        dt.wf(),
        date_after(dt.year as int, dt.month as int, dt.day as int) == Some((y, m, d)),
        -9999 <= y <= 9999,
        1 <= m <= 12,
        1 <= d <= 31,
    ensures
        forall|t: DateTimeFields|
            t.wf() && !t.before(dt) && t.before(#[trigger] midnight(y, m, d)) ==> t.same_date(
                dt,
            ),
{
}

/// Past the last representable date nothing lies within the search horizon.
proof fn lemma_last_date(s: TaskScheduleCron, dt: DateTimeFields)
    requires
        dt.wf(),
        date_after(dt.year as int, dt.month as int, dt.day as int) is None,
    ensures
        s.silent_from(dt),
{
}

impl TaskScheduleCron {
    /// Searches, from `start` on (inclusive), the first second at which the schedule fires.
    ///
    /// The result is the first firing second from `start` on; nothing is found only when the
    /// schedule does not fire from `start` to the end of `LAST_CRON_YEAR`.
    pub fn next_fields_from(&self, start: DateTimeFields) -> (r: Option<DateTimeFields>)
        requires
            start.wf(),
        ensures
            r matches Some(c) ==> c.wf() && !c.before(start) && self.fires_at(c),
            (r matches Some(c) ==> self.silent_between(start, c)),
            (r is None ==> self.silent_from(start)),
    {
        let mut dt = start;
        loop
            invariant
                start.wf(),
                dt.wf(),
                !dt.before(start),
                self.silent_between(start, dt),
            decreases 10000 - dt.year, 13 - dt.month, 32 - dt.day, 24 - dt.hour, 60 - dt.minute,
                60 - dt.second,
        {
            let ghost prev = dt;
            let year_accepted = if dt.year < 0 {
                self.year.accepts_negative()
            } else {
                self.matches_year(dt.year as u32)
            };
            proof {
                lemma_negative_values(self.year_field());
            }
            if !year_accepted {
                let from_year: u32 = if dt.year < 0 {
                    0
                } else {
                    dt.year as u32
                };
                proof {
                    lemma_next_valid_least(self.year_field(), from_year as int, LAST_CRON_YEAR as int);
                }
                let next_year = match self.next_valid_year(from_year) {
                    Some(y) => y,
                    None => {
                        proof {
                            {
                                assert(self.silent_from(dt));
                                lemma_silent_from_concat(*self, start, dt);
                            }
                        }
                        return None;
                    },
                };
                proof {
                    lemma_next_valid_sound(self.year_field(), from_year as int, LAST_CRON_YEAR as int);
                }
                if next_year > 9999 {
                    proof {
                        {
                            assert(self.silent_from(dt));
                            lemma_silent_from_concat(*self, start, dt);
                        }
                    }
                    return None;
                }
                dt = DateTimeFields {
                    year: next_year as i32,
                    month: 1,
                    day: 1,
                    hour: 0,
                    minute: 0,
                    second: 0,
                };
                proof {
                    {
                        assert(self.silent_between(prev, dt));
                        lemma_silent_concat(*self, start, prev, dt);
                    }
                }
                continue;
            }
            let month = dt.month as u32;
            if !self.month.matches(month) {
                proof {
                    {
                        lemma_next_valid_least(self.month_field(), month as int, 12);
                    }
                }
                match self.month.next_valid(month, 12) {
                    Some(next_month) => {
                        proof {
                            lemma_next_valid_sound(self.month_field(), month as int, 12);
                        }
                        if next_month > 12 {
                            proof {
                                lemma_next_valid_beyond(self.month_field(), month as int, 12);
                                {
                                    assert(self.silent_from(dt));
                                    lemma_silent_from_concat(*self, start, dt);
                                }
                            }
                            return None;
                        }
                        dt = DateTimeFields {
                            year: dt.year,
                            month: next_month as u8,
                            day: 1,
                            hour: 0,
                            minute: 0,
                            second: 0,
                        };
                        proof {
                            {
                                assert(self.silent_between(prev, dt));
                                lemma_silent_concat(*self, start, prev, dt);
                            }
                        }
                    },
                    None => {
                        let next_year: i32 = if dt.year < -1 {
                            dt.year + 1
                        } else {
                            proof {
                                lemma_next_valid_least(
                                    self.year_field(),
                                    dt.year as int + 1,
                                    LAST_CRON_YEAR as int,
                                );
                            }
                            let found = match self.next_valid_year((dt.year + 1) as u32) {
                                Some(y) => y,
                                None => {
                                    proof {
                                        assert(self.silent_from(dt));
                                        lemma_silent_from_concat(*self, start, dt);
                                    }
                                    return None;
                                },
                            };
                            proof {
                                lemma_next_valid_sound(
                                    self.year_field(),
                                    dt.year as int + 1,
                                    LAST_CRON_YEAR as int,
                                );
                            }
                            if found > 9999 {
                                proof {
                                    assert(self.silent_from(dt));
                                    lemma_silent_from_concat(*self, start, dt);
                                }
                                return None;
                            }
                            found as i32
                        };
                        let month_search = self.month.next_valid(1, 12);
                        let first_month: u32 = match month_search {
                            Some(m) => m,
                            None => 13,
                        };
                        proof {
                            lemma_next_valid_least(self.month_field(), 1, 12);
                            lemma_next_valid_sound(self.month_field(), 1, 12);
                            if first_month > 12 && month_search is Some {
                                lemma_next_valid_beyond(self.month_field(), 1, 12);
                            }
                        }
                        if first_month > 12 {
                            proof {
                                assert(self.silent_from(dt));
                                lemma_silent_from_concat(*self, start, dt);
                            }
                            return None;
                        }
                        dt = DateTimeFields {
                            year: next_year,
                            month: first_month as u8,
                            day: 1,
                            hour: 0,
                            minute: 0,
                            second: 0,
                        };
                        proof {
                            {
                                assert(self.silent_between(prev, dt));
                                lemma_silent_concat(*self, start, prev, dt);
                            }
                        }
                    },
                }
                continue;
            }
            if !self.matches_day(dt.year, dt.month, dt.day) {
                match following_date(dt.year, dt.month, dt.day) {
                    Some((y, m, d)) => {
                        dt = DateTimeFields { year: y, month: m, day: d, hour: 0, minute: 0, second: 0 };
                        proof {
                            lemma_rest_of_date(prev, y as int, m as int, d as int);
                            assert(dt == midnight(y as int, m as int, d as int));
                            {
                                assert(self.silent_between(prev, dt));
                                lemma_silent_concat(*self, start, prev, dt);
                            }
                        }
                    },
                    None => {
                        proof {
                            {
                                lemma_last_date(*self, dt);
                                lemma_silent_from_concat(*self, start, dt);
                            }
                        }
                        return None;
                    },
                }
                continue;
            }
            if !self.hour.matches(dt.hour as u32) {
                proof {
                    {
                        lemma_next_valid_least(self.hour_field(), dt.hour as int, 23);
                    }
                }
                match self.hour.next_valid(dt.hour as u32, 23) {
                    Some(next_hour) => {
                        proof {
                            lemma_next_valid_sound(self.hour_field(), dt.hour as int, 23);
                        }
                        if next_hour > 23 {
                            proof {
                                lemma_next_valid_beyond(self.hour_field(), dt.hour as int, 23);
                                {
                                    assert(self.silent_from(dt));
                                    lemma_silent_from_concat(*self, start, dt);
                                }
                            }
                            return None;
                        }
                        dt = DateTimeFields { hour: next_hour as u8, minute: 0, second: 0, ..dt };
                        proof {
                            {
                                assert(self.silent_between(prev, dt));
                                lemma_silent_concat(*self, start, prev, dt);
                            }
                        }
                    },
                    None => {
                        match following_date(dt.year, dt.month, dt.day) {
                            Some((y, m, d)) => {
                                dt = DateTimeFields {
                                    year: y,
                                    month: m,
                                    day: d,
                                    hour: 0,
                                    minute: 0,
                                    second: 0,
                                };
                                proof {
                                    lemma_rest_of_date(prev, y as int, m as int, d as int);
                                    assert(dt == midnight(y as int, m as int, d as int));
                                    {
                                        assert(self.silent_between(prev, dt));
                                        lemma_silent_concat(*self, start, prev, dt);
                                    }
                                }
                            },
                            None => {
                                proof {
                                    {
                                        lemma_last_date(*self, dt);
                                        lemma_silent_from_concat(*self, start, dt);
                                    }
                                }
                                return None;
                            },
                        }
                    },
                }
                continue;
            }
            if !self.minute.matches(dt.minute as u32) {
                proof {
                    {
                        lemma_next_valid_least(self.minute_field(), dt.minute as int, 59);
                        lemma_next_valid_least(self.hour_field(), dt.hour as int + 1, 23);
                    }
                }
                match self.minute.next_valid(dt.minute as u32, 59) {
                    Some(next_minute) => {
                        proof {
                            lemma_next_valid_sound(self.minute_field(), dt.minute as int, 59);
                        }
                        if next_minute > 59 {
                            proof {
                                lemma_next_valid_beyond(self.minute_field(), dt.minute as int, 59);
                                {
                                    assert(self.silent_from(dt));
                                    lemma_silent_from_concat(*self, start, dt);
                                }
                            }
                            return None;
                        }
                        dt = DateTimeFields { minute: next_minute as u8, second: 0, ..dt };
                        proof {
                            {
                                assert(self.silent_between(prev, dt));
                                lemma_silent_concat(*self, start, prev, dt);
                            }
                        }
                    },
                    None => {
                        let next_hour = self.hour.next_valid(dt.hour as u32 + 1, 23);
                        proof {
                            if next_hour is Some {
                                lemma_next_valid_sound(self.hour_field(), dt.hour as int + 1, 23);
                            }
                        }
                        match next_hour {
                            Some(hour) if hour <= 23 => {
                                let first_minute = self.minute.min();
                                if first_minute > 59 {
                                    proof {
                                        {
                                            assert forall|y: int|
                                                0 <= y <= 59 implies !self.minute_field().matches_value(
                                                y,
                                            ) by {
                                                if self.minute_field().matches_value(y) {
                                                    lemma_min_value_lower_bound(self.minute_field(), y);
                                                }
                                            }
                                            assert(self.silent_from(dt));
                                            lemma_silent_from_concat(*self, start, dt);
                                        }
                                    }
                                    return None;
                                }
                                dt = DateTimeFields {
                                    hour: hour as u8,
                                    minute: first_minute as u8,
                                    second: 0,
                                    ..dt
                                };
                                proof {
                                    {
                                        assert forall|y: int|
                                            0 <= y < first_minute implies !self.minute_field().matches_value(
                                            y,
                                        ) by {
                                            if self.minute_field().matches_value(y) {
                                                lemma_min_value_lower_bound(self.minute_field(), y);
                                            }
                                        }
                                        assert(self.silent_between(prev, dt));
                                        lemma_silent_concat(*self, start, prev, dt);
                                    }
                                }
                            },
                            _ => {
                                match following_date(dt.year, dt.month, dt.day) {
                                    Some((y, m, d)) => {
                                        dt = DateTimeFields {
                                            year: y,
                                            month: m,
                                            day: d,
                                            hour: 0,
                                            minute: 0,
                                            second: 0,
                                        };
                                        proof {
                                            lemma_rest_of_date(prev, y as int, m as int, d as int);
                                            assert(dt == midnight(y as int, m as int, d as int));
                                            {
                                                assert(self.silent_between(prev, dt));
                                                lemma_silent_concat(*self, start, prev, dt);
                                            }
                                        }
                                    },
                                    None => {
                                        proof {
                                            {
                                                lemma_last_date(*self, dt);
                                                lemma_silent_from_concat(*self, start, dt);
                                            }
                                        }
                                        return None;
                                    },
                                }
                            },
                        }
                    },
                }
                continue;
            }
            if !self.seconds.matches(dt.second as u32) {
                proof {
                    {
                        lemma_next_valid_least(self.seconds_field(), dt.second as int, 59);
                        lemma_next_valid_least(self.minute_field(), dt.minute as int + 1, 59);
                        lemma_next_valid_least(self.hour_field(), dt.hour as int + 1, 23);
                    }
                }
                match self.seconds.next_valid(dt.second as u32, 59) {
                    Some(next_second) => {
                        proof {
                            lemma_next_valid_sound(self.seconds_field(), dt.second as int, 59);
                        }
                        if next_second > 59 {
                            proof {
                                lemma_next_valid_beyond(self.seconds_field(), dt.second as int, 59);
                                {
                                    assert(self.silent_from(dt));
                                    lemma_silent_from_concat(*self, start, dt);
                                }
                            }
                            return None;
                        }
                        dt = DateTimeFields { second: next_second as u8, ..dt };
                        proof {
                            {
                                assert(self.silent_between(prev, dt));
                                lemma_silent_concat(*self, start, prev, dt);
                            }
                        }
                    },
                    None => {
                        let next_minute = self.minute.next_valid(dt.minute as u32 + 1, 59);
                        proof {
                            if next_minute is Some {
                                lemma_next_valid_sound(self.minute_field(), dt.minute as int + 1, 59);
                            }
                        }
                        match next_minute {
                            Some(minute) if minute <= 59 => {
                                let first_second = self.seconds.min();
                                if first_second > 59 {
                                    proof {
                                        {
                                            assert forall|y: int|
                                                0 <= y <= 59 implies !self.seconds_field().matches_value(
                                                y,
                                            ) by {
                                                if self.seconds_field().matches_value(y) {
                                                    lemma_min_value_lower_bound(self.seconds_field(), y);
                                                }
                                            }
                                            assert(self.silent_from(dt));
                                            lemma_silent_from_concat(*self, start, dt);
                                        }
                                    }
                                    return None;
                                }
                                dt = DateTimeFields {
                                    minute: minute as u8,
                                    second: first_second as u8,
                                    ..dt
                                };
                                proof {
                                    {
                                        assert forall|y: int|
                                            0 <= y < first_second implies !self.seconds_field().matches_value(
                                            y,
                                        ) by {
                                            if self.seconds_field().matches_value(y) {
                                                lemma_min_value_lower_bound(self.seconds_field(), y);
                                            }
                                        }
                                        assert(self.silent_between(prev, dt));
                                        lemma_silent_concat(*self, start, prev, dt);
                                    }
                                }
                            },
                            _ => {
                                let next_hour = self.hour.next_valid(dt.hour as u32 + 1, 23);
                                proof {
                                    if next_hour is Some {
                                        lemma_next_valid_sound(
                                            self.hour_field(),
                                            dt.hour as int + 1,
                                            23,
                                        );
                                    }
                                }
                                match next_hour {
                                    Some(hour) if hour <= 23 => {
                                        let first_minute = self.minute.min();
                                        let first_second = self.seconds.min();
                                        if first_minute > 59 || first_second > 59 {
                                            proof {
                                                {
                                                    if first_minute > 59 {
                                                        assert forall|y: int|
                                                            0 <= y <= 59 implies !self.minute_field().matches_value(
                                                            y,
                                                        ) by {
                                                            if self.minute_field().matches_value(y) {
                                                                lemma_min_value_lower_bound(
                                                                    self.minute_field(),
                                                                    y,
                                                                );
                                                            }
                                                        }
                                                    } else {
                                                        assert forall|y: int|
                                                            0 <= y <= 59 implies !self.seconds_field().matches_value(
                                                            y,
                                                        ) by {
                                                            if self.seconds_field().matches_value(y) {
                                                                lemma_min_value_lower_bound(
                                                                    self.seconds_field(),
                                                                    y,
                                                                );
                                                            }
                                                        }
                                                    }
                                                    assert(self.silent_from(dt));
                                                    lemma_silent_from_concat(*self, start, dt);
                                                }
                                            }
                                            return None;
                                        }
                                        dt = DateTimeFields {
                                            hour: hour as u8,
                                            minute: first_minute as u8,
                                            second: first_second as u8,
                                            ..dt
                                        };
                                        proof {
                                            {
                                                assert forall|y: int|
                                                    0 <= y < first_minute implies !self.minute_field().matches_value(
                                                    y,
                                                ) by {
                                                    if self.minute_field().matches_value(y) {
                                                        lemma_min_value_lower_bound(
                                                            self.minute_field(),
                                                            y,
                                                        );
                                                    }
                                                }
                                                assert forall|y: int|
                                                    0 <= y < first_second implies !self.seconds_field().matches_value(
                                                    y,
                                                ) by {
                                                    if self.seconds_field().matches_value(y) {
                                                        lemma_min_value_lower_bound(
                                                            self.seconds_field(),
                                                            y,
                                                        );
                                                    }
                                                }
                                                assert(self.silent_between(prev, dt));
                                                lemma_silent_concat(*self, start, prev, dt);
                                            }
                                        }
                                    },
                                    _ => {
                                        match following_date(dt.year, dt.month, dt.day) {
                                            Some((y, m, d)) => {
                                                dt = DateTimeFields {
                                                    year: y,
                                                    month: m,
                                                    day: d,
                                                    hour: 0,
                                                    minute: 0,
                                                    second: 0,
                                                };
                                                proof {
                                                    lemma_rest_of_date(
                                                        prev,
                                                        y as int,
                                                        m as int,
                                                        d as int,
                                                    );
                                                    assert(dt == midnight(
                                                        y as int,
                                                        m as int,
                                                        d as int,
                                                    ));
                                                    {
                                                        assert(self.silent_between(prev, dt));
                                                        lemma_silent_concat(*self, start, prev, dt);
                                                    }
                                                }
                                            },
                                            None => {
                                                proof {
                                                    {
                                                        lemma_last_date(*self, dt);
                                                        lemma_silent_from_concat(*self, start, dt);
                                                    }
                                                }
                                                return None;
                                            },
                                        }
                                    },
                                }
                            },
                        }
                    },
                }
                continue;
            }
            return Some(dt);
        }
    }
}

/// Unix timestamp of calendar fields.
pub open spec fn unix_of(c: DateTimeFields) -> int {
    unix_of_utc_fields(
        c.year as int,
        c.month as int,
        c.day as int,
        c.hour as int,
        c.minute as int,
        c.second as int,
    )
}

impl TaskScheduleCron {
    /// The next time, strictly after `current` (Unix seconds and nanoseconds), at which the
    /// schedule fires, as Unix seconds and nanoseconds.
    ///
    /// The search starts one second after `current`; its calendar fields are `start`. The
    /// sub-second part is kept when the schedule fires right at that second and is zero
    /// otherwise.
    pub fn next_time_from(&self, current_secs: i64, current_nanos: u32) -> (r: Option<(i64, u32)>)
        requires
            MIN_UNIX_TIMESTAMP - 1 <= current_secs < MAX_UNIX_TIMESTAMP,
        ensures
            r matches Some((t, _)) ==> t > current_secs,
            match r {
                Some((t, n)) => exists|c: DateTimeFields, start: DateTimeFields|
                    {
                        &&& start.wf()
                        &&& unix_of(start) == current_secs + 1
                        &&& c.wf()
                        &&& !c.before(start)
                        &&& self.fires_at(c)
                        &&& self.silent_between(start, c)
                        &&& t as int == unix_of(c)
                        &&& n == (if c == start { current_nanos } else { 0 })
                    },
                None => exists|start: DateTimeFields|
                    {
                        &&& start.wf()
                        &&& unix_of(start) == current_secs + 1
                        &&& self.silent_from(start)
                    },
            },
    {
        let start = match fields_from_unix(current_secs + 1) {
            Some(f) => f,
            None => return None,
        };
        match self.next_fields_from(start) {
            Some(c) => {
                let t = unix_from_fields(c);
                proof {
                    if c != start {
                        assert(start.before(c));
                        lemma_unix_increases(start, c);
                    }
                }
                let n = if c == start {
                    current_nanos
                } else {
                    0
                };
                Some((t, n))
            },
            None => None,
        }
    }
}

/// The range of values of each field: seconds, minutes, hours, day of month, month, day of week
/// and year.
pub open spec fn field_range(field_pos: int) -> (u32, u32) {
    if field_pos == 0 || field_pos == 1 {
        (0, 59)
    } else if field_pos == 2 {
        (0, 23)
    } else if field_pos == 3 {
        (1, 31)
    } else if field_pos == 4 {
        (1, 12)
    } else if field_pos == 5 {
        (1, 7)
    } else {
        (2026, 2099)
    }
}

fn field_range_of(field_pos: usize) -> (r: (u32, u32))
    ensures
        r == field_range(field_pos as int),
{
    if field_pos == 0 || field_pos == 1 {
        (0, 59)
    } else if field_pos == 2 {
        (0, 23)
    } else if field_pos == 3 {
        (1, 31)
    } else if field_pos == 4 {
        (1, 12)
    } else if field_pos == 5 {
        (1, 7)
    } else {
        (2026, 2099)
    }
}

/// The names of the fields, as errors give them.
pub open spec fn field_name(field_pos: int) -> &'static str {
    if field_pos == 0 {
        "seconds"
    } else if field_pos == 1 {
        "minutes"
    } else if field_pos == 2 {
        "hours"
    } else if field_pos == 3 {
        "day_of_month"
    } else if field_pos == 4 {
        "month"
    } else if field_pos == 5 {
        "day_of_week"
    } else {
        "year"
    }
}

fn field_name_of(field_pos: usize) -> (r: &'static str)
    ensures
        r == field_name(field_pos as int),
{
    if field_pos == 0 {
        "seconds"
    } else if field_pos == 1 {
        "minutes"
    } else if field_pos == 2 {
        "hours"
    } else if field_pos == 3 {
        "day_of_month"
    } else if field_pos == 4 {
        "month"
    } else if field_pos == 5 {
        "day_of_week"
    } else {
        "year"
    }
}

/// What the error for an expression whose two day fields are `?` says.
pub const BOTH_DAYS_UNSPECIFIED: &'static str = "day_of_month and day_of_week cannot both be unspecified";

/// The checks that a field's syntax tree must pass, in order: values in the field's range,
/// ranges of two numbers in order and in range, non-zero steps over a base that passes the
/// same checks, list items one after the other,
/// and the day operators (`L`, `W`, `#`) only in the fields that take them.
pub open spec fn validate_spec(node: AstNode, field_pos: int) -> Result<(), CronExpressionParserErrors>
    decreases node, 0nat,
{
    let (min, max) = field_range(field_pos);
    match node.kind {
        AstTreeNode::Exact(value) => if !(min <= value <= max) {
            Err(
                CronExpressionParserErrors::ValueOutOfRange {
                    value,
                    field: field_name(field_pos),
                    min,
                    max,
                },
            )
        } else {
            Ok(())
        },
        AstTreeNode::Range(start, end) => if !(start.kind is Exact) || !(end.kind is Exact) {
            Err(CronExpressionParserErrors::ExpectedNumber)
        } else {
            let s = start.kind->Exact_0;
            let e = end.kind->Exact_0;
            if s > e || !(min <= s <= max) || !(min <= e <= max) {
                Err(
                    CronExpressionParserErrors::InvalidRange {
                        start: s,
                        end: e,
                        field: field_name(field_pos),
                        min,
                        max,
                    },
                )
            } else {
                Ok(())
            }
        },
        AstTreeNode::Step(base, step) => if step == 0 {
            Err(CronExpressionParserErrors::InvalidStepValue { step })
        } else {
            match validate_spec(*base, field_pos) {
                Err(e) => Err(e),
                Ok(()) => Ok(()),
            }
        },
        AstTreeNode::List(items) => validate_items_spec(items, 0, field_pos),
        AstTreeNode::LastOf(_) => if field_pos != 3 && field_pos != 5 {
            Err(CronExpressionParserErrors::InvalidLastOperator)
        } else {
            Ok(())
        },
        AstTreeNode::NearestWeekday(_) => if field_pos != 3 {
            Err(CronExpressionParserErrors::InvalidNearestWeekdayOperator)
        } else {
            Ok(())
        },
        AstTreeNode::NthWeekday(_, nth) => if field_pos != 5 {
            Err(CronExpressionParserErrors::InvalidNthWeekdayOperator)
        } else if nth < 1 || nth > 5 {
            Err(CronExpressionParserErrors::InvalidNthWeekday { nth })
        } else {
            Ok(())
        },
        AstTreeNode::Unspecified => Ok(()),
        AstTreeNode::Wildcard => Ok(()),
    }
}

/// The checks of the list items from index `i` on, in order.
pub open spec fn validate_items_spec(items: Vec<AstNode>, i: nat, field_pos: int) -> Result<
    (),
    CronExpressionParserErrors,
>
    decreases items, items.len() - i,
{
    if i >= items.len() {
        Ok(())
    } else {
        match validate_spec(items[i as int], field_pos) {
            Err(e) => Err(e),
            Ok(()) => validate_items_spec(items, i + 1, field_pos),
        }
    }
}

/// A list item is structurally smaller than its list node.
proof fn lemma_ast_item_smaller(node: AstNode, i: int)
    requires
        node.kind is List,
        0 <= i < node.kind->List_0.len(),
    ensures
        decreases_to!(node => node.kind->List_0[i]),
{
    assert(decreases_to!(node => node.kind));
    assert(decreases_to!(node.kind => node.kind->List_0));
    assert(decreases_to!(node.kind->List_0 => node.kind->List_0[i])) by {
        broadcast use vstd::std_specs::vec::axiom_vec_index_decreases;
    }
}

/// Checks a field's syntax tree (see `validate_spec`).
pub fn validate_ast_node(node: &AstNode, field_pos: usize) -> (r: Result<(), CronExpressionParserErrors>)
    ensures
        r == validate_spec(*node, field_pos as int),
    decreases node,
{
    let (min, max) = field_range_of(field_pos);
    let name = field_name_of(field_pos);
    match &node.kind {
        AstTreeNode::Exact(value) => {
            if !(min <= *value && *value <= max) {
                return Err(
                    CronExpressionParserErrors::ValueOutOfRange {
                        value: *value,
                        field: name,
                        min,
                        max,
                    },
                );
            }
        },
        AstTreeNode::Range(start, end) => {
            let start_val = match &start.kind {
                AstTreeNode::Exact(val) => *val,
                _ => return Err(CronExpressionParserErrors::ExpectedNumber),
            };
            let end_val = match &end.kind {
                AstTreeNode::Exact(val) => *val,
                _ => return Err(CronExpressionParserErrors::ExpectedNumber),
            };
            if start_val > end_val {
                return Err(
                    CronExpressionParserErrors::InvalidRange {
                        start: start_val,
                        end: end_val,
                        field: name,
                        min,
                        max,
                    },
                );
            }
            if !(min <= start_val && start_val <= max) || !(min <= end_val && end_val <= max) {
                return Err(
                    CronExpressionParserErrors::InvalidRange {
                        start: start_val,
                        end: end_val,
                        field: name,
                        min,
                        max,
                    },
                );
            }
        },
        AstTreeNode::Step(base, step_value) => {
            if *step_value == 0 {
                return Err(CronExpressionParserErrors::InvalidStepValue { step: *step_value });
            }
            match validate_ast_node(base, field_pos) {
                Err(e) => {
                    return Err(e);
                },
                Ok(()) => {},
            }
        },
        AstTreeNode::List(items) => {
            let mut i: usize = 0;
            while i < items.len()
                invariant
                    i <= items.len(),
                    node.kind == AstTreeNode::List(*items),
                    validate_spec(*node, field_pos as int) == validate_items_spec(
                        *items,
                        i as nat,
                        field_pos as int,
                    ),
                decreases items.len() - i,
            {
                proof {
                    lemma_ast_item_smaller(*node, i as int);
                }
                match validate_ast_node(&items[i], field_pos) {
                    Err(e) => return Err(e),
                    Ok(()) => {},
                }
                i += 1;
            }
        },
        AstTreeNode::LastOf(_) => {
            if field_pos != 3 && field_pos != 5 {
                return Err(CronExpressionParserErrors::InvalidLastOperator);
            }
        },
        AstTreeNode::NearestWeekday(_) => {
            if field_pos != 3 {
                return Err(CronExpressionParserErrors::InvalidNearestWeekdayOperator);
            }
        },
        AstTreeNode::NthWeekday(_, nth) => {
            if field_pos != 5 {
                return Err(CronExpressionParserErrors::InvalidNthWeekdayOperator);
            }
            if *nth < 1 || *nth > 5 {
                return Err(CronExpressionParserErrors::InvalidNthWeekday { nth: *nth });
            }
        },
        AstTreeNode::Unspecified => {},
        AstTreeNode::Wildcard => {},
    }
    Ok(())
}

/// The syntax tree can be turned into a field: ranges hold two numbers and `W` applies to a
/// number or to `L`.
pub open spec fn convertible(node: AstNode) -> bool
    decreases node, 0nat,
{
    match node.kind {
        AstTreeNode::Range(a, b) => a.kind is Exact && b.kind is Exact,
        AstTreeNode::Step(base, _) => convertible(*base),
        AstTreeNode::List(items) => convertible_items(items, items.len() as nat),
        AstTreeNode::NearestWeekday(b) => b.kind is Exact || b.kind == AstTreeNode::LastOf(None),
        _ => true,
    }
}

pub open spec fn convertible_items(items: Vec<AstNode>, n: nat) -> bool
    decreases items, n,
{
    if n == 0 || n > items.len() {
        true
    } else {
        convertible(items[n - 1]) && convertible_items(items, (n - 1) as nat)
    }
}

/// `f` is the field that the syntax tree `node` stands for.
pub open spec fn converts(node: AstNode, f: CronField) -> bool
    decreases node, 0nat,
{
    match node.kind {
        AstTreeNode::Wildcard => f == CronField::Wildcard,
        AstTreeNode::Exact(v) => f == CronField::Exact(v),
        AstTreeNode::Range(a, b) => f == CronField::Range(a.kind->Exact_0, b.kind->Exact_0),
        AstTreeNode::Step(base, step) => f is Step && f->Step_1 == step && converts(
            *base,
            *f->Step_0,
        ),
        AstTreeNode::List(items) => f is List && f->List_0.len() == items.len()
            && converts_items(items, f->List_0, items.len() as nat),
        AstTreeNode::LastOf(Some(offset)) => f == CronField::Last(Some(offset as i8)),
        AstTreeNode::LastOf(None) => f == CronField::Last(None),
        AstTreeNode::NearestWeekday(b) => f == CronField::NearestWeekday(
            if b.kind is Exact { b.kind->Exact_0 } else { 0 },
        ),
        AstTreeNode::NthWeekday(day, nth) => f == CronField::NthWeekday(day, nth),
        AstTreeNode::Unspecified => f == CronField::Unspecified,
    }
}

pub open spec fn converts_items(items: Vec<AstNode>, fields: Vec<CronField>, n: nat) -> bool
    decreases items, n,
{
    if n == 0 || n > items.len() {
        true
    } else {
        converts(items[n - 1], fields[n - 1]) && converts_items(items, fields, (n - 1) as nat)
    }
}

proof fn lemma_convertible_item(items: Vec<AstNode>, n: nat, i: int)
    requires
        convertible_items(items, n),
        n <= items.len(),
        0 <= i < n,
    ensures
        convertible(items[i]),
    decreases n,
{
    if i < n - 1 {
        lemma_convertible_item(items, (n - 1) as nat, i);
    }
}

/// Turns a syntax tree into the field it stands for.
pub fn ast_to_cron_field(node: &AstNode) -> (r: CronField)
    requires
        convertible(*node),
    ensures
        converts(*node, r),
    decreases node,
{
    match &node.kind {
        AstTreeNode::Wildcard => CronField::Wildcard,
        AstTreeNode::Exact(value) => CronField::Exact(*value),
        AstTreeNode::Range(start, end) => {
            let start_val = match &start.kind {
                AstTreeNode::Exact(val) => *val,
                _ => 0,
            };
            let end_val = match &end.kind {
                AstTreeNode::Exact(val) => *val,
                _ => 0,
            };
            CronField::Range(start_val, end_val)
        },
        AstTreeNode::Step(base, step_value) => {
            let base_field = ast_to_cron_field(base);
            CronField::Step(Box::new(base_field), *step_value)
        },
        AstTreeNode::List(items) => {
            let mut cron_items: Vec<CronField> = Vec::new();
            let mut i: usize = 0;
            while i < items.len()
                invariant
                    i <= items.len(),
                    node.kind == AstTreeNode::List(*items),
                    convertible_items(*items, items.len() as nat),
                    cron_items@.len() == i,
                    forall|j: int| 0 <= j < i ==> converts(#[trigger] items@[j], cron_items@[j]),
                decreases items.len() - i,
            {
                proof {
                    lemma_ast_item_smaller(*node, i as int);
                    lemma_convertible_item(*items, items.len() as nat, i as int);
                }
                let f = ast_to_cron_field(&items[i]);
                cron_items.push(f);
                i += 1;
            }
            proof {
                lemma_converts_items_all(*items, cron_items, items.len() as nat);
            }
            CronField::List(cron_items)
        },
        AstTreeNode::LastOf(Some(offset)) => CronField::Last(Some(*offset as i8)),
        AstTreeNode::LastOf(None) => CronField::Last(None),
        AstTreeNode::NearestWeekday(base) => {
            let day_val = match &base.kind {
                AstTreeNode::Exact(val) => *val,
                _ => 0,
            };
            CronField::NearestWeekday(day_val)
        },
        AstTreeNode::NthWeekday(day, nth) => CronField::NthWeekday(*day, *nth),
        AstTreeNode::Unspecified => CronField::Unspecified,
    }
}

proof fn lemma_converts_items_all(items: Vec<AstNode>, fields: Vec<CronField>, n: nat)
    requires
        n <= items.len(),
        n <= fields.len(),
        forall|j: int| 0 <= j < n ==> converts(#[trigger] items@[j], fields@[j]),
    ensures
        converts_items(items, fields, n),
    decreases n,
{
    if n > 0 {
        lemma_converts_items_all(items, fields, (n - 1) as nat);
    }
}

/// `wL` in the day of week accepts exactly the last date of its month that falls on weekday `w`
/// (Sunday is `1`): the date falls on `w` and no later date of the month does.
pub proof fn law_last_weekday_of_month(w: i8, year: int, month: int, day: int)
    requires
        valid_date(year, month, day),
    ensures
        week_day_accepts(CronField::Last(Some(w)), year, month, day) <==> (
        weekday_from_sunday_of(year, month, day) + 1 == w && forall|later: int|
            day < later <= days_in_month(year, month) ==> weekday_from_sunday_of(
                year,
                month,
                later,
            ) + 1 != w),
{
    let x = days_from_civil(year, month, day) + 4;
    let dim = days_in_month(year, month);
    if week_day_accepts(CronField::Last(Some(w)), year, month, day) {
        assert forall|later: int| day < later <= dim implies weekday_from_sunday_of(
            year,
            month,
            later,
        ) + 1 != w by {
            lemma_days_within_month(year, month, day, later);
            let k = later - day;
            assert((x + k) % 7 != x % 7) by (nonlinear_arith)
                requires
                    1 <= k <= 6,
            ;
        }
    }
    if weekday_from_sunday_of(year, month, day) + 1 == w && day + 7 <= dim {
        lemma_days_within_month(year, month, day, day + 7);
        assert((x + 7) % 7 == x % 7) by (nonlinear_arith);
        assert(weekday_from_sunday_of(year, month, day + 7) + 1 == w);
    }
}

/// `w#n` in the day of week accepts exactly the dates that fall on weekday `w` within the
/// `n`-th seven days of their month; `L` alone accepts Saturdays.
pub proof fn law_nth_weekday_of_month(w: u32, n: u32, year: int, month: int, day: int)
    requires
        valid_date(year, month, day),
    ensures
        week_day_accepts(CronField::NthWeekday(w, n), year, month, day) <==> (
        weekday_from_sunday_of(year, month, day) + 1 == w && 7 * (n - 1) < day <= 7 * n),
        week_day_accepts(CronField::Last(None), year, month, day) <==> weekday_from_sunday_of(
            year,
            month,
            day,
        ) == 6,
{
    assert(((day - 1) / 7 + 1 == n) <==> (7 * (n - 1) < day <= 7 * n)) by (nonlinear_arith)
        requires
            day >= 1,
    ;
}

/// In the day of month, `L` accepts exactly the last date of the month (the next day is in
/// another month), `L-k` the date `k` days before it, and `L` with a positive number no date.
pub proof fn law_last_day_of_month(k: i8, year: int, month: int, day: int)
    requires
        valid_date(year, month, day),
    ensures
        month_day_accepts(CronField::Last(None), year, month, day) <==> !valid_date(
            year,
            month,
            day + 1,
        ),
        month_day_accepts(CronField::Last(Some(k)), year, month, day) <==> (k <= 0 && day - k
            == days_in_month(year, month)),
{
}

/// A single value is accepted by the checks exactly when it lies in its field's range, both
/// ends included: seconds and minutes `0..=59`, hours `0..=23`, day of month `1..=31`, month
/// `1..=12`, day of week `1..=7`, year `2026..=2099`; a range of two values exactly when both
/// lie there and the first is not past the second. A value outside is reported with the value,
/// the field's name and the range.
pub proof fn law_value_checks(start: usize, end_start: usize, v: u32, w: u32, p: int)
    requires
        0 <= p < 7,
    ensures
        ({
            let (lo, hi) = if p == 0 || p == 1 {
                (0u32, 59u32)
            } else if p == 2 {
                (0u32, 23u32)
            } else if p == 3 {
                (1u32, 31u32)
            } else if p == 4 {
                (1u32, 12u32)
            } else if p == 5 {
                (1u32, 7u32)
            } else {
                (2026u32, 2099u32)
            };
            let exact = AstNode { start, kind: AstTreeNode::Exact(v) };
            let range = AstNode {
                start,
                kind: AstTreeNode::Range(
                    Box::new(AstNode { start, kind: AstTreeNode::Exact(v) }),
                    Box::new(AstNode { start: end_start, kind: AstTreeNode::Exact(w) }),
                ),
            };
            &&& validate_spec(exact, p) == if lo <= v <= hi {
                Ok::<(), CronExpressionParserErrors>(())
            } else {
                Err(
                    CronExpressionParserErrors::ValueOutOfRange {
                        value: v,
                        field: field_name(p),
                        min: lo,
                        max: hi,
                    },
                )
            }
            &&& validate_spec(range, p) is Ok <==> (lo <= v <= w <= hi)
        }),
{
}

/// `dW` in the day of month picks, within the month, a weekday (Monday to Friday) at most two
/// days from `d` (from the last day for `LW`), and `d` itself when `d` is a weekday: a
/// Saturday moves to the Friday before it (to the Monday after it on the 1st), a Sunday to the
/// Monday after it (to the Friday before it on the last day).
pub proof fn law_nearest_weekday(year: int, month: int, target: int)
    requires
        valid_date(year, month, if target == 0 { 1 } else { target }),
    ensures
        ({
            let t = if target == 0 { days_in_month(year, month) } else { target };
            let r = nearest_weekday_day(year, month, target);
            &&& 1 <= r <= days_in_month(year, month)
            &&& 1 <= weekday_from_sunday_of(year, month, r) <= 5
            &&& t - 2 <= r <= t + 2
            &&& 1 <= weekday_from_sunday_of(year, month, t) <= 5 ==> r == t
            &&& weekday_from_sunday_of(year, month, t) == 6 ==> (if t == 1 { r == 3 } else { r
                == t - 1 })
            &&& weekday_from_sunday_of(year, month, t) == 0 ==> (if t == days_in_month(
                year,
                month,
            ) { r == t - 2 } else { r == t + 1 })
        }),
{
    let dim = days_in_month(year, month);
    let t = if target == 0 { dim } else { target };
    let r = nearest_weekday_day(year, month, target);
    lemma_days_within_month(year, month, t, r);
    let x = days_from_civil(year, month, t) + 4;
    let k = r - t;
    assert(-2 <= k <= 2);
    assert(x % 7 == 6 && k == -1 ==> (x + k) % 7 == 5) by (nonlinear_arith);
    assert(x % 7 == 6 && k == 2 ==> (x + k) % 7 == 1) by (nonlinear_arith);
    assert(x % 7 == 0 && k == 1 ==> (x + k) % 7 == 1) by (nonlinear_arith);
    assert(x % 7 == 0 && k == -2 ==> (x + k) % 7 == 5) by (nonlinear_arith);
}

/// The day operators are checked in their fields only: `L` in the day of month and the day of
/// week, `W` in the day of month, `#` in the day of week with an occurrence from 1 to 5; `?` and
/// `*` pass everywhere; a step of zero never does.
pub proof fn law_operator_checks(start: usize, offset: Option<i32>, day: u32, nth: u32, p: int)
    requires
        0 <= p < 7,
    ensures
        validate_spec(AstNode { start, kind: AstTreeNode::LastOf(offset) }, p) is Ok <==> (p == 3
            || p == 5),
        validate_spec(
            AstNode {
                start,
                kind: AstTreeNode::NearestWeekday(
                    Box::new(AstNode { start, kind: AstTreeNode::LastOf(None) }),
                ),
            },
            p,
        ) is Ok <==> p == 3,
        validate_spec(AstNode { start, kind: AstTreeNode::NthWeekday(day, nth) }, p) is Ok <==> (p
            == 5 && 1 <= nth <= 5),
        validate_spec(AstNode { start, kind: AstTreeNode::Unspecified }, p) is Ok,
        validate_spec(AstNode { start, kind: AstTreeNode::Wildcard }, p) is Ok,
        validate_spec(
            AstNode {
                start,
                kind: AstTreeNode::Step(Box::new(AstNode { start, kind: AstTreeNode::Wildcard }), 0),
            },
            p,
        ) == Err::<(), CronExpressionParserErrors>(
            CronExpressionParserErrors::InvalidStepValue { step: 0 },
        ),
{
}

} // verus!
