//! Calendar dates in the proleptic Gregorian calendar.
//!
//! A [`Date`] holds its year, month and day as plain numbers. Building a date,
//! finding its weekday and moving it by a number of days is done by `chrono`;
//! the wrappers below state what those calls return.

use chrono::{Datelike, Duration, NaiveDate};
use vstd::prelude::*;

verus! {

/// The earliest year a date can have.
pub const MIN_YEAR: i32 = -262143;

/// The latest year a date can have.
pub const MAX_YEAR: i32 = 262142;

/// A calendar date: year, month (1 to 12) and day of the month.
#[derive(Clone, Copy, Debug, PartialEq, Eq, Structural)]
pub struct Date {
    pub year: i32,
    pub month: u32,
    pub day: u32,
}

/// The days of the week, from Monday.
#[derive(Clone, Copy, Debug, PartialEq, Eq, Structural)]
pub enum Weekday {
    Mon,
    Tue,
    Wed,
    Thu,
    Fri,
    Sat,
    Sun,
}

impl Weekday {
    /// The number of days since Monday (Monday is 0, Sunday is 6).
    pub open spec fn index(self) -> int {
        match self {
            Weekday::Mon => 0,
            Weekday::Tue => 1,
            Weekday::Wed => 2,
            Weekday::Thu => 3,
            Weekday::Fri => 4,
            Weekday::Sat => 5,
            Weekday::Sun => 6,
        }
    }
}

/// A date as a triple of integers: (year, month, day).
pub type DateView = (int, int, int);

impl View for Date {
    type V = DateView;

    open spec fn view(&self) -> DateView {
        (self.year as int, self.month as int, self.day as int)
    }
}

/// Gregorian leap years: divisible by 4, except centuries not divisible by 400.
pub open spec fn is_leap_year(y: int) -> bool {
    y % 4 == 0 && (y % 100 != 0 || y % 400 == 0)
}

/// The number of days in month `m` of year `y`.
pub open spec fn days_in_month(y: int, m: int) -> int {
    if m == 2 {
        if is_leap_year(y) {
            29
        } else {
            28
        }
    } else if m == 4 || m == 6 || m == 9 || m == 11 {
        30
    } else {
        31
    }
}

/// The years a date can have.
pub open spec fn year_in_range(y: int) -> bool {
    MIN_YEAR <= y <= MAX_YEAR
}

/// The triple names a day that exists and lies in the supported range.
pub open spec fn valid_ymd(d: DateView) -> bool {
    &&& year_in_range(d.0)
    &&& 1 <= d.1 <= 12
    &&& 1 <= d.2 <= days_in_month(d.0, d.1)
}

impl Date {
    /// The date exists in the calendar and lies in the supported range.
    pub open spec fn is_valid(self) -> bool {
        valid_ymd(self@)
    }
}

/// The day after `d`.
pub open spec fn next_day(d: DateView) -> DateView {
    if d.2 < days_in_month(d.0, d.1) {
        (d.0, d.1, d.2 + 1)
    } else if d.1 < 12 {
        (d.0, d.1 + 1, 1)
    } else {
        (d.0 + 1, 1, 1)
    }
}

/// The day before `d`.
pub open spec fn prev_day(d: DateView) -> DateView {
    if d.2 > 1 {
        (d.0, d.1, d.2 - 1)
    } else if d.1 > 1 {
        (d.0, d.1 - 1, days_in_month(d.0, d.1 - 1))
    } else {
        (d.0 - 1, 12, 31)
    }
}

/// The day `n` days after `d`.
pub open spec fn days_after(d: DateView, n: nat) -> DateView
    decreases n,
{
    if n == 0 {
        d
    } else {
        days_after(next_day(d), (n - 1) as nat)
    }
}

/// The day `n` days before `d`.
pub open spec fn days_before(d: DateView, n: nat) -> DateView
    decreases n,
{
    if n == 0 {
        d
    } else {
        days_before(prev_day(d), (n - 1) as nat)
    }
}

/// The day `n` days from `d`: later for positive `n`, earlier for negative `n`.
pub open spec fn date_plus(d: DateView, n: int) -> DateView {
    if n >= 0 {
        days_after(d, n as nat)
    } else {
        days_before(d, (-n) as nat)
    }
}

/// `a` is on or before `b`.
pub open spec fn date_le(a: DateView, b: DateView) -> bool {
    a.0 < b.0 || (a.0 == b.0 && (a.1 < b.1 || (a.1 == b.1 && a.2 <= b.2)))
}

/// The number of days of year `y` before the first of month `m`.
pub open spec fn days_before_month(y: int, m: int) -> int {
    let common: int = if m == 1 {
        0
    } else if m == 2 {
        31
    } else if m == 3 {
        59
    } else if m == 4 {
        90
    } else if m == 5 {
        120
    } else if m == 6 {
        151
    } else if m == 7 {
        181
    } else if m == 8 {
        212
    } else if m == 9 {
        243
    } else if m == 10 {
        273
    } else if m == 11 {
        304
    } else {
        334
    };
    if m > 2 && is_leap_year(y) {
        common + 1
    } else {
        common
    }
}

/// The day number of (year, month, day) in the proleptic Gregorian calendar,
/// counting 1 January of year 1 as day 1.
#[verifier::opaque]
pub open spec fn day_number(year: int, month: int, day: int) -> int {
    365 * (year - 1) + (year - 1) / 4 - (year - 1) / 100 + (year - 1) / 400 + days_before_month(
        year,
        month,
    ) + day
}

/// The weekday of (year, month, day), counted from Monday as 0: weekdays
/// repeat every seven days, and 1 January of year 1 was a Monday.
pub open spec fn weekday_index(year: int, month: int, day: int) -> int {
    (day_number(year, month, day) - 1) % 7
}

/// Month and day are those of a day of the calendar (in any year).
pub open spec fn is_calendar_day(d: DateView) -> bool {
    1 <= d.1 <= 12 && 1 <= d.2 <= days_in_month(d.0, d.1)
}

/// The weekday of a date, counted from Monday as 0.
pub open spec fn weekday_of(d: DateView) -> int {
    weekday_index(d.0, d.1, d.2)
}

/// Calls `chrono::NaiveDate::from_ymd_opt`, which returns the date when the
/// day exists in the proleptic Gregorian calendar and the year lies in
/// chrono's range, and `None` otherwise.
#[verifier::external_body]
pub(crate) fn from_ymd_opt(year: i32, month: u32, day: u32) -> (r: Option<Date>)
    ensures
        r == (if valid_ymd((year as int, month as int, day as int)) {
            Some(Date { year, month, day })
        } else {
            None
        }),
{
    match NaiveDate::from_ymd_opt(year, month, day) {
        Some(nd) => Some(Date { year: nd.year(), month: nd.month(), day: nd.day() }),
        None => None,
    }
}

/// Calls `chrono::Datelike::weekday` on the date: its weekday in the
/// proleptic Gregorian calendar, which `weekday_index` computes from the day
/// number (1 January of year 1 was a Monday).
#[verifier::external_body]
pub(crate) fn weekday(date: &Date) -> (w: Weekday)
    requires
        date.is_valid(),
    ensures
        w.index() == weekday_index(date.year as int, date.month as int, date.day as int),
{
    match NaiveDate::from_ymd_opt(date.year, date.month, date.day).unwrap().weekday() {
        chrono::Weekday::Mon => Weekday::Mon,
        chrono::Weekday::Tue => Weekday::Tue,
        chrono::Weekday::Wed => Weekday::Wed,
        chrono::Weekday::Thu => Weekday::Thu,
        chrono::Weekday::Fri => Weekday::Fri,
        chrono::Weekday::Sat => Weekday::Sat,
        chrono::Weekday::Sun => Weekday::Sun,
    }
}

/// Calls `NaiveDate + Duration::days(days)` in `chrono`: the date `days` days
/// later (earlier for negative `days`) in the proleptic Gregorian calendar;
/// chrono panics when that date is out of its range, which `requires` rules
/// out.
#[verifier::external_body]
pub(crate) fn add_days(date: &Date, days: i64) -> (r: Date)
    requires
        date.is_valid(),
        valid_ymd(date_plus(date@, days as int)),
    ensures
        r@ == date_plus(date@, days as int),
{
    let nd = NaiveDate::from_ymd_opt(date.year, date.month, date.day).unwrap() + Duration::days(days);
    Date { year: nd.year(), month: nd.month(), day: nd.day() }
}

/// `a` is on or before `b`.
pub(crate) fn is_on_or_before(a: &Date, b: &Date) -> (r: bool)
    ensures
        r == date_le(a@, b@),
{
    a.year < b.year || (a.year == b.year && (a.month < b.month || (a.month == b.month && a.day <= b.day)))
}

/// Moving one day forward gives the next day.
pub proof fn lemma_date_plus_one(d: DateView)
    ensures
        date_plus(d, 1) == next_day(d),
{
    reveal_with_fuel(days_after, 2);
}

/// Moving one day back gives the previous day.
pub proof fn lemma_date_minus_one(d: DateView)
    ensures
        date_plus(d, -1) == prev_day(d),
{
    reveal_with_fuel(days_before, 2);
}

/// Moving two days forward gives the day after the next.
pub proof fn lemma_date_plus_two(d: DateView)
    ensures
        date_plus(d, 2) == next_day(next_day(d)),
{
    reveal_with_fuel(days_after, 3);
}

/// Moving two days back gives the day before the previous one.
pub proof fn lemma_date_minus_two(d: DateView)
    ensures
        date_plus(d, -2) == prev_day(prev_day(d)),
{
    reveal_with_fuel(days_before, 3);
}

/// The day after a valid date is valid unless the date is the last day of
/// the last supported year.
pub proof fn lemma_next_day_valid(d: DateView)
    requires
        valid_ymd(d),
        d.0 < MAX_YEAR || d.1 < 12 || d.2 < 31,
    ensures
        valid_ymd(next_day(d)),
{
}

/// Moving a positive number of days back gives a strictly earlier date.
pub proof fn lemma_days_before_earlier(d: DateView, n: nat)
    requires
        n > 0,
    ensures
        date_le(days_before(d, n), d),
        days_before(d, n) != d,
    decreases n,
{
    if n > 1 {
        lemma_days_before_earlier(prev_day(d), (n - 1) as nat);
    } else {
        assert(days_before(prev_day(d), 0) == prev_day(d));
    }
}


/// The day after a day of the calendar has the next day number.
pub proof fn lemma_next_day_number(d: DateView)
    requires
        is_calendar_day(d),
    ensures
        is_calendar_day(next_day(d)),
        day_number(next_day(d).0, next_day(d).1, next_day(d).2) == day_number(d.0, d.1, d.2) + 1,
{
    reveal(day_number);
    let y = d.0;
    if d.2 == days_in_month(y, d.1) && d.1 == 12 {
        assert(y / 4 - (y - 1) / 4 == if y % 4 == 0 {
            1int
        } else {
            0
        });
        assert(y / 100 - (y - 1) / 100 == if y % 100 == 0 {
            1int
        } else {
            0
        });
        assert(y / 400 - (y - 1) / 400 == if y % 400 == 0 {
            1int
        } else {
            0
        });
    }
}

/// The day before a day of the calendar has the previous day number.
pub proof fn lemma_prev_day_number(d: DateView)
    requires
        is_calendar_day(d),
    ensures
        is_calendar_day(prev_day(d)),
        day_number(prev_day(d).0, prev_day(d).1, prev_day(d).2) == day_number(d.0, d.1, d.2) - 1,
{
    let p = prev_day(d);
    assert(is_calendar_day(p));
    lemma_next_day_number(p);
    assert(next_day(p) == d);
}

/// Moving a day of the calendar by `n` days moves its day number by `n`.
pub proof fn lemma_date_plus_number(d: DateView, n: int)
    requires
        is_calendar_day(d),
    ensures
        is_calendar_day(date_plus(d, n)),
        day_number(date_plus(d, n).0, date_plus(d, n).1, date_plus(d, n).2) == day_number(
            d.0,
            d.1,
            d.2,
        ) + n,
    decreases (if n >= 0 {
        n
    } else {
        -n
    }),
{
    if n > 0 {
        lemma_next_day_number(d);
        lemma_date_plus_number(next_day(d), n - 1);
        assert(date_plus(d, n) == date_plus(next_day(d), n - 1));
    } else if n < 0 {
        lemma_prev_day_number(d);
        lemma_date_plus_number(prev_day(d), n + 1);
        assert(days_before(d, (-n) as nat) == days_before(prev_day(d), (-n - 1) as nat));
        if n + 1 == 0 {
            assert(days_before(prev_day(d), 0) == days_after(prev_day(d), 0));
        }
        assert(date_plus(d, n) == date_plus(prev_day(d), n + 1));
    }
}

/// Moving a day of the calendar by `n` days moves its weekday by `n`.
pub proof fn lemma_weekday_shift(d: DateView, n: int)
    requires
        is_calendar_day(d),
    ensures
        weekday_of(date_plus(d, n)) == (weekday_of(d) + n) % 7,
        0 <= weekday_of(d) < 7,
{
    reveal(weekday_index);
    lemma_date_plus_number(d, n);
    let e = date_plus(d, n);
    lemma_mod_shift(day_number(d.0, d.1, d.2) - 1, n);
    assert(day_number(e.0, e.1, e.2) - 1 == (day_number(d.0, d.1, d.2) - 1) + n);
}

proof fn lemma_mod_shift(x: int, n: int)
    ensures
        (x + n) % 7 == (x % 7 + n) % 7,
        0 <= x % 7 < 7,
{
    vstd::arithmetic::div_mod::lemma_add_mod_noop(x, n, 7);
    vstd::arithmetic::div_mod::lemma_add_mod_noop(x % 7, n, 7);
    vstd::arithmetic::div_mod::lemma_mod_twice(x, 7);
}

} // verus!
