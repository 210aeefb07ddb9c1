//! Term times, bank holidays for England and Wales, and month calendars.

use chrono::{Datelike, Local};
use vstd::prelude::*;
use vstd::string::*;

use crate::date::{
    add_days, date_le, date_plus, days_in_month, from_ymd_opt, is_on_or_before, lemma_date_minus_one,
    lemma_date_minus_two, lemma_date_plus_one, lemma_date_plus_two, lemma_days_before_earlier,
    lemma_next_day_valid, lemma_weekday_shift, next_day, day_number, valid_ymd, weekday, weekday_index, weekday_of, year_in_range,
    Date, DateView,
    Weekday, MAX_YEAR,
};

verus! {

/// A named bank holiday.
#[derive(Debug)]
pub struct BankHoliday {
    pub date: Date,
    pub name: String,
}

impl View for BankHoliday {
    type V = (DateView, Seq<char>);

    open spec fn view(&self) -> (DateView, Seq<char>) {
        (self.date@, self.name@)
    }
}

/// The holidays of a list, each as its date and name.
pub open spec fn holidays_view(hs: Seq<BankHoliday>) -> Seq<(DateView, Seq<char>)> {
    hs.map_values(|h: BankHoliday| h@)
}

/// `d` lies in the term that runs from `start_month`/`start_day` to
/// `end_month`/`end_day` of its own year, both ends included.
pub open spec fn in_term(d: DateView, start_month: int, start_day: int, end_month: int, end_day: int) -> bool {
    date_le((d.0, start_month, start_day), d) && date_le(d, (d.0, end_month, end_day))
}

/// Rochdale school term time: 5 Jan to 13 Feb, 23 Feb to 27 Mar, 13 Apr to
/// 22 May, 1 Jun to 21 Jul, 2 Sep to 23 Oct and 3 Nov to 19 Dec of the date's
/// year (a year that a date can have).
pub open spec fn is_term_time(d: DateView) -> bool {
    &&& year_in_range(d.0)
    &&& {
        ||| in_term(d, 1, 5, 2, 13)
        ||| in_term(d, 2, 23, 3, 27)
        ||| in_term(d, 4, 13, 5, 22)
        ||| in_term(d, 6, 1, 7, 21)
        ||| in_term(d, 9, 2, 10, 23)
        ||| in_term(d, 11, 3, 12, 19)
    }
}

fn within_term(date: &Date, start: Option<Date>, end: Option<Date>) -> (r: bool)
    ensures
        r == match (start, end) {
            (Some(s), Some(e)) => date_le(s@, date@) && date_le(date@, e@),
            _ => false,
        },
{
    match (start, end) {
        (Some(s), Some(e)) => is_on_or_before(&s, date) && is_on_or_before(date, &e),
        _ => false,
    }
}

/// Whether the date falls in Rochdale school term time.
pub fn is_rochdale_term_time(date: Date) -> (r: bool)
    ensures
        r == is_term_time(date@),
{
    let year = date.year;
    let t1 = within_term(&date, from_ymd_opt(year, 1, 5), from_ymd_opt(year, 2, 13));
    let t2 = within_term(&date, from_ymd_opt(year, 2, 23), from_ymd_opt(year, 3, 27));
    let t3 = within_term(&date, from_ymd_opt(year, 4, 13), from_ymd_opt(year, 5, 22));
    let t4 = within_term(&date, from_ymd_opt(year, 6, 1), from_ymd_opt(year, 7, 21));
    let t5 = within_term(&date, from_ymd_opt(year, 9, 2), from_ymd_opt(year, 10, 23));
    let t6 = within_term(&date, from_ymd_opt(year, 11, 3), from_ymd_opt(year, 12, 19));
    t1 || t2 || t3 || t4 || t5 || t6
}

/// Calls `chrono::Local::now().date_naive()`: today's date in the local time
/// zone. What date that is depends on the clock and is not stated; it is a
/// valid date.
#[verifier::external_body]
pub fn today() -> (d: Date)
    ensures
        d.is_valid(),
{
    let nd = Local::now().date_naive();
    Date { year: nd.year(), month: nd.month(), day: nd.day() }
}

/// The date 1825 days (five years) before `today`: records older than it
/// need not be kept.
pub fn retention_cutoff(today: Date) -> (r: Date)
    requires
        today.is_valid(),
        valid_ymd(date_plus(today@, -1825)),
    ensures
        r@ == date_plus(today@, -1825),
        date_le(r@, today@) && r@ != today@,
{
    proof {
        lemma_days_before_earlier(today@, 1825);
    }
    add_days(&today, -1825)
}

/// Every day of the given month, in order.
pub fn generate_month(year: i32, month: u32) -> (dates: Vec<Date>)
    requires
        valid_ymd((year as int, month as int, 1)),
        year < MAX_YEAR || month < 12,
    ensures
        dates@.len() == days_in_month(year as int, month as int),
        forall|i: int| 0 <= i < dates@.len() ==> #[trigger] dates@[i]@ == (year as int, month as int, i + 1),
{
    let first_day = from_ymd_opt(year, month, 1).unwrap();
    let mut dates: Vec<Date> = Vec::new();
    let mut current_date = first_day;
    let ghost dim = days_in_month(year as int, month as int);
    while current_date.month == month
        invariant
            valid_ymd((year as int, month as int, 1)),
            year < MAX_YEAR || month < 12,
            dim == days_in_month(year as int, month as int),
            dates@.len() <= dim,
            forall|i: int| 0 <= i < dates@.len() ==> #[trigger] dates@[i]@ == (year as int, month as int, i + 1),
            current_date.is_valid(),
            dates@.len() < dim ==> current_date@ == (year as int, month as int, dates@.len() as int + 1),
            dates@.len() == dim ==> current_date@ == next_day((year as int, month as int, dim)),
        decreases dim - dates@.len(),
    {
        proof {
            lemma_date_plus_one(current_date@);
            lemma_next_day_valid(current_date@);
        }
        dates.push(current_date);
        current_date = add_days(&current_date, 1);
    }
    dates
}

/// Whether the date is a Saturday or a Sunday.
pub fn is_weekend(date: Date) -> (r: bool)
    requires
        date.is_valid(),
    ensures
        r == (weekday_of(date@) == 5 || weekday_of(date@) == 6),
{
    match weekday(&date) {
        Weekday::Sat | Weekday::Sun => true,
        _ => false,
    }
}

/// Whether the date is one of the given holidays.
pub fn is_bank_holiday(date: Date, bank_holidays: &[BankHoliday]) -> (r: bool)
    ensures
        r == exists|i: int| 0 <= i < bank_holidays@.len() && #[trigger] bank_holidays@[i].date == date,
{
    let mut i: usize = 0;
    while i < bank_holidays.len()
        invariant
            i <= bank_holidays@.len(),
            forall|j: int| 0 <= j < i ==> #[trigger] bank_holidays@[j].date != date,
        decreases bank_holidays@.len() - i,
    {
        if bank_holidays[i].date == date {
            return true;
        }
        i += 1;
    }
    false
}


/// Integer division rounding toward zero, as Rust's `/` on integers does.
#[verifier::opaque]
pub open spec fn tdiv(a: int, b: int) -> int {
    if a >= 0 {
        a / b
    } else {
        -((-a) / b)
    }
}

/// The remainder of [`tdiv`], as Rust's `%` on integers gives it.
#[verifier::opaque]
pub open spec fn tmod(a: int, b: int) -> int {
    a - b * tdiv(a, b)
}

/// How many days after 22 March Easter Sunday of `year` falls, by the
/// anonymous Gregorian computus, with Rust's rounding of integer division
/// toward zero.
pub open spec fn easter_offset(year: int) -> int {
    let a = tmod(year, 19);
    let b = tdiv(year, 100);
    let c = tmod(year, 100);
    let d = tdiv(b, 4);
    let e = tmod(b, 4);
    let f = tdiv(b + 8, 25);
    let g = tdiv(b - f + 1, 3);
    let h = tmod(19 * a + b - d - g + 15, 30);
    let i = tdiv(c, 4);
    let k = tmod(c, 4);
    let l = tmod(32 + 2 * e + 2 * i - h - k, 7);
    let m = tdiv(a + 11 * h + 22 * l, 451);
    h + l - 7 * m
}

/// The month and day of Easter Sunday in `year`.
pub open spec fn easter_month_day(year: int) -> (int, int) {
    let t = easter_offset(year);
    (tdiv(t + 114, 31), tmod(t + 114, 31) + 1)
}

/// Easter Sunday of `year`.
pub open spec fn easter_date(year: int) -> DateView {
    (year, easter_month_day(year).0, easter_month_day(year).1)
}

proof fn lemma_tmod_bounds(a: int, b: int)
    requires
        b > 0,
    ensures
        -b < tmod(a, b) < b,
        a >= 0 ==> 0 <= tmod(a, b),
        a <= 0 ==> tmod(a, b) <= 0,
{
    reveal(tdiv);
    reveal(tmod);
    if a >= 0 {
        vstd::arithmetic::div_mod::lemma_fundamental_div_mod(a, b);
        vstd::arithmetic::div_mod::lemma_mod_bound(a, b);
        assert(tmod(a, b) == a % b);
    } else {
        vstd::arithmetic::div_mod::lemma_fundamental_div_mod(-a, b);
        vstd::arithmetic::div_mod::lemma_mod_bound(-a, b);
        let q = (-a) / b;
        let r = (-a) % b;
        assert(b * (-q) == -(b * q)) by (nonlinear_arith);
        assert(tmod(a, b) == -r);
    }
}

proof fn lemma_tdiv_bounds(a: int, b: int, lo: int, hi: int)
    requires
        b > 0,
        lo <= a <= hi,
    ensures
        tdiv(lo, b) <= tdiv(a, b) <= tdiv(hi, b),
{
    reveal(tdiv);
    if lo >= 0 {
        vstd::arithmetic::div_mod::lemma_div_is_ordered(lo, a, b);
        vstd::arithmetic::div_mod::lemma_div_is_ordered(a, hi, b);
    } else if a >= 0 {
        vstd::arithmetic::div_mod::lemma_div_is_ordered(a, hi, b);
    } else if hi >= 0 {
        vstd::arithmetic::div_mod::lemma_div_is_ordered(-a, -lo, b);
    } else {
        vstd::arithmetic::div_mod::lemma_div_is_ordered(-a, -lo, b);
        vstd::arithmetic::div_mod::lemma_div_is_ordered(-hi, -a, b);
    }
}

/// Whatever the year, the computus puts Easter in February to May.
pub proof fn lemma_easter_month_range(year: int)
    ensures
        2 <= easter_month_day(year).0 <= 5,
{
    let a = tmod(year, 19);
    let b = tdiv(year, 100);
    let c = tmod(year, 100);
    let d = tdiv(b, 4);
    let e = tmod(b, 4);
    let f = tdiv(b + 8, 25);
    let g = tdiv(b - f + 1, 3);
    let h = tmod(19 * a + b - d - g + 15, 30);
    let i = tdiv(c, 4);
    let k = tmod(c, 4);
    let l = tmod(32 + 2 * e + 2 * i - h - k, 7);
    let m = tdiv(a + 11 * h + 22 * l, 451);
    lemma_tmod_bounds(year, 19);
    lemma_tmod_bounds(19 * a + b - d - g + 15, 30);
    lemma_tmod_bounds(32 + 2 * e + 2 * i - h - k, 7);
    lemma_tdiv_bounds(a + 11 * h + 22 * l, 451, -469, 469);
    reveal(tdiv);
    assert(tdiv(-469, 451) == -1);
    assert(tdiv(469, 451) == 1);
    lemma_tdiv_bounds(h + l - 7 * m + 114, 31, 72, 156);
    assert(tdiv(72, 31) == 2);
    assert(tdiv(156, 31) == 5);
}

fn div_toward_zero(a: i32, b: i32) -> (q: i32)
    requires
        b > 0,
    ensures
        q == tdiv(a as int, b as int),
{
    reveal(tdiv);
    a / b
}

fn rem_toward_zero(a: i32, b: i32) -> (r: i32)
    requires
        b > 0,
    ensures
        r == tmod(a as int, b as int),
{
    reveal(tdiv);
    reveal(tmod);
    let r = a % b;
    proof {
        if a >= 0 {
            vstd::arithmetic::div_mod::lemma_fundamental_div_mod(a as int, b as int);
        } else {
            vstd::arithmetic::div_mod::lemma_fundamental_div_mod(-a, b as int);
            let q = (-a) / (b as int);
            assert(b * (-q) == -(b * q)) by (nonlinear_arith);
        }
    }
    r
}

/// Easter Sunday of `year`.
fn easter_sunday(year: i32) -> (r: Date)
    requires
        valid_ymd(easter_date(year as int)),
    ensures
        r@ == easter_date(year as int),
        year >= 0 ==> weekday_of(r@) == 6,
        year >= 0 ==> (r.month == 3 && 22 <= r.day <= 31) || (r.month == 4 && 1 <= r.day <= 25),
{
    proof {
        if year >= 0 {
            lemma_easter_is_a_spring_sunday(year as int);
        }
    }
    let a = rem_toward_zero(year, 19);
    let b = div_toward_zero(year, 100);
    let c = rem_toward_zero(year, 100);
    proof {
        lemma_tmod_bounds(year as int, 19);
        lemma_tmod_bounds(year as int, 100);
        lemma_tdiv_bounds(year as int, 100, i32::MIN as int, i32::MAX as int);
        reveal(tdiv);
    }
    let d = div_toward_zero(b, 4);
    let e = rem_toward_zero(b, 4);
    proof {
        lemma_tmod_bounds(b as int, 4);
        lemma_tdiv_bounds(b as int, 4, -21474837, 21474837);
        reveal(tdiv);
    }
    let f = div_toward_zero(b + 8, 25);
    proof {
        lemma_tdiv_bounds(b + 8, 25, -21474837, 21474845);
        reveal(tdiv);
    }
    let g = div_toward_zero(b - f + 1, 3);
    proof {
        lemma_tdiv_bounds(b - f + 1, 3, -22333831, 22333831);
        reveal(tdiv);
    }
    let h = rem_toward_zero(19 * a + b - d - g + 15, 30);
    proof {
        lemma_tmod_bounds(19 * a + b - d - g + 15, 30);
    }
    let i = div_toward_zero(c, 4);
    let k = rem_toward_zero(c, 4);
    proof {
        lemma_tmod_bounds(c as int, 4);
        lemma_tdiv_bounds(c as int, 4, -99, 99);
        reveal(tdiv);
    }
    let l = rem_toward_zero(32 + 2 * e + 2 * i - h - k, 7);
    proof {
        lemma_tmod_bounds(32 + 2 * e + 2 * i - h - k, 7);
    }
    let m = div_toward_zero(a + 11 * h + 22 * l, 451);
    proof {
        lemma_tdiv_bounds(a + 11 * h + 22 * l, 451, -469, 469);
        reveal(tdiv);
    }
    let month = div_toward_zero(h + l - 7 * m + 114, 31);
    let day = rem_toward_zero(h + l - 7 * m + 114, 31) + 1;
    proof {
        lemma_tmod_bounds(h + l - 7 * m + 114, 31);
    }
    from_ymd_opt(year, month as u32, day as u32).unwrap()
}


/// The first Monday in May of `year`.
pub open spec fn first_monday_of_may_date(year: int) -> DateView {
    (year, 5, 1 + (7 - weekday_index(year, 5, 1)) % 7)
}

/// The last Monday in May of `year`.
pub open spec fn last_monday_of_may_date(year: int) -> DateView {
    (year, 5, 31 - weekday_index(year, 5, 31))
}

/// The last Monday in August of `year`.
pub open spec fn last_monday_of_august_date(year: int) -> DateView {
    (year, 8, 31 - weekday_index(year, 8, 31))
}

/// The weekday `j` days after a day with weekday `w0`.
spec fn shifted_weekday(w0: int, j: int) -> int {
    (w0 + j) % 7
}

/// Some weekday among seven consecutive days is a Monday.
proof fn lemma_week_has_monday(w0: int, k: int)
    requires
        0 <= k,
        forall|j: int| 0 <= j <= k ==> #[trigger] shifted_weekday(w0, j) != 0,
    ensures
        k < 6,
{
    let j0 = (7 - w0 % 7) % 7;
    assert(shifted_weekday(w0, j0) == 0);
}

fn first_monday_of_may(year: i32) -> (r: Date)
    requires
        year_in_range(year as int),
    ensures
        0 <= weekday_index(year as int, 5, 1) < 7,
        r@ == first_monday_of_may_date(year as int),
        weekday_of(r@) == 0,
{
    let mut date = from_ymd_opt(year, 5, 1).unwrap();
    let ghost w0 = weekday_index(year as int, 5, 1);
    let ghost mut k: int = 0;
    while weekday(&date) != Weekday::Mon
        invariant
            year_in_range(year as int),
            w0 == weekday_index(year as int, 5, 1),
            0 <= k <= 6,
            date@ == (year as int, 5int, 1 + k),
            (weekday_of(date@) - w0 - k) % 7 == 0,
            forall|j: int| 0 <= j < k ==> #[trigger] shifted_weekday(w0, j) != 0,
            k > 0 ==> 0 <= w0 < 7,
        decreases 6 - k,
    {
        proof {
            assert(shifted_weekday(w0, k) != 0);
            lemma_week_has_monday(w0, k);
            lemma_date_plus_one(date@);
            lemma_weekday_shift(date@, 1);
        }
        date = add_days(&date, 1);
        proof {
            k = k + 1;
        }
    }
    date
}

fn last_monday_of_may(year: i32) -> (r: Date)
    requires
        year_in_range(year as int),
    ensures
        0 <= weekday_index(year as int, 5, 31) < 7,
        r@ == last_monday_of_may_date(year as int),
        weekday_of(r@) == 0,
{
    let mut date = from_ymd_opt(year, 5, 31).unwrap();
    let ghost w0 = weekday_index(year as int, 5, 31);
    let ghost mut k: int = 0;
    while weekday(&date) != Weekday::Mon
        invariant
            year_in_range(year as int),
            w0 == weekday_index(year as int, 5, 31),
            0 <= k <= 6,
            date@ == (year as int, 5int, 31 - k),
            (weekday_of(date@) - w0 + k) % 7 == 0,
            forall|j: int| 0 <= j < k ==> #[trigger] shifted_weekday(-w0, j) != 0,
            k > 0 ==> 0 <= w0 < 7,
        decreases 6 - k,
    {
        proof {
            assert(shifted_weekday(-w0, k) != 0);
            lemma_week_has_monday(-w0, k);
            lemma_date_minus_one(date@);
            lemma_weekday_shift(date@, -1);
        }
        date = add_days(&date, -1);
        proof {
            k = k + 1;
        }
    }
    date
}

fn last_monday_of_august(year: i32) -> (r: Date)
    requires
        year_in_range(year as int),
    ensures
        0 <= weekday_index(year as int, 8, 31) < 7,
        r@ == last_monday_of_august_date(year as int),
        weekday_of(r@) == 0,
{
    let mut date = from_ymd_opt(year, 8, 31).unwrap();
    let ghost w0 = weekday_index(year as int, 8, 31);
    let ghost mut k: int = 0;
    while weekday(&date) != Weekday::Mon
        invariant
            year_in_range(year as int),
            w0 == weekday_index(year as int, 8, 31),
            0 <= k <= 6,
            date@ == (year as int, 8int, 31 - k),
            (weekday_of(date@) - w0 + k) % 7 == 0,
            forall|j: int| 0 <= j < k ==> #[trigger] shifted_weekday(-w0, j) != 0,
            k > 0 ==> 0 <= w0 < 7,
        decreases 6 - k,
    {
        proof {
            assert(shifted_weekday(-w0, k) != 0);
            lemma_week_has_monday(-w0, k);
            lemma_date_minus_one(date@);
            lemma_weekday_shift(date@, -1);
        }
        date = add_days(&date, -1);
        proof {
            k = k + 1;
        }
    }
    date
}


/// The substitute day for a holiday `name` on `date`: the Monday after, when
/// the holiday falls on a Saturday or a Sunday.
pub open spec fn single_substitute(date: DateView, name: Seq<char>) -> Seq<(DateView, Seq<char>)> {
    if weekday_of(date) == 5 {
        seq![(date_plus(date, 2), name + " (substitute)"@)]
    } else if weekday_of(date) == 6 {
        seq![(date_plus(date, 1), name + " (substitute)"@)]
    } else {
        seq![]
    }
}

/// The substitute days for Christmas Day and Boxing Day. When Christmas Day
/// is a Saturday and Boxing Day a Sunday, both move by two days (to the
/// Monday and the Tuesday). When Christmas Day is a Sunday, its substitute is
/// the Tuesday after, since the Monday is already Boxing Day. Otherwise each
/// is substituted on its own.
pub open spec fn christmas_substitutes(christmas_day: DateView, boxing_day: DateView) -> Seq<
    (DateView, Seq<char>),
> {
    if weekday_of(christmas_day) == 5 && weekday_of(boxing_day) == 6 {
        seq![
            (date_plus(christmas_day, 2), "Christmas Day (substitute)"@),
            (date_plus(boxing_day, 2), "Boxing Day (substitute)"@),
        ]
    } else if weekday_of(christmas_day) == 6 {
        seq![(date_plus(christmas_day, 2), "Christmas Day (substitute)"@)] + single_substitute(
            boxing_day,
            "Boxing Day"@,
        )
    } else {
        single_substitute(christmas_day, "Christmas Day"@) + single_substitute(
            boxing_day,
            "Boxing Day"@,
        )
    }
}

fn add_single_substitute_day(holidays: &mut Vec<BankHoliday>, date: Date, name: &str)
    requires
        date.is_valid(),
        valid_ymd(date_plus(date@, 1)),
        valid_ymd(date_plus(date@, 2)),
    ensures
        holidays_view(final(holidays)@) == holidays_view(old(holidays)@) + single_substitute(
            date@,
            name@,
        ),
        forall|i: int|
            old(holidays)@.len() <= i < final(holidays)@.len() ==> weekday_of(
                #[trigger] final(holidays)@[i].date@,
            ) == 0,
{
    let ghost before = holidays@;
    proof {
        lemma_weekday_shift(date@, 1);
        lemma_weekday_shift(date@, 2);
    }
    match weekday(&date) {
        Weekday::Sat => {
            let mut label = String::from_str(name);
            label.append(" (substitute)");
            holidays.push(BankHoliday { date: add_days(&date, 2), name: label });
        },
        Weekday::Sun => {
            let mut label = String::from_str(name);
            label.append(" (substitute)");
            holidays.push(BankHoliday { date: add_days(&date, 1), name: label });
        },
        _ => {},
    }
    assert(holidays_view(holidays@) =~= holidays_view(before) + single_substitute(date@, name@));
}

fn add_christmas_substitute_days(holidays: &mut Vec<BankHoliday>, christmas_day: Date, boxing_day: Date)
    requires
        christmas_day.is_valid(),
        boxing_day.is_valid(),
        valid_ymd(date_plus(christmas_day@, 1)),
        valid_ymd(date_plus(christmas_day@, 2)),
        valid_ymd(date_plus(boxing_day@, 1)),
        valid_ymd(date_plus(boxing_day@, 2)),
    ensures
        holidays_view(final(holidays)@) == holidays_view(old(holidays)@) + christmas_substitutes(
            christmas_day@,
            boxing_day@,
        ),
        forall|i: int|
            old(holidays)@.len() <= i < final(holidays)@.len() ==> {
                let w = weekday_of(#[trigger] final(holidays)@[i].date@);
                w == 0 || w == 1
            },
{
    let ghost before = holidays@;
    proof {
        lemma_weekday_shift(christmas_day@, 2);
        lemma_weekday_shift(boxing_day@, 2);
    }
    if weekday(&christmas_day) == Weekday::Sat && weekday(&boxing_day) == Weekday::Sun {
        holidays.push(
            BankHoliday {
                date: add_days(&christmas_day, 2),
                name: String::from_str("Christmas Day (substitute)"),
            },
        );
        holidays.push(
            BankHoliday {
                date: add_days(&boxing_day, 2),
                name: String::from_str("Boxing Day (substitute)"),
            },
        );
        assert(holidays_view(holidays@) =~= holidays_view(before) + christmas_substitutes(
            christmas_day@,
            boxing_day@,
        ));
    } else if weekday(&christmas_day) == Weekday::Sun {
        holidays.push(
            BankHoliday {
                date: add_days(&christmas_day, 2),
                name: String::from_str("Christmas Day (substitute)"),
            },
        );
        let ghost middle = holidays@;
        add_single_substitute_day(holidays, boxing_day, "Boxing Day");
        assert forall|i: int| before.len() <= i < holidays@.len() implies {
            let w = weekday_of(#[trigger] holidays@[i].date@);
            w == 0 || w == 1
        } by {
            if i < middle.len() {
                assert(holidays_view(holidays@)[i] == holidays_view(middle)[i]);
            }
        }
        assert(holidays_view(holidays@) =~= holidays_view(before) + christmas_substitutes(
            christmas_day@,
            boxing_day@,
        ));
    } else {
        add_single_substitute_day(holidays, christmas_day, "Christmas Day");
        let ghost middle = holidays@;
        add_single_substitute_day(holidays, boxing_day, "Boxing Day");
        assert forall|i: int| before.len() <= i < holidays@.len() implies {
            let w = weekday_of(#[trigger] holidays@[i].date@);
            w == 0 || w == 1
        } by {
            if i < middle.len() {
                assert(holidays_view(holidays@)[i] == holidays_view(middle)[i]);
            }
        }
        assert(holidays_view(holidays@) =~= holidays_view(before) + christmas_substitutes(
            christmas_day@,
            boxing_day@,
        ));
    }
}


/// The bank holidays of England and Wales in `year`, in the order they are
/// listed: New Year's Day, Good Friday, Easter Monday, the early May, spring
/// and summer bank holidays, Christmas Day and Boxing Day, then the
/// substitute days for New Year's Day and for Christmas and Boxing Day.
pub open spec fn uk_bank_holidays_spec(year: int) -> Seq<(DateView, Seq<char>)> {
    let easter = easter_date(year);
    let new_years_day = (year, 1, 1);
    let christmas_day = (year, 12, 25);
    let boxing_day = (year, 12, 26);
    seq![
        (new_years_day, "New Year's Day"@),
        (date_plus(easter, -2), "Good Friday"@),
        (date_plus(easter, 1), "Easter Monday"@),
        (first_monday_of_may_date(year), "Early May Bank Holiday"@),
        (last_monday_of_may_date(year), "Spring Bank Holiday"@),
        (last_monday_of_august_date(year), "Summer Bank Holiday"@),
        (christmas_day, "Christmas Day"@),
        (boxing_day, "Boxing Day"@),
    ] + single_substitute(new_years_day, "New Year's Day"@) + christmas_substitutes(
        christmas_day,
        boxing_day,
    )
}

/// The bank holidays of England and Wales in `year`, with the substitute
/// weekdays for holidays that fall on a weekend.
pub fn uk_bank_holidays(year: i32) -> (holidays: Vec<BankHoliday>)
    requires
        valid_ymd(easter_date(year as int)),
    ensures
        holidays_view(holidays@) == uk_bank_holidays_spec(year as int),
        forall|i: int| 0 <= i < holidays@.len() ==> (#[trigger] holidays@[i]).date.year == year,
        forall|i: int|
            8 <= i < holidays@.len() ==> {
                let w = weekday_of(#[trigger] holidays@[i].date@);
                w == 0 || w == 1
            },
        weekday_of(holidays@[3].date@) == 0 && holidays@[3].date.month == 5 && holidays@[3].date.day
            <= 7,
        weekday_of(holidays@[4].date@) == 0 && holidays@[4].date.month == 5 && holidays@[4].date.day
            >= 25,
        weekday_of(holidays@[5].date@) == 0 && holidays@[5].date.month == 8 && holidays@[5].date.day
            >= 25,
        year >= 0 ==> weekday_of(holidays@[1].date@) == 4 && weekday_of(holidays@[2].date@) == 0,
{
    let easter = easter_sunday(year);
    let new_years_day = from_ymd_opt(year, 1, 1).unwrap();
    let christmas_day = from_ymd_opt(year, 12, 25).unwrap();
    let boxing_day = from_ymd_opt(year, 12, 26).unwrap();
    proof {
        lemma_easter_month_range(year as int);
        lemma_weekday_shift(easter@, -2);
        lemma_weekday_shift(easter@, 1);
        lemma_date_minus_two(easter@);
        lemma_date_plus_one(easter@);
        lemma_date_plus_one(new_years_day@);
        lemma_date_plus_two(new_years_day@);
        lemma_date_plus_one(christmas_day@);
        lemma_date_plus_two(christmas_day@);
        lemma_date_plus_one(boxing_day@);
        lemma_date_plus_two(boxing_day@);
    }
    let mut holidays = vec![
        BankHoliday { date: new_years_day, name: String::from_str("New Year's Day") },
        BankHoliday { date: add_days(&easter, -2), name: String::from_str("Good Friday") },
        BankHoliday { date: add_days(&easter, 1), name: String::from_str("Easter Monday") },
        BankHoliday {
            date: first_monday_of_may(year),
            name: String::from_str("Early May Bank Holiday"),
        },
        BankHoliday {
            date: last_monday_of_may(year),
            name: String::from_str("Spring Bank Holiday"),
        },
        BankHoliday {
            date: last_monday_of_august(year),
            name: String::from_str("Summer Bank Holiday"),
        },
        BankHoliday { date: christmas_day, name: String::from_str("Christmas Day") },
        BankHoliday { date: boxing_day, name: String::from_str("Boxing Day") },
    ];
    assert(holidays_view(holidays@) =~= uk_bank_holidays_spec(year as int).take(8));
    let ghost base = holidays@;
    add_single_substitute_day(&mut holidays, new_years_day, "New Year's Day");
    let ghost middle = holidays@;
    add_christmas_substitute_days(&mut holidays, christmas_day, boxing_day);
    assert forall|i: int| 8 <= i < holidays@.len() implies {
        let w = weekday_of(#[trigger] holidays@[i].date@);
        w == 0 || w == 1
    } by {
        if i < middle.len() {
            assert(holidays_view(holidays@)[i] == holidays_view(middle)[i]);
        }
    }
    assert(holidays_view(holidays@) =~= uk_bank_holidays_spec(year as int));
    assert(holidays_view(holidays@)[1] == holidays_view(base)[1]);
    assert(holidays_view(holidays@)[2] == holidays_view(base)[2]);
    assert(holidays_view(holidays@)[3] == holidays_view(base)[3]);
    assert(holidays_view(holidays@)[4] == holidays_view(base)[4]);
    assert(holidays_view(holidays@)[5] == holidays_view(base)[5]);
    assert forall|i: int| 0 <= i < holidays@.len() implies (#[trigger] holidays@[i]).date.year
        == year by {
        assert(holidays_view(holidays@)[i] == uk_bank_holidays_spec(year as int)[i]);
    }
    holidays
}


/// When Christmas Day falls on a Saturday and Boxing Day on a Sunday, the
/// Christmas substitute is the Monday after (27 December) and the Boxing Day
/// substitute the Tuesday (28 December).
pub proof fn law_weekend_christmas_substitutes(year: int)
    requires
        weekday_of((year, 12, 25)) == 5,
        weekday_of((year, 12, 26)) == 6,
    ensures
        ({
            let holidays = uk_bank_holidays_spec(year);
            let n = holidays.len();
            &&& holidays[n - 2] == ((year, 12int, 27int), "Christmas Day (substitute)"@)
            &&& holidays[n - 1] == ((year, 12int, 28int), "Boxing Day (substitute)"@)
        }),
{
    lemma_date_plus_two((year, 12, 25));
    lemma_date_plus_two((year, 12, 26));
}


proof fn lemma_easter_offset_range(y: int)
    requires
        0 <= y,
    ensures
        0 <= easter_offset(y) <= 34,
{
    reveal(tdiv);
    reveal(tmod);
    let a = y % 19;
    let b = y / 100;
    let c = y % 100;
    let d = b / 4;
    let e = b % 4;
    let f = (b + 8) / 25;
    let g = (b - f + 1) / 3;
    assert(b - d - g >= -1) by {
        assert(4 * d <= b);
        assert(3 * g <= b - f + 1);
        assert(f >= 0);
    }
    let h = (19 * a + b - d - g + 15) % 30;
    let i = c / 4;
    let k = c % 4;
    let l = (32 + 2 * e + 2 * i - h - k) % 7;
    let mx = a + 11 * h + 22 * l;
    assert(0 <= mx <= 469);
    assert(mx / 451 == 0 || mx / 451 == 1);
    assert(mx / 451 == 1 <==> mx >= 451);
}

proof fn lemma_easter_offset_weekday(y: int)
    requires
        0 <= y,
    ensures
        (365 * y - 365 + y / 4 - y / 100 + y / 400 + 80 + easter_offset(y)) % 7 == 6,
{
    reveal(tdiv);
    reveal(tmod);
    let b = y / 100;
    let c = y % 100;
    let d = b / 4;
    let e = b % 4;
    let i = c / 4;
    let k = c % 4;
    let a = y % 19;
    let f = (b + 8) / 25;
    let g = (b - f + 1) / 3;
    let h = (19 * a + b - d - g + 15) % 30;
    let lx = 32 + 2 * e + 2 * i - h - k;
    let l = lx % 7;
    let m = (a + 11 * h + 22 * l) / 451;
    let q = lx / 7;
    assert(easter_offset(y) == h + l - 7 * m);
    vstd::arithmetic::div_mod::lemma_fundamental_div_mod(y, 100);
    vstd::arithmetic::div_mod::lemma_fundamental_div_mod(c, 4);
    vstd::arithmetic::div_mod::lemma_fundamental_div_mod(b, 4);
    vstd::arithmetic::div_mod::lemma_fundamental_div_mod(lx, 7);
    vstd::arithmetic::div_mod::lemma_fundamental_div_mod_converse(y, 4, 25 * b + i, k);
    vstd::arithmetic::div_mod::lemma_fundamental_div_mod_converse(y, 400, d, 100 * e + c);
    let x = 365 * y - 365 + y / 4 - y / 100 + y / 400 + 80 + easter_offset(y);
    let kk = 20871 * d + 5218 * e + 209 * i + 52 * k - 37 - q - m;
    assert(x == 7 * kk + 6);
    vstd::arithmetic::div_mod::lemma_fundamental_div_mod_converse(x, 7, kk, 6);
}

proof fn lemma_march_day_number(y: int, month: int, day: int, t: int)
    requires
        0 <= t <= 34,
        month == (t + 114) / 31,
        day == (t + 114) % 31 + 1,
    ensures
        day_number(y, month, day) == 365 * y - 365 + y / 4 - y / 100 + y / 400 + 81 + t,
{
    reveal(day_number);
    assert(y / 100 - (y - 1) / 100 == if y % 100 == 0 {
        1int
    } else {
        0
    });
    assert(y / 4 - (y - 1) / 4 == if y % 4 == 0 {
        1int
    } else {
        0
    });
    assert(y / 400 - (y - 1) / 400 == if y % 400 == 0 {
        1int
    } else {
        0
    });
}

/// For years from 0 on, the computus puts Easter Sunday between 22 March and
/// 25 April, on a Sunday; so for those years in the supported range it is a
/// valid date.
pub proof fn lemma_easter_is_a_spring_sunday(year: int)
    requires
        0 <= year,
    ensures
        ({
            let e = easter_date(year);
            ||| e.1 == 3 && 22 <= e.2 <= 31
            ||| e.1 == 4 && 1 <= e.2 <= 25
        }),
        weekday_of(easter_date(year)) == 6,
        year <= MAX_YEAR ==> valid_ymd(easter_date(year)),
{
    lemma_easter_offset_range(year);
    lemma_easter_offset_weekday(year);
    let t = easter_offset(year);
    reveal(tdiv);
    reveal(tmod);
    assert(easter_month_day(year) == ((t + 114) / 31, (t + 114) % 31 + 1));
    lemma_march_day_number(year, (t + 114) / 31, (t + 114) % 31 + 1, t);
    reveal(weekday_index);
}


/// For the years from 0 on, no two bank holidays (substitute days included)
/// fall on the same date.
pub proof fn law_bank_holidays_on_distinct_dates(year: int)
    requires
        0 <= year <= MAX_YEAR,
    ensures
        ({
            let holidays = uk_bank_holidays_spec(year);
            forall|i: int, j: int|
                0 <= i < j < holidays.len() ==> (#[trigger] holidays[i]).0 != (#[trigger] holidays[j]).0
        }),
{
    let y = year;
    lemma_easter_is_a_spring_sunday(y);
    let e = easter_date(y);
    lemma_date_minus_two(e);
    lemma_date_plus_one(e);
    lemma_weekday_shift((y, 5, 1), 0);
    lemma_weekday_shift((y, 5, 31), 0);
    lemma_weekday_shift((y, 8, 31), 0);
    lemma_weekday_shift((y, 1, 1), 0);
    lemma_weekday_shift((y, 12, 25), 1);
    lemma_date_plus_one((y, 12, 25));
    lemma_date_plus_one((y, 1, 1));
    lemma_date_plus_two((y, 1, 1));
    lemma_date_plus_one((y, 12, 26));
    lemma_date_plus_two((y, 12, 25));
    lemma_date_plus_two((y, 12, 26));
    let w1 = weekday_of((y, 1, 1));
    let w25 = weekday_of((y, 12, 25));
    let w26 = weekday_of((y, 12, 26));
    assert(w26 == (w25 + 1) % 7);
    let ny: Seq<(DateView, Seq<char>)> = single_substitute((y, 1, 1), "New Year's Day"@);
    let xs: Seq<(DateView, Seq<char>)> = christmas_substitutes((y, 12, 25), (y, 12, 26));
    // The substitute days lie on 2 or 3 January and on 27 or 28 December.
    assert(ny.len() <= 1 && forall|k: int| 0 <= k < ny.len() ==> (#[trigger] ny[k]).0 == (y, 1int, 2int)
        || ny[k].0 == (y, 1int, 3int));
    assert(xs.len() <= 2);
    assert(xs.len() >= 1 ==> xs[0].0 == (y, 12int, 27int) || xs[0].0 == (y, 12int, 28int));
    assert(xs.len() == 2 ==> xs[0].0 == (y, 12int, 27int) && xs[1].0 == (y, 12int, 28int));
    let holidays = uk_bank_holidays_spec(y);
    let base = holidays.take(8);
    assert(holidays =~= base + ny + xs);
    assert forall|i: int, j: int| 0 <= i < j < holidays.len() implies (#[trigger] holidays[i]).0
        != (#[trigger] holidays[j]).0 by {
        if j >= 8 + ny.len() {
            assert(holidays[j] == xs[j - 8 - ny.len()]);
        } else if j >= 8 {
            assert(holidays[j] == ny[j - 8]);
        }
        if i >= 8 + ny.len() {
            assert(holidays[i] == xs[i - 8 - ny.len()]);
        } else if i >= 8 {
            assert(holidays[i] == ny[i - 8]);
        }
    }
}


/// Every fixed holiday that falls on a weekend has its substitute in the
/// list: New Year's Day on a Saturday or Sunday moves to the Monday (3 or 2
/// January); Christmas Day on a Saturday or Sunday moves to 27 December;
/// Boxing Day on a Saturday or Sunday moves to 28 December.
pub proof fn law_weekend_holidays_have_substitutes(year: int)
    ensures
        weekday_of((year, 1, 1)) == 5 ==> uk_bank_holidays_spec(year).contains(
            ((year, 1int, 3int), "New Year's Day (substitute)"@),
        ),
        weekday_of((year, 1, 1)) == 6 ==> uk_bank_holidays_spec(year).contains(
            ((year, 1int, 2int), "New Year's Day (substitute)"@),
        ),
        (weekday_of((year, 12, 25)) == 5 || weekday_of((year, 12, 25)) == 6)
            ==> uk_bank_holidays_spec(year).contains(
            ((year, 12int, 27int), "Christmas Day (substitute)"@),
        ),
        (weekday_of((year, 12, 26)) == 5 || weekday_of((year, 12, 26)) == 6)
            ==> uk_bank_holidays_spec(year).contains(
            ((year, 12int, 28int), "Boxing Day (substitute)"@),
        ),
{
    reveal_strlit("New Year's Day (substitute)");
    reveal_strlit("New Year's Day");
    reveal_strlit("Boxing Day (substitute)");
    reveal_strlit("Boxing Day");
    reveal_strlit(" (substitute)");
    assert("New Year's Day"@ + " (substitute)"@ =~= "New Year's Day (substitute)"@);
    assert("Boxing Day"@ + " (substitute)"@ =~= "Boxing Day (substitute)"@);
    let y = year;
    lemma_weekday_shift((y, 12, 25), 1);
    lemma_date_plus_one((y, 12, 25));
    lemma_date_plus_one((y, 1, 1));
    lemma_date_plus_two((y, 1, 1));
    lemma_date_plus_two((y, 12, 25));
    lemma_date_plus_two((y, 12, 26));
    let holidays = uk_bank_holidays_spec(y);
    let ny = single_substitute((y, 1, 1), "New Year's Day"@);
    let xs = christmas_substitutes((y, 12, 25), (y, 12, 26));
    let w1 = weekday_of((y, 1, 1));
    let w25 = weekday_of((y, 12, 25));
    let w26 = weekday_of((y, 12, 26));
    assert(w26 == (w25 + 1) % 7);
    assert(holidays =~= holidays.take(8) + ny + xs);
    if w1 == 5 || w1 == 6 {
        assert(holidays[8] == ny[0]);
    }
    let n: int = 8 + ny.len() as int;
    if w25 == 5 {
        assert(holidays[n] == xs[0]);
        assert(holidays[n + 1] == xs[1]);
    } else if w25 == 6 {
        assert(holidays[n] == xs[0]);
    } else if w26 == 5 {
        assert(xs.len() == 1);
        assert(holidays[n] == xs[0]);
    }
}

/// Term time depends on the month and day alone: a day is term time in one
/// supported year exactly when the same month and day is term time in any
/// other.
pub proof fn law_term_time_is_the_same_every_year(y1: int, y2: int, month: int, day: int)
    requires
        year_in_range(y1),
        year_in_range(y2),
    ensures
        is_term_time((y1, month, day)) == is_term_time((y2, month, day)),
{
}

/// In every supported year the terms cover 20 January, 1 March, 1 May, 1 July,
/// 1 October and 1 December, and leave out 1 January, 20 February, 1 April,
/// 1 August, 25 October and 25 December.
pub proof fn law_term_time_landmarks(year: int)
    requires
        year_in_range(year),
    ensures
        is_term_time((year, 1, 20)),
        is_term_time((year, 3, 1)),
        is_term_time((year, 5, 1)),
        is_term_time((year, 7, 1)),
        is_term_time((year, 10, 1)),
        is_term_time((year, 12, 1)),
        !is_term_time((year, 1, 1)),
        !is_term_time((year, 2, 20)),
        !is_term_time((year, 4, 1)),
        !is_term_time((year, 8, 1)),
        !is_term_time((year, 10, 25)),
        !is_term_time((year, 12, 25)),
{
}

} // verus!
