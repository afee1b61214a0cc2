//! Calendar dates as plain numbers. What only a calendar can tell of a date (whether it
//! exists, its week, its weekday, how many days lie between two dates) is asked of `chrono`.

use chrono::{Datelike, NaiveDate, TimeDelta};
use vstd::prelude::*;

verus! {

/// A day of the proleptic Gregorian calendar, given by year, month and day.
#[derive(Debug, Clone, Copy, PartialEq, Eq, Structural)]
pub struct Date {
    pub year: i32,
    pub month: u32,
    pub day: u32,
}

/// A day of the week.
#[derive(Debug, Clone, Copy, PartialEq, Eq, Structural)]
pub enum Weekday {
    Mon,
    Tue,
    Wed,
    Thu,
    Fri,
    Sat,
    Sun,
}

/// The first year that `NaiveDate` holds.
pub const MIN_YEAR: i32 = -262143;

/// The last year that `NaiveDate` holds.
pub const MAX_YEAR: i32 = 262142;

/// Whether the year has a 29th of February.
pub open spec fn is_leap_year(year: int) -> bool {
    year % 4 == 0 && (year % 100 != 0 || year % 400 == 0)
}

/// The number of days of the month.
pub open spec fn days_in_month(year: int, month: int) -> int {
    if month == 2 {
        if is_leap_year(year) {
            29
        } else {
            28
        }
    } else if month == 4 || month == 6 || month == 9 || month == 11 {
        30
    } else {
        31
    }
}

/// The day exists in the calendar, in a year that `NaiveDate` holds.
pub open spec fn is_calendar_date(date: Date) -> bool {
    &&& MIN_YEAR <= date.year <= MAX_YEAR
    &&& 1 <= date.month <= 12
    &&& 1 <= date.day <= days_in_month(date.year as int, date.month as int)
}

/// The number of days of the year that lie before the month.
pub open spec fn days_before_month(year: int, month: int) -> int
    decreases month,
{
    if month <= 1 {
        0
    } else {
        days_before_month(year, month - 1) + days_in_month(year, month - 1)
    }
}

/// The number of days from the first of January of the year 1 up to the year.
pub open spec fn days_before_year(year: int) -> int {
    365 * (year - 1) + (year - 1) / 4 - (year - 1) / 100 + (year - 1) / 400
}

/// The number of the day, counted from the first of January of the year 1 as day 1.
pub open spec fn day_number(date: Date) -> int {
    days_before_year(date.year as int) + days_before_month(date.year as int, date.month as int)
        + date.day
}

/// The first date is an earlier day than the second.
pub open spec fn is_before(a: Date, b: Date) -> bool {
    a.year < b.year || (a.year == b.year && (a.month < b.month || (a.month == b.month && a.day
        < b.day)))
}

/// The ISO 8601 week number of a calendar date, as `chrono` computes it.
pub uninterp spec fn iso_week_of(year: int, month: int, day: int) -> int;

/// The weekday of the day with the given number: day 1 is a Monday, and the weekdays follow
/// one another.
pub open spec fn weekday_on(number: int) -> Weekday {
    let index = (number - 1) % 7;
    if index == 0 {
        Weekday::Mon
    } else if index == 1 {
        Weekday::Tue
    } else if index == 2 {
        Weekday::Wed
    } else if index == 3 {
        Weekday::Thu
    } else if index == 4 {
        Weekday::Fri
    } else if index == 5 {
        Weekday::Sat
    } else {
        Weekday::Sun
    }
}

/// The weekday of a date.
pub open spec fn weekday_of(date: Date) -> Weekday {
    weekday_on(day_number(date))
}

/// `NaiveDate::from_ymd_opt`, which gives a date exactly for the days that exist in the
/// calendar, in the years that `NaiveDate` holds; the date given has the year, month and day
/// asked for.
#[verifier::external_body]
pub(crate) fn checked_date(year: i32, month: u32, day: u32) -> (r: Option<Date>)
    ensures
        r == if is_calendar_date(Date { year, month, day }) {
            Some(Date { year, month, day })
        } else {
            None
        },
{
    match NaiveDate::from_ymd_opt(year, month, day) {
        Some(date) => Some(Date { year: date.year(), month: date.month(), day: date.day() }),
        None => None,
    }
}

/// `IsoWeek::week` of `Datelike::iso_week`: the ISO 8601 week number, from 1 to 53.
#[verifier::external_body]
pub(crate) fn iso_week(date: Date) -> (week: u32)
    requires
        is_calendar_date(date),
    ensures
        week == iso_week_of(date.year as int, date.month as int, date.day as int),
        1 <= week <= 53,
{
    NaiveDate::from_ymd_opt(date.year, date.month, date.day).unwrap().iso_week().week()
}

/// `Datelike::weekday`: the day of the week, which is Monday for the first of January of
/// the year 1 and moves on by one with every day. Stated for the years 1 to 9999.
#[verifier::external_body]
pub(crate) fn weekday(date: Date) -> (r: Weekday)
    requires
        is_calendar_date(date),
        1 <= date.year <= 9999,
    ensures
        r == weekday_of(date),
{
    match NaiveDate::from_ymd_opt(date.year, date.month, date.day).unwrap().weekday() {
        chrono::Weekday::Mon => Weekday::Mon,
        chrono::Weekday::Tue => Weekday::Tue,
        chrono::Weekday::Wed => Weekday::Wed,
        chrono::Weekday::Thu => Weekday::Thu,
        chrono::Weekday::Fri => Weekday::Fri,
        chrono::Weekday::Sat => Weekday::Sat,
        chrono::Weekday::Sun => Weekday::Sun,
    }
}

/// `TimeDelta::num_days` of the difference of two `NaiveDate`s: the number of days from the
/// first date to the second, negative if the second is the earlier one. Stated for the
/// years 1 to 9999.
#[verifier::external_body]
pub(crate) fn days_between(from: Date, to: Date) -> (days: i64)
    requires
        is_calendar_date(from),
        is_calendar_date(to),
        1 <= from.year <= 9999,
        1 <= to.year <= 9999,
    ensures
        days == day_number(to) - day_number(from),
{
    let a = NaiveDate::from_ymd_opt(from.year, from.month, from.day).unwrap();
    let b = NaiveDate::from_ymd_opt(to.year, to.month, to.day).unwrap();
    (b - a).num_days()
}

/// `NaiveDate + TimeDelta::days`: the date that many days later. Stated for the years 1 to
/// 9998 and for up to 366 days, so that the sum never leaves the calendar.
#[verifier::external_body]
pub(crate) fn plus_days(date: Date, days: i64) -> (later: Date)
    requires
        is_calendar_date(date),
        1 <= date.year <= 9998,
        0 <= days <= 366,
    ensures
        is_calendar_date(later),
        day_number(later) == day_number(date) + days,
{
    let start = NaiveDate::from_ymd_opt(date.year, date.month, date.day).unwrap();
    let end = start + TimeDelta::days(days);
    Date { year: end.year(), month: end.month(), day: end.day() }
}

/// A later month of the same year starts after the earlier month has ended.
pub proof fn lemma_months_in_order(year: int, earlier: int, later: int)
    requires
        1 <= earlier < later <= 13,
    ensures
        days_before_month(year, earlier) + days_in_month(year, earlier) <= days_before_month(
            year,
            later,
        ),
        days_before_month(year, earlier) >= 0,
{
    reveal_with_fuel(days_before_month, 14);
}

/// A year has 365 days, or 366 if it is a leap year.
pub proof fn lemma_year_length(year: int)
    ensures
        days_before_year(year + 1) - days_before_year(year) == days_before_month(year, 13),
        days_before_month(year, 13) == if is_leap_year(year) {
            366int
        } else {
            365int
        },
{
    reveal_with_fuel(days_before_month, 14);
}

/// Later years start later.
pub proof fn lemma_years_in_order(earlier: int, later: int)
    requires
        earlier <= later,
    ensures
        days_before_year(earlier) <= days_before_year(later),
{
}

/// The day number of a calendar date lies among those of its year.
pub proof fn lemma_day_number_within_year(date: Date)
    requires
        is_calendar_date(date),
    ensures
        days_before_year(date.year as int) < day_number(date) <= days_before_year(date.year + 1),
{
    lemma_months_in_order(date.year as int, date.month as int, 13);
    lemma_year_length(date.year as int);
}

/// A calendar date that is before another has the smaller day number.
pub proof fn lemma_day_number_in_order(a: Date, b: Date)
    requires
        is_calendar_date(a),
        is_calendar_date(b),
        is_before(a, b),
    ensures
        day_number(a) < day_number(b),
{
    if a.year < b.year {
        lemma_months_in_order(a.year as int, a.month as int, 13);
        lemma_year_length(a.year as int);
        lemma_years_in_order(a.year + 1, b.year as int);
        lemma_months_in_order(b.year as int, 1, 13);
        if b.month > 1 {
            lemma_months_in_order(b.year as int, 1, b.month as int);
        }
    } else if a.month < b.month {
        lemma_months_in_order(a.year as int, a.month as int, b.month as int);
    }
}

/// Two calendar dates with the same day number are the same date.
pub proof fn lemma_day_number_injective(a: Date, b: Date)
    requires
        is_calendar_date(a),
        is_calendar_date(b),
        day_number(a) == day_number(b),
    ensures
        a == b,
{
    if is_before(a, b) {
        lemma_day_number_in_order(a, b);
    } else if is_before(b, a) {
        lemma_day_number_in_order(b, a);
    }
}

/// The calendar date that lies `days` days after `date`.
pub open spec fn date_after(date: Date, days: int) -> Date {
    choose|later: Date| is_calendar_date(later) && day_number(later) == day_number(date) + days
}

/// A calendar date that lies `days` days after `date` is the one that `date_after` names.
pub proof fn lemma_date_after(date: Date, days: int, later: Date)
    requires
        is_calendar_date(later),
        day_number(later) == day_number(date) + days,
    ensures
        later == date_after(date, days),
{
    lemma_day_number_injective(later, date_after(date, days));
}

} // verus!
