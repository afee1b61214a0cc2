//! Facts about a day given as `YYYY-MM-DD`: its ISO week, its weekday, its place in the year,
//! the days left in the year, and the days until the next Spring Festival and until the next
//! day on which the stock exchange is open.

use crate::calendar::{
    checked_date, date_after, day_number, days_between, is_before, is_calendar_date, iso_week,
    iso_week_of, lemma_date_after, lemma_day_number_in_order, lemma_day_number_within_year,
    lemma_year_length, lemma_years_in_order, plus_days, weekday, weekday_of, Date,
    Weekday,
};
use crate::text::{
    chars_of, comma_separated, join_numbers, parse_numeral, parse_radix, split, split_chars, views,
};
use vstd::prelude::*;
use vstd::string::StringExecFns;

verus! {

/// The longest wait for a trading day, in days: the exchange opens on one of the
/// `LONGEST_WAIT` days after any day.
pub const LONGEST_WAIT: u32 = 8;

/// The number that a decimal numeral stands for; zero where the text is none that fits in
/// 32 bits.
pub open spec fn number_or_zero(text: Seq<char>) -> u32 {
    match parse_numeral(text, 10) {
        Some(number) => number,
        None => 0,
    }
}

/// The year that a decimal numeral stands for; zero where the text is none that fits in 31
/// bits.
pub open spec fn year_or_zero(text: Seq<char>) -> i32 {
    if number_or_zero(text) <= i32::MAX {
        number_or_zero(text) as i32
    } else {
        0
    }
}

/// The year, month and day that a text of three parts with hyphens between them names;
/// nothing for a text of fewer or more parts.
pub open spec fn date_fields(time: Seq<char>) -> Option<Date> {
    let parts = split(time, '-');
    if parts.len() != 3 {
        None
    } else {
        Some(
            Date {
                year: year_or_zero(parts[0]),
                month: number_or_zero(parts[1]),
                day: number_or_zero(parts[2]),
            },
        )
    }
}

/// The rule by which the days left in the year are counted: a year counts as long if it is
/// a multiple of 100.
pub open spec fn counts_as_leap_year(year: int) -> bool {
    (year % 4 == 0 && year % 100 == 0) || year % 400 == 0
}

/// The weekday by Zeller's congruence, from 1 for Monday to 7 for Sunday.
pub open spec fn zeller_weekday(year: int, month: int, day: int) -> int {
    let m = if month < 3 {
        month + 12
    } else {
        month
    };
    let y = if month < 3 {
        year - 1
    } else {
        year
    };
    let h = (day + (13 * (m + 1)) / 5 + y + y / 4 - y / 100 + y / 400) % 7;
    (h + 5) % 7 + 1
}

/// The lengths of the twelve months of a year without a 29th of February.
pub open spec fn month_lengths() -> Seq<u32> {
    seq![31u32, 28u32, 31u32, 30u32, 31u32, 30u32, 31u32, 31u32, 30u32, 31u32, 30u32, 31u32]
}

/// The sum of the lengths of the first `count` months.
pub open spec fn months_total(count: int) -> int
    decreases count,
{
    if count <= 0 {
        0
    } else {
        months_total(count - 1) + month_lengths()[count - 1]
    }
}

/// The place of the day in its year, with one day more from March on in the years that
/// count as long.
pub open spec fn day_of_year(year: int, month: int, day: int) -> int {
    day + months_total(month - 1) + if month > 2 && counts_as_leap_year(year) {
        1int
    } else {
        0int
    }
}

/// The number of days of the year after the day.
pub open spec fn days_left_in_year(year: int, month: int, day: int) -> int {
    if counts_as_leap_year(year) {
        366 - day_of_year(year, month, day)
    } else {
        365 - day_of_year(year, month, day)
    }
}

/// The day of the Spring Festival in the years 2023 to 2026.
pub open spec fn spring_festival(year: int) -> Date {
    if year == 2023 {
        Date { year: 2023, month: 1, day: 22 }
    } else if year == 2024 {
        Date { year: 2024, month: 2, day: 10 }
    } else if year == 2025 {
        Date { year: 2025, month: 1, day: 29 }
    } else {
        Date { year: 2026, month: 2, day: 17 }
    }
}

/// The Spring Festival that comes next: the one of the year of the date if the date lies
/// before it, else the one of the year after.
pub open spec fn next_spring_festival(date: Date) -> Date {
    if is_before(date, spring_festival(date.year as int)) {
        spring_festival(date.year as int)
    } else {
        spring_festival(date.year + 1)
    }
}

/// The date is one for which the next Spring Festival is known.
pub open spec fn is_supported_date(date: Date) -> bool {
    &&& is_calendar_date(date)
    &&& 2023 <= date.year <= 2026
    &&& (date.year == 2026 ==> is_before(date, spring_festival(2026)))
}

/// The number of days from the date to the next Spring Festival.
pub open spec fn days_to_spring_festival(date: Date) -> int {
    day_number(next_spring_festival(date)) - day_number(date)
}

/// The weekend days on which the exchange is open all the same.
pub open spec fn special_trading_days() -> Seq<Date> {
    seq![Date { year: 2025, month: 1, day: 18 }, Date { year: 2025, month: 1, day: 19 }]
}

/// The public holidays of 2025, on which the exchange is closed.
pub open spec fn holidays_2025() -> Seq<Date> {
    seq![
        Date { year: 2025, month: 1, day: 1 },
        Date { year: 2025, month: 1, day: 28 },
        Date { year: 2025, month: 1, day: 29 },
        Date { year: 2025, month: 1, day: 30 },
        Date { year: 2025, month: 1, day: 31 },
        Date { year: 2025, month: 2, day: 1 },
        Date { year: 2025, month: 2, day: 2 },
        Date { year: 2025, month: 2, day: 3 },
        Date { year: 2025, month: 4, day: 4 },
        Date { year: 2025, month: 4, day: 5 },
        Date { year: 2025, month: 4, day: 6 },
        Date { year: 2025, month: 5, day: 1 },
        Date { year: 2025, month: 5, day: 2 },
        Date { year: 2025, month: 5, day: 3 },
        Date { year: 2025, month: 6, day: 7 },
        Date { year: 2025, month: 6, day: 8 },
        Date { year: 2025, month: 6, day: 9 },
        Date { year: 2025, month: 10, day: 1 },
        Date { year: 2025, month: 10, day: 2 },
        Date { year: 2025, month: 10, day: 3 },
        Date { year: 2025, month: 10, day: 4 },
        Date { year: 2025, month: 10, day: 5 },
        Date { year: 2025, month: 10, day: 6 },
        Date { year: 2025, month: 10, day: 7 },
    ]
}

/// The exchange is open on the date, which falls on the given weekday: on the special
/// trading days, and on every other day that is no holiday, Saturday or Sunday.
pub open spec fn is_trading_date_on(date: Date, day: Weekday) -> bool {
    special_trading_days().contains(date) || (!holidays_2025().contains(date) && day
        != Weekday::Sat && day != Weekday::Sun)
}

/// The exchange is open on the date.
pub open spec fn is_trading_date(date: Date) -> bool {
    is_trading_date_on(date, weekday_of(date))
}

/// The first trading day after the date comes `days` days after it.
pub open spec fn is_next_trading_day(date: Date, days: int) -> bool {
    &&& days >= 1
    &&& is_trading_date(date_after(date, days))
    &&& forall|k: int| 1 <= k < days ==> !is_trading_date(#[trigger] date_after(date, k))
}

/// The number of the first of January 2025.
pub open spec fn new_year_2025() -> int {
    739252
}

/// The day with the given number is one of the public holidays of 2025.
pub open spec fn is_holiday_number(number: int) -> bool {
    let day = number - new_year_2025();
    day == 0 || 27 <= day <= 33 || 93 <= day <= 95 || 120 <= day <= 122 || 157 <= day <= 159
        || 273 <= day <= 279
}

/// The day with the given number is a trading day whatever else holds of it: it is no
/// holiday, Saturday or Sunday.
pub open spec fn is_open_number(number: int) -> bool {
    (number - 1) % 7 < 5 && !is_holiday_number(number)
}

/// The day that comes `days` days after the day with the given number is open.
pub open spec fn is_open_after(number: int, days: int) -> bool {
    is_open_number(number + days)
}

/// The public holidays of 2025 have the holiday numbers.
pub proof fn lemma_holiday_numbers(date: Date)
    requires
        holidays_2025().contains(date),
    ensures
        is_holiday_number(day_number(date)),
{
    reveal_with_fuel(crate::calendar::days_before_month, 12);
    let i = choose|i: int| 0 <= i < holidays_2025().len() && holidays_2025()[i] == date;
    assert(0 <= i < 24);
    assert(holidays_2025()[i] == date);
}

/// A calendar date whose number is open is a trading day.
pub proof fn lemma_open_number_is_trading_date(date: Date)
    requires
        is_open_number(day_number(date)),
    ensures
        is_trading_date(date),
{
    if holidays_2025().contains(date) {
        lemma_holiday_numbers(date);
    }
}

/// One of the `LONGEST_WAIT` days after any day is open; the lemma returns how many days
/// after.
pub proof fn lemma_open_day_ahead(number: int) -> (days: int)
    ensures
        1 <= days <= LONGEST_WAIT,
        is_open_number(number + days),
{
    if is_open_number(number + 1) {
        1
    } else if is_open_number(number + 2) {
        2
    } else if is_open_number(number + 3) {
        3
    } else if is_open_number(number + 4) {
        4
    } else if is_open_number(number + 5) {
        5
    } else if is_open_number(number + 6) {
        6
    } else if is_open_number(number + 7) {
        7
    } else {
        8
    }
}

/// The number of days from the date to the first trading day after it.
pub open spec fn days_to_next_trading_day(date: Date) -> int {
    choose|days: int| is_next_trading_day(date, days)
}

/// The six numbers that describe the date, in decimal, with commas between them: ISO week,
/// weekday, day of the year, days left in the year, days to the next Spring Festival, days
/// to the next trading day.
pub open spec fn time_info_text(date: Date) -> Seq<char> {
    comma_separated(
        seq![
            iso_week_of(date.year as int, date.month as int, date.day as int) as u32,
            zeller_weekday(date.year as int, date.month as int, date.day as int) as u32,
            day_of_year(date.year as int, date.month as int, date.day as int) as u32,
            days_left_in_year(date.year as int, date.month as int, date.day as int) as u32,
            days_to_spring_festival(date) as u32,
            days_to_next_trading_day(date) as u32,
        ],
    )
}

/// The first trading day after a date is one day only.
pub proof fn lemma_next_trading_day_unique(date: Date, days: int)
    requires
        is_next_trading_day(date, days),
    ensures
        days == days_to_next_trading_day(date),
{
    let other = days_to_next_trading_day(date);
    assert(is_next_trading_day(date, other));
    if other < days {
        assert(!is_trading_date(date_after(date, other)));
    }
    if days < other {
        assert(!is_trading_date(date_after(date, days)));
    }
}

/// A day that exists has a place in its year that leaves no fewer than zero days.
pub proof fn lemma_day_of_year_fits(date: Date)
    requires
        is_calendar_date(date),
    ensures
        1 <= day_of_year(date.year as int, date.month as int, date.day as int),
        days_left_in_year(date.year as int, date.month as int, date.day as int) >= 0,
{
    reveal_with_fuel(months_total, 13);
}

/// Whether the year counts as long when the days of a year are counted.
pub fn is_leap_year(year: i32) -> (r: bool)
    ensures
        r == counts_as_leap_year(year as int),
{
    (year % 4 == 0 && year % 100 == 0) || year % 400 == 0
}

/// The weekday of a date by Zeller's congruence, from 1 for Monday to 7 for Sunday.
pub fn calculate_weekday(year: i32, month: u32, day: u32) -> (r: u32)
    requires
        1 <= year <= 262142,
        1 <= month <= 12,
        1 <= day <= 31,
    ensures
        r == zeller_weekday(year as int, month as int, day as int),
        1 <= r <= 7,
{
    let mut m = month as i32;
    let mut y = year;
    if m < 3 {
        m += 12;
        y -= 1;
    }
    let h = (day as i32 + (13 * (m + 1)) / 5 + y + y / 4 - y / 100 + y / 400) % 7;
    ((h + 5) % 7 + 1) as u32
}

/// The months of a year have 365 days together.
pub proof fn lemma_months_total_bound(count: int)
    requires
        0 <= count <= 12,
    ensures
        0 <= months_total(count) <= 365,
        months_total(12) == 365,
{
    reveal_with_fuel(months_total, 13);
}

/// The place of a day in its year.
pub fn calculate_day_of_year(year: i32, month: u32, day: u32) -> (r: u32)
    requires
        1 <= month <= 13,
        day + 366 <= u32::MAX,
    ensures
        r == day_of_year(year as int, month as int, day as int),
{
    let mut day_of_year = day;
    let month_days: [u32; 12] = [31, 28, 31, 30, 31, 30, 31, 31, 30, 31, 30, 31];
    assert(month_days@ =~= month_lengths());
    let mut m: u32 = 0;
    while m < month - 1
        invariant
            1 <= month <= 13,
            day + 366 <= u32::MAX,
            m <= month - 1,
            month_days@ == month_lengths(),
            day_of_year == day + months_total(m as int),
        decreases month - 1 - m,
    {
        proof {
            lemma_months_total_bound(m + 1);
        }
        day_of_year += month_days[m as usize];
        m += 1;
    }
    proof {
        lemma_months_total_bound(month - 1);
    }
    if month > 2 && is_leap_year(year) {
        day_of_year += 1;
    }
    day_of_year
}

/// The ISO 8601 week number of a date.
pub fn calculate_iso_week_number(year: i32, month: u32, day: u32) -> (r: u32)
    requires
        is_calendar_date(Date { year, month, day }),
    ensures
        r == iso_week_of(year as int, month as int, day as int),
        1 <= r <= 53,
{
    iso_week(Date { year, month, day })
}

/// The day of the Spring Festival in a year from 2023 to 2026.
pub fn get_spring_festival_date(year: i32) -> (r: Date)
    requires
        2023 <= year <= 2026,
    ensures
        r == spring_festival(year as int),
        is_calendar_date(r),
{
    if year == 2023 {
        Date { year, month: 1, day: 22 }
    } else if year == 2024 {
        Date { year, month: 2, day: 10 }
    } else if year == 2025 {
        Date { year, month: 1, day: 29 }
    } else {
        Date { year, month: 2, day: 17 }
    }
}

/// Whether the first date is an earlier day than the second.
pub fn date_is_before(a: Date, b: Date) -> (r: bool)
    ensures
        r == is_before(a, b),
{
    a.year < b.year || (a.year == b.year && (a.month < b.month || (a.month == b.month && a.day
        < b.day)))
}

/// The number of days from a date to the next Spring Festival.
pub fn calculate_days_to_spring_festival(year: i32, month: u32, day: u32) -> (r: u32)
    requires
        is_supported_date(Date { year, month, day }),
    ensures
        r == days_to_spring_festival(Date { year, month, day }),
        r >= 1,
{
    let current_date = Date { year, month, day };
    let spring_festival = get_spring_festival_date(year);
    if date_is_before(current_date, spring_festival) {
        proof {
            lemma_day_number_in_order(current_date, spring_festival);
            lemma_day_number_within_year(current_date);
            lemma_day_number_within_year(spring_festival);
            lemma_year_length(year as int);
        }
        let days = days_between(current_date, spring_festival);
        days as u32
    } else {
        let next_spring_festival = get_spring_festival_date(year + 1);
        proof {
            lemma_day_number_in_order(current_date, next_spring_festival);
            lemma_day_number_within_year(current_date);
            lemma_day_number_within_year(next_spring_festival);
            lemma_year_length(year as int);
            lemma_year_length(year + 1);
        }
        let days = days_between(current_date, next_spring_festival);
        days as u32
    }
}

/// Whether the date is among the dates.
fn contains_date(dates: &Vec<Date>, date: Date) -> (r: bool)
    ensures
        r == dates@.contains(date),
{
    let mut i: usize = 0;
    while i < dates.len()
        invariant
            i <= dates.len(),
            forall|j: int| 0 <= j < i ==> dates@[j] != date,
        decreases dates.len() - i,
    {
        if dates[i] == date {
            return true;
        }
        i = i + 1;
    }
    false
}

/// Whether the exchange is open on the date, which falls on the given weekday.
pub fn is_trading_day_on(date: Date, day: Weekday) -> (r: bool)
    ensures
        r == is_trading_date_on(date, day),
{
    let special_trading_days: Vec<Date> = vec![
        Date { year: 2025, month: 1, day: 18 },
        Date { year: 2025, month: 1, day: 19 },
    ];
    let holidays_2025: Vec<Date> = vec![
        Date { year: 2025, month: 1, day: 1 },
        Date { year: 2025, month: 1, day: 28 },
        Date { year: 2025, month: 1, day: 29 },
        Date { year: 2025, month: 1, day: 30 },
        Date { year: 2025, month: 1, day: 31 },
        Date { year: 2025, month: 2, day: 1 },
        Date { year: 2025, month: 2, day: 2 },
        Date { year: 2025, month: 2, day: 3 },
        Date { year: 2025, month: 4, day: 4 },
        Date { year: 2025, month: 4, day: 5 },
        Date { year: 2025, month: 4, day: 6 },
        Date { year: 2025, month: 5, day: 1 },
        Date { year: 2025, month: 5, day: 2 },
        Date { year: 2025, month: 5, day: 3 },
        Date { year: 2025, month: 6, day: 7 },
        Date { year: 2025, month: 6, day: 8 },
        Date { year: 2025, month: 6, day: 9 },
        Date { year: 2025, month: 10, day: 1 },
        Date { year: 2025, month: 10, day: 2 },
        Date { year: 2025, month: 10, day: 3 },
        Date { year: 2025, month: 10, day: 4 },
        Date { year: 2025, month: 10, day: 5 },
        Date { year: 2025, month: 10, day: 6 },
        Date { year: 2025, month: 10, day: 7 },
    ];
    assert(special_trading_days@ =~= self::special_trading_days());
    assert(holidays_2025@ =~= self::holidays_2025());
    if contains_date(&special_trading_days, date) {
        return true;
    }
    if contains_date(&holidays_2025, date) {
        return false;
    }
    day != Weekday::Sat && day != Weekday::Sun
}

/// Whether the exchange is open on the date.
pub fn is_trading_day(date: Date) -> (r: bool)
    requires
        is_calendar_date(date),
        1 <= date.year <= 9999,
    ensures
        r == is_trading_date(date),
{
    let day = weekday(date);
    is_trading_day_on(date, day)
}

/// The number of days from a date to the first trading day after it.
pub fn calculate_days_to_next_trading_day(year: i32, month: u32, day: u32) -> (r: u32)
    requires
        is_calendar_date(Date { year, month, day }),
        1 <= year <= 9998,
    ensures
        is_next_trading_day(Date { year, month, day }, r as int),
        r == days_to_next_trading_day(Date { year, month, day }),
        1 <= r <= LONGEST_WAIT,
{
    let current_date = Date { year, month, day };
    let mut days: u32 = 1;
    loop
        invariant
            current_date == (Date { year, month, day }),
            is_calendar_date(current_date),
            1 <= year <= 9998,
            1 <= days <= LONGEST_WAIT,
            forall|k: int|
                1 <= k < days ==> !is_trading_date(#[trigger] date_after(current_date, k)),
            forall|k: int| 1 <= k < days ==> !#[trigger] is_open_after(day_number(current_date), k),
        decreases LONGEST_WAIT - days,
    {
        let next_date = plus_days(current_date, days as i64);
        proof {
            lemma_date_after(current_date, days as int, next_date);
            lemma_day_number_within_year(current_date);
            lemma_day_number_within_year(next_date);
            lemma_year_length(year + 1);
            if next_date.year > year + 1 {
                lemma_years_in_order(year + 2, next_date.year as int);
            }
            if next_date.year < year {
                lemma_years_in_order(next_date.year + 1, year as int);
            }
        }
        if is_trading_day(next_date) {
            proof {
                lemma_next_trading_day_unique(current_date, days as int);
            }
            return days;
        }
        proof {
            if is_open_number(day_number(next_date)) {
                lemma_open_number_is_trading_date(next_date);
            }
            let open = lemma_open_day_ahead(day_number(current_date));
            assert(is_open_after(day_number(current_date), open));
            assert(!is_open_after(day_number(current_date), days as int));
            assert(open > days);
        }
        days += 1;
    }
}

/// Reads the decimal numeral that the characters make up; zero if they make up none.
fn read_number(chars: &Vec<char>) -> (r: u32)
    ensures
        r == number_or_zero(chars@),
{
    assert(chars@.subrange(0, chars.len() as int) =~= chars@);
    match parse_radix(chars, 0, chars.len(), 10) {
        Some(number) => number,
        None => 0,
    }
}

/// The year, month and day that a text of the form `YYYY-MM-DD` names. A part that is no
/// number counts as zero; a text that does not have three parts names nothing.
pub fn parse_date(time: &str) -> (r: Option<Date>)
    ensures
        r == date_fields(time@),
{
    let chars = chars_of(time);
    let parts = split_chars(&chars, '-');
    if parts.len() != 3 {
        assert(views(parts@).len() == parts.len());
        return None;
    }
    assert(views(parts@)[0] == parts@[0]@);
    assert(views(parts@)[1] == parts@[1]@);
    assert(views(parts@)[2] == parts@[2]@);
    let year_number = read_number(&parts[0]);
    let year: i32 = if year_number <= 0x7fff_ffff {
        year_number as i32
    } else {
        0
    };
    let month = read_number(&parts[1]);
    let day = read_number(&parts[2]);
    Some(Date { year, month, day })
}

/// Describes the day that `time` names as `YYYY-MM-DD` by six numbers: its ISO week, its
/// weekday from 1 for Monday, its place in the year, the days left in the year, the days to
/// the next Spring Festival and the days to the next trading day. A text that does not
/// have three parts is answered with `Invalid date format`.
pub fn time_info(time: &str) -> (r: String)
    requires
        date_fields(time@) matches Some(date) ==> is_supported_date(date),
    ensures
        date_fields(time@) is None ==> r@ == "Invalid date format"@,
        date_fields(time@) matches Some(date) ==> r@ == time_info_text(date),
{
    let date = match parse_date(time) {
        Some(date) => date,
        None => {
            return String::from_str("Invalid date format");
        },
    };
    let year = date.year;
    let month = date.month;
    let day = date.day;
    let week_number = calculate_iso_week_number(year, month, day);
    let weekday = calculate_weekday(year, month, day);
    let day_of_year = calculate_day_of_year(year, month, day);
    proof {
        lemma_day_of_year_fits(date);
    }
    let days_left_in_year = if is_leap_year(year) {
        366 - day_of_year
    } else {
        365 - day_of_year
    };
    let days_to_spring_festival = calculate_days_to_spring_festival(year, month, day);
    let days_to_next_trading_day = calculate_days_to_next_trading_day(year, month, day);
    let numbers: Vec<u32> = vec![
        week_number,
        weekday,
        day_of_year,
        days_left_in_year,
        days_to_spring_festival,
        days_to_next_trading_day,
    ];
    assert(numbers@ =~= seq![
        iso_week_of(date.year as int, date.month as int, date.day as int) as u32,
        zeller_weekday(date.year as int, date.month as int, date.day as int) as u32,
        self::day_of_year(date.year as int, date.month as int, date.day as int) as u32,
        self::days_left_in_year(date.year as int, date.month as int, date.day as int) as u32,
        self::days_to_spring_festival(date) as u32,
        self::days_to_next_trading_day(date) as u32,
    ]);
    join_numbers(&numbers)
}

/// Describes the day that `time` names, as `time_info` does, wherever it can: not for a
/// day that does not exist or that lies outside the years for which the Spring Festival is
/// known.
pub fn try_time_info(time: &str) -> (r: Option<String>)
    ensures
        date_fields(time@) is None ==> (r matches Some(text) && text@ == "Invalid date format"@),
        date_fields(time@) matches Some(date) ==> (if is_supported_date(date) {
            r matches Some(text) && text@ == time_info_text(date)
        } else {
            r is None
        }),
{
    match parse_date(time) {
        None => Some(time_info(time)),
        Some(date) => {
            if checked_date(date.year, date.month, date.day).is_none() || date.year < 2023
                || date.year > 2026 {
                return None;
            }
            if date.year == 2026 && !date_is_before(date, get_spring_festival_date(2026)) {
                return None;
            }
            Some(time_info(time))
        },
    }
}

} // verus!
