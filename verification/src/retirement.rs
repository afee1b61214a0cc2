//! The statutory retirement month under the policy of gradual delay that starts in January
//! 2025: from the month of birth and the category of the employee, the month of retirement,
//! the age reached then and the number of months of delay.

use crate::calendar::{checked_date, is_before, is_calendar_date, Date, MAX_YEAR, MIN_YEAR};
use crate::text::{chars_of, same_chars};
use chrono::{Datelike, NaiveDate};
use core::cmp::Ordering;
use core::str::FromStr;
use vstd::prelude::*;
use vstd::string::StringExecFns;

verus! {

/// What the policy lays down for one category of employees.
#[derive(Debug, Clone, Copy, PartialEq, Eq, Structural)]
pub struct RetirementPolicy {
    /// The retirement age before the delay, in years.
    pub original_age: i32,
    /// The longest delay, in months.
    pub max_delay: i32,
    /// The number of months by which the retirement month under the old rule lies later for
    /// each further month of delay.
    pub delay_interval: i32,
}

/// The categories of employees.
#[derive(Debug, Clone, Copy, PartialEq, Eq, Structural)]
pub enum RetirementCategory {
    /// Men.
    Male,
    /// Women whose retirement age was 55.
    FemaleManagerial,
    /// Women whose retirement age was 50.
    FemaleOrdinary,
}

/// When an employee retires.
#[derive(Debug, Clone, Copy, PartialEq, Eq, Structural)]
pub struct RetirementResult {
    /// The first day of the month of retirement.
    pub retirement_date: Date,
    /// The age at retirement, in months.
    pub retirement_age_months: i32,
    /// The delay against the old rule, in months.
    pub delay_months: i32,
}

/// Computes retirement under the policy that starts at `policy_start_date`.
#[derive(Debug, Clone, Copy, PartialEq, Eq, Structural)]
pub struct RetirementCalculator {
    pub policy_start_date: Date,
}

/// The day on which the policy starts: the first of January 2025.
pub open spec fn policy_start() -> Date {
    Date { year: 2025, month: 1, day: 1 }
}

/// What the policy lays down for the category.
pub open spec fn policy_of(category: RetirementCategory) -> RetirementPolicy {
    match category {
        RetirementCategory::Male => RetirementPolicy {
            original_age: 60,
            max_delay: 36,
            delay_interval: 4,
        },
        RetirementCategory::FemaleManagerial => RetirementPolicy {
            original_age: 55,
            max_delay: 36,
            delay_interval: 4,
        },
        RetirementCategory::FemaleOrdinary => RetirementPolicy {
            original_age: 50,
            max_delay: 60,
            delay_interval: 2,
        },
    }
}

/// The number of months from the month of `start` to the month of `end`.
pub open spec fn months_from_to(start: Date, end: Date) -> int {
    (end.year - start.year) * 12 + (end.month - start.month)
}

/// The first day of the month that lies `months` months after the month of `date`.
pub open spec fn month_after(date: Date, months: int) -> Date {
    let index = date.year * 12 + (date.month - 1) + months;
    Date { year: (index / 12) as i32, month: (index % 12 + 1) as u32, day: 1 }
}

/// The same day of the year in which the age is reached.
pub open spec fn day_at_age(birth_date: Date, age: int) -> Date {
    Date { year: (birth_date.year + age) as i32, month: birth_date.month, day: birth_date.day }
}

/// The delay for a retirement month under the old rule: none up to the start of the policy,
/// after it one month for every `delay_interval` months begun, up to `max_delay`.
pub open spec fn delay_after(start: Date, original: Date, policy: RetirementPolicy) -> int {
    let months = months_from_to(start, original);
    if months <= 0 {
        0
    } else {
        let delay = (months + policy.delay_interval - 1) / (policy.delay_interval as int);
        if delay < policy.max_delay {
            delay
        } else {
            policy.max_delay as int
        }
    }
}

/// The delay of an employee: as `delay_after` says, but one month for a man born in January
/// 1965.
pub open spec fn delay_of(start: Date, birth_date: Date, category: RetirementCategory) -> int {
    if category == RetirementCategory::Male && birth_date.year == 1965 && birth_date.month == 1 {
        1
    } else {
        delay_after(
            start,
            day_at_age(birth_date, policy_of(category).original_age as int),
            policy_of(category),
        )
    }
}

/// When an employee retires: the delay is added to the month in which the old retirement
/// age is reached.
pub open spec fn retirement_of(
    start: Date,
    birth_date: Date,
    category: RetirementCategory,
) -> RetirementResult {
    let original = day_at_age(birth_date, policy_of(category).original_age as int);
    let delay = delay_of(start, birth_date, category);
    let retirement_date = month_after(original, delay);
    RetirementResult {
        retirement_date,
        retirement_age_months: months_from_to(birth_date, retirement_date) as i32,
        delay_months: delay as i32,
    }
}

/// The months up to the month of the date, counted from the start of the year 0.
pub open spec fn month_count(date: Date) -> int {
    date.year * 12 + date.month
}

/// The month that lies `months` months after the month of the date is a month of the
/// calendar, not before the year 0.
pub open spec fn can_add_months(date: Date, months: int) -> bool {
    1 <= month_count(date) + months <= MAX_YEAR * 12 + 12
}

/// The day of birth exists, and so does the same day of the year in which the age is
/// reached.
pub open spec fn can_reach_age(birth_date: Date, age: int) -> bool {
    &&& is_calendar_date(birth_date)
    &&& MIN_YEAR <= birth_date.year + age <= MAX_YEAR
    &&& is_calendar_date(day_at_age(birth_date, age))
}

/// Retirement can be computed: the dates exist, and the month of retirement is a month of
/// the calendar, not before the year 0.
pub open spec fn can_retire(start: Date, birth_date: Date, category: RetirementCategory) -> bool {
    &&& is_calendar_date(start)
    &&& can_reach_age(birth_date, policy_of(category).original_age as int)
    &&& can_add_months(
        day_at_age(birth_date, policy_of(category).original_age as int),
        delay_of(start, birth_date, category),
    )
}

/// The largest year of birth for which `retirement_for` answers.
pub const MAX_BIRTH_YEAR: i32 = 262000;

/// The birth date is one for which `retirement_for` answers: it lies in the years 0 to
/// `MAX_BIRTH_YEAR`, and the day exists in the year in which the age is reached.
pub open spec fn is_supported_birth_date(birth_date: Date, age: int) -> bool {
    &&& is_calendar_date(birth_date)
    &&& 0 <= birth_date.year <= MAX_BIRTH_YEAR
    &&& is_calendar_date(day_at_age(birth_date, age))
}

/// The category that a Chinese name of a category stands for.
pub open spec fn category_of(name: Seq<char>) -> Option<RetirementCategory> {
    if name == "男职工"@ {
        Some(RetirementCategory::Male)
    } else if name == "原法定退休年龄50周岁女职工"@ {
        Some(RetirementCategory::FemaleOrdinary)
    } else if name == "原法定退休年龄55周岁女职工"@ {
        Some(RetirementCategory::FemaleManagerial)
    } else {
        None
    }
}

/// The date that `chrono` reads from a text, written as year, month and day with hyphens
/// between them; nothing where it reads none.
pub uninterp spec fn parsed_date_of(text: Seq<char>) -> Option<Date>;

/// `NaiveDate::from_str`: the date read from the text, which is a day of the calendar, or
/// nothing.
#[verifier::external_body]
fn read_date(text: &str) -> (r: Option<Date>)
    ensures
        r == parsed_date_of(text@),
        r matches Some(date) ==> is_calendar_date(date),
{
    match NaiveDate::from_str(text) {
        Ok(date) => Some(Date { year: date.year(), month: date.month(), day: date.day() }),
        Err(_) => None,
    }
}

/// The date of birth that a month of birth stands for, written `YYYY-MM`: the first day of
/// the month.
pub open spec fn birth_date_of(time: Seq<char>) -> Option<Date> {
    parsed_date_of(time + "-01"@)
}

impl RetirementCategory {
    /// What the policy lays down for the category.
    pub fn get_policy(&self) -> (policy: RetirementPolicy)
        ensures
            policy == policy_of(*self),
    {
        match self {
            RetirementCategory::Male => RetirementPolicy {
                original_age: 60,
                max_delay: 36,
                delay_interval: 4,
            },
            RetirementCategory::FemaleManagerial => RetirementPolicy {
                original_age: 55,
                max_delay: 36,
                delay_interval: 4,
            },
            RetirementCategory::FemaleOrdinary => RetirementPolicy {
                original_age: 50,
                max_delay: 60,
                delay_interval: 2,
            },
        }
    }
}

/// The category that a Chinese name of a category stands for, if it is one.
pub fn parse_category(tp: &str) -> (r: Option<RetirementCategory>)
    ensures
        r == category_of(tp@),
{
    let name = chars_of(tp);
    if same_chars(&name, &chars_of("男职工")) {
        Some(RetirementCategory::Male)
    } else if same_chars(&name, &chars_of("原法定退休年龄50周岁女职工")) {
        Some(RetirementCategory::FemaleOrdinary)
    } else if same_chars(&name, &chars_of("原法定退休年龄55周岁女职工")) {
        Some(RetirementCategory::FemaleManagerial)
    } else {
        None
    }
}

impl RetirementCalculator {
    /// A calculator for the policy that starts on the first of January 2025.
    pub fn new() -> (calculator: Self)
        ensures
            calculator.policy_start_date == policy_start(),
    {
        Self { policy_start_date: Date { year: 2025, month: 1, day: 1 } }
    }

    /// When an employee of the category who was born on `birth_date` retires.
    pub fn calculate(&self, birth_date: Date, category: RetirementCategory) -> (result:
        RetirementResult)
        requires
            can_retire(self.policy_start_date, birth_date, category),
        ensures
            result == retirement_of(self.policy_start_date, birth_date, category),
    {
        let policy = category.get_policy();
        let original_retirement_date = self.calculate_original_retirement_date(
            birth_date,
            policy.original_age,
        );
        let months_after_policy = Self::months_between(
            self.policy_start_date,
            original_retirement_date,
        );
        let mut delay_months = if months_after_policy <= 0 {
            0
        } else {
            let delay = (months_after_policy + policy.delay_interval - 1) / policy.delay_interval;
            if delay < policy.max_delay {
                delay
            } else {
                policy.max_delay
            }
        };
        if category == RetirementCategory::Male && birth_date.year == 1965 && birth_date.month
            == 1 {
            delay_months = 1;
        }
        let final_retirement_date = Self::add_months(original_retirement_date, delay_months);
        let total_months = Self::months_between(birth_date, final_retirement_date);
        RetirementResult {
            retirement_date: final_retirement_date,
            retirement_age_months: total_months,
            delay_months,
        }
    }

    /// The number of months from the month of `start` to the month of `end`.
    pub fn months_between(start: Date, end: Date) -> (months: i32)
        requires
            is_calendar_date(start),
            is_calendar_date(end),
        ensures
            months == months_from_to(start, end),
    {
        (end.year - start.year) * 12 + (end.month as i32 - start.month as i32)
    }

    /// The first day of the month that lies `months` months after the month of `date`.
    pub fn add_months(date: Date, months: i32) -> (later: Date)
        requires
            is_calendar_date(date),
            can_add_months(date, months as int),
        ensures
            later == month_after(date, months as int),
            is_calendar_date(later),
    {
        let total_months = date.year * 12 + date.month as i32 + months;
        let new_year = total_months / 12;
        let new_month = total_months % 12;
        Date {
            year: if new_month == 0 {
                new_year - 1
            } else {
                new_year
            },
            month: if new_month == 0 {
                12
            } else {
                new_month as u32
            },
            day: 1,
        }
    }

    /// The day on which the retirement age of the old rule is reached.
    pub fn calculate_original_retirement_date(&self, birth_date: Date, original_age: i32) -> (r:
        Date)
        requires
            can_reach_age(birth_date, original_age as int),
        ensures
            r == day_at_age(birth_date, original_age as int),
            is_calendar_date(r),
    {
        Date { year: birth_date.year + original_age, month: birth_date.month, day: birth_date.day }
    }

    /// How the start of the policy lies to the retirement date of the old rule: before it,
    /// on it or after it.
    pub fn compare_with_policy_start(&self, original_retirement_date: Date) -> (r: Ordering)
        ensures
            is_before(self.policy_start_date, original_retirement_date) ==> r == Ordering::Less,
            is_before(original_retirement_date, self.policy_start_date) ==> r
                == Ordering::Greater,
            self.policy_start_date == original_retirement_date ==> r == Ordering::Equal,
    {
        let start = self.policy_start_date;
        if start.year < original_retirement_date.year || (start.year
            == original_retirement_date.year && (start.month < original_retirement_date.month || (
        start.month == original_retirement_date.month && start.day
            < original_retirement_date.day))) {
            Ordering::Less
        } else if start.year == original_retirement_date.year && start.month
            == original_retirement_date.month && start.day == original_retirement_date.day {
            Ordering::Equal
        } else {
            Ordering::Greater
        }
    }

    /// Retirement at the age of the old rule, without delay.
    pub fn create_early_retirement_result(
        &self,
        original_retirement_date: Date,
        original_age: i32,
    ) -> (result: RetirementResult)
        requires
            i32::MIN <= original_age * 12 <= i32::MAX,
        ensures
            result == (RetirementResult {
                retirement_date: original_retirement_date,
                retirement_age_months: (original_age * 12) as i32,
                delay_months: 0,
            }),
    {
        RetirementResult {
            retirement_date: original_retirement_date,
            retirement_age_months: original_age * 12,
            delay_months: 0,
        }
    }

    /// Retirement one month after the age of the old rule is reached. The month of the
    /// result is the number that follows the day of the date given.
    pub fn create_boundary_retirement_result(
        &self,
        original_retirement_date: Date,
        original_age: i32,
    ) -> (result: RetirementResult)
        requires
            i32::MIN <= original_age * 12 <= i32::MAX - 1,
            original_retirement_date.day < u32::MAX,
            is_calendar_date(
                Date {
                    year: original_retirement_date.year,
                    month: (original_retirement_date.day + 1) as u32,
                    day: original_retirement_date.day,
                },
            ),
        ensures
            result == (RetirementResult {
                retirement_date: Date {
                    year: original_retirement_date.year,
                    month: (original_retirement_date.day + 1) as u32,
                    day: original_retirement_date.day,
                },
                retirement_age_months: (original_age * 12 + 1) as i32,
                delay_months: 1,
            }),
    {
        RetirementResult {
            retirement_date: Date {
                year: original_retirement_date.year,
                month: original_retirement_date.day + 1,
                day: original_retirement_date.day,
            },
            retirement_age_months: original_age * 12 + 1,
            delay_months: 1,
        }
    }

    /// Retirement with the delay that the policy lays down for the retirement date of the
    /// old rule.
    pub fn create_delayed_retirement_result(
        &self,
        birth_date: Date,
        original_retirement_date: Date,
        policy: RetirementPolicy,
    ) -> (result: RetirementResult)
        requires
            is_calendar_date(self.policy_start_date),
            is_calendar_date(birth_date),
            is_calendar_date(original_retirement_date),
            policy.delay_interval >= 1,
            months_from_to(self.policy_start_date, original_retirement_date)
                + policy.delay_interval <= i32::MAX,
            can_add_months(
                original_retirement_date,
                delay_after(self.policy_start_date, original_retirement_date, policy),
            ),
        ensures
            result == (RetirementResult {
                retirement_date: month_after(
                    original_retirement_date,
                    delay_after(self.policy_start_date, original_retirement_date, policy),
                ),
                retirement_age_months: months_from_to(
                    birth_date,
                    month_after(
                        original_retirement_date,
                        delay_after(self.policy_start_date, original_retirement_date, policy),
                    ),
                ) as i32,
                delay_months: delay_after(
                    self.policy_start_date,
                    original_retirement_date,
                    policy,
                ) as i32,
            }),
    {
        let months_after_policy = Self::months_between(
            self.policy_start_date,
            original_retirement_date,
        );
        let delay_months = if months_after_policy <= 0 {
            0
        } else {
            let delay = (months_after_policy + policy.delay_interval - 1) / policy.delay_interval;
            if delay < policy.max_delay {
                delay
            } else {
                policy.max_delay
            }
        };
        let final_retirement_date = Self::add_months(original_retirement_date, delay_months);
        let total_months = Self::months_between(birth_date, final_retirement_date);
        RetirementResult {
            retirement_date: final_retirement_date,
            retirement_age_months: total_months,
            delay_months,
        }
    }
}

/// When the employee retires whose month of birth is `time`, written `YYYY-MM`, and whose
/// category has the Chinese name `tp`. There is no answer where the name is none of a
/// category, where `time` is not read as a month, or where the month lies outside the
/// years 0 to `MAX_BIRTH_YEAR`.
pub fn retirement_for(time: &str, tp: &str) -> (r: Option<RetirementResult>)
    ensures
        r == match (category_of(tp@), birth_date_of(time@)) {
            (Some(category), Some(birth_date)) => if is_supported_birth_date(
                birth_date,
                policy_of(category).original_age as int,
            ) {
                Some(retirement_of(policy_start(), birth_date, category))
            } else {
                None
            },
            _ => None,
        },
{
    let category = match parse_category(tp) {
        Some(category) => category,
        None => {
            return None;
        },
    };
    let mut text = String::new();
    text.append(time);
    text.append("-01");
    assert(text@ =~= time@ + "-01"@);
    let birth_date = match read_date(text.as_str()) {
        Some(birth_date) => birth_date,
        None => {
            return None;
        },
    };
    let policy = category.get_policy();
    if birth_date.year < 0 || birth_date.year > MAX_BIRTH_YEAR {
        return None;
    }
    if checked_date(
        birth_date.year + policy.original_age,
        birth_date.month,
        birth_date.day,
    ).is_none() {
        return None;
    }
    let calculator = RetirementCalculator::new();
    Some(calculator.calculate(birth_date, category))
}

} // verus!
