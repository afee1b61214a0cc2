use exercises::calendar::Date;
use exercises::retirement::{
    parse_category, retirement_for, RetirementCalculator, RetirementCategory, RetirementPolicy,
    RetirementResult,
};
use std::cmp::Ordering;

const MALE: &str = "男职工";
const FEMALE_50: &str = "原法定退休年龄50周岁女职工";
const FEMALE_55: &str = "原法定退休年龄55周岁女职工";

fn date(year: i32, month: u32, day: u32) -> Date {
    Date { year, month, day }
}

fn result(year: i32, month: u32, age_months: i32, delay: i32) -> Option<RetirementResult> {
    Some(RetirementResult {
        retirement_date: date(year, month, 1),
        retirement_age_months: age_months,
        delay_months: delay,
    })
}

#[test]
fn retirement_under_the_delay_policy() {
    assert_eq!(retirement_for("1971-04", FEMALE_55), result(2026, 8, 55 * 12 + 4, 4));
    assert_eq!(retirement_for("1995-12", FEMALE_50), result(2050, 12, 55 * 12, 60));
    assert_eq!(retirement_for("1995-12", MALE), result(2058, 12, 63 * 12, 36));
    assert_eq!(retirement_for("2000-12", FEMALE_55), result(2058, 12, 58 * 12, 36));
    assert_eq!(retirement_for("2000-12", MALE), result(2063, 12, 63 * 12, 36));
    assert_eq!(retirement_for("1965-12", MALE), result(2026, 3, 60 * 12 + 3, 3));
    assert_eq!(retirement_for("1975-01", FEMALE_50), result(2025, 1, 50 * 12, 0));
    assert_eq!(retirement_for("1975-02", FEMALE_50), result(2025, 3, 50 * 12 + 1, 1));
    assert_eq!(retirement_for("1975-03", FEMALE_50), result(2025, 4, 50 * 12 + 1, 1));
    assert_eq!(retirement_for("1975-04", FEMALE_50), result(2025, 6, 50 * 12 + 2, 2));
}

#[test]
fn retirement_before_the_policy_starts_is_not_delayed() {
    assert_eq!(retirement_for("1963-12", MALE), result(2023, 12, 60 * 12, 0));
    assert_eq!(retirement_for("1963-04", FEMALE_55), result(2018, 4, 55 * 12, 0));
    assert_eq!(retirement_for("1964-02", MALE), result(2024, 2, 60 * 12, 0));
    assert_eq!(retirement_for("1964-12", MALE), result(2024, 12, 60 * 12, 0));
    assert_eq!(retirement_for("1970-01", FEMALE_55), result(2025, 1, 55 * 12, 0));
}

#[test]
fn men_born_in_january_1965_are_delayed_by_a_month() {
    assert_eq!(retirement_for("1965-01", MALE), result(2025, 2, 60 * 12 + 1, 1));
    assert_eq!(retirement_for("1965-02", MALE), result(2025, 3, 60 * 12 + 1, 1));
    assert_eq!(retirement_for("1965-01", FEMALE_55), result(2020, 1, 55 * 12, 0));
}

#[test]
fn retirement_has_no_answer_for_unreadable_input() {
    assert_eq!(retirement_for("1965-01", "male"), None);
    assert_eq!(retirement_for("1965-01", ""), None);
    assert_eq!(retirement_for("1965-01", "男职工 "), None);
    assert_eq!(retirement_for("1965-13", MALE), None);
    assert_eq!(retirement_for("1965", MALE), None);
    assert_eq!(retirement_for("", MALE), None);
    assert_eq!(retirement_for("-0010-01", MALE), None);
    assert_eq!(retirement_for("+270000-01", MALE), None);
    assert_eq!(retirement_for("1965-01-01", MALE), None);
}

#[test]
fn retirement_is_computed_from_the_year_zero_on() {
    assert_eq!(retirement_for("0000-01", MALE), result(60, 1, 60 * 12, 0));
    assert_eq!(retirement_for("0001-12", FEMALE_50), result(51, 12, 50 * 12, 0));
}

#[test]
fn categories_are_named_in_chinese() {
    assert_eq!(parse_category(MALE), Some(RetirementCategory::Male));
    assert_eq!(parse_category(FEMALE_50), Some(RetirementCategory::FemaleOrdinary));
    assert_eq!(parse_category(FEMALE_55), Some(RetirementCategory::FemaleManagerial));
    assert_eq!(parse_category("原法定退休年龄60周岁女职工"), None);
    assert_eq!(parse_category("男"), None);
}

#[test]
fn policies_of_the_categories() {
    assert_eq!(
        RetirementCategory::Male.get_policy(),
        RetirementPolicy { original_age: 60, max_delay: 36, delay_interval: 4 }
    );
    assert_eq!(
        RetirementCategory::FemaleManagerial.get_policy(),
        RetirementPolicy { original_age: 55, max_delay: 36, delay_interval: 4 }
    );
    assert_eq!(
        RetirementCategory::FemaleOrdinary.get_policy(),
        RetirementPolicy { original_age: 50, max_delay: 60, delay_interval: 2 }
    );
}

#[test]
fn calculate_takes_any_day_of_birth() {
    let calculator = RetirementCalculator::new();
    assert_eq!(calculator.policy_start_date, date(2025, 1, 1));
    let got = calculator.calculate(date(1971, 4, 17), RetirementCategory::FemaleManagerial);
    assert_eq!(Some(got), result(2026, 8, 55 * 12 + 4, 4));
    let got = calculator.calculate(date(1964, 2, 28), RetirementCategory::Male);
    assert_eq!(Some(got), result(2024, 2, 60 * 12, 0));
}

#[test]
fn months_between_two_dates() {
    assert_eq!(RetirementCalculator::months_between(date(2025, 1, 1), date(2026, 4, 1)), 15);
    assert_eq!(RetirementCalculator::months_between(date(2025, 1, 1), date(2025, 1, 31)), 0);
    assert_eq!(RetirementCalculator::months_between(date(2025, 1, 1), date(2024, 12, 1)), -1);
    assert_eq!(RetirementCalculator::months_between(date(2025, 6, 1), date(2023, 2, 1)), -28);
}

#[test]
fn months_are_added_across_years() {
    assert_eq!(RetirementCalculator::add_months(date(2026, 4, 15), 4), date(2026, 8, 1));
    assert_eq!(RetirementCalculator::add_months(date(2025, 12, 1), 0), date(2025, 12, 1));
    assert_eq!(RetirementCalculator::add_months(date(2025, 12, 1), 1), date(2026, 1, 1));
    assert_eq!(RetirementCalculator::add_months(date(2025, 1, 31), 11), date(2025, 12, 1));
    assert_eq!(RetirementCalculator::add_months(date(2025, 1, 1), 12), date(2026, 1, 1));
    assert_eq!(RetirementCalculator::add_months(date(2025, 11, 1), 60), date(2030, 11, 1));
}

#[test]
fn original_retirement_date_keeps_month_and_day() {
    let calculator = RetirementCalculator::new();
    assert_eq!(calculator.calculate_original_retirement_date(date(1971, 4, 17), 55), date(2026, 4, 17));
}

#[test]
fn policy_start_is_compared_with_a_date() {
    let calculator = RetirementCalculator::new();
    assert_eq!(calculator.compare_with_policy_start(date(2025, 1, 2)), Ordering::Less);
    assert_eq!(calculator.compare_with_policy_start(date(2026, 1, 1)), Ordering::Less);
    assert_eq!(calculator.compare_with_policy_start(date(2025, 1, 1)), Ordering::Equal);
    assert_eq!(calculator.compare_with_policy_start(date(2024, 12, 31)), Ordering::Greater);
}

#[test]
fn results_are_built_for_each_case() {
    let calculator = RetirementCalculator::new();
    assert_eq!(
        Some(calculator.create_early_retirement_result(date(2023, 12, 1), 60)),
        result(2023, 12, 720, 0)
    );
    assert_eq!(
        calculator.create_boundary_retirement_result(date(2025, 1, 1), 60),
        RetirementResult { retirement_date: date(2025, 2, 1), retirement_age_months: 721, delay_months: 1 }
    );
    let policy = RetirementPolicy { original_age: 55, max_delay: 36, delay_interval: 4 };
    assert_eq!(
        Some(calculator.create_delayed_retirement_result(date(1971, 4, 1), date(2026, 4, 1), policy)),
        result(2026, 8, 664, 4)
    );
    let policy = RetirementPolicy { original_age: 50, max_delay: 60, delay_interval: 2 };
    assert_eq!(
        Some(calculator.create_delayed_retirement_result(date(1995, 12, 1), date(2045, 12, 1), policy)),
        result(2050, 12, 660, 60)
    );
}
