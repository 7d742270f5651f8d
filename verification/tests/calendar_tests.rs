use compute::calendar::{days_in_month, get_last_day_of_month, Date};
use compute::recurrence::{generate_occurrences, RecurrencePeriod};

fn date(y: i32, m: u32, d: u32) -> Date {
    Date::from_ymd(y, m, d).unwrap()
}

#[test]
fn test_get_last_day_of_month() {
    assert_eq!(get_last_day_of_month(2023, 1), date(2023, 1, 31));
    assert_eq!(get_last_day_of_month(2023, 2), date(2023, 2, 28));
    assert_eq!(get_last_day_of_month(2024, 2), date(2024, 2, 29)); // Leap year
    assert_eq!(get_last_day_of_month(2023, 12), date(2023, 12, 31));
}

#[test]
fn days_in_month_counts_leap_years() {
    assert_eq!(days_in_month(2024, 2), 29);
    assert_eq!(days_in_month(1900, 2), 28);
    assert_eq!(days_in_month(2000, 2), 29);
    assert_eq!(days_in_month(2023, 4), 30);
    assert_eq!(days_in_month(2023, 12), 31);
}

#[test]
fn invalid_dates_are_refused() {
    assert!(Date::from_ymd(2023, 2, 29).is_none());
    assert!(Date::from_ymd(2023, 13, 1).is_none());
    assert!(Date::from_ymd(2024, 2, 29).is_some());
}

#[test]
fn monthly_occurrences_clamp_to_month_end() {
    let occ = generate_occurrences(date(2023, 1, 31), None, &RecurrencePeriod::Monthly, date(2023, 1, 1), date(2023, 4, 30));
    assert_eq!(occ, vec![date(2023, 1, 31), date(2023, 2, 28), date(2023, 3, 28), date(2023, 4, 28)]);
}

#[test]
fn occurrences_stop_after_end_date() {
    let occ = generate_occurrences(
        date(2023, 1, 1),
        Some(date(2023, 2, 15)),
        &RecurrencePeriod::Weekly,
        date(2023, 1, 1),
        date(2023, 12, 31),
    );
    assert_eq!(occ.len(), 7);
    assert_eq!(occ[6], date(2023, 2, 12));
}

#[test]
fn work_day_occurrences_skip_weekends() {
    // January 6, 2023 was a Friday.
    let occ = generate_occurrences(date(2023, 1, 6), None, &RecurrencePeriod::WorkDay, date(2023, 1, 6), date(2023, 1, 10));
    assert_eq!(occ, vec![date(2023, 1, 6), date(2023, 1, 9), date(2023, 1, 10)]);
}

#[test]
fn quarterly_and_half_yearly_steps_cross_the_year() {
    let q = generate_occurrences(date(2023, 11, 30), None, &RecurrencePeriod::Quarterly, date(2023, 1, 1), date(2024, 6, 30));
    assert_eq!(q, vec![date(2023, 11, 30), date(2024, 2, 29), date(2024, 5, 29)]);
    let h = generate_occurrences(date(2023, 8, 31), None, &RecurrencePeriod::HalfYearly, date(2023, 1, 1), date(2024, 12, 31));
    assert_eq!(h, vec![date(2023, 8, 31), date(2024, 2, 29), date(2024, 8, 29)]);
}

#[test]
fn occurrences_before_the_range_are_not_returned() {
    let occ = generate_occurrences(date(2023, 1, 1), None, &RecurrencePeriod::Yearly, date(2024, 6, 1), date(2026, 12, 31));
    assert_eq!(occ, vec![date(2025, 1, 1), date(2026, 1, 1)]);
}
