use compute::account_stats::{
    calculate_goal_reached_date, compute_basic_stats_from_dataframe, compute_end_of_period_state_from_dataframe,
    compute_max_state_from_dataframe, compute_min_state_from_dataframe, get_unique_account_ids,
    max_state_in_month, min_state_in_year, end_of_month_state, StatType,
};
use compute::amount::Amount;
use compute::balance::{BalanceFrame, BalanceRow};
use compute::calculator::{BalanceCalculator, Calculator};
use compute::calendar::Date;
use compute::merge::MergeMethod;
use compute::scenarios::{ScenarioBalance, TestScenarioBuilder};

fn date(y: i32, m: u32, d: u32) -> Date {
    Date::from_ymd(y, m, d).unwrap()
}

fn frame(rows: &[(i32, Date, i64)]) -> BalanceFrame {
    BalanceFrame {
        rows: rows
            .iter()
            .map(|(a, d, b)| BalanceRow { account_id: *a, date: *d, balance: Amount::new(*b, 0) })
            .collect(),
    }
}

#[test]
fn test_get_unique_account_ids_prefers_account_id() {
    let d = date(2024, 1, 1);
    let df = frame(&[(1, d, 10), (2, d, 20), (1, d, 15), (3, d, 30)]);
    let mut ids = get_unique_account_ids(&df);
    ids.sort();
    assert_eq!(ids, vec![1, 2, 3]);
}

#[test]
fn test_get_unique_account_ids_fallback_to_account() {
    let d = date(2024, 1, 1);
    let df = frame(&[(7, d, 1), (7, d, 2), (8, d, 3)]);
    let mut ids = get_unique_account_ids(&df);
    ids.sort();
    assert_eq!(ids, vec![7, 8]);
}

#[test]
fn min_and_max_states_per_account() {
    let df = frame(&[
        (1, date(2024, 1, 1), 100),
        (2, date(2024, 1, 1), 5),
        (1, date(2024, 1, 2), -30),
        (1, date(2024, 1, 3), 250),
        (2, date(2024, 1, 2), 7),
    ]);
    let mins = compute_min_state_from_dataframe(&df);
    assert_eq!(mins.len(), 2);
    assert_eq!(mins[0].account_id, 1);
    assert!(mins[0].min_state.unwrap().same_value(&Amount::new(-30, 0)));
    assert!(mins[0].max_state.is_none());
    assert!(mins[1].min_state.unwrap().same_value(&Amount::new(5, 0)));
    let maxs = compute_max_state_from_dataframe(&df);
    assert!(maxs[0].max_state.unwrap().same_value(&Amount::new(250, 0)));
    assert!(maxs[1].max_state.unwrap().same_value(&Amount::new(7, 0)));
}

#[test]
fn period_expense_income_and_upcoming_expenses() {
    // Balances 100, 80, 90, 60 (in date order, given out of order): decreases of
    // 20 and 30, one increase of 10; the expense is their total.
    let df = frame(&[
        (1, date(2024, 1, 3), 90),
        (1, date(2024, 1, 1), 100),
        (1, date(2024, 1, 4), 60),
        (1, date(2024, 1, 2), 80),
    ]);
    let exp = compute_basic_stats_from_dataframe(&df, StatType::AverageExpense).unwrap();
    assert!(exp[0].average_expense.unwrap().same_value(&Amount::new(50, 0)));
    let inc = compute_basic_stats_from_dataframe(&df, StatType::AverageIncome).unwrap();
    assert!(inc[0].average_income.unwrap().same_value(&Amount::new(10, 0)));
    let up = compute_basic_stats_from_dataframe(&df, StatType::UpcomingExpenses).unwrap();
    assert!(up[0].upcoming_expenses.unwrap().same_value(&Amount::new(50, 0)));
}

#[test]
fn period_totals_are_zero_without_changes() {
    let df = frame(&[(1, date(2024, 1, 1), 100)]);
    let exp = compute_basic_stats_from_dataframe(&df, StatType::AverageExpense).unwrap();
    assert!(exp[0].average_expense.unwrap().same_value(&Amount::new(0, 0)));
}

#[test]
fn end_of_period_takes_the_latest_row_not_after_the_end() {
    let df = frame(&[
        (1, date(2024, 1, 30), 10),
        (1, date(2024, 2, 2), 99),
        (1, date(2024, 1, 31), 12),
        (2, date(2024, 2, 3), 5),
    ]);
    let out = compute_end_of_period_state_from_dataframe(&df, date(2024, 1, 31));
    assert_eq!(out.len(), 1);
    assert_eq!(out[0].account_id, 1);
    assert!(out[0].end_of_period_state.unwrap().same_value(&Amount::new(12, 0)));
}

#[test]
fn goal_is_reached_on_the_first_date_with_enough_balance() {
    let df = frame(&[
        (1, date(2024, 3, 1), 500),
        (1, date(2024, 1, 1), 900),
        (1, date(2024, 2, 1), 300),
        (1, date(2024, 4, 1), 1200),
    ]);
    let target = Amount::new(1000, 0);
    assert_eq!(calculate_goal_reached_date(&df, target).unwrap(), Some(date(2024, 4, 1)));
    assert_eq!(calculate_goal_reached_date(&df, Amount::new(400, 0)).unwrap(), Some(date(2024, 1, 1)));
    assert_eq!(calculate_goal_reached_date(&df, Amount::new(900, 0)).unwrap(), Some(date(2024, 1, 1)));
    assert_eq!(calculate_goal_reached_date(&df, Amount::new(901, 0)).unwrap(), Some(date(2024, 4, 1)));
    assert_eq!(calculate_goal_reached_date(&df, Amount::new(5000, 0)).unwrap(), None);
}

#[test]
fn statistics_of_a_year_and_a_month() {
    let scenario = ScenarioBalance::new().get_scenario();
    let calculator = Calculator::Balance(BalanceCalculator::new(MergeMethod::FirstWins));
    let mins = min_state_in_year(&calculator, &scenario.ledger, &scenario.accounts, 2023).unwrap();
    assert_eq!(mins.len(), 1);
    // The manual state sets January 1 to 1000 (that day's rent is within it);
    // then -500 each month from February, -150 in February, +300 in March: the
    // lowest point is in December, 1000 - 11 * 500 - 150 + 300.
    assert!(mins[0].min_state.unwrap().same_value(&Amount::new(-435000, 2)));
    // Within February the series opens from the state of January 1, at the start
    // of that day: 1000 - 500 (January) - 500 (February 1), then -150.
    let maxs = max_state_in_month(&calculator, &scenario.ledger, &scenario.accounts, 2023, 2).unwrap();
    assert!(maxs[0].max_state.unwrap().same_value(&Amount::new(0, 2)));
    let eom = end_of_month_state(&calculator, &scenario.ledger, &scenario.accounts, 2023, 3).unwrap();
    assert!(eom[0].end_of_period_state.unwrap().same_value(&Amount::new(-35000, 2)));
}

#[test]
fn period_statistics_hand_on_the_computation_error() {
    let err = compute::error::ComputeError::Decimal("decimal overflow".to_string());
    let r = compute::account_stats::period_stats_of(
        Err(err.clone()),
        date(2024, 12, 31),
        compute::account_stats::PeriodStat::EndOfPeriod,
    );
    assert!(r.err().unwrap() == err);
    let other = compute::error::ComputeError::Runtime("Not implemented DateSplit for regular merge".to_string());
    let r = compute::account_stats::period_stats_of(
        Err(other.clone()),
        date(2024, 12, 31),
        compute::account_stats::PeriodStat::MinState,
    );
    assert!(r.err().unwrap() == other);
    let table = frame(&[(1, date(2024, 12, 30), 5), (1, date(2024, 12, 31), 7), (1, date(2025, 1, 1), 9)]);
    let v = compute::account_stats::period_stats_of(
        Ok(table),
        date(2024, 12, 31),
        compute::account_stats::PeriodStat::EndOfPeriod,
    )
    .unwrap();
    assert_eq!(v.len(), 1);
    assert!(v[0].end_of_period_state.unwrap().same_value(&Amount::new(7, 0)));
}
