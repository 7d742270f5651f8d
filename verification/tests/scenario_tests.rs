use chrono::{Datelike, Duration, NaiveDate};
use compute::amount::Amount;
use compute::calculator::{
    default_compute, BalanceCalculator, Calculator, DateSplitCalculator, ForecastCalculator,
    MergeCalculator, UnpaidRecurringCalculator,
};
use compute::calendar::Date;
use compute::merge::MergeMethod;
use compute::forecast::get_past_due_transactions;
use compute::model::{InstanceStatus, Ledger};
use compute::recurrence::RecurrencePeriod;
use compute::testing::{
    new_account, new_manual_account_state, new_one_off_account_transfer, new_one_off_trsansaction,
    new_recurring_instance, new_recurring_transaction,
};
use compute::scenarios::{
    CustomScenarioForecastNoInstances, ScenarioBalance, ScenarioBalanceNoInstances, ScenarioForecast,
    ScenarioForecastNoInstances, ScenarioMergeReal, ScenarioUnreconciledForecast, TestScenario, TestScenarioBuilder,
};

fn date(y: i32, m: u32, d: u32) -> Date {
    Date::from_ymd(y, m, d).unwrap()
}

fn to_naive(d: &Date) -> NaiveDate {
    NaiveDate::from_ymd_opt(d.year(), d.month(), d.day()).unwrap()
}

fn from_naive(d: NaiveDate) -> Date {
    date(d.year(), d.month(), d.day())
}

/// Runs the calculator over the scenario's dates (widened by 55 days, or narrowed
/// by 20 days when `use_scenario_date_range` is false) and checks every expected
/// balance within the computed range.
fn run_and_assert_scenario(
    builder: &dyn TestScenarioBuilder,
    calculator: &Calculator,
    use_scenario_date_range: bool,
) -> Result<(), String> {
    assert_scenario(builder.get_scenario(), calculator, use_scenario_date_range)
}

fn assert_scenario(scenario: TestScenario, calculator: &Calculator, use_scenario_date_range: bool) -> Result<(), String> {
    let min = scenario.expected.iter().map(|e| to_naive(&e.1)).min().unwrap();
    let max = scenario.expected.iter().map(|e| to_naive(&e.1)).max().unwrap();
    let (start, end) = if use_scenario_date_range {
        (min - Duration::days(55), max + Duration::days(55))
    } else {
        (min + Duration::days(20), max - Duration::days(20))
    };
    let frame = calculator
        .compute_account_state(&scenario.ledger, &scenario.accounts, from_naive(start), from_naive(end))
        .map_err(|e| format!("computation failed: {}", e.message()))?;
    for (account_id, expected_date, expected_balance) in &scenario.expected {
        let d = to_naive(expected_date);
        if d < start || d > end {
            continue;
        }
        let rows: Vec<_> = frame
            .rows
            .iter()
            .filter(|r| r.account_id == *account_id && r.date.days == expected_date.days)
            .collect();
        if rows.len() != 1 {
            return Err(format!(
                "Expected exactly one row for account_id={}, date={}, but found {}",
                account_id,
                d,
                rows.len()
            ));
        }
        if !rows[0].balance.same_value(expected_balance) {
            return Err(format!(
                "Balance mismatch for account_id={}, date={}: expected {}, got {}",
                account_id,
                d,
                expected_balance.to_text(),
                rows[0].balance.to_text()
            ));
        }
    }
    Ok(())
}

fn balance_calculator() -> Calculator {
    Calculator::Balance(BalanceCalculator::new(MergeMethod::FirstWins))
}

fn forecast_calculator() -> Calculator {
    Calculator::Forecast(ForecastCalculator::new(MergeMethod::FirstWins))
}

#[test]
fn test_scenario_balance_outside_range() {
    run_and_assert_scenario(&ScenarioBalance::new(), &balance_calculator(), false).expect("Failed to run scenario");
}

#[test]
fn test_scenario_forecast() {
    run_and_assert_scenario(&ScenarioForecast::new(), &forecast_calculator(), true).expect("Failed to run scenario");
}

#[test]
fn test_scenario_forecast_outside_range() {
    let computer = Calculator::Forecast(ForecastCalculator::new_with_initial_balance(
        MergeMethod::FirstWins,
        Amount::new(-100000, 2),
    ));
    run_and_assert_scenario(&ScenarioForecast::new(), &computer, false).expect("Failed to run scenario");
}

#[test]
fn test_scenario_balance_merge_simple_outside_range() {
    let computer = Calculator::Merge(MergeCalculator::new(
        vec![balance_calculator(), balance_calculator()],
        MergeMethod::FirstWins,
    ));
    run_and_assert_scenario(&ScenarioBalance::new(), &computer, false).expect("Failed to run scenario");
}

#[test]
fn test_scenario_balance_no_instances() {
    let today = date(2023, 3, 15);
    let computer = Calculator::Balance(BalanceCalculator::new_with_today(MergeMethod::FirstWins, today));
    run_and_assert_scenario(&ScenarioBalanceNoInstances::new(), &computer, true).expect("Failed to run scenario");
}

#[test]
fn test_scenario_balance_no_instances_outside_range() {
    let today = date(2023, 3, 15);
    let computer = Calculator::Balance(BalanceCalculator::new_with_today(MergeMethod::FirstWins, today));
    run_and_assert_scenario(&ScenarioBalanceNoInstances::new(), &computer, false).expect("Failed to run scenario");
}

#[test]
fn test_scenario_forecast_no_instances() {
    let computer = Calculator::Forecast(ForecastCalculator::new_with_params(
        MergeMethod::FirstWins,
        Amount::new(0, 2),
        date(2023, 3, 15),
        1,
    ));
    run_and_assert_scenario(&ScenarioForecastNoInstances::new(), &computer, true).expect("Failed to run scenario");
}

#[test]
fn test_scenario_forecast_no_instances_outside_range() {
    let computer = Calculator::Forecast(ForecastCalculator::new_with_initial_balance(
        MergeMethod::FirstWins,
        Amount::new(-2200 * 100, 2),
    ));
    run_and_assert_scenario(&CustomScenarioForecastNoInstances::new(), &computer, false)
        .expect("Failed to run scenario");
}

#[test]
fn unreconciled_scenario_matches_a_forecast() {
    run_and_assert_scenario(&ScenarioUnreconciledForecast::new(), &forecast_calculator(), true)
        .expect("Failed to run scenario");
}

#[test]
fn merge_real_scenario_first_balances_hold() {
    // The manual states and the first paid months hold with the balance calculator.
    let scenario = ScenarioMergeReal::new().get_scenario();
    let computer = Calculator::Balance(BalanceCalculator::new_with_today(MergeMethod::FirstWins, date(2026, 6, 1)));
    let frame = computer
        .compute_account_state(&scenario.ledger, &scenario.accounts, date(2024, 12, 1), date(2025, 12, 31))
        .unwrap();
    for (account_id, d, expected) in scenario.expected.iter().take(12) {
        let row = frame
            .rows
            .iter()
            .find(|r| r.account_id == *account_id && r.date.days == d.days)
            .unwrap();
        assert!(row.balance.same_value(expected));
    }
}

#[test]
fn default_compute_sums_balance_and_unpaid_items() {
    let scenario = ScenarioBalanceNoInstances::new().get_scenario();
    let compute = Calculator::Merge(default_compute(Some(date(2023, 3, 15))));
    let frame = compute
        .compute_account_state(&scenario.ledger, &scenario.accounts, date(2023, 3, 1), date(2023, 3, 31))
        .unwrap();
    // The balance stays at 1000 (past rents without instances are ignored) and
    // the three unpaid rents (January to March) fall due seven days after today.
    let on = |d: Date| frame.rows.iter().find(|r| r.date.days == d.days).unwrap().balance;
    assert!(on(date(2023, 3, 21)).same_value(&Amount::new(100000, 2)));
    assert!(on(date(2023, 3, 22)).same_value(&Amount::new(-50000, 2)));
}

#[test]
fn unpaid_recurring_moves_past_due_items() {
    let scenario = ScenarioForecastNoInstances::new().get_scenario();
    let computer = Calculator::UnpaidRecurring(UnpaidRecurringCalculator::new(MergeMethod::Sum, date(2023, 3, 15), 1));
    let frame = computer
        .compute_account_state(&scenario.ledger, &scenario.accounts, date(2023, 3, 1), date(2023, 3, 31))
        .unwrap();
    assert_eq!(frame.rows.len(), 31);
    let on = |d: Date| frame.rows.iter().find(|r| r.date.days == d.days).unwrap().balance;
    assert!(on(date(2023, 3, 15)).same_value(&Amount::new(0, 0)));
    assert!(on(date(2023, 3, 16)).same_value(&Amount::new(-150000, 2)));
}

#[test]
fn date_split_uses_each_calculator_on_its_side() {
    let scenario = ScenarioBalance::new().get_scenario();
    let split = DateSplitCalculator::new(balance_calculator(), forecast_calculator(), date(2023, 2, 1));
    let computer = Calculator::DateSplit(split);
    let frame = computer
        .compute_account_state(&scenario.ledger, &scenario.accounts, date(2023, 1, 1), date(2023, 2, 28))
        .unwrap();
    assert_eq!(frame.rows.len(), 59);
    let on = |d: Date| frame.rows.iter().find(|r| r.date.days == d.days).unwrap().balance;
    // Before the split: the balance, which the manual state sets to 1000 on
    // January 1 (the rent of that day is within it).
    assert!(on(date(2023, 1, 31)).same_value(&Amount::new(100000, 2)));
    // From the split on: the forecast from zero (-500 rent on February 1).
    assert!(on(date(2023, 2, 1)).same_value(&Amount::new(-50000, 2)));
}

#[test]
fn merge_with_date_split_method_is_refused() {
    let scenario = ScenarioBalance::new().get_scenario();
    let computer = Calculator::Merge(MergeCalculator::new(
        vec![balance_calculator(), forecast_calculator()],
        MergeMethod::DateSplit,
    ));
    let result = computer.compute_account_state(&scenario.ledger, &scenario.accounts, date(2023, 1, 1), date(2023, 1, 31));
    assert!(matches!(result, Err(compute::error::ComputeError::Runtime(_))));
}

#[test]
fn balance_factory_receives_the_balance_on_the_split_date() {
    let scenario = ScenarioBalance::new().get_scenario();
    let split = date(2023, 2, 15);
    // The table of the split date has its one row, which holds the balance
    // handed over.
    let frame = balance_calculator()
        .compute_account_state(&scenario.ledger, &scenario.accounts, split, split)
        .unwrap();
    assert_eq!(frame.rows.len(), 1);
    let expected = frame.rows.iter().find(|r| r.date == split).unwrap().balance;
    assert!(expected.same_value(&Amount::new(-150, 0)));
    let split_calc = DateSplitCalculator::new_with_balance_factory(
        balance_calculator(),
        |b| Calculator::Forecast(ForecastCalculator::new_with_initial_balance(MergeMethod::FirstWins, b)),
        split,
        &scenario.ledger,
        &scenario.accounts,
    )
    .unwrap();
    assert!(split_calc.transfer_balance);
    assert_eq!(split_calc.split_date, split);
    match *split_calc.second_calculator {
        Calculator::Forecast(f) => assert!(f.initial_balance.same_value(&expected)),
        _ => panic!("a forecast calculator was made"),
    }
}

#[test]
fn balance_factory_sums_the_balances_of_several_accounts() {
    let scenario = ScenarioMergeReal::new().get_scenario();
    let split = date(2025, 6, 1);
    let computer = || Calculator::Balance(BalanceCalculator::new_with_today(MergeMethod::FirstWins, date(2026, 6, 1)));
    let split_calc = DateSplitCalculator::new_with_balance_factory(
        computer(),
        |b| Calculator::Forecast(ForecastCalculator::new_with_initial_balance(MergeMethod::FirstWins, b)),
        split,
        &scenario.ledger,
        &scenario.accounts,
    )
    .unwrap();
    // 200000 + 100000 from the manual states of June 1, 2025.
    match *split_calc.second_calculator {
        Calculator::Forecast(f) => assert!(f.initial_balance.same_value(&Amount::new(300000, 0))),
        _ => panic!("a forecast calculator was made"),
    }
}

/// Three accounts with manual states on different days, reconciled salary,
/// rent, savings transfer and dividend payments, and unrelated one-offs.
fn scenario_multiple_accounts() -> TestScenario {
    let mut ledger = Ledger::new();
    let checking = new_account(&mut ledger);
    let savings = new_account(&mut ledger);
    let investment = new_account(&mut ledger);
    new_manual_account_state(&mut ledger, &checking, date(2023, 1, 1), 2500);
    new_manual_account_state(&mut ledger, &savings, date(2023, 1, 3), 10000);
    new_manual_account_state(&mut ledger, &investment, date(2023, 1, 5), 5000);

    let reconcile_last = |ledger: &mut Ledger, recurring_id: i32| {
        let last = ledger.one_off_transactions.last_mut().unwrap();
        last.reconciled_recurring_transaction_id = Some(recurring_id);
    };

    let salary = new_recurring_transaction(&mut ledger, &checking, date(2023, 1, 15), 3500);
    new_one_off_trsansaction(&mut ledger, &checking, date(2023, 1, 15), 3500);
    reconcile_last(&mut ledger, salary.id);
    new_one_off_trsansaction(&mut ledger, &checking, date(2023, 2, 15), 3500);
    reconcile_last(&mut ledger, salary.id);

    let rent = new_recurring_transaction(&mut ledger, &checking, date(2023, 2, 1), -1200);
    new_one_off_trsansaction(&mut ledger, &checking, date(2023, 2, 1), -1200);
    reconcile_last(&mut ledger, rent.id);
    new_one_off_trsansaction(&mut ledger, &checking, date(2023, 3, 1), -1200);
    reconcile_last(&mut ledger, rent.id);

    let transfer = new_recurring_transaction(&mut ledger, &savings, date(2023, 1, 20), 500);
    ledger.recurring_transactions.last_mut().unwrap().source_account_id = Some(checking.id);
    for month in 1..=3 {
        new_one_off_account_transfer(&mut ledger, &checking, &savings, date(2023, month, 20), 500);
        reconcile_last(&mut ledger, transfer.id);
    }

    let dividend = new_recurring_transaction(&mut ledger, &investment, date(2023, 1, 10), 250);
    ledger.recurring_transactions.last_mut().unwrap().period = RecurrencePeriod::Quarterly;
    new_one_off_trsansaction(&mut ledger, &investment, date(2023, 1, 10), 250);
    reconcile_last(&mut ledger, dividend.id);

    new_one_off_trsansaction(&mut ledger, &checking, date(2023, 2, 10), -750);
    new_one_off_trsansaction(&mut ledger, &savings, date(2023, 3, 15), 1200);
    new_one_off_trsansaction(&mut ledger, &investment, date(2023, 2, 20), -1000);

    let units = |n: i64| Amount::new(n * 100, 2);
    let expected = vec![
        (checking.id, date(2023, 1, 1), units(2500)),
        (checking.id, date(2023, 1, 15), units(6000)),
        (checking.id, date(2023, 1, 20), units(5500)),
        (checking.id, date(2023, 1, 25), units(5500)),
        (checking.id, date(2023, 2, 1), units(4300)),
        (checking.id, date(2023, 2, 10), units(3550)),
        (checking.id, date(2023, 2, 15), units(7050)),
        (checking.id, date(2023, 2, 20), units(6550)),
        (checking.id, date(2023, 3, 1), units(5350)),
        (checking.id, date(2023, 3, 5), units(5350)),
        (savings.id, date(2023, 1, 3), units(10000)),
        (savings.id, date(2023, 1, 20), units(10500)),
        (savings.id, date(2023, 2, 5), units(10500)),
        (savings.id, date(2023, 2, 20), units(11000)),
        (savings.id, date(2023, 3, 15), units(12200)),
        (savings.id, date(2023, 3, 20), units(12700)),
        (investment.id, date(2023, 1, 5), units(5000)),
        (investment.id, date(2023, 1, 10), units(5250)),
        (investment.id, date(2023, 2, 15), units(5250)),
        (investment.id, date(2023, 2, 20), units(4250)),
        (investment.id, date(2023, 3, 25), units(4250)),
        (investment.id, date(2023, 4, 10), units(4250)),
    ];
    TestScenario { ledger, accounts: vec![checking, savings, investment], expected }
}

/// A balance calculator whose today lies after the scenario, so that past
/// recurring occurrences without a recorded instance are left out.
fn balance_calculator_after_scenario() -> Calculator {
    Calculator::Balance(BalanceCalculator::new_with_today(MergeMethod::FirstWins, date(2023, 6, 1)))
}

#[test]
fn multiple_accounts_scenario_holds_with_a_later_today() {
    assert_scenario(scenario_multiple_accounts(), &balance_calculator_after_scenario(), true)
        .expect("Failed to run scenario");
}

#[test]
fn multiple_accounts_scenario_holds_inside_its_range() {
    assert_scenario(scenario_multiple_accounts(), &balance_calculator_after_scenario(), false)
        .expect("Failed to run scenario");
}

#[test]
fn multiple_accounts_scenario_holds_when_merged_with_a_forecast() {
    let computer = Calculator::Merge(MergeCalculator::new(
        vec![balance_calculator_after_scenario(), forecast_calculator()],
        MergeMethod::FirstWins,
    ));
    assert_scenario(scenario_multiple_accounts(), &computer, true).expect("Failed to run scenario");
}

/// A checking account with 1000 on January 1, 2025, a real purchase of 100 on
/// January 15 and, on the same day, a what-if purchase of 500 in scenario 1
/// and one of 200 in scenario 2.
fn ghost_ledger() -> Ledger {
    let mut ledger = Ledger::new();
    let account = new_account(&mut ledger);
    new_manual_account_state(&mut ledger, &account, date(2025, 1, 1), 1000);
    new_one_off_trsansaction(&mut ledger, &account, date(2025, 1, 15), -100);
    for (scenario, amount) in [(1, -500), (2, -200)] {
        new_one_off_trsansaction(&mut ledger, &account, date(2025, 1, 15), amount);
        let tx = ledger.one_off_transactions.last_mut().unwrap();
        tx.scenario_id = Some(scenario);
        tx.is_simulated = true;
    }
    ledger
}

fn balance_on_january_31(calculator: &Calculator, ledger: &Ledger) -> Amount {
    let frame = calculator
        .compute_account_state(ledger, &ledger.accounts, date(2025, 1, 1), date(2025, 1, 31))
        .unwrap();
    frame.rows.iter().find(|r| r.date == date(2025, 1, 31)).unwrap().balance
}

#[test]
fn test_ghost_isolation() {
    let ledger = ghost_ledger();
    let today = date(2025, 1, 20);
    let standard = Calculator::Balance(BalanceCalculator::new_with_today(MergeMethod::FirstWins, today));
    assert!(
        balance_on_january_31(&standard, &ledger).same_value(&Amount::new(900, 0)),
        "Standard calculator should show $900"
    );
    let scenario_a =
        Calculator::Balance(BalanceCalculator::new_with_today_and_scenario(MergeMethod::FirstWins, today, 1));
    assert!(
        balance_on_january_31(&scenario_a, &ledger).same_value(&Amount::new(400, 0)),
        "Scenario A calculator should show $400"
    );
    let scenario_b =
        Calculator::Balance(BalanceCalculator::new_with_today_and_scenario(MergeMethod::FirstWins, today, 2));
    assert!(
        balance_on_january_31(&scenario_b, &ledger).same_value(&Amount::new(700, 0)),
        "Scenario B calculator should show $700"
    );
}

#[test]
fn test_scenario_application() {
    let mut ledger = ghost_ledger();
    ledger.one_off_transactions.pop();
    let standard = Calculator::Balance(BalanceCalculator::new_with_today(MergeMethod::FirstWins, date(2025, 1, 20)));
    assert!(
        balance_on_january_31(&standard, &ledger).same_value(&Amount::new(900, 0)),
        "Before application, standard calculator should show $900"
    );
    // Applying scenario 1 makes its purchase real.
    ledger.one_off_transactions.last_mut().unwrap().is_simulated = false;
    assert!(
        balance_on_january_31(&standard, &ledger).same_value(&Amount::new(400, 0)),
        "After application, standard calculator should show $400"
    );
}

#[test]
fn past_due_moves_only_unsettled_occurrences_before_today() {
    let mut ledger = Ledger::new();
    let account = new_account(&mut ledger);
    let rent = new_recurring_transaction(&mut ledger, &account, date(2023, 1, 15), -500);
    // January: a pending instance, still unpaid; February: paid.
    new_recurring_instance(&mut ledger, &rent, date(2023, 1, 15));
    ledger.instances.last_mut().unwrap().status = InstanceStatus::Pending;
    new_recurring_instance(&mut ledger, &rent, date(2023, 2, 15));
    // March 15 is today: that occurrence is not past due yet.
    let moved = get_past_due_transactions(&ledger, account.id, date(2023, 1, 1), date(2023, 3, 15), 2);
    assert_eq!(moved.len(), 1);
    assert_eq!(moved[0].0, date(2023, 3, 17));
    assert_eq!(moved[0].1.id, rent.id);
    // A skipped instance settles the occurrence too.
    ledger.instances[0].status = InstanceStatus::Skipped;
    assert_eq!(get_past_due_transactions(&ledger, account.id, date(2023, 1, 1), date(2023, 3, 15), 2).len(), 0);
}

#[test]
fn balance_factory_hands_on_the_first_calculators_error() {
    let scenario = ScenarioMergeReal::new().get_scenario();
    let split = date(2025, 6, 1);
    let refusing = || {
        Calculator::Merge(MergeCalculator {
            calculators: vec![
                Calculator::Balance(BalanceCalculator::new_with_today(MergeMethod::FirstWins, date(2026, 6, 1))),
                Calculator::Balance(BalanceCalculator::new_with_today(MergeMethod::FirstWins, date(2026, 6, 1))),
            ],
            merge_method: MergeMethod::DateSplit,
        })
    };
    let state = refusing().compute_account_state(&scenario.ledger, &scenario.accounts, split, split);
    let expected = match &state {
        Err(e) => e.clone(),
        Ok(_) => panic!("a merge by date split is refused"),
    };
    assert!(expected == compute::error::ComputeError::refused_merge());
    let made = DateSplitCalculator::new_with_balance_factory(
        refusing(),
        |b| Calculator::Forecast(ForecastCalculator::new_with_initial_balance(MergeMethod::FirstWins, b)),
        split,
        &scenario.ledger,
        &scenario.accounts,
    );
    assert!(made.err().unwrap() == expected);
    let from_state = DateSplitCalculator::from_split_state(
        refusing(),
        |_b: Amount| -> Calculator { panic!("the factory is not used when the first calculator fails") },
        split,
        &scenario.accounts,
        state,
    );
    assert!(from_state.err().unwrap() == expected);
}
