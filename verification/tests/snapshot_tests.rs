use compute::account_stats::{
    average_expense_in_year, average_income_in_year, end_of_year_state, max_state_in_year, min_state_in_year,
    AccountStats,
};
use compute::amount::Amount;
use compute::balance::compute_balance;
use compute::calculator::{BalanceCalculator, Calculator};
use compute::calendar::Date;
use compute::merge::MergeMethod;
use compute::model::{Account, Ledger};
use compute::testing::{new_account, new_manual_account_state, new_one_off_trsansaction};

fn d(m: u32, day: u32) -> Date {
    Date::from_ymd(2026, m, day).unwrap()
}

/// Checking starts at 100000 on January 1, 2026; salary +50000 (Jan 5),
/// groceries -5000 (Jan 10), transfers of 10000 (Jan 12) and 8000 (Jan 20) to
/// Savings and of 20000 (Jan 15) to Investment, and a capital gain of 5000
/// (Jan 18) on Investment.
fn snapshot() -> (Ledger, Account, Account, Account) {
    let mut ledger = Ledger::new();
    let checking = new_account(&mut ledger);
    let savings = new_account(&mut ledger);
    let investment = new_account(&mut ledger);
    new_manual_account_state(&mut ledger, &checking, d(1, 1), 100000);
    new_one_off_trsansaction(&mut ledger, &checking, d(1, 5), 50000);
    new_one_off_trsansaction(&mut ledger, &checking, d(1, 10), -5000);
    new_one_off_trsansaction(&mut ledger, &savings, d(1, 12), 10000);
    ledger.one_off_transactions.last_mut().unwrap().source_account_id = Some(checking.id);
    new_one_off_trsansaction(&mut ledger, &investment, d(1, 15), 20000);
    ledger.one_off_transactions.last_mut().unwrap().source_account_id = Some(checking.id);
    new_one_off_trsansaction(&mut ledger, &investment, d(1, 18), 5000);
    new_one_off_trsansaction(&mut ledger, &savings, d(1, 20), 8000);
    ledger.one_off_transactions.last_mut().unwrap().source_account_id = Some(checking.id);
    (ledger, checking, savings, investment)
}

fn calculator() -> Calculator {
    Calculator::Balance(BalanceCalculator::new_with_today(MergeMethod::FirstWins, d(2, 1)))
}

fn stat_of(v: &[AccountStats], id: i32) -> AccountStats {
    v.iter().find(|s| s.account_id == id).unwrap().clone()
}

fn units(x: i64) -> Amount {
    Amount::new(x, 0)
}

#[test]
fn snapshot_balances_follow_the_manual_state_and_transfers() {
    let (ledger, checking, savings, investment) = snapshot();
    let accounts = vec![checking.duplicate(), savings.duplicate(), investment.duplicate()];
    let frame = compute_balance(&ledger, &accounts, d(1, 1), d(1, 31), d(2, 1), None).unwrap();
    let on = |a: i32, day: Date| {
        frame.rows.iter().find(|r| r.account_id == a && r.date.days == day.days).unwrap().balance
    };
    // The manual state sets the balance on its own date.
    assert!(on(checking.id, d(1, 1)).same_value(&units(100000)));
    assert!(on(checking.id, d(1, 5)).same_value(&units(150000)));
    assert!(on(checking.id, d(1, 10)).same_value(&units(145000)));
    assert!(on(checking.id, d(1, 12)).same_value(&units(135000)));
    assert!(on(checking.id, d(1, 15)).same_value(&units(115000)));
    assert!(on(checking.id, d(1, 20)).same_value(&units(107000)));
    assert!(on(savings.id, d(1, 5)).same_value(&units(0)));
    assert!(on(savings.id, d(1, 12)).same_value(&units(10000)));
    assert!(on(savings.id, d(1, 20)).same_value(&units(18000)));
    assert!(on(investment.id, d(1, 10)).same_value(&units(0)));
    assert!(on(investment.id, d(1, 15)).same_value(&units(20000)));
    assert!(on(investment.id, d(1, 18)).same_value(&units(25000)));
}

#[test]
fn snapshot_statistics_of_the_year() {
    let (ledger, checking, savings, investment) = snapshot();
    let accounts = vec![checking.duplicate(), savings.duplicate(), investment.duplicate()];
    let calc = calculator();
    let exp = average_expense_in_year(&calc, &ledger, &accounts, 2026).unwrap();
    let inc = average_income_in_year(&calc, &ledger, &accounts, 2026).unwrap();
    let min = min_state_in_year(&calc, &ledger, &accounts, 2026).unwrap();
    let max = max_state_in_year(&calc, &ledger, &accounts, 2026).unwrap();
    let end = end_of_year_state(&calc, &ledger, &accounts, 2026).unwrap();

    assert!(stat_of(&exp, checking.id).average_expense.unwrap().same_value(&units(43000)));
    assert!(stat_of(&inc, checking.id).average_income.unwrap().same_value(&units(50000)));
    assert!(stat_of(&min, checking.id).min_state.unwrap().same_value(&units(100000)));
    assert!(stat_of(&max, checking.id).max_state.unwrap().same_value(&units(150000)));
    assert!(stat_of(&end, checking.id).end_of_period_state.unwrap().same_value(&units(107000)));

    assert!(stat_of(&exp, savings.id).average_expense.unwrap().same_value(&units(0)));
    assert!(stat_of(&inc, savings.id).average_income.unwrap().same_value(&units(18000)));
    assert!(stat_of(&max, savings.id).max_state.unwrap().same_value(&units(18000)));

    assert!(stat_of(&exp, investment.id).average_expense.unwrap().same_value(&units(0)));
    assert!(stat_of(&inc, investment.id).average_income.unwrap().same_value(&units(25000)));
    assert!(stat_of(&end, investment.id).end_of_period_state.unwrap().same_value(&units(25000)));
}
