use compute::account_metrics::{compute_account_metrics, kind_str, month_bounds};
use compute::amount::Amount;
use compute::calculator::{BalanceCalculator, Calculator};
use compute::calendar::Date;
use compute::dashboard::compute_dashboard_metrics;
use compute::merge::MergeMethod;
use compute::metric_reports::AccountKindMetricsDto;
use compute::model::{AccountKind, Ledger};
use compute::testing::{new_account, new_manual_account_state, new_one_off_trsansaction, new_recurring_transaction};
use rust_decimal::Decimal;

fn date(y: i32, m: u32, d: u32) -> Date {
    Date::from_ymd(y, m, d).unwrap()
}

fn dec(a: &Amount) -> Decimal {
    Decimal::from_i128_with_scale(a.mantissa(), a.scale())
}

fn close(a: &Amount, expected: Decimal) -> bool {
    (dec(a) - expected).abs() < Decimal::new(1, 10)
}

/// An operating account with a target of 1000: 1000 on January 1, 2026, -200 on
/// February 10, +500 on March 5, and a monthly rent of 300 from January 1.
fn ledger() -> Ledger {
    let mut ledger = Ledger::new();
    let account = new_account(&mut ledger);
    new_manual_account_state(&mut ledger, &account, date(2026, 1, 1), 1000);
    new_one_off_trsansaction(&mut ledger, &account, date(2026, 2, 10), -200);
    new_one_off_trsansaction(&mut ledger, &account, date(2026, 3, 5), 500);
    new_recurring_transaction(&mut ledger, &account, date(2026, 1, 1), -300);
    ledger.accounts[0].target_amount = Some(Amount::new(1000, 0));
    ledger
}

fn calculator() -> Calculator {
    Calculator::Balance(BalanceCalculator::new_with_today(MergeMethod::FirstWins, date(2026, 3, 15)))
}

#[test]
fn month_bounds_go_back_across_years() {
    let (start, end) = month_bounds(date(2026, 3, 15), 4);
    assert_eq!(start, date(2025, 11, 1));
    assert_eq!(end, date(2025, 11, 30));
    let (start, end) = month_bounds(date(2024, 3, 31), 1);
    assert_eq!(start, date(2024, 2, 1));
    assert_eq!(end, date(2024, 2, 29));
}

#[test]
fn kind_names() {
    assert_eq!(kind_str(AccountKind::RealAccount), "RealAccount");
    assert_eq!(kind_str(AccountKind::EmergencyFund), "EmergencyFund");
    assert_eq!(kind_str(AccountKind::Debt), "Debt");
}

#[test]
fn account_metrics_of_an_operating_account() {
    let ledger = ledger();
    let account = ledger.accounts[0].duplicate();
    let m = compute_account_metrics(&calculator(), &ledger, &account, date(2026, 3, 15)).unwrap();
    assert_eq!(m.account_id, account.id);
    assert_eq!(m.account_kind, "RealAccount");
    assert_eq!(dec(&m.current_balance), Decimal::from(1300));
    assert!(close(&m.funding_ratio.unwrap(), Decimal::new(13, 1)));
    assert_eq!(dec(&m.monthly_net_flow.unwrap()), Decimal::from(500));
    // (500 - 200 + 0) / 3
    assert_eq!(dec(&m.three_month_avg_net_flow.unwrap()), Decimal::from(100));
    assert!(m.flow_volatility.is_some());
    match m.kind_metrics {
        Some(AccountKindMetricsDto::Operating(op)) => {
            assert_eq!(dec(&op.operating_buffer.unwrap()), Decimal::from(300));
            assert_eq!(dec(&op.sweep_potential.unwrap()), Decimal::from(300));
            // 1300 / 300 months of rent.
            assert!(close(&op.mandatory_coverage_months.unwrap(), Decimal::from(13) / Decimal::from(3)));
        }
        _ => panic!("operating metrics expected"),
    }
}

#[test]
fn dashboard_of_one_operating_account() {
    let ledger = ledger();
    let d = compute_dashboard_metrics(&calculator(), &ledger, date(2026, 3, 15)).unwrap();
    assert_eq!(dec(&d.total_net_worth), Decimal::from(1300));
    assert_eq!(dec(&d.liquid_net_worth), Decimal::from(1300));
    assert_eq!(dec(&d.non_liquid_net_worth), Decimal::ZERO);
    assert_eq!(dec(&d.full_burn_rate), Decimal::from(300));
    assert_eq!(dec(&d.essential_burn_rate), Decimal::from(300));
    assert_eq!(dec(&d.free_cashflow), Decimal::from(500));
    // Income is 500 + 300.
    assert_eq!(dec(&d.savings_rate.unwrap()), Decimal::new(625, 3));
    assert_eq!(dec(&d.commitment_ratio.unwrap()), Decimal::new(375, 3));
    assert_eq!(dec(&d.goal_engine), Decimal::ZERO);
    assert!(close(&d.liquidity_ratio_months.unwrap(), Decimal::from(13) / Decimal::from(3)));
    assert_eq!(dec(&d.total_debt_burden.unwrap()), Decimal::ZERO);
    assert_eq!(d.account_metrics.len(), 1);
    assert_eq!(dec(&d.account_metrics[0].current_balance), Decimal::from(1300));
}

#[test]
fn dashboard_of_no_accounts_is_zero() {
    let ledger = Ledger::new();
    let d = compute_dashboard_metrics(&calculator(), &ledger, date(2026, 3, 15)).unwrap();
    assert_eq!(dec(&d.total_net_worth), Decimal::ZERO);
    assert!(d.savings_rate.is_none());
    assert!(d.account_metrics.is_empty());
}

#[test]
fn reserve_accounts_get_their_coverage_of_essential_expenses() {
    let mut ledger = ledger();
    let savings = new_account(&mut ledger);
    new_manual_account_state(&mut ledger, &savings, date(2026, 1, 1), 600);
    ledger.accounts[1].account_kind = AccountKind::Savings;
    ledger.accounts[1].is_liquid = false;
    let d = compute_dashboard_metrics(&calculator(), &ledger, date(2026, 3, 15)).unwrap();
    assert_eq!(dec(&d.total_net_worth), Decimal::from(1900));
    assert_eq!(dec(&d.liquid_net_worth), Decimal::from(1300));
    assert_eq!(dec(&d.non_liquid_net_worth), Decimal::from(600));
    assert_eq!(dec(&d.total_net_worth), dec(&d.liquid_net_worth) + dec(&d.non_liquid_net_worth));
    match d.account_metrics[1].kind_metrics {
        Some(AccountKindMetricsDto::Reserve(r)) => {
            // 600 / 300 of essential expenses a month.
            assert_eq!(dec(&r.months_of_essential_coverage.unwrap()), Decimal::from(2));
            assert!(r.goal_reached_date.is_none());
        }
        _ => panic!("reserve metrics expected"),
    }
}
