use compute::amount::Amount;
use compute::balance::{BalanceFrame, BalanceRow};
use compute::calendar::Date;
use compute::metrics::{
    compute_net_inflows, compute_stddev, decimal_sqrt, extract_balance_at_date, extract_net_flow_from_df,
    filter_active_recurring, monthly_equivalent,
};
use compute::model::RecurringTransaction;
use compute::recurrence::RecurrencePeriod;
use rust_decimal::Decimal;

fn date(y: i32, m: u32, d: u32) -> Date {
    Date::from_ymd(y, m, d).unwrap()
}

fn dec(a: Amount) -> Decimal {
    Decimal::from_i128_with_scale(a.mantissa(), a.scale())
}

fn whole(n: i64) -> Amount {
    Amount::from_int(n)
}

#[test]
fn test_monthly_equivalent() {
    let amount = whole(1000);
    assert_eq!(dec(monthly_equivalent(amount, RecurrencePeriod::Monthly).unwrap()), Decimal::from(1000));

    let yearly = dec(monthly_equivalent(amount, RecurrencePeriod::Yearly).unwrap());
    let expected_yearly = Decimal::from(1000) / Decimal::from(12);
    assert!((yearly - expected_yearly).abs() < Decimal::new(1, 10));

    let quarterly = dec(monthly_equivalent(amount, RecurrencePeriod::Quarterly).unwrap());
    let expected_quarterly = Decimal::from(1000) / Decimal::from(3);
    assert!((quarterly - expected_quarterly).abs() < Decimal::new(1, 10));
}

#[test]
fn monthly_equivalent_of_daily_and_work_day_amounts() {
    assert_eq!(dec(monthly_equivalent(whole(10), RecurrencePeriod::Daily).unwrap()), Decimal::new(30440, 2));
    assert_eq!(dec(monthly_equivalent(whole(10), RecurrencePeriod::WorkDay).unwrap()), Decimal::new(21740, 2));
    let weekly = dec(monthly_equivalent(whole(12), RecurrencePeriod::Weekly).unwrap());
    assert!((weekly - Decimal::new(5218, 2)).abs() < Decimal::new(1, 10));
}

#[test]
fn test_compute_stddev_empty() {
    assert!(compute_stddev(&vec![]).is_none());
    assert!(compute_stddev(&vec![whole(5)]).is_none());
}

#[test]
fn test_compute_stddev_identical_values() {
    let values = vec![whole(100), whole(100), whole(100)];
    let result = compute_stddev(&values);
    assert!(result.is_some());
    assert!(dec(result.unwrap()) < Decimal::new(1, 2));
}

#[test]
fn test_compute_stddev_known_values() {
    let values: Vec<Amount> = vec![2, 4, 4, 4, 5, 5, 7, 9].into_iter().map(whole).collect();
    let result = dec(compute_stddev(&values).unwrap());
    assert!((result - Decimal::from(2)).abs() < Decimal::new(1, 4));
}

#[test]
fn test_decimal_sqrt() {
    let result = dec(decimal_sqrt(whole(4)).unwrap());
    assert!((result - Decimal::from(2)).abs() < Decimal::new(1, 8));

    let result = dec(decimal_sqrt(whole(9)).unwrap());
    assert!((result - Decimal::from(3)).abs() < Decimal::new(1, 8));

    assert_eq!(decimal_sqrt(Amount::zero()).map(dec), Some(Decimal::ZERO));
    assert!(decimal_sqrt(whole(-1)).is_none());
}

#[test]
fn test_extract_net_flow_empty_df() {
    let df = BalanceFrame { rows: vec![] };
    let result = extract_net_flow_from_df(&df, date(2026, 1, 1), date(2026, 1, 31)).unwrap();
    assert_eq!(dec(result), Decimal::ZERO);
}

#[test]
fn test_extract_net_flow_normal() {
    let d1 = date(2026, 1, 1);
    let d2 = date(2026, 1, 31);
    let df = BalanceFrame {
        rows: vec![
            BalanceRow { account_id: 1, date: d1, balance: Amount::parse("10000").unwrap() },
            BalanceRow { account_id: 1, date: d2, balance: Amount::parse("12500").unwrap() },
        ],
    };
    let result = extract_net_flow_from_df(&df, d1, d2).unwrap();
    assert_eq!(dec(result), Decimal::from(2500));
}

#[test]
fn net_flow_ignores_rows_outside_the_period() {
    let df = BalanceFrame {
        rows: vec![
            BalanceRow { account_id: 1, date: date(2025, 12, 31), balance: whole(1) },
            BalanceRow { account_id: 1, date: date(2026, 1, 20), balance: whole(40) },
            BalanceRow { account_id: 1, date: date(2026, 1, 5), balance: whole(10) },
            BalanceRow { account_id: 1, date: date(2026, 2, 1), balance: whole(99) },
        ],
    };
    let result = extract_net_flow_from_df(&df, date(2026, 1, 1), date(2026, 1, 31)).unwrap();
    assert_eq!(dec(result), Decimal::from(30));
    assert_eq!(extract_balance_at_date(&df, date(2026, 1, 25)).map(dec), Some(Decimal::from(40)));
    assert!(extract_balance_at_date(&df, date(2025, 1, 1)).is_none());
}

#[test]
fn net_inflows_sum_the_increases() {
    let df = BalanceFrame {
        rows: vec![
            BalanceRow { account_id: 1, date: date(2026, 1, 3), balance: whole(50) },
            BalanceRow { account_id: 1, date: date(2026, 1, 1), balance: whole(10) },
            BalanceRow { account_id: 1, date: date(2026, 1, 2), balance: whole(30) },
            BalanceRow { account_id: 1, date: date(2026, 1, 4), balance: whole(20) },
        ],
    };
    assert_eq!(dec(compute_net_inflows(&df).unwrap()), Decimal::from(40));
}

#[test]
fn active_recurring_excludes_simulated_and_inactive() {
    let base = RecurringTransaction {
        id: 1,
        amount: whole(-100),
        start_date: date(2024, 1, 1),
        end_date: None,
        period: RecurrencePeriod::Monthly,
        include_in_statistics: true,
        target_account_id: 1,
        source_account_id: None,
        scenario_id: None,
        is_simulated: false,
    };
    let simulated = RecurringTransaction { id: 2, is_simulated: true, ..base };
    let ended = RecurringTransaction { id: 3, end_date: Some(date(2024, 5, 31)), ..base };
    let future = RecurringTransaction { id: 4, start_date: date(2024, 7, 1), ..base };
    let ends_today = RecurringTransaction { id: 5, end_date: Some(date(2024, 6, 15)), ..base };
    let active = filter_active_recurring(&vec![base, simulated, ended, future, ends_today], date(2024, 6, 15));
    let ids: Vec<i32> = active.iter().map(|t| t.id).collect();
    assert_eq!(ids, vec![1, 5]);
}

#[test]
fn products_that_fit_are_exact() {
    let p = compute::amount::Amount::new(25, 1).checked_mul(&compute::amount::Amount::new(-4, 0)).unwrap();
    assert_eq!(p.mantissa(), -100);
    assert_eq!(p.scale(), 1);
    let z = compute::amount::Amount::new(0, 3).checked_mul(&compute::amount::Amount::new(7, 2)).unwrap();
    assert_eq!(z.mantissa(), 0);
}
