use cached::Cached;
use compute::amount::Amount;
use compute::cache::{empty_store, AccountStateCacheCalculator, ComputeStateKey};
use compute::calculator::{BalanceCalculator, Calculator, ForecastCalculator};
use compute::calendar::Date;
use compute::merge::MergeMethod;
use compute::model::{Account, AccountKind};
use compute::scenarios::{ScenarioBalance, TestScenarioBuilder};

fn date(y: i32, m: u32, d: u32) -> Date {
    Date::from_ymd(y, m, d).unwrap()
}

fn account(id: i32, name: &str) -> Account {
    Account {
        id,
        name: name.to_string(),
        description: None,
        currency_code: "USD".to_string(),
        owner_id: 1,
        include_in_statistics: true,
        ledger_name: None,
        account_kind: AccountKind::RealAccount,
        target_amount: None,
        is_liquid: true,
    }
}

/// Runs the caching calculator from the day after the scenario's manual state
/// (so that it opens the series) through April 25, 2023, and checks every
/// expected balance.
fn run_cached_scenario(cache_calc: &mut AccountStateCacheCalculator) -> Result<(), String> {
    let scenario = ScenarioBalance::new().get_scenario();
    let start = date(2023, 1, 2);
    let end = date(2023, 4, 25);
    let frame = cache_calc
        .compute_account_state(&scenario.ledger, &scenario.accounts, start, end)
        .map_err(|e| format!("computation failed: {}", e.message()))?;
    for (account_id, expected_date, expected_balance) in &scenario.expected {
        let rows: Vec<_> = frame
            .rows
            .iter()
            .filter(|r| r.account_id == *account_id && r.date.days == expected_date.days)
            .collect();
        if rows.len() != 1 {
            return Err(format!("expected one row, found {}", rows.len()));
        }
        if !rows[0].balance.same_value(expected_balance) {
            return Err("Balance mismatch".to_string());
        }
    }
    Ok(())
}

#[test]
fn test_cache_basic_functionality() {
    let balance_calc = Calculator::Balance(BalanceCalculator::default());
    let cache_calc = AccountStateCacheCalculator::with_defaults(balance_calc);
    let method1 = cache_calc.merge_method();
    let method2 = cache_calc.merge_method();
    assert_eq!(method1, method2);
}

#[test]
fn test_cache_clearing() {
    let balance_calc = Calculator::Balance(BalanceCalculator::default());
    let mut cache_calc = AccountStateCacheCalculator::with_defaults(balance_calc);
    cache_calc.clear_cache();
    assert_eq!(cache_calc.compute_cache_size(), 0);
}

#[test]
fn test_compute_state_key() {
    let account1 = account(1, "Test Account");
    let account2 = account(2, "Test Account 2");
    let date1 = date(2024, 1, 1);
    let date2 = date(2024, 1, 31);
    let key1 = ComputeStateKey::new(&vec![account1.duplicate()], date1, date2);
    let key2 = ComputeStateKey::new(&vec![account1.duplicate()], date1, date2);
    let key3 = ComputeStateKey::new(&vec![account2.duplicate()], date1, date2);
    assert_eq!(key1, key2);
    assert_ne!(key1, key3);
}

#[test]
fn test_cache_integration_with_balance_calculator() {
    let balance_calc = Calculator::Balance(BalanceCalculator::new(MergeMethod::FirstWins));
    let mut cache_calc = AccountStateCacheCalculator::with_defaults(balance_calc);
    run_cached_scenario(&mut cache_calc).expect("Failed to run scenario with cached calculator");
    assert_eq!(cache_calc.compute_cache_size(), 1);
    let method1 = cache_calc.merge_method();
    let method2 = cache_calc.merge_method();
    assert_eq!(method1, method2);
    // A second run is answered from the store.
    run_cached_scenario(&mut cache_calc).expect("Failed to run scenario from the cache");
    assert_eq!(cache_calc.compute_cache_size(), 1);
    cache_calc.clear_cache();
    assert_eq!(cache_calc.compute_cache_size(), 0);
    run_cached_scenario(&mut cache_calc).expect("Failed to run scenario after cache clearing");
}

#[test]
fn test_generic_cache_store_with_custom_cache() {
    let balance_calc = Calculator::Balance(BalanceCalculator::new(MergeMethod::FirstWins));
    let custom_cache = cached::LruTtlCache::new(50, std::time::Duration::from_secs(60));
    let mut cache_calc = AccountStateCacheCalculator::new_with_store(balance_calc, custom_cache);
    run_cached_scenario(&mut cache_calc).expect("Failed to run scenario with custom cache store");
    cache_calc.clear_cache();
    assert_eq!(cache_calc.compute_cache_size(), 0);
}

#[test]
fn different_dates_are_stored_apart() {
    let scenario = ScenarioBalance::new().get_scenario();
    let mut cache_calc =
        AccountStateCacheCalculator::new(Calculator::Balance(BalanceCalculator::default()), 10, 60, None);
    cache_calc
        .compute_account_state(&scenario.ledger, &scenario.accounts, date(2023, 1, 1), date(2023, 1, 31))
        .unwrap();
    cache_calc
        .compute_account_state(&scenario.ledger, &scenario.accounts, date(2023, 2, 1), date(2023, 2, 28))
        .unwrap();
    assert_eq!(cache_calc.compute_cache_size(), 2);
}

#[test]
fn updating_the_opening_balance_clears_the_store() {
    let scenario = ScenarioBalance::new().get_scenario();
    let mut cache_calc =
        AccountStateCacheCalculator::with_defaults(Calculator::Forecast(ForecastCalculator::new(MergeMethod::FirstWins)));
    let before = cache_calc
        .compute_account_state(&scenario.ledger, &scenario.accounts, date(2023, 1, 1), date(2023, 1, 31))
        .unwrap();
    assert_eq!(cache_calc.compute_cache_size(), 1);
    assert!(cache_calc.update_initial_balance(Amount::new(500, 0)));
    assert_eq!(cache_calc.compute_cache_size(), 0);
    let after = cache_calc
        .compute_account_state(&scenario.ledger, &scenario.accounts, date(2023, 1, 1), date(2023, 1, 31))
        .unwrap();
    // Every balance of the forecast is now 500 higher.
    let dec = |a: &Amount| rust_decimal::Decimal::from_i128_with_scale(a.mantissa(), a.scale());
    for (b, a) in before.rows.iter().zip(after.rows.iter()) {
        assert_eq!(dec(&a.balance) - dec(&b.balance), rust_decimal::Decimal::from(500));
    }
}

#[test]
fn test_cache_ttl() {
    let balance_calc = Calculator::Balance(BalanceCalculator::new(MergeMethod::FirstWins));
    // A one-second lifetime, the shortest the store accepts.
    let cache_calc = AccountStateCacheCalculator::new(balance_calc, 10, 1, None);
    assert_eq!(cache_calc.merge_method(), MergeMethod::FirstWins);
    assert_eq!(cache_calc.compute_cache_size(), 0);
}

#[test]
fn a_stored_table_answers_the_same_request() {
    let balance_calc = Calculator::Balance(BalanceCalculator::new(MergeMethod::FirstWins));
    let mut cache_calc = AccountStateCacheCalculator::new_with_store(balance_calc, empty_store(10, 60));
    assert_eq!(cache_calc.compute_cache_size(), 0);
    let scenario = ScenarioBalance::new().get_scenario();
    let first = cache_calc
        .compute_account_state(&scenario.ledger, &scenario.accounts, date(2023, 1, 2), date(2023, 1, 31))
        .unwrap();
    assert_eq!(cache_calc.compute_cache_size(), 1);
    let second = cache_calc
        .compute_account_state(&scenario.ledger, &scenario.accounts, date(2023, 1, 2), date(2023, 1, 31))
        .unwrap();
    assert_eq!(first.rows.len(), second.rows.len());
    for (a, b) in first.rows.iter().zip(second.rows.iter()) {
        assert_eq!(a.date, b.date);
        assert!(a.balance.same_value(&b.balance));
    }
    // Another range is another entry.
    cache_calc
        .compute_account_state(&scenario.ledger, &scenario.accounts, date(2023, 1, 2), date(2023, 2, 28))
        .unwrap();
    assert_eq!(cache_calc.compute_cache_size(), 2);
}

#[test]
fn a_handed_over_store_keeps_its_tables() {
    let scenario = ScenarioBalance::new().get_scenario();
    let (start, end) = (date(2023, 1, 2), date(2023, 1, 3));
    let key = ComputeStateKey::new(&scenario.accounts, start, end).cache_key();
    let mut store = empty_store(10, 60);
    let kept = compute::balance::BalanceFrame {
        rows: vec![compute::balance::BalanceRow { account_id: 1, date: start, balance: Amount::new(7, 0) }],
    };
    store.cache_set(key, kept);
    let balance_calc = Calculator::Balance(BalanceCalculator::new(MergeMethod::FirstWins));
    let mut cache_calc = AccountStateCacheCalculator::new_with_store(balance_calc, store);
    assert_eq!(cache_calc.compute_cache_size(), 1);
    let f = cache_calc.compute_account_state(&scenario.ledger, &scenario.accounts, start, end).unwrap();
    assert_eq!(f.rows.len(), 1);
    assert!(f.rows[0].balance.same_value(&Amount::new(7, 0)));
}
