use compute::amount::Amount;
use compute::balance::{compute_balance, BalanceFrame, BalanceRow};
use compute::calendar::{first_supported_date, Date};
use compute::calculator::{BalanceCalculator, Calculator, MergeCalculator};
use compute::merge::{merge_first_seen, merge_first_wins, merge_sum, MergeMethod};
use compute::model::Ledger;
use compute::sources::get_latest_manual_state;
use compute::testing::{new_account, new_manual_account_state, new_one_off_account_transfer, new_one_off_trsansaction};

fn date(y: i32, m: u32, d: u32) -> Date {
    Date::from_ymd(y, m, d).unwrap()
}

fn row(a: i32, d: Date, b: i64) -> BalanceRow {
    BalanceRow { account_id: a, date: d, balance: Amount::new(b, 0) }
}

fn value_of(f: &BalanceFrame, a: i32, d: Date) -> Vec<Amount> {
    f.rows.iter().filter(|r| r.account_id == a && r.date.days == d.days).map(|r| r.balance).collect()
}

#[test]
fn sum_merge_adds_the_balances_of_each_key() {
    let d1 = date(2024, 1, 1);
    let d2 = date(2024, 1, 2);
    let a = BalanceFrame { rows: vec![row(1, d1, 10), row(1, d2, 20)] };
    let b = BalanceFrame { rows: vec![row(1, d2, 5), row(2, d1, 7), row(1, d1, -3)] };
    let merged = merge_sum(&vec![a, b]).unwrap();
    assert_eq!(merged.rows.len(), 3);
    assert!(value_of(&merged, 1, d1)[0].same_value(&Amount::new(7, 0)));
    assert!(value_of(&merged, 1, d2)[0].same_value(&Amount::new(25, 0)));
    assert!(value_of(&merged, 2, d1)[0].same_value(&Amount::new(7, 0)));
}

#[test]
fn first_wins_keeps_the_first_table_that_has_a_key() {
    let d1 = date(2024, 1, 1);
    let d2 = date(2024, 1, 2);
    let a = BalanceFrame { rows: vec![row(1, d1, 10)] };
    let b = BalanceFrame { rows: vec![row(1, d1, 99), row(1, d2, 5), row(1, d2, 6)] };
    let merged = merge_first_wins(&vec![a, b]);
    assert_eq!(merged.rows.len(), 2);
    assert!(value_of(&merged, 1, d1)[0].same_value(&Amount::new(10, 0)));
    // Within the deciding table, its last row with the key counts.
    assert!(value_of(&merged, 1, d2)[0].same_value(&Amount::new(6, 0)));
}

#[test]
fn merging_no_tables_gives_an_empty_table() {
    assert_eq!(merge_sum(&vec![]).unwrap().rows.len(), 0);
    assert_eq!(merge_first_wins(&vec![]).rows.len(), 0);
}

#[test]
fn transfer_moves_money_between_accounts() {
    let mut ledger = Ledger::new();
    let a = new_account(&mut ledger);
    let b = new_account(&mut ledger);
    new_manual_account_state(&mut ledger, &a, date(2024, 1, 1), 100);
    new_one_off_account_transfer(&mut ledger, &a, &b, date(2024, 1, 5), 30);
    new_one_off_trsansaction(&mut ledger, &b, date(2024, 1, 7), 2);
    let accounts = vec![a.duplicate(), b.duplicate(), a.duplicate()];
    let frame = compute_balance(&ledger, &accounts, date(2024, 1, 1), date(2024, 1, 10), first_supported_date(), None)
        .unwrap();
    // Each account once, ten days each.
    assert_eq!(frame.rows.len(), 20);
    assert!(value_of(&frame, a.id, date(2024, 1, 4))[0].same_value(&Amount::new(10000, 2)));
    assert!(value_of(&frame, a.id, date(2024, 1, 5))[0].same_value(&Amount::new(7000, 2)));
    assert!(value_of(&frame, b.id, date(2024, 1, 5))[0].same_value(&Amount::new(3000, 2)));
    assert!(value_of(&frame, b.id, date(2024, 1, 10))[0].same_value(&Amount::new(3200, 2)));
}

#[test]
fn manual_state_sets_the_balance_on_its_own_date() {
    let mut ledger = Ledger::new();
    let a = new_account(&mut ledger);
    new_one_off_trsansaction(&mut ledger, &a, date(2024, 1, 2), 10);
    new_manual_account_state(&mut ledger, &a, date(2024, 1, 5), 500);
    new_one_off_trsansaction(&mut ledger, &a, date(2024, 1, 5), -20);
    new_one_off_trsansaction(&mut ledger, &a, date(2024, 1, 6), -30);
    let frame = compute_balance(&ledger, &vec![a.duplicate()], date(2024, 1, 1), date(2024, 1, 8), first_supported_date(), None)
        .unwrap();
    assert_eq!(frame.rows.len(), 8);
    assert!(value_of(&frame, a.id, date(2024, 1, 4))[0].same_value(&Amount::new(10, 0)));
    assert!(value_of(&frame, a.id, date(2024, 1, 5))[0].same_value(&Amount::new(500, 0)));
    assert!(value_of(&frame, a.id, date(2024, 1, 8))[0].same_value(&Amount::new(470, 0)));
}

#[test]
fn series_opens_from_the_latest_manual_state_before_the_range() {
    let mut ledger = Ledger::new();
    let a = new_account(&mut ledger);
    new_manual_account_state(&mut ledger, &a, date(2023, 12, 25), 100);
    new_one_off_trsansaction(&mut ledger, &a, date(2023, 12, 28), 1);
    let frame = compute_balance(&ledger, &vec![a.duplicate()], date(2024, 1, 1), date(2024, 1, 2), first_supported_date(), None)
        .unwrap();
    // Rows for January 1 and 2 only; the state of December 25 and the change
    // of December 28 feed the balance.
    assert_eq!(frame.rows.len(), 2);
    assert_eq!(frame.rows[0].date, date(2024, 1, 1));
    assert!(value_of(&frame, a.id, date(2024, 1, 1))[0].same_value(&Amount::new(10100, 2)));
    assert!(value_of(&frame, a.id, date(2024, 1, 2))[0].same_value(&Amount::new(10100, 2)));
}

#[test]
fn manual_state_on_the_start_date_is_not_the_opening_state() {
    let mut ledger = Ledger::new();
    let a = new_account(&mut ledger);
    new_manual_account_state(&mut ledger, &a, date(2023, 12, 25), 100);
    new_manual_account_state(&mut ledger, &a, date(2024, 1, 1), 300);
    new_one_off_trsansaction(&mut ledger, &a, date(2024, 1, 1), 7);
    new_one_off_trsansaction(&mut ledger, &a, date(2024, 1, 2), 1);
    // The latest state strictly before January 1 opens the series; the one of
    // January 1 sets that day's balance.
    let latest = get_latest_manual_state(&ledger, a.id, date(2024, 1, 1)).unwrap();
    assert_eq!(latest.date, date(2023, 12, 25));
    assert!(get_latest_manual_state(&ledger, a.id, date(2023, 12, 25)).is_none());
    let frame = compute_balance(&ledger, &vec![a.duplicate()], date(2024, 1, 1), date(2024, 1, 2), first_supported_date(), None)
        .unwrap();
    assert_eq!(frame.rows.len(), 2);
    assert!(value_of(&frame, a.id, date(2023, 12, 31)).is_empty());
    assert!(value_of(&frame, a.id, date(2024, 1, 1))[0].same_value(&Amount::new(300, 0)));
    assert!(value_of(&frame, a.id, date(2024, 1, 2))[0].same_value(&Amount::new(301, 0)));
}

#[test]
fn first_seen_merge_keeps_the_first_row_of_each_key() {
    let d1 = date(2024, 1, 1);
    let d2 = date(2024, 1, 2);
    let a = BalanceFrame { rows: vec![row(1, d1, 10)] };
    let b = BalanceFrame { rows: vec![row(1, d1, 99), row(1, d2, 5), row(1, d2, 6)] };
    let merged = merge_first_seen(&vec![a, b]);
    assert_eq!(merged.rows.len(), 2);
    assert!(value_of(&merged, 1, d1)[0].same_value(&Amount::new(10, 0)));
    assert!(value_of(&merged, 1, d2)[0].same_value(&Amount::new(5, 0)));
}

#[test]
fn merge_dataframes_follows_the_merge_method() {
    let d1 = date(2024, 1, 1);
    let frames = || {
        vec![
            BalanceFrame { rows: vec![row(1, d1, 10)] },
            BalanceFrame { rows: vec![row(1, d1, 5), row(2, d1, 1)] },
        ]
    };
    let sum = MergeCalculator::new(vec![], MergeMethod::Sum).merge_dataframes(&frames()).unwrap();
    assert!(value_of(&sum, 1, d1)[0].same_value(&Amount::new(15, 0)));
    let first = MergeCalculator::new(vec![], MergeMethod::FirstWins).merge_dataframes(&frames()).unwrap();
    assert!(value_of(&first, 1, d1)[0].same_value(&Amount::new(10, 0)));
    assert_eq!(first.rows.len(), 2);
    let split = MergeCalculator::new(vec![], MergeMethod::DateSplit);
    assert!(matches!(split.merge_dataframes(&frames()), Err(compute::error::ComputeError::Runtime(_))));
    let empty = vec![BalanceFrame::empty(), BalanceFrame::empty()];
    assert_eq!(split.merge_dataframes(&empty).unwrap().rows.len(), 0);
    // A single table is returned as it is, repeated keys included.
    let one = vec![BalanceFrame { rows: vec![row(1, d1, 1), row(1, d1, 2)] }];
    assert_eq!(split.merge_dataframes(&one).unwrap().rows.len(), 2);
    assert_eq!(split.merge_dataframes(&vec![]).unwrap().rows.len(), 0);
}

#[test]
fn sum_merge_of_two_calculators_adds_their_balances() {
    let mut ledger = Ledger::new();
    let a = new_account(&mut ledger);
    new_one_off_trsansaction(&mut ledger, &a, date(2024, 1, 3), 40);
    let balance = || Calculator::Balance(BalanceCalculator::new_with_today(MergeMethod::Sum, date(2024, 1, 1)));
    let merged = Calculator::Merge(MergeCalculator::new(vec![balance(), balance()], MergeMethod::Sum));
    let frame = merged
        .compute_account_state(&ledger, &vec![a.duplicate()], date(2024, 1, 1), date(2024, 1, 5))
        .unwrap();
    assert_eq!(frame.rows.len(), 5);
    assert!(value_of(&frame, a.id, date(2024, 1, 2))[0].same_value(&Amount::new(0, 0)));
    assert!(value_of(&frame, a.id, date(2024, 1, 3))[0].same_value(&Amount::new(80, 0)));
    assert!(value_of(&frame, a.id, date(2024, 1, 5))[0].same_value(&Amount::new(80, 0)));
}

#[test]
fn adding_a_transfer_moves_both_balances_from_its_date_on() {
    let mut ledger = Ledger::new();
    let a = new_account(&mut ledger);
    let b = new_account(&mut ledger);
    new_one_off_trsansaction(&mut ledger, &b, date(2024, 1, 2), 100);
    let accounts = vec![a.duplicate(), b.duplicate()];
    let before = compute_balance(&ledger, &accounts, date(2024, 1, 1), date(2024, 1, 6), first_supported_date(), None)
        .unwrap();
    new_one_off_account_transfer(&mut ledger, &b, &a, date(2024, 1, 4), 30);
    let after = compute_balance(&ledger, &accounts, date(2024, 1, 1), date(2024, 1, 6), first_supported_date(), None)
        .unwrap();
    for day in 1..=6u32 {
        let d = date(2024, 1, day);
        let moved = if day >= 4 { 30 } else { 0 };
        let a_before = value_of(&before, a.id, d)[0];
        let b_before = value_of(&before, b.id, d)[0];
        assert!(value_of(&after, a.id, d)[0].same_value(&a_before.checked_add(&Amount::new(moved, 0)).unwrap()));
        assert!(value_of(&after, b.id, d)[0].same_value(&b_before.checked_add(&Amount::new(-moved, 0)).unwrap()));
    }
}

#[test]
fn transfer_after_a_manual_state_moves_both_balances_and_leaves_other_accounts() {
    let mut ledger = Ledger::new();
    let a = new_account(&mut ledger);
    let b = new_account(&mut ledger);
    let c = new_account(&mut ledger);
    new_one_off_trsansaction(&mut ledger, &b, date(2024, 1, 2), 100);
    new_one_off_trsansaction(&mut ledger, &c, date(2024, 1, 3), 40);
    new_manual_account_state(&mut ledger, &b, date(2024, 1, 3), 500);
    let accounts = vec![a.duplicate(), b.duplicate(), c.duplicate()];
    let before = compute_balance(&ledger, &accounts, date(2024, 1, 1), date(2024, 1, 8), first_supported_date(), None)
        .unwrap();
    new_one_off_account_transfer(&mut ledger, &b, &a, date(2024, 1, 5), 70);
    let after = compute_balance(&ledger, &accounts, date(2024, 1, 1), date(2024, 1, 8), first_supported_date(), None)
        .unwrap();
    assert_eq!(after.rows.len(), before.rows.len());
    for day in 1..=8u32 {
        let d = date(2024, 1, day);
        let moved = if day >= 5 { 70 } else { 0 };
        let a_before = value_of(&before, a.id, d)[0];
        let b_before = value_of(&before, b.id, d)[0];
        let c_before = value_of(&before, c.id, d)[0];
        assert!(value_of(&after, a.id, d)[0].same_value(&a_before.checked_add(&Amount::new(moved, 0)).unwrap()));
        assert!(value_of(&after, b.id, d)[0].same_value(&b_before.checked_add(&Amount::new(-moved, 0)).unwrap()));
        assert!(value_of(&after, c.id, d)[0].same_value(&c_before));
    }
    assert!(value_of(&after, b.id, date(2024, 1, 8))[0].same_value(&Amount::new(430, 0)));
}

#[test]
fn balances_keep_the_scale_that_decimal_sums_give() {
    let mut ledger = Ledger::new();
    let a = new_account(&mut ledger);
    new_one_off_trsansaction(&mut ledger, &a, date(2024, 1, 2), 10);
    new_one_off_trsansaction(&mut ledger, &a, date(2024, 1, 3), -10);
    let accounts = vec![a.duplicate()];
    let frame = compute_balance(&ledger, &accounts, date(2024, 1, 1), date(2024, 1, 4), first_supported_date(), None)
        .unwrap();
    assert_eq!(frame.rows.len(), 4);
    assert_eq!(frame.rows[0].balance.to_text(), "0");
    assert_eq!(frame.rows[1].balance.to_text(), "10.00");
    assert_eq!(frame.rows[1].balance.scale(), 2);
    assert_eq!(frame.rows[2].balance.to_text(), "0.00");
    assert_eq!(frame.rows[3].balance.to_text(), "0");
}

#[test]
fn merges_keep_the_decimals_of_the_balances() {
    let d1 = date(2024, 1, 1);
    let a = BalanceFrame { rows: vec![BalanceRow { account_id: 1, date: d1, balance: Amount::new(10, 1) }] };
    let b = BalanceFrame { rows: vec![BalanceRow { account_id: 1, date: d1, balance: Amount::new(200, 2) }] };
    let summed = merge_sum(&vec![a.clone(), b.clone()]).unwrap();
    assert_eq!(summed.rows.len(), 1);
    assert_eq!(summed.rows[0].balance.to_text(), "3.00");
    let first = merge_first_wins(&vec![a.clone(), b.clone()]);
    assert_eq!(first.rows[0].balance.to_text(), "1.0");
    let seen = merge_first_seen(&vec![b, a]);
    assert_eq!(seen.rows[0].balance.to_text(), "2.00");
}
