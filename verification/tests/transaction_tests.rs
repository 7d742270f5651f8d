use chrono::NaiveDate;
use compute::amount::Amount;
use compute::calendar::Date;
use compute::transaction::{
    transactions_to_df, CategoriesComputer, Category, Tag, TagsComputer, Transaction, TransactionIteratorPolars,
    TransactionPolars,
};
use rust_decimal::prelude::ToPrimitive;
use rust_decimal::Decimal;

fn date(y: i32, m: u32, d: u32) -> Date {
    Date::from_ymd(y, m, d).unwrap()
}

fn to_f64(a: &Amount) -> f64 {
    Decimal::from_i128_with_scale(a.mantissa(), a.scale()).to_f64().unwrap()
}

fn millis(y: i32, m: u32, d: u32) -> i64 {
    NaiveDate::from_ymd_opt(y, m, d).unwrap().and_hms_opt(0, 0, 0).unwrap().and_utc().timestamp_millis()
}

#[test]
fn test_transaction_to_df() {
    let amount = Amount::new(10050, 2); // 100.50
    let account = 123;
    let transaction = Transaction::new(date(2023, 1, 1), amount, account);
    let df = transaction.to_df().unwrap();
    assert_eq!(df.shape(), (1, 3));
    assert_eq!(df.date[0], millis(2023, 1, 1));
    assert_eq!(to_f64(&df.amount[0]), 100.50);
    assert_eq!(df.account[0], account);
}

#[test]
fn test_transactions_to_df() {
    let transactions = vec![
        Transaction::new(date(2023, 1, 1), Amount::new(10050, 2), 123),
        Transaction::new(date(2023, 1, 2), Amount::new(20025, 2), 456),
    ];
    let df = transactions_to_df(&transactions).unwrap();
    assert_eq!(df.shape(), (2, 3));
    assert_eq!(df.date[0], millis(2023, 1, 1));
    assert_eq!(to_f64(&df.amount[0]), 100.50);
    assert_eq!(df.account[0], 123);
    assert_eq!(df.date[1], millis(2023, 1, 2));
    assert_eq!(to_f64(&df.amount[1]), 200.25);
    assert_eq!(df.account[1], 456);
}

#[test]
fn test_compute_categories_summary() {
    let computer = CategoriesComputer::new();
    let cat1 = Category { id: 1, name: "Food".to_string(), description: None, parent_id: None };
    let cat2 = Category { id: 2, name: "Utilities".to_string(), description: None, parent_id: None };
    let mut t1 = Transaction::new(date(2023, 1, 1), Amount::new(100, 0), 1);
    t1.set_category(Some(cat1.clone()));
    let mut t2 = Transaction::new(date(2023, 1, 1), Amount::new(50, 0), 1);
    t2.set_category(Some(cat1.clone()));
    let mut t3 = Transaction::new(date(2023, 1, 2), Amount::new(200, 0), 1);
    t3.set_category(Some(cat2.clone()));
    let t4 = Transaction::new(date(2023, 1, 2), Amount::new(75, 0), 1);
    let rows = computer
        .compute_categories_summary(vec![t1, t2, t3, t4], date(2023, 1, 1), date(2023, 1, 31))
        .unwrap();
    assert_eq!(rows.len(), 3);
    let find = |name: &str| rows.iter().filter(|r| r.group_name == name).collect::<Vec<_>>();
    assert_eq!(find("Food").len(), 1);
    assert_eq!(to_f64(&find("Food")[0].amount), 150.0);
    assert_eq!(to_f64(&find("Utilities")[0].amount), 200.0);
    assert_eq!(to_f64(&find("Uncategorized")[0].amount), 75.0);
    assert_eq!(find("Uncategorized")[0].group_id, -1);
    // Ordered by date, then account, then category id.
    assert_eq!(rows[0].group_name, "Food");
    assert_eq!(rows[1].group_id, -1);
    assert_eq!(rows[2].group_id, 2);
}

#[test]
fn test_tags_computer_empty_transactions() {
    let computer = TagsComputer::new();
    let rows = computer.compute_tags_summary(vec![], date(2023, 1, 1), date(2023, 1, 31)).unwrap();
    assert_eq!(rows.len(), 0);
}

#[test]
fn test_tags_computer_with_transactions() {
    let computer = TagsComputer::new();
    let tag1 = Tag { id: 1, name: "Groceries".to_string(), description: Some("Food expenses".to_string()) };
    let tag2 = Tag { id: 2, name: "Transport".to_string(), description: Some("Transportation expenses".to_string()) };
    let transaction1 = Transaction::new_with_tag(date(2023, 1, 15), Amount::new(-5000, 2), 1, tag1);
    let transaction2 = Transaction::new_with_tag(date(2023, 1, 15), Amount::new(-2000, 2), 1, tag2);
    let rows = computer
        .compute_tags_summary(vec![transaction1, transaction2], date(2023, 1, 1), date(2023, 1, 31))
        .unwrap();
    assert_eq!(rows.len(), 2);
    assert_eq!(rows[0].group_name, "Groceries");
    assert_eq!(to_f64(&rows[1].amount), -20.0);
}

#[test]
fn summaries_skip_transactions_outside_the_range() {
    let computer = TagsComputer::new();
    let t1 = Transaction::new(date(2022, 12, 31), Amount::new(5, 0), 1);
    let t2 = Transaction::new(date(2023, 1, 3), Amount::new(7, 0), 1);
    let t3 = Transaction::new(date(2023, 1, 3), Amount::new(8, 0), 1);
    let rows = computer.compute_tags_summary(vec![t1, t2, t3], date(2023, 1, 1), date(2023, 1, 31)).unwrap();
    assert_eq!(rows.len(), 1);
    assert_eq!(rows[0].group_name, "untagged");
    assert_eq!(to_f64(&rows[0].amount), 15.0);
    assert_eq!(rows[0].timestamp_ms, millis(2023, 1, 3));
}

#[test]
fn a_list_of_transactions_converts_row_by_row() {
    let d1 = Date::from_ymd(2023, 1, 1).unwrap();
    let d2 = Date::from_ymd(2023, 1, 2).unwrap();
    let txs = vec![Transaction::new(d1, Amount::new(10050, 2), 1), Transaction::new(d2, Amount::new(-5, 0), 2)];
    let df = TransactionIteratorPolars::to_df(&txs).unwrap();
    assert_eq!(df.shape(), (2, 3));
    assert_eq!(df.account, vec![1, 2]);
    let one = txs[1].to_series();
    assert_eq!(one.date, vec![df.date[1]]);
}
