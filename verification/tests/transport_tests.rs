use compute::amount::Amount;
use compute::balance::{BalanceFrame, BalanceRow};
use compute::calendar::Date;
use compute::transport::{
    compute_stats_to_common_stats, compute_stats_vec_to_collection, create_account_state_point,
    create_account_state_points, create_date_range_period, create_month_period, create_year_period,
    dataframe_to_timeseries, statistics_to_raw_data, timeseries_to_raw_data, AccountStatePoint,
    AccountStateTimeseries, DataFrameConverter, TimePeriod,
};

fn date(y: i32, m: u32, d: u32) -> Date {
    Date::from_ymd(y, m, d).unwrap()
}

fn same(a: Option<Amount>, b: Amount) -> bool {
    a.map_or(false, |x| x.same_value(&b))
}

#[test]
fn test_compute_stats_to_common_stats() {
    let stats = compute_stats_to_common_stats(
        1,
        Some(Amount::new(100, 2)),
        Some(Amount::new(500, 2)),
        Some(Amount::new(200, 2)),
        Some(Amount::new(300, 2)),
        Some(Amount::new(150, 2)),
        Some(Amount::new(400, 2)),
    );
    assert_eq!(stats.account_id, 1);
    assert!(same(stats.min_state, Amount::new(100, 2)));
    assert!(same(stats.max_state, Amount::new(500, 2)));
}

#[test]
fn test_create_account_state_point() {
    let point = create_account_state_point(1, date(2024, 1, 1), "100.50").expect("Should create point successfully");
    assert_eq!(point.account_id, 1);
    assert_eq!(point.date, date(2024, 1, 1));
    assert!(point.balance.same_value(&Amount::new(10050, 2)));
}

#[test]
fn test_create_account_state_point_invalid_balance() {
    let result = create_account_state_point(1, date(2024, 1, 1), "invalid");
    assert!(result.is_err());
    assert!(result.unwrap_err().contains("Failed to parse balance"));
}

#[test]
fn test_create_account_state_points() {
    let data = vec![(1, date(2024, 1, 1), "100.00".to_string()), (2, date(2024, 1, 1), "200.00".to_string())];
    let points = create_account_state_points(data).expect("Should create points successfully");
    assert_eq!(points.len(), 2);
    assert_eq!(points[0].account_id, 1);
    assert_eq!(points[1].account_id, 2);
}

#[test]
fn test_compute_stats_vec_to_collection() {
    let stats_data = vec![
        (1, Some(Amount::new(100, 2)), Some(Amount::new(500, 2)), None, None, None, None),
        (2, Some(Amount::new(200, 2)), Some(Amount::new(600, 2)), None, None, None, None),
    ];
    let collection = compute_stats_vec_to_collection(stats_data, TimePeriod::year(2024));
    assert_eq!(collection.account_count(), 2);
    assert_eq!(collection.period, TimePeriod::year(2024));
}

#[test]
fn test_timeseries_to_raw_data() {
    let points = vec![
        AccountStatePoint::new(1, date(2024, 1, 1), Amount::new(1000, 2)),
        AccountStatePoint::new(2, date(2024, 1, 1), Amount::new(2000, 2)),
    ];
    let timeseries = AccountStateTimeseries::new(points);
    let raw_data = timeseries_to_raw_data(&timeseries);
    assert_eq!(raw_data.len(), 2);
    assert_eq!(raw_data[0].0, 1);
    assert_eq!(raw_data[0].2, "10.00");
}

#[test]
fn test_period_creation_functions() {
    assert_eq!(create_year_period(2024), TimePeriod::year(2024));
    assert_eq!(create_month_period(2024, 6), TimePeriod::month(2024, 6));
    let start = date(2024, 1, 1);
    let end = date(2024, 12, 31);
    assert_eq!(create_date_range_period(start, end), TimePeriod::date_range(start, end));
}

#[test]
fn statistics_become_decimal_text() {
    let collection = compute_stats_vec_to_collection(
        vec![(3, Some(Amount::new(-1250, 2)), None, None, None, None, Some(Amount::new(7, 0)))],
        TimePeriod::month(2024, 2),
    );
    let raw = statistics_to_raw_data(&collection);
    assert_eq!(raw.len(), 1);
    assert_eq!(raw[0].0, 3);
    assert_eq!(raw[0].1.as_deref(), Some("-12.50"));
    assert_eq!(raw[0].2, None);
    assert_eq!(raw[0].6.as_deref(), Some("7"));
}

#[test]
fn frame_converts_to_timeseries_range_and_ids() {
    let frame = BalanceFrame {
        rows: vec![
            BalanceRow { account_id: 5, date: date(2024, 3, 2), balance: Amount::new(1, 0) },
            BalanceRow { account_id: 4, date: date(2024, 3, 1), balance: Amount::new(2, 0) },
            BalanceRow { account_id: 5, date: date(2024, 3, 9), balance: Amount::new(3, 0) },
        ],
    };
    let range = frame.get_date_range().unwrap();
    assert_eq!(range.start, date(2024, 3, 1));
    assert_eq!(range.end, date(2024, 3, 9));
    assert_eq!(frame.get_account_ids().unwrap(), vec![5, 4]);
    let ts = dataframe_to_timeseries(frame).unwrap();
    assert_eq!(ts.data_points.len(), 3);
    assert_eq!(ts.data_points[1].account_id, 4);
    assert!(BalanceFrame { rows: vec![] }.get_date_range().is_err());
}

#[test]
fn raw_data_of_a_time_series_gives_its_points_back() {
    let balances = vec![
        Amount::new(1000, 2),
        Amount::new(-5, 2),
        Amount::new(0, 2),
        Amount::new(0, 0),
        Amount::new(120, 0),
        Amount { mantissa: 79228162514264337593543950335, scale: 28 },
        Amount { mantissa: -79228162514264337593543950335, scale: 0 },
    ];
    let points: Vec<AccountStatePoint> = balances
        .iter()
        .enumerate()
        .map(|(i, b)| AccountStatePoint::new(i as i32 + 1, date(2024, 1, 1 + i as u32), *b))
        .collect();
    let timeseries = AccountStateTimeseries::new(points);
    let raw_data = timeseries_to_raw_data(&timeseries);
    assert_eq!(raw_data[1].2, "-0.05");
    assert_eq!(raw_data[2].2, "0.00");
    assert_eq!(raw_data[5].2, "7.9228162514264337593543950335");
    let back = create_account_state_points(raw_data).unwrap();
    assert_eq!(back.len(), balances.len());
    for (i, b) in balances.iter().enumerate() {
        assert_eq!(back[i].account_id, i as i32 + 1);
        assert_eq!(back[i].date, date(2024, 1, 1 + i as u32));
        assert_eq!(back[i].balance.mantissa(), b.mantissa());
        assert_eq!(back[i].balance.scale(), b.scale());
    }
}
