//! Transport-layer types shared with clients, and the conversions between them
//! and the computed tables and statistics.

use crate::amount::{decimal_parsed, decimal_text, Amount};
use crate::account_stats::{distinct_in_order, row_accounts};
use crate::balance::{BalanceFrame, BalanceRow};
use crate::calendar::Date;
use vstd::prelude::*;

verus! {

broadcast use vstd::seq_lib::group_seq_properties;

/// Generic API response wrapper.
#[derive(Debug, Clone)]
pub struct ApiResponse<T> {
    /// Response data.
    pub data: T,
    /// Response message.
    pub message: String,
    /// Success flag.
    pub success: bool,
}

/// Request body for creating a new account.
#[derive(Debug, Clone, PartialEq)]
pub struct CreateAccountRequest {
    pub name: String,
    pub description: Option<String>,
    pub currency_code: String,
    pub owner_id: i32,
    pub include_in_statistics: Option<bool>,
    pub ledger_name: Option<String>,
}

/// Request body for updating an account.
#[derive(Debug, Clone, PartialEq, Default)]
pub struct UpdateAccountRequest {
    pub name: Option<String>,
    pub description: Option<String>,
    pub currency_code: Option<String>,
    pub include_in_statistics: Option<bool>,
    pub ledger_name: Option<String>,
}

/// Account response model.
#[derive(Debug, Clone, PartialEq)]
pub struct AccountDto {
    pub id: i32,
    pub name: String,
    pub description: Option<String>,
    pub currency_code: String,
    pub owner_id: i32,
    pub include_in_statistics: bool,
    pub ledger_name: Option<String>,
}

/// Request for creating a category.
#[derive(Debug, Clone, PartialEq)]
pub struct CreateCategoryRequest {
    pub name: String,
    pub description: Option<String>,
    pub parent_id: Option<i32>,
}

/// Request for updating a category.
#[derive(Debug, Clone, PartialEq, Default)]
pub struct UpdateCategoryRequest {
    pub name: Option<String>,
    pub description: Option<String>,
    pub parent_id: Option<i32>,
}

/// Category response model.
#[derive(Debug, Clone, PartialEq)]
pub struct CategoryDto {
    pub id: i32,
    pub name: String,
    pub description: Option<String>,
    pub parent_id: Option<i32>,
}

/// Request for creating a tag.
#[derive(Debug, Clone, PartialEq)]
pub struct CreateTagRequest {
    pub name: String,
    pub description: Option<String>,
    pub parent_id: Option<i32>,
    pub ledger_name: Option<String>,
}

/// Request for updating a tag.
#[derive(Debug, Clone, PartialEq, Default)]
pub struct UpdateTagRequest {
    pub name: Option<String>,
    pub description: Option<String>,
    pub parent_id: Option<i32>,
    pub ledger_name: Option<String>,
}

/// Tag response model.
#[derive(Debug, Clone, PartialEq)]
pub struct TagDto {
    pub id: i32,
    pub name: String,
    pub description: Option<String>,
    pub parent_id: Option<i32>,
    pub ledger_name: Option<String>,
}

// ---------------------------------------------------------------------------
// Periods, statistics and time series
// ---------------------------------------------------------------------------

/// The time period a collection of statistics covers.
#[derive(Debug, Clone, Copy, PartialEq, Eq, Structural)]
pub enum TimePeriod {
    Year(i32),
    Month { year: i32, month: u32 },
    DateRange { start: Date, end: Date },
}

impl TimePeriod {
    /// The whole year.
    pub fn year(year: i32) -> (r: TimePeriod)
        ensures
            r == TimePeriod::Year(year),
    {
        TimePeriod::Year(year)
    }

    /// A month of a year.
    pub fn month(year: i32, month: u32) -> (r: TimePeriod)
        ensures
            r == (TimePeriod::Month { year, month }),
    {
        TimePeriod::Month { year, month }
    }

    /// The days from `start` through `end`.
    pub fn date_range(start: Date, end: Date) -> (r: TimePeriod)
        ensures
            r == (TimePeriod::DateRange { start, end }),
    {
        TimePeriod::DateRange { start, end }
    }
}

/// Statistics of one account, ready for transport.
#[derive(Debug, Clone, Copy)]
pub struct AccountStatistics {
    pub account_id: i32,
    pub min_state: Option<Amount>,
    pub max_state: Option<Amount>,
    pub average_expense: Option<Amount>,
    pub average_income: Option<Amount>,
    pub upcoming_expenses: Option<Amount>,
    pub end_of_period_state: Option<Amount>,
}

/// The statistics of several accounts for one period.
#[derive(Debug, Clone)]
pub struct AccountStatisticsCollection {
    pub period: TimePeriod,
    pub statistics: Vec<AccountStatistics>,
}

impl AccountStatisticsCollection {
    pub fn new(period: TimePeriod, statistics: Vec<AccountStatistics>) -> (r: Self)
        ensures
            r.period == period,
            r.statistics@ == statistics@,
    {
        AccountStatisticsCollection { period, statistics }
    }

    /// Number of accounts in the collection.
    pub fn account_count(&self) -> (r: usize)
        ensures
            r == self.statistics.len(),
    {
        self.statistics.len()
    }
}

/// The balance of an account on a date.
#[derive(Debug, Clone, Copy)]
pub struct AccountStatePoint {
    pub account_id: i32,
    pub date: Date,
    pub balance: Amount,
}

impl AccountStatePoint {
    pub fn new(account_id: i32, date: Date, balance: Amount) -> (r: Self)
        ensures
            r == (AccountStatePoint { account_id, date, balance }),
    {
        AccountStatePoint { account_id, date, balance }
    }
}

/// A series of account balances.
#[derive(Debug, Clone)]
pub struct AccountStateTimeseries {
    pub data_points: Vec<AccountStatePoint>,
}

impl AccountStateTimeseries {
    pub fn new(data_points: Vec<AccountStatePoint>) -> (r: Self)
        ensures
            r.data_points@ == data_points@,
    {
        AccountStateTimeseries { data_points }
    }
}

/// The first and the last date covered by some data.
#[derive(Debug, Clone, Copy, PartialEq, Eq)]
pub struct DateRange {
    pub start: Date,
    pub end: Date,
}

// ---------------------------------------------------------------------------
// Conversions
// ---------------------------------------------------------------------------

/// Conversion of table-like data to time series.
pub trait DataFrameConverter: Sized {
    /// The rows of the data, as (account id, date, balance).
    spec fn rows_view(&self) -> Seq<(i32, Date, Amount)>;

    /// The data holds what a time series is made of (for a data frame: an
    /// account, a date and a balance column of the right types).
    spec fn converts(&self) -> bool;

    /// The message of the error when the data does not convert.
    spec fn conversion_error(&self) -> Seq<char>;

    /// Converts to a time series: one point per row, in row order; an error,
    /// with the message [`DataFrameConverter::conversion_error`], exactly when
    /// the data does not convert ([`DataFrameConverter::converts`]).
    fn to_timeseries(self) -> (r: Result<AccountStateTimeseries, String>)
        ensures
            r is Ok <==> self.converts(),
            r matches Ok(ts) ==> ts.data_points@.map_values(|p: AccountStatePoint| point_view(p))
                == self.rows_view(),
            r matches Err(msg) ==> msg@ == self.conversion_error(),
    ;

    /// The earliest and the latest date of the data; an error when it has no rows.
    fn get_date_range(&self) -> (r: Result<DateRange, String>)
        ensures
            r is Ok <==> self.rows_view().len() > 0,
            r matches Ok(range) ==> (forall|i: int|
                0 <= i < self.rows_view().len() ==> range.start.days <= (
                #[trigger] self.rows_view()[i]).1.days <= range.end.days) && (exists|i: int|
                0 <= i < self.rows_view().len() && #[trigger] self.rows_view()[i].1 == range.start)
                && (exists|i: int|
                0 <= i < self.rows_view().len() && #[trigger] self.rows_view()[i].1 == range.end),
    ;

    /// The account ids of the data without repetitions, in the order of their
    /// first occurrence.
    fn get_account_ids(&self) -> (r: Result<Vec<i32>, String>)
        ensures
            r matches Ok(ids) && ids@ == distinct_in_order(
                self.rows_view().map_values(|x: (i32, Date, Amount)| x.0),
            ),
    ;
}

/// A point seen as (account id, date, balance).
pub open spec fn point_view(p: AccountStatePoint) -> (i32, Date, Amount) {
    (p.account_id, p.date, p.balance)
}

/// A row seen as (account id, date, balance).
pub open spec fn frame_row(r: BalanceRow) -> (i32, Date, Amount) {
    (r.account_id, r.date, r.balance)
}

impl DataFrameConverter for BalanceFrame {
    open spec fn rows_view(&self) -> Seq<(i32, Date, Amount)> {
        self.rows@.map_values(|r: BalanceRow| frame_row(r))
    }

    /// A balance table always converts.
    open spec fn converts(&self) -> bool {
        true
    }

    /// A balance table never fails to convert, so it has no error message.
    open spec fn conversion_error(&self) -> Seq<char> {
        Seq::empty()
    }

    fn to_timeseries(self) -> (r: Result<AccountStateTimeseries, String>) {
        let mut points: Vec<AccountStatePoint> = Vec::new();
        let mut i: usize = 0;
        while i < self.rows.len()
            invariant
                i <= self.rows.len(),
                points.len() == i,
                forall|q: int|
                    0 <= q < i ==> point_view(#[trigger] points@[q]) == frame_row(self.rows@[q]),
            decreases self.rows.len() - i,
        {
            let row = self.rows[i];
            points.push(AccountStatePoint::new(row.account_id, row.date, row.balance));
            i = i + 1;
        }
        assert(points@.map_values(|p: AccountStatePoint| point_view(p)) =~= self.rows_view());
        Ok(AccountStateTimeseries::new(points))
    }

    fn get_date_range(&self) -> (r: Result<DateRange, String>) {
        if self.rows.len() == 0 {
            return Err(String::from_str("no data"));
        }
        let mut start = self.rows[0].date;
        let mut end = self.rows[0].date;
        let ghost view = self.rows_view();
        assert(view[0].1 == start);
        let mut i: usize = 1;
        while i < self.rows.len()
            invariant
                1 <= i <= self.rows.len(),
                view == self.rows_view(),
                forall|q: int| 0 <= q < i ==> start.days <= (#[trigger] view[q]).1.days <= end.days,
                exists|q: int| 0 <= q < i && #[trigger] view[q].1 == start,
                exists|q: int| 0 <= q < i && #[trigger] view[q].1 == end,
            decreases self.rows.len() - i,
        {
            let d = self.rows[i].date;
            assert(view[i as int].1 == d);
            if d.days < start.days {
                start = d;
            }
            if d.days > end.days {
                end = d;
            }
            i = i + 1;
        }
        Ok(DateRange { start, end })
    }

    fn get_account_ids(&self) -> (r: Result<Vec<i32>, String>) {
        let ids = crate::account_stats::get_unique_account_ids(self);
        assert(self.rows_view().map_values(|x: (i32, Date, Amount)| x.0) =~= row_accounts(self.rows@));
        Ok(ids)
    }
}

/// Converts table-like data to a time series: one point per row, in row order;
/// an error exactly when the data does not convert.
pub fn dataframe_to_timeseries<T: DataFrameConverter>(df: T) -> (r: Result<AccountStateTimeseries, String>)
    ensures
        r is Ok <==> df.converts(),
        r matches Ok(ts) ==> ts.data_points@.map_values(|p: AccountStatePoint| point_view(p))
            == df.rows_view(),
        r matches Err(msg) ==> msg@ == df.conversion_error(),
{
    df.to_timeseries()
}

/// Builds the transport statistics of one account.
pub fn compute_stats_to_common_stats(
    account_id: i32,
    min_state: Option<Amount>,
    max_state: Option<Amount>,
    average_expense: Option<Amount>,
    average_income: Option<Amount>,
    upcoming_expenses: Option<Amount>,
    end_of_period_state: Option<Amount>,
) -> (r: AccountStatistics)
    ensures
        r == (AccountStatistics {
            account_id,
            min_state,
            max_state,
            average_expense,
            average_income,
            upcoming_expenses,
            end_of_period_state,
        }),
{
    AccountStatistics {
        account_id,
        min_state,
        max_state,
        average_expense,
        average_income,
        upcoming_expenses,
        end_of_period_state,
    }
}

/// The statistics described by a tuple (account id, minimum, maximum, average
/// expense, average income, upcoming expenses, end-of-period state).
pub open spec fn stats_of_tuple(
    t: (i32, Option<Amount>, Option<Amount>, Option<Amount>, Option<Amount>, Option<Amount>, Option<Amount>),
) -> AccountStatistics {
    AccountStatistics {
        account_id: t.0,
        min_state: t.1,
        max_state: t.2,
        average_expense: t.3,
        average_income: t.4,
        upcoming_expenses: t.5,
        end_of_period_state: t.6,
    }
}

/// Builds a collection of statistics for the period from tuples.
pub fn compute_stats_vec_to_collection(
    stats_data: Vec<(i32, Option<Amount>, Option<Amount>, Option<Amount>, Option<Amount>, Option<Amount>, Option<Amount>)>,
    period: TimePeriod,
) -> (r: AccountStatisticsCollection)
    ensures
        r.period == period,
        r.statistics@ == stats_data@.map_values(
            |t: (i32, Option<Amount>, Option<Amount>, Option<Amount>, Option<Amount>, Option<Amount>, Option<Amount>)|
                stats_of_tuple(t),
        ),
{
    let mut statistics: Vec<AccountStatistics> = Vec::new();
    let mut i: usize = 0;
    while i < stats_data.len()
        invariant
            i <= stats_data.len(),
            statistics@ == stats_data@.take(i as int).map_values(
                |t: (i32, Option<Amount>, Option<Amount>, Option<Amount>, Option<Amount>, Option<Amount>, Option<Amount>)|
                    stats_of_tuple(t),
            ),
        decreases stats_data.len() - i,
    {
        let t = stats_data[i];
        statistics.push(compute_stats_to_common_stats(t.0, t.1, t.2, t.3, t.4, t.5, t.6));
        assert(stats_data@.take(i + 1) == stats_data@.take(i as int).push(t));
        i = i + 1;
    }
    assert(stats_data@.take(stats_data.len() as int) == stats_data@);
    AccountStatisticsCollection::new(period, statistics)
}

/// Creates a point from raw data; the balance is decimal text.  Fails with a
/// message that names the text when it is no decimal.
pub fn create_account_state_point(account_id: i32, date: Date, balance_str: &str) -> (r: Result<
    AccountStatePoint,
    String,
>)
    ensures
        r is Ok <==> decimal_parsed(balance_str@) is Some,
        r matches Ok(p) ==> p.account_id == account_id && p.date == date && Some(p.balance)
            == decimal_parsed(balance_str@),
        forall|a: Amount| a.wf() && #[trigger] decimal_text(a) == balance_str@ ==> (r matches Ok(p)
            && p.balance == a),
        r matches Err(msg) ==> msg@.take(25) == "Failed to parse balance '"@,
{
    match Amount::parse(balance_str) {
        Some(balance) => Ok(AccountStatePoint::new(account_id, date, balance)),
        None => {
            let mut msg = String::from_str("Failed to parse balance '");
            msg.append(balance_str);
            msg.append("'");
            proof {
                reveal_strlit("Failed to parse balance '");
            }
            assert(msg@.take(25) =~= "Failed to parse balance '"@);
            Err(msg)
        },
    }
}

/// Creates points from raw data; fails on the first balance that is no decimal.
/// A balance written as the text of an amount ([`decimal_text`]) gives that
/// amount back, so the raw data of a time series
/// ([`timeseries_to_raw_data`]) gives its points back.
pub fn create_account_state_points(data: Vec<(i32, Date, String)>) -> (r: Result<
    Vec<AccountStatePoint>,
    String,
>)
    ensures
        r is Ok <==> forall|i: int|
            0 <= i < data.len() ==> decimal_parsed((#[trigger] data@[i]).2@) is Some,
        r matches Ok(points) ==> points.len() == data.len() && forall|i: int|
            0 <= i < data.len() ==> (#[trigger] points@[i]).account_id == data@[i].0 && points@[i].date
                == data@[i].1 && Some(points@[i].balance) == decimal_parsed(data@[i].2@),
        r matches Ok(points) ==> forall|i: int, a: Amount|
            0 <= i < data.len() && a.wf() && #[trigger] decimal_text(a) == (#[trigger] data@[i]).2@
                ==> points@[i].balance == a,
        r is Err ==> exists|i: int|
            #![trigger data@[i]]
            0 <= i < data.len() && forall|a: Amount| a.wf() ==> #[trigger] decimal_text(a) != data@[i].2@,
{
    let mut points: Vec<AccountStatePoint> = Vec::new();
    let mut i: usize = 0;
    while i < data.len()
        invariant
            i <= data.len(),
            points.len() == i,
            forall|q: int| 0 <= q < i ==> decimal_parsed((#[trigger] data@[q]).2@) is Some,
            forall|q: int, a: Amount|
                0 <= q < i && a.wf() && #[trigger] decimal_text(a) == (#[trigger] data@[q]).2@
                    ==> points@[q].balance == a,
            forall|q: int|
                0 <= q < i ==> (#[trigger] points@[q]).account_id == data@[q].0 && points@[q].date
                    == data@[q].1 && Some(points@[q].balance) == decimal_parsed(data@[q].2@),
        decreases data.len() - i,
    {
        let point = match create_account_state_point(data[i].0, data[i].1, data[i].2.as_str()) {
            Ok(p) => p,
            Err(e) => {
                assert(forall|a: Amount| a.wf() ==> #[trigger] decimal_text(a) != data@[i as int].2@);
                return Err(e);
            },
        };
        points.push(point);
        i = i + 1;
    }
    Ok(points)
}

/// Creates the period of a year.
pub fn create_year_period(year: i32) -> (r: TimePeriod)
    ensures
        r == TimePeriod::Year(year),
{
    TimePeriod::year(year)
}

/// Creates the period of a month.
pub fn create_month_period(year: i32, month: u32) -> (r: TimePeriod)
    ensures
        r == (TimePeriod::Month { year, month }),
{
    TimePeriod::month(year, month)
}

/// Creates the period of a date range.
pub fn create_date_range_period(start: Date, end: Date) -> (r: TimePeriod)
    ensures
        r == (TimePeriod::DateRange { start, end }),
{
    TimePeriod::date_range(start, end)
}

/// The raw data of a time series: (account id, date, balance as decimal text),
/// one entry per point.
pub fn timeseries_to_raw_data(timeseries: &AccountStateTimeseries) -> (r: Vec<(i32, Date, String)>)
    requires
        forall|i: int| 0 <= i < timeseries.data_points.len() ==> (#[trigger] timeseries.data_points@[i]).balance.wf(),
    ensures
        r.len() == timeseries.data_points.len(),
        forall|i: int|
            0 <= i < r.len() ==> (#[trigger] r@[i]).0 == timeseries.data_points@[i].account_id && r@[i].1
                == timeseries.data_points@[i].date && r@[i].2@ == decimal_text(
                timeseries.data_points@[i].balance,
            ),
{
    let mut out: Vec<(i32, Date, String)> = Vec::new();
    let mut i: usize = 0;
    while i < timeseries.data_points.len()
        invariant
            i <= timeseries.data_points.len(),
            out.len() == i,
            forall|q: int| 0 <= q < timeseries.data_points.len() ==> (#[trigger] timeseries.data_points@[q]).balance.wf(),
            forall|q: int|
                0 <= q < i ==> (#[trigger] out@[q]).0 == timeseries.data_points@[q].account_id && out@[q].1
                    == timeseries.data_points@[q].date && out@[q].2@ == decimal_text(
                    timeseries.data_points@[q].balance,
                ),
        decreases timeseries.data_points.len() - i,
    {
        let p = timeseries.data_points[i];
        out.push((p.account_id, p.date, p.balance.to_text()));
        i = i + 1;
    }
    out
}

fn opt_to_text(a: Option<Amount>) -> (r: Option<String>)
    requires
        a matches Some(x) ==> x.wf(),
    ensures
        match (r, a) {
            (Some(s), Some(x)) => s@ == decimal_text(x),
            (None, None) => true,
            _ => false,
        },
{
    match a {
        Some(x) => Some(x.to_text()),
        None => None,
    }
}

/// The statistic values are representable decimals.
pub open spec fn stats_wf(s: AccountStatistics) -> bool {
    &&& s.min_state matches Some(x) ==> x.wf()
    &&& s.max_state matches Some(x) ==> x.wf()
    &&& s.average_expense matches Some(x) ==> x.wf()
    &&& s.average_income matches Some(x) ==> x.wf()
    &&& s.upcoming_expenses matches Some(x) ==> x.wf()
    &&& s.end_of_period_state matches Some(x) ==> x.wf()
}

/// `s` is the text of `a`, both present or both absent.
pub open spec fn text_matches(s: Option<String>, a: Option<Amount>) -> bool {
    match (s, a) {
        (Some(t), Some(x)) => t@ == decimal_text(x),
        (None, None) => true,
        _ => false,
    }
}

/// The raw data of a statistics collection: per account, its id and its values
/// as decimal text.
pub fn statistics_to_raw_data(collection: &AccountStatisticsCollection) -> (r: Vec<
    (i32, Option<String>, Option<String>, Option<String>, Option<String>, Option<String>, Option<String>),
>)
    requires
        forall|i: int| 0 <= i < collection.statistics.len() ==> stats_wf(#[trigger] collection.statistics@[i]),
    ensures
        r.len() == collection.statistics.len(),
        forall|i: int|
            0 <= i < r.len() ==> {
                let s = collection.statistics@[i];
                let t = #[trigger] r@[i];
                &&& t.0 == s.account_id
                &&& text_matches(t.1, s.min_state)
                &&& text_matches(t.2, s.max_state)
                &&& text_matches(t.3, s.average_expense)
                &&& text_matches(t.4, s.average_income)
                &&& text_matches(t.5, s.upcoming_expenses)
                &&& text_matches(t.6, s.end_of_period_state)
            },
{
    let mut out: Vec<(i32, Option<String>, Option<String>, Option<String>, Option<String>, Option<String>, Option<String>)> = Vec::new();
    let mut i: usize = 0;
    while i < collection.statistics.len()
        invariant
            i <= collection.statistics.len(),
            out.len() == i,
            forall|q: int| 0 <= q < collection.statistics.len() ==> stats_wf(#[trigger] collection.statistics@[q]),
            forall|q: int|
                0 <= q < i ==> {
                    let s = collection.statistics@[q];
                    let t = #[trigger] out@[q];
                    &&& t.0 == s.account_id
                    &&& text_matches(t.1, s.min_state)
                    &&& text_matches(t.2, s.max_state)
                    &&& text_matches(t.3, s.average_expense)
                    &&& text_matches(t.4, s.average_income)
                    &&& text_matches(t.5, s.upcoming_expenses)
                    &&& text_matches(t.6, s.end_of_period_state)
                },
        decreases collection.statistics.len() - i,
    {
        let s = collection.statistics[i];
        assert(stats_wf(collection.statistics@[i as int]));
        out.push(
            (
                s.account_id,
                opt_to_text(s.min_state),
                opt_to_text(s.max_state),
                opt_to_text(s.average_expense),
                opt_to_text(s.average_income),
                opt_to_text(s.upcoming_expenses),
                opt_to_text(s.end_of_period_state),
            ),
        );
        i = i + 1;
    }
    out
}

} // verus!
