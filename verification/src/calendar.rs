//! Proleptic Gregorian calendar dates.
//!
//! A [`Date`] carries both its day number (January 1 of year 1 is day 1) and its
//! year, month and day; the type invariant ties the two together.  Calendar
//! arithmetic is delegated to `chrono` through the trusted items at the bottom
//! of this file.

use chrono::Datelike;
use chrono::NaiveDate;
use vstd::prelude::*;

verus! {

/// The first year that `chrono` can represent.
pub const MIN_YEAR: i32 = -262143;
/// The last year that `chrono` can represent.
pub const MAX_YEAR: i32 = 262142;

pub open spec fn is_leap(y: int) -> bool {
    y % 4 == 0 && (y % 100 != 0 || y % 400 == 0)
}

pub open spec fn month_length(y: int, m: int) -> int {
    if m == 2 {
        if is_leap(y) { 29 } else { 28 }
    } else if m == 4 || m == 6 || m == 9 || m == 11 {
        30
    } else {
        31
    }
}

/// Number of days in the months of year `y` that precede month `m`.
pub open spec fn days_before_month(y: int, m: int) -> int
    decreases m,
{
    if m <= 1 {
        0
    } else {
        days_before_month(y, m - 1) + month_length(y, m - 1)
    }
}

/// Number of days in the years before year `y` (counted from year 1).
pub open spec fn days_before_year(y: int) -> int {
    365 * (y - 1) + (y - 1) / 4 - (y - 1) / 100 + (y - 1) / 400
}

/// Day number of a calendar date; January 1 of year 1 is day 1.
pub open spec fn ordinal(y: int, m: int, d: int) -> int {
    days_before_year(y) + days_before_month(y, m) + d
}

pub open spec fn valid_ymd(y: int, m: int, d: int) -> bool {
    1 <= m <= 12 && 1 <= d <= month_length(y, m)
}

pub open spec fn year_in_range(y: int) -> bool {
    MIN_YEAR <= y <= MAX_YEAR
}

/// A calendar date.
#[derive(Clone, Copy, Debug, PartialEq, Eq, Structural, Hash)]
pub struct Date {
    pub days: i32,
    pub year: i32,
    pub month: u32,
    pub day: u32,
}

/// `x` is the calendar date with the given year, month and day.
pub open spec fn has_ymd(x: Date, y: int, m: int, d: int) -> bool {
    x.year == y && x.month == m && x.day == d
}

/// `x` is the calendar day after `d`.
pub open spec fn is_next_day(d: Date, x: Date) -> bool {
    &&& x.days == d.days + 1
    &&& if (d.day as int) < month_length(d.year as int, d.month as int) {
        has_ymd(x, d.year as int, d.month as int, d.day + 1)
    } else if d.month < 12 {
        has_ymd(x, d.year as int, d.month + 1, 1)
    } else {
        has_ymd(x, d.year + 1, 1, 1)
    }
}

/// `x` is the calendar day before `d`.
pub open spec fn is_prev_day(d: Date, x: Date) -> bool {
    &&& x.days == d.days - 1
    &&& if d.day > 1 {
        has_ymd(x, d.year as int, d.month as int, d.day - 1)
    } else if d.month > 1 {
        has_ymd(x, d.year as int, d.month - 1, month_length(d.year as int, d.month - 1))
    } else {
        has_ymd(x, d.year - 1, 12, 31)
    }
}

/// Day of the week, counted from Monday = 0 (January 1 of year 1 was a Monday).
pub open spec fn weekday(d: Date) -> int {
    (d.days - 1) % 7
}

pub open spec fn is_last_date(d: Date) -> bool {
    d.year == MAX_YEAR && d.month == 12 && d.day == 31
}

pub open spec fn is_first_date(d: Date) -> bool {
    d.year == MIN_YEAR && d.month == 1 && d.day == 1
}

impl Date {
    /// A well-formed date: a real calendar date in the supported range whose day
    /// number matches its year, month and day.
    pub open spec fn wf(self) -> bool {
        &&& valid_ymd(self.year as int, self.month as int, self.day as int)
        &&& year_in_range(self.year as int)
        &&& self.days == ordinal(self.year as int, self.month as int, self.day as int)
    }

    /// Day number of the date (January 1 of year 1 is day 1).
    pub open spec fn num(self) -> int {
        self.days as int
    }

    /// The date with the given year, month and day; `None` when there is no such
    /// date or the year lies outside the supported range.
    pub fn from_ymd(year: i32, month: u32, day: u32) -> (r: Option<Date>)
        ensures
            r is Some <==> (valid_ymd(year as int, month as int, day as int) && year_in_range(
                year as int,
            )),
            r matches Some(x) ==> has_ymd(x, year as int, month as int, day as int) && x.wf(),
    {
        chrono_from_ymd(year, month, day)
    }

    pub fn year(&self) -> (r: i32)
        ensures
            r == self.year,
    {
        self.year
    }

    pub fn month(&self) -> (r: u32)
        ensures
            r == self.month,
    {
        self.month
    }

    pub fn day(&self) -> (r: u32)
        ensures
            r == self.day,
    {
        self.day
    }

    /// Day number counted from January 1 of year 1 (which is day 1).
    pub fn num_days_from_ce(&self) -> (r: i32)
        ensures
            r == self.days,
    {
        self.days
    }
}

/// The calendar day after `d`, as a value.
pub open spec fn next_date(d: Date) -> Date {
    if (d.day as int) < month_length(d.year as int, d.month as int) {
        Date { days: (d.days + 1) as i32, year: d.year, month: d.month, day: (d.day + 1) as u32 }
    } else if d.month < 12 {
        Date { days: (d.days + 1) as i32, year: d.year, month: (d.month + 1) as u32, day: 1 }
    } else {
        Date { days: (d.days + 1) as i32, year: (d.year + 1) as i32, month: 1, day: 1 }
    }
}

/// The calendar day before `d`, as a value.
pub open spec fn prev_date(d: Date) -> Date {
    if d.day > 1 {
        Date { days: (d.days - 1) as i32, year: d.year, month: d.month, day: (d.day - 1) as u32 }
    } else if d.month > 1 {
        Date {
            days: (d.days - 1) as i32,
            year: d.year,
            month: (d.month - 1) as u32,
            day: month_length(d.year as int, d.month - 1) as u32,
        }
    } else {
        Date { days: (d.days - 1) as i32, year: (d.year - 1) as i32, month: 12, day: 31 }
    }
}

/// The date `n` days after `d`, as a value.
pub open spec fn date_plus(d: Date, n: nat) -> Date
    decreases n,
{
    if n == 0 {
        d
    } else {
        next_date(date_plus(d, (n - 1) as nat))
    }
}

/// The date with the given year, month and day, as a value.
pub open spec fn date_of(y: int, m: int, d: int) -> Date {
    Date { days: ordinal(y, m, d) as i32, year: y as i32, month: m as u32, day: d as u32 }
}

/// Day of the week of day number `n`, counted from Monday = 0.
pub open spec fn weekday_of(n: int) -> int {
    (n - 1) % 7
}

/// Lexicographic order on (year, month, day).
pub open spec fn ymd_lt(y1: int, m1: int, d1: int, y2: int, m2: int, d2: int) -> bool {
    y1 < y2 || (y1 == y2 && (m1 < m2 || (m1 == m2 && d1 < d2)))
}

// ---------------------------------------------------------------------------
// Calendar lemmas
// ---------------------------------------------------------------------------

proof fn lemma_div_step(y: int, k: int)
    requires
        k > 0,
    ensures
        y / k - (y - 1) / k == (if y % k == 0 { 1int } else { 0int }),
{
    vstd::arithmetic::div_mod::lemma_fundamental_div_mod(y, k);
    vstd::arithmetic::div_mod::lemma_fundamental_div_mod(y - 1, k);
    let q1 = y / k;
    let r1 = y % k;
    let q2 = (y - 1) / k;
    let r2 = (y - 1) % k;
    assert(0 <= r1 < k && 0 <= r2 < k);
    assert(q1 - q2 == (if r1 == 0 { 1int } else { 0int })) by (nonlinear_arith)
        requires
            y == k * q1 + r1,
            y - 1 == k * q2 + r2,
            0 <= r1 < k,
            0 <= r2 < k,
            k > 0,
    {
        if q1 - q2 >= 2 {
            assert(k * (q1 - q2) >= 2 * k);
        }
        if q1 - q2 <= -1 {
            assert(k * (q1 - q2) <= -k);
        }
        if q1 - q2 == 1 {
            assert(k * q1 == k * q2 + k);
        }
        if q1 == q2 {
            assert(k * q1 == k * q2);
        }
    }
}

/// A year has 365 days, 366 in a leap year.
pub proof fn lemma_year_length(y: int)
    ensures
        days_before_year(y + 1) == days_before_year(y) + 365 + (if is_leap(y) { 1int } else { 0int }),
        days_before_month(y, 13) == 365 + (if is_leap(y) { 1int } else { 0int }),
{
    lemma_div_step(y, 4);
    lemma_div_step(y, 100);
    lemma_div_step(y, 400);
    assert(y % 100 == 0 ==> y % 4 == 0) by {
        vstd::arithmetic::div_mod::lemma_fundamental_div_mod(y, 100);
        vstd::arithmetic::div_mod::lemma_fundamental_div_mod(y, 4);
    }
    assert(y % 400 == 0 ==> y % 100 == 0) by {
        vstd::arithmetic::div_mod::lemma_fundamental_div_mod(y, 400);
        vstd::arithmetic::div_mod::lemma_fundamental_div_mod(y, 100);
    }
    reveal_with_fuel(days_before_month, 13);
}

proof fn lemma_months_monotone(y: int, a: int, b: int)
    requires
        a <= b,
    ensures
        days_before_month(y, a) <= days_before_month(y, b),
    decreases b - a,
{
    if a < b {
        lemma_months_monotone(y, a, b - 1);
    }
}

proof fn lemma_years_monotone(a: int, b: int)
    requires
        a <= b,
    ensures
        days_before_year(a) <= days_before_year(b),
    decreases b - a,
{
    if a < b {
        lemma_years_monotone(a, b - 1);
        lemma_year_length(b - 1);
    }
}

/// The day number grows with the calendar order.
pub proof fn lemma_ordinal_monotone(y1: int, m1: int, d1: int, y2: int, m2: int, d2: int)
    requires
        valid_ymd(y1, m1, d1),
        valid_ymd(y2, m2, d2),
        ymd_lt(y1, m1, d1, y2, m2, d2),
    ensures
        ordinal(y1, m1, d1) < ordinal(y2, m2, d2),
{
    lemma_months_monotone(y2, 1, m2);
    assert(days_before_month(y1, m1 + 1) == days_before_month(y1, m1) + month_length(y1, m1));
    if y1 == y2 {
        if m1 < m2 {
            lemma_months_monotone(y1, m1 + 1, m2);
        }
    } else {
        lemma_months_monotone(y1, m1 + 1, 13);
        lemma_year_length(y1);
        lemma_years_monotone(y1 + 1, y2);
    }
}

/// Day numbers of supported dates lie between those of the first and last supported dates.
pub proof fn lemma_ordinal_bounds(y: int, m: int, d: int)
    requires
        valid_ymd(y, m, d),
        year_in_range(y),
    ensures
        -95746129 <= ordinal(y, m, d) <= 95745399,
{
    reveal_with_fuel(days_before_month, 13);
    assert(ordinal(MIN_YEAR as int, 1, 1) == -95746129);
    assert(ordinal(MAX_YEAR as int, 12, 31) == 95745399);
    if ymd_lt(MIN_YEAR as int, 1, 1, y, m, d) {
        lemma_ordinal_monotone(MIN_YEAR as int, 1, 1, y, m, d);
    }
    if ymd_lt(y, m, d, MAX_YEAR as int, 12, 31) {
        lemma_ordinal_monotone(y, m, d, MAX_YEAR as int, 12, 31);
    }
}

/// Moving `n` days forward adds `n` to the day number.
pub proof fn lemma_date_plus_days(d: Date, n: nat)
    requires
        d.days + n <= i32::MAX,
    ensures
        date_plus(d, n).days == d.days + n,
    decreases n,
{
    if n > 0 {
        lemma_date_plus_days(d, (n - 1) as nat);
    }
}

/// The next calendar day is a valid date with day number one greater.
pub proof fn lemma_next_date(d: Date)
    requires
        d.wf(),
        !is_last_date(d),
    ensures
        next_date(d).wf(),
        is_next_day(d, next_date(d)),
{
    lemma_ordinal_bounds(d.year as int, d.month as int, d.day as int);
    assert(days_before_month(d.year as int, d.month + 1) == days_before_month(
        d.year as int,
        d.month as int,
    ) + month_length(d.year as int, d.month as int));
    if (d.day as int) < month_length(d.year as int, d.month as int) {
    } else if d.month < 12 {
    } else {
        lemma_year_length(d.year as int);
        reveal_with_fuel(days_before_month, 13);
    }
}

/// A date strictly before another supported date is not the last supported date.
pub proof fn lemma_not_last(d: Date, e: Date)
    requires
        d.wf(),
        e.wf(),
        d.days < e.days,
    ensures
        !is_last_date(d),
{
    if is_last_date(d) && ymd_lt(
        e.year as int,
        e.month as int,
        e.day as int,
        d.year as int,
        d.month as int,
        d.day as int,
    ) {
        lemma_ordinal_monotone(
            e.year as int,
            e.month as int,
            e.day as int,
            d.year as int,
            d.month as int,
            d.day as int,
        );
    }
}

/// A well-formed next day is the value `next_date`.
pub proof fn lemma_next_day_value(d: Date, x: Date)
    requires
        is_next_day(d, x),
    ensures
        x == next_date(d),
{
}

/// Two supported dates with the same day number are the same date.
pub proof fn lemma_days_determine_date(d: Date, e: Date)
    requires
        d.wf(),
        e.wf(),
        d.days == e.days,
    ensures
        d == e,
{
    let (y1, m1, d1) = (d.year as int, d.month as int, d.day as int);
    let (y2, m2, d2) = (e.year as int, e.month as int, e.day as int);
    if ymd_lt(y1, m1, d1, y2, m2, d2) {
        lemma_ordinal_monotone(y1, m1, d1, y2, m2, d2);
    } else if ymd_lt(y2, m2, d2, y1, m1, d1) {
        lemma_ordinal_monotone(y2, m2, d2, y1, m1, d1);
    }
}

/// A well-formed previous day is the value `prev_date`.
pub proof fn lemma_prev_day_value(d: Date, x: Date)
    requires
        is_prev_day(d, x),
        x.wf(),
    ensures
        x == prev_date(d),
{
}

/// A date strictly after another supported date is not the first supported date.
pub proof fn lemma_not_first(d: Date, e: Date)
    requires
        d.wf(),
        e.wf(),
        e.days < d.days,
    ensures
        !is_first_date(d),
{
    if is_first_date(d) && ymd_lt(
        d.year as int,
        d.month as int,
        d.day as int,
        e.year as int,
        e.month as int,
        e.day as int,
    ) {
        lemma_ordinal_monotone(
            d.year as int,
            d.month as int,
            d.day as int,
            e.year as int,
            e.month as int,
            e.day as int,
        );
    }
}

/// The year grows with the day number.
pub proof fn lemma_year_monotone(d: Date, e: Date)
    requires
        d.wf(),
        e.wf(),
        d.days <= e.days,
    ensures
        d.year <= e.year,
{
    if d.year > e.year {
        lemma_ordinal_monotone(
            e.year as int,
            e.month as int,
            e.day as int,
            d.year as int,
            d.month as int,
            d.day as int,
        );
    }
}

/// The first supported date, January 1 of year `MIN_YEAR`, as a value.
pub open spec fn first_date() -> Date {
    Date { days: -95746129i32, year: MIN_YEAR, month: 1u32, day: 1u32 }
}

pub proof fn lemma_first_date()
    ensures
        first_date().wf(),
        is_first_date(first_date()),
{
    reveal_with_fuel(days_before_month, 13);
    assert(ordinal(MIN_YEAR as int, 1, 1) == -95746129);
}

/// The first supported date, January 1 of year `MIN_YEAR`.
pub fn first_supported_date() -> (r: Date)
    ensures
        r == first_date(),
        r.wf(),
{
    proof {
        lemma_first_date();
    }
    Date { days: -95746129, year: MIN_YEAR, month: 1, day: 1 }
}

/// A supported date is the value `date_of` of its year, month and day.
pub proof fn lemma_date_of(x: Date)
    requires
        x.wf(),
    ensures
        x == date_of(x.year as int, x.month as int, x.day as int),
{
    lemma_ordinal_bounds(x.year as int, x.month as int, x.day as int);
}

// ---------------------------------------------------------------------------
// Month lengths and month ends
// ---------------------------------------------------------------------------

/// Returns the number of days in the given month.
///
/// Like the calendar computation it mirrors, this goes to the first day of the
/// following month (month `month % 12 + 1` of year `year + month / 12`) and takes
/// the day of the date before it; for a month between 1 and 12 this is the length
/// of that month.
pub fn days_in_month(year: i32, month: u32) -> (r: u32)
    requires
        year_in_range(year + month / 12),
        !(year + month / 12 == MIN_YEAR && month % 12 == 0),
    ensures
        r == (if month % 12 == 0 {
            31
        } else {
            month_length(year + month / 12, (month % 12) as int)
        }),
        1 <= month <= 12 ==> r == month_length(year as int, month as int),
{
    let next_month_year = year + (month / 12) as i32;
    let next_month = (month % 12) + 1;
    let first_day_next_month = chrono_from_ymd(next_month_year, next_month, 1);
    let first = first_day_next_month.unwrap();
    let last_day_current_month = chrono_pred(first).unwrap();
    last_day_current_month.day
}

/// Returns the last day of the given month (month 0 stands for December of the
/// previous year).
pub fn get_last_day_of_month(year: i32, month: u32) -> (r: Date)
    requires
        month <= 12,
        month == 12 ==> year < MAX_YEAR,
        year_in_range(year as int),
        month == 0 ==> year > MIN_YEAR,
    ensures
        r.wf(),
        1 <= month <= 12 ==> has_ymd(r, year as int, month as int, month_length(year as int, month as int)),
        month == 0 ==> has_ymd(r, year - 1, 12, 31),
{
    let next_month: u32 = if month == 12 { 1 } else { month + 1 };
    let next_year: i32 = if month == 12 { year + 1 } else { year };
    let first = chrono_from_ymd(next_year, next_month, 1).unwrap();
    chrono_pred(first).unwrap()
}

/// The date `n` days after `d`; `None` when it lies beyond the last supported date.
pub fn checked_add_days(d: Date, n: u32) -> (r: Option<Date>)
    requires
        d.wf(),
    ensures
        r is None <==> d.days + n > 95745399,
        r matches Some(x) ==> x.wf() && x == date_plus(d, n as nat) && x.days == d.days + n,
{
    let r = chrono_add_days(d, n);
    proof {
        if r is Some {
            lemma_date_plus_days(d, n as nat);
        }
    }
    r
}

/// The number of months from January of year 0 to the given month.
pub open spec fn month_index(y: int, m: int) -> int {
    y * 12 + m - 1
}

/// The date `n` months before `d`, with the day clamped to the length of that
/// month; `None` when it lies outside the supported range.
pub fn checked_sub_months(d: Date, n: u32) -> (r: Option<Date>)
    requires
        d.wf(),
    ensures
        r is Some <==> (n <= i32::MAX && year_in_range((month_index(d.year as int, d.month as int) - n) / 12)),
        r matches Some(x) ==> {
            &&& x.wf()
            &&& month_index(x.year as int, x.month as int) == month_index(d.year as int, d.month as int) - n
            &&& x.year == (month_index(d.year as int, d.month as int) - n) / 12
            &&& x.month == (month_index(d.year as int, d.month as int) - n) % 12 + 1
            &&& x.day == (if d.day <= month_length(x.year as int, x.month as int) {
                d.day as int
            } else {
                month_length(x.year as int, x.month as int)
            })
        },
{
    let r = chrono_sub_months(d, n);
    proof {
        if let Some(x) = r {
            vstd::arithmetic::div_mod::lemma_fundamental_div_mod_converse(
                month_index(d.year as int, d.month as int) - n,
                12,
                x.year as int,
                x.month - 1,
            );
        }
    }
    r
}

/// Day of the week of `d`, counted from Monday = 0.
pub fn weekday_from_monday(d: Date) -> (r: u32)
    requires
        d.wf(),
    ensures
        r == weekday_of(d.days as int),
        r < 7,
{
    chrono_weekday(d)
}

/// Number of days from `earlier` to `later` (negative when `later` comes first).
pub fn days_between(later: Date, earlier: Date) -> (r: i64)
    requires
        later.wf(),
        earlier.wf(),
    ensures
        r == later.days - earlier.days,
{
    chrono_days_since(later, earlier)
}

// ---------------------------------------------------------------------------
// Trusted items: chrono
// ---------------------------------------------------------------------------

/// Calls `chrono::NaiveDate::from_ymd_opt`, which returns the date of the proleptic
/// Gregorian calendar with the given year, month and day, and `None` for an invalid
/// month or day or a year outside `MIN_YEAR..=MAX_YEAR`.  The result is read back
/// through `num_days_from_ce`, `year`, `month` and `day`.
#[verifier::external_body]
fn chrono_from_ymd(year: i32, month: u32, day: u32) -> (r: Option<Date>)
    ensures
        r is Some <==> (valid_ymd(year as int, month as int, day as int) && year_in_range(
            year as int,
        )),
        r matches Some(x) ==> has_ymd(x, year as int, month as int, day as int) && x.wf(),
{
    NaiveDate::from_ymd_opt(year, month, day).map(
        |nd| Date { days: nd.num_days_from_ce(), year: nd.year(), month: nd.month(), day: nd.day() },
    )
}

/// Calls `chrono::NaiveDate::succ_opt`, which returns the next calendar date, or
/// `None` for the last representable date.
#[verifier::external_body]
pub(crate) fn chrono_succ(d: Date) -> (r: Option<Date>)
    requires
        d.wf(),
    ensures
        r is None <==> is_last_date(d),
        r matches Some(x) ==> is_next_day(d, x) && x.wf(),
{
    NaiveDate::from_num_days_from_ce_opt(d.days).and_then(|nd| nd.succ_opt()).map(
        |nd| Date { days: nd.num_days_from_ce(), year: nd.year(), month: nd.month(), day: nd.day() },
    )
}

/// Calls `chrono::NaiveDate::pred_opt`, which returns the previous calendar date,
/// or `None` for the first representable date.
#[verifier::external_body]
pub(crate) fn chrono_pred(d: Date) -> (r: Option<Date>)
    requires
        d.wf(),
    ensures
        r is None <==> is_first_date(d),
        r matches Some(x) ==> is_prev_day(d, x) && x.wf(),
{
    NaiveDate::from_num_days_from_ce_opt(d.days).and_then(|nd| nd.pred_opt()).map(
        |nd| Date { days: nd.num_days_from_ce(), year: nd.year(), month: nd.month(), day: nd.day() },
    )
}

/// Calls `chrono::NaiveDate::checked_add_days`, which returns the date `n` days
/// later, or `None` when that date lies beyond the last representable date
/// (December 31, 262142, day number 95745399).
#[verifier::external_body]
fn chrono_add_days(d: Date, n: u32) -> (r: Option<Date>)
    requires
        d.wf(),
    ensures
        r is None <==> d.days + n > 95745399,
        r matches Some(x) ==> x.wf() && x == date_plus(d, n as nat),
{
    NaiveDate::from_num_days_from_ce_opt(d.days).and_then(
        |nd| nd.checked_add_days(chrono::Days::new(n as u64)),
    ).map(
        |nd| Date { days: nd.num_days_from_ce(), year: nd.year(), month: nd.month(), day: nd.day() },
    )
}

/// Calls `chrono::NaiveDate::checked_sub_months` with `Months::new(n)`: the date
/// `n` months earlier, on the same day or, when that month is shorter, on its
/// last day; `None` when `n` exceeds `i32::MAX` or the year of the result lies
/// outside `MIN_YEAR..=MAX_YEAR`.
#[verifier::external_body]
fn chrono_sub_months(d: Date, n: u32) -> (r: Option<Date>)
    requires
        d.wf(),
    ensures
        r is Some <==> (n <= i32::MAX && year_in_range((month_index(d.year as int, d.month as int) - n) / 12)),
        r matches Some(x) ==> {
            &&& x.wf()
            &&& month_index(x.year as int, x.month as int) == month_index(d.year as int, d.month as int) - n
            &&& x.day == (if d.day <= month_length(x.year as int, x.month as int) {
                d.day as int
            } else {
                month_length(x.year as int, x.month as int)
            })
        },
{
    NaiveDate::from_num_days_from_ce_opt(d.days).and_then(|nd| nd.checked_sub_months(chrono::Months::new(n))).map(
        |nd| Date { days: nd.num_days_from_ce(), year: nd.year(), month: nd.month(), day: nd.day() },
    )
}

/// Calls `chrono::Datelike::weekday` and `Weekday::num_days_from_monday`: the day
/// of the week counted from Monday = 0.  January 1 of year 1 (day number 1) was a
/// Monday in the proleptic Gregorian calendar.
#[verifier::external_body]
fn chrono_weekday(d: Date) -> (r: u32)
    requires
        d.wf(),
    ensures
        r == weekday_of(d.days as int),
{
    NaiveDate::from_num_days_from_ce_opt(d.days).unwrap().weekday().num_days_from_monday()
}

/// Calls `chrono::NaiveDate::signed_duration_since` and `TimeDelta::num_days`: the
/// number of whole days from `earlier` to `later`.
#[verifier::external_body]
fn chrono_days_since(later: Date, earlier: Date) -> (r: i64)
    requires
        later.wf(),
        earlier.wf(),
    ensures
        r == later.days - earlier.days,
{
    NaiveDate::from_num_days_from_ce_opt(later.days).unwrap().signed_duration_since(
        NaiveDate::from_num_days_from_ce_opt(earlier.days).unwrap(),
    ).num_days()
}

} // verus!
