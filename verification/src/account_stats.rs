//! Yearly and monthly account statistics: minimum and maximum states, the
//! total expense and income of a period, upcoming expenses, end-of-period
//! states, and the date on which a savings goal is reached.

use crate::amount::{
    abs_int, aligned, difference_fits, lemma_difference_aligned, lemma_difference_fits_within, lemma_fits_within,
    lemma_magnitude_nonneg, lemma_magnitude_prefix, lemma_sum_aligned, magnitude_at, pow10, sum_fits, Amount,
    MAX_MANTISSA, MAX_SCALE,
};
use crate::merge::row_balances;
use crate::balance::{account_ids, BalanceFrame, BalanceRow};
use crate::calculator::Calculator;
use crate::calendar::{date_of, get_last_day_of_month, lemma_date_of, month_length, Date, MAX_YEAR, MIN_YEAR};
use crate::error::ComputeError;
use crate::model::{Account, Ledger};
use vstd::prelude::*;

verus! {

broadcast use vstd::seq_lib::group_seq_properties;

/// Statistics of an account for a time period (year or month); each
/// computation fills in one of the values.
#[derive(Clone, Copy, Debug)]
pub struct AccountStats {
    pub account_id: i32,
    pub min_state: Option<Amount>,
    pub max_state: Option<Amount>,
    pub average_expense: Option<Amount>,
    pub average_income: Option<Amount>,
    pub upcoming_expenses: Option<Amount>,
    pub end_of_period_state: Option<Amount>,
}

impl AccountStats {
    /// Statistics of the account with no value filled in.
    pub open spec fn blank(account_id: i32) -> AccountStats {
        AccountStats {
            account_id,
            min_state: None,
            max_state: None,
            average_expense: None,
            average_income: None,
            upcoming_expenses: None,
            end_of_period_state: None,
        }
    }

    fn new_blank(account_id: i32) -> (r: AccountStats)
        ensures
            r == AccountStats::blank(account_id),
    {
        AccountStats {
            account_id,
            min_state: None,
            max_state: None,
            average_expense: None,
            average_income: None,
            upcoming_expenses: None,
            end_of_period_state: None,
        }
    }
}

// ---------------------------------------------------------------------------
// Accounts of a table
// ---------------------------------------------------------------------------

/// The values of `s` without repetitions, in the order of their first occurrence.
pub open spec fn distinct_in_order(s: Seq<i32>) -> Seq<i32>
    decreases s.len(),
{
    if s.len() == 0 {
        seq![]
    } else if s.drop_last().contains(s.last()) {
        distinct_in_order(s.drop_last())
    } else {
        distinct_in_order(s.drop_last()).push(s.last())
    }
}

/// The account ids of the rows.
pub open spec fn row_accounts(rows: Seq<BalanceRow>) -> Seq<i32> {
    rows.map_values(|r: BalanceRow| r.account_id)
}

proof fn lemma_distinct_in_order(s: Seq<i32>)
    ensures
        forall|x: i32| distinct_in_order(s).contains(x) <==> s.contains(x),
        forall|i: int, j: int|
            0 <= i < j < distinct_in_order(s).len() ==> distinct_in_order(s)[i] != distinct_in_order(
                s,
            )[j],
    decreases s.len(),
{
    if s.len() > 0 {
        lemma_distinct_in_order(s.drop_last());
        let d = distinct_in_order(s.drop_last());
        if !s.drop_last().contains(s.last()) {
            assert(!d.contains(s.last()));
            assert forall|i: int, j: int|
                0 <= i < j < distinct_in_order(s).len() implies distinct_in_order(s)[i]
                != distinct_in_order(s)[j] by {
                if j == d.len() {
                    assert(distinct_in_order(s)[i] == d[i]);
                    assert(d.contains(d[i]));
                }
            }
        }
        assert forall|x: i32| distinct_in_order(s).contains(x) <==> s.contains(x) by {
            if s.contains(x) && x != s.last() {
                let i = choose|i: int| 0 <= i < s.len() && s[i] == x;
                assert(s.drop_last()[i] == x);
            }
            if s.drop_last().contains(x) {
                let i = choose|i: int| 0 <= i < s.drop_last().len() && s.drop_last()[i] == x;
                assert(s[i] == x);
            }
            if distinct_in_order(s).contains(x) && !distinct_in_order(s.drop_last()).contains(x) {
                assert(x == s.last());
                assert(s[s.len() - 1] == x);
            }
        }
    }
}

/// Whether `x` is among the first `k` values of `v`.
pub(crate) fn contains_id(v: &Vec<i32>, x: i32) -> (r: bool)
    ensures
        r == v@.contains(x),
{
    let mut j: usize = 0;
    while j < v.len()
        invariant
            j <= v.len(),
            forall|q: int| 0 <= q < j ==> v@[q] != x,
        decreases v.len() - j,
    {
        if v[j] == x {
            return true;
        }
        j = j + 1;
    }
    false
}

/// Extracts the account ids of a table without repetitions, in the order of
/// their first occurrence.
pub fn get_unique_account_ids(frame: &BalanceFrame) -> (r: Vec<i32>)
    ensures
        r@ == distinct_in_order(row_accounts(frame.rows@)),
{
    let ghost ids = row_accounts(frame.rows@);
    let mut r: Vec<i32> = Vec::new();
    let mut i: usize = 0;
    while i < frame.rows.len()
        invariant
            i <= frame.rows.len(),
            ids == row_accounts(frame.rows@),
            r@ == distinct_in_order(ids.take(i as int)),
        decreases frame.rows.len() - i,
    {
        let id = frame.rows[i].account_id;
        assert(ids.take(i + 1).drop_last() == ids.take(i as int));
        assert(ids.take(i + 1).last() == id);
        proof {
            lemma_distinct_in_order(ids.take(i as int));
        }
        if !contains_id(&r, id) {
            r.push(id);
        }
        i = i + 1;
    }
    assert(ids.take(frame.rows.len() as int) == ids);
    r
}

// ---------------------------------------------------------------------------
// Minimum and maximum states
// ---------------------------------------------------------------------------

/// The first row of account `a` with the smallest balance.
pub open spec fn first_min_row(rows: Seq<BalanceRow>, a: i32) -> Option<BalanceRow>
    decreases rows.len(),
{
    if rows.len() == 0 {
        None
    } else {
        let prev = first_min_row(rows.drop_last(), a);
        let x = rows.last();
        if x.account_id != a {
            prev
        } else {
            match prev {
                None => Some(x),
                Some(p) => if x.balance.units() < p.balance.units() {
                    Some(x)
                } else {
                    prev
                },
            }
        }
    }
}

/// The first row of account `a` with the largest balance.
pub open spec fn first_max_row(rows: Seq<BalanceRow>, a: i32) -> Option<BalanceRow>
    decreases rows.len(),
{
    if rows.len() == 0 {
        None
    } else {
        let prev = first_max_row(rows.drop_last(), a);
        let x = rows.last();
        if x.account_id != a {
            prev
        } else {
            match prev {
                None => Some(x),
                Some(p) => if x.balance.units() > p.balance.units() {
                    Some(x)
                } else {
                    prev
                },
            }
        }
    }
}

/// The minimum state of each account of the table, in the order in which the
/// accounts first occur.
pub open spec fn min_stats(rows: Seq<BalanceRow>) -> Seq<AccountStats> {
    distinct_in_order(row_accounts(rows)).map_values(
        |a: i32| AccountStats { min_state: Some(first_min_row(rows, a).unwrap().balance), ..AccountStats::blank(a) },
    )
}

/// The maximum state of each account of the table, in the order in which the
/// accounts first occur.
pub open spec fn max_stats(rows: Seq<BalanceRow>) -> Seq<AccountStats> {
    distinct_in_order(row_accounts(rows)).map_values(
        |a: i32| AccountStats { max_state: Some(first_max_row(rows, a).unwrap().balance), ..AccountStats::blank(a) },
    )
}

proof fn lemma_first_min_some(rows: Seq<BalanceRow>, a: i32)
    ensures
        row_accounts(rows).contains(a) ==> first_min_row(rows, a) is Some,
        row_accounts(rows).contains(a) ==> first_max_row(rows, a) is Some,
    decreases rows.len(),
{
    if rows.len() > 0 {
        lemma_first_min_some(rows.drop_last(), a);
        if row_accounts(rows).contains(a) && rows.last().account_id != a {
            let i = choose|i: int| 0 <= i < rows.len() && row_accounts(rows)[i] == a;
            assert(row_accounts(rows.drop_last())[i] == a);
        }
    }
}

/// Position of the account in the statistics, if it is there.
fn stats_position(stats: &Vec<AccountStats>, a: i32) -> (r: Option<usize>)
    ensures
        r matches Some(j) ==> j < stats.len() && stats@[j as int].account_id == a,
        r is None ==> forall|q: int| 0 <= q < stats.len() ==> stats@[q].account_id != a,
{
    let mut j: usize = 0;
    while j < stats.len()
        invariant
            j <= stats.len(),
            forall|q: int| 0 <= q < j ==> stats@[q].account_id != a,
        decreases stats.len() - j,
    {
        if stats[j].account_id == a {
            return Some(j);
        }
        j = j + 1;
    }
    None
}

/// The minimum (or, with `maximum`, the maximum) state of each account of the
/// table; among equal extremes the first row's balance is kept.
fn extreme_stats(frame: &BalanceFrame, maximum: bool) -> (r: Vec<AccountStats>)
    requires
        frame.wf(),
    ensures
        r@ == (if maximum {
            max_stats(frame.rows@)
        } else {
            min_stats(frame.rows@)
        }),
{
    let ghost rows = frame.rows@;
    let mut out: Vec<AccountStats> = Vec::new();
    let mut i: usize = 0;
    while i < frame.rows.len()
        invariant
            i <= frame.rows.len(),
            rows == frame.rows@,
            frame.wf(),
            out@ == (if maximum {
                max_stats(rows.take(i as int))
            } else {
                min_stats(rows.take(i as int))
            }),
        decreases frame.rows.len() - i,
    {
        let x = frame.rows[i];
        let ghost before = rows.take(i as int);
        let ghost after = rows.take(i + 1);
        assert(after.drop_last() == before);
        assert(after.last() == x);
        assert(row_accounts(after) == row_accounts(before).push(x.account_id));
        assert(row_accounts(after).drop_last() == row_accounts(before));
        proof {
            lemma_distinct_in_order(row_accounts(before));
        }
        match stats_position(&out, x.account_id) {
            Some(j) => {
                let cur = out[j];
                proof {
                    let d = distinct_in_order(row_accounts(before));
                    assert(d[j as int] == x.account_id);
                    assert(d.contains(x.account_id));
                    assert(row_accounts(before).contains(x.account_id));
                    lemma_first_min_some(before, x.account_id);
                    assert(frame.rows@[i as int].wf());
                    lemma_extreme_row_member(before, x.account_id);
                    assert(out@[j as int] == (if maximum {
                        max_stats(before)
                    } else {
                        min_stats(before)
                    })[j as int]);
                }
                let better = if maximum {
                    match cur.max_state {
                        Some(m) => m.lt(&x.balance),
                        None => false,
                    }
                } else {
                    match cur.min_state {
                        Some(m) => x.balance.lt(&m),
                        None => false,
                    }
                };
                if better {
                    let updated = if maximum {
                        AccountStats { max_state: Some(x.balance), ..cur }
                    } else {
                        AccountStats { min_state: Some(x.balance), ..cur }
                    };
                    out.set(j, updated);
                }
                proof {
                    let d = distinct_in_order(row_accounts(before));
                    assert(distinct_in_order(row_accounts(after)) == d);
                    assert forall|q: int| 0 <= q < d.len() implies #[trigger] out@[q] == (if maximum {
                        max_stats(after)
                    } else {
                        min_stats(after)
                    })[q] by {
                        let a = d[q];
                        assert(first_max_row(after, a) == (if x.account_id != a {
                            first_max_row(before, a)
                        } else {
                            match first_max_row(before, a) {
                                None => Some(x),
                                Some(p) => if x.balance.units() > p.balance.units() {
                                    Some(x)
                                } else {
                                    first_max_row(before, a)
                                },
                            }
                        }));
                        assert(first_min_row(after, a) == (if x.account_id != a {
                            first_min_row(before, a)
                        } else {
                            match first_min_row(before, a) {
                                None => Some(x),
                                Some(p) => if x.balance.units() < p.balance.units() {
                                    Some(x)
                                } else {
                                    first_min_row(before, a)
                                },
                            }
                        }));
                        if q != j {
                            if q < j {
                                assert(d[q] != d[j as int]);
                            } else {
                                assert(d[j as int] != d[q]);
                            }
                        }
                    }
                    if maximum {
                        assert(out@ =~= max_stats(after));
                    } else {
                        assert(out@ =~= min_stats(after));
                    }
                }
            },
            None => {
                let fresh = if maximum {
                    AccountStats { max_state: Some(x.balance), ..AccountStats::new_blank(x.account_id) }
                } else {
                    AccountStats { min_state: Some(x.balance), ..AccountStats::new_blank(x.account_id) }
                };
                out.push(fresh);
                proof {
                    let d = distinct_in_order(row_accounts(before));
                    if d.contains(x.account_id) {
                        let q = choose|q: int| 0 <= q < d.len() && d[q] == x.account_id;
                        assert(out@[q].account_id == x.account_id);
                    }
                    assert(!row_accounts(before).contains(x.account_id));
                    lemma_first_min_absent(before, x.account_id);
                    assert(distinct_in_order(row_accounts(after)) == d.push(x.account_id));
                    if maximum {
                        assert(out@ =~= max_stats(after));
                    } else {
                        assert(out@ =~= min_stats(after));
                    }
                }
            },
        }
        i = i + 1;
    }
    assert(rows.take(frame.rows.len() as int) == rows);
    out
}

proof fn lemma_first_min_absent(rows: Seq<BalanceRow>, a: i32)
    requires
        !row_accounts(rows).contains(a),
    ensures
        first_min_row(rows, a) is None,
        first_max_row(rows, a) is None,
    decreases rows.len(),
{
    if rows.len() > 0 {
        assert(row_accounts(rows)[rows.len() - 1] == rows.last().account_id);
        if row_accounts(rows.drop_last()).contains(a) {
            let i = choose|i: int| 0 <= i < rows.drop_last().len() && row_accounts(rows.drop_last())[i] == a;
            assert(row_accounts(rows)[i] == a);
        }
        lemma_first_min_absent(rows.drop_last(), a);
    }
}

proof fn lemma_extreme_row_member(rows: Seq<BalanceRow>, a: i32)
    requires
        forall|i: int| 0 <= i < rows.len() ==> (#[trigger] rows[i]).wf(),
    ensures
        first_min_row(rows, a) matches Some(p) ==> p.wf() && p.account_id == a,
        first_max_row(rows, a) matches Some(p) ==> p.wf() && p.account_id == a,
    decreases rows.len(),
{
    if rows.len() > 0 {
        lemma_extreme_row_member(rows.drop_last(), a);
        assert(rows.last() == rows[rows.len() - 1]);
    }
}

/// The minimum state of each account of the table, in the order in which the
/// accounts first occur; among equal minima the first row's balance is kept.
pub fn compute_min_state_from_dataframe(frame: &BalanceFrame) -> (r: Vec<AccountStats>)
    requires
        frame.wf(),
    ensures
        r@ == min_stats(frame.rows@),
{
    extreme_stats(frame, false)
}

/// The maximum state of each account of the table, in the order in which the
/// accounts first occur; among equal maxima the first row's balance is kept.
pub fn compute_max_state_from_dataframe(frame: &BalanceFrame) -> (r: Vec<AccountStats>)
    requires
        frame.wf(),
    ensures
        r@ == max_stats(frame.rows@),
{
    extreme_stats(frame, true)
}


// ---------------------------------------------------------------------------
// Expense, income and upcoming expenses of a period
// ---------------------------------------------------------------------------

/// Which statistic of the balance changes to compute.
#[derive(Clone, Copy, Debug, PartialEq, Eq, Structural)]
pub enum StatType {
    AverageExpense,
    AverageIncome,
    UpcomingExpenses,
}

/// `x` placed after every row of `s` whose date is not later.
pub open spec fn insert_row(s: Seq<BalanceRow>, x: BalanceRow) -> Seq<BalanceRow>
    decreases s.len(),
{
    if s.len() == 0 {
        seq![x]
    } else if s.last().date.days <= x.date.days {
        s.push(x)
    } else {
        insert_row(s.drop_last(), x).push(s.last())
    }
}

/// Stable sort of rows by date.
pub open spec fn sort_rows(s: Seq<BalanceRow>) -> Seq<BalanceRow>
    decreases s.len(),
{
    if s.len() == 0 {
        seq![]
    } else {
        insert_row(sort_rows(s.drop_last()), s.last())
    }
}

/// The rows of account `a` in date order (rows on the same date keep their order).
pub open spec fn points(rows: Seq<BalanceRow>, a: i32) -> Seq<BalanceRow> {
    sort_rows(rows.filter(|r: BalanceRow| r.account_id == a))
}

/// The change of balance from point `i` to point `i + 1`.
pub open spec fn step(p: Seq<BalanceRow>, i: int) -> int {
    p[i + 1].balance.units() - p[i].balance.units()
}

/// Sum of the increases between consecutive points.
pub open spec fn rise_sum(p: Seq<BalanceRow>) -> int
    decreases p.len(),
{
    if p.len() < 2 {
        0
    } else {
        rise_sum(p.drop_last()) + (if step(p, p.len() - 2) > 0 {
            step(p, p.len() - 2)
        } else {
            0
        })
    }
}

/// Number of increases between consecutive points.
pub open spec fn rise_count(p: Seq<BalanceRow>) -> int
    decreases p.len(),
{
    if p.len() < 2 {
        0
    } else {
        rise_count(p.drop_last()) + (if step(p, p.len() - 2) > 0 {
            1int
        } else {
            0
        })
    }
}

/// Sum of the decreases (as positive amounts) between consecutive points.
pub open spec fn fall_sum(p: Seq<BalanceRow>) -> int
    decreases p.len(),
{
    if p.len() < 2 {
        0
    } else {
        fall_sum(p.drop_last()) + (if step(p, p.len() - 2) < 0 {
            -step(p, p.len() - 2)
        } else {
            0
        })
    }
}

/// Number of decreases between consecutive points.
pub open spec fn fall_count(p: Seq<BalanceRow>) -> int
    decreases p.len(),
{
    if p.len() < 2 {
        0
    } else {
        fall_count(p.drop_last()) + (if step(p, p.len() - 2) < 0 {
            1int
        } else {
            0
        })
    }
}

/// The decimal zero.
pub open spec fn zero_amount() -> Amount {
    Amount { mantissa: 0, scale: 0 }
}

/// `st` holds the requested statistic of the points `p` of account `a`: the
/// total of the decreases (expenses) or of the increases (income) of the
/// period, or the total of the decreases still to come (upcoming expenses).
pub open spec fn basic_stat_of(kind: StatType, p: Seq<BalanceRow>, a: i32, st: AccountStats) -> bool {
    match kind {
        StatType::AverageExpense => st.average_expense matches Some(v) && st == AccountStats {
            average_expense: Some(v),
            ..AccountStats::blank(a)
        } && v.units() == fall_sum(p),
        StatType::AverageIncome => st.average_income matches Some(v) && st == AccountStats {
            average_income: Some(v),
            ..AccountStats::blank(a)
        } && v.units() == rise_sum(p),
        StatType::UpcomingExpenses => st.upcoming_expenses matches Some(v) && st == AccountStats {
            upcoming_expenses: Some(v),
            ..AccountStats::blank(a)
        } && v.units() == fall_sum(p),
    }
}

/// The changes between consecutive points, and their totals, can be computed
/// exactly at scale `scale`: every balance has a scale of at most `scale`, and
/// twice the magnitude of the balances at that scale fits the 96-bit mantissa.
pub open spec fn steps_fit_at(p: Seq<BalanceRow>, scale: int) -> bool {
    &&& 0 <= scale <= MAX_SCALE
    &&& forall|i: int| 0 <= i < p.len() ==> (#[trigger] p[i]).balance.scale <= scale
    &&& 2 * magnitude_at(row_balances(p), scale) <= MAX_MANTISSA
}

/// The changes of the points can be computed exactly at some scale
/// ([`steps_fit_at`]).
pub open spec fn steps_fit(p: Seq<BalanceRow>) -> bool {
    exists|scale: int| steps_fit_at(p, scale)
}

/// The statistics of every account of the rows can be computed exactly
/// ([`steps_fit`] for the points of each account).
pub open spec fn stats_fit(rows: Seq<BalanceRow>) -> bool {
    let ids = distinct_in_order(row_accounts(rows));
    forall|q: int| 0 <= q < ids.len() ==> #[trigger] steps_fit(points(rows, ids[q]))
}

/// The totals so far and the last balance weigh, at `scale`, at most twice the
/// balances up to position `k`.
pub open spec fn steps_within(p: Seq<BalanceRow>, k: int, sp: Amount, sn: Amount, scale: int) -> bool {
    &&& sp.scale <= scale
    &&& sn.scale <= scale
    &&& abs_int(aligned(sp, scale)) + abs_int(aligned(sn, scale)) + abs_int(aligned(p[k - 1].balance, scale)) <= 2
        * magnitude_at(row_balances(p.take(k)), scale)
}

/// The change at position `k` and its addition to either total can be taken
/// exactly, and the totals stay within bounds.
proof fn lemma_steps_fit(p: Seq<BalanceRow>, k: int, sp: Amount, sn: Amount, scale: int)
    requires
        1 <= k < p.len(),
        steps_fit_at(p, scale),
        steps_within(p, k, sp, sn, scale),
    ensures
        difference_fits(p[k].balance, p[k - 1].balance),
        forall|d: Amount|
            #![trigger d.units()]
            d.wf() && d.scale <= scale && d.units() == p[k].balance.units() - p[k - 1].balance.units() ==> {
                &&& sum_fits(sp, d)
                &&& sum_fits(sn, Amount { mantissa: (-d.mantissa) as i128, scale: d.scale })
                &&& abs_int(aligned(sp, scale)) + abs_int(aligned(sn, scale)) + abs_int(aligned(d, scale))
                    + abs_int(aligned(p[k].balance, scale)) <= 2 * magnitude_at(row_balances(p.take(k + 1)), scale)
            },
{
    let b = row_balances(p);
    let bk = p[k].balance;
    let bp = p[k - 1].balance;
    assert(row_balances(p.take(k + 1)) == row_balances(p.take(k)).push(bk));
    assert(row_balances(p.take(k + 1)).drop_last() == row_balances(p.take(k)));
    assert(row_balances(p.take(k + 1)) == b.take(k + 1));
    lemma_magnitude_prefix(b, k + 1, scale);
    lemma_magnitude_nonneg(row_balances(p.take(k)), scale);
    assert(bk.scale <= scale && bp.scale <= scale) by {
        assert(p[k].balance.scale <= scale);
        assert(p[k - 1].balance.scale <= scale);
    }
    lemma_difference_fits_within(bk, bp, scale);
    assert forall|d: Amount|
        #![trigger d.units()]
        d.wf() && d.scale <= scale && d.units() == bk.units() - bp.units() implies {
            &&& sum_fits(sp, d)
            &&& sum_fits(sn, Amount { mantissa: (-d.mantissa) as i128, scale: d.scale })
            &&& abs_int(aligned(sp, scale)) + abs_int(aligned(sn, scale)) + abs_int(aligned(d, scale))
                + abs_int(aligned(bk, scale)) <= 2 * magnitude_at(row_balances(p.take(k + 1)), scale)
        } by {
        lemma_difference_aligned(bk, bp, d, scale);
        let nd = Amount { mantissa: (-d.mantissa) as i128, scale: d.scale };
        vstd::arithmetic::mul::lemma_mul_unary_negation(d.mantissa as int, pow10((scale - d.scale) as nat));
        assert(aligned(nd, scale) == -aligned(d, scale));
        lemma_fits_within(sp, d, scale);
        lemma_fits_within(sn, nd, scale);
    }
}

/// Position at which `x` goes into `v` by date (after rows not dated later).
pub(crate) fn insert_row_position(v: &Vec<BalanceRow>, x: &BalanceRow) -> (r: usize)
    ensures
        r <= v.len(),
        insert_row(v@, *x) == v@.insert(r as int, *x),
{
    let mut k = v.len();
    while k > 0 && v[k - 1].date.days > x.date.days
        invariant
            k <= v.len(),
            insert_row(v@, *x) == insert_row(v@.take(k as int), *x) + v@.skip(k as int),
        decreases k,
    {
        assert(v@.take(k as int).drop_last() == v@.take(k - 1));
        assert(v@.skip(k - 1) == seq![v@[k - 1]] + v@.skip(k as int));
        k = k - 1;
    }
    assert(insert_row(v@.take(k as int), *x) == v@.take(k as int).push(*x));
    assert(v@.insert(k as int, *x) == v@.take(k as int).push(*x) + v@.skip(k as int));
    k
}

pub(crate) proof fn lemma_insert_row_members(s: Seq<BalanceRow>, x: BalanceRow)
    ensures
        insert_row(s, x).len() == s.len() + 1,
        forall|k: int|
            0 <= k < insert_row(s, x).len() ==> (#[trigger] insert_row(s, x)[k] == x || s.contains(
                insert_row(s, x)[k],
            )),
    decreases s.len(),
{
    if s.len() > 0 && s.last().date.days > x.date.days {
        lemma_insert_row_members(s.drop_last(), x);
        let t = insert_row(s.drop_last(), x);
        assert forall|k: int|
            0 <= k < insert_row(s, x).len() implies (#[trigger] insert_row(s, x)[k] == x || s.contains(
                insert_row(s, x)[k],
            )) by {
            if k < t.len() && t[k] != x {
                let w = choose|w: int| 0 <= w < s.drop_last().len() && s.drop_last()[w] == t[k];
                assert(s[w] == t[k]);
            }
            if k == t.len() {
                assert(s[s.len() - 1] == s.last());
            }
        }
    }
}

/// The rows of account `a` in date order.
pub(crate) fn account_points(frame: &BalanceFrame, a: i32) -> (r: Vec<BalanceRow>)
    requires
        frame.wf(),
    ensures
        r@ == points(frame.rows@, a),
        forall|i: int| 0 <= i < r.len() ==> (#[trigger] r@[i]).wf(),
{
    let ghost pred = |r: BalanceRow| r.account_id == a;
    let ghost rows = frame.rows@;
    let mut out: Vec<BalanceRow> = Vec::new();
    let mut i: usize = 0;
    while i < frame.rows.len()
        invariant
            pred == (|r: BalanceRow| r.account_id == a),
            rows == frame.rows@,
            frame.wf(),
            i <= rows.len(),
            out@ == sort_rows(rows.take(i as int).filter(pred)),
            forall|q: int| 0 <= q < out.len() ==> (#[trigger] out@[q]).wf(),
        decreases rows.len() - i,
    {
        let x = frame.rows[i];
        proof {
            assert(rows.take(i + 1) == rows.take(i as int).push(x));
            rows.take(i as int).lemma_filter_push(x, pred);
        }
        if x.account_id == a {
            let pos = insert_row_position(&out, &x);
            let ghost before = out@;
            proof {
                let f = rows.take(i as int).filter(pred);
                assert(f.push(x).drop_last() == f);
                lemma_insert_row_members(before, x);
                assert(frame.rows@[i as int].wf());
            }
            out.insert(pos, x);
            proof {
                assert forall|q: int| 0 <= q < out.len() implies (#[trigger] out@[q]).wf() by {
                    assert(out@[q] == insert_row(before, x)[q]);
                    if out@[q] != x {
                        let w = choose|w: int| 0 <= w < before.len() && before[w] == out@[q];
                    }
                }
            }
        }
        i = i + 1;
    }
    assert(rows.take(rows.len() as int) == rows);
    out
}

proof fn lemma_rise_fall_step(p: Seq<BalanceRow>, k: int)
    requires
        1 <= k < p.len(),
    ensures
        rise_sum(p.take(k + 1)) == rise_sum(p.take(k)) + (if step(p, k - 1) > 0 {
            step(p, k - 1)
        } else {
            0
        }),
        rise_count(p.take(k + 1)) == rise_count(p.take(k)) + (if step(p, k - 1) > 0 {
            1int
        } else {
            0
        }),
        fall_sum(p.take(k + 1)) == fall_sum(p.take(k)) + (if step(p, k - 1) < 0 {
            -step(p, k - 1)
        } else {
            0
        }),
        fall_count(p.take(k + 1)) == fall_count(p.take(k)) + (if step(p, k - 1) < 0 {
            1int
        } else {
            0
        }),
{
    assert(p.take(k + 1).drop_last() == p.take(k));
    assert(step(p.take(k + 1), k - 1) == step(p, k - 1));
}

/// The sums and counts of the increases and of the decreases between
/// consecutive points.
pub(crate) fn step_totals(p: &Vec<BalanceRow>) -> (r: Result<(Amount, u64, Amount, u64), ComputeError>)
    requires
        forall|i: int| 0 <= i < p.len() ==> (#[trigger] p@[i]).wf(),
    ensures
        r matches Ok((sp, cp, sn, cn)) ==> sp.wf() && sn.wf() && sp.units() == rise_sum(p@) && cp
            == rise_count(p@) && sn.units() == fall_sum(p@) && cn == fall_count(p@) && cp <= p.len()
            && cn <= p.len(),
        r matches Err(e) ==> e.is_overflow(),
        forall|scale: int| #[trigger] steps_fit_at(p@, scale) ==> r is Ok,
{
    let mut sum_pos = Amount::zero();
    let mut cnt_pos: u64 = 0;
    let mut sum_neg_abs = Amount::zero();
    let mut cnt_neg: u64 = 0;
    if p.len() < 2 {
        return Ok((sum_pos, cnt_pos, sum_neg_abs, cnt_neg));
    }
    assert(p@.take(1).len() == 1);
    proof {
        assert forall|scale: int| #[trigger] steps_fit_at(p@, scale) implies steps_within(
            p@,
            1,
            sum_pos,
            sum_neg_abs,
            scale,
        ) by {
            let b1 = row_balances(p@.take(1));
            assert(b1.drop_last() == Seq::<Amount>::empty());
            assert(b1.last() == p@[0].balance);
            assert(magnitude_at(Seq::<Amount>::empty(), scale) == 0);
            assert(magnitude_at(b1, scale) == abs_int(aligned(p@[0].balance, scale)));
            vstd::arithmetic::mul::lemma_mul_basics(pow10(scale as nat));
            assert(aligned(sum_pos, scale) == 0);
            assert(aligned(sum_neg_abs, scale) == 0);
        }
    }
    let mut k: usize = 1;
    while k < p.len()
        invariant
            1 <= k <= p.len(),
            forall|i: int| 0 <= i < p.len() ==> (#[trigger] p@[i]).wf(),
            sum_pos.wf(),
            sum_neg_abs.wf(),
            sum_pos.units() == rise_sum(p@.take(k as int)),
            cnt_pos == rise_count(p@.take(k as int)),
            sum_neg_abs.units() == fall_sum(p@.take(k as int)),
            cnt_neg == fall_count(p@.take(k as int)),
            cnt_pos < k,
            cnt_neg < k,
            forall|scale: int| #[trigger] steps_fit_at(p@, scale) ==> steps_within(p@, k as int, sum_pos, sum_neg_abs, scale),
        decreases p.len() - k,
    {
        proof {
            lemma_rise_fall_step(p@, k as int);
            assert(p@[k - 1].wf() && p@[k as int].wf());
        }
        let prev = p[k - 1].balance;
        let curr = p[k].balance;
        let ghost (sp0, sn0) = (sum_pos, sum_neg_abs);
        let diff = curr.checked_sub(&prev);
        proof {
            assert forall|scale: int| #[trigger] steps_fit_at(p@, scale) implies diff is Some by {
                lemma_steps_fit(p@, k as int, sum_pos, sum_neg_abs, scale);
            }
        }
        let delta = match diff {
            Some(d) => d,
            None => {
                return Err(ComputeError::decimal_overflow());
            },
        };
        proof {
            lemma_sign_units(delta);
        }
        if delta.is_positive() {
            let next = sum_pos.checked_add(&delta);
            proof {
                assert forall|scale: int| #[trigger] steps_fit_at(p@, scale) implies next is Some by {
                    lemma_steps_fit(p@, k as int, sum_pos, sum_neg_abs, scale);
                    assert(delta.units() == curr.units() - prev.units());
                }
            }
            sum_pos = match next {
                Some(v) => v,
                None => {
                    return Err(ComputeError::decimal_overflow());
                },
            };
            cnt_pos = cnt_pos + 1;
        } else if delta.is_negative() {
            let magnitude = delta.neg();
            let next = sum_neg_abs.checked_add(&magnitude);
            proof {
                assert forall|scale: int| #[trigger] steps_fit_at(p@, scale) implies next is Some by {
                    lemma_steps_fit(p@, k as int, sum_pos, sum_neg_abs, scale);
                    assert(delta.units() == curr.units() - prev.units());
                    assert(magnitude == Amount { mantissa: (-delta.mantissa) as i128, scale: delta.scale });
                }
            }
            sum_neg_abs = match next {
                Some(v) => v,
                None => {
                    return Err(ComputeError::decimal_overflow());
                },
            };
            cnt_neg = cnt_neg + 1;
        }
        proof {
            assert forall|scale: int| #[trigger] steps_fit_at(p@, scale) implies steps_within(
                p@,
                k + 1,
                sum_pos,
                sum_neg_abs,
                scale,
            ) by {
                lemma_steps_fit(p@, k as int, sp0, sn0, scale);
                assert(delta.units() == curr.units() - prev.units());
                let nd = Amount { mantissa: (-delta.mantissa) as i128, scale: delta.scale };
                vstd::arithmetic::mul::lemma_mul_unary_negation(delta.mantissa as int, pow10((scale - delta.scale) as nat));
                if delta.mantissa > 0 {
                    lemma_sum_aligned(sp0, delta, sum_pos, scale);
                } else if delta.mantissa < 0 {
                    lemma_sum_aligned(sn0, nd, sum_neg_abs, scale);
                }
            }
        }
        k = k + 1;
    }
    assert(p@.take(p.len() as int) == p@);
    Ok((sum_pos, cnt_pos, sum_neg_abs, cnt_neg))
}

/// The requested statistic of the points of one account.
fn points_stat(p: &Vec<BalanceRow>, a: i32, kind: StatType) -> (r: Result<AccountStats, ComputeError>)
    requires
        forall|i: int| 0 <= i < p.len() ==> (#[trigger] p@[i]).wf(),
    ensures
        r matches Ok(st) ==> basic_stat_of(kind, p@, a, st),
        r matches Err(e) ==> e.is_overflow(),
        steps_fit(p@) ==> r is Ok,
{
    let (sum_pos, cnt_pos, sum_neg_abs, cnt_neg) = match step_totals(p) {
        Ok(t) => t,
        Err(e) => {
            return Err(e);
        },
    };
    let stat = AccountStats::new_blank(a);
    match kind {
        StatType::AverageExpense => Ok(AccountStats { average_expense: Some(sum_neg_abs), ..stat }),
        StatType::AverageIncome => Ok(AccountStats { average_income: Some(sum_pos), ..stat }),
        StatType::UpcomingExpenses => Ok(AccountStats { upcoming_expenses: Some(sum_neg_abs), ..stat }),
    }
}

/// The sign of an amount is the sign of its value.
pub proof fn lemma_sign_units_pub(a: Amount)
    requires
        a.wf(),
    ensures
        a.mantissa > 0 <==> a.units() > 0,
        a.mantissa < 0 <==> a.units() < 0,
        a.mantissa == 0 <==> a.units() == 0,
{
    lemma_sign_units(a);
}

/// The sign of an amount is the sign of its value.
proof fn lemma_sign_units(a: Amount)
    requires
        a.wf(),
    ensures
        a.mantissa > 0 <==> a.units() > 0,
        a.mantissa < 0 <==> a.units() < 0,
        a.mantissa == 0 <==> a.units() == 0,
{
    crate::amount::lemma_pow10_positive((crate::amount::MAX_SCALE - a.scale) as nat);
    let f = pow10((crate::amount::MAX_SCALE - a.scale) as nat);
    let m = a.mantissa as int;
    assert((m > 0 <==> m * f > 0) && (m < 0 <==> m * f < 0) && (m == 0 <==> m * f == 0))
        by (nonlinear_arith)
        requires
            f >= 1,
    ;
}

/// For each account of the table, in the order in which the accounts first
/// occur, the requested statistic of the changes between its consecutive
/// balances (in date order): the total of the decreases (expenses), of the
/// increases (income), or of the decreases still to come.  Fails only when a
/// decimal operation overflows, which it never does where the statistics fit
/// ([`stats_fit`]).
pub fn compute_basic_stats_from_dataframe(frame: &BalanceFrame, stat_type: StatType) -> (r: Result<
    Vec<AccountStats>,
    ComputeError,
>)
    requires
        frame.wf(),
    ensures
        r matches Ok(v) ==> {
            let ids = distinct_in_order(row_accounts(frame.rows@));
            &&& v.len() == ids.len()
            &&& forall|q: int|
                0 <= q < ids.len() ==> basic_stat_of(
                    stat_type,
                    points(frame.rows@, ids[q]),
                    ids[q],
                    #[trigger] v@[q],
                )
        },
        r matches Err(e) ==> e.is_overflow(),
        stats_fit(frame.rows@) ==> r is Ok,
{
    let ids = get_unique_account_ids(frame);
    let mut out: Vec<AccountStats> = Vec::new();
    let mut q: usize = 0;
    while q < ids.len()
        invariant
            q <= ids.len(),
            frame.wf(),
            ids@ == distinct_in_order(row_accounts(frame.rows@)),
            out.len() == q,
            forall|j: int|
                0 <= j < q ==> basic_stat_of(stat_type, points(frame.rows@, ids@[j]), ids@[j], #[trigger] out@[j]),
        decreases ids.len() - q,
    {
        let a = ids[q];
        let p = account_points(frame, a);
        let st = match points_stat(&p, a, stat_type) {
            Ok(s) => s,
            Err(e) => {
                proof {
                    assert(ids@[q as int] == a);
                }
                return Err(e);
            },
        };
        out.push(st);
        q = q + 1;
    }
    Ok(out)
}


// ---------------------------------------------------------------------------
// End-of-period states
// ---------------------------------------------------------------------------

/// The rows dated on or before day `end`.
pub open spec fn rows_until(rows: Seq<BalanceRow>, end: int) -> Seq<BalanceRow> {
    rows.filter(|r: BalanceRow| r.date.days <= end)
}

/// The row of account `a` with the latest date (the last such row among rows on
/// that date).
pub open spec fn latest_row(rows: Seq<BalanceRow>, a: i32) -> Option<BalanceRow>
    decreases rows.len(),
{
    if rows.len() == 0 {
        None
    } else {
        let prev = latest_row(rows.drop_last(), a);
        let x = rows.last();
        if x.account_id != a {
            prev
        } else {
            match prev {
                None => Some(x),
                Some(p) => if x.date.days >= p.date.days {
                    Some(x)
                } else {
                    prev
                },
            }
        }
    }
}

/// The state at the end of the period of each account that has a row on or
/// before day `end`, in the order in which the accounts first occur.
pub open spec fn end_stats(rows: Seq<BalanceRow>, end: int) -> Seq<AccountStats> {
    let kept = rows_until(rows, end);
    distinct_in_order(row_accounts(kept)).map_values(
        |a: i32| AccountStats { end_of_period_state: Some(latest_row(kept, a).unwrap().balance), ..AccountStats::blank(a) },
    )
}

proof fn lemma_latest_row(rows: Seq<BalanceRow>, a: i32)
    ensures
        row_accounts(rows).contains(a) <==> latest_row(rows, a) is Some,
    decreases rows.len(),
{
    if rows.len() > 0 {
        lemma_latest_row(rows.drop_last(), a);
        assert(row_accounts(rows)[rows.len() - 1] == rows.last().account_id);
        if row_accounts(rows).contains(a) && rows.last().account_id != a {
            let i = choose|i: int| 0 <= i < rows.len() && row_accounts(rows)[i] == a;
            assert(row_accounts(rows.drop_last())[i] == a);
        }
        if row_accounts(rows.drop_last()).contains(a) {
            let i = choose|i: int| 0 <= i < rows.drop_last().len() && row_accounts(rows.drop_last())[i] == a;
            assert(row_accounts(rows)[i] == a);
        }
    }
}

/// The state at the end of the period: for each account with a row dated on
/// or before `end_date`, the balance of its latest such row (the last one among
/// rows on the same date), in the order in which the accounts first occur.
pub fn compute_end_of_period_state_from_dataframe(frame: &BalanceFrame, end_date: Date) -> (r: Vec<
    AccountStats,
>)
    ensures
        r@ == end_stats(frame.rows@, end_date.days as int),
{
    let ghost pred = |r: BalanceRow| r.date.days <= end_date.days;
    let ghost rows = frame.rows@;
    let mut kept: Vec<BalanceRow> = Vec::new();
    let mut i: usize = 0;
    while i < frame.rows.len()
        invariant
            pred == (|r: BalanceRow| r.date.days <= end_date.days),
            rows == frame.rows@,
            i <= rows.len(),
            kept@ == rows.take(i as int).filter(pred),
        decreases rows.len() - i,
    {
        let x = frame.rows[i];
        proof {
            assert(rows.take(i + 1) == rows.take(i as int).push(x));
            rows.take(i as int).lemma_filter_push(x, pred);
        }
        if x.date.days <= end_date.days {
            kept.push(x);
        }
        i = i + 1;
    }
    assert(rows.take(rows.len() as int) == rows);
    let ghost all = kept@;
    let mut out: Vec<AccountStats> = Vec::new();
    let mut i: usize = 0;
    while i < kept.len()
        invariant
            i <= kept.len(),
            all == kept@,
            out@ == distinct_in_order(row_accounts(all.take(i as int))).map_values(
                |a: i32| AccountStats { end_of_period_state: Some(latest_row(all.take(i as int), a).unwrap().balance), ..AccountStats::blank(a) },
            ),
        decreases kept.len() - i,
    {
        let x = kept[i];
        let ghost before = all.take(i as int);
        let ghost after = all.take(i + 1);
        assert(after.drop_last() == before);
        assert(after.last() == x);
        assert(row_accounts(after) == row_accounts(before).push(x.account_id));
        assert(row_accounts(after).drop_last() == row_accounts(before));
        proof {
            lemma_distinct_in_order(row_accounts(before));
            lemma_latest_row(before, x.account_id);
        }
        let ghost d = distinct_in_order(row_accounts(before));
        match stats_position(&out, x.account_id) {
            Some(j) => {
                let cur = out[j];
                proof {
                    assert(d[j as int] == x.account_id);
                    assert(d.contains(x.account_id));
                }
                let later = match cur.end_of_period_state {
                    Some(_) => true,
                    None => false,
                };
                assert(later);
                let ghost p = latest_row(before, x.account_id).unwrap();
                assert(out@[j as int].end_of_period_state == Some(p.balance));
                proof {
                    lemma_latest_row_member(before, x.account_id);
                }
                let newer = x.date.days >= latest_date_of(&kept, i, x.account_id);
                if newer {
                    out.set(j, AccountStats { end_of_period_state: Some(x.balance), ..cur });
                }
                proof {
                    assert(distinct_in_order(row_accounts(after)) == d);
                    assert forall|q: int| 0 <= q < d.len() implies #[trigger] out@[q] == AccountStats {
                        end_of_period_state: Some(latest_row(after, d[q]).unwrap().balance),
                        ..AccountStats::blank(d[q])
                    } by {
                        if q != j {
                            if q < j {
                                assert(d[q] != d[j as int]);
                            } else {
                                assert(d[j as int] != d[q]);
                            }
                        }
                    }
                    assert(out@ =~= distinct_in_order(row_accounts(after)).map_values(
                        |a: i32| AccountStats { end_of_period_state: Some(latest_row(after, a).unwrap().balance), ..AccountStats::blank(a) },
                    ));
                }
            },
            None => {
                out.push(AccountStats { end_of_period_state: Some(x.balance), ..AccountStats::new_blank(x.account_id) });
                proof {
                    if d.contains(x.account_id) {
                        let q = choose|q: int| 0 <= q < d.len() && d[q] == x.account_id;
                        assert(out@[q].account_id == x.account_id);
                    }
                    assert(distinct_in_order(row_accounts(after)) == d.push(x.account_id));
                    assert(out@ =~= distinct_in_order(row_accounts(after)).map_values(
                        |a: i32| AccountStats { end_of_period_state: Some(latest_row(after, a).unwrap().balance), ..AccountStats::blank(a) },
                    ));
                }
            },
        }
        i = i + 1;
    }
    assert(all.take(all.len() as int) == all);
    out
}

proof fn lemma_latest_row_member(rows: Seq<BalanceRow>, a: i32)
    ensures
        latest_row(rows, a) matches Some(p) ==> p.account_id == a,
    decreases rows.len(),
{
    if rows.len() > 0 {
        lemma_latest_row_member(rows.drop_last(), a);
    }
}

proof fn lemma_latest_row_in(rows: Seq<BalanceRow>, a: i32)
    ensures
        latest_row(rows, a) matches Some(p) ==> rows.contains(p),
    decreases rows.len(),
{
    if rows.len() > 0 {
        lemma_latest_row_in(rows.drop_last(), a);
        if let Some(p) = latest_row(rows.drop_last(), a) {
            let i = choose|i: int| 0 <= i < rows.drop_last().len() && rows.drop_last()[i] == p;
            assert(rows[i] == p);
        }
        assert(rows[rows.len() - 1] == rows.last());
    }
}

/// Every state at the end of the period is a balance of the table.
pub(crate) proof fn lemma_end_stats_wf(rows: Seq<BalanceRow>, end: int)
    requires
        forall|i: int| 0 <= i < rows.len() ==> (#[trigger] rows[i]).wf(),
    ensures
        forall|i: int|
            0 <= i < end_stats(rows, end).len() ==> ((#[trigger] end_stats(rows, end)[i]).end_of_period_state matches Some(
                v,
            ) && v.wf()),
{
    let kept = rows_until(rows, end);
    let d = distinct_in_order(row_accounts(kept));
    lemma_distinct_in_order(row_accounts(kept));
    assert forall|i: int| 0 <= i < end_stats(rows, end).len() implies ((#[trigger] end_stats(
        rows,
        end,
    )[i]).end_of_period_state matches Some(v) && v.wf()) by {
        let a = d[i];
        assert(d.contains(a));
        lemma_latest_row(kept, a);
        lemma_latest_row_in(kept, a);
        let p = latest_row(kept, a).unwrap();
        rows.lemma_filter_contains_rev(|r: BalanceRow| r.date.days <= end, p);
        let j = choose|j: int| 0 <= j < rows.len() && rows[j] == p;
        assert(rows[j].wf());
    }
}

/// The date of the latest row of account `a` among the first `k` rows, which
/// must hold one.
fn latest_date_of(rows: &Vec<BalanceRow>, k: usize, a: i32) -> (r: i32)
    requires
        k <= rows.len(),
        latest_row(rows@.take(k as int), a) is Some,
    ensures
        r == latest_row(rows@.take(k as int), a).unwrap().date.days,
{
    let mut best: Option<i32> = None;
    let mut i: usize = 0;
    while i < k
        invariant
            i <= k <= rows.len(),
            best == (match latest_row(rows@.take(i as int), a) {
                Some(p) => Some(p.date.days),
                None => None::<i32>,
            }),
        decreases k - i,
    {
        let x = rows[i];
        assert(rows@.take(i + 1).drop_last() == rows@.take(i as int));
        assert(rows@.take(i + 1).last() == x);
        if x.account_id == a {
            match best {
                Some(b) => {
                    if x.date.days >= b {
                        best = Some(x.date.days);
                    }
                },
                None => {
                    best = Some(x.date.days);
                },
            }
        }
        i = i + 1;
    }
    best.unwrap()
}

// ---------------------------------------------------------------------------
// Goal date
// ---------------------------------------------------------------------------

/// The earliest date on which some row's balance reaches `target`.
pub open spec fn goal_date(rows: Seq<BalanceRow>, target: Amount) -> Option<Date>
    decreases rows.len(),
{
    if rows.len() == 0 {
        None
    } else {
        let prev = goal_date(rows.drop_last(), target);
        let x = rows.last();
        if x.balance.units() < target.units() {
            prev
        } else {
            match prev {
                None => Some(x.date),
                Some(d) => if x.date.days < d.days {
                    Some(x.date)
                } else {
                    prev
                },
            }
        }
    }
}

/// The goal date is the first date on which a balance reaches the target: a row
/// of that date reaches it, and every row that reaches it is dated on or after
/// the goal date; without a goal date no row reaches it.
pub proof fn law_goal_date_is_the_first_reaching_date(rows: Seq<BalanceRow>, target: Amount)
    ensures
        goal_date(rows, target) matches Some(d) ==> exists|i: int|
            0 <= i < rows.len() && (#[trigger] rows[i]).date == d && rows[i].balance.units() >= target.units(),
        forall|i: int|
            0 <= i < rows.len() && (#[trigger] rows[i]).balance.units() >= target.units() ==> (goal_date(
                rows,
                target,
            ) matches Some(d) && d.days <= rows[i].date.days),
    decreases rows.len(),
{
    if rows.len() > 0 {
        let prev = rows.drop_last();
        law_goal_date_is_the_first_reaching_date(prev, target);
        let x = rows.last();
        assert(rows[rows.len() - 1] == x);
        if let Some(d) = goal_date(prev, target) {
            let i = choose|i: int| 0 <= i < prev.len() && (#[trigger] prev[i]).date == d && prev[i].balance.units()
                >= target.units();
            assert(rows[i] == prev[i]);
        }
        assert forall|i: int|
            0 <= i < rows.len() && (#[trigger] rows[i]).balance.units() >= target.units() implies (goal_date(
            rows,
            target,
        ) matches Some(d) && d.days <= rows[i].date.days) by {
            if i < prev.len() {
                assert(prev[i] == rows[i]);
            }
        }
    }
}

/// Calculates the date on which a goal target amount is reached in a forecast
/// table: the first date on which a balance reaches or exceeds `target_amount`;
/// `None` when it is never reached within the table.
pub fn calculate_goal_reached_date(forecast: &BalanceFrame, target_amount: Amount) -> (r: Result<
    Option<Date>,
    ComputeError,
>)
    requires
        forecast.wf(),
        target_amount.wf(),
    ensures
        r == Ok::<Option<Date>, ComputeError>(goal_date(forecast.rows@, target_amount)),
{
    let mut best: Option<Date> = None;
    let mut i: usize = 0;
    while i < forecast.rows.len()
        invariant
            i <= forecast.rows.len(),
            forecast.wf(),
            target_amount.wf(),
            best == goal_date(forecast.rows@.take(i as int), target_amount),
        decreases forecast.rows.len() - i,
    {
        let x = forecast.rows[i];
        assert(forecast.rows@.take(i + 1).drop_last() == forecast.rows@.take(i as int));
        assert(forecast.rows@.take(i + 1).last() == x);
        assert(forecast.rows@[i as int].wf());
        if !x.balance.lt(&target_amount) {
            match best {
                Some(d) => {
                    if x.date.days < d.days {
                        best = Some(x.date);
                    }
                },
                None => {
                    best = Some(x.date);
                },
            }
        }
        i = i + 1;
    }
    assert(forecast.rows@.take(forecast.rows.len() as int) == forecast.rows@);
    Ok(best)
}


// ---------------------------------------------------------------------------
// Statistics of a year or a month
// ---------------------------------------------------------------------------

/// Which statistic a period computation returns.
#[derive(Clone, Copy, Debug, PartialEq, Eq, Structural)]
pub enum PeriodStat {
    MinState,
    MaxState,
    Changes(StatType),
    EndOfPeriod,
}

/// `out` holds the statistic `kind` of the table `f` whose period ends on `end`.
pub open spec fn period_stats(kind: PeriodStat, f: BalanceFrame, end: Date, out: Seq<AccountStats>) -> bool {
    match kind {
        PeriodStat::MinState => out == min_stats(f.rows@),
        PeriodStat::MaxState => out == max_stats(f.rows@),
        PeriodStat::Changes(t) => {
            let ids = distinct_in_order(row_accounts(f.rows@));
            &&& out.len() == ids.len()
            &&& forall|q: int|
                0 <= q < ids.len() ==> basic_stat_of(t, points(f.rows@, ids[q]), ids[q], #[trigger] out[q])
        },
        PeriodStat::EndOfPeriod => out == end_stats(f.rows@, end.days as int),
    }
}

/// Whatever table the calculator produces for the accounts `ids` over `[start,
/// end]`, the changes of its balances can be added up exactly ([`stats_fit`]).
pub open spec fn changes_fit_for(calculator: Calculator, ledger: Ledger, ids: Seq<i32>, start: Date, end: Date) -> bool {
    forall|f: BalanceFrame|
        f.wf() && #[trigger] calculator.produces(ledger, ids, start, end, f.view_rows()) ==> stats_fit(f.rows@)
}

/// What a period computation returns: on success, the statistic of a table that
/// the calculator produces for the accounts over `[start, end]`; it fails when
/// the calculator fails, with the calculator's error ([`Calculator::outcome`];
/// a refused merge where the calculator is sound and refuses), or, for
/// changes, when a decimal operation overflows; so never where the calculator
/// fits ([`Calculator::fits`]) and, for changes, the changes of its table add
/// up exactly ([`changes_fit_for`]).
pub open spec fn period_outcome(
    calculator: Calculator,
    ledger: Ledger,
    accounts: Seq<Account>,
    start: Date,
    end: Date,
    kind: PeriodStat,
    r: Result<Vec<AccountStats>, ComputeError>,
) -> bool {
    &&& r matches Ok(v) ==> exists|f: BalanceFrame|
        f.wf() && #[trigger] calculator.produces(ledger, account_ids(accounts), start, end, f.view_rows())
            && period_stats(kind, f, end, v@)
    &&& r matches Err(e) ==> e.is_overflow() || (e.is_refused_merge() && calculator.has_unsupported_merge())
    &&& r matches Err(e) ==> calculator.outcome(ledger, account_ids(accounts), start, end, Err(e)) || (
    kind is Changes && e.is_overflow())
    &&& (calculator.sound(ledger, account_ids(accounts), start, end) && calculator.refuses(
        ledger,
        account_ids(accounts),
        start,
        end,
    )) ==> (r matches Err(e) && e.is_refused_merge())
    &&& (!(kind is Changes) && calculator.fits(ledger, account_ids(accounts), start, end)) ==> r is Ok
    &&& (kind is Changes && calculator.fits(ledger, account_ids(accounts), start, end) && changes_fit_for(
        calculator,
        ledger,
        account_ids(accounts),
        start,
        end,
    )) ==> r is Ok
}

/// Computes the table with the calculator and then the statistic.
fn stats_over(
    calculator: &Calculator,
    ledger: &Ledger,
    accounts: &Vec<Account>,
    start_date: Date,
    end_date: Date,
    kind: PeriodStat,
) -> (r: Result<Vec<AccountStats>, ComputeError>)
    requires
        calculator.wf(),
        ledger.wf(),
        start_date.wf(),
        end_date.wf(),
        end_date.year < MAX_YEAR - 1,
    ensures
        period_outcome(*calculator, *ledger, accounts@, start_date, end_date, kind, r),
{
    let state = calculator.compute_account_state(ledger, accounts, start_date, end_date);
    period_stats_of(state, end_date, kind)
}

/// The statistic `kind` of a computed account state table, for a period that
/// ends on `end_date`; an error of the computation is handed on as it is, and
/// only the sums of changes can fail on a table.
pub fn period_stats_of(state: Result<BalanceFrame, ComputeError>, end_date: Date, kind: PeriodStat) -> (r:
    Result<Vec<AccountStats>, ComputeError>)
    requires
        state matches Ok(f) ==> f.wf(),
    ensures
        state matches Err(e) ==> r == Err::<Vec<AccountStats>, ComputeError>(e),
        state matches Ok(f) ==> {
            &&& r matches Ok(v) ==> period_stats(kind, f, end_date, v@)
            &&& r matches Err(e) ==> kind is Changes && e.is_overflow()
            &&& (!(kind is Changes) || stats_fit(f.rows@)) ==> r is Ok
        },
{
    let f = match state {
        Ok(f) => f,
        Err(e) => {
            return Err(e);
        },
    };
    let out = match kind {
        PeriodStat::MinState => compute_min_state_from_dataframe(&f),
        PeriodStat::MaxState => compute_max_state_from_dataframe(&f),
        PeriodStat::Changes(t) => match compute_basic_stats_from_dataframe(&f, t) {
            Ok(v) => v,
            Err(e) => {
                return Err(e);
            },
        },
        PeriodStat::EndOfPeriod => compute_end_of_period_state_from_dataframe(&f, end_date),
    };
    assert(period_stats(kind, f, end_date, out@));
    Ok(out)
}

/// January 1 of the year.
fn year_start(year: i32) -> (r: Date)
    requires
        MIN_YEAR <= year <= MAX_YEAR,
    ensures
        r == date_of(year as int, 1, 1),
        r.wf(),
{
    let d = Date::from_ymd(year, 1, 1).unwrap();
    proof {
        lemma_date_of(d);
    }
    d
}

/// December 31 of the year.
fn year_end(year: i32) -> (r: Date)
    requires
        MIN_YEAR <= year <= MAX_YEAR,
    ensures
        r == date_of(year as int, 12, 31),
        r.wf(),
{
    let d = Date::from_ymd(year, 12, 31).unwrap();
    proof {
        lemma_date_of(d);
    }
    d
}

/// The first day of the month.
fn month_start(year: i32, month: u32) -> (r: Date)
    requires
        MIN_YEAR <= year <= MAX_YEAR,
        1 <= month <= 12,
    ensures
        r == date_of(year as int, month as int, 1),
        r.wf(),
{
    let d = Date::from_ymd(year, month, 1).unwrap();
    proof {
        lemma_date_of(d);
    }
    d
}

/// The last day of the month.
fn month_end(year: i32, month: u32) -> (r: Date)
    requires
        MIN_YEAR <= year < MAX_YEAR,
        1 <= month <= 12,
    ensures
        r == date_of(year as int, month as int, month_length(year as int, month as int)),
        r.wf(),
{
    let d = get_last_day_of_month(year, month);
    proof {
        lemma_date_of(d);
    }
    d
}

/// The state of each account at a date: the end-of-period states of the table
/// from January 1 of the date's year up to the date.
pub fn state_at_date(calculator: &Calculator, ledger: &Ledger, accounts: &Vec<Account>, date: Date) -> (r:
    Result<Vec<AccountStats>, ComputeError>)
    requires
        calculator.wf(),
        ledger.wf(),
        date.wf(),
        date.year < MAX_YEAR - 1,
    ensures
        period_outcome(*calculator, *ledger, accounts@, date_of(date.year as int, 1, 1), date, PeriodStat::EndOfPeriod, r),
{
    let start = year_start(date.year);
    stats_over(calculator, ledger, accounts, start, date, PeriodStat::EndOfPeriod)
}

/// Computes the minimum account state for the specified year.
pub fn min_state_in_year(calculator: &Calculator, ledger: &Ledger, accounts: &Vec<Account>, year: i32) -> (r:
    Result<Vec<AccountStats>, ComputeError>)
    requires
        calculator.wf(),
        ledger.wf(),
        MIN_YEAR <= year < MAX_YEAR - 1,
    ensures
        period_outcome(*calculator, *ledger, accounts@, date_of(year as int, 1, 1), date_of(year as int, 12, 31), PeriodStat::MinState, r),
{
    stats_over(calculator, ledger, accounts, year_start(year), year_end(year), PeriodStat::MinState)
}

/// Computes the minimum account state for the specified month.
pub fn min_state_in_month(
    calculator: &Calculator,
    ledger: &Ledger,
    accounts: &Vec<Account>,
    year: i32,
    month: u32,
) -> (r: Result<Vec<AccountStats>, ComputeError>)
    requires
        calculator.wf(),
        ledger.wf(),
        MIN_YEAR <= year < MAX_YEAR - 1,
        1 <= month <= 12,
    ensures
        period_outcome(*calculator, *ledger, accounts@, date_of(year as int, month as int, 1), date_of(year as int, month as int, month_length(year as int, month as int)), PeriodStat::MinState, r),
{
    stats_over(calculator, ledger, accounts, month_start(year, month), month_end(year, month), PeriodStat::MinState)
}

/// Computes the maximum account state for the specified year.
pub fn max_state_in_year(calculator: &Calculator, ledger: &Ledger, accounts: &Vec<Account>, year: i32) -> (r:
    Result<Vec<AccountStats>, ComputeError>)
    requires
        calculator.wf(),
        ledger.wf(),
        MIN_YEAR <= year < MAX_YEAR - 1,
    ensures
        period_outcome(*calculator, *ledger, accounts@, date_of(year as int, 1, 1), date_of(year as int, 12, 31), PeriodStat::MaxState, r),
{
    stats_over(calculator, ledger, accounts, year_start(year), year_end(year), PeriodStat::MaxState)
}

/// Computes the maximum account state for the specified month.
pub fn max_state_in_month(
    calculator: &Calculator,
    ledger: &Ledger,
    accounts: &Vec<Account>,
    year: i32,
    month: u32,
) -> (r: Result<Vec<AccountStats>, ComputeError>)
    requires
        calculator.wf(),
        ledger.wf(),
        MIN_YEAR <= year < MAX_YEAR - 1,
        1 <= month <= 12,
    ensures
        period_outcome(*calculator, *ledger, accounts@, date_of(year as int, month as int, 1), date_of(year as int, month as int, month_length(year as int, month as int)), PeriodStat::MaxState, r),
{
    stats_over(calculator, ledger, accounts, month_start(year, month), month_end(year, month), PeriodStat::MaxState)
}

/// Computes the expense of the specified year: the total of the decreases of
/// the balance between consecutive days.
pub fn average_expense_in_year(calculator: &Calculator, ledger: &Ledger, accounts: &Vec<Account>, year: i32) -> (r:
    Result<Vec<AccountStats>, ComputeError>)
    requires
        calculator.wf(),
        ledger.wf(),
        MIN_YEAR <= year < MAX_YEAR - 1,
    ensures
        period_outcome(*calculator, *ledger, accounts@, date_of(year as int, 1, 1), date_of(year as int, 12, 31), PeriodStat::Changes(StatType::AverageExpense), r),
{
    stats_over(calculator, ledger, accounts, year_start(year), year_end(year), PeriodStat::Changes(StatType::AverageExpense))
}

/// Computes the expense of the specified month: the total of the decreases of
/// the balance between consecutive days.
pub fn average_expense_in_month(
    calculator: &Calculator,
    ledger: &Ledger,
    accounts: &Vec<Account>,
    year: i32,
    month: u32,
) -> (r: Result<Vec<AccountStats>, ComputeError>)
    requires
        calculator.wf(),
        ledger.wf(),
        MIN_YEAR <= year < MAX_YEAR - 1,
        1 <= month <= 12,
    ensures
        period_outcome(*calculator, *ledger, accounts@, date_of(year as int, month as int, 1), date_of(year as int, month as int, month_length(year as int, month as int)), PeriodStat::Changes(StatType::AverageExpense), r),
{
    stats_over(calculator, ledger, accounts, month_start(year, month), month_end(year, month), PeriodStat::Changes(StatType::AverageExpense))
}

/// Computes the income of the specified year: the total of the increases of
/// the balance between consecutive days.
pub fn average_income_in_year(calculator: &Calculator, ledger: &Ledger, accounts: &Vec<Account>, year: i32) -> (r:
    Result<Vec<AccountStats>, ComputeError>)
    requires
        calculator.wf(),
        ledger.wf(),
        MIN_YEAR <= year < MAX_YEAR - 1,
    ensures
        period_outcome(*calculator, *ledger, accounts@, date_of(year as int, 1, 1), date_of(year as int, 12, 31), PeriodStat::Changes(StatType::AverageIncome), r),
{
    stats_over(calculator, ledger, accounts, year_start(year), year_end(year), PeriodStat::Changes(StatType::AverageIncome))
}

/// Computes the income of the specified month: the total of the increases of
/// the balance between consecutive days.
pub fn average_income_in_month(
    calculator: &Calculator,
    ledger: &Ledger,
    accounts: &Vec<Account>,
    year: i32,
    month: u32,
) -> (r: Result<Vec<AccountStats>, ComputeError>)
    requires
        calculator.wf(),
        ledger.wf(),
        MIN_YEAR <= year < MAX_YEAR - 1,
        1 <= month <= 12,
    ensures
        period_outcome(*calculator, *ledger, accounts@, date_of(year as int, month as int, 1), date_of(year as int, month as int, month_length(year as int, month as int)), PeriodStat::Changes(StatType::AverageIncome), r),
{
    stats_over(calculator, ledger, accounts, month_start(year, month), month_end(year, month), PeriodStat::Changes(StatType::AverageIncome))
}

/// Computes the upcoming expenses (the decreases of the balance) from
/// `from_date` until the end of the specified year.
pub fn upcoming_expenses_until_year_end(
    calculator: &Calculator,
    ledger: &Ledger,
    accounts: &Vec<Account>,
    year: i32,
    from_date: Date,
) -> (r: Result<Vec<AccountStats>, ComputeError>)
    requires
        calculator.wf(),
        ledger.wf(),
        from_date.wf(),
        MIN_YEAR <= year < MAX_YEAR - 1,
    ensures
        period_outcome(*calculator, *ledger, accounts@, from_date, date_of(year as int, 12, 31), PeriodStat::Changes(StatType::UpcomingExpenses), r),
{
    stats_over(calculator, ledger, accounts, from_date, year_end(year), PeriodStat::Changes(StatType::UpcomingExpenses))
}

/// Computes the upcoming expenses (the decreases of the balance) from
/// `from_date` until the end of the specified month.
pub fn upcoming_expenses_until_month_end(
    calculator: &Calculator,
    ledger: &Ledger,
    accounts: &Vec<Account>,
    year: i32,
    month: u32,
    from_date: Date,
) -> (r: Result<Vec<AccountStats>, ComputeError>)
    requires
        calculator.wf(),
        ledger.wf(),
        from_date.wf(),
        MIN_YEAR <= year < MAX_YEAR - 1,
        1 <= month <= 12,
    ensures
        period_outcome(*calculator, *ledger, accounts@, from_date, date_of(year as int, month as int, month_length(year as int, month as int)), PeriodStat::Changes(StatType::UpcomingExpenses), r),
{
    stats_over(calculator, ledger, accounts, from_date, month_end(year, month), PeriodStat::Changes(StatType::UpcomingExpenses))
}

/// Computes the state at the end of the specified year.
pub fn end_of_year_state(calculator: &Calculator, ledger: &Ledger, accounts: &Vec<Account>, year: i32) -> (r:
    Result<Vec<AccountStats>, ComputeError>)
    requires
        calculator.wf(),
        ledger.wf(),
        MIN_YEAR <= year < MAX_YEAR - 1,
    ensures
        period_outcome(*calculator, *ledger, accounts@, date_of(year as int, 1, 1), date_of(year as int, 12, 31), PeriodStat::EndOfPeriod, r),
{
    stats_over(calculator, ledger, accounts, year_start(year), year_end(year), PeriodStat::EndOfPeriod)
}

/// Computes the state at the end of the specified month.
pub fn end_of_month_state(
    calculator: &Calculator,
    ledger: &Ledger,
    accounts: &Vec<Account>,
    year: i32,
    month: u32,
) -> (r: Result<Vec<AccountStats>, ComputeError>)
    requires
        calculator.wf(),
        ledger.wf(),
        MIN_YEAR <= year < MAX_YEAR - 1,
        1 <= month <= 12,
    ensures
        period_outcome(*calculator, *ledger, accounts@, date_of(year as int, month as int, 1), date_of(year as int, month as int, month_length(year as int, month as int)), PeriodStat::EndOfPeriod, r),
{
    stats_over(calculator, ledger, accounts, month_start(year, month), month_end(year, month), PeriodStat::EndOfPeriod)
}

} // verus!
