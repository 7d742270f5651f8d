//! Daily balance series of accounts.
//!
//! The balance of an account starts from its latest manual state before the
//! start of the range (or zero), moves by the amounts of one-off, unreconciled
//! imported and recurring transactions and recurring income, and is set by every
//! manual state inside the range to that state's amount on the state's date.
//! A table holds one row per account and per day of the range.

use crate::amount::{
    abs_int, aligned, lemma_fits_within, lemma_magnitude_member, lemma_magnitude_nonneg, lemma_magnitude_prefix,
    lemma_add_to_entry, lemma_magnitude_zeros, lemma_sum_aligned, magnitude_at, Amount, MAX_MANTISSA, MAX_SCALE,
    lemma_fits_by_units, units_bound, decimal_sum,
};
use crate::calendar::{chrono_succ, date_plus, Date, MAX_YEAR};
use crate::error::ComputeError;
use crate::model::{
    visible_in, is_visible, Account, ImportedTransaction, Ledger, ManualAccountState,
    OneOffTransaction, RecurringIncome, RecurringTransaction,
};
use crate::sources::{
    get_imported_transactions, get_latest_manual_state, get_manual_states_in_range,
    get_recurring_income, get_recurring_transactions, get_transactions_for_account, imported_selected,
    income_pairs, income_selected, latest_state, one_off_selected, recurring_selected, sort_by_date,
    states_in_range, state_in_range, transaction_pairs, lemma_filter_member, lemma_sort_by_date,
    lemma_states_in_range, sorted_by_date,
};
use vstd::prelude::*;

verus! {

broadcast use vstd::seq_lib::group_seq_properties;

/// One row of a balance table: the balance of an account at the end of a day.
#[derive(Clone, Copy, Debug)]
pub struct BalanceRow {
    pub account_id: i32,
    pub date: Date,
    pub balance: Amount,
}

impl BalanceRow {
    pub open spec fn wf(self) -> bool {
        self.date.wf() && self.balance.wf()
    }
}

/// A table of daily balances with columns account id, date and balance.
#[derive(Clone, Debug)]
pub struct BalanceFrame {
    pub rows: Vec<BalanceRow>,
}

impl BalanceFrame {
    pub open spec fn wf(self) -> bool {
        forall|i: int| 0 <= i < self.rows.len() ==> (#[trigger] self.rows[i]).wf()
    }

    /// A table without rows.
    pub fn empty() -> (r: BalanceFrame)
        ensures
            r.rows.len() == 0,
            r.wf(),
    {
        BalanceFrame { rows: Vec::new() }
    }

    /// A copy of the table.
    pub fn duplicate(&self) -> (r: BalanceFrame)
        ensures
            r.rows@ == self.rows@,
    {
        let mut rows: Vec<BalanceRow> = Vec::new();
        let mut i: usize = 0;
        while i < self.rows.len()
            invariant
                i <= self.rows.len(),
                rows@ == self.rows@.take(i as int),
            decreases self.rows.len() - i,
        {
            rows.push(self.rows[i]);
            i = i + 1;
        }
        assert(self.rows@.take(self.rows.len() as int) == self.rows@);
        BalanceFrame { rows }
    }

    /// Number of rows.
    pub fn height(&self) -> (r: usize)
        ensures
            r == self.rows.len(),
    {
        self.rows.len()
    }
}

/// Sum, in units, of the amounts dated strictly after day `lo` and on or before
/// day `hi`.
pub open spec fn sum_in(deltas: Seq<(Date, Amount)>, lo: int, hi: int) -> int
    decreases deltas.len(),
{
    if deltas.len() == 0 {
        0
    } else {
        sum_in(deltas.drop_last(), lo, hi) + (if lo < deltas.last().0.days <= hi {
            deltas.last().1.units()
        } else {
            0
        })
    }
}

pub proof fn lemma_sum_in_split(deltas: Seq<(Date, Amount)>, lo: int, mid: int, hi: int)
    requires
        lo <= mid <= hi,
    ensures
        sum_in(deltas, lo, mid) + sum_in(deltas, mid, hi) == sum_in(deltas, lo, hi),
    decreases deltas.len(),
{
    if deltas.len() > 0 {
        lemma_sum_in_split(deltas.drop_last(), lo, mid, hi);
    }
}

pub proof fn lemma_sum_in_empty(deltas: Seq<(Date, Amount)>, lo: int)
    ensures
        sum_in(deltas, lo, lo) == 0,
    decreases deltas.len(),
{
    if deltas.len() > 0 {
        lemma_sum_in_empty(deltas.drop_last(), lo);
    }
}

/// The last of the (date-sorted) manual states dated on or before day `d`.
pub open spec fn governing_state(states: Seq<ManualAccountState>, d: int) -> Option<ManualAccountState>
    decreases states.len(),
{
    if states.len() == 0 {
        None
    } else if states.last().date.days <= d {
        Some(states.last())
    } else {
        governing_state(states.drop_last(), d)
    }
}

/// The balance, in units, at the end of day `d`: the governing manual state (the
/// balance at the end of its day) plus the amounts after its day, or else the
/// opening balance `init` (at the start of day `first`) plus the amounts from
/// `first` on.
pub open spec fn balance_units(
    init: int,
    first: int,
    deltas: Seq<(Date, Amount)>,
    states: Seq<ManualAccountState>,
    d: int,
) -> int {
    match governing_state(states, d) {
        Some(s) => s.amount.units() + sum_in(deltas, s.date.days as int, d),
        None => init + sum_in(deltas, first - 1, d),
    }
}

/// The magnitudes of the balance changes' amounts at scale `scale`, added up.
pub open spec fn change_magnitude(d: Seq<(Date, Amount)>, scale: int) -> int
    decreases d.len(),
{
    if d.len() == 0 {
        0
    } else {
        change_magnitude(d.drop_last(), scale) + abs_int(aligned(d.last().1, scale))
    }
}

/// Every balance change has a scale of at most `scale`, and their mantissas at
/// that scale add up, in magnitude, within the 96-bit mantissa.
pub open spec fn changes_fit_at(d: Seq<(Date, Amount)>, scale: int) -> bool {
    &&& 0 <= scale <= MAX_SCALE
    &&& forall|k: int| 0 <= k < d.len() ==> (#[trigger] d[k]).1.scale <= scale
    &&& change_magnitude(d, scale) <= MAX_MANTISSA
}

proof fn lemma_change_magnitude_prefix(d: Seq<(Date, Amount)>, k: int, scale: int)
    requires
        0 <= k <= d.len(),
    ensures
        change_magnitude(d.take(k), scale) <= change_magnitude(d, scale),
        0 <= change_magnitude(d.take(k), scale),
    decreases d.len(),
{
    if k < d.len() {
        lemma_change_magnitude_prefix(d.drop_last(), k, scale);
        assert(d.drop_last().take(k) == d.take(k));
    } else {
        assert(d.take(k) == d);
        if d.len() > 0 {
            lemma_change_magnitude_prefix(d.drop_last(), k - 1, scale);
            assert(d.drop_last().take(k - 1) == d.drop_last());
        }
    }
}

// ---------------------------------------------------------------------------
// Balances as decimals: value and scale
// ---------------------------------------------------------------------------

/// The decimal that `rust_decimal` adds up from `a` and `b` ([`decimal_sum`]),
/// value and scale.
pub open spec fn added(a: Amount, b: Amount) -> Amount {
    decimal_sum(a, b).unwrap()
}

/// The day totals, as decimals, after adding the changes `deltas` in order to
/// `n` zero totals of the days from day number `first`: each change dated on
/// one of those days is added ([`added`]) to that day's total.
pub open spec fn day_total_amounts(deltas: Seq<(Date, Amount)>, first: int, n: int) -> Seq<Amount>
    decreases deltas.len(),
{
    if deltas.len() == 0 {
        Seq::new(n as nat, |i: int| Amount { mantissa: 0, scale: 0 })
    } else {
        let t = day_total_amounts(deltas.drop_last(), first, n);
        let idx = deltas.last().0.days - first;
        if 0 <= idx < n {
            t.update(idx, added(t[idx], deltas.last().1))
        } else {
            t
        }
    }
}

/// The running balances, as decimals, from `init` over the day totals: entry
/// `i` is the previous entry (or `init`) plus `totals[i]` ([`added`]).
pub open spec fn running_amounts(init: Amount, totals: Seq<Amount>) -> Seq<Amount>
    decreases totals.len(),
{
    if totals.len() == 0 {
        seq![]
    } else {
        let prev = running_amounts(init, totals.drop_last());
        let acc = if prev.len() == 0 {
            init
        } else {
            prev.last()
        };
        prev.push(added(acc, totals.last()))
    }
}

/// The balance on day index `j` (from `idx` on) when day `idx` is set to
/// `amount` and the days after it run on with the totals.
pub open spec fn rerun_value(totals: Seq<Amount>, idx: int, amount: Amount, j: int) -> Amount
    decreases j - idx,
{
    if j <= idx {
        amount
    } else {
        added(rerun_value(totals, idx, amount, j - 1), totals[j])
    }
}

/// `values` with day index `idx` set to `amount` and the days after it run on
/// from there with the totals.
pub open spec fn rerun_from(values: Seq<Amount>, totals: Seq<Amount>, idx: int, amount: Amount) -> Seq<Amount> {
    Seq::new(
        values.len(),
        |j: int|
            if j < idx {
                values[j]
            } else {
                rerun_value(totals, idx, amount, j)
            },
    )
}

/// The balances after the manual states, in order, each set its date's
/// balance to its amount and the days after it run on ([`rerun_from`]); the
/// days are counted from day number `first`.
pub open spec fn reset_amounts(
    base: Seq<Amount>,
    totals: Seq<Amount>,
    states: Seq<ManualAccountState>,
    first: int,
) -> Seq<Amount>
    decreases states.len(),
{
    if states.len() == 0 {
        base
    } else {
        rerun_from(
            reset_amounts(base, totals, states.drop_last(), first),
            totals,
            states.last().date.days - first,
            states.last().amount,
        )
    }
}

/// Every change has a scale of at most `scale`, and, taking the changes in
/// order, each change and each running total of a day among the `n` days from
/// `first` stays within [`units_bound`] at that scale.
pub open spec fn day_sums_fit_at(deltas: Seq<(Date, Amount)>, first: int, n: int, scale: int) -> bool {
    &&& 0 <= scale <= MAX_SCALE
    &&& forall|k: int|
        0 <= k < deltas.len() ==> (#[trigger] deltas[k]).1.scale <= scale && abs_int(deltas[k].1.units())
            <= units_bound(scale)
    &&& forall|k: int, j: int|
        0 <= k <= deltas.len() && 0 <= j < n ==> abs_int(#[trigger] sum_in(deltas.take(k), first + j - 1, first + j))
            <= units_bound(scale)
}

/// Totals per day: entry `i` holds the sum of the amounts dated on day `first + i`.
/// The totals never fail where the changes fit at some scale
/// ([`changes_fit_at`]); then the totals have scales within it and no more
/// magnitude than the changes.
pub fn daily_totals(deltas: &Vec<(Date, Amount)>, first: Date, n: usize) -> (r: Result<
    Vec<Amount>,
    ComputeError,
>)
    requires
        forall|k: int| 0 <= k < deltas.len() ==> (#[trigger] deltas@[k]).1.wf() && deltas@[k].0.wf(),
        first.wf(),
    ensures
        r matches Err(e) ==> e.is_overflow(),
        r matches Ok(t) ==> t@ == day_total_amounts(deltas@, first.days as int, n as int),
        r matches Ok(t) ==> t.len() == n && forall|i: int|
            0 <= i < n ==> (#[trigger] t[i]).wf() && t[i].units() == sum_in(
                deltas@,
                first.days + i - 1,
                first.days + i,
            ),
        forall|scale: int| #[trigger]
            changes_fit_at(deltas@, scale) ==> (r matches Ok(t) && (forall|i: int|
                0 <= i < t.len() ==> (#[trigger] t[i]).scale <= scale) && magnitude_at(t@, scale)
                <= change_magnitude(deltas@, scale)),
        forall|scale: int| #[trigger]
            day_sums_fit_at(deltas@, first.days as int, n as int, scale) ==> (r matches Ok(t) && forall|i: int|
                0 <= i < t.len() ==> (#[trigger] t[i]).scale <= scale),
{
    let mut totals: Vec<Amount> = Vec::new();
    let mut i: usize = 0;
    while i < n
        invariant
            i <= n,
            totals.len() == i,
            forall|j: int|
                0 <= j < i ==> (#[trigger] totals[j]).wf() && totals[j].units() == 0 && totals[j].mantissa
                    == 0 && totals[j].scale == 0,
        decreases n - i,
    {
        totals.push(Amount::zero());
        i = i + 1;
    }
    assert(deltas@.take(0) =~= Seq::<(Date, Amount)>::empty());
    assert(totals@ =~= day_total_amounts(deltas@.take(0), first.days as int, n as int));
    proof {
        assert forall|scale: int| #[trigger] changes_fit_at(deltas@, scale) implies magnitude_at(totals@, scale)
            <= change_magnitude(deltas@.take(0), scale) by {
            lemma_magnitude_zeros(totals@, scale);
        }
    }
    let mut k: usize = 0;
    while k < deltas.len()
        invariant
            k <= deltas.len(),
            totals.len() == n,
            totals@ == day_total_amounts(deltas@.take(k as int), first.days as int, n as int),
            first.wf(),
            forall|q: int| 0 <= q < deltas.len() ==> (#[trigger] deltas@[q]).1.wf() && deltas@[q].0.wf(),
            forall|j: int|
                0 <= j < n ==> (#[trigger] totals[j]).wf() && totals[j].units() == sum_in(
                    deltas@.take(k as int),
                    first.days + j - 1,
                    first.days + j,
                ),
            forall|scale: int| #[trigger]
                changes_fit_at(deltas@, scale) ==> (forall|j: int|
                    0 <= j < n ==> (#[trigger] totals[j]).scale <= scale) && magnitude_at(totals@, scale)
                    <= change_magnitude(deltas@.take(k as int), scale),
            forall|scale: int| #[trigger]
                day_sums_fit_at(deltas@, first.days as int, n as int, scale) ==> forall|j: int|
                    0 <= j < n ==> (#[trigger] totals[j]).scale <= scale,
        decreases deltas.len() - k,
    {
        let (date, amount) = deltas[k];
        assert(deltas@.take(k + 1).drop_last() == deltas@.take(k as int));
        assert(deltas@.take(k + 1).last() == deltas@[k as int]);
        proof {
            crate::calendar::lemma_ordinal_bounds(date.year as int, date.month as int, date.day as int);
            crate::calendar::lemma_ordinal_bounds(first.year as int, first.month as int, first.day as int);
        }
        let offset: i64 = date.days as i64 - first.days as i64;
        let ghost old_totals = totals@;
        if 0 <= offset && (offset as usize) < n {
            let idx = offset as usize;
            let next = totals[idx].checked_add(&amount);
            proof {
                assert(deltas@.take(k + 1).last() == (date, amount));
                assert(sum_in(deltas@.take(k + 1), first.days + idx - 1, first.days + idx) == sum_in(
                    deltas@.take(k as int),
                    first.days + idx - 1,
                    first.days + idx,
                ) + amount.units());
                assert forall|scale: int| #[trigger]
                    day_sums_fit_at(deltas@, first.days as int, n as int, scale) implies (next matches Some(t)
                    && t.scale <= scale) by {
                    assert(deltas@[k as int] == (date, amount));
                    assert(abs_int(sum_in(deltas@.take(k as int), first.days + idx - 1, first.days + idx)) <= units_bound(scale));
                    assert(abs_int(sum_in(deltas@.take(k + 1), first.days + idx - 1, first.days + idx)) <= units_bound(scale));
                    lemma_fits_by_units(old_totals[idx as int], amount, scale);
                }
            }
            proof {
                assert forall|scale: int| #[trigger] changes_fit_at(deltas@, scale) implies (next matches Some(
                    t,
                ) && t.scale <= scale && magnitude_at(old_totals.update(idx as int, t), scale)
                    <= change_magnitude(deltas@.take(k + 1), scale)) by {
                    lemma_change_magnitude_prefix(deltas@, k + 1, scale);
                    lemma_magnitude_member(old_totals, idx as int, scale);
                    lemma_fits_within(old_totals[idx as int], amount, scale);
                    if let Some(t) = next {
                        lemma_add_to_entry(old_totals, idx as int, amount, t, scale);
                    }
                }
            }
            match next {
                Some(t) => {
                    totals.set(idx, t);
                },
                None => {
                    return Err(ComputeError::decimal_overflow());
                },
            }
        }
        proof {
            assert(totals@ =~= day_total_amounts(deltas@.take(k + 1), first.days as int, n as int));
            assert forall|j: int| 0 <= j < n implies (#[trigger] totals[j]).wf() && totals[j].units()
                == sum_in(deltas@.take(k + 1), first.days + j - 1, first.days + j) by {
                assert(deltas@.take(k + 1).last() == (date, amount));
            }
            assert forall|scale: int| #[trigger] changes_fit_at(deltas@, scale) implies (forall|j: int|
                0 <= j < n ==> (#[trigger] totals[j]).scale <= scale) && magnitude_at(totals@, scale)
                <= change_magnitude(deltas@.take(k + 1), scale) by {
                lemma_change_magnitude_prefix(deltas@, k + 1, scale);
            }
        }
        k = k + 1;
    }
    assert(deltas@.take(deltas.len() as int) == deltas@);
    Ok(totals)
}

/// A starting amount and the amounts added to it all have scales of at most
/// `scale`, and their mantissas at that scale add up, in magnitude, within the
/// 96-bit mantissa.
pub open spec fn run_fits_at(init: Amount, totals: Seq<Amount>, scale: int) -> bool {
    &&& 0 <= scale <= MAX_SCALE
    &&& init.scale <= scale
    &&& forall|j: int| 0 <= j < totals.len() ==> (#[trigger] totals[j]).scale <= scale
    &&& abs_int(aligned(init, scale)) + magnitude_at(totals, scale) <= MAX_MANTISSA
}

/// The running sum stays exact: it keeps a scale within `scale`, and its
/// mantissa at `scale` is no larger than the magnitudes of what it added up.
proof fn lemma_run_step(acc: Amount, start: Amount, totals: Seq<Amount>, lo: int, i: int, scale: int)
    requires
        0 <= lo <= i < totals.len(),
        run_fits_at(start, totals, scale),
        acc.scale <= scale,
        abs_int(aligned(acc, scale)) <= abs_int(aligned(start, scale)) + magnitude_at(totals.take(i), scale)
            - magnitude_at(totals.take(lo), scale),
    ensures
        crate::amount::sum_fits(acc, totals[i]),
        forall|x: Amount|
            x.scale <= scale && x.units() == acc.units() + totals[i].units() ==> abs_int(aligned(x, scale))
                <= abs_int(aligned(start, scale)) + magnitude_at(totals.take(i + 1), scale) - magnitude_at(
                totals.take(lo),
                scale,
            ),
{
    assert(totals.take(i + 1).drop_last() == totals.take(i));
    assert(totals.take(i + 1).last() == totals[i]);
    lemma_magnitude_prefix(totals, i + 1, scale);
    lemma_magnitude_nonneg(totals.take(lo), scale);
    lemma_fits_within(acc, totals[i], scale);
    assert forall|x: Amount|
        x.scale <= scale && x.units() == acc.units() + totals[i].units() implies abs_int(aligned(x, scale))
            <= abs_int(aligned(start, scale)) + magnitude_at(totals.take(i + 1), scale) - magnitude_at(
            totals.take(lo),
            scale,
        ) by {
        lemma_sum_aligned(acc, totals[i], x, scale);
    }
}

/// The start and the amounts added to it have scales of at most `scale`, and
/// each amount and each running sum stays within [`units_bound`] at that scale.
pub open spec fn run_partials_fit_at(init: Amount, totals: Seq<Amount>, scale: int) -> bool {
    &&& 0 <= scale <= MAX_SCALE
    &&& init.scale <= scale
    &&& forall|j: int|
        0 <= j < totals.len() ==> (#[trigger] totals[j]).scale <= scale && abs_int(totals[j].units())
            <= units_bound(scale)
    &&& forall|i: int| 0 <= i <= totals.len() ==> abs_int(init.units() + #[trigger] prefix_units(totals, i)) <= units_bound(scale)
}

/// Running balances: entry `i` holds `init` plus the totals `0..=i`.  They never
/// fail where the start and the totals fit at some scale ([`run_fits_at`]).
pub fn running_balances(init: Amount, totals: &Vec<Amount>) -> (r: Result<Vec<Amount>, ComputeError>)
    requires
        init.wf(),
        forall|i: int| 0 <= i < totals.len() ==> (#[trigger] totals[i]).wf(),
    ensures
        r matches Err(e) ==> e.is_overflow(),
        r matches Ok(v) ==> v@ == running_amounts(init, totals@),
        r matches Ok(v) ==> v.len() == totals.len() && forall|i: int|
            0 <= i < v.len() ==> (#[trigger] v[i]).wf() && v[i].units() == init.units()
                + prefix_units(totals@, i + 1),
        forall|scale: int| #[trigger] run_fits_at(init, totals@, scale) ==> r is Ok,
        forall|scale: int| #[trigger] run_partials_fit_at(init, totals@, scale) ==> r is Ok,
{
    let mut values: Vec<Amount> = Vec::new();
    let mut acc = init;
    let mut i: usize = 0;
    proof {
        assert forall|scale: int| #[trigger] run_fits_at(init, totals@, scale) implies abs_int(aligned(acc, scale))
            <= abs_int(aligned(init, scale)) + magnitude_at(totals@.take(0), scale) - magnitude_at(
            totals@.take(0),
            scale,
        ) by {}
    }
    while i < totals.len()
        invariant
            i <= totals.len(),
            values.len() == i,
            values@ == running_amounts(init, totals@.take(i as int)),
            acc == (if i == 0 { init } else { values@.last() }),
            acc.wf(),
            forall|j: int| 0 <= j < totals.len() ==> (#[trigger] totals[j]).wf(),
            acc.units() == init.units() + prefix_units(totals@, i as int),
            forall|j: int|
                0 <= j < i ==> (#[trigger] values[j]).wf() && values[j].units() == init.units()
                    + prefix_units(totals@, j + 1),
            forall|scale: int| #[trigger]
                run_fits_at(init, totals@, scale) ==> acc.scale <= scale && abs_int(aligned(acc, scale))
                    <= abs_int(aligned(init, scale)) + magnitude_at(totals@.take(i as int), scale)
                    - magnitude_at(totals@.take(0), scale),
            forall|scale: int| #[trigger] run_partials_fit_at(init, totals@, scale) ==> acc.scale <= scale,
        decreases totals.len() - i,
    {
        let next = acc.checked_add(&totals[i]);
        proof {
            assert(prefix_units(totals@, i + 1) == prefix_units(totals@, i as int) + totals@[i as int].units());
            assert forall|scale: int| #[trigger] run_partials_fit_at(init, totals@, scale) implies (next matches Some(x)
                && x.scale <= scale) by {
                assert(abs_int(init.units() + prefix_units(totals@, i as int)) <= units_bound(scale));
                assert(abs_int(init.units() + prefix_units(totals@, i + 1)) <= units_bound(scale));
                lemma_fits_by_units(acc, totals@[i as int], scale);
            }
        }
        proof {
            assert forall|scale: int| #[trigger] run_fits_at(init, totals@, scale) implies (next matches Some(x)
                && x.scale <= scale && abs_int(aligned(x, scale)) <= abs_int(aligned(init, scale))
                + magnitude_at(totals@.take(i + 1), scale) - magnitude_at(totals@.take(0), scale)) by {
                lemma_run_step(acc, init, totals@, 0, i as int, scale);
            }
        }
        match next {
            Some(a) => {
                acc = a;
            },
            None => {
                return Err(ComputeError::decimal_overflow());
            },
        }
        values.push(acc);
        proof {
            assert(totals@.take(i + 1).drop_last() =~= totals@.take(i as int));
            assert(totals@.take(i + 1).last() == totals@[i as int]);
        }
        i = i + 1;
    }
    assert(totals@.take(totals.len() as int) =~= totals@);
    Ok(values)
}

/// Sum, in units, of the first `k` amounts.
pub open spec fn prefix_units(v: Seq<Amount>, k: int) -> int
    decreases k,
{
    if k <= 0 {
        0
    } else {
        prefix_units(v, k - 1) + v[k - 1].units()
    }
}

/// The balance, in units, at position `i` of a series starting on day `first`,
/// after the manual states have been applied to the running balances `base`.
pub open spec fn reset_units(
    base: Seq<Amount>,
    totals: Seq<Amount>,
    states: Seq<ManualAccountState>,
    first: int,
    i: int,
) -> int {
    match governing_state(states, first + i) {
        Some(s) => s.amount.units() + prefix_units(totals, i + 1) - prefix_units(
            totals,
            s.date.days - first + 1,
        ),
        None => base[i].units(),
    }
}

/// Each manual state, as a starting amount, fits with the totals at `scale`
/// ([`run_fits_at`]).
pub open spec fn resets_fit_at(states: Seq<ManualAccountState>, totals: Seq<Amount>, scale: int) -> bool {
    forall|k: int| 0 <= k < states.len() ==> run_fits_at((#[trigger] states[k]).amount, totals, scale)
}

/// Applies manual states, in order: each one sets the balance on its date to
/// its amount and the balances after it are recomputed from it with the daily
/// totals.  Never
/// fails where the states fit with the totals at some scale
/// ([`resets_fit_at`]).
pub fn apply_manual_states(
    values: &mut Vec<Amount>,
    totals: &Vec<Amount>,
    states: &Vec<ManualAccountState>,
    first: Date,
) -> (r: Result<(), ComputeError>)
    requires
        old(values).len() == totals.len(),
        forall|i: int| 0 <= i < totals.len() ==> (#[trigger] totals[i]).wf(),
        forall|i: int| 0 <= i < old(values).len() ==> (#[trigger] old(values)[i]).wf(),
        forall|k: int|
            0 <= k < states.len() ==> (#[trigger] states[k]).amount.wf() && first.days
                <= states[k].date.days < first.days + totals.len(),
    ensures
        final(values).len() == totals.len(),
        r matches Err(e) ==> e.is_overflow(),
        r is Ok ==> final(values)@ == reset_amounts(old(values)@, totals@, states@, first.days as int),
        r is Ok ==> forall|i: int|
            0 <= i < totals.len() ==> (#[trigger] final(values)[i]).wf() && final(values)[i].units()
                == reset_units(old(values)@, totals@, states@, first.days as int, i),
        forall|scale: int| #[trigger] resets_fit_at(states@, totals@, scale) ==> r is Ok,
{
    let ghost base = values@;
    let n = totals.len();
    let mut k: usize = 0;
    while k < states.len()
        invariant
            k <= states.len(),
            values.len() == n,
            values@ == reset_amounts(base, totals@, states@.take(k as int), first.days as int),
            n == totals.len(),
            base.len() == n,
            forall|i: int| 0 <= i < n ==> (#[trigger] totals[i]).wf(),
            forall|i: int| 0 <= i < n ==> (#[trigger] base[i]).wf(),
            forall|q: int|
                0 <= q < states.len() ==> (#[trigger] states[q]).amount.wf() && first.days
                    <= states[q].date.days < first.days + n,
            forall|i: int|
                0 <= i < n ==> (#[trigger] values[i]).wf() && values[i].units() == reset_units(
                    base,
                    totals@,
                    states@.take(k as int),
                    first.days as int,
                    i,
                ),
        decreases states.len() - k,
    {
        let st = states[k];
        assert(states@.take(k + 1).drop_last() == states@.take(k as int));
        assert(states@.take(k + 1).last() == st);
        let idx = (st.date.days as i64 - first.days as i64) as usize;
        let mut acc = st.amount;
        let ghost prevk = values@;
        values.set(idx, acc);
        proof {
            assert forall|j: int| 0 <= j < n implies (#[trigger] values[j]).wf() && values[j].units()
                == (if idx <= j < idx + 1 {
                reset_units(base, totals@, states@.take(k + 1), first.days as int, j)
            } else {
                reset_units(base, totals@, states@.take(k as int), first.days as int, j)
            }) by {
                if j == idx {
                    assert(governing_state(states@.take(k + 1), first.days + j) == Some(st));
                }
            }
            assert forall|scale: int| #[trigger] resets_fit_at(states@, totals@, scale) implies acc.scale
                <= scale by {
                assert(run_fits_at(states@[k as int].amount, totals@, scale));
            }
        }
        let mut i = idx + 1;
        while i < n
            invariant
                idx < i <= n,
                k < states.len(),
                idx == st.date.days - first.days,
                values.len() == n,
                prevk.len() == n,
                prevk == reset_amounts(base, totals@, states@.take(k as int), first.days as int),
                acc == rerun_value(totals@, idx as int, st.amount, i - 1),
                forall|j: int|
                    0 <= j < n ==> #[trigger] values@[j] == (if idx <= j < i {
                        rerun_value(totals@, idx as int, st.amount, j)
                    } else {
                        prevk[j]
                    }),
                n == totals.len(),
                acc.wf(),
                st == states@.take(k + 1).last(),
                states@.take(k + 1).drop_last() == states@.take(k as int),
                forall|j: int| 0 <= j < n ==> (#[trigger] totals[j]).wf(),
                acc.units() == st.amount.units() + prefix_units(totals@, i as int) - prefix_units(
                    totals@,
                    idx + 1,
                ),
                st == states@[k as int],
                forall|scale: int| #[trigger]
                    resets_fit_at(states@, totals@, scale) ==> acc.scale <= scale && abs_int(aligned(acc, scale))
                        <= abs_int(aligned(st.amount, scale)) + magnitude_at(totals@.take(i as int), scale)
                        - magnitude_at(totals@.take(idx + 1), scale),
                forall|j: int|
                    0 <= j < n ==> (#[trigger] values[j]).wf() && values[j].units() == (if idx <= j
                        < i {
                        reset_units(base, totals@, states@.take(k + 1), first.days as int, j)
                    } else {
                        reset_units(base, totals@, states@.take(k as int), first.days as int, j)
                    }),
            decreases n - i,
        {
            let next = acc.checked_add(&totals[i]);
            proof {
                assert forall|scale: int| #[trigger] resets_fit_at(states@, totals@, scale) implies (next matches Some(
                    x,
                ) && x.scale <= scale && abs_int(aligned(x, scale)) <= abs_int(aligned(st.amount, scale))
                    + magnitude_at(totals@.take(i + 1), scale) - magnitude_at(totals@.take(idx + 1), scale)) by {
                    assert(run_fits_at(states@[k as int].amount, totals@, scale));
                    lemma_run_step(acc, st.amount, totals@, idx + 1, i as int, scale);
                }
            }
            match next {
                Some(a) => {
                    acc = a;
                },
                None => {
                    return Err(ComputeError::decimal_overflow());
                },
            }
            let ghost prev = values@;
            values.set(i, acc);
            proof {
                assert forall|j: int| 0 <= j < n implies (#[trigger] values[j]).wf() && values[j].units()
                    == (if idx <= j < i + 1 {
                    reset_units(base, totals@, states@.take(k + 1), first.days as int, j)
                } else {
                    reset_units(base, totals@, states@.take(k as int), first.days as int, j)
                }) by {
                    if j == i {
                        assert(governing_state(states@.take(k + 1), first.days + j) == Some(st));
                    } else {
                        assert(values[j] == prev[j]);
                    }
                }
            }
            i = i + 1;
        }
        proof {
            assert(values@ =~= rerun_from(prevk, totals@, idx as int, st.amount));
            assert(values@ == reset_amounts(base, totals@, states@.take(k + 1), first.days as int));
            assert forall|j: int| 0 <= j < n implies (#[trigger] values[j]).wf() && values[j].units()
                == reset_units(base, totals@, states@.take(k + 1), first.days as int, j) by {
                if j < idx {
                    assert(governing_state(states@.take(k + 1), first.days + j) == governing_state(
                        states@.take(k as int),
                        first.days + j,
                    ));
                }
            }
        }
        k = k + 1;
    }
    assert(states@.take(states.len() as int) == states@);
    Ok(())
}

// ---------------------------------------------------------------------------
// Balance changes of an account
// ---------------------------------------------------------------------------

pub open spec fn neg_amount(a: Amount) -> Amount {
    Amount { mantissa: (-a.mantissa) as i128, scale: a.scale }
}

pub open spec fn zero_amount() -> Amount {
    Amount { mantissa: 0, scale: 0 }
}

/// What a transaction into `target`, optionally out of `source`, does to account
/// `a`: it adds the amount to the target and subtracts it from the source.
pub open spec fn signed_amount(amount: Amount, target: i32, source: Option<i32>, a: i32) -> Amount {
    if target == a {
        amount
    } else if source == Some(a) {
        neg_amount(amount)
    } else {
        zero_amount()
    }
}

/// Executable form of [`signed_amount`].
pub fn signed_for_account(amount: Amount, target: i32, source: Option<i32>, a: i32) -> (r: Amount)
    requires
        amount.wf(),
    ensures
        r == signed_amount(amount, target, source, a),
        r.wf(),
{
    if target == a {
        amount
    } else if source == Some(a) {
        amount.neg()
    } else {
        Amount::zero()
    }
}

/// Balance changes from the one-off transactions that are visible in the
/// scenario context.
pub open spec fn one_off_deltas(txs: Seq<OneOffTransaction>, a: i32, context: Option<i32>) -> Seq<
    (Date, Amount),
>
    decreases txs.len(),
{
    if txs.len() == 0 {
        seq![]
    } else {
        let t = txs.last();
        let rest = one_off_deltas(txs.drop_last(), a, context);
        if visible_in(t.is_simulated, t.scenario_id, context) {
            rest.push((t.date, signed_amount(t.amount, t.target_account_id, t.source_account_id, a)))
        } else {
            rest
        }
    }
}

/// Balance changes from the imported transactions that are not reconciled.
pub open spec fn imported_deltas(txs: Seq<ImportedTransaction>) -> Seq<(Date, Amount)>
    decreases txs.len(),
{
    if txs.len() == 0 {
        seq![]
    } else {
        let t = txs.last();
        let rest = imported_deltas(txs.drop_last());
        if t.reconciled_transaction_type is None {
            rest.push((t.date, t.amount))
        } else {
            rest
        }
    }
}

/// Balance changes from occurrences of recurring transactions.
pub open spec fn recurring_deltas(pairs: Seq<(Date, RecurringTransaction)>, a: i32) -> Seq<(Date, Amount)> {
    pairs.map_values(
        |p: (Date, RecurringTransaction)|
            (p.0, signed_amount(p.1.amount, p.1.target_account_id, p.1.source_account_id, a)),
    )
}

/// Balance changes from occurrences of recurring income into the account.
pub open spec fn income_deltas(pairs: Seq<(Date, RecurringIncome)>, a: i32) -> Seq<(Date, Amount)>
    decreases pairs.len(),
{
    if pairs.len() == 0 {
        seq![]
    } else {
        let p = pairs.last();
        let rest = income_deltas(pairs.drop_last(), a);
        if p.1.target_account_id == a {
            rest.push((p.0, p.1.amount))
        } else {
            rest
        }
    }
}

/// All balance changes of account `a` within `[from, end]`.
pub open spec fn balance_deltas(
    ledger: Ledger,
    a: i32,
    from: Date,
    end: Date,
    today: Date,
    context: Option<i32>,
) -> Seq<(Date, Amount)> {
    one_off_deltas(
        ledger.one_off_transactions@.filter(|t: OneOffTransaction| one_off_selected(t, a, from, end)),
        a,
        context,
    ) + imported_deltas(
        ledger.imported_transactions@.filter(
            |t: ImportedTransaction| imported_selected(t, a, from, end),
        ),
    ) + recurring_deltas(
        transaction_pairs(
            ledger.recurring_transactions@.filter(
                |t: RecurringTransaction| recurring_selected(t, a, from, end, context),
            ),
            ledger.instances@,
            from,
            end,
            today,
        ),
        a,
    ) + income_deltas(
        income_pairs(
            ledger.recurring_incomes@.filter(
                |t: RecurringIncome| income_selected(t, a, from, end, context),
            ),
            ledger.instances@,
            from,
            end,
            today,
        ),
        a,
    )
}

pub open spec fn deltas_wf(d: Seq<(Date, Amount)>) -> bool {
    forall|k: int| 0 <= k < d.len() ==> (#[trigger] d[k]).0.wf() && d[k].1.wf()
}

fn push_one_off_deltas(
    all: &mut Vec<(Date, Amount)>,
    txs: &Vec<OneOffTransaction>,
    account_id: i32,
    scenario_context: Option<i32>,
)
    requires
        forall|q: int| 0 <= q < txs.len() ==> (#[trigger] txs[q]).wf(),
        deltas_wf(old(all)@),
    ensures
        final(all)@ == old(all)@ + one_off_deltas(txs@, account_id, scenario_context),
        deltas_wf(final(all)@),
{
    let ghost start = all@;
    let mut k: usize = 0;
    while k < txs.len()
        invariant
            k <= txs.len(),
            forall|q: int| 0 <= q < txs.len() ==> (#[trigger] txs[q]).wf(),
            all@ == start + one_off_deltas(txs@.take(k as int), account_id, scenario_context),
            deltas_wf(all@),
        decreases txs.len() - k,
    {
        let t = txs[k];
        assert(txs@.take(k + 1).drop_last() == txs@.take(k as int));
        if is_visible(t.is_simulated, t.scenario_id, scenario_context) {
            let amount = signed_for_account(t.amount, t.target_account_id, t.source_account_id, account_id);
            all.push((t.date, amount));
        }
        k = k + 1;
    }
    assert(txs@.take(txs.len() as int) == txs@);
}

fn push_imported_deltas(all: &mut Vec<(Date, Amount)>, txs: &Vec<ImportedTransaction>)
    requires
        forall|q: int| 0 <= q < txs.len() ==> (#[trigger] txs[q]).wf(),
        deltas_wf(old(all)@),
    ensures
        final(all)@ == old(all)@ + imported_deltas(txs@),
        deltas_wf(final(all)@),
{
    let ghost start = all@;
    let mut k: usize = 0;
    while k < txs.len()
        invariant
            k <= txs.len(),
            forall|q: int| 0 <= q < txs.len() ==> (#[trigger] txs[q]).wf(),
            all@ == start + imported_deltas(txs@.take(k as int)),
            deltas_wf(all@),
        decreases txs.len() - k,
    {
        let t = txs[k];
        assert(txs@.take(k + 1).drop_last() == txs@.take(k as int));
        if t.get_reconciled_transaction_type().is_none() {
            all.push((t.date, t.amount));
        }
        k = k + 1;
    }
    assert(txs@.take(txs.len() as int) == txs@);
}

pub(crate) fn push_recurring_deltas(
    all: &mut Vec<(Date, Amount)>,
    pairs: &Vec<(Date, RecurringTransaction)>,
    account_id: i32,
)
    requires
        forall|q: int| 0 <= q < pairs.len() ==> (#[trigger] pairs[q]).0.wf() && pairs[q].1.wf(),
        deltas_wf(old(all)@),
    ensures
        final(all)@ == old(all)@ + recurring_deltas(pairs@, account_id),
        deltas_wf(final(all)@),
{
    let ghost start = all@;
    let mut k: usize = 0;
    while k < pairs.len()
        invariant
            k <= pairs.len(),
            forall|q: int| 0 <= q < pairs.len() ==> (#[trigger] pairs[q]).0.wf() && pairs[q].1.wf(),
            all@ == start + recurring_deltas(pairs@.take(k as int), account_id),
            deltas_wf(all@),
        decreases pairs.len() - k,
    {
        let (date, tx) = pairs[k];
        let amount = signed_for_account(tx.amount, tx.target_account_id, tx.source_account_id, account_id);
        assert(recurring_deltas(pairs@.take(k + 1), account_id) == recurring_deltas(
            pairs@.take(k as int),
            account_id,
        ).push((date, amount)));
        all.push((date, amount));
        k = k + 1;
    }
    assert(pairs@.take(pairs.len() as int) == pairs@);
}

pub(crate) fn push_income_deltas(
    all: &mut Vec<(Date, Amount)>,
    pairs: &Vec<(Date, RecurringIncome)>,
    account_id: i32,
)
    requires
        forall|q: int| 0 <= q < pairs.len() ==> (#[trigger] pairs[q]).0.wf() && pairs[q].1.wf(),
        deltas_wf(old(all)@),
    ensures
        final(all)@ == old(all)@ + income_deltas(pairs@, account_id),
        deltas_wf(final(all)@),
{
    let ghost start = all@;
    let mut k: usize = 0;
    while k < pairs.len()
        invariant
            k <= pairs.len(),
            forall|q: int| 0 <= q < pairs.len() ==> (#[trigger] pairs[q]).0.wf() && pairs[q].1.wf(),
            all@ == start + income_deltas(pairs@.take(k as int), account_id),
            deltas_wf(all@),
        decreases pairs.len() - k,
    {
        let (date, inc) = pairs[k];
        assert(pairs@.take(k + 1).drop_last() == pairs@.take(k as int));
        if inc.target_account_id == account_id {
            all.push((date, inc.amount));
        }
        k = k + 1;
    }
    assert(pairs@.take(pairs.len() as int) == pairs@);
}

/// Collects the balance changes of account `account_id` within `[from, end_date]`:
/// one-off transactions (added on the target, subtracted on the source),
/// unreconciled imported transactions, recurring transactions and recurring income.
pub fn collect_balance_deltas(
    ledger: &Ledger,
    account_id: i32,
    from: Date,
    end_date: Date,
    today: Date,
    scenario_context: Option<i32>,
) -> (r: Vec<(Date, Amount)>)
    requires
        ledger.wf(),
        from.wf(),
        end_date.wf(),
        end_date.year < MAX_YEAR - 1,
    ensures
        r@ == balance_deltas(*ledger, account_id, from, end_date, today, scenario_context),
        deltas_wf(r@),
{
    let mut all: Vec<(Date, Amount)> = Vec::new();
    let transactions = get_transactions_for_account(ledger, account_id, from, end_date);
    proof {
        assert forall|q: int| 0 <= q < transactions.len() implies (#[trigger] transactions[q]).wf() by {
            lemma_filter_member(
                ledger.one_off_transactions@,
                |t: OneOffTransaction| one_off_selected(t, account_id, from, end_date),
                q,
            );
        }
    }
    push_one_off_deltas(&mut all, &transactions, account_id, scenario_context);
    let imported = get_imported_transactions(ledger, account_id, from, end_date);
    proof {
        assert forall|q: int| 0 <= q < imported.len() implies (#[trigger] imported[q]).wf() by {
            lemma_filter_member(
                ledger.imported_transactions@,
                |t: ImportedTransaction| imported_selected(t, account_id, from, end_date),
                q,
            );
        }
    }
    push_imported_deltas(&mut all, &imported);
    let recurring = get_recurring_transactions(
        ledger,
        account_id,
        from,
        end_date,
        today,
        scenario_context,
    );
    push_recurring_deltas(&mut all, &recurring, account_id);
    let income = get_recurring_income(ledger, account_id, from, end_date, today, scenario_context);
    push_income_deltas(&mut all, &income, account_id);
    all
}


// ---------------------------------------------------------------------------
// Daily balance series
// ---------------------------------------------------------------------------

/// Sums of daily totals are sums of the balance changes over the same days.
proof fn lemma_prefix_units(deltas: Seq<(Date, Amount)>, totals: Seq<Amount>, first: int, k: int)
    requires
        0 <= k <= totals.len(),
        forall|i: int|
            0 <= i < totals.len() ==> (#[trigger] totals[i]).units() == sum_in(
                deltas,
                first + i - 1,
                first + i,
            ),
    ensures
        prefix_units(totals, k) == sum_in(deltas, first - 1, first + k - 1),
    decreases k,
{
    if k == 0 {
        lemma_sum_in_empty(deltas, first - 1);
    } else {
        lemma_prefix_units(deltas, totals, first, k - 1);
        lemma_sum_in_split(deltas, first - 1, first + k - 2, first + k - 1);
    }
}

/// The governing state is one of the states and is dated on or before the day.
proof fn lemma_governing_state(states: Seq<ManualAccountState>, d: int)
    ensures
        governing_state(states, d) matches Some(s) ==> s.date.days <= d && states.contains(s),
    decreases states.len(),
{
    if states.len() > 0 && states.last().date.days > d {
        lemma_governing_state(states.drop_last(), d);
        if governing_state(states.drop_last(), d) is Some {
            let s = governing_state(states.drop_last(), d).unwrap();
            let j = choose|j: int| 0 <= j < states.drop_last().len() && states.drop_last()[j] == s;
            assert(states[j] == s);
        }
    }
}

/// Applying the manual states to the running balances gives the balance that
/// [`balance_units`] describes.
proof fn lemma_reset_is_balance(
    base: Seq<Amount>,
    totals: Seq<Amount>,
    deltas: Seq<(Date, Amount)>,
    states: Seq<ManualAccountState>,
    init: int,
    first: int,
    i: int,
)
    requires
        0 <= i < totals.len(),
        base.len() == totals.len(),
        forall|j: int|
            0 <= j < totals.len() ==> (#[trigger] totals[j]).units() == sum_in(
                deltas,
                first + j - 1,
                first + j,
            ),
        forall|j: int|
            0 <= j < base.len() ==> (#[trigger] base[j]).units() == init + prefix_units(totals, j + 1),
        forall|k: int| 0 <= k < states.len() ==> first <= (#[trigger] states[k]).date.days,
    ensures
        reset_units(base, totals, states, first, i) == balance_units(init, first, deltas, states, first + i),
{
    lemma_prefix_units(deltas, totals, first, i + 1);
    lemma_governing_state(states, first + i);
    if governing_state(states, first + i) is Some {
        let s = governing_state(states, first + i).unwrap();
        let k = choose|k: int| 0 <= k < states.len() && states[k] == s;
        assert(first <= states[k].date.days);
        lemma_prefix_units(deltas, totals, first, s.date.days - first + 1);
        lemma_sum_in_split(deltas, first - 1, s.date.days as int, first + i);
    }
}

/// The date from which the balance of an account is run: the date of its
/// latest manual state before `start`, or else `start` (the rows themselves
/// start at `start`).
pub open spec fn series_first(ledger: Ledger, a: i32, start: Date) -> Date {
    match latest_state(ledger.manual_states@, a, start) {
        Some(s) => s.date,
        None => start,
    }
}

/// The opening balance of the series, in units: the amount of that manual state, or zero.
pub open spec fn series_init(ledger: Ledger, a: i32, start: Date) -> int {
    match latest_state(ledger.manual_states@, a, start) {
        Some(s) => s.amount.units(),
        None => 0,
    }
}

/// The opening balance of the series: the amount of the latest manual state
/// before `start`, or zero.
pub open spec fn series_opening(ledger: Ledger, a: i32, start: Date) -> Amount {
    match latest_state(ledger.manual_states@, a, start) {
        Some(s) => s.amount,
        None => Amount { mantissa: 0, scale: 0 },
    }
}

/// The series of account `a` can be computed exactly at scale `scale`: its
/// balance changes fit at that scale ([`changes_fit_at`]), and so does each
/// amount it starts or restarts from (the opening balance and the manual
/// states within the range) together with all the changes.
pub open spec fn series_fits_at(
    ledger: Ledger,
    a: i32,
    start: Date,
    end: Date,
    today: Date,
    context: Option<i32>,
    scale: int,
) -> bool {
    let first = series_first(ledger, a, start);
    let deltas = balance_deltas(ledger, a, first, end, today, context);
    let states = sort_by_date(states_in_range(ledger.manual_states@, a, start, end));
    let opening = series_opening(ledger, a, start);
    &&& changes_fit_at(deltas, scale)
    &&& opening.scale <= scale
    &&& abs_int(aligned(opening, scale)) + change_magnitude(deltas, scale) <= MAX_MANTISSA
    &&& forall|k: int|
        0 <= k < states.len() ==> (#[trigger] states[k]).amount.scale <= scale && abs_int(
            aligned(states[k].amount, scale),
        ) + change_magnitude(deltas, scale) <= MAX_MANTISSA
}

/// The series of account `a` can be computed exactly at some scale
/// ([`series_fits_at`]): no sum it takes needs more than the 96-bit mantissa.
pub open spec fn series_fits(ledger: Ledger, a: i32, start: Date, end: Date, today: Date, context: Option<i32>) -> bool {
    exists|scale: int| series_fits_at(ledger, a, start, end, today, context, scale)
}

/// Number of days from `first` through `end` (zero when `end` comes first).
pub open spec fn days_through(first: Date, end: Date) -> int {
    if end.days >= first.days {
        end.days - first.days + 1
    } else {
        0
    }
}

/// The balance of account `a`, in units, at the end of day `d`.
pub open spec fn balance_on(
    ledger: Ledger,
    a: i32,
    start: Date,
    end: Date,
    today: Date,
    context: Option<i32>,
    d: int,
) -> int {
    let first = series_first(ledger, a, start);
    balance_units(
        series_init(ledger, a, start),
        first.days as int,
        balance_deltas(ledger, a, first, end, today, context),
        sort_by_date(states_in_range(ledger.manual_states@, a, start, end)),
        d,
    )
}

/// The rows (account id, date, balance in units) of the series of account `a`:
/// one per day from `start` through `end`.
pub open spec fn account_series(
    ledger: Ledger,
    a: i32,
    start: Date,
    end: Date,
    today: Date,
    context: Option<i32>,
) -> Seq<(i32, Date, int)> {
    Seq::new(
        days_through(start, end) as nat,
        |i: int| (a, date_plus(start, i as nat), balance_on(ledger, a, start, end, today, context, start.days + i)),
    )
}

/// Walking `m + k` days is walking `m` days, then `k`.
pub proof fn lemma_date_plus_add(d: Date, m: nat, k: nat)
    ensures
        date_plus(d, m + k) == date_plus(date_plus(d, m), k),
    decreases k,
{
    if k > 0 {
        lemma_date_plus_add(d, m, (k - 1) as nat);
        assert((m + k - 1) as nat == m + (k - 1) as nat);
    }
}

/// A row seen as (account id, date, balance in units).
pub open spec fn row_view(r: BalanceRow) -> (i32, Date, int) {
    (r.account_id, r.date, r.balance.units())
}

impl BalanceFrame {
    /// The rows as (account id, date, balance in units).
    pub open spec fn view_rows(self) -> Seq<(i32, Date, int)> {
        self.rows@.map_values(|r: BalanceRow| row_view(r))
    }
}

/// The daily balances of account `a` over `[start, end]` as decimals, value
/// and scale: the running balances ([`running_amounts`]) from its opening
/// balance ([`series_opening`]) over the day totals of its changes
/// ([`day_total_amounts`]) from the series' first day, reset by its manual
/// states within the range in date order ([`reset_amounts`]), from `start` on.
pub open spec fn series_amounts(
    ledger: Ledger,
    a: i32,
    start: Date,
    end: Date,
    today: Date,
    context: Option<i32>,
) -> Seq<Amount> {
    let first = series_first(ledger, a, start);
    let totals = day_total_amounts(
        balance_deltas(ledger, a, first, end, today, context),
        first.days as int,
        days_through(first, end),
    );
    let values = reset_amounts(
        running_amounts(series_opening(ledger, a, start), totals),
        totals,
        sort_by_date(states_in_range(ledger.manual_states@, a, start, end)),
        first.days as int,
    );
    Seq::new(days_through(start, end) as nat, |i: int| values[start.days - first.days + i])
}

/// Computes the daily balance series of one account over `[start_date,
/// end_date]`, one row per day.  The balance runs from its latest manual state
/// before `start_date` (or from zero at `start_date`); a manual state within
/// the range sets the balance on its date to its amount.  Fails only when a decimal sum overflows, which it never does
/// where the series fits ([`series_fits`]).
pub fn compute_account_series(
    ledger: &Ledger,
    account_id: i32,
    start_date: Date,
    end_date: Date,
    today: Date,
    scenario_context: Option<i32>,
) -> (r: Result<Vec<BalanceRow>, ComputeError>)
    requires
        ledger.wf(),
        start_date.wf(),
        end_date.wf(),
        end_date.year < MAX_YEAR - 1,
    ensures
        r matches Ok(rows) ==> {
            &&& rows@.map_values(|x: BalanceRow| row_view(x)) == account_series(
                *ledger,
                account_id,
                start_date,
                end_date,
                today,
                scenario_context,
            )
            &&& rows@.map_values(|x: BalanceRow| x.balance) == series_amounts(
                *ledger,
                account_id,
                start_date,
                end_date,
                today,
                scenario_context,
            )
            &&& forall|i: int| 0 <= i < rows.len() ==> (#[trigger] rows[i]).wf()
        },
        r matches Err(e) ==> e.is_overflow(),
        series_fits(*ledger, account_id, start_date, end_date, today, scenario_context) ==> r is Ok,
{
    let manual_state = get_latest_manual_state(ledger, account_id, start_date);
    let (init, first) = match manual_state {
        Some(s) => (s.amount, s.date),
        None => (Amount::zero(), start_date),
    };
    let ghost init_units = series_init(*ledger, account_id, start_date);
    assert(init.units() == init_units);
    assert(first == series_first(*ledger, account_id, start_date));
    let deltas = collect_balance_deltas(ledger, account_id, first, end_date, today, scenario_context);
    proof {
        crate::calendar::lemma_ordinal_bounds(first.year as int, first.month as int, first.day as int);
        crate::calendar::lemma_ordinal_bounds(
            end_date.year as int,
            end_date.month as int,
            end_date.day as int,
        );
    }
    let n: usize = if end_date.days >= first.days {
        (end_date.days as i64 - first.days as i64 + 1) as usize
    } else {
        0
    };
    assert(n == days_through(first, end_date));
    let totals = match daily_totals(&deltas, first, n) {
        Ok(t) => t,
        Err(e) => {
            return Err(e);
        },
    };
    proof {
        if series_fits(*ledger, account_id, start_date, end_date, today, scenario_context) {
            let scale = choose|scale: int|
                series_fits_at(*ledger, account_id, start_date, end_date, today, scenario_context, scale);
            assert(changes_fit_at(deltas@, scale));
            assert(run_fits_at(init, totals@, scale));
        }
    }
    let mut values = match running_balances(init, &totals) {
        Ok(v) => v,
        Err(e) => {
            return Err(e);
        },
    };
    let states = get_manual_states_in_range(ledger, account_id, start_date, end_date);
    proof {
        if series_fits(*ledger, account_id, start_date, end_date, today, scenario_context) {
            let scale = choose|scale: int|
                series_fits_at(*ledger, account_id, start_date, end_date, today, scenario_context, scale);
            assert(changes_fit_at(deltas@, scale));
            assert(run_fits_at(init, totals@, scale));
            assert forall|k: int| 0 <= k < states@.len() implies run_fits_at(
                (#[trigger] states@[k]).amount,
                totals@,
                scale,
            ) by {}
            assert(resets_fit_at(states@, totals@, scale));
        }
    }
    let ghost base = values@;
    assert(init == series_opening(*ledger, account_id, start_date));
    let ghost amounts = reset_amounts(base, totals@, states@, first.days as int);
    match apply_manual_states(&mut values, &totals, &states, first) {
        Ok(()) => {},
        Err(e) => {
            return Err(e);
        },
    }
    let ghost spec_deltas = balance_deltas(*ledger, account_id, first, end_date, today, scenario_context);
    let ghost spec_states = sort_by_date(
        states_in_range(ledger.manual_states@, account_id, start_date, end_date),
    );
    assert forall|k: int| 0 <= k < spec_states.len() implies first.days <= (
    #[trigger] spec_states[k]).date.days by {
        assert(state_in_range(states@[k], account_id, start_date, end_date));
    }
    let mut rows: Vec<BalanceRow> = Vec::new();
    let mut date = first;
    let mut i: usize = 0;
    let ghost off: int = start_date.days - first.days;
    assert(off >= 0) by {
        if manual_state is Some {
            assert(crate::sources::state_before(manual_state->0, account_id, start_date));
        }
    }
    while i < n
        invariant
            i <= n,
            off == start_date.days - first.days,
            off >= 0,
            start_date.wf(),
            i > off ==> start_date == date_plus(first, off as nat),
            rows.len() == (if i > off { i - off } else { 0 }),
            n == totals.len(),
            n == values.len(),
            n == days_through(first, end_date),
            date.wf(),
            end_date.wf(),
            first.wf(),
            i < n ==> date == date_plus(first, i as nat) && date.days == first.days + i,
            forall|j: int|
                0 <= j < n ==> (#[trigger] values[j]).wf() && values[j].units() == reset_units(
                    base,
                    totals@,
                    states@,
                    first.days as int,
                    j,
                ),
            forall|j: int|
                0 <= j < n ==> (#[trigger] totals[j]).units() == sum_in(
                    spec_deltas,
                    first.days + j - 1,
                    first.days + j,
                ),
            forall|j: int|
                0 <= j < n ==> (#[trigger] base[j]).units() == init_units + prefix_units(totals@, j + 1),
            forall|k: int| 0 <= k < spec_states.len() ==> first.days <= (#[trigger] spec_states[k]).date.days,
            states@ == spec_states,
            base.len() == n,
            first == series_first(*ledger, account_id, start_date),
            init_units == series_init(*ledger, account_id, start_date),
            spec_deltas == balance_deltas(*ledger, account_id, first, end_date, today, scenario_context),
            spec_states == sort_by_date(
                states_in_range(ledger.manual_states@, account_id, start_date, end_date),
            ),
            values@ == amounts,
            forall|j: int| 0 <= j < rows.len() ==> (#[trigger] rows@[j]).balance == amounts[off + j],
            forall|j: int|
                0 <= j < rows.len() ==> (#[trigger] rows[j]).wf() && row_view(rows[j]) == (
                    account_id,
                    date_plus(start_date, j as nat),
                    balance_on(*ledger, account_id, start_date, end_date, today, scenario_context, start_date.days + j),
                ),
        decreases n - i,
    {
        proof {
            lemma_reset_is_balance(
                base,
                totals@,
                spec_deltas,
                spec_states,
                init_units,
                first.days as int,
                i as int,
            );
        }
        assert(values[i as int].units() == balance_on(
            *ledger,
            account_id,
            start_date,
            end_date,
            today,
            scenario_context,
            first.days + i,
        ));
        if date.days >= start_date.days {
            proof {
                if i == off {
                    crate::calendar::lemma_days_determine_date(date, start_date);
                }
                lemma_date_plus_add(first, off as nat, (i - off) as nat);
                assert((off + (i - off)) as nat == i as nat);
            }
            let ghost old_rows = rows@;
            rows.push(BalanceRow { account_id, date, balance: values[i] });
            assert(forall|j: int| 0 <= j < old_rows.len() ==> rows@[j] == old_rows[j]);
        }
        if i + 1 < n {
            proof {
                crate::calendar::lemma_not_last(date, end_date);
            }
            let next = chrono_succ(date).unwrap();
            proof {
                crate::calendar::lemma_next_day_value(date, next);
            }
            date = next;
        }
        i = i + 1;
    }
    assert(rows@.map_values(|x: BalanceRow| row_view(x)) =~= account_series(
        *ledger,
        account_id,
        start_date,
        end_date,
        today,
        scenario_context,
    ));
    assert(rows@.map_values(|x: BalanceRow| x.balance) =~= series_amounts(
        *ledger,
        account_id,
        start_date,
        end_date,
        today,
        scenario_context,
    ));
    Ok(rows)
}


/// The ids of the accounts, in order.
pub open spec fn account_ids(accounts: Seq<Account>) -> Seq<i32> {
    accounts.map_values(|a: Account| a.id)
}

/// A table made of one series per distinct id, in the order in which the ids
/// first occur.
pub open spec fn per_account_table(ids: Seq<i32>, series: spec_fn(i32) -> Seq<(i32, Date, int)>) -> Seq<
    (i32, Date, int),
>
    decreases ids.len(),
{
    if ids.len() == 0 {
        seq![]
    } else {
        let prev = per_account_table(ids.drop_last(), series);
        if ids.drop_last().contains(ids.last()) {
            prev
        } else {
            prev + series(ids.last())
        }
    }
}

/// The daily balances over `[start, end]`, as decimals, of a series opening
/// with `init` and moving by `deltas`: the running balances over the day
/// totals of the changes ([`running_amounts`], [`day_total_amounts`]).
pub open spec fn running_amounts_from(init: Amount, deltas: Seq<(Date, Amount)>, start: Date, end: Date) -> Seq<
    Amount,
> {
    running_amounts(init, day_total_amounts(deltas, start.days as int, days_through(start, end)))
}

/// The balances of one series per distinct id, in the order in which the ids
/// first occur (as [`per_account_table`]).
pub open spec fn per_account_amounts(ids: Seq<i32>, series: spec_fn(i32) -> Seq<Amount>) -> Seq<Amount>
    decreases ids.len(),
{
    if ids.len() == 0 {
        seq![]
    } else {
        let prev = per_account_amounts(ids.drop_last(), series);
        if ids.drop_last().contains(ids.last()) {
            prev
        } else {
            prev + series(ids.last())
        }
    }
}

/// The balances of the balance table of the accounts with the given ids, as
/// decimals, value and scale ([`series_amounts`]), row by row.
pub open spec fn balance_amounts(
    ledger: Ledger,
    ids: Seq<i32>,
    start: Date,
    end: Date,
    today: Date,
    context: Option<i32>,
) -> Seq<Amount> {
    per_account_amounts(ids, |a: i32| series_amounts(ledger, a, start, end, today, context))
}

/// The balance table of the accounts with the given ids.
pub open spec fn balance_table(
    ledger: Ledger,
    ids: Seq<i32>,
    start: Date,
    end: Date,
    today: Date,
    context: Option<i32>,
) -> Seq<(i32, Date, int)> {
    per_account_table(ids, |a: i32| account_series(ledger, a, start, end, today, context))
}

/// Whether one of the first `k` accounts has id `id`.
pub(crate) fn id_among_first(accounts: &Vec<Account>, k: usize, id: i32) -> (r: bool)
    requires
        k <= accounts.len(),
    ensures
        r == account_ids(accounts@).take(k as int).contains(id),
{
    let ghost ids = account_ids(accounts@).take(k as int);
    let mut j: usize = 0;
    while j < k
        invariant
            j <= k <= accounts.len(),
            ids == account_ids(accounts@).take(k as int),
            forall|q: int| 0 <= q < j ==> ids[q] != id,
        decreases k - j,
    {
        if accounts[j].id == id {
            assert(ids[j as int] == id);
            return true;
        }
        j = j + 1;
    }
    false
}

/// The series of every account in `ids` fits ([`series_fits`]).
pub open spec fn balances_fit(
    ledger: Ledger,
    ids: Seq<i32>,
    start: Date,
    end: Date,
    today: Date,
    context: Option<i32>,
) -> bool {
    forall|i: int| 0 <= i < ids.len() ==> #[trigger] series_fits(ledger, ids[i], start, end, today, context)
}

/// Computes the balance of the accounts within a date range.
///
/// For each account (an account listed twice is computed once) the table holds
/// one row per day from `start_date` through `end_date`, and no other rows,
/// with the balance at the end of that day.  The balance runs from the
/// account's latest manual state before `start_date` (or from zero at
/// `start_date`) and takes into account one-off transactions
/// where the account is target (added) or source (subtracted), unreconciled
/// imported transactions, recurring transactions and recurring income (an
/// occurrence before `today` counts only when an instance is recorded for it),
/// and manual states: one within the range sets the balance on its date to its
/// amount.  Only real data and
/// the simulated data of `scenario_context` are seen.  Each balance is the
/// decimal, value and scale, that `rust_decimal`'s sums give when the changes
/// are added in that order ([`balance_amounts`]).  Fails only when a decimal
/// sum overflows, which it never does where every series fits
/// ([`balances_fit`]).
pub fn compute_balance(
    ledger: &Ledger,
    accounts: &Vec<Account>,
    start_date: Date,
    end_date: Date,
    today: Date,
    scenario_context: Option<i32>,
) -> (r: Result<BalanceFrame, ComputeError>)
    requires
        ledger.wf(),
        start_date.wf(),
        end_date.wf(),
        end_date.year < MAX_YEAR - 1,
    ensures
        r matches Ok(f) ==> f.wf() && f.view_rows() == balance_table(
            *ledger,
            account_ids(accounts@),
            start_date,
            end_date,
            today,
            scenario_context,
        ),
        r matches Ok(f) ==> f.rows@.map_values(|x: BalanceRow| x.balance) == balance_amounts(
            *ledger,
            account_ids(accounts@),
            start_date,
            end_date,
            today,
            scenario_context,
        ),
        r matches Err(e) ==> e.is_overflow(),
        balances_fit(*ledger, account_ids(accounts@), start_date, end_date, today, scenario_context) ==> r is Ok,
{
    let mut rows: Vec<BalanceRow> = Vec::new();
    let ghost ids = account_ids(accounts@);
    let mut k: usize = 0;
    while k < accounts.len()
        invariant
            k <= accounts.len(),
            ledger.wf(),
            start_date.wf(),
            end_date.wf(),
            end_date.year < MAX_YEAR - 1,
            ids == account_ids(accounts@),
            forall|i: int| 0 <= i < rows.len() ==> (#[trigger] rows[i]).wf(),
            rows@.map_values(|x: BalanceRow| row_view(x)) == balance_table(
                *ledger,
                ids.take(k as int),
                start_date,
                end_date,
                today,
                scenario_context,
            ),
            rows@.map_values(|x: BalanceRow| x.balance) == balance_amounts(
                *ledger,
                ids.take(k as int),
                start_date,
                end_date,
                today,
                scenario_context,
            ),
        decreases accounts.len() - k,
    {
        let id = accounts[k].id;
        assert(ids.take(k + 1).drop_last() == ids.take(k as int));
        assert(ids.take(k + 1).last() == id);
        if !id_among_first(accounts, k, id) {
            let mut series = match compute_account_series(
                ledger,
                id,
                start_date,
                end_date,
                today,
                scenario_context,
            ) {
                Ok(v) => v,
                Err(e) => {
                    proof {
                        assert(ids[k as int] == id);
                    }
                    return Err(e);
                },
            };
            let ghost old_rows = rows@;
            let ghost added = series@;
            rows.append(&mut series);
            assert(rows@.map_values(|x: BalanceRow| row_view(x)) =~= old_rows.map_values(
                |x: BalanceRow| row_view(x),
            ) + added.map_values(|x: BalanceRow| row_view(x)));
            assert(rows@.map_values(|x: BalanceRow| x.balance) =~= old_rows.map_values(|x: BalanceRow| x.balance)
                + added.map_values(|x: BalanceRow| x.balance));
        }
        k = k + 1;
    }
    assert(ids.take(accounts.len() as int) == ids);
    Ok(BalanceFrame { rows })
}


/// The series of account `a` from `start` through `end` that opens with `init`
/// units and moves by `deltas` (changes dated before `start` or after `end` do
/// not count).
pub open spec fn running_series(
    a: i32,
    start: Date,
    end: Date,
    init: int,
    deltas: Seq<(Date, Amount)>,
) -> Seq<(i32, Date, int)> {
    Seq::new(
        days_through(start, end) as nat,
        |i: int| (a, date_plus(start, i as nat), init + sum_in(deltas, start.days - 1, start.days + i)),
    )
}

/// A series opening with `init` and moving by the changes `deltas` over
/// `[start, end]` can be computed without rounding at scale `scale`: the day
/// totals, taken change by change, fit ([`day_sums_fit_at`]), the opening
/// amount's scale is within `scale`, and each running balance stays within
/// [`units_bound`] at that scale.
pub open spec fn partial_sums_fit_at(init: Amount, deltas: Seq<(Date, Amount)>, start: Date, end: Date, scale: int) -> bool {
    let n = days_through(start, end);
    &&& day_sums_fit_at(deltas, start.days as int, n, scale)
    &&& init.scale <= scale
    &&& forall|i: int|
        0 <= i <= n ==> abs_int(init.units() + #[trigger] sum_in(deltas, start.days - 1, start.days + i - 1))
            <= units_bound(scale)
}

/// A series opening with `init` and moving by the changes `deltas` can be
/// computed exactly at scale `scale`: the changes fit at that scale
/// ([`changes_fit_at`]), and so does the opening amount together with them.
pub open spec fn opening_fits_at(init: Amount, deltas: Seq<(Date, Amount)>, scale: int) -> bool {
    &&& changes_fit_at(deltas, scale)
    &&& init.scale <= scale
    &&& abs_int(aligned(init, scale)) + change_magnitude(deltas, scale) <= MAX_MANTISSA
}

/// The rows of one account from `start_date` through `end_date`, opening with
/// `init` and moving by the given changes.  Fails only when a decimal sum
/// overflows, which it never does where the opening amount and the changes fit
/// at some scale ([`opening_fits_at`]).
pub fn series_from(
    account_id: i32,
    start_date: Date,
    end_date: Date,
    init: Amount,
    deltas: &Vec<(Date, Amount)>,
) -> (r: Result<Vec<BalanceRow>, ComputeError>)
    requires
        start_date.wf(),
        end_date.wf(),
        init.wf(),
        deltas_wf(deltas@),
    ensures
        r matches Ok(rows) ==> {
            &&& rows@.map_values(|x: BalanceRow| row_view(x)) == running_series(
                account_id,
                start_date,
                end_date,
                init.units(),
                deltas@,
            )
            &&& rows@.map_values(|x: BalanceRow| x.balance) == running_amounts_from(init, deltas@, start_date, end_date)
            &&& forall|i: int| 0 <= i < rows.len() ==> (#[trigger] rows[i]).wf()
        },
        r matches Err(e) ==> e.is_overflow(),
        forall|scale: int| #[trigger] opening_fits_at(init, deltas@, scale) ==> r is Ok,
        forall|scale: int| #[trigger] partial_sums_fit_at(init, deltas@, start_date, end_date, scale) ==> r is Ok,
{
    proof {
        crate::calendar::lemma_ordinal_bounds(
            start_date.year as int,
            start_date.month as int,
            start_date.day as int,
        );
        crate::calendar::lemma_ordinal_bounds(
            end_date.year as int,
            end_date.month as int,
            end_date.day as int,
        );
    }
    let n: usize = if end_date.days >= start_date.days {
        (end_date.days as i64 - start_date.days as i64 + 1) as usize
    } else {
        0
    };
    let totals = match daily_totals(deltas, start_date, n) {
        Ok(t) => t,
        Err(e) => {
            return Err(e);
        },
    };
    proof {
        assert forall|scale: int| #[trigger] opening_fits_at(init, deltas@, scale) implies run_fits_at(
            init,
            totals@,
            scale,
        ) by {
            assert(changes_fit_at(deltas@, scale));
        }
        assert(n == days_through(start_date, end_date));
        assert forall|scale: int| #[trigger] partial_sums_fit_at(init, deltas@, start_date, end_date, scale) implies run_partials_fit_at(
            init,
            totals@,
            scale,
        ) by {
            assert(day_sums_fit_at(deltas@, start_date.days as int, n as int, scale));
            assert(deltas@.take(deltas.len() as int) == deltas@);
            assert forall|j: int| 0 <= j < totals.len() implies (#[trigger] totals@[j]).scale <= scale && abs_int(
                totals@[j].units(),
            ) <= units_bound(scale) by {
                assert(abs_int(sum_in(deltas@.take(deltas.len() as int), start_date.days + j - 1, start_date.days + j))
                    <= units_bound(scale));
            }
            assert forall|i: int| 0 <= i <= totals.len() implies abs_int(init.units() + #[trigger] prefix_units(
                totals@,
                i,
            )) <= units_bound(scale) by {
                lemma_prefix_units(deltas@, totals@, start_date.days as int, i);
                assert(abs_int(init.units() + sum_in(deltas@, start_date.days - 1, start_date.days + i - 1))
                    <= units_bound(scale));
            }
        }
    }
    let values = match running_balances(init, &totals) {
        Ok(v) => v,
        Err(e) => {
            return Err(e);
        },
    };
    let mut rows: Vec<BalanceRow> = Vec::new();
    let mut date = start_date;
    let mut i: usize = 0;
    while i < n
        invariant
            i <= n,
            n == totals.len(),
            n == values.len(),
            n == days_through(start_date, end_date),
            rows.len() == i,
            date.wf(),
            end_date.wf(),
            start_date.wf(),
            i < n ==> date == date_plus(start_date, i as nat) && date.days == start_date.days + i,
            forall|j: int|
                0 <= j < n ==> (#[trigger] values[j]).wf() && values[j].units() == init.units()
                    + prefix_units(totals@, j + 1),
            forall|j: int|
                0 <= j < n ==> (#[trigger] totals[j]).units() == sum_in(
                    deltas@,
                    start_date.days + j - 1,
                    start_date.days + j,
                ),
            forall|j: int|
                0 <= j < i ==> (#[trigger] rows[j]).wf() && row_view(rows[j]) == (
                    account_id,
                    date_plus(start_date, j as nat),
                    init.units() + sum_in(deltas@, start_date.days - 1, start_date.days + j),
                ),
            values@ == running_amounts(init, totals@),
            totals@ == day_total_amounts(deltas@, start_date.days as int, n as int),
            forall|j: int| 0 <= j < i ==> (#[trigger] rows@[j]).balance == values@[j],
        decreases n - i,
    {
        proof {
            lemma_prefix_units(deltas@, totals@, start_date.days as int, i + 1);
        }
        let ghost old_rows = rows@;
        rows.push(BalanceRow { account_id, date, balance: values[i] });
        assert(forall|j: int| 0 <= j < i ==> rows@[j] == old_rows[j]);
        if i + 1 < n {
            proof {
                crate::calendar::lemma_not_last(date, end_date);
            }
            let next = chrono_succ(date).unwrap();
            proof {
                crate::calendar::lemma_next_day_value(date, next);
            }
            date = next;
        }
        i = i + 1;
    }
    assert(rows@.map_values(|x: BalanceRow| row_view(x)) =~= running_series(
        account_id,
        start_date,
        end_date,
        init.units(),
        deltas@,
    ));
    assert(rows@.map_values(|x: BalanceRow| x.balance) =~= running_amounts_from(init, deltas@, start_date, end_date));
    Ok(rows)
}

// ---------------------------------------------------------------------------
// Laws of the balance
// ---------------------------------------------------------------------------

/// A transfer moves money: what it adds to the target account is exactly what
/// it takes from the source account.
pub proof fn law_transfer_moves_money(amount: Amount, target: i32, source: i32)
    requires
        amount.wf(),
        target != source,
    ensures
        signed_amount(amount, target, Some(source), target).units() + signed_amount(
            amount,
            target,
            Some(source),
            source,
        ).units() == 0,
{
    vstd::arithmetic::mul::lemma_mul_unary_negation(
        amount.mantissa as int,
        crate::amount::pow10((crate::amount::MAX_SCALE - amount.scale) as nat),
    );
}

/// No state of `s` is dated day `d`.
pub open spec fn no_state_on(s: Seq<ManualAccountState>, d: int) -> bool {
    forall|i: int| 0 <= i < s.len() ==> (#[trigger] s[i]).date.days != d
}

proof fn lemma_states_in_range_none_on(states: Seq<ManualAccountState>, a: i32, start: Date, end: Date, d: int)
    requires
        forall|i: int| 0 <= i < states.len() ==> !((#[trigger] states[i]).account_id == a && states[i].date.days == d),
    ensures
        no_state_on(states_in_range(states, a, start, end), d),
    decreases states.len(),
{
    if states.len() > 0 {
        assert forall|i: int| 0 <= i < states.drop_last().len() implies !((#[trigger] states.drop_last()[i]).account_id
            == a && states.drop_last()[i].date.days == d) by {
            assert(states.drop_last()[i] == states[i]);
        }
        lemma_states_in_range_none_on(states.drop_last(), a, start, end, d);
        assert(states.last() == states[states.len() - 1]);
    }
}

proof fn lemma_insert_none_on(s: Seq<ManualAccountState>, x: ManualAccountState, d: int)
    requires
        no_state_on(s, d),
        x.date.days != d,
    ensures
        no_state_on(crate::sources::insert_by_date(s, x), d),
    decreases s.len(),
{
    if s.len() > 0 && s.last().date.days > x.date.days {
        assert(no_state_on(s.drop_last(), d)) by {
            assert forall|i: int| 0 <= i < s.drop_last().len() implies (#[trigger] s.drop_last()[i]).date.days != d by {
                assert(s.drop_last()[i] == s[i]);
            }
        }
        lemma_insert_none_on(s.drop_last(), x, d);
        assert(s.last() == s[s.len() - 1]);
    }
}

proof fn lemma_sort_none_on(s: Seq<ManualAccountState>, d: int)
    requires
        no_state_on(s, d),
    ensures
        no_state_on(sort_by_date(s), d),
    decreases s.len(),
{
    if s.len() > 0 {
        assert(no_state_on(s.drop_last(), d)) by {
            assert forall|i: int| 0 <= i < s.drop_last().len() implies (#[trigger] s.drop_last()[i]).date.days != d by {
                assert(s.drop_last()[i] == s[i]);
            }
        }
        lemma_sort_none_on(s.drop_last(), d);
        assert(s.last() == s[s.len() - 1]);
        lemma_insert_none_on(sort_by_date(s.drop_last()), s.last(), d);
    }
}

/// Without a manual state of the account on day `d`, its balance at the end of
/// day `d` is its balance at the end of the day before plus the amounts dated
/// `d`.
pub proof fn law_balance_moves_by_the_day_amounts(
    ledger: Ledger,
    a: i32,
    start: Date,
    end: Date,
    today: Date,
    context: Option<i32>,
    d: int,
)
    requires
        series_first(ledger, a, start).days < d,
        forall|i: int|
            0 <= i < ledger.manual_states.len() ==> !((#[trigger] ledger.manual_states@[i]).account_id == a
                && ledger.manual_states@[i].date.days == d),
    ensures
        balance_on(ledger, a, start, end, today, context, d) == balance_on(ledger, a, start, end, today, context, d - 1)
            + sum_in(balance_deltas(ledger, a, series_first(ledger, a, start), end, today, context), d - 1, d),
{
    let states = sort_by_date(states_in_range(ledger.manual_states@, a, start, end));
    let deltas = balance_deltas(ledger, a, series_first(ledger, a, start), end, today, context);
    lemma_states_in_range_none_on(ledger.manual_states@, a, start, end, d);
    lemma_sort_none_on(states_in_range(ledger.manual_states@, a, start, end), d);
    lemma_governing_state_skips(states, d);
    lemma_governing_state_before(states, d - 1);
    match governing_state(states, d - 1) {
        Some(s) => {
            lemma_sum_in_split(deltas, s.date.days as int, d - 1, d);
        },
        None => {
            lemma_sum_in_split(deltas, series_first(ledger, a, start).days - 1, d - 1, d);
        },
    }
}

/// A manual state of the account dated within the range, and the only one of
/// the account on its date, sets the balance at the end of that date to its
/// amount.
pub proof fn law_manual_state_sets_the_balance(
    ledger: Ledger,
    a: i32,
    start: Date,
    end: Date,
    today: Date,
    context: Option<i32>,
    j: int,
)
    requires
        0 <= j < ledger.manual_states.len(),
        ledger.manual_states@[j].account_id == a,
        start.days <= ledger.manual_states@[j].date.days <= end.days,
        forall|i: int|
            0 <= i < ledger.manual_states.len() && (#[trigger] ledger.manual_states@[i]).account_id == a
                && ledger.manual_states@[i].date.days == ledger.manual_states@[j].date.days
                ==> ledger.manual_states@[i] == ledger.manual_states@[j],
    ensures
        balance_on(ledger, a, start, end, today, context, ledger.manual_states@[j].date.days as int)
            == ledger.manual_states@[j].amount.units(),
{
    let s = ledger.manual_states@[j];
    let d = s.date.days as int;
    let inr = states_in_range(ledger.manual_states@, a, start, end);
    let states = sort_by_date(inr);
    lemma_states_in_range(ledger.manual_states@, a, start, end);
    lemma_sort_by_date(inr);
    assert(inr.contains(s));
    assert(states.contains(s));
    assert forall|k: int| 0 <= k < states.len() && (#[trigger] states[k]).date.days == d implies states[k] == s by {
        assert(inr.contains(states[k]));
        let w = choose|w: int| 0 <= w < inr.len() && inr[w] == states[k];
        assert(ledger.manual_states@.contains(inr[w]));
        let i = choose|i: int| 0 <= i < ledger.manual_states.len() && ledger.manual_states@[i] == inr[w];
        assert(ledger.manual_states@[i].account_id == a);
    }
    lemma_governing_state_on(states, s, d);
    let deltas = balance_deltas(ledger, a, series_first(ledger, a, start), end, today, context);
    lemma_sum_in_empty(deltas, d);
}

/// In a date-sorted sequence holding `s`, where `s` is the only element dated
/// `d == s.date`, the state governing day `d` is `s`.
proof fn lemma_governing_state_on(states: Seq<ManualAccountState>, s: ManualAccountState, d: int)
    requires
        sorted_by_date(states),
        states.contains(s),
        s.date.days == d,
        forall|k: int| 0 <= k < states.len() && (#[trigger] states[k]).date.days == d ==> states[k] == s,
    ensures
        governing_state(states, d) == Some(s),
    decreases states.len(),
{
    let w = choose|w: int| 0 <= w < states.len() && states[w] == s;
    let last = states.len() - 1;
    assert(states[last] == states.last());
    if states.last().date.days <= d {
        assert(states[w].date.days <= states[last].date.days);
    } else {
        let p = states.drop_last();
        assert(w != last);
        assert(p[w] == s);
        assert forall|k: int| 0 <= k < p.len() && (#[trigger] p[k]).date.days == d implies p[k] == s by {
            assert(p[k] == states[k]);
        }
        assert(sorted_by_date(p)) by {
            assert forall|i: int, k: int| 0 <= i < k < p.len() implies p[i].date.days <= p[k].date.days by {
                assert(p[i] == states[i] && p[k] == states[k]);
            }
        }
        lemma_governing_state_on(p, s, d);
    }
}

proof fn lemma_governing_state_skips(states: Seq<ManualAccountState>, d: int)
    requires
        forall|i: int| 0 <= i < states.len() ==> (#[trigger] states[i]).date.days != d,
    ensures
        governing_state(states, d) == governing_state(states, d - 1),
    decreases states.len(),
{
    if states.len() > 0 {
        assert(states.last() == states[states.len() - 1]);
        assert forall|i: int| 0 <= i < states.drop_last().len() implies (#[trigger] states.drop_last()[i]).date.days
            != d by {
            assert(states.drop_last()[i] == states[i]);
        }
        lemma_governing_state_skips(states.drop_last(), d);
    }
}

proof fn lemma_governing_state_before(states: Seq<ManualAccountState>, d: int)
    ensures
        governing_state(states, d) matches Some(s) ==> s.date.days <= d,
    decreases states.len(),
{
    if states.len() > 0 {
        lemma_governing_state_before(states.drop_last(), d);
    }
}

proof fn lemma_per_account_table_ext(
    ids: Seq<i32>,
    f: spec_fn(i32) -> Seq<(i32, Date, int)>,
    g: spec_fn(i32) -> Seq<(i32, Date, int)>,
)
    requires
        forall|a: i32| ids.contains(a) ==> f(a) == g(a),
    ensures
        per_account_table(ids, f) == per_account_table(ids, g),
    decreases ids.len(),
{
    if ids.len() > 0 {
        assert forall|a: i32| ids.drop_last().contains(a) implies f(a) == g(a) by {
            let i = choose|i: int| 0 <= i < ids.drop_last().len() && ids.drop_last()[i] == a;
            assert(ids[i] == a);
            assert(ids.contains(a));
        }
        lemma_per_account_table_ext(ids.drop_last(), f, g);
        assert(ids[ids.len() - 1] == ids.last());
        assert(ids.contains(ids.last()));
    }
}

/// The two ledgers hold the same data apart from the one-off and recurring
/// transactions.
pub open spec fn same_besides_transactions(ledger: Ledger, other: Ledger) -> bool {
    &&& other.manual_states@ == ledger.manual_states@
    &&& other.imported_transactions@ == ledger.imported_transactions@
    &&& other.recurring_incomes@ == ledger.recurring_incomes@
    &&& other.instances@ == ledger.instances@
}

/// Simulated (what-if) data does not change the real balances: the balance
/// table computed without a scenario is the same after a simulated one-off or
/// recurring transaction is added.
pub proof fn law_simulated_transactions_leave_real_balances(
    ledger: Ledger,
    with: Ledger,
    ids: Seq<i32>,
    start: Date,
    end: Date,
    today: Date,
)
    requires
        same_besides_transactions(ledger, with),
        (exists|t: OneOffTransaction|
            t.is_simulated && with.one_off_transactions@ == #[trigger] ledger.one_off_transactions@.push(t))
            && with.recurring_transactions@ == ledger.recurring_transactions@ || (exists|t: RecurringTransaction|
            t.is_simulated && with.recurring_transactions@ == #[trigger] ledger.recurring_transactions@.push(t))
            && with.one_off_transactions@ == ledger.one_off_transactions@,
    ensures
        balance_table(with, ids, start, end, today, None) == balance_table(ledger, ids, start, end, today, None),
{
    assert forall|a: i32, from: Date, upto: Date|
        #[trigger] balance_deltas(with, a, from, upto, today, None) == balance_deltas(
            ledger,
            a,
            from,
            upto,
            today,
            None,
        ) by {
        let po = |t: OneOffTransaction| one_off_selected(t, a, from, upto);
        let pr = |t: RecurringTransaction| recurring_selected(t, a, from, upto, None);
        if exists|t: OneOffTransaction|
            t.is_simulated && with.one_off_transactions@ == #[trigger] ledger.one_off_transactions@.push(t) {
            let t = choose|t: OneOffTransaction|
                t.is_simulated && with.one_off_transactions@ == #[trigger] ledger.one_off_transactions@.push(t);
            ledger.one_off_transactions@.lemma_filter_push(t, po);
            if po(t) {
                let s = ledger.one_off_transactions@.filter(po).push(t);
                assert(s.drop_last() == ledger.one_off_transactions@.filter(po));
            }
        }
        if exists|t: RecurringTransaction|
            t.is_simulated && with.recurring_transactions@ == #[trigger] ledger.recurring_transactions@.push(t) {
            let t = choose|t: RecurringTransaction|
                t.is_simulated && with.recurring_transactions@ == #[trigger] ledger.recurring_transactions@.push(t);
            ledger.recurring_transactions@.lemma_filter_push(t, pr);
        }
    }
    let f = |a: i32| account_series(with, a, start, end, today, None);
    let g = |a: i32| account_series(ledger, a, start, end, today, None);
    assert forall|a: i32| ids.contains(a) implies f(a) == g(a) by {
        let first = series_first(ledger, a, start);
        assert(balance_deltas(with, a, first, end, today, None) == balance_deltas(ledger, a, first, end, today, None));
        assert(account_series(with, a, start, end, today, None) =~= account_series(ledger, a, start, end, today, None));
    }
    lemma_per_account_table_ext(ids, f, g);
}

/// Sums over a concatenation are the sums over its parts.
pub proof fn lemma_sum_in_concat(x: Seq<(Date, Amount)>, y: Seq<(Date, Amount)>, lo: int, hi: int)
    ensures
        sum_in(x + y, lo, hi) == sum_in(x, lo, hi) + sum_in(y, lo, hi),
    decreases y.len(),
{
    if y.len() == 0 {
        assert(x + y == x);
    } else {
        lemma_sum_in_concat(x, y.drop_last(), lo, hi);
        assert((x + y).drop_last() == x + y.drop_last());
        assert((x + y).last() == y.last());
    }
}

/// The latest state before a date is a state of the account dated before it.
proof fn lemma_latest_state_before(states: Seq<ManualAccountState>, a: i32, before: Date)
    ensures
        latest_state(states, a, before) matches Some(s) ==> s.account_id == a && s.date.days < before.days,
    decreases states.len(),
{
    if states.len() > 0 {
        lemma_latest_state_before(states.drop_last(), a, before);
    }
}

/// Adding the one-off transaction `t` to the data adds, to the balance changes
/// of any account `x` from `first` on, the amount `t` brings to `x` on
/// `t`'s date (zero for an account it does not touch).
proof fn lemma_transfer_deltas(
    ledger: Ledger,
    with: Ledger,
    t: OneOffTransaction,
    x: i32,
    first: Date,
    end: Date,
    today: Date,
    context: Option<i32>,
    lo: int,
    hi: int,
)
    requires
        same_besides_transactions(ledger, with),
        with.recurring_transactions@ == ledger.recurring_transactions@,
        with.one_off_transactions@ == ledger.one_off_transactions@.push(t),
        visible_in(t.is_simulated, t.scenario_id, context),
        first.days <= t.date.days <= end.days,
    ensures
        sum_in(balance_deltas(with, x, first, end, today, context), lo, hi) == sum_in(
            balance_deltas(ledger, x, first, end, today, context),
            lo,
            hi,
        ) + (if lo < t.date.days <= hi {
            signed_amount(t.amount, t.target_account_id, t.source_account_id, x).units()
        } else {
            0
        }),
{
    let po = |u: OneOffTransaction| one_off_selected(u, x, first, end);
    ledger.one_off_transactions@.lemma_filter_push(t, po);
    let f = ledger.one_off_transactions@.filter(po);
    let rest1 = imported_deltas(
        ledger.imported_transactions@.filter(|u: ImportedTransaction| imported_selected(u, x, first, end)),
    );
    let rest2 = recurring_deltas(
        transaction_pairs(
            ledger.recurring_transactions@.filter(
                |u: RecurringTransaction| recurring_selected(u, x, first, end, context),
            ),
            ledger.instances@,
            first,
            end,
            today,
        ),
        x,
    );
    let rest3 = income_deltas(
        income_pairs(
            ledger.recurring_incomes@.filter(|u: RecurringIncome| income_selected(u, x, first, end, context)),
            ledger.instances@,
            first,
            end,
            today,
        ),
        x,
    );
    let o1 = one_off_deltas(f, x, context);
    assert(balance_deltas(ledger, x, first, end, today, context) == o1 + rest1 + rest2 + rest3);
    lemma_sum_in_concat(o1 + rest1 + rest2, rest3, lo, hi);
    lemma_sum_in_concat(o1 + rest1, rest2, lo, hi);
    lemma_sum_in_concat(o1, rest1, lo, hi);
    if po(t) {
        assert(f.push(t).drop_last() == f);
        let o2 = one_off_deltas(f.push(t), x, context);
        assert(o2 == o1.push((t.date, signed_amount(t.amount, t.target_account_id, t.source_account_id, x))));
        assert(o2.drop_last() == o1);
        assert(balance_deltas(with, x, first, end, today, context) == o2 + rest1 + rest2 + rest3);
        lemma_sum_in_concat(o2 + rest1 + rest2, rest3, lo, hi);
        lemma_sum_in_concat(o2 + rest1, rest2, lo, hi);
        lemma_sum_in_concat(o2, rest1, lo, hi);
    } else {
        assert(balance_deltas(with, x, first, end, today, context) == balance_deltas(
            ledger,
            x,
            first,
            end,
            today,
            context,
        ));
        assert(signed_amount(t.amount, t.target_account_id, t.source_account_id, x) == zero_amount());
    }
}

/// Adding the one-off transaction `t` changes the balance of an account `x`
/// on day `d` by the amount `t` brings to `x` when `t` is dated on or before
/// `d`, provided that no manual state of `x` is dated from `t`'s date through
/// `d` (or that `t` does not touch `x`).
proof fn lemma_transfer_balance(
    ledger: Ledger,
    with: Ledger,
    t: OneOffTransaction,
    x: i32,
    start: Date,
    end: Date,
    today: Date,
    context: Option<i32>,
    d: int,
)
    requires
        same_besides_transactions(ledger, with),
        with.recurring_transactions@ == ledger.recurring_transactions@,
        with.one_off_transactions@ == ledger.one_off_transactions@.push(t),
        visible_in(t.is_simulated, t.scenario_id, context),
        start.days <= t.date.days <= end.days,
        signed_amount(t.amount, t.target_account_id, t.source_account_id, x).units() != 0 ==> forall|i: int|
            0 <= i < ledger.manual_states.len() && (#[trigger] ledger.manual_states@[i]).account_id == x
                ==> !(t.date.days <= ledger.manual_states@[i].date.days <= d),
    ensures
        balance_on(with, x, start, end, today, context, d) == balance_on(ledger, x, start, end, today, context, d)
            + (if t.date.days <= d {
            signed_amount(t.amount, t.target_account_id, t.source_account_id, x).units()
        } else {
            0
        }),
{
    let first = series_first(ledger, x, start);
    lemma_latest_state_before(ledger.manual_states@, x, start);
    assert(series_first(with, x, start) == first);
    assert(series_init(with, x, start) == series_init(ledger, x, start));
    let inr = states_in_range(ledger.manual_states@, x, start, end);
    let states = sort_by_date(inr);
    assert(states_in_range(with.manual_states@, x, start, end) == inr);
    let dl = balance_deltas(ledger, x, first, end, today, context);
    let dw = balance_deltas(with, x, first, end, today, context);
    let delta = signed_amount(t.amount, t.target_account_id, t.source_account_id, x).units();
    match governing_state(states, d) {
        Some(s) => {
            lemma_transfer_deltas(ledger, with, t, x, first, end, today, context, s.date.days as int, d);
            if delta != 0 && t.date.days <= d {
                lemma_governing_state(states, d);
                lemma_sort_by_date(inr);
                lemma_states_in_range(ledger.manual_states@, x, start, end);
                assert(inr.contains(s));
                let i = choose|i: int| 0 <= i < ledger.manual_states.len() && ledger.manual_states@[i] == s;
                assert(ledger.manual_states@[i].account_id == x);
            }
        },
        None => {
            lemma_transfer_deltas(ledger, with, t, x, first, end, today, context, first.days - 1, d);
        },
    }
}

/// Double entry: adding a visible transfer of `t.amount` from account `a` into
/// account `b` (its source and target), dated within the range, raises the
/// balance of `b` and lowers that of `a` by the transfer's amount on every day
/// `d` from the transfer's date on, and changes neither before it, so that
/// together the two balances stay the same: money is moved, never created or
/// destroyed.  This holds wherever neither account has a manual state dated
/// from the transfer's date through `d` (such a state sets the balance
/// instead).  The rows of every other account are unchanged.
pub proof fn law_transfer_moves_balances(
    ledger: Ledger,
    with: Ledger,
    t: OneOffTransaction,
    start: Date,
    end: Date,
    today: Date,
    context: Option<i32>,
    d: int,
)
    requires
        same_besides_transactions(ledger, with),
        with.recurring_transactions@ == ledger.recurring_transactions@,
        with.one_off_transactions@ == ledger.one_off_transactions@.push(t),
        t.amount.wf(),
        t.source_account_id matches Some(a) && a != t.target_account_id,
        visible_in(t.is_simulated, t.scenario_id, context),
        start.days <= t.date.days <= end.days,
        forall|i: int|
            0 <= i < ledger.manual_states.len() && ((#[trigger] ledger.manual_states@[i]).account_id
                == t.target_account_id || Some(ledger.manual_states@[i].account_id) == t.source_account_id)
                ==> !(t.date.days <= ledger.manual_states@[i].date.days <= d),
    ensures
        balance_on(with, t.target_account_id, start, end, today, context, d) == balance_on(
            ledger,
            t.target_account_id,
            start,
            end,
            today,
            context,
            d,
        ) + (if t.date.days <= d { t.amount.units() } else { 0 }),
        balance_on(with, t.source_account_id.unwrap(), start, end, today, context, d) == balance_on(
            ledger,
            t.source_account_id.unwrap(),
            start,
            end,
            today,
            context,
            d,
        ) - (if t.date.days <= d { t.amount.units() } else { 0 }),
        balance_on(with, t.target_account_id, start, end, today, context, d) + balance_on(
            with,
            t.source_account_id.unwrap(),
            start,
            end,
            today,
            context,
            d,
        ) == balance_on(ledger, t.target_account_id, start, end, today, context, d) + balance_on(
            ledger,
            t.source_account_id.unwrap(),
            start,
            end,
            today,
            context,
            d,
        ),
        forall|x: i32|
            x != t.target_account_id && Some(x) != t.source_account_id ==> #[trigger] account_series(
                with,
                x,
                start,
                end,
                today,
                context,
            ) == account_series(ledger, x, start, end, today, context),
{
    let b = t.target_account_id;
    let a = t.source_account_id.unwrap();
    law_transfer_moves_money(t.amount, b, a);
    assert(signed_amount(t.amount, b, Some(a), b) == t.amount);
    lemma_transfer_balance(ledger, with, t, b, start, end, today, context, d);
    lemma_transfer_balance(ledger, with, t, a, start, end, today, context, d);
    assert forall|x: i32| x != t.target_account_id && Some(x) != t.source_account_id implies #[trigger] account_series(
        with,
        x,
        start,
        end,
        today,
        context,
    ) == account_series(ledger, x, start, end, today, context) by {
        assert(signed_amount(t.amount, b, Some(a), x) == zero_amount());
        assert forall|i: int| 0 <= i < days_through(start, end) implies #[trigger] balance_on(
            with,
            x,
            start,
            end,
            today,
            context,
            start.days + i,
        ) == balance_on(ledger, x, start, end, today, context, start.days + i) by {
            lemma_transfer_balance(ledger, with, t, x, start, end, today, context, start.days + i);
        }
        assert(account_series(with, x, start, end, today, context) =~= account_series(
            ledger,
            x,
            start,
            end,
            today,
            context,
        ));
    }
}

} // verus!
