//! Financial metrics of accounts: monthly equivalents of recurring amounts,
//! net flows, balances at a date, net inflows and the volatility of flows.

use crate::account_stats::{
    insert_row, lemma_insert_row_members, rise_sum, sort_rows, step_totals, steps_fit, steps_fit_at, insert_row_position,
};
use crate::amount::{
    abs_int, decimal_difference, decimal_product, decimal_quotient, decimal_sum, lemma_exact_step,
    sums_exactly_at, units_sum, Amount,
};
use crate::balance::{BalanceFrame, BalanceRow};
use crate::calendar::Date;
use crate::error::ComputeError;
use crate::model::RecurringTransaction;
use crate::recurrence::RecurrencePeriod;
use vstd::prelude::*;

verus! {

broadcast use vstd::seq_lib::group_seq_properties;

/// The recurring transaction is real (not simulated) and active on the date:
/// started on or before it and not ended before it.
pub open spec fn active_on(r: RecurringTransaction, date: Date) -> bool {
    &&& !r.is_simulated
    &&& r.start_date.days <= date.days
    &&& r.end_date matches Some(e) ==> e.days >= date.days
}

/// Filters recurring transactions to those active on the given date; simulated
/// (what-if) transactions are always excluded.
pub fn filter_active_recurring(transactions: &Vec<RecurringTransaction>, date: Date) -> (r: Vec<
    RecurringTransaction,
>)
    ensures
        r@ == transactions@.filter(|t: RecurringTransaction| active_on(t, date)),
{
    let ghost pred = |t: RecurringTransaction| active_on(t, date);
    let mut r: Vec<RecurringTransaction> = Vec::new();
    let mut i: usize = 0;
    while i < transactions.len()
        invariant
            pred == (|t: RecurringTransaction| active_on(t, date)),
            i <= transactions.len(),
            r@ == transactions@.take(i as int).filter(pred),
        decreases transactions.len() - i,
    {
        let t = transactions[i];
        proof {
            assert(transactions@.take(i + 1) == transactions@.take(i as int).push(t));
            transactions@.take(i as int).lemma_filter_push(t, pred);
        }
        let not_ended = match t.end_date {
            Some(e) => e.days >= date.days,
            None => true,
        };
        if !t.is_simulated && t.start_date.days <= date.days && not_ended {
            r.push(t);
        }
        i = i + 1;
    }
    assert(transactions@.take(transactions.len() as int) == transactions@);
    r
}

/// A whole number as a decimal.
pub open spec fn whole(n: int) -> Amount {
    Amount { mantissa: n as i128, scale: 0 }
}

/// The number of months a period is worth, as computed with decimals: about
/// 30.44 days, 52.18 / 12 weeks, 21.74 work days, one month, a third of a
/// quarter, a sixth of a half-year, a twelfth of a year.
pub open spec fn period_factor(period: RecurrencePeriod) -> Option<Amount> {
    match period {
        RecurrencePeriod::Daily => Some(Amount { mantissa: 3044, scale: 2 }),
        RecurrencePeriod::Weekly => decimal_quotient(Amount { mantissa: 5218, scale: 2 }, whole(12)),
        RecurrencePeriod::WorkDay => Some(Amount { mantissa: 2174, scale: 2 }),
        RecurrencePeriod::Monthly => Some(whole(1)),
        RecurrencePeriod::Quarterly => decimal_quotient(whole(1), whole(3)),
        RecurrencePeriod::HalfYearly => decimal_quotient(whole(1), whole(6)),
        RecurrencePeriod::Yearly => decimal_quotient(whole(1), whole(12)),
    }
}

/// A day is worth 30.44 / 1 of a month's days, a work day 21.74, a week 52.18
/// / 12 (as exactly as `rust_decimal` divides 52.18 by 12, `qw`).  The monthly
/// factor of a period worth several months is one over that number of
/// months: exactly one for a monthly amount, and for a quarter, a
/// half-year and a year the factor times 3, 6 or 12 is one, as exactly as
/// `rust_decimal` divides one by that number: where its quotients `q3`, `q6`
/// and `q12` are within one unit (`10^-28`) per month of the exact ones, so
/// are the factors.  A monthly equivalent ([`monthly_equivalent`]) is the
/// amount times this factor.
pub proof fn law_monthly_factors_divide_the_period(q3: Amount, q6: Amount, q12: Amount, qw: Amount)
    requires
        decimal_quotient(Amount { mantissa: 5218, scale: 2 }, whole(12)) == Some(qw),
        abs_int(12 * qw.units() - Amount { mantissa: 5218, scale: 2 }.units()) <= 12,
        decimal_quotient(whole(1), whole(3)) == Some(q3),
        abs_int(3 * q3.units() - whole(1).units()) <= 3,
        decimal_quotient(whole(1), whole(6)) == Some(q6),
        abs_int(6 * q6.units() - whole(1).units()) <= 6,
        decimal_quotient(whole(1), whole(12)) == Some(q12),
        abs_int(12 * q12.units() - whole(1).units()) <= 12,
    ensures
        period_factor(RecurrencePeriod::Monthly) matches Some(f) && f.units() == whole(1).units(),
        period_factor(RecurrencePeriod::Daily) matches Some(f) && 100 * f.units() == 3044 * whole(1).units(),
        period_factor(RecurrencePeriod::WorkDay) matches Some(f) && 100 * f.units() == 2174 * whole(1).units(),
        period_factor(RecurrencePeriod::Weekly) matches Some(f) && abs_int(12 * f.units() - Amount {
            mantissa: 5218,
            scale: 2,
        }.units()) <= 12,
        period_factor(RecurrencePeriod::Quarterly) matches Some(f) && abs_int(3 * f.units() - whole(1).units())
            <= 3,
        period_factor(RecurrencePeriod::HalfYearly) matches Some(f) && abs_int(6 * f.units() - whole(1).units())
            <= 6,
        period_factor(RecurrencePeriod::Yearly) matches Some(f) && abs_int(12 * f.units() - whole(1).units())
            <= 12,
{
    let p26 = crate::amount::pow10(26);
    assert(crate::amount::pow10(28) == 100 * p26) by {
        reveal_with_fuel(crate::amount::pow10, 3);
    }
    assert(100 * (3044 * p26) == 3044 * (100 * p26)) by (nonlinear_arith);
    assert(100 * (2174 * p26) == 2174 * (100 * p26)) by (nonlinear_arith);
    assert(((crate::amount::MAX_SCALE - 2) as nat) == 26nat);
    assert(((crate::amount::MAX_SCALE - 0) as nat) == 28nat);
    assert(whole(1).units() == 1 * crate::amount::pow10(28));
    assert(Amount { mantissa: 3044, scale: 2 }.units() == 3044 * p26);
    assert(Amount { mantissa: 2174, scale: 2 }.units() == 2174 * p26);
}

/// Converts a per-period amount to its monthly equivalent: the amount times
/// [`period_factor`].  `None` when a decimal operation overflows.
pub fn monthly_equivalent(amount: Amount, period: RecurrencePeriod) -> (r: Option<Amount>)
    requires
        amount.wf(),
    ensures
        r == (match period_factor(period) {
            Some(f) => decimal_product(amount, f),
            None => None,
        }),
        r matches Some(x) ==> x.wf(),
{
    let one = Amount::from_int(1);
    let factor = match period {
        RecurrencePeriod::Daily => Some(Amount::new(3044, 2)),
        RecurrencePeriod::Weekly => Amount::new(5218, 2).checked_div(&Amount::from_int(12)),
        RecurrencePeriod::WorkDay => Some(Amount::new(2174, 2)),
        RecurrencePeriod::Monthly => Some(one),
        RecurrencePeriod::Quarterly => one.checked_div(&Amount::from_int(3)),
        RecurrencePeriod::HalfYearly => one.checked_div(&Amount::from_int(6)),
        RecurrencePeriod::Yearly => one.checked_div(&Amount::from_int(12)),
    };
    match factor {
        Some(f) => amount.checked_mul(&f),
        None => None,
    }
}

// ---------------------------------------------------------------------------
// Balances and flows of a table
// ---------------------------------------------------------------------------

/// The first row dated within `[start, end]` with the earliest date.
pub open spec fn earliest_in(rows: Seq<BalanceRow>, start: int, end: int) -> Option<BalanceRow>
    decreases rows.len(),
{
    if rows.len() == 0 {
        None
    } else {
        let prev = earliest_in(rows.drop_last(), start, end);
        let x = rows.last();
        if x.date.days < start || x.date.days > end {
            prev
        } else {
            match prev {
                None => Some(x),
                Some(p) => if x.date.days < p.date.days {
                    Some(x)
                } else {
                    prev
                },
            }
        }
    }
}

/// The first row dated within `[start, end]` with the latest date.
pub open spec fn latest_in(rows: Seq<BalanceRow>, start: int, end: int) -> Option<BalanceRow>
    decreases rows.len(),
{
    if rows.len() == 0 {
        None
    } else {
        let prev = latest_in(rows.drop_last(), start, end);
        let x = rows.last();
        if x.date.days < start || x.date.days > end {
            prev
        } else {
            match prev {
                None => Some(x),
                Some(p) => if x.date.days > p.date.days {
                    Some(x)
                } else {
                    prev
                },
            }
        }
    }
}

proof fn lemma_extremes_in(rows: Seq<BalanceRow>, start: int, end: int)
    requires
        forall|i: int| 0 <= i < rows.len() ==> (#[trigger] rows[i]).wf(),
    ensures
        earliest_in(rows, start, end) is Some <==> latest_in(rows, start, end) is Some,
        earliest_in(rows, start, end) matches Some(p) ==> p.wf(),
        latest_in(rows, start, end) matches Some(p) ==> p.wf(),
    decreases rows.len(),
{
    if rows.len() > 0 {
        lemma_extremes_in(rows.drop_last(), start, end);
        assert(rows.last() == rows[rows.len() - 1]);
    }
}

/// The net flow of a period as a decimal: the balance of the latest row within
/// `[start, end]` minus that of the earliest one, or zero without such rows;
/// `None` when the difference does not fit.
pub open spec fn flow_of(rows: Seq<BalanceRow>, start: int, end: int) -> Option<Amount> {
    match (earliest_in(rows, start, end), latest_in(rows, start, end)) {
        (Some(a), Some(b)) => decimal_difference(b.balance, a.balance),
        _ => Some(Amount { mantissa: 0, scale: 0 }),
    }
}

/// The net flow of the rows over `[start_date, end_date]` ([`flow_of`]).
pub fn flow_between(rows: &Vec<BalanceRow>, start_date: Date, end_date: Date) -> (r: Result<Amount, ComputeError>)
    requires
        forall|i: int| 0 <= i < rows.len() ==> (#[trigger] rows@[i]).wf(),
    ensures
        r matches Ok(v) ==> flow_of(rows@, start_date.days as int, end_date.days as int) == Some(v) && v.wf(),
        r matches Err(e) ==> e.is_overflow() && flow_of(rows@, start_date.days as int, end_date.days as int) is None,
{
    let ghost (s, e) = (start_date.days as int, end_date.days as int);
    let mut earliest: Option<BalanceRow> = None;
    let mut latest: Option<BalanceRow> = None;
    let mut i: usize = 0;
    while i < rows.len()
        invariant
            i <= rows.len(),
            forall|q: int| 0 <= q < rows.len() ==> (#[trigger] rows@[q]).wf(),
            s == start_date.days,
            e == end_date.days,
            earliest == earliest_in(rows@.take(i as int), s, e),
            latest == latest_in(rows@.take(i as int), s, e),
        decreases rows.len() - i,
    {
        let x = rows[i];
        assert(rows@.take(i + 1).drop_last() == rows@.take(i as int));
        assert(rows@.take(i + 1).last() == x);
        if start_date.days <= x.date.days && x.date.days <= end_date.days {
            match earliest {
                Some(p) => {
                    if x.date.days < p.date.days {
                        earliest = Some(x);
                    }
                },
                None => {
                    earliest = Some(x);
                },
            }
            match latest {
                Some(p) => {
                    if x.date.days > p.date.days {
                        latest = Some(x);
                    }
                },
                None => {
                    latest = Some(x);
                },
            }
        }
        i = i + 1;
    }
    assert(rows@.take(rows.len() as int) == rows@);
    proof {
        lemma_extremes_in(rows@, s, e);
    }
    match (earliest, latest) {
        (Some(a), Some(b)) => match b.balance.sub_rounded(&a.balance) {
            Some(v) => Ok(v),
            None => Err(ComputeError::decimal_overflow()),
        },
        _ => Ok(Amount::zero()),
    }
}

/// The net flow of a period: the balance of the latest row dated within
/// `[start_date, end_date]` minus that of the earliest one, or zero when no row
/// lies within the period.  Fails only when the difference overflows.
pub fn extract_net_flow_from_df(frame: &BalanceFrame, start_date: Date, end_date: Date) -> (r: Result<
    Amount,
    ComputeError,
>)
    requires
        frame.wf(),
    ensures
        r matches Ok(v) ==> flow_of(frame.rows@, start_date.days as int, end_date.days as int) == Some(v)
            && v.wf(),
        r matches Err(e) ==> e.is_overflow() && flow_of(frame.rows@, start_date.days as int, end_date.days as int)
            is None,
{
    flow_between(&frame.rows, start_date, end_date)
}

/// The balance of the latest row dated on or before `target`, if any (the first
/// such row among rows on the same date).
pub open spec fn balance_until(rows: Seq<BalanceRow>, target: Date) -> Option<Amount> {
    match latest_in(rows, i32::MIN as int, target.days as int) {
        Some(p) => Some(p.balance),
        None => None,
    }
}

proof fn lemma_latest_in_member(rows: Seq<BalanceRow>, start: int, end: int)
    ensures
        latest_in(rows, start, end) matches Some(p) ==> rows.contains(p),
    decreases rows.len(),
{
    if rows.len() > 0 {
        lemma_latest_in_member(rows.drop_last(), start, end);
        if let Some(p) = latest_in(rows.drop_last(), start, end) {
            let i = choose|i: int| 0 <= i < rows.drop_last().len() && rows.drop_last()[i] == p;
            assert(rows[i] == p);
        }
        assert(rows[rows.len() - 1] == rows.last());
    }
}

/// A balance of well-formed rows is well formed.
pub proof fn lemma_balance_until_wf(rows: Seq<BalanceRow>, target: Date)
    requires
        forall|i: int| 0 <= i < rows.len() ==> (#[trigger] rows[i]).wf(),
    ensures
        balance_until(rows, target) matches Some(b) ==> b.wf(),
{
    lemma_latest_in_member(rows, i32::MIN as int, target.days as int);
    if let Some(p) = latest_in(rows, i32::MIN as int, target.days as int) {
        let i = choose|i: int| 0 <= i < rows.len() && rows[i] == p;
        assert(rows[i].wf());
    }
}

/// The balance of the rows at `target` ([`balance_until`]).
pub fn balance_on_or_before(rows: &Vec<BalanceRow>, target: Date) -> (r: Option<Amount>)
    ensures
        r == balance_until(rows@, target),
{
    let mut best: Option<BalanceRow> = None;
    let mut i: usize = 0;
    while i < rows.len()
        invariant
            i <= rows.len(),
            best == latest_in(rows@.take(i as int), i32::MIN as int, target.days as int),
        decreases rows.len() - i,
    {
        let x = rows[i];
        assert(rows@.take(i + 1).drop_last() == rows@.take(i as int));
        assert(rows@.take(i + 1).last() == x);
        if x.date.days <= target.days {
            match best {
                Some(p) => {
                    if x.date.days > p.date.days {
                        best = Some(x);
                    }
                },
                None => {
                    best = Some(x);
                },
            }
        }
        i = i + 1;
    }
    assert(rows@.take(rows.len() as int) == rows@);
    match best {
        Some(p) => Some(p.balance),
        None => None,
    }
}

/// The balance of the latest row dated on or before `target`, if any (the
/// first such row among rows on the same date).
pub fn extract_balance_at_date(frame: &BalanceFrame, target: Date) -> (r: Option<Amount>)
    ensures
        r == balance_until(frame.rows@, target),
{
    balance_on_or_before(&frame.rows, target)
}

/// Sum of all increases between consecutive balances of the table in date order
/// (rows on the same date keep their order): an approximation of the inflows.
/// Fails only when a decimal operation overflows, which it never does where the
/// changes of the ordered balances can be added up exactly ([`steps_fit`]).
pub fn compute_net_inflows(frame: &BalanceFrame) -> (r: Result<Amount, ComputeError>)
    requires
        frame.wf(),
    ensures
        r matches Ok(v) ==> v.wf() && v.units() == rise_sum(sort_rows(frame.rows@)),
        r matches Err(e) ==> e.is_overflow(),
        steps_fit(sort_rows(frame.rows@)) ==> r is Ok,
{
    let mut points: Vec<BalanceRow> = Vec::new();
    let mut i: usize = 0;
    while i < frame.rows.len()
        invariant
            i <= frame.rows.len(),
            frame.wf(),
            points@ == sort_rows(frame.rows@.take(i as int)),
            forall|q: int| 0 <= q < points.len() ==> (#[trigger] points@[q]).wf(),
        decreases frame.rows.len() - i,
    {
        let x = frame.rows[i];
        assert(frame.rows@.take(i + 1).drop_last() == frame.rows@.take(i as int));
        assert(frame.rows@.take(i + 1).last() == x);
        assert(frame.rows@[i as int].wf());
        let pos = insert_row_position(&points, &x);
        let ghost before = points@;
        proof {
            lemma_insert_row_members(before, x);
        }
        points.insert(pos, x);
        proof {
            assert forall|q: int| 0 <= q < points.len() implies (#[trigger] points@[q]).wf() by {
                assert(points@[q] == insert_row(before, x)[q]);
                if points@[q] != x {
                    let w = choose|w: int| 0 <= w < before.len() && before[w] == points@[q];
                }
            }
        }
        i = i + 1;
    }
    assert(frame.rows@.take(frame.rows.len() as int) == frame.rows@);
    proof {
        if steps_fit(points@) {
            let scale = choose|scale: int| steps_fit_at(points@, scale);
            assert(steps_fit_at(points@, scale));
        }
    }
    match step_totals(&points) {
        Ok((sum_pos, _, _, _)) => Ok(sum_pos),
        Err(e) => Err(e),
    }
}

// ---------------------------------------------------------------------------
// Volatility
// ---------------------------------------------------------------------------

/// The decimal two.
pub open spec fn two() -> Amount {
    Amount { mantissa: 2, scale: 0 }
}

/// The step below which the square root iteration stops: `10^-10`.
pub open spec fn sqrt_tolerance() -> Amount {
    Amount { mantissa: 1, scale: 10 }
}

/// Newton's iteration for the square root of `value` from `guess`, with `k`
/// steps taken: each step replaces the guess by `(guess + value / guess) / 2`;
/// it stops at a zero guess (giving zero), once a step changes the guess by less
/// than [`sqrt_tolerance`] (giving the new guess), or after 20 steps (giving the
/// guess).  `None` when a decimal operation fails.
pub open spec fn newton_from(value: Amount, guess: Amount, k: nat) -> Option<Amount>
    decreases 20 - k,
{
    if k >= 20 {
        Some(guess)
    } else if guess.mantissa == 0 {
        Some(Amount { mantissa: 0, scale: 0 })
    } else {
        match decimal_quotient(value, guess) {
            None => None,
            Some(q) => match decimal_sum(guess, q) {
                None => None,
                Some(t) => match decimal_quotient(t, two()) {
                    None => None,
                    Some(n) => match decimal_difference(n, guess) {
                        None => None,
                        Some(d) => if abs_int(d.units()) < sqrt_tolerance().units() {
                            Some(n)
                        } else {
                            newton_from(value, n, k + 1)
                        },
                    },
                },
            },
        }
    }
}

/// The approximate square root: zero for zero, `None` for a negative value,
/// otherwise Newton's iteration started at half the value.
pub open spec fn sqrt_of(value: Amount) -> Option<Amount> {
    if value.mantissa == 0 {
        Some(Amount { mantissa: 0, scale: 0 })
    } else if value.mantissa < 0 {
        None
    } else {
        match decimal_quotient(value, two()) {
            None => None,
            Some(g) => newton_from(value, g, 0),
        }
    }
}

/// Approximate square root of a decimal by Newton's method (see [`sqrt_of`]):
/// zero for zero, `None` for a negative value; otherwise the iteration starts at
/// half the value and stops once two guesses differ by less than `10^-10`, or
/// after 20 steps.  `None` also when a decimal operation overflows.
pub fn decimal_sqrt(value: Amount) -> (r: Option<Amount>)
    requires
        value.wf(),
    ensures
        r == sqrt_of(value),
        r matches Some(x) ==> x.wf(),
{
    if value.is_zero() {
        return Some(Amount::zero());
    }
    if value.is_negative() {
        return None;
    }
    let two_ = Amount::from_int(2);
    let tolerance = Amount::new(1, 10);
    let mut guess = match value.checked_div(&two_) {
        Some(g) => g,
        None => {
            return None;
        },
    };
    let mut k: u32 = 0;
    while k < 20
        invariant
            guess.wf(),
            value.wf(),
            value.mantissa > 0,
            two_ == two(),
            tolerance == sqrt_tolerance(),
            k <= 20,
            sqrt_of(value) == newton_from(value, guess, k as nat),
        decreases 20 - k,
    {
        if guess.is_zero() {
            return Some(Amount::zero());
        }
        let ratio = match value.checked_div(&guess) {
            Some(q) => q,
            None => {
                return None;
            },
        };
        let total = match guess.add_rounded(&ratio) {
            Some(t) => t,
            None => {
                return None;
            },
        };
        let next = match total.checked_div(&two_) {
            Some(n) => n,
            None => {
                return None;
            },
        };
        let diff = match next.sub_rounded(&guess) {
            Some(d) => d,
            None => {
                return None;
            },
        };
        if diff.abs().lt(&tolerance) {
            return Some(next);
        }
        guess = next;
        k = k + 1;
    }
    Some(guess)
}

/// The running sum `0 + s[0] + s[1] + ...`; `None` once a sum does not fit.
pub open spec fn total_of(s: Seq<Amount>) -> Option<Amount>
    decreases s.len(),
{
    if s.len() == 0 {
        Some(Amount { mantissa: 0, scale: 0 })
    } else {
        match total_of(s.drop_last()) {
            None => None,
            Some(a) => decimal_sum(a, s.last()),
        }
    }
}

/// The running sum of the squared deviations `(s[i] - mean)^2`; `None` once an
/// operation fails.
pub open spec fn squares_of(s: Seq<Amount>, mean: Amount) -> Option<Amount>
    decreases s.len(),
{
    if s.len() == 0 {
        Some(Amount { mantissa: 0, scale: 0 })
    } else {
        match squares_of(s.drop_last(), mean) {
            None => None,
            Some(a) => match decimal_difference(s.last(), mean) {
                None => None,
                Some(d) => match decimal_product(d, d) {
                    None => None,
                    Some(sq) => decimal_sum(a, sq),
                },
            },
        }
    }
}

/// The population standard deviation: the square root ([`sqrt_of`]) of the mean
/// of the squared deviations from the mean; `None` for fewer than two values or
/// when a decimal operation fails.
pub open spec fn stddev_of(s: Seq<Amount>) -> Option<Amount> {
    if s.len() < 2 {
        None
    } else {
        let n = Amount { mantissa: s.len() as i128, scale: 0 };
        match total_of(s) {
            None => None,
            Some(t) => match decimal_quotient(t, n) {
                None => None,
                Some(mean) => match squares_of(s, mean) {
                    None => None,
                    Some(q) => match decimal_quotient(q, n) {
                        None => None,
                        Some(variance) => sqrt_of(variance),
                    },
                },
            },
        }
    }
}

/// Once the running sum fails it stays failed.
proof fn lemma_total_fails(s: Seq<Amount>, i: int)
    requires
        0 <= i <= s.len(),
        total_of(s.take(i)) is None,
    ensures
        total_of(s) is None,
    decreases s.len() - i,
{
    if i < s.len() {
        assert(s.take(i + 1).drop_last() == s.take(i));
        lemma_total_fails(s, i + 1);
    } else {
        assert(s.take(i) == s);
    }
}

/// Once the running sum of squares fails it stays failed.
proof fn lemma_squares_fail(s: Seq<Amount>, mean: Amount, i: int)
    requires
        0 <= i <= s.len(),
        squares_of(s.take(i), mean) is None,
    ensures
        squares_of(s, mean) is None,
    decreases s.len() - i,
{
    if i < s.len() {
        assert(s.take(i + 1).drop_last() == s.take(i));
        lemma_squares_fail(s, mean, i + 1);
    } else {
        assert(s.take(i) == s);
    }
}

/// Sums the amounts in order, starting from zero ([`total_of`]); `None` when a
/// sum does not fit.  Where no sum needs rounding ([`sums_exactly_at`] some
/// scale), the result is the exact sum.
pub fn sum_amounts(values: &Vec<Amount>) -> (r: Option<Amount>)
    requires
        forall|i: int| 0 <= i < values.len() ==> (#[trigger] values@[i]).wf(),
    ensures
        r == total_of(values@),
        r matches Some(x) ==> x.wf(),
        forall|scale: int| #[trigger] sums_exactly_at(values@, scale) ==> (r matches Some(x) && x.units()
            == units_sum(values@)),
{
    let mut sum = Amount::zero();
    let mut i: usize = 0;
    while i < values.len()
        invariant
            i <= values.len(),
            sum.wf(),
            total_of(values@.take(i as int)) == Some(sum),
            forall|q: int| 0 <= q < values.len() ==> (#[trigger] values@[q]).wf(),
            forall|scale: int| #[trigger]
                sums_exactly_at(values@, scale) ==> sum.units() == units_sum(values@.take(i as int))
                    && sum.scale <= scale,
        decreases values.len() - i,
    {
        assert(values@.take(i + 1).drop_last() == values@.take(i as int));
        assert(values@.take(i + 1).last() == values@[i as int]);
        let next = sum.add_rounded(&values[i]);
        proof {
            assert forall|scale: int| #[trigger] sums_exactly_at(values@, scale) implies (next matches Some(
                x,
            ) && x.units() == units_sum(values@.take(i + 1)) && x.scale <= scale) by {
                lemma_exact_step(values@, i as int, sum, scale);
            }
        }
        sum = match next {
            Some(s) => s,
            None => {
                proof {
                    lemma_total_fails(values@, i + 1);
                }
                return None;
            },
        };
        i = i + 1;
    }
    assert(values@.take(values.len() as int) == values@);
    Some(sum)
}

/// The population standard deviation of the values ([`stddev_of`]): the
/// approximate square root of the mean squared deviation from the mean; `None`
/// for fewer than two values, or when a decimal operation overflows.
pub fn compute_stddev(values: &Vec<Amount>) -> (r: Option<Amount>)
    requires
        forall|i: int| 0 <= i < values.len() ==> (#[trigger] values@[i]).wf(),
    ensures
        r == stddev_of(values@),
        r matches Some(x) ==> x.wf(),
{
    if values.len() < 2 {
        return None;
    }
    let n = Amount { mantissa: values.len() as i128, scale: 0 };
    let sum = match sum_amounts(values) {
        Some(s) => s,
        None => {
            return None;
        },
    };
    let mean = match sum.checked_div(&n) {
        Some(m) => m,
        None => {
            return None;
        },
    };
    let mut squares = Amount::zero();
    let mut i: usize = 0;
    while i < values.len()
        invariant
            i <= values.len(),
            squares.wf(),
            mean.wf(),
            squares_of(values@.take(i as int), mean) == Some(squares),
            forall|q: int| 0 <= q < values.len() ==> (#[trigger] values@[q]).wf(),
            values.len() >= 2,
            n == (Amount { mantissa: values.len() as i128, scale: 0 }),
            total_of(values@) == Some(sum),
            decimal_quotient(sum, n) == Some(mean),
        decreases values.len() - i,
    {
        assert(values@.take(i + 1).drop_last() == values@.take(i as int));
        assert(values@.take(i + 1).last() == values@[i as int]);
        let d = match values[i].sub_rounded(&mean) {
            Some(d) => d,
            None => {
                proof {
                    lemma_squares_fail(values@, mean, i + 1);
                }
                return None;
            },
        };
        let sq = match d.checked_mul(&d) {
            Some(s) => s,
            None => {
                proof {
                    lemma_squares_fail(values@, mean, i + 1);
                }
                return None;
            },
        };
        squares = match squares.add_rounded(&sq) {
            Some(s) => s,
            None => {
                proof {
                    lemma_squares_fail(values@, mean, i + 1);
                }
                return None;
            },
        };
        i = i + 1;
    }
    assert(values@.take(values.len() as int) == values@);
    let variance = match squares.checked_div(&n) {
        Some(v) => v,
        None => {
            return None;
        },
    };
    decimal_sqrt(variance)
}

} // verus!
