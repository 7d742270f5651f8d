//! Forecasts and unpaid recurring items.
//!
//! A forecast starts from a given opening balance and moves by recurring
//! transactions and income only.  Occurrences of recurring transactions before
//! "today" without a paid or skipped instance are past due: they are moved to a
//! date a few days after "today".

use crate::amount::Amount;
use crate::balance::{
    deltas_wf, id_among_first, income_deltas, per_account_table, recurring_deltas, row_view,
    running_series, series_from, account_ids, push_recurring_deltas, push_income_deltas, BalanceFrame,
    opening_fits_at, BalanceRow, partial_sums_fit_at, per_account_amounts, running_amounts_from, sum_in,
    lemma_sum_in_concat, signed_amount, law_transfer_moves_money,
};
use crate::calendar::{checked_add_days, date_plus, Date, MAX_YEAR};
use crate::error::ComputeError;
use crate::model::{Account, InstanceStatus, Ledger, RecurringIncome, RecurringInstance, RecurringTransaction};
use crate::recurrence::{generate_occurrences, occurrences};
use crate::sources::{
    fetch_transaction_instances, income_pairs, lemma_filter_member, paid_instances,
    process_income_occurrences, process_transaction_occurrences, push_dated, transaction_pairs, dated,
    transaction_dates, income_dates,
};
use vstd::prelude::*;

verus! {

broadcast use vstd::seq_lib::group_seq_properties;

/// The recurring transaction moves money into or out of the account.
pub open spec fn touches(t: RecurringTransaction, a: i32) -> bool {
    t.target_account_id == a || t.source_account_id == Some(a)
}

/// The recurring transactions of the ledger that touch the account, in stored order.
fn touching_transactions(ledger: &Ledger, account_id: i32) -> (r: Vec<RecurringTransaction>)
    requires
        ledger.wf(),
    ensures
        r@ == ledger.recurring_transactions@.filter(|t: RecurringTransaction| touches(t, account_id)),
        forall|j: int| 0 <= j < r.len() ==> (#[trigger] r@[j]).wf(),
{
    let ghost pred = |t: RecurringTransaction| touches(t, account_id);
    let mut r: Vec<RecurringTransaction> = Vec::new();
    let mut i: usize = 0;
    while i < ledger.recurring_transactions.len()
        invariant
            pred == (|t: RecurringTransaction| touches(t, account_id)),
            ledger.wf(),
            i <= ledger.recurring_transactions.len(),
            r@ == ledger.recurring_transactions@.take(i as int).filter(pred),
            forall|j: int| 0 <= j < r.len() ==> (#[trigger] r@[j]).wf(),
        decreases ledger.recurring_transactions.len() - i,
    {
        let t = ledger.recurring_transactions[i];
        proof {
            assert(ledger.recurring_transactions@.take(i + 1)
                == ledger.recurring_transactions@.take(i as int).push(t));
            ledger.recurring_transactions@.take(i as int).lemma_filter_push(t, pred);
        }
        let touching = t.target_account_id == account_id || (match t.source_account_id {
            Some(src) => src == account_id,
            None => false,
        });
        if touching {
            r.push(t);
        }
        i = i + 1;
    }
    assert(ledger.recurring_transactions@.take(ledger.recurring_transactions.len() as int)
        == ledger.recurring_transactions@);
    r
}

/// Fetches the recurring transactions of the account for the main balance
/// sheet: occurrences within `[start_date, end_date]` on or after `today` are all
/// included on their date; earlier ones only when a paid instance is due on that
/// date.
pub fn get_balance_sheet_transactions(
    ledger: &Ledger,
    account_id: i32,
    start_date: Date,
    end_date: Date,
    today: Date,
) -> (r: Vec<(Date, RecurringTransaction)>)
    requires
        ledger.wf(),
        start_date.wf(),
        end_date.wf(),
        end_date.year < MAX_YEAR - 1,
    ensures
        r@ == transaction_pairs(
            ledger.recurring_transactions@.filter(|t: RecurringTransaction| touches(t, account_id)),
            ledger.instances@,
            start_date,
            end_date,
            today,
        ),
        forall|k: int| 0 <= k < r.len() ==> (#[trigger] r[k]).0.wf() && r[k].1.wf(),
{
    let transactions = touching_transactions(ledger, account_id);
    let mut result: Vec<(Date, RecurringTransaction)> = Vec::new();
    let mut k: usize = 0;
    while k < transactions.len()
        invariant
            ledger.wf(),
            start_date.wf(),
            end_date.wf(),
            end_date.year < MAX_YEAR - 1,
            k <= transactions.len(),
            forall|j: int| 0 <= j < transactions.len() ==> (#[trigger] transactions@[j]).wf(),
            result@ == transaction_pairs(
                transactions@.take(k as int),
                ledger.instances@,
                start_date,
                end_date,
                today,
            ),
            forall|q: int| 0 <= q < result.len() ==> (#[trigger] result[q]).0.wf() && result[q].1.wf(),
        decreases transactions.len() - k,
    {
        let tx = transactions[k];
        let instances = fetch_transaction_instances(ledger, tx.id);
        let dates = process_transaction_occurrences(&tx, &instances, start_date, end_date, today);
        assert(transactions@.take(k + 1).drop_last() == transactions@.take(k as int));
        push_dated(&mut result, &dates, tx);
        k = k + 1;
    }
    assert(transactions@.take(transactions.len() as int) == transactions@);
    result
}

/// A paid or skipped instance of the recurring item `id` is due on the date.
pub open spec fn has_settled_instance(instances: Seq<RecurringInstance>, id: i32, d: Date) -> bool {
    exists|i: int|
        0 <= i < instances.len() && (#[trigger] instances[i]).recurring_transaction_id == id
            && instances[i].due_date.days == d.days && !(instances[i].status is Pending)
}

/// The occurrences of the transaction from its own start, strictly before
/// `today`, that have no paid or skipped instance.
pub open spec fn unpaid_dates(
    tx: RecurringTransaction,
    instances: Seq<RecurringInstance>,
    today: Date,
) -> Seq<Date> {
    occurrences(tx.start_date, tx.end_date, tx.period, tx.start_date, today).filter(
        |d: Date| d.days < today.days && !has_settled_instance(instances, tx.id, d),
    )
}

/// The recurring transaction touches the account and started before `today`.
pub open spec fn past_due_selected(t: RecurringTransaction, a: i32, today: Date) -> bool {
    touches(t, a) && t.start_date.days < today.days
}

/// One pair `(moved_to, tx)` per unpaid occurrence, transaction by transaction.
pub open spec fn past_due_pairs(
    txs: Seq<RecurringTransaction>,
    instances: Seq<RecurringInstance>,
    today: Date,
    moved_to: Date,
) -> Seq<(Date, RecurringTransaction)>
    decreases txs.len(),
{
    if txs.len() == 0 {
        seq![]
    } else {
        past_due_pairs(txs.drop_last(), instances, today, moved_to) + Seq::new(
            unpaid_dates(txs.last(), instances, today).len(),
            |i: int| (moved_to, txs.last()),
        )
    }
}

/// The occurrences of `tx` in `occ` dated before `today` that have no paid or
/// skipped instance.
fn unsettled_occurrences(
    occ: &Vec<Date>,
    instances: &Vec<RecurringInstance>,
    tx_id: i32,
    today: Date,
) -> (r: Vec<Date>)
    ensures
        r@ == occ@.filter(|d: Date| d.days < today.days && !has_settled_instance(instances@, tx_id, d)),
{
    let ghost pred = |d: Date| d.days < today.days && !has_settled_instance(instances@, tx_id, d);
    let mut r: Vec<Date> = Vec::new();
    let mut i: usize = 0;
    while i < occ.len()
        invariant
            pred == (|d: Date| d.days < today.days && !has_settled_instance(instances@, tx_id, d)),
            i <= occ.len(),
            r@ == occ@.take(i as int).filter(pred),
        decreases occ.len() - i,
    {
        let date = occ[i];
        proof {
            assert(occ@.take(i + 1) == occ@.take(i as int).push(date));
            occ@.take(i as int).lemma_filter_push(date, pred);
        }
        let mut found = false;
        let mut j: usize = 0;
        while j < instances.len()
            invariant
                j <= instances.len(),
                found == exists|k: int|
                    0 <= k < j && (#[trigger] instances@[k]).recurring_transaction_id == tx_id
                        && instances@[k].due_date.days == date.days && !(instances@[k].status is Pending),
            decreases instances.len() - j,
        {
            let settled = match instances[j].status {
                InstanceStatus::Pending => false,
                _ => true,
            };
            if instances[j].recurring_transaction_id == tx_id && instances[j].due_date.days
                == date.days && settled {
                found = true;
            }
            j = j + 1;
        }
        if date.days < today.days && !found {
            r.push(date);
        }
        i = i + 1;
    }
    assert(occ@.take(occ.len() as int) == occ@);
    r
}

/// Fetches only the past-due, unpaid recurring transactions of the account:
/// each occurrence from the transaction's own start date, strictly before
/// `today`, that has no paid or skipped instance is returned with its date moved
/// to `today` plus `future_offset_days`.
pub fn get_past_due_transactions(
    ledger: &Ledger,
    account_id: i32,
    start_date: Date,
    today: Date,
    future_offset_days: u32,
) -> (r: Vec<(Date, RecurringTransaction)>)
    requires
        ledger.wf(),
        today.wf(),
        today.year < MAX_YEAR - 1,
        today.days + future_offset_days <= 95745399,
    ensures
        r@ == past_due_pairs(
            ledger.recurring_transactions@.filter(
                |t: RecurringTransaction| past_due_selected(t, account_id, today),
            ),
            ledger.instances@,
            today,
            date_plus(today, future_offset_days as nat),
        ),
        forall|k: int| 0 <= k < r.len() ==> (#[trigger] r[k]).0.wf() && r[k].1.wf(),
{
    let moved_to = checked_add_days(today, future_offset_days).unwrap();
    let ghost pred = |t: RecurringTransaction| past_due_selected(t, account_id, today);
    let ghost all = ledger.recurring_transactions@;
    let mut result: Vec<(Date, RecurringTransaction)> = Vec::new();
    let mut i: usize = 0;
    while i < ledger.recurring_transactions.len()
        invariant
            pred == (|t: RecurringTransaction| past_due_selected(t, account_id, today)),
            all == ledger.recurring_transactions@,
            ledger.wf(),
            today.wf(),
            today.year < MAX_YEAR - 1,
            moved_to.wf(),
            moved_to == date_plus(today, future_offset_days as nat),
            i <= all.len(),
            result@ == past_due_pairs(all.take(i as int).filter(pred), ledger.instances@, today, moved_to),
            forall|q: int| 0 <= q < result.len() ==> (#[trigger] result[q]).0.wf() && result[q].1.wf(),
        decreases all.len() - i,
    {
        let tx = ledger.recurring_transactions[i];
        proof {
            assert(all.take(i + 1) == all.take(i as int).push(tx));
            all.take(i as int).lemma_filter_push(tx, pred);
        }
        let touching = tx.target_account_id == account_id || (match tx.source_account_id {
            Some(src) => src == account_id,
            None => false,
        });
        if touching && tx.start_date.days < today.days {
            let occ = generate_occurrences(tx.start_date, tx.end_date, &tx.period, tx.start_date, today);
            let unpaid = unsettled_occurrences(&occ, &ledger.instances, tx.id, today);
            let ghost before = result@;
            let mut k: usize = 0;
            while k < unpaid.len()
                invariant
                    k <= unpaid.len(),
                    tx.wf(),
                    moved_to.wf(),
                    result@ == before + Seq::new(k as nat, |q: int| (moved_to, tx)),
                    forall|q: int|
                        0 <= q < before.len() ==> (#[trigger] before[q]).0.wf() && before[q].1.wf(),
                decreases unpaid.len() - k,
            {
                result.push((moved_to, tx));
                k = k + 1;
                assert(result@ =~= before + Seq::new(k as nat, |q: int| (moved_to, tx)));
            }
            proof {
                let f = all.take(i as int).filter(pred);
                assert(all.take(i + 1).filter(pred) == f.push(tx));
                assert(f.push(tx).drop_last() == f);
                assert(result@ == past_due_pairs(f.push(tx), ledger.instances@, today, moved_to));
            }
        }
        i = i + 1;
    }
    assert(all.take(all.len() as int) == all);
    result
}

/// The recurring income goes into the account and is active at some point of
/// `[start, end]`.
pub open spec fn forecast_income_selected(t: RecurringIncome, a: i32, start: Date, end: Date) -> bool {
    &&& t.target_account_id == a
    &&& t.end_date matches Some(e) ==> e.days >= start.days
    &&& t.start_date.days <= end.days
}

/// Gets the future recurring income of the account within `[start_date,
/// end_date]`: income cannot be past due, so only occurrences on or after
/// `today` are returned.
pub fn get_future_recurring_income(
    ledger: &Ledger,
    account_id: i32,
    start_date: Date,
    end_date: Date,
    today: Date,
) -> (r: Vec<(Date, RecurringIncome)>)
    requires
        ledger.wf(),
        start_date.wf(),
        end_date.wf(),
        end_date.year < MAX_YEAR - 1,
    ensures
        r@ == income_pairs(
            ledger.recurring_incomes@.filter(
                |t: RecurringIncome| forecast_income_selected(t, account_id, start_date, end_date),
            ),
            Seq::empty(),
            start_date,
            end_date,
            today,
        ),
        forall|k: int| 0 <= k < r.len() ==> (#[trigger] r[k]).0.wf() && r[k].1.wf(),
{
    let ghost pred = |t: RecurringIncome| forecast_income_selected(t, account_id, start_date, end_date);
    let ghost all = ledger.recurring_incomes@;
    let no_instances: Vec<RecurringInstance> = Vec::new();
    let mut result: Vec<(Date, RecurringIncome)> = Vec::new();
    let mut i: usize = 0;
    while i < ledger.recurring_incomes.len()
        invariant
            pred == (|t: RecurringIncome| forecast_income_selected(t, account_id, start_date, end_date)),
            all == ledger.recurring_incomes@,
            no_instances@ == Seq::<RecurringInstance>::empty(),
            ledger.wf(),
            start_date.wf(),
            end_date.wf(),
            end_date.year < MAX_YEAR - 1,
            i <= all.len(),
            result@ == income_pairs(all.take(i as int).filter(pred), Seq::empty(), start_date, end_date, today),
            forall|q: int| 0 <= q < result.len() ==> (#[trigger] result[q]).0.wf() && result[q].1.wf(),
        decreases all.len() - i,
    {
        let income = ledger.recurring_incomes[i];
        proof {
            assert(all.take(i + 1) == all.take(i as int).push(income));
            all.take(i as int).lemma_filter_push(income, pred);
        }
        let active = match income.end_date {
            Some(e) => e.days >= start_date.days,
            None => true,
        } && income.start_date.days <= end_date.days;
        if income.target_account_id == account_id && active {
            let dates = process_income_occurrences(&income, &no_instances, start_date, end_date, today);
            proof {
                assert(paid_instances(Seq::<RecurringInstance>::empty(), income.id) =~= Seq::<
                    RecurringInstance,
                >::empty());
                let f = all.take(i as int).filter(pred);
                assert(all.take(i + 1).filter(pred) == f.push(income));
                assert(f.push(income).drop_last() == f);
            }
            push_dated(&mut result, &dates, income);
        }
        i = i + 1;
    }
    assert(all.take(all.len() as int) == all);
    result
}


// ---------------------------------------------------------------------------
// Forecast
// ---------------------------------------------------------------------------

/// The balance changes of account `a` in a forecast: balance-sheet occurrences
/// of its recurring transactions, its past-due transactions moved to `today`
/// plus `offset` days, and its future recurring income.
pub open spec fn forecast_deltas(
    ledger: Ledger,
    a: i32,
    start: Date,
    end: Date,
    today: Date,
    offset: nat,
) -> Seq<(Date, Amount)> {
    recurring_deltas(
        transaction_pairs(
            ledger.recurring_transactions@.filter(|t: RecurringTransaction| touches(t, a)),
            ledger.instances@,
            start,
            end,
            today,
        ),
        a,
    ) + recurring_deltas(
        past_due_pairs(
            ledger.recurring_transactions@.filter(|t: RecurringTransaction| past_due_selected(t, a, today)),
            ledger.instances@,
            today,
            date_plus(today, offset),
        ),
        a,
    ) + income_deltas(
        income_pairs(
            ledger.recurring_incomes@.filter(
                |t: RecurringIncome| forecast_income_selected(t, a, start, end),
            ),
            Seq::empty(),
            start,
            end,
            today,
        ),
        a,
    )
}

/// How many of the days `ds` fall in `(lo, hi]` (by day number).
pub open spec fn days_in(ds: Seq<Date>, lo: int, hi: int) -> int
    decreases ds.len(),
{
    if ds.len() == 0 {
        0
    } else {
        days_in(ds.drop_last(), lo, hi) + if lo < ds.last().days <= hi {
            1int
        } else {
            0int
        }
    }
}

/// The days on which a forecast over `[start, end]` counts the recurring
/// transaction `t`: its occurrences on the balance sheet
/// ([`transaction_dates`]) and, when it started before `today`, the day
/// `today + offset` once per unpaid earlier occurrence ([`unpaid_dates`]).
pub open spec fn forecast_days(
    t: RecurringTransaction,
    instances: Seq<RecurringInstance>,
    start: Date,
    end: Date,
    today: Date,
    offset: nat,
) -> Seq<Date> {
    transaction_dates(t, instances, start, end, today) + if t.start_date.days < today.days {
        Seq::new(unpaid_dates(t, instances, today).len(), |i: int| date_plus(today, offset))
    } else {
        Seq::<Date>::empty()
    }
}

proof fn lemma_days_in_concat(x: Seq<Date>, y: Seq<Date>, lo: int, hi: int)
    ensures
        days_in(x + y, lo, hi) == days_in(x, lo, hi) + days_in(y, lo, hi),
    decreases y.len(),
{
    if y.len() == 0 {
        assert(x + y == x);
    } else {
        lemma_days_in_concat(x, y.drop_last(), lo, hi);
        assert((x + y).drop_last() == x + y.drop_last());
        assert((x + y).last() == y.last());
    }
}

/// The changes of account `x` from the days `ds` of transaction `t` add up to
/// its signed amount once per day in the range.
proof fn lemma_dated_changes(ds: Seq<Date>, t: RecurringTransaction, x: i32, lo: int, hi: int)
    ensures
        sum_in(recurring_deltas(dated(ds, t), x), lo, hi) == signed_amount(
            t.amount,
            t.target_account_id,
            t.source_account_id,
            x,
        ).units() * days_in(ds, lo, hi),
    decreases ds.len(),
{
    let u = signed_amount(t.amount, t.target_account_id, t.source_account_id, x).units();
    if ds.len() == 0 {
        assert(recurring_deltas(dated(ds, t), x) =~= Seq::<(Date, Amount)>::empty());
    } else {
        lemma_dated_changes(ds.drop_last(), t, x, lo, hi);
        let r = recurring_deltas(dated(ds, t), x);
        assert(r.drop_last() =~= recurring_deltas(dated(ds.drop_last(), t), x));
        let n = days_in(ds.drop_last(), lo, hi);
        assert(u * (n + 1) == u * n + u) by (nonlinear_arith);
    }
}

/// Adding the recurring transaction `t`, which touches account `x`, adds to
/// `x`'s forecast changes over `(lo, hi]` its signed amount once per day the
/// forecast counts it there.
proof fn lemma_forecast_with_transaction(
    ledger: Ledger,
    with: Ledger,
    t: RecurringTransaction,
    x: i32,
    start: Date,
    end: Date,
    today: Date,
    offset: nat,
    lo: int,
    hi: int,
)
    requires
        with.recurring_transactions@ == ledger.recurring_transactions@.push(t),
        with.instances@ == ledger.instances@,
        with.recurring_incomes@ == ledger.recurring_incomes@,
        touches(t, x),
    ensures
        sum_in(forecast_deltas(with, x, start, end, today, offset), lo, hi) == sum_in(
            forecast_deltas(ledger, x, start, end, today, offset),
            lo,
            hi,
        ) + signed_amount(t.amount, t.target_account_id, t.source_account_id, x).units() * days_in(
            forecast_days(t, ledger.instances@, start, end, today, offset),
            lo,
            hi,
        ),
{
    let inst = ledger.instances@;
    let moved = date_plus(today, offset);
    let u = signed_amount(t.amount, t.target_account_id, t.source_account_id, x).units();
    let tp = |q: RecurringTransaction| touches(q, x);
    let pd = |q: RecurringTransaction| past_due_selected(q, x, today);
    let old_f = ledger.recurring_transactions@.filter(tp);
    let old_g = ledger.recurring_transactions@.filter(pd);
    ledger.recurring_transactions@.lemma_filter_push(t, tp);
    ledger.recurring_transactions@.lemma_filter_push(t, pd);
    assert(with.recurring_transactions@.filter(tp) == old_f.push(t));
    let td = transaction_dates(t, inst, start, end, today);
    assert(old_f.push(t).drop_last() == old_f);
    assert(transaction_pairs(old_f.push(t), inst, start, end, today) == transaction_pairs(old_f, inst, start, end, today)
        + dated(td, t));
    let a_old = recurring_deltas(transaction_pairs(old_f, inst, start, end, today), x);
    let a_new = recurring_deltas(transaction_pairs(old_f.push(t), inst, start, end, today), x);
    assert(a_new =~= a_old + recurring_deltas(dated(td, t), x));
    let b_old = recurring_deltas(past_due_pairs(old_g, inst, today, moved), x);
    let b_new = recurring_deltas(past_due_pairs(with.recurring_transactions@.filter(pd), inst, today, moved), x);
    let extra = if t.start_date.days < today.days {
        Seq::new(unpaid_dates(t, inst, today).len(), |i: int| moved)
    } else {
        Seq::<Date>::empty()
    };
    if t.start_date.days < today.days {
        assert(with.recurring_transactions@.filter(pd) == old_g.push(t));
        assert(old_g.push(t).drop_last() == old_g);
        assert(Seq::new(unpaid_dates(t, inst, today).len(), |i: int| (moved, t)) =~= dated(extra, t));
        assert(b_new =~= b_old + recurring_deltas(dated(extra, t), x));
    } else {
        assert(with.recurring_transactions@.filter(pd) == old_g);
        assert(dated(extra, t) =~= Seq::<(Date, RecurringTransaction)>::empty());
        assert(b_new =~= b_old + recurring_deltas(dated(extra, t), x));
    }
    let c = income_deltas(
        income_pairs(
            ledger.recurring_incomes@.filter(|q: RecurringIncome| forecast_income_selected(q, x, start, end)),
            Seq::empty(),
            start,
            end,
            today,
        ),
        x,
    );
    assert(forecast_deltas(ledger, x, start, end, today, offset) == a_old + b_old + c);
    assert(forecast_deltas(with, x, start, end, today, offset) == a_new + b_new + c);
    lemma_sum_in_concat(a_old + b_old, c, lo, hi);
    lemma_sum_in_concat(a_old, b_old, lo, hi);
    lemma_sum_in_concat(a_new + b_new, c, lo, hi);
    lemma_sum_in_concat(a_new, b_new, lo, hi);
    lemma_sum_in_concat(a_old, recurring_deltas(dated(td, t), x), lo, hi);
    lemma_sum_in_concat(b_old, recurring_deltas(dated(extra, t), x), lo, hi);
    lemma_dated_changes(td, t, x, lo, hi);
    lemma_dated_changes(extra, t, x, lo, hi);
    lemma_days_in_concat(td, extra, lo, hi);
    let k1 = days_in(td, lo, hi);
    let k2 = days_in(extra, lo, hi);
    assert(u * (k1 + k2) == u * k1 + u * k2) by (nonlinear_arith);
}

/// Double entry in forecasts: adding a recurring transfer `t` out of account
/// `a` into account `b` lowers `a`'s forecast changes over any days `(lo, hi]`
/// by the transfer's amount once per day the forecast counts the transfer
/// there ([`forecast_days`]: its occurrences on or after `today`, and its
/// unpaid past ones moved to `today + offset`), and raises `b`'s by the same,
/// so the forecasts of the two accounts together stay the same.
pub proof fn law_forecast_transfer_moves_money(
    ledger: Ledger,
    with: Ledger,
    t: RecurringTransaction,
    start: Date,
    end: Date,
    today: Date,
    offset: nat,
    lo: int,
    hi: int,
)
    requires
        with.recurring_transactions@ == ledger.recurring_transactions@.push(t),
        with.instances@ == ledger.instances@,
        with.recurring_incomes@ == ledger.recurring_incomes@,
        t.amount.wf(),
        t.source_account_id matches Some(a) && a != t.target_account_id,
    ensures
        sum_in(forecast_deltas(with, t.target_account_id, start, end, today, offset), lo, hi) == sum_in(
            forecast_deltas(ledger, t.target_account_id, start, end, today, offset),
            lo,
            hi,
        ) + t.amount.units() * days_in(forecast_days(t, ledger.instances@, start, end, today, offset), lo, hi),
        sum_in(forecast_deltas(with, t.source_account_id.unwrap(), start, end, today, offset), lo, hi) == sum_in(
            forecast_deltas(ledger, t.source_account_id.unwrap(), start, end, today, offset),
            lo,
            hi,
        ) - t.amount.units() * days_in(forecast_days(t, ledger.instances@, start, end, today, offset), lo, hi),
{
    let a = t.source_account_id.unwrap();
    let b = t.target_account_id;
    let k = days_in(forecast_days(t, ledger.instances@, start, end, today, offset), lo, hi);
    lemma_forecast_with_transaction(ledger, with, t, b, start, end, today, offset, lo, hi);
    lemma_forecast_with_transaction(ledger, with, t, a, start, end, today, offset, lo, hi);
    law_transfer_moves_money(t.amount, b, a);
    let sa = signed_amount(t.amount, b, Some(a), a).units();
    assert(signed_amount(t.amount, b, Some(a), b) == t.amount);
    assert(sa == -t.amount.units());
    assert(sa * k == -(t.amount.units() * k)) by (nonlinear_arith)
        requires
            sa == -t.amount.units(),
    ;
}

proof fn lemma_income_deltas_concat(p: Seq<(Date, RecurringIncome)>, q: Seq<(Date, RecurringIncome)>, x: i32)
    ensures
        income_deltas(p + q, x) == income_deltas(p, x) + income_deltas(q, x),
    decreases q.len(),
{
    if q.len() == 0 {
        assert(p + q == p);
        assert(income_deltas(p, x) + income_deltas(q, x) == income_deltas(p, x));
    } else {
        lemma_income_deltas_concat(p, q.drop_last(), x);
        assert((p + q).drop_last() == p + q.drop_last());
        assert((p + q).last() == q.last());
    }
}

/// The changes of account `x` from the days `ds` of income `inc` add up to its
/// amount once per day in the range when it goes into `x`, and to nothing
/// otherwise.
proof fn lemma_income_changes(ds: Seq<Date>, inc: RecurringIncome, x: i32, lo: int, hi: int)
    ensures
        sum_in(income_deltas(dated(ds, inc), x), lo, hi) == if inc.target_account_id == x {
            inc.amount.units() * days_in(ds, lo, hi)
        } else {
            0
        },
    decreases ds.len(),
{
    let u = inc.amount.units();
    if ds.len() == 0 {
        assert(dated(ds, inc) =~= Seq::<(Date, RecurringIncome)>::empty());
        assert(u * 0 == 0);
    } else {
        lemma_income_changes(ds.drop_last(), inc, x, lo, hi);
        let p = dated(ds, inc);
        assert(p.drop_last() =~= dated(ds.drop_last(), inc));
        assert(p.last() == (ds.last(), inc));
        let rest = income_deltas(p.drop_last(), x);
        if inc.target_account_id == x {
            assert(income_deltas(p, x) == rest.push((ds.last(), inc.amount)));
            assert(rest.push((ds.last(), inc.amount)).drop_last() == rest);
        } else {
            assert(income_deltas(p, x) == rest);
        }
        let n = days_in(ds.drop_last(), lo, hi);
        assert(u * (n + 1) == u * n + u) by (nonlinear_arith);
    }
}

/// Income in forecasts: adding a recurring income into account `a` that is
/// active at some point of `[start, end]` raises `a`'s forecast changes over
/// any days `(lo, hi]` by its amount once per day it falls on from `today`
/// on within the range; an income that ends before `start` or starts after
/// `end` changes nothing, and no income changes another account's forecast.
pub proof fn law_forecast_income_adds_to_its_account(
    ledger: Ledger,
    with: Ledger,
    inc: RecurringIncome,
    x: i32,
    start: Date,
    end: Date,
    today: Date,
    offset: nat,
    lo: int,
    hi: int,
)
    requires
        with.recurring_incomes@ == ledger.recurring_incomes@.push(inc),
        with.recurring_transactions@ == ledger.recurring_transactions@,
        with.instances@ == ledger.instances@,
    ensures
        sum_in(forecast_deltas(with, x, start, end, today, offset), lo, hi) == sum_in(
            forecast_deltas(ledger, x, start, end, today, offset),
            lo,
            hi,
        ) + if inc.target_account_id == x && (inc.end_date matches Some(e) ==> e.days >= start.days)
            && inc.start_date.days <= end.days {
            inc.amount.units() * days_in(income_dates(inc, Seq::empty(), start, end, today), lo, hi)
        } else {
            0
        },
{
    let sel = |q: RecurringIncome| forecast_income_selected(q, x, start, end);
    let old_f = ledger.recurring_incomes@.filter(sel);
    ledger.recurring_incomes@.lemma_filter_push(inc, sel);
    let ds = income_dates(inc, Seq::empty(), start, end, today);
    let a = recurring_deltas(
        transaction_pairs(
            ledger.recurring_transactions@.filter(|t: RecurringTransaction| touches(t, x)),
            ledger.instances@,
            start,
            end,
            today,
        ),
        x,
    ) + recurring_deltas(
        past_due_pairs(
            ledger.recurring_transactions@.filter(|t: RecurringTransaction| past_due_selected(t, x, today)),
            ledger.instances@,
            today,
            date_plus(today, offset),
        ),
        x,
    );
    let c_old = income_deltas(income_pairs(old_f, Seq::empty(), start, end, today), x);
    assert(forecast_deltas(ledger, x, start, end, today, offset) == a + c_old);
    lemma_sum_in_concat(a, c_old, lo, hi);
    if sel(inc) {
        assert(old_f.push(inc).drop_last() == old_f);
        let c_new = income_deltas(income_pairs(old_f.push(inc), Seq::empty(), start, end, today), x);
        lemma_income_deltas_concat(income_pairs(old_f, Seq::empty(), start, end, today), dated(ds, inc), x);
        assert(forecast_deltas(with, x, start, end, today, offset) == a + c_new);
        lemma_sum_in_concat(a, c_new, lo, hi);
        lemma_sum_in_concat(c_old, income_deltas(dated(ds, inc), x), lo, hi);
        lemma_income_changes(ds, inc, x, lo, hi);
    } else {
        assert(forecast_deltas(with, x, start, end, today, offset) == a + c_old);
    }
}

/// The forecast table: for each distinct account, one row per day of
/// `[start, end]` with `init` plus the forecast changes up to that day.
pub open spec fn forecast_table(
    ledger: Ledger,
    ids: Seq<i32>,
    start: Date,
    end: Date,
    init: int,
    today: Date,
    offset: nat,
) -> Seq<(i32, Date, int)> {
    per_account_table(
        ids,
        |a: i32| running_series(a, start, end, init, forecast_deltas(ledger, a, start, end, today, offset)),
    )
}

/// The forecast of every account in `ids` can be computed exactly: its
/// changes, opening with `init`, fit at some scale ([`opening_fits_at`]).
pub open spec fn forecast_fits(
    ledger: Ledger,
    ids: Seq<i32>,
    start: Date,
    end: Date,
    init: Amount,
    today: Date,
    offset: nat,
) -> bool {
    forall|i: int|
        0 <= i < ids.len() ==> exists|scale: int|
            opening_fits_at(init, #[trigger] forecast_deltas(ledger, ids[i], start, end, today, offset), scale)
}

/// The forecast of every account in `ids` can be added up, day by day and then
/// into running balances from `init`, without rounding at some scale
/// ([`partial_sums_fit_at`]).
pub open spec fn forecast_sums_fit(
    ledger: Ledger,
    ids: Seq<i32>,
    start: Date,
    end: Date,
    init: Amount,
    today: Date,
    offset: nat,
) -> bool {
    forall|i: int|
        0 <= i < ids.len() ==> exists|scale: int|
            partial_sums_fit_at(init, #[trigger] forecast_deltas(ledger, ids[i], start, end, today, offset), start, end, scale)
}

fn forecast_account_deltas(
    ledger: &Ledger,
    account_id: i32,
    start_date: Date,
    end_date: Date,
    today: Date,
    future_offset_days: u32,
) -> (r: Vec<(Date, Amount)>)
    requires
        ledger.wf(),
        start_date.wf(),
        end_date.wf(),
        end_date.year < MAX_YEAR - 1,
        today.wf(),
        today.year < MAX_YEAR - 1,
        today.days + future_offset_days <= 95745399,
    ensures
        r@ == forecast_deltas(*ledger, account_id, start_date, end_date, today, future_offset_days as nat),
        deltas_wf(r@),
{
    let mut all: Vec<(Date, Amount)> = Vec::new();
    let sheet = get_balance_sheet_transactions(ledger, account_id, start_date, end_date, today);
    push_recurring_deltas(&mut all, &sheet, account_id);
    let past_due = get_past_due_transactions(ledger, account_id, start_date, today, future_offset_days);
    push_recurring_deltas(&mut all, &past_due, account_id);
    let income = get_future_recurring_income(ledger, account_id, start_date, end_date, today);
    push_income_deltas(&mut all, &income, account_id);
    all
}

/// Computes the forecast of the accounts within `[start_date, end_date]`.
///
/// Each distinct account gets one row per day, starting from
/// `initial_balance` on `start_date` and moving by its recurring transactions
/// (as on the balance sheet), its past-due transactions (moved to `today` plus
/// `future_offset_days`) and its future recurring income; changes dated outside
/// the range do not count.  Each balance is the decimal, value and scale,
/// that `rust_decimal`'s sums give ([`running_amounts_from`]).  Fails only
/// when a decimal sum overflows, which it never does where the forecast fits
/// ([`forecast_fits`]).
pub fn compute_forecast(
    ledger: &Ledger,
    accounts: &Vec<Account>,
    start_date: Date,
    end_date: Date,
    initial_balance: Amount,
    today: Date,
    future_offset_days: u32,
) -> (r: Result<BalanceFrame, ComputeError>)
    requires
        ledger.wf(),
        start_date.wf(),
        end_date.wf(),
        end_date.year < MAX_YEAR - 1,
        initial_balance.wf(),
        today.wf(),
        today.year < MAX_YEAR - 1,
        today.days + future_offset_days <= 95745399,
    ensures
        r matches Ok(f) ==> f.wf() && f.view_rows() == forecast_table(
            *ledger,
            account_ids(accounts@),
            start_date,
            end_date,
            initial_balance.units(),
            today,
            future_offset_days as nat,
        ),
        r matches Ok(f) ==> f.rows@.map_values(|x: BalanceRow| x.balance) == per_account_amounts(
            account_ids(accounts@),
            |a: i32|
                running_amounts_from(
                    initial_balance,
                    forecast_deltas(*ledger, a, start_date, end_date, today, future_offset_days as nat),
                    start_date,
                    end_date,
                ),
        ),
        r matches Err(e) ==> e.is_overflow(),
        forecast_fits(
            *ledger,
            account_ids(accounts@),
            start_date,
            end_date,
            initial_balance,
            today,
            future_offset_days as nat,
        ) ==> r is Ok,
        forecast_sums_fit(
            *ledger,
            account_ids(accounts@),
            start_date,
            end_date,
            initial_balance,
            today,
            future_offset_days as nat,
        ) ==> r is Ok,
{
    let mut rows: Vec<BalanceRow> = Vec::new();
    let ghost ids = account_ids(accounts@);
    let mut k: usize = 0;
    while k < accounts.len()
        invariant
            k <= accounts.len(),
            ledger.wf(),
            start_date.wf(),
            end_date.wf(),
            end_date.year < MAX_YEAR - 1,
            initial_balance.wf(),
            today.wf(),
            today.year < MAX_YEAR - 1,
            today.days + future_offset_days <= 95745399,
            ids == account_ids(accounts@),
            forall|i: int| 0 <= i < rows.len() ==> (#[trigger] rows[i]).wf(),
            rows@.map_values(|x: BalanceRow| row_view(x)) == forecast_table(
                *ledger,
                ids.take(k as int),
                start_date,
                end_date,
                initial_balance.units(),
                today,
                future_offset_days as nat,
            ),
            rows@.map_values(|x: BalanceRow| x.balance) == per_account_amounts(
                ids.take(k as int),
                |a: i32|
                    running_amounts_from(
                        initial_balance,
                        forecast_deltas(*ledger, a, start_date, end_date, today, future_offset_days as nat),
                        start_date,
                        end_date,
                    ),
            ),
        decreases accounts.len() - k,
    {
        let id = accounts[k].id;
        assert(ids.take(k + 1).drop_last() == ids.take(k as int));
        assert(ids.take(k + 1).last() == id);
        if !id_among_first(accounts, k, id) {
            let deltas = forecast_account_deltas(
                ledger,
                id,
                start_date,
                end_date,
                today,
                future_offset_days,
            );
            let mut series = match series_from(id, start_date, end_date, initial_balance, &deltas) {
                Ok(v) => v,
                Err(e) => {
                    proof {
                        assert(ids[k as int] == id);
                    }
                    return Err(e);
                },
            };
            let ghost old_rows = rows@;
            let ghost added = series@;
            rows.append(&mut series);
            assert(rows@.map_values(|x: BalanceRow| row_view(x)) =~= old_rows.map_values(
                |x: BalanceRow| row_view(x),
            ) + added.map_values(|x: BalanceRow| row_view(x)));
            assert(rows@.map_values(|x: BalanceRow| x.balance) =~= old_rows.map_values(|x: BalanceRow| x.balance)
                + added.map_values(|x: BalanceRow| x.balance));
        }
        k = k + 1;
    }
    assert(ids.take(accounts.len() as int) == ids);
    Ok(BalanceFrame { rows })
}

// ---------------------------------------------------------------------------
// Unpaid recurring items
// ---------------------------------------------------------------------------

/// The balance changes of account `a` that are still unpaid: its past-due
/// transactions moved to `today` plus `offset` days, and its recurring income
/// due within `[start, today]` on or after `today`.
pub open spec fn unpaid_deltas(ledger: Ledger, a: i32, start: Date, today: Date, offset: nat) -> Seq<
    (Date, Amount),
> {
    recurring_deltas(
        past_due_pairs(
            ledger.recurring_transactions@.filter(|t: RecurringTransaction| past_due_selected(t, a, today)),
            ledger.instances@,
            today,
            date_plus(today, offset),
        ),
        a,
    ) + income_deltas(
        income_pairs(
            ledger.recurring_incomes@.filter(
                |t: RecurringIncome| forecast_income_selected(t, a, start, today),
            ),
            Seq::empty(),
            start,
            today,
            today,
        ),
        a,
    )
}

/// The unpaid table: for each distinct account, one row per day of
/// `[start, end]` with the unpaid changes summed up to that day.
pub open spec fn unpaid_table(
    ledger: Ledger,
    ids: Seq<i32>,
    start: Date,
    end: Date,
    today: Date,
    offset: nat,
) -> Seq<(i32, Date, int)> {
    per_account_table(
        ids,
        |a: i32| running_series(a, start, end, 0, unpaid_deltas(ledger, a, start, today, offset)),
    )
}

/// The unpaid items of every account in `ids` can be summed exactly: its
/// changes, opening with zero, fit at some scale ([`opening_fits_at`]).
pub open spec fn unpaid_fits(ledger: Ledger, ids: Seq<i32>, start: Date, today: Date, offset: nat) -> bool {
    forall|i: int|
        0 <= i < ids.len() ==> exists|scale: int|
            opening_fits_at(
                Amount { mantissa: 0, scale: 0 },
                #[trigger] unpaid_deltas(ledger, ids[i], start, today, offset),
                scale,
            )
}

/// The unpaid items of every account in `ids` can be added up, day by day and
/// then into running balances from zero, without rounding at some scale
/// ([`partial_sums_fit_at`]).
pub open spec fn unpaid_sums_fit(ledger: Ledger, ids: Seq<i32>, start: Date, end: Date, today: Date, offset: nat) -> bool {
    forall|i: int|
        0 <= i < ids.len() ==> exists|scale: int|
            partial_sums_fit_at(
                Amount { mantissa: 0, scale: 0 },
                #[trigger] unpaid_deltas(ledger, ids[i], start, today, offset),
                start,
                end,
                scale,
            )
}

fn unpaid_account_deltas(
    ledger: &Ledger,
    account_id: i32,
    start_date: Date,
    today: Date,
    future_offset_days: u32,
) -> (r: Vec<(Date, Amount)>)
    requires
        ledger.wf(),
        start_date.wf(),
        today.wf(),
        today.year < MAX_YEAR - 1,
        today.days + future_offset_days <= 95745399,
    ensures
        r@ == unpaid_deltas(*ledger, account_id, start_date, today, future_offset_days as nat),
        deltas_wf(r@),
{
    let mut all: Vec<(Date, Amount)> = Vec::new();
    let past_due = get_past_due_transactions(ledger, account_id, start_date, today, future_offset_days);
    push_recurring_deltas(&mut all, &past_due, account_id);
    let income = get_future_recurring_income(ledger, account_id, start_date, today, today);
    push_income_deltas(&mut all, &income, account_id);
    all
}

/// Computes the unpaid recurring items of the accounts: for each distinct
/// account, one row per day of `[start_date, end_date]` holding the sum of its
/// past-due transactions (moved to `today` plus `future_offset_days`) and of its
/// recurring income due today, counted from the day they fall on; each sum is
/// the decimal, value and scale, that `rust_decimal`'s sums give
/// ([`running_amounts_from`]).  Fails only when a decimal sum overflows, which
/// it never does where the items fit ([`unpaid_fits`]).
pub fn compute_unpaid_recurring(
    ledger: &Ledger,
    accounts: &Vec<Account>,
    start_date: Date,
    end_date: Date,
    today: Date,
    future_offset_days: u32,
) -> (r: Result<BalanceFrame, ComputeError>)
    requires
        ledger.wf(),
        start_date.wf(),
        end_date.wf(),
        today.wf(),
        today.year < MAX_YEAR - 1,
        today.days + future_offset_days <= 95745399,
    ensures
        r matches Ok(f) ==> f.wf() && f.view_rows() == unpaid_table(
            *ledger,
            account_ids(accounts@),
            start_date,
            end_date,
            today,
            future_offset_days as nat,
        ),
        r matches Ok(f) ==> f.rows@.map_values(|x: BalanceRow| x.balance) == per_account_amounts(
            account_ids(accounts@),
            |a: i32|
                running_amounts_from(
                    Amount { mantissa: 0, scale: 0 },
                    unpaid_deltas(*ledger, a, start_date, today, future_offset_days as nat),
                    start_date,
                    end_date,
                ),
        ),
        r matches Err(e) ==> e.is_overflow(),
        unpaid_fits(*ledger, account_ids(accounts@), start_date, today, future_offset_days as nat) ==> r is Ok,
        unpaid_sums_fit(*ledger, account_ids(accounts@), start_date, end_date, today, future_offset_days as nat)
            ==> r is Ok,
{
    let mut rows: Vec<BalanceRow> = Vec::new();
    let ghost ids = account_ids(accounts@);
    let zero = Amount::zero();
    let mut k: usize = 0;
    while k < accounts.len()
        invariant
            k <= accounts.len(),
            ledger.wf(),
            start_date.wf(),
            end_date.wf(),
            today.wf(),
            today.year < MAX_YEAR - 1,
            today.days + future_offset_days <= 95745399,
            zero.wf(),
            zero.units() == 0,
            zero == (Amount { mantissa: 0, scale: 0 }),
            ids == account_ids(accounts@),
            forall|i: int| 0 <= i < rows.len() ==> (#[trigger] rows[i]).wf(),
            rows@.map_values(|x: BalanceRow| row_view(x)) == unpaid_table(
                *ledger,
                ids.take(k as int),
                start_date,
                end_date,
                today,
                future_offset_days as nat,
            ),
            rows@.map_values(|x: BalanceRow| x.balance) == per_account_amounts(
                ids.take(k as int),
                |a: i32|
                    running_amounts_from(
                        Amount { mantissa: 0, scale: 0 },
                        unpaid_deltas(*ledger, a, start_date, today, future_offset_days as nat),
                        start_date,
                        end_date,
                    ),
            ),
        decreases accounts.len() - k,
    {
        let id = accounts[k].id;
        assert(ids.take(k + 1).drop_last() == ids.take(k as int));
        assert(ids.take(k + 1).last() == id);
        if !id_among_first(accounts, k, id) {
            let deltas = unpaid_account_deltas(ledger, id, start_date, today, future_offset_days);
            let mut series = match series_from(id, start_date, end_date, zero, &deltas) {
                Ok(v) => v,
                Err(e) => {
                    proof {
                        assert(ids[k as int] == id);
                    }
                    return Err(e);
                },
            };
            let ghost old_rows = rows@;
            let ghost added = series@;
            rows.append(&mut series);
            assert(rows@.map_values(|x: BalanceRow| row_view(x)) =~= old_rows.map_values(
                |x: BalanceRow| row_view(x),
            ) + added.map_values(|x: BalanceRow| row_view(x)));
            assert(rows@.map_values(|x: BalanceRow| x.balance) =~= old_rows.map_values(|x: BalanceRow| x.balance)
                + added.map_values(|x: BalanceRow| x.balance));
        }
        k = k + 1;
    }
    assert(ids.take(accounts.len() as int) == ids);
    Ok(BalanceFrame { rows })
}

} // verus!
