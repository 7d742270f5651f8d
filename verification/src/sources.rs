//! Selection of the stored data that feeds a balance or forecast computation:
//! manual states, one-off and imported transactions, and the occurrences of
//! recurring transactions and income.

use crate::calendar::{Date, MAX_YEAR};
use crate::model::{
    visible_in, is_visible, InstanceStatus, ImportedTransaction, Ledger, ManualAccountState,
    OneOffTransaction, RecurringIncome, RecurringInstance, RecurringTransaction,
};
use crate::recurrence::{generate_occurrences, occurrences};
use vstd::prelude::*;

verus! {

broadcast use vstd::seq_lib::group_seq_properties;

// ---------------------------------------------------------------------------
// Manual account states
// ---------------------------------------------------------------------------

pub open spec fn state_before(s: ManualAccountState, account_id: i32, before_date: Date) -> bool {
    s.account_id == account_id && s.date.days < before_date.days
}

/// The latest manual state of the account strictly before `before_date`; among
/// several on that latest date, the first stored one.
pub open spec fn latest_state(states: Seq<ManualAccountState>, account_id: i32, before_date: Date) -> Option<
    ManualAccountState,
>
    decreases states.len(),
{
    if states.len() == 0 {
        None
    } else {
        let earlier = latest_state(states.drop_last(), account_id, before_date);
        let s = states.last();
        if state_before(s, account_id, before_date) && (earlier is None || s.date.days
            > earlier.unwrap().date.days) {
            Some(s)
        } else {
            earlier
        }
    }
}

/// Gets the latest manual account state of the account before the given date
/// (the first stored one among several on that latest date).
pub fn get_latest_manual_state(ledger: &Ledger, account_id: i32, before_date: Date) -> (r: Option<
    ManualAccountState,
>)
    ensures
        r == latest_state(ledger.manual_states@, account_id, before_date),
        r matches Some(s) ==> state_before(s, account_id, before_date) && (ledger.wf() ==> s.wf()),
{
    let mut best: Option<ManualAccountState> = None;
    let mut i: usize = 0;
    while i < ledger.manual_states.len()
        invariant
            i <= ledger.manual_states.len(),
            best == latest_state(ledger.manual_states@.take(i as int), account_id, before_date),
            best matches Some(b) ==> state_before(b, account_id, before_date) && (ledger.wf()
                ==> b.wf()),
        decreases ledger.manual_states.len() - i,
    {
        let s = ledger.manual_states[i];
        assert(ledger.manual_states@.take(i + 1).drop_last() == ledger.manual_states@.take(i as int));
        if s.account_id == account_id && s.date.days < before_date.days {
            match best {
                Some(b) => {
                    if s.date.days > b.date.days {
                        best = Some(s);
                    }
                },
                None => {
                    best = Some(s);
                },
            }
        }
        i = i + 1;
    }
    assert(ledger.manual_states@.take(ledger.manual_states.len() as int) == ledger.manual_states@);
    best
}

pub open spec fn state_in_range(s: ManualAccountState, account_id: i32, start: Date, end: Date) -> bool {
    s.account_id == account_id && start.days <= s.date.days <= end.days
}

/// `x` placed after every element of the date-sorted `s` whose date is not later.
pub open spec fn insert_by_date(s: Seq<ManualAccountState>, x: ManualAccountState) -> Seq<
    ManualAccountState,
>
    decreases s.len(),
{
    if s.len() == 0 {
        seq![x]
    } else if s.last().date.days <= x.date.days {
        s.push(x)
    } else {
        insert_by_date(s.drop_last(), x).push(s.last())
    }
}

/// Stable sort by date.
pub open spec fn sort_by_date(s: Seq<ManualAccountState>) -> Seq<ManualAccountState>
    decreases s.len(),
{
    if s.len() == 0 {
        seq![]
    } else {
        insert_by_date(sort_by_date(s.drop_last()), s.last())
    }
}

/// The manual states of the account within `[start, end]`.
pub open spec fn states_in_range(
    states: Seq<ManualAccountState>,
    account_id: i32,
    start: Date,
    end: Date,
) -> Seq<ManualAccountState>
    decreases states.len(),
{
    if states.len() == 0 {
        seq![]
    } else if state_in_range(states.last(), account_id, start, end) {
        states_in_range(states.drop_last(), account_id, start, end).push(states.last())
    } else {
        states_in_range(states.drop_last(), account_id, start, end)
    }
}

pub open spec fn sorted_by_date(s: Seq<ManualAccountState>) -> bool {
    forall|i: int, j: int| 0 <= i < j < s.len() ==> s[i].date.days <= s[j].date.days
}

proof fn lemma_insert_by_date(s: Seq<ManualAccountState>, x: ManualAccountState)
    requires
        sorted_by_date(s),
    ensures
        sorted_by_date(insert_by_date(s, x)),
        insert_by_date(s, x).len() == s.len() + 1,
        forall|k: int|
            0 <= k < insert_by_date(s, x).len() ==> (#[trigger] insert_by_date(s, x)[k] == x
                || s.contains(insert_by_date(s, x)[k])),
    decreases s.len(),
{
    if s.len() > 0 && s.last().date.days > x.date.days {
        lemma_insert_by_date(s.drop_last(), x);
        let t = insert_by_date(s.drop_last(), x);
        assert forall|k: int| 0 <= k < t.len() implies #[trigger] t[k].date.days <= s.last().date.days by {
            if t[k] != x {
                assert(s.drop_last().contains(t[k]));
            }
        }
        assert forall|k: int|
            0 <= k < insert_by_date(s, x).len() implies (#[trigger] insert_by_date(s, x)[k] == x
                || s.contains(insert_by_date(s, x)[k])) by {
            if k < t.len() && t[k] != x {
                assert(s.drop_last().contains(t[k]));
                let w = choose|w: int| 0 <= w < s.drop_last().len() && s.drop_last()[w] == t[k];
                assert(s[w] == t[k]);
            }
        }
    }
}

/// Inserting keeps every element and adds `x`.
proof fn lemma_insert_keeps(s: Seq<ManualAccountState>, x: ManualAccountState)
    ensures
        insert_by_date(s, x).contains(x),
        forall|y: ManualAccountState| s.contains(y) ==> #[trigger] insert_by_date(s, x).contains(y),
    decreases s.len(),
{
    if s.len() == 0 {
        assert(insert_by_date(s, x)[0] == x);
    } else if s.last().date.days <= x.date.days {
        assert(insert_by_date(s, x)[s.len() as int] == x);
        assert forall|y: ManualAccountState| s.contains(y) implies #[trigger] insert_by_date(s, x).contains(y) by {
            let w = choose|w: int| 0 <= w < s.len() && s[w] == y;
            assert(insert_by_date(s, x)[w] == y);
        }
    } else {
        lemma_insert_keeps(s.drop_last(), x);
        let t = insert_by_date(s.drop_last(), x);
        assert(insert_by_date(s, x) == t.push(s.last()));
        let w = choose|w: int| 0 <= w < t.len() && t[w] == x;
        assert(insert_by_date(s, x)[w] == x);
        assert forall|y: ManualAccountState| s.contains(y) implies #[trigger] insert_by_date(s, x).contains(y) by {
            let v = choose|v: int| 0 <= v < s.len() && s[v] == y;
            if v == s.len() - 1 {
                assert(insert_by_date(s, x)[t.len() as int] == y);
            } else {
                assert(s.drop_last()[v] == y);
                assert(s.drop_last().contains(y));
                assert(t.contains(y));
                let u = choose|u: int| 0 <= u < t.len() && t[u] == y;
                assert(insert_by_date(s, x)[u] == y);
            }
        }
    }
}

/// Sorting by date gives a date-sorted sequence holding exactly the elements
/// it was given.
pub proof fn lemma_sort_by_date(s: Seq<ManualAccountState>)
    ensures
        sorted_by_date(sort_by_date(s)),
        forall|k: int| 0 <= k < sort_by_date(s).len() ==> s.contains(#[trigger] sort_by_date(s)[k]),
        forall|y: ManualAccountState| s.contains(y) ==> #[trigger] sort_by_date(s).contains(y),
    decreases s.len(),
{
    if s.len() > 0 {
        let p = s.drop_last();
        lemma_sort_by_date(p);
        lemma_insert_by_date(sort_by_date(p), s.last());
        lemma_insert_keeps(sort_by_date(p), s.last());
        let t = sort_by_date(s);
        assert forall|k: int| 0 <= k < t.len() implies s.contains(#[trigger] t[k]) by {
            if t[k] == s.last() {
                assert(s[s.len() - 1] == s.last());
            } else {
                let w = choose|w: int| 0 <= w < sort_by_date(p).len() && sort_by_date(p)[w] == t[k];
                let v = choose|v: int| 0 <= v < p.len() && p[v] == t[k];
                assert(s[v] == t[k]);
            }
        }
        assert forall|y: ManualAccountState| s.contains(y) implies #[trigger] t.contains(y) by {
            let v = choose|v: int| 0 <= v < s.len() && s[v] == y;
            if v < s.len() - 1 {
                assert(p[v] == y);
                assert(p.contains(y));
            }
        }
    }
}

/// The states of the account within the range are the stored ones that lie
/// within it.
pub proof fn lemma_states_in_range(states: Seq<ManualAccountState>, account_id: i32, start: Date, end: Date)
    ensures
        forall|k: int|
            0 <= k < states_in_range(states, account_id, start, end).len() ==> states.contains(
                #[trigger] states_in_range(states, account_id, start, end)[k],
            ) && state_in_range(states_in_range(states, account_id, start, end)[k], account_id, start, end),
        forall|j: int|
            0 <= j < states.len() && state_in_range(#[trigger] states[j], account_id, start, end)
                ==> states_in_range(states, account_id, start, end).contains(states[j]),
    decreases states.len(),
{
    if states.len() > 0 {
        let p = states.drop_last();
        lemma_states_in_range(p, account_id, start, end);
        let r = states_in_range(states, account_id, start, end);
        let q = states_in_range(p, account_id, start, end);
        assert forall|k: int| 0 <= k < r.len() implies states.contains(#[trigger] r[k]) && state_in_range(
            r[k],
            account_id,
            start,
            end,
        ) by {
            if k < q.len() {
                assert(r[k] == q[k]);
                let v = choose|v: int| 0 <= v < p.len() && p[v] == q[k];
                assert(states[v] == q[k]);
            } else {
                assert(states[states.len() - 1] == r[k]);
            }
        }
        assert forall|j: int|
            0 <= j < states.len() && state_in_range(#[trigger] states[j], account_id, start, end) implies r.contains(
            states[j],
        ) by {
            if j < states.len() - 1 {
                assert(p[j] == states[j]);
                let u = choose|u: int| 0 <= u < q.len() && q[u] == states[j];
                assert(r[u] == states[j]);
            } else {
                assert(r[r.len() - 1] == states[j]);
            }
        }
    }
}

/// Position at which `x` goes into the date-sorted `v`.
fn insert_position(v: &Vec<ManualAccountState>, x: &ManualAccountState) -> (r: usize)
    requires
        sorted_by_date(v@),
    ensures
        r <= v.len(),
        insert_by_date(v@, *x) == v@.insert(r as int, *x),
{
    let mut k = v.len();
    while k > 0 && v[k - 1].date.days > x.date.days
        invariant
            k <= v.len(),
            sorted_by_date(v@),
            insert_by_date(v@, *x) == insert_by_date(v@.take(k as int), *x) + v@.skip(k as int),
        decreases k,
    {
        assert(v@.take(k as int).drop_last() == v@.take(k - 1));
        assert(v@.skip(k - 1) == seq![v@[k - 1]] + v@.skip(k as int));
        k = k - 1;
    }
    assert(insert_by_date(v@.take(k as int), *x) == v@.take(k as int).push(*x));
    assert(v@.insert(k as int, *x) == v@.take(k as int).push(*x) + v@.skip(k as int));
    k
}

/// Gets all manual states of the account within `[start_date, end_date]`, in
/// increasing date order (states on the same date keep their stored order).
pub fn get_manual_states_in_range(
    ledger: &Ledger,
    account_id: i32,
    start_date: Date,
    end_date: Date,
) -> (r: Vec<ManualAccountState>)
    ensures
        r@ == sort_by_date(states_in_range(ledger.manual_states@, account_id, start_date, end_date)),
        sorted_by_date(r@),
        forall|k: int|
            0 <= k < r.len() ==> state_in_range(#[trigger] r@[k], account_id, start_date, end_date)
                && (ledger.wf() ==> r@[k].wf()),
{
    let mut r: Vec<ManualAccountState> = Vec::new();
    let mut i: usize = 0;
    while i < ledger.manual_states.len()
        invariant
            i <= ledger.manual_states.len(),
            forall|k: int|
                0 <= k < r.len() ==> state_in_range(#[trigger] r@[k], account_id, start_date, end_date)
                    && (ledger.wf() ==> r@[k].wf()),
            r@ == sort_by_date(
                states_in_range(ledger.manual_states@.take(i as int), account_id, start_date, end_date),
            ),
            sorted_by_date(r@),
        decreases ledger.manual_states.len() - i,
    {
        let s = ledger.manual_states[i];
        assert(ledger.manual_states@.take(i + 1).drop_last() == ledger.manual_states@.take(i as int));
        if s.account_id == account_id && start_date.days <= s.date.days && s.date.days <= end_date.days {
            let pos = insert_position(&r, &s);
            proof {
                lemma_insert_by_date(r@, s);
                let f = states_in_range(ledger.manual_states@.take(i as int), account_id, start_date, end_date);
                assert(states_in_range(ledger.manual_states@.take(i + 1), account_id, start_date, end_date)
                    == f.push(s));
                assert(f.push(s).drop_last() == f);
            }
            let ghost old_r = r@;
            r.insert(pos, s);
            proof {
                assert forall|k: int| 0 <= k < r.len() implies state_in_range(
                    #[trigger] r@[k],
                    account_id,
                    start_date,
                    end_date,
                ) && (ledger.wf() ==> r@[k].wf()) by {
                    if k < pos {
                        assert(r@[k] == old_r[k]);
                    } else if k > pos {
                        assert(r@[k] == old_r[k - 1]);
                    }
                }
            }
        }
        i = i + 1;
    }
    assert(ledger.manual_states@.take(ledger.manual_states.len() as int) == ledger.manual_states@);
    r
}

// ---------------------------------------------------------------------------
// One-off and imported transactions
// ---------------------------------------------------------------------------

/// The one-off transaction touches the account within `[start, end]`.
pub open spec fn one_off_selected(t: OneOffTransaction, account_id: i32, start: Date, end: Date) -> bool {
    (t.target_account_id == account_id || t.source_account_id == Some(account_id)) && start.days
        <= t.date.days <= end.days
}

/// Gets all one-off transactions into or out of the account within
/// `[start_date, end_date]`, in stored order.
pub fn get_transactions_for_account(
    ledger: &Ledger,
    account_id: i32,
    start_date: Date,
    end_date: Date,
) -> (r: Vec<OneOffTransaction>)
    ensures
        r@ == ledger.one_off_transactions@.filter(
            |t: OneOffTransaction| one_off_selected(t, account_id, start_date, end_date),
        ),
{
    let ghost pred = |t: OneOffTransaction| one_off_selected(t, account_id, start_date, end_date);
    let mut r: Vec<OneOffTransaction> = Vec::new();
    let mut i: usize = 0;
    while i < ledger.one_off_transactions.len()
        invariant
            pred == (|t: OneOffTransaction| one_off_selected(t, account_id, start_date, end_date)),
            i <= ledger.one_off_transactions.len(),
            r@ == ledger.one_off_transactions@.take(i as int).filter(pred),
        decreases ledger.one_off_transactions.len() - i,
    {
        let t = ledger.one_off_transactions[i];
        proof {
            assert(ledger.one_off_transactions@.take(i + 1) == ledger.one_off_transactions@.take(
                i as int,
            ).push(t));
            ledger.one_off_transactions@.take(i as int).lemma_filter_push(t, pred);
            assert(ledger.one_off_transactions@.take(i + 1).filter(pred) == (if pred(t) {
                ledger.one_off_transactions@.take(i as int).filter(pred).push(t)
            } else {
                ledger.one_off_transactions@.take(i as int).filter(pred)
            }));
        }
        let touches = t.target_account_id == account_id || (match t.source_account_id {
            Some(src) => src == account_id,
            None => false,
        });
        if touches && start_date.days <= t.date.days && t.date.days <= end_date.days {
            r.push(t);
        }
        i = i + 1;
    }
    assert(ledger.one_off_transactions@.take(ledger.one_off_transactions.len() as int)
        == ledger.one_off_transactions@);
    r
}

/// The imported transaction belongs to the account and lies within `[start, end]`.
pub open spec fn imported_selected(t: ImportedTransaction, account_id: i32, start: Date, end: Date) -> bool {
    t.account_id == account_id && start.days <= t.date.days <= end.days
}

/// Gets all imported transactions of the account within `[start_date, end_date]`,
/// in stored order.
pub fn get_imported_transactions(
    ledger: &Ledger,
    account_id: i32,
    start_date: Date,
    end_date: Date,
) -> (r: Vec<ImportedTransaction>)
    ensures
        r@ == ledger.imported_transactions@.filter(
            |t: ImportedTransaction| imported_selected(t, account_id, start_date, end_date),
        ),
{
    let ghost pred = |t: ImportedTransaction| imported_selected(t, account_id, start_date, end_date);
    let mut r: Vec<ImportedTransaction> = Vec::new();
    let mut i: usize = 0;
    while i < ledger.imported_transactions.len()
        invariant
            pred == (|t: ImportedTransaction| imported_selected(t, account_id, start_date, end_date)),
            i <= ledger.imported_transactions.len(),
            r@ == ledger.imported_transactions@.take(i as int).filter(pred),
        decreases ledger.imported_transactions.len() - i,
    {
        let t = ledger.imported_transactions[i];
        proof {
            assert(ledger.imported_transactions@.take(i + 1) == ledger.imported_transactions@.take(
                i as int,
            ).push(t));
            ledger.imported_transactions@.take(i as int).lemma_filter_push(t, pred);
            assert(ledger.imported_transactions@.take(i + 1).filter(pred) == (if pred(t) {
                ledger.imported_transactions@.take(i as int).filter(pred).push(t)
            } else {
                ledger.imported_transactions@.take(i as int).filter(pred)
            }));
        }
        if t.account_id == account_id && start_date.days <= t.date.days && t.date.days
            <= end_date.days {
            r.push(t);
        }
        i = i + 1;
    }
    assert(ledger.imported_transactions@.take(ledger.imported_transactions.len() as int)
        == ledger.imported_transactions@);
    r
}

// ---------------------------------------------------------------------------
// Occurrences of recurring items
// ---------------------------------------------------------------------------

/// Some instance is due on the date.
pub open spec fn has_instance_due(instances: Seq<RecurringInstance>, d: Date) -> bool {
    exists|i: int| 0 <= i < instances.len() && (#[trigger] instances[i]).due_date.days == d.days
}

/// An occurrence is kept when it lies on or after `today`, or when an instance is
/// due on it.
pub open spec fn occurrence_kept(d: Date, instances: Seq<RecurringInstance>, today: Date) -> bool {
    d.days >= today.days || has_instance_due(instances, d)
}

/// The occurrences that count: future ones (on or after `today`) are all kept;
/// past ones only when an instance is due on that date.
pub open spec fn kept_occurrences(
    occ: Seq<Date>,
    instances: Seq<RecurringInstance>,
    today: Date,
) -> Seq<Date> {
    occ.filter(|d: Date| occurrence_kept(d, instances, today))
}

/// Processes occurrences for a recurring item: occurrences on or after `today`
/// are kept; an earlier occurrence is kept only when one of `instances` is due on
/// that date.
pub fn process_occurrences(occurrences: Vec<Date>, instances: &Vec<RecurringInstance>, today: Date) -> (r:
    Vec<Date>)
    ensures
        r@ == kept_occurrences(occurrences@, instances@, today),
        (forall|i: int| 0 <= i < occurrences.len() ==> (#[trigger] occurrences[i]).wf()) ==> forall|
            i: int,
        | 0 <= i < r.len() ==> (#[trigger] r[i]).wf(),
{
    let ghost pred = |d: Date| occurrence_kept(d, instances@, today);
    let mut r: Vec<Date> = Vec::new();
    let mut i: usize = 0;
    while i < occurrences.len()
        invariant
            pred == (|d: Date| occurrence_kept(d, instances@, today)),
            i <= occurrences.len(),
            r@ == occurrences@.take(i as int).filter(pred),
        decreases occurrences.len() - i,
    {
        let date = occurrences[i];
        proof {
            assert(occurrences@.take(i + 1) == occurrences@.take(i as int).push(date));
            occurrences@.take(i as int).lemma_filter_push(date, pred);
            assert(occurrences@.take(i + 1).filter(pred) == (if pred(date) {
                occurrences@.take(i as int).filter(pred).push(date)
            } else {
                occurrences@.take(i as int).filter(pred)
            }));
        }
        if date.days >= today.days {
            r.push(date);
        } else {
            let mut found = false;
            let mut j: usize = 0;
            while j < instances.len()
                invariant
                    j <= instances.len(),
                    found == exists|k: int|
                        0 <= k < j && (#[trigger] instances@[k]).due_date.days == date.days,
                decreases instances.len() - j,
            {
                if instances[j].due_date.days == date.days {
                    found = true;
                }
                j = j + 1;
            }
            if found {
                r.push(date);
            }
        }
        i = i + 1;
    }
    assert(occurrences@.take(occurrences.len() as int) == occurrences@);
    proof {
        if forall|i: int| 0 <= i < occurrences.len() ==> (#[trigger] occurrences[i]).wf() {
            assert forall|i: int| 0 <= i < r.len() implies (#[trigger] r[i]).wf() by {
                lemma_filter_member(occurrences@, pred, i);
            }
        }
    }
    r
}

/// The instance is a paid instance of the recurring item `id`.
pub open spec fn paid_instance_of(x: RecurringInstance, id: i32) -> bool {
    x.recurring_transaction_id == id && x.status == InstanceStatus::Paid
}

pub open spec fn paid_instances(instances: Seq<RecurringInstance>, id: i32) -> Seq<RecurringInstance> {
    instances.filter(|x: RecurringInstance| paid_instance_of(x, id))
}

/// Fetches the paid instances of a recurring item; pending and skipped instances
/// do not count towards a balance.
pub fn fetch_transaction_instances(ledger: &Ledger, transaction_id: i32) -> (r: Vec<RecurringInstance>)
    ensures
        r@ == paid_instances(ledger.instances@, transaction_id),
{
    let ghost pred = |x: RecurringInstance| paid_instance_of(x, transaction_id);
    let mut r: Vec<RecurringInstance> = Vec::new();
    let mut i: usize = 0;
    while i < ledger.instances.len()
        invariant
            pred == (|x: RecurringInstance| paid_instance_of(x, transaction_id)),
            i <= ledger.instances.len(),
            r@ == ledger.instances@.take(i as int).filter(pred),
        decreases ledger.instances.len() - i,
    {
        let x = ledger.instances[i];
        proof {
            assert(ledger.instances@.take(i + 1) == ledger.instances@.take(i as int).push(x));
            ledger.instances@.take(i as int).lemma_filter_push(x, pred);
            assert(ledger.instances@.take(i + 1).filter(pred) == (if pred(x) {
                ledger.instances@.take(i as int).filter(pred).push(x)
            } else {
                ledger.instances@.take(i as int).filter(pred)
            }));
        }
        if x.recurring_transaction_id == transaction_id && x.status == InstanceStatus::Paid {
            r.push(x);
        }
        i = i + 1;
    }
    assert(ledger.instances@.take(ledger.instances.len() as int) == ledger.instances@);
    r
}

/// Batch-fetches the paid instances of several recurring items: entry `k` holds
/// those of `income_ids[k]`.
pub fn fetch_income_instances_batch(ledger: &Ledger, income_ids: &Vec<i32>) -> (r: Vec<
    Vec<RecurringInstance>,
>)
    ensures
        r.len() == income_ids.len(),
        forall|k: int|
            0 <= k < r.len() ==> (#[trigger] r[k])@ == paid_instances(ledger.instances@, income_ids[k]),
{
    let mut r: Vec<Vec<RecurringInstance>> = Vec::new();
    let mut k: usize = 0;
    while k < income_ids.len()
        invariant
            k <= income_ids.len(),
            r.len() == k,
            forall|j: int|
                0 <= j < k ==> (#[trigger] r[j])@ == paid_instances(ledger.instances@, income_ids[j]),
        decreases income_ids.len() - k,
    {
        let v = fetch_transaction_instances(ledger, income_ids[k]);
        r.push(v);
        k = k + 1;
    }
    r
}

/// The recurring transaction touches the account and is active at some point of
/// `[start, end]`, and is visible in the scenario context.
pub open spec fn recurring_selected(
    t: RecurringTransaction,
    account_id: i32,
    start: Date,
    end: Date,
    context: Option<i32>,
) -> bool {
    &&& t.target_account_id == account_id || t.source_account_id == Some(account_id)
    &&& t.end_date matches Some(e) ==> e.days >= start.days
    &&& t.start_date.days <= end.days
    &&& visible_in(t.is_simulated, t.scenario_id, context)
}

/// Fetches the recurring transactions of the account that are active within
/// `[start_date, end_date]` and visible in the scenario context.
pub fn fetch_recurring_transactions(
    ledger: &Ledger,
    account_id: i32,
    start_date: Date,
    end_date: Date,
    scenario_context: Option<i32>,
) -> (r: Vec<RecurringTransaction>)
    ensures
        r@ == ledger.recurring_transactions@.filter(
            |t: RecurringTransaction|
                recurring_selected(t, account_id, start_date, end_date, scenario_context),
        ),
{
    let ghost pred = |t: RecurringTransaction|
        recurring_selected(t, account_id, start_date, end_date, scenario_context);
    let mut r: Vec<RecurringTransaction> = Vec::new();
    let mut i: usize = 0;
    while i < ledger.recurring_transactions.len()
        invariant
            pred == (|t: RecurringTransaction|
        recurring_selected(t, account_id, start_date, end_date, scenario_context)),
            i <= ledger.recurring_transactions.len(),
            r@ == ledger.recurring_transactions@.take(i as int).filter(pred),
        decreases ledger.recurring_transactions.len() - i,
    {
        let t = ledger.recurring_transactions[i];
        proof {
            assert(ledger.recurring_transactions@.take(i + 1)
                == ledger.recurring_transactions@.take(i as int).push(t));
            ledger.recurring_transactions@.take(i as int).lemma_filter_push(t, pred);
            assert(ledger.recurring_transactions@.take(i + 1).filter(pred) == (if pred(t) {
                ledger.recurring_transactions@.take(i as int).filter(pred).push(t)
            } else {
                ledger.recurring_transactions@.take(i as int).filter(pred)
            }));
        }
        let touches = t.target_account_id == account_id || (match t.source_account_id {
            Some(src) => src == account_id,
            None => false,
        });
        let active = match t.end_date {
            Some(e) => e.days >= start_date.days,
            None => true,
        } && t.start_date.days <= end_date.days;
        if touches && active && is_visible(t.is_simulated, t.scenario_id, scenario_context) {
            r.push(t);
        }
        i = i + 1;
    }
    assert(ledger.recurring_transactions@.take(ledger.recurring_transactions.len() as int)
        == ledger.recurring_transactions@);
    r
}

/// Every element of a filtered sequence comes from the sequence.
pub proof fn lemma_filter_member<A>(s: Seq<A>, p: spec_fn(A) -> bool, j: int)
    requires
        0 <= j < s.filter(p).len(),
    ensures
        exists|i: int| 0 <= i < s.len() && s[i] == s.filter(p)[j],
{
    assert(s.filter(p).contains(s.filter(p)[j]));
    s.lemma_filter_contains_rev(p, s.filter(p)[j]);
}

/// Each date paired with the item.
pub open spec fn dated<T>(dates: Seq<Date>, x: T) -> Seq<(Date, T)> {
    dates.map_values(|d: Date| (d, x))
}

/// The dates on which a recurring transaction counts for a balance.
pub open spec fn transaction_dates(
    tx: RecurringTransaction,
    instances: Seq<RecurringInstance>,
    start: Date,
    end: Date,
    today: Date,
) -> Seq<Date> {
    kept_occurrences(
        occurrences(tx.start_date, tx.end_date, tx.period, start, end),
        paid_instances(instances, tx.id),
        today,
    )
}

/// All (date, transaction) pairs of the given recurring transactions, transaction
/// by transaction.
pub open spec fn transaction_pairs(
    txs: Seq<RecurringTransaction>,
    instances: Seq<RecurringInstance>,
    start: Date,
    end: Date,
    today: Date,
) -> Seq<(Date, RecurringTransaction)>
    decreases txs.len(),
{
    if txs.len() == 0 {
        seq![]
    } else {
        transaction_pairs(txs.drop_last(), instances, start, end, today) + dated(
            transaction_dates(txs.last(), instances, start, end, today),
            txs.last(),
        )
    }
}

/// Appends each date paired with `x` to `out`.
pub(crate) fn push_dated<T: Copy>(out: &mut Vec<(Date, T)>, dates: &Vec<Date>, x: T)
    ensures
        final(out)@ == old(out)@ + dated(dates@, x),
{
    let ghost start = out@;
    let mut k: usize = 0;
    while k < dates.len()
        invariant
            k <= dates.len(),
            out@ == start + dated(dates@.take(k as int), x),
        decreases dates.len() - k,
    {
        assert(dated(dates@.take(k + 1), x) == dated(dates@.take(k as int), x).push((dates@[k as int], x)));
        out.push((dates[k], x));
        k = k + 1;
    }
    assert(dates@.take(dates.len() as int) == dates@);
}

/// The dates on which a recurring transaction counts for a balance within
/// `[start_date, end_date]`.
pub fn process_transaction_occurrences(
    tx: &RecurringTransaction,
    instances: &Vec<RecurringInstance>,
    start_date: Date,
    end_date: Date,
    today: Date,
) -> (r: Vec<Date>)
    requires
        tx.wf(),
        start_date.wf(),
        end_date.wf(),
        end_date.year < MAX_YEAR - 1,
    ensures
        r@ == kept_occurrences(
            occurrences(tx.start_date, tx.end_date, tx.period, start_date, end_date),
            instances@,
            today,
        ),
        forall|i: int| 0 <= i < r.len() ==> (#[trigger] r[i]).wf(),
{
    let occ = generate_occurrences(tx.start_date, tx.end_date, &tx.period, start_date, end_date);
    process_occurrences(occ, instances, today)
}

/// Gets all recurring transactions of the account within the given date range as
/// (date, transaction) pairs: occurrences on or after `today` are all included;
/// earlier ones only when a paid instance is due on that date.
pub fn get_recurring_transactions(
    ledger: &Ledger,
    account_id: i32,
    start_date: Date,
    end_date: Date,
    today: Date,
    scenario_context: Option<i32>,
) -> (r: Vec<(Date, RecurringTransaction)>)
    requires
        ledger.wf(),
        start_date.wf(),
        end_date.wf(),
        end_date.year < MAX_YEAR - 1,
    ensures
        r@ == transaction_pairs(
            ledger.recurring_transactions@.filter(
                |t: RecurringTransaction|
                    recurring_selected(t, account_id, start_date, end_date, scenario_context),
            ),
            ledger.instances@,
            start_date,
            end_date,
            today,
        ),
        forall|k: int| 0 <= k < r.len() ==> (#[trigger] r[k]).0.wf() && r[k].1.wf(),
{
    let transactions = fetch_recurring_transactions(
        ledger,
        account_id,
        start_date,
        end_date,
        scenario_context,
    );
    proof {
        assert forall|j: int| 0 <= j < transactions.len() implies (#[trigger] transactions@[j]).wf() by {
            lemma_filter_member(
                ledger.recurring_transactions@,
                |t: RecurringTransaction|
                    recurring_selected(t, account_id, start_date, end_date, scenario_context),
                j,
            );
        }
    }
    let mut result: Vec<(Date, RecurringTransaction)> = Vec::new();
    let mut k: usize = 0;
    while k < transactions.len()
        invariant
            ledger.wf(),
            start_date.wf(),
            end_date.wf(),
            end_date.year < MAX_YEAR - 1,
            k <= transactions.len(),
            forall|j: int| 0 <= j < transactions.len() ==> (#[trigger] transactions@[j]).wf(),
            result@ == transaction_pairs(
                transactions@.take(k as int),
                ledger.instances@,
                start_date,
                end_date,
                today,
            ),
            forall|q: int| 0 <= q < result.len() ==> (#[trigger] result[q]).0.wf() && result[q].1.wf(),
        decreases transactions.len() - k,
    {
        let tx = transactions[k];
        let instances = fetch_transaction_instances(ledger, tx.id);
        let dates = process_transaction_occurrences(&tx, &instances, start_date, end_date, today);
        assert(transactions@.take(k + 1).drop_last() == transactions@.take(k as int));
        push_dated(&mut result, &dates, tx);
        k = k + 1;
    }
    assert(transactions@.take(transactions.len() as int) == transactions@);
    result
}

// ---------------------------------------------------------------------------
// Recurring income
// ---------------------------------------------------------------------------

/// The recurring income goes into the account, is active at some point of
/// `[start, end]`, and is visible in the scenario context.
pub open spec fn income_selected(
    t: RecurringIncome,
    account_id: i32,
    start: Date,
    end: Date,
    context: Option<i32>,
) -> bool {
    &&& t.target_account_id == account_id
    &&& t.end_date matches Some(e) ==> e.days >= start.days
    &&& t.start_date.days <= end.days
    &&& visible_in(t.is_simulated, t.scenario_id, context)
}

/// Fetches the recurring income definitions of the account that are active
/// within `[start_date, end_date]`: in standard mode (`None`) only real income, in
/// scenario mode (`Some(id)`) real income and the simulated income of scenario `id`.
pub fn fetch_recurring_income(
    ledger: &Ledger,
    account_id: i32,
    start_date: Date,
    end_date: Date,
    scenario_context: Option<i32>,
) -> (r: Vec<RecurringIncome>)
    ensures
        r@ == ledger.recurring_incomes@.filter(
            |t: RecurringIncome| income_selected(t, account_id, start_date, end_date, scenario_context),
        ),
{
    let ghost pred = |t: RecurringIncome|
        income_selected(t, account_id, start_date, end_date, scenario_context);
    let mut r: Vec<RecurringIncome> = Vec::new();
    let mut i: usize = 0;
    while i < ledger.recurring_incomes.len()
        invariant
            pred == (|t: RecurringIncome|
                income_selected(t, account_id, start_date, end_date, scenario_context)),
            i <= ledger.recurring_incomes.len(),
            r@ == ledger.recurring_incomes@.take(i as int).filter(pred),
        decreases ledger.recurring_incomes.len() - i,
    {
        let t = ledger.recurring_incomes[i];
        proof {
            assert(ledger.recurring_incomes@.take(i + 1) == ledger.recurring_incomes@.take(
                i as int,
            ).push(t));
            ledger.recurring_incomes@.take(i as int).lemma_filter_push(t, pred);
            assert(ledger.recurring_incomes@.take(i + 1).filter(pred) == (if pred(t) {
                ledger.recurring_incomes@.take(i as int).filter(pred).push(t)
            } else {
                ledger.recurring_incomes@.take(i as int).filter(pred)
            }));
        }
        let active = match t.end_date {
            Some(e) => e.days >= start_date.days,
            None => true,
        } && t.start_date.days <= end_date.days;
        if t.target_account_id == account_id && active && is_visible(
            t.is_simulated,
            t.scenario_id,
            scenario_context,
        ) {
            r.push(t);
        }
        i = i + 1;
    }
    assert(ledger.recurring_incomes@.take(ledger.recurring_incomes.len() as int)
        == ledger.recurring_incomes@);
    r
}

/// The dates on which a recurring income counts for a balance.
pub open spec fn income_dates(
    income: RecurringIncome,
    instances: Seq<RecurringInstance>,
    start: Date,
    end: Date,
    today: Date,
) -> Seq<Date> {
    kept_occurrences(
        occurrences(income.start_date, income.end_date, income.period, start, end),
        paid_instances(instances, income.id),
        today,
    )
}

/// All (date, income) pairs of the given recurring incomes, income by income.
pub open spec fn income_pairs(
    incomes: Seq<RecurringIncome>,
    instances: Seq<RecurringInstance>,
    start: Date,
    end: Date,
    today: Date,
) -> Seq<(Date, RecurringIncome)>
    decreases incomes.len(),
{
    if incomes.len() == 0 {
        seq![]
    } else {
        income_pairs(incomes.drop_last(), instances, start, end, today) + dated(
            income_dates(incomes.last(), instances, start, end, today),
            incomes.last(),
        )
    }
}

/// The dates on which a recurring income counts for a balance within
/// `[start_date, end_date]`.
pub fn process_income_occurrences(
    income: &RecurringIncome,
    instances: &Vec<RecurringInstance>,
    start_date: Date,
    end_date: Date,
    today: Date,
) -> (r: Vec<Date>)
    requires
        income.wf(),
        start_date.wf(),
        end_date.wf(),
        end_date.year < MAX_YEAR - 1,
    ensures
        r@ == kept_occurrences(
            occurrences(income.start_date, income.end_date, income.period, start_date, end_date),
            instances@,
            today,
        ),
        forall|i: int| 0 <= i < r.len() ==> (#[trigger] r[i]).wf(),
{
    let occ = generate_occurrences(
        income.start_date,
        income.end_date,
        &income.period,
        start_date,
        end_date,
    );
    process_occurrences(occ, instances, today)
}

/// Gets all recurring income of the account within the given date range as
/// (date, income) pairs: occurrences on or after `today` are all included;
/// earlier ones only when a paid instance is due on that date.
pub fn get_recurring_income(
    ledger: &Ledger,
    account_id: i32,
    start_date: Date,
    end_date: Date,
    today: Date,
    scenario_context: Option<i32>,
) -> (r: Vec<(Date, RecurringIncome)>)
    requires
        ledger.wf(),
        start_date.wf(),
        end_date.wf(),
        end_date.year < MAX_YEAR - 1,
    ensures
        r@ == income_pairs(
            ledger.recurring_incomes@.filter(
                |t: RecurringIncome|
                    income_selected(t, account_id, start_date, end_date, scenario_context),
            ),
            ledger.instances@,
            start_date,
            end_date,
            today,
        ),
        forall|k: int| 0 <= k < r.len() ==> (#[trigger] r[k]).0.wf() && r[k].1.wf(),
{
    let incomes = fetch_recurring_income(ledger, account_id, start_date, end_date, scenario_context);
    proof {
        assert forall|j: int| 0 <= j < incomes.len() implies (#[trigger] incomes@[j]).wf() by {
            lemma_filter_member(
                ledger.recurring_incomes@,
                |t: RecurringIncome|
                    income_selected(t, account_id, start_date, end_date, scenario_context),
                j,
            );
        }
    }
    let mut income_ids: Vec<i32> = Vec::new();
    let mut k: usize = 0;
    while k < incomes.len()
        invariant
            k <= incomes.len(),
            income_ids.len() == k,
            forall|j: int| 0 <= j < k ==> income_ids[j] == (#[trigger] incomes@[j]).id,
        decreases incomes.len() - k,
    {
        income_ids.push(incomes[k].id);
        k = k + 1;
    }
    let instances_map = fetch_income_instances_batch(ledger, &income_ids);
    let mut result: Vec<(Date, RecurringIncome)> = Vec::new();
    let mut k: usize = 0;
    while k < incomes.len()
        invariant
            ledger.wf(),
            start_date.wf(),
            end_date.wf(),
            end_date.year < MAX_YEAR - 1,
            k <= incomes.len(),
            instances_map.len() == incomes.len(),
            income_ids.len() == incomes.len(),
            forall|j: int| 0 <= j < incomes.len() ==> income_ids[j] == (#[trigger] incomes@[j]).id,
            forall|j: int|
                0 <= j < instances_map.len() ==> (#[trigger] instances_map[j])@ == paid_instances(
                    ledger.instances@,
                    income_ids[j],
                ),
            forall|j: int| 0 <= j < incomes.len() ==> (#[trigger] incomes@[j]).wf(),
            result@ == income_pairs(
                incomes@.take(k as int),
                ledger.instances@,
                start_date,
                end_date,
                today,
            ),
            forall|q: int| 0 <= q < result.len() ==> (#[trigger] result[q]).0.wf() && result[q].1.wf(),
        decreases incomes.len() - k,
    {
        let income = incomes[k];
        let dates = process_income_occurrences(&income, &instances_map[k], start_date, end_date, today);
        assert(incomes@.take(k + 1).drop_last() == incomes@.take(k as int));
        push_dated(&mut result, &dates, income);
        k = k + 1;
    }
    assert(incomes@.take(incomes.len() as int) == incomes@);
    result
}

} // verus!
