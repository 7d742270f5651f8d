//! Builders of ledgers and the reference scenarios of the calculators: a
//! ledger, its accounts and the balances expected on some dates.

use crate::amount::Amount;
use crate::calendar::{date_of, lemma_date_of, month_length, valid_ymd, year_in_range, Date};
use crate::model::{
    Account, AccountKind, InstanceStatus, Ledger, ManualAccountState, OneOffTransaction,
    RecurringInstance, RecurringTransaction,
};
use crate::recurrence::RecurrencePeriod;
use vstd::prelude::*;

verus! {

/// The date with the given year, month and day, which must exist.
pub fn ymd(year: i32, month: u32, day: u32) -> (r: Date)
    requires
        valid_ymd(year as int, month as int, day as int),
        year_in_range(year as int),
    ensures
        r.wf(),
        r.year == year,
        r.month == month,
        r.day == day,
        r == date_of(year as int, month as int, day as int),
{
    let d = Date::from_ymd(year, month, day).unwrap();
    proof {
        lemma_date_of(d);
    }
    d
}

/// A whole number of currency units as an amount with two decimal places.
pub open spec fn units_amount(units: int) -> Amount {
    Amount { mantissa: (units * 100) as i128, scale: 2 }
}

/// The account that [`new_account`] records under id `id`.
pub open spec fn fixture_account(a: Account, id: int) -> bool {
    &&& a.id == id
    &&& a.name@ == "Test account"@
    &&& a.description matches Some(d) && d@ == "Account for balance testing"@
    &&& a.currency_code@ == "USD"@
    &&& a.owner_id == id
    &&& a.include_in_statistics
    &&& a.ledger_name is None
    &&& a.account_kind == AccountKind::RealAccount
    &&& a.target_amount is None
    &&& a.is_liquid
}

/// The manual state that [`new_manual_account_state`] records.
pub open spec fn fixture_state(id: int, account_id: i32, date: Date, units: int) -> ManualAccountState {
    ManualAccountState { id: id as i32, account_id, date, amount: units_amount(units) }
}

/// The monthly recurring transaction that [`new_recurring_transaction`] records.
pub open spec fn fixture_recurring(id: int, account_id: i32, date: Date, units: int) -> RecurringTransaction {
    RecurringTransaction {
        id: id as i32,
        amount: units_amount(units),
        start_date: date,
        end_date: None,
        period: RecurrencePeriod::Monthly,
        include_in_statistics: true,
        target_account_id: account_id,
        source_account_id: None,
        scenario_id: None,
        is_simulated: false,
    }
}

/// The paid instance that [`new_recurring_instance`] records for `t`, paid on
/// `date` and due on `t`'s start date moved to the month of `date`.
pub open spec fn fixture_instance(id: int, t: RecurringTransaction, date: Date) -> RecurringInstance {
    RecurringInstance {
        id: id as i32,
        recurring_transaction_id: t.id,
        status: InstanceStatus::Paid,
        due_date: date_of(t.start_date.year as int, date.month as int, t.start_date.day as int),
        expected_amount: t.amount,
        paid_date: Some(date),
        paid_amount: Some(t.amount),
    }
}

/// The one-off transaction that [`new_one_off_trsansaction`] (no source) and
/// [`new_one_off_account_transfer`] (a source) record.
pub open spec fn fixture_one_off(id: int, target: i32, source: Option<i32>, date: Date, units: int) -> OneOffTransaction {
    OneOffTransaction {
        id: id as i32,
        amount: units_amount(units),
        date,
        include_in_statistics: true,
        target_account_id: target,
        source_account_id: source,
        category_id: None,
        reconciled_recurring_transaction_id: None,
        scenario_id: None,
        is_simulated: false,
    }
}

/// The amount `amount` in hundredths (two decimal places), as the fixtures
/// store whole currency units.
fn hundredths(amount: i64) -> (r: Amount)
    requires
        -92233720368547758 <= amount <= 92233720368547758,
    ensures
        r.wf(),
        r.mantissa == amount * 100,
        r.scale == 2,
{
    Amount::new(amount * 100, 2)
}

/// The fixture bounds on a whole amount.
pub open spec fn fixture_amount(amount: i64) -> bool {
    -92233720368547758 <= amount <= 92233720368547758
}

/// Adds an account with the next free id and returns it.
pub fn new_account(ledger: &mut Ledger) -> (r: Account)
    requires
        old(ledger).wf(),
        old(ledger).accounts.len() < i32::MAX,
    ensures
        final(ledger).wf(),
        r.id == old(ledger).accounts.len() + 1,
        fixture_account(r, r.id as int),
        final(ledger).accounts.len() == old(ledger).accounts.len() + 1,
        final(ledger).accounts@[r.id - 1].id == r.id,
        fixture_account(final(ledger).accounts@[r.id - 1], r.id as int),
        forall|i: int| 0 <= i < old(ledger).accounts.len() ==> final(ledger).accounts@[i] == old(ledger).accounts@[i],
        final(ledger).manual_states@ == old(ledger).manual_states@,
        final(ledger).one_off_transactions@ == old(ledger).one_off_transactions@,
        final(ledger).imported_transactions@ == old(ledger).imported_transactions@,
        final(ledger).recurring_transactions@ == old(ledger).recurring_transactions@,
        final(ledger).recurring_incomes@ == old(ledger).recurring_incomes@,
        final(ledger).instances@ == old(ledger).instances@,
{
    let id = (ledger.accounts.len() + 1) as i32;
    let account = Account {
        id,
        name: String::from_str("Test account"),
        description: Some(String::from_str("Account for balance testing")),
        currency_code: String::from_str("USD"),
        owner_id: id,
        include_in_statistics: true,
        ledger_name: None,
        account_kind: AccountKind::RealAccount,
        target_amount: None,
        is_liquid: true,
    };
    let copy = account.duplicate();
    ledger.accounts.push(account);
    copy
}

/// Records a manual balance of the account (in whole units) on the date.
pub fn new_manual_account_state(ledger: &mut Ledger, account: &Account, date: Date, amount: i64) -> (r:
    ManualAccountState)
    requires
        old(ledger).wf(),
        date.wf(),
        fixture_amount(amount),
        old(ledger).manual_states.len() < i32::MAX,
    ensures
        final(ledger).wf(),
        r.account_id == account.id,
        r.date == date,
        r.amount.mantissa == amount * 100 && r.amount.scale == 2,
        r == fixture_state(old(ledger).manual_states.len() + 1, account.id, date, amount as int),
        final(ledger).manual_states@ == old(ledger).manual_states@.push(r),
        final(ledger).accounts@ == old(ledger).accounts@,
        final(ledger).one_off_transactions@ == old(ledger).one_off_transactions@,
        final(ledger).imported_transactions@ == old(ledger).imported_transactions@,
        final(ledger).recurring_transactions@ == old(ledger).recurring_transactions@,
        final(ledger).recurring_incomes@ == old(ledger).recurring_incomes@,
        final(ledger).instances@ == old(ledger).instances@,
{
    let state = ManualAccountState {
        id: (ledger.manual_states.len() + 1) as i32,
        account_id: account.id,
        date,
        amount: hundredths(amount),
    };
    ledger.manual_states.push(state);
    state
}

/// Records a monthly recurring transaction of the account (in whole units),
/// starting on the date and without end.
pub fn new_recurring_transaction(ledger: &mut Ledger, account: &Account, date: Date, amount: i64) -> (r:
    RecurringTransaction)
    requires
        old(ledger).wf(),
        date.wf(),
        fixture_amount(amount),
        old(ledger).recurring_transactions.len() < i32::MAX,
    ensures
        final(ledger).wf(),
        r.target_account_id == account.id,
        r.source_account_id is None,
        r.start_date == date,
        r.end_date is None,
        r.period == RecurrencePeriod::Monthly,
        r.amount.mantissa == amount * 100 && r.amount.scale == 2,
        !r.is_simulated,
        r == fixture_recurring(old(ledger).recurring_transactions.len() + 1, account.id, date, amount as int),
        final(ledger).recurring_transactions@ == old(ledger).recurring_transactions@.push(r),
        final(ledger).accounts@ == old(ledger).accounts@,
        final(ledger).manual_states@ == old(ledger).manual_states@,
        final(ledger).one_off_transactions@ == old(ledger).one_off_transactions@,
        final(ledger).imported_transactions@ == old(ledger).imported_transactions@,
        final(ledger).recurring_incomes@ == old(ledger).recurring_incomes@,
        final(ledger).instances@ == old(ledger).instances@,
{
    let tx = RecurringTransaction {
        id: (ledger.recurring_transactions.len() + 1) as i32,
        amount: hundredths(amount),
        start_date: date,
        end_date: None,
        period: RecurrencePeriod::Monthly,
        include_in_statistics: true,
        target_account_id: account.id,
        source_account_id: None,
        scenario_id: None,
        is_simulated: false,
    };
    ledger.recurring_transactions.push(tx);
    tx
}

/// Records a paid instance of the recurring transaction, paid on `date`; it is
/// due on the transaction's start date moved to the month of `date`.
pub fn new_recurring_instance(ledger: &mut Ledger, transaction: &RecurringTransaction, date: Date) -> (r:
    RecurringInstance)
    requires
        old(ledger).wf(),
        transaction.wf(),
        date.wf(),
        valid_ymd(transaction.start_date.year as int, date.month as int, transaction.start_date.day as int),
        old(ledger).instances.len() < i32::MAX,
    ensures
        final(ledger).wf(),
        r.recurring_transaction_id == transaction.id,
        r.status == InstanceStatus::Paid,
        r.due_date.year == transaction.start_date.year && r.due_date.month == date.month
            && r.due_date.day == transaction.start_date.day,
        r.paid_date == Some(date),
        r.expected_amount == transaction.amount,
        r.paid_amount == Some(transaction.amount),
        r == fixture_instance(old(ledger).instances.len() + 1, *transaction, date),
        final(ledger).instances@ == old(ledger).instances@.push(r),
        final(ledger).accounts@ == old(ledger).accounts@,
        final(ledger).manual_states@ == old(ledger).manual_states@,
        final(ledger).one_off_transactions@ == old(ledger).one_off_transactions@,
        final(ledger).imported_transactions@ == old(ledger).imported_transactions@,
        final(ledger).recurring_transactions@ == old(ledger).recurring_transactions@,
        final(ledger).recurring_incomes@ == old(ledger).recurring_incomes@,
{
    let due = ymd(transaction.start_date.year, date.month, transaction.start_date.day);
    let instance = RecurringInstance {
        id: (ledger.instances.len() + 1) as i32,
        recurring_transaction_id: transaction.id,
        status: InstanceStatus::Paid,
        due_date: due,
        expected_amount: transaction.amount,
        paid_date: Some(date),
        paid_amount: Some(transaction.amount),
    };
    ledger.instances.push(instance);
    instance
}

fn push_one_off(ledger: &mut Ledger, tx: OneOffTransaction)
    requires
        old(ledger).wf(),
        tx.wf(),
    ensures
        final(ledger).wf(),
        final(ledger).one_off_transactions@ == old(ledger).one_off_transactions@.push(tx),
        final(ledger).accounts@ == old(ledger).accounts@,
        final(ledger).manual_states@ == old(ledger).manual_states@,
        final(ledger).imported_transactions@ == old(ledger).imported_transactions@,
        final(ledger).recurring_transactions@ == old(ledger).recurring_transactions@,
        final(ledger).recurring_incomes@ == old(ledger).recurring_incomes@,
        final(ledger).instances@ == old(ledger).instances@,
{
    ledger.one_off_transactions.push(tx);
}

/// Records a one-off transaction into the account (in whole units).
pub fn new_one_off_trsansaction(ledger: &mut Ledger, account: &Account, date: Date, amount: i64) -> (r:
    OneOffTransaction)
    requires
        old(ledger).wf(),
        date.wf(),
        fixture_amount(amount),
        old(ledger).one_off_transactions.len() < i32::MAX,
    ensures
        final(ledger).wf(),
        r.target_account_id == account.id,
        r.source_account_id is None,
        r.date == date,
        r.amount.mantissa == amount * 100 && r.amount.scale == 2,
        !r.is_simulated,
        r == fixture_one_off(old(ledger).one_off_transactions.len() + 1, account.id, None, date, amount as int),
        final(ledger).one_off_transactions@ == old(ledger).one_off_transactions@.push(r),
        final(ledger).accounts@ == old(ledger).accounts@,
        final(ledger).manual_states@ == old(ledger).manual_states@,
        final(ledger).imported_transactions@ == old(ledger).imported_transactions@,
        final(ledger).recurring_transactions@ == old(ledger).recurring_transactions@,
        final(ledger).recurring_incomes@ == old(ledger).recurring_incomes@,
        final(ledger).instances@ == old(ledger).instances@,
{
    let tx = OneOffTransaction {
        id: (ledger.one_off_transactions.len() + 1) as i32,
        amount: hundredths(amount),
        date,
        include_in_statistics: true,
        target_account_id: account.id,
        source_account_id: None,
        category_id: None,
        reconciled_recurring_transaction_id: None,
        scenario_id: None,
        is_simulated: false,
    };
    push_one_off(ledger, tx);
    tx
}

/// Records a one-off transfer (in whole units) from one account to another.
pub fn new_one_off_account_transfer(
    ledger: &mut Ledger,
    source_account: &Account,
    target_account: &Account,
    date: Date,
    amount: i64,
) -> (r: OneOffTransaction)
    requires
        old(ledger).wf(),
        date.wf(),
        fixture_amount(amount),
        old(ledger).one_off_transactions.len() < i32::MAX,
    ensures
        final(ledger).wf(),
        r.target_account_id == target_account.id,
        r.source_account_id == Some(source_account.id),
        r.date == date,
        r.amount.mantissa == amount * 100 && r.amount.scale == 2,
        !r.is_simulated,
        r == fixture_one_off(
            old(ledger).one_off_transactions.len() + 1,
            target_account.id,
            Some(source_account.id),
            date,
            amount as int,
        ),
        final(ledger).one_off_transactions@ == old(ledger).one_off_transactions@.push(r),
        final(ledger).accounts@ == old(ledger).accounts@,
        final(ledger).manual_states@ == old(ledger).manual_states@,
        final(ledger).imported_transactions@ == old(ledger).imported_transactions@,
        final(ledger).recurring_transactions@ == old(ledger).recurring_transactions@,
        final(ledger).recurring_incomes@ == old(ledger).recurring_incomes@,
        final(ledger).instances@ == old(ledger).instances@,
{
    let tx = OneOffTransaction {
        id: (ledger.one_off_transactions.len() + 1) as i32,
        amount: hundredths(amount),
        date,
        include_in_statistics: true,
        target_account_id: target_account.id,
        source_account_id: Some(source_account.id),
        category_id: None,
        reconciled_recurring_transaction_id: None,
        scenario_id: None,
        is_simulated: false,
    };
    push_one_off(ledger, tx);
    tx
}

} // verus!
