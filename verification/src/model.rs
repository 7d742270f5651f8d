//! The stored financial data that the computations read: accounts, manual
//! balance snapshots, one-off, imported and recurring transactions, recurring
//! income and the recorded instances of recurring items.

use crate::amount::Amount;
use crate::calendar::Date;
use crate::recurrence::RecurrencePeriod;
use vstd::prelude::*;

verus! {

/// The technical type of an account.
#[derive(Clone, Copy, Debug, PartialEq, Eq, Structural, Hash)]
pub enum AccountKind {
    RealAccount,
    Savings,
    Investment,
    Debt,
    Other,
    Goal,
    EmergencyFund,
    Allowance,
    Shared,
    Equity,
    House,
    Tax,
}

/// An account.
#[derive(Debug)]
pub struct Account {
    pub id: i32,
    pub name: String,
    pub description: Option<String>,
    pub currency_code: String,
    pub owner_id: i32,
    pub include_in_statistics: bool,
    pub ledger_name: Option<String>,
    pub account_kind: AccountKind,
    pub target_amount: Option<Amount>,
    pub is_liquid: bool,
}

/// Whether two optional strings hold the same text.
pub open spec fn same_opt_text(a: Option<String>, b: Option<String>) -> bool {
    match (a, b) {
        (Some(x), Some(y)) => x@ == y@,
        (None, None) => true,
        _ => false,
    }
}

impl Account {
    pub open spec fn wf(self) -> bool {
        self.target_amount matches Some(t) ==> t.wf()
    }

    /// Two accounts that agree on every field.
    pub open spec fn same_as(self, other: Account) -> bool {
        &&& self.id == other.id
        &&& self.name@ == other.name@
        &&& same_opt_text(self.description, other.description)
        &&& self.currency_code@ == other.currency_code@
        &&& self.owner_id == other.owner_id
        &&& self.include_in_statistics == other.include_in_statistics
        &&& same_opt_text(self.ledger_name, other.ledger_name)
        &&& self.account_kind == other.account_kind
        &&& self.target_amount == other.target_amount
        &&& self.is_liquid == other.is_liquid
    }

    /// A field-by-field copy of the account.
    pub fn duplicate(&self) -> (r: Account)
        ensures
            r.same_as(*self),
    {
        let description = match &self.description {
            Some(d) => Some(d.clone()),
            None => None,
        };
        let ledger_name = match &self.ledger_name {
            Some(d) => Some(d.clone()),
            None => None,
        };
        Account {
            id: self.id,
            name: self.name.clone(),
            description,
            currency_code: self.currency_code.clone(),
            owner_id: self.owner_id,
            include_in_statistics: self.include_in_statistics,
            ledger_name,
            account_kind: self.account_kind,
            target_amount: self.target_amount,
            is_liquid: self.is_liquid,
        }
    }
}

/// A manually entered balance of an account on a date; it overrides the
/// computed balance from that date on.
#[derive(Clone, Copy, Debug)]
pub struct ManualAccountState {
    pub id: i32,
    pub account_id: i32,
    pub date: Date,
    pub amount: Amount,
}

/// A one-off transaction into `target_account_id`, optionally out of
/// `source_account_id`.
#[derive(Clone, Copy, Debug)]
pub struct OneOffTransaction {
    pub id: i32,
    pub amount: Amount,
    pub date: Date,
    pub include_in_statistics: bool,
    pub target_account_id: i32,
    pub source_account_id: Option<i32>,
    pub category_id: Option<i32>,
    pub reconciled_recurring_transaction_id: Option<i32>,
    /// The what-if scenario the transaction belongs to.
    pub scenario_id: Option<i32>,
    /// A what-if transaction that is not part of the real data.
    pub is_simulated: bool,
}

/// What an imported transaction has been reconciled with.
#[derive(Clone, Copy, Debug, PartialEq, Eq, Structural)]
pub enum ReconciledTransactionType {
    OneOff,
    Recurring,
    RecurringIncome,
}

/// A transaction imported from a bank statement.
#[derive(Clone, Copy, Debug)]
pub struct ImportedTransaction {
    pub id: i32,
    pub account_id: i32,
    pub date: Date,
    pub amount: Amount,
    pub reconciled_transaction_id: Option<i32>,
    pub reconciled_transaction_type: Option<ReconciledTransactionType>,
}

impl ImportedTransaction {
    /// The kind of transaction this one was reconciled with, if any.
    pub fn get_reconciled_transaction_type(&self) -> (r: Option<ReconciledTransactionType>)
        ensures
            r == self.reconciled_transaction_type,
    {
        self.reconciled_transaction_type
    }
}

/// A recurring transaction into `target_account_id`, optionally out of
/// `source_account_id`.
#[derive(Clone, Copy, Debug)]
pub struct RecurringTransaction {
    pub id: i32,
    pub amount: Amount,
    pub start_date: Date,
    pub end_date: Option<Date>,
    pub period: RecurrencePeriod,
    pub include_in_statistics: bool,
    pub target_account_id: i32,
    pub source_account_id: Option<i32>,
    pub scenario_id: Option<i32>,
    pub is_simulated: bool,
}

/// A recurring income into `target_account_id`.
#[derive(Clone, Copy, Debug)]
pub struct RecurringIncome {
    pub id: i32,
    pub amount: Amount,
    pub start_date: Date,
    pub end_date: Option<Date>,
    pub period: RecurrencePeriod,
    pub include_in_statistics: bool,
    pub target_account_id: i32,
    pub scenario_id: Option<i32>,
    pub is_simulated: bool,
}

/// The state of one occurrence of a recurring item.
#[derive(Clone, Copy, Debug, PartialEq, Eq, Structural)]
pub enum InstanceStatus {
    Pending,
    Paid,
    Skipped,
}

/// A recorded occurrence of a recurring transaction or income.
#[derive(Clone, Copy, Debug)]
pub struct RecurringInstance {
    pub id: i32,
    pub recurring_transaction_id: i32,
    pub status: InstanceStatus,
    pub due_date: Date,
    pub expected_amount: Amount,
    pub paid_date: Option<Date>,
    pub paid_amount: Option<Amount>,
}

/// All stored data that the computations read.
#[derive(Debug)]
pub struct Ledger {
    pub accounts: Vec<Account>,
    pub manual_states: Vec<ManualAccountState>,
    pub one_off_transactions: Vec<OneOffTransaction>,
    pub imported_transactions: Vec<ImportedTransaction>,
    pub recurring_transactions: Vec<RecurringTransaction>,
    pub recurring_incomes: Vec<RecurringIncome>,
    pub instances: Vec<RecurringInstance>,
}

pub open spec fn opt_date_wf(d: Option<Date>) -> bool {
    d matches Some(x) ==> x.wf()
}

pub open spec fn opt_amount_wf(a: Option<Amount>) -> bool {
    a matches Some(x) ==> x.wf()
}

impl ManualAccountState {
    pub open spec fn wf(self) -> bool {
        self.date.wf() && self.amount.wf()
    }
}

impl OneOffTransaction {
    pub open spec fn wf(self) -> bool {
        self.date.wf() && self.amount.wf()
    }
}

impl ImportedTransaction {
    pub open spec fn wf(self) -> bool {
        self.date.wf() && self.amount.wf()
    }
}

impl RecurringTransaction {
    pub open spec fn wf(self) -> bool {
        self.start_date.wf() && opt_date_wf(self.end_date) && self.amount.wf()
    }
}

impl RecurringIncome {
    pub open spec fn wf(self) -> bool {
        self.start_date.wf() && opt_date_wf(self.end_date) && self.amount.wf()
    }
}

impl RecurringInstance {
    pub open spec fn wf(self) -> bool {
        self.due_date.wf() && opt_date_wf(self.paid_date) && self.expected_amount.wf()
            && opt_amount_wf(self.paid_amount)
    }
}

impl Ledger {
    /// Every stored date and amount is well formed.
    pub open spec fn wf(self) -> bool {
        &&& forall|i: int| 0 <= i < self.accounts.len() ==> (#[trigger] self.accounts[i]).wf()
        &&& forall|i: int|
            0 <= i < self.manual_states.len() ==> (#[trigger] self.manual_states[i]).wf()
        &&& forall|i: int|
            0 <= i < self.one_off_transactions.len() ==> (
            #[trigger] self.one_off_transactions[i]).wf()
        &&& forall|i: int|
            0 <= i < self.imported_transactions.len() ==> (
            #[trigger] self.imported_transactions[i]).wf()
        &&& forall|i: int|
            0 <= i < self.recurring_transactions.len() ==> (
            #[trigger] self.recurring_transactions[i]).wf()
        &&& forall|i: int|
            0 <= i < self.recurring_incomes.len() ==> (#[trigger] self.recurring_incomes[i]).wf()
        &&& forall|i: int| 0 <= i < self.instances.len() ==> (#[trigger] self.instances[i]).wf()
    }

    /// An empty ledger.
    pub fn new() -> (r: Ledger)
        ensures
            r.wf(),
            r.accounts.len() == 0,
            r.manual_states.len() == 0,
            r.one_off_transactions.len() == 0,
            r.imported_transactions.len() == 0,
            r.recurring_transactions.len() == 0,
            r.recurring_incomes.len() == 0,
            r.instances.len() == 0,
    {
        Ledger {
            accounts: Vec::new(),
            manual_states: Vec::new(),
            one_off_transactions: Vec::new(),
            imported_transactions: Vec::new(),
            recurring_transactions: Vec::new(),
            recurring_incomes: Vec::new(),
            instances: Vec::new(),
        }
    }
}

/// Which what-if data a computation sees: `None` sees only real data; `Some(id)`
/// sees real data and the simulated data of scenario `id`.
pub open spec fn visible_in(is_simulated: bool, scenario_id: Option<i32>, context: Option<i32>) -> bool {
    match context {
        None => !is_simulated,
        Some(c) => !is_simulated || scenario_id == Some(c),
    }
}

/// Executable form of [`visible_in`].
pub fn is_visible(is_simulated: bool, scenario_id: Option<i32>, context: Option<i32>) -> (r: bool)
    ensures
        r == visible_in(is_simulated, scenario_id, context),
{
    match context {
        None => !is_simulated,
        Some(c) => !is_simulated || (match scenario_id {
            Some(s) => s == c,
            None => false,
        }),
    }
}

} // verus!
