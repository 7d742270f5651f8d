//! The reference scenarios of the calculators: for each, a ledger, its
//! accounts and the balances expected on some dates.

use crate::amount::Amount;
use crate::balance::account_ids;
use crate::calendar::{date_of, Date};
use crate::model::{Account, InstanceStatus, Ledger, OneOffTransaction, RecurringInstance, RecurringTransaction};
use crate::testing::{
    fixture_account, fixture_instance, fixture_one_off, fixture_recurring, fixture_state, new_account,
    new_manual_account_state, new_one_off_account_transfer, new_one_off_trsansaction, new_recurring_instance,
    new_recurring_transaction, units_amount, ymd,
};
use vstd::prelude::*;

verus! {

/// A prepared scenario: the ledger, the accounts to compute, and the expected
/// (account id, date, balance) triples.
pub struct TestScenario {
    pub ledger: Ledger,
    pub accounts: Vec<Account>,
    pub expected: Vec<(i32, Date, Amount)>,
}

/// The scenario can be computed and checked: its ledger is well formed, and
/// each expectation names one of its accounts, with a well-formed date and
/// balance.
pub open spec fn scenario_wf(s: TestScenario) -> bool {
    &&& s.ledger.wf()
    &&& forall|i: int|
        0 <= i < s.expected.len() ==> (#[trigger] s.expected@[i]).1.wf() && s.expected@[i].2.wf()
            && account_ids(s.accounts@).contains(s.expected@[i].0)
}

/// Each expectation has a well-formed date and balance and names account 1 or,
/// where there are two accounts, account 2.
proof fn lemma_scenario_wf(ledger: Ledger, accounts: Seq<Account>, expected: Seq<(i32, Date, Amount)>)
    requires
        account_ids(accounts) == seq![1i32] || account_ids(accounts) == seq![1i32, 2i32],
        forall|i: int|
            0 <= i < expected.len() ==> (#[trigger] expected[i]).1.wf() && expected[i].2.wf() && (
            expected[i].0 == 1 || (expected[i].0 == 2 && accounts.len() == 2)),
    ensures
        forall|i: int|
            0 <= i < expected.len() ==> (#[trigger] expected[i]).1.wf() && expected[i].2.wf()
                && account_ids(accounts).contains(expected[i].0),
{
    assert forall|i: int| 0 <= i < expected.len() implies account_ids(accounts).contains(
        (#[trigger] expected[i]).0,
    ) by {
        if expected[i].0 == 1 {
            assert(account_ids(accounts)[0] == 1);
        } else {
            assert(account_ids(accounts).len() == accounts.len());
            assert(account_ids(accounts) == seq![1i32, 2i32]);
            assert(account_ids(accounts)[1] == 2);
        }
    }
}

/// The expectation that account `id` holds `units` whole currency units at the
/// end of the given day.
pub open spec fn expect(id: i32, y: int, m: int, d: int, units: int) -> (i32, Date, Amount) {
    (id, date_of(y, m, d), units_amount(units))
}

/// The ledger has exactly one account, the fixture account with id 1, which is
/// also the one account to compute.
pub open spec fn one_fixture_account(s: TestScenario) -> bool {
    &&& s.ledger.accounts.len() == 1
    &&& fixture_account(s.ledger.accounts@[0], 1)
    &&& s.accounts.len() == 1
    &&& fixture_account(s.accounts@[0], 1)
}

/// Builds a test scenario.
pub trait TestScenarioBuilder {
    fn get_scenario(&self) -> (r: TestScenario)
        ensures
            scenario_wf(r),
    ;
}

/// A whole number of currency units with two decimal places.
fn hundredths_of(units: i64) -> (r: Amount)
    requires
        -92233720368547758 <= units <= 92233720368547758,
    ensures
        r.wf(),
        r.mantissa == units * 100,
        r.scale == 2,
        r == units_amount(units as int),
{
    Amount::new(units * 100, 2)
}

/// The instance that [`add_instance`] records.
pub open spec fn recorded_instance(
    id: int,
    recurring_transaction_id: i32,
    status: InstanceStatus,
    due_date: Date,
    paid_date: Option<Date>,
    amount: Amount,
) -> RecurringInstance {
    RecurringInstance {
        id: id as i32,
        recurring_transaction_id,
        status,
        due_date,
        expected_amount: amount,
        paid_date,
        paid_amount: match paid_date {
            Some(_) => Some(amount),
            None => None,
        },
    }
}

/// Records an instance with the given status, due date and payment.
fn add_instance(
    ledger: &mut Ledger,
    recurring_transaction_id: i32,
    status: InstanceStatus,
    due_date: Date,
    paid_date: Option<Date>,
    amount: Amount,
)
    requires
        old(ledger).wf(),
        due_date.wf(),
        paid_date matches Some(p) ==> p.wf(),
        amount.wf(),
        old(ledger).instances.len() < i32::MAX,
    ensures
        final(ledger).wf(),
        final(ledger).instances@ == old(ledger).instances@.push(
            recorded_instance(old(ledger).instances.len() + 1, recurring_transaction_id, status, due_date, paid_date, amount),
        ),
        final(ledger).accounts@ == old(ledger).accounts@,
        final(ledger).manual_states@ == old(ledger).manual_states@,
        final(ledger).one_off_transactions@ == old(ledger).one_off_transactions@,
        final(ledger).imported_transactions@ == old(ledger).imported_transactions@,
        final(ledger).recurring_transactions@ == old(ledger).recurring_transactions@,
        final(ledger).recurring_incomes@ == old(ledger).recurring_incomes@,
{
    let paid_amount = match paid_date {
        Some(_) => Some(amount),
        None => None,
    };
    ledger.instances.push(
        RecurringInstance {
            id: (ledger.instances.len() + 1) as i32,
            recurring_transaction_id,
            status,
            due_date,
            expected_amount: amount,
            paid_date,
            paid_amount,
        },
    );
}

/// A manual state, a monthly rent and two one-off transactions.  The expected
/// balances hold for a range that starts after the manual state, which then
/// opens the series at the start of its day (with that day's rent).
pub struct ScenarioBalance {}

impl ScenarioBalance {
    pub fn new() -> (r: Self) {
        ScenarioBalance {}
    }
}

impl TestScenarioBuilder for ScenarioBalance {
    fn get_scenario(&self) -> (r: TestScenario)
        ensures
            one_fixture_account(r),
            r.ledger.manual_states@ == seq![fixture_state(1, 1, date_of(2023, 1, 1), 1000)],
            r.ledger.recurring_transactions@ == seq![fixture_recurring(1, 1, date_of(2023, 1, 1), -500)],
            r.ledger.one_off_transactions@ == seq![fixture_one_off(1, 1, None, date_of(2023, 2, 15), -150), fixture_one_off(2, 1, None, date_of(2023, 3, 10), 300)],
            r.ledger.imported_transactions.len() == 0,
            r.ledger.recurring_incomes.len() == 0,
            r.ledger.instances.len() == 0,
            r.expected@ == seq![expect(1, 2023, 1, 31, 500), expect(1, 2023, 2, 28, -150), expect(1, 2023, 3, 31, -350)],
    {
        let mut ledger = Ledger::new();
        let mut expected: Vec<(i32, Date, Amount)> = Vec::new();
        let account = new_account(&mut ledger);
        new_manual_account_state(&mut ledger, &account, ymd(2023, 1, 1), 1000);
        new_recurring_transaction(&mut ledger, &account, ymd(2023, 1, 1), -500);
        new_one_off_trsansaction(&mut ledger, &account, ymd(2023, 2, 15), -150);
        new_one_off_trsansaction(&mut ledger, &account, ymd(2023, 3, 10), 300);
        expected.push((account.id, ymd(2023, 1, 31), hundredths_of(500)));
        expected.push((account.id, ymd(2023, 2, 28), hundredths_of(-150)));
        expected.push((account.id, ymd(2023, 3, 31), hundredths_of(-350)));
        let mut accounts: Vec<Account> = Vec::new();
        accounts.push(account);
        proof {
            assert(account_ids(accounts@) =~= seq![1i32]);
            lemma_scenario_wf(ledger, accounts@, expected@);
        }
        TestScenario { ledger, accounts, expected }
    }
}

/// A monthly rent with paid instances for its first three months and a pending one for the fourth.
pub struct ScenarioForecast {}

impl ScenarioForecast {
    pub fn new() -> (r: Self) {
        ScenarioForecast {}
    }
}

impl TestScenarioBuilder for ScenarioForecast {
    fn get_scenario(&self) -> (r: TestScenario)
        ensures
            one_fixture_account(r),
            r.ledger.manual_states.len() == 0,
            r.ledger.recurring_transactions@ == seq![fixture_recurring(1, 1, date_of(2023, 1, 1), -500)],
            r.ledger.one_off_transactions.len() == 0,
            r.ledger.imported_transactions.len() == 0,
            r.ledger.recurring_incomes.len() == 0,
            r.ledger.instances@ == seq![recorded_instance(1, 1, InstanceStatus::Paid, date_of(2023, 1, 1), Some(date_of(2023, 1, 1)), units_amount(-500)), recorded_instance(2, 1, InstanceStatus::Paid, date_of(2023, 2, 1), Some(date_of(2023, 2, 1)), units_amount(-500)), recorded_instance(3, 1, InstanceStatus::Paid, date_of(2023, 3, 1), Some(date_of(2023, 3, 1)), units_amount(-500)), recorded_instance(4, 1, InstanceStatus::Pending, date_of(2023, 4, 1), None, units_amount(-500))],
            r.expected@ == seq![expect(1, 2023, 1, 31, -500), expect(1, 2023, 2, 1, -1000), expect(1, 2023, 2, 28, -1000), expect(1, 2023, 3, 31, -1500), expect(1, 2023, 4, 1, -2000), expect(1, 2023, 4, 15, -2000)],
    {
        let mut ledger = Ledger::new();
        let mut expected: Vec<(i32, Date, Amount)> = Vec::new();
        let account = new_account(&mut ledger);
        let rent = new_recurring_transaction(&mut ledger, &account, ymd(2023, 1, 1), -500);
        let amount = rent.amount;
        add_instance(&mut ledger, rent.id, InstanceStatus::Paid, ymd(2023, 1, 1), Some(ymd(2023, 1, 1)), amount);
        add_instance(&mut ledger, rent.id, InstanceStatus::Paid, ymd(2023, 2, 1), Some(ymd(2023, 2, 1)), amount);
        add_instance(&mut ledger, rent.id, InstanceStatus::Paid, ymd(2023, 3, 1), Some(ymd(2023, 3, 1)), amount);
        add_instance(&mut ledger, rent.id, InstanceStatus::Pending, ymd(2023, 4, 1), None, amount);
        expected.push((account.id, ymd(2023, 1, 31), hundredths_of(-500)));
        expected.push((account.id, ymd(2023, 2, 1), hundredths_of(-1000)));
        expected.push((account.id, ymd(2023, 2, 28), hundredths_of(-1000)));
        expected.push((account.id, ymd(2023, 3, 31), hundredths_of(-1500)));
        expected.push((account.id, ymd(2023, 4, 1), hundredths_of(-2000)));
        expected.push((account.id, ymd(2023, 4, 15), hundredths_of(-2000)));
        let mut accounts: Vec<Account> = Vec::new();
        accounts.push(account);
        proof {
            assert(account_ids(accounts@) =~= seq![1i32]);
            lemma_scenario_wf(ledger, accounts@, expected@);
        }
        TestScenario { ledger, accounts, expected }
    }
}

/// A monthly rent without instances and a monthly subscription that starts later; today is March 15, 2023 and past-due items move one day ahead.
pub struct ScenarioForecastNoInstances {}

impl ScenarioForecastNoInstances {
    pub fn new() -> (r: Self) {
        ScenarioForecastNoInstances {}
    }
}

impl TestScenarioBuilder for ScenarioForecastNoInstances {
    fn get_scenario(&self) -> (r: TestScenario)
        ensures
            one_fixture_account(r),
            r.ledger.manual_states.len() == 0,
            r.ledger.recurring_transactions@ == seq![fixture_recurring(1, 1, date_of(2023, 1, 1), -500), fixture_recurring(2, 1, date_of(2023, 4, 1), -200)],
            r.ledger.one_off_transactions.len() == 0,
            r.ledger.imported_transactions.len() == 0,
            r.ledger.recurring_incomes.len() == 0,
            r.ledger.instances.len() == 0,
            r.expected@ == seq![expect(1, 2023, 3, 15, 0), expect(1, 2023, 3, 16, -1500), expect(1, 2023, 4, 1, -2200), expect(1, 2023, 4, 15, -2200), expect(1, 2023, 5, 1, -2900)],
    {
        let mut ledger = Ledger::new();
        let mut expected: Vec<(i32, Date, Amount)> = Vec::new();
        let account = new_account(&mut ledger);
        new_recurring_transaction(&mut ledger, &account, ymd(2023, 1, 1), -500);
        new_recurring_transaction(&mut ledger, &account, ymd(2023, 4, 1), -200);
        expected.push((account.id, ymd(2023, 3, 15), hundredths_of(0)));
        expected.push((account.id, ymd(2023, 3, 16), hundredths_of(-1500)));
        expected.push((account.id, ymd(2023, 4, 1), hundredths_of(-2200)));
        expected.push((account.id, ymd(2023, 4, 15), hundredths_of(-2200)));
        expected.push((account.id, ymd(2023, 5, 1), hundredths_of(-2900)));
        let mut accounts: Vec<Account> = Vec::new();
        accounts.push(account);
        proof {
            assert(account_ids(accounts@) =~= seq![1i32]);
            lemma_scenario_wf(ledger, accounts@, expected@);
        }
        TestScenario { ledger, accounts, expected }
    }
}

/// The forecast scenario without instances, with the balances of April and May as seen from outside its date range.
pub struct CustomScenarioForecastNoInstances {}

impl CustomScenarioForecastNoInstances {
    pub fn new() -> (r: Self) {
        CustomScenarioForecastNoInstances {}
    }
}

impl TestScenarioBuilder for CustomScenarioForecastNoInstances {
    fn get_scenario(&self) -> (r: TestScenario)
        ensures
            one_fixture_account(r),
            r.ledger.manual_states.len() == 0,
            r.ledger.recurring_transactions@ == seq![fixture_recurring(1, 1, date_of(2023, 1, 1), -500), fixture_recurring(2, 1, date_of(2023, 4, 1), -200)],
            r.ledger.one_off_transactions.len() == 0,
            r.ledger.imported_transactions.len() == 0,
            r.ledger.recurring_incomes.len() == 0,
            r.ledger.instances.len() == 0,
            r.expected@ == seq![expect(1, 2023, 3, 15, 0), expect(1, 2023, 3, 16, -1500), expect(1, 2023, 4, 1, -2200), expect(1, 2023, 4, 15, -2200), expect(1, 2023, 5, 1, -2900)],
    {
        let mut ledger = Ledger::new();
        let mut expected: Vec<(i32, Date, Amount)> = Vec::new();
        let account = new_account(&mut ledger);
        new_recurring_transaction(&mut ledger, &account, ymd(2023, 1, 1), -500);
        new_recurring_transaction(&mut ledger, &account, ymd(2023, 4, 1), -200);
        expected.push((account.id, ymd(2023, 3, 15), hundredths_of(0)));
        expected.push((account.id, ymd(2023, 3, 16), hundredths_of(-1500)));
        expected.push((account.id, ymd(2023, 4, 1), hundredths_of(-2200)));
        expected.push((account.id, ymd(2023, 4, 15), hundredths_of(-2200)));
        expected.push((account.id, ymd(2023, 5, 1), hundredths_of(-2900)));
        let mut accounts: Vec<Account> = Vec::new();
        accounts.push(account);
        proof {
            assert(account_ids(accounts@) =~= seq![1i32]);
            lemma_scenario_wf(ledger, accounts@, expected@);
        }
        TestScenario { ledger, accounts, expected }
    }
}

/// A manual state, a monthly rent without instances and a subscription that starts later; today is March 15, 2023.
pub struct ScenarioBalanceNoInstances {}

impl ScenarioBalanceNoInstances {
    pub fn new() -> (r: Self) {
        ScenarioBalanceNoInstances {}
    }
}

impl TestScenarioBuilder for ScenarioBalanceNoInstances {
    fn get_scenario(&self) -> (r: TestScenario)
        ensures
            one_fixture_account(r),
            r.ledger.manual_states@ == seq![fixture_state(1, 1, date_of(2023, 1, 1), 1000)],
            r.ledger.recurring_transactions@ == seq![fixture_recurring(1, 1, date_of(2023, 1, 1), -500), fixture_recurring(2, 1, date_of(2023, 4, 1), -200)],
            r.ledger.one_off_transactions.len() == 0,
            r.ledger.imported_transactions.len() == 0,
            r.ledger.recurring_incomes.len() == 0,
            r.ledger.instances.len() == 0,
            r.expected@ == seq![expect(1, 2023, 1, 31, 1000), expect(1, 2023, 2, 28, 1000), expect(1, 2023, 3, 31, 1000), expect(1, 2023, 4, 1, 300), expect(1, 2023, 4, 30, 300)],
    {
        let mut ledger = Ledger::new();
        let mut expected: Vec<(i32, Date, Amount)> = Vec::new();
        let account = new_account(&mut ledger);
        new_manual_account_state(&mut ledger, &account, ymd(2023, 1, 1), 1000);
        new_recurring_transaction(&mut ledger, &account, ymd(2023, 1, 1), -500);
        new_recurring_transaction(&mut ledger, &account, ymd(2023, 4, 1), -200);
        expected.push((account.id, ymd(2023, 1, 31), hundredths_of(1000)));
        expected.push((account.id, ymd(2023, 2, 28), hundredths_of(1000)));
        expected.push((account.id, ymd(2023, 3, 31), hundredths_of(1000)));
        expected.push((account.id, ymd(2023, 4, 1), hundredths_of(300)));
        expected.push((account.id, ymd(2023, 4, 30), hundredths_of(300)));
        let mut accounts: Vec<Account> = Vec::new();
        accounts.push(account);
        proof {
            assert(account_ids(accounts@) =~= seq![1i32]);
            lemma_scenario_wf(ledger, accounts@, expected@);
        }
        TestScenario { ledger, accounts, expected }
    }
}

/// A monthly rent whose February payment was made on February 3 by a one-off transaction reconciled with it.
pub struct ScenarioReconciliationOutsideRange {}

impl ScenarioReconciliationOutsideRange {
    pub fn new() -> (r: Self) {
        ScenarioReconciliationOutsideRange {}
    }
}

impl TestScenarioBuilder for ScenarioReconciliationOutsideRange {
    fn get_scenario(&self) -> (r: TestScenario)
        ensures
            one_fixture_account(r),
            r.ledger.manual_states.len() == 0,
            r.ledger.recurring_transactions@ == seq![fixture_recurring(1, 1, date_of(2023, 1, 1), -500)],
            r.ledger.one_off_transactions@ == seq![reconciled_with(fixture_one_off(1, 1, None, date_of(2023, 2, 3), -500), 1)],
            r.ledger.imported_transactions.len() == 0,
            r.ledger.recurring_incomes.len() == 0,
            r.ledger.instances.len() == 0,
            r.expected@ == seq![expect(1, 2023, 1, 31, -500), expect(1, 2023, 2, 1, -500), expect(1, 2023, 2, 3, -1000), expect(1, 2023, 2, 28, -1000), expect(1, 2023, 3, 1, -1000), expect(1, 2023, 3, 31, -1500), expect(1, 2023, 4, 1, -2000)],
    {
        let mut ledger = Ledger::new();
        let mut expected: Vec<(i32, Date, Amount)> = Vec::new();
        let account = new_account(&mut ledger);
        let rent = new_recurring_transaction(&mut ledger, &account, ymd(2023, 1, 1), -500);
        let mut payment = new_one_off_trsansaction(&mut ledger, &account, ymd(2023, 2, 3), -500);
        let last = ledger.one_off_transactions.len() - 1;
        payment.reconciled_recurring_transaction_id = Some(rent.id);
        ledger.one_off_transactions.set(last, payment);
        expected.push((account.id, ymd(2023, 1, 31), hundredths_of(-500)));
        expected.push((account.id, ymd(2023, 2, 1), hundredths_of(-500)));
        expected.push((account.id, ymd(2023, 2, 3), hundredths_of(-1000)));
        expected.push((account.id, ymd(2023, 2, 28), hundredths_of(-1000)));
        expected.push((account.id, ymd(2023, 3, 1), hundredths_of(-1000)));
        expected.push((account.id, ymd(2023, 3, 31), hundredths_of(-1500)));
        expected.push((account.id, ymd(2023, 4, 1), hundredths_of(-2000)));
        let mut accounts: Vec<Account> = Vec::new();
        accounts.push(account);
        proof {
            assert(account_ids(accounts@) =~= seq![1i32]);
            lemma_scenario_wf(ledger, accounts@, expected@);
        }
        TestScenario { ledger, accounts, expected }
    }
}

/// A monthly rent paid by reconciled one-off transactions and an unreconciled monthly subscription; the expected values are those of a forecast.
pub struct ScenarioUnreconciledForecast {}

impl ScenarioUnreconciledForecast {
    pub fn new() -> (r: Self) {
        ScenarioUnreconciledForecast {}
    }
}

impl TestScenarioBuilder for ScenarioUnreconciledForecast {
    fn get_scenario(&self) -> (r: TestScenario)
        ensures
            one_fixture_account(r),
            r.ledger.manual_states@ == seq![fixture_state(1, 1, date_of(2023, 1, 1), 1000)],
            r.ledger.recurring_transactions@ == seq![fixture_recurring(1, 1, date_of(2023, 1, 1), -500), fixture_recurring(2, 1, date_of(2023, 1, 1), -100)],
            r.ledger.one_off_transactions@ == seq![reconciled_with(fixture_one_off(1, 1, None, date_of(2023, 1, 1), -500), 1), reconciled_with(fixture_one_off(2, 1, None, date_of(2023, 2, 1), -500), 1), fixture_one_off(3, 1, None, date_of(2023, 2, 15), -150)],
            r.ledger.imported_transactions.len() == 0,
            r.ledger.recurring_incomes.len() == 0,
            r.ledger.instances.len() == 0,
            r.expected@ == seq![expect(1, 2023, 1, 31, -600), expect(1, 2023, 2, 28, -1200), expect(1, 2023, 3, 31, -1800)],
    {
        let mut ledger = Ledger::new();
        let mut expected: Vec<(i32, Date, Amount)> = Vec::new();
        let account = new_account(&mut ledger);
        new_manual_account_state(&mut ledger, &account, ymd(2023, 1, 1), 1000);
        let rent = new_recurring_transaction(&mut ledger, &account, ymd(2023, 1, 1), -500);
        new_recurring_transaction(&mut ledger, &account, ymd(2023, 1, 1), -100);
        let mut jan = new_one_off_trsansaction(&mut ledger, &account, ymd(2023, 1, 1), -500);
        jan.reconciled_recurring_transaction_id = Some(rent.id);
        ledger.one_off_transactions.set(0, jan);
        let mut feb = new_one_off_trsansaction(&mut ledger, &account, ymd(2023, 2, 1), -500);
        feb.reconciled_recurring_transaction_id = Some(rent.id);
        ledger.one_off_transactions.set(1, feb);
        new_one_off_trsansaction(&mut ledger, &account, ymd(2023, 2, 15), -150);
        expected.push((account.id, ymd(2023, 1, 31), hundredths_of(-600)));
        expected.push((account.id, ymd(2023, 2, 28), hundredths_of(-1200)));
        expected.push((account.id, ymd(2023, 3, 31), hundredths_of(-1800)));
        let mut accounts: Vec<Account> = Vec::new();
        accounts.push(account);
        proof {
            assert(account_ids(accounts@) =~= seq![1i32]);
            lemma_scenario_wf(ledger, accounts@, expected@);
        }
        TestScenario { ledger, accounts, expected }
    }
}

/// The first monthly payment of [`ScenarioMergeReal`], from account 1.
pub open spec fn merge_real_first() -> RecurringTransaction {
    fixture_recurring(1, 1, date_of(2025, 10, 11), -1000)
}

/// The second monthly payment of [`ScenarioMergeReal`], from account 2.
pub open spec fn merge_real_second() -> RecurringTransaction {
    fixture_recurring(2, 2, date_of(2026, 1, 12), -1000)
}

/// The one-off transaction reconciled with recurring transaction `id`.
pub open spec fn reconciled_with(t: OneOffTransaction, id: i32) -> OneOffTransaction {
    OneOffTransaction { reconciled_recurring_transaction_id: Some(id), ..t }
}

/// Two accounts with manual states, monthly payments with recorded instances and a transfer between them.
pub struct ScenarioMergeReal {}

impl ScenarioMergeReal {
    pub fn new() -> (r: Self) {
        ScenarioMergeReal {}
    }
}

impl TestScenarioBuilder for ScenarioMergeReal {
    fn get_scenario(&self) -> (r: TestScenario)
        ensures
            r.ledger.accounts.len() == 2,
            fixture_account(r.ledger.accounts@[0], 1),
            fixture_account(r.ledger.accounts@[1], 2),
            r.accounts.len() == 2,
            fixture_account(r.accounts@[0], 1),
            fixture_account(r.accounts@[1], 2),
            r.ledger.manual_states@ == seq![fixture_state(1, 1, date_of(2025, 1, 1), 100000), fixture_state(2, 2, date_of(2025, 1, 1), 100000), fixture_state(3, 1, date_of(2025, 6, 1), 200000), fixture_state(4, 2, date_of(2025, 6, 1), 100000)],
            r.ledger.recurring_transactions@ == seq![merge_real_first(), merge_real_second()],
            r.ledger.one_off_transactions@ == seq![fixture_one_off(1, 2, Some(1), date_of(2026, 1, 20), 1000)],
            r.ledger.imported_transactions.len() == 0,
            r.ledger.recurring_incomes.len() == 0,
            r.ledger.instances@ == seq![fixture_instance(1, merge_real_first(), date_of(2025, 10, 11)), fixture_instance(2, merge_real_first(), date_of(2025, 11, 11)), fixture_instance(3, merge_real_first(), date_of(2025, 12, 11)), fixture_instance(4, merge_real_first(), date_of(2026, 1, 11)), fixture_instance(5, merge_real_second(), date_of(2026, 1, 14)), fixture_instance(6, merge_real_first(), date_of(2026, 1, 22)), fixture_instance(7, merge_real_second(), date_of(2026, 1, 22)), fixture_instance(8, merge_real_first(), date_of(2026, 2, 22)), fixture_instance(9, merge_real_second(), date_of(2026, 2, 22)), fixture_instance(10, merge_real_first(), date_of(2026, 3, 22)), fixture_instance(11, merge_real_second(), date_of(2026, 3, 22)), fixture_instance(12, merge_real_first(), date_of(2026, 4, 22)), fixture_instance(13, merge_real_second(), date_of(2026, 4, 22)), fixture_instance(14, merge_real_first(), date_of(2026, 5, 22)), fixture_instance(15, merge_real_second(), date_of(2026, 5, 22)), fixture_instance(16, merge_real_first(), date_of(2026, 6, 22)), fixture_instance(17, merge_real_second(), date_of(2026, 6, 22))],
            r.expected@ == seq![expect(1, 2025, 1, 1, 100000), expect(2, 2025, 1, 1, 100000), expect(1, 2025, 6, 10, 200000), expect(2, 2025, 6, 10, 100000), expect(1, 2025, 10, 10, 200000), expect(2, 2025, 10, 10, 100000), expect(1, 2025, 10, 12, 199000), expect(2, 2025, 10, 12, 100000), expect(1, 2025, 11, 12, 198000), expect(2, 2025, 11, 12, 100000), expect(1, 2025, 12, 12, 197000), expect(2, 2025, 12, 12, 100000), expect(1, 2026, 1, 12, 196000), expect(2, 2026, 1, 12, 100000), expect(1, 2026, 1, 13, 196000), expect(2, 2026, 1, 13, 100000), expect(1, 2026, 1, 15, 196000), expect(2, 2026, 1, 15, 99000), expect(1, 2026, 1, 21, 195000), expect(2, 2026, 1, 21, 100000), expect(1, 2026, 7, 22, 189000), expect(2, 2026, 7, 22, 94000), expect(1, 2026, 8, 22, 188000), expect(2, 2026, 8, 22, 93000), expect(1, 2026, 9, 22, 187000), expect(2, 2026, 9, 22, 92000), expect(1, 2026, 10, 22, 186000), expect(2, 2026, 10, 22, 91000), expect(1, 2026, 11, 22, 185000), expect(2, 2026, 11, 22, 90000), expect(1, 2026, 12, 22, 184000), expect(2, 2026, 12, 22, 89000)],
    {
        let mut ledger = Ledger::new();
        let mut expected: Vec<(i32, Date, Amount)> = Vec::new();
        let account1 = new_account(&mut ledger);
        let account2 = new_account(&mut ledger);
        new_manual_account_state(&mut ledger, &account1, ymd(2025, 1, 1), 100000);
        new_manual_account_state(&mut ledger, &account2, ymd(2025, 1, 1), 100000);
        expected.push((account1.id, ymd(2025, 1, 1), hundredths_of(100000)));
        expected.push((account2.id, ymd(2025, 1, 1), hundredths_of(100000)));
        new_manual_account_state(&mut ledger, &account1, ymd(2025, 6, 1), 200000);
        new_manual_account_state(&mut ledger, &account2, ymd(2025, 6, 1), 100000);
        expected.push((account1.id, ymd(2025, 6, 10), hundredths_of(200000)));
        expected.push((account2.id, ymd(2025, 6, 10), hundredths_of(100000)));
        expected.push((account1.id, ymd(2025, 10, 10), hundredths_of(200000)));
        expected.push((account2.id, ymd(2025, 10, 10), hundredths_of(100000)));
        let r1 = new_recurring_transaction(&mut ledger, &account1, ymd(2025, 10, 11), -1000);
        new_recurring_instance(&mut ledger, &r1, ymd(2025, 10, 11));
        expected.push((account1.id, ymd(2025, 10, 12), hundredths_of(199000)));
        expected.push((account2.id, ymd(2025, 10, 12), hundredths_of(100000)));
        new_recurring_instance(&mut ledger, &r1, ymd(2025, 11, 11));
        expected.push((account1.id, ymd(2025, 11, 12), hundredths_of(198000)));
        expected.push((account2.id, ymd(2025, 11, 12), hundredths_of(100000)));
        new_recurring_instance(&mut ledger, &r1, ymd(2025, 12, 11));
        expected.push((account1.id, ymd(2025, 12, 12), hundredths_of(197000)));
        expected.push((account2.id, ymd(2025, 12, 12), hundredths_of(100000)));
        new_recurring_instance(&mut ledger, &r1, ymd(2026, 1, 11));
        expected.push((account1.id, ymd(2026, 1, 12), hundredths_of(196000)));
        expected.push((account2.id, ymd(2026, 1, 12), hundredths_of(100000)));
        let r2 = new_recurring_transaction(&mut ledger, &account2, ymd(2026, 1, 12), -1000);
        expected.push((account1.id, ymd(2026, 1, 13), hundredths_of(196000)));
        expected.push((account2.id, ymd(2026, 1, 13), hundredths_of(100000)));
        new_recurring_instance(&mut ledger, &r2, ymd(2026, 1, 14));
        expected.push((account1.id, ymd(2026, 1, 15), hundredths_of(196000)));
        expected.push((account2.id, ymd(2026, 1, 15), hundredths_of(99000)));
        new_one_off_account_transfer(&mut ledger, &account1, &account2, ymd(2026, 1, 20), 1000);
        expected.push((account1.id, ymd(2026, 1, 21), hundredths_of(195000)));
        expected.push((account2.id, ymd(2026, 1, 21), hundredths_of(100000)));
        new_recurring_instance(&mut ledger, &r1, ymd(2026, 1, 22));
        new_recurring_instance(&mut ledger, &r2, ymd(2026, 1, 22));
        new_recurring_instance(&mut ledger, &r1, ymd(2026, 2, 22));
        new_recurring_instance(&mut ledger, &r2, ymd(2026, 2, 22));
        new_recurring_instance(&mut ledger, &r1, ymd(2026, 3, 22));
        new_recurring_instance(&mut ledger, &r2, ymd(2026, 3, 22));
        new_recurring_instance(&mut ledger, &r1, ymd(2026, 4, 22));
        new_recurring_instance(&mut ledger, &r2, ymd(2026, 4, 22));
        new_recurring_instance(&mut ledger, &r1, ymd(2026, 5, 22));
        new_recurring_instance(&mut ledger, &r2, ymd(2026, 5, 22));
        new_recurring_instance(&mut ledger, &r1, ymd(2026, 6, 22));
        new_recurring_instance(&mut ledger, &r2, ymd(2026, 6, 22));
        expected.push((account1.id, ymd(2026, 7, 22), hundredths_of(189000)));
        expected.push((account2.id, ymd(2026, 7, 22), hundredths_of(94000)));
        expected.push((account1.id, ymd(2026, 8, 22), hundredths_of(188000)));
        expected.push((account2.id, ymd(2026, 8, 22), hundredths_of(93000)));
        expected.push((account1.id, ymd(2026, 9, 22), hundredths_of(187000)));
        expected.push((account2.id, ymd(2026, 9, 22), hundredths_of(92000)));
        expected.push((account1.id, ymd(2026, 10, 22), hundredths_of(186000)));
        expected.push((account2.id, ymd(2026, 10, 22), hundredths_of(91000)));
        expected.push((account1.id, ymd(2026, 11, 22), hundredths_of(185000)));
        expected.push((account2.id, ymd(2026, 11, 22), hundredths_of(90000)));
        expected.push((account1.id, ymd(2026, 12, 22), hundredths_of(184000)));
        expected.push((account2.id, ymd(2026, 12, 22), hundredths_of(89000)));
        let mut accounts: Vec<Account> = Vec::new();
        accounts.push(account1);
        accounts.push(account2);
        proof {
            assert(account_ids(accounts@) =~= seq![1i32, 2i32]);
            lemma_scenario_wf(ledger, accounts@, expected@);
        }
        TestScenario { ledger, accounts, expected }
    }
}

} // verus!
