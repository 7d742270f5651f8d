//! Per-account metrics: the current balance, funding ratio and monthly net
//! flows of an account, and the metrics specific to its kind (operating buffer,
//! reserve goal date, investment gain, debt payoff).

use crate::account_stats::{
    calculate_goal_reached_date, contains_id, end_stats, goal_date, lemma_end_stats_wf, rise_sum,
    sort_rows, state_at_date, AccountStats, PeriodStat,
};
use crate::amount::{abs_int, decimal_difference, decimal_product, decimal_quotient, Amount};
use crate::balance::{account_ids, BalanceFrame, BalanceRow};
use crate::calculator::Calculator;
use crate::calendar::{
    checked_sub_months, date_of, get_last_day_of_month, lemma_date_of, month_index, month_length,
    year_in_range, Date, MAX_YEAR,
};
use crate::error::ComputeError;
use crate::metric_reports::{
    AccountKindMetricsDto, AccountMetricsDto, DebtMetricsDto, InvestmentMetricsDto, OperatingMetricsDto,
    ReserveMetricsDto,
};
use crate::metrics::{
    active_on, balance_until, compute_net_inflows, compute_stddev, extract_balance_at_date,
    extract_net_flow_from_df, flow_of, monthly_equivalent, period_factor, stddev_of, sum_amounts,
    total_of,
};
use crate::model::{Account, AccountKind, Ledger, RecurringTransaction};
use vstd::prelude::*;

verus! {

broadcast use vstd::seq_lib::group_seq_properties;

/// The decimal zero.
pub open spec fn zero() -> Amount {
    Amount { mantissa: 0, scale: 0 }
}

// ---------------------------------------------------------------------------
// Account kinds
// ---------------------------------------------------------------------------

/// The name of an account kind.
pub open spec fn kind_name(k: AccountKind) -> Seq<char> {
    match k {
        AccountKind::RealAccount => "RealAccount"@,
        AccountKind::Savings => "Savings"@,
        AccountKind::Investment => "Investment"@,
        AccountKind::Debt => "Debt"@,
        AccountKind::Other => "Other"@,
        AccountKind::Goal => "Goal"@,
        AccountKind::Allowance => "Allowance"@,
        AccountKind::Shared => "Shared"@,
        AccountKind::EmergencyFund => "EmergencyFund"@,
        AccountKind::Equity => "Equity"@,
        AccountKind::House => "House"@,
        AccountKind::Tax => "Tax"@,
    }
}

/// The name of an account kind.
pub fn kind_str(kind: AccountKind) -> (r: &'static str)
    ensures
        r@ == kind_name(kind),
{
    match kind {
        AccountKind::RealAccount => "RealAccount",
        AccountKind::Savings => "Savings",
        AccountKind::Investment => "Investment",
        AccountKind::Debt => "Debt",
        AccountKind::Other => "Other",
        AccountKind::Goal => "Goal",
        AccountKind::Allowance => "Allowance",
        AccountKind::Shared => "Shared",
        AccountKind::EmergencyFund => "EmergencyFund",
        AccountKind::Equity => "Equity",
        AccountKind::House => "House",
        AccountKind::Tax => "Tax",
    }
}

/// Day-to-day accounts, whose metrics describe their buffer.
pub open spec fn is_operating(k: AccountKind) -> bool {
    k == AccountKind::RealAccount || k == AccountKind::Allowance || k == AccountKind::Shared
}

/// Reserve accounts, whose metrics describe their goal.
pub open spec fn is_reserve(k: AccountKind) -> bool {
    k == AccountKind::Savings || k == AccountKind::Goal || k == AccountKind::EmergencyFund
}

/// Investment accounts, whose metrics describe their gain.
pub open spec fn is_investment(k: AccountKind) -> bool {
    k == AccountKind::Investment || k == AccountKind::Equity || k == AccountKind::House
}

// ---------------------------------------------------------------------------
// Calculator runs
// ---------------------------------------------------------------------------

/// A run of the calculator: `Some(f)` when it produced the table `f` for the
/// accounts `ids` over `[start, end]`, `None` when it failed, which it does not
/// where it fits ([`Calculator::fits`]).
pub open spec fn computed(
    calc: Calculator,
    ledger: Ledger,
    ids: Seq<i32>,
    start: Date,
    end: Date,
    o: Option<BalanceFrame>,
) -> bool {
    &&& o matches Some(f) ==> f.wf() && calc.produces(ledger, ids, start, end, f.view_rows())
    &&& calc.fits(ledger, ids, start, end) ==> o is Some
}

/// Runs the calculator; a failure becomes `None`.
fn try_compute(calculator: &Calculator, ledger: &Ledger, accounts: &Vec<Account>, start: Date, end: Date) -> (r:
    Option<BalanceFrame>)
    requires
        calculator.wf(),
        ledger.wf(),
        start.wf(),
        end.wf(),
        end.year < MAX_YEAR - 1,
    ensures
        computed(*calculator, *ledger, account_ids(accounts@), start, end, r),
{
    match calculator.compute_account_state(ledger, accounts, start, end) {
        Ok(f) => Some(f),
        Err(_) => None,
    }
}

/// The account alone, as the list of accounts of a computation.
fn single(account: &Account) -> (r: Vec<Account>)
    ensures
        account_ids(r@) == seq![account.id],
        r.len() == 1,
        r@[0].same_as(*account),
{
    let mut v: Vec<Account> = Vec::new();
    v.push(account.duplicate());
    assert(account_ids(v@) =~= seq![account.id]);
    v
}

/// December 31 of the year `k` years after that of `today`, or `today` when
/// that year is not supported.
pub open spec fn years_end(today: Date, k: int) -> Date {
    if year_in_range(today.year + k) {
        date_of(today.year + k, 12, 31)
    } else {
        today
    }
}

fn years_end_exec(today: Date, k: i32) -> (r: Date)
    requires
        today.wf(),
        0 <= k <= 30,
        today.year < MAX_YEAR - 32,
    ensures
        r == years_end(today, k as int),
        r.wf(),
        r.year < MAX_YEAR - 1,
{
    match Date::from_ymd(today.year + k, 12, 31) {
        Some(d) => {
            proof {
                lemma_date_of(d);
            }
            d
        },
        None => today,
    }
}

// ---------------------------------------------------------------------------
// Months
// ---------------------------------------------------------------------------

/// The year and month `i` months before the month of `today` (those of `today`
/// when that month is not supported).
pub open spec fn month_back(today: Date, i: int) -> (int, int) {
    let t = month_index(today.year as int, today.month as int) - i;
    if year_in_range(t / 12) {
        (t / 12, t % 12 + 1)
    } else {
        (today.year as int, today.month as int)
    }
}

/// The first day of the month `i` months before the month of `today`.
pub open spec fn month_first(today: Date, i: int) -> Date {
    date_of(month_back(today, i).0, month_back(today, i).1, 1)
}

/// The last day of the month `i` months before the month of `today`.
pub open spec fn month_last(today: Date, i: int) -> Date {
    date_of(
        month_back(today, i).0,
        month_back(today, i).1,
        month_length(month_back(today, i).0, month_back(today, i).1),
    )
}

/// The first and the last day of the month `i` months before the month of
/// `today`.
pub fn month_bounds(today: Date, i: u32) -> (r: (Date, Date))
    requires
        today.wf(),
        today.year < MAX_YEAR,
        i <= 12,
    ensures
        r.0 == month_first(today, i as int),
        r.1 == month_last(today, i as int),
        r.0.wf(),
        r.1.wf(),
        r.1.year <= today.year,
{
    let ghost idx = month_index(today.year as int, today.month as int);
    proof {
        vstd::arithmetic::div_mod::lemma_fundamental_div_mod_converse(idx, 12, today.year as int, today.month - 1);
        vstd::arithmetic::div_mod::lemma_div_is_ordered(idx - i, idx, 12);
    }
    let target = match checked_sub_months(today, i) {
        Some(x) => x,
        None => today,
    };
    assert(target.year == month_back(today, i as int).0 && target.month == month_back(today, i as int).1);
    let start = match Date::from_ymd(target.year, target.month, 1) {
        Some(d) => d,
        None => target,
    };
    let end = get_last_day_of_month(target.year, target.month);
    proof {
        lemma_date_of(start);
        lemma_date_of(end);
    }
    (start, end)
}

// ---------------------------------------------------------------------------
// Recurring amounts
// ---------------------------------------------------------------------------

/// Which recurring transactions a monthly total counts.
#[derive(Clone, Copy, Debug, PartialEq, Eq, Structural)]
pub enum Selection {
    /// Outflows of an account: into it with a negative amount.
    OutflowsOf(i32),
    /// Payments into an account: into it with an amount that is not negative.
    PaymentsInto(i32),
    /// Payments of a debt account: into it with an amount that is not negative,
    /// or out of it with a negative one.
    PaymentsOf(i32),
    /// Expenses counted in statistics that move no money out of another account.
    Expenses,
    /// Such expenses into the listed accounts.
    ExpensesOf,
    /// Payments counted in statistics into (not negative) or out of (negative)
    /// the listed accounts.
    DebtPayments,
}

/// The recurring transaction belongs to the selection; `ids` lists the accounts
/// of the selections that name a list.
pub open spec fn selects(sel: Selection, ids: Seq<i32>, r: RecurringTransaction) -> bool {
    let negative = r.amount.mantissa < 0;
    match sel {
        Selection::OutflowsOf(id) => r.target_account_id == id && negative,
        Selection::PaymentsInto(id) => r.target_account_id == id && !negative,
        Selection::PaymentsOf(id) => (r.target_account_id == id && !negative) || (r.source_account_id
            == Some(id) && negative),
        Selection::Expenses => negative && r.include_in_statistics && r.source_account_id is None,
        Selection::ExpensesOf => negative && r.include_in_statistics && r.source_account_id is None
            && ids.contains(r.target_account_id),
        Selection::DebtPayments => r.include_in_statistics && ((!negative && ids.contains(
            r.target_account_id,
        )) || (negative && (r.source_account_id matches Some(s) && ids.contains(s)))),
    }
}

fn selects_exec(sel: Selection, ids: &Vec<i32>, r: &RecurringTransaction) -> (b: bool)
    ensures
        b == selects(sel, ids@, *r),
{
    let negative = r.amount.is_negative();
    match sel {
        Selection::OutflowsOf(id) => r.target_account_id == id && negative,
        Selection::PaymentsInto(id) => r.target_account_id == id && !negative,
        Selection::PaymentsOf(id) => (r.target_account_id == id && !negative) || (match r.source_account_id {
            Some(s) => s == id && negative,
            None => false,
        }),
        Selection::Expenses => negative && r.include_in_statistics && r.source_account_id.is_none(),
        Selection::ExpensesOf => negative && r.include_in_statistics && r.source_account_id.is_none()
            && contains_id(ids, r.target_account_id),
        Selection::DebtPayments => r.include_in_statistics && ((!negative && contains_id(
            ids,
            r.target_account_id,
        )) || (negative && (match r.source_account_id {
            Some(s) => contains_id(ids, s),
            None => false,
        }))),
    }
}

/// The active recurring transactions of the selection, in their order.
pub open spec fn selected(rs: Seq<RecurringTransaction>, today: Date, sel: Selection, ids: Seq<i32>) -> Seq<
    RecurringTransaction,
> {
    rs.filter(|r: RecurringTransaction| active_on(r, today) && selects(sel, ids, r))
}

/// The absolute value of an amount, at its scale.
pub open spec fn abs_amount(a: Amount) -> Amount {
    Amount { mantissa: abs_int(a.mantissa as int) as i128, scale: a.scale }
}

/// The monthly equivalent of the absolute amount of a recurring transaction.
pub open spec fn monthly_of(r: RecurringTransaction) -> Option<Amount> {
    match period_factor(r.period) {
        Some(f) => decimal_product(abs_amount(r.amount), f),
        None => None,
    }
}

/// The sum of the monthly equivalents, in order, starting from zero; `None`
/// when an operation fails.
pub open spec fn monthly_total(rs: Seq<RecurringTransaction>) -> Option<Amount>
    decreases rs.len(),
{
    if rs.len() == 0 {
        Some(zero())
    } else {
        match (monthly_total(rs.drop_last()), monthly_of(rs.last())) {
            (Some(a), Some(m)) => crate::amount::decimal_sum(a, m),
            _ => None,
        }
    }
}

proof fn lemma_monthly_total_fails(rs: Seq<RecurringTransaction>, i: int)
    requires
        0 <= i <= rs.len(),
        monthly_total(rs.take(i)) is None,
    ensures
        monthly_total(rs) is None,
    decreases rs.len() - i,
{
    if i < rs.len() {
        assert(rs.take(i + 1).drop_last() == rs.take(i));
        lemma_monthly_total_fails(rs, i + 1);
    } else {
        assert(rs.take(i) == rs);
    }
}

/// The monthly total ([`monthly_total`]) of the active recurring transactions
/// of the selection; `None` when a decimal operation overflows.
pub fn selected_monthly_total(rs: &Vec<RecurringTransaction>, today: Date, sel: Selection, ids: &Vec<i32>) -> (r:
    Option<Amount>)
    requires
        forall|i: int| 0 <= i < rs.len() ==> (#[trigger] rs@[i]).wf(),
    ensures
        r == monthly_total(selected(rs@, today, sel, ids@)),
        r matches Some(x) ==> x.wf(),
{
    let ghost pred = |r: RecurringTransaction| active_on(r, today) && selects(sel, ids@, r);
    let mut chosen: Vec<RecurringTransaction> = Vec::new();
    let mut i: usize = 0;
    while i < rs.len()
        invariant
            pred == (|r: RecurringTransaction| active_on(r, today) && selects(sel, ids@, r)),
            i <= rs.len(),
            chosen@ == rs@.take(i as int).filter(pred),
            forall|q: int| 0 <= q < rs.len() ==> (#[trigger] rs@[q]).wf(),
            forall|q: int| 0 <= q < chosen.len() ==> (#[trigger] chosen@[q]).wf(),
        decreases rs.len() - i,
    {
        let t = rs[i];
        proof {
            assert(rs@.take(i + 1) == rs@.take(i as int).push(t));
            rs@.take(i as int).lemma_filter_push(t, pred);
        }
        let not_ended = match t.end_date {
            Some(e) => e.days >= today.days,
            None => true,
        };
        if !t.is_simulated && t.start_date.days <= today.days && not_ended && selects_exec(sel, ids, &t) {
            assert(rs@[i as int].wf());
            chosen.push(t);
        }
        i = i + 1;
    }
    assert(rs@.take(rs.len() as int) == rs@);
    let mut total = Amount::zero();
    let mut j: usize = 0;
    while j < chosen.len()
        invariant
            j <= chosen.len(),
            total.wf(),
            monthly_total(chosen@.take(j as int)) == Some(total),
            forall|q: int| 0 <= q < chosen.len() ==> (#[trigger] chosen@[q]).wf(),
            chosen@ == selected(rs@, today, sel, ids@),
        decreases chosen.len() - j,
    {
        let t = chosen[j];
        assert(chosen@.take(j + 1).drop_last() == chosen@.take(j as int));
        assert(chosen@.take(j + 1).last() == t);
        assert(chosen@[j as int].wf());
        let a = t.amount.abs();
        assert(a == abs_amount(t.amount));
        let m = match monthly_equivalent(a, t.period) {
            Some(m) => m,
            None => {
                proof {
                    lemma_monthly_total_fails(chosen@, j + 1);
                }
                return None;
            },
        };
        total = match total.add_rounded(&m) {
            Some(s) => s,
            None => {
                proof {
                    lemma_monthly_total_fails(chosen@, j + 1);
                }
                return None;
            },
        };
        j = j + 1;
    }
    assert(chosen@.take(chosen.len() as int) == chosen@);
    Some(total)
}

// ---------------------------------------------------------------------------
// Flows and balances
// ---------------------------------------------------------------------------

/// The net flow of the rows over `[start, end]`, or zero when it does not fit.
pub open spec fn flow_or_zero(rows: Seq<BalanceRow>, start: Date, end: Date) -> Amount {
    match flow_of(rows, start.days as int, end.days as int) {
        Some(v) => v,
        None => zero(),
    }
}

/// The monthly net flows kept from the runs `outs` over the last `months`
/// months (the oldest first): the flow of each month whose run succeeded.
pub open spec fn kept_flows(outs: Seq<Option<BalanceFrame>>, today: Date, months: int) -> Seq<Amount>
    decreases outs.len(),
{
    if outs.len() == 0 {
        seq![]
    } else {
        let k = outs.len() - 1;
        let prev = kept_flows(outs.drop_last(), today, months);
        match outs.last() {
            None => prev,
            Some(f) => prev.push(
                flow_or_zero(f.rows@, month_first(today, months - 1 - k), month_last(today, months - 1 - k)),
            ),
        }
    }
}

/// `outs` are the runs of the calculator over each of the last `months`
/// months, the oldest first.
pub open spec fn month_runs(
    calc: Calculator,
    ledger: Ledger,
    ids: Seq<i32>,
    today: Date,
    months: int,
    outs: Seq<Option<BalanceFrame>>,
) -> bool {
    &&& outs.len() == months
    &&& forall|k: int|
        0 <= k < months ==> computed(
            calc,
            ledger,
            ids,
            month_first(today, months - 1 - k),
            month_last(today, months - 1 - k),
            #[trigger] outs[k],
        )
}

/// The monthly net flows (end-of-month minus start-of-month balance) of the last
/// `months` months, the oldest first, each computed with the calculator over
/// its month: a month whose computation fails is left out, and a flow that
/// does not fit counts as zero.
pub fn compute_monthly_net_flows(
    calculator: &Calculator,
    ledger: &Ledger,
    accounts: &Vec<Account>,
    today: Date,
    months: u32,
) -> (r: Vec<Amount>)
    requires
        calculator.wf(),
        ledger.wf(),
        today.wf(),
        today.year < MAX_YEAR - 1,
        months <= 12,
    ensures
        exists|outs: Seq<Option<BalanceFrame>>|
            #[trigger] month_runs(*calculator, *ledger, account_ids(accounts@), today, months as int, outs)
                && r@ == kept_flows(outs, today, months as int),
        forall|i: int| 0 <= i < r.len() ==> (#[trigger] r@[i]).wf(),
{
    let ghost ids = account_ids(accounts@);
    let mut flows: Vec<Amount> = Vec::new();
    let ghost mut outs: Seq<Option<BalanceFrame>> = seq![];
    let mut k: u32 = 0;
    while k < months
        invariant
            k <= months <= 12,
            calculator.wf(),
            ledger.wf(),
            today.wf(),
            today.year < MAX_YEAR - 1,
            ids == account_ids(accounts@),
            outs.len() == k,
            forall|j: int|
                0 <= j < k ==> computed(
                    *calculator,
                    *ledger,
                    ids,
                    month_first(today, months - 1 - j),
                    month_last(today, months - 1 - j),
                    #[trigger] outs[j],
                ),
            flows@ == kept_flows(outs, today, months as int),
            forall|i: int| 0 <= i < flows.len() ==> (#[trigger] flows@[i]).wf(),
        decreases months - k,
    {
        let i = months - 1 - k;
        let (start, end) = month_bounds(today, i);
        let o = try_compute(calculator, ledger, accounts, start, end);
        let ghost before = outs;
        proof {
            outs = outs.push(o);
            assert(outs.drop_last() == before);
        }
        match o {
            None => {},
            Some(f) => {
                if f.height() == 0 {
                    flows.push(Amount::zero());
                } else {
                    match extract_net_flow_from_df(&f, start, end) {
                        Ok(v) => flows.push(v),
                        Err(_) => flows.push(Amount::zero()),
                    }
                }
            },
        }
        k = k + 1;
    }
    proof {
        assert(month_runs(*calculator, *ledger, ids, today, months as int, outs));
    }
    flows
}

/// The balance that the end-of-period states give an account: that of the first
/// state, or zero.
pub open spec fn first_state(stats: Seq<AccountStats>) -> Amount {
    if stats.len() > 0 && stats[0].end_of_period_state is Some {
        stats[0].end_of_period_state.unwrap()
    } else {
        zero()
    }
}

/// The current balance of the first of the accounts: its state at `today`
/// computed over the year up to `today`, or zero without one.  Fails only when
/// the calculator fails, with its error ([`Calculator::outcome`]), so never
/// where it fits ([`Calculator::fits`]).
pub fn get_current_balance(calculator: &Calculator, ledger: &Ledger, accounts: &Vec<Account>, today: Date) -> (r:
    Result<Amount, ComputeError>)
    requires
        calculator.wf(),
        ledger.wf(),
        today.wf(),
        today.year < MAX_YEAR - 1,
    ensures
        r matches Ok(v) ==> v.wf() && exists|f: BalanceFrame|
            f.wf() && #[trigger] calculator.produces(
                *ledger,
                account_ids(accounts@),
                date_of(today.year as int, 1, 1),
                today,
                f.view_rows(),
            ) && v == first_state(end_stats(f.rows@, today.days as int)),
        r matches Err(e) ==> e.is_overflow() || (e.is_refused_merge() && calculator.has_unsupported_merge()),
        r matches Err(e) ==> calculator.outcome(
            *ledger,
            account_ids(accounts@),
            date_of(today.year as int, 1, 1),
            today,
            Err(e),
        ),
        (calculator.sound(*ledger, account_ids(accounts@), date_of(today.year as int, 1, 1), today)
            && calculator.refuses(*ledger, account_ids(accounts@), date_of(today.year as int, 1, 1), today))
            ==> (r matches Err(e) && e.is_refused_merge()),
        calculator.fits(*ledger, account_ids(accounts@), date_of(today.year as int, 1, 1), today) ==> r is Ok,
{
    let stats = match state_at_date(calculator, ledger, accounts, today) {
        Ok(s) => s,
        Err(e) => {
            return Err(e);
        },
    };
    proof {
        let f = choose|f: BalanceFrame|
            f.wf() && #[trigger] calculator.produces(
                *ledger,
                account_ids(accounts@),
                date_of(today.year as int, 1, 1),
                today,
                f.view_rows(),
            ) && crate::account_stats::period_stats(PeriodStat::EndOfPeriod, f, today, stats@);
        lemma_end_stats_wf(f.rows@, today.days as int);
        if stats.len() > 0 {
            assert(stats@[0] == end_stats(f.rows@, today.days as int)[0]);
        }
    }
    if stats.len() > 0 {
        match stats[0].end_of_period_state {
            Some(v) => Ok(v),
            None => Ok(Amount::zero()),
        }
    } else {
        Ok(Amount::zero())
    }
}

// ---------------------------------------------------------------------------
// Universal metrics
// ---------------------------------------------------------------------------

/// `Some(r)`: the funding ratio `r`, the current balance divided by the target
/// (none without a non-zero target); `None` when the division fails.
pub open spec fn ratio_of(current: Amount, target: Option<Amount>) -> Option<Option<Amount>> {
    match target {
        Some(t) => if t.mantissa == 0 {
            Some(None)
        } else {
            match decimal_quotient(current, t) {
                Some(q) => Some(Some(q)),
                None => None,
            }
        },
        None => Some(None),
    }
}

/// The last flow, if any.
pub open spec fn last_of(flows: Seq<Amount>) -> Option<Amount> {
    if flows.len() > 0 {
        Some(flows.last())
    } else {
        None
    }
}

/// `Some(a)`: the average `a` of the last three flows, newest first summed, or
/// of all flows when there are fewer (none without flows); `None` when a
/// decimal operation fails.
pub open spec fn average_of(flows: Seq<Amount>) -> Option<Option<Amount>> {
    let n = flows.len();
    if n >= 3 {
        match total_of(seq![flows[n - 1], flows[n - 2], flows[n - 3]]) {
            None => None,
            Some(s) => match decimal_quotient(s, Amount { mantissa: 3, scale: 0 }) {
                Some(q) => Some(Some(q)),
                None => None,
            },
        }
    } else if n > 0 {
        match total_of(flows) {
            None => None,
            Some(s) => match decimal_quotient(s, Amount { mantissa: n as i128, scale: 0 }) {
                Some(q) => Some(Some(q)),
                None => None,
            },
        }
    } else {
        Some(None)
    }
}

/// `m` holds the universal metrics of the account, given its current balance
/// and its monthly flows (the oldest first).
pub open spec fn universal_ok(account: Account, current: Amount, flows: Seq<Amount>, m: AccountMetricsDto) -> bool {
    &&& m.account_id == account.id
    &&& m.account_kind@ == kind_name(account.account_kind)
    &&& m.current_balance == current
    &&& m.target_balance == account.target_amount
    &&& ratio_of(current, account.target_amount) == Some(m.funding_ratio)
    &&& m.monthly_net_flow == last_of(flows)
    &&& average_of(flows) == Some(m.three_month_avg_net_flow)
    &&& m.flow_volatility == stddev_of(flows)
}

/// The average of the last three flows ([`average_of`]).
fn average_net_flow(flows: &Vec<Amount>) -> (r: Result<Option<Amount>, ComputeError>)
    requires
        forall|i: int| 0 <= i < flows.len() ==> (#[trigger] flows@[i]).wf(),
    ensures
        r matches Ok(a) ==> average_of(flows@) == Some(a),
        r matches Err(e) ==> e.is_overflow() && average_of(flows@) is None,
{
    let n = flows.len();
    if n >= 3 {
        let mut last_three: Vec<Amount> = Vec::new();
        last_three.push(flows[n - 1]);
        last_three.push(flows[n - 2]);
        last_three.push(flows[n - 3]);
        assert(last_three@ == seq![flows@[n - 1], flows@[n - 2], flows@[n - 3]]);
        let sum = match sum_amounts(&last_three) {
            Some(s) => s,
            None => {
                return Err(ComputeError::decimal_overflow());
            },
        };
        match sum.checked_div(&Amount::from_int(3)) {
            Some(q) => Ok(Some(q)),
            None => Err(ComputeError::decimal_overflow()),
        }
    } else if n > 0 {
        let sum = match sum_amounts(flows) {
            Some(s) => s,
            None => {
                return Err(ComputeError::decimal_overflow());
            },
        };
        match sum.checked_div(&Amount { mantissa: n as i128, scale: 0 }) {
            Some(q) => Ok(Some(q)),
            None => Err(ComputeError::decimal_overflow()),
        }
    } else {
        Ok(None)
    }
}

/// The universal metrics of the account from its current balance and monthly
/// flows ([`universal_ok`]), with the given kind-specific metrics.  Fails when
/// the funding ratio or the average flow overflows.
pub(crate) fn universal_metrics(
    account: &Account,
    current: Amount,
    flows: &Vec<Amount>,
    kind_metrics: Option<AccountKindMetricsDto>,
) -> (r: Result<AccountMetricsDto, ComputeError>)
    requires
        account.wf(),
        current.wf(),
        forall|i: int| 0 <= i < flows.len() ==> (#[trigger] flows@[i]).wf(),
    ensures
        r matches Ok(m) ==> universal_ok(*account, current, flows@, m) && m.kind_metrics == kind_metrics,
        r matches Err(e) ==> e.is_overflow() && (ratio_of(current, account.target_amount) is None || average_of(
            flows@,
        ) is None),
{
    let funding_ratio = match account.target_amount {
        Some(t) => {
            if t.is_zero() {
                None
            } else {
                match current.checked_div(&t) {
                    Some(q) => Some(q),
                    None => {
                        return Err(ComputeError::decimal_overflow());
                    },
                }
            }
        },
        None => None,
    };
    let monthly_net_flow = if flows.len() > 0 {
        Some(flows[flows.len() - 1])
    } else {
        None
    };
    let three_month_avg_net_flow = match average_net_flow(flows) {
        Ok(a) => a,
        Err(e) => {
            return Err(e);
        },
    };
    let flow_volatility = compute_stddev(flows);
    Ok(
        AccountMetricsDto {
            account_id: account.id,
            account_kind: String::from_str(kind_str(account.account_kind)),
            current_balance: current,
            target_balance: account.target_amount,
            funding_ratio,
            monthly_net_flow,
            three_month_avg_net_flow,
            flow_volatility,
            kind_metrics,
        },
    )
}

// ---------------------------------------------------------------------------
// Kind-specific metrics
// ---------------------------------------------------------------------------

/// The amount when it is not negative, else zero.
pub open spec fn max_zero(d: Amount) -> Amount {
    if d.units() >= 0 {
        d
    } else {
        zero()
    }
}

/// `Some(c)`: the months `c` of mandatory outflows that the current balance
/// covers, the balance divided by the monthly total of the account's active
/// recurring outflows (none when that total is zero); `None` when a decimal
/// operation fails.
pub open spec fn coverage_of(rs: Seq<RecurringTransaction>, id: i32, current: Amount, today: Date) -> Option<
    Option<Amount>,
> {
    match monthly_total(selected(rs, today, Selection::OutflowsOf(id), seq![])) {
        None => None,
        Some(t) => if t.mantissa == 0 {
            Some(None)
        } else {
            match decimal_quotient(current, t) {
                Some(q) => Some(Some(q)),
                None => None,
            }
        },
    }
}

/// Computes how many months of mandatory (recurring) outflows the current
/// balance covers ([`coverage_of`]).
pub fn compute_mandatory_coverage(
    recurring: &Vec<RecurringTransaction>,
    account_id: i32,
    current_balance: Amount,
    today: Date,
) -> (r: Result<Option<Amount>, ComputeError>)
    requires
        forall|i: int| 0 <= i < recurring.len() ==> (#[trigger] recurring@[i]).wf(),
        current_balance.wf(),
    ensures
        r matches Ok(c) ==> coverage_of(recurring@, account_id, current_balance, today) == Some(c),
        r matches Err(e) ==> e.is_overflow() && coverage_of(recurring@, account_id, current_balance, today) is None,
{
    let no_ids: Vec<i32> = Vec::new();
    let outflow = match selected_monthly_total(recurring, today, Selection::OutflowsOf(account_id), &no_ids) {
        Some(t) => t,
        None => {
            return Err(ComputeError::decimal_overflow());
        },
    };
    if outflow.is_zero() {
        return Ok(None);
    }
    match current_balance.checked_div(&outflow) {
        Some(q) => Ok(Some(q)),
        None => Err(ComputeError::decimal_overflow()),
    }
}

/// Operating metrics from the target, the current and the month-end balances
/// and the coverage: the buffer `balance - target` and the sweep potential
/// `max(0, month-end balance - target)` (none without a target); `None` when a
/// difference does not fit.
pub open spec fn operating_of(target: Option<Amount>, current: Amount, eom: Amount, coverage: Option<Amount>) -> Option<
    OperatingMetricsDto,
> {
    match target {
        None => Some(
            OperatingMetricsDto {
                operating_buffer: None,
                sweep_potential: None,
                mandatory_coverage_months: coverage,
            },
        ),
        Some(t) => match (decimal_difference(current, t), decimal_difference(eom, t)) {
            (Some(b), Some(d)) => Some(
                OperatingMetricsDto {
                    operating_buffer: Some(b),
                    sweep_potential: Some(max_zero(d)),
                    mandatory_coverage_months: coverage,
                },
            ),
            _ => None,
        },
    }
}

/// The operating metrics measure against the target: the buffer is what the
/// current balance exceeds the target by, and the sweep potential what the
/// projected month-end balance `eom` exceeds it by, or zero when it falls
/// short; the coverage is passed through.  This holds wherever the two
/// differences are exact (`b` and `d`, `rust_decimal`'s differences of the
/// current and of the month-end balance from the target).
pub proof fn law_sweep_potential_is_the_month_end_excess(
    target: Amount,
    current: Amount,
    eom: Amount,
    coverage: Option<Amount>,
    b: Amount,
    d: Amount,
)
    requires
        decimal_difference(current, target) == Some(b),
        b.units() == current.units() - target.units(),
        decimal_difference(eom, target) == Some(d),
        d.units() == eom.units() - target.units(),
    ensures
        operating_of(Some(target), current, eom, coverage) matches Some(m) && {
            &&& m.operating_buffer matches Some(x) && x.units() == current.units() - target.units()
            &&& m.sweep_potential matches Some(y) && y.units() == (if eom.units() >= target.units() {
                eom.units() - target.units()
            } else {
                0
            })
            &&& m.mandatory_coverage_months == coverage
        },
        operating_of(None, current, eom, coverage) matches Some(m) && m.operating_buffer is None
            && m.sweep_potential is None && m.mandatory_coverage_months == coverage,
{
}

/// Operating metrics ([`operating_of`]).
pub(crate) fn operating_from(target: Option<Amount>, current: Amount, eom: Amount, coverage: Option<Amount>) -> (r: Result<
    OperatingMetricsDto,
    ComputeError,
>)
    requires
        target matches Some(t) ==> t.wf(),
        current.wf(),
        eom.wf(),
    ensures
        r matches Ok(m) ==> operating_of(target, current, eom, coverage) == Some(m),
        r matches Err(e) ==> e.is_overflow() && operating_of(target, current, eom, coverage) is None,
{
    match target {
        None => Ok(
            OperatingMetricsDto {
                operating_buffer: None,
                sweep_potential: None,
                mandatory_coverage_months: coverage,
            },
        ),
        Some(t) => {
            let buffer = current.sub_rounded(&t);
            let d = eom.sub_rounded(&t);
            match (buffer, d) {
                (Some(b), Some(d)) => {
                    let zero_ = Amount::zero();
                    let sweep = if zero_.lt(&d) || zero_.same_value(&d) {
                        d
                    } else {
                        zero_
                    };
                    Ok(
                        OperatingMetricsDto {
                            operating_buffer: Some(b),
                            sweep_potential: Some(sweep),
                            mandatory_coverage_months: coverage,
                        },
                    )
                },
                _ => Err(ComputeError::decimal_overflow()),
            }
        },
    }
}

/// The month-end balance from the run `o`: the balance at `eom` of its table,
/// else the current balance.
pub open spec fn eom_from(o: Option<BalanceFrame>, eom: Date, current: Amount) -> Amount {
    match o {
        Some(f) => match balance_until(f.rows@, eom) {
            Some(b) => b,
            None => current,
        },
        None => current,
    }
}

/// Operating metrics of the account computed on its own: the month-end balance
/// comes from a run of the calculator from `today` to the end of the month.
pub open spec fn operating_run_ok(
    calc: Calculator,
    ledger: Ledger,
    account: Account,
    today: Date,
    current: Amount,
    m: OperatingMetricsDto,
) -> bool {
    exists|o: Option<BalanceFrame>|
        #[trigger] computed(calc, ledger, seq![account.id], today, month_last(today, 0), o) && (coverage_of(
            ledger.recurring_transactions@,
            account.id,
            current,
            today,
        ) matches Some(cov) && operating_of(
            account.target_amount,
            current,
            eom_from(o, month_last(today, 0), current),
            cov,
        ) == Some(m))
}

/// A goal date from the run `o`: none when the run failed, else the first date
/// on which its table reaches `target`.
pub open spec fn goal_from(o: Option<BalanceFrame>, target: Amount, d: Option<Date>) -> bool {
    match o {
        None => d is None,
        Some(f) => d == goal_date(f.rows@, target),
    }
}

/// Reserve metrics: the date on which the forecast of the next five years
/// reaches the target (none without a target); the coverage of essential
/// expenses is left to the cross-account computation.
pub open spec fn reserve_ok(calc: Calculator, ledger: Ledger, account: Account, today: Date, m: ReserveMetricsDto) -> bool {
    &&& m.months_of_essential_coverage is None
    &&& match account.target_amount {
        None => m.goal_reached_date is None,
        Some(t) => exists|o: Option<BalanceFrame>|
            #[trigger] computed(calc, ledger, seq![account.id], today, years_end(today, 5), o) && goal_from(
                o,
                t,
                m.goal_reached_date,
            ),
    }
}

/// The goal date of a run ([`goal_from`]).
fn goal_of_run(o: &Option<BalanceFrame>, target: Amount) -> (r: Option<Date>)
    requires
        o matches Some(f) ==> f.wf(),
        target.wf(),
    ensures
        goal_from(*o, target, r),
{
    match o {
        Some(f) => match calculate_goal_reached_date(f, target) {
            Ok(d) => d,
            Err(_) => None,
        },
        None => None,
    }
}

/// Computes reserve metrics ([`reserve_ok`]).
pub(crate) fn compute_reserve_metrics(calculator: &Calculator, ledger: &Ledger, account: &Account, today: Date) -> (r:
    ReserveMetricsDto)
    requires
        calculator.wf(),
        ledger.wf(),
        account.wf(),
        today.wf(),
        today.year < MAX_YEAR - 32,
    ensures
        reserve_ok(*calculator, *ledger, *account, today, r),
{
    let goal_reached_date = match account.target_amount {
        Some(target_amount) => {
            let end_date = years_end_exec(today, 5);
            let accounts = single(account);
            let o = try_compute(calculator, ledger, &accounts, today, end_date);
            let d = goal_of_run(&o, target_amount);
            assert(computed(*calculator, *ledger, seq![account.id], today, years_end(today, 5), o));
            d
        },
        None => None,
    };
    ReserveMetricsDto { goal_reached_date, months_of_essential_coverage: None }
}

/// The decimal one hundred.
pub open spec fn hundred() -> Amount {
    Amount { mantissa: 100, scale: 0 }
}

/// Investment metrics from the current balance and the net contributions: the
/// gain `balance - contributions` and the gain in percent of the contributions
/// (none without contributions, the percent none for zero contributions);
/// `None` when a decimal operation fails.
pub open spec fn investment_of(current: Amount, nc: Option<Amount>) -> Option<InvestmentMetricsDto> {
    match nc {
        None => Some(
            InvestmentMetricsDto { net_contributions: None, gain_loss_absolute: None, gain_loss_percent: None },
        ),
        Some(v) => match decimal_difference(current, v) {
            None => None,
            Some(g) => if v.mantissa == 0 {
                Some(
                    InvestmentMetricsDto {
                        net_contributions: Some(v),
                        gain_loss_absolute: Some(g),
                        gain_loss_percent: None,
                    },
                )
            } else {
                match decimal_quotient(g, v) {
                    None => None,
                    Some(q) => match decimal_product(q, hundred()) {
                        None => None,
                        Some(p) => Some(
                            InvestmentMetricsDto {
                                net_contributions: Some(v),
                                gain_loss_absolute: Some(g),
                                gain_loss_percent: Some(p),
                            },
                        ),
                    },
                }
            },
        },
    }
}

/// Investment metrics: the net contributions are the sum of the increases of
/// the balance from January 1, 2000 to `today` (none when that run failed or
/// the sum does not fit).
pub open spec fn investment_ok(
    calc: Calculator,
    ledger: Ledger,
    account: Account,
    today: Date,
    current: Amount,
    m: InvestmentMetricsDto,
) -> bool {
    &&& investment_of(current, m.net_contributions) == Some(m)
    &&& exists|o: Option<BalanceFrame>|
        #[trigger] computed(calc, ledger, seq![account.id], date_of(2000, 1, 1), today, o) && match o {
            None => m.net_contributions is None,
            Some(f) => m.net_contributions matches Some(v) ==> v.wf() && v.units() == rise_sum(sort_rows(f.rows@)),
        }
}

/// Computes investment metrics ([`investment_ok`]); fails when the gain does not
/// fit.
pub(crate) fn compute_investment_metrics(
    calculator: &Calculator,
    ledger: &Ledger,
    account: &Account,
    today: Date,
    current: Amount,
) -> (r: Result<InvestmentMetricsDto, ComputeError>)
    requires
        calculator.wf(),
        ledger.wf(),
        account.wf(),
        today.wf(),
        today.year < MAX_YEAR - 32,
        current.wf(),
    ensures
        r matches Ok(m) ==> investment_ok(*calculator, *ledger, *account, today, current, m),
        r matches Err(e) ==> e.is_overflow(),
{
    let start_date = Date::from_ymd(2000, 1, 1).unwrap();
    proof {
        lemma_date_of(start_date);
    }
    let accounts = single(account);
    let o = try_compute(calculator, ledger, &accounts, start_date, today);
    let net_contributions = match &o {
        Some(f) => match compute_net_inflows(f) {
            Ok(v) => Some(v),
            Err(_) => None,
        },
        None => None,
    };
    let m = match net_contributions {
        None => InvestmentMetricsDto { net_contributions: None, gain_loss_absolute: None, gain_loss_percent: None },
        Some(v) => {
            let g = match current.sub_rounded(&v) {
                Some(g) => g,
                None => {
                    return Err(ComputeError::decimal_overflow());
                },
            };
            if v.is_zero() {
                InvestmentMetricsDto {
                    net_contributions: Some(v),
                    gain_loss_absolute: Some(g),
                    gain_loss_percent: None,
                }
            } else {
                let q = match g.checked_div(&v) {
                    Some(q) => q,
                    None => {
                        return Err(ComputeError::decimal_overflow());
                    },
                };
                let p = match q.checked_mul(&Amount::from_int(100)) {
                    Some(p) => p,
                    None => {
                        return Err(ComputeError::decimal_overflow());
                    },
                };
                InvestmentMetricsDto {
                    net_contributions: Some(v),
                    gain_loss_absolute: Some(g),
                    gain_loss_percent: Some(p),
                }
            }
        },
    };
    assert(computed(*calculator, *ledger, seq![account.id], date_of(2000, 1, 1), today, o));
    Ok(m)
}

/// Debt metrics: the outstanding principal (the absolute balance), the monthly
/// total of the selected payments (none when zero) and the payoff date.
pub open spec fn debt_of(current: Amount, total: Amount, free: Option<Date>) -> DebtMetricsDto {
    DebtMetricsDto {
        outstanding_principal: Some(abs_amount(current)),
        required_monthly_payment: if total.mantissa == 0 {
            None
        } else {
            Some(total)
        },
        debt_free_date: free,
    }
}

/// Debt metrics: the required payment is the monthly total of the active
/// recurring payments of the selection, and the payoff date is the date on
/// which the forecast of the next thirty years reaches zero.
pub open spec fn debt_ok(
    calc: Calculator,
    ledger: Ledger,
    account: Account,
    today: Date,
    current: Amount,
    sel: Selection,
    m: DebtMetricsDto,
) -> bool {
    &&& monthly_total(selected(ledger.recurring_transactions@, today, sel, seq![])) matches Some(total) && m == debt_of(
        current,
        total,
        m.debt_free_date,
    )
    &&& exists|o: Option<BalanceFrame>|
        #[trigger] computed(calc, ledger, seq![account.id], today, years_end(today, 30), o) && goal_from(
            o,
            zero(),
            m.debt_free_date,
        )
}

/// Computes debt metrics ([`debt_ok`]); fails when the monthly total overflows.
pub(crate) fn compute_debt_metrics(
    calculator: &Calculator,
    ledger: &Ledger,
    account: &Account,
    today: Date,
    current: Amount,
    sel: Selection,
) -> (r: Result<DebtMetricsDto, ComputeError>)
    requires
        calculator.wf(),
        ledger.wf(),
        account.wf(),
        today.wf(),
        today.year < MAX_YEAR - 32,
        current.wf(),
    ensures
        r matches Ok(m) ==> debt_ok(*calculator, *ledger, *account, today, current, sel, m),
        r matches Err(e) ==> e.is_overflow() && monthly_total(
            selected(ledger.recurring_transactions@, today, sel, seq![]),
        ) is None,
{
    let outstanding_principal = Some(current.abs());
    let no_ids: Vec<i32> = Vec::new();
    let total = match selected_monthly_total(&ledger.recurring_transactions, today, sel, &no_ids) {
        Some(t) => t,
        None => {
            return Err(ComputeError::decimal_overflow());
        },
    };
    let required_monthly_payment = if total.is_zero() {
        None
    } else {
        Some(total)
    };
    let end_date = years_end_exec(today, 30);
    let accounts = single(account);
    let o = try_compute(calculator, ledger, &accounts, today, end_date);
    let debt_free_date = goal_of_run(&o, Amount::zero());
    assert(computed(*calculator, *ledger, seq![account.id], today, years_end(today, 30), o));
    Ok(DebtMetricsDto { outstanding_principal, required_monthly_payment, debt_free_date })
}

// ---------------------------------------------------------------------------
// Metrics of one account
// ---------------------------------------------------------------------------

/// The kind-specific metrics of an account computed on its own: operating
/// accounts get their buffer, reserves their goal date, investments their gain
/// and debts their payoff (with the payments into the account); other kinds
/// get none.
pub open spec fn single_kind_ok(
    calc: Calculator,
    ledger: Ledger,
    account: Account,
    today: Date,
    current: Amount,
    km: Option<AccountKindMetricsDto>,
) -> bool {
    let k = account.account_kind;
    if is_operating(k) {
        km matches Some(AccountKindMetricsDto::Operating(m)) && operating_run_ok(calc, ledger, account, today, current, m)
    } else if is_reserve(k) {
        km matches Some(AccountKindMetricsDto::Reserve(m)) && reserve_ok(calc, ledger, account, today, m)
    } else if is_investment(k) {
        km matches Some(AccountKindMetricsDto::Investment(m)) && investment_ok(calc, ledger, account, today, current, m)
    } else if k == AccountKind::Debt {
        km matches Some(AccountKindMetricsDto::Debt(m)) && debt_ok(
            calc,
            ledger,
            account,
            today,
            current,
            Selection::PaymentsInto(account.id),
            m,
        )
    } else {
        km is None
    }
}

/// Computes operating metrics of the account on its own ([`operating_run_ok`]):
/// the sweep potential uses the projected month-end balance, so it reflects the
/// surplus after the month's remaining expenses.
fn compute_operating_metrics(
    calculator: &Calculator,
    ledger: &Ledger,
    account: &Account,
    current: Amount,
    today: Date,
) -> (r: Result<OperatingMetricsDto, ComputeError>)
    requires
        calculator.wf(),
        ledger.wf(),
        account.wf(),
        today.wf(),
        today.year < MAX_YEAR - 32,
        current.wf(),
    ensures
        r matches Ok(m) ==> operating_run_ok(*calculator, *ledger, *account, today, current, m),
        r matches Err(e) ==> e.is_overflow(),
{
    let (_, end_of_month) = month_bounds(today, 0);
    let accounts = single(account);
    let o = try_compute(calculator, ledger, &accounts, today, end_of_month);
    let projected = match &o {
        Some(f) => match extract_balance_at_date(f, end_of_month) {
            Some(b) => b,
            None => current,
        },
        None => current,
    };
    proof {
        if let Some(f) = o {
            if let Some(b) = balance_until(f.rows@, end_of_month) {
                crate::metrics::lemma_balance_until_wf(f.rows@, end_of_month);
            }
        }
    }
    let coverage = match compute_mandatory_coverage(&ledger.recurring_transactions, account.id, current, today) {
        Ok(c) => c,
        Err(e) => {
            return Err(e);
        },
    };
    let m = match operating_from(account.target_amount, current, projected, coverage) {
        Ok(m) => m,
        Err(e) => {
            return Err(e);
        },
    };
    assert(computed(*calculator, *ledger, seq![account.id], today, month_last(today, 0), o));
    Ok(m)
}

/// The kinds whose own metrics take decimal operations that may fail:
/// operating, investment and debt accounts.
pub open spec fn kind_may_fail(kind: AccountKind) -> bool {
    match kind {
        AccountKind::Savings | AccountKind::Goal | AccountKind::EmergencyFund | AccountKind::Tax
        | AccountKind::Other => false,
        _ => true,
    }
}

/// Computes the kind-specific metrics of the account on its own
/// ([`single_kind_ok`]).  Fails when a decimal operation overflows, which only
/// the kinds of [`kind_may_fail`] can.
pub fn compute_kind_metrics(
    calculator: &Calculator,
    ledger: &Ledger,
    account: &Account,
    today: Date,
    current: Amount,
) -> (r: Result<Option<AccountKindMetricsDto>, ComputeError>)
    requires
        calculator.wf(),
        ledger.wf(),
        account.wf(),
        today.wf(),
        today.year < MAX_YEAR - 32,
        current.wf(),
    ensures
        r matches Ok(km) ==> single_kind_ok(*calculator, *ledger, *account, today, current, km),
        r matches Err(e) ==> e.is_overflow() && kind_may_fail(account.account_kind),
{
    match account.account_kind {
        AccountKind::RealAccount | AccountKind::Allowance | AccountKind::Shared => {
            match compute_operating_metrics(calculator, ledger, account, current, today) {
                Ok(m) => Ok(Some(AccountKindMetricsDto::Operating(m))),
                Err(e) => Err(e),
            }
        },
        AccountKind::Savings | AccountKind::Goal | AccountKind::EmergencyFund => {
            let m = compute_reserve_metrics(calculator, ledger, account, today);
            Ok(Some(AccountKindMetricsDto::Reserve(m)))
        },
        AccountKind::Investment | AccountKind::Equity | AccountKind::House => {
            match compute_investment_metrics(calculator, ledger, account, today, current) {
                Ok(m) => Ok(Some(AccountKindMetricsDto::Investment(m))),
                Err(e) => Err(e),
            }
        },
        AccountKind::Debt => {
            match compute_debt_metrics(
                calculator,
                ledger,
                account,
                today,
                current,
                Selection::PaymentsInto(account.id),
            ) {
                Ok(m) => Ok(Some(AccountKindMetricsDto::Debt(m))),
                Err(e) => Err(e),
            }
        },
        AccountKind::Tax | AccountKind::Other => Ok(None),
    }
}

/// `m` holds the metrics of the account computed on its own: its current
/// balance is its state at `today` over the year so far, its flows are those of
/// the runs over each of the last six months, and its kind-specific metrics
/// follow [`single_kind_ok`].
pub open spec fn account_metrics_ok(calc: Calculator, ledger: Ledger, account: Account, today: Date, m: AccountMetricsDto) -> bool {
    &&& exists|f: BalanceFrame|
        f.wf() && #[trigger] calc.produces(
            ledger,
            seq![account.id],
            date_of(today.year as int, 1, 1),
            today,
            f.view_rows(),
        ) && m.current_balance == first_state(end_stats(f.rows@, today.days as int))
    &&& exists|outs: Seq<Option<BalanceFrame>>|
        #[trigger] month_runs(calc, ledger, seq![account.id], today, 6, outs) && universal_ok(
            account,
            m.current_balance,
            kept_flows(outs, today, 6),
            m,
        )
    &&& single_kind_ok(calc, ledger, account, today, m.current_balance, m.kind_metrics)
}

/// The account's metrics may fail to be computed: the calculator may fail on
/// the year so far (it does not fit), the kind's own metrics may fail
/// ([`kind_may_fail`]), or, for the current balance of some table the calculator
/// produces and the flows of some runs over the last six months, the funding
/// ratio or the average flow overflows.
pub open spec fn metrics_may_fail(calc: Calculator, ledger: Ledger, account: Account, today: Date) -> bool {
    ||| !calc.fits(ledger, seq![account.id], date_of(today.year as int, 1, 1), today)
    ||| kind_may_fail(account.account_kind)
    ||| exists|f: BalanceFrame, outs: Seq<Option<BalanceFrame>>|
        #![trigger calc.produces(ledger, seq![account.id], date_of(today.year as int, 1, 1), today, f.view_rows()), month_runs(calc, ledger, seq![account.id], today, 6, outs)]
        f.wf() && calc.produces(ledger, seq![account.id], date_of(today.year as int, 1, 1), today, f.view_rows())
            && month_runs(calc, ledger, seq![account.id], today, 6, outs) && (ratio_of(
            first_state(end_stats(f.rows@, today.days as int)),
            account.target_amount,
        ) is None || average_of(kept_flows(outs, today, 6)) is None)
}

/// Computes all per-account metrics for a single account: the universal ones
/// (balance, funding ratio, flow statistics) and those of its kind
/// ([`account_metrics_ok`]).  Fails when the calculator fails on the current
/// balance or a decimal operation overflows, and only where
/// [`metrics_may_fail`] allows it.
pub fn compute_account_metrics(calculator: &Calculator, ledger: &Ledger, account: &Account, today: Date) -> (r:
    Result<AccountMetricsDto, ComputeError>)
    requires
        calculator.wf(),
        ledger.wf(),
        account.wf(),
        today.wf(),
        today.year < MAX_YEAR - 32,
    ensures
        r matches Ok(m) ==> account_metrics_ok(*calculator, *ledger, *account, today, m),
        r matches Err(e) ==> e.is_overflow() || (e.is_refused_merge() && calculator.has_unsupported_merge()),
        r is Err ==> metrics_may_fail(*calculator, *ledger, *account, today),
{
    let accounts = single(account);
    let current_balance = match get_current_balance(calculator, ledger, &accounts, today) {
        Ok(v) => v,
        Err(e) => {
            return Err(e);
        },
    };
    let net_flows = compute_monthly_net_flows(calculator, ledger, &accounts, today, 6);
    let kind_metrics = match compute_kind_metrics(calculator, ledger, account, today, current_balance) {
        Ok(k) => k,
        Err(e) => {
            return Err(e);
        },
    };
    universal_metrics(account, current_balance, &net_flows, kind_metrics)
}

} // verus!
