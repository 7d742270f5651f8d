//! Cross-account dashboard metrics: net worth, burn rates, savings rate,
//! liquidity and debt burden across all accounts.
//!
//! The balances of all accounts come from one calculator run over the whole
//! range the metrics need; each account's metrics are read from its series in
//! that table.  Only the long-range projections (reserve goal dates,
//! investment history, debt payoff) run the calculator again, per account.

use crate::account_metrics::{
    average_of, compute_mandatory_coverage, computed, coverage_of, debt_ok, investment_ok, is_investment,
    is_operating, is_reserve, kind_may_fail, kind_name, kind_str, last_of, max_zero, month_bounds, month_first, month_last,
    monthly_total, operating_of, ratio_of, reserve_ok, selected, selected_monthly_total, universal_ok, zero,
    Selection,
};
use crate::account_stats::{insert_row, insert_row_position, lemma_insert_row_members, points, row_accounts, sort_rows};
use crate::amount::{decimal_quotient, decimal_sum, magnitude_at, sums_exactly_at, units_sum, Amount};
use crate::balance::{account_ids, BalanceFrame, BalanceRow};
use crate::calculator::Calculator;
use crate::calendar::{date_of, Date, MAX_YEAR};
use crate::error::ComputeError;
use crate::metric_reports::{AccountKindMetricsDto, AccountMetricsDto, DashboardMetricsDto, ReserveMetricsDto};
use crate::metrics::{balance_until, flow_of, total_of};
use crate::model::{Account, AccountKind, Ledger};
use std::collections::HashMap;
use vstd::prelude::*;

verus! {

broadcast use {vstd::seq_lib::group_seq_properties, vstd::std_specs::hash::group_hash_axioms};

// ---------------------------------------------------------------------------
// Balance series
// ---------------------------------------------------------------------------

/// The balances of one account in date order.
#[derive(Debug)]
pub struct AccountBalanceSeries {
    pub points: Vec<BalanceRow>,
}

impl AccountBalanceSeries {
    /// The balance at the latest date on or before `target`, if any.
    pub fn balance_at(&self, target: Date) -> (r: Option<Amount>)
        ensures
            r == balance_until(self.points@, target),
    {
        crate::metrics::balance_on_or_before(&self.points, target)
    }

    /// The net flow within `[start, end]`: the latest balance minus the earliest
    /// one, or zero without balances there.  Fails when the difference does not
    /// fit.
    pub fn net_flow_between(&self, start: Date, end: Date) -> (r: Result<Amount, ComputeError>)
        requires
            forall|i: int| 0 <= i < self.points.len() ==> (#[trigger] self.points@[i]).wf(),
        ensures
            r matches Ok(v) ==> flow_of(self.points@, start.days as int, end.days as int) == Some(v) && v.wf(),
            r matches Err(e) ==> e.is_overflow() && flow_of(self.points@, start.days as int, end.days as int) is None,
    {
        crate::metrics::flow_between(&self.points, start, end)
    }
}

/// An account without rows has no points.
proof fn lemma_points_absent(rows: Seq<BalanceRow>, a: i32)
    requires
        !row_accounts(rows).contains(a),
    ensures
        points(rows, a) == Seq::<BalanceRow>::empty(),
{
    let pred = |r: BalanceRow| r.account_id == a;
    if rows.filter(pred).len() > 0 {
        let x = rows.filter(pred)[0];
        assert(rows.filter(pred).contains(x));
        rows.lemma_filter_contains_rev(pred, x);
        let j = choose|j: int| 0 <= j < rows.len() && rows[j] == x;
        assert(row_accounts(rows)[j] == a);
    }
    assert(rows.filter(pred) =~= Seq::<BalanceRow>::empty());
}

/// Splits a table into the balance series of its accounts: each account of the
/// table maps to its rows in date order (rows on the same date keep their
/// order).
pub fn preprocess_batch_df(frame: &BalanceFrame) -> (r: HashMap<i32, AccountBalanceSeries>)
    requires
        frame.wf(),
    ensures
        forall|a: i32| #[trigger] r@.contains_key(a) <==> row_accounts(frame.rows@).contains(a),
        forall|a: i32|
            #[trigger] r@.contains_key(a) ==> r@[a].points@ == points(frame.rows@, a) && (forall|q: int|
                0 <= q < r@[a].points.len() ==> (#[trigger] r@[a].points@[q]).wf()),
{
    let ghost rows = frame.rows@;
    let mut map: HashMap<i32, AccountBalanceSeries> = HashMap::new();
    let mut i: usize = 0;
    while i < frame.rows.len()
        invariant
            rows == frame.rows@,
            frame.wf(),
            i <= rows.len(),
            forall|a: i32| #[trigger] map@.contains_key(a) <==> row_accounts(rows.take(i as int)).contains(a),
            forall|a: i32|
                #[trigger] map@.contains_key(a) ==> map@[a].points@ == points(rows.take(i as int), a) && (forall|
                    q: int,
                |
                    0 <= q < map@[a].points.len() ==> (#[trigger] map@[a].points@[q]).wf()),
        decreases rows.len() - i,
    {
        let x = frame.rows[i];
        let ghost before = map@;
        let ghost prefix = rows.take(i as int);
        let ghost next = rows.take(i + 1);
        assert(next == prefix.push(x));
        assert(rows[i as int].wf());
        let mut pts = match map.remove(&x.account_id) {
            Some(series) => series.points,
            None => Vec::new(),
        };
        proof {
            if !before.contains_key(x.account_id) {
                lemma_points_absent(prefix, x.account_id);
            }
            assert(pts@ == points(prefix, x.account_id));
        }
        let pos = insert_row_position(&pts, &x);
        let ghost old_pts = pts@;
        proof {
            lemma_insert_row_members(old_pts, x);
        }
        pts.insert(pos, x);
        proof {
            let pred = |r: BalanceRow| r.account_id == x.account_id;
            prefix.lemma_filter_push(x, pred);
            assert(next.filter(pred) == prefix.filter(pred).push(x));
            assert(next.filter(pred).drop_last() == prefix.filter(pred));
            assert(sort_rows(next.filter(pred)) == insert_row(sort_rows(prefix.filter(pred)), x));
            assert(pts@ == points(next, x.account_id));
            assert forall|q: int| 0 <= q < pts.len() implies (#[trigger] pts@[q]).wf() by {
                assert(pts@[q] == insert_row(old_pts, x)[q]);
                if pts@[q] != x {
                    let w = choose|w: int| 0 <= w < old_pts.len() && old_pts[w] == pts@[q];
                }
            }
        }
        map.insert(x.account_id, AccountBalanceSeries { points: pts });
        proof {
            assert(row_accounts(next) == row_accounts(prefix).push(x.account_id));
            assert forall|a: i32| #[trigger] map@.contains_key(a) <==> row_accounts(next).contains(a) by {
                if a != x.account_id {
                    assert(map@.contains_key(a) == before.contains_key(a));
                    if row_accounts(next).contains(a) {
                        let j = choose|j: int| 0 <= j < row_accounts(next).len() && row_accounts(next)[j] == a;
                        assert(row_accounts(prefix)[j] == a);
                    }
                    if row_accounts(prefix).contains(a) {
                        let j = choose|j: int| 0 <= j < row_accounts(prefix).len() && row_accounts(prefix)[j] == a;
                        assert(row_accounts(next)[j] == a);
                    }
                } else {
                    assert(row_accounts(next)[i as int] == a);
                }
            }
            assert forall|a: i32| #[trigger] map@.contains_key(a) implies map@[a].points@ == points(next, a) && (
            forall|q: int| 0 <= q < map@[a].points.len() ==> (#[trigger] map@[a].points@[q]).wf()) by {
                if a != x.account_id {
                    let pa = |r: BalanceRow| r.account_id == a;
                    prefix.lemma_filter_push(x, pa);
                    assert(next.filter(pa) == prefix.filter(pa));
                }
            }
        }
        i = i + 1;
    }
    assert(rows.take(rows.len() as int) == rows);
    map
}

// ---------------------------------------------------------------------------
// Monthly flows of a series
// ---------------------------------------------------------------------------

/// The flows of the first `n` of the last `months` months (the oldest first)
/// of the series; `None` when a flow does not fit.
pub open spec fn series_flows(points: Seq<BalanceRow>, today: Date, months: int, n: nat) -> Option<Seq<Amount>>
    decreases n,
{
    if n == 0 {
        Some(seq![])
    } else {
        let k = n - 1;
        match series_flows(points, today, months, (n - 1) as nat) {
            None => None,
            Some(s) => match flow_of(
                points,
                month_first(today, months - 1 - k).days as int,
                month_last(today, months - 1 - k).days as int,
            ) {
                None => None,
                Some(v) => Some(s.push(v)),
            },
        }
    }
}

proof fn lemma_series_flows_fail(points: Seq<BalanceRow>, today: Date, months: int, n: nat, m: nat)
    requires
        n <= m,
        series_flows(points, today, months, n) is None,
    ensures
        series_flows(points, today, months, m) is None,
    decreases m - n,
{
    if n < m {
        lemma_series_flows_fail(points, today, months, n, (m - 1) as nat);
    }
}

/// The monthly net flows of the last `months` months of the series, the oldest
/// first ([`series_flows`]).
fn extract_monthly_net_flows(series: &AccountBalanceSeries, today: Date, months: u32) -> (r: Result<
    Vec<Amount>,
    ComputeError,
>)
    requires
        forall|i: int| 0 <= i < series.points.len() ==> (#[trigger] series.points@[i]).wf(),
        today.wf(),
        today.year < MAX_YEAR,
        months <= 12,
    ensures
        r matches Ok(v) ==> series_flows(series.points@, today, months as int, months as nat) == Some(v@) && (
        forall|i: int| 0 <= i < v.len() ==> (#[trigger] v@[i]).wf()),
        r matches Err(e) ==> e.is_overflow() && series_flows(series.points@, today, months as int, months as nat) is None,
{
    let mut flows: Vec<Amount> = Vec::new();
    let mut k: u32 = 0;
    while k < months
        invariant
            k <= months <= 12,
            today.wf(),
            today.year < MAX_YEAR,
            forall|i: int| 0 <= i < series.points.len() ==> (#[trigger] series.points@[i]).wf(),
            series_flows(series.points@, today, months as int, k as nat) == Some(flows@),
            forall|i: int| 0 <= i < flows.len() ==> (#[trigger] flows@[i]).wf(),
        decreases months - k,
    {
        let i = months - 1 - k;
        let (start, end) = month_bounds(today, i);
        match series.net_flow_between(start, end) {
            Ok(v) => flows.push(v),
            Err(e) => {
                proof {
                    lemma_series_flows_fail(series.points@, today, months as int, (k + 1) as nat, months as nat);
                }
                return Err(e);
            },
        }
        k = k + 1;
    }
    Ok(flows)
}

// ---------------------------------------------------------------------------
// Metrics of an account in the dashboard
// ---------------------------------------------------------------------------

/// The balance of the series at `today`, or zero.
pub open spec fn current_of(points: Seq<BalanceRow>, today: Date) -> Amount {
    match balance_until(points, today) {
        Some(b) => b,
        None => zero(),
    }
}

/// The kind-specific metrics of an account in the dashboard: as for an account
/// computed on its own, except that the month-end balance `eom` of an operating
/// account comes from its series, and the payments of a debt account include
/// the negative ones out of it.
pub open spec fn batch_kind_ok(
    calc: Calculator,
    ledger: Ledger,
    account: Account,
    today: Date,
    current: Amount,
    eom: Amount,
    km: Option<AccountKindMetricsDto>,
) -> bool {
    let k = account.account_kind;
    if is_operating(k) {
        km matches Some(AccountKindMetricsDto::Operating(m)) && (coverage_of(
            ledger.recurring_transactions@,
            account.id,
            current,
            today,
        ) matches Some(cov) && operating_of(account.target_amount, current, eom, cov) == Some(m))
    } else if is_reserve(k) {
        km matches Some(AccountKindMetricsDto::Reserve(m)) && reserve_ok(calc, ledger, account, today, m)
    } else if is_investment(k) {
        km matches Some(AccountKindMetricsDto::Investment(m)) && investment_ok(calc, ledger, account, today, current, m)
    } else if k == AccountKind::Debt {
        km matches Some(AccountKindMetricsDto::Debt(m)) && debt_ok(
            calc,
            ledger,
            account,
            today,
            current,
            Selection::PaymentsOf(account.id),
            m,
        )
    } else {
        km is None
    }
}

/// The metrics of an account read from its series `points` of the batch table
/// (before the coverage of essential expenses is added).
pub open spec fn batch_account_ok(
    calc: Calculator,
    ledger: Ledger,
    account: Account,
    points: Seq<BalanceRow>,
    today: Date,
    m: AccountMetricsDto,
) -> bool {
    let current = current_of(points, today);
    &&& series_flows(points, today, 6, 6) matches Some(flows) && universal_ok(account, current, flows, m)
    &&& batch_kind_ok(
        calc,
        ledger,
        account,
        today,
        current,
        match balance_until(points, month_last(today, 0)) {
            Some(b) => b,
            None => current,
        },
        m.kind_metrics,
    )
}

/// The metrics of an account from its series of the batch table
/// ([`batch_account_ok`]).
fn batch_account_metrics(
    calculator: &Calculator,
    ledger: &Ledger,
    account: &Account,
    series: &AccountBalanceSeries,
    today: Date,
) -> (r: Result<AccountMetricsDto, ComputeError>)
    requires
        calculator.wf(),
        ledger.wf(),
        account.wf(),
        today.wf(),
        today.year < MAX_YEAR - 32,
        forall|i: int| 0 <= i < series.points.len() ==> (#[trigger] series.points@[i]).wf(),
    ensures
        r matches Ok(m) ==> batch_account_ok(*calculator, *ledger, *account, series.points@, today, m) && metrics_wf(m),
        r matches Err(e) ==> e.is_overflow(),
        r is Err ==> kind_may_fail(account.account_kind) || forall|m: AccountMetricsDto|
            !#[trigger] batch_account_ok(*calculator, *ledger, *account, series.points@, today, m),
{
    proof {
        crate::metrics::lemma_balance_until_wf(series.points@, today);
    }
    let current_balance = match series.balance_at(today) {
        Some(b) => b,
        None => Amount::zero(),
    };
    let net_flows = match extract_monthly_net_flows(series, today, 6) {
        Ok(f) => f,
        Err(e) => {
            return Err(e);
        },
    };
    let kind_metrics = match account.account_kind {
        AccountKind::RealAccount | AccountKind::Allowance | AccountKind::Shared => {
            let (_, end_of_month) = month_bounds(today, 0);
            proof {
                crate::metrics::lemma_balance_until_wf(series.points@, end_of_month);
            }
            let eom_balance = match series.balance_at(end_of_month) {
                Some(b) => b,
                None => current_balance,
            };
            let coverage = match compute_mandatory_coverage(
                &ledger.recurring_transactions,
                account.id,
                current_balance,
                today,
            ) {
                Ok(c) => c,
                Err(e) => {
                    return Err(e);
                },
            };
            match crate::account_metrics::operating_from(account.target_amount, current_balance, eom_balance, coverage) {
                Ok(m) => Some(AccountKindMetricsDto::Operating(m)),
                Err(e) => {
                    return Err(e);
                },
            }
        },
        AccountKind::Savings | AccountKind::Goal | AccountKind::EmergencyFund => {
            let m = crate::account_metrics::compute_reserve_metrics(calculator, ledger, account, today);
            Some(AccountKindMetricsDto::Reserve(m))
        },
        AccountKind::Investment | AccountKind::Equity | AccountKind::House => {
            match crate::account_metrics::compute_investment_metrics(calculator, ledger, account, today, current_balance) {
                Ok(m) => Some(AccountKindMetricsDto::Investment(m)),
                Err(e) => {
                    return Err(e);
                },
            }
        },
        AccountKind::Debt => {
            match crate::account_metrics::compute_debt_metrics(
                calculator,
                ledger,
                account,
                today,
                current_balance,
                Selection::PaymentsOf(account.id),
            ) {
                Ok(m) => Some(AccountKindMetricsDto::Debt(m)),
                Err(e) => {
                    return Err(e);
                },
            }
        },
        AccountKind::Tax | AccountKind::Other => None,
    };
    crate::account_metrics::universal_metrics(account, current_balance, &net_flows, kind_metrics)
}

/// The reserve metrics among kind-specific metrics, if any.
pub open spec fn reserve_part(k: Option<AccountKindMetricsDto>) -> Option<ReserveMetricsDto> {
    match k {
        Some(AccountKindMetricsDto::Reserve(r)) => Some(r),
        _ => None,
    }
}

/// `post` is `pre` with, for a reserve account and a non-zero essential burn
/// rate, the months of essential expenses its balance covers.
pub open spec fn enriched(pre: AccountMetricsDto, post: AccountMetricsDto, essential: Amount) -> bool {
    &&& post.account_id == pre.account_id
    &&& post.account_kind@ == pre.account_kind@
    &&& post.current_balance == pre.current_balance
    &&& post.target_balance == pre.target_balance
    &&& post.funding_ratio == pre.funding_ratio
    &&& post.monthly_net_flow == pre.monthly_net_flow
    &&& post.three_month_avg_net_flow == pre.three_month_avg_net_flow
    &&& post.flow_volatility == pre.flow_volatility
    &&& if essential.mantissa != 0 && reserve_part(pre.kind_metrics) is Some {
        decimal_quotient(pre.current_balance, essential) matches Some(q) && post.kind_metrics == Some(
            AccountKindMetricsDto::Reserve(
                ReserveMetricsDto {
                    months_of_essential_coverage: Some(q),
                    ..reserve_part(pre.kind_metrics).unwrap()
                },
            ),
        )
    } else {
        post.kind_metrics == pre.kind_metrics
    }
}

/// Adds to a reserve account's metrics the months of essential expenses its
/// balance covers ([`enriched`]); fails when the division overflows.
fn enrich(pre: AccountMetricsDto, essential: Amount) -> (r: Result<AccountMetricsDto, ComputeError>)
    requires
        pre.current_balance.wf(),
        essential.wf(),
    ensures
        r matches Ok(post) ==> enriched(pre, post, essential),
        r matches Err(e) ==> e.is_overflow(),
        r is Err ==> forall|post: AccountMetricsDto| !#[trigger] enriched(pre, post, essential),
{
    match pre.kind_metrics {
        Some(AccountKindMetricsDto::Reserve(reserve)) => {
            if essential.is_zero() {
                Ok(pre)
            } else {
                match pre.current_balance.checked_div(&essential) {
                    Some(q) => Ok(
                        AccountMetricsDto {
                            kind_metrics: Some(
                                AccountKindMetricsDto::Reserve(
                                    ReserveMetricsDto { months_of_essential_coverage: Some(q), ..reserve },
                                ),
                            ),
                            ..pre
                        },
                    ),
                    None => Err(ComputeError::decimal_overflow()),
                }
            }
        },
        _ => Ok(pre),
    }
}

/// `post` holds the dashboard metrics of the account: those read from its
/// series of the batch table, with the coverage of essential expenses.
pub open spec fn account_in_dashboard(
    calc: Calculator,
    ledger: Ledger,
    account: Account,
    points: Seq<BalanceRow>,
    today: Date,
    essential: Amount,
    post: AccountMetricsDto,
) -> bool {
    exists|pre: AccountMetricsDto|
        #[trigger] batch_account_ok(calc, ledger, account, points, today, pre) && enriched(pre, post, essential)
}

// ---------------------------------------------------------------------------
// Cross-account totals
// ---------------------------------------------------------------------------

/// Whether each account id is liquid: the flag of the last account with the id.
pub open spec fn liquid_map(accounts: Seq<Account>) -> Map<i32, bool>
    decreases accounts.len(),
{
    if accounts.len() == 0 {
        Map::empty()
    } else {
        liquid_map(accounts.drop_last()).insert(accounts.last().id, accounts.last().is_liquid)
    }
}

/// The account id is liquid ([`liquid_map`]); an unknown id counts as liquid.
pub open spec fn is_liquid_id(accounts: Seq<Account>, id: i32) -> bool {
    if liquid_map(accounts).contains_key(id) {
        liquid_map(accounts)[id]
    } else {
        true
    }
}

/// Groups of account kinds that the totals single out.
#[derive(Clone, Copy, Debug, PartialEq, Eq, Structural)]
pub enum KindGroup {
    /// Day-to-day accounts.
    Operating,
    /// Accounts that build wealth: reserves and investments.
    Wealth,
    /// Debt accounts.
    Debt,
}

pub open spec fn in_group(g: KindGroup, k: AccountKind) -> bool {
    match g {
        KindGroup::Operating => is_operating(k),
        KindGroup::Wealth => is_reserve(k) || is_investment(k),
        KindGroup::Debt => k == AccountKind::Debt,
    }
}

/// The ids of the accounts of the group, in order.
pub open spec fn ids_where(accounts: Seq<Account>, g: KindGroup) -> Seq<i32>
    decreases accounts.len(),
{
    if accounts.len() == 0 {
        seq![]
    } else if in_group(g, accounts.last().account_kind) {
        ids_where(accounts.drop_last(), g).push(accounts.last().id)
    } else {
        ids_where(accounts.drop_last(), g)
    }
}

fn ids_where_exec(accounts: &Vec<Account>, g: KindGroup) -> (r: Vec<i32>)
    ensures
        r@ == ids_where(accounts@, g),
{
    let mut ids: Vec<i32> = Vec::new();
    let mut i: usize = 0;
    while i < accounts.len()
        invariant
            i <= accounts.len(),
            ids@ == ids_where(accounts@.take(i as int), g),
        decreases accounts.len() - i,
    {
        let a = &accounts[i];
        assert(accounts@.take(i + 1).drop_last() == accounts@.take(i as int));
        assert(accounts@.take(i + 1).last() == accounts@[i as int]);
        let member = match g {
            KindGroup::Operating => match a.account_kind {
                AccountKind::RealAccount | AccountKind::Allowance | AccountKind::Shared => true,
                _ => false,
            },
            KindGroup::Wealth => match a.account_kind {
                AccountKind::Savings | AccountKind::Goal | AccountKind::EmergencyFund | AccountKind::Investment
                | AccountKind::Equity | AccountKind::House => true,
                _ => false,
            },
            KindGroup::Debt => match a.account_kind {
                AccountKind::Debt => true,
                _ => false,
            },
        };
        if member {
            ids.push(a.id);
        }
        i = i + 1;
    }
    assert(accounts@.take(accounts.len() as int) == accounts@);
    ids
}

fn liquid_lookup_table(accounts: &Vec<Account>) -> (r: HashMap<i32, bool>)
    ensures
        r@ == liquid_map(accounts@),
{
    let mut map: HashMap<i32, bool> = HashMap::new();
    let mut i: usize = 0;
    while i < accounts.len()
        invariant
            i <= accounts.len(),
            map@ == liquid_map(accounts@.take(i as int)),
        decreases accounts.len() - i,
    {
        assert(accounts@.take(i + 1).drop_last() == accounts@.take(i as int));
        assert(accounts@.take(i + 1).last() == accounts@[i as int]);
        map.insert(accounts[i].id, accounts[i].is_liquid);
        i = i + 1;
    }
    assert(accounts@.take(accounts.len() as int) == accounts@);
    map
}

fn is_liquid_exec(table: &HashMap<i32, bool>, accounts: &Vec<Account>, id: i32) -> (r: bool)
    requires
        table@ == liquid_map(accounts@),
    ensures
        r == is_liquid_id(accounts@, id),
{
    match table.get(&id) {
        Some(b) => *b,
        None => true,
    }
}

/// The totals of the dashboard over the accounts' metrics.
#[derive(Clone, Copy, Debug, PartialEq, Eq, Structural)]
pub enum Pick {
    /// Every balance.
    NetWorth,
    /// The balances of liquid accounts.
    Liquid,
    /// The balances of accounts that are not liquid.
    NonLiquid,
    /// Every monthly net flow (zero where there is none).
    Flow,
    /// The positive monthly net flows of wealth-building accounts.
    GoalEngine,
    /// The balances of liquid accounts that are not debts.
    LiquidAssets,
}

/// What the metrics `m` of account `a` add to the total `which`, if anything.
pub open spec fn pick_value(which: Pick, accounts: Seq<Account>, m: AccountMetricsDto, a: Account) -> Option<Amount> {
    let flow = match m.monthly_net_flow {
        Some(f) => f,
        None => zero(),
    };
    match which {
        Pick::NetWorth => Some(m.current_balance),
        Pick::Liquid => if is_liquid_id(accounts, m.account_id) {
            Some(m.current_balance)
        } else {
            None
        },
        Pick::NonLiquid => if !is_liquid_id(accounts, m.account_id) {
            Some(m.current_balance)
        } else {
            None
        },
        Pick::Flow => Some(flow),
        Pick::GoalEngine => if ids_where(accounts, KindGroup::Wealth).contains(m.account_id) {
            Some(max_zero(flow))
        } else {
            None
        },
        Pick::LiquidAssets => if is_liquid_id(accounts, m.account_id) && a.account_kind != AccountKind::Debt {
            Some(m.current_balance)
        } else {
            None
        },
    }
}

/// The values that the first `n` metrics add to the total `which`, in order.
pub open spec fn picked(which: Pick, accounts: Seq<Account>, ms: Seq<AccountMetricsDto>, n: nat) -> Seq<Amount>
    decreases n,
{
    if n == 0 {
        seq![]
    } else {
        let prev = picked(which, accounts, ms, (n - 1) as nat);
        match pick_value(which, accounts, ms[n - 1], accounts[n - 1]) {
            Some(v) => prev.push(v),
            None => prev,
        }
    }
}

/// The metric values the totals read are well formed.
pub open spec fn metrics_wf(m: AccountMetricsDto) -> bool {
    m.current_balance.wf() && (m.monthly_net_flow matches Some(f) ==> f.wf())
}

/// The total `which` over the metrics ([`picked`]); `None` when a sum does not
/// fit.
fn picked_total(
    which: Pick,
    accounts: &Vec<Account>,
    ms: &Vec<AccountMetricsDto>,
    liquid: &HashMap<i32, bool>,
    wealth: &Vec<i32>,
) -> (r: Option<Amount>)
    requires
        ms.len() == accounts.len(),
        liquid@ == liquid_map(accounts@),
        wealth@ == ids_where(accounts@, KindGroup::Wealth),
        forall|i: int| 0 <= i < ms.len() ==> metrics_wf(#[trigger] ms@[i]),
    ensures
        r == total_of(picked(which, accounts@, ms@, ms.len() as nat)),
        r matches Some(x) ==> x.wf(),
        forall|scale: int| #[trigger]
            sums_exactly_at(picked(which, accounts@, ms@, ms.len() as nat), scale) ==> (r matches Some(x)
                && x.units() == units_sum(picked(which, accounts@, ms@, ms.len() as nat))),
{
    let mut values: Vec<Amount> = Vec::new();
    let mut i: usize = 0;
    while i < ms.len()
        invariant
            i <= ms.len() == accounts.len(),
            liquid@ == liquid_map(accounts@),
            wealth@ == ids_where(accounts@, KindGroup::Wealth),
            forall|j: int| 0 <= j < ms.len() ==> metrics_wf(#[trigger] ms@[j]),
            values@ == picked(which, accounts@, ms@, i as nat),
            forall|q: int| 0 <= q < values.len() ==> (#[trigger] values@[q]).wf(),
        decreases ms.len() - i,
    {
        let m = &ms[i];
        assert(metrics_wf(ms@[i as int]));
        let flow = match m.monthly_net_flow {
            Some(f) => f,
            None => Amount::zero(),
        };
        let v: Option<Amount> = match which {
            Pick::NetWorth => Some(m.current_balance),
            Pick::Liquid => if is_liquid_exec(liquid, accounts, m.account_id) {
                Some(m.current_balance)
            } else {
                None
            },
            Pick::NonLiquid => if !is_liquid_exec(liquid, accounts, m.account_id) {
                Some(m.current_balance)
            } else {
                None
            },
            Pick::Flow => Some(flow),
            Pick::GoalEngine => if contains_id_in(wealth, m.account_id) {
                let z = Amount::zero();
                if z.lt(&flow) || z.same_value(&flow) {
                    Some(flow)
                } else {
                    Some(z)
                }
            } else {
                None
            },
            Pick::LiquidAssets => if is_liquid_exec(liquid, accounts, m.account_id) && !matches!(
                accounts[i].account_kind,
                AccountKind::Debt
            ) {
                Some(m.current_balance)
            } else {
                None
            },
        };
        match v {
            Some(x) => values.push(x),
            None => {},
        }
        i = i + 1;
    }
    crate::metrics::sum_amounts(&values)
}

/// Each balance counts toward exactly one of the liquid and the non-liquid
/// totals: their exact sums and magnitudes add up to those of all balances,
/// and they hold no scale that the balances do not.
proof fn lemma_net_worth_partition(accounts: Seq<Account>, ms: Seq<AccountMetricsDto>, n: nat, scale: int)
    ensures
        ({
            let all = picked(Pick::NetWorth, accounts, ms, n);
            let liquid = picked(Pick::Liquid, accounts, ms, n);
            let other = picked(Pick::NonLiquid, accounts, ms, n);
            &&& units_sum(all) == units_sum(liquid) + units_sum(other)
            &&& magnitude_at(all, scale) == magnitude_at(liquid, scale) + magnitude_at(other, scale)
            &&& (forall|i: int| 0 <= i < all.len() ==> (#[trigger] all[i]).scale <= scale) ==> {
                &&& forall|i: int| 0 <= i < liquid.len() ==> (#[trigger] liquid[i]).scale <= scale
                &&& forall|i: int| 0 <= i < other.len() ==> (#[trigger] other[i]).scale <= scale
            }
        }),
    decreases n,
{
    if n > 0 {
        let k = (n - 1) as nat;
        lemma_net_worth_partition(accounts, ms, k, scale);
        let all0 = picked(Pick::NetWorth, accounts, ms, k);
        let liquid0 = picked(Pick::Liquid, accounts, ms, k);
        let other0 = picked(Pick::NonLiquid, accounts, ms, k);
        let all = picked(Pick::NetWorth, accounts, ms, n);
        let liquid = picked(Pick::Liquid, accounts, ms, n);
        let other = picked(Pick::NonLiquid, accounts, ms, n);
        let b = ms[n - 1].current_balance;
        assert(all == all0.push(b));
        assert(all.drop_last() == all0);
        if is_liquid_id(accounts, ms[n - 1].account_id) {
            assert(liquid == liquid0.push(b));
            assert(liquid.drop_last() == liquid0);
            assert(other == other0);
        } else {
            assert(other == other0.push(b));
            assert(other.drop_last() == other0);
            assert(liquid == liquid0);
        }
        if forall|i: int| 0 <= i < all.len() ==> (#[trigger] all[i]).scale <= scale {
            assert forall|i: int| 0 <= i < all0.len() implies (#[trigger] all0[i]).scale <= scale by {
                assert(all0[i] == all[i]);
            }
            assert(all[all.len() - 1] == b);
        }
    }
}

fn contains_id_in(v: &Vec<i32>, x: i32) -> (r: bool)
    ensures
        r == v@.contains(x),
{
    crate::account_stats::contains_id(v, x)
}

// ---------------------------------------------------------------------------
// Dashboard
// ---------------------------------------------------------------------------

/// The first day of the month six months before that of `today`, or January 1
/// of `today`'s year when that month is not supported.
pub open spec fn six_months_start(today: Date) -> Date {
    let t = crate::calendar::month_index(today.year as int, today.month as int) - 6;
    if crate::calendar::year_in_range(t / 12) {
        date_of(t / 12, t % 12 + 1, 1)
    } else {
        date_of(today.year as int, 1, 1)
    }
}

/// The start of the batch range: the earlier of January 1 of `today`'s year and
/// [`six_months_start`].
pub open spec fn range_start(today: Date) -> Date {
    if date_of(today.year as int, 1, 1).days <= six_months_start(today).days {
        date_of(today.year as int, 1, 1)
    } else {
        six_months_start(today)
    }
}

/// `Some(q)`: the quotient `q = num / den` when `cond` holds, else none; `None`
/// when the division fails.
pub open spec fn ratio_if(cond: bool, num: Amount, den: Amount) -> Option<Option<Amount>> {
    if cond {
        match decimal_quotient(num, den) {
            Some(q) => Some(Some(q)),
            None => None,
        }
    } else {
        Some(None)
    }
}

/// The dashboard of no accounts: all zero.
pub open spec fn empty_dashboard(d: DashboardMetricsDto) -> bool {
    &&& d.total_net_worth == zero()
    &&& d.liquid_net_worth == zero()
    &&& d.non_liquid_net_worth == zero()
    &&& d.essential_burn_rate == zero()
    &&& d.full_burn_rate == zero()
    &&& d.free_cashflow == zero()
    &&& d.savings_rate is None
    &&& d.goal_engine == zero()
    &&& d.commitment_ratio is None
    &&& d.liquidity_ratio_months is None
    &&& d.total_debt_burden is None
    &&& d.account_metrics.len() == 0
}

/// The totals of the dashboard over the accounts and their metrics `ms`:
/// - net worth: all balances; liquid and non-liquid net worth: the balances of
///   liquid and of other accounts;
/// - full burn rate: the monthly total of the active expenses counted in
///   statistics that come from no other account; essential burn rate: those
///   into operating accounts;
/// - free cash flow: the sum of the monthly net flows; income: free cash flow
///   plus full burn rate; savings rate and commitment ratio: free cash flow and
///   full burn rate over a positive income;
/// - goal engine: the positive monthly flows of wealth-building accounts;
/// - liquidity ratio: the balances of liquid non-debt accounts over a non-zero
///   essential burn rate;
/// - debt burden: the monthly payments into or out of debt accounts over a
///   non-zero income.
pub open spec fn dashboard_totals_ok(
    accounts: Seq<Account>,
    rs: Seq<crate::model::RecurringTransaction>,
    today: Date,
    d: DashboardMetricsDto,
) -> bool {
    let ms = d.account_metrics@;
    let n = ms.len();
    &&& total_of(picked(Pick::NetWorth, accounts, ms, n)) == Some(d.total_net_worth)
    &&& total_of(picked(Pick::Liquid, accounts, ms, n)) == Some(d.liquid_net_worth)
    &&& total_of(picked(Pick::NonLiquid, accounts, ms, n)) == Some(d.non_liquid_net_worth)
    &&& monthly_total(selected(rs, today, Selection::Expenses, seq![])) == Some(d.full_burn_rate)
    &&& monthly_total(selected(rs, today, Selection::ExpensesOf, ids_where(accounts, KindGroup::Operating))) == Some(
        d.essential_burn_rate,
    )
    &&& total_of(picked(Pick::Flow, accounts, ms, n)) == Some(d.free_cashflow)
    &&& total_of(picked(Pick::GoalEngine, accounts, ms, n)) == Some(d.goal_engine)
    &&& decimal_sum(d.free_cashflow, d.full_burn_rate) matches Some(income) && {
        &&& ratio_if(income.units() > 0, d.free_cashflow, income) == Some(d.savings_rate)
        &&& ratio_if(income.units() > 0, d.full_burn_rate, income) == Some(d.commitment_ratio)
        &&& monthly_total(selected(rs, today, Selection::DebtPayments, ids_where(accounts, KindGroup::Debt))) matches Some(
            payments,
        ) && ratio_if(income.mantissa != 0, payments, income) == Some(d.total_debt_burden)
    }
    &&& total_of(picked(Pick::LiquidAssets, accounts, ms, n)) matches Some(liquid_assets) && ratio_if(
        d.essential_burn_rate.mantissa != 0,
        liquid_assets,
        d.essential_burn_rate,
    ) == Some(d.liquidity_ratio_months)
}

/// The dashboard of the ledger's accounts: all zero without accounts;
/// otherwise the calculator's table of all accounts from [`range_start`] to the
/// end of `today`'s month gives each account's metrics
/// ([`account_in_dashboard`], in the order of the accounts), over which the
/// totals are taken ([`dashboard_totals_ok`]).
pub open spec fn dashboard_ok(calc: Calculator, ledger: Ledger, today: Date, d: DashboardMetricsDto) -> bool {
    let accounts = ledger.accounts@;
    if accounts.len() == 0 {
        empty_dashboard(d)
    } else {
        &&& exists|f: BalanceFrame|
            f.wf() && #[trigger] calc.produces(
                ledger,
                account_ids(accounts),
                range_start(today),
                month_last(today, 0),
                f.view_rows(),
            ) && d.account_metrics.len() == accounts.len() && forall|i: int|
                0 <= i < accounts.len() ==> #[trigger] account_in_dashboard(
                    calc,
                    ledger,
                    accounts[i],
                    points(f.rows@, accounts[i].id),
                    today,
                    d.essential_burn_rate,
                    d.account_metrics@[i],
                )
        &&& dashboard_totals_ok(accounts, ledger.recurring_transactions@, today, d)
    }
}

/// Where adding up the balances needs no rounding ([`sums_exactly_at`] some
/// scale), the net worth is their exact sum, and it is exactly the liquid plus
/// the non-liquid net worth.
pub open spec fn net_worth_splits(accounts: Seq<Account>, d: DashboardMetricsDto) -> bool {
    let balances = picked(Pick::NetWorth, accounts, d.account_metrics@, d.account_metrics.len() as nat);
    forall|scale: int| #[trigger]
        sums_exactly_at(balances, scale) ==> {
            &&& d.total_net_worth.units() == units_sum(balances)
            &&& d.total_net_worth.units() == d.liquid_net_worth.units() + d.non_liquid_net_worth.units()
        }
}

/// The metrics of an account from its series `p` of the batch table may fail:
/// its kind's own metrics may ([`kind_may_fail`]), no metrics fit the series
/// (a flow, the funding ratio or the average flow overflows), or the months of
/// essential expenses that a reserve covers overflow.
pub open spec fn account_may_fail(
    calc: Calculator,
    ledger: Ledger,
    account: Account,
    p: Seq<BalanceRow>,
    today: Date,
    essential: Amount,
) -> bool {
    ||| kind_may_fail(account.account_kind)
    ||| forall|m: AccountMetricsDto| !#[trigger] batch_account_ok(calc, ledger, account, p, today, m)
    ||| exists|pre: AccountMetricsDto|
        #[trigger] batch_account_ok(calc, ledger, account, p, today, pre) && forall|post: AccountMetricsDto|
            !#[trigger] enriched(pre, post, essential)
}

/// The dashboard may fail to be computed: the calculator may fail on the batch
/// range (it does not fit), the essential burn rate overflows, or, for some
/// table the calculator produces, an account's metrics may fail
/// ([`account_may_fail`]) or, for metrics of every account read from that
/// table, no totals fit them (a total, the income or a ratio overflows).
pub open spec fn dashboard_may_fail(calc: Calculator, ledger: Ledger, today: Date) -> bool {
    let accounts = ledger.accounts@;
    let ids = account_ids(accounts);
    let rs = ledger.recurring_transactions@;
    let essential = monthly_total(selected(rs, today, Selection::ExpensesOf, ids_where(accounts, KindGroup::Operating)));
    ||| !calc.fits(ledger, ids, range_start(today), month_last(today, 0))
    ||| essential is None
    ||| exists|f: BalanceFrame|
        f.wf() && #[trigger] calc.produces(ledger, ids, range_start(today), month_last(today, 0), f.view_rows()) && {
            ||| exists|i: int|
                0 <= i < accounts.len() && #[trigger] account_may_fail(
                    calc,
                    ledger,
                    accounts[i],
                    points(f.rows@, accounts[i].id),
                    today,
                    essential.unwrap(),
                )
            ||| exists|ms: Seq<AccountMetricsDto>|
                ms.len() == accounts.len() && (forall|i: int|
                    0 <= i < accounts.len() ==> #[trigger] account_in_dashboard(
                        calc,
                        ledger,
                        accounts[i],
                        points(f.rows@, accounts[i].id),
                        today,
                        essential.unwrap(),
                        ms[i],
                    )) && forall|d: DashboardMetricsDto|
                    d.account_metrics@ == ms ==> !#[trigger] dashboard_totals_ok(accounts, rs, today, d)
        }
}

/// Computes the full dashboard of cross-account metrics ([`dashboard_ok`]).
/// One calculator run over all accounts gives the balances from which each
/// account's metrics are read; only the long-range projections (reserve goals,
/// investment history, debt payoff) run the calculator again per account.
/// Fails when the batch run fails or a decimal operation overflows.
pub fn compute_dashboard_metrics(calculator: &Calculator, ledger: &Ledger, today: Date) -> (r: Result<
    DashboardMetricsDto,
    ComputeError,
>)
    requires
        calculator.wf(),
        ledger.wf(),
        today.wf(),
        today.year < MAX_YEAR - 32,
    ensures
        r matches Ok(d) ==> dashboard_ok(*calculator, *ledger, today, d),
        r matches Ok(d) ==> net_worth_splits(ledger.accounts@, d),
        r matches Err(e) ==> e.is_overflow() || (e.is_refused_merge() && calculator.has_unsupported_merge()),
        ledger.accounts.len() == 0 ==> (r matches Ok(d) && empty_dashboard(d)),
        r is Err ==> dashboard_may_fail(*calculator, *ledger, today),
{
    let all_accounts = &ledger.accounts;
    if all_accounts.len() == 0 {
        return Ok(
            DashboardMetricsDto {
                total_net_worth: Amount::zero(),
                liquid_net_worth: Amount::zero(),
                non_liquid_net_worth: Amount::zero(),
                essential_burn_rate: Amount::zero(),
                full_burn_rate: Amount::zero(),
                free_cashflow: Amount::zero(),
                savings_rate: None,
                goal_engine: Amount::zero(),
                commitment_ratio: None,
                liquidity_ratio_months: None,
                total_debt_burden: None,
                account_metrics: Vec::new(),
            },
        );
    }
    // The batch range: the year so far and the last six months, up to the end
    // of the month.
    let year_start = Date::from_ymd(today.year, 1, 1).unwrap();
    let six_months_ago_start = match crate::calendar::checked_sub_months(today, 6) {
        Some(d) => match Date::from_ymd(d.year, d.month, 1) {
            Some(x) => x,
            None => d,
        },
        None => year_start,
    };
    proof {
        crate::calendar::lemma_date_of(year_start);
        crate::calendar::lemma_date_of(six_months_ago_start);
    }
    let start = if year_start.days <= six_months_ago_start.days {
        year_start
    } else {
        six_months_ago_start
    };
    assert(start == range_start(today));
    let (_, end_of_month) = month_bounds(today, 0);
    let batch = match calculator.compute_account_state(ledger, all_accounts, start, end_of_month) {
        Ok(f) => f,
        Err(e) => {
            return Err(e);
        },
    };
    let account_data = preprocess_batch_df(&batch);
    let recurring = &ledger.recurring_transactions;
    let no_ids: Vec<i32> = Vec::new();
    let real_account_ids = ids_where_exec(all_accounts, KindGroup::Operating);
    let essential_burn_rate = match selected_monthly_total(recurring, today, Selection::ExpensesOf, &real_account_ids) {
        Some(t) => t,
        None => {
            return Err(ComputeError::decimal_overflow());
        },
    };
    // Per-account metrics.
    let mut account_metrics_list: Vec<AccountMetricsDto> = Vec::new();
    let mut i: usize = 0;
    while i < all_accounts.len()
        invariant
            i <= all_accounts.len(),
            calculator.wf(),
            ledger.wf(),
            today.wf(),
            today.year < MAX_YEAR - 32,
            all_accounts == &ledger.accounts,
            batch.wf(),
            essential_burn_rate.wf(),
            forall|a: i32| #[trigger] account_data@.contains_key(a) <==> row_accounts(batch.rows@).contains(a),
            forall|a: i32|
                #[trigger] account_data@.contains_key(a) ==> account_data@[a].points@ == points(batch.rows@, a) && (
                forall|q: int|
                    0 <= q < account_data@[a].points.len() ==> (#[trigger] account_data@[a].points@[q]).wf()),
            account_metrics_list.len() == i,
            forall|j: int|
                0 <= j < i ==> #[trigger] account_in_dashboard(
                    *calculator,
                    *ledger,
                    ledger.accounts@[j],
                    points(batch.rows@, ledger.accounts@[j].id),
                    today,
                    essential_burn_rate,
                    account_metrics_list@[j],
                ),
            forall|j: int| 0 <= j < i ==> metrics_wf(#[trigger] account_metrics_list@[j]),
            calculator.produces(
                *ledger,
                account_ids(ledger.accounts@),
                range_start(today),
                month_last(today, 0),
                batch.view_rows(),
            ),
            Some(essential_burn_rate) == monthly_total(
                selected(
                    ledger.recurring_transactions@,
                    today,
                    Selection::ExpensesOf,
                    ids_where(ledger.accounts@, KindGroup::Operating),
                ),
            ),
        decreases all_accounts.len() - i,
    {
        let account = &all_accounts[i];
        assert(ledger.accounts@[i as int].wf());
        let empty_series = AccountBalanceSeries { points: Vec::new() };
        let series = match account_data.get(&account.id) {
            Some(s) => s,
            None => &empty_series,
        };
        proof {
            if !account_data@.contains_key(account.id) {
                lemma_points_absent(batch.rows@, account.id);
            }
        }
        let ghost pts = points(batch.rows@, account.id);
        assert(series.points@ == pts);
        let pre = match batch_account_metrics(calculator, ledger, account, series, today) {
            Ok(m) => m,
            Err(e) => {
                proof {
                    assert(account_may_fail(*calculator, *ledger, ledger.accounts@[i as int], pts, today, essential_burn_rate));
                    let accs = ledger.accounts@;
                    let ess = monthly_total(selected(ledger.recurring_transactions@, today, Selection::ExpensesOf, ids_where(accs, KindGroup::Operating)));
                    assert(ess.unwrap() == essential_burn_rate);
                    assert(points(batch.rows@, accs[i as int].id) == pts);
                    assert(exists|ii: int| 0 <= ii < accs.len() && #[trigger] account_may_fail(*calculator, *ledger, accs[ii], points(batch.rows@, accs[ii].id), today, ess.unwrap()));
                    assert(batch.wf());
                    assert(calculator.produces(*ledger, account_ids(accs), range_start(today), month_last(today, 0), batch.view_rows()));
                }
                return Err(e);
            },
        };
        let ghost pre_g = pre;
        let post = match enrich(pre, essential_burn_rate) {
            Ok(m) => m,
            Err(e) => {
                proof {
                    assert(batch_account_ok(*calculator, *ledger, ledger.accounts@[i as int], pts, today, pre_g));
                    assert(account_may_fail(*calculator, *ledger, ledger.accounts@[i as int], pts, today, essential_burn_rate));
                    let accs = ledger.accounts@;
                    let ess = monthly_total(selected(ledger.recurring_transactions@, today, Selection::ExpensesOf, ids_where(accs, KindGroup::Operating)));
                    assert(ess.unwrap() == essential_burn_rate);
                    assert(points(batch.rows@, accs[i as int].id) == pts);
                    assert(exists|ii: int| 0 <= ii < accs.len() && #[trigger] account_may_fail(*calculator, *ledger, accs[ii], points(batch.rows@, accs[ii].id), today, ess.unwrap()));
                    assert(batch.wf());
                    assert(calculator.produces(*ledger, account_ids(accs), range_start(today), month_last(today, 0), batch.view_rows()));
                }
                return Err(e);
            },
        };
        proof {
            assert(batch_account_ok(*calculator, *ledger, *account, points(batch.rows@, account.id), today, pre_g));
        }
        account_metrics_list.push(post);
        proof {
            assert(account_in_dashboard(
                *calculator,
                *ledger,
                ledger.accounts@[i as int],
                points(batch.rows@, ledger.accounts@[i as int].id),
                today,
                essential_burn_rate,
                account_metrics_list@[i as int],
            ));
        }
        i = i + 1;
    }
    // Aggregated cross-account metrics.
    let liquid_lookup = liquid_lookup_table(all_accounts);
    let wealth_account_ids = ids_where_exec(all_accounts, KindGroup::Wealth);
    let debt_account_ids = ids_where_exec(all_accounts, KindGroup::Debt);
    let total_net_worth = match picked_total(Pick::NetWorth, all_accounts, &account_metrics_list, &liquid_lookup, &wealth_account_ids) {
        Some(t) => t,
        None => {
            return Err(ComputeError::decimal_overflow());
        },
    };
    let liquid_net_worth = match picked_total(Pick::Liquid, all_accounts, &account_metrics_list, &liquid_lookup, &wealth_account_ids) {
        Some(t) => t,
        None => {
            return Err(ComputeError::decimal_overflow());
        },
    };
    let non_liquid_net_worth = match picked_total(
        Pick::NonLiquid,
        all_accounts,
        &account_metrics_list,
        &liquid_lookup,
        &wealth_account_ids,
    ) {
        Some(t) => t,
        None => {
            return Err(ComputeError::decimal_overflow());
        },
    };
    proof {
        let ms = account_metrics_list@;
        let n = ms.len() as nat;
        let all = picked(Pick::NetWorth, ledger.accounts@, ms, n);
        let liquid = picked(Pick::Liquid, ledger.accounts@, ms, n);
        let other = picked(Pick::NonLiquid, ledger.accounts@, ms, n);
        assert forall|scale: int| #[trigger] sums_exactly_at(all, scale) implies {
            &&& total_net_worth.units() == units_sum(all)
            &&& total_net_worth.units() == liquid_net_worth.units() + non_liquid_net_worth.units()
        } by {
            lemma_net_worth_partition(ledger.accounts@, ms, n, scale);
            crate::amount::lemma_magnitude_nonneg(liquid, scale);
            crate::amount::lemma_magnitude_nonneg(other, scale);
            assert(sums_exactly_at(liquid, scale));
            assert(sums_exactly_at(other, scale));
        }
    }
    let full_burn_rate = match selected_monthly_total(recurring, today, Selection::Expenses, &no_ids) {
        Some(t) => t,
        None => {
            return Err(ComputeError::decimal_overflow());
        },
    };
    let free_cashflow = match picked_total(Pick::Flow, all_accounts, &account_metrics_list, &liquid_lookup, &wealth_account_ids) {
        Some(t) => t,
        None => {
            return Err(ComputeError::decimal_overflow());
        },
    };
    let monthly_income = match free_cashflow.add_rounded(&full_burn_rate) {
        Some(t) => t,
        None => {
            return Err(ComputeError::decimal_overflow());
        },
    };
    let income_positive = Amount::zero().lt(&monthly_income);
    let savings_rate = if income_positive {
        match free_cashflow.checked_div(&monthly_income) {
            Some(q) => Some(q),
            None => {
                return Err(ComputeError::decimal_overflow());
            },
        }
    } else {
        None
    };
    let goal_engine = match picked_total(Pick::GoalEngine, all_accounts, &account_metrics_list, &liquid_lookup, &wealth_account_ids) {
        Some(t) => t,
        None => {
            return Err(ComputeError::decimal_overflow());
        },
    };
    let commitment_ratio = if income_positive {
        match full_burn_rate.checked_div(&monthly_income) {
            Some(q) => Some(q),
            None => {
                return Err(ComputeError::decimal_overflow());
            },
        }
    } else {
        None
    };
    let liquid_assets = match picked_total(
        Pick::LiquidAssets,
        all_accounts,
        &account_metrics_list,
        &liquid_lookup,
        &wealth_account_ids,
    ) {
        Some(t) => t,
        None => {
            return Err(ComputeError::decimal_overflow());
        },
    };
    let liquidity_ratio_months = if !essential_burn_rate.is_zero() {
        match liquid_assets.checked_div(&essential_burn_rate) {
            Some(q) => Some(q),
            None => {
                return Err(ComputeError::decimal_overflow());
            },
        }
    } else {
        None
    };
    let monthly_debt_payments = match selected_monthly_total(recurring, today, Selection::DebtPayments, &debt_account_ids) {
        Some(t) => t,
        None => {
            return Err(ComputeError::decimal_overflow());
        },
    };
    let total_debt_burden = if !monthly_income.is_zero() {
        match monthly_debt_payments.checked_div(&monthly_income) {
            Some(q) => Some(q),
            None => {
                return Err(ComputeError::decimal_overflow());
            },
        }
    } else {
        None
    };
    proof {
        crate::account_stats::lemma_sign_units_pub(monthly_income);
    }
    let d = DashboardMetricsDto {
        total_net_worth,
        liquid_net_worth,
        non_liquid_net_worth,
        essential_burn_rate,
        full_burn_rate,
        free_cashflow,
        savings_rate,
        goal_engine,
        commitment_ratio,
        liquidity_ratio_months,
        total_debt_burden,
        account_metrics: account_metrics_list,
    };
    assert(calculator.produces(
        *ledger,
        account_ids(ledger.accounts@),
        range_start(today),
        month_last(today, 0),
        batch.view_rows(),
    ));
    Ok(d)
}

} // verus!
