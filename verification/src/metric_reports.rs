//! Financial metrics reports: the per-account and cross-account metrics that
//! the metric computations return.

use crate::amount::Amount;
use crate::calendar::Date;
use vstd::prelude::*;

verus! {

/// Universal metrics applicable to every account regardless of kind.
#[derive(Debug)]
pub struct AccountMetricsDto {
    /// The account identifier.
    pub account_id: i32,
    /// The account kind as a string (e.g. "RealAccount", "Savings", "Debt").
    pub account_kind: String,
    /// Current balance of the account.
    pub current_balance: Amount,
    /// Target balance configured on the account (buffer target, goal, budget).
    pub target_balance: Option<Amount>,
    /// Ratio of current balance to target balance.
    pub funding_ratio: Option<Amount>,
    /// Net flow for the current month (inflows minus outflows).
    pub monthly_net_flow: Option<Amount>,
    /// Average net flow of the last three months.
    pub three_month_avg_net_flow: Option<Amount>,
    /// Standard deviation of the monthly net flow (volatility).
    pub flow_volatility: Option<Amount>,
    /// Kind-specific metrics (filled based on the account kind).
    pub kind_metrics: Option<AccountKindMetricsDto>,
}

/// Kind-specific metrics that only apply to certain account types.
#[derive(Clone, Copy, Debug)]
pub enum AccountKindMetricsDto {
    /// Metrics for operating accounts.
    Operating(OperatingMetricsDto),
    /// Metrics for reserve accounts.
    Reserve(ReserveMetricsDto),
    /// Metrics for investment accounts.
    Investment(InvestmentMetricsDto),
    /// Metrics for debt accounts.
    Debt(DebtMetricsDto),
}

/// Metrics specific to operating accounts.
#[derive(Clone, Copy, Debug)]
pub struct OperatingMetricsDto {
    /// Amount above the buffer target (can be negative).
    pub operating_buffer: Option<Amount>,
    /// Amount that can be swept without breaking the buffer: `max(0, balance - target)`.
    pub sweep_potential: Option<Amount>,
    /// How many months of mandatory outflows the current balance covers.
    pub mandatory_coverage_months: Option<Amount>,
}

/// Metrics specific to reserve accounts.
#[derive(Clone, Copy, Debug)]
pub struct ReserveMetricsDto {
    /// Projected date when the goal target will be reached.
    pub goal_reached_date: Option<Date>,
    /// How many months of essential expenses this reserve covers.
    pub months_of_essential_coverage: Option<Amount>,
}

/// Metrics specific to investment accounts.
#[derive(Clone, Copy, Debug)]
pub struct InvestmentMetricsDto {
    /// Total contributions (sum of all inflows).
    pub net_contributions: Option<Amount>,
    /// Absolute gain or loss: `current_balance - net_contributions`.
    pub gain_loss_absolute: Option<Amount>,
    /// Percentage gain or loss.
    pub gain_loss_percent: Option<Amount>,
}

/// Metrics specific to debt accounts.
#[derive(Clone, Copy, Debug)]
pub struct DebtMetricsDto {
    /// Outstanding principal (a positive value: what is owed).
    pub outstanding_principal: Option<Amount>,
    /// Required monthly payment from recurring transactions.
    pub required_monthly_payment: Option<Amount>,
    /// Projected date when the debt will be fully paid off.
    pub debt_free_date: Option<Date>,
}

/// Cross-account dashboard metrics aggregated across all accounts.
#[derive(Debug)]
pub struct DashboardMetricsDto {
    /// Total net worth: all assets minus all debts.
    pub total_net_worth: Amount,
    /// Net worth held in liquid accounts.
    pub liquid_net_worth: Amount,
    /// Net worth held in accounts that are not liquid.
    pub non_liquid_net_worth: Amount,
    /// Monthly cost of truly essential expenses.
    pub essential_burn_rate: Amount,
    /// Total monthly expenses across all accounts.
    pub full_burn_rate: Amount,
    /// Net income minus full burn rate.
    pub free_cashflow: Amount,
    /// `(income - spending) / income`.
    pub savings_rate: Option<Amount>,
    /// Monthly total going toward wealth building.
    pub goal_engine: Amount,
    /// Fixed recurring obligations / net income.
    pub commitment_ratio: Option<Amount>,
    /// Liquid assets / monthly essential burn (in months).
    pub liquidity_ratio_months: Option<Amount>,
    /// Sum of monthly debt payments / net income.
    pub total_debt_burden: Option<Amount>,
    /// Per-account metrics for all accounts.
    pub account_metrics: Vec<AccountMetricsDto>,
}

} // verus!
