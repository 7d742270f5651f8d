//! Account role classification.
//!
//! The role of an account refines its technical kind with its metadata (the
//! description, whether it has a target amount) into a semantic role for
//! financial analysis.  Only the kind, the description and the target are used:
//! never the account's name or id.

use crate::model::{Account, AccountKind};
use vstd::prelude::*;

verus! {

/// Derived semantic role of an account, computed from its kind and metadata.
#[derive(Debug, Clone, PartialEq)]
pub struct DerivedAccountRole {
    /// The semantic role.
    pub role: String,
    /// Human-readable purpose description.
    pub purpose: String,
    /// Whether this account can be tapped in a genuine emergency.
    pub can_be_used_in_emergency: bool,
    /// Whether this is a true emergency reserve (not earmarked).
    pub counts_as_emergency_reserve: bool,
    /// Whether this buffers variable income.
    pub counts_as_income_smoothing: bool,
    /// Whether positive flows represent genuine wealth accumulation.
    pub counts_as_long_term_wealth: bool,
    /// Whether this money is earmarked for future spending.
    pub is_earmarked_spending: bool,
    /// Priority level in the financial safety hierarchy.
    pub priority_level: String,
    /// How the role was derived.
    pub classification_reason: String,
}

/// `needle` occurs in `hay`.
pub open spec fn has_text(hay: Seq<char>, needle: Seq<char>) -> bool {
    exists|i: int|
        0 <= i && i + needle.len() <= hay.len() && #[trigger] hay.subrange(i, i + needle.len()) == needle
}

/// The lowercase form of a text, as `str::to_lowercase` computes it.
pub uninterp spec fn lowercase_text(s: Seq<char>) -> Seq<char>;

/// At most the first 80 characters of the description, then a closing quote.
pub open spec fn quoted_prefix(desc: Seq<char>) -> Seq<char> {
    desc.take(if desc.len() < 80 { desc.len() as int } else { 80 }) + "'"@
}

/// The semantic roles an account can be given.
#[derive(Clone, Copy, Debug, PartialEq, Eq, Structural)]
pub enum RoleKind {
    SinkingFund,
    IncomeSmoothing,
    GeneralSavings,
    MaintenanceReserve,
    EmergencyReserve,
    FamilyDiscretionary,
    PersonalAllowance,
    Operating,
    SharedDiscretionary,
    Investment,
    EquityInvestment,
    HouseValue,
    Debt,
    ReservedLiability,
    Goal,
    Other,
    SavingsFallback,
    EmergencyFallback,
    AllowanceFallback,
}

/// The role name of a role kind.
pub open spec fn role_name(k: RoleKind) -> Seq<char> {
    match k {
        RoleKind::SinkingFund => "sinking_fund"@,
        RoleKind::IncomeSmoothing => "income_smoothing"@,
        RoleKind::GeneralSavings => "savings"@,
        RoleKind::MaintenanceReserve => "maintenance_reserve"@,
        RoleKind::EmergencyReserve => "emergency_reserve"@,
        RoleKind::FamilyDiscretionary => "family_discretionary"@,
        RoleKind::PersonalAllowance => "personal_allowance"@,
        RoleKind::Operating => "operating"@,
        RoleKind::SharedDiscretionary => "shared_discretionary"@,
        RoleKind::Investment => "investment"@,
        RoleKind::EquityInvestment => "equity_investment"@,
        RoleKind::HouseValue => "house_value"@,
        RoleKind::Debt => "debt"@,
        RoleKind::ReservedLiability => "reserved_liability"@,
        RoleKind::Goal => "goal"@,
        RoleKind::Other => "other"@,
        RoleKind::SavingsFallback => "savings"@,
        RoleKind::EmergencyFallback => "emergency_reserve"@,
        RoleKind::AllowanceFallback => "personal_allowance"@,
    }
}

/// The purpose text of a role kind.
pub open spec fn role_purpose(k: RoleKind) -> Seq<char> {
    match k {
        RoleKind::SinkingFund => "Savings earmarked for specific future spending"@,
        RoleKind::IncomeSmoothing => "Buffer for variable income months (not true emergency fund)"@,
        RoleKind::GeneralSavings => "General savings account — check description to determine if sinking fund, reserve, or wealth building"@,
        RoleKind::MaintenanceReserve => "Reserve for predictable home/vehicle maintenance — not a true emergency fund"@,
        RoleKind::EmergencyReserve => "True emergency fund for income disruption or unexpected crises"@,
        RoleKind::FamilyDiscretionary => "Shared family discretionary spending (NOT personal allowance)"@,
        RoleKind::PersonalAllowance => "Individual discretionary spending allowance — spending control mechanism"@,
        RoleKind::Operating => "Main operating account — income arrives here, essentials paid from here"@,
        RoleKind::SharedDiscretionary => "Shared family discretionary spending — joint optional spending"@,
        RoleKind::Investment => "Investment account — long-term wealth building"@,
        RoleKind::EquityInvestment => "Equity / stock market investment — illiquid, long-term"@,
        RoleKind::HouseValue => "Property value — completely illiquid, non-operating wealth"@,
        RoleKind::Debt => "Outstanding debt obligation"@,
        RoleKind::ReservedLiability => "Tax or annual obligation reserve — this money is committed and WILL be spent"@,
        RoleKind::Goal => "Goal-tracking account — check description to determine nature"@,
        RoleKind::Other => "Uncategorized account — check description"@,
        RoleKind::SavingsFallback => "General savings account — check description"@,
        RoleKind::EmergencyFallback => "Emergency fund"@,
        RoleKind::AllowanceFallback => "Personal allowance"@,
    }
}

/// The priority level of a role kind.
pub open spec fn role_priority(k: RoleKind) -> Seq<char> {
    match k {
        RoleKind::SinkingFund => "low"@,
        RoleKind::IncomeSmoothing => "high"@,
        RoleKind::GeneralSavings => "medium"@,
        RoleKind::MaintenanceReserve => "high"@,
        RoleKind::EmergencyReserve => "critical"@,
        RoleKind::FamilyDiscretionary => "low"@,
        RoleKind::PersonalAllowance => "low"@,
        RoleKind::Operating => "critical"@,
        RoleKind::SharedDiscretionary => "low"@,
        RoleKind::Investment => "medium"@,
        RoleKind::EquityInvestment => "medium"@,
        RoleKind::HouseValue => "low"@,
        RoleKind::Debt => "high"@,
        RoleKind::ReservedLiability => "high"@,
        RoleKind::Goal => "medium"@,
        RoleKind::Other => "low"@,
        RoleKind::SavingsFallback => "medium"@,
        RoleKind::EmergencyFallback => "critical"@,
        RoleKind::AllowanceFallback => "low"@,
    }
}

/// The flags of a role kind: usable in an emergency, emergency reserve, income
/// smoothing, long-term wealth, earmarked spending.
pub open spec fn role_flags(k: RoleKind) -> (bool, bool, bool, bool, bool) {
    match k {
        RoleKind::SinkingFund => (false, false, false, false, true),
        RoleKind::IncomeSmoothing => (true, false, true, false, false),
        RoleKind::GeneralSavings => (true, false, false, false, false),
        RoleKind::MaintenanceReserve => (true, false, false, false, true),
        RoleKind::EmergencyReserve => (true, true, false, false, false),
        RoleKind::FamilyDiscretionary => (false, false, false, false, false),
        RoleKind::PersonalAllowance => (false, false, false, false, false),
        RoleKind::Operating => (true, false, false, false, false),
        RoleKind::SharedDiscretionary => (false, false, false, false, false),
        RoleKind::Investment => (false, false, false, true, false),
        RoleKind::EquityInvestment => (false, false, false, true, false),
        RoleKind::HouseValue => (false, false, false, false, false),
        RoleKind::Debt => (false, false, false, false, false),
        RoleKind::ReservedLiability => (false, false, false, false, true),
        RoleKind::Goal => (false, false, false, false, false),
        RoleKind::Other => (false, false, false, false, false),
        RoleKind::SavingsFallback => (true, false, false, false, false),
        RoleKind::EmergencyFallback => (true, true, false, false, false),
        RoleKind::AllowanceFallback => (false, false, false, false, false),
    }
}

/// Whether the reason of a role kind quotes the description.
pub open spec fn quotes_description(k: RoleKind) -> bool {
    match k {
        RoleKind::SinkingFund => true,
        RoleKind::IncomeSmoothing => true,
        RoleKind::GeneralSavings => false,
        RoleKind::MaintenanceReserve => true,
        RoleKind::EmergencyReserve => false,
        RoleKind::FamilyDiscretionary => true,
        RoleKind::PersonalAllowance => false,
        RoleKind::Operating => false,
        RoleKind::SharedDiscretionary => false,
        RoleKind::Investment => false,
        RoleKind::EquityInvestment => false,
        RoleKind::HouseValue => false,
        RoleKind::Debt => false,
        RoleKind::ReservedLiability => false,
        RoleKind::Goal => false,
        RoleKind::Other => false,
        RoleKind::SavingsFallback => false,
        RoleKind::EmergencyFallback => false,
        RoleKind::AllowanceFallback => false,
    }
}

/// The reason of a role kind; for a kind that quotes the description, the
/// text before the quote.
pub open spec fn reason_text(k: RoleKind) -> Seq<char> {
    match k {
        RoleKind::SinkingFund => "Savings account with future spending keywords in description: '"@,
        RoleKind::IncomeSmoothing => "Savings account with income smoothing keywords: '"@,
        RoleKind::GeneralSavings => "Savings account without clear refinement keywords"@,
        RoleKind::MaintenanceReserve => "EmergencyFund account with maintenance keywords: '"@,
        RoleKind::EmergencyReserve => "EmergencyFund account with emergency-related description"@,
        RoleKind::FamilyDiscretionary => "Allowance account with family/shared keywords: '"@,
        RoleKind::PersonalAllowance => "Allowance account without family/shared keywords"@,
        RoleKind::Operating => "RealAccount type"@,
        RoleKind::SharedDiscretionary => "Shared account type"@,
        RoleKind::Investment => "Investment account type"@,
        RoleKind::EquityInvestment => "Equity account type"@,
        RoleKind::HouseValue => "House account type"@,
        RoleKind::Debt => "Debt account type"@,
        RoleKind::ReservedLiability => "Tax account type"@,
        RoleKind::Goal => "Goal account type"@,
        RoleKind::Other => "Other account type"@,
        RoleKind::SavingsFallback => "Savings account type (fallback)"@,
        RoleKind::EmergencyFallback => "EmergencyFund account type (fallback)"@,
        RoleKind::AllowanceFallback => "Allowance account type (fallback)"@,
    }
}

/// The reason of a role kind for an account with the given description.
pub open spec fn role_reason(k: RoleKind, desc: Seq<char>) -> Seq<char> {
    if quotes_description(k) {
        reason_text(k) + quoted_prefix(desc)
    } else {
        reason_text(k)
    }
}

/// `r` is the record of role kind `k` with the given reason.
pub open spec fn is_role_record(r: DerivedAccountRole, k: RoleKind, reason: Seq<char>) -> bool {
    &&& r.role@ == role_name(k)
    &&& r.purpose@ == role_purpose(k)
    &&& (r.can_be_used_in_emergency, r.counts_as_emergency_reserve, r.counts_as_income_smoothing,
        r.counts_as_long_term_wealth, r.is_earmarked_spending) == role_flags(k)
    &&& r.priority_level@ == role_priority(k)
    &&& r.classification_reason@ == reason
}

/// The record of a role kind with the given reason.
fn role_record(k: RoleKind, reason: String) -> (r: DerivedAccountRole)
    ensures
        is_role_record(r, k, reason@),
{
    match k {
        RoleKind::SinkingFund => DerivedAccountRole {
            role: String::from_str("sinking_fund"),
            purpose: String::from_str("Savings earmarked for specific future spending"),
            can_be_used_in_emergency: false,
            counts_as_emergency_reserve: false,
            counts_as_income_smoothing: false,
            counts_as_long_term_wealth: false,
            is_earmarked_spending: true,
            priority_level: String::from_str("low"),
            classification_reason: reason,
        },
        RoleKind::IncomeSmoothing => DerivedAccountRole {
            role: String::from_str("income_smoothing"),
            purpose: String::from_str("Buffer for variable income months (not true emergency fund)"),
            can_be_used_in_emergency: true,
            counts_as_emergency_reserve: false,
            counts_as_income_smoothing: true,
            counts_as_long_term_wealth: false,
            is_earmarked_spending: false,
            priority_level: String::from_str("high"),
            classification_reason: reason,
        },
        RoleKind::GeneralSavings => DerivedAccountRole {
            role: String::from_str("savings"),
            purpose: String::from_str("General savings account — check description to determine if sinking fund, reserve, or wealth building"),
            can_be_used_in_emergency: true,
            counts_as_emergency_reserve: false,
            counts_as_income_smoothing: false,
            counts_as_long_term_wealth: false,
            is_earmarked_spending: false,
            priority_level: String::from_str("medium"),
            classification_reason: reason,
        },
        RoleKind::MaintenanceReserve => DerivedAccountRole {
            role: String::from_str("maintenance_reserve"),
            purpose: String::from_str("Reserve for predictable home/vehicle maintenance — not a true emergency fund"),
            can_be_used_in_emergency: true,
            counts_as_emergency_reserve: false,
            counts_as_income_smoothing: false,
            counts_as_long_term_wealth: false,
            is_earmarked_spending: true,
            priority_level: String::from_str("high"),
            classification_reason: reason,
        },
        RoleKind::EmergencyReserve => DerivedAccountRole {
            role: String::from_str("emergency_reserve"),
            purpose: String::from_str("True emergency fund for income disruption or unexpected crises"),
            can_be_used_in_emergency: true,
            counts_as_emergency_reserve: true,
            counts_as_income_smoothing: false,
            counts_as_long_term_wealth: false,
            is_earmarked_spending: false,
            priority_level: String::from_str("critical"),
            classification_reason: reason,
        },
        RoleKind::FamilyDiscretionary => DerivedAccountRole {
            role: String::from_str("family_discretionary"),
            purpose: String::from_str("Shared family discretionary spending (NOT personal allowance)"),
            can_be_used_in_emergency: false,
            counts_as_emergency_reserve: false,
            counts_as_income_smoothing: false,
            counts_as_long_term_wealth: false,
            is_earmarked_spending: false,
            priority_level: String::from_str("low"),
            classification_reason: reason,
        },
        RoleKind::PersonalAllowance => DerivedAccountRole {
            role: String::from_str("personal_allowance"),
            purpose: String::from_str("Individual discretionary spending allowance — spending control mechanism"),
            can_be_used_in_emergency: false,
            counts_as_emergency_reserve: false,
            counts_as_income_smoothing: false,
            counts_as_long_term_wealth: false,
            is_earmarked_spending: false,
            priority_level: String::from_str("low"),
            classification_reason: reason,
        },
        RoleKind::Operating => DerivedAccountRole {
            role: String::from_str("operating"),
            purpose: String::from_str("Main operating account — income arrives here, essentials paid from here"),
            can_be_used_in_emergency: true,
            counts_as_emergency_reserve: false,
            counts_as_income_smoothing: false,
            counts_as_long_term_wealth: false,
            is_earmarked_spending: false,
            priority_level: String::from_str("critical"),
            classification_reason: reason,
        },
        RoleKind::SharedDiscretionary => DerivedAccountRole {
            role: String::from_str("shared_discretionary"),
            purpose: String::from_str("Shared family discretionary spending — joint optional spending"),
            can_be_used_in_emergency: false,
            counts_as_emergency_reserve: false,
            counts_as_income_smoothing: false,
            counts_as_long_term_wealth: false,
            is_earmarked_spending: false,
            priority_level: String::from_str("low"),
            classification_reason: reason,
        },
        RoleKind::Investment => DerivedAccountRole {
            role: String::from_str("investment"),
            purpose: String::from_str("Investment account — long-term wealth building"),
            can_be_used_in_emergency: false,
            counts_as_emergency_reserve: false,
            counts_as_income_smoothing: false,
            counts_as_long_term_wealth: true,
            is_earmarked_spending: false,
            priority_level: String::from_str("medium"),
            classification_reason: reason,
        },
        RoleKind::EquityInvestment => DerivedAccountRole {
            role: String::from_str("equity_investment"),
            purpose: String::from_str("Equity / stock market investment — illiquid, long-term"),
            can_be_used_in_emergency: false,
            counts_as_emergency_reserve: false,
            counts_as_income_smoothing: false,
            counts_as_long_term_wealth: true,
            is_earmarked_spending: false,
            priority_level: String::from_str("medium"),
            classification_reason: reason,
        },
        RoleKind::HouseValue => DerivedAccountRole {
            role: String::from_str("house_value"),
            purpose: String::from_str("Property value — completely illiquid, non-operating wealth"),
            can_be_used_in_emergency: false,
            counts_as_emergency_reserve: false,
            counts_as_income_smoothing: false,
            counts_as_long_term_wealth: false,
            is_earmarked_spending: false,
            priority_level: String::from_str("low"),
            classification_reason: reason,
        },
        RoleKind::Debt => DerivedAccountRole {
            role: String::from_str("debt"),
            purpose: String::from_str("Outstanding debt obligation"),
            can_be_used_in_emergency: false,
            counts_as_emergency_reserve: false,
            counts_as_income_smoothing: false,
            counts_as_long_term_wealth: false,
            is_earmarked_spending: false,
            priority_level: String::from_str("high"),
            classification_reason: reason,
        },
        RoleKind::ReservedLiability => DerivedAccountRole {
            role: String::from_str("reserved_liability"),
            purpose: String::from_str("Tax or annual obligation reserve — this money is committed and WILL be spent"),
            can_be_used_in_emergency: false,
            counts_as_emergency_reserve: false,
            counts_as_income_smoothing: false,
            counts_as_long_term_wealth: false,
            is_earmarked_spending: true,
            priority_level: String::from_str("high"),
            classification_reason: reason,
        },
        RoleKind::Goal => DerivedAccountRole {
            role: String::from_str("goal"),
            purpose: String::from_str("Goal-tracking account — check description to determine nature"),
            can_be_used_in_emergency: false,
            counts_as_emergency_reserve: false,
            counts_as_income_smoothing: false,
            counts_as_long_term_wealth: false,
            is_earmarked_spending: false,
            priority_level: String::from_str("medium"),
            classification_reason: reason,
        },
        RoleKind::Other => DerivedAccountRole {
            role: String::from_str("other"),
            purpose: String::from_str("Uncategorized account — check description"),
            can_be_used_in_emergency: false,
            counts_as_emergency_reserve: false,
            counts_as_income_smoothing: false,
            counts_as_long_term_wealth: false,
            is_earmarked_spending: false,
            priority_level: String::from_str("low"),
            classification_reason: reason,
        },
        RoleKind::SavingsFallback => DerivedAccountRole {
            role: String::from_str("savings"),
            purpose: String::from_str("General savings account — check description"),
            can_be_used_in_emergency: true,
            counts_as_emergency_reserve: false,
            counts_as_income_smoothing: false,
            counts_as_long_term_wealth: false,
            is_earmarked_spending: false,
            priority_level: String::from_str("medium"),
            classification_reason: reason,
        },
        RoleKind::EmergencyFallback => DerivedAccountRole {
            role: String::from_str("emergency_reserve"),
            purpose: String::from_str("Emergency fund"),
            can_be_used_in_emergency: true,
            counts_as_emergency_reserve: true,
            counts_as_income_smoothing: false,
            counts_as_long_term_wealth: false,
            is_earmarked_spending: false,
            priority_level: String::from_str("critical"),
            classification_reason: reason,
        },
        RoleKind::AllowanceFallback => DerivedAccountRole {
            role: String::from_str("personal_allowance"),
            purpose: String::from_str("Personal allowance"),
            can_be_used_in_emergency: false,
            counts_as_emergency_reserve: false,
            counts_as_income_smoothing: false,
            counts_as_long_term_wealth: false,
            is_earmarked_spending: false,
            priority_level: String::from_str("low"),
            classification_reason: reason,
        },
    }
}

/// The reason text of a role kind.
fn reason_start(k: RoleKind) -> (r: String)
    ensures
        r@ == reason_text(k),
{
    match k {
        RoleKind::SinkingFund => String::from_str("Savings account with future spending keywords in description: '"),
        RoleKind::IncomeSmoothing => String::from_str("Savings account with income smoothing keywords: '"),
        RoleKind::GeneralSavings => String::from_str("Savings account without clear refinement keywords"),
        RoleKind::MaintenanceReserve => String::from_str("EmergencyFund account with maintenance keywords: '"),
        RoleKind::EmergencyReserve => String::from_str("EmergencyFund account with emergency-related description"),
        RoleKind::FamilyDiscretionary => String::from_str("Allowance account with family/shared keywords: '"),
        RoleKind::PersonalAllowance => String::from_str("Allowance account without family/shared keywords"),
        RoleKind::Operating => String::from_str("RealAccount type"),
        RoleKind::SharedDiscretionary => String::from_str("Shared account type"),
        RoleKind::Investment => String::from_str("Investment account type"),
        RoleKind::EquityInvestment => String::from_str("Equity account type"),
        RoleKind::HouseValue => String::from_str("House account type"),
        RoleKind::Debt => String::from_str("Debt account type"),
        RoleKind::ReservedLiability => String::from_str("Tax account type"),
        RoleKind::Goal => String::from_str("Goal account type"),
        RoleKind::Other => String::from_str("Other account type"),
        RoleKind::SavingsFallback => String::from_str("Savings account type (fallback)"),
        RoleKind::EmergencyFallback => String::from_str("EmergencyFund account type (fallback)"),
        RoleKind::AllowanceFallback => String::from_str("Allowance account type (fallback)"),
    }
}

/// Whether the reason of a role kind quotes the description.
fn quotes(k: RoleKind) -> (r: bool)
    ensures
        r == quotes_description(k),
{
    match k {
        RoleKind::SinkingFund => true,
        RoleKind::IncomeSmoothing => true,
        RoleKind::GeneralSavings => false,
        RoleKind::MaintenanceReserve => true,
        RoleKind::EmergencyReserve => false,
        RoleKind::FamilyDiscretionary => true,
        RoleKind::PersonalAllowance => false,
        RoleKind::Operating => false,
        RoleKind::SharedDiscretionary => false,
        RoleKind::Investment => false,
        RoleKind::EquityInvestment => false,
        RoleKind::HouseValue => false,
        RoleKind::Debt => false,
        RoleKind::ReservedLiability => false,
        RoleKind::Goal => false,
        RoleKind::Other => false,
        RoleKind::SavingsFallback => false,
        RoleKind::EmergencyFallback => false,
        RoleKind::AllowanceFallback => false,
    }
}

/// The description speaks of future spending.
pub open spec fn sinking_fund_text(d: Seq<char>, has_target: bool) -> bool {
    ||| has_text(d, "vacation"@) && !has_text(d, "replacement"@)
    ||| has_text(d, "down payment"@)
    ||| has_text(d, "downpayment"@)
    ||| has_text(d, "saving for"@)
    ||| has_target && (has_text(d, "will be spend"@) || has_text(d, "spend"@))
}

/// The description speaks of smoothing a variable income.
pub open spec fn smoothing_text(d: Seq<char>) -> bool {
    ||| has_text(d, "replacement"@)
    ||| has_text(d, "buffer"@)
    ||| has_text(d, "smoothing"@)
    ||| has_text(d, "variable income"@)
    ||| (has_text(d, "osvc"@) || has_text(d, "self-employed"@)) && has_text(d, "vacation"@)
}

/// The description speaks of maintenance.
pub open spec fn maintenance_text(d: Seq<char>) -> bool {
    has_text(d, "maintenance"@) || has_text(d, "repair"@)
}

/// The description speaks of shared family spending.
pub open spec fn family_text(d: Seq<char>) -> bool {
    ||| has_text(d, "family"@)
    ||| has_text(d, "shared"@)
    ||| has_text(d, "together"@)
    ||| has_text(d, "both of us"@)
}

/// Only the empty text occurs in the empty text.
proof fn lemma_nothing_in_empty(needle: Seq<char>)
    ensures
        has_text(Seq::<char>::empty(), needle) ==> needle.len() == 0,
{
}

/// Without a description (and without a target), the role derived from the
/// description agrees with the baseline role of the account's kind: the same
/// role name, flags and priority level; for the kinds that a description does
/// not refine (all but savings, emergency funds and allowances), the very same
/// role.
pub proof fn law_no_description_gives_the_baseline_role(kind: AccountKind)
    ensures
        role_name(classify(kind, Seq::empty(), false)) == role_name(kind_role(kind)),
        role_flags(classify(kind, Seq::empty(), false)) == role_flags(kind_role(kind)),
        role_priority(classify(kind, Seq::empty(), false)) == role_priority(kind_role(kind)),
        !(kind is Savings || kind is EmergencyFund || kind is Allowance) ==> classify(kind, Seq::empty(), false)
            == kind_role(kind),
{
    reveal_strlit("vacation");
    reveal_strlit("down payment");
    reveal_strlit("downpayment");
    reveal_strlit("saving for");
    reveal_strlit("replacement");
    reveal_strlit("buffer");
    reveal_strlit("smoothing");
    reveal_strlit("variable income");
    reveal_strlit("osvc");
    reveal_strlit("self-employed");
    reveal_strlit("maintenance");
    reveal_strlit("repair");
    reveal_strlit("family");
    reveal_strlit("shared");
    reveal_strlit("together");
    reveal_strlit("both of us");
    let e = Seq::<char>::empty();
    lemma_nothing_in_empty("vacation"@);
    lemma_nothing_in_empty("down payment"@);
    lemma_nothing_in_empty("downpayment"@);
    lemma_nothing_in_empty("saving for"@);
    lemma_nothing_in_empty("replacement"@);
    lemma_nothing_in_empty("buffer"@);
    lemma_nothing_in_empty("smoothing"@);
    lemma_nothing_in_empty("variable income"@);
    lemma_nothing_in_empty("osvc"@);
    lemma_nothing_in_empty("self-employed"@);
    lemma_nothing_in_empty("maintenance"@);
    lemma_nothing_in_empty("repair"@);
    lemma_nothing_in_empty("family"@);
    lemma_nothing_in_empty("shared"@);
    lemma_nothing_in_empty("together"@);
    lemma_nothing_in_empty("both of us"@);
    assert(!sinking_fund_text(e, false));
    assert(!smoothing_text(e));
    assert(!maintenance_text(e));
    assert(!family_text(e));
}

/// What a description says decides the role of the kinds it refines, keyword
/// by keyword, in the lowercased description `d`: an emergency fund that speaks
/// of "maintenance" or "repair" is a maintenance reserve (earmarked spending,
/// not a true emergency reserve), any other a true emergency reserve; an
/// allowance that speaks of "family", "shared", "together" or "both of us" is
/// family discretionary, any other a personal allowance; a savings account
/// that speaks of a "vacation" (without "replacement"), a "down payment",
/// "downpayment" or "saving for", or, with a target, of spending ("spend"), is
/// a sinking fund (earmarked spending); else one that speaks of
/// "replacement", a "buffer", "smoothing", "variable income", or of a vacation
/// when self-employed ("osvc", "self-employed") smooths income; else it is
/// general savings.
pub proof fn law_description_keywords_decide_the_role(d: Seq<char>, has_target: bool)
    ensures
        ({
            let r = classify(AccountKind::EmergencyFund, d, has_target);
            if has_text(d, "maintenance"@) || has_text(d, "repair"@) {
                &&& role_name(r) == "maintenance_reserve"@
                &&& !role_flags(r).1
                &&& role_flags(r).4
            } else {
                &&& role_name(r) == "emergency_reserve"@
                &&& role_flags(r).1
                &&& !role_flags(r).4
            }
        }),
        role_name(classify(AccountKind::Allowance, d, has_target)) == if has_text(d, "family"@) || has_text(
            d,
            "shared"@,
        ) || has_text(d, "together"@) || has_text(d, "both of us"@) {
            "family_discretionary"@
        } else {
            "personal_allowance"@
        },
        ({
            let r = classify(AccountKind::Savings, d, has_target);
            if (has_text(d, "vacation"@) && !has_text(d, "replacement"@)) || has_text(d, "down payment"@)
                || has_text(d, "downpayment"@) || has_text(d, "saving for"@) || (has_target && has_text(
                d,
                "spend"@,
            )) {
                role_name(r) == "sinking_fund"@ && role_flags(r).4
            } else if has_text(d, "replacement"@) || has_text(d, "buffer"@) || has_text(d, "smoothing"@)
                || has_text(d, "variable income"@) || ((has_text(d, "osvc"@) || has_text(d, "self-employed"@))
                && has_text(d, "vacation"@)) {
                role_name(r) == "income_smoothing"@ && role_flags(r).2
            } else {
                role_name(r) == "savings"@
            }
        }),
{
    if has_text(d, "will be spend"@) {
        reveal_strlit("will be spend");
        reveal_strlit("spend");
        let i = choose|i: int| 0 <= i && i + 13 <= d.len() && #[trigger] d.subrange(i, i + 13) == "will be spend"@;
        let k = i + 8;
        assert(d.subrange(k, k + "spend"@.len()) =~= "spend"@) by {
            assert forall|j: int| 0 <= j < 5 implies d.subrange(k, k + 5)[j] == "spend"@[j] by {
                assert(d.subrange(k, k + 5)[j] == d.subrange(i, i + 13)[j + 8]);
            }
        }
        assert(has_text(d, "spend"@));
    }
}

/// The baseline role of a kind.
pub open spec fn kind_role(kind: AccountKind) -> RoleKind {
    match kind {
        AccountKind::RealAccount => RoleKind::Operating,
        AccountKind::Shared => RoleKind::SharedDiscretionary,
        AccountKind::Investment => RoleKind::Investment,
        AccountKind::Equity => RoleKind::EquityInvestment,
        AccountKind::House => RoleKind::HouseValue,
        AccountKind::Debt => RoleKind::Debt,
        AccountKind::Tax => RoleKind::ReservedLiability,
        AccountKind::Goal => RoleKind::Goal,
        AccountKind::Other => RoleKind::Other,
        AccountKind::Savings => RoleKind::SavingsFallback,
        AccountKind::EmergencyFund => RoleKind::EmergencyFallback,
        AccountKind::Allowance => RoleKind::AllowanceFallback,
    }
}

/// The role of an account of kind `kind` whose lowercased description is `d`.
pub open spec fn classify(kind: AccountKind, d: Seq<char>, has_target: bool) -> RoleKind {
    match kind {
        AccountKind::Savings => if sinking_fund_text(d, has_target) {
            RoleKind::SinkingFund
        } else if smoothing_text(d) {
            RoleKind::IncomeSmoothing
        } else {
            RoleKind::GeneralSavings
        },
        AccountKind::EmergencyFund => if maintenance_text(d) {
            RoleKind::MaintenanceReserve
        } else {
            RoleKind::EmergencyReserve
        },
        AccountKind::Allowance => if family_text(d) {
            RoleKind::FamilyDiscretionary
        } else {
            RoleKind::PersonalAllowance
        },
        _ => kind_role(kind),
    }
}

/// The description of an account, empty when it has none.
pub open spec fn description_text(a: Account) -> Seq<char> {
    match a.description {
        Some(d) => d@,
        None => seq![],
    }
}

/// Whether `needle` occurs in `hay`.
pub fn contains_text(hay: &Vec<char>, needle: &str) -> (r: bool)
    ensures
        r == has_text(hay@, needle@),
{
    let n = needle.unicode_len();
    if n > hay.len() {
        proof {
            assert forall|i: int| 0 <= i && i + needle@.len() <= hay@.len() implies #[trigger] hay@.subrange(
                i,
                i + needle@.len(),
            ) != needle@ by {}
        }
        return false;
    }
    let mut i: usize = 0;
    while i <= hay.len() - n
        invariant
            n == needle@.len(),
            n <= hay.len(),
            i <= hay.len() - n + 1,
            forall|q: int| 0 <= q < i ==> #[trigger] hay@.subrange(q, q + n) != needle@,
        decreases hay.len() - i,
    {
        let mut j: usize = 0;
        let mut same = true;
        while j < n
            invariant
                n == needle@.len(),
                i + n <= hay.len(),
                j <= n,
                same == forall|k: int| 0 <= k < j ==> hay@[i + k] == needle@[k],
            decreases n - j,
        {
            let c = needle.get_char(j);
            if hay[i + j] != c {
                same = false;
            }
            j = j + 1;
        }
        if same {
            assert(hay@.subrange(i as int, i + n) =~= needle@);
            return true;
        }
        assert(hay@.subrange(i as int, i + n) != needle@) by {
            let k = choose|k: int| 0 <= k < n && hay@[i + k] != needle@[k];
            assert(hay@.subrange(i as int, i + n)[k] == hay@[i + k]);
        }
        i = i + 1;
    }
    false
}


/// Calls `str::to_lowercase` and collects the characters: the result is named
/// [`lowercase_text`]; an empty text lowercases to an empty text.
#[verifier::external_body]
fn lowercase_chars(s: &str) -> (r: Vec<char>)
    ensures
        r@ == lowercase_text(s@),
        s@.len() == 0 ==> r@.len() == 0,
{
    s.to_lowercase().chars().collect()
}

/// The reason of a role kind for an account with the given description.
fn reason_for(k: RoleKind, desc: &str) -> (r: String)
    ensures
        r@ == role_reason(k, desc@),
{
    let mut reason = reason_start(k);
    if quotes(k) {
        let len = desc.unicode_len();
        let take = if len < 80 { len } else { 80 };
        let quoted = desc.substring_char(0, take);
        reason.append(quoted);
        reason.append("'");
        proof {
            reveal_strlit("'");
        }
        assert(reason@ == role_reason(k, desc@));
    }
    reason
}

/// Derives the semantic role of an account.
///
/// The description (lowercased) refines the kind first: a savings account
/// whose description speaks of future spending is a sinking fund, one that
/// speaks of a buffer or of replacing income is income smoothing, otherwise
/// general savings; an emergency fund that speaks of maintenance or repair is a
/// maintenance reserve, otherwise a true emergency reserve; an allowance that
/// speaks of family or shared spending is family discretionary, otherwise a
/// personal allowance.  Every other kind gets its baseline role.
pub fn derive_account_role(account: &Account) -> (r: DerivedAccountRole)
    ensures
        is_role_record(
            r,
            classify(
                account.account_kind,
                lowercase_text(description_text(*account)),
                account.target_amount is Some,
            ),
            role_reason(
                classify(
                    account.account_kind,
                    lowercase_text(description_text(*account)),
                    account.target_amount is Some,
                ),
                description_text(*account),
            ),
        ),
        description_text(*account).len() == 0 ==> is_role_record(
            r,
            classify(account.account_kind, seq![], account.target_amount is Some),
            role_reason(classify(account.account_kind, seq![], account.target_amount is Some), seq![]),
        ),
{
    let desc: &str = match &account.description {
        Some(d) => d.as_str(),
        None => "",
    };
    proof {
        reveal_strlit("");
    }
    assert(desc@ == description_text(*account));
    let d = lowercase_chars(desc);
    proof {
        if desc@.len() == 0 {
            assert(d@ =~= Seq::<char>::empty());
            assert(description_text(*account) =~= Seq::<char>::empty());
        }
    }
    let has_target = account.target_amount.is_some();
    let kind = match account.account_kind {
        AccountKind::Savings => {
            if (contains_text(&d, "vacation") && !contains_text(&d, "replacement")) || contains_text(
                &d,
                "down payment",
            ) || contains_text(&d, "downpayment") || contains_text(&d, "saving for") || (has_target
                && (contains_text(&d, "will be spend") || contains_text(&d, "spend"))) {
                RoleKind::SinkingFund
            } else if contains_text(&d, "replacement") || contains_text(&d, "buffer")
                || contains_text(&d, "smoothing") || contains_text(&d, "variable income") || (
            (contains_text(&d, "osvc") || contains_text(&d, "self-employed")) && contains_text(
                &d,
                "vacation",
            )) {
                RoleKind::IncomeSmoothing
            } else {
                RoleKind::GeneralSavings
            }
        },
        AccountKind::EmergencyFund => {
            if contains_text(&d, "maintenance") || contains_text(&d, "repair") {
                RoleKind::MaintenanceReserve
            } else {
                RoleKind::EmergencyReserve
            }
        },
        AccountKind::Allowance => {
            if contains_text(&d, "family") || contains_text(&d, "shared") || contains_text(
                &d,
                "together",
            ) || contains_text(&d, "both of us") {
                RoleKind::FamilyDiscretionary
            } else {
                RoleKind::PersonalAllowance
            }
        },
        _ => {
            return derive_account_role_from_kind(account.account_kind);
        },
    };
    role_record(kind, reason_for(kind, desc))
}

/// Baseline role of an account kind when no description refinement applies.
fn derive_account_role_from_kind(kind: AccountKind) -> (r: DerivedAccountRole)
    ensures
        is_role_record(r, kind_role(kind), role_reason(kind_role(kind), seq![])),
{
    let k = match kind {
        AccountKind::RealAccount => RoleKind::Operating,
        AccountKind::Shared => RoleKind::SharedDiscretionary,
        AccountKind::Investment => RoleKind::Investment,
        AccountKind::Equity => RoleKind::EquityInvestment,
        AccountKind::House => RoleKind::HouseValue,
        AccountKind::Debt => RoleKind::Debt,
        AccountKind::Tax => RoleKind::ReservedLiability,
        AccountKind::Goal => RoleKind::Goal,
        AccountKind::Other => RoleKind::Other,
        AccountKind::Savings => {
            return derive_account_role_from_kind_savings_fallback();
        },
        AccountKind::EmergencyFund => {
            return derive_account_role_from_kind_emergency_fallback();
        },
        AccountKind::Allowance => {
            return derive_account_role_from_kind_allowance_fallback();
        },
    };
    role_record(k, reason_start(k))
}

/// Baseline role of a savings account: general savings.
pub fn derive_account_role_from_kind_savings_fallback() -> (r: DerivedAccountRole)
    ensures
        is_role_record(r, RoleKind::SavingsFallback, reason_text(RoleKind::SavingsFallback)),
{
    role_record(RoleKind::SavingsFallback, reason_start(RoleKind::SavingsFallback))
}

/// Baseline role of an emergency fund: an emergency reserve.
pub fn derive_account_role_from_kind_emergency_fallback() -> (r: DerivedAccountRole)
    ensures
        is_role_record(r, RoleKind::EmergencyFallback, reason_text(RoleKind::EmergencyFallback)),
{
    role_record(RoleKind::EmergencyFallback, reason_start(RoleKind::EmergencyFallback))
}

/// Baseline role of an allowance: a personal allowance.
pub fn derive_account_role_from_kind_allowance_fallback() -> (r: DerivedAccountRole)
    ensures
        is_role_record(r, RoleKind::AllowanceFallback, reason_text(RoleKind::AllowanceFallback)),
{
    role_record(RoleKind::AllowanceFallback, reason_start(RoleKind::AllowanceFallback))
}

} // verus!
