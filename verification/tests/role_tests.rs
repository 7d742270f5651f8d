use compute::account_role::{
    derive_account_role, derive_account_role_from_kind_allowance_fallback,
    derive_account_role_from_kind_emergency_fallback, derive_account_role_from_kind_savings_fallback,
};
use compute::amount::Amount;
use compute::model::{Account, AccountKind};

fn make_account(kind: AccountKind, description: Option<String>, target: Option<Amount>) -> Account {
    Account {
        id: 1,
        name: "Test".to_string(),
        description,
        currency_code: "CZK".to_string(),
        owner_id: 1,
        include_in_statistics: true,
        ledger_name: None,
        account_kind: kind,
        target_amount: target,
        is_liquid: true,
    }
}

#[test]
fn test_vacation_sinking_fund() {
    let account = make_account(
        AccountKind::Savings,
        Some("This will be spend. Saving for vacation.".to_string()),
        Some(Amount::new(50000, 0)),
    );
    let role = derive_account_role(&account);
    assert_eq!(role.role, "sinking_fund");
    assert!(role.is_earmarked_spending);
    assert!(!role.counts_as_long_term_wealth);
}

#[test]
fn test_income_smoothing_buffer() {
    let account = make_account(
        AccountKind::Savings,
        Some("Vacation replacement for OSVC - buffer when not earning".to_string()),
        Some(Amount::new(150000, 0)),
    );
    let role = derive_account_role(&account);
    assert_eq!(role.role, "income_smoothing");
    assert!(role.counts_as_income_smoothing);
    assert!(!role.is_earmarked_spending);
    assert!(!role.counts_as_emergency_reserve);
}

#[test]
fn test_true_emergency_fund() {
    let account = make_account(
        AccountKind::EmergencyFund,
        Some("Emergency fund for job loss, roof burns etc.".to_string()),
        Some(Amount::new(600000, 0)),
    );
    let role = derive_account_role(&account);
    assert_eq!(role.role, "emergency_reserve");
    assert!(role.counts_as_emergency_reserve);
    assert!(!role.is_earmarked_spending);
}

#[test]
fn test_family_discretionary() {
    let account = make_account(
        AccountKind::Allowance,
        Some("Family shared spending - garden, vacation extras, both of us".to_string()),
        None,
    );
    let role = derive_account_role(&account);
    assert_eq!(role.role, "family_discretionary");
    assert!(!role.counts_as_emergency_reserve);
}

#[test]
fn test_personal_allowance() {
    let account = make_account(
        AccountKind::Allowance,
        Some("My personal allowance for gifts and discretionary".to_string()),
        None,
    );
    let role = derive_account_role(&account);
    assert_eq!(role.role, "personal_allowance");
}

#[test]
fn test_operating_account() {
    let account = make_account(
        AccountKind::RealAccount,
        Some("Main account, income here, essentials from here".to_string()),
        None,
    );
    let role = derive_account_role(&account);
    assert_eq!(role.role, "operating");
    assert_eq!(role.priority_level, "critical");
}

#[test]
fn maintenance_reserve_and_reason_quote() {
    let account = make_account(
        AccountKind::EmergencyFund,
        Some("Car REPAIR money".to_string()),
        None,
    );
    let role = derive_account_role(&account);
    assert_eq!(role.role, "maintenance_reserve");
    assert_eq!(role.classification_reason, "EmergencyFund account with maintenance keywords: 'Car REPAIR money'");
}

#[test]
fn reason_quotes_at_most_eighty_characters() {
    let long = "Saving for a house ".repeat(10);
    let account = make_account(AccountKind::Savings, Some(long.clone()), None);
    let role = derive_account_role(&account);
    assert_eq!(role.role, "sinking_fund");
    let quoted: String = long.chars().take(80).collect();
    assert_eq!(
        role.classification_reason,
        format!("Savings account with future spending keywords in description: '{}'", quoted)
    );
}

#[test]
fn spend_keyword_needs_a_target() {
    let without = make_account(AccountKind::Savings, Some("money to spend".to_string()), None);
    assert_eq!(derive_account_role(&without).role, "savings");
    let with = make_account(AccountKind::Savings, Some("money to spend".to_string()), Some(Amount::new(1, 0)));
    assert_eq!(derive_account_role(&with).role, "sinking_fund");
}

#[test]
fn baseline_roles_of_other_kinds() {
    assert_eq!(derive_account_role(&make_account(AccountKind::Tax, None, None)).role, "reserved_liability");
    assert_eq!(derive_account_role(&make_account(AccountKind::Equity, None, None)).role, "equity_investment");
    assert!(derive_account_role(&make_account(AccountKind::Investment, None, None)).counts_as_long_term_wealth);
    assert_eq!(derive_account_role(&make_account(AccountKind::Debt, None, None)).priority_level, "high");
    assert_eq!(derive_account_role_from_kind_savings_fallback().classification_reason, "Savings account type (fallback)");
    assert_eq!(derive_account_role_from_kind_emergency_fallback().purpose, "Emergency fund");
    assert_eq!(derive_account_role_from_kind_allowance_fallback().role, "personal_allowance");
}
