//! Errors of the computations.

use vstd::prelude::*;

verus! {

/// Error types for the compute module.  The computations raise two errors
/// only, each with one text: a decimal overflow and a refused date-split merge.
#[derive(Debug, Clone, PartialEq, Eq)]
pub enum ComputeError {
    /// Error from loading the stored data.
    Database(String),
    /// Error from balance-table operations.
    DataFrame(String),
    /// Error from reading a column of a balance table.
    Series(String),
    /// Error from balance computation.
    BalanceComputation(String),
    /// Error from forecast computation.
    ForecastComputation(String),
    /// Error from date operations.
    Date(String),
    /// Error from decimal operations.
    Decimal(String),
    /// Error from account operations.
    Account(String),
    /// Error from transaction operations.
    Transaction(String),
    /// Runtime error for unexpected situations.
    Runtime(String),
}

impl ComputeError {
    /// The error raised when a decimal operation leaves the representable range.
    pub fn decimal_overflow() -> (r: ComputeError)
        ensures
            r.is_overflow(),
    {
        ComputeError::Decimal(String::from_str("decimal overflow"))
    }

    /// The error raised when a merge of several calculators is asked to merge
    /// by date split.
    pub fn refused_merge() -> (r: ComputeError)
        ensures
            r.is_refused_merge(),
    {
        ComputeError::Runtime(String::from_str("Not implemented DateSplit for regular merge"))
    }

    /// The decimal-overflow error ([`ComputeError::decimal_overflow`]).
    pub open spec fn is_overflow(self) -> bool {
        self is Decimal && self.text() == "decimal overflow"@
    }

    /// The refused date-split merge ([`ComputeError::refused_merge`]).
    pub open spec fn is_refused_merge(self) -> bool {
        self is Runtime && self.text() == "Not implemented DateSplit for regular merge"@
    }

    /// The text the error carries.
    pub open spec fn text(self) -> Seq<char> {
        match self {
            ComputeError::Database(s) => s@,
            ComputeError::DataFrame(s) => s@,
            ComputeError::Series(s) => s@,
            ComputeError::BalanceComputation(s) => s@,
            ComputeError::ForecastComputation(s) => s@,
            ComputeError::Date(s) => s@,
            ComputeError::Decimal(s) => s@,
            ComputeError::Account(s) => s@,
            ComputeError::Transaction(s) => s@,
            ComputeError::Runtime(s) => s@,
        }
    }

    /// The human-readable message of the error.
    pub fn message(&self) -> (r: String)
        ensures
            r@ == self.text(),
    {
        match self {
            ComputeError::Database(s) => s.clone(),
            ComputeError::DataFrame(s) => s.clone(),
            ComputeError::Series(s) => s.clone(),
            ComputeError::BalanceComputation(s) => s.clone(),
            ComputeError::ForecastComputation(s) => s.clone(),
            ComputeError::Date(s) => s.clone(),
            ComputeError::Decimal(s) => s.clone(),
            ComputeError::Account(s) => s.clone(),
            ComputeError::Transaction(s) => s.clone(),
            ComputeError::Runtime(s) => s.clone(),
        }
    }
}

} // verus!
