//! Household finance computation: calendars, recurrence schedules, daily balance
//! series, merging of calculators, statistics and financial metrics.

pub mod calendar;
pub mod recurrence;
pub mod amount;
pub mod error;
pub mod model;
pub mod sources;
pub mod balance;
pub mod forecast;
pub mod merge;
pub mod calculator;
pub mod account_stats;
pub mod account_role;
pub mod transport;
pub mod transaction;
pub mod metrics;
pub mod metric_reports;
pub mod account_metrics;
pub mod dashboard;
pub mod cache;
pub mod testing;
pub mod scenarios;
