# compute

The computation core of a household finance tracker, written in Verus: daily
balance series of accounts, forecasts, merging of several calculators, yearly
and monthly statistics, per-account and dashboard metrics. Verus proves the
contracts of the functions in `src/`, except for the small `external_body`
wrappers around `chrono`, `rust_decimal`, `cached` and `str::to_lowercase`,
whose contracts (each stated in its doc comment) are believed without proof.

## Layout

- `src/calendar.rs`, `src/recurrence.rs`: dates (through `chrono`) and the
  occurrence dates of recurring items.
- `src/amount.rs`: money amounts with the representation of
  `rust_decimal::Decimal`, whose arithmetic the library calls.
- `src/model.rs`, `src/sources.rs`: the stored data (a `Ledger`) and the
  selection of what feeds a computation.
- `src/balance.rs`, `src/forecast.rs`, `src/merge.rs`, `src/calculator.rs`,
  `src/cache.rs`: the calculators, from one day's balance to cached, merged and
  date-split tables.
- `src/account_stats.rs`, `src/metrics.rs`, `src/account_metrics.rs`,
  `src/dashboard.rs`, `src/metric_reports.rs`: statistics and metrics.
- `src/account_role.rs`, `src/transaction.rs`, `src/transport.rs`: account
  roles, category and tag summaries, and the transport types.
- `src/testing.rs`, `src/scenarios.rs`: ledger builders and the reference
  scenarios that `tests/` runs.
- `app/`: the serde, OpenAPI, error-message and Polars adapters around the
  library's types.

Contracts are stated over values: dates by their day number, amounts in units
of `10^-28`, tables as sequences of `(account, date, balance)` triples. The
tables also fix each balance as a decimal, value and scale: the one that
`rust_decimal`'s sums give when the changes (and, in a sum merge, the merged
balances) are added in order.
