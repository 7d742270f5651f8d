//! Account state calculators.
//!
//! A calculator computes a table of daily balances of accounts over a date range.
//! The balance calculator follows the recorded data, the forecast calculator the
//! recurring items, the unpaid-recurring calculator the items that are still due;
//! a merge calculator combines several calculators, and a date-split calculator
//! uses one calculator before a date and another one from that date on.

use crate::amount::Amount;
use crate::balance::{
    account_ids, balance_amounts, balance_table, balances_fit, compute_balance, per_account_amounts,
    row_view, running_amounts_from, BalanceFrame, BalanceRow,
};
use crate::calendar::{
    chrono_pred, first_date, first_supported_date, lemma_first_date, lemma_not_first, lemma_prev_day_value,
    lemma_year_monotone, prev_date, Date, MAX_YEAR,
};
use crate::error::ComputeError;
use crate::forecast::{
    compute_forecast, compute_unpaid_recurring, forecast_deltas, forecast_fits, forecast_sums_fit, forecast_table,
    unpaid_deltas, unpaid_fits, unpaid_sums_fit, unpaid_table,
};
use crate::merge::{
    concat_rows, concat_views, first_amount, first_seen_merged, first_wins_amount, first_wins_merged, flatten, frame_balances, frame_rows,
    frame_views, joined_rows, lemma_concat_rows, lemma_concat_views, merge_first_seen, merge_first_wins,
    merge_sum, row_key, sum_amount, sum_merged, MergeMethod,
};
use crate::amount::sums_exactly_at;
use crate::model::{Account, Ledger};
use chrono::NaiveDate;
use chrono::Datelike;
use vstd::prelude::*;

verus! {

broadcast use vstd::seq_lib::group_seq_properties;

/// A `today` that a computation can use: a supported date from which the
/// computation can look `offset` days ahead.
pub open spec fn usable_today(today: Date, offset: nat) -> bool {
    today.wf() && today.year < MAX_YEAR - 1 && today.days + offset <= 95745399
}

/// Computes balances from the recorded data (see [`compute_balance`]).
#[derive(Clone, Copy, Debug)]
pub struct BalanceCalculator {
    pub merge_method: MergeMethod,
    /// The date before which recurring occurrences need a paid instance to count;
    /// without it every occurrence counts.
    pub today: Option<Date>,
    /// The what-if scenario whose simulated data is seen.
    pub scenario_context: Option<i32>,
}

impl BalanceCalculator {
    pub open spec fn wf(self) -> bool {
        self.today matches Some(t) ==> t.wf()
    }

    /// The `today` the computation uses: the given one, or else the first
    /// supported date, before which nothing lies.
    pub open spec fn effective_today(self) -> Date {
        match self.today {
            Some(t) => t,
            None => first_date(),
        }
    }

    /// A balance calculator for which every recurring occurrence counts.
    pub fn new(merge_method: MergeMethod) -> (r: Self)
        ensures
            r.wf(),
            r.merge_method == merge_method,
            r.today is None,
            r.scenario_context is None,
    {
        BalanceCalculator { merge_method, today: None, scenario_context: None }
    }

    /// A balance calculator that uses the given date as today.
    pub fn new_with_today(merge_method: MergeMethod, today: Date) -> (r: Self)
        ensures
            r.merge_method == merge_method,
            r.today == Some(today),
            r.scenario_context is None,
            today.wf() ==> r.wf(),
    {
        BalanceCalculator { merge_method, today: Some(today), scenario_context: None }
    }

    /// A balance calculator that uses the given date as today and also sees the
    /// simulated data of the given scenario.
    pub fn new_with_today_and_scenario(merge_method: MergeMethod, today: Date, scenario_id: i32) -> (r:
        Self)
        ensures
            r.merge_method == merge_method,
            r.today == Some(today),
            r.scenario_context == Some(scenario_id),
            today.wf() ==> r.wf(),
    {
        BalanceCalculator { merge_method, today: Some(today), scenario_context: Some(scenario_id) }
    }

    /// The default balance calculator: first wins, every occurrence counts.
    pub fn default() -> (r: Self)
        ensures
            r.wf(),
            r.merge_method == MergeMethod::FirstWins,
            r.today is None,
            r.scenario_context is None,
    {
        BalanceCalculator::new(MergeMethod::FirstWins)
    }
}

/// Computes forecasts from the recurring items (see [`compute_forecast`]).
#[derive(Clone, Copy, Debug)]
pub struct ForecastCalculator {
    pub merge_method: MergeMethod,
    /// The balance every account starts with.
    pub initial_balance: Amount,
    /// The date from which occurrences are future; without it every occurrence is.
    pub today: Option<Date>,
    /// Days after today to which past-due occurrences are moved.
    pub future_offset_days: u32,
}

impl ForecastCalculator {
    pub open spec fn effective_today(self) -> Date {
        match self.today {
            Some(t) => t,
            None => first_date(),
        }
    }

    pub open spec fn wf(self) -> bool {
        &&& self.initial_balance.wf()
        &&& usable_today(self.effective_today(), self.future_offset_days as nat)
    }

    /// A forecast from a zero balance in which every occurrence is future.
    pub fn new(merge_method: MergeMethod) -> (r: Self)
        ensures
            r.wf(),
            r.merge_method == merge_method,
            r.initial_balance.units() == 0,
            r.initial_balance == (Amount { mantissa: 0, scale: 0 }),
            r.today is None,
            r.future_offset_days == 0,
    {
        proof {
            lemma_first_date();
        }
        ForecastCalculator {
            merge_method,
            initial_balance: Amount::zero(),
            today: None,
            future_offset_days: 0,
        }
    }

    /// A forecast from the given balance in which every occurrence is future.
    pub fn new_with_initial_balance(merge_method: MergeMethod, initial_balance: Amount) -> (r: Self)
        ensures
            r.merge_method == merge_method,
            r.initial_balance == initial_balance,
            r.today is None,
            r.future_offset_days == 0,
            initial_balance.wf() ==> r.wf(),
    {
        ForecastCalculator { merge_method, initial_balance, today: None, future_offset_days: 0 }
    }

    /// A forecast from the given balance that uses the given today and moves
    /// past-due occurrences `future_offset_days` after it.
    pub fn new_with_params(
        merge_method: MergeMethod,
        initial_balance: Amount,
        today: Date,
        future_offset_days: u32,
    ) -> (r: Self)
        ensures
            r.merge_method == merge_method,
            r.initial_balance == initial_balance,
            r.today == Some(today),
            r.future_offset_days == future_offset_days,
            initial_balance.wf() && usable_today(today, future_offset_days as nat) ==> r.wf(),
    {
        ForecastCalculator { merge_method, initial_balance, today: Some(today), future_offset_days }
    }

    /// The default forecast calculator: first wins, from a zero balance, every
    /// occurrence future, past-due occurrences not moved.
    pub fn default() -> (r: Self)
        ensures
            r.wf(),
            r == (ForecastCalculator {
                merge_method: MergeMethod::FirstWins,
                initial_balance: Amount { mantissa: 0, scale: 0 },
                today: None,
                future_offset_days: 0,
            }),
    {
        ForecastCalculator::new(MergeMethod::FirstWins)
    }
}

/// Computes the unpaid recurring items (see [`compute_unpaid_recurring`]).
#[derive(Clone, Copy, Debug)]
pub struct UnpaidRecurringCalculator {
    pub merge_method: MergeMethod,
    /// The date before which occurrences are past.
    pub today: Date,
    /// Days after today to which past-due occurrences are moved.
    pub future_offset_days: u32,
}

impl UnpaidRecurringCalculator {
    pub open spec fn wf(self) -> bool {
        usable_today(self.today, self.future_offset_days as nat)
    }

    /// An unpaid-recurring calculator with the given merge method, today and offset.
    pub fn new(merge_method: MergeMethod, today: Date, future_offset_days: u32) -> (r: Self)
        ensures
            r.merge_method == merge_method,
            r.today == today,
            r.future_offset_days == future_offset_days,
            usable_today(today, future_offset_days as nat) ==> r.wf(),
    {
        UnpaidRecurringCalculator { merge_method, today, future_offset_days }
    }

    /// An unpaid-recurring calculator whose results are summed with the others.
    pub fn new_with_sum_merge(today: Date, future_offset_days: u32) -> (r: Self)
        ensures
            r.merge_method == MergeMethod::Sum,
            r.today == today,
            r.future_offset_days == future_offset_days,
            usable_today(today, future_offset_days as nat) ==> r.wf(),
    {
        UnpaidRecurringCalculator { merge_method: MergeMethod::Sum, today, future_offset_days }
    }

    /// The default unpaid-recurring calculator: summed with the others, today is
    /// the local date, past-due items are moved seven days ahead.
    pub fn default() -> (r: Self)
        ensures
            r.merge_method == MergeMethod::Sum,
            r.future_offset_days == 7,
            r.today.wf(),
    {
        UnpaidRecurringCalculator {
            merge_method: MergeMethod::Sum,
            today: local_today(),
            future_offset_days: 7,
        }
    }
}

/// Combines the tables of several calculators with a merge method.
#[derive(Debug)]
pub struct MergeCalculator {
    pub calculators: Vec<Calculator>,
    pub merge_method: MergeMethod,
}

/// Uses one calculator before a split date and another one from it on.
#[derive(Debug)]
pub struct DateSplitCalculator {
    /// The calculator for the dates before the split date.
    pub first_calculator: Box<Calculator>,
    /// The calculator for the dates on or after the split date.
    pub second_calculator: Box<Calculator>,
    pub split_date: Date,
    /// Whether the second calculator was given the balance of the first one.
    pub transfer_balance: bool,
}

/// An account state calculator.
#[derive(Debug)]
pub enum Calculator {
    Balance(BalanceCalculator),
    Forecast(ForecastCalculator),
    UnpaidRecurring(UnpaidRecurringCalculator),
    Merge(MergeCalculator),
    DateSplit(DateSplitCalculator),
}

/// An account state calculator: computes a table of the daily balances of
/// accounts over a date range.
pub trait AccountStateCalculator {
    /// The calculator is usable.
    spec fn calculator_wf(&self) -> bool;

    /// The calculator can produce `rows` for the accounts `ids` over
    /// `[start, end]`.
    spec fn can_produce(&self, ledger: Ledger, ids: Seq<i32>, start: Date, end: Date, rows: Seq<(i32, Date, int)>) -> bool;

    /// The calculator is sure to succeed for the accounts `ids` over `[start,
    /// end]`.
    spec fn sure_to_succeed(&self, ledger: Ledger, ids: Seq<i32>, start: Date, end: Date) -> bool;

    /// The calculator combines calculators in a way it does not support.
    spec fn merge_unsupported(&self) -> bool;

    /// The merge method with which this calculator's table is combined with others.
    spec fn chosen_merge_method(&self) -> MergeMethod;

    /// The calculator uses an opening balance.
    spec fn uses_initial_balance(&self) -> bool;

    /// The calculator is `before` given the opening balance `balance`.
    spec fn balance_given(&self, before: &Self, balance: Amount) -> bool;

    /// Computes the account state table of the accounts within `[start_date,
    /// end_date]`; it fails only when a decimal sum overflows or the
    /// calculator combines calculators in an unsupported way, and never where
    /// it is sure to succeed.
    fn compute_account_state(
        &mut self,
        ledger: &Ledger,
        accounts: &Vec<Account>,
        start_date: Date,
        end_date: Date,
    ) -> (r: Result<BalanceFrame, ComputeError>)
        requires
            old(self).calculator_wf(),
            ledger.wf(),
            start_date.wf(),
            end_date.wf(),
            end_date.year < MAX_YEAR - 1,
        ensures
            final(self).calculator_wf(),
            r matches Ok(f) ==> f.wf() && old(self).can_produce(
                *ledger,
                account_ids(accounts@),
                start_date,
                end_date,
                f.view_rows(),
            ),
            r matches Err(e) ==> e.is_overflow() || (e.is_refused_merge() && old(self).merge_unsupported()),
            old(self).sure_to_succeed(*ledger, account_ids(accounts@), start_date, end_date) ==> r is Ok,
    ;

    /// The merge method with which this calculator's table is combined with others.
    fn merge_method(&self) -> (r: MergeMethod)
        ensures
            r == self.chosen_merge_method(),
    ;

    /// Gives the calculator a new opening balance; reports whether it uses one.
    fn update_initial_balance(&mut self, balance: Amount) -> (r: bool)
        requires
            old(self).calculator_wf(),
            balance.wf(),
        ensures
            final(self).calculator_wf(),
            r == old(self).uses_initial_balance(),
            final(self).balance_given(&*old(self), balance),
    ;
}

impl AccountStateCalculator for Calculator {
    open spec fn calculator_wf(&self) -> bool {
        self.wf()
    }

    open spec fn can_produce(&self, ledger: Ledger, ids: Seq<i32>, start: Date, end: Date, rows: Seq<(i32, Date, int)>) -> bool {
        self.produces(ledger, ids, start, end, rows)
    }

    open spec fn sure_to_succeed(&self, ledger: Ledger, ids: Seq<i32>, start: Date, end: Date) -> bool {
        self.fits(ledger, ids, start, end)
    }

    open spec fn merge_unsupported(&self) -> bool {
        self.has_unsupported_merge()
    }

    open spec fn chosen_merge_method(&self) -> MergeMethod {
        self.merge_method_of()
    }

    open spec fn uses_initial_balance(&self) -> bool {
        *self is Forecast
    }

    open spec fn balance_given(&self, before: &Self, balance: Amount) -> bool {
        self.given_balance(*before, balance)
    }

    fn compute_account_state(
        &mut self,
        ledger: &Ledger,
        accounts: &Vec<Account>,
        start_date: Date,
        end_date: Date,
    ) -> (r: Result<BalanceFrame, ComputeError>) {
        Calculator::compute_account_state(self, ledger, accounts, start_date, end_date)
    }

    fn merge_method(&self) -> MergeMethod {
        Calculator::merge_method(self)
    }

    fn update_initial_balance(&mut self, balance: Amount) -> (r: bool) {
        Calculator::update_initial_balance(self, balance)
    }
}

/// A calculator that fits is sound.
proof fn lemma_fits_sound(c: Calculator, ledger: Ledger, ids: Seq<i32>, start: Date, end: Date)
    requires
        c.fits(ledger, ids, start, end),
    ensures
        c.sound(ledger, ids, start, end),
    decreases c,
{
    match c {
        Calculator::Merge(m) => {
            if m.calculators.len() == 1 {
                lemma_fits_sound(m.calculators@[0], ledger, ids, start, end);
            } else if m.calculators.len() >= 2 {
                assert forall|i: int| 0 <= i < m.calculators.len() implies (#[trigger] m.calculators@[i]).sound(
                    ledger,
                    ids,
                    start,
                    end,
                ) by {
                    lemma_fits_sound(m.calculators@[i], ledger, ids, start, end);
                }
            }
        },
        Calculator::DateSplit(d) => {
            if end.days < d.split_date.days {
                lemma_fits_sound(*d.first_calculator, ledger, ids, start, end);
            } else if start.days >= d.split_date.days {
                lemma_fits_sound(*d.second_calculator, ledger, ids, start, end);
            } else {
                lemma_fits_sound(*d.first_calculator, ledger, ids, start, prev_date(d.split_date));
                lemma_fits_sound(*d.second_calculator, ledger, ids, d.split_date, end);
            }
        },
        _ => {},
    }
}

/// Each row of `rows` holds, for its key, the decimal that wins it among the
/// tables `parts` ([`first_wins_amount`]).
pub open spec fn first_wins_merge_of(parts: Seq<Seq<BalanceRow>>, rows: Seq<BalanceRow>) -> bool {
    forall|i: int| 0 <= i < rows.len() ==> first_wins_amount(parts, row_key(#[trigger] rows[i])) == Some(rows[i].balance)
}

/// Each row of `rows` holds, for its key, the decimal sum of the balances of
/// that key in the tables `parts`, taken in order ([`sum_amount`]).
pub open spec fn sum_merge_of(parts: Seq<Seq<BalanceRow>>, rows: Seq<BalanceRow>) -> bool {
    forall|i: int| 0 <= i < rows.len() ==> sum_amount(joined_rows(parts), row_key(#[trigger] rows[i])) == Some(rows[i].balance)
}

/// `rows` merge `parts` with the method; a date split is no way to merge tables.
pub open spec fn merged_by(method: MergeMethod, parts: Seq<Seq<(i32, Date, int)>>, rows: Seq<(i32, Date, int)>) -> bool {
    match method {
        MergeMethod::Sum => sum_merged(flatten(parts), rows),
        MergeMethod::FirstWins => first_wins_merged(parts, rows),
        MergeMethod::DateSplit => false,
    }
}

/// Whatever tables the calculators produce (one each, in order), their
/// balances add up exactly at some scale ([`sums_exactly_at`]).
pub open spec fn sum_fits_for(calcs: Seq<Calculator>, ledger: Ledger, ids: Seq<i32>, start: Date, end: Date) -> bool
    decreases calcs,
{
    forall|frames: Seq<BalanceFrame>|
        #![trigger frame_balances(frames)]
        frames.len() == calcs.len() && (forall|i: int|
            0 <= i < frames.len() ==> (#[trigger] frames[i]).wf() && calcs[i].produces(
                ledger,
                ids,
                start,
                end,
                frames[i].view_rows(),
            )) ==> exists|scale: int| sums_exactly_at(frame_balances(frames), scale)
}

impl Calculator {
    /// Every calculator in the tree is usable.
    pub open spec fn wf(self) -> bool
        decreases self,
    {
        match self {
            Calculator::Balance(b) => b.wf(),
            Calculator::Forecast(f) => f.wf(),
            Calculator::UnpaidRecurring(u) => u.wf(),
            Calculator::Merge(m) => forall|i: int|
                0 <= i < m.calculators.len() ==> (#[trigger] m.calculators@[i]).wf(),
            Calculator::DateSplit(d) => d.split_date.wf() && d.first_calculator.wf()
                && d.second_calculator.wf(),
        }
    }

    /// Some merge calculator in the tree combines several calculators by date
    /// split, which it cannot do.
    pub open spec fn has_unsupported_merge(self) -> bool
        decreases self,
    {
        match self {
            Calculator::Merge(m) => (m.calculators.len() >= 2 && m.merge_method == MergeMethod::DateSplit)
                || exists|i: int|
                0 <= i < m.calculators.len() && (#[trigger] m.calculators@[i]).has_unsupported_merge(),
            Calculator::DateSplit(d) => d.first_calculator.has_unsupported_merge()
                || d.second_calculator.has_unsupported_merge(),
            _ => false,
        }
    }

    /// The calculator is sure to succeed for the accounts `ids` over `[start,
    /// end]`: a balance, forecast or unpaid-items calculator where its sums fit
    /// ([`balances_fit`], [`forecast_fits`] or [`forecast_sums_fit`],
    /// [`unpaid_fits`] or [`unpaid_sums_fit`]); a merge of no or
    /// one calculator, or a first-wins merge, where each merged calculator is; a
    /// sum merge where each merged calculator is and the balances of whatever
    /// tables they produce add up exactly ([`sum_fits_for`]); a date split where
    /// the calculators on each side of the split date are.
    pub open spec fn fits(self, ledger: Ledger, ids: Seq<i32>, start: Date, end: Date) -> bool
        decreases self,
    {
        match self {
            Calculator::Balance(b) => balances_fit(ledger, ids, start, end, b.effective_today(), b.scenario_context),
            Calculator::Forecast(f) => forecast_fits(
                ledger,
                ids,
                start,
                end,
                f.initial_balance,
                f.effective_today(),
                f.future_offset_days as nat,
            ) || forecast_sums_fit(
                ledger,
                ids,
                start,
                end,
                f.initial_balance,
                f.effective_today(),
                f.future_offset_days as nat,
            ),
            Calculator::UnpaidRecurring(u) => unpaid_fits(ledger, ids, start, u.today, u.future_offset_days as nat)
                || unpaid_sums_fit(ledger, ids, start, end, u.today, u.future_offset_days as nat),
            Calculator::Merge(m) => if m.calculators.len() == 0 {
                true
            } else if m.calculators.len() == 1 {
                m.calculators@[0].fits(ledger, ids, start, end)
            } else {
                &&& forall|i: int|
                    0 <= i < m.calculators.len() ==> (#[trigger] m.calculators@[i]).fits(ledger, ids, start, end)
                &&& (m.merge_method == MergeMethod::FirstWins || (m.merge_method == MergeMethod::Sum
                    && sum_fits_for(m.calculators@, ledger, ids, start, end)))
            },
            Calculator::DateSplit(d) => if end.days < d.split_date.days {
                d.first_calculator.fits(ledger, ids, start, end)
            } else if start.days >= d.split_date.days {
                d.second_calculator.fits(ledger, ids, start, end)
            } else {
                d.first_calculator.fits(ledger, ids, start, prev_date(d.split_date))
                    && d.second_calculator.fits(ledger, ids, d.split_date, end)
            },
        }
    }

    /// Computing the accounts `ids` over `[start, end]` reaches a merge of
    /// several calculators by date split, which is refused: the calculator is
    /// such a merge, or a merge one of whose calculators reaches one, or a date
    /// split whose calculator on a side of the split date that the range
    /// covers reaches one.
    pub open spec fn refuses(self, ledger: Ledger, ids: Seq<i32>, start: Date, end: Date) -> bool
        decreases self,
    {
        match self {
            Calculator::Merge(m) => if m.calculators.len() == 0 {
                false
            } else if m.calculators.len() == 1 {
                m.calculators@[0].refuses(ledger, ids, start, end)
            } else {
                m.merge_method == MergeMethod::DateSplit || exists|i: int|
                    0 <= i < m.calculators.len() && (#[trigger] m.calculators@[i]).refuses(ledger, ids, start, end)
            },
            Calculator::DateSplit(d) => if end.days < d.split_date.days {
                d.first_calculator.refuses(ledger, ids, start, end)
            } else if start.days >= d.split_date.days {
                d.second_calculator.refuses(ledger, ids, start, end)
            } else {
                d.first_calculator.refuses(ledger, ids, start, prev_date(d.split_date))
                    || d.second_calculator.refuses(ledger, ids, d.split_date, end)
            },
            _ => false,
        }
    }

    /// No decimal sum of the computation overflows: as [`Calculator::fits`],
    /// except that a refused merge by date split computes nothing and so counts
    /// as sound.
    pub open spec fn sound(self, ledger: Ledger, ids: Seq<i32>, start: Date, end: Date) -> bool
        decreases self,
    {
        match self {
            Calculator::Merge(m) => if m.calculators.len() == 0 {
                true
            } else if m.calculators.len() == 1 {
                m.calculators@[0].sound(ledger, ids, start, end)
            } else if m.merge_method == MergeMethod::DateSplit {
                true
            } else {
                &&& forall|i: int|
                    0 <= i < m.calculators.len() ==> (#[trigger] m.calculators@[i]).sound(ledger, ids, start, end)
                &&& (m.merge_method == MergeMethod::FirstWins || sum_fits_for(m.calculators@, ledger, ids, start, end))
            },
            Calculator::DateSplit(d) => if end.days < d.split_date.days {
                d.first_calculator.sound(ledger, ids, start, end)
            } else if start.days >= d.split_date.days {
                d.second_calculator.sound(ledger, ids, start, end)
            } else {
                d.first_calculator.sound(ledger, ids, start, prev_date(d.split_date))
                    && d.second_calculator.sound(ledger, ids, d.split_date, end)
            },
            _ => self.fits(ledger, ids, start, end),
        }
    }

    /// The calculator can produce `rows` for the accounts `ids` over `[start, end]`.
    pub open spec fn produces(
        self,
        ledger: Ledger,
        ids: Seq<i32>,
        start: Date,
        end: Date,
        rows: Seq<(i32, Date, int)>,
    ) -> bool
        decreases self,
    {
        match self {
            Calculator::Balance(b) => rows == balance_table(
                ledger,
                ids,
                start,
                end,
                b.effective_today(),
                b.scenario_context,
            ),
            Calculator::Forecast(f) => rows == forecast_table(
                ledger,
                ids,
                start,
                end,
                f.initial_balance.units(),
                f.effective_today(),
                f.future_offset_days as nat,
            ),
            Calculator::UnpaidRecurring(u) => rows == unpaid_table(
                ledger,
                ids,
                start,
                end,
                u.today,
                u.future_offset_days as nat,
            ),
            Calculator::Merge(m) => if m.calculators.len() == 0 {
                rows.len() == 0
            } else if m.calculators.len() == 1 {
                m.calculators@[0].produces(ledger, ids, start, end, rows)
            } else {
                exists|parts: Seq<Seq<(i32, Date, int)>>|
                    #![trigger merged_by(m.merge_method, parts, rows)]
                    parts.len() == m.calculators.len() && (forall|i: int|
                        0 <= i < m.calculators.len() ==> (#[trigger] m.calculators@[i]).produces(
                            ledger,
                            ids,
                            start,
                            end,
                            parts[i],
                        )) && merged_by(m.merge_method, parts, rows)
            },
            Calculator::DateSplit(d) => if end.days < d.split_date.days {
                d.first_calculator.produces(ledger, ids, start, end, rows)
            } else if start.days >= d.split_date.days {
                d.second_calculator.produces(ledger, ids, start, end, rows)
            } else {
                exists|a: Seq<(i32, Date, int)>, b: Seq<(i32, Date, int)>|
                    d.first_calculator.produces(ledger, ids, start, prev_date(d.split_date), a)
                        && d.second_calculator.produces(ledger, ids, d.split_date, end, b) && rows
                        == a + b
            },
        }
    }

    /// The balances of the rows `rows` of a table the calculator produces for
    /// the accounts `ids` over `[start, end]`, as decimals with their scales:
    /// for the balance, forecast and unpaid-items calculators those that
    /// `rust_decimal`'s sums give ([`balance_amounts`],
    /// [`running_amounts_from`]); for a date split those of each side, in
    /// order; for a merge of one calculator, that calculator's; for a merge
    /// of several, among tables that the merged calculators produce with their
    /// decimals, for each key the decimal of the table that wins it
    /// ([`first_wins_amount`]) or the decimal sum of the key's balances
    /// ([`sum_amount`]).  A merge by date split gives no table.
    pub open spec fn gives_decimals(self, ledger: Ledger, ids: Seq<i32>, start: Date, end: Date, rows: Seq<BalanceRow>) -> bool
        decreases self,
    {
        match self {
            Calculator::Balance(b) => rows.map_values(|x: BalanceRow| x.balance) == balance_amounts(
                ledger,
                ids,
                start,
                end,
                b.effective_today(),
                b.scenario_context,
            ),
            Calculator::Forecast(f) => rows.map_values(|x: BalanceRow| x.balance) == per_account_amounts(
                ids,
                |a: i32|
                    running_amounts_from(
                        f.initial_balance,
                        forecast_deltas(ledger, a, start, end, f.effective_today(), f.future_offset_days as nat),
                        start,
                        end,
                    ),
            ),
            Calculator::UnpaidRecurring(u) => rows.map_values(|x: BalanceRow| x.balance) == per_account_amounts(
                ids,
                |a: i32|
                    running_amounts_from(
                        Amount { mantissa: 0, scale: 0 },
                        unpaid_deltas(ledger, a, start, u.today, u.future_offset_days as nat),
                        start,
                        end,
                    ),
            ),
            Calculator::Merge(m) => if m.calculators.len() == 0 {
                rows.len() == 0
            } else if m.calculators.len() == 1 {
                m.calculators@[0].gives_decimals(ledger, ids, start, end, rows)
            } else if m.merge_method == MergeMethod::FirstWins {
                exists|parts: Seq<Seq<BalanceRow>>|
                    #![trigger first_wins_merge_of(parts, rows)]
                    parts.len() == m.calculators.len() && (forall|q: int|
                        0 <= q < m.calculators.len() ==> (#[trigger] m.calculators@[q]).produces(
                            ledger,
                            ids,
                            start,
                            end,
                            parts[q].map_values(|x: BalanceRow| row_view(x)),
                        ) && m.calculators@[q].gives_decimals(ledger, ids, start, end, parts[q]))
                        && first_wins_merge_of(parts, rows)
            } else if m.merge_method == MergeMethod::Sum {
                exists|parts: Seq<Seq<BalanceRow>>|
                    #![trigger sum_merge_of(parts, rows)]
                    parts.len() == m.calculators.len() && (forall|q: int|
                        0 <= q < m.calculators.len() ==> (#[trigger] m.calculators@[q]).produces(
                            ledger,
                            ids,
                            start,
                            end,
                            parts[q].map_values(|x: BalanceRow| row_view(x)),
                        ) && m.calculators@[q].gives_decimals(ledger, ids, start, end, parts[q]))
                        && sum_merge_of(parts, rows)
            } else {
                true
            },
            Calculator::DateSplit(d) => if end.days < d.split_date.days {
                d.first_calculator.gives_decimals(ledger, ids, start, end, rows)
            } else if start.days >= d.split_date.days {
                d.second_calculator.gives_decimals(ledger, ids, start, end, rows)
            } else {
                exists|a: Seq<BalanceRow>, b: Seq<BalanceRow>|
                    d.first_calculator.gives_decimals(ledger, ids, start, prev_date(d.split_date), a)
                        && d.second_calculator.gives_decimals(ledger, ids, d.split_date, end, b) && rows
                        == a + b
            },
        }
    }

    /// What computing the accounts `ids` over `[start, end]` may return: a
    /// table that the calculator produces, or a decimal overflow, or a refused
    /// date-split merge where the computation reaches one ([`Calculator::refuses`]).
    /// It succeeds where the calculator fits ([`Calculator::fits`]); where no
    /// decimal sum overflows ([`Calculator::sound`]) it fails exactly where it
    /// reaches a refused merge, and with that error; a merge of several
    /// calculators by date split always refuses.
    pub open spec fn outcome(
        self,
        ledger: Ledger,
        ids: Seq<i32>,
        start: Date,
        end: Date,
        r: Result<BalanceFrame, ComputeError>,
    ) -> bool {
        &&& r matches Ok(f) ==> f.wf() && self.produces(ledger, ids, start, end, f.view_rows())
        &&& r matches Err(e) ==> e.is_overflow() || (e.is_refused_merge() && self.has_unsupported_merge()
            && self.refuses(ledger, ids, start, end))
        &&& self.fits(ledger, ids, start, end) ==> r is Ok
        &&& (self matches Calculator::Merge(m) && m.calculators.len() >= 2 && m.merge_method
            == MergeMethod::DateSplit ==> (r matches Err(e) && e.is_refused_merge()))
        &&& self.sound(ledger, ids, start, end) ==> if self.refuses(ledger, ids, start, end) {
            r matches Err(e) && e.is_refused_merge()
        } else {
            r is Ok
        }
    }

    /// Computes the account state table of the accounts within `[start_date,
    /// end_date]`: one of the outcomes that [`Calculator::outcome`] allows,
    /// with the decimals that [`Calculator::gives_decimals`] states.
    pub fn compute_account_state(
        &self,
        ledger: &Ledger,
        accounts: &Vec<Account>,
        start_date: Date,
        end_date: Date,
    ) -> (r: Result<BalanceFrame, ComputeError>)
        requires
            self.wf(),
            ledger.wf(),
            start_date.wf(),
            end_date.wf(),
            end_date.year < MAX_YEAR - 1,
        ensures
            self.outcome(*ledger, account_ids(accounts@), start_date, end_date, r),
            r matches Ok(f) ==> self.gives_decimals(
                *ledger,
                account_ids(accounts@),
                start_date,
                end_date,
                f.rows@,
            ),
        decreases self,
    {
        match self {
            Calculator::Balance(b) => {
                let today = match b.today {
                    Some(t) => t,
                    None => first_supported_date(),
                };
                compute_balance(ledger, accounts, start_date, end_date, today, b.scenario_context)
            },
            Calculator::Forecast(fc) => {
                let today = match fc.today {
                    Some(t) => t,
                    None => first_supported_date(),
                };
                compute_forecast(
                    ledger,
                    accounts,
                    start_date,
                    end_date,
                    fc.initial_balance,
                    today,
                    fc.future_offset_days,
                )
            },
            Calculator::UnpaidRecurring(u) => {
                compute_unpaid_recurring(
                    ledger,
                    accounts,
                    start_date,
                    end_date,
                    u.today,
                    u.future_offset_days,
                )
            },
            Calculator::Merge(m) => m.compute_merged(ledger, accounts, start_date, end_date),
            Calculator::DateSplit(d) => d.compute_split(ledger, accounts, start_date, end_date),
        }
    }

    /// The merge method of the calculator: that of its kind of calculator, and
    /// the date split for a date split.
    pub open spec fn merge_method_of(self) -> MergeMethod {
        match self {
            Calculator::Balance(b) => b.merge_method,
            Calculator::Forecast(f) => f.merge_method,
            Calculator::UnpaidRecurring(u) => u.merge_method,
            Calculator::Merge(m) => m.merge_method,
            Calculator::DateSplit(_) => MergeMethod::DateSplit,
        }
    }

    /// The calculator is `before` given the opening balance `balance`: a forecast
    /// calculator with that initial balance, any other calculator unchanged.
    pub open spec fn given_balance(self, before: Calculator, balance: Amount) -> bool {
        match (before, self) {
            (Calculator::Forecast(a), Calculator::Forecast(b)) => b == ForecastCalculator {
                initial_balance: balance,
                ..a
            },
            _ => self == before,
        }
    }

    /// The merge method with which this calculator's table is combined with others.
    pub fn merge_method(&self) -> (r: MergeMethod)
        ensures
            r == self.merge_method_of(),
    {
        match self {
            Calculator::Balance(b) => b.merge_method,
            Calculator::Forecast(f) => f.merge_method,
            Calculator::UnpaidRecurring(u) => u.merge_method,
            Calculator::Merge(m) => m.merge_method,
            Calculator::DateSplit(_) => MergeMethod::DateSplit,
        }
    }

    /// Gives the calculator a new opening balance; only a forecast calculator
    /// uses one, and it reports whether it did.
    pub fn update_initial_balance(&mut self, balance: Amount) -> (r: bool)
        ensures
            r == (*old(self) is Forecast),
            match (*old(self), *final(self)) {
                (Calculator::Forecast(a), Calculator::Forecast(b)) => b == ForecastCalculator {
                    initial_balance: balance,
                    ..a
                },
                _ => *final(self) == *old(self),
            },
    {
        match self {
            Calculator::Forecast(f) => {
                f.initial_balance = balance;
                true
            },
            _ => false,
        }
    }
}

proof fn lemma_concat_grows(frames: Seq<BalanceFrame>, k: int, n: int)
    requires
        0 <= k <= n <= frames.len(),
    ensures
        concat_views(frames.take(k)).len() <= concat_views(frames.take(n)).len(),
    decreases n - k,
{
    if k < n {
        lemma_concat_grows(frames, k, n - 1);
        assert(frames.take(n).drop_last() == frames.take(n - 1));
    }
}

impl MergeCalculator {
    /// Merges tables by (account, date) key with the merge method: no tables give
    /// an empty table and one table is returned as it is; otherwise the sum
    /// merge adds the balances of each key, the first-wins merge keeps each
    /// key's first balance, and a date split cannot merge tables (unless they
    /// hold no rows); balances are kept as decimals with their scales (a sum
    /// as `rust_decimal` adds up, [`sum_amount`]).  Fails when a sum
    /// overflows.
    pub fn merge_dataframes(&self, dfs: &Vec<BalanceFrame>) -> (r: Result<BalanceFrame, ComputeError>)
        requires
            forall|f: int| 0 <= f < dfs.len() ==> (#[trigger] dfs[f]).wf(),
        ensures
            dfs.len() == 0 ==> (r matches Ok(out) && out.rows.len() == 0),
            dfs.len() == 1 ==> (r matches Ok(out) && out.rows@ == dfs@[0].rows@),
            dfs.len() >= 2 ==> match self.merge_method {
                MergeMethod::Sum => (r matches Ok(out) ==> out.wf() && sum_merged(
                    concat_views(dfs@),
                    out.view_rows(),
                ) && forall|i: int|
                    0 <= i < out.rows.len() ==> sum_amount(concat_rows(dfs@), row_key(#[trigger] out.rows@[i]))
                        == Some(out.rows@[i].balance)) && (r matches Err(e) ==> e.is_overflow()) && (forall|
                    scale: int,
                |
                    #[trigger] sums_exactly_at(frame_balances(dfs@), scale) ==> r is Ok),
                MergeMethod::FirstWins => (r matches Ok(out) && out.wf() && first_seen_merged(
                    concat_views(dfs@),
                    out.view_rows(),
                ) && forall|i: int|
                    0 <= i < out.rows.len() ==> first_amount(concat_rows(dfs@), row_key(#[trigger] out.rows@[i]))
                        == Some(out.rows@[i].balance)),
                MergeMethod::DateSplit => if concat_views(dfs@).len() == 0 {
                    (r matches Ok(out) && out.rows.len() == 0)
                } else {
                    (r matches Err(e) && e.is_refused_merge())
                },
            },
    {
        if dfs.len() == 0 {
            return Ok(BalanceFrame::empty());
        }
        if dfs.len() == 1 {
            return Ok(dfs[0].duplicate());
        }
        match self.merge_method {
            MergeMethod::Sum => merge_sum(dfs),
            MergeMethod::FirstWins => Ok(merge_first_seen(dfs)),
            MergeMethod::DateSplit => {
                let mut f: usize = 0;
                while f < dfs.len()
                    invariant
                        f <= dfs.len(),
                        dfs.len() >= 2,
                        self.merge_method == MergeMethod::DateSplit,
                        concat_views(dfs@.take(f as int)).len() == 0,
                    decreases dfs.len() - f,
                {
                    assert(dfs@.take(f + 1).drop_last() == dfs@.take(f as int));
                    if dfs[f].rows.len() > 0 {
                        proof {
                            lemma_concat_grows(dfs@, f + 1, dfs.len() as int);
                            assert(dfs@.take(dfs.len() as int) == dfs@);
                        }
                        return Err(
                            ComputeError::refused_merge(),
                        );
                    }
                    f = f + 1;
                }
                assert(dfs@.take(dfs.len() as int) == dfs@);
                Ok(BalanceFrame::empty())
            },
        }
    }

    /// A merge calculator over the given calculators.
    pub fn new(calculators: Vec<Calculator>, merge_method: MergeMethod) -> (r: Self)
        ensures
            r.calculators@ == calculators@,
            r.merge_method == merge_method,
    {
        MergeCalculator { calculators, merge_method }
    }

    /// The default merge: the default balance calculator, then the default
    /// forecast calculator, first wins.
    pub fn default() -> (r: Self)
        ensures
            Calculator::Merge(r).wf(),
            r.calculators.len() == 2,
            r.calculators@[0] == Calculator::Balance(
                BalanceCalculator { merge_method: MergeMethod::FirstWins, today: None, scenario_context: None },
            ),
            r.calculators@[1] is Forecast,
            r.merge_method == MergeMethod::FirstWins,
    {
        let mut calculators: Vec<Calculator> = Vec::new();
        calculators.push(Calculator::Balance(BalanceCalculator::default()));
        calculators.push(Calculator::Forecast(ForecastCalculator::default()));
        assert(calculators@[0].wf() && calculators@[1].wf());
        MergeCalculator { calculators, merge_method: MergeMethod::FirstWins }
    }

    /// Computes each calculator (for a first-wins merge from the last to the
    /// first, for a sum merge from the first to the last) and merges their
    /// tables with the merge method; the first error met is returned as it is;
    /// merging by date split is refused before any calculator runs.
    fn compute_merged(
        &self,
        ledger: &Ledger,
        accounts: &Vec<Account>,
        start_date: Date,
        end_date: Date,
    ) -> (r: Result<BalanceFrame, ComputeError>)
        requires
            Calculator::Merge(*self).wf(),
            ledger.wf(),
            start_date.wf(),
            end_date.wf(),
            end_date.year < MAX_YEAR - 1,
        ensures
            Calculator::Merge(*self).outcome(*ledger, account_ids(accounts@), start_date, end_date, r),
            r matches Ok(f) ==> Calculator::Merge(*self).gives_decimals(
                *ledger,
                account_ids(accounts@),
                start_date,
                end_date,
                f.rows@,
            ),
        decreases Calculator::Merge(*self), 0nat,
    {
        let n = self.calculators.len();
        if n == 0 {
            return Ok(BalanceFrame::empty());
        }
        if n >= 2 && self.merge_method == MergeMethod::DateSplit {
            return Err(ComputeError::refused_merge());
        }
        if n == 1 {
            let r = self.calculators[0].compute_account_state(ledger, accounts, start_date, end_date);
            proof {
                if r is Err && r->Err_0.is_refused_merge() {
                    assert(self.calculators@[0].has_unsupported_merge());
                }
            }
            return r;
        }
        proof {
            if Calculator::Merge(*self).fits(*ledger, account_ids(accounts@), start_date, end_date) {
                assert(Calculator::Merge(*self).sound(*ledger, account_ids(accounts@), start_date, end_date)) by {
                    assert forall|q: int| 0 <= q < n implies (#[trigger] self.calculators@[q]).sound(
                        *ledger,
                        account_ids(accounts@),
                        start_date,
                        end_date,
                    ) by {
                        lemma_fits_sound(self.calculators@[q], *ledger, account_ids(accounts@), start_date, end_date);
                    }
                }
            }
        }
        let ghost ids = account_ids(accounts@);
        // A first-wins merge runs the calculators from the last to the first,
        // a sum merge from the first to the last.
        let backwards = self.merge_method == MergeMethod::FirstWins;
        let mut frames: Vec<BalanceFrame> = Vec::new();
        let mut k: usize = 0;
        while k < n
            invariant
                k <= n,
                frames.len() == k,
            decreases n - k,
        {
            frames.push(BalanceFrame::empty());
            k = k + 1;
        }
        let mut i: usize = 0;
        while i < n
            invariant
                n == self.calculators.len(),
                n >= 2,
                self.merge_method != MergeMethod::DateSplit,
                backwards == (self.merge_method == MergeMethod::FirstWins),
                i <= n,
                frames.len() == n,
                Calculator::Merge(*self).wf(),
                ledger.wf(),
                start_date.wf(),
                end_date.wf(),
                end_date.year < MAX_YEAR - 1,
                ids == account_ids(accounts@),
                forall|q: int|
                    0 <= q < n && (if backwards { n - i <= q } else { q < i }) ==> (#[trigger] frames[q]).wf()
                        && self.calculators@[q].produces(*ledger, ids, start_date, end_date, frames[q].view_rows())
                        && self.calculators@[q].gives_decimals(*ledger, ids, start_date, end_date, frames[q].rows@)
                        && (Calculator::Merge(*self).sound(*ledger, ids, start_date, end_date)
                        ==> !self.calculators@[q].refuses(*ledger, ids, start_date, end_date)),
            decreases n - i,
        {
            let idx = if backwards { n - 1 - i } else { i };
            let r = self.calculators[idx].compute_account_state(ledger, accounts, start_date, end_date);
            match r {
                Ok(f) => {
                    proof {
                        if Calculator::Merge(*self).sound(*ledger, ids, start_date, end_date) {
                            assert(self.calculators@[idx as int].sound(*ledger, ids, start_date, end_date));
                        }
                    }
                    frames.set(idx, f);
                },
                Err(e) => {
                    proof {
                        if e.is_refused_merge() {
                            assert(self.calculators@[idx as int].has_unsupported_merge());
                            assert(self.calculators@[idx as int].refuses(*ledger, ids, start_date, end_date));
                        }
                        if Calculator::Merge(*self).sound(*ledger, ids, start_date, end_date) {
                            assert(self.calculators@[idx as int].sound(*ledger, ids, start_date, end_date));
                        }
                    }
                    return Err(e);
                },
            }
            i = i + 1;
        }
        assert forall|q: int| 0 <= q < n implies (#[trigger] frames[q]).wf() && self.calculators@[q].produces(
            *ledger,
            ids,
            start_date,
            end_date,
            frames[q].view_rows(),
        ) && self.calculators@[q].gives_decimals(*ledger, ids, start_date, end_date, frames[q].rows@)
            && (Calculator::Merge(*self).sound(*ledger, ids, start_date, end_date)
            ==> !self.calculators@[q].refuses(*ledger, ids, start_date, end_date)) by {
            assert(i == n);
            assert(if backwards { n - i <= q } else { q < i });
            assert(frames[q].wf());
        }
        assert(Calculator::Merge(*self).sound(*ledger, ids, start_date, end_date) ==> !Calculator::Merge(
            *self,
        ).refuses(*ledger, ids, start_date, end_date)) by {
            if Calculator::Merge(*self).sound(*ledger, ids, start_date, end_date) {
                assert forall|q: int| 0 <= q < n implies !(#[trigger] self.calculators@[q]).refuses(
                    *ledger,
                    ids,
                    start_date,
                    end_date,
                ) by {
                    assert(frames[q].wf());
                }
            }
        }
        let ghost parts = frame_views(frames@);
        assert forall|q: int| 0 <= q < n implies (#[trigger] self.calculators@[q]).produces(
            *ledger,
            ids,
            start_date,
            end_date,
            parts[q],
        ) by {
            assert(parts[q] == frames[q].view_rows());
        }
        match self.merge_method {
            MergeMethod::Sum => {
                proof {
                    if Calculator::Merge(*self).sound(*ledger, ids, start_date, end_date) {
                        assert(sum_fits_for(self.calculators@, *ledger, ids, start_date, end_date));
                        assert forall|q: int| 0 <= q < frames@.len() implies (#[trigger] frames@[q]).wf()
                            && self.calculators@[q].produces(
                            *ledger,
                            ids,
                            start_date,
                            end_date,
                            frames@[q].view_rows(),
                        ) by {
                            assert(frames@[q] == frames[q]);
                        }
                        let fb = frame_balances(frames@);
                        assert(exists|scale: int| sums_exactly_at(fb, scale));
                    }
                }
                match merge_sum(&frames) {
                    Ok(out) => {
                        proof {
                            lemma_concat_views(frames@);
                            assert(merged_by(self.merge_method, parts, out.view_rows()));
                            let pr = frame_rows(frames@);
                            lemma_concat_rows(frames@);
                            assert forall|q: int| 0 <= q < n implies (#[trigger] self.calculators@[q]).produces(
                                *ledger,
                                ids,
                                start_date,
                                end_date,
                                pr[q].map_values(|x: BalanceRow| row_view(x)),
                            ) && self.calculators@[q].gives_decimals(*ledger, ids, start_date, end_date, pr[q]) by {
                                assert(pr[q] == frames[q].rows@);
                                assert(frames[q].wf());
                            }
                            assert(sum_merge_of(pr, out.rows@));
                        }
                        Ok(out)
                    },
                    Err(e) => Err(e),
                }
            },
            MergeMethod::FirstWins => {
                let out = merge_first_wins(&frames);
                assert(merged_by(self.merge_method, parts, out.view_rows()));
                proof {
                    let pr = frame_rows(frames@);
                    assert forall|q: int| 0 <= q < n implies (#[trigger] self.calculators@[q]).produces(
                        *ledger,
                        ids,
                        start_date,
                        end_date,
                        pr[q].map_values(|x: BalanceRow| row_view(x)),
                    ) && self.calculators@[q].gives_decimals(*ledger, ids, start_date, end_date, pr[q]) by {
                        assert(pr[q] == frames[q].rows@);
                        assert(frames[q].wf());
                    }
                    assert(first_wins_merge_of(pr, out.rows@));
                }
                Ok(out)
            },
            MergeMethod::DateSplit => Err(
                ComputeError::refused_merge(),
            ),
        }
    }
}

impl DateSplitCalculator {
    /// A date split without balance transfer.
    pub fn new(first_calculator: Calculator, second_calculator: Calculator, split_date: Date) -> (r:
        Self)
        ensures
            *r.first_calculator == first_calculator,
            *r.second_calculator == second_calculator,
            r.split_date == split_date,
            !r.transfer_balance,
    {
        DateSplitCalculator {
            first_calculator: Box::new(first_calculator),
            second_calculator: Box::new(second_calculator),
            split_date,
            transfer_balance: false,
        }
    }

    /// A date split with balance transfer from the first calculator to the second.
    pub fn new_with_balance_transfer(
        first_calculator: Calculator,
        second_calculator: Calculator,
        split_date: Date,
    ) -> (r: Self)
        ensures
            *r.first_calculator == first_calculator,
            *r.second_calculator == second_calculator,
            r.split_date == split_date,
            r.transfer_balance,
    {
        DateSplitCalculator {
            first_calculator: Box::new(first_calculator),
            second_calculator: Box::new(second_calculator),
            split_date,
            transfer_balance: true,
        }
    }

    /// A date split whose second calculator is made by `second_calculator_factory`
    /// from the balance on the split date that the first calculator computes
    /// ([`transfer_balance_of`]); balance transfer is enabled.  An error of the
    /// first calculator on the split date is handed on as it is
    /// ([`DateSplitCalculator::from_split_state`]); otherwise it fails only
    /// where the total balance on the split date overflows.
    pub fn new_with_balance_factory<F: FnOnce(Amount) -> Calculator>(
        first_calculator: Calculator,
        second_calculator_factory: F,
        split_date: Date,
        ledger: &Ledger,
        accounts: &Vec<Account>,
    ) -> (r: Result<Self, ComputeError>)
        requires
            first_calculator.wf(),
            ledger.wf(),
            split_date.wf(),
            split_date.year < MAX_YEAR - 1,
            forall|b: Amount| b.wf() ==> call_requires(second_calculator_factory, (b,)),
        ensures
            r matches Ok(d) ==> {
                &&& *d.first_calculator == first_calculator
                &&& d.split_date == split_date
                &&& d.transfer_balance
                &&& exists|f: BalanceFrame|
                    f.wf() && #[trigger] first_calculator.produces(
                        *ledger,
                        account_ids(accounts@),
                        split_date,
                        split_date,
                        f.view_rows(),
                    ) && (transfer_balance_of(split_balances(f.rows@, split_date), accounts@) matches Some(b)
                        && call_ensures(second_calculator_factory, (b,), *d.second_calculator))
            },
            r matches Err(e) ==> e.is_overflow() || (e.is_refused_merge() && first_calculator.has_unsupported_merge()),
            r matches Err(e) ==> first_calculator.outcome(
                *ledger,
                account_ids(accounts@),
                split_date,
                split_date,
                Err(e),
            ) || (e.is_overflow() && exists|f: BalanceFrame|
                f.wf() && #[trigger] first_calculator.produces(
                    *ledger,
                    account_ids(accounts@),
                    split_date,
                    split_date,
                    f.view_rows(),
                ) && transfer_balance_of(split_balances(f.rows@, split_date), accounts@) is None),
            (first_calculator.sound(*ledger, account_ids(accounts@), split_date, split_date)
                && first_calculator.refuses(*ledger, account_ids(accounts@), split_date, split_date)) ==> (r matches Err(
                e,
            ) && e.is_refused_merge()),
            r is Err ==> !first_calculator.fits(*ledger, account_ids(accounts@), split_date, split_date) || exists|
                f: BalanceFrame,
            |
                f.wf() && #[trigger] first_calculator.produces(
                    *ledger,
                    account_ids(accounts@),
                    split_date,
                    split_date,
                    f.view_rows(),
                ) && transfer_balance_of(split_balances(f.rows@, split_date), accounts@) is None,
    {
        let state = first_calculator.compute_account_state(ledger, accounts, split_date, split_date);
        DateSplitCalculator::from_split_state(first_calculator, second_calculator_factory, split_date, accounts, state)
    }

    /// The date split that [`DateSplitCalculator::new_with_balance_factory`]
    /// builds from `state`, the first calculator's table on the split date: an
    /// error there is handed on as it is and the factory is not used; else the
    /// second calculator is what the factory makes of the transferred balance
    /// ([`transfer_balance_of`]), and it fails only where that total overflows.
    pub fn from_split_state<F: FnOnce(Amount) -> Calculator>(
        first_calculator: Calculator,
        second_calculator_factory: F,
        split_date: Date,
        accounts: &Vec<Account>,
        state: Result<BalanceFrame, ComputeError>,
    ) -> (r: Result<Self, ComputeError>)
        requires
            state matches Ok(f) ==> f.wf(),
            forall|b: Amount| b.wf() ==> call_requires(second_calculator_factory, (b,)),
        ensures
            state matches Err(e) ==> r == Err::<Self, ComputeError>(e),
            state matches Ok(f) ==> {
                &&& r matches Ok(d) ==> {
                    &&& *d.first_calculator == first_calculator
                    &&& d.split_date == split_date
                    &&& d.transfer_balance
                    &&& transfer_balance_of(split_balances(f.rows@, split_date), accounts@) matches Some(b)
                        && call_ensures(second_calculator_factory, (b,), *d.second_calculator)
                }
                &&& r matches Err(e) ==> e.is_overflow()
                &&& r is Err <==> transfer_balance_of(split_balances(f.rows@, split_date), accounts@) is None
            },
    {
        let split_date_df = match state {
            Ok(f) => f,
            Err(e) => {
                return Err(e);
            },
        };
        let entries = collect_split_balances(&split_date_df, split_date);
        let balance = if accounts.len() == 1 && entries.len() == 1 {
            match position_of(&entries, accounts[0].id) {
                Some(k) => entries[k].1,
                None => Amount::zero(),
            }
        } else if entries.len() > 0 {
            let mut values: Vec<Amount> = Vec::new();
            let mut i: usize = 0;
            while i < entries.len()
                invariant
                    i <= entries.len(),
                    values@ == entries@.take(i as int).map_values(|e: (i32, Amount)| e.1),
                    forall|q: int| 0 <= q < entries.len() ==> (#[trigger] entries@[q]).1.wf(),
                decreases entries.len() - i,
            {
                values.push(entries[i].1);
                proof {
                    assert(entries@.take(i + 1).map_values(|e: (i32, Amount)| e.1) =~= entries@.take(
                        i as int,
                    ).map_values(|e: (i32, Amount)| e.1).push(entries@[i as int].1));
                }
                i = i + 1;
            }
            assert(entries@.take(entries.len() as int) == entries@);
            match crate::metrics::sum_amounts(&values) {
                Some(t) => t,
                None => {
                    return Err(ComputeError::decimal_overflow());
                },
            }
        } else {
            Amount::zero()
        };
        let second_calculator = second_calculator_factory(balance);
        Ok(
            DateSplitCalculator {
                first_calculator: Box::new(first_calculator),
                second_calculator: Box::new(second_calculator),
                split_date,
                transfer_balance: true,
            },
        )
    }

    /// Computes the first calculator before the split date and the second one
    /// from it on; a range on one side of the split date uses only that side's
    /// calculator.
    fn compute_split(
        &self,
        ledger: &Ledger,
        accounts: &Vec<Account>,
        start_date: Date,
        end_date: Date,
    ) -> (r: Result<BalanceFrame, ComputeError>)
        requires
            Calculator::DateSplit(*self).wf(),
            ledger.wf(),
            start_date.wf(),
            end_date.wf(),
            end_date.year < MAX_YEAR - 1,
        ensures
            Calculator::DateSplit(*self).outcome(*ledger, account_ids(accounts@), start_date, end_date, r),
            r matches Ok(f) ==> Calculator::DateSplit(*self).gives_decimals(
                *ledger,
                account_ids(accounts@),
                start_date,
                end_date,
                f.rows@,
            ),
        decreases Calculator::DateSplit(*self), 0nat,
    {
        if end_date.days < self.split_date.days {
            return self.first_calculator.compute_account_state(ledger, accounts, start_date, end_date);
        }
        if start_date.days >= self.split_date.days {
            return self.second_calculator.compute_account_state(ledger, accounts, start_date, end_date);
        }
        proof {
            lemma_not_first(self.split_date, start_date);
        }
        let before = chrono_pred(self.split_date).unwrap();
        proof {
            lemma_prev_day_value(self.split_date, before);
            lemma_year_monotone(before, end_date);
        }
        let first = match self.first_calculator.compute_account_state(
            ledger,
            accounts,
            start_date,
            before,
        ) {
            Ok(f) => f,
            Err(e) => {
                return Err(e);
            },
        };
        let second = match self.second_calculator.compute_account_state(
            ledger,
            accounts,
            self.split_date,
            end_date,
        ) {
            Ok(f) => f,
            Err(e) => {
                return Err(e);
            },
        };
        let mut rows = first.rows;
        let mut more = second.rows;
        let ghost a = rows@;
        let ghost b = more@;
        rows.append(&mut more);
        let out = BalanceFrame { rows };
        assert(out.view_rows() =~= first.view_rows() + second.view_rows());
        Ok(out)
    }
}

/// The position of the entry of account `id`, if any.
pub open spec fn entry_of(entries: Seq<(i32, Amount)>, id: i32) -> Option<int>
    decreases entries.len(),
{
    if entries.len() == 0 {
        None
    } else if entries.last().0 == id {
        Some(entries.len() - 1)
    } else {
        entry_of(entries.drop_last(), id)
    }
}

/// The balances on the split date by account: for each account with a row dated
/// `split`, the balance of its last such row, in the order in which the
/// accounts first occur.
pub open spec fn split_balances(rows: Seq<BalanceRow>, split: Date) -> Seq<(i32, Amount)>
    decreases rows.len(),
{
    if rows.len() == 0 {
        seq![]
    } else {
        let prev = split_balances(rows.drop_last(), split);
        let x = rows.last();
        if x.date.days != split.days {
            prev
        } else {
            match entry_of(prev, x.account_id) {
                Some(k) => prev.update(k, (x.account_id, x.balance)),
                None => prev.push((x.account_id, x.balance)),
            }
        }
    }
}

/// The balance handed to the second calculator: with one account and one
/// balance, that account's balance (zero when the balance is another
/// account's); otherwise the sum of the balances in order (zero without any);
/// `None` when the sum does not fit.
pub open spec fn transfer_balance_of(entries: Seq<(i32, Amount)>, accounts: Seq<Account>) -> Option<Amount> {
    if accounts.len() == 1 && entries.len() == 1 {
        match entry_of(entries, accounts[0].id) {
            Some(k) => Some(entries[k].1),
            None => Some(Amount { mantissa: 0, scale: 0 }),
        }
    } else if entries.len() > 0 {
        crate::metrics::total_of(entries.map_values(|e: (i32, Amount)| e.1))
    } else {
        Some(Amount { mantissa: 0, scale: 0 })
    }
}

proof fn lemma_entry_of(entries: Seq<(i32, Amount)>, id: i32)
    ensures
        entry_of(entries, id) matches Some(k) ==> 0 <= k < entries.len() && entries[k].0 == id,
    decreases entries.len(),
{
    if entries.len() > 0 {
        lemma_entry_of(entries.drop_last(), id);
    }
}

/// The position of the entry of account `id` ([`entry_of`]).
fn position_of(entries: &Vec<(i32, Amount)>, id: i32) -> (r: Option<usize>)
    ensures
        r matches Some(k) ==> entry_of(entries@, id) == Some(k as int) && k < entries.len(),
        r is None ==> entry_of(entries@, id) is None,
{
    let mut k = entries.len();
    while k > 0
        invariant
            k <= entries.len(),
            entry_of(entries@, id) == entry_of(entries@.take(k as int), id),
        decreases k,
    {
        assert(entries@.take(k as int).drop_last() == entries@.take(k - 1));
        assert(entries@.take(k as int).last() == entries@[k - 1]);
        if entries[k - 1].0 == id {
            return Some(k - 1);
        }
        k = k - 1;
    }
    None
}

/// The balances on the split date by account ([`split_balances`]).
fn collect_split_balances(frame: &BalanceFrame, split: Date) -> (r: Vec<(i32, Amount)>)
    requires
        frame.wf(),
    ensures
        r@ == split_balances(frame.rows@, split),
        forall|q: int| 0 <= q < r.len() ==> (#[trigger] r@[q]).1.wf(),
{
    let mut entries: Vec<(i32, Amount)> = Vec::new();
    let mut i: usize = 0;
    while i < frame.rows.len()
        invariant
            i <= frame.rows.len(),
            frame.wf(),
            entries@ == split_balances(frame.rows@.take(i as int), split),
            forall|q: int| 0 <= q < entries.len() ==> (#[trigger] entries@[q]).1.wf(),
        decreases frame.rows.len() - i,
    {
        let x = frame.rows[i];
        assert(frame.rows@.take(i + 1).drop_last() == frame.rows@.take(i as int));
        assert(frame.rows@.take(i + 1).last() == x);
        assert(frame.rows@[i as int].wf());
        if x.date.days == split.days {
            match position_of(&entries, x.account_id) {
                Some(k) => {
                    proof {
                        lemma_entry_of(entries@, x.account_id);
                    }
                    entries.set(k, (x.account_id, x.balance));
                },
                None => {
                    entries.push((x.account_id, x.balance));
                },
            }
        }
        i = i + 1;
    }
    assert(frame.rows@.take(frame.rows.len() as int) == frame.rows@);
    entries
}

/// The compute configuration used most of the time: the balance calculator with
/// the given today (or the current date), summed with the unpaid-recurring
/// calculator that moves past-due items seven days after today.
pub fn default_compute(today: Option<Date>) -> (r: MergeCalculator)
    ensures
        r.merge_method == MergeMethod::Sum,
        r.calculators.len() == 2,
        r.calculators@[0] is Balance,
        r.calculators@[1] is UnpaidRecurring,
        today matches Some(t) ==> r.calculators@[0] == Calculator::Balance(BalanceCalculator {
            merge_method: MergeMethod::FirstWins,
            today: Some(t),
            scenario_context: None,
        }) && r.calculators@[1] == Calculator::UnpaidRecurring(UnpaidRecurringCalculator {
            merge_method: MergeMethod::Sum,
            today: t,
            future_offset_days: 7,
        }),
        today matches Some(t) ==> (usable_today(t, 7) ==> Calculator::Merge(r).wf()),
{
    let today = match today {
        Some(t) => t,
        None => utc_today(),
    };
    let balance_calculator = BalanceCalculator::new_with_today(MergeMethod::FirstWins, today);
    let unpaid_calculator = UnpaidRecurringCalculator::new_with_sum_merge(today, 7);
    let mut calculators: Vec<Calculator> = Vec::new();
    calculators.push(Calculator::Balance(balance_calculator));
    calculators.push(Calculator::UnpaidRecurring(unpaid_calculator));
    assert(usable_today(today, 7) ==> calculators@[0].wf() && calculators@[1].wf());
    MergeCalculator::new(calculators, MergeMethod::Sum)
}

// ---------------------------------------------------------------------------
// Trusted items: the clock
// ---------------------------------------------------------------------------

/// Calls `chrono::Utc::now().date_naive()`: the current date in UTC.  Which date
/// that is depends on the clock; only that it is a supported date is stated.
#[verifier::external_body]
pub(crate) fn utc_today() -> (r: Date)
    ensures
        r.wf(),
{
    let nd = chrono::Utc::now().date_naive();
    Date { days: nd.num_days_from_ce(), year: nd.year(), month: nd.month(), day: nd.day() }
}

/// Calls `chrono::Local::now().date_naive()`: the current date in the local time
/// zone.  Which date that is depends on the clock and the time zone; only that it
/// is a supported date is stated.
#[verifier::external_body]
fn local_today() -> (r: Date)
    ensures
        r.wf(),
{
    let nd = chrono::Local::now().date_naive();
    Date { days: nd.num_days_from_ce(), year: nd.year(), month: nd.month(), day: nd.day() }
}

} // verus!
