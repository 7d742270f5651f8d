//! Recurrence schedules: the dates on which a recurring transaction or income
//! falls within a date range.

use crate::calendar::{
    chrono_succ, checked_add_days, days_in_month, weekday_from_monday, Date, MAX_YEAR, date_of, date_plus, lemma_next_date, lemma_ordinal_bounds, lemma_ordinal_monotone,
    month_length, next_date, valid_ymd, weekday_of, ymd_lt, has_ymd, is_next_day,
};
use vstd::prelude::*;

verus! {

/// How often a recurring item repeats.
#[derive(Clone, Copy, Debug, PartialEq, Eq, Structural, Hash)]
pub enum RecurrencePeriod {
    Daily,
    Weekly,
    /// Every working day (Monday to Friday).
    WorkDay,
    Monthly,
    Quarterly,
    HalfYearly,
    Yearly,
}

pub open spec fn min_int(a: int, b: int) -> int {
    if a <= b { a } else { b }
}

/// The date `k` months after `d`, with the day clamped to the length of the
/// target month.
pub open spec fn months_later(d: Date, k: int) -> Date {
    let t = d.month - 1 + k;
    let y = d.year + t / 12;
    let m = t % 12 + 1;
    date_of(y, m, min_int(d.day as int, month_length(y, m)))
}

/// Number of weekend days to skip from `x` to reach a working day.
pub open spec fn weekend_left(x: Date) -> nat {
    if weekday_of(x.days as int) == 5 {
        2
    } else if weekday_of(x.days as int) == 6 {
        1
    } else {
        0
    }
}

/// From `x`, move forward over `n` more weekend days.
pub open spec fn skip_weekend(x: Date, n: nat) -> Date
    decreases n,
{
    if n == 0 {
        x
    } else {
        skip_weekend(next_date(x), (n - 1) as nat)
    }
}

/// The first working day after `d`.
pub open spec fn next_work_day(d: Date) -> Date {
    skip_weekend(next_date(d), weekend_left(next_date(d)))
}

/// The occurrence that follows `d` in a schedule with the given period.
pub open spec fn step_date(p: RecurrencePeriod, d: Date) -> Date {
    match p {
        RecurrencePeriod::Daily => next_date(d),
        RecurrencePeriod::Weekly => date_plus(d, 7),
        RecurrencePeriod::WorkDay => next_work_day(d),
        RecurrencePeriod::Monthly => months_later(d, 1),
        RecurrencePeriod::Quarterly => months_later(d, 3),
        RecurrencePeriod::HalfYearly => months_later(d, 6),
        RecurrencePeriod::Yearly => months_later(d, 12),
    }
}

/// The occurrences from `cur` onwards: those between `range_start` and
/// `range_end`, stopping once the schedule passes `end` (the current date itself
/// is kept even when it lies after `end`).
pub open spec fn occurrences_from(
    cur: Date,
    p: RecurrencePeriod,
    end: Option<Date>,
    range_start: Date,
    range_end: Date,
) -> Seq<Date>
    decreases range_end.days - cur.days,
{
    if cur.days > range_end.days {
        seq![]
    } else {
        let head = if cur.days >= range_start.days { seq![cur] } else { seq![] };
        let nxt = step_date(p, cur);
        if nxt.days <= cur.days || nxt.days > range_end.days || (end matches Some(e) && nxt.days
            > e.days) {
            head
        } else {
            head + occurrences_from(nxt, p, end, range_start, range_end)
        }
    }
}

/// The occurrence dates of an item that starts on `start`, optionally ends on
/// `end`, and repeats with period `p`, restricted to `[range_start, range_end]`.
pub open spec fn occurrences(
    start: Date,
    end: Option<Date>,
    p: RecurrencePeriod,
    range_start: Date,
    range_end: Date,
) -> Seq<Date> {
    if end matches Some(e) && e.days < range_start.days {
        seq![]
    } else {
        occurrences_from(start, p, end, range_start, range_end)
    }
}

proof fn lemma_months_later(d: Date, k: int)
    requires
        d.wf(),
        1 <= k <= 12,
        d.year < MAX_YEAR,
    ensures
        months_later(d, k).wf(),
        months_later(d, k).days > d.days,
{
    let t = d.month - 1 + k;
    let y = d.year + t / 12;
    let m = t % 12 + 1;
    let dd = min_int(d.day as int, month_length(y, m));
    assert(valid_ymd(y, m, dd));
    assert(ymd_lt(d.year as int, d.month as int, d.day as int, y, m, dd));
    lemma_ordinal_monotone(d.year as int, d.month as int, d.day as int, y, m, dd);
    lemma_ordinal_bounds(y, m, dd);
}

/// Every step of a schedule moves strictly forward and stays a valid date.
pub proof fn lemma_step_date(p: RecurrencePeriod, d: Date)
    requires
        d.wf(),
        d.year < MAX_YEAR,
    ensures
        step_date(p, d).wf(),
        step_date(p, d).days > d.days,
        step_date(p, d).year <= d.year + 1,
{
    match p {
        RecurrencePeriod::Daily => {
            lemma_next_date(d);
        },
        RecurrencePeriod::Weekly => {
            lemma_date_plus(d, 7);
        },
        RecurrencePeriod::WorkDay => {
            lemma_next_date(d);
            let n = next_date(d);
            lemma_skip_weekend_aux2(n);
        },
        RecurrencePeriod::Monthly => {
            lemma_months_later(d, 1);
        },
        RecurrencePeriod::Quarterly => {
            lemma_months_later(d, 3);
        },
        RecurrencePeriod::HalfYearly => {
            lemma_months_later(d, 6);
        },
        RecurrencePeriod::Yearly => {
            lemma_months_later(d, 12);
        },
    }
}

proof fn lemma_skip_weekend_aux2(n: Date)
    requires
        n.wf(),
        n.year <= MAX_YEAR,
        n.year == MAX_YEAR ==> n.month == 1 && n.day == 1,
    ensures
        skip_weekend(n, weekend_left(n)).wf(),
        skip_weekend(n, weekend_left(n)).days >= n.days,
        skip_weekend(n, weekend_left(n)).year <= n.year + 1,
        n.month == 1 ==> skip_weekend(n, weekend_left(n)).year == n.year,
{
    reveal_with_fuel(skip_weekend, 3);
    let w = weekend_left(n);
    if w >= 1 {
        lemma_next_date(n);
        let n1 = next_date(n);
        if w == 2 {
            lemma_next_date(n1);
        }
    }
}

proof fn lemma_date_plus(d: Date, n: nat)
    requires
        d.wf(),
        d.year < MAX_YEAR,
        n <= 31,
    ensures
        date_plus(d, n).wf(),
        date_plus(d, n).days == d.days + n,
        date_plus(d, n).year <= d.year + 1,
        date_plus(d, n).year == d.year + 1 ==> date_plus(d, n).month == 1 && date_plus(d, n).day <= n,
    decreases n,
{
    if n > 0 {
        lemma_date_plus(d, (n - 1) as nat);
        let x = date_plus(d, (n - 1) as nat);
        lemma_next_date(x);
    }
}


proof fn lemma_year_bound(d: Date, e: Date)
    requires
        d.wf(),
        e.wf(),
        d.days <= e.days,
    ensures
        d.year <= e.year,
{
    if d.year > e.year {
        lemma_ordinal_monotone(
            e.year as int,
            e.month as int,
            e.day as int,
            d.year as int,
            d.month as int,
            d.day as int,
        );
    }
}

proof fn lemma_before_last_year(d: Date)
    requires
        d.wf(),
        d.year < MAX_YEAR,
    ensures
        d.days + 31 <= 95745399,
{
    reveal_with_fuel(crate::calendar::days_before_month, 13);
    assert(crate::calendar::ordinal(MAX_YEAR as int, 1, 1) == 95745035);
    lemma_ordinal_monotone(d.year as int, d.month as int, d.day as int, MAX_YEAR as int, 1, 1);
}

proof fn lemma_next_is_next_date(d: Date, x: Date)
    requires
        d.wf(),
        x.wf(),
        is_next_day(d, x),
    ensures
        x == next_date(d),
{
}

/// The date `k` months after `d` (1 <= k <= 12), with the day clamped to the
/// length of the target month.
fn add_months(d: Date, k: u32) -> (r: Date)
    requires
        d.wf(),
        d.year < MAX_YEAR - 1,
        1 <= k <= 12,
    ensures
        r == months_later(d, k as int),
        r.wf(),
{
    let total = d.month - 1 + k;
    let year = d.year + (total / 12) as i32;
    let month = (total % 12) + 1;
    let len = days_in_month(year, month);
    let day = if d.day < len { d.day } else { len };
    let r = Date::from_ymd(year, month, day);
    proof {
        lemma_months_later(d, k as int);
    }
    r.unwrap()
}

/// The occurrence that follows `d` in a schedule with period `p`.
pub fn next_occurrence(d: Date, p: RecurrencePeriod) -> (r: Date)
    requires
        d.wf(),
        d.year < MAX_YEAR - 1,
    ensures
        r == step_date(p, d),
        r.wf(),
        r.days > d.days,
        r.year <= d.year + 1,
{
    proof {
        lemma_step_date(p, d);
    }
    match p {
        RecurrencePeriod::Daily => {
            proof {
                lemma_next_date(d);
            }
            let x = chrono_succ(d).unwrap();
            proof {
                lemma_next_is_next_date(d, x);
            }
            x
        },
        RecurrencePeriod::Weekly => {
            proof {
                lemma_date_plus(d, 7);
                lemma_before_last_year(d);
            }
            checked_add_days(d, 7).unwrap()
        },
        RecurrencePeriod::WorkDay => {
            proof {
                lemma_next_date(d);
            }
            let mut cur = chrono_succ(d).unwrap();
            proof {
                lemma_next_is_next_date(d, cur);
            }
            let ghost first = cur;
            while weekday_from_monday(cur) >= 5
                invariant
                    cur.wf(),
                    first == next_date(d),
                    skip_weekend(cur, weekend_left(cur)) == next_work_day(d),
                    cur.days - first.days + weekend_left(cur) == weekend_left(first),
                    cur.year <= MAX_YEAR,
                    cur.year == MAX_YEAR ==> cur.month == 1 && cur.day <= 3,
                decreases weekend_left(cur),
            {
                proof {
                    lemma_next_date(cur);
                }
                let nxt = chrono_succ(cur).unwrap();
                proof {
                    lemma_next_is_next_date(cur, nxt);
                }
                assert(weekday_of(nxt.days as int) == (weekday_of(cur.days as int) + 1) % 7);
                cur = nxt;
            }
            cur
        },
        RecurrencePeriod::Monthly => add_months(d, 1),
        RecurrencePeriod::Quarterly => add_months(d, 3),
        RecurrencePeriod::HalfYearly => add_months(d, 6),
        RecurrencePeriod::Yearly => add_months(d, 12),
    }
}

/// Generates occurrence dates for a recurring event within the given date range.
///
/// The schedule starts on `start_date` and repeats with `period`; it stops once
/// it passes `end_date`.  Only dates within `[range_start, range_end]` are
/// returned, in increasing order.
pub fn generate_occurrences(
    start_date: Date,
    end_date: Option<Date>,
    period: &RecurrencePeriod,
    range_start: Date,
    range_end: Date,
) -> (r: Vec<Date>)
    requires
        start_date.wf(),
        range_start.wf(),
        range_end.wf(),
        end_date matches Some(e) ==> e.wf(),
        range_end.year < MAX_YEAR - 1,
    ensures
        r@ == occurrences(start_date, end_date, *period, range_start, range_end),
        forall|i: int| 0 <= i < r.len() ==> (#[trigger] r[i]).wf(),
{
    let mut occ: Vec<Date> = Vec::new();
    if let Some(end) = end_date {
        if end.days < range_start.days {
            return occ;
        }
    }
    let ghost total = occurrences_from(start_date, *period, end_date, range_start, range_end);
    let mut current = start_date;
    while current.days <= range_end.days
        invariant_except_break
            current.wf(),
            range_end.wf(),
            range_start.wf(),
            range_end.year < MAX_YEAR - 1,
            occ@ + occurrences_from(current, *period, end_date, range_start, range_end) == total,
            forall|i: int| 0 <= i < occ.len() ==> (#[trigger] occ[i]).wf(),
        ensures
            occ@ == total,
            forall|i: int| 0 <= i < occ.len() ==> (#[trigger] occ[i]).wf(),
        decreases (if current.days > range_end.days {
            0
        } else {
            range_end.days - current.days + 1
        }),
    {
        proof {
            lemma_year_bound(current, range_end);
            lemma_step_date(*period, current);
        }
        let ghost before = current;
        if current.days >= range_start.days {
            occ.push(current);
        }
        current = next_occurrence(current, *period);
        assert(occ@ + occurrences_from(current, *period, end_date, range_start, range_end) == total
            || current.days > range_end.days || (end_date matches Some(e) && current.days > e.days));
        if let Some(end) = end_date {
            if current.days > end.days {
                assert(occ@ == total);
                break;
            }
        }
    }
    occ
}

/// The occurrences from `cur` on lie within the range, on or after `cur`, in
/// strictly increasing order.
proof fn lemma_occurrences_from_ordered(
    cur: Date,
    p: RecurrencePeriod,
    end: Option<Date>,
    range_start: Date,
    range_end: Date,
)
    requires
        cur.wf(),
        range_end.wf(),
        range_end.year < MAX_YEAR - 1,
    ensures
        ({
            let occ = occurrences_from(cur, p, end, range_start, range_end);
            &&& forall|i: int|
                0 <= i < occ.len() ==> range_start.days <= (#[trigger] occ[i]).days <= range_end.days && cur.days
                    <= occ[i].days && occ[i].wf()
            &&& forall|i: int, j: int| 0 <= i < j < occ.len() ==> (#[trigger] occ[i]).days < (#[trigger] occ[j]).days
        }),
    decreases range_end.days - cur.days,
{
    if cur.days <= range_end.days {
        lemma_year_bound(cur, range_end);
        lemma_step_date(p, cur);
        let nxt = step_date(p, cur);
        if !(nxt.days <= cur.days || nxt.days > range_end.days || (end matches Some(e) && nxt.days > e.days)) {
            lemma_occurrences_from_ordered(nxt, p, end, range_start, range_end);
            let head: Seq<Date> = if cur.days >= range_start.days { seq![cur] } else { seq![] };
            let rest = occurrences_from(nxt, p, end, range_start, range_end);
            let occ = occurrences_from(cur, p, end, range_start, range_end);
            assert(occ == head + rest);
            assert forall|i: int, j: int| 0 <= i < j < occ.len() implies (#[trigger] occ[i]).days < (
            #[trigger] occ[j]).days by {
                if i >= head.len() {
                    assert(occ[i] == rest[i - head.len()]);
                    assert(occ[j] == rest[j - head.len()]);
                } else {
                    assert(occ[j] == rest[j - head.len()]);
                }
            }
            assert forall|i: int| 0 <= i < occ.len() implies range_start.days <= (#[trigger] occ[i]).days
                <= range_end.days && cur.days <= occ[i].days && occ[i].wf() by {
                if i >= head.len() {
                    assert(occ[i] == rest[i - head.len()]);
                }
            }
        }
    }
}

/// The occurrences of a schedule within a range lie in the range, on or after
/// the start of the schedule, in strictly increasing order.
pub proof fn law_occurrences_are_ordered_in_range(
    start: Date,
    end: Option<Date>,
    p: RecurrencePeriod,
    range_start: Date,
    range_end: Date,
)
    requires
        start.wf(),
        range_end.wf(),
        range_end.year < MAX_YEAR - 1,
    ensures
        ({
            let occ = occurrences(start, end, p, range_start, range_end);
            &&& forall|i: int|
                0 <= i < occ.len() ==> range_start.days <= (#[trigger] occ[i]).days <= range_end.days
                    && start.days <= occ[i].days
            &&& forall|i: int, j: int| 0 <= i < j < occ.len() ==> (#[trigger] occ[i]).days < (#[trigger] occ[j]).days
        }),
{
    lemma_occurrences_from_ordered(start, p, end, range_start, range_end);
}

} // verus!
