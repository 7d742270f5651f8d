//! Merging the tables of several calculators.
//!
//! A table holds at most one balance per (account, date) key after merging:
//! with [`MergeMethod::Sum`] the balances of a key are added up, with
//! [`MergeMethod::FirstWins`] the first calculator that has a key decides it.

use crate::amount::{
    abs_int, aligned, lemma_add_to_entry, lemma_fits_within, lemma_magnitude_member, lemma_magnitude_nonneg,
    lemma_magnitude_prefix, magnitude_at, sums_exactly_at, Amount, MAX_MANTISSA,
};
use crate::balance::{added, row_view, BalanceFrame, BalanceRow};
use crate::calendar::{lemma_days_determine_date, Date};
use crate::error::ComputeError;
use std::collections::HashMap;
use vstd::prelude::*;

verus! {

broadcast use {vstd::seq_lib::group_seq_properties, vstd::std_specs::hash::group_hash_axioms};

/// Strategy for merging the tables of several calculators.
#[derive(Clone, Copy, Debug, PartialEq, Eq, Structural)]
pub enum MergeMethod {
    /// Use the first calculator that returns a value for a given account and date.
    FirstWins,
    /// Sum the amounts from the different calculators for each account and date.
    Sum,
    /// Use one calculator before a split date and another one from it on.
    DateSplit,
}

/// The (account id, date) key of a row.
pub open spec fn key_of(r: (i32, Date, int)) -> (i32, Date) {
    (r.0, r.1)
}

/// Some row has the key.
pub open spec fn has_key(rows: Seq<(i32, Date, int)>, k: (i32, Date)) -> bool {
    exists|i: int| 0 <= i < rows.len() && key_of(#[trigger] rows[i]) == k
}

/// No two rows share a key.
pub open spec fn distinct_keys(rows: Seq<(i32, Date, int)>) -> bool {
    forall|i: int, j: int|
        0 <= i < j < rows.len() ==> key_of(#[trigger] rows[i]) != key_of(#[trigger] rows[j])
}

/// Sum of the balances of the rows with key `k`.
pub open spec fn key_total(rows: Seq<(i32, Date, int)>, k: (i32, Date)) -> int
    decreases rows.len(),
{
    if rows.len() == 0 {
        0
    } else {
        key_total(rows.drop_last(), k) + (if key_of(rows.last()) == k {
            rows.last().2
        } else {
            0
        })
    }
}

/// The balance of the last row with key `k`, if any.
pub open spec fn last_value(rows: Seq<(i32, Date, int)>, k: (i32, Date)) -> Option<int>
    decreases rows.len(),
{
    if rows.len() == 0 {
        None
    } else if key_of(rows.last()) == k {
        Some(rows.last().2)
    } else {
        last_value(rows.drop_last(), k)
    }
}

/// The balance that wins for key `k` when the first table that has the key
/// decides it (within that table, its last row with the key).
pub open spec fn first_wins_value(parts: Seq<Seq<(i32, Date, int)>>, k: (i32, Date)) -> Option<int>
    decreases parts.len(),
{
    if parts.len() == 0 {
        None
    } else {
        match first_wins_value(parts.drop_last(), k) {
            Some(v) => Some(v),
            None => last_value(parts.last(), k),
        }
    }
}

/// The rows of the tables, one table after another.
pub open spec fn concat_views(frames: Seq<BalanceFrame>) -> Seq<(i32, Date, int)>
    decreases frames.len(),
{
    if frames.len() == 0 {
        seq![]
    } else {
        concat_views(frames.drop_last()) + frames.last().view_rows()
    }
}

/// The rows of each table.
pub open spec fn frame_views(frames: Seq<BalanceFrame>) -> Seq<Seq<(i32, Date, int)>> {
    frames.map_values(|f: BalanceFrame| f.view_rows())
}

/// The rows of the tables, one after another.
pub open spec fn flatten(parts: Seq<Seq<(i32, Date, int)>>) -> Seq<(i32, Date, int)>
    decreases parts.len(),
{
    if parts.len() == 0 {
        seq![]
    } else {
        flatten(parts.drop_last()) + parts.last()
    }
}

pub proof fn lemma_concat_views(frames: Seq<BalanceFrame>)
    ensures
        concat_views(frames) == flatten(frame_views(frames)),
    decreases frames.len(),
{
    if frames.len() > 0 {
        assert(frame_views(frames).drop_last() == frame_views(frames.drop_last()));
        lemma_concat_views(frames.drop_last());
    }
}

/// `out` is the sum-merge of `input`: each key of the input appears exactly
/// once, with the sum of the input balances of that key.
pub open spec fn sum_merged(input: Seq<(i32, Date, int)>, out: Seq<(i32, Date, int)>) -> bool {
    &&& distinct_keys(out)
    &&& forall|i: int| 0 <= i < out.len() ==> (#[trigger] out[i]).2 == key_total(input, key_of(out[i]))
    &&& forall|k: (i32, Date)| has_key(input, k) <==> has_key(out, k)
}

/// `out` is the first-wins merge of the tables `parts`: each key of any table
/// appears exactly once, with the balance given by [`first_wins_value`].
pub open spec fn first_wins_merged(parts: Seq<Seq<(i32, Date, int)>>, out: Seq<(i32, Date, int)>) -> bool {
    &&& distinct_keys(out)
    &&& forall|i: int|
        0 <= i < out.len() ==> first_wins_value(parts, key_of(#[trigger] out[i])) == Some(out[i].2)
    &&& forall|k: (i32, Date)| first_wins_value(parts, k) is Some <==> has_key(out, k)
}

proof fn lemma_key_total_push(rows: Seq<(i32, Date, int)>, x: (i32, Date, int), k: (i32, Date))
    ensures
        key_total(rows.push(x), k) == key_total(rows, k) + (if key_of(x) == k {
            x.2
        } else {
            0
        }),
{
    assert(rows.push(x).drop_last() == rows);
}

proof fn lemma_has_key_push(rows: Seq<(i32, Date, int)>, x: (i32, Date, int), k: (i32, Date))
    ensures
        has_key(rows.push(x), k) <==> (has_key(rows, k) || key_of(x) == k),
{
    if has_key(rows, k) {
        let i = choose|i: int| 0 <= i < rows.len() && key_of(#[trigger] rows[i]) == k;
        assert(rows.push(x)[i] == rows[i]);
    }
    if key_of(x) == k {
        assert(rows.push(x)[rows.len() as int] == x);
    }
    if has_key(rows.push(x), k) {
        let i = choose|i: int| 0 <= i < rows.push(x).len() && key_of(#[trigger] rows.push(x)[i]) == k;
        if i < rows.len() {
            assert(rows[i] == rows.push(x)[i]);
        }
    }
}

proof fn lemma_last_value_push(rows: Seq<(i32, Date, int)>, x: (i32, Date, int), k: (i32, Date))
    ensures
        last_value(rows.push(x), k) == (if key_of(x) == k {
            Some(x.2)
        } else {
            last_value(rows, k)
        }),
{
    assert(rows.push(x).drop_last() == rows);
}

/// One number per (account, day) key.
pub open spec fn key_code(account_id: i32, days: i32) -> u64 {
    ((account_id + 0x8000_0000) * 0x1_0000_0000 + (days + 0x8000_0000)) as u64
}

/// Different keys have different numbers.
proof fn lemma_key_code_injective(a1: i32, d1: i32, a2: i32, d2: i32)
    requires
        key_code(a1, d1) == key_code(a2, d2),
    ensures
        a1 == a2,
        d1 == d2,
{
    let h1 = a1 + 0x8000_0000;
    let h2 = a2 + 0x8000_0000;
    let l1 = d1 + 0x8000_0000;
    let l2 = d2 + 0x8000_0000;
    assert(0 <= h1 * 0x1_0000_0000 + l1 <= 0xffff_ffff_ffff_ffff) by (nonlinear_arith)
        requires
            0 <= h1 < 0x1_0000_0000,
            0 <= l1 < 0x1_0000_0000,
    ;
    assert(0 <= h2 * 0x1_0000_0000 + l2 <= 0xffff_ffff_ffff_ffff) by (nonlinear_arith)
        requires
            0 <= h2 < 0x1_0000_0000,
            0 <= l2 < 0x1_0000_0000,
    ;
    assert(h1 == h2 && l1 == l2) by (nonlinear_arith)
        requires
            0 <= h1 < 0x1_0000_0000,
            0 <= l1 < 0x1_0000_0000,
            0 <= h2 < 0x1_0000_0000,
            0 <= l2 < 0x1_0000_0000,
            h1 * 0x1_0000_0000 + l1 == h2 * 0x1_0000_0000 + l2,
    ;
}

/// The number of the key (`account_id`, `days`).
fn key_code_of(account_id: i32, days: i32) -> (r: u64)
    ensures
        r == key_code(account_id, days),
{
    let hi: u64 = (account_id as i64 + 0x8000_0000i64) as u64;
    let lo: u64 = (days as i64 + 0x8000_0000i64) as u64;
    assert(hi * 0x1_0000_0000 + lo <= 0xffff_ffff_ffff_ffff) by (nonlinear_arith)
        requires
            hi < 0x1_0000_0000,
            lo < 0x1_0000_0000,
    ;
    hi * 0x1_0000_0000 + lo
}

/// The index maps the number of each row's key to a row with that key.
pub open spec fn indexes(index: Map<u64, usize>, out: Seq<BalanceRow>) -> bool {
    &&& forall|c: u64|
        #[trigger] index.contains_key(c) ==> index[c] < out.len() && key_code(
            out[index[c] as int].account_id,
            out[index[c] as int].date.days,
        ) == c
    &&& forall|i: int| 0 <= i < out.len() ==> index.contains_key(key_code((#[trigger] out[i]).account_id, out[i].date.days))
}

/// Replacing a row by one with the same key keeps the index.
proof fn lemma_indexes_set(index: Map<u64, usize>, out: Seq<BalanceRow>, j: int, x: BalanceRow)
    requires
        indexes(index, out),
        0 <= j < out.len(),
        x.account_id == out[j].account_id,
        x.date.days == out[j].date.days,
    ensures
        indexes(index, out.update(j, x)),
{
    let u = out.update(j, x);
    assert forall|c: u64| #[trigger] index.contains_key(c) implies index[c] < u.len() && key_code(
        u[index[c] as int].account_id,
        u[index[c] as int].date.days,
    ) == c by {
        if index[c] as int != j {
            assert(u[index[c] as int] == out[index[c] as int]);
        }
    }
    assert forall|i: int| 0 <= i < u.len() implies index.contains_key(key_code((#[trigger] u[i]).account_id, u[i].date.days)) by {
        if i != j {
            assert(u[i] == out[i]);
        } else {
            assert(index.contains_key(key_code(out[j].account_id, out[j].date.days)));
        }
    }
}

/// Appends a row whose key no row has yet, and indexes it.
fn push_indexed(out: &mut Vec<BalanceRow>, index: &mut HashMap<u64, usize>, row: BalanceRow)
    requires
        indexes(old(index)@, old(out)@),
        !has_key(old(out)@.map_values(|x: BalanceRow| row_view(x)), (row.account_id, row.date)),
        row.date.wf(),
        forall|i: int| 0 <= i < old(out).len() ==> (#[trigger] old(out)[i]).wf(),
    ensures
        final(out)@ == old(out)@.push(row),
        indexes(final(index)@, final(out)@),
{
    let ghost before = out@;
    let ghost old_index = index@;
    let code = key_code_of(row.account_id, row.date.days);
    let n = out.len();
    out.push(row);
    index.insert(code, n);
    proof {
        let u = out@;
        assert forall|c: u64| #[trigger] index@.contains_key(c) implies index@[c] < u.len() && key_code(
            u[index@[c] as int].account_id,
            u[index@[c] as int].date.days,
        ) == c by {
            if c != code {
                assert(old_index.contains_key(c));
                assert(u[old_index[c] as int] == before[old_index[c] as int]);
            }
        }
        assert forall|i: int| 0 <= i < u.len() implies index@.contains_key(key_code((#[trigger] u[i]).account_id, u[i].date.days)) by {
            if i < before.len() {
                assert(u[i] == before[i]);
                assert(old_index.contains_key(key_code(before[i].account_id, before[i].date.days)));
            }
        }
    }
}

/// The position of the row of `out` with the key (`account_id`, `date`), if
/// any, looked up in the index.
fn find_key(out: &Vec<BalanceRow>, index: &HashMap<u64, usize>, account_id: i32, date: Date) -> (r: Option<usize>)
    requires
        date.wf(),
        forall|i: int| 0 <= i < out.len() ==> (#[trigger] out[i]).wf(),
        indexes(index@, out@),
    ensures
        r matches Some(j) ==> j < out.len() && out[j as int].account_id == account_id && out[j as int].date
            == date,
        r is None ==> !has_key(out@.map_values(|x: BalanceRow| row_view(x)), (account_id, date)),
{
    let code = key_code_of(account_id, date.days);
    match index.get(&code) {
        Some(j) => {
            let j = *j;
            proof {
                lemma_key_code_injective(out[j as int].account_id, out[j as int].date.days, account_id, date.days);
                lemma_days_determine_date(out[j as int].date, date);
            }
            Some(j)
        },
        None => {
            proof {
                let view = out@.map_values(|x: BalanceRow| row_view(x));
                if has_key(view, (account_id, date)) {
                    let i = choose|i: int| 0 <= i < view.len() && key_of(#[trigger] view[i]) == (account_id, date);
                    assert(view[i] == row_view(out@[i]));
                    assert(index@.contains_key(key_code(out@[i].account_id, out@[i].date.days)));
                }
            }
            None
        },
    }
}

/// The balances of the rows.
pub open spec fn row_balances(rows: Seq<BalanceRow>) -> Seq<Amount> {
    rows.map_values(|r: BalanceRow| r.balance)
}

/// The balances of the tables' rows, one table after another.
pub open spec fn frame_balances(frames: Seq<BalanceFrame>) -> Seq<Amount>
    decreases frames.len(),
{
    if frames.len() == 0 {
        seq![]
    } else {
        frame_balances(frames.drop_last()) + row_balances(frames.last().rows@)
    }
}

proof fn lemma_magnitude_concat(a: Seq<Amount>, b: Seq<Amount>, scale: int)
    ensures
        magnitude_at(a + b, scale) == magnitude_at(a, scale) + magnitude_at(b, scale),
    decreases b.len(),
{
    if b.len() > 0 {
        assert((a + b).drop_last() == a + b.drop_last());
        assert((a + b).last() == b.last());
        lemma_magnitude_concat(a, b.drop_last(), scale);
    } else {
        assert(a + b == a);
    }
}

/// The balances of all tables are those of the tables before `f`, then those of
/// table `f`, then those after it.
proof fn lemma_frame_balances_split(frames: Seq<BalanceFrame>, f: int)
    requires
        0 <= f < frames.len(),
    ensures
        frame_balances(frames) == frame_balances(frames.take(f)) + row_balances(frames[f].rows@)
            + frame_balances(frames.skip(f + 1)),
    decreases frames.len(),
{
    let init = frames.drop_last();
    if f == frames.len() - 1 {
        assert(frames.take(f) == init);
        assert(frames.skip(f + 1).len() == 0);
        assert(frame_balances(frames.skip(f + 1)) == Seq::<Amount>::empty());
        assert(frame_balances(frames) == frame_balances(init) + row_balances(frames.last().rows@));
    } else {
        lemma_frame_balances_split(init, f);
        assert(init.take(f) == frames.take(f));
        assert(init[f] == frames[f]);
        assert(frames.skip(f + 1).drop_last() == init.skip(f + 1));
        assert(frames.skip(f + 1).last() == frames.last());
    }
}

/// What a table's rows up to `r` weigh at `scale`, after the tables before it,
/// stays within what all tables weigh; and the balance of row `r` is one of
/// all the tables' balances.
proof fn lemma_rows_within(frames: Seq<BalanceFrame>, f: int, r: int, scale: int)
    requires
        0 <= f < frames.len(),
        0 <= r < frames[f].rows.len(),
    ensures
        magnitude_at(frame_balances(frames.take(f)), scale) + magnitude_at(
            row_balances(frames[f].rows@).take(r + 1),
            scale,
        ) <= magnitude_at(frame_balances(frames), scale),
        exists|i: int|
            0 <= i < frame_balances(frames).len() && #[trigger] frame_balances(frames)[i]
                == frames[f].rows@[r].balance,
{
    let a = frame_balances(frames.take(f));
    let b = row_balances(frames[f].rows@);
    let c = frame_balances(frames.skip(f + 1));
    lemma_frame_balances_split(frames, f);
    lemma_magnitude_concat(a, b, scale);
    lemma_magnitude_concat(a + b, c, scale);
    lemma_magnitude_nonneg(c, scale);
    lemma_magnitude_prefix(b, r + 1, scale);
    assert((a + b + c)[a.len() + r] == b[r]);
}

/// The result's balances weigh, at `scale`, no more than the balances merged
/// into it.
pub open spec fn merged_within(out: Seq<BalanceRow>, seen: Seq<Amount>, scale: int) -> bool {
    &&& forall|i: int| 0 <= i < out.len() ==> (#[trigger] out[i]).balance.scale <= scale
    &&& magnitude_at(row_balances(out), scale) <= magnitude_at(seen, scale)
}

/// The rows of the tables, one table after another.
pub open spec fn concat_rows(frames: Seq<BalanceFrame>) -> Seq<BalanceRow>
    decreases frames.len(),
{
    if frames.len() == 0 {
        seq![]
    } else {
        concat_rows(frames.drop_last()) + frames.last().rows@
    }
}

/// The rows of the parts, one part after another.
pub open spec fn joined_rows(parts: Seq<Seq<BalanceRow>>) -> Seq<BalanceRow>
    decreases parts.len(),
{
    if parts.len() == 0 {
        seq![]
    } else {
        joined_rows(parts.drop_last()) + parts.last()
    }
}

/// The rows of the tables are those of their row sequences, joined.
pub proof fn lemma_concat_rows(frames: Seq<BalanceFrame>)
    ensures
        concat_rows(frames) == joined_rows(frame_rows(frames)),
    decreases frames.len(),
{
    if frames.len() > 0 {
        lemma_concat_rows(frames.drop_last());
        assert(frame_rows(frames).drop_last() == frame_rows(frames.drop_last()));
    }
}

/// The decimal sum, with its scale, of the balances of the rows with key `k`,
/// in order: the first one's balance, then each further one added to it
/// ([`added`]).
pub open spec fn sum_amount(rows: Seq<BalanceRow>, k: (i32, Date)) -> Option<Amount>
    decreases rows.len(),
{
    if rows.len() == 0 {
        None
    } else {
        let prev = sum_amount(rows.drop_last(), k);
        if row_key(rows.last()) == k {
            match prev {
                Some(a) => Some(added(a, rows.last().balance)),
                None => Some(rows.last().balance),
            }
        } else {
            prev
        }
    }
}

/// Sum-merges the tables: each (account, date) key of any table appears once in
/// the result, with the sum of the balances that the tables hold for it (the
/// decimal that `rust_decimal` adds up from them in order, [`sum_amount`]).  Fails
/// only when a decimal sum overflows, which it never does where all the
/// balances add up exactly at some scale ([`sums_exactly_at`]).
pub fn merge_sum(frames: &Vec<BalanceFrame>) -> (r: Result<BalanceFrame, ComputeError>)
    requires
        forall|f: int| 0 <= f < frames.len() ==> (#[trigger] frames[f]).wf(),
    ensures
        r matches Ok(out) ==> out.wf() && sum_merged(concat_views(frames@), out.view_rows()),
        r matches Ok(out) ==> forall|i: int|
            0 <= i < out.rows.len() ==> sum_amount(concat_rows(frames@), row_key(#[trigger] out.rows@[i]))
                == Some(out.rows@[i].balance),
        r matches Err(e) ==> e.is_overflow(),
        forall|scale: int| #[trigger] sums_exactly_at(frame_balances(frames@), scale) ==> r is Ok,
{
    let mut out: Vec<BalanceRow> = Vec::new();
    let mut index: HashMap<u64, usize> = HashMap::new();
    let mut f: usize = 0;
    proof {
        assert forall|scale: int| #[trigger] sums_exactly_at(frame_balances(frames@), scale) implies merged_within(
            out@,
            frame_balances(frames@.take(0)),
            scale,
        ) by {
            assert(row_balances(out@) == Seq::<Amount>::empty());
            assert(frames@.take(0).len() == 0);
        }
    }
    while f < frames.len()
        invariant
            f <= frames.len(),
            forall|q: int| 0 <= q < frames.len() ==> (#[trigger] frames[q]).wf(),
            forall|i: int| 0 <= i < out.len() ==> (#[trigger] out[i]).wf(),
            indexes(index@, out@),
            sum_merged(concat_views(frames@.take(f as int)), out@.map_values(|x: BalanceRow| row_view(x))),
            forall|scale: int| #[trigger]
                sums_exactly_at(frame_balances(frames@), scale) ==> merged_within(
                    out@,
                    frame_balances(frames@.take(f as int)),
                    scale,
                ),
            forall|i: int|
                0 <= i < out.len() ==> sum_amount(concat_rows(frames@.take(f as int)), row_key(#[trigger] out@[i]))
                    == Some(out@[i].balance),
            forall|k: (i32, Date)|
                #[trigger] sum_amount(concat_rows(frames@.take(f as int)), k) is Some <==> has_key(
                    out@.map_values(|x: BalanceRow| row_view(x)),
                    k,
                ),
        decreases frames.len() - f,
    {
        let frame = &frames[f];
        let ghost done = concat_views(frames@.take(f as int));
        let ghost done_rows = concat_rows(frames@.take(f as int));
        assert(concat_rows(frames@.take(f + 1)) == done_rows + frame.rows@) by {
            assert(frames@.take(f + 1).drop_last() == frames@.take(f as int));
        }
        assert(done_rows + frame.rows@.take(0) == done_rows);
        let ghost before = frame_balances(frames@.take(f as int));
        assert(frames@.take(f + 1).drop_last() == frames@.take(f as int));
        assert(frames@.take(f + 1).last() == frames@[f as int]);
        let mut r: usize = 0;
        proof {
            assert forall|scale: int| #[trigger] sums_exactly_at(frame_balances(frames@), scale) implies merged_within(
                out@,
                before + row_balances(frame.rows@).take(0),
                scale,
            ) by {
                assert(before + row_balances(frame.rows@).take(0) == before);
            }
        }
        while r < frame.rows.len()
            invariant
                r <= frame.rows.len(),
                f < frames.len(),
                frame == frames@[f as int],
                before == frame_balances(frames@.take(f as int)),
                frame.wf(),
                forall|i: int| 0 <= i < out.len() ==> (#[trigger] out[i]).wf(),
                indexes(index@, out@),
                sum_merged(done + frame.view_rows().take(r as int), out@.map_values(|x: BalanceRow| row_view(x))),
                forall|scale: int| #[trigger]
                    sums_exactly_at(frame_balances(frames@), scale) ==> merged_within(
                        out@,
                        before + row_balances(frame.rows@).take(r as int),
                        scale,
                    ),
                done_rows == concat_rows(frames@.take(f as int)),
                forall|i: int|
                    0 <= i < out.len() ==> sum_amount(done_rows + frame.rows@.take(r as int), row_key(#[trigger] out@[i]))
                        == Some(out@[i].balance),
                forall|k: (i32, Date)|
                    #[trigger] sum_amount(done_rows + frame.rows@.take(r as int), k) is Some <==> has_key(
                        out@.map_values(|x: BalanceRow| row_view(x)),
                        k,
                    ),
            decreases frame.rows.len() - r,
        {
            let row = frame.rows[r];
            let ghost input_rows = done_rows + frame.rows@.take(r as int);
            assert(done_rows + frame.rows@.take(r + 1) == input_rows.push(row));
            assert(input_rows.push(row).drop_last() == input_rows);
            proof {
                assert forall|i: int| 0 <= i < out.len() implies row_key(#[trigger] out@[i]) == key_of(
                    out@.map_values(|y: BalanceRow| row_view(y))[i],
                ) by {}
            }
            let ghost input = done + frame.view_rows().take(r as int);
            let ghost x = row_view(row);
            let ghost old_view = out@.map_values(|y: BalanceRow| row_view(y));
            let ghost old_out = out@;
            let ghost seen = before + row_balances(frame.rows@).take(r as int);
            let ghost seen2 = before + row_balances(frame.rows@).take(r + 1);
            assert(done + frame.view_rows().take(r + 1) == input.push(x));
            assert(seen2 == seen.push(row.balance));
            assert(seen2.drop_last() == seen);
            proof {
                assert forall|scale: int| #[trigger] sums_exactly_at(frame_balances(frames@), scale) implies (
                row.balance.scale <= scale && magnitude_at(row_balances(old_out), scale) + abs_int(
                    aligned(row.balance, scale),
                ) <= magnitude_at(seen2, scale) && magnitude_at(seen2, scale) <= MAX_MANTISSA) by {
                    lemma_rows_within(frames@, f as int, r as int, scale);
                    lemma_magnitude_concat(before, row_balances(frame.rows@).take(r + 1), scale);
                    let i = choose|i: int|
                        0 <= i < frame_balances(frames@).len() && #[trigger] frame_balances(frames@)[i]
                            == frames@[f as int].rows@[r as int].balance;
                    assert(frame_balances(frames@)[i].scale <= scale);
                }
            }
            match find_key(&out, &index, row.account_id, row.date) {
                Some(j) => {
                    let cur = out[j];
                    let next = cur.balance.checked_add(&row.balance);
                    proof {
                        assert forall|scale: int| #[trigger] sums_exactly_at(frame_balances(frames@), scale) implies (
                        next matches Some(b) && b.scale <= scale && magnitude_at(
                            row_balances(old_out).update(j as int, b),
                            scale,
                        ) <= magnitude_at(seen2, scale)) by {
                            assert(row_balances(old_out)[j as int] == cur.balance);
                            lemma_magnitude_member(row_balances(old_out), j as int, scale);
                            lemma_fits_within(cur.balance, row.balance, scale);
                            if let Some(b) = next {
                                lemma_add_to_entry(row_balances(old_out), j as int, row.balance, b, scale);
                            }
                        }
                    }
                    let b = match next {
                        Some(b) => b,
                        None => {
                            return Err(ComputeError::decimal_overflow());
                        },
                    };
                    out.set(j, BalanceRow { account_id: cur.account_id, date: cur.date, balance: b });
                    proof {
                        lemma_indexes_set(index@, old_out, j as int, out@[j as int]);
                        assert(out@ == old_out.update(j as int, out@[j as int]));
                    }
                    proof {
                        assert(row_balances(out@) == row_balances(old_out).update(j as int, b));
                        assert forall|scale: int| #[trigger] sums_exactly_at(frame_balances(frames@), scale) implies merged_within(
                            out@,
                            seen2,
                            scale,
                        ) by {
                            assert forall|i: int| 0 <= i < out.len() implies (#[trigger] out[i]).balance.scale
                                <= scale by {
                                if i != j {
                                    assert(out@[i] == old_out[i]);
                                }
                            }
                        }
                        let new_view = out@.map_values(|y: BalanceRow| row_view(y));
                        assert(new_view == old_view.update(j as int, (cur.account_id, cur.date, b.units())));
                        assert forall|i: int| 0 <= i < new_view.len() implies (#[trigger] new_view[i]).2
                            == key_total(input.push(x), key_of(new_view[i])) by {
                            lemma_key_total_push(input, x, key_of(new_view[i]));
                            assert(old_view[j as int] == row_view(cur));
                            if i != j {
                                assert(new_view[i] == old_view[i]);
                                if i < j {
                                    assert(key_of(old_view[i]) != key_of(old_view[j as int]));
                                } else {
                                    assert(key_of(old_view[j as int]) != key_of(old_view[i]));
                                }
                            }
                        }
                        assert forall|k: (i32, Date)| has_key(input.push(x), k) <==> has_key(new_view, k) by {
                            lemma_has_key_push(input, x, k);
                            assert(old_view[j as int] == row_view(cur));
                            if key_of(x) == k {
                                assert(key_of(old_view[j as int]) == k);
                            }
                            if has_key(old_view, k) {
                                let i = choose|i: int| 0 <= i < old_view.len() && key_of(#[trigger] old_view[i]) == k;
                                assert(key_of(new_view[i]) == k);
                            }
                            if has_key(new_view, k) {
                                let i = choose|i: int| 0 <= i < new_view.len() && key_of(#[trigger] new_view[i]) == k;
                                assert(key_of(old_view[i]) == k);
                            }
                        }
                        assert(distinct_keys(new_view)) by {
                            assert forall|a: int, c: int| 0 <= a < c < new_view.len() implies key_of(
                                #[trigger] new_view[a],
                            ) != key_of(#[trigger] new_view[c]) by {
                                assert(key_of(new_view[a]) == key_of(old_view[a]));
                                assert(key_of(new_view[c]) == key_of(old_view[c]));
                            }
                        }
                        assert(b == added(cur.balance, row.balance));
                        assert(sum_amount(input_rows, row_key(row)) == Some(cur.balance)) by {
                            assert(old_out[j as int] == cur);
                        }
                        assert forall|i: int| 0 <= i < out.len() implies sum_amount(
                            input_rows.push(row),
                            row_key(#[trigger] out@[i]),
                        ) == Some(out@[i].balance) by {
                            if i != j {
                                assert(out@[i] == old_out[i]);
                                assert(key_of(old_view[i]) != key_of(old_view[j as int]) || key_of(old_view[j as int])
                                    != key_of(old_view[i]));
                                assert(old_view[i] == row_view(old_out[i]));
                                assert(old_view[j as int] == row_view(old_out[j as int]));
                            }
                        }
                        assert forall|k: (i32, Date)| #[trigger] sum_amount(input_rows.push(row), k) is Some
                            <==> has_key(new_view, k) by {
                            assert(sum_amount(input_rows.push(row), k) is Some <==> (sum_amount(input_rows, k) is Some
                                || row_key(row) == k));
                            assert(sum_amount(input_rows, k) is Some <==> has_key(old_view, k));
                            if has_key(old_view, k) {
                                let i = choose|i: int| 0 <= i < old_view.len() && key_of(#[trigger] old_view[i]) == k;
                                assert(key_of(new_view[i]) == k);
                            }
                            if has_key(new_view, k) {
                                let i = choose|i: int| 0 <= i < new_view.len() && key_of(#[trigger] new_view[i]) == k;
                                assert(key_of(old_view[i]) == k);
                            }
                            if row_key(row) == k {
                                assert(key_of(old_view[j as int]) == k);
                            }
                        }
                    }
                },
                None => {
                    assert(frame.rows@[r as int].wf());
                    push_indexed(&mut out, &mut index, row);
                    proof {
                        assert(row_balances(out@) == row_balances(old_out).push(row.balance));
                        assert(row_balances(out@).drop_last() == row_balances(old_out));
                        assert forall|scale: int| #[trigger] sums_exactly_at(frame_balances(frames@), scale) implies merged_within(
                            out@,
                            seen2,
                            scale,
                        ) by {
                            assert forall|i: int| 0 <= i < out.len() implies (#[trigger] out[i]).balance.scale
                                <= scale by {
                                if i < old_out.len() {
                                    assert(out@[i] == old_out[i]);
                                }
                            }
                        }
                    }
                    proof {
                        let new_view = out@.map_values(|y: BalanceRow| row_view(y));
                        assert(new_view == old_view.push(x));
                        assert forall|i: int| 0 <= i < new_view.len() implies (#[trigger] new_view[i]).2
                            == key_total(input.push(x), key_of(new_view[i])) by {
                            lemma_key_total_push(input, x, key_of(new_view[i]));
                            if i < old_view.len() {
                                assert(new_view[i] == old_view[i]);
                                assert(key_of(old_view[i]) != key_of(x));
                            } else {
                                if has_key(input, key_of(x)) {
                                    assert(has_key(old_view, key_of(x)));
                                }
                                lemma_key_total_absent(input, key_of(x));
                            }
                        }
                        assert forall|k: (i32, Date)| has_key(input.push(x), k) <==> has_key(new_view, k) by {
                            lemma_has_key_push(input, x, k);
                            lemma_has_key_push(old_view, x, k);
                        }
                        assert(distinct_keys(new_view)) by {
                            assert forall|a: int, c: int| 0 <= a < c < new_view.len() implies key_of(
                                #[trigger] new_view[a],
                            ) != key_of(#[trigger] new_view[c]) by {
                                if c == old_view.len() {
                                    assert(new_view[a] == old_view[a]);
                                } else {
                                    assert(new_view[a] == old_view[a]);
                                    assert(new_view[c] == old_view[c]);
                                }
                            }
                        }
                        assert(sum_amount(input_rows, row_key(row)) is None);
                        assert forall|i: int| 0 <= i < out.len() implies sum_amount(
                            input_rows.push(row),
                            row_key(#[trigger] out@[i]),
                        ) == Some(out@[i].balance) by {
                            if i < old_out.len() {
                                assert(out@[i] == old_out[i]);
                                assert(key_of(old_view[i]) != key_of(x));
                                assert(old_view[i] == row_view(old_out[i]));
                            }
                        }
                        assert forall|k: (i32, Date)| #[trigger] sum_amount(input_rows.push(row), k) is Some
                            <==> has_key(new_view, k) by {
                            lemma_has_key_push(old_view, x, k);
                            assert(sum_amount(input_rows.push(row), k) is Some <==> (sum_amount(input_rows, k) is Some
                                || row_key(row) == k));
                            assert(sum_amount(input_rows, k) is Some <==> has_key(old_view, k));
                            assert(key_of(x) == row_key(row));
                        }
                    }
                },
            }
            r = r + 1;
        }
        assert(frame.view_rows().take(frame.rows.len() as int) == frame.view_rows());
        assert(frame.rows@.take(frame.rows.len() as int) == frame.rows@);
        proof {
            assert(row_balances(frame.rows@).take(frame.rows.len() as int) == row_balances(frame.rows@));
            assert(frame_balances(frames@.take(f + 1)) == before + row_balances(frame.rows@));
        }
        f = f + 1;
    }
    assert(frames@.take(frames.len() as int) == frames@);
    Ok(BalanceFrame { rows: out })
}

/// A key that no row has totals zero.
proof fn lemma_key_total_absent(rows: Seq<(i32, Date, int)>, k: (i32, Date))
    requires
        !has_key(rows, k),
    ensures
        key_total(rows, k) == 0,
    decreases rows.len(),
{
    if rows.len() > 0 {
        assert(rows.drop_last() =~= rows.drop_last());
        if has_key(rows.drop_last(), k) {
            let i = choose|i: int| 0 <= i < rows.drop_last().len() && key_of(#[trigger] rows.drop_last()[i]) == k;
            assert(rows[i] == rows.drop_last()[i]);
        }
        assert(key_of(rows[rows.len() - 1]) != k);
        lemma_key_total_absent(rows.drop_last(), k);
    }
}


proof fn lemma_first_wins_push_empty(parts: Seq<Seq<(i32, Date, int)>>, k: (i32, Date))
    ensures
        first_wins_value(parts.push(seq![]), k) == first_wins_value(parts, k),
{
    assert(parts.push(seq![]).drop_last() == parts);
}

proof fn lemma_first_wins_extend(
    parts: Seq<Seq<(i32, Date, int)>>,
    cur: Seq<(i32, Date, int)>,
    x: (i32, Date, int),
    k: (i32, Date),
)
    ensures
        first_wins_value(parts.push(cur.push(x)), k) == (match first_wins_value(parts, k) {
            Some(v) => Some(v),
            None => if key_of(x) == k {
                Some(x.2)
            } else {
                last_value(cur, k)
            },
        }),
        first_wins_value(parts.push(cur), k) == (match first_wins_value(parts, k) {
            Some(v) => Some(v),
            None => last_value(cur, k),
        }),
{
    assert(parts.push(cur.push(x)).drop_last() == parts);
    assert(parts.push(cur).drop_last() == parts);
    lemma_last_value_push(cur, x, k);
}

/// The (account, date) key of a row.
pub open spec fn row_key(r: BalanceRow) -> (i32, Date) {
    (r.account_id, r.date)
}

/// The balance, as a decimal with its scale, of the last row with key `k`.
pub open spec fn last_amount(rows: Seq<BalanceRow>, k: (i32, Date)) -> Option<Amount>
    decreases rows.len(),
{
    if rows.len() == 0 {
        None
    } else if row_key(rows.last()) == k {
        Some(rows.last().balance)
    } else {
        last_amount(rows.drop_last(), k)
    }
}

/// The decimal balance that wins for key `k` (as [`first_wins_value`], over
/// whole rows): that of the last row with the key in the first table that has
/// it.
pub open spec fn first_wins_amount(parts: Seq<Seq<BalanceRow>>, k: (i32, Date)) -> Option<Amount>
    decreases parts.len(),
{
    if parts.len() == 0 {
        None
    } else {
        match first_wins_amount(parts.drop_last(), k) {
            Some(v) => Some(v),
            None => last_amount(parts.last(), k),
        }
    }
}

/// The rows of each table.
pub open spec fn frame_rows(frames: Seq<BalanceFrame>) -> Seq<Seq<BalanceRow>> {
    frames.map_values(|f: BalanceFrame| f.rows@)
}

proof fn lemma_first_wins_amount_extend(
    parts: Seq<Seq<BalanceRow>>,
    cur: Seq<BalanceRow>,
    x: BalanceRow,
    k: (i32, Date),
)
    ensures
        first_wins_amount(parts.push(cur.push(x)), k) == (match first_wins_amount(parts, k) {
            Some(v) => Some(v),
            None => if row_key(x) == k {
                Some(x.balance)
            } else {
                last_amount(cur, k)
            },
        }),
        first_wins_amount(parts.push(cur), k) == (match first_wins_amount(parts, k) {
            Some(v) => Some(v),
            None => last_amount(cur, k),
        }),
        first_wins_amount(parts.push(seq![]), k) == first_wins_amount(parts, k),
{
    assert(parts.push(cur.push(x)).drop_last() == parts);
    assert(parts.push(cur).drop_last() == parts);
    assert(parts.push(seq![]).drop_last() == parts);
    assert(cur.push(x).drop_last() == cur);
}

/// First-wins merge of the tables: each (account, date) key of any table
/// appears once in the result; its balance, as a decimal with its scale, comes
/// from the first table that has the key (from its last row with the key).
pub fn merge_first_wins(frames: &Vec<BalanceFrame>) -> (r: BalanceFrame)
    requires
        forall|f: int| 0 <= f < frames.len() ==> (#[trigger] frames[f]).wf(),
    ensures
        r.wf(),
        first_wins_merged(frame_views(frames@), r.view_rows()),
        forall|i: int|
            0 <= i < r.rows.len() ==> first_wins_amount(frame_rows(frames@), row_key(#[trigger] r.rows@[i]))
                == Some(r.rows@[i].balance),
{
    let mut out: Vec<BalanceRow> = Vec::new();
    let mut index: HashMap<u64, usize> = HashMap::new();
    let mut origin: Vec<usize> = Vec::new();
    let mut f: usize = 0;
    while f < frames.len()
        invariant
            f <= frames.len(),
            forall|q: int| 0 <= q < frames.len() ==> (#[trigger] frames[q]).wf(),
            forall|i: int| 0 <= i < out.len() ==> (#[trigger] out[i]).wf(),
            indexes(index@, out@),
            origin.len() == out.len(),
            forall|i: int| 0 <= i < origin.len() ==> (#[trigger] origin[i]) < f,
            first_wins_merged(frame_views(frames@.take(f as int)), out@.map_values(|x: BalanceRow| row_view(x))),
            forall|i: int|
                0 <= i < out.len() ==> first_wins_amount(frame_rows(frames@.take(f as int)), row_key(#[trigger] out@[i]))
                    == Some(out@[i].balance),
            forall|k: (i32, Date)|
                #[trigger] first_wins_amount(frame_rows(frames@.take(f as int)), k) is Some <==> has_key(
                    out@.map_values(|x: BalanceRow| row_view(x)),
                    k,
                ),
        decreases frames.len() - f,
    {
        let frame = &frames[f];
        let ghost prev = frame_views(frames@.take(f as int));
        let ghost prevr = frame_rows(frames@.take(f as int));
        assert(frame_views(frames@.take(f + 1)) == prev.push(frame.view_rows()));
        assert(frame_rows(frames@.take(f + 1)) == prevr.push(frame.rows@));
        assert(frame.rows@.take(0) == Seq::<BalanceRow>::empty());
        proof {
            assert forall|k: (i32, Date)| #[trigger] first_wins_amount(prevr.push(frame.rows@.take(0)), k)
                == first_wins_amount(prevr, k) by {
                assert(prevr.push(frame.rows@.take(0)).drop_last() == prevr);
            }
            assert forall|i: int| 0 <= i < origin.len() implies !(#[trigger] origin[i] == f) && first_wins_amount(
                prevr,
                row_key(out@[i]),
            ) is Some by {
                assert(first_wins_amount(prevr, row_key(out@[i])) == Some(out@[i].balance));
            }
        }
        proof {
            assert forall|k: (i32, Date)| first_wins_value(prev.push(seq![]), k) == first_wins_value(prev, k) by {
                lemma_first_wins_push_empty(prev, k);
            }
            assert(frame.view_rows().take(0) == Seq::<(i32, Date, int)>::empty());
        }
        let mut r: usize = 0;
        while r < frame.rows.len()
            invariant
                r <= frame.rows.len(),
                frame.wf(),
                f < frames.len(),
                forall|i: int| 0 <= i < out.len() ==> (#[trigger] out[i]).wf(),
                indexes(index@, out@),
                origin.len() == out.len(),
                forall|i: int| 0 <= i < origin.len() ==> (#[trigger] origin[i]) <= f,
                forall|i: int|
                    0 <= i < origin.len() ==> ((#[trigger] origin[i] == f) <==> first_wins_value(
                        prev,
                        key_of(out@.map_values(|x: BalanceRow| row_view(x))[i]),
                    ) is None),
                first_wins_merged(
                    prev.push(frame.view_rows().take(r as int)),
                    out@.map_values(|x: BalanceRow| row_view(x)),
                ),
                prevr == frame_rows(frames@.take(f as int)),
                forall|i: int|
                    0 <= i < out.len() ==> first_wins_amount(
                        prevr.push(frame.rows@.take(r as int)),
                        row_key(#[trigger] out@[i]),
                    ) == Some(out@[i].balance),
                forall|k: (i32, Date)|
                    #[trigger] first_wins_amount(prevr.push(frame.rows@.take(r as int)), k) is Some <==> has_key(
                        out@.map_values(|x: BalanceRow| row_view(x)),
                        k,
                    ),
                forall|i: int|
                    0 <= i < origin.len() ==> ((#[trigger] origin[i] == f) <==> first_wins_amount(
                        prevr,
                        row_key(out@[i]),
                    ) is None),
            decreases frame.rows.len() - r,
        {
            let row = frame.rows[r];
            let ghost cur = frame.view_rows().take(r as int);
            let ghost x = row_view(row);
            let ghost old_view = out@.map_values(|y: BalanceRow| row_view(y));
            let ghost old_origin = origin@;
            let ghost old_rows = out@;
            let ghost curr = frame.rows@.take(r as int);
            assert(frame.view_rows().take(r + 1) == cur.push(x));
            assert(frame.rows@.take(r + 1) == curr.push(row));
            proof {
                assert forall|k: (i32, Date)|
                    #![trigger first_wins_amount(prevr.push(curr.push(row)), k)]
                    #![trigger first_wins_amount(prevr.push(curr), k)]
                    first_wins_amount(prevr.push(curr.push(row)), k) == (match first_wins_amount(prevr, k) {
                        Some(v) => Some(v),
                        None => if row_key(row) == k {
                            Some(row.balance)
                        } else {
                            last_amount(curr, k)
                        },
                    }) && first_wins_amount(prevr.push(curr), k) == (match first_wins_amount(prevr, k) {
                        Some(v) => Some(v),
                        None => last_amount(curr, k),
                    }) by {
                    lemma_first_wins_amount_extend(prevr, curr, row, k);
                }
                assert forall|i: int| 0 <= i < old_rows.len() implies row_key(#[trigger] old_rows[i]) == key_of(
                    old_view[i],
                ) by {}
            }
            proof {
                assert forall|k: (i32, Date)|
                    first_wins_value(prev.push(cur.push(x)), k) == (match first_wins_value(prev, k) {
                        Some(v) => Some(v),
                        None => if key_of(x) == k {
                            Some(x.2)
                        } else {
                            last_value(cur, k)
                        },
                    }) && first_wins_value(prev.push(cur), k) == (match first_wins_value(prev, k) {
                        Some(v) => Some(v),
                        None => last_value(cur, k),
                    }) by {
                    lemma_first_wins_extend(prev, cur, x, k);
                }
            }
            match find_key(&out, &index, row.account_id, row.date) {
                Some(j) => {
                    if origin[j] == f {
                        let cur_row = out[j];
                        let ghost old_out = out@;
                        out.set(j, BalanceRow { account_id: cur_row.account_id, date: cur_row.date, balance: row.balance });
                        proof {
                            lemma_indexes_set(index@, old_out, j as int, out@[j as int]);
                            assert(out@ == old_out.update(j as int, out@[j as int]));
                        }
                        proof {
                            let new_view = out@.map_values(|y: BalanceRow| row_view(y));
                            assert(old_view[j as int] == row_view(cur_row));
                            assert(new_view == old_view.update(j as int, x));
                            assert forall|i: int| 0 <= i < new_view.len() implies first_wins_value(
                                prev.push(cur.push(x)),
                                key_of(#[trigger] new_view[i]),
                            ) == Some(new_view[i].2) by {
                                if i != j {
                                    assert(new_view[i] == old_view[i]);
                                    if i < j {
                                        assert(key_of(old_view[i]) != key_of(old_view[j as int]));
                                    } else {
                                        assert(key_of(old_view[j as int]) != key_of(old_view[i]));
                                    }
                                }
                            }
                            assert forall|k: (i32, Date)| first_wins_value(prev.push(cur.push(x)), k) is Some
                                <==> has_key(new_view, k) by {
                                if has_key(old_view, k) {
                                    let i = choose|i: int| 0 <= i < old_view.len() && key_of(#[trigger] old_view[i]) == k;
                                    assert(key_of(new_view[i]) == k);
                                }
                                if has_key(new_view, k) {
                                    let i = choose|i: int| 0 <= i < new_view.len() && key_of(#[trigger] new_view[i]) == k;
                                    assert(key_of(old_view[i]) == k);
                                }
                            }
                            assert forall|a: int, c: int| 0 <= a < c < new_view.len() implies key_of(
                                #[trigger] new_view[a],
                            ) != key_of(#[trigger] new_view[c]) by {
                                assert(key_of(new_view[a]) == key_of(old_view[a]));
                                assert(key_of(new_view[c]) == key_of(old_view[c]));
                            }
                            assert forall|i: int| 0 <= i < origin.len() implies ((#[trigger] origin[i] == f)
                                <==> first_wins_value(prev, key_of(new_view[i])) is None) by {
                                assert(key_of(new_view[i]) == key_of(old_view[i]));
                            }
                            assert forall|i: int| 0 <= i < origin.len() implies ((#[trigger] origin[i] == f)
                                <==> first_wins_amount(prevr, row_key(out@[i])) is None) by {
                                assert(row_key(out@[i]) == row_key(old_rows[i]));
                            }
                        }
                    } else {
                        proof {
                            assert(old_view[j as int] == row_view(out[j as int]));
                            assert(key_of(old_view[j as int]) == key_of(x));
                            assert forall|i: int| 0 <= i < old_view.len() implies first_wins_value(
                                prev.push(cur.push(x)),
                                key_of(#[trigger] old_view[i]),
                            ) == Some(old_view[i].2) by {
                                if i == j {
                                    assert(first_wins_value(prev, key_of(x)) is Some);
                                }
                            }
                            assert forall|k: (i32, Date)| first_wins_value(prev.push(cur.push(x)), k) is Some
                                <==> has_key(old_view, k) by {
                                if key_of(x) == k {
                                    assert(key_of(old_view[j as int]) == k);
                                }
                            }
                        }
                    }
                },
                None => {
                    assert(frame.rows@[r as int].wf());
                    push_indexed(&mut out, &mut index, row);
                    origin.push(f);
                    proof {
                        let new_view = out@.map_values(|y: BalanceRow| row_view(y));
                        assert(new_view == old_view.push(x));
                        assert(first_wins_value(prev, key_of(x)) is None) by {
                            if first_wins_value(prev, key_of(x)) is Some {
                                assert(first_wins_value(prev.push(cur), key_of(x)) is Some);
                            }
                        }
                        assert forall|i: int| 0 <= i < new_view.len() implies first_wins_value(
                            prev.push(cur.push(x)),
                            key_of(#[trigger] new_view[i]),
                        ) == Some(new_view[i].2) by {
                            if i < old_view.len() {
                                assert(new_view[i] == old_view[i]);
                                assert(key_of(old_view[i]) != key_of(x));
                            }
                        }
                        assert forall|k: (i32, Date)| first_wins_value(prev.push(cur.push(x)), k) is Some
                            <==> has_key(new_view, k) by {
                            lemma_has_key_push(old_view, x, k);
                        }
                        assert forall|a: int, c: int| 0 <= a < c < new_view.len() implies key_of(
                            #[trigger] new_view[a],
                        ) != key_of(#[trigger] new_view[c]) by {
                            assert(new_view[a] == old_view[a]);
                            if c < old_view.len() {
                                assert(new_view[c] == old_view[c]);
                            }
                        }
                        assert forall|i: int| 0 <= i < origin.len() implies ((#[trigger] origin[i] == f)
                            <==> first_wins_value(prev, key_of(new_view[i])) is None) by {
                            if i < old_view.len() {
                                assert(origin[i] == old_origin[i]);
                                assert(new_view[i] == old_view[i]);
                            }
                        }
                        assert(first_wins_amount(prevr.push(curr), row_key(row)) is None);
                        assert(first_wins_amount(prevr, row_key(row)) is None);
                        assert forall|i: int| 0 <= i < origin.len() implies ((#[trigger] origin[i] == f)
                            <==> first_wins_amount(prevr, row_key(out@[i])) is None) by {
                            if i < old_view.len() {
                                assert(origin[i] == old_origin[i]);
                                assert(out@[i] == old_rows[i]);
                            } else {
                                assert(out@[i] == row);
                            }
                        }
                    }
                },
            }
            r = r + 1;
        }
        assert(frame.view_rows().take(frame.rows.len() as int) == frame.view_rows());
        f = f + 1;
    }
    assert(frames@.take(frames.len() as int) == frames@);
    BalanceFrame { rows: out }
}

/// The balance of the first row with key `k`, if any.
pub open spec fn first_value(rows: Seq<(i32, Date, int)>, k: (i32, Date)) -> Option<int>
    decreases rows.len(),
{
    if rows.len() == 0 {
        None
    } else {
        match first_value(rows.drop_last(), k) {
            Some(v) => Some(v),
            None => if key_of(rows.last()) == k {
                Some(rows.last().2)
            } else {
                None
            },
        }
    }
}

/// `out` keeps, for each key of `input`, the balance of its first row.
pub open spec fn first_seen_merged(input: Seq<(i32, Date, int)>, out: Seq<(i32, Date, int)>) -> bool {
    &&& distinct_keys(out)
    &&& forall|i: int| 0 <= i < out.len() ==> first_value(input, key_of(#[trigger] out[i])) == Some(out[i].2)
    &&& forall|k: (i32, Date)| has_key(input, k) <==> has_key(out, k)
}

proof fn lemma_first_value_push(rows: Seq<(i32, Date, int)>, x: (i32, Date, int), k: (i32, Date))
    ensures
        first_value(rows.push(x), k) == (match first_value(rows, k) {
            Some(v) => Some(v),
            None => if key_of(x) == k {
                Some(x.2)
            } else {
                None
            },
        }),
{
    assert(rows.push(x).drop_last() == rows);
}

proof fn lemma_first_value_some(rows: Seq<(i32, Date, int)>, k: (i32, Date))
    ensures
        first_value(rows, k) is Some <==> has_key(rows, k),
    decreases rows.len(),
{
    if rows.len() > 0 {
        lemma_first_value_some(rows.drop_last(), k);
        lemma_has_key_push(rows.drop_last(), rows.last(), k);
        assert(rows.drop_last().push(rows.last()) == rows);
    }
}

/// The balance, as a decimal with its scale, of the first row with key `k`.
pub open spec fn first_amount(rows: Seq<BalanceRow>, k: (i32, Date)) -> Option<Amount>
    decreases rows.len(),
{
    if rows.len() == 0 {
        None
    } else {
        match first_amount(rows.drop_last(), k) {
            Some(v) => Some(v),
            None => if row_key(rows.last()) == k {
                Some(rows.last().balance)
            } else {
                None
            },
        }
    }
}

/// Merges the tables keeping, for each (account, date) key of any table, the
/// balance of its first row (in the order of the tables and of their rows).
pub fn merge_first_seen(frames: &Vec<BalanceFrame>) -> (r: BalanceFrame)
    requires
        forall|f: int| 0 <= f < frames.len() ==> (#[trigger] frames[f]).wf(),
    ensures
        r.wf(),
        first_seen_merged(concat_views(frames@), r.view_rows()),
        forall|i: int|
            0 <= i < r.rows.len() ==> first_amount(concat_rows(frames@), row_key(#[trigger] r.rows@[i]))
                == Some(r.rows@[i].balance),
{
    let mut out: Vec<BalanceRow> = Vec::new();
    let mut index: HashMap<u64, usize> = HashMap::new();
    let mut f: usize = 0;
    while f < frames.len()
        invariant
            f <= frames.len(),
            forall|q: int| 0 <= q < frames.len() ==> (#[trigger] frames[q]).wf(),
            forall|i: int| 0 <= i < out.len() ==> (#[trigger] out[i]).wf(),
            indexes(index@, out@),
            first_seen_merged(concat_views(frames@.take(f as int)), out@.map_values(|x: BalanceRow| row_view(x))),
            forall|i: int|
                0 <= i < out.len() ==> first_amount(concat_rows(frames@.take(f as int)), row_key(#[trigger] out@[i]))
                    == Some(out@[i].balance),
            forall|k: (i32, Date)|
                #[trigger] first_amount(concat_rows(frames@.take(f as int)), k) is Some <==> has_key(
                    out@.map_values(|x: BalanceRow| row_view(x)),
                    k,
                ),
        decreases frames.len() - f,
    {
        let frame = &frames[f];
        let ghost done = concat_views(frames@.take(f as int));
        let ghost done_rows = concat_rows(frames@.take(f as int));
        assert(frames@.take(f + 1).drop_last() == frames@.take(f as int));
        assert(concat_rows(frames@.take(f + 1)) == done_rows + frame.rows@);
        assert(done_rows + frame.rows@.take(0) == done_rows);
        let mut r: usize = 0;
        while r < frame.rows.len()
            invariant
                r <= frame.rows.len(),
                frame.wf(),
                forall|i: int| 0 <= i < out.len() ==> (#[trigger] out[i]).wf(),
                indexes(index@, out@),
                first_seen_merged(done + frame.view_rows().take(r as int), out@.map_values(|x: BalanceRow| row_view(x))),
                done_rows == concat_rows(frames@.take(f as int)),
                forall|i: int|
                    0 <= i < out.len() ==> first_amount(done_rows + frame.rows@.take(r as int), row_key(
                        #[trigger] out@[i],
                    )) == Some(out@[i].balance),
                forall|k: (i32, Date)|
                    #[trigger] first_amount(done_rows + frame.rows@.take(r as int), k) is Some <==> has_key(
                        out@.map_values(|x: BalanceRow| row_view(x)),
                        k,
                    ),
            decreases frame.rows.len() - r,
        {
            let row = frame.rows[r];
            let ghost input = done + frame.view_rows().take(r as int);
            let ghost x = row_view(row);
            let ghost old_view = out@.map_values(|y: BalanceRow| row_view(y));
            let ghost old_out = out@;
            let ghost input_rows = done_rows + frame.rows@.take(r as int);
            assert(done_rows + frame.rows@.take(r + 1) == input_rows.push(row));
            assert(input_rows.push(row).drop_last() == input_rows);
            assert(done + frame.view_rows().take(r + 1) == input.push(x));
            assert(frame.rows@[r as int].wf());
            match find_key(&out, &index, row.account_id, row.date) {
                Some(j) => {
                    proof {
                        assert(old_view[j as int] == row_view(out@[j as int]));
                        assert(has_key(old_view, key_of(x)));
                        lemma_first_value_some(input, key_of(x));
                        assert forall|i: int| 0 <= i < old_view.len() implies first_value(
                            input.push(x),
                            key_of(#[trigger] old_view[i]),
                        ) == Some(old_view[i].2) by {
                            lemma_first_value_push(input, x, key_of(old_view[i]));
                        }
                        assert forall|k: (i32, Date)| has_key(input.push(x), k) <==> has_key(old_view, k) by {
                            lemma_has_key_push(input, x, k);
                        }
                        assert(first_amount(input_rows, row_key(row)) is Some);
                        assert forall|i: int| 0 <= i < out.len() implies first_amount(
                            input_rows.push(row),
                            row_key(#[trigger] out@[i]),
                        ) == Some(out@[i].balance) by {
                            assert(first_amount(input_rows, row_key(out@[i])) == Some(out@[i].balance));
                        }
                        assert forall|k: (i32, Date)| #[trigger] first_amount(input_rows.push(row), k) is Some
                            <==> has_key(old_view, k) by {
                            assert(first_amount(input_rows, k) is Some <==> has_key(old_view, k));
                        }
                    }
                },
                None => {
                    assert(frame.rows@[r as int].wf());
                    push_indexed(&mut out, &mut index, row);
                    proof {
                        let new_view = out@.map_values(|y: BalanceRow| row_view(y));
                        assert(new_view == old_view.push(x));
                        lemma_first_value_some(input, key_of(x));
                        assert forall|i: int| 0 <= i < new_view.len() implies first_value(
                            input.push(x),
                            key_of(#[trigger] new_view[i]),
                        ) == Some(new_view[i].2) by {
                            lemma_first_value_push(input, x, key_of(new_view[i]));
                            if i < old_view.len() {
                                assert(new_view[i] == old_view[i]);
                            } else {
                                if has_key(input, key_of(x)) {
                                    assert(has_key(old_view, key_of(x)));
                                }
                            }
                        }
                        assert forall|k: (i32, Date)| has_key(input.push(x), k) <==> has_key(new_view, k) by {
                            lemma_has_key_push(input, x, k);
                            lemma_has_key_push(old_view, x, k);
                        }
                        assert(distinct_keys(new_view)) by {
                            assert forall|a: int, c: int| 0 <= a < c < new_view.len() implies key_of(
                                #[trigger] new_view[a],
                            ) != key_of(#[trigger] new_view[c]) by {
                                if c == old_view.len() {
                                    assert(new_view[a] == old_view[a]);
                                } else {
                                    assert(new_view[a] == old_view[a]);
                                    assert(new_view[c] == old_view[c]);
                                }
                            }
                        }
                        assert(first_amount(input_rows, row_key(row)) is None);
                        assert forall|i: int| 0 <= i < out.len() implies first_amount(
                            input_rows.push(row),
                            row_key(#[trigger] out@[i]),
                        ) == Some(out@[i].balance) by {
                            if i < old_out.len() {
                                assert(out@[i] == old_out[i]);
                                assert(first_amount(input_rows, row_key(old_out[i])) == Some(old_out[i].balance));
                            } else {
                                assert(out@[i] == row);
                            }
                        }
                        assert forall|k: (i32, Date)| #[trigger] first_amount(input_rows.push(row), k) is Some
                            <==> has_key(new_view, k) by {
                            lemma_has_key_push(old_view, x, k);
                            assert(first_amount(input_rows, k) is Some <==> has_key(old_view, k));
                            assert(key_of(x) == row_key(row));
                        }
                    }
                },
            }
            r = r + 1;
        }
        assert(frame.view_rows().take(frame.rows.len() as int) == frame.view_rows());
        assert(frame.rows@.take(frame.rows.len() as int) == frame.rows@);
        f = f + 1;
    }
    assert(frames@.take(frames.len() as int) == frames@);
    BalanceFrame { rows: out }
}

} // verus!
