//! Transactions with categories and tags, their conversion to columns, and
//! the per-day summaries by category and by tag.

use crate::amount::{
    abs_int, aligned, lemma_add_to_entry, lemma_fits_within, lemma_magnitude_insert, lemma_magnitude_member,
    lemma_magnitude_prefix, magnitude_at, sum_fits, sums_exactly_at, Amount,
};
use crate::calendar::Date;
use crate::error::ComputeError;
use vstd::prelude::*;

verus! {

broadcast use vstd::seq_lib::group_seq_properties;

/// Day number of January 1, 1970, the start of the Unix epoch.
pub const UNIX_EPOCH_DAYS: i32 = 719163;

/// Milliseconds in a day.
pub const MILLIS_PER_DAY: i64 = 86400000;

/// A category of transactions.
#[derive(Debug, Clone)]
pub struct Category {
    pub id: i32,
    pub name: String,
    pub description: Option<String>,
    pub parent_id: Option<i32>,
}

/// A tag of transactions.
#[derive(Debug, Clone)]
pub struct Tag {
    pub id: i32,
    pub name: String,
    pub description: Option<String>,
}

/// A transaction of an account on a date, optionally categorised and tagged.
#[derive(Debug)]
pub struct Transaction {
    pub date: Date,
    pub amount: Amount,
    pub account: i32,
    pub category: Option<Category>,
    pub tags: Vec<Tag>,
}

impl Transaction {
    /// A transaction without category and tags.
    pub fn new(date: Date, amount: Amount, account: i32) -> (r: Transaction)
        ensures
            r.date == date,
            r.amount == amount,
            r.account == account,
            r.category is None,
            r.tags.len() == 0,
    {
        Transaction { date, amount, account, category: None, tags: Vec::new() }
    }

    /// A transaction with one tag.
    pub fn new_with_tag(date: Date, amount: Amount, account: i32, tag: Tag) -> (r: Transaction)
        ensures
            r.date == date,
            r.amount == amount,
            r.account == account,
            r.category is None,
            r.tags@ == seq![tag],
    {
        let mut tags: Vec<Tag> = Vec::new();
        tags.push(tag);
        Transaction { date, amount, account, category: None, tags }
    }

    pub fn date(&self) -> (r: Date)
        ensures
            r == self.date,
    {
        self.date
    }

    pub fn amount(&self) -> (r: Amount)
        ensures
            r == self.amount,
    {
        self.amount
    }

    pub fn account(&self) -> (r: i32)
        ensures
            r == self.account,
    {
        self.account
    }

    pub fn set_category(&mut self, category: Option<Category>)
        ensures
            final(self).category == category,
            final(self).date == old(self).date,
            final(self).amount == old(self).amount,
            final(self).account == old(self).account,
            final(self).tags@ == old(self).tags@,
    {
        self.category = category;
    }
}

// ---------------------------------------------------------------------------
// Columns
// ---------------------------------------------------------------------------

/// Milliseconds since the Unix epoch of midnight (UTC) of a date.
pub open spec fn timestamp_millis(d: Date) -> int {
    (d.days - UNIX_EPOCH_DAYS) * MILLIS_PER_DAY
}

fn midnight_millis(d: Date) -> (r: i64)
    requires
        d.wf(),
    ensures
        r == timestamp_millis(d),
{
    proof {
        crate::calendar::lemma_ordinal_bounds(d.year as int, d.month as int, d.day as int);
    }
    (d.days as i64 - UNIX_EPOCH_DAYS as i64) * MILLIS_PER_DAY
}

/// Transactions as columns: the midnight timestamp in milliseconds of each
/// date, the amount and the account.
#[derive(Debug, Clone)]
pub struct TransactionFrame {
    pub date: Vec<i64>,
    pub amount: Vec<Amount>,
    pub account: Vec<i32>,
}

impl TransactionFrame {
    /// Number of rows and of columns.
    pub fn shape(&self) -> (r: (usize, usize))
        ensures
            r == (self.date.len(), 3usize),
    {
        (self.date.len(), 3)
    }
}

/// `f` holds the transactions `txs`, one row each, in order.
pub open spec fn frame_of(f: TransactionFrame, txs: Seq<(Date, Amount, i32)>) -> bool {
    &&& f.date.len() == txs.len()
    &&& f.amount.len() == txs.len()
    &&& f.account.len() == txs.len()
    &&& forall|i: int|
        0 <= i < txs.len() ==> f.date@[i] == timestamp_millis(#[trigger] txs[i].0) && f.amount@[i]
            == txs[i].1 && f.account@[i] == txs[i].2
}

/// The date, amount and account of a transaction.
pub open spec fn tx_view(t: Transaction) -> (Date, Amount, i32) {
    (t.date, t.amount, t.account)
}

/// Conversion of a transaction to columns.
pub trait TransactionPolars {
    /// The transaction can be converted (its date is a calendar date).
    spec fn convertible(&self) -> bool;

    /// The rows the conversion gives.
    spec fn rows(&self) -> Seq<(Date, Amount, i32)>;

    /// The transaction as one row of columns.
    fn to_series(&self) -> (r: TransactionFrame)
        requires
            self.convertible(),
        ensures
            frame_of(r, self.rows()),
    ;

    /// The transaction as a one-row frame.
    fn to_df(&self) -> (r: Result<TransactionFrame, ComputeError>)
        requires
            self.convertible(),
        ensures
            r matches Ok(f) && frame_of(f, self.rows()),
    ;
}

impl TransactionPolars for Transaction {
    open spec fn convertible(&self) -> bool {
        self.date.wf()
    }

    open spec fn rows(&self) -> Seq<(Date, Amount, i32)> {
        seq![tx_view(*self)]
    }

    fn to_series(&self) -> (r: TransactionFrame) {
        let mut date: Vec<i64> = Vec::new();
        let mut amount: Vec<Amount> = Vec::new();
        let mut account: Vec<i32> = Vec::new();
        date.push(midnight_millis(self.date));
        amount.push(self.amount);
        account.push(self.account);
        TransactionFrame { date, amount, account }
    }

    fn to_df(&self) -> (r: Result<TransactionFrame, ComputeError>) {
        Ok(self.to_series())
    }
}

/// Conversion of a list of transactions to a frame.
pub trait TransactionIteratorPolars {
    /// Every transaction can be converted.
    spec fn convertible(&self) -> bool;

    /// The rows the conversion gives, in order.
    spec fn rows(&self) -> Seq<(Date, Amount, i32)>;

    /// The transactions as a frame: one row per transaction, in order.
    fn to_df(&self) -> (r: Result<TransactionFrame, ComputeError>)
        requires
            self.convertible(),
        ensures
            r matches Ok(f) && frame_of(f, self.rows()),
    ;
}

impl TransactionIteratorPolars for Vec<Transaction> {
    open spec fn convertible(&self) -> bool {
        forall|i: int| 0 <= i < self.len() ==> (#[trigger] self@[i]).date.wf()
    }

    open spec fn rows(&self) -> Seq<(Date, Amount, i32)> {
        self@.map_values(|t: Transaction| tx_view(t))
    }

    fn to_df(&self) -> (r: Result<TransactionFrame, ComputeError>) {
        let mut date: Vec<i64> = Vec::new();
        let mut amount: Vec<Amount> = Vec::new();
        let mut account: Vec<i32> = Vec::new();
        let ghost txs = self@.map_values(|t: Transaction| tx_view(t));
        let mut i: usize = 0;
        while i < self.len()
            invariant
                i <= self.len(),
                txs == self@.map_values(|t: Transaction| tx_view(t)),
                forall|q: int| 0 <= q < self.len() ==> (#[trigger] self@[q]).date.wf(),
                date.len() == i,
                amount.len() == i,
                account.len() == i,
                forall|q: int|
                    0 <= q < i ==> date@[q] == timestamp_millis(#[trigger] txs[q].0) && amount@[q] == txs[q].1
                        && account@[q] == txs[q].2,
            decreases self.len() - i,
        {
            let t = &self[i];
            date.push(midnight_millis(t.date));
            amount.push(t.amount);
            account.push(t.account);
            i = i + 1;
        }
        let f = TransactionFrame { date, amount, account };
        assert(frame_of(f, txs));
        Ok(f)
    }
}

/// Converts transactions to a frame: one row per transaction, in order.
pub fn transactions_to_df(transactions: &Vec<Transaction>) -> (r: Result<TransactionFrame, ComputeError>)
    requires
        forall|i: int| 0 <= i < transactions.len() ==> (#[trigger] transactions@[i]).date.wf(),
    ensures
        r matches Ok(f) && frame_of(f, transactions@.map_values(|t: Transaction| tx_view(t))),
{
    TransactionIteratorPolars::to_df(transactions)
}

// ---------------------------------------------------------------------------
// Summaries by category and by tag
// ---------------------------------------------------------------------------

/// One amount to be summed under the key (date, account, group id, group name).
#[derive(Debug, Clone)]
pub struct SummaryEntry {
    pub date: Date,
    pub account: i32,
    pub group_id: i32,
    pub group_name: String,
    pub amount: Amount,
}

/// The sum of the amounts of one key.
#[derive(Debug, Clone)]
pub struct SummaryRow {
    /// Midnight of the date, in milliseconds since the Unix epoch.
    pub timestamp_ms: i64,
    pub date: Date,
    pub account: i32,
    pub group_id: i32,
    pub group_name: String,
    pub amount: Amount,
}

/// The key of an entry: date, account, group id, group name.
pub open spec fn entry_key(e: SummaryEntry) -> (Date, i32, i32, Seq<char>) {
    (e.date, e.account, e.group_id, e.group_name@)
}

/// The key of a summary row.
pub open spec fn row_key(r: SummaryRow) -> (Date, i32, i32, Seq<char>) {
    (r.date, r.account, r.group_id, r.group_name@)
}

/// Sum, in units, of the amounts of the entries with key `k`.
pub open spec fn entries_total(entries: Seq<SummaryEntry>, k: (Date, i32, i32, Seq<char>)) -> int
    decreases entries.len(),
{
    if entries.len() == 0 {
        0
    } else {
        entries_total(entries.drop_last(), k) + (if entry_key(entries.last()) == k {
            entries.last().amount.units()
        } else {
            0
        })
    }
}

/// Some entry has key `k`.
pub open spec fn entries_have(entries: Seq<SummaryEntry>, k: (Date, i32, i32, Seq<char>)) -> bool {
    exists|i: int| 0 <= i < entries.len() && entry_key(#[trigger] entries[i]) == k
}

/// Some row has key `k`.
pub open spec fn rows_have(rows: Seq<SummaryRow>, k: (Date, i32, i32, Seq<char>)) -> bool {
    exists|j: int| 0 <= j < rows.len() && row_key(#[trigger] rows[j]) == k
}

/// The entry's date, account and group id come strictly before the row's.
pub open spec fn entry_before(e: SummaryEntry, r: SummaryRow) -> bool {
    e.date.days < r.date.days || (e.date.days == r.date.days && (e.account < r.account || (e.account
        == r.account && e.group_id < r.group_id)))
}

/// Rows are ordered by date, then account, then group id.
pub open spec fn summary_ordered(a: SummaryRow, b: SummaryRow) -> bool {
    a.date.days < b.date.days || (a.date.days == b.date.days && (a.account < b.account || (a.account
        == b.account && a.group_id <= b.group_id)))
}

/// `rows` sum `entries` by key: each key of the entries appears in exactly one
/// row, with the sum of its amounts; the rows are ordered by date, account and
/// group id.
pub open spec fn summarises(entries: Seq<SummaryEntry>, rows: Seq<SummaryRow>) -> bool {
    &&& forall|i: int, j: int| 0 <= i < j < rows.len() ==> row_key(#[trigger] rows[i]) != row_key(#[trigger] rows[j])
    &&& forall|i: int, j: int| 0 <= i < j < rows.len() ==> summary_ordered(#[trigger] rows[i], #[trigger] rows[j])
    &&& forall|i: int|
        0 <= i < rows.len() ==> (#[trigger] rows[i]).amount.units() == entries_total(entries, row_key(rows[i]))
            && rows[i].timestamp_ms == timestamp_millis(rows[i].date) && rows[i].amount.wf()
    &&& forall|k: (Date, i32, i32, Seq<char>)| entries_have(entries, k) <==> rows_have(rows, k)
}

proof fn lemma_entries_total_push(entries: Seq<SummaryEntry>, x: SummaryEntry, k: (Date, i32, i32, Seq<char>))
    ensures
        entries_total(entries.push(x), k) == entries_total(entries, k) + (if entry_key(x) == k {
            x.amount.units()
        } else {
            0
        }),
{
    assert(entries.push(x).drop_last() == entries);
}

proof fn lemma_entries_total_absent(entries: Seq<SummaryEntry>, k: (Date, i32, i32, Seq<char>))
    requires
        !entries_have(entries, k),
    ensures
        entries_total(entries, k) == 0,
    decreases entries.len(),
{
    if entries.len() > 0 {
        assert(entry_key(entries[entries.len() - 1]) != k);
        if entries_have(entries.drop_last(), k) {
            let i = choose|i: int| 0 <= i < entries.drop_last().len() && entry_key(#[trigger] entries.drop_last()[i]) == k;
            assert(entries[i] == entries.drop_last()[i]);
        }
        lemma_entries_total_absent(entries.drop_last(), k);
    }
}

proof fn lemma_entries_have_push(entries: Seq<SummaryEntry>, x: SummaryEntry, k: (Date, i32, i32, Seq<char>))
    ensures
        entries_have(entries.push(x), k) <==> (entries_have(entries, k) || entry_key(x) == k),
{
    if entries_have(entries, k) {
        let i = choose|i: int| 0 <= i < entries.len() && entry_key(#[trigger] entries[i]) == k;
        assert(entries.push(x)[i] == entries[i]);
    }
    if entry_key(x) == k {
        assert(entries.push(x)[entries.len() as int] == x);
    }
    if entries_have(entries.push(x), k) {
        let i = choose|i: int| 0 <= i < entries.push(x).len() && entry_key(#[trigger] entries.push(x)[i]) == k;
        if i < entries.len() {
            assert(entries[i] == entries.push(x)[i]);
        }
    }
}

/// The amounts of the entries, in order.
pub open spec fn entry_amounts(s: Seq<SummaryEntry>) -> Seq<Amount> {
    s.map_values(|e: SummaryEntry| e.amount)
}

/// The amounts of the rows, in order.
pub open spec fn row_amounts(s: Seq<SummaryRow>) -> Seq<Amount> {
    s.map_values(|r: SummaryRow| r.amount)
}

/// The rows' amounts have scales of at most `scale` and weigh, at that scale,
/// no more than the amounts `seen` that were added into them.
pub open spec fn grouped_within(rows: Seq<SummaryRow>, seen: Seq<Amount>, scale: int) -> bool {
    &&& forall|q: int| 0 <= q < rows.len() ==> (#[trigger] rows[q]).amount.scale <= scale
    &&& magnitude_at(row_amounts(rows), scale) <= magnitude_at(seen, scale)
}

/// Groups the entries by key and sums them; the rows are ordered by date,
/// account and group id.
#[verifier::rlimit(50)]
#[verifier::spinoff_prover]
fn group_entries(entries: &Vec<SummaryEntry>) -> (r: Result<Vec<SummaryRow>, ComputeError>)
    requires
        forall|i: int| 0 <= i < entries.len() ==> (#[trigger] entries@[i]).date.wf() && entries@[i].amount.wf(),
    ensures
        r matches Ok(rows) ==> {
            &&& forall|i: int, j: int|
                0 <= i < j < rows.len() ==> row_key(#[trigger] rows@[i]) != row_key(#[trigger] rows@[j])
            &&& forall|i: int, j: int|
                0 <= i < j < rows.len() ==> summary_ordered(#[trigger] rows@[i], #[trigger] rows@[j])
            &&& forall|i: int|
                0 <= i < rows.len() ==> (#[trigger] rows@[i]).amount.units() == entries_total(
                    entries@,
                    row_key(rows@[i]),
                ) && rows@[i].timestamp_ms == timestamp_millis(rows@[i].date) && rows@[i].amount.wf()
                    && rows@[i].date.wf()
            &&& forall|k: (Date, i32, i32, Seq<char>)| entries_have(entries@, k) <==> rows_have(rows@, k)
        },
        r matches Err(e) ==> e.is_overflow(),
        forall|scale: int| #[trigger] sums_exactly_at(entry_amounts(entries@), scale) ==> r is Ok,
{
    let mut rows: Vec<SummaryRow> = Vec::new();
    let mut i: usize = 0;
    proof {
        assert forall|scale: int| #[trigger] sums_exactly_at(entry_amounts(entries@), scale) implies grouped_within(
            rows@,
            entry_amounts(entries@.take(0)),
            scale,
        ) by {
            assert(row_amounts(rows@) =~= Seq::<Amount>::empty());
            assert(entry_amounts(entries@.take(0)) =~= Seq::<Amount>::empty());
        }
    }
    while i < entries.len()
        invariant
            i <= entries.len(),
            forall|scale: int| #[trigger] sums_exactly_at(entry_amounts(entries@), scale) ==> grouped_within(
                rows@,
                entry_amounts(entries@.take(i as int)),
                scale,
            ),
            forall|q: int| 0 <= q < entries.len() ==> (#[trigger] entries@[q]).date.wf() && entries@[q].amount.wf(),
            forall|a: int, b: int| 0 <= a < b < rows.len() ==> row_key(#[trigger] rows@[a]) != row_key(#[trigger] rows@[b]),
            forall|a: int, b: int| 0 <= a < b < rows.len() ==> summary_ordered(#[trigger] rows@[a], #[trigger] rows@[b]),
            forall|q: int|
                0 <= q < rows.len() ==> (#[trigger] rows@[q]).amount.units() == entries_total(
                    entries@.take(i as int),
                    row_key(rows@[q]),
                ) && rows@[q].timestamp_ms == timestamp_millis(rows@[q].date) && rows@[q].amount.wf()
                    && rows@[q].date.wf(),
            forall|k: (Date, i32, i32, Seq<char>)|
                entries_have(entries@.take(i as int), k) <==> rows_have(rows@, k),
        decreases entries.len() - i,
    {
        let e = &entries[i];
        assert(entries@[i as int].date.wf());
        let ghost k = entry_key(*e);
        let ghost before = entries@.take(i as int);
        assert(entries@.take(i + 1) == before.push(*e));
        let mut j: usize = 0;
        let mut found: Option<usize> = None;
        while j < rows.len()
            invariant
                j <= rows.len(),
                e.date.wf(),
                forall|q: int| 0 <= q < rows.len() ==> (#[trigger] rows@[q]).date.wf(),
                found matches Some(p) ==> p < rows.len() && row_key(rows@[p as int]) == entry_key(*e),
                found is None ==> forall|q: int| 0 <= q < j ==> row_key(#[trigger] rows@[q]) != entry_key(*e),
            decreases rows.len() - j,
        {
            if found.is_none() {
                let r = &rows[j];
                if r.date.days == e.date.days && r.account == e.account && r.group_id == e.group_id
                    && r.group_name == e.group_name {
                    proof {
                        crate::calendar::lemma_days_determine_date(r.date, e.date);
                    }
                    found = Some(j);
                }
            }
            j = j + 1;
        }
        let ghost old_rows = rows@;
        proof {
            assert(entry_amounts(entries@.take(i + 1)) =~= entry_amounts(before).push(e.amount));
            let s1 = entry_amounts(entries@.take(i + 1));
            assert(s1.drop_last() =~= entry_amounts(before));
            assert(s1.last() == e.amount);
            assert forall|scale: int| #[trigger] sums_exactly_at(entry_amounts(entries@), scale) implies e.amount.scale
                <= scale && magnitude_at(entry_amounts(before), scale) + abs_int(aligned(e.amount, scale))
                <= crate::amount::MAX_MANTISSA && magnitude_at(s1, scale) == magnitude_at(entry_amounts(before), scale)
                + abs_int(aligned(e.amount, scale)) by {
                assert(entry_amounts(entries@)[i as int] == e.amount);
                assert(entry_amounts(entries@).take(i + 1) =~= entry_amounts(entries@.take(i + 1)));
                lemma_magnitude_prefix(entry_amounts(entries@), i + 1, scale);
            }
        }
        match found {
            Some(p) => {
                let cur = rows[p].amount;
                proof {
                    assert forall|scale: int| #[trigger] sums_exactly_at(entry_amounts(entries@), scale) implies sum_fits(
                        cur,
                        e.amount,
                    ) by {
                        assert(row_amounts(old_rows)[p as int] == cur);
                        lemma_magnitude_member(row_amounts(old_rows), p as int, scale);
                        lemma_fits_within(cur, e.amount, scale);
                    }
                }
                let sum = match cur.checked_add(&e.amount) {
                    Some(s) => s,
                    None => {
                        return Err(ComputeError::decimal_overflow());
                    },
                };
                let updated = SummaryRow {
                    timestamp_ms: rows[p].timestamp_ms,
                    date: rows[p].date,
                    account: rows[p].account,
                    group_id: rows[p].group_id,
                    group_name: rows[p].group_name.clone(),
                    amount: sum,
                };
                rows.set(p, updated);
                proof {
                    assert(row_amounts(rows@) =~= row_amounts(old_rows).update(p as int, sum));
                    assert forall|scale: int| #[trigger] sums_exactly_at(entry_amounts(entries@), scale) implies grouped_within(
                        rows@,
                        entry_amounts(entries@.take(i + 1)),
                        scale,
                    ) by {
                        assert(row_amounts(old_rows)[p as int] == cur);
                        lemma_add_to_entry(row_amounts(old_rows), p as int, e.amount, sum, scale);
                        assert forall|q: int| 0 <= q < rows.len() implies (#[trigger] rows@[q]).amount.scale <= scale by {
                            if q != p {
                                assert(rows@[q] == old_rows[q]);
                            }
                        }
                    }
                    assert(row_key(rows@[p as int]) == row_key(old_rows[p as int]));
                    assert forall|q: int| 0 <= q < rows.len() implies (#[trigger] rows@[q]).amount.units()
                        == entries_total(entries@.take(i + 1), row_key(rows@[q])) by {
                        lemma_entries_total_push(before, *e, row_key(rows@[q]));
                        if q != p {
                            assert(rows@[q] == old_rows[q]);
                            if q < p {
                                assert(row_key(old_rows[q]) != row_key(old_rows[p as int]));
                            } else {
                                assert(row_key(old_rows[p as int]) != row_key(old_rows[q]));
                            }
                        }
                    }
                    assert forall|a: int, b: int| 0 <= a < b < rows.len() implies row_key(
                        #[trigger] rows@[a],
                    ) != row_key(#[trigger] rows@[b]) by {
                        assert(row_key(rows@[a]) == row_key(old_rows[a]));
                        assert(row_key(rows@[b]) == row_key(old_rows[b]));
                    }
                    assert forall|kk: (Date, i32, i32, Seq<char>)|
                        entries_have(entries@.take(i + 1), kk) <==> rows_have(rows@, kk) by {
                        lemma_entries_have_push(before, *e, kk);
                        if rows_have(rows@, kk) {
                            let jj = choose|jj: int| 0 <= jj < rows.len() && row_key(#[trigger] rows@[jj]) == kk;
                            assert(row_key(old_rows[jj]) == kk);
                        }
                        if entry_key(*e) == kk {
                            assert(row_key(rows@[p as int]) == kk);
                        }
                        if rows_have(old_rows, kk) {
                            let jj = choose|jj: int| 0 <= jj < old_rows.len() && row_key(#[trigger] old_rows[jj]) == kk;
                            assert(row_key(rows@[jj]) == kk);
                        }
                    }
                }
            },
            None => {
                let ts = midnight_millis(e.date);
                let mut pos: usize = 0;
                while pos < rows.len() && !(e.date.days < rows[pos].date.days || (e.date.days
                    == rows[pos].date.days && (e.account < rows[pos].account || (e.account
                    == rows[pos].account && e.group_id < rows[pos].group_id))))
                    invariant
                        pos <= rows.len(),
                        forall|q: int| 0 <= q < pos ==> !entry_before(*e, #[trigger] rows@[q]),
                    decreases rows.len() - pos,
                {
                    pos = pos + 1;
                }
                let x = SummaryRow {
                    timestamp_ms: ts,
                    date: e.date,
                    account: e.account,
                    group_id: e.group_id,
                    group_name: e.group_name.clone(),
                    amount: e.amount,
                };
                rows.insert(pos, x);
                proof {
                    assert(rows@ == old_rows.insert(pos as int, x));
                    assert(row_amounts(rows@) =~= row_amounts(old_rows).insert(pos as int, e.amount));
                    assert forall|scale: int| #[trigger] sums_exactly_at(entry_amounts(entries@), scale) implies grouped_within(
                        rows@,
                        entry_amounts(entries@.take(i + 1)),
                        scale,
                    ) by {
                        lemma_magnitude_insert(row_amounts(old_rows), pos as int, e.amount, scale);
                        assert forall|q: int| 0 <= q < rows.len() implies (#[trigger] rows@[q]).amount.scale <= scale by {
                            if q < pos {
                                assert(rows@[q] == old_rows[q]);
                            } else if q > pos {
                                assert(rows@[q] == old_rows[q - 1]);
                            }
                        }
                    }
                    assert(row_key(x) == k);
                    assert(!rows_have(old_rows, k)) by {
                        if rows_have(old_rows, k) {
                            let jj = choose|jj: int| 0 <= jj < old_rows.len() && row_key(#[trigger] old_rows[jj]) == k;
                            assert(row_key(old_rows[jj]) != entry_key(*e));
                        }
                    }
                    assert(!entries_have(before, k));
                    assert forall|q: int| 0 <= q < rows.len() implies (#[trigger] rows@[q]).amount.units()
                        == entries_total(entries@.take(i + 1), row_key(rows@[q])) && rows@[q].timestamp_ms
                        == timestamp_millis(rows@[q].date) && rows@[q].amount.wf() && rows@[q].date.wf() by {
                        lemma_entries_total_push(before, *e, row_key(rows@[q]));
                        if q < pos {
                            assert(rows@[q] == old_rows[q]);
                            assert(row_key(old_rows[q]) != k);
                        } else if q > pos {
                            assert(rows@[q] == old_rows[q - 1]);
                            assert(row_key(old_rows[q - 1]) != k);
                        } else {
                            lemma_entries_total_absent(before, k);
                        }
                    }
                    assert forall|a: int, b: int| 0 <= a < b < rows.len() implies row_key(
                        #[trigger] rows@[a],
                    ) != row_key(#[trigger] rows@[b]) by {
                        if a < pos && b < pos {
                            assert(rows@[a] == old_rows[a] && rows@[b] == old_rows[b]);
                        } else if a < pos && b == pos {
                            assert(rows@[a] == old_rows[a]);
                        } else if a < pos && b > pos {
                            assert(rows@[a] == old_rows[a] && rows@[b] == old_rows[b - 1]);
                        } else if a == pos {
                            assert(rows@[b] == old_rows[b - 1]);
                        } else {
                            assert(rows@[a] == old_rows[a - 1] && rows@[b] == old_rows[b - 1]);
                        }
                    }
                    assert forall|a: int, b: int| 0 <= a < b < rows.len() implies summary_ordered(
                        #[trigger] rows@[a],
                        #[trigger] rows@[b],
                    ) by {
                        if pos < old_rows.len() {
                            assert(entry_before(*e, old_rows[pos as int]));
                        }
                        if a < pos && b < pos {
                            assert(rows@[a] == old_rows[a] && rows@[b] == old_rows[b]);
                        } else if a < pos && b == pos {
                            assert(rows@[a] == old_rows[a]);
                            assert(!entry_before(*e, old_rows[a]));
                        } else if a < pos && b > pos {
                            assert(rows@[a] == old_rows[a] && rows@[b] == old_rows[b - 1]);
                            if b - 1 > a {
                                assert(summary_ordered(old_rows[a], old_rows[b - 1]));
                            }
                        } else if a == pos {
                            assert(rows@[b] == old_rows[b - 1]);
                            if b - 1 > pos {
                                assert(summary_ordered(old_rows[pos as int], old_rows[b - 1]));
                            }
                        } else {
                            assert(rows@[a] == old_rows[a - 1] && rows@[b] == old_rows[b - 1]);
                        }
                    }
                    assert forall|kk: (Date, i32, i32, Seq<char>)|
                        entries_have(entries@.take(i + 1), kk) <==> rows_have(rows@, kk) by {
                        lemma_entries_have_push(before, *e, kk);
                        if rows_have(rows@, kk) {
                            let jj = choose|jj: int| 0 <= jj < rows.len() && row_key(#[trigger] rows@[jj]) == kk;
                            if jj < pos {
                                assert(row_key(old_rows[jj]) == kk);
                            } else if jj > pos {
                                assert(row_key(old_rows[jj - 1]) == kk);
                            }
                        }
                        if rows_have(old_rows, kk) {
                            let jj = choose|jj: int| 0 <= jj < old_rows.len() && row_key(#[trigger] old_rows[jj]) == kk;
                            if jj < pos {
                                assert(row_key(rows@[jj]) == kk);
                            } else {
                                assert(row_key(rows@[jj + 1]) == kk);
                            }
                        }
                        if entry_key(*e) == kk {
                            assert(row_key(rows@[pos as int]) == kk);
                        }
                    }
                }
            },
        }
        i = i + 1;
    }
    assert(entries@.take(entries.len() as int) == entries@);
    Ok(rows)
}


/// The key and amount of an entry.
pub open spec fn entry_view(e: SummaryEntry) -> ((Date, i32, i32, Seq<char>), Amount) {
    (entry_key(e), e.amount)
}

/// The amounts of key-amount pairs, in order.
pub open spec fn view_amounts(v: Seq<((Date, i32, i32, Seq<char>), Amount)>) -> Seq<Amount> {
    v.map_values(|x: ((Date, i32, i32, Seq<char>), Amount)| x.1)
}

/// The transaction lies within `[start, end]`.
pub open spec fn in_range(t: Transaction, start: Date, end: Date) -> bool {
    start.days <= t.date.days <= end.days
}

/// The entries of a summary by category: one per transaction within the range,
/// under its category (or id -1 and the name "Uncategorized").
pub open spec fn category_entry_views(txs: Seq<Transaction>, start: Date, end: Date) -> Seq<
    ((Date, i32, i32, Seq<char>), Amount),
>
    decreases txs.len(),
{
    if txs.len() == 0 {
        seq![]
    } else {
        let t = txs.last();
        let prev = category_entry_views(txs.drop_last(), start, end);
        if in_range(t, start, end) {
            prev.push(
                (
                    match t.category {
                        Some(c) => (t.date, t.account, c.id, c.name@),
                        None => (t.date, t.account, -1i32, "Uncategorized"@),
                    },
                    t.amount,
                ),
            )
        } else {
            prev
        }
    }
}

/// The entries of a summary by tag: for each transaction within the range, one
/// per tag, or one under id -1 and the name "untagged" when it has no tag.
pub open spec fn tag_entry_views(txs: Seq<Transaction>, start: Date, end: Date) -> Seq<
    ((Date, i32, i32, Seq<char>), Amount),
>
    decreases txs.len(),
{
    if txs.len() == 0 {
        seq![]
    } else {
        let t = txs.last();
        let prev = tag_entry_views(txs.drop_last(), start, end);
        if !in_range(t, start, end) {
            prev
        } else if t.tags.len() == 0 {
            prev.push(((t.date, t.account, -1i32, "untagged"@), t.amount))
        } else {
            prev + t.tags@.map_values(|g: Tag| ((t.date, t.account, g.id, g.name@), t.amount))
        }
    }
}

/// The key under which a transaction within the range counts for its `g`-th
/// tag.
pub open spec fn tag_key(t: Transaction, g: int) -> (Date, i32, i32, Seq<char>) {
    (t.date, t.account, t.tags@[g].id, t.tags@[g].name@)
}

proof fn lemma_tag_entry_present(txs: Seq<Transaction>, start: Date, end: Date, i: int, g: int)
    requires
        0 <= i < txs.len(),
        in_range(txs[i], start, end),
        0 <= g < txs[i].tags.len(),
    ensures
        exists|p: int|
            0 <= p < tag_entry_views(txs, start, end).len() && #[trigger] tag_entry_views(txs, start, end)[p]
                == (tag_key(txs[i], g), txs[i].amount),
    decreases txs.len(),
{
    let views = tag_entry_views(txs, start, end);
    let prev = tag_entry_views(txs.drop_last(), start, end);
    let t = txs.last();
    if i == txs.len() - 1 {
        let extra = t.tags@.map_values(|tg: Tag| ((t.date, t.account, tg.id, tg.name@), t.amount));
        assert(views == prev + extra);
        assert(views[prev.len() + g] == extra[g]);
    } else {
        lemma_tag_entry_present(txs.drop_last(), start, end, i, g);
        assert(txs.drop_last()[i] == txs[i]);
        let p = choose|p: int| 0 <= p < prev.len() && #[trigger] prev[p] == (tag_key(txs[i], g), txs[i].amount);
        if !in_range(t, start, end) {
            assert(views == prev);
        } else if t.tags.len() == 0 {
            assert(views[p] == prev[p]);
        } else {
            let extra = t.tags@.map_values(|tg: Tag| ((t.date, t.account, tg.id, tg.name@), t.amount));
            assert(views == prev + extra);
            assert(views[p] == prev[p]);
        }
    }
}

proof fn lemma_untagged_entry_present(txs: Seq<Transaction>, start: Date, end: Date, i: int)
    requires
        0 <= i < txs.len(),
        in_range(txs[i], start, end),
        txs[i].tags.len() == 0,
    ensures
        exists|p: int|
            0 <= p < tag_entry_views(txs, start, end).len() && #[trigger] tag_entry_views(txs, start, end)[p]
                == ((txs[i].date, txs[i].account, -1i32, "untagged"@), txs[i].amount),
    decreases txs.len(),
{
    let views = tag_entry_views(txs, start, end);
    let prev = tag_entry_views(txs.drop_last(), start, end);
    let t = txs.last();
    if i == txs.len() - 1 {
        assert(views[prev.len() as int] == ((t.date, t.account, -1i32, "untagged"@), t.amount));
    } else {
        lemma_untagged_entry_present(txs.drop_last(), start, end, i);
        assert(txs.drop_last()[i] == txs[i]);
        let p = choose|p: int|
            0 <= p < prev.len() && #[trigger] prev[p] == ((txs[i].date, txs[i].account, -1i32, "untagged"@), txs[i].amount);
        if !in_range(t, start, end) {
            assert(views == prev);
        } else if t.tags.len() == 0 {
            assert(views[p] == prev[p]);
        } else {
            let extra = t.tags@.map_values(|tg: Tag| ((t.date, t.account, tg.id, tg.name@), t.amount));
            assert(views == prev + extra);
            assert(views[p] == prev[p]);
        }
    }
}

/// A transaction within the range that has no tag counts once, under id -1
/// and the name "untagged": the summary by tag has that row, and the
/// transaction's amount is among the amounts it adds up.
pub proof fn law_untagged_transaction_has_its_row(
    txs: Seq<Transaction>,
    start: Date,
    end: Date,
    entries: Seq<SummaryEntry>,
    rows: Seq<SummaryRow>,
    i: int,
)
    requires
        entries.map_values(|e: SummaryEntry| entry_view(e)) == tag_entry_views(txs, start, end),
        summarises(entries, rows),
        0 <= i < txs.len(),
        in_range(txs[i], start, end),
        txs[i].tags.len() == 0,
    ensures
        rows_have(rows, (txs[i].date, txs[i].account, -1i32, "untagged"@)),
        exists|q: int|
            0 <= q < entries.len() && entry_key(#[trigger] entries[q]) == (txs[i].date, txs[i].account, -1i32,
                "untagged"@) && entries[q].amount == txs[i].amount,
{
    lemma_untagged_entry_present(txs, start, end, i);
    let views = tag_entry_views(txs, start, end);
    let p = choose|p: int|
        0 <= p < views.len() && #[trigger] views[p] == ((txs[i].date, txs[i].account, -1i32, "untagged"@), txs[i].amount);
    assert(entries.map_values(|e: SummaryEntry| entry_view(e))[p] == entry_view(entries[p]));
    assert(entries_have(entries, (txs[i].date, txs[i].account, -1i32, "untagged"@)));
}

/// Each tag of each transaction within the range counts: the summary by tag
/// (`rows`, as [`TagsComputer::compute_tags_summary`] gives them, made from
/// `entries`) has a row under the transaction's date, account and that tag,
/// and the transaction's amount is among the amounts that this row adds up.
pub proof fn law_every_tag_of_a_transaction_has_its_row(
    txs: Seq<Transaction>,
    start: Date,
    end: Date,
    entries: Seq<SummaryEntry>,
    rows: Seq<SummaryRow>,
    i: int,
    g: int,
)
    requires
        entries.map_values(|e: SummaryEntry| entry_view(e)) == tag_entry_views(txs, start, end),
        summarises(entries, rows),
        0 <= i < txs.len(),
        in_range(txs[i], start, end),
        0 <= g < txs[i].tags.len(),
    ensures
        rows_have(rows, tag_key(txs[i], g)),
        exists|q: int|
            0 <= q < entries.len() && entry_key(#[trigger] entries[q]) == tag_key(txs[i], g) && entries[q].amount
                == txs[i].amount,
{
    lemma_tag_entry_present(txs, start, end, i, g);
    let views = tag_entry_views(txs, start, end);
    let p = choose|p: int| 0 <= p < views.len() && #[trigger] views[p] == (tag_key(txs[i], g), txs[i].amount);
    assert(entries.map_values(|e: SummaryEntry| entry_view(e))[p] == entry_view(entries[p]));
    assert(entry_key(entries[p]) == tag_key(txs[i], g));
    assert(entries_have(entries, tag_key(txs[i], g)));
}

/// The transactions' dates are supported and their amounts representable.
pub open spec fn transactions_wf(txs: Seq<Transaction>) -> bool {
    forall|i: int| 0 <= i < txs.len() ==> (#[trigger] txs[i]).date.wf() && txs[i].amount.wf()
}

/// Computes expenses and incomes per account, per day, per category.
#[derive(Debug)]
pub struct CategoriesComputer;

impl CategoriesComputer {
    pub fn new() -> (r: Self) {
        CategoriesComputer
    }

    /// Sums the transactions within `[start_date, end_date]` per date, account
    /// and category (transactions without category under id -1, "Uncategorized");
    /// the rows are ordered by date, account and category id.  Fails only when a
    /// decimal sum overflows, which it never does where the amounts summed add
    /// up exactly at some scale ([`sums_exactly_at`]).
    pub fn compute_categories_summary(
        &self,
        transactions: Vec<Transaction>,
        start_date: Date,
        end_date: Date,
    ) -> (r: Result<Vec<SummaryRow>, ComputeError>)
        requires
            transactions_wf(transactions@),
        ensures
            r matches Ok(rows) ==> exists|entries: Seq<SummaryEntry>|
                entries.map_values(|e: SummaryEntry| entry_view(e)) == category_entry_views(
                    transactions@,
                    start_date,
                    end_date,
                ) && #[trigger] summarises(entries, rows@),
            r matches Err(e) ==> e.is_overflow(),
            forall|scale: int|
                #[trigger] sums_exactly_at(view_amounts(category_entry_views(transactions@, start_date, end_date)), scale)
                    ==> r is Ok,
    {
        let mut entries: Vec<SummaryEntry> = Vec::new();
        let mut i: usize = 0;
        while i < transactions.len()
            invariant
                i <= transactions.len(),
                transactions_wf(transactions@),
                forall|q: int| 0 <= q < entries.len() ==> (#[trigger] entries@[q]).date.wf() && entries@[q].amount.wf(),
                entries@.map_values(|e: SummaryEntry| entry_view(e)) == category_entry_views(
                    transactions@.take(i as int),
                    start_date,
                    end_date,
                ),
            decreases transactions.len() - i,
        {
            let t = &transactions[i];
            assert(transactions@.take(i + 1).drop_last() == transactions@.take(i as int));
            assert(transactions@.take(i + 1).last() == *t);
            assert(transactions@[i as int].date.wf());
            if start_date.days <= t.date.days && t.date.days <= end_date.days {
                let (group_id, group_name) = match &t.category {
                    Some(c) => (c.id, c.name.clone()),
                    None => {
                        let name = String::from_str("Uncategorized");
                        (-1i32, name)
                    },
                };
                let ghost before = entries@;
                entries.push(SummaryEntry { date: t.date, account: t.account, group_id, group_name, amount: t.amount });
                assert(entries@.map_values(|e: SummaryEntry| entry_view(e)) =~= before.map_values(
                    |e: SummaryEntry| entry_view(e),
                ).push(entry_view(entries@[before.len() as int])));
            }
            i = i + 1;
        }
        assert(transactions@.take(transactions.len() as int) == transactions@);
        proof {
            let views = entries@.map_values(|e: SummaryEntry| entry_view(e));
            assert(entry_amounts(entries@) =~= view_amounts(views));
        }
        let r = group_entries(&entries);
        proof {
            if r is Ok {
                assert(summarises(entries@, r->Ok_0@));
            }
        }
        r
    }
}

/// Computes expenses and incomes per account, per day, per tag.
#[derive(Debug)]
pub struct TagsComputer;

impl TagsComputer {
    pub fn new() -> (r: Self) {
        TagsComputer
    }

    /// Sums the transactions within `[start_date, end_date]` per date, account
    /// and tag (a transaction counts once under each of its tags, or under id -1,
    /// "untagged", when it has none); the rows are ordered by date, account and
    /// tag id.  Fails only when a decimal sum overflows, which it never does
    /// where the amounts summed add up exactly at some scale
    /// ([`sums_exactly_at`]).
    pub fn compute_tags_summary(
        &self,
        transactions: Vec<Transaction>,
        start_date: Date,
        end_date: Date,
    ) -> (r: Result<Vec<SummaryRow>, ComputeError>)
        requires
            transactions_wf(transactions@),
        ensures
            r matches Ok(rows) ==> exists|entries: Seq<SummaryEntry>|
                entries.map_values(|e: SummaryEntry| entry_view(e)) == tag_entry_views(
                    transactions@,
                    start_date,
                    end_date,
                ) && #[trigger] summarises(entries, rows@),
            r matches Err(e) ==> e.is_overflow(),
            forall|scale: int|
                #[trigger] sums_exactly_at(view_amounts(tag_entry_views(transactions@, start_date, end_date)), scale)
                    ==> r is Ok,
    {
        let mut entries: Vec<SummaryEntry> = Vec::new();
        let mut i: usize = 0;
        while i < transactions.len()
            invariant
                i <= transactions.len(),
                transactions_wf(transactions@),
                forall|q: int| 0 <= q < entries.len() ==> (#[trigger] entries@[q]).date.wf() && entries@[q].amount.wf(),
                entries@.map_values(|e: SummaryEntry| entry_view(e)) == tag_entry_views(
                    transactions@.take(i as int),
                    start_date,
                    end_date,
                ),
            decreases transactions.len() - i,
        {
            let t = &transactions[i];
            assert(transactions@.take(i + 1).drop_last() == transactions@.take(i as int));
            assert(transactions@.take(i + 1).last() == *t);
            assert(transactions@[i as int].date.wf());
            if start_date.days <= t.date.days && t.date.days <= end_date.days {
                if t.tags.len() == 0 {
                    let ghost before = entries@;
                    entries.push(
                        SummaryEntry {
                            date: t.date,
                            account: t.account,
                            group_id: -1,
                            group_name: String::from_str("untagged"),
                            amount: t.amount,
                        },
                    );
                    assert(entries@.map_values(|e: SummaryEntry| entry_view(e)) =~= before.map_values(
                        |e: SummaryEntry| entry_view(e),
                    ).push(entry_view(entries@[before.len() as int])));
                } else {
                    let ghost before = entries@;
                    let mut g: usize = 0;
                    while g < t.tags.len()
                        invariant
                            g <= t.tags.len(),
                            t.date.wf(),
                            t.amount.wf(),
                            entries.len() == before.len() + g,
                            forall|q: int| 0 <= q < entries.len() ==> (#[trigger] entries@[q]).date.wf() && entries@[q].amount.wf(),
                            entries@.map_values(|e: SummaryEntry| entry_view(e)) == before.map_values(
                                |e: SummaryEntry| entry_view(e),
                            ) + t.tags@.take(g as int).map_values(
                                |tg: Tag| ((t.date, t.account, tg.id, tg.name@), t.amount),
                            ),
                        decreases t.tags.len() - g,
                    {
                        let tag = &t.tags[g];
                        let ghost mid = entries@;
                        entries.push(
                            SummaryEntry {
                                date: t.date,
                                account: t.account,
                                group_id: tag.id,
                                group_name: tag.name.clone(),
                                amount: t.amount,
                            },
                        );
                        assert(t.tags@.take(g + 1) == t.tags@.take(g as int).push(*tag));
                        assert(entries@.map_values(|e: SummaryEntry| entry_view(e)) =~= mid.map_values(
                            |e: SummaryEntry| entry_view(e),
                        ).push(entry_view(entries@[mid.len() as int])));
                        g = g + 1;
                    }
                    assert(t.tags@.take(t.tags.len() as int) == t.tags@);
                }
            }
            i = i + 1;
        }
        assert(transactions@.take(transactions.len() as int) == transactions@);
        proof {
            let views = entries@.map_values(|e: SummaryEntry| entry_view(e));
            assert(entry_amounts(entries@) =~= view_amounts(views));
        }
        let r = group_entries(&entries);
        proof {
            if r is Ok {
                assert(summarises(entries@, r->Ok_0@));
            }
        }
        r
    }
}

} // verus!
