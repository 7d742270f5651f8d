//! A caching wrapper around an account state calculator: tables computed for
//! a list of accounts and a date range are kept, with a time to live, and
//! handed out again for the same key.

use crate::balance::{account_ids, BalanceFrame};
use crate::calculator::{AccountStateCalculator, Calculator};
use crate::calendar::{lemma_days_determine_date, Date, MAX_YEAR};
use crate::error::ComputeError;
use crate::merge::MergeMethod;
use crate::model::{Account, Ledger};
use cached::Cached;
use cached::LruTtlCache;
use std::collections::hash_map::DefaultHasher;
use std::hash::Hasher;
use std::time::Duration;
use vstd::prelude::*;
use vstd::std_specs::hash::DefaultHasherAdditionalSpecFns;

verus! {

broadcast use vstd::seq_lib::group_seq_properties;

// ---------------------------------------------------------------------------
// Cache keys
// ---------------------------------------------------------------------------

/// The four bytes of an integer, least significant first.
pub open spec fn int_bytes(x: i32) -> Seq<u8> {
    let u = x as u32;
    seq![(u & 0xff) as u8, ((u >> 8u32) & 0xff) as u8, ((u >> 16u32) & 0xff) as u8, (u >> 24u32) as u8]
}

fn int_bytes_exec(x: i32) -> (r: Vec<u8>)
    ensures
        r@ == int_bytes(x),
{
    let u = x as u32;
    let mut v: Vec<u8> = Vec::new();
    v.push((u & 0xff) as u8);
    v.push(((u >> 8u32) & 0xff) as u8);
    v.push(((u >> 16u32) & 0xff) as u8);
    v.push((u >> 24u32) as u8);
    v
}

/// The writes that hash one account: its id, its name and its currency code
/// (each as UTF-8 bytes followed by the byte `0xff`) and its owner id.
pub open spec fn account_writes(a: Account) -> Seq<Seq<u8>> {
    seq![
        int_bytes(a.id),
        vstd::utf8::encode_utf8(a.name@),
        seq![0xffu8],
        vstd::utf8::encode_utf8(a.currency_code@),
        seq![0xffu8],
        int_bytes(a.owner_id),
    ]
}

/// The writes that hash a list of accounts, in order.
pub open spec fn key_writes(accounts: Seq<Account>) -> Seq<Seq<u8>>
    decreases accounts.len(),
{
    if accounts.len() == 0 {
        seq![]
    } else {
        key_writes(accounts.drop_last()) + account_writes(accounts.last())
    }
}

/// The hash of a list of accounts.
pub open spec fn accounts_hash(accounts: Seq<Account>) -> u64 {
    DefaultHasher::spec_finish(key_writes(accounts))
}

/// A cache key for a computation of account states: a hash of the accounts'
/// ids, names, currency codes and owners, and the date range.
#[derive(Clone, Copy, Debug, PartialEq, Eq, Structural, Hash)]
pub struct ComputeStateKey {
    pub accounts_hash: u64,
    pub start_date: Date,
    pub end_date: Date,
}

impl ComputeStateKey {
    /// The key of a computation for the accounts over `[start_date, end_date]`.
    pub fn new(accounts: &Vec<Account>, start_date: Date, end_date: Date) -> (r: Self)
        ensures
            r.accounts_hash == accounts_hash(accounts@),
            r.start_date == start_date,
            r.end_date == end_date,
    {
        let mut hasher = DefaultHasher::new();
        let mut i: usize = 0;
        while i < accounts.len()
            invariant
                i <= accounts.len(),
                hasher@ == key_writes(accounts@.take(i as int)),
            decreases accounts.len() - i,
        {
            let a = &accounts[i];
            assert(accounts@.take(i + 1).drop_last() == accounts@.take(i as int));
            assert(accounts@.take(i + 1).last() == accounts@[i as int]);
            let id = int_bytes_exec(a.id);
            let mut separator: Vec<u8> = Vec::new();
            separator.push(0xffu8);
            assert(separator@ == seq![0xffu8]);
            let ghost w0 = hasher@;
            hasher.write(id.as_slice());
            let name = a.name.as_str();
            assert(name@ == a.name@);
            let name_bytes = name.as_bytes();
            assert(name_bytes@ == vstd::utf8::encode_utf8(a.name@));
            hasher.write(name_bytes);
            hasher.write(separator.as_slice());
            let currency = a.currency_code.as_str();
            let currency_bytes = currency.as_bytes();
            assert(currency_bytes@ == vstd::utf8::encode_utf8(a.currency_code@));
            hasher.write(currency_bytes);
            hasher.write(separator.as_slice());
            let owner = int_bytes_exec(a.owner_id);
            hasher.write(owner.as_slice());
            proof {
                assert(hasher@ == w0 + account_writes(accounts@[i as int]));
            }
            i = i + 1;
        }
        assert(accounts@.take(accounts.len() as int) == accounts@);
        ComputeStateKey { accounts_hash: hasher.finish(), start_date, end_date }
    }

    /// The key as the integers the cache stores it by: the hash and the day
    /// numbers of the two dates.
    pub fn cache_key(&self) -> (r: CacheKey)
        ensures
            r == (self.accounts_hash, self.start_date.days, self.end_date.days),
    {
        (self.accounts_hash, self.start_date.days, self.end_date.days)
    }
}

/// Two lists of accounts that agree, account by account, on the ids, names,
/// currency codes and owners.
pub open spec fn same_key_fields(a: Seq<Account>, b: Seq<Account>) -> bool {
    &&& a.len() == b.len()
    &&& forall|i: int|
        0 <= i < a.len() ==> {
            &&& (#[trigger] a[i]).id == b[i].id
            &&& a[i].name@ == b[i].name@
            &&& a[i].currency_code@ == b[i].currency_code@
            &&& a[i].owner_id == b[i].owner_id
        }
}

/// The same accounts (by id, name, currency code and owner) and dates give the
/// same cache key.
pub proof fn lemma_same_accounts_same_key(a: Seq<Account>, b: Seq<Account>)
    requires
        same_key_fields(a, b),
    ensures
        accounts_hash(a) == accounts_hash(b),
    decreases a.len(),
{
    lemma_same_writes(a, b);
}

proof fn lemma_same_writes(a: Seq<Account>, b: Seq<Account>)
    requires
        same_key_fields(a, b),
    ensures
        key_writes(a) == key_writes(b),
    decreases a.len(),
{
    if a.len() > 0 {
        assert(same_key_fields(a.drop_last(), b.drop_last())) by {
            assert forall|i: int| 0 <= i < a.drop_last().len() implies (#[trigger] a.drop_last()[i]).id
                == b.drop_last()[i].id && a.drop_last()[i].name@ == b.drop_last()[i].name@
                && a.drop_last()[i].currency_code@ == b.drop_last()[i].currency_code@
                && a.drop_last()[i].owner_id == b.drop_last()[i].owner_id by {
                assert(a[i] == a.drop_last()[i]);
            }
        }
        lemma_same_writes(a.drop_last(), b.drop_last());
        assert(a.last() == a[a.len() - 1]);
        assert(account_writes(a.last()) == account_writes(b.last()));
    }
}

/// The integers a table is stored by: the accounts' hash and the day numbers of
/// the two dates.
pub type CacheKey = (u64, i32, i32);

/// A store of tables by key.
pub type FrameStore = LruTtlCache<CacheKey, BalanceFrame>;

/// No stored tables.
pub open spec fn no_entries() -> Map<CacheKey, BalanceFrame> {
    Map::empty()
}

// ---------------------------------------------------------------------------
// Trusted items: cached
// ---------------------------------------------------------------------------

/// Declares `cached::LruTtlCache`, the store of computed tables; its contents
/// are seen only through [`cache_entries`].
#[verifier::external_type_specification]
#[verifier::external_body]
#[verifier::reject_recursive_types(K)]
#[verifier::reject_recursive_types(V)]
#[verifier::reject_recursive_types(S)]
pub struct ExLruTtlCache<K, V, S>(LruTtlCache<K, V, S>);

/// Declares `cached::DefaultHashBuilder`, the hasher of the store's keys.
#[verifier::external_type_specification]
#[verifier::external_body]
pub struct ExDefaultHashBuilder(cached::DefaultHashBuilder);

/// The entries a cache store holds: the stored tables by key, expired ones
/// included until a lookup sweeps them out.
pub uninterp spec fn cache_entries(c: FrameStore) -> Map<CacheKey, BalanceFrame>;

/// Calls `cached::LruTtlCache::new`, which makes an empty store of at most
/// `max_size` entries, each living `ttl_secs` seconds; it panics for a zero size
/// or time to live, which `requires` rules out.
#[verifier::external_body]
fn cache_store_new(max_size: usize, ttl_secs: u64) -> (r: FrameStore)
    requires
        max_size > 0,
        ttl_secs > 0,
    ensures
        cache_entries(r) == no_entries(),
{
    LruTtlCache::new(max_size, Duration::from_secs(ttl_secs))
}

/// Calls `Cached::cache_get` and copies the table out.  A live entry is handed
/// out and stays; an expired one is removed and `None` comes back, as for a
/// missing key.  Whether an entry has expired depends on the clock, so a
/// stored key may still give `None`.
#[verifier::external_body]
fn cache_store_get(c: &mut FrameStore, key: CacheKey) -> (r: Option<
    BalanceFrame,
>)
    ensures
        r matches Some(f) ==> cache_entries(*old(c)).contains_key(key) && f.rows@ == cache_entries(
            *old(c),
        )[key].rows@ && cache_entries(*final(c)) == cache_entries(*old(c)),
        r is None ==> cache_entries(*final(c)) == cache_entries(*old(c)).remove(key),
{
    c.cache_get(&key).cloned()
}

/// Calls `Cached::cache_set`: the table is stored under the key, replacing a
/// previous one; when the store is full, the least recently used entries may
/// be evicted.  No other entry changes.
#[verifier::external_body]
fn cache_store_set(c: &mut FrameStore, key: CacheKey, f: BalanceFrame)
    ensures
        cache_entries(*final(c)).contains_key(key),
        cache_entries(*final(c))[key] == f,
        forall|k: CacheKey|
            #[trigger] cache_entries(*final(c)).contains_key(k) && k != key ==> cache_entries(
                *old(c),
            ).contains_key(k) && cache_entries(*final(c))[k] == cache_entries(*old(c))[k],
{
    c.cache_set(key, f);
}

/// Calls `Cached::cache_clear`, which removes every entry.
#[verifier::external_body]
fn cache_store_clear(c: &mut FrameStore)
    ensures
        cache_entries(*final(c)) == no_entries(),
{
    c.cache_clear();
}

/// Calls `Cached::cache_size`: the number of stored entries, expired ones
/// included.
#[verifier::external_body]
fn cache_store_size(c: &FrameStore) -> (r: usize)
    ensures
        r == cache_entries(*c).dom().len(),
{
    c.cache_size()
}

// ---------------------------------------------------------------------------
// The caching calculator
// ---------------------------------------------------------------------------

/// A table that the calculator produced for some data, some accounts whose
/// hash is the key's, and the key's dates.
pub open spec fn produced_for_key(inner: Calculator, key: CacheKey, f: BalanceFrame) -> bool {
    exists|l: Ledger, accounts: Seq<Account>, s: Date, e: Date|
        l.wf() && s.wf() && e.wf() && s.days == key.1 && e.days == key.2 && accounts_hash(accounts) == key.0
            && f.wf() && #[trigger] inner.produces(l, account_ids(accounts), s, e, f.view_rows())
}

/// The key under which the table of the accounts over `[start, end]` is stored.
pub open spec fn state_key(accounts: Seq<Account>, start: Date, end: Date) -> CacheKey {
    (accounts_hash(accounts), start.days, end.days)
}

/// An empty store for a caching calculator ([`AccountStateCacheCalculator::new_with_store`]):
/// it keeps at most `max_size` tables, each for `ttl_secs` seconds.
pub fn empty_store(max_size: usize, ttl_secs: u64) -> (r: FrameStore)
    requires
        max_size > 0,
        ttl_secs > 0,
    ensures
        cache_entries(r) == no_entries(),
{
    cache_store_new(max_size, ttl_secs)
}

/// A caching wrapper around a calculator: the tables it computes are kept, for
/// a time, by the key of their accounts and dates.
pub struct AccountStateCacheCalculator {
    /// The wrapped calculator.
    pub inner: Calculator,
    /// The stored tables.
    pub compute_cache: FrameStore,
    /// The tables the store held when it was handed to the calculator.
    pub seeded: Ghost<Map<CacheKey, BalanceFrame>>,
}

impl AccountStateCacheCalculator {
    /// The wrapped calculator is usable and every stored table is one that it
    /// produced for the entry's key, or the one the store held under the key
    /// when it was handed over.
    pub open spec fn wf(self) -> bool {
        &&& self.inner.wf()
        &&& forall|k: CacheKey|
            #[trigger] cache_entries(self.compute_cache).contains_key(k) ==> produced_for_key(
                self.inner,
                k,
                cache_entries(self.compute_cache)[k],
            ) || (self.seeded@.contains_key(k) && cache_entries(self.compute_cache)[k] == self.seeded@[k]
                && self.seeded@[k].wf())
    }

    /// A caching calculator around `inner` with its own store, which keeps the
    /// tables it holds.
    pub fn new_with_store(inner: Calculator, cache_store: FrameStore) -> (r: Self)
        requires
            inner.wf(),
            forall|k: CacheKey| #[trigger] cache_entries(cache_store).contains_key(k) ==> cache_entries(cache_store)[k].wf(),
        ensures
            r.wf(),
            r.inner == inner,
            cache_entries(r.compute_cache) == cache_entries(cache_store),
            r.seeded@ == cache_entries(cache_store),
    {
        AccountStateCacheCalculator { inner, compute_cache: cache_store, seeded: Ghost(cache_entries(cache_store)) }
    }

    /// A caching calculator around `inner` that keeps at most `cache_size` tables
    /// for `ttl_secs` seconds each (or uses the given store, keeping what it holds).
    pub fn new(
        inner: Calculator,
        cache_size: usize,
        ttl_secs: u64,
        cache_store: Option<FrameStore>,
    ) -> (r: Self)
        requires
            inner.wf(),
            cache_store matches Some(s) ==> forall|k: CacheKey|
                #[trigger] cache_entries(s).contains_key(k) ==> cache_entries(s)[k].wf(),
            cache_store is None ==> cache_size > 0 && ttl_secs > 0,
        ensures
            r.wf(),
            r.inner == inner,
            cache_entries(r.compute_cache) == match cache_store {
                Some(s) => cache_entries(s),
                None => no_entries(),
            },
            r.seeded@ == cache_entries(r.compute_cache),
    {
        let compute_cache = match cache_store {
            Some(store) => store,
            None => cache_store_new(cache_size, ttl_secs),
        };
        let ghost seeded = cache_entries(compute_cache);
        AccountStateCacheCalculator { inner, compute_cache, seeded: Ghost(seeded) }
    }

    /// A caching calculator with the default settings: at most 100 tables, kept
    /// for five minutes.
    pub fn with_defaults(inner: Calculator) -> (r: Self)
        requires
            inner.wf(),
        ensures
            r.wf(),
            r.inner == inner,
            cache_entries(r.compute_cache) == no_entries(),
    {
        Self::new(inner, 100, 300, None)
    }

    /// Removes every stored table.
    pub fn clear_cache(&mut self)
        requires
            old(self).wf(),
        ensures
            final(self).wf(),
            final(self).inner == old(self).inner,
            cache_entries(final(self).compute_cache) == no_entries(),
    {
        cache_store_clear(&mut self.compute_cache);
    }

    /// Removes every stored table of the account state computation.
    pub fn clear_compute_cache(&mut self)
        requires
            old(self).wf(),
        ensures
            final(self).wf(),
            final(self).inner == old(self).inner,
            cache_entries(final(self).compute_cache) == no_entries(),
    {
        cache_store_clear(&mut self.compute_cache);
    }

    /// The number of stored tables.
    pub fn compute_cache_size(&self) -> (r: usize)
        ensures
            r == cache_entries(self.compute_cache).dom().len(),
    {
        cache_store_size(&self.compute_cache)
    }

    /// The account state table of the accounts within `[start_date, end_date]`:
    /// a stored table under the key of the accounts and dates when there is a
    /// live one, else the wrapped calculator's, which is then stored.  On
    /// success the table is one that the wrapped calculator produced for the
    /// dates and for some data and accounts with the same hash as these (or the
    /// table the store held under the key when it was handed over); it is
    /// the table stored under the key afterwards, and it is either the one
    /// stored there before or the wrapped calculator's table of these data and
    /// accounts.  An error is the wrapped calculator's, handed on as it is;
    /// where the key held no table, the result is the wrapped calculator's
    /// own ([`Calculator::outcome`]).  No other stored table changes.
    pub fn compute_account_state(
        &mut self,
        ledger: &Ledger,
        accounts: &Vec<Account>,
        start_date: Date,
        end_date: Date,
    ) -> (r: Result<BalanceFrame, ComputeError>)
        requires
            old(self).wf(),
            ledger.wf(),
            start_date.wf(),
            end_date.wf(),
            end_date.year < MAX_YEAR - 1,
        ensures
            final(self).wf(),
            final(self).inner == old(self).inner,
            final(self).seeded == old(self).seeded,
            r matches Ok(f) ==> f.wf() && ((exists|l: Ledger, accs: Seq<Account>|
                l.wf() && accounts_hash(accs) == accounts_hash(accounts@) && #[trigger] old(self).inner.produces(
                    l,
                    account_ids(accs),
                    start_date,
                    end_date,
                    f.view_rows(),
                )) || (old(self).seeded@.contains_key(state_key(accounts@, start_date, end_date))
                    && f.rows@ == old(self).seeded@[state_key(accounts@, start_date, end_date)].rows@)),
            r matches Err(e) ==> e.is_overflow() || (e.is_refused_merge() && old(self).inner.has_unsupported_merge()),
            r matches Err(e) ==> old(self).inner.outcome(
                *ledger,
                account_ids(accounts@),
                start_date,
                end_date,
                Err(e),
            ),
            !cache_entries(old(self).compute_cache).contains_key(state_key(accounts@, start_date, end_date))
                ==> old(self).inner.outcome(*ledger, account_ids(accounts@), start_date, end_date, r),
            !cache_entries(old(self).compute_cache).contains_key(state_key(accounts@, start_date, end_date))
                ==> (r matches Ok(f) ==> old(self).inner.gives_decimals(
                *ledger,
                account_ids(accounts@),
                start_date,
                end_date,
                f.rows@,
            )),
            old(self).inner.fits(*ledger, account_ids(accounts@), start_date, end_date) ==> r is Ok,
            r matches Ok(f) ==> {
                let key = state_key(accounts@, start_date, end_date);
                &&& cache_entries(final(self).compute_cache).contains_key(key)
                &&& cache_entries(final(self).compute_cache)[key].rows@ == f.rows@
                &&& (cache_entries(old(self).compute_cache).contains_key(key) && f.rows@ == cache_entries(
                    old(self).compute_cache,
                )[key].rows@) || old(self).inner.produces(
                    *ledger,
                    account_ids(accounts@),
                    start_date,
                    end_date,
                    f.view_rows(),
                )
            },
            forall|k: CacheKey|
                k != state_key(accounts@, start_date, end_date) ==> (#[trigger] cache_entries(
                    final(self).compute_cache,
                ).contains_key(k) ==> cache_entries(old(self).compute_cache).contains_key(k) && cache_entries(
                    final(self).compute_cache,
                )[k] == cache_entries(old(self).compute_cache)[k]),
    {
        let key = ComputeStateKey::new(accounts, start_date, end_date).cache_key();
        let ghost before = cache_entries(self.compute_cache);
        match cache_store_get(&mut self.compute_cache, key) {
            Some(f) => {
                proof {
                    assert(before.contains_key(key));
                    if produced_for_key(self.inner, key, before[key]) {
                        let (l, accs, s, e) = choose|l: Ledger, accs: Seq<Account>, s: Date, e: Date|
                            l.wf() && s.wf() && e.wf() && s.days == key.1 && e.days == key.2 && accounts_hash(
                                accs,
                            ) == key.0 && before[key].wf() && #[trigger] self.inner.produces(
                                l,
                                account_ids(accs),
                                s,
                                e,
                                before[key].view_rows(),
                            );
                        lemma_days_determine_date(s, start_date);
                        lemma_days_determine_date(e, end_date);
                        assert(f.view_rows() =~= before[key].view_rows());
                        assert(f.wf());
                    } else {
                        assert(self.seeded@[key].wf());
                        assert(f.wf());
                    }
                }
                return Ok(f);
            },
            None => {},
        }
        let result = match self.inner.compute_account_state(ledger, accounts, start_date, end_date) {
            Ok(f) => f,
            Err(e) => {
                return Err(e);
            },
        };
        let stored = result.duplicate();
        proof {
            assert(stored.view_rows() =~= result.view_rows());
            assert(produced_for_key(self.inner, key, stored));
        }
        cache_store_set(&mut self.compute_cache, key, stored);
        Ok(result)
    }

    /// The merge method of the wrapped calculator.
    pub fn merge_method(&self) -> (r: MergeMethod)
        ensures
            r == self.inner.merge_method_of(),
    {
        self.inner.merge_method()
    }

    /// Gives the wrapped calculator a new opening balance, after removing every
    /// stored table (which it may change); reports whether the calculator uses
    /// one.
    pub fn update_initial_balance(&mut self, balance: crate::amount::Amount) -> (r: bool)
        requires
            old(self).wf(),
            balance.wf(),
        ensures
            r == (old(self).inner is Forecast),
            cache_entries(final(self).compute_cache) == no_entries(),
            match (old(self).inner, final(self).inner) {
                (Calculator::Forecast(a), Calculator::Forecast(b)) => b == crate::calculator::ForecastCalculator {
                    initial_balance: balance,
                    ..a
                },
                _ => final(self).inner == old(self).inner,
            },
            final(self).wf(),
    {
        self.clear_cache();
        let r = self.inner.update_initial_balance(balance);
        r
    }
}

impl AccountStateCalculator for AccountStateCacheCalculator {
    open spec fn calculator_wf(&self) -> bool {
        self.wf()
    }

    /// A table that the wrapped calculator produced for the dates and for some
    /// data and some accounts with the same hash as `ids`' accounts, or the
    /// table the store held for such accounts and the dates when it was handed
    /// over.
    open spec fn can_produce(&self, ledger: Ledger, ids: Seq<i32>, start: Date, end: Date, rows: Seq<(i32, Date, int)>) -> bool {
        (exists|accounts: Seq<Account>, l: Ledger, accs: Seq<Account>|
            #![trigger account_ids(accounts), self.inner.produces(l, account_ids(accs), start, end, rows)]
            account_ids(accounts) == ids && l.wf() && accounts_hash(accs) == accounts_hash(accounts)
                && self.inner.produces(l, account_ids(accs), start, end, rows)) || (exists|accounts: Seq<Account>|
            #![trigger account_ids(accounts)]
            account_ids(accounts) == ids && self.seeded@.contains_key(state_key(accounts, start, end))
                && self.seeded@[state_key(accounts, start, end)].view_rows() == rows)
    }

    open spec fn sure_to_succeed(&self, ledger: Ledger, ids: Seq<i32>, start: Date, end: Date) -> bool {
        self.inner.fits(ledger, ids, start, end)
    }

    open spec fn merge_unsupported(&self) -> bool {
        self.inner.has_unsupported_merge()
    }

    open spec fn chosen_merge_method(&self) -> MergeMethod {
        self.inner.merge_method_of()
    }

    open spec fn uses_initial_balance(&self) -> bool {
        self.inner is Forecast
    }

    /// The wrapped calculator is given the balance, and no table is stored.
    open spec fn balance_given(&self, before: &Self, balance: crate::amount::Amount) -> bool {
        &&& cache_entries(self.compute_cache) == no_entries()
        &&& self.inner.given_balance(before.inner, balance)
    }

    fn compute_account_state(
        &mut self,
        ledger: &Ledger,
        accounts: &Vec<Account>,
        start_date: Date,
        end_date: Date,
    ) -> (r: Result<BalanceFrame, ComputeError>) {
        AccountStateCacheCalculator::compute_account_state(self, ledger, accounts, start_date, end_date)
    }

    fn merge_method(&self) -> MergeMethod {
        AccountStateCacheCalculator::merge_method(self)
    }

    fn update_initial_balance(&mut self, balance: crate::amount::Amount) -> (r: bool) {
        AccountStateCacheCalculator::update_initial_balance(self, balance)
    }
}

} // verus!
