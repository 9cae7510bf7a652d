//! TTL memory cache of aggregated, ranked results, keyed by (query, sources).
//!
//! To bound memory, an entry keeps a sliding window of the full ranked list
//! (by default the requested page and one page on each side), not the whole
//! list: a request hits only when its range falls inside the window.
//!
//! Each entry carries its expiry and an insertion number. When an insertion
//! takes the cache over its size limit, expired entries are dropped first,
//! then the oldest insertions. Times are milliseconds of a monotonic clock,
//! passed in by the caller.
use vstd::prelude::*;

use crate::models::{duplicate_results, results_view, ResultView, SearchResult};
use crate::text::str_eq;

verus! {

/// One cached window: results `[base, base + len)` of a ranked list of
/// `total` results.
pub struct CacheEntry {
    key: String,
    base: usize,
    total: usize,
    results: Vec<SearchResult>,
    expires: u128,
    order: u64,
}

/// Mathematical view of a cache entry.
pub ghost struct EntryState {
    pub key: Seq<char>,
    pub base: nat,
    pub total: nat,
    pub results: Seq<ResultView>,
    /// Expiry time (milliseconds).
    pub expires: int,
    /// Insertion number.
    pub order: u64,
}

/// Mathematical view of the cache: its entries in storage order, the next
/// insertion number, the TTL and the size limit (0: none).
pub ghost struct CacheState {
    pub entries: Seq<EntryState>,
    pub counter: u64,
    pub ttl: nat,
    pub max: nat,
}

pub closed spec fn entry_state(e: CacheEntry) -> EntryState {
    EntryState {
        key: e.key@,
        base: e.base as nat,
        total: e.total as nat,
        results: results_view(e.results@),
        expires: e.expires as int,
        order: e.order,
    }
}

pub closed spec fn states(v: Seq<CacheEntry>) -> Seq<EntryState> {
    v.map_values(|e: CacheEntry| entry_state(e))
}

/// The entry stored under `key` (the first one).
pub open spec fn find_state(es: Seq<EntryState>, key: Seq<char>) -> Option<EntryState>
    decreases es.len(),
{
    if es.len() == 0 {
        None
    } else if es[0].key == key {
        Some(es[0])
    } else {
        find_state(es.drop_first(), key)
    }
}

/// Position of the entry stored under `key`.
pub open spec fn index_of_key(es: Seq<EntryState>, key: Seq<char>) -> Option<int>
    decreases es.len(),
{
    if es.len() == 0 {
        None
    } else if es[0].key == key {
        Some(0)
    } else {
        match index_of_key(es.drop_first(), key) {
            Some(i) => Some(i + 1),
            None => None,
        }
    }
}

/// `e` stored under its key: it replaces the entry there, or is appended.
pub open spec fn put(es: Seq<EntryState>, e: EntryState) -> Seq<EntryState> {
    match index_of_key(es, e.key) {
        Some(i) => es.update(i, e),
        None => es.push(e),
    }
}

/// The entries not stored under `key`.
pub open spec fn without_key(es: Seq<EntryState>, key: Seq<char>) -> Seq<EntryState>
    decreases es.len(),
{
    if es.len() == 0 {
        seq![]
    } else {
        let p = without_key(es.drop_last(), key);
        if es.last().key == key {
            p
        } else {
            p.push(es.last())
        }
    }
}

/// The entries not expired at `now`.
pub open spec fn live(es: Seq<EntryState>, now: int) -> Seq<EntryState>
    decreases es.len(),
{
    if es.len() == 0 {
        seq![]
    } else {
        let p = live(es.drop_last(), now);
        if es.last().expires > now {
            p.push(es.last())
        } else {
            p
        }
    }
}

/// The entries inserted at or after insertion number `cutoff`.
pub open spec fn keep_from(es: Seq<EntryState>, cutoff: u64) -> Seq<EntryState>
    decreases es.len(),
{
    if es.len() == 0 {
        seq![]
    } else {
        let p = keep_from(es.drop_last(), cutoff);
        if es.last().order >= cutoff {
            p.push(es.last())
        } else {
            p
        }
    }
}

pub open spec fn orders(es: Seq<EntryState>) -> Seq<u64> {
    es.map_values(|e: EntryState| e.order)
}

/// Position of the first smallest element.
pub open spec fn min_index(os: Seq<u64>) -> int
    decreases os.len(),
{
    if os.len() <= 1 {
        0
    } else {
        let j = min_index(os.drop_last());
        if os.last() < os[j] {
            os.len() - 1
        } else {
            j
        }
    }
}

/// The element at position `k` of `os` sorted ascending (repeats counted).
pub open spec fn kth_smallest(os: Seq<u64>, k: nat) -> u64
    decreases k,
{
    if k == 0 {
        os[min_index(os)]
    } else {
        kth_smallest(os.remove(min_index(os)), (k - 1) as nat)
    }
}

/// The entries left when an insertion leaves `es` over the limit `max`:
/// the live ones, then, if still too many, those from the
/// `(len - max)`-th smallest insertion number on.
pub open spec fn evict(es: Seq<EntryState>, now: int, max: nat) -> Seq<EntryState> {
    if max == 0 || es.len() <= max {
        es
    } else {
        let l = live(es, now);
        if l.len() <= max {
            l
        } else {
            keep_from(l, kth_smallest(orders(l), (l.len() - max) as nat))
        }
    }
}

/// The entry a lookup of `key` at `now` hits.
pub open spec fn get_hit(s: CacheState, key: Seq<char>, now: int) -> Option<EntryState> {
    if s.ttl == 0 {
        None
    } else {
        match find_state(s.entries, key) {
            Some(e) => if e.expires > now {
                Some(e)
            } else {
                None
            },
            None => None,
        }
    }
}

/// The cache after a lookup of `key` at `now`: a missed key is dropped.
pub open spec fn get_state(s: CacheState, key: Seq<char>, now: int) -> CacheState {
    if s.ttl == 0 || get_hit(s, key, now) is Some {
        s
    } else {
        CacheState { entries: without_key(s.entries, key), ..s }
    }
}

pub open spec fn next_order(c: u64) -> u64 {
    if c == u64::MAX {
        0
    } else {
        (c + 1) as u64
    }
}

/// The cache after storing a window at `now`.
pub open spec fn set_state(
    s: CacheState,
    key: Seq<char>,
    base: nat,
    total: nat,
    results: Seq<ResultView>,
    now: int,
) -> CacheState {
    if s.ttl == 0 {
        s
    } else {
        let e = EntryState { key, base, total, results, expires: now + s.ttl, order: s.counter };
        CacheState {
            entries: evict(put(s.entries, e), now, s.max),
            counter: next_order(s.counter),
            ..s
        }
    }
}

/// Thread-unsafe TTL window cache (the application keeps it behind a lock).
pub struct SearchCache {
    entries: Vec<CacheEntry>,
    counter: u64,
    ttl_ms: u64,
    max_entries: usize,
}

impl View for SearchCache {
    type V = CacheState;

    closed spec fn view(&self) -> CacheState {
        CacheState {
            entries: states(self.entries@),
            counter: self.counter,
            ttl: self.ttl_ms as nat,
            max: self.max_entries as nat,
        }
    }
}

fn position(es: &Vec<CacheEntry>, key: &str) -> (r: Option<usize>)
    ensures
        match r {
            Some(i) => index_of_key(states(es@), key@) == Some(i as int) && i < es@.len(),
            None => index_of_key(states(es@), key@) is None,
        },
{
    let ghost s = states(es@);
    let mut i: usize = 0;
    assert(s.skip(0) =~= s);
    while i < es.len()
        invariant
            i <= es@.len(),
            s == states(es@),
            s.len() == es@.len(),
            index_of_key(s, key@) == match index_of_key(s.skip(i as int), key@) {
                Some(j) => Some(j + i),
                None => None,
            },
        decreases es.len() - i,
    {
        assert(s.skip(i as int)[0] == entry_state(es@[i as int]));
        assert(s.skip(i as int).drop_first() =~= s.skip(i + 1));
        if str_eq(es[i].key.as_str(), key) {
            return Some(i);
        }
        i += 1;
    }
    None
}

fn min_idx(os: &Vec<u64>) -> (r: usize)
    requires
        os@.len() > 0,
    ensures
        r == min_index(os@),
        r < os@.len(),
{
    let mut j: usize = 0;
    let mut i: usize = 1;
    assert(os@.take(1).len() == 1);
    while i < os.len()
        invariant
            1 <= i <= os@.len(),
            j < i,
            j == min_index(os@.take(i as int)),
        decreases os.len() - i,
    {
        assert(os@.take(i + 1).drop_last() =~= os@.take(i as int));
        assert(os@.take(i as int)[j as int] == os@[j as int]);
        if os[i] < os[j] {
            j = i;
        }
        i += 1;
    }
    assert(os@.take(os@.len() as int) =~= os@);
    j
}

proof fn lemma_min_index_bound(os: Seq<u64>)
    requires
        os.len() > 0,
    ensures
        0 <= min_index(os) < os.len(),
    decreases os.len(),
{
    if os.len() > 1 {
        lemma_min_index_bound(os.drop_last());
    }
}

fn kth_order(es: &Vec<CacheEntry>, k: usize) -> (r: u64)
    requires
        k < es@.len(),
    ensures
        r == kth_smallest(orders(states(es@)), k as nat),
{
    let ghost target = orders(states(es@));
    let mut os: Vec<u64> = Vec::new();
    let mut i: usize = 0;
    while i < es.len()
        invariant
            i <= es@.len(),
            target == orders(states(es@)),
            os@ == target.take(i as int),
        decreases es.len() - i,
    {
        os.push(es[i].order);
        assert(os@ =~= target.take(i + 1));
        i += 1;
    }
    assert(target.take(es@.len() as int) =~= target);
    let mut j: usize = 0;
    while j < k
        invariant
            j <= k,
            k < es@.len(),
            os@.len() == es@.len() - j,
            kth_smallest(target, k as nat) == kth_smallest(os@, (k - j) as nat),
        decreases k - j,
    {
        let mi = min_idx(&os);
        os.remove(mi);
        j += 1;
    }
    let mi = min_idx(&os);
    os[mi]
}

/// The entries of `es` for which `keep` holds, in order; `keep` is
/// "not expired at `now`" when `by_expiry`, else "inserted at or after
/// `cutoff`".
fn retain_entries(es: Vec<CacheEntry>, now: u64, cutoff: u64, by_expiry: bool) -> (r: Vec<
    CacheEntry,
>)
    ensures
        by_expiry ==> states(r@) == live(states(es@), now as int),
        !by_expiry ==> states(r@) == keep_from(states(es@), cutoff),
{
    let ghost all = states(es@);
    let mut rest = es;
    let n = rest.len();
    let mut out: Vec<CacheEntry> = Vec::new();
    let mut c: usize = 0;
    while rest.len() > 0
        invariant
            c <= all.len(),
            rest@.len() + c == n,
            n == all.len(),
            states(rest@) == all.skip(c as int),
            by_expiry ==> states(out@) == live(all.take(c as int), now as int),
            !by_expiry ==> states(out@) == keep_from(all.take(c as int), cutoff),
        decreases rest@.len(),
    {
        let ghost before = out@;
        let ghost old_rest = rest@;
        let e = rest.remove(0);
        assert forall|k: int| 0 <= k < rest@.len() implies #[trigger] states(rest@)[k] == all.skip(
            c + 1,
        )[k] by {
            assert(rest@[k] == old_rest[k + 1]);
            assert(states(old_rest)[k + 1] == all.skip(c as int)[k + 1]);
        }
        assert(states(rest@) =~= all.skip(c + 1));
        assert(all.skip(c as int)[0] == entry_state(e));
        assert(all.take(c + 1).drop_last() =~= all.take(c as int));
        assert(all.take(c + 1).last() == entry_state(e));
        let keep = if by_expiry {
            e.expires > now as u128
        } else {
            e.order >= cutoff
        };
        if keep {
            out.push(e);
            assert(states(out@) =~= states(before).push(entry_state(e)));
        }
        c += 1;
    }
    assert(all.take(c as int) =~= all);
    out
}

impl SearchCache {
    /// An empty cache; a TTL of 0 disables it, a `max_entries` of 0 sets no
    /// size limit.
    pub fn new(ttl_ms: u64, max_entries: usize) -> (r: Self)
        ensures
            r@ == (CacheState {
                entries: Seq::empty(),
                counter: 0,
                ttl: ttl_ms as nat,
                max: max_entries as nat,
            }),
    {
        let r = SearchCache { entries: Vec::new(), counter: 0, ttl_ms, max_entries };
        assert(states(r.entries@) =~= Seq::<EntryState>::empty());
        r
    }

    /// Whether the cache is enabled (its TTL is not zero).
    pub fn enabled(&self) -> (r: bool)
        ensures
            r == (self@.ttl > 0),
    {
        self.ttl_ms != 0
    }

    /// The window stored under `key` when it has not expired at `now`:
    /// (base, total, results). A missed key is dropped.
    pub fn get(&mut self, key: &str, now: u64) -> (r: Option<(usize, usize, Vec<SearchResult>)>)
        ensures
            match get_hit(old(self)@, key@, now as int) {
                Some(e) => r matches Some(t) && t.0 == e.base && t.1 == e.total && results_view(
                    t.2@,
                ) == e.results,
                None => r is None,
            },
            final(self)@ == get_state(old(self)@, key@, now as int),
    {
        if self.ttl_ms == 0 {
            return None;
        }
        let ghost s = states(self.entries@);
        match position(&self.entries, key) {
            Some(i) => {
                proof {
                    lemma_find_index(s, key@);
                }
                let e = &self.entries[i];
                if e.expires > now as u128 {
                    return Some((e.base, e.total, duplicate_results(&e.results)));
                }
            },
            None => {
                proof {
                    lemma_find_index(s, key@);
                }
            },
        }
        let mut es: Vec<CacheEntry> = Vec::new();
        std::mem::swap(&mut es, &mut self.entries);
        self.entries = remove_key(es, key);
        None
    }

    /// Stores a window at `now` (replacing the one under `key`), then, when
    /// over the size limit, drops expired entries and then the oldest
    /// insertions.
    pub fn set(&mut self, key: String, base: usize, total: usize, results: Vec<SearchResult>, now: u64)
        ensures
            final(self)@ == set_state(
                old(self)@,
                key@,
                base as nat,
                total as nat,
                results_view(results@),
                now as int,
            ),
    {
        if self.ttl_ms == 0 {
            return;
        }
        let order = self.counter;
        self.counter = if self.counter == u64::MAX {
            0
        } else {
            self.counter + 1
        };
        let ghost k = key@;
        let expires: u128 = now as u128 + self.ttl_ms as u128;
        let ghost s = states(self.entries@);
        let pos = position(&self.entries, key.as_str());
        let entry = CacheEntry { key, base, total, results, expires, order };
        let ghost es = entry_state(entry);
        assert(es.key == k);
        match pos {
            Some(i) => {
                self.entries.set(i, entry);
                assert(states(self.entries@) =~= s.update(i as int, es));
            },
            None => {
                self.entries.push(entry);
                assert(states(self.entries@) =~= s.push(es));
            },
        }
        assert(states(self.entries@) == put(s, es));
        if self.max_entries > 0 && self.entries.len() > self.max_entries {
            let mut all: Vec<CacheEntry> = Vec::new();
            std::mem::swap(&mut all, &mut self.entries);
            let l = retain_entries(all, now, 0, true);
            if l.len() > self.max_entries {
                let cutoff = kth_order(&l, l.len() - self.max_entries);
                self.entries = retain_entries(l, now, cutoff, false);
            } else {
                self.entries = l;
            }
        }
    }

    /// Empties the cache.
    pub fn clear(&mut self)
        ensures
            final(self)@ == (CacheState { entries: Seq::empty(), ..old(self)@ }),
    {
        self.entries = Vec::new();
        assert(states(self.entries@) =~= Seq::<EntryState>::empty());
    }

    /// Number of entries.
    pub fn len(&self) -> (r: usize)
        ensures
            r == self@.entries.len(),
    {
        self.entries.len()
    }
}

fn remove_key(es: Vec<CacheEntry>, key: &str) -> (r: Vec<CacheEntry>)
    ensures
        states(r@) == without_key(states(es@), key@),
{
    let ghost all = states(es@);
    let mut rest = es;
    let n = rest.len();
    let mut out: Vec<CacheEntry> = Vec::new();
    let mut c: usize = 0;
    while rest.len() > 0
        invariant
            c <= all.len(),
            rest@.len() + c == n,
            n == all.len(),
            states(rest@) == all.skip(c as int),
            states(out@) == without_key(all.take(c as int), key@),
        decreases rest@.len(),
    {
        let ghost before = out@;
        let ghost old_rest = rest@;
        let e = rest.remove(0);
        assert forall|k: int| 0 <= k < rest@.len() implies #[trigger] states(rest@)[k] == all.skip(
            c + 1,
        )[k] by {
            assert(rest@[k] == old_rest[k + 1]);
            assert(states(old_rest)[k + 1] == all.skip(c as int)[k + 1]);
        }
        assert(states(rest@) =~= all.skip(c + 1));
        assert(all.skip(c as int)[0] == entry_state(e));
        assert(all.take(c + 1).drop_last() =~= all.take(c as int));
        assert(all.take(c + 1).last() == entry_state(e));
        if !str_eq(e.key.as_str(), key) {
            out.push(e);
            assert(states(out@) =~= states(before).push(entry_state(e)));
        }
        c += 1;
    }
    assert(all.take(c as int) =~= all);
    out
}

proof fn lemma_find_index(es: Seq<EntryState>, key: Seq<char>)
    ensures
        match index_of_key(es, key) {
            Some(i) => 0 <= i < es.len() && find_state(es, key) == Some(es[i]),
            None => find_state(es, key) is None,
        },
    decreases es.len(),
{
    if es.len() > 0 && es[0].key != key {
        lemma_find_index(es.drop_first(), key);
    }
}

// ---- laws ----

proof fn lemma_find_push(p: Seq<EntryState>, x: EntryState, k: Seq<char>)
    ensures
        find_state(p.push(x), k) == match find_state(p, k) {
            Some(v) => Some(v),
            None => if x.key == k {
                Some(x)
            } else {
                None
            },
        },
    decreases p.len(),
{
    if p.len() == 0 {
        assert(p.push(x).drop_first() =~= p);
    } else {
        assert(p.push(x).drop_first() =~= p.drop_first().push(x));
        lemma_find_push(p.drop_first(), x, k);
    }
}

proof fn lemma_update_find(es: Seq<EntryState>, e: EntryState, i: int)
    requires
        index_of_key(es, e.key) == Some(i),
    ensures
        0 <= i < es.len(),
        find_state(es.update(i, e), e.key) == Some(e),
    decreases es.len(),
{
    if es[0].key != e.key {
        let j = index_of_key(es.drop_first(), e.key)->0;
        lemma_update_find(es.drop_first(), e, j);
        assert(es.update(i, e).drop_first() =~= es.drop_first().update(j, e));
    }
}

proof fn lemma_put_find(es: Seq<EntryState>, e: EntryState)
    ensures
        find_state(put(es, e), e.key) == Some(e),
{
    match index_of_key(es, e.key) {
        Some(i) => {
            lemma_update_find(es, e, i);
        },
        None => {
            lemma_find_index(es, e.key);
            lemma_find_push(es, e, e.key);
        },
    }
}

proof fn lemma_live_none(es: Seq<EntryState>, now: int, k: Seq<char>)
    requires
        find_state(es, k) is None,
    ensures
        find_state(live(es, now), k) is None,
    decreases es.len(),
{
    if es.len() > 0 {
        assert(es.drop_last().push(es.last()) =~= es);
        lemma_find_push(es.drop_last(), es.last(), k);
        lemma_live_none(es.drop_last(), now, k);
        lemma_find_push(live(es.drop_last(), now), es.last(), k);
    }
}

proof fn lemma_live_find(es: Seq<EntryState>, now: int, k: Seq<char>, e: EntryState)
    requires
        find_state(es, k) == Some(e),
        e.expires > now,
    ensures
        find_state(live(es, now), k) == Some(e),
    decreases es.len(),
{
    let dl = es.drop_last();
    let x = es.last();
    assert(dl.push(x) =~= es);
    lemma_find_push(dl, x, k);
    lemma_find_push(live(dl, now), x, k);
    if find_state(dl, k) is Some {
        lemma_live_find(dl, now, k, e);
    } else {
        lemma_live_none(dl, now, k);
    }
}

proof fn lemma_keep_none(es: Seq<EntryState>, cutoff: u64, k: Seq<char>)
    requires
        find_state(es, k) is None,
    ensures
        find_state(keep_from(es, cutoff), k) is None,
    decreases es.len(),
{
    if es.len() > 0 {
        assert(es.drop_last().push(es.last()) =~= es);
        lemma_find_push(es.drop_last(), es.last(), k);
        lemma_keep_none(es.drop_last(), cutoff, k);
        lemma_find_push(keep_from(es.drop_last(), cutoff), es.last(), k);
    }
}

proof fn lemma_keep_find(es: Seq<EntryState>, cutoff: u64, k: Seq<char>, e: EntryState)
    requires
        find_state(es, k) == Some(e),
        e.order >= cutoff,
    ensures
        find_state(keep_from(es, cutoff), k) == Some(e),
    decreases es.len(),
{
    let dl = es.drop_last();
    let x = es.last();
    assert(dl.push(x) =~= es);
    lemma_find_push(dl, x, k);
    lemma_find_push(keep_from(dl, cutoff), x, k);
    if find_state(dl, k) is Some {
        lemma_keep_find(dl, cutoff, k, e);
    } else {
        lemma_keep_none(dl, cutoff, k);
    }
}

proof fn lemma_live_bound(es: Seq<EntryState>, now: int, b: u64)
    requires
        forall|i: int| 0 <= i < es.len() ==> #[trigger] es[i].order <= b,
    ensures
        forall|i: int| 0 <= i < live(es, now).len() ==> #[trigger] live(es, now)[i].order <= b,
    decreases es.len(),
{
    if es.len() > 0 {
        let dl = es.drop_last();
        assert forall|i: int| 0 <= i < dl.len() implies #[trigger] dl[i].order <= b by {
            assert(dl[i] == es[i]);
        }
        lemma_live_bound(dl, now, b);
        let p = live(dl, now);
        assert forall|i: int| 0 <= i < live(es, now).len() implies #[trigger] live(es, now)[i].order
            <= b by {
            if i < p.len() {
                assert(live(es, now)[i] == p[i]);
            }
        }
    }
}

proof fn lemma_kth_le(os: Seq<u64>, k: nat, b: u64)
    requires
        k < os.len(),
        forall|i: int| 0 <= i < os.len() ==> #[trigger] os[i] <= b,
    ensures
        kth_smallest(os, k) <= b,
    decreases k,
{
    lemma_min_index_bound(os);
    if k > 0 {
        let r = os.remove(min_index(os));
        assert forall|i: int| 0 <= i < r.len() implies #[trigger] r[i] <= b by {
            if i < min_index(os) {
                assert(r[i] == os[i]);
            } else {
                assert(r[i] == os[i + 1]);
            }
        }
        lemma_kth_le(r, (k - 1) as nat, b);
    }
}

/// Reading a key back before its window expires gives the window just
/// stored under it (insertion numbers not having wrapped around).
pub proof fn law_get_after_set(
    s: CacheState,
    key: Seq<char>,
    base: nat,
    total: nat,
    results: Seq<ResultView>,
    now_set: int,
    now_get: int,
)
    requires
        s.ttl > 0,
        forall|i: int| 0 <= i < s.entries.len() ==> #[trigger] s.entries[i].order < s.counter,
        now_get < now_set + s.ttl,
    ensures
        get_hit(set_state(s, key, base, total, results, now_set), key, now_get) == Some(
            EntryState { key, base, total, results, expires: now_set + s.ttl, order: s.counter },
        ),
{
    let e = EntryState { key, base, total, results, expires: now_set + s.ttl, order: s.counter };
    let es1 = put(s.entries, e);
    lemma_put_find(s.entries, e);
    assert forall|i: int| 0 <= i < es1.len() implies #[trigger] es1[i].order <= s.counter by {
        match index_of_key(s.entries, key) {
            Some(j) => {
                lemma_find_index(s.entries, key);
                if i != j {
                    assert(es1[i] == s.entries[i]);
                }
            },
            None => {
                if i < s.entries.len() {
                    assert(es1[i] == s.entries[i]);
                }
            },
        }
    }
    if !(s.max == 0 || es1.len() <= s.max) {
        let l = live(es1, now_set);
        lemma_live_find(es1, now_set, key, e);
        if l.len() > s.max {
            lemma_live_bound(es1, now_set, s.counter);
            let os = orders(l);
            assert forall|i: int| 0 <= i < os.len() implies #[trigger] os[i] <= s.counter by {
                assert(os[i] == l[i].order);
            }
            lemma_kth_le(os, (l.len() - s.max) as nat, s.counter);
            lemma_keep_find(l, kth_smallest(os, (l.len() - s.max) as nat), key, e);
        }
    }
}

proof fn lemma_without_key(es: Seq<EntryState>, k: Seq<char>)
    ensures
        find_state(without_key(es, k), k) is None,
    decreases es.len(),
{
    if es.len() > 0 {
        lemma_without_key(es.drop_last(), k);
        lemma_find_push(without_key(es.drop_last(), k), es.last(), k);
    }
}

/// A lookup that misses (the key absent or its window expired) leaves no
/// window under that key.
pub proof fn law_miss_drops_key(s: CacheState, key: Seq<char>, now: int)
    requires
        s.ttl > 0,
        get_hit(s, key, now) is None,
    ensures
        find_state(get_state(s, key, now).entries, key) is None,
{
    lemma_without_key(s.entries, key);
}

/// A cache with a TTL of 0 stores nothing and never hits.
pub proof fn law_disabled(
    s: CacheState,
    key: Seq<char>,
    base: nat,
    total: nat,
    results: Seq<ResultView>,
    now: int,
)
    requires
        s.ttl == 0,
    ensures
        set_state(s, key, base, total, results, now) == s,
        get_hit(s, key, now) is None,
        get_state(s, key, now) == s,
{
}

} // verus!
