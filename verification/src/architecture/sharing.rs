//! Sharing fetched data between charts: a request for data that is cached or
//! already being fetched is served without a second fetch.

use std::sync::Arc;

use vstd::prelude::*;

use crate::architecture::unified::FetchRange;
use crate::exchange::TickerInfo;

verus! {

/// Identifies shared data: ticker and span.
#[derive(Debug, Clone)]
pub struct DataKey {
    pub ticker: TickerInfo,
    pub range: FetchRange,
}

/// A shared-data key taken by value.
pub type KeyV = (((Seq<char>, crate::exchange::adapter::Exchange), crate::exchange::PriceStep, u64, Option<u64>), FetchRange);

impl View for DataKey {
    type V = KeyV;

    open spec fn view(&self) -> KeyV {
        (self.ticker@, self.range)
    }
}

impl DataKey {
    /// Whether two keys name the same data.
    pub fn same_as(&self, other: &DataKey) -> (b: bool)
        ensures
            b == (self@ == other@),
    {
        self.ticker.same_as(&other.ticker) && self.range == other.range
    }

    /// An owned copy.
    pub fn duplicate(&self) -> (r: DataKey)
        ensures
            r@ == self@,
    {
        DataKey { ticker: crate::exchange::adapter::copy_ticker_info(&self.ticker), range: self.range }
    }
}

/// How a request for shared data is served.
#[derive(Debug, Clone)]
pub enum DataRequestResult<D> {
    /// From the cache.
    Cached(Arc<D>),
    /// By a fetch already in flight.
    Pending,
    /// By a new fetch of this key.
    NewRequest(DataKey),
}

/// Cached data with its subscribers and when it was last used.
#[derive(Debug)]
pub struct CachedData<D> {
    pub key: DataKey,
    pub data: Arc<D>,
    pub subscribers: Vec<u128>,
    pub last_accessed: u64,
}

/// A fetch in flight with its subscribers.
#[derive(Debug)]
pub struct PendingFetch {
    pub key: DataKey,
    pub subscribers: Vec<u128>,
}

/// A cache entry taken by value: key, data, subscribers, last use.
pub type CachedV<D> = (KeyV, D, Seq<u128>, u64);

/// A fetch in flight taken by value: key and subscribers.
pub type PendingV = (KeyV, Seq<u128>);

/// Index of the first entry of `keys` equal to `k`, or -1.
pub open spec fn key_index(keys: Seq<KeyV>, k: KeyV, i: int) -> int
    decreases keys.len() - i,
{
    if i < 0 || i >= keys.len() {
        -1
    } else if keys[i] == k {
        i
    } else {
        key_index(keys, k, i + 1)
    }
}

/// `subs` with `id` appended unless it is there already.
pub open spec fn add_subscriber(subs: Seq<u128>, id: u128) -> Seq<u128> {
    if subs.contains(id) {
        subs
    } else {
        subs.push(id)
    }
}

/// Index of the first entry with the oldest last use.
pub open spec fn oldest_index<D>(s: Seq<CachedV<D>>, n: int) -> int
    decreases n,
{
    if n <= 1 {
        0
    } else {
        let b = oldest_index(s, n - 1);
        if s[n - 1].3 < s[b].3 {
            n - 1
        } else {
            b
        }
    }
}

/// The cache after evicting its oldest entry `n` times.
pub open spec fn evict_oldest<D>(s: Seq<CachedV<D>>, n: nat) -> Seq<CachedV<D>>
    decreases n,
{
    if n == 0 || s.len() == 0 {
        s
    } else {
        evict_oldest(s.remove(oldest_index(s, s.len() as int)), (n - 1) as nat)
    }
}

/// Shared data: the cache, the fetches in flight and the cache's size limit.
/// Both are vectors with no data key twice: a data key holds strings, and
/// vstd's `HashMap` contracts hold only for key types whose hashing and
/// equality it trusts.
#[derive(Debug)]
pub struct DataSourceManager<D> {
    pub cache: Vec<CachedData<D>>,
    pub pending: Vec<PendingFetch>,
    pub max_cache_size: usize,
}

impl<D> DataSourceManager<D> {
    pub open spec fn cache_view(&self) -> Seq<CachedV<D>> {
        self.cache@.map_values(|c: CachedData<D>| (c.key@, *c.data, c.subscribers@, c.last_accessed))
    }

    pub open spec fn pending_view(&self) -> Seq<PendingV> {
        self.pending@.map_values(|p: PendingFetch| (p.key@, p.subscribers@))
    }

    pub open spec fn cache_keys(&self) -> Seq<KeyV> {
        keys_of_cache(self.cache_view())
    }

    pub open spec fn pending_keys(&self) -> Seq<KeyV> {
        keys_of_pending(self.pending_view())
    }

    /// Nothing cached or pending.
    pub fn new(max_cache_size: usize) -> (m: Self)
        ensures
            m.cache@.len() == 0,
            m.pending@.len() == 0,
            m.max_cache_size == max_cache_size,
    {
        DataSourceManager { cache: Vec::new(), pending: Vec::new(), max_cache_size }
    }

    fn find_cached(&self, key: &DataKey) -> (r: Option<usize>)
        ensures
            r matches Some(i) ==> i == key_index(self.cache_keys(), key@, 0) && i < self.cache@.len(),
            r is None ==> key_index(self.cache_keys(), key@, 0) == -1,
    {
        let mut i: usize = 0;
        while i < self.cache.len()
            invariant
                i <= self.cache@.len(),
                key_index(self.cache_keys(), key@, 0) == key_index(self.cache_keys(), key@, i as int),
            decreases self.cache.len() - i,
        {
            if self.cache[i].key.same_as(key) {
                return Some(i);
            }
            i = i + 1;
        }
        None
    }

    fn find_pending(&self, key: &DataKey) -> (r: Option<usize>)
        ensures
            r matches Some(i) ==> i == key_index(self.pending_keys(), key@, 0) && i < self.pending@.len(),
            r is None ==> key_index(self.pending_keys(), key@, 0) == -1,
    {
        let mut i: usize = 0;
        while i < self.pending.len()
            invariant
                i <= self.pending@.len(),
                key_index(self.pending_keys(), key@, 0) == key_index(self.pending_keys(), key@, i as int),
            decreases self.pending.len() - i,
        {
            if self.pending[i].key.same_as(key) {
                return Some(i);
            }
            i = i + 1;
        }
        None
    }

    /// Serves a request of `subscriber` for `key` at time `now`: from the
    /// cache (the entry is touched and gains the subscriber), by the fetch in
    /// flight (which gains the subscriber), or by a new fetch recorded as in
    /// flight for this subscriber.
    pub fn request_data(&mut self, key: DataKey, subscriber_id: u128, now: u64) -> (r:
        DataRequestResult<D>)
        ensures
            request_served(
                old(self).cache_view(),
                old(self).pending_view(),
                key@,
                subscriber_id,
                now,
                r,
                final(self).cache_view(),
                final(self).pending_view(),
            ),
            final(self).max_cache_size == old(self).max_cache_size,
    {
        match self.find_cached(&key) {
            Some(i) => {
                proof {
                    lemma_key_index_found(self.cache_keys(), key@, 0);
                }
                let ghost c0 = self.cache_view();
                self.cache[i].last_accessed = now;
                add_unique(&mut self.cache[i].subscribers, subscriber_id);
                let d = Arc::clone(&self.cache[i].data);
                proof {
                    assert(self.cache_view() =~= c0.update(
                        i as int,
                        (c0[i as int].0, c0[i as int].1, add_subscriber(c0[i as int].2, subscriber_id), now),
                    ));
                }
                return DataRequestResult::Cached(d);
            },
            None => {},
        }
        match self.find_pending(&key) {
            Some(j) => {
                proof {
                    lemma_key_index_found(self.pending_keys(), key@, 0);
                }
                let ghost p0 = self.pending_view();
                add_unique(&mut self.pending[j].subscribers, subscriber_id);
                proof {
                    assert(self.pending_view() =~= p0.update(
                        j as int,
                        (p0[j as int].0, add_subscriber(p0[j as int].1, subscriber_id)),
                    ));
                }
                DataRequestResult::Pending
            },
            None => {
                let ghost p0 = self.pending_view();
                let mut subs: Vec<u128> = Vec::new();
                subs.push(subscriber_id);
                let k2 = key.duplicate();
                self.pending.push(PendingFetch { key: k2, subscribers: subs });
                proof {
                    assert(self.pending_view() =~= p0.push((key@, seq![subscriber_id])));
                }
                DataRequestResult::NewRequest(key)
            },
        }
    }

    /// Records fetched data for `key` at time `now`: the fetch leaves the
    /// in-flight list, the data is cached with its subscribers (replacing an
    /// entry for the key), and when the cache outgrows its limit a tenth of
    /// it, oldest first, is evicted. Returns the subscribers to notify.
    pub fn on_data_fetched(&mut self, key: DataKey, data: D, now: u64) -> (r: Vec<u128>)
        ensures
            data_stored(
                old(self).cache_view(),
                old(self).pending_view(),
                old(self).max_cache_size,
                key@,
                data,
                now,
                r@,
                final(self).cache_view(),
                final(self).pending_view(),
            ),
            final(self).max_cache_size == old(self).max_cache_size,
    {
        let subs = match self.find_pending(&key) {
            Some(j) => {
                let ghost p0 = self.pending_view();
                let pf = self.pending.remove(j);
                proof {
                    assert(self.pending_view() =~= p0.remove(j as int));
                }
                pf.subscribers
            },
            None => Vec::new(),
        };
        let ghost c0 = self.cache_view();
        let ghost kv = key@;
        let ghost entry = (key@, data, subs@, now);
        let entry_subs = copy_ids(&subs);
        match self.find_cached(&key) {
            Some(i) => {
                self.cache.set(
                    i,
                    CachedData { key, data: Arc::new(data), subscribers: entry_subs, last_accessed: now },
                );
                proof {
                    assert(self.cache_view() =~= c0.update(i as int, entry));
                }
            },
            None => {
                self.cache.push(
                    CachedData { key, data: Arc::new(data), subscribers: entry_subs, last_accessed: now },
                );
                proof {
                    assert(self.cache_view() =~= c0.push(entry));
                }
            },
        }
        if self.cache.len() > self.max_cache_size {
            let n = self.cache.len() / 10;
            self.evict(n);
        }
        subs
    }

    /// Evicts the oldest entry `n` times.
    fn evict(&mut self, n: usize)
        ensures
            final(self).cache_view() == evict_oldest(old(self).cache_view(), n as nat),
            final(self).pending_view() == old(self).pending_view(),
            final(self).max_cache_size == old(self).max_cache_size,
    {
        let mut k: usize = 0;
        while k < n && self.cache.len() > 0
            invariant
                k <= n,
                evict_oldest(old(self).cache_view(), n as nat) == evict_oldest(
                    self.cache_view(),
                    (n - k) as nat,
                ),
                self.pending_view() == old(self).pending_view(),
                self.max_cache_size == old(self).max_cache_size,
            decreases n - k,
        {
            let len = self.cache.len();
            let ghost s = self.cache_view();
            let mut best: usize = 0;
            let mut i: usize = 1;
            while i < len
                invariant
                    s == self.cache_view(),
                    len == s.len(),
                    len == self.cache@.len(),
                    1 <= i <= len,
                    best as int == oldest_index(s, i as int),
                    0 <= best < i,
                decreases len - i,
            {
                if self.cache[i].last_accessed < self.cache[best].last_accessed {
                    best = i;
                }
                i = i + 1;
            }
            self.cache.remove(best);
            proof {
                assert(self.cache_view() =~= s.remove(best as int));
            }
            k = k + 1;
        }
        proof {
            if self.cache@.len() == 0 {
                assert(self.cache_view().len() == 0);
            }
        }
    }

    /// Drops `subscriber_id` from the cached data of `key`; data left without
    /// subscribers leaves the cache.
    pub fn unsubscribe(&mut self, key: &DataKey, subscriber_id: u128)
        ensures
            ({
                let ci = key_index(old(self).cache_keys(), key@, 0);
                let c = old(self).cache_view();
                final(self).cache_view() == if ci < 0 {
                    c
                } else {
                    let kept = c[ci].2.filter(|id: u128| id != subscriber_id);
                    if kept.len() == 0 {
                        c.remove(ci)
                    } else {
                        c.update(ci, (c[ci].0, c[ci].1, kept, c[ci].3))
                    }
                }
            }),
            final(self).pending_view() == old(self).pending_view(),
            final(self).max_cache_size == old(self).max_cache_size,
    {
        match self.find_cached(key) {
            Some(i) => {
                let ghost c0 = self.cache_view();
                let kept = retain_other(&self.cache[i].subscribers, subscriber_id);
                if kept.len() == 0 {
                    self.cache.remove(i);
                    proof {
                        assert(self.cache_view() =~= c0.remove(i as int));
                    }
                } else {
                    self.cache[i].subscribers = kept;
                    proof {
                        assert(self.cache_view() =~= c0.update(
                            i as int,
                            (c0[i as int].0, c0[i as int].1, c0[i as int].2.filter(|id: u128| id != subscriber_id), c0[i as int].3),
                        ));
                    }
                }
            },
            None => {},
        }
    }
}

/// The keys of cache entries.
pub open spec fn keys_of_cache<D>(c: Seq<CachedV<D>>) -> Seq<KeyV> {
    c.map_values(|e: CachedV<D>| e.0)
}

/// The keys of fetches in flight.
pub open spec fn keys_of_pending(p: Seq<PendingV>) -> Seq<KeyV> {
    p.map_values(|e: PendingV| e.0)
}

/// How a request of `sub` for `key` at `now` is served from cache `c` and
/// fetches in flight `p`, giving `r` and the new cache `c2` and fetches `p2`:
/// from the cache (the entry is touched and gains the subscriber), by the
/// fetch in flight (which gains the subscriber), or by a new fetch.
pub open spec fn request_served<D>(
    c: Seq<CachedV<D>>,
    p: Seq<PendingV>,
    key: KeyV,
    sub: u128,
    now: u64,
    r: DataRequestResult<D>,
    c2: Seq<CachedV<D>>,
    p2: Seq<PendingV>,
) -> bool {
    let ci = key_index(keys_of_cache(c), key, 0);
    let pi = key_index(keys_of_pending(p), key, 0);
    if ci >= 0 {
        &&& r matches DataRequestResult::Cached(d) && *d == c[ci].1
        &&& c2 == c.update(ci, (c[ci].0, c[ci].1, add_subscriber(c[ci].2, sub), now))
        &&& p2 == p
    } else if pi >= 0 {
        &&& r is Pending
        &&& c2 == c
        &&& p2 == p.update(pi, (p[pi].0, add_subscriber(p[pi].1, sub)))
    } else {
        &&& r matches DataRequestResult::NewRequest(k) && k@ == key
        &&& c2 == c
        &&& p2 == p.push((key, seq![sub]))
    }
}

/// The subscribers waiting for `key` in the fetches in flight `p`.
pub open spec fn waiting_for(p: Seq<PendingV>, key: KeyV) -> Seq<u128> {
    let pi = key_index(keys_of_pending(p), key, 0);
    if pi >= 0 {
        p[pi].1
    } else {
        Seq::empty()
    }
}

/// The cache with `data` for `key` stored at `now` for subscribers `subs`:
/// it replaces the entry of the key or is appended.
pub open spec fn cache_with<D>(c: Seq<CachedV<D>>, key: KeyV, data: D, subs: Seq<u128>, now: u64) -> Seq<CachedV<D>> {
    let ci = key_index(keys_of_cache(c), key, 0);
    if ci >= 0 {
        c.update(ci, (key, data, subs, now))
    } else {
        c.push((key, data, subs, now))
    }
}

/// How fetched `data` for `key` arrives at `now` in cache `c` (of size limit
/// `max`) and fetches in flight `p`, giving the subscribers `r` to notify
/// and the new cache `c2` and fetches `p2`: the fetch leaves the in-flight
/// list, the data is cached for its waiting subscribers, and when the cache
/// outgrows its limit a tenth of it, oldest first, is evicted.
pub open spec fn data_stored<D>(
    c: Seq<CachedV<D>>,
    p: Seq<PendingV>,
    max: usize,
    key: KeyV,
    data: D,
    now: u64,
    r: Seq<u128>,
    c2: Seq<CachedV<D>>,
    p2: Seq<PendingV>,
) -> bool {
    let pi = key_index(keys_of_pending(p), key, 0);
    let subs = waiting_for(p, key);
    let c1 = cache_with(c, key, data, subs, now);
    &&& r == subs
    &&& p2 == if pi >= 0 {
        p.remove(pi)
    } else {
        p
    }
    &&& c2 == if c1.len() > max {
        evict_oldest(c1, c1.len() / 10)
    } else {
        c1
    }
}

/// Fetched data is served from the cache: once it is stored (and the cache
/// within its limit), a request for the key, by any subscriber, gets that
/// data.
pub proof fn law_fetched_data_is_served<D>(
    c: Seq<CachedV<D>>,
    p: Seq<PendingV>,
    max: usize,
    key: KeyV,
    data: D,
    now: u64,
    notified: Seq<u128>,
    c1: Seq<CachedV<D>>,
    p1: Seq<PendingV>,
    sub: u128,
    now2: u64,
    r: DataRequestResult<D>,
    c2: Seq<CachedV<D>>,
    p2: Seq<PendingV>,
)
    requires
        data_stored(c, p, max, key, data, now, notified, c1, p1),
        cache_with(c, key, data, waiting_for(p, key), now).len() <= max,
        request_served(c1, p1, key, sub, now2, r, c2, p2),
    ensures
        r matches DataRequestResult::Cached(d) && *d == data,
{
    let ci = key_index(keys_of_cache(c), key, 0);
    lemma_key_index_found(keys_of_cache(c), key, 0);
    let k1 = keys_of_cache(c1);
    if ci >= 0 {
        assert(k1 =~= keys_of_cache(c));
        assert(key_index(k1, key, 0) == ci);
    } else {
        assert(k1 =~= keys_of_cache(c).push(key));
        lemma_key_index_none_before(keys_of_cache(c), key, 0);
        lemma_key_index_walk(k1, key, 0, c.len() as int);
    }
}

/// Everyone who asked for data while it was fetched is notified when it
/// arrives: after two requests for a key that is not cached, the fetched
/// data notifies both subscribers.
pub proof fn law_waiting_subscribers_notified<D>(
    c: Seq<CachedV<D>>,
    p: Seq<PendingV>,
    key: KeyV,
    s1: u128,
    n1: u64,
    r1: DataRequestResult<D>,
    c1: Seq<CachedV<D>>,
    p1: Seq<PendingV>,
    s2: u128,
    n2: u64,
    r2: DataRequestResult<D>,
    c2: Seq<CachedV<D>>,
    p2: Seq<PendingV>,
    max: usize,
    data: D,
    now: u64,
    notified: Seq<u128>,
    c3: Seq<CachedV<D>>,
    p3: Seq<PendingV>,
)
    requires
        key_index(keys_of_cache(c), key, 0) < 0,
        request_served(c, p, key, s1, n1, r1, c1, p1),
        request_served(c1, p1, key, s2, n2, r2, c2, p2),
        data_stored(c2, p2, max, key, data, now, notified, c3, p3),
    ensures
        notified.contains(s1),
        notified.contains(s2),
{
    let pk = keys_of_pending(p);
    let pi = key_index(pk, key, 0);
    lemma_key_index_found(pk, key, 0);
    lemma_key_index_found(keys_of_cache(c), key, 0);
    let j = if pi >= 0 {
        pi
    } else {
        p.len() as int
    };
    if pi >= 0 {
        assert(keys_of_pending(p1) =~= pk);
    } else {
        assert(keys_of_pending(p1) =~= pk.push(key));
        lemma_key_index_none_before(pk, key, 0);
        lemma_key_index_walk(keys_of_pending(p1), key, 0, j);
    }
    assert(key_index(keys_of_pending(p1), key, 0) == j);
    assert(p1[j].1.contains(s1)) by {
        if pi >= 0 {
            lemma_add_subscriber(p[pi].1, s1);
        } else {
            assert(p1[j].1 == seq![s1]);
            assert(p1[j].1[0] == s1);
        }
    }
    assert(keys_of_cache(c1) =~= keys_of_cache(c));
    assert(keys_of_pending(p2) =~= keys_of_pending(p1));
    lemma_add_subscriber(p1[j].1, s2);
    assert(p2[j].1 == add_subscriber(p1[j].1, s2));
    assert(waiting_for(p2, key) == p2[j].1);
}

/// A subscriber added is listed, and every one listed before stays.
proof fn lemma_add_subscriber(subs: Seq<u128>, id: u128)
    ensures
        add_subscriber(subs, id).contains(id),
        forall|x: u128| subs.contains(x) ==> #[trigger] add_subscriber(subs, id).contains(x),
{
    if !subs.contains(id) {
        assert(subs.push(id)[subs.len() as int] == id);
        assert forall|x: u128| subs.contains(x) implies #[trigger] subs.push(id).contains(x) by {
            let w = choose|w: int| 0 <= w < subs.len() && subs[w] == x;
            assert(subs.push(id)[w] == x);
        }
    }
}

/// Without a match from `i` on, no key from `i` on is `k`.
proof fn lemma_key_index_none_before(keys: Seq<KeyV>, k: KeyV, i: int)
    requires
        0 <= i,
        key_index(keys, k, i) < 0,
    ensures
        forall|j: int| i <= j < keys.len() ==> keys[j] != k,
    decreases keys.len() - i,
{
    if i < keys.len() {
        lemma_key_index_none_before(keys, k, i + 1);
    }
}

/// The first key equal to `k` from `i` on is at `j` when none before is.
proof fn lemma_key_index_walk(keys: Seq<KeyV>, k: KeyV, i: int, j: int)
    requires
        0 <= i <= j < keys.len(),
        keys[j] == k,
        forall|m: int| i <= m < j ==> keys[m] != k,
    ensures
        key_index(keys, k, i) == j,
    decreases j - i,
{
    if i < j {
        lemma_key_index_walk(keys, k, i + 1, j);
    }
}

/// Data is fetched once: after one request for a key, a second request for
/// the same key, by any subscriber, is served from the cache or by the fetch
/// in flight, never by a new fetch.
pub proof fn law_second_request_never_fetches<D>(
    c: Seq<CachedV<D>>,
    p: Seq<PendingV>,
    key: KeyV,
    s1: u128,
    n1: u64,
    r1: DataRequestResult<D>,
    c1: Seq<CachedV<D>>,
    p1: Seq<PendingV>,
    s2: u128,
    n2: u64,
    r2: DataRequestResult<D>,
    c2: Seq<CachedV<D>>,
    p2: Seq<PendingV>,
)
    requires
        request_served(c, p, key, s1, n1, r1, c1, p1),
        request_served(c1, p1, key, s2, n2, r2, c2, p2),
    ensures
        !(r2 is NewRequest),
        r1 is NewRequest ==> r2 is Pending,
{
    let ci = key_index(keys_of_cache(c), key, 0);
    let pi = key_index(keys_of_pending(p), key, 0);
    lemma_key_index_found(keys_of_cache(c), key, 0);
    lemma_key_index_found(keys_of_pending(p), key, 0);
    if ci >= 0 {
        assert(keys_of_cache(c1) =~= keys_of_cache(c));
    } else if pi >= 0 {
        assert(keys_of_pending(p1) =~= keys_of_pending(p));
    } else {
        let k1 = keys_of_pending(p1);
        assert(k1 =~= keys_of_pending(p).push(key));
        assert(k1[k1.len() - 1] == key);
        lemma_key_index_reaches(k1, key, 0, k1.len() - 1);
    }
}

/// A key present at index `j` is found at or before `j`.
proof fn lemma_key_index_reaches(keys: Seq<KeyV>, k: KeyV, i: int, j: int)
    requires
        0 <= i <= j < keys.len(),
        keys[j] == k,
    ensures
        key_index(keys, k, i) >= 0,
    decreases j - i,
{
    if keys[i] != k {
        lemma_key_index_reaches(keys, k, i + 1, j);
    }
}

proof fn lemma_key_index_found(keys: Seq<KeyV>, k: KeyV, i: int)
    requires
        0 <= i,
    ensures
        key_index(keys, k, i) == -1 || (i <= key_index(keys, k, i) < keys.len() && keys[key_index(keys, k, i)] == k),
    decreases keys.len() - i,
{
    if i < keys.len() && keys[i] != k {
        lemma_key_index_found(keys, k, i + 1);
    }
}

/// Appends `id` unless it is there already.
fn add_unique(v: &mut Vec<u128>, id: u128)
    ensures
        final(v)@ == add_subscriber(old(v)@, id),
{
    let mut i: usize = 0;
    while i < v.len()
        invariant
            i <= v@.len(),
            v@ == old(v)@,
            forall|j: int| 0 <= j < i ==> v@[j] != id,
        decreases v.len() - i,
    {
        if v[i] == id {
            assert(v@[i as int] == id);
            return;
        }
        i = i + 1;
    }
    v.push(id);
}

/// A copy of the ids.
fn copy_ids(v: &Vec<u128>) -> (r: Vec<u128>)
    ensures
        r@ == v@,
{
    let mut r: Vec<u128> = Vec::new();
    let mut i: usize = 0;
    while i < v.len()
        invariant
            i <= v@.len(),
            r@ == v@.take(i as int),
        decreases v.len() - i,
    {
        r.push(v[i]);
        proof {
            assert(v@.take(i as int + 1) =~= v@.take(i as int).push(v@[i as int]));
        }
        i = i + 1;
    }
    proof {
        assert(v@.take(v@.len() as int) =~= v@);
    }
    r
}

/// The ids other than `id`, in order.
fn retain_other(v: &Vec<u128>, id: u128) -> (r: Vec<u128>)
    ensures
        r@ == v@.filter(|x: u128| x != id),
{
    let mut r: Vec<u128> = Vec::new();
    let mut i: usize = 0;
    while i < v.len()
        invariant
            i <= v@.len(),
            r@ == v@.take(i as int).filter(|x: u128| x != id),
        decreases v.len() - i,
    {
        proof {
            reveal(Seq::filter);
            assert(v@.take(i as int + 1).drop_last() =~= v@.take(i as int));
            assert(v@.take(i as int + 1).last() == v@[i as int]);
        }
        if v[i] != id {
            r.push(v[i]);
        }
        i = i + 1;
    }
    proof {
        assert(v@.take(v@.len() as int) =~= v@);
    }
    r
}

} // verus!
