//! The in-memory level of the response cache: a bounded store of serialised
//! values with least-recently-used eviction, time-to-live expiry and hit,
//! miss and eviction statistics. Times are milliseconds on a monotonic
//! clock, handed in by the caller.
use vstd::prelude::*;
use vstd::string::*;
use crate::text::{to_chars, contains_chars, contains_seq, str_eq};

verus! {

// ---------------------------------------------------------------------
// Configuration and report types
// ---------------------------------------------------------------------

/// Cache eviction strategies.
#[derive(Debug, Clone, Copy, PartialEq, Eq, Structural)]
pub enum EvictionStrategy {
    LeastRecentlyUsed,
    TimeToLive,
    LeastFrequentlyUsed,
}

/// Cache configuration settings.
#[derive(Debug, Clone, Copy)]
pub struct CacheConfig {
    pub l1_max_entries: usize,
    pub l1_ttl_seconds: u64,
    pub eviction_strategy: EvictionStrategy,
}

impl Default for CacheConfig {
    /// 10000 entries kept for five minutes, least recently used evicted
    /// first.
    fn default() -> (r: Self)
        ensures
            r.l1_max_entries == 10000,
            r.l1_ttl_seconds == 300,
            r.eviction_strategy == EvictionStrategy::LeastRecentlyUsed,
    {
        CacheConfig {
            l1_max_entries: 10000,
            l1_ttl_seconds: 300,
            eviction_strategy: EvictionStrategy::LeastRecentlyUsed,
        }
    }
}

/// Performance optimization configuration.
#[derive(Debug, Clone, Copy)]
pub struct PerformanceConfig {
    pub cache_config: CacheConfig,
    pub metrics_collection_interval_ms: u64,
    pub optimization_enabled: bool,
}

impl Default for PerformanceConfig {
    /// The default cache, metrics collected every minute, optimisation on.
    fn default() -> (r: Self)
        ensures
            r.cache_config.l1_max_entries == 10000,
            r.cache_config.l1_ttl_seconds == 300,
            r.cache_config.eviction_strategy == EvictionStrategy::LeastRecentlyUsed,
            r.metrics_collection_interval_ms == 60000,
            r.optimization_enabled,
    {
        PerformanceConfig {
            cache_config: CacheConfig::default(),
            metrics_collection_interval_ms: 60000,
            optimization_enabled: true,
        }
    }
}

/// Priority levels for optimization recommendations.
#[derive(Debug, Clone, Copy, PartialEq, Eq, Structural)]
pub enum RecommendationPriority {
    Critical,
    High,
    Medium,
    Low,
}

/// An optimization recommendation for performance improvements.
#[derive(Debug, Clone)]
pub struct OptimizationRecommendation {
    pub category: String,
    pub priority: RecommendationPriority,
    pub description: String,
    pub estimated_impact: String,
}

/// Overall system health status.
#[derive(Debug, Clone, Copy, PartialEq, Eq, Structural)]
pub enum HealthStatus {
    Healthy,
    Degraded,
    Critical,
}

/// Cache counters.
#[derive(Debug, Clone, Copy, PartialEq, Eq, Structural)]
pub struct CacheCounters {
    pub l1_hits: u64,
    pub l1_misses: u64,
    pub evictions: u64,
    pub total_size: usize,
}

// ---------------------------------------------------------------------
// Entries and the store
// ---------------------------------------------------------------------

/// A cached value with its bookkeeping.
#[derive(Debug, Clone)]
pub struct CacheEntry {
    pub value: String,
    pub created_at_ms: u64,
    pub last_accessed_ms: u64,
    pub access_count: u64,
    pub ttl_seconds: u64,
}

/// An entry has outlived its time to live at time `now_ms` when more than
/// `ttl_seconds` have passed since it was created (no time passes when the
/// clock reads earlier than the creation time).
pub open spec fn entry_expired(e: CacheEntry, now_ms: u64) -> bool {
    let elapsed = if now_ms >= e.created_at_ms {
        now_ms - e.created_at_ms
    } else {
        0
    };
    elapsed > e.ttl_seconds * 1000
}

fn is_expired(e: &CacheEntry, now_ms: u64) -> (r: bool)
    ensures
        r == entry_expired(*e, now_ms),
{
    let elapsed: u64 = if now_ms >= e.created_at_ms {
        now_ms - e.created_at_ms
    } else {
        0
    };
    (elapsed as u128) > (e.ttl_seconds as u128) * 1000
}

pub open spec fn key_views(data: Seq<(String, CacheEntry)>) -> Seq<Seq<char>> {
    data.map_values(|e: (String, CacheEntry)| e.0@)
}

/// The stored entries as a map from key to entry.
pub open spec fn entry_map(data: Seq<(String, CacheEntry)>) -> Map<Seq<char>, CacheEntry>
    decreases data.len(),
{
    if data.len() == 0 {
        Map::empty()
    } else {
        entry_map(data.drop_last()).insert(data.last().0@, data.last().1)
    }
}

proof fn lemma_entry_map(data: Seq<(String, CacheEntry)>)
    ensures
        forall|k: Seq<char>| #[trigger]
            entry_map(data).dom().contains(k) <==> key_views(data).contains(k),
        key_views(data).no_duplicates() ==> forall|i: int|
            0 <= i < data.len() ==> entry_map(data).dom().contains(#[trigger] data[i].0@)
                && entry_map(data)[data[i].0@] == data[i].1,
    decreases data.len(),
{
    if data.len() > 0 {
        let init = data.drop_last();
        let kd = key_views(data);
        let ki = key_views(init);
        let lk = data.last().0@;
        lemma_entry_map(init);
        assert(kd =~= ki.push(lk));
        assert forall|k: Seq<char>| #[trigger]
            entry_map(data).dom().contains(k) <==> kd.contains(k) by {
            if kd.contains(k) {
                let j = choose|j: int| 0 <= j < kd.len() && kd[j] == k;
                if j < ki.len() {
                    assert(ki[j] == k);
                }
            }
            if ki.contains(k) {
                let j = choose|j: int| 0 <= j < ki.len() && ki[j] == k;
                assert(kd[j] == k);
            }
            if k == lk {
                assert(kd[kd.len() - 1] == k);
            }
            assert(entry_map(data) == entry_map(init).insert(lk, data.last().1));
            assert(entry_map(init).dom().contains(k) <==> ki.contains(k));
        }
        if kd.no_duplicates() {
            assert(ki.no_duplicates()) by {
                assert forall|a: int, b: int| 0 <= a < ki.len() && 0 <= b < ki.len() && a != b
                    implies ki[a] != ki[b] by {
                    assert(kd[a] == ki[a]);
                    assert(kd[b] == ki[b]);
                }
            }
            assert forall|i: int| 0 <= i < data.len() implies entry_map(data).dom().contains(
                #[trigger] data[i].0@) && entry_map(data)[data[i].0@] == data[i].1 by {
                assert(kd[i] == data[i].0@);
                if i < data.len() - 1 {
                    assert(kd[i] != kd[data.len() - 1]);
                    assert(init[i] == data[i]);
                }
            }
        }
    }
}

/// The least-recently-used store. `data` holds the entries, keys unique;
/// `access_order` lists keys from least to most recently used. A key that
/// is stored again is listed again, so the order can hold a key twice, and
/// keys whose entries were removed may stay listed; every stored key is
/// listed.
pub struct LruCache {
    data: Vec<(String, CacheEntry)>,
    access_order: Vec<String>,
    max_entries: usize,
}

/// The store as the caller sees it.
#[verifier::ext_equal]
pub struct LruView {
    pub entries: Map<Seq<char>, CacheEntry>,
    pub order: Seq<Seq<char>>,
    pub max_entries: usize,
}

impl View for LruCache {
    type V = LruView;

    closed spec fn view(&self) -> LruView {
        LruView {
            entries: entry_map(self.data@),
            order: self.access_order.deep_view(),
            max_entries: self.max_entries,
        }
    }
}

/// The first position at which `k` is listed, if any.
pub open spec fn first_index(s: Seq<Seq<char>>, k: Seq<char>) -> int
    decreases s.len(),
{
    if s.len() == 0 {
        -1
    } else if s[0] == k {
        0
    } else {
        let rest = first_index(s.drop_first(), k);
        if rest < 0 {
            -1
        } else {
            rest + 1
        }
    }
}

/// The order with the first listing of `k` removed.
pub open spec fn remove_first(s: Seq<Seq<char>>, k: Seq<char>) -> Seq<Seq<char>> {
    let i = first_index(s, k);
    if i < 0 {
        s
    } else {
        s.remove(i)
    }
}

proof fn lemma_first_index(s: Seq<Seq<char>>, k: Seq<char>)
    ensures
        -1 <= first_index(s, k) < s.len(),
        first_index(s, k) >= 0 ==> s[first_index(s, k)] == k,
        first_index(s, k) < 0 ==> !s.contains(k),
        forall|j: int| 0 <= j < first_index(s, k) ==> s[j] != k,
    decreases s.len(),
{
    if s.len() > 0 && s[0] != k {
        lemma_first_index(s.drop_first(), k);
        if first_index(s.drop_first(), k) < 0 {
            assert forall|j: int| 0 <= j < s.len() implies s[j] != k by {
                if j > 0 {
                    assert(s.drop_first()[j - 1] == s[j]);
                }
            }
        } else {
            assert forall|j: int| 0 <= j < first_index(s, k) implies s[j] != k by {
                if j > 0 {
                    assert(s.drop_first()[j - 1] == s[j]);
                }
            }
        }
    }
}

impl LruCache {
    /// Every stored key is unique and listed in the access order, and the
    /// store holds no more than its capacity (one, where that is zero).
    pub closed spec fn wf(&self) -> bool {
        &&& key_views(self.data@).no_duplicates()
        &&& self.data@.len() <= capacity_bound(self.max_entries)
        &&& forall|k: Seq<char>| #[trigger]
            key_views(self.data@).contains(k) ==> self.access_order.deep_view().contains(k)
    }

    /// An empty store for at most `max_entries` entries.
    pub fn new(max_entries: usize) -> (r: LruCache)
        ensures
            r.wf(),
            r@.entries == Map::<Seq<char>, CacheEntry>::empty(),
            r@.order == Seq::<Seq<char>>::empty(),
            r@.max_entries == max_entries,
    {
        let r = LruCache { data: Vec::new(), access_order: Vec::new(), max_entries };
        proof {
            assert(r.access_order.deep_view() =~= Seq::<Seq<char>>::empty());
            assert(key_views(r.data@) =~= Seq::<Seq<char>>::empty());
        }
        r
    }

    /// The number of stored entries.
    pub fn len(&self) -> (r: usize)
        requires
            self.wf(),
        ensures
            r == self@.entries.len(),
    {
        proof {
            self.lemma_len();
        }
        self.data.len()
    }

    proof fn lemma_len(&self)
        requires
            self.wf(),
        ensures
            self@.entries.len() == self.data@.len(),
            self@.entries.dom().finite(),
    {
        lemma_unique_len(self.data@);
    }

    fn find(&self, key: &str) -> (r: Option<usize>)
        requires
            key_views(self.data@).no_duplicates(),
        ensures
            r matches Some(i) ==> i < self.data@.len() && self.data@[i as int].0@ == key@,
            r is None ==> !self@.entries.dom().contains(key@),
    {
        proof {
            lemma_entry_map(self.data@);
        }
        let mut i: usize = 0;
        while i < self.data.len()
            invariant
                i <= self.data.len(),
                forall|j: int| 0 <= j < i ==> self.data@[j].0@ != key@,
            decreases self.data.len() - i,
        {
            if str_eq(self.data[i].0.as_str(), key) {
                return Some(i);
            }
            i = i + 1;
        }
        proof {
            if key_views(self.data@).contains(key@) {
                let j = choose|j: int|
                    0 <= j < key_views(self.data@).len() && key_views(self.data@)[j] == key@;
                assert(self.data@[j].0@ == key@);
            }
        }
        None
    }

    fn remove_from_order(&mut self, key: &str)
        ensures
            final(self).access_order.deep_view() == remove_first(
                old(self).access_order.deep_view(),
                key@,
            ),
            final(self).data == old(self).data,
            final(self).max_entries == old(self).max_entries,
    {
        let ghost order = self.access_order.deep_view();
        proof {
            lemma_first_index(order, key@);
        }
        let mut i: usize = 0;
        while i < self.access_order.len()
            invariant
                i <= self.access_order.len(),
                order == self.access_order.deep_view(),
                self.data == old(self).data,
                self.max_entries == old(self).max_entries,
                order == old(self).access_order.deep_view(),
                forall|j: int| 0 <= j < i ==> order[j] != key@,
                -1 <= first_index(order, key@) < order.len(),
                first_index(order, key@) >= 0 ==> order[first_index(order, key@)] == key@,
                forall|j: int| 0 <= j < first_index(order, key@) ==> order[j] != key@,
                first_index(order, key@) < 0 ==> !order.contains(key@),
            decreases self.access_order.len() - i,
        {
            proof {
                assert(order[i as int] == self.access_order@[i as int]@);
            }
            if str_eq(self.access_order[i].as_str(), key) {
                proof {
                    assert(first_index(order, key@) == i);
                }
                let ghost before = self.access_order@;
                self.access_order.remove(i);
                proof {
                    assert(self.access_order.deep_view() =~= order.remove(i as int));
                }
                return;
            }
            i = i + 1;
        }
        proof {
            if first_index(order, key@) >= 0 {
                assert(order[first_index(order, key@)] == key@);
            }
        }
    }
}

proof fn lemma_unique_len(data: Seq<(String, CacheEntry)>)
    requires
        key_views(data).no_duplicates(),
    ensures
        entry_map(data).len() == data.len(),
        entry_map(data).dom().finite(),
    decreases data.len(),
{
    if data.len() > 0 {
        let init = data.drop_last();
        assert(key_views(init) =~= key_views(data).drop_last());
        lemma_unique_len(init);
        lemma_entry_map(init);
        assert(!key_views(init).contains(data.last().0@)) by {
            if key_views(init).contains(data.last().0@) {
                let j = choose|j: int|
                    0 <= j < key_views(init).len() && key_views(init)[j] == data.last().0@;
                assert(key_views(data)[j] == key_views(data)[data.len() - 1]);
            }
        }
    } else {
        assert(entry_map(data) =~= Map::<Seq<char>, CacheEntry>::empty());
    }
}


/// Pushing a new pair stores its entry under its key.
proof fn lemma_entry_map_push(data: Seq<(String, CacheEntry)>, p: (String, CacheEntry))
    ensures
        entry_map(data.push(p)) == entry_map(data).insert(p.0@, p.1),
        key_views(data.push(p)) == key_views(data).push(p.0@),
{
    assert(data.push(p).drop_last() =~= data);
    assert(key_views(data.push(p)) =~= key_views(data).push(p.0@));
}

/// Dropping the pair at `i` drops its key from the map.
proof fn lemma_entry_map_remove(data: Seq<(String, CacheEntry)>, i: int)
    requires
        key_views(data).no_duplicates(),
        0 <= i < data.len(),
    ensures
        entry_map(data.remove(i)) == entry_map(data).remove(data[i].0@),
        key_views(data.remove(i)).no_duplicates(),
        key_views(data.remove(i)) == key_views(data).remove(i),
{
    let d2 = data.remove(i);
    let k = data[i].0@;
    let kd = key_views(data);
    assert(key_views(d2) =~= kd.remove(i));
    let k2 = key_views(d2);
    assert(k2.no_duplicates()) by {
        assert forall|a: int, b: int| 0 <= a < k2.len() && 0 <= b < k2.len() && a != b
            implies k2[a] != k2[b] by {
            let a1 = if a < i { a } else { a + 1 };
            let b1 = if b < i { b } else { b + 1 };
            assert(k2[a] == kd[a1]);
            assert(k2[b] == kd[b1]);
        }
    }
    lemma_entry_map(data);
    lemma_entry_map(d2);
    let lhs = entry_map(d2);
    let rhs = entry_map(data).remove(k);
    assert forall|x: Seq<char>| #[trigger] lhs.dom().contains(x) <==> rhs.dom().contains(x) by {
        if k2.contains(x) {
            let j = choose|j: int| 0 <= j < k2.len() && k2[j] == x;
            let j1 = if j < i { j } else { j + 1 };
            assert(kd[j1] == x);
            assert(kd[i] == k);
        }
        if kd.contains(x) && x != k {
            let j = choose|j: int| 0 <= j < kd.len() && kd[j] == x;
            assert(j != i);
            let j2 = if j < i { j } else { j - 1 };
            assert(k2[j2] == x);
        }
    }
    assert forall|x: Seq<char>| #[trigger] lhs.dom().contains(x) implies lhs[x] == rhs[x] by {
        let j = choose|j: int| 0 <= j < k2.len() && k2[j] == x;
        let j1 = if j < i { j } else { j + 1 };
        assert(d2[j] == data[j1]);
        assert(kd[j1] == data[j1].0@);
        assert(k2[j] == d2[j].0@);
    }
    assert(lhs =~= rhs);
}

/// Replacing the pair at `i` by one with the same key replaces its entry.
proof fn lemma_entry_map_update(data: Seq<(String, CacheEntry)>, i: int, p: (String, CacheEntry))
    requires
        key_views(data).no_duplicates(),
        0 <= i < data.len(),
        p.0@ == data[i].0@,
    ensures
        entry_map(data.update(i, p)) == entry_map(data).insert(p.0@, p.1),
        key_views(data.update(i, p)) == key_views(data),
{
    let d2 = data.update(i, p);
    assert(key_views(d2) =~= key_views(data)) by {
        assert forall|j: int| 0 <= j < data.len() implies key_views(d2)[j] == key_views(data)[j] by {
            if j == i {
                assert(key_views(d2)[j] == p.0@);
            }
        }
    }
    lemma_entry_map(data);
    lemma_entry_map(d2);
    let kd = key_views(data);
    let lhs = entry_map(d2);
    let rhs = entry_map(data).insert(p.0@, p.1);
    assert forall|x: Seq<char>| #[trigger] lhs.dom().contains(x) <==> rhs.dom().contains(x) by {
        if x == p.0@ {
            assert(kd[i] == x);
        }
    }
    assert forall|x: Seq<char>| #[trigger] lhs.dom().contains(x) implies lhs[x] == rhs[x] by {
        let j = choose|j: int| 0 <= j < kd.len() && kd[j] == x;
        assert(kd[j] == data[j].0@);
        assert(key_views(d2)[j] == d2[j].0@);
        if j != i {
            assert(kd[j] != kd[i]);
        }
    }
    assert(lhs =~= rhs);
}

/// The eviction that makes room before a store: while the store is at
/// capacity and a key is listed, the least recently used listing is dropped
/// together with its entry.
pub open spec fn evict_spec(
    entries: Map<Seq<char>, CacheEntry>,
    order: Seq<Seq<char>>,
    max_entries: nat,
) -> (Map<Seq<char>, CacheEntry>, Seq<Seq<char>>)
    decreases order.len(),
{
    if entries.len() >= max_entries && order.len() > 0 {
        evict_spec(entries.remove(order[0]), order.drop_first(), max_entries)
    } else {
        (entries, order)
    }
}

/// Storing `e` under `key`: evict, then store and list the key as most
/// recently used.
pub open spec fn insert_spec(v: LruView, key: Seq<char>, e: CacheEntry) -> LruView {
    let (entries, order) = evict_spec(v.entries, v.order, v.max_entries as nat);
    LruView { entries: entries.insert(key, e), order: order.push(key), max_entries: v.max_entries }
}

/// Removing `key`: its entry and its first listing go.
pub open spec fn remove_spec(v: LruView, key: Seq<char>) -> LruView {
    LruView {
        entries: v.entries.remove(key),
        order: remove_first(v.order, key),
        max_entries: v.max_entries,
    }
}

/// Marking a stored `key` as most recently used; a key that is not stored
/// changes nothing.
pub open spec fn touch_spec(v: LruView, key: Seq<char>) -> LruView {
    if v.entries.dom().contains(key) {
        LruView {
            entries: v.entries,
            order: remove_first(v.order, key).push(key),
            max_entries: v.max_entries,
        }
    } else {
        v
    }
}

/// The larger of the capacity and one: the most entries a store ever holds.
pub open spec fn capacity_bound(max_entries: usize) -> nat {
    if max_entries >= 1 {
        max_entries as nat
    } else {
        1
    }
}

impl LruCache {
    proof fn lemma_listed_after_removal(&self, key: Seq<char>)
        requires
            self.wf(),
        ensures
            forall|k: Seq<char>| #[trigger]
                key_views(self.data@).contains(k) && k != key ==> remove_first(
                    self.access_order.deep_view(),
                    key,
                ).contains(k),
    {
        let o = self.access_order.deep_view();
        lemma_first_index(o, key);
        assert forall|k: Seq<char>| #[trigger]
            key_views(self.data@).contains(k) && k != key implies remove_first(o, key).contains(
                k,
            ) by {
            assert(o.contains(k));
            let j = choose|j: int| 0 <= j < o.len() && o[j] == k;
            let f = first_index(o, key);
            if f >= 0 {
                assert(j != f);
                let j2 = if j < f { j } else { j - 1 };
                assert(o.remove(f)[j2] == k);
            }
        }
    }

    /// Marks `key` as the most recently used, if it is stored; says whether
    /// it is.
    pub fn touch(&mut self, key: &str) -> (found: bool)
        requires
            old(self).wf(),
        ensures
            final(self).wf(),
            found == old(self)@.entries.dom().contains(key@),
            final(self)@ == touch_spec(old(self)@, key@),
    {
        match self.find(key) {
            None => false,
            Some(i) => {
                proof {
                    self.lemma_listed_after_removal(key@);
                    lemma_entry_map(self.data@);
                    assert(key_views(self.data@)[i as int] == key@);
                }
                let ghost before = *self;
                self.remove_from_order(key);
                self.access_order.push(key.to_string());
                proof {
                    let o2 = before.access_order.deep_view();
                    assert(self.access_order.deep_view() =~= remove_first(o2, key@).push(key@));
                    assert forall|k: Seq<char>| #[trigger]
                        key_views(self.data@).contains(k) implies self.access_order.deep_view().contains(
                        k,
                    ) by {
                        if k == key@ {
                            assert(self.access_order.deep_view().last() == k);
                        } else {
                            assert(remove_first(o2, key@).contains(k));
                            let j = choose|j: int|
                                0 <= j < remove_first(o2, key@).len() && remove_first(o2, key@)[j]
                                    == k;
                            assert(self.access_order.deep_view()[j] == k);
                        }
                    }
                    assert(self@ =~= touch_spec(before@, key@));
                }
                true
            },
        }
    }

    /// Removes `key`: its entry, which is returned, and its first listing.
    pub fn remove(&mut self, key: &str) -> (r: Option<CacheEntry>)
        requires
            old(self).wf(),
        ensures
            final(self).wf(),
            final(self)@ == remove_spec(old(self)@, key@),
            r == (if old(self)@.entries.dom().contains(key@) {
                Some(old(self)@.entries[key@])
            } else {
                None
            }),
    {
        proof {
            self.lemma_listed_after_removal(key@);
            lemma_entry_map(self.data@);
        }
        let ghost before = *self;
        let found = self.find(key);
        self.remove_from_order(key);
        match found {
            Some(i) => {
                let pair = self.data.remove(i);
                proof {
                    let d = before.data@;
                    lemma_entry_map_remove(d, i as int);
                    assert(key_views(d)[i as int] == key@);
                    assert forall|k: Seq<char>| #[trigger]
                        key_views(self.data@).contains(k) implies self.access_order.deep_view().contains(
                        k,
                    ) by {
                        let j = choose|j: int|
                            0 <= j < key_views(self.data@).len() && key_views(self.data@)[j] == k;
                        let j1 = if j < i { j } else { j + 1 };
                        assert(key_views(d)[j1] == k);
                        assert(j1 != i);
                        assert(key_views(d)[j1] != key_views(d)[i as int]);
                    }
                    assert(self@ =~= remove_spec(before@, key@));
                }
                Some(pair.1)
            },
            None => {
                proof {
                    assert(before@.entries.remove(key@) =~= before@.entries);
                    assert forall|k: Seq<char>| #[trigger]
                        key_views(self.data@).contains(k) implies self.access_order.deep_view().contains(
                        k,
                    ) by {
                        assert(k != key@);
                    }
                    assert(self@ =~= remove_spec(before@, key@));
                }
                None
            },
        }
    }

    /// Stores `entry` under `key`. While the store holds its capacity and a
    /// key is listed, the least recently used listing is dropped with its
    /// entry; then the entry is stored (replacing one under the same key)
    /// and the key listed as most recently used.
    pub fn insert(&mut self, key: String, entry: CacheEntry)
        requires
            old(self).wf(),
        ensures
            final(self).wf(),
            final(self)@ == insert_spec(old(self)@, key@, entry),
    {
        let ghost target = evict_spec(self@.entries, self@.order, self.max_entries as nat);
        let ghost max0 = self.max_entries;
        while self.data.len() >= self.max_entries && self.access_order.len() > 0
            invariant
                self.wf(),
                self.max_entries == max0,
                evict_spec(self@.entries, self@.order, self.max_entries as nat) == target,
            decreases self.access_order.len(),
        {
            proof {
                self.lemma_len();
                lemma_entry_map(self.data@);
            }
            let ghost before = *self;
            let oldest = self.access_order[0].clone();
            proof {
                assert(oldest@ == before.access_order.deep_view()[0]);
            }
            let found = self.find(oldest.as_str());
            self.access_order.remove(0);
            proof {
                assert(self.access_order.deep_view() =~= before.access_order.deep_view().drop_first());
            }
            match found {
                Some(i) => {
                    self.data.remove(i);
                    proof {
                        let d = before.data@;
                        lemma_entry_map_remove(d, i as int);
                        assert(key_views(d)[i as int] == oldest@);
                        let o = before.access_order.deep_view();
                        assert forall|k: Seq<char>| #[trigger]
                            key_views(self.data@).contains(k) implies self.access_order.deep_view().contains(
                            k,
                        ) by {
                            let j = choose|j: int|
                                0 <= j < key_views(self.data@).len() && key_views(self.data@)[j]
                                    == k;
                            let j1 = if j < i { j } else { j + 1 };
                            assert(key_views(d)[j1] == k);
                            assert(key_views(d)[j1] != key_views(d)[i as int]);
                            assert(o.contains(k));
                            let m = choose|m: int| 0 <= m < o.len() && o[m] == k;
                            assert(m != 0);
                            assert(o.drop_first()[m - 1] == k);
                        }
                    }
                },
                None => {
                    proof {
                        assert(before@.entries.remove(oldest@) =~= before@.entries);
                        let o = before.access_order.deep_view();
                        assert forall|k: Seq<char>| #[trigger]
                            key_views(self.data@).contains(k) implies self.access_order.deep_view().contains(
                            k,
                        ) by {
                            assert(o.contains(k));
                            let m = choose|m: int| 0 <= m < o.len() && o[m] == k;
                            assert(k != oldest@);
                            assert(m != 0);
                            assert(o.drop_first()[m - 1] == k);
                        }
                    }
                },
            }
            proof {
                assert(self@.entries == before@.entries.remove(before@.order[0]));
                assert(self@.order == before@.order.drop_first());
            }
        }
        proof {
            self.lemma_len();
            lemma_entry_map(self.data@);
            if self.data@.len() > 0 {
                assert(key_views(self.data@).contains(key_views(self.data@)[0]));
            }
        }
        let ghost mid = *self;
        let found = self.find(key.as_str());
        match found {
            Some(i) => {
                self.data.set(i, (key.clone(), entry));
                proof {
                    lemma_entry_map_update(mid.data@, i as int, (key, entry));
                }
            },
            None => {
                self.data.push((key.clone(), entry));
                proof {
                    lemma_entry_map_push(mid.data@, (key, entry));
                    assert(!key_views(mid.data@).contains(key@));
                    assert(key_views(self.data@).no_duplicates()) by {
                        let kv = key_views(self.data@);
                        assert forall|a: int, b: int|
                            0 <= a < kv.len() && 0 <= b < kv.len() && a != b implies kv[a]
                            != kv[b] by {
                            if a == kv.len() - 1 {
                                assert(key_views(mid.data@)[b] == kv[b]);
                            } else if b == kv.len() - 1 {
                                assert(key_views(mid.data@)[a] == kv[a]);
                            }
                        }
                    }
                }
            },
        }
        self.access_order.push(key);
        proof {
            let o = mid.access_order.deep_view();
            assert(self.access_order.deep_view() =~= o.push(key@));
            assert forall|k: Seq<char>| #[trigger]
                key_views(self.data@).contains(k) implies self.access_order.deep_view().contains(
                k,
            ) by {
                lemma_entry_map(self.data@);
                if k == key@ {
                    assert(self.access_order.deep_view()[o.len() as int] == k);
                } else {
                    assert(key_views(mid.data@).contains(k));
                    let m = choose|m: int| 0 <= m < o.len() && o[m] == k;
                    assert(self.access_order.deep_view()[m] == k);
                }
            }
            assert(self@ =~= insert_spec(old(self)@, key@, entry));
        }
    }
}

/// A store never holds more entries than its capacity, or than one where
/// the capacity is zero.
pub proof fn lemma_store_within_capacity(c: &LruCache)
    requires
        c.wf(),
    ensures
        c@.entries.len() <= capacity_bound(c@.max_entries),
        c@.entries.dom().finite(),
{
    c.lemma_len();
}

impl LruCache {
    /// A copy of the entry stored under `key`, if any.
    pub fn get(&self, key: &str) -> (r: Option<CacheEntry>)
        requires
            self.wf(),
        ensures
            r == (if self@.entries.dom().contains(key@) {
                Some(self@.entries[key@])
            } else {
                None
            }),
    {
        proof {
            lemma_entry_map(self.data@);
        }
        match self.find(key) {
            Some(i) => {
                proof {
                    assert(key_views(self.data@)[i as int] == key@);
                }
                Some(self.data[i].1.duplicate())
            },
            None => None,
        }
    }

    /// Replaces the entry stored under `key`, if any, leaving the order of
    /// use as it is.
    pub fn replace(&mut self, key: &str, entry: CacheEntry)
        requires
            old(self).wf(),
        ensures
            final(self).wf(),
            final(self)@.order == old(self)@.order,
            final(self)@.max_entries == old(self)@.max_entries,
            final(self)@.entries == (if old(self)@.entries.dom().contains(key@) {
                old(self)@.entries.insert(key@, entry)
            } else {
                old(self)@.entries
            }),
    {
        proof {
            lemma_entry_map(self.data@);
        }
        let ghost before = *self;
        match self.find(key) {
            Some(i) => {
                let k = self.data[i].0.clone();
                self.data.set(i, (k, entry));
                proof {
                    assert(key_views(before.data@)[i as int] == key@);
                    lemma_entry_map_update(before.data@, i as int, (k, entry));
                }
            },
            None => {},
        }
    }
}

impl CacheEntry {
    /// A field-for-field copy.
    pub fn duplicate(&self) -> (r: CacheEntry)
        ensures
            r == *self,
    {
        CacheEntry {
            value: self.value.clone(),
            created_at_ms: self.created_at_ms,
            last_accessed_ms: self.last_accessed_ms,
            access_count: self.access_count,
            ttl_seconds: self.ttl_seconds,
        }
    }
}

/// The order with the first listing of each key of `doomed` dropped.
pub open spec fn strip_first(order: Seq<Seq<char>>, doomed: Set<Seq<char>>) -> Seq<Seq<char>>
    decreases order.len(),
{
    if order.len() == 0 {
        order
    } else if doomed.contains(order[0]) {
        strip_first(order.drop_first(), doomed.remove(order[0]))
    } else {
        seq![order[0]] + strip_first(order.drop_first(), doomed)
    }
}

/// The stored keys that contain `pattern`.
pub open spec fn matching_keys(c: LruView, pattern: Seq<char>) -> Set<Seq<char>> {
    Set::new(|k: Seq<char>| c.entries.dom().contains(k) && contains_seq(k, pattern))
}

/// The store after every key that contains `pattern` was removed.
pub open spec fn invalidate_spec(c: LruView, pattern: Seq<char>) -> LruView {
    LruView {
        entries: c.entries.remove_keys(matching_keys(c, pattern)),
        order: strip_first(c.order, matching_keys(c, pattern)),
        max_entries: c.max_entries,
    }
}

proof fn lemma_strip_empty(order: Seq<Seq<char>>)
    ensures
        strip_first(order, Set::empty()) == order,
    decreases order.len(),
{
    if order.len() > 0 {
        lemma_strip_empty(order.drop_first());
        assert(seq![order[0]] + order.drop_first() =~= order);
    }
}

proof fn lemma_remove_first_cons(a: Seq<char>, rest: Seq<Seq<char>>, k: Seq<char>)
    ensures
        remove_first(seq![a] + rest, k) == (if a == k {
            rest
        } else {
            seq![a] + remove_first(rest, k)
        }),
{
    let s = seq![a] + rest;
    assert(s.drop_first() =~= rest);
    assert(s[0] == a);
    lemma_first_index(rest, k);
    if a == k {
        assert(s.remove(0) =~= rest);
    } else {
        let f = first_index(rest, k);
        if f >= 0 {
            assert(s.remove(f + 1) =~= seq![a] + rest.remove(f));
        }
    }
}

/// Dropping the first listing of one more key, in any order, is the same
/// as stripping the first listings of the larger set.
proof fn lemma_strip_insert(order: Seq<Seq<char>>, doomed: Set<Seq<char>>, k: Seq<char>)
    requires
        !doomed.contains(k),
    ensures
        remove_first(strip_first(order, doomed), k) == strip_first(order, doomed.insert(k)),
    decreases order.len(),
{
    if order.len() == 0 {
        lemma_first_index(order, k);
    } else {
        let a = order[0];
        let rest = order.drop_first();
        if doomed.contains(a) {
            assert(doomed.insert(k).remove(a) =~= doomed.remove(a).insert(k));
            lemma_strip_insert(rest, doomed.remove(a), k);
        } else if a == k {
            lemma_remove_first_cons(a, strip_first(rest, doomed), k);
            assert(doomed.insert(k).remove(k) =~= doomed);
        } else {
            lemma_remove_first_cons(a, strip_first(rest, doomed), k);
            lemma_strip_insert(rest, doomed, k);
        }
    }
}

impl LruCache {
    /// Removes every stored key that contains `pattern`, as `remove` would
    /// one after another.
    pub fn invalidate_matching(&mut self, pattern: &str)
        requires
            old(self).wf(),
        ensures
            final(self).wf(),
            final(self)@ == invalidate_spec(old(self)@, pattern@),
    {
        proof {
            lemma_entry_map(self.data@);
        }
        let ghost c0 = self@;
        let ghost keys0 = key_views(self.data@);
        let pat = to_chars(pattern);
        let mut doomed: Vec<String> = Vec::new();
        let mut i: usize = 0;
        while i < self.data.len()
            invariant
                self@ == c0,
                keys0 == key_views(self.data@),
                keys0.no_duplicates(),
                pat@ == pattern@,
                i <= self.data.len(),
                doomed.deep_view().no_duplicates(),
                forall|x: Seq<char>| #[trigger]
                    doomed.deep_view().contains(x) <==> (keys0.subrange(0, i as int).contains(x)
                        && contains_seq(x, pattern@)),
            decreases self.data.len() - i,
        {
            let ghost d0 = doomed.deep_view();
            let ghost x = self.data@[i as int].0@;
            let key_chars = to_chars(self.data[i].0.as_str());
            let matched = contains_chars(&key_chars, &pat);
            if matched {
                let k = self.data[i].0.clone();
                doomed.push(k);
            }
            proof {
                assert(keys0[i as int] == x);
                let sub = keys0.subrange(0, i as int);
                let sub2 = keys0.subrange(0, i + 1);
                assert(sub2 =~= sub.push(x));
                assert(!sub.contains(x)) by {
                    if sub.contains(x) {
                        let j = choose|j: int| 0 <= j < i && sub[j] == x;
                        assert(keys0[j] == keys0[i as int]);
                    }
                }
                assert(matched == contains_seq(x, pattern@));
                if matched {
                    assert(doomed.deep_view() =~= d0.push(x));
                    assert(!d0.contains(x));
                    let dv = doomed.deep_view();
                    assert forall|a: int, b: int|
                        0 <= a < dv.len() && 0 <= b < dv.len() && a != b implies dv[a] != dv[b] by {
                        if a == dv.len() - 1 {
                            assert(d0.contains(dv[b]));
                        } else if b == dv.len() - 1 {
                            assert(d0.contains(dv[a]));
                        } else {
                            assert(d0[a] != d0[b]);
                        }
                    }
                } else {
                    assert(doomed.deep_view() == d0);
                }
                assert forall|y: Seq<char>| #[trigger] doomed.deep_view().contains(y) <==> (
                sub2.contains(y) && contains_seq(y, pattern@)) by {
                    if sub2.contains(y) && y != x {
                        let j = choose|j: int| 0 <= j < sub2.len() && sub2[j] == y;
                        assert(sub[j] == y);
                    }
                    if sub.contains(y) {
                        let j = choose|j: int| 0 <= j < sub.len() && sub[j] == y;
                        assert(sub2[j] == y);
                    }
                    assert(sub2[i as int] == x);
                    if matched {
                        assert(doomed.deep_view()[d0.len() as int] == x);
                        if d0.contains(y) {
                            let j = choose|j: int| 0 <= j < d0.len() && d0[j] == y;
                            assert(doomed.deep_view()[j] == y);
                        }
                        if doomed.deep_view().contains(y) && y != x {
                            let j = choose|j: int|
                                0 <= j < doomed.deep_view().len() && doomed.deep_view()[j] == y;
                            assert(d0[j] == y);
                        }
                    }
                }
            }
            i = i + 1;
        }
        proof {
            assert(keys0.subrange(0, keys0.len() as int) =~= keys0);
            lemma_strip_empty(c0.order);
            assert(c0.entries.remove_keys(Set::empty()) =~= c0.entries);
            assert(doomed.deep_view().subrange(0, 0).to_set() =~= Set::<Seq<char>>::empty());
        }
        let ghost all = matching_keys(c0, pattern@);
        let mut j: usize = 0;
        while j < doomed.len()
            invariant
                self.wf(),
                j <= doomed.len(),
                doomed.deep_view().no_duplicates(),
                forall|x: Seq<char>| #[trigger]
                    doomed.deep_view().contains(x) <==> all.contains(x),
                self@.max_entries == c0.max_entries,
                self@.entries == c0.entries.remove_keys(doomed.deep_view().subrange(0, j as int).to_set()),
                self@.order == strip_first(c0.order, doomed.deep_view().subrange(0, j as int).to_set()),
            decreases doomed.len() - j,
        {
            let ghost before = self@;
            let ghost done = doomed.deep_view().subrange(0, j as int).to_set();
            let ghost x = doomed.deep_view()[j as int];
            self.remove(doomed[j].as_str());
            proof {
                let dv = doomed.deep_view();
                assert(doomed@[j as int]@ == x);
                assert(!done.contains(x)) by {
                    if done.contains(x) {
                        let m = choose|m: int| 0 <= m < j && dv.subrange(0, j as int)[m] == x;
                        assert(dv[m] == dv[j as int]);
                    }
                }
                lemma_strip_insert(c0.order, done, x);
                assert(dv.subrange(0, j + 1).to_set() =~= done.insert(x)) by {
                    assert(dv.subrange(0, j + 1) =~= dv.subrange(0, j as int).push(x));
                    dv.subrange(0, j as int).lemma_push_to_set_commute(x);
                }
                assert(self@.entries =~= c0.entries.remove_keys(done.insert(x)));
            }
            j = j + 1;
        }
        proof {
            let dv = doomed.deep_view();
            assert(dv.subrange(0, dv.len() as int) =~= dv);
            assert(dv.to_set() =~= all);
            assert(self@ =~= invalidate_spec(c0, pattern@));
        }
    }
}

/// The entry a store creates: created and last used at `now_ms`, used once.
pub open spec fn fresh_entry(value: String, now_ms: u64, ttl_seconds: u64) -> CacheEntry {
    CacheEntry {
        value,
        created_at_ms: now_ms,
        last_accessed_ms: now_ms,
        access_count: 1,
        ttl_seconds,
    }
}

/// The entry after a read at `now_ms`: last used then, used once more.
pub open spec fn accessed_entry(e: CacheEntry, now_ms: u64) -> CacheEntry {
    CacheEntry {
        value: e.value,
        created_at_ms: e.created_at_ms,
        last_accessed_ms: now_ms,
        access_count: e.access_count.saturating_add(1),
        ttl_seconds: e.ttl_seconds,
    }
}

/// What a read of `key` at `now_ms` gives back: the stored value while it
/// has not expired, else nothing.
pub open spec fn lookup_value(c: LruView, key: Seq<char>, now_ms: u64) -> Option<String> {
    if c.entries.dom().contains(key) && !entry_expired(c.entries[key], now_ms) {
        Some(c.entries[key].value)
    } else {
        None
    }
}

/// The store after a read of `key` at `now_ms`.
pub open spec fn after_lookup(c: LruView, key: Seq<char>, now_ms: u64) -> LruView {
    if !c.entries.dom().contains(key) {
        c
    } else if !entry_expired(c.entries[key], now_ms) {
        let t = touch_spec(c, key);
        LruView {
            entries: t.entries.insert(key, accessed_entry(c.entries[key], now_ms)),
            order: t.order,
            max_entries: t.max_entries,
        }
    } else {
        remove_spec(touch_spec(c, key), key)
    }
}

/// A read drops an expired entry, which counts as an eviction.
pub open spec fn lookup_evicts(c: LruView, key: Seq<char>, now_ms: u64) -> bool {
    c.entries.dom().contains(key) && entry_expired(c.entries[key], now_ms)
}

/// The multi-level cache as far as this process holds it: the in-memory
/// store, its counters and its configuration.
pub struct CacheManager {
    l1_cache: LruCache,
    stats: CacheCounters,
    config: CacheConfig,
}

/// The cache as the caller sees it.
#[verifier::ext_equal]
pub struct CacheView {
    pub store: LruView,
    pub stats: CacheCounters,
    pub config: CacheConfig,
}

impl View for CacheManager {
    type V = CacheView;

    closed spec fn view(&self) -> CacheView {
        CacheView { store: self.l1_cache@, stats: self.stats, config: self.config }
    }
}

impl CacheManager {
    #[verifier::type_invariant]
    spec fn inv(&self) -> bool {
        &&& self.l1_cache.wf()
        &&& self.l1_cache@.max_entries == self.config.l1_max_entries
    }

    /// An empty cache with the given configuration and zeroed counters.
    pub fn new(config: CacheConfig) -> (r: CacheManager)
        ensures
            r@.store.entries == Map::<Seq<char>, CacheEntry>::empty(),
            r@.store.order == Seq::<Seq<char>>::empty(),
            r@.store.max_entries == config.l1_max_entries,
            r@.stats == (CacheCounters { l1_hits: 0, l1_misses: 0, evictions: 0, total_size: 0 }),
            r@.config == config,
    {
        CacheManager {
            l1_cache: LruCache::new(config.l1_max_entries),
            stats: CacheCounters { l1_hits: 0, l1_misses: 0, evictions: 0, total_size: 0 },
            config,
        }
    }

    /// The counters.
    pub fn stats(&self) -> (r: CacheCounters)
        ensures
            r == self@.stats,
    {
        self.stats
    }

    /// The configuration.
    pub fn config(&self) -> (r: CacheConfig)
        ensures
            r == self@.config,
    {
        self.config
    }

    /// The number of stored entries.
    pub fn len(&self) -> (r: usize)
        ensures
            r == self@.store.entries.len(),
    {
        proof {
            use_type_invariant(self);
        }
        self.l1_cache.len()
    }

    /// Reads `key` at time `now_ms`. A stored key is first marked as most
    /// recently used; if its entry has not expired it is marked as read and
    /// its value returned, else it is removed and counted as an eviction.
    pub fn get_from_l1(&mut self, key: &str, now_ms: u64) -> (r: Option<String>)
        ensures
            r == lookup_value(old(self)@.store, key@, now_ms),
            final(self)@.store.entries.len() <= capacity_bound(final(self)@.config.l1_max_entries),
            final(self)@.store == after_lookup(old(self)@.store, key@, now_ms),
            final(self)@.config == old(self)@.config,
            final(self)@.stats == (if lookup_evicts(old(self)@.store, key@, now_ms) {
                CacheCounters {
                    evictions: old(self)@.stats.evictions.saturating_add(1),
                    ..old(self)@.stats
                }
            } else {
                old(self)@.stats
            }),
    {
        proof {
            use_type_invariant(&*self);
        }
        let ghost c0 = self.l1_cache@;
        let mut store = LruCache::new(self.config.l1_max_entries);
        std::mem::swap(&mut store, &mut self.l1_cache);
        let mut evicted = false;
        let mut result: Option<String> = None;
        if store.touch(key) {
            let current = store.get(key);
            match current {
                Some(e) => {
                    if !is_expired(&e, now_ms) {
                        let updated = CacheEntry {
                            value: e.value.clone(),
                            created_at_ms: e.created_at_ms,
                            last_accessed_ms: now_ms,
                            access_count: e.access_count.saturating_add(1),
                            ttl_seconds: e.ttl_seconds,
                        };
                        store.replace(key, updated);
                        proof {
                            assert(store@ =~= after_lookup(c0, key@, now_ms));
                        }
                        result = Some(e.value);
                    } else {
                        store.remove(key);
                        evicted = true;
                    }
                },
                None => {},
            }
        }
        proof {
            lemma_store_within_capacity(&store);
        }
        self.l1_cache = store;
        if evicted {
            self.stats.evictions = self.stats.evictions.saturating_add(1);
        }
        result
    }

    /// Stores `value` under `key` at time `now_ms`, as a fresh entry with
    /// the configured time to live, and records the new number of entries.
    pub fn set_in_l1(&mut self, key: &str, value: String, now_ms: u64)
        ensures
            final(self)@.store == insert_spec(
                old(self)@.store,
                key@,
                fresh_entry(value, now_ms, old(self)@.config.l1_ttl_seconds),
            ),
            final(self)@.store.entries.len() <= capacity_bound(final(self)@.config.l1_max_entries),
            final(self)@.config == old(self)@.config,
            final(self)@.stats == (CacheCounters {
                total_size: final(self)@.store.entries.len() as usize,
                ..old(self)@.stats
            }),
    {
        proof {
            use_type_invariant(&*self);
        }
        let entry = CacheEntry {
            value,
            created_at_ms: now_ms,
            last_accessed_ms: now_ms,
            access_count: 1,
            ttl_seconds: self.config.l1_ttl_seconds,
        };
        let mut store = LruCache::new(self.config.l1_max_entries);
        std::mem::swap(&mut store, &mut self.l1_cache);
        store.insert(key.to_string(), entry);
        proof {
            lemma_store_within_capacity(&store);
        }
        let n = store.len();
        self.l1_cache = store;
        self.stats.total_size = n;
    }

    /// Counts a read that was served from the cache.
    pub fn record_hit(&mut self)
        ensures
            final(self)@.store == old(self)@.store,
            final(self)@.config == old(self)@.config,
            final(self)@.stats == (CacheCounters {
                l1_hits: old(self)@.stats.l1_hits.saturating_add(1),
                ..old(self)@.stats
            }),
    {
        proof {
            use_type_invariant(&*self);
        }
        self.stats.l1_hits = self.stats.l1_hits.saturating_add(1);
    }

    /// Counts a read that the cache could not serve.
    pub fn record_miss(&mut self)
        ensures
            final(self)@.store == old(self)@.store,
            final(self)@.config == old(self)@.config,
            final(self)@.stats == (CacheCounters {
                l1_misses: old(self)@.stats.l1_misses.saturating_add(1),
                ..old(self)@.stats
            }),
    {
        proof {
            use_type_invariant(&*self);
        }
        self.stats.l1_misses = self.stats.l1_misses.saturating_add(1);
    }

    /// Finishes a read the cache could not serve: the freshly computed
    /// value, when it could be serialised, is stored under `key` at time
    /// `now_ms` as `set_in_l1` stores it, and the miss is counted.
    pub fn store_computed(&mut self, key: &str, serialized: Option<String>, now_ms: u64)
        ensures
            final(self)@.config == old(self)@.config,
            final(self)@.store.entries.len() <= capacity_bound(final(self)@.config.l1_max_entries),
            match serialized {
                Some(v) => {
                    &&& final(self)@.store == insert_spec(
                        old(self)@.store,
                        key@,
                        fresh_entry(v, now_ms, old(self)@.config.l1_ttl_seconds),
                    )
                    &&& final(self)@.stats == (CacheCounters {
                        total_size: final(self)@.store.entries.len() as usize,
                        l1_misses: old(self)@.stats.l1_misses.saturating_add(1),
                        ..old(self)@.stats
                    })
                },
                None => {
                    &&& final(self)@.store == old(self)@.store
                    &&& final(self)@.stats == (CacheCounters {
                        l1_misses: old(self)@.stats.l1_misses.saturating_add(1),
                        ..old(self)@.stats
                    })
                },
            },
    {
        proof {
            use_type_invariant(&*self);
            lemma_store_within_capacity(&self.l1_cache);
        }
        match serialized {
            Some(v) => self.set_in_l1(key, v, now_ms),
            None => {},
        }
        self.record_miss();
    }

    /// Removes every stored key that contains `pattern` and records the new
    /// number of entries.
    pub fn invalidate_pattern(&mut self, pattern: &str)
        ensures
            final(self)@.store == invalidate_spec(old(self)@.store, pattern@),
            final(self)@.store.entries.len() <= capacity_bound(final(self)@.config.l1_max_entries),
            final(self)@.config == old(self)@.config,
            final(self)@.stats == (CacheCounters {
                total_size: final(self)@.store.entries.len() as usize,
                ..old(self)@.stats
            }),
    {
        proof {
            use_type_invariant(&*self);
        }
        let mut store = LruCache::new(self.config.l1_max_entries);
        std::mem::swap(&mut store, &mut self.l1_cache);
        store.invalidate_matching(pattern);
        proof {
            lemma_store_within_capacity(&store);
        }
        let n = store.len();
        self.l1_cache = store;
        self.stats.total_size = n;
    }
}

/// A value stored at `now_ms` is what a read of its key gives back for as
/// long as its time to live has not run out.
pub proof fn lemma_read_after_write(
    c: LruView,
    key: Seq<char>,
    value: String,
    now_ms: u64,
    ttl_seconds: u64,
    later_ms: u64,
)
    requires
        later_ms <= now_ms + ttl_seconds * 1000,
    ensures
        lookup_value(insert_spec(c, key, fresh_entry(value, now_ms, ttl_seconds)), key, later_ms)
            == Some(value),
{
}

/// Once its time to live has run out, a stored value is no longer served.
pub proof fn lemma_expired_not_served(
    c: LruView,
    key: Seq<char>,
    value: String,
    now_ms: u64,
    ttl_seconds: u64,
    later_ms: u64,
)
    requires
        later_ms > now_ms + ttl_seconds * 1000,
    ensures
        lookup_value(insert_spec(c, key, fresh_entry(value, now_ms, ttl_seconds)), key, later_ms)
            is None,
{
}

/// A read that finds a live value leaves it in place: reading again at the
/// same time gives the same answer.
pub proof fn lemma_read_is_stable(c: LruView, key: Seq<char>, now_ms: u64)
    ensures
        lookup_value(after_lookup(c, key, now_ms), key, now_ms) == lookup_value(c, key, now_ms),
{
}

/// A removed key is not served.
pub proof fn lemma_removed_not_served(c: LruView, key: Seq<char>, now_ms: u64)
    ensures
        lookup_value(remove_spec(c, key), key, now_ms) is None,
{
}

/// After invalidation no key that contains the pattern is served, and every
/// other key is served exactly as before.
pub proof fn lemma_invalidation(c: LruView, pattern: Seq<char>, key: Seq<char>, now_ms: u64)
    ensures
        contains_seq(key, pattern) ==> lookup_value(invalidate_spec(c, pattern), key, now_ms) is None,
        !contains_seq(key, pattern) ==> lookup_value(invalidate_spec(c, pattern), key, now_ms)
            == lookup_value(c, key, now_ms),
{
}

} // verus!
