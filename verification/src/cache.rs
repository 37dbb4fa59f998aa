//! The value cache: values kept by (table, row, column) handle.
//!
//! The cache keeps its entries from the least recently used to the most
//! recently used. A full cache drops its least recently used entry to make
//! room for a new one. A value the cache does not hold is read from its
//! column file by the caller, handed in, and kept.

use vstd::prelude::*;
use crate::value::{SingleValue, ValueId};

verus! {

/// Index of the first entry with key `k`, searching from `i`.
pub open spec fn index_from<V>(s: Seq<(ValueId, V)>, k: ValueId, i: int) -> Option<int>
    decreases s.len() - i,
{
    if i < 0 || i >= s.len() {
        None
    } else if s[i].0 == k {
        Some(i)
    } else {
        index_from(s, k, i + 1)
    }
}

/// Index of the entry with key `k`.
pub open spec fn index_of<V>(s: Seq<(ValueId, V)>, k: ValueId) -> Option<int> {
    index_from(s, k, 0)
}

/// The value stored under `k`.
pub open spec fn lookup<V>(s: Seq<(ValueId, V)>, k: ValueId) -> Option<V> {
    match index_of(s, k) {
        Some(i) => Some(s[i].1),
        None => None,
    }
}

/// The map the entries stand for.
pub open spec fn entries_map<V>(s: Seq<(ValueId, V)>) -> Map<ValueId, V> {
    Map::new(|k: ValueId| index_of(s, k) is Some, |k: ValueId| lookup(s, k)->0)
}

/// No key occurs twice.
pub open spec fn keys_unique<V>(s: Seq<(ValueId, V)>) -> bool {
    forall|i: int, j: int| 0 <= i < s.len() && 0 <= j < s.len() && i != j ==> s[i].0 != s[j].0
}

/// The entries after storing `v` under `k` in a cache of the given capacity:
/// an entry already under `k` goes, else a full cache drops its least
/// recently used entry (the first); the new entry comes last, as the most
/// recently used.
pub open spec fn after_insert<V>(s: Seq<(ValueId, V)>, capacity: nat, k: ValueId, v: V) -> Seq<(ValueId, V)> {
    match index_of(s, k) {
        Some(i) => s.remove(i).push((k, v)),
        None => if s.len() >= capacity && s.len() > 0 {
            s.drop_first().push((k, v))
        } else {
            s.push((k, v))
        },
    }
}

/// The entries after a lookup of `k`: an entry found becomes the most
/// recently used.
pub open spec fn after_use<V>(s: Seq<(ValueId, V)>, k: ValueId) -> Seq<(ValueId, V)> {
    match index_of(s, k) {
        Some(i) => s.remove(i).push(s[i]),
        None => s,
    }
}

/// The most values a cache of the given capacity holds: the capacity, or one
/// value where the capacity is zero.
pub open spec fn size_bound(capacity: nat) -> nat {
    if capacity == 0 {
        1
    } else {
        capacity
    }
}

pub proof fn lemma_index_from<V>(s: Seq<(ValueId, V)>, k: ValueId, i: int)
    requires
        0 <= i,
    ensures
        match index_from(s, k, i) {
            Some(m) => i <= m < s.len() && s[m].0 == k && forall|j: int| i <= j < m ==> s[j].0 != k,
            None => forall|j: int| i <= j < s.len() ==> s[j].0 != k,
        },
    decreases s.len() - i,
{
    if i < s.len() && s[i].0 != k {
        lemma_index_from(s, k, i + 1);
    }
}

/// With unique keys, the key at `m` is found at `m`.
pub proof fn lemma_index_at<V>(s: Seq<(ValueId, V)>, m: int)
    requires
        keys_unique(s),
        0 <= m < s.len(),
    ensures
        index_of(s, s[m].0) == Some(m),
{
    lemma_index_from(s, s[m].0, 0);
}

/// A key found is in the entries; a key not found is in none of them.
pub proof fn lemma_index_of<V>(s: Seq<(ValueId, V)>, k: ValueId)
    ensures
        match index_of(s, k) {
            Some(m) => 0 <= m < s.len() && s[m].0 == k,
            None => forall|j: int| 0 <= j < s.len() ==> s[j].0 != k,
        },
{
    lemma_index_from(s, k, 0);
}

/// With unique keys, the map of the entries holds exactly their keys, each
/// with its entry's value.
pub proof fn lemma_entries_map<V>(s: Seq<(ValueId, V)>)
    requires
        keys_unique(s),
    ensures
        forall|m: int| 0 <= m < s.len() ==> #[trigger] entries_map(s).contains_key(s[m].0),
        forall|m: int| 0 <= m < s.len() ==> #[trigger] entries_map(s)[s[m].0] == s[m].1,
        forall|k: ValueId| #[trigger] entries_map(s).contains_key(k) ==> exists|m: int| 0 <= m < s.len() && s[m].0 == k,
{
    assert forall|m: int| 0 <= m < s.len() implies #[trigger] entries_map(s).contains_key(s[m].0) by {
        lemma_index_at(s, m);
    }
    assert forall|m: int| 0 <= m < s.len() implies #[trigger] entries_map(s)[s[m].0] == s[m].1 by {
        lemma_index_at(s, m);
        assert(lookup(s, s[m].0) == Some(s[m].1));
        assert(entries_map(s).contains_key(s[m].0));
    }
    assert forall|k: ValueId| #[trigger] entries_map(s).contains_key(k) implies exists|m: int| 0 <= m < s.len() && s[m].0 == k by {
        lemma_index_of(s, k);
        let m = index_of(s, k)->0;
        assert(0 <= m < s.len() && s[m].0 == k);
    }
}

/// Storing keeps keys unique and the entries within the bound.
pub proof fn lemma_after_insert<V>(s: Seq<(ValueId, V)>, capacity: nat, k: ValueId, v: V)
    requires
        keys_unique(s),
        s.len() <= size_bound(capacity),
    ensures
        keys_unique(after_insert(s, capacity, k, v)),
        after_insert(s, capacity, k, v).len() <= size_bound(capacity),
        after_insert(s, capacity, k, v).last() == (k, v),
        after_insert(s, capacity, k, v).len() > 0,
{
    lemma_index_of(s, k);
    let t = after_insert(s, capacity, k, v);
    match index_of(s, k) {
        Some(i) => {
            let u = s.remove(i);
            assert forall|a: int, b: int| 0 <= a < t.len() && 0 <= b < t.len() && a != b implies t[a].0 != t[b].0 by {
                let n = u.len() as int;
                if a < n && b < n {
                    let sa = if a < i { a } else { a + 1 };
                    let sb = if b < i { b } else { b + 1 };
                    assert(u[a] == s[sa] && u[b] == s[sb]);
                } else if a < n {
                    let sa = if a < i { a } else { a + 1 };
                    assert(u[a] == s[sa]);
                    assert(sa != i);
                } else {
                    let sb = if b < i { b } else { b + 1 };
                    assert(u[b] == s[sb]);
                    assert(sb != i);
                }
            }
        },
        None => {
            let u = if s.len() >= capacity && s.len() > 0 { s.drop_first() } else { s };
            assert forall|a: int, b: int| 0 <= a < t.len() && 0 <= b < t.len() && a != b implies t[a].0 != t[b].0 by {
                let off = if s.len() >= capacity && s.len() > 0 { 1int } else { 0int };
                let n = u.len() as int;
                if a < n && b < n {
                    assert(u[a] == s[a + off] && u[b] == s[b + off]);
                } else if a < n {
                    assert(u[a] == s[a + off]);
                } else {
                    assert(u[b] == s[b + off]);
                }
            }
        },
    }
}

/// What the map of the entries holds after storing: the new value under its
/// key, and otherwise only keys it held before, with their values.
pub proof fn lemma_after_insert_map<V>(s: Seq<(ValueId, V)>, capacity: nat, k: ValueId, v: V)
    requires
        keys_unique(s),
        s.len() <= size_bound(capacity),
    ensures
        entries_map(after_insert(s, capacity, k, v)).contains_key(k),
        entries_map(after_insert(s, capacity, k, v))[k] == v,
        forall|x: ValueId|
            x != k && #[trigger] entries_map(after_insert(s, capacity, k, v)).contains_key(x) ==> entries_map(
                s,
            ).contains_key(x) && entries_map(after_insert(s, capacity, k, v))[x] == entries_map(s)[x],
{
    lemma_after_insert(s, capacity, k, v);
    lemma_index_of(s, k);
    let t = after_insert(s, capacity, k, v);
    lemma_entries_map(s);
    lemma_entries_map(t);
    assert(t[t.len() - 1] == (k, v));
    assert(entries_map(t).contains_key(t[t.len() - 1].0));
    assert forall|x: ValueId|
        x != k && #[trigger] entries_map(t).contains_key(x) implies entries_map(s).contains_key(x)
            && entries_map(t)[x] == entries_map(s)[x] by {
        let m = choose|m: int| 0 <= m < t.len() && t[m].0 == x;
        assert(m < t.len() - 1);
        let sm = match index_of(s, k) {
            Some(i) => if m < i { m } else { m + 1 },
            None => if s.len() >= capacity && s.len() > 0 { m + 1 } else { m },
        };
        match index_of(s, k) {
            Some(i) => {
                assert(t[m] == s.remove(i)[m]);
            },
            None => {
                if s.len() >= capacity && s.len() > 0 {
                    assert(t[m] == s.drop_first()[m]);
                }
            },
        }
        assert(t[m] == s[sm]);
        assert(entries_map(s).contains_key(s[sm].0));
        assert(entries_map(t).contains_key(t[m].0));
    }
}

/// A lookup keeps keys unique and the number of entries.
pub proof fn lemma_after_use<V>(s: Seq<(ValueId, V)>, k: ValueId)
    requires
        keys_unique(s),
    ensures
        keys_unique(after_use(s, k)),
        after_use(s, k).len() == s.len(),
        entries_map(after_use(s, k)) == entries_map(s),
{
    lemma_index_of(s, k);
    match index_of(s, k) {
        Some(i) => {
            let t = after_use(s, k);
            let u = s.remove(i);
            let n = u.len() as int;
            // t[a] is s[from(a)]
            assert forall|a: int| 0 <= a < t.len() implies #[trigger] t[a] == s[if a == n { i } else if a < i { a } else { a + 1 }] by {
                if a < n {
                    assert(t[a] == u[a]);
                }
            }
            assert forall|a: int, b: int| 0 <= a < t.len() && 0 <= b < t.len() && a != b implies t[a].0 != t[b].0 by {
                let sa = if a == n { i } else if a < i { a } else { a + 1 };
                let sb = if b == n { i } else if b < i { b } else { b + 1 };
                assert(t[a] == s[sa] && t[b] == s[sb]);
            }
            lemma_entries_map(s);
            lemma_entries_map(t);
            assert forall|x: ValueId| entries_map(t).contains_key(x) implies entries_map(s).contains_key(x)
                && entries_map(t)[x] == entries_map(s)[x] by {
                let m = choose|m: int| 0 <= m < t.len() && t[m].0 == x;
                let sm = if m == n { i } else if m < i { m } else { m + 1 };
                assert(t[m] == s[sm]);
                assert(entries_map(s).contains_key(s[sm].0));
                assert(entries_map(t)[t[m].0] == t[m].1);
                assert(entries_map(s)[s[sm].0] == s[sm].1);
            }
            assert forall|x: ValueId| entries_map(s).contains_key(x) implies entries_map(t).contains_key(x) by {
                let m = choose|m: int| 0 <= m < s.len() && s[m].0 == x;
                let tm = if m == i { n } else if m < i { m } else { m - 1 };
                assert(t[tm] == s[m]);
                assert(entries_map(t).contains_key(t[tm].0));
            }
            assert(entries_map(t) =~= entries_map(s));
        },
        None => {},
    }
}

/// A bounded cache that drops its least recently used entry when full.
pub struct LRUCache<V> {
    entries: Vec<(ValueId, V)>,
    capacity: usize,
}

impl<V> LRUCache<V> {
    pub closed spec fn wf(&self) -> bool {
        &&& keys_unique(self.entries@)
        &&& self.entries@.len() <= size_bound(self.capacity as nat)
    }

    /// The entries, least recently used first.
    pub closed spec fn entries(&self) -> Seq<(ValueId, V)> {
        self.entries@
    }

    /// The stored values by key.
    pub open spec fn contents(&self) -> Map<ValueId, V> {
        entries_map(self.entries())
    }

    pub closed spec fn capacity(&self) -> nat {
        self.capacity as nat
    }

    /// A well-formed cache holds no key twice and no more entries than its
    /// capacity allows.
    pub proof fn lemma_wf(&self)
        requires
            self.wf(),
        ensures
            keys_unique(self.entries()),
            self.entries().len() <= size_bound(self.capacity()),
    {
    }

    pub fn new(capacity: usize) -> (r: Self)
        ensures
            r.wf(),
            r.entries() == Seq::<(ValueId, V)>::empty(),
            r.capacity() == capacity,
    {
        Self { entries: Vec::new(), capacity }
    }

    fn find(&self, key: &ValueId) -> (r: Option<usize>)
        ensures
            match r {
                Some(i) => index_of(self.entries(), *key) == Some(i as int) && i < self.entries().len(),
                None => index_of(self.entries(), *key) is None,
            },
    {
        proof {
            lemma_index_of(self.entries@, *key);
        }
        let mut i: usize = 0;
        while i < self.entries.len()
            invariant
                i <= self.entries.len(),
                index_of(self.entries@, *key) == index_from(self.entries@, *key, i as int),
            decreases self.entries.len() - i,
        {
            if self.entries[i].0 == *key {
                return Some(i);
            }
            i = i + 1;
        }
        None
    }

    /// Stores `value` under `key` as the most recently used entry; a full
    /// cache first drops its least recently used entry. Gives the value that
    /// was stored under `key`, if any.
    pub fn insert(&mut self, key: ValueId, value: V) -> (r: Option<V>)
        requires
            old(self).wf(),
        ensures
            final(self).wf(),
            final(self).capacity() == old(self).capacity(),
            final(self).entries() == after_insert(old(self).entries(), old(self).capacity(), key, value),
            r == lookup(old(self).entries(), key),
    {
        proof {
            lemma_after_insert(self.entries@, self.capacity as nat, key, value);
            lemma_index_of(self.entries@, key);
        }
        match self.find(&key) {
            Some(i) => {
                let (_, prev) = self.entries.remove(i);
                self.entries.push((key, value));
                Some(prev)
            },
            None => {
                if self.entries.len() >= self.capacity && self.entries.len() > 0 {
                    self.entries.remove(0);
                    proof {
                        assert(self.entries@ =~= old(self).entries@.drop_first());
                    }
                }
                self.entries.push((key, value));
                None
            },
        }
    }

    /// The value stored under `key`, which becomes the most recently used entry.
    pub fn get(&mut self, key: &ValueId) -> (r: Option<&V>)
        requires
            old(self).wf(),
        ensures
            final(self).wf(),
            final(self).capacity() == old(self).capacity(),
            final(self).entries() == after_use(old(self).entries(), *key),
            match r {
                Some(v) => lookup(old(self).entries(), *key) == Some(*v),
                None => lookup(old(self).entries(), *key) is None,
            },
    {
        proof {
            lemma_after_use(self.entries@, *key);
            lemma_index_of(self.entries@, *key);
        }
        match self.find(key) {
            Some(i) => {
                let e = self.entries.remove(i);
                self.entries.push(e);
                let n = self.entries.len();
                Some(&self.entries[n - 1].1)
            },
            None => None,
        }
    }

    /// The value stored under `key`, leaving the order of use as it is.
    pub fn peek(&self, key: &ValueId) -> (r: Option<&V>)
        requires
            self.wf(),
        ensures
            match r {
                Some(v) => lookup(self.entries(), *key) == Some(*v),
                None => lookup(self.entries(), *key) is None,
            },
    {
        match self.find(key) {
            Some(i) => Some(&self.entries[i].1),
            None => None,
        }
    }
}

/// The value cache, keyed by (table, row, column) handle.
pub struct SingleCache {
    cache: LRUCache<SingleValue>,
}

impl SingleCache {
    pub closed spec fn wf(&self) -> bool {
        self.cache.wf()
    }

    /// The entries, least recently used first.
    pub closed spec fn entries(&self) -> Seq<(ValueId, SingleValue)> {
        self.cache.entries()
    }

    /// The stored values by handle.
    pub open spec fn contents(&self) -> Map<ValueId, SingleValue> {
        entries_map(self.entries())
    }

    pub closed spec fn capacity(&self) -> nat {
        self.cache.capacity()
    }

    pub proof fn lemma_wf(&self)
        requires
            self.wf(),
        ensures
            keys_unique(self.entries()),
            self.entries().len() <= size_bound(self.capacity()),
    {
        self.cache.lemma_wf();
    }

    pub fn new(capacity: usize) -> (r: Self)
        ensures
            r.wf(),
            r.entries() == Seq::<(ValueId, SingleValue)>::empty(),
            r.capacity() == capacity,
    {
        Self { cache: LRUCache::new(capacity) }
    }

    /// Stores `value` under `handle` as the most recently used entry; a full
    /// cache first drops its least recently used entry. Gives the value that
    /// was stored under `handle`, if any.
    pub fn insert(&mut self, handle: ValueId, value: SingleValue) -> (r: Option<SingleValue>)
        requires
            old(self).wf(),
        ensures
            final(self).wf(),
            final(self).capacity() == old(self).capacity(),
            final(self).entries() == after_insert(old(self).entries(), old(self).capacity(), handle, value),
            r == lookup(old(self).entries(), handle),
    {
        self.cache.insert(handle, value)
    }

    /// The value stored under `handle`, which becomes the most recently used.
    pub fn get(&mut self, handle: &ValueId) -> (r: Option<&SingleValue>)
        requires
            old(self).wf(),
        ensures
            final(self).wf(),
            final(self).capacity() == old(self).capacity(),
            final(self).entries() == after_use(old(self).entries(), *handle),
            match r {
                Some(v) => lookup(old(self).entries(), *handle) == Some(*v),
                None => lookup(old(self).entries(), *handle) is None,
            },
    {
        self.cache.get(handle)
    }

    /// The value stored under `handle`, leaving the order of use as it is.
    pub fn peek(&self, handle: &ValueId) -> (r: Option<&SingleValue>)
        requires
            self.wf(),
        ensures
            match r {
                Some(v) => lookup(self.entries(), *handle) == Some(*v),
                None => lookup(self.entries(), *handle) is None,
            },
    {
        self.cache.peek(handle)
    }
}

/// The caches of the engine.
pub struct CacheManager {
    row_cache: SingleCache,
}

impl CacheManager {
    pub closed spec fn wf(&self) -> bool {
        self.row_cache.wf()
    }

    /// The cached values, least recently used first.
    pub closed spec fn entries(&self) -> Seq<(ValueId, SingleValue)> {
        self.row_cache.entries()
    }

    /// The cached values by handle.
    pub open spec fn rows(&self) -> Map<ValueId, SingleValue> {
        entries_map(self.entries())
    }

    /// How many values the value cache holds.
    pub closed spec fn row_capacity(&self) -> nat {
        self.row_cache.capacity()
    }

    pub proof fn lemma_wf(&self)
        requires
            self.wf(),
        ensures
            keys_unique(self.entries()),
            self.entries().len() <= size_bound(self.row_capacity()),
    {
        self.row_cache.lemma_wf();
    }

    /// An empty cache manager whose value cache holds up to `capacity` values.
    pub fn with_capacity(capacity: usize) -> (r: Self)
        ensures
            r.wf(),
            r.entries() == Seq::<(ValueId, SingleValue)>::empty(),
            r.row_capacity() == capacity,
    {
        Self { row_cache: SingleCache::new(capacity) }
    }

    /// Whether the value under `handle` is cached.
    pub fn has_row(&self, handle: &ValueId) -> (b: bool)
        requires
            self.wf(),
        ensures
            b == self.rows().contains_key(*handle),
    {
        self.row_cache.peek(handle).is_some()
    }

    /// The cached value under `handle`, leaving the order of use as it is.
    pub fn peek_row(&self, handle: &ValueId) -> (r: Option<&SingleValue>)
        requires
            self.wf(),
        ensures
            match r {
                Some(v) => self.rows().contains_key(*handle) && *v == self.rows()[*handle],
                None => !self.rows().contains_key(*handle),
            },
    {
        self.row_cache.peek(handle)
    }

    /// The value under `handle`. A cached value is given (and becomes the most
    /// recently used); otherwise `stored`, the value the caller read from the
    /// column file, is kept in the cache and given. `None` where the value is
    /// neither cached nor stored.
    pub fn get_row(&mut self, handle: &ValueId, stored: Option<SingleValue>) -> (r: Option<SingleValue>)
        requires
            old(self).wf(),
        ensures
            final(self).wf(),
            final(self).row_capacity() == old(self).row_capacity(),
            match lookup(old(self).entries(), *handle) {
                Some(c) => r matches Some(v) && v@ == c@ && final(self).entries() == after_use(
                    old(self).entries(),
                    *handle,
                ),
                None => match stored {
                    Some(s) => r matches Some(v) && v@ == s@ && final(self).entries() == after_insert(
                        old(self).entries(),
                        old(self).row_capacity(),
                        *handle,
                        s,
                    ),
                    None => r is None && final(self).entries() == old(self).entries(),
                },
            },
    {
        match self.row_cache.get(handle) {
            Some(v) => Some(v.duplicate()),
            None => match stored {
                Some(s) => {
                    let out = s.duplicate();
                    self.row_cache.insert(*handle, s);
                    Some(out)
                },
                None => None,
            },
        }
    }
}

impl Default for CacheManager {
    /// An empty cache manager whose value cache holds up to a thousand values.
    fn default() -> (r: Self)
        ensures
            r.wf(),
            r.entries() == Seq::<(ValueId, SingleValue)>::empty(),
            r.row_capacity() == 1000,
    {
        Self::with_capacity(1000)
    }
}

/// After a value is stored under a key, a lookup of that key gives it, and
/// it is the most recently used entry.
pub proof fn law_get_after_insert<V>(s: Seq<(ValueId, V)>, capacity: nat, k: ValueId, v: V)
    requires
        keys_unique(s),
        s.len() <= size_bound(capacity),
    ensures
        lookup(after_insert(s, capacity, k, v), k) == Some(v),
        after_insert(s, capacity, k, v).last() == (k, v),
{
    lemma_after_insert(s, capacity, k, v);
    let t = after_insert(s, capacity, k, v);
    lemma_index_at(t, t.len() - 1);
}

/// Storing a new key in a full cache drops exactly its least recently used
/// entry: the cache stays at its capacity, and every other key keeps its value.
pub proof fn law_full_insert_evicts_least_recent<V>(s: Seq<(ValueId, V)>, capacity: nat, k: ValueId, v: V)
    requires
        keys_unique(s),
        capacity >= 1,
        s.len() == capacity,
        lookup(s, k) is None,
    ensures
        after_insert(s, capacity, k, v).len() == capacity,
        lookup(after_insert(s, capacity, k, v), s[0].0) is None,
        forall|m: int| 1 <= m < s.len() ==> lookup(after_insert(s, capacity, k, v), #[trigger] s[m].0) == Some(s[m].1),
        lookup(after_insert(s, capacity, k, v), k) == Some(v),
{
    lemma_index_of(s, k);
    lemma_after_insert(s, capacity, k, v);
    let t = after_insert(s, capacity, k, v);
    assert(t == s.drop_first().push((k, v)));
    assert forall|m: int| 1 <= m < s.len() implies lookup(t, #[trigger] s[m].0) == Some(s[m].1) by {
        assert(t[m - 1] == s[m]);
        lemma_index_at(t, m - 1);
    }
    lemma_index_of(t, s[0].0);
    if index_of(t, s[0].0) is Some {
        let m = index_of(t, s[0].0)->0;
        if m < t.len() - 1 {
            assert(t[m] == s[m + 1]);
        }
    }
    lemma_index_at(t, t.len() - 1);
}

/// Storing a value under a key the cache already holds replaces that value
/// and drops nothing.
pub proof fn law_insert_present_keeps_others<V>(s: Seq<(ValueId, V)>, capacity: nat, k: ValueId, v: V, other: ValueId)
    requires
        keys_unique(s),
        s.len() <= size_bound(capacity),
        lookup(s, k) is Some,
        other != k,
    ensures
        after_insert(s, capacity, k, v).len() == s.len(),
        lookup(after_insert(s, capacity, k, v), other) == lookup(s, other),
{
    lemma_index_of(s, k);
    lemma_index_of(s, other);
    let i = index_of(s, k)->0;
    let t = after_insert(s, capacity, k, v);
    let n = s.len() - 1;
    lemma_after_insert(s, capacity, k, v);
    assert(t == s.remove(i).push((k, v)));
    assert forall|a: int| 0 <= a < t.len() implies #[trigger] t[a] == (if a == n { (k, v) } else { s[if a < i { a } else { a + 1 }] }) by {
        if a < n {
            assert(t[a] == s.remove(i)[a]);
        }
    }
    lemma_index_of(t, other);
    if lookup(s, other) is Some {
        let m = index_of(s, other)->0;
        let tm = if m < i { m } else { m - 1 };
        assert(t[tm] == s[m]);
        lemma_index_at(t, tm);
    }
    if lookup(t, other) is Some {
        let m = index_of(t, other)->0;
        let sm = if m < i { m } else { m + 1 };
        assert(t[m] == s[sm]);
        lemma_index_at(s, sm);
    }
}

} // verus!
