//! Indexes: for each value of a column, the rows that hold it.

use vstd::prelude::*;
use vstd::string::StringExecFns;
use crate::error::{Error, IndexError};
use crate::text::{text_lt, text_le, text_less, chars_of, lemma_text_lt_irreflexive, lemma_text_lt_transitive, lemma_text_lt_total};

verus! {

broadcast use vstd::string::group_string_axioms;

/// The kind of an index.
#[derive(Debug, Clone, Copy, PartialEq, Eq, Structural)]
pub enum IndexType {
    BTree,
    Hash,
}

/// The definition of an index.
#[derive(Debug)]
pub struct IndexDef {
    pub name: String,
    pub table_name: String,
    pub column_name: String,
    pub index_type: IndexType,
    pub unique: bool,
}

/// What an index offers.
pub trait Index {
    fn name(&self) -> &str;

    fn table_name(&self) -> &str;

    fn column_name(&self) -> &str;

    fn index_type(&self) -> IndexType;

    /// Adds the row `row_id` under `key`.
    fn insert(&mut self, key: &str, row_id: u64) -> Result<(), Error>;

    /// Removes the row `row_id` from under `key`.
    fn delete(&mut self, key: &str, row_id: u64) -> Result<(), Error>;

    /// The rows under `key`.
    fn lookup(&self, key: &str) -> Result<Vec<u64>, Error>;

    /// The (key, row) pairs whose key lies between the bounds given.
    fn range_scan(&self, lower: Option<&str>, upper: Option<&str>) -> Result<Vec<(String, u64)>, Error>;
}

// ----- entries -----

pub open spec fn entries_view(v: Seq<(String, Vec<u64>)>) -> Seq<(Seq<char>, Seq<u64>)> {
    v.map_values(|e: (String, Vec<u64>)| (e.0@, e.1@))
}

/// The rows of the first entry for `k`, searching from `i`.
pub open spec fn rows_from(s: Seq<(Seq<char>, Seq<u64>)>, k: Seq<char>, i: int) -> Option<Seq<u64>>
    decreases s.len() - i,
{
    if i < 0 || i >= s.len() {
        None
    } else if s[i].0 == k {
        Some(s[i].1)
    } else {
        rows_from(s, k, i + 1)
    }
}

/// The map the entries stand for.
pub open spec fn entries_map(s: Seq<(Seq<char>, Seq<u64>)>) -> Map<Seq<char>, Seq<u64>> {
    Map::new(|k: Seq<char>| rows_from(s, k, 0) is Some, |k: Seq<char>| rows_from(s, k, 0)->0)
}

/// No key occurs twice and no key is left without rows.
pub open spec fn entries_ok(s: Seq<(Seq<char>, Seq<u64>)>) -> bool {
    &&& forall|i: int, j: int| 0 <= i < s.len() && 0 <= j < s.len() && i != j ==> s[i].0 != s[j].0
    &&& forall|i: int| 0 <= i < s.len() ==> (#[trigger] s[i]).1.len() > 0
}

proof fn lemma_rows_from(s: Seq<(Seq<char>, Seq<u64>)>, k: Seq<char>, i: int)
    requires
        0 <= i,
    ensures
        match rows_from(s, k, i) {
            Some(v) => exists|m: int| i <= m < s.len() && s[m].0 == k && s[m].1 == v,
            None => forall|j: int| i <= j < s.len() ==> s[j].0 != k,
        },
    decreases s.len() - i,
{
    if i < s.len() && s[i].0 != k {
        lemma_rows_from(s, k, i + 1);
    }
}

/// With unique keys, the entry at `m` is what its key looks up.
proof fn lemma_rows_at(s: Seq<(Seq<char>, Seq<u64>)>, m: int)
    requires
        entries_ok(s),
        0 <= m < s.len(),
    ensures
        rows_from(s, s[m].0, 0) == Some(s[m].1),
{
    lemma_rows_from_at(s, m, 0);
}

proof fn lemma_rows_from_at(s: Seq<(Seq<char>, Seq<u64>)>, m: int, i: int)
    requires
        entries_ok(s),
        0 <= i <= m < s.len(),
    ensures
        rows_from(s, s[m].0, i) == Some(s[m].1),
    decreases m - i,
{
    if i < m {
        assert(s[i].0 != s[m].0);
        lemma_rows_from_at(s, m, i + 1);
    }
}

/// The map after changing the entry at `m` (keeping its key) is the old map
/// with that key's rows replaced.
proof fn lemma_entries_update(s: Seq<(Seq<char>, Seq<u64>)>, m: int, rows: Seq<u64>)
    requires
        entries_ok(s),
        0 <= m < s.len(),
        rows.len() > 0,
    ensures
        entries_ok(s.update(m, (s[m].0, rows))),
        entries_map(s.update(m, (s[m].0, rows))) == entries_map(s).insert(s[m].0, rows),
{
    let t = s.update(m, (s[m].0, rows));
    let k = s[m].0;
    assert(entries_ok(t)) by {
        assert forall|i: int, j: int| 0 <= i < t.len() && 0 <= j < t.len() && i != j implies t[i].0 != t[j].0 by {
            assert(t[i].0 == s[i].0 && t[j].0 == s[j].0);
        }
    }
    assert forall|x: Seq<char>| #[trigger] rows_from(t, x, 0) == (if x == k { Some(rows) } else { rows_from(s, x, 0) }) by {
        if x == k {
            lemma_rows_at(t, m);
        } else {
            lemma_rows_from(s, x, 0);
            lemma_rows_from(t, x, 0);
            if rows_from(s, x, 0) is Some {
                let w = choose|w: int| 0 <= w < s.len() && s[w].0 == x && s[w].1 == rows_from(s, x, 0)->0;
                assert(t[w] == s[w]);
                lemma_rows_at(t, w);
                lemma_rows_at(s, w);
            }
            if rows_from(t, x, 0) is Some {
                let w = choose|w: int| 0 <= w < t.len() && t[w].0 == x && t[w].1 == rows_from(t, x, 0)->0;
                assert(t[w] == s[w]);
                lemma_rows_at(s, w);
            }
        }
    }
    assert(entries_map(t) =~= entries_map(s).insert(k, rows));
}

/// Adding an entry for a new key adds it to the map.
proof fn lemma_entries_push(s: Seq<(Seq<char>, Seq<u64>)>, k: Seq<char>, rows: Seq<u64>)
    requires
        entries_ok(s),
        rows_from(s, k, 0) is None,
        rows.len() > 0,
    ensures
        entries_ok(s.push((k, rows))),
        entries_map(s.push((k, rows))) == entries_map(s).insert(k, rows),
{
    let t = s.push((k, rows));
    lemma_rows_from(s, k, 0);
    assert(entries_ok(t)) by {
        assert forall|i: int, j: int| 0 <= i < t.len() && 0 <= j < t.len() && i != j implies t[i].0 != t[j].0 by {
            if i < s.len() && j < s.len() {
                assert(t[i] == s[i] && t[j] == s[j]);
            } else if i < s.len() {
                assert(t[i] == s[i]);
            } else {
                assert(t[j] == s[j]);
            }
        }
        assert forall|i: int| 0 <= i < t.len() implies (#[trigger] t[i]).1.len() > 0 by {
            if i < s.len() {
                assert(t[i] == s[i]);
            }
        }
    }
    assert forall|x: Seq<char>| #[trigger] rows_from(t, x, 0) == (if x == k { Some(rows) } else { rows_from(s, x, 0) }) by {
        if x == k {
            lemma_rows_at(t, s.len() as int);
        } else {
            lemma_rows_from(s, x, 0);
            lemma_rows_from(t, x, 0);
            if rows_from(s, x, 0) is Some {
                let w = choose|w: int| 0 <= w < s.len() && s[w].0 == x && s[w].1 == rows_from(s, x, 0)->0;
                assert(t[w] == s[w]);
                lemma_rows_at(t, w);
                lemma_rows_at(s, w);
            }
            if rows_from(t, x, 0) is Some {
                let w = choose|w: int| 0 <= w < t.len() && t[w].0 == x && t[w].1 == rows_from(t, x, 0)->0;
                assert(t[w] == s[w]);
                lemma_rows_at(s, w);
            }
        }
    }
    assert(entries_map(t) =~= entries_map(s).insert(k, rows));
}

/// Removing the entry at `m` removes its key from the map.
proof fn lemma_entries_remove(s: Seq<(Seq<char>, Seq<u64>)>, m: int)
    requires
        entries_ok(s),
        0 <= m < s.len(),
    ensures
        entries_ok(s.remove(m)),
        entries_map(s.remove(m)) == entries_map(s).remove(s[m].0),
{
    let t = s.remove(m);
    let k = s[m].0;
    assert(entries_ok(t)) by {
        assert forall|i: int, j: int| 0 <= i < t.len() && 0 <= j < t.len() && i != j implies t[i].0 != t[j].0 by {
            let si = if i < m { i } else { i + 1 };
            let sj = if j < m { j } else { j + 1 };
            assert(t[i] == s[si] && t[j] == s[sj]);
        }
        assert forall|i: int| 0 <= i < t.len() implies (#[trigger] t[i]).1.len() > 0 by {
            let si = if i < m { i } else { i + 1 };
            assert(t[i] == s[si]);
        }
    }
    assert forall|x: Seq<char>| #[trigger] rows_from(t, x, 0) == (if x == k { None } else { rows_from(s, x, 0) }) by {
        lemma_rows_from(s, x, 0);
        lemma_rows_from(t, x, 0);
        if x == k {
            if rows_from(t, x, 0) is Some {
                let w = choose|w: int| 0 <= w < t.len() && t[w].0 == x && t[w].1 == rows_from(t, x, 0)->0;
                let sw = if w < m { w } else { w + 1 };
                assert(t[w] == s[sw]);
            }
        } else {
            if rows_from(s, x, 0) is Some {
                let w = choose|w: int| 0 <= w < s.len() && s[w].0 == x && s[w].1 == rows_from(s, x, 0)->0;
                let tw = if w < m { w } else { w - 1 };
                assert(t[tw] == s[w]);
                lemma_rows_at(t, tw);
                lemma_rows_at(s, w);
            }
            if rows_from(t, x, 0) is Some {
                let w = choose|w: int| 0 <= w < t.len() && t[w].0 == x && t[w].1 == rows_from(t, x, 0)->0;
                let sw = if w < m { w } else { w + 1 };
                assert(t[w] == s[sw]);
                lemma_rows_at(s, sw);
            }
        }
    }
    assert(entries_map(t) =~= entries_map(s).remove(k));
}

// ----- row lists -----

/// Index of the first `x` in `ids`.
pub open spec fn first_index_from(ids: Seq<u64>, x: u64, i: int) -> Option<int>
    decreases ids.len() - i,
{
    if i < 0 || i >= ids.len() {
        None
    } else if ids[i] == x {
        Some(i)
    } else {
        first_index_from(ids, x, i + 1)
    }
}

/// The map after removing the row `x` from under `k`: its first occurrence
/// goes; a key left without rows goes too.
pub open spec fn map_after_delete(m: Map<Seq<char>, Seq<u64>>, k: Seq<char>, x: u64) -> Map<Seq<char>, Seq<u64>> {
    if m.contains_key(k) {
        match first_index_from(m[k], x, 0) {
            Some(p) => if m[k].len() == 1 {
                m.remove(k)
            } else {
                m.insert(k, m[k].remove(p))
            },
            None => m,
        }
    } else {
        m
    }
}

/// The rows under `k`, none where it is absent.
pub open spec fn rows_under(m: Map<Seq<char>, Seq<u64>>, k: Seq<char>) -> Seq<u64> {
    if m.contains_key(k) {
        m[k]
    } else {
        Seq::empty()
    }
}

// ----- range scans -----

/// `k` lies within the bounds (each inclusive, each optional).
pub open spec fn in_bounds(k: Seq<char>, lower: Option<Seq<char>>, upper: Option<Seq<char>>) -> bool {
    &&& match lower {
        Some(l) => text_le(l, k),
        None => true,
    }
    &&& match upper {
        Some(u) => text_le(k, u),
        None => true,
    }
}

/// Each key comes strictly before the next.
pub open spec fn strictly_sorted(keys: Seq<Seq<char>>) -> bool {
    forall|i: int, j: int| 0 <= i < j < keys.len() ==> text_lt(#[trigger] keys[i], #[trigger] keys[j])
}

/// The (key, row) pairs of the keys in order, each key's rows in order.
pub open spec fn pairs_of(keys: Seq<Seq<char>>, m: Map<Seq<char>, Seq<u64>>) -> Seq<(Seq<char>, u64)>
    decreases keys.len(),
{
    if keys.len() == 0 {
        Seq::empty()
    } else {
        pairs_of(keys.drop_last(), m) + m[keys.last()].map_values(|x: u64| (keys.last(), x))
    }
}

/// `v` is the range scan of `m`: the pairs of the keys within the bounds,
/// keys in order, each key's rows in the order they were added.
pub open spec fn is_range_scan(
    v: Seq<(Seq<char>, u64)>,
    m: Map<Seq<char>, Seq<u64>>,
    lower: Option<Seq<char>>,
    upper: Option<Seq<char>>,
) -> bool {
    exists|keys: Seq<Seq<char>>|
        #![trigger pairs_of(keys, m)]
        strictly_sorted(keys) && (forall|k: Seq<char>| keys.contains(k) <==> (m.contains_key(k) && in_bounds(k, lower, upper)))
            && v == pairs_of(keys, m)
}

pub open spec fn opt_text(o: Option<&str>) -> Option<Seq<char>> {
    match o {
        Some(s) => Some(s@),
        None => None,
    }
}

pub open spec fn scan_view(v: Seq<(String, u64)>) -> Seq<(Seq<char>, u64)> {
    v.map_values(|e: (String, u64)| (e.0@, e.1))
}

/// An index kept in memory.
#[derive(Debug)]
pub struct MemoryIndex {
    def: IndexDef,
    data: Vec<(String, Vec<u64>)>,
}

impl MemoryIndex {
    #[verifier::type_invariant]
    spec fn inv(self) -> bool {
        entries_ok(entries_view(self.data@))
    }

    /// The rows under each key.
    pub closed spec fn contents(&self) -> Map<Seq<char>, Seq<u64>> {
        entries_map(entries_view(self.data@))
    }

    /// Whether a key holds one row at most.
    pub closed spec fn is_unique(&self) -> bool {
        self.def.unique
    }

    pub closed spec fn spec_name(&self) -> Seq<char> {
        self.def.name@
    }

    pub closed spec fn spec_table_name(&self) -> Seq<char> {
        self.def.table_name@
    }

    pub closed spec fn spec_column_name(&self) -> Seq<char> {
        self.def.column_name@
    }

    pub closed spec fn spec_index_type(&self) -> IndexType {
        self.def.index_type
    }

    /// An empty index with the given definition.
    pub fn new(def: IndexDef) -> (r: Self)
        ensures
            r.contents() == Map::<Seq<char>, Seq<u64>>::empty(),
            rows_nonempty(r.contents()),
            r.is_unique() == def.unique,
            r.spec_name() == def.name@,
            r.spec_table_name() == def.table_name@,
            r.spec_column_name() == def.column_name@,
            r.spec_index_type() == def.index_type,
    {
        let r = MemoryIndex { def, data: Vec::new() };
        proof {
            assert(r.contents() =~= Map::<Seq<char>, Seq<u64>>::empty());
        }
        r
    }

    /// Position of the entry for `key`.
    fn find(&self, key: &str) -> (r: Option<usize>)
        ensures
            match r {
                Some(p) => p < self.data@.len() && entries_view(self.data@)[p as int].0 == key@
                    && rows_from(entries_view(self.data@), key@, 0) == Some(entries_view(self.data@)[p as int].1),
                None => rows_from(entries_view(self.data@), key@, 0) is None,
            },
    {
        proof {
            use_type_invariant(self);
        }
        let ghost s = entries_view(self.data@);
        let target = String::from_str(key);
        let mut i: usize = 0;
        while i < self.data.len()
            invariant
                i <= self.data.len(),
                s == entries_view(self.data@),
                s.len() == self.data@.len(),
                target@ == key@,
                rows_from(s, key@, 0) == rows_from(s, key@, i as int),
            decreases self.data.len() - i,
        {
            proof {
                assert(s[i as int] == (self.data@[i as int].0@, self.data@[i as int].1@));
            }
            if self.data[i].0 == target {
                return Some(i);
            }
            i = i + 1;
        }
        None
    }
}

fn copy_ids(v: &Vec<u64>) -> (r: Vec<u64>)
    ensures
        r@ == v@,
{
    let mut r: Vec<u64> = Vec::new();
    let mut i: usize = 0;
    while i < v.len()
        invariant
            i <= v.len(),
            r@ == v@.take(i as int),
        decreases v.len() - i,
    {
        r.push(v[i]);
        proof {
            assert(r@ =~= v@.take(i + 1));
        }
        i = i + 1;
    }
    proof {
        assert(r@ =~= v@);
    }
    r
}

/// The message of a unique-index conflict on `key`.
pub open spec fn conflict_message(key: Seq<char>) -> Seq<char> {
    "唯一索引冲突: 键 '"@ + key + "' 已存在"@
}

impl Index for MemoryIndex {
    fn name(&self) -> (r: &str)
        ensures
            r@ == self.spec_name(),
    {
        self.def.name.as_str()
    }

    fn table_name(&self) -> (r: &str)
        ensures
            r@ == self.spec_table_name(),
    {
        self.def.table_name.as_str()
    }

    fn column_name(&self) -> (r: &str)
        ensures
            r@ == self.spec_column_name(),
    {
        self.def.column_name.as_str()
    }

    fn index_type(&self) -> (r: IndexType)
        ensures
            r == self.spec_index_type(),
    {
        self.def.index_type
    }

    /// Adds the row under `key`, after its other rows; refused for a unique
    /// index whose key already has a row.
    fn insert(&mut self, key: &str, row_id: u64) -> (r: Result<(), Error>)
        ensures
            final(self).is_unique() == old(self).is_unique(),
            rows_nonempty(final(self).contents()),
            if old(self).is_unique() && old(self).contents().contains_key(key@) {
                &&& r matches Err(Error::Index(IndexError::IndexUniqueViolation(m)))
                &&& m@ == conflict_message(key@)
                &&& final(self).contents() == old(self).contents()
            } else {
                &&& r is Ok
                &&& final(self).contents() == old(self).contents().insert(
                    key@,
                    rows_under(old(self).contents(), key@).push(row_id),
                )
            },
    {
        proof {
            use_type_invariant(&*self);
            lemma_entries_nonempty(entries_view(self.data@));
        }
        let ghost s = entries_view(self.data@);
        match self.find(key) {
            Some(p) => {
                if self.def.unique {
                    let mut m = String::from_str("唯一索引冲突: 键 '");
                    m.append(key);
                    m.append("' 已存在");
                    return Err(Error::Index(IndexError::IndexUniqueViolation(m)));
                }
                let mut data: Vec<(String, Vec<u64>)> = Vec::new();
                std::mem::swap(&mut data, &mut self.data);
                let ghost d0 = data@;
                let mut ids = copy_ids(&data[p].1);
                ids.push(row_id);
                let name = data[p].0.clone();
                let ghost entry = (name@, ids@);
                data.set(p, (name, ids));
                proof {
                    assert(entries_view(data@) =~= s.update(p as int, (s[p as int].0, s[p as int].1.push(row_id))));
                    lemma_entries_update(s, p as int, s[p as int].1.push(row_id));
                    lemma_entries_nonempty(entries_view(data@));
                }
                self.data = data;
                Ok(())
            },
            None => {
                let mut data: Vec<(String, Vec<u64>)> = Vec::new();
                std::mem::swap(&mut data, &mut self.data);
                let mut ids: Vec<u64> = Vec::new();
                ids.push(row_id);
                data.push((String::from_str(key), ids));
                proof {
                    assert(entries_view(data@) =~= s.push((key@, seq![row_id])));
                    lemma_entries_push(s, key@, seq![row_id]);
                    assert(Seq::<u64>::empty().push(row_id) =~= seq![row_id]);
                    lemma_entries_nonempty(entries_view(data@));
                }
                self.data = data;
                Ok(())
            },
        }
    }

    /// Removes the first occurrence of the row under `key`; a key left with no
    /// rows goes. Nothing to remove is no error.
    fn delete(&mut self, key: &str, row_id: u64) -> (r: Result<(), Error>)
        ensures
            r is Ok,
            final(self).is_unique() == old(self).is_unique(),
            rows_nonempty(final(self).contents()),
            final(self).contents() == map_after_delete(old(self).contents(), key@, row_id),
    {
        proof {
            use_type_invariant(&*self);
            lemma_entries_nonempty(entries_view(self.data@));
        }
        let ghost s = entries_view(self.data@);
        let p = match self.find(key) {
            Some(p) => p,
            None => {
                return Ok(());
            },
        };
        let ghost ids0 = s[p as int].1;
        let mut q: usize = 0;
        let mut found = false;
        let n = self.data[p].1.len();
        while q < n && !found
            invariant
                q <= n,
                n == ids0.len(),
                p < self.data@.len(),
                ids0 == self.data@[p as int].1@,
                !found ==> first_index_from(ids0, row_id, 0) == first_index_from(ids0, row_id, q as int),
                found ==> q < n && first_index_from(ids0, row_id, 0) == Some(q as int),
            decreases n - q + (if found { 0int } else { 1int }),
        {
            if self.data[p].1[q] == row_id {
                found = true;
            } else {
                q = q + 1;
            }
        }
        if !found {
            return Ok(());
        }
        let mut data: Vec<(String, Vec<u64>)> = Vec::new();
        std::mem::swap(&mut data, &mut self.data);
        if n == 1 {
            data.remove(p);
            proof {
                assert(entries_view(data@) =~= s.remove(p as int));
                lemma_entries_remove(s, p as int);
                lemma_entries_nonempty(entries_view(data@));
            }
        } else {
            let mut ids = copy_ids(&data[p].1);
            ids.remove(q);
            let name = data[p].0.clone();
            let ghost rest = ids@;
            data.set(p, (name, ids));
            proof {
                assert(entries_view(data@) =~= s.update(p as int, (s[p as int].0, rest)));
                lemma_entries_update(s, p as int, rest);
                lemma_entries_nonempty(entries_view(data@));
            }
        }
        self.data = data;
        Ok(())
    }

    /// The rows under `key`, in the order they were added; none where the key
    /// is absent.
    fn lookup(&self, key: &str) -> (r: Result<Vec<u64>, Error>)
        ensures
            r matches Ok(v) && v@ == rows_under(self.contents(), key@),
    {
        match self.find(key) {
            Some(p) => Ok(copy_ids(&self.data[p].1)),
            None => Ok(Vec::new()),
        }
    }

    /// The (key, row) pairs whose key lies within the bounds, keys in order,
    /// each key's rows in the order they were added.
    fn range_scan(&self, lower: Option<&str>, upper: Option<&str>) -> (r: Result<Vec<(String, u64)>, Error>)
        ensures
            r matches Ok(v) && is_range_scan(scan_view(v@), self.contents(), opt_text(lower), opt_text(upper)),
    {
        proof {
            use_type_invariant(self);
        }
        Ok(self.scan(lower, upper))
    }
}

impl MemoryIndex {
    fn scan(&self, lower: Option<&str>, upper: Option<&str>) -> (v: Vec<(String, u64)>)
        requires
            entries_ok(entries_view(self.data@)),
        ensures
            is_range_scan(scan_view(v@), self.contents(), opt_text(lower), opt_text(upper)),
    {
        let ghost s = entries_view(self.data@);
        let ghost m = self.contents();
        let ghost lo = opt_text(lower);
        let ghost hi = opt_text(upper);
        let lo_chars: Option<Vec<char>> = match lower {
            Some(l) => Some(chars_of(l)),
            None => None,
        };
        let hi_chars: Option<Vec<char>> = match upper {
            Some(u) => Some(chars_of(u)),
            None => None,
        };
        // the entries within the bounds, ordered by key
        let mut order: Vec<usize> = Vec::new();
        let mut keys: Vec<Vec<char>> = Vec::new();
        let mut i: usize = 0;
        while i < self.data.len()
            invariant
                i <= self.data.len(),
                s == entries_view(self.data@),
                s.len() == self.data@.len(),
                entries_ok(s),
                m == entries_map(s),
                lo == opt_text(lower),
                hi == opt_text(upper),
                match lo_chars { Some(c) => lo == Some(c@), None => lo is None },
                match hi_chars { Some(c) => hi == Some(c@), None => hi is None },
                order@.len() == keys@.len(),
                forall|a: int| 0 <= a < order@.len() ==> #[trigger] order@[a] < i,
                forall|a: int| 0 <= a < order@.len() ==> #[trigger] keys@[a]@ == s[order@[a] as int].0,
                strictly_sorted(keys@.map_values(|c: Vec<char>| c@)),
                forall|j: int|
                    0 <= j < i && in_bounds(s[j].0, lo, hi) ==> exists|a: int| 0 <= a < order@.len() && #[trigger] order@[a] == j,
                forall|a: int| 0 <= a < order@.len() ==> in_bounds(s[#[trigger] order@[a] as int].0, lo, hi),
            decreases self.data.len() - i,
        {
            let key = chars_of(self.data[i].0.as_str());
            proof {
                assert(s[i as int].0 == self.data@[i as int].0@);
            }
            let above = match &lo_chars {
                Some(l) => !text_less(&key, l),
                None => true,
            };
            let below = match &hi_chars {
                Some(u) => !text_less(u, &key),
                None => true,
            };
            proof {
                if let Some(l) = lo {
                    if l != key@ && !text_lt(key@, l) {
                        lemma_text_lt_total(l, key@);
                    }
                    if text_lt(key@, l) {
                        lemma_text_lt_irreflexive(l);
                    }
                }
                if let Some(u) = hi {
                    if u != key@ && !text_lt(u, key@) {
                        lemma_text_lt_total(u, key@);
                    }
                    if text_lt(u, key@) {
                        lemma_text_lt_irreflexive(u);
                    }
                }
                if let Some(l) = lo {
                    if text_lt(key@, l) && text_lt(l, key@) {
                        lemma_text_lt_transitive(l, key@, l);
                        lemma_text_lt_irreflexive(l);
                    }
                    if l == key@ {
                        lemma_text_lt_irreflexive(l);
                    }
                }
                if let Some(u) = hi {
                    if text_lt(u, key@) && text_lt(key@, u) {
                        lemma_text_lt_transitive(u, key@, u);
                        lemma_text_lt_irreflexive(u);
                    }
                    if u == key@ {
                        lemma_text_lt_irreflexive(u);
                    }
                }
                assert((above && below) == in_bounds(s[i as int].0, lo, hi));
            }
            if above && below {
                // insert before the first key that comes after this one
                let mut p: usize = 0;
                while p < keys.len() && !text_less(&key, &keys[p])
                    invariant
                        p <= keys@.len(),
                        forall|a: int| 0 <= a < p ==> !text_lt(key@, #[trigger] keys@[a]@),
                    decreases keys.len() - p,
                {
                    p = p + 1;
                }
                let ghost old_keys = keys@.map_values(|c: Vec<char>| c@);
                let ghost old_order = order@;
                let ghost kv = keys@;
                proof {
                    // every key before p comes before this one; every key from p on after it
                    assert forall|a: int| 0 <= a < p implies text_lt(#[trigger] old_keys[a], key@) by {
                        assert(old_keys[a] == keys@[a]@);
                        let oa = old_order[a] as int;
                        assert(old_keys[a] == s[oa].0);
                        assert(oa != i);
                        assert(s[oa].0 != s[i as int].0);
                        lemma_text_lt_total(old_keys[a], key@);
                    }
                    if p < keys@.len() {
                        assert forall|a: int| p <= a < old_keys.len() implies text_lt(key@, #[trigger] old_keys[a]) by {
                            assert(old_keys[p as int] == keys@[p as int]@);
                            if a > p {
                                lemma_text_lt_transitive(key@, old_keys[p as int], old_keys[a]);
                            }
                        }
                    }
                }
                keys.insert(p, key);
                order.insert(p, i);
                proof {
                    let nk = keys@.map_values(|c: Vec<char>| c@);
                    assert(nk =~= old_keys.insert(p as int, s[i as int].0));
                    assert forall|a: int, b: int| 0 <= a < b < nk.len() implies text_lt(#[trigger] nk[a], #[trigger] nk[b]) by {
                        if a < p && b < p {
                            assert(nk[a] == old_keys[a] && nk[b] == old_keys[b]);
                        } else if a < p && b == p {
                            assert(nk[a] == old_keys[a]);
                        } else if a < p {
                            assert(nk[a] == old_keys[a] && nk[b] == old_keys[b - 1]);
                            lemma_text_lt_transitive(old_keys[a], key@, old_keys[b - 1]);
                        } else if a == p {
                            assert(nk[b] == old_keys[b - 1]);
                        } else {
                            assert(nk[a] == old_keys[a - 1] && nk[b] == old_keys[b - 1]);
                        }
                    }
                    assert forall|j: int| 0 <= j < i + 1 && in_bounds(s[j].0, lo, hi) implies exists|a: int| 0 <= a < order@.len() && #[trigger] order@[a] == j by {
                        if j == i {
                            assert(order@[p as int] == j);
                        } else {
                            let a0 = choose|a: int| 0 <= a < old_order.len() && old_order[a] == j;
                            if a0 < p {
                                assert(order@[a0] == j);
                            } else {
                                assert(order@[a0 + 1] == j);
                            }
                        }
                    }
                    assert forall|a: int| 0 <= a < order@.len() implies #[trigger] keys@[a]@ == s[order@[a] as int].0 by {
                        if a < p {
                            assert(keys@[a] == kv[a] && order@[a] == old_order[a]);
                        } else if a > p {
                            assert(keys@[a] == kv[a - 1] && order@[a] == old_order[a - 1]);
                        }
                    }
                    assert forall|a: int| 0 <= a < order@.len() implies #[trigger] order@[a] < i + 1 by {
                        if a < p {
                            assert(order@[a] == old_order[a]);
                        } else if a > p {
                            assert(order@[a] == old_order[a - 1]);
                        }
                    }
                    assert forall|a: int| 0 <= a < order@.len() implies in_bounds(s[#[trigger] order@[a] as int].0, lo, hi) by {
                        if a < p {
                            assert(order@[a] == old_order[a]);
                        } else if a > p {
                            assert(order@[a] == old_order[a - 1]);
                        }
                    }
                }
            }
            i = i + 1;
        }
        let mut v: Vec<(String, u64)> = Vec::new();
        let ghost ks = keys@.map_values(|c: Vec<char>| c@);
        let mut a: usize = 0;
        while a < order.len()
            invariant
                a <= order@.len(),
                order@.len() == keys@.len(),
                s == entries_view(self.data@),
                s.len() == self.data@.len(),
                entries_ok(s),
                m == entries_map(s),
                ks == keys@.map_values(|c: Vec<char>| c@),
                forall|b: int| 0 <= b < order@.len() ==> #[trigger] order@[b] < s.len(),
                forall|b: int| 0 <= b < order@.len() ==> #[trigger] ks[b] == s[order@[b] as int].0,
                scan_view(v@) == pairs_of(ks.take(a as int), m),
            decreases order.len() - a,
        {
            let e = order[a];
            let name = &self.data[e].0;
            let ids = &self.data[e].1;
            let ghost before = v@;
            proof {
                lemma_rows_at(s, e as int);
                assert(s[e as int] == (name@, ids@));
                assert(ks.take(a + 1).drop_last() =~= ks.take(a as int));
                assert(ks.take(a + 1).last() == name@);
                assert(m[name@] == ids@);
            }
            let mut q: usize = 0;
            while q < ids.len()
                invariant
                    q <= ids@.len(),
                    scan_view(v@) == scan_view(before) + ids@.take(q as int).map_values(|x: u64| (name@, x)),
                decreases ids.len() - q,
            {
                let ghost pre = v@;
                let nm = name.clone();
                let x = ids[q];
                v.push((nm, x));
                proof {
                    assert(scan_view(v@) =~= scan_view(pre).push((name@, x)));
                    assert(ids@.take(q + 1) =~= ids@.take(q as int).push(x));
                    assert(ids@.take(q + 1).map_values(|y: u64| (name@, y)) =~= ids@.take(q as int).map_values(
                        |y: u64| (name@, y),
                    ).push((name@, x)));
                    assert(scan_view(v@) =~= scan_view(before) + ids@.take(q + 1).map_values(|x: u64| (name@, x)));
                }
                q = q + 1;
            }
            proof {
                assert(ids@.take(ids@.len() as int) =~= ids@);
            }
            a = a + 1;
        }
        proof {
            assert(ks.take(order@.len() as int) =~= ks);
            assert forall|k: Seq<char>| ks.contains(k) <==> (m.contains_key(k) && in_bounds(k, lo, hi)) by {
                if ks.contains(k) {
                    let b = choose|b: int| 0 <= b < ks.len() && ks[b] == k;
                    lemma_rows_at(s, order@[b] as int);
                }
                if m.contains_key(k) && in_bounds(k, lo, hi) {
                    lemma_rows_from(s, k, 0);
                    let w = choose|w: int| 0 <= w < s.len() && s[w].0 == k && s[w].1 == rows_from(s, k, 0)->0;
                    let b = choose|b: int| 0 <= b < order@.len() && order@[b] == w;
                    assert(ks[b] == k);
                }
            }
            assert(is_range_scan(scan_view(v@), m, lo, hi));
        }
        v
    }
}

/// No key of the map is left without rows.
pub open spec fn rows_nonempty(m: Map<Seq<char>, Seq<u64>>) -> bool {
    forall|k: Seq<char>| #[trigger] m.contains_key(k) ==> m[k].len() > 0
}

/// Entries in order stand for a map with no key left without rows.
proof fn lemma_entries_nonempty(s: Seq<(Seq<char>, Seq<u64>)>)
    requires
        entries_ok(s),
    ensures
        rows_nonempty(entries_map(s)),
{
    assert forall|k: Seq<char>| #[trigger] entries_map(s).contains_key(k) implies entries_map(s)[k].len() > 0 by {
        lemma_rows_from(s, k, 0);
    }
}

/// After a row is added under a key, a lookup of that key gives the rows it
/// had, then the new one.
pub proof fn law_lookup_after_insert(m: Map<Seq<char>, Seq<u64>>, k: Seq<char>, x: u64)
    ensures
        rows_under(m.insert(k, rows_under(m, k).push(x)), k) == rows_under(m, k).push(x),
{
}

/// Removing a row just added under a key, which the key did not hold
/// before, gives the index back as it was.
pub proof fn law_delete_undoes_insert(m: Map<Seq<char>, Seq<u64>>, k: Seq<char>, x: u64)
    requires
        rows_nonempty(m),
        !rows_under(m, k).contains(x),
    ensures
        map_after_delete(m.insert(k, rows_under(m, k).push(x)), k, x) == m,
{
    let rows = rows_under(m, k);
    let grown = rows.push(x);
    lemma_first_index_after(grown, x, 0, rows.len() as int);
    if m.contains_key(k) {
        assert(grown.remove(rows.len() as int) =~= rows);
        assert(m.insert(k, rows) =~= m);
    } else {
        assert(m.insert(k, grown).remove(k) =~= m);
    }
}

proof fn lemma_first_index_after(ids: Seq<u64>, x: u64, i: int, p: int)
    requires
        0 <= i <= p < ids.len(),
        ids[p] == x,
        forall|j: int| i <= j < p ==> ids[j] != x,
    ensures
        first_index_from(ids, x, i) == Some(p),
    decreases p - i,
{
    if i < p {
        lemma_first_index_after(ids, x, i + 1, p);
    }
}

/// Removing a row from under a key leaves every other key's rows alone.
pub proof fn law_delete_keeps_other_keys(m: Map<Seq<char>, Seq<u64>>, k: Seq<char>, x: u64, other: Seq<char>)
    requires
        other != k,
    ensures
        map_after_delete(m, k, x).contains_key(other) == m.contains_key(other),
        m.contains_key(other) ==> map_after_delete(m, k, x)[other] == m[other],
{
}

/// A pair is among the pairs of some keys exactly when its key is one of them
/// and its row is under that key.
proof fn lemma_pairs_of_contains(keys: Seq<Seq<char>>, m: Map<Seq<char>, Seq<u64>>, k: Seq<char>, x: u64)
    ensures
        pairs_of(keys, m).contains((k, x)) <==> (keys.contains(k) && m[k].contains(x)),
    decreases keys.len(),
{
    if keys.len() > 0 {
        let init = keys.drop_last();
        let last = keys.last();
        let tail = m[last].map_values(|y: u64| (last, y));
        lemma_pairs_of_contains(init, m, k, x);
        let p = pairs_of(keys, m);
        assert(p == pairs_of(init, m) + tail);
        if p.contains((k, x)) {
            let i = choose|i: int| 0 <= i < p.len() && p[i] == (k, x);
            if i < pairs_of(init, m).len() {
                assert(pairs_of(init, m)[i] == (k, x));
                let j = choose|j: int| 0 <= j < init.len() && init[j] == k;
                assert(keys[j] == k);
            } else {
                let t = i - pairs_of(init, m).len();
                assert(tail[t] == (k, x));
                assert(keys[keys.len() - 1] == k);
                assert(m[k][t] == x);
            }
        }
        if keys.contains(k) && m[k].contains(x) {
            let j = choose|j: int| 0 <= j < keys.len() && keys[j] == k;
            if j < keys.len() - 1 {
                assert(init[j] == k);
                let i = choose|i: int| 0 <= i < pairs_of(init, m).len() && pairs_of(init, m)[i] == (k, x);
                assert(p[i] == (k, x));
            } else {
                let t = choose|t: int| 0 <= t < m[k].len() && m[k][t] == x;
                assert(tail[t] == (k, x));
                assert(p[pairs_of(init, m).len() + t] == (k, x));
            }
        }
    }
}

/// A range scan holds a (key, row) pair exactly when the key lies within the
/// bounds and the row is under that key.
pub proof fn law_range_scan_members(
    v: Seq<(Seq<char>, u64)>,
    m: Map<Seq<char>, Seq<u64>>,
    lower: Option<Seq<char>>,
    upper: Option<Seq<char>>,
    k: Seq<char>,
    x: u64,
)
    requires
        is_range_scan(v, m, lower, upper),
    ensures
        v.contains((k, x)) <==> (m.contains_key(k) && in_bounds(k, lower, upper) && m[k].contains(x)),
{
    let keys = choose|keys: Seq<Seq<char>>|
        #![trigger pairs_of(keys, m)]
        strictly_sorted(keys) && (forall|q: Seq<char>| keys.contains(q) <==> (m.contains_key(q) && in_bounds(q, lower, upper)))
            && v == pairs_of(keys, m);
    lemma_pairs_of_contains(keys, m, k, x);
}

/// Strictly ordered key sequences with the same keys are the same sequence.
proof fn lemma_sorted_keys_unique(a: Seq<Seq<char>>, b: Seq<Seq<char>>)
    requires
        strictly_sorted(a),
        strictly_sorted(b),
        forall|q: Seq<char>| a.contains(q) <==> b.contains(q),
    ensures
        a == b,
    decreases a.len(),
{
    if a.len() == 0 {
        if b.len() > 0 {
            assert(b.contains(b[0]));
        }
        assert(a =~= b);
    } else {
        assert(a.contains(a[0]));
        assert(b.len() > 0);
        assert(b.contains(b[0]));
        if a[0] != b[0] {
            let j = choose|j: int| 0 <= j < b.len() && b[j] == a[0];
            let i = choose|i: int| 0 <= i < a.len() && a[i] == b[0];
            assert(j > 0 && i > 0);
            assert(text_lt(b[0], b[j]));
            assert(text_lt(a[0], a[i]));
            lemma_text_lt_transitive(a[0], b[0], a[0]);
            lemma_text_lt_irreflexive(a[0]);
        }
        let a1 = a.drop_first();
        let b1 = b.drop_first();
        assert forall|q: Seq<char>| a1.contains(q) <==> b1.contains(q) by {
            if a1.contains(q) {
                let i = choose|i: int| 0 <= i < a1.len() && a1[i] == q;
                assert(a[i + 1] == q);
                assert(text_lt(a[0], a[i + 1]));
                lemma_text_lt_irreflexive(q);
                assert(b.contains(q));
                let j = choose|j: int| 0 <= j < b.len() && b[j] == q;
                assert(j != 0);
                assert(b1[j - 1] == q);
            }
            if b1.contains(q) {
                let j = choose|j: int| 0 <= j < b1.len() && b1[j] == q;
                assert(b[j + 1] == q);
                assert(text_lt(b[0], b[j + 1]));
                lemma_text_lt_irreflexive(q);
                assert(a.contains(q));
                let i = choose|i: int| 0 <= i < a.len() && a[i] == q;
                assert(i != 0);
                assert(a1[i - 1] == q);
            }
        }
        assert forall|i: int, j: int| 0 <= i < j < a1.len() implies text_lt(#[trigger] a1[i], #[trigger] a1[j]) by {
            assert(a1[i] == a[i + 1] && a1[j] == a[j + 1]);
        }
        assert forall|i: int, j: int| 0 <= i < j < b1.len() implies text_lt(#[trigger] b1[i], #[trigger] b1[j]) by {
            assert(b1[i] == b[i + 1] && b1[j] == b[j + 1]);
        }
        lemma_sorted_keys_unique(a1, b1);
        assert(a =~= seq![a[0]] + a1);
        assert(b =~= seq![b[0]] + b1);
    }
}

/// A range scan is fixed by the index's contents and the bounds: whatever
/// order the index keeps its keys in, the scan comes out the same.
pub proof fn law_range_scan_determined(
    v: Seq<(Seq<char>, u64)>,
    w: Seq<(Seq<char>, u64)>,
    m: Map<Seq<char>, Seq<u64>>,
    lower: Option<Seq<char>>,
    upper: Option<Seq<char>>,
)
    requires
        is_range_scan(v, m, lower, upper),
        is_range_scan(w, m, lower, upper),
    ensures
        v == w,
{
    let kv = choose|keys: Seq<Seq<char>>|
        #![trigger pairs_of(keys, m)]
        strictly_sorted(keys) && (forall|q: Seq<char>| keys.contains(q) <==> (m.contains_key(q) && in_bounds(q, lower, upper)))
            && v == pairs_of(keys, m);
    let kw = choose|keys: Seq<Seq<char>>|
        #![trigger pairs_of(keys, m)]
        strictly_sorted(keys) && (forall|q: Seq<char>| keys.contains(q) <==> (m.contains_key(q) && in_bounds(q, lower, upper)))
            && w == pairs_of(keys, m);
    lemma_sorted_keys_unique(kv, kw);
}

} // verus!
