//! Tables as row handles (abstract tables), their set operators, and tables
//! of values read out of the cache (actual tables).

use vstd::prelude::*;
use crate::value::{DataType, SingleValue};
use crate::cache::CacheManager;
use crate::stmt::strings_view;
use std::sync::Arc;

pub use crate::value::{RowId, ColumnId, ValueId};

verus! {

/// A column of an abstract table.
#[derive(Debug)]
pub struct ColumnAbstract {
    pub id: u64,
    pub name: String,
    pub table_name: String,
    pub data_type: DataType,
}

pub struct SpecColumnAbstract {
    pub id: u64,
    pub name: Seq<char>,
    pub table_name: Seq<char>,
    pub data_type: DataType,
}

impl View for ColumnAbstract {
    type V = SpecColumnAbstract;

    open spec fn view(&self) -> SpecColumnAbstract {
        SpecColumnAbstract {
            id: self.id,
            name: self.name@,
            table_name: self.table_name@,
            data_type: self.data_type,
        }
    }
}

impl ColumnAbstract {
    /// A copy of this column.
    pub fn duplicate(&self) -> (r: Self)
        ensures
            r@ == self@,
    {
        ColumnAbstract {
            id: self.id,
            name: self.name.clone(),
            table_name: self.table_name.clone(),
            data_type: self.data_type,
        }
    }
}

pub open spec fn column_abstracts_view(v: Seq<ColumnAbstract>) -> Seq<SpecColumnAbstract> {
    v.map_values(|c: ColumnAbstract| c@)
}

/// A table as its columns and the handles of its rows.
#[derive(Debug)]
pub struct TableAbstract {
    pub columns: Vec<ColumnAbstract>,
    pub rows: Vec<RowId>,
}

pub struct SpecTableAbstract {
    pub columns: Seq<SpecColumnAbstract>,
    pub rows: Seq<RowId>,
}

impl View for TableAbstract {
    type V = SpecTableAbstract;

    open spec fn view(&self) -> SpecTableAbstract {
        SpecTableAbstract { columns: column_abstracts_view(self.columns@), rows: self.rows@ }
    }
}

/// A table of values: one row of values per row, one value per column.
#[derive(Debug)]
pub struct TableActual {
    pub columns: Vec<ColumnAbstract>,
    pub values: Vec<Vec<SingleValue>>,
}

/// The handle of the value of column `c` in row `r`.
pub open spec fn value_handle(r: RowId, c: SpecColumnAbstract) -> ValueId {
    ValueId { table_id: r.table_id, row_id: r.row_id, column_id: c.id }
}

/// The stored values handed in for a table: one per cell, and cells with the
/// same handle have the same value.
pub open spec fn readable(t: SpecTableAbstract, stored: Seq<Seq<Option<SingleValue>>>) -> bool {
    &&& stored.len() == t.rows.len()
    &&& forall|i: int| 0 <= i < t.rows.len() ==> #[trigger] stored[i].len() == t.columns.len()
    &&& forall|i: int, j: int| 0 <= i < t.rows.len() && 0 <= j < t.columns.len() ==> (#[trigger] stored[i][j]) is Some
    &&& forall|i: int, j: int, a: int, b: int|
        0 <= i < t.rows.len() && 0 <= j < t.columns.len() && 0 <= a < t.rows.len() && 0 <= b < t.columns.len()
            && #[trigger] value_handle(t.rows[i], t.columns[j]) == #[trigger] value_handle(t.rows[a], t.columns[b])
            ==> stored[i][j]->0@ == stored[a][b]->0@
}

/// What the cache holds of the table agrees with the stored values.
pub open spec fn agrees(
    t: SpecTableAbstract,
    stored: Seq<Seq<Option<SingleValue>>>,
    cached: Map<ValueId, SingleValue>,
) -> bool {
    forall|i: int, j: int|
        0 <= i < t.rows.len() && 0 <= j < t.columns.len() && cached.contains_key(
            #[trigger] value_handle(t.rows[i], t.columns[j]),
        ) ==> cached[value_handle(t.rows[i], t.columns[j])]@ == stored[i][j]->0@
}

pub open spec fn stored_view(v: Seq<Vec<Option<SingleValue>>>) -> Seq<Seq<Option<SingleValue>>> {
    v.map_values(|r: Vec<Option<SingleValue>>| r@)
}

/// `handles` holds `r`.
fn contains_row(handles: &Vec<RowId>, r: RowId) -> (b: bool)
    ensures
        b == handles@.contains(r),
{
    let mut i: usize = 0;
    while i < handles.len()
        invariant
            i <= handles.len(),
            forall|k: int| 0 <= k < i ==> handles@[k] != r,
        decreases handles.len() - i,
    {
        if handles[i] == r {
            proof {
                assert(handles@[i as int] == r);
            }
            return true;
        }
        i = i + 1;
    }
    false
}

/// `names` holds `name`.
fn contains_name(names: &[String], name: &String) -> (b: bool)
    ensures
        b == strings_view(names@).contains(name@),
{
    let mut i: usize = 0;
    while i < names.len()
        invariant
            i <= names.len(),
            forall|k: int| 0 <= k < i ==> names@[k]@ != name@,
        decreases names.len() - i,
    {
        if names[i] == *name {
            proof {
                assert(strings_view(names@)[i as int] == name@);
            }
            return true;
        }
        i = i + 1;
    }
    proof {
        if strings_view(names@).contains(name@) {
            let k = choose|k: int| 0 <= k < strings_view(names@).len() && strings_view(names@)[k] == name@;
            assert(names@[k]@ == name@);
        }
    }
    false
}

fn copy_columns(v: &Vec<ColumnAbstract>) -> (r: Vec<ColumnAbstract>)
    ensures
        column_abstracts_view(r@) == column_abstracts_view(v@),
{
    let mut r: Vec<ColumnAbstract> = Vec::new();
    let mut i: usize = 0;
    while i < v.len()
        invariant
            i <= v.len(),
            r@.len() == i,
            forall|k: int| 0 <= k < i ==> #[trigger] r@[k]@ == v@[k]@,
        decreases v.len() - i,
    {
        r.push(v[i].duplicate());
        i = i + 1;
    }
    proof {
        assert(column_abstracts_view(r@) =~= column_abstracts_view(v@));
    }
    r
}

/// Whether a row handle is (`inside`) or is not (`!inside`) among `rows`.
pub open spec fn in_rows(rows: Seq<RowId>, inside: bool) -> spec_fn(RowId) -> bool {
    |x: RowId| rows.contains(x) == inside
}

/// The handles of `rows` that `other` has (`inside`) or lacks (`!inside`), in order.
fn rows_where(rows: &Vec<RowId>, other: &Vec<RowId>, inside: bool) -> (r: Vec<RowId>)
    ensures
        r@ == rows@.filter(in_rows(other@, inside)),
{
    let ghost pred = in_rows(other@, inside);
    let mut r: Vec<RowId> = Vec::new();
    let mut i: usize = 0;
    while i < rows.len()
        invariant
            i <= rows.len(),
            pred == in_rows(other@, inside),
            r@ == rows@.take(i as int).filter(pred),
        decreases rows.len() - i,
    {
        let x = rows[i];
        let found = contains_row(other, x);
        proof {
            reveal(Seq::filter);
            assert(rows@.take(i + 1).drop_last() =~= rows@.take(i as int));
            assert(rows@.take(i + 1).last() == x);
        }
        if found == inside {
            r.push(x);
        }
        i = i + 1;
    }
    proof {
        assert(rows@.take(rows.len() as int) =~= rows@);
    }
    r
}

/// The names a projection keeps: `*` stands for every column.
pub open spec fn projected(names: Seq<Seq<char>>, c: SpecColumnAbstract) -> bool {
    names.contains(c.name) || names.contains(seq!['*'])
}

pub open spec fn keeps(names: Seq<Seq<char>>) -> spec_fn(SpecColumnAbstract) -> bool {
    |c: SpecColumnAbstract| projected(names, c)
}

/// The projection of `t` onto the columns `names`.
pub open spec fn projection(t: SpecTableAbstract, names: Seq<Seq<char>>) -> SpecTableAbstract {
    SpecTableAbstract { columns: t.columns.filter(keeps(names)), rows: t.rows }
}

impl TableAbstract {
    /// Intersection: the rows of this table that `other` also has, in this
    /// table's order, with this table's columns.
    pub fn and(&self, other: &TableAbstract) -> (r: TableAbstract)
        ensures
            r@.columns == self@.columns,
            r@.rows == self@.rows.filter(in_rows(other@.rows, true)),
    {
        TableAbstract { columns: copy_columns(&self.columns), rows: rows_where(&self.rows, &other.rows, true) }
    }

    /// Union: the rows of this table, then those of `other` that this table
    /// does not have, with this table's columns.
    pub fn or(&self, other: &TableAbstract) -> (r: TableAbstract)
        ensures
            r@.columns == self@.columns,
            r@.rows == self@.rows + other@.rows.filter(in_rows(self@.rows, false)),
    {
        let mut rows: Vec<RowId> = Vec::new();
        let mut i: usize = 0;
        while i < self.rows.len()
            invariant
                i <= self.rows.len(),
                rows@ == self.rows@.take(i as int),
            decreases self.rows.len() - i,
        {
            rows.push(self.rows[i]);
            proof {
                assert(rows@ =~= self.rows@.take(i + 1));
            }
            i = i + 1;
        }
        let mut extra = rows_where(&other.rows, &self.rows, false);
        proof {
            assert(self.rows@.take(self.rows.len() as int) =~= self.rows@);
        }
        rows.append(&mut extra);
        TableAbstract { columns: copy_columns(&self.columns), rows }
    }

    /// Difference: the rows of this table that `other` does not have, in
    /// this table's order, with this table's columns.
    pub fn minus(&self, other: &TableAbstract) -> (r: TableAbstract)
        ensures
            r@.columns == self@.columns,
            r@.rows == self@.rows.filter(in_rows(other@.rows, false)),
    {
        TableAbstract { columns: copy_columns(&self.columns), rows: rows_where(&self.rows, &other.rows, false) }
    }

    /// Projection: the columns of this table named in `columns` (all of them
    /// where `columns` holds `*`), in this table's order, with all its rows.
    pub fn project(&self, columns: &[String]) -> (r: TableAbstract)
        ensures
            r@ == projection(self@, strings_view(columns@)),
    {
        let ghost names = strings_view(columns@);
        let ghost pred = keeps(names);
        let star = String::from_str("*");
        proof {
            reveal_strlit("*");
            assert(star@ =~= seq!['*']);
        }
        let all = contains_name(columns, &star);
        let mut cols: Vec<ColumnAbstract> = Vec::new();
        let mut i: usize = 0;
        while i < self.columns.len()
            invariant
                i <= self.columns.len(),
                names == strings_view(columns@),
                pred == keeps(names),
                all == names.contains(seq!['*']),
                column_abstracts_view(cols@) == column_abstracts_view(self.columns@).take(i as int).filter(pred),
            decreases self.columns.len() - i,
        {
            let c = &self.columns[i];
            let keep = all || contains_name(columns, &c.name);
            let ghost vs = column_abstracts_view(self.columns@);
            proof {
                reveal(Seq::filter);
                assert(vs.take(i + 1).drop_last() =~= vs.take(i as int));
                assert(vs.take(i + 1).last() == c@);
            }
            if keep {
                let ghost before = cols@;
                cols.push(c.duplicate());
                proof {
                    assert(column_abstracts_view(cols@) =~= column_abstracts_view(before).push(c@));
                }
            }
            i = i + 1;
        }
        proof {
            assert(column_abstracts_view(self.columns@).take(self.columns.len() as int) =~= column_abstracts_view(self.columns@));
        }
        let mut rows: Vec<RowId> = Vec::new();
        let mut k: usize = 0;
        while k < self.rows.len()
            invariant
                k <= self.rows.len(),
                rows@ == self.rows@.take(k as int),
            decreases self.rows.len() - k,
        {
            rows.push(self.rows[k]);
            proof {
                assert(rows@ =~= self.rows@.take(k + 1));
            }
            k = k + 1;
        }
        proof {
            assert(self.rows@.take(self.rows.len() as int) =~= self.rows@);
        }
        TableAbstract { columns: cols, rows }
    }

    /// Whether `stored` holds a value for every cell of this table, equal
    /// values for cells with one handle, and values that agree with the cache.
    pub fn stored_fits(&self, cache: &CacheManager, stored: &Vec<Vec<Option<SingleValue>>>) -> (b: bool)
        requires
            cache.wf(),
        ensures
            b == (readable(self@, stored_view(stored@)) && agrees(self@, stored_view(stored@), cache.rows())),
    {
        let ghost t = self@;
        let ghost sv = stored_view(stored@);
        if stored.len() != self.rows.len() {
            return false;
        }
        let nr = self.rows.len();
        let nc = self.columns.len();
        let mut i: usize = 0;
        while i < nr
            invariant
                t == self@,
                sv == stored_view(stored@),
                nr == t.rows.len() == stored@.len(),
                nc == t.columns.len(),
                i <= nr,
                cache.wf(),
                forall|a: int| 0 <= a < i ==> #[trigger] sv[a].len() == nc,
                forall|a: int, j: int| 0 <= a < i && 0 <= j < nc ==> (#[trigger] sv[a][j]) is Some,
                forall|a: int, j: int|
                    0 <= a < i && 0 <= j < nc && cache.rows().contains_key(#[trigger] value_handle(t.rows[a], t.columns[j]))
                        ==> cache.rows()[value_handle(t.rows[a], t.columns[j])]@ == sv[a][j]->0@,
            decreases nr - i,
        {
            proof {
                assert(sv[i as int] == stored@[i as int]@);
            }
            if stored[i].len() != nc {
                return false;
            }
            let mut j: usize = 0;
            while j < nc
                invariant
                    t == self@,
                    sv == stored_view(stored@),
                    nr == t.rows.len() == stored@.len(),
                    nc == t.columns.len() == sv[i as int].len(),
                    i < nr,
                    j <= nc,
                    cache.wf(),
                    forall|a: int| 0 <= a < i ==> #[trigger] sv[a].len() == nc,
                    forall|a: int, c: int| 0 <= a < i && 0 <= c < nc ==> (#[trigger] sv[a][c]) is Some,
                    forall|a: int, c: int|
                        0 <= a < i && 0 <= c < nc && cache.rows().contains_key(#[trigger] value_handle(t.rows[a], t.columns[c]))
                            ==> cache.rows()[value_handle(t.rows[a], t.columns[c])]@ == sv[a][c]->0@,
                    forall|c: int| 0 <= c < j ==> (#[trigger] sv[i as int][c]) is Some,
                    forall|c: int|
                        0 <= c < j && cache.rows().contains_key(#[trigger] value_handle(t.rows[i as int], t.columns[c]))
                            ==> cache.rows()[value_handle(t.rows[i as int], t.columns[c])]@ == sv[i as int][c]->0@,
                decreases nc - j,
            {
                proof {
                    assert(sv[i as int][j as int] == stored@[i as int]@[j as int]);
                }
                let cell = match &stored[i][j] {
                    Some(v) => v,
                    None => {
                        return false;
                    },
                };
                let r = self.rows[i];
                let id = ValueId::new(r.table_id, r.row_id, self.columns[j].id);
                proof {
                    assert(id == value_handle(t.rows[i as int], t.columns[j as int]));
                }
                match cache.peek_row(&id) {
                    Some(c) => {
                        if !c.same_as(cell) {
                            return false;
                        }
                    },
                    None => {},
                }
                j = j + 1;
            }
            i = i + 1;
        }
        // cells with one handle must have equal values
        let mut i1: usize = 0;
        while i1 < nr
            invariant
                t == self@,
                sv == stored_view(stored@),
                nr == t.rows.len() == sv.len(),
                nc == t.columns.len(),
                i1 <= nr,
                forall|x: int| 0 <= x < nr ==> #[trigger] sv[x].len() == nc,
                forall|x: int, j: int| 0 <= x < nr && 0 <= j < nc ==> (#[trigger] sv[x][j]) is Some,
                forall|x1: int, y1: int, x2: int, y2: int|
                    0 <= x1 < i1 && 0 <= y1 < nc && 0 <= x2 < nr && 0 <= y2 < nc
                        && #[trigger] value_handle(t.rows[x1], t.columns[y1]) == #[trigger] value_handle(t.rows[x2], t.columns[y2])
                        ==> sv[x1][y1]->0@ == sv[x2][y2]->0@,
            decreases nr - i1,
        {
            let mut j1: usize = 0;
            while j1 < nc
                invariant
                    t == self@,
                    sv == stored_view(stored@),
                    nr == t.rows.len() == sv.len(),
                    nc == t.columns.len(),
                    i1 < nr,
                    j1 <= nc,
                    forall|x: int| 0 <= x < nr ==> #[trigger] sv[x].len() == nc,
                    forall|x: int, j: int| 0 <= x < nr && 0 <= j < nc ==> (#[trigger] sv[x][j]) is Some,
                    forall|x1: int, y1: int, x2: int, y2: int|
                        0 <= x1 < i1 && 0 <= y1 < nc && 0 <= x2 < nr && 0 <= y2 < nc
                            && #[trigger] value_handle(t.rows[x1], t.columns[y1]) == #[trigger] value_handle(t.rows[x2], t.columns[y2])
                            ==> sv[x1][y1]->0@ == sv[x2][y2]->0@,
                    forall|y1: int, x2: int, y2: int|
                        0 <= y1 < j1 && 0 <= x2 < nr && 0 <= y2 < nc
                            && #[trigger] value_handle(t.rows[i1 as int], t.columns[y1]) == #[trigger] value_handle(t.rows[x2], t.columns[y2])
                            ==> sv[i1 as int][y1]->0@ == sv[x2][y2]->0@,
                decreases nc - j1,
            {
                if !self.cell_matches_all(stored, i1, j1) {
                    return false;
                }
                j1 = j1 + 1;
            }
            i1 = i1 + 1;
        }
        true
    }

    /// Whether every cell with the handle of cell `(i1, j1)` has its stored value.
    fn cell_matches_all(&self, stored: &Vec<Vec<Option<SingleValue>>>, i1: usize, j1: usize) -> (b: bool)
        requires
            stored@.len() == self@.rows.len(),
            forall|x: int| 0 <= x < self@.rows.len() ==> #[trigger] stored_view(stored@)[x].len() == self@.columns.len(),
            forall|x: int, j: int| 0 <= x < self@.rows.len() && 0 <= j < self@.columns.len() ==> (#[trigger] stored_view(stored@)[x][j]) is Some,
            i1 < self@.rows.len(),
            j1 < self@.columns.len(),
        ensures
            b == forall|x2: int, y2: int|
                0 <= x2 < self@.rows.len() && 0 <= y2 < self@.columns.len()
                    && #[trigger] value_handle(self@.rows[x2], self@.columns[y2]) == value_handle(self@.rows[i1 as int], self@.columns[j1 as int])
                    ==> stored_view(stored@)[i1 as int][j1 as int]->0@ == stored_view(stored@)[x2][y2]->0@,
    {
        let ghost t = self@;
        let ghost sv = stored_view(stored@);
        let nr = self.rows.len();
        let nc = self.columns.len();
        let h1 = ValueId::new(self.rows[i1].table_id, self.rows[i1].row_id, self.columns[j1].id);
        proof {
            assert(sv[i1 as int] == stored@[i1 as int]@);
            assert(sv[i1 as int][j1 as int] == stored@[i1 as int]@[j1 as int]);
        }
        let v1 = match &stored[i1][j1] {
            Some(v) => v,
            None => {
                return false;
            },
        };
        let mut i2: usize = 0;
        while i2 < nr
            invariant
                t == self@,
                sv == stored_view(stored@),
                nr == t.rows.len() == sv.len(),
                nc == t.columns.len(),
                0 <= i1 < nr,
                0 <= j1 < nc,
                h1 == value_handle(t.rows[i1 as int], t.columns[j1 as int]),
                v1@ == sv[i1 as int][j1 as int]->0@,
                forall|x: int| 0 <= x < nr ==> #[trigger] sv[x].len() == nc,
                forall|x: int, j: int| 0 <= x < nr && 0 <= j < nc ==> (#[trigger] sv[x][j]) is Some,
                i2 <= nr,
                forall|x: int, y: int|
                    0 <= x < i2 && 0 <= y < nc && #[trigger] value_handle(t.rows[x], t.columns[y]) == h1
                        ==> v1@ == sv[x][y]->0@,
            decreases nr - i2,
        {
            let mut j2: usize = 0;
            while j2 < nc
                invariant
                    t == self@,
                    sv == stored_view(stored@),
                    nr == t.rows.len() == sv.len(),
                    nc == t.columns.len(),
                    i2 < nr,
                    0 <= i1 < nr,
                    0 <= j1 < nc,
                    h1 == value_handle(t.rows[i1 as int], t.columns[j1 as int]),
                    v1@ == sv[i1 as int][j1 as int]->0@,
                    forall|x: int| 0 <= x < nr ==> #[trigger] sv[x].len() == nc,
                    forall|x: int, j: int| 0 <= x < nr && 0 <= j < nc ==> (#[trigger] sv[x][j]) is Some,
                    j2 <= nc,
                    forall|x: int, y: int|
                        0 <= x < i2 && 0 <= y < nc && #[trigger] value_handle(t.rows[x], t.columns[y]) == h1
                            ==> v1@ == sv[x][y]->0@,
                    forall|y: int|
                        0 <= y < j2 && #[trigger] value_handle(t.rows[i2 as int], t.columns[y]) == h1
                            ==> v1@ == sv[i2 as int][y]->0@,
                decreases nc - j2,
            {
                let h2 = ValueId::new(self.rows[i2].table_id, self.rows[i2].row_id, self.columns[j2].id);
                proof {
                    assert(h2 == value_handle(t.rows[i2 as int], t.columns[j2 as int]));
                    assert(sv[i2 as int] == stored@[i2 as int]@);
                    assert(sv[i2 as int][j2 as int] == stored@[i2 as int]@[j2 as int]);
                }
                if h2 == h1 {
                    match &stored[i2][j2] {
                        Some(v2) => {
                            if !v1.same_as(v2) {
                                return false;
                            }
                        },
                        None => {
                            return false;
                        },
                    }
                }
                j2 = j2 + 1;
            }
            i2 = i2 + 1;
        }
        true
    }

    /// The table of values. Each value is read through the cache: a cached
    /// value is given, any other is the stored value handed in, which the
    /// cache then keeps. Where the cache agrees with the stored values, the
    /// table holds exactly the stored values, and the cache still agrees.
    pub fn to_actual(self, cache: &mut CacheManager, stored: &Vec<Vec<Option<SingleValue>>>) -> (r: TableActual)
        requires
            old(cache).wf(),
            readable(self@, stored_view(stored@)),
            agrees(self@, stored_view(stored@), old(cache).rows()),
        ensures
            final(cache).wf(),
            final(cache).row_capacity() == old(cache).row_capacity(),
            agrees(self@, stored_view(stored@), final(cache).rows()),
            column_abstracts_view(r.columns@) == self@.columns,
            r.values@.len() == self@.rows.len(),
            forall|i: int| 0 <= i < self@.rows.len() ==> #[trigger] r.values@[i]@.len() == self@.columns.len(),
            forall|i: int, j: int|
                0 <= i < self@.rows.len() && 0 <= j < self@.columns.len() ==> #[trigger] r.values@[i]@[j]@
                    == stored_view(stored@)[i][j]->0@,
    {
        let ghost t = self@;
        let ghost sv = stored_view(stored@);
        let mut values: Vec<Vec<SingleValue>> = Vec::new();
        let mut i: usize = 0;
        while i < self.rows.len()
            invariant
                i <= self.rows.len(),
                t == self@,
                sv == stored_view(stored@),
                cache.wf(),
                cache.row_capacity() == old(cache).row_capacity(),
                readable(t, sv),
                agrees(t, sv, cache.rows()),
                values@.len() == i,
                forall|a: int| 0 <= a < i ==> #[trigger] values@[a]@.len() == t.columns.len(),
                forall|a: int, b: int|
                    0 <= a < i && 0 <= b < t.columns.len() ==> #[trigger] values@[a]@[b]@ == sv[a][b]->0@,
            decreases self.rows.len() - i,
        {
            let mut row: Vec<SingleValue> = Vec::new();
            let mut j: usize = 0;
            while j < self.columns.len()
                invariant
                    i < self.rows.len(),
                    j <= self.columns.len(),
                    t == self@,
                    sv == stored_view(stored@),
                    cache.wf(),
                    cache.row_capacity() == old(cache).row_capacity(),
                    readable(t, sv),
                    agrees(t, sv, cache.rows()),
                    row@.len() == j,
                    forall|b: int| 0 <= b < j ==> #[trigger] row@[b]@ == sv[i as int][b]->0@,
                decreases self.columns.len() - j,
            {
                let r = self.rows[i];
                let id = ValueId::new(r.table_id, r.row_id, self.columns[j].id);
                let ghost before = cache.entries();
                proof {
                    assert(id == value_handle(t.rows[i as int], t.columns[j as int]));
                    assert(sv[i as int] == stored@[i as int]@);
                    cache.lemma_wf();
                    crate::cache::lemma_index_of(before, id);
                    crate::cache::lemma_entries_map(before);
                    if crate::cache::lookup(before, id) is Some {
                        let m = crate::cache::index_of(before, id)->0;
                        assert(cache.rows().contains_key(before[m].0));
                    }
                }
                let cell = match &stored[i][j] {
                    Some(v) => Some(v.duplicate()),
                    None => None,
                };
                let v = cache.get_row(&id, cell);
                proof {
                    crate::cache::lemma_entries_map(before);
                    match crate::cache::lookup(before, id) {
                        Some(c) => {
                            crate::cache::lemma_after_use(before, id);
                        },
                        None => {
                            crate::cache::lemma_after_insert_map(before, cache.row_capacity(), id, cell->0);
                            assert forall|a: int, b: int|
                                0 <= a < t.rows.len() && 0 <= b < t.columns.len() && cache.rows().contains_key(
                                    #[trigger] value_handle(t.rows[a], t.columns[b]),
                                ) implies cache.rows()[value_handle(t.rows[a], t.columns[b])]@ == sv[a][b]->0@ by {
                                if value_handle(t.rows[a], t.columns[b]) == id {
                                    assert(sv[a][b]->0@ == sv[i as int][j as int]->0@);
                                }
                            }
                        },
                    }
                }
                match v {
                    Some(x) => {
                        row.push(x);
                    },
                    None => {},
                }
                j = j + 1;
            }
            values.push(row);
            i = i + 1;
        }
        TableActual { columns: self.columns, values }
    }
}

/// Filtering by membership keeps exactly the members that pass.
proof fn lemma_filter_in_rows(a: Seq<RowId>, b: Seq<RowId>, inside: bool, x: RowId)
    ensures
        a.filter(in_rows(b, inside)).contains(x) <==> (a.contains(x) && b.contains(x) == inside),
{
    let p = in_rows(b, inside);
    let f = a.filter(p);
    if f.contains(x) {
        a.lemma_filter_contains_rev(p, x);
        let i = choose|i: int| 0 <= i < f.len() && f[i] == x;
        a.lemma_filter_pred(p, i);
    }
    if a.contains(x) && b.contains(x) == inside {
        let i = choose|i: int| 0 <= i < a.len() && a[i] == x;
        a.lemma_filter_contains(p, i);
    }
}

/// A row is in the intersection of two tables exactly when both have it.
pub proof fn law_and_has_common_rows(a: SpecTableAbstract, b: SpecTableAbstract, x: RowId)
    ensures
        a.rows.filter(in_rows(b.rows, true)).contains(x) <==> (a.rows.contains(x) && b.rows.contains(x)),
{
    lemma_filter_in_rows(a.rows, b.rows, true, x);
}

/// A row is in the union of two tables exactly when either has it.
pub proof fn law_or_has_all_rows(a: SpecTableAbstract, b: SpecTableAbstract, x: RowId)
    ensures
        (a.rows + b.rows.filter(in_rows(a.rows, false))).contains(x) <==> (a.rows.contains(x)
            || b.rows.contains(x)),
{
    let f = b.rows.filter(in_rows(a.rows, false));
    let u = a.rows + f;
    lemma_filter_in_rows(b.rows, a.rows, false, x);
    if u.contains(x) {
        let i = choose|i: int| 0 <= i < u.len() && u[i] == x;
        if i >= a.rows.len() {
            assert(f[i - a.rows.len()] == x);
        } else {
            assert(a.rows[i] == x);
        }
    }
    if a.rows.contains(x) {
        let i = choose|i: int| 0 <= i < a.rows.len() && a.rows[i] == x;
        assert(u[i] == x);
    } else if b.rows.contains(x) {
        let i = choose|i: int| 0 <= i < f.len() && f[i] == x;
        assert(u[a.rows.len() + i] == x);
    }
}

/// A row is in the difference of two tables exactly when the first has it
/// and the second does not.
pub proof fn law_minus_has_own_rows(a: SpecTableAbstract, b: SpecTableAbstract, x: RowId)
    ensures
        a.rows.filter(in_rows(b.rows, false)).contains(x) <==> (a.rows.contains(x) && !b.rows.contains(x)),
{
    lemma_filter_in_rows(a.rows, b.rows, false, x);
}

} // verus!
