//! The catalog: the table definitions the database holds, kept in memory.
//! (Reading and writing their files is the caller's part.)

use vstd::prelude::*;
use crate::storage::{TableMeta, SpecTableMeta, SpecColumnMeta};
use crate::value::Column;
use crate::error::{Error, TableError};

verus! {

/// Index of the first table named `name`, searching from `i`.
pub open spec fn table_named_from(ts: Seq<SpecTableMeta>, name: Seq<char>, i: int) -> Option<int>
    decreases ts.len() - i,
{
    if i < 0 || i >= ts.len() {
        None
    } else if ts[i].name == name {
        Some(i)
    } else {
        table_named_from(ts, name, i + 1)
    }
}

/// Index of the first table named `name`.
pub open spec fn table_named(ts: Seq<SpecTableMeta>, name: Seq<char>) -> Option<int> {
    table_named_from(ts, name, 0)
}

/// Index of the first table with id `id`, searching from `i`.
pub open spec fn table_with_id_from(ts: Seq<SpecTableMeta>, id: u64, i: int) -> Option<int>
    decreases ts.len() - i,
{
    if i < 0 || i >= ts.len() {
        None
    } else if ts[i].id == id {
        Some(i)
    } else {
        table_with_id_from(ts, id, i + 1)
    }
}

/// Index of the first column with id `id`, searching from `i`.
pub open spec fn column_with_id_from(cs: Seq<SpecColumnMeta>, id: u64, i: int) -> Option<int>
    decreases cs.len() - i,
{
    if i < 0 || i >= cs.len() {
        None
    } else if cs[i].id == id {
        Some(i)
    } else {
        column_with_id_from(cs, id, i + 1)
    }
}

/// No two tables share a name.
pub open spec fn names_unique(ts: Seq<SpecTableMeta>) -> bool {
    forall|i: int, j: int| 0 <= i < ts.len() && 0 <= j < ts.len() && i != j ==> ts[i].name != ts[j].name
}

pub proof fn lemma_table_named_from(ts: Seq<SpecTableMeta>, name: Seq<char>, i: int)
    requires
        0 <= i,
    ensures
        match table_named_from(ts, name, i) {
            Some(k) => i <= k < ts.len() && ts[k].name == name && forall|j: int| i <= j < k ==> ts[j].name != name,
            None => forall|j: int| i <= j < ts.len() ==> ts[j].name != name,
        },
    decreases ts.len() - i,
{
    if i < ts.len() && ts[i].name != name {
        lemma_table_named_from(ts, name, i + 1);
    }
}

/// The first table named `name`, characterised.
pub proof fn lemma_table_named(ts: Seq<SpecTableMeta>, name: Seq<char>)
    ensures
        match table_named(ts, name) {
            Some(k) => 0 <= k < ts.len() && ts[k].name == name && forall|j: int| 0 <= j < k ==> ts[j].name != name,
            None => forall|j: int| 0 <= j < ts.len() ==> ts[j].name != name,
        },
{
    lemma_table_named_from(ts, name, 0);
}

/// Every table's rows can be counted in memory (`usize`).
pub open spec fn rows_fit(cat: Seq<SpecTableMeta>) -> bool {
    forall|i: int| 0 <= i < cat.len() ==> #[trigger] cat[i].row_count <= usize::MAX
}

/// The catalog of table definitions.
pub struct CatalogManager {
    tables: Vec<TableMeta>,
}

pub open spec fn tables_view(v: Seq<TableMeta>) -> Seq<SpecTableMeta> {
    v.map_values(|t: TableMeta| t@)
}

impl View for CatalogManager {
    type V = Seq<SpecTableMeta>;

    closed spec fn view(&self) -> Seq<SpecTableMeta> {
        tables_view(self.tables@)
    }
}

impl CatalogManager {
    /// A catalog holding `tables`, in that order (as loaded from their files).
    pub fn new(tables: Vec<TableMeta>) -> (r: Self)
        ensures
            r@ == tables_view(tables@),
    {
        CatalogManager { tables }
    }

    /// An empty catalog.
    pub fn empty() -> (r: Self)
        ensures
            r@ == Seq::<SpecTableMeta>::empty(),
    {
        let r = CatalogManager { tables: Vec::new() };
        proof {
            assert(r@ =~= Seq::<SpecTableMeta>::empty());
        }
        r
    }

    fn find(&self, name: &str) -> (r: Option<usize>)
        ensures
            match r {
                Some(k) => table_named(self@, name@) == Some(k as int) && k < self@.len(),
                None => table_named(self@, name@) is None,
            },
    {
        let target = name.to_owned();
        let mut i: usize = 0;
        while i < self.tables.len()
            invariant
                i <= self.tables.len(),
                target@ == name@,
                self@.len() == self.tables.len(),
                table_named(self@, name@) == table_named_from(self@, name@, i as int),
            decreases self.tables.len() - i,
        {
            proof {
                assert(self@[i as int] == self.tables@[i as int]@);
            }
            if self.tables[i].name == target {
                return Some(i);
            }
            i = i + 1;
        }
        None
    }

    /// Whether every table's rows can be counted in memory.
    pub fn rows_countable(&self) -> (b: bool)
        ensures
            b == rows_fit(self@),
    {
        let mut i: usize = 0;
        while i < self.tables.len()
            invariant
                i <= self.tables.len(),
                self@.len() == self.tables.len(),
                forall|k: int| 0 <= k < i ==> #[trigger] self@[k].row_count <= usize::MAX,
            decreases self.tables.len() - i,
        {
            proof {
                assert(self@[i as int] == self.tables@[i as int]@);
            }
            if self.tables[i].row_count as u128 > usize::MAX as u128 {
                proof {
                    assert(self@[i as int].row_count > usize::MAX);
                }
                return false;
            }
            i = i + 1;
        }
        true
    }

    /// Whether a table named `table_name` exists.
    pub fn has_table(&self, table_name: &str) -> (r: bool)
        ensures
            r == (table_named(self@, table_name@) is Some),
            r == exists|i: int| 0 <= i < self@.len() && #[trigger] self@[i].name == table_name@,
    {
        proof {
            lemma_table_named(self@, table_name@);
        }
        self.find(table_name).is_some()
    }

    /// The definition of the first table named `table_name`.
    pub fn get_table_meta(&self, table_name: &str) -> (r: Option<TableMeta>)
        ensures
            match table_named(self@, table_name@) {
                Some(k) => r matches Some(t) && t@ == self@[k],
                None => r is None,
            },
    {
        match self.find(table_name) {
            Some(k) => Some(self.tables[k].duplicate()),
            None => None,
        }
    }

    /// The names of all tables, in catalog order.
    pub fn list_tables(&self) -> (r: Vec<String>)
        ensures
            r@.len() == self@.len(),
            forall|i: int| 0 <= i < self@.len() ==> #[trigger] r@[i]@ == self@[i].name,
    {
        let mut names: Vec<String> = Vec::new();
        let mut i: usize = 0;
        while i < self.tables.len()
            invariant
                i <= self.tables.len(),
                self@.len() == self.tables.len(),
                names@.len() == i,
                forall|k: int| 0 <= k < i ==> #[trigger] names@[k]@ == self@[k].name,
            decreases self.tables.len() - i,
        {
            names.push(self.tables[i].name.clone());
            i = i + 1;
        }
        names
    }

    /// Adds a table definition; refused when a table of that name exists.
    pub fn create_table(&mut self, table_def: TableMeta) -> (r: Result<(), Error>)
        ensures
            match table_named(old(self)@, table_def@.name) {
                Some(_) => r matches Err(Error::Table(TableError::TableExists(n))) && n@
                    == table_def@.name && final(self)@ == old(self)@,
                None => r is Ok && final(self)@ == old(self)@.push(table_def@),
            },
    {
        if self.find(table_def.name.as_str()).is_some() {
            return Err(Error::Table(TableError::TableExists(table_def.name.clone())));
        }
        let ghost tv = table_def@;
        self.tables.push(table_def);
        proof {
            assert(self@ =~= old(self)@.push(tv));
        }
        Ok(())
    }

    /// Removes the first table named `table_name`; refused when there is none.
    pub fn drop_table(&mut self, table_name: &str) -> (r: Result<(), Error>)
        ensures
            match table_named(old(self)@, table_name@) {
                Some(k) => r is Ok && final(self)@ == old(self)@.remove(k),
                None => r matches Err(Error::Table(TableError::TableNotFound(n))) && n@
                    == table_name@ && final(self)@ == old(self)@,
            },
    {
        match self.find(table_name) {
            Some(k) => {
                self.tables.remove(k);
                proof {
                    assert(self@ =~= old(self)@.remove(k as int));
                }
                Ok(())
            },
            None => Err(Error::Table(TableError::TableNotFound(table_name.to_owned()))),
        }
    }

    /// Replaces the first table of the same name; refused when there is none.
    pub fn update_table_meta(&mut self, updated_meta: TableMeta) -> (r: Result<(), Error>)
        ensures
            match table_named(old(self)@, updated_meta@.name) {
                Some(k) => r is Ok && final(self)@ == old(self)@.update(k, updated_meta@),
                None => r matches Err(Error::Table(TableError::TableNotFound(n))) && n@
                    == updated_meta@.name && final(self)@ == old(self)@,
            },
    {
        match self.find(updated_meta.name.as_str()) {
            Some(k) => {
                let ghost uv = updated_meta@;
                self.tables.set(k, updated_meta);
                proof {
                    assert(self@ =~= old(self)@.update(k as int, uv));
                }
                Ok(())
            },
            None => Err(Error::Table(TableError::TableNotFound(updated_meta.name.clone()))),
        }
    }

    /// The name of the first table with id `table_id`.
    pub fn get_table_name_by_id(&self, table_id: u64) -> (r: Option<String>)
        ensures
            match table_with_id_from(self@, table_id, 0) {
                Some(k) => r matches Some(n) && n@ == self@[k].name,
                None => r is None,
            },
    {
        let mut i: usize = 0;
        while i < self.tables.len()
            invariant
                i <= self.tables.len(),
                self@.len() == self.tables.len(),
                table_with_id_from(self@, table_id, 0) == table_with_id_from(self@, table_id, i as int),
            decreases self.tables.len() - i,
        {
            if self.tables[i].id == table_id {
                return Some(self.tables[i].name.clone());
            }
            i = i + 1;
        }
        None
    }

    /// The column with id `column_id` of the first table with id `table_id`.
    pub fn get_column_by_ids(&self, table_id: u64, column_id: u64) -> (r: Option<Column>)
        ensures
            match table_with_id_from(self@, table_id, 0) {
                Some(k) => match column_with_id_from(self@[k].columns, column_id, 0) {
                    Some(c) => r matches Some(col) && col.id == self@[k].columns[c].id
                        && col.name@ == self@[k].columns[c].name && col.table_name@ == self@[k].name
                        && col.data_type == self@[k].columns[c].data_type,
                    None => r is None,
                },
                None => r is None,
            },
    {
        let mut i: usize = 0;
        while i < self.tables.len()
            invariant
                i <= self.tables.len(),
                self@.len() == self.tables.len(),
                table_with_id_from(self@, table_id, 0) == table_with_id_from(self@, table_id, i as int),
            decreases self.tables.len() - i,
        {
            proof {
                assert(self@[i as int] == self.tables@[i as int]@);
            }
            if self.tables[i].id == table_id {
                let t = &self.tables[i];
                let mut j: usize = 0;
                while j < t.columns.len()
                    invariant
                        j <= t.columns.len(),
                        i < self@.len(),
                        table_with_id_from(self@, table_id, 0) == Some(i as int),
                        t@ == self@[i as int],
                        t@.columns.len() == t.columns.len(),
                        column_with_id_from(t@.columns, column_id, 0) == column_with_id_from(
                            t@.columns,
                            column_id,
                            j as int,
                        ),
                    decreases t.columns.len() - j,
                {
                    let c = &t.columns[j];
                    proof {
                        assert(t@.columns[j as int] == c@);
                    }
                    if c.id == column_id {
                        return Some(
                            Column {
                                id: c.id,
                                name: c.name.clone(),
                                table_name: t.name.clone(),
                                data_type: c.data_type,
                            },
                        );
                    }
                    j = j + 1;
                }
                return None;
            }
            i = i + 1;
        }
        None
    }
}


/// After a table is created under a name that was free, looking the name up
/// finds that table (`has_table` holds and `get_table_meta` gives it back).
pub proof fn law_create_then_lookup(ts: Seq<SpecTableMeta>, t: SpecTableMeta)
    requires
        table_named(ts, t.name) is None,
    ensures
        table_named(ts.push(t), t.name) == Some(ts.len() as int),
        ts.push(t)[ts.len() as int] == t,
{
    lemma_table_named(ts, t.name);
    lemma_table_named(ts.push(t), t.name);
    assert(ts.push(t)[ts.len() as int].name == t.name);
}

/// Dropping a table just created under a free name gives back the catalog as it was.
pub proof fn law_drop_undoes_create(ts: Seq<SpecTableMeta>, t: SpecTableMeta)
    requires
        table_named(ts, t.name) is None,
    ensures
        table_named(ts.push(t), t.name) matches Some(k) && ts.push(t).remove(k) == ts,
{
    law_create_then_lookup(ts, t);
    assert(ts.push(t).remove(ts.len() as int) =~= ts);
}

/// Creating tables only under free names keeps table names unique.
pub proof fn law_create_keeps_names_unique(ts: Seq<SpecTableMeta>, t: SpecTableMeta)
    requires
        names_unique(ts),
        table_named(ts, t.name) is None,
    ensures
        names_unique(ts.push(t)),
{
    lemma_table_named(ts, t.name);
    let us = ts.push(t);
    assert forall|i: int, j: int| 0 <= i < us.len() && 0 <= j < us.len() && i != j implies us[i].name
        != us[j].name by {
        if i < ts.len() && j < ts.len() {
            assert(us[i] == ts[i] && us[j] == ts[j]);
        } else if i < ts.len() {
            assert(us[i] == ts[i]);
        } else {
            assert(us[j] == ts[j]);
        }
    }
}

/// Where names are unique, after a table is dropped its name is free.
pub proof fn law_drop_then_absent(ts: Seq<SpecTableMeta>, name: Seq<char>)
    requires
        names_unique(ts),
        table_named(ts, name) is Some,
    ensures
        table_named(ts, name) matches Some(k) && table_named(ts.remove(k), name) is None,
        table_named(ts, name) matches Some(k) && names_unique(ts.remove(k)),
{
    lemma_table_named(ts, name);
    let k = table_named(ts, name)->0;
    let us = ts.remove(k);
    lemma_table_named(us, name);
    if table_named(us, name) is Some {
        let m = table_named(us, name)->0;
        if m < k {
            assert(us[m] == ts[m]);
        } else {
            assert(us[m] == ts[m + 1]);
        }
    }
    assert forall|i: int, j: int| 0 <= i < us.len() && 0 <= j < us.len() && i != j implies us[i].name
        != us[j].name by {
        let a = if i < k { i } else { i + 1 };
        let b = if j < k { j } else { j + 1 };
        assert(us[i] == ts[a] && us[j] == ts[b]);
    }
}

/// Refusing to create a table under a taken name is the only refusal: a table
/// is refused exactly when one of that name exists.
pub proof fn law_create_refused_iff_taken(ts: Seq<SpecTableMeta>, t: SpecTableMeta)
    ensures
        (table_named(ts, t.name) is Some) == exists|i: int| 0 <= i < ts.len() && #[trigger] ts[i].name == t.name,
{
    lemma_table_named(ts, t.name);
}

} // verus!
