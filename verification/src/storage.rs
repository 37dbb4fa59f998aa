//! Table and column metadata, their ids, and the column-file record format.

use vstd::prelude::*;
use std::hash::{Hash, Hasher};
use std::collections::hash_map::DefaultHasher;
use vstd::std_specs::hash::DefaultHasherAdditionalSpecFns;
use crate::value::{DataType, SingleValue, SpecValue, le_u32, u32_le, u32_to_le, u32_from_le, lemma_le_u32_roundtrip, encoded};
use crate::stmt::opt_view;
use crate::error::{Error, TableError, ValueError};

verus! {

broadcast use vstd::string::group_string_axioms;

// ----- ids -----

/// What `<str as Hash>::hash` writes into a hasher whose writes so far were `prior`.
pub uninterp spec fn spec_str_hash_writes(prior: Seq<Seq<u8>>, s: Seq<char>) -> Seq<Seq<u8>>;

/// What `<u64 as Hash>::hash` writes into a hasher whose writes so far were `prior`.
pub uninterp spec fn spec_u64_hash_writes(prior: Seq<Seq<u8>>, x: u64) -> Seq<Seq<u8>>;

/// `<str as Hash>::hash(s, state)`. The contract says only that the writes it
/// makes depend on the text and on nothing else; which bytes they are is not stated.
#[verifier::external_body]
fn hash_str(s: &str, state: &mut DefaultHasher)
    ensures
        final(state)@ == spec_str_hash_writes(old(state)@, s@),
{
    s.hash(state)
}

/// `<u64 as Hash>::hash(&x, state)`. The contract says only that the writes it
/// makes depend on the number and on nothing else; which bytes they are is not stated.
#[verifier::external_body]
fn hash_u64(x: u64, state: &mut DefaultHasher)
    ensures
        final(state)@ == spec_u64_hash_writes(old(state)@, x),
{
    x.hash(state)
}

/// The id of a table named `name`.
pub open spec fn spec_table_id(name: Seq<char>) -> u64 {
    DefaultHasher::spec_finish(spec_str_hash_writes(Seq::empty(), name))
}

/// The id of the column `name` of the table `table_id`.
pub open spec fn spec_column_id(table_id: u64, name: Seq<char>) -> u64 {
    DefaultHasher::spec_finish(spec_str_hash_writes(spec_u64_hash_writes(Seq::empty(), table_id), name))
}

/// Metadata of a column.
#[derive(Debug)]
pub struct ColumnMeta {
    pub id: u64,
    pub name: String,
    pub data_type: DataType,
    pub nullable: bool,
    pub primary_key: bool,
    pub default_value: Option<String>,
}

pub struct SpecColumnMeta {
    pub id: u64,
    pub name: Seq<char>,
    pub data_type: DataType,
    pub nullable: bool,
    pub primary_key: bool,
    pub default_value: Option<Seq<char>>,
}

impl View for ColumnMeta {
    type V = SpecColumnMeta;

    open spec fn view(&self) -> SpecColumnMeta {
        SpecColumnMeta {
            id: self.id,
            name: self.name@,
            data_type: self.data_type,
            nullable: self.nullable,
            primary_key: self.primary_key,
            default_value: opt_view(self.default_value),
        }
    }
}

pub fn copy_opt_string(o: &Option<String>) -> (r: Option<String>)
    ensures
        opt_view(r) == opt_view(*o),
{
    match o {
        Some(s) => Some(s.clone()),
        None => None,
    }
}

impl ColumnMeta {
    /// The persistent id of the column `column_name` of table `table_id`.
    pub fn generate_id(table_id: u64, column_name: &str) -> (r: u64)
        ensures
            r == spec_column_id(table_id, column_name@),
    {
        let mut hasher = DefaultHasher::new();
        hash_u64(table_id, &mut hasher);
        hash_str(column_name, &mut hasher);
        hasher.finish()
    }

    /// A copy of this metadata.
    pub fn duplicate(&self) -> (r: Self)
        ensures
            r@ == self@,
    {
        ColumnMeta {
            id: self.id,
            name: self.name.clone(),
            data_type: self.data_type,
            nullable: self.nullable,
            primary_key: self.primary_key,
            default_value: copy_opt_string(&self.default_value),
        }
    }
}

/// Metadata of a table.
#[derive(Debug)]
pub struct TableMeta {
    pub id: u64,
    pub name: String,
    pub columns: Vec<ColumnMeta>,
    pub created_at: i64,
    /// Number of rows.
    pub row_count: u64,
}

pub struct SpecTableMeta {
    pub id: u64,
    pub name: Seq<char>,
    pub columns: Seq<SpecColumnMeta>,
    pub created_at: i64,
    pub row_count: u64,
}

pub open spec fn column_metas_view(v: Seq<ColumnMeta>) -> Seq<SpecColumnMeta> {
    v.map_values(|c: ColumnMeta| c@)
}

impl View for TableMeta {
    type V = SpecTableMeta;

    open spec fn view(&self) -> SpecTableMeta {
        SpecTableMeta {
            id: self.id,
            name: self.name@,
            columns: column_metas_view(self.columns@),
            created_at: self.created_at,
            row_count: self.row_count,
        }
    }
}

/// A column keeps its id if it has one (non-zero); else it gets the id its
/// table and name give it.
pub open spec fn with_column_id(table_id: u64, c: SpecColumnMeta) -> SpecColumnMeta {
    if c.id == 0 {
        SpecColumnMeta { id: spec_column_id(table_id, c.name), ..c }
    } else {
        c
    }
}

pub fn copy_column_metas(v: &Vec<ColumnMeta>) -> (r: Vec<ColumnMeta>)
    ensures
        column_metas_view(r@) == column_metas_view(v@),
{
    let mut r: Vec<ColumnMeta> = Vec::new();
    let mut i: usize = 0;
    while i < v.len()
        invariant
            i <= v.len(),
            r@.len() == i,
            forall|k: int| 0 <= k < i ==> #[trigger] r@[k]@ == v@[k]@,
        decreases v.len() - i,
    {
        let c = v[i].duplicate();
        r.push(c);
        i = i + 1;
    }
    proof {
        assert(column_metas_view(r@) =~= column_metas_view(v@));
    }
    r
}

impl TableMeta {
    /// The persistent id of a table named `table_name`.
    pub fn generate_id(table_name: &str) -> (r: u64)
        ensures
            r == spec_table_id(table_name@),
    {
        let mut hasher = DefaultHasher::new();
        hash_str(table_name, &mut hasher);
        hasher.finish()
    }

    /// A table definition created at `created_at` (seconds since the Unix
    /// epoch, as the caller read the clock): its id comes from its name, each
    /// column without an id gets the one its table and name give it, and it
    /// has no rows yet.
    pub fn new(name: String, columns: Vec<ColumnMeta>, created_at: i64) -> (r: Self)
        ensures
            r@.id == spec_table_id(name@),
            r@.name == name@,
            r@.columns.len() == columns@.len(),
            forall|i: int| 0 <= i < columns@.len() ==> #[trigger] r@.columns[i] == with_column_id(
                spec_table_id(name@),
                columns@[i]@,
            ),
            r@.created_at == created_at,
            r@.row_count == 0,
    {
        let id = Self::generate_id(name.as_str());
        let mut cols: Vec<ColumnMeta> = Vec::new();
        let mut i: usize = 0;
        while i < columns.len()
            invariant
                i <= columns.len(),
                id == spec_table_id(name@),
                cols@.len() == i,
                forall|k: int| 0 <= k < i ==> #[trigger] cols@[k]@ == with_column_id(id, columns@[k]@),
            decreases columns.len() - i,
        {
            let mut c = columns[i].duplicate();
            if c.id == 0 {
                c.id = ColumnMeta::generate_id(id, c.name.as_str());
            }
            cols.push(c);
            i = i + 1;
        }
        Self { id, name, columns: cols, created_at, row_count: 0 }
    }

    /// A copy of this definition.
    pub fn duplicate(&self) -> (r: Self)
        ensures
            r@ == self@,
    {
        TableMeta {
            id: self.id,
            name: self.name.clone(),
            columns: copy_column_metas(&self.columns),
            created_at: self.created_at,
            row_count: self.row_count,
        }
    }
}


/// The definition `t` with the ids a table named `name` has: the table's id
/// from the name, each column's id from that id and the column's name.
pub open spec fn rekeyed_meta(t: SpecTableMeta, name: Seq<char>) -> SpecTableMeta {
    SpecTableMeta {
        id: spec_table_id(name),
        columns: t.columns.map_values(
            |c: SpecColumnMeta| SpecColumnMeta { id: spec_column_id(spec_table_id(name), c.name), ..c },
        ),
        ..t
    }
}

impl TableMeta {
    /// The definition with the ids a table named `name` has, where its own
    /// table id differs from that; `None` where it already agrees (its
    /// columns are then left as they are).
    pub fn rekeyed(&self, name: &str) -> (r: Option<TableMeta>)
        ensures
            if self@.id == spec_table_id(name@) {
                r is None
            } else {
                r matches Some(t) && t@ == rekeyed_meta(self@, name@)
            },
    {
        let expected = TableMeta::generate_id(name);
        if self.id == expected {
            return None;
        }
        let ghost want = rekeyed_meta(self@, name@);
        let mut cols: Vec<ColumnMeta> = Vec::new();
        let mut i: usize = 0;
        while i < self.columns.len()
            invariant
                i <= self.columns.len(),
                expected == spec_table_id(name@),
                want == rekeyed_meta(self@, name@),
                cols@.len() == i,
                forall|k: int| 0 <= k < i ==> #[trigger] cols@[k]@ == want.columns[k],
            decreases self.columns.len() - i,
        {
            let mut c = self.columns[i].duplicate();
            c.id = ColumnMeta::generate_id(expected, c.name.as_str());
            cols.push(c);
            i = i + 1;
        }
        let t = TableMeta {
            id: expected,
            name: self.name.clone(),
            columns: cols,
            created_at: self.created_at,
            row_count: self.row_count,
        };
        proof {
            assert(t@.columns =~= want.columns);
        }
        Some(t)
    }
}

/// Giving a definition the ids of its name twice changes nothing the second
/// time: the ids a name gives are always the same.
pub proof fn law_rekey_settles(t: SpecTableMeta, name: Seq<char>)
    ensures
        rekeyed_meta(t, name).id == spec_table_id(name),
        rekeyed_meta(rekeyed_meta(t, name), name) == rekeyed_meta(t, name),
{
    let r = rekeyed_meta(t, name);
    assert(rekeyed_meta(r, name).columns =~= r.columns);
}

// ----- column files -----
//
// A column file holds one record per row: the value's length as a
// little-endian u32, then the value's bytes.

/// The record of one value.
pub open spec fn record(v: Seq<u8>) -> Seq<u8> {
    le_u32(v.len() as u32) + v
}

/// The records of values written one after the other.
pub open spec fn records(vs: Seq<Seq<u8>>) -> Seq<u8>
    decreases vs.len(),
{
    if vs.len() == 0 {
        Seq::empty()
    } else {
        record(vs[0]) + records(vs.drop_first())
    }
}

/// Position after skipping `k` records from `pos`; `None` where a length runs off the end.
pub open spec fn skip_records(bytes: Seq<u8>, pos: int, k: nat) -> Option<int>
    decreases k,
{
    if k == 0 {
        Some(pos)
    } else if pos + 4 > bytes.len() {
        None
    } else {
        skip_records(bytes, pos + 4 + u32_le(bytes.subrange(pos, pos + 4)), (k - 1) as nat)
    }
}

/// The value of row `row_index` of a column file; `None` where the file ends first.
pub open spec fn read_record(bytes: Seq<u8>, row_index: nat) -> Option<Seq<u8>> {
    match skip_records(bytes, 0, row_index) {
        Some(pos) => if pos + 4 > bytes.len() {
            None
        } else {
            let l = u32_le(bytes.subrange(pos, pos + 4));
            if pos + 4 + l > bytes.len() {
                None
            } else {
                Some(bytes.subrange(pos + 4, pos + 4 + l))
            }
        },
        None => None,
    }
}

/// Reads the value of row `row_index` out of the bytes of a column file.
pub fn read_column_record(bytes: &[u8], row_index: u64) -> (r: Option<Vec<u8>>)
    ensures
        match r {
            Some(v) => read_record(bytes@, row_index as nat) == Some(v@),
            None => read_record(bytes@, row_index as nat) is None,
        },
{
    let n = bytes.len();
    let mut pos: u128 = 0;
    let mut k: u64 = 0;
    while k < row_index
        invariant
            n == bytes@.len(),
            k <= row_index,
            pos <= n,
            skip_records(bytes@, 0, row_index as nat) == skip_records(
                bytes@,
                pos as int,
                (row_index - k) as nat,
            ),
        decreases row_index - k,
    {
        if pos + 4 > n as u128 {
            return None;
        }
        let p = pos as usize;
        let l = u32_from_le(bytes, p);
        let next = pos + 4 + l as u128;
        if next > n as u128 {
            // every further length read fails: the file ends first
            proof {
                lemma_skip_past_end(bytes@, next as int, (row_index - k - 1) as nat);
            }
            return None;
        }
        pos = next;
        k = k + 1;
    }
    if pos + 4 > n as u128 {
        return None;
    }
    let p = pos as usize;
    let l = u32_from_le(bytes, p) as usize;
    if pos + 4 + l as u128 > n as u128 {
        return None;
    }
    let mut v: Vec<u8> = Vec::new();
    let mut i: usize = p + 4;
    while i < p + 4 + l
        invariant
            p + 4 + l <= n == bytes@.len(),
            p + 4 <= i <= p + 4 + l,
            v@ == bytes@.subrange(p + 4, i as int),
        decreases p + 4 + l - i,
    {
        v.push(bytes[i]);
        proof {
            assert(v@ =~= bytes@.subrange(p + 4, i + 1));
        }
        i = i + 1;
    }
    Some(v)
}

/// Skipping from past the end fails, unless nothing is skipped.
pub proof fn lemma_skip_past_end(bytes: Seq<u8>, pos: int, k: nat)
    requires
        pos > bytes.len(),
    ensures
        skip_records(bytes, pos, k) == (if k == 0 { Some(pos) } else { None::<int> }),
    decreases k,
{
}


pub open spec fn all_fit_u32(vs: Seq<Seq<u8>>) -> bool {
    forall|j: int| 0 <= j < vs.len() ==> #[trigger] vs[j].len() <= u32::MAX
}

proof fn lemma_records_concat(a: Seq<Seq<u8>>, b: Seq<Seq<u8>>)
    ensures
        records(a + b) == records(a) + records(b),
    decreases a.len(),
{
    if a.len() == 0 {
        assert(a + b =~= b);
        assert(records(a) + records(b) =~= records(b));
    } else {
        assert((a + b).drop_first() =~= a.drop_first() + b);
        assert((a + b)[0] == a[0]);
        lemma_records_concat(a.drop_first(), b);
        assert(records(a + b) =~= records(a) + records(b));
    }
}

proof fn lemma_record_length(v: Seq<u8>)
    requires
        v.len() <= u32::MAX,
    ensures
        u32_le(record(v).subrange(0, 4)) == v.len(),
        record(v).subrange(4, 4 + v.len() as int) == v,
        record(v).len() == 4 + v.len(),
{
    let x = v.len() as u32;
    lemma_le_u32_roundtrip(x);
    assert(record(v).subrange(0, 4) =~= le_u32(x));
    assert(record(v).subrange(4, 4 + v.len() as int) =~= v);
}

proof fn lemma_skip_written(bytes: Seq<u8>, pos: int, vs: Seq<Seq<u8>>, k: nat)
    requires
        0 <= pos,
        pos + records(vs).len() <= bytes.len(),
        bytes.subrange(pos, pos + records(vs).len()) == records(vs),
        all_fit_u32(vs),
        k <= vs.len(),
    ensures
        skip_records(bytes, pos, k) == Some(pos + records(vs.take(k as int)).len()),
    decreases k,
{
    if k == 0 {
        assert(vs.take(0) =~= Seq::<Seq<u8>>::empty());
    } else {
        let v0 = vs[0];
        let rest = vs.drop_first();
        lemma_record_length(v0);
        let rec = record(v0);
        assert(records(vs) == rec + records(rest));
        assert(bytes.subrange(pos, pos + 4) =~= rec.subrange(0, 4));
        let next = pos + 4 + v0.len();
        assert forall|j: int| 0 <= j < records(rest).len() implies bytes.subrange(
            next,
            next + records(rest).len(),
        )[j] == records(rest)[j] by {
            assert(bytes[next + j] == bytes.subrange(pos, pos + records(vs).len())[rec.len() + j]);
            assert(records(vs)[rec.len() + j] == records(rest)[j]);
        }
        assert(bytes.subrange(next, next + records(rest).len()) =~= records(rest));
        assert(all_fit_u32(rest)) by {
            assert forall|j: int| 0 <= j < rest.len() implies #[trigger] rest[j].len() <= u32::MAX by {
                assert(rest[j] == vs[j + 1]);
            }
        }
        lemma_skip_written(bytes, next, rest, (k - 1) as nat);
        assert(vs.take(k as int).drop_first() =~= rest.take(k - 1));
        assert(vs.take(k as int)[0] == v0);
        assert(records(vs.take(k as int)) == rec + records(rest.take(k - 1)));
    }
}

/// Reading row `i` of a column file written as the records of `vs` gives back `vs[i]`.
pub proof fn lemma_read_back_written(vs: Seq<Seq<u8>>, i: int)
    requires
        all_fit_u32(vs),
        0 <= i < vs.len(),
    ensures
        read_record(records(vs), i as nat) == Some(vs[i]),
{
    let bytes = records(vs);
    assert(bytes.subrange(0, bytes.len() as int) =~= bytes);
    lemma_skip_written(bytes, 0, vs, i as nat);
    let p = records(vs.take(i)).len() as int;
    assert(vs =~= vs.take(i) + vs.skip(i));
    lemma_records_concat(vs.take(i), vs.skip(i));
    let tail = records(vs.skip(i));
    assert(tail == record(vs[i]) + records(vs.skip(i).drop_first()));
    lemma_record_length(vs[i]);
    assert(bytes.subrange(p, p + 4) =~= record(vs[i]).subrange(0, 4));
    assert(bytes.subrange(p + 4, p + 4 + vs[i].len() as int) =~= vs[i]);
}

/// Reading the row just past the last one written finds no value.
pub proof fn lemma_read_past_written(vs: Seq<Seq<u8>>)
    requires
        all_fit_u32(vs),
    ensures
        read_record(records(vs), vs.len()) is None,
{
    let bytes = records(vs);
    assert(bytes.subrange(0, bytes.len() as int) =~= bytes);
    lemma_skip_written(bytes, 0, vs, vs.len());
    assert(vs.take(vs.len() as int) =~= vs);
}


// ----- planning an insert -----

/// Index of the first column named `name`, searching from `i`.
pub open spec fn find_column_from(cols: Seq<SpecColumnMeta>, name: Seq<char>, i: int) -> Option<int>
    decreases cols.len() - i,
{
    if i < 0 || i >= cols.len() {
        None
    } else if cols[i].name == name {
        Some(i)
    } else {
        find_column_from(cols, name, i + 1)
    }
}

pub open spec fn find_column(cols: Seq<SpecColumnMeta>, name: Seq<char>) -> Option<int> {
    find_column_from(cols, name, 0)
}

/// Finds the first column of `meta` named `name`.
pub fn find_column_index(meta: &TableMeta, name: &String) -> (r: Option<usize>)
    ensures
        match r {
            Some(k) => find_column(meta@.columns, name@) == Some(k as int) && k < meta.columns@.len(),
            None => find_column(meta@.columns, name@) is None,
        },
{
    let mut i: usize = 0;
    while i < meta.columns.len()
        invariant
            i <= meta.columns.len(),
            find_column(meta@.columns, name@) == find_column_from(meta@.columns, name@, i as int),
        decreases meta.columns.len() - i,
    {
        if meta.columns[i].name == *name {
            return Some(i);
        }
        i = i + 1;
    }
    None
}

/// One value to append to a column file: the column's name and the record.
#[derive(Debug)]
pub struct ColumnWrite {
    pub column: String,
    pub record: Vec<u8>,
}

/// How reading one cell of an insert ends.
pub enum SpecCell {
    Write(Seq<char>, Seq<u8>),
    Missing(Seq<char>),
    Unreadable(DataType),
    Short,
}

/// How an insert ends.
pub enum SpecInsertEnd {
    Done,
    Missing(Seq<char>),
    Unreadable(DataType),
    Short,
}

/// Cell `(r, c)`: the column is looked up first, then the value taken from
/// the row (a row shorter than the column list has no value there), then encoded.
pub open spec fn insert_cell(
    meta: SpecTableMeta,
    names: Seq<Seq<char>>,
    rows: Seq<Seq<Seq<char>>>,
    fbs: Seq<Seq<Option<u64>>>,
    r: int,
    c: int,
) -> SpecCell {
    match find_column(meta.columns, names[c]) {
        None => SpecCell::Missing(names[c]),
        Some(k) => if c >= rows[r].len() {
            SpecCell::Short
        } else {
            let dt = meta.columns[k].data_type;
            match encoded(rows[r][c], dt, fbs[r][c]) {
                Some(b) => SpecCell::Write(names[c], record(b)),
                None => SpecCell::Unreadable(dt),
            }
        },
    }
}

/// The appends an insert makes from cell `(r, c)` on, row by row and column by
/// column, and how it ends: at the first cell that cannot be written.
pub open spec fn insert_writes(
    meta: SpecTableMeta,
    names: Seq<Seq<char>>,
    rows: Seq<Seq<Seq<char>>>,
    fbs: Seq<Seq<Option<u64>>>,
    r: int,
    c: int,
) -> (Seq<(Seq<char>, Seq<u8>)>, SpecInsertEnd)
    decreases rows.len() - r, names.len() - c,
{
    if r < 0 || r >= rows.len() {
        (Seq::empty(), SpecInsertEnd::Done)
    } else if c < 0 || c >= names.len() {
        insert_writes(meta, names, rows, fbs, r + 1, 0)
    } else {
        match insert_cell(meta, names, rows, fbs, r, c) {
            SpecCell::Write(n, b) => {
                let t = insert_writes(meta, names, rows, fbs, r, c + 1);
                (seq![(n, b)] + t.0, t.1)
            },
            SpecCell::Missing(n) => (Seq::empty(), SpecInsertEnd::Missing(n)),
            SpecCell::Unreadable(dt) => (Seq::empty(), SpecInsertEnd::Unreadable(dt)),
            SpecCell::Short => (Seq::empty(), SpecInsertEnd::Short),
        }
    }
}

pub open spec fn writes_view(v: Seq<ColumnWrite>) -> Seq<(Seq<char>, Seq<u8>)> {
    v.map_values(|w: ColumnWrite| (w.column@, w.record@))
}

pub open spec fn float_bits_view(v: Seq<Vec<Option<u64>>>) -> Seq<Seq<Option<u64>>> {
    v.map_values(|r: Vec<Option<u64>>| r@)
}

pub open spec fn parse_failure_message(dt: DataType) -> Seq<char> {
    if dt == DataType::Integer {
        "Failed to parse integer value"@
    } else {
        "Failed to parse float value"@
    }
}

/// The error an insert reports for how it ended.
pub open spec fn insert_error_matches(e: Option<Error>, end: SpecInsertEnd) -> bool {
    match end {
        SpecInsertEnd::Done => e is None,
        SpecInsertEnd::Missing(n) => e matches Some(Error::Table(TableError::ColumnNotFound(m)))
            && m@ == n,
        SpecInsertEnd::Unreadable(dt) => e matches Some(Error::Value(ValueError::ParseError(m)))
            && m@ == parse_failure_message(dt),
        SpecInsertEnd::Short => e is None,
    }
}

/// The column-file appends that inserting `values` into the columns `column_names`
/// of `table_meta` makes, in order, and how it stops: with the error of the first
/// cell that cannot be written, or (the last part `true`) at the first row too
/// short for the column list. Appends made before the stop stay made.
///
/// `float_bits[r][c]` is `values[r][c]` read as an `f64` (see `SingleValue::encode_value`).
pub fn plan_insert(
    table_meta: &TableMeta,
    column_names: &Vec<String>,
    values: &Vec<Vec<String>>,
    float_bits: &Vec<Vec<Option<u64>>>,
) -> (r: (Vec<ColumnWrite>, Option<Error>, bool))
    requires
        float_bits@.len() == values@.len(),
        forall|i: int| 0 <= i < values@.len() ==> #[trigger] float_bits@[i]@.len() == values@[i]@.len(),
    ensures
        writes_view(r.0@) == insert_writes(
            table_meta@,
            crate::stmt::strings_view(column_names@),
            crate::stmt::rows_view(values@),
            float_bits_view(float_bits@),
            0,
            0,
        ).0,
        insert_error_matches(
            r.1,
            insert_writes(
                table_meta@,
                crate::stmt::strings_view(column_names@),
                crate::stmt::rows_view(values@),
                float_bits_view(float_bits@),
                0,
                0,
            ).1,
        ),
        r.2 == (insert_writes(
            table_meta@,
            crate::stmt::strings_view(column_names@),
            crate::stmt::rows_view(values@),
            float_bits_view(float_bits@),
            0,
            0,
        ).1 == SpecInsertEnd::Short),
{
    let ghost meta = table_meta@;
    let ghost names = crate::stmt::strings_view(column_names@);
    let ghost rows = crate::stmt::rows_view(values@);
    let ghost fbs = float_bits_view(float_bits@);
    let ghost whole = insert_writes(meta, names, rows, fbs, 0, 0);
    let mut acc: Vec<ColumnWrite> = Vec::new();
    let mut r: usize = 0;
    proof {
        assert(writes_view(acc@) + whole.0 =~= whole.0);
    }
    while r < values.len()
        invariant
            r <= values.len(),
            meta == table_meta@,
            names == crate::stmt::strings_view(column_names@),
            rows == crate::stmt::rows_view(values@),
            fbs == float_bits_view(float_bits@),
            float_bits@.len() == values@.len(),
            forall|i: int| 0 <= i < values@.len() ==> #[trigger] float_bits@[i]@.len() == values@[i]@.len(),
            whole == insert_writes(meta, names, rows, fbs, 0, 0),
            whole.0 == writes_view(acc@) + insert_writes(meta, names, rows, fbs, r as int, 0).0,
            whole.1 == insert_writes(meta, names, rows, fbs, r as int, 0).1,
        decreases values.len() - r,
    {
        let mut c: usize = 0;
        while c < column_names.len()
            invariant
                r < values.len(),
                c <= column_names.len(),
                meta == table_meta@,
                names == crate::stmt::strings_view(column_names@),
                rows == crate::stmt::rows_view(values@),
                fbs == float_bits_view(float_bits@),
                float_bits@.len() == values@.len(),
                forall|i: int| 0 <= i < values@.len() ==> #[trigger] float_bits@[i]@.len() == values@[i]@.len(),
                whole == insert_writes(meta, names, rows, fbs, 0, 0),
                whole.0 == writes_view(acc@) + insert_writes(meta, names, rows, fbs, r as int, c as int).0,
                whole.1 == insert_writes(meta, names, rows, fbs, r as int, c as int).1,
            decreases column_names.len() - c,
        {
            let ghost here = insert_writes(meta, names, rows, fbs, r as int, c as int);
            let name = &column_names[c];
            proof {
                assert(names[c as int] == name@);
                assert(rows.len() == values@.len());
            }
            let k = match find_column_index(table_meta, name) {
                Some(k) => k,
                None => {
                    proof {
                        assert(names.len() == column_names@.len());
                        assert(insert_cell(meta, names, rows, fbs, r as int, c as int) == SpecCell::Missing(name@));
                        assert(here.0 == Seq::<(Seq<char>, Seq<u8>)>::empty());
                        assert(writes_view(acc@) + Seq::empty() =~= writes_view(acc@));
                    }
                    return (acc, Some(Error::Table(TableError::ColumnNotFound(name.clone()))), false);
                },
            };
            let dt = table_meta.columns[k].data_type;
            let row = &values[r];
            proof {
                assert(rows[r as int] == row@.map_values(|x: String| x@));
            }
            if c >= row.len() {
                proof {
                    assert(here.1 == SpecInsertEnd::Short);
                    assert(here.0 == Seq::<(Seq<char>, Seq<u8>)>::empty());
                    assert(writes_view(acc@) + Seq::empty() =~= writes_view(acc@));
                }
                return (acc, None, true);
            }
            let cell = &row[c];
            let fb = float_bits[r][c];
            match SingleValue::encode_value(cell.as_str(), &dt, fb) {
                Ok(v) => {
                    let mut rec = u32_to_le(v.len() as u32);
                    let bytes = v.as_ref();
                    let mut j: usize = 0;
                    let ghost head = rec@;
                    while j < bytes.len()
                        invariant
                            j <= bytes.len(),
                            head == le_u32(bytes@.len() as u32),
                            rec@ == head + bytes@.take(j as int),
                        decreases bytes.len() - j,
                    {
                        rec.push(bytes[j]);
                        proof {
                            assert(rec@ =~= head + bytes@.take(j + 1));
                        }
                        j = j + 1;
                    }
                    proof {
                        assert(bytes@.take(bytes.len() as int) =~= bytes@);
                    }
                    let w = ColumnWrite { column: name.clone(), record: rec };
                    let ghost prev = acc@;
                    let ghost wv = (w.column@, w.record@);
                    acc.push(w);
                    proof {
                        let t = insert_writes(meta, names, rows, fbs, r as int, c + 1);
                        assert(writes_view(acc@) =~= writes_view(prev).push(wv));
                        assert(writes_view(prev) + (seq![wv] + t.0) =~= writes_view(acc@) + t.0);
                    }
                },
                Err(e) => {
                    proof {
                        assert(writes_view(acc@) + Seq::empty() =~= writes_view(acc@));
                    }
                    return (acc, Some(Error::Value(e)), false);
                },
            }
            c = c + 1;
        }
        r = r + 1;
    }
    proof {
        assert(writes_view(acc@) + Seq::empty() =~= writes_view(acc@));
    }
    (acc, None, false)
}

// ----- what an insert leaves in the column files -----

/// The records appended to the column file of `name`, in order.
pub open spec fn appended(ws: Seq<(Seq<char>, Seq<u8>)>, name: Seq<char>) -> Seq<u8>
    decreases ws.len(),
{
    if ws.len() == 0 {
        Seq::empty()
    } else {
        (if ws[0].0 == name { ws[0].1 } else { Seq::empty() }) + appended(ws.drop_first(), name)
    }
}

/// The stored form of cell `(r, c)` of an insert.
pub open spec fn cell_value(
    meta: SpecTableMeta,
    names: Seq<Seq<char>>,
    rows: Seq<Seq<Seq<char>>>,
    fbs: Seq<Seq<Option<u64>>>,
    r: int,
    c: int,
) -> Seq<u8> {
    let k = find_column(meta.columns, names[c])->0;
    encoded(rows[r][c], meta.columns[k].data_type, fbs[r][c])->0
}

/// The stored forms of column `c` of rows `from ..` of an insert.
pub open spec fn column_values(
    meta: SpecTableMeta,
    names: Seq<Seq<char>>,
    rows: Seq<Seq<Seq<char>>>,
    fbs: Seq<Seq<Option<u64>>>,
    c: int,
    from: int,
) -> Seq<Seq<u8>> {
    Seq::new((rows.len() - from) as nat, |k: int| cell_value(meta, names, rows, fbs, from + k, c))
}

/// What the insert from cell `(r, at)` on appends to the file of column `c`.
spec fn appended_from(
    meta: SpecTableMeta,
    names: Seq<Seq<char>>,
    rows: Seq<Seq<Seq<char>>>,
    fbs: Seq<Seq<Option<u64>>>,
    c: int,
    r: int,
    at: int,
) -> Seq<u8> {
    if r >= rows.len() {
        Seq::empty()
    } else {
        (if at <= c { record(cell_value(meta, names, rows, fbs, r, c)) } else { Seq::empty() })
            + records(column_values(meta, names, rows, fbs, c, r + 1))
    }
}

proof fn lemma_appended_from(
    meta: SpecTableMeta,
    names: Seq<Seq<char>>,
    rows: Seq<Seq<Seq<char>>>,
    fbs: Seq<Seq<Option<u64>>>,
    c: int,
    r: int,
    at: int,
)
    requires
        names.no_duplicates(),
        0 <= c < names.len(),
        0 <= r <= rows.len(),
        0 <= at <= names.len(),
        insert_writes(meta, names, rows, fbs, r, at).1 == SpecInsertEnd::Done,
    ensures
        appended(insert_writes(meta, names, rows, fbs, r, at).0, names[c]) == appended_from(
            meta,
            names,
            rows,
            fbs,
            c,
            r,
            at,
        ),
    decreases rows.len() - r, names.len() - at,
{
    if r >= rows.len() {
    } else if at >= names.len() {
        lemma_appended_from(meta, names, rows, fbs, c, r + 1, 0);
        let vs = column_values(meta, names, rows, fbs, c, r + 1);
        if r + 1 < rows.len() {
            assert(vs[0] == cell_value(meta, names, rows, fbs, r + 1, c));
            assert(vs.drop_first() =~= column_values(meta, names, rows, fbs, c, r + 2));
        } else {
            assert(vs =~= Seq::<Seq<u8>>::empty());
        }
        assert(appended_from(meta, names, rows, fbs, c, r, at) =~= Seq::<u8>::empty() + records(vs));
    } else {
        let t = insert_writes(meta, names, rows, fbs, r, at + 1);
        match insert_cell(meta, names, rows, fbs, r, at) {
            SpecCell::Write(n, b) => {
                lemma_appended_from(meta, names, rows, fbs, c, r, at + 1);
                let ws = seq![(n, b)] + t.0;
                assert(ws.drop_first() =~= t.0);
                assert(ws[0] == (n, b));
                assert(n == names[at]);
                if at == c {
                    assert(b == record(cell_value(meta, names, rows, fbs, r, c)));
                    assert(appended(ws, names[c]) =~= b + appended(t.0, names[c]));
                    assert(appended_from(meta, names, rows, fbs, c, r, at) =~= b
                        + appended_from(meta, names, rows, fbs, c, r, at + 1));
                } else {
                    assert(names[at] != names[c]);
                    assert(appended(ws, names[c]) =~= Seq::<u8>::empty() + appended(t.0, names[c]));
                }
            },
            _ => {},
        }
    }
}

/// A read gives back what an insert wrote: after an insert that ends without
/// error appends to a column file holding the rows `old`, the file holds the
/// rows `old` and then the inserted values of that column, so reading row
/// `old.len() + r` gives the stored form of cell `(r, c)`, and the rows before
/// read as they did.
pub proof fn law_insert_reads_back(
    meta: SpecTableMeta,
    names: Seq<Seq<char>>,
    rows: Seq<Seq<Seq<char>>>,
    fbs: Seq<Seq<Option<u64>>>,
    old: Seq<Seq<u8>>,
    c: int,
)
    requires
        names.no_duplicates(),
        0 <= c < names.len(),
        insert_writes(meta, names, rows, fbs, 0, 0).1 == SpecInsertEnd::Done,
        all_fit_u32(old),
        all_fit_u32(column_values(meta, names, rows, fbs, c, 0)),
    ensures
        records(old) + appended(insert_writes(meta, names, rows, fbs, 0, 0).0, names[c]) == records(
            old + column_values(meta, names, rows, fbs, c, 0),
        ),
        forall|r: int|
            0 <= r < rows.len() ==> read_record(
                records(old) + appended(insert_writes(meta, names, rows, fbs, 0, 0).0, names[c]),
                (old.len() + r) as nat,
            ) == Some(cell_value(meta, names, rows, fbs, r, c)),
        forall|i: int|
            0 <= i < old.len() ==> read_record(
                records(old) + appended(insert_writes(meta, names, rows, fbs, 0, 0).0, names[c]),
                i as nat,
            ) == Some(old[i]),
{
    let vs = column_values(meta, names, rows, fbs, c, 0);
    lemma_appended_from(meta, names, rows, fbs, c, 0, 0);
    if rows.len() > 0 {
        assert(vs[0] == cell_value(meta, names, rows, fbs, 0, c));
        assert(vs.drop_first() =~= column_values(meta, names, rows, fbs, c, 1));
    } else {
        assert(vs =~= Seq::<Seq<u8>>::empty());
    }
    assert(appended(insert_writes(meta, names, rows, fbs, 0, 0).0, names[c]) == records(vs));
    lemma_records_concat(old, vs);
    let all = old + vs;
    assert(all_fit_u32(all)) by {
        assert forall|j: int| 0 <= j < all.len() implies #[trigger] all[j].len() <= u32::MAX by {
            if j < old.len() {
                assert(all[j] == old[j]);
            } else {
                assert(all[j] == vs[j - old.len()]);
            }
        }
    }
    assert forall|r: int| 0 <= r < rows.len() implies read_record(records(all), (old.len() + r) as nat)
        == Some(cell_value(meta, names, rows, fbs, r, c)) by {
        lemma_read_back_written(all, old.len() + r);
        assert(all[old.len() + r] == vs[r]);
    }
    assert forall|i: int| 0 <= i < old.len() implies read_record(records(all), i as nat) == Some(old[i]) by {
        lemma_read_back_written(all, i);
        assert(all[i] == old[i]);
    }
}

} // verus!
