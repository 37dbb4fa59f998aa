use lishdb::cache::{CacheManager, SingleCache};
use lishdb::catalog::CatalogManager;
use lishdb::error::{Error, TableError, ValueError};
use lishdb::index::{Index, IndexDef, IndexType, MemoryIndex};
use lishdb::storage::{plan_insert, read_column_record, ColumnMeta, TableMeta};
use lishdb::table::{ColumnAbstract, RowId, TableAbstract, ValueId};
use lishdb::value::{DataType, SingleValue};

fn column(name: &str, data_type: DataType) -> ColumnMeta {
    ColumnMeta { id: 0, name: name.into(), data_type, nullable: false, primary_key: false, default_value: None }
}

fn record(bytes: &[u8]) -> Vec<u8> {
    let mut r = (bytes.len() as u32).to_le_bytes().to_vec();
    r.extend_from_slice(bytes);
    r
}

#[test]
fn ids_come_from_names() {
    let a = TableMeta::generate_id("users");
    assert_eq!(a, TableMeta::generate_id("users"));
    assert_ne!(a, TableMeta::generate_id("orders"));
    let c = ColumnMeta::generate_id(a, "id");
    assert_eq!(c, ColumnMeta::generate_id(a, "id"));
    assert_ne!(c, ColumnMeta::generate_id(a, "name"));
    assert_ne!(c, ColumnMeta::generate_id(a + 1, "id"));
}

#[test]
fn new_table_gets_ids_and_no_rows() {
    let mut keep = column("b", DataType::Text);
    keep.id = 77;
    let t = TableMeta::new("t".into(), vec![column("a", DataType::Integer), keep], 1_700_000_000);
    assert_eq!(t.id, TableMeta::generate_id("t"));
    assert_eq!(t.columns[0].id, ColumnMeta::generate_id(t.id, "a"));
    assert_eq!(t.columns[1].id, 77);
    assert_eq!(t.row_count, 0);
    assert_eq!(t.created_at, 1_700_000_000);
    let at = TableMeta::new("t".into(), vec![], 5);
    assert_eq!(at.created_at, 5);
}

#[test]
fn rekeying_a_definition() {
    let mut t = TableMeta::new("old".into(), vec![column("a", DataType::Integer)], 1);
    assert!(t.rekeyed("old").is_none());
    let r = t.rekeyed("new").unwrap();
    assert_eq!(r.id, TableMeta::generate_id("new"));
    assert_eq!(r.columns[0].id, ColumnMeta::generate_id(r.id, "a"));
    assert_eq!(r.name, "old");
    assert!(r.rekeyed("new").is_none());
    t.id = 3;
    assert!(t.rekeyed("old").is_some());
}

#[test]
fn column_file_records_read_back() {
    let mut file = Vec::new();
    for v in [&b"abc"[..], &b""[..], &[1u8, 2, 3, 4, 5][..]] {
        file.extend(record(v));
    }
    assert_eq!(read_column_record(&file, 0), Some(b"abc".to_vec()));
    assert_eq!(read_column_record(&file, 1), Some(vec![]));
    assert_eq!(read_column_record(&file, 2), Some(vec![1, 2, 3, 4, 5]));
    assert_eq!(read_column_record(&file, 3), None);
    // a record cut short is not read
    assert_eq!(read_column_record(&file[..file.len() - 1], 2), None);
    assert_eq!(read_column_record(&[], 0), None);
}

#[test]
fn planning_an_insert() {
    let meta = TableMeta::new("t".into(), vec![column("id", DataType::Integer), column("name", DataType::Text)], 0);
    let names = vec!["name".to_string(), "id".to_string()];
    let values = vec![vec!["ann".to_string(), "7".to_string()], vec!["bo".to_string(), "8".to_string()]];
    let bits = vec![vec![None, None], vec![None, None]];
    let (writes, err, short) = plan_insert(&meta, &names, &values, &bits);
    assert!(err.is_none());
    assert!(!short);
    let got: Vec<(String, Vec<u8>)> = writes.into_iter().map(|w| (w.column, w.record)).collect();
    assert_eq!(
        got,
        vec![
            ("name".to_string(), record(b"ann")),
            ("id".to_string(), record(&[7, 0, 0, 0])),
            ("name".to_string(), record(b"bo")),
            ("id".to_string(), record(&[8, 0, 0, 0])),
        ]
    );
}

#[test]
fn insert_stops_at_the_first_bad_cell() {
    let meta = TableMeta::new("t".into(), vec![column("id", DataType::Integer)], 0);
    let values = vec![vec!["1".to_string()], vec!["x".to_string()], vec!["3".to_string()]];
    let bits = vec![vec![None], vec![None], vec![None]];
    let (writes, err, _) = plan_insert(&meta, &vec!["id".to_string()], &values, &bits);
    assert_eq!(writes.len(), 1);
    assert!(matches!(err, Some(Error::Value(ValueError::ParseError(ref m))) if m == "Failed to parse integer value"));
    let (writes, err, _) = plan_insert(&meta, &vec!["nope".to_string()], &values, &bits);
    assert!(writes.is_empty());
    assert!(matches!(err, Some(Error::Table(TableError::ColumnNotFound(ref n))) if n == "nope"));
}

#[test]
fn insert_stops_at_a_short_row() {
    let meta = TableMeta::new("t".into(), vec![column("a", DataType::Integer), column("b", DataType::Integer)], 0);
    let names = vec!["a".to_string(), "b".to_string()];
    let values = vec![vec!["1".to_string(), "2".to_string()], vec!["3".to_string()]];
    let bits = vec![vec![None, None], vec![None]];
    let (writes, err, short) = plan_insert(&meta, &names, &values, &bits);
    assert_eq!(writes.len(), 3);
    assert!(err.is_none());
    assert!(short);
}

#[test]
fn catalog_lookups() {
    let t = TableMeta::new("t".into(), vec![column("a", DataType::Integer)], 0);
    let id = t.id;
    let col_id = t.columns[0].id;
    let mut cat = CatalogManager::new(vec![t]);
    assert!(cat.has_table("t"));
    assert!(!cat.has_table("u"));
    assert!(cat.rows_countable());
    assert_eq!(cat.get_table_name_by_id(id), Some("t".to_string()));
    assert_eq!(cat.get_table_name_by_id(id.wrapping_add(1)), None);
    let c = cat.get_column_by_ids(id, col_id).unwrap();
    assert_eq!((c.name.as_str(), c.table_name.as_str(), c.data_type), ("a", "t", DataType::Integer));
    assert!(cat.get_column_by_ids(id, col_id.wrapping_add(1)).is_none());
    let mut updated = cat.get_table_meta("t").unwrap();
    updated.row_count = 4;
    cat.update_table_meta(updated).unwrap();
    assert_eq!(cat.get_table_meta("t").unwrap().row_count, 4);
    let missing = TableMeta::new("zz".into(), vec![], 0);
    assert!(matches!(cat.update_table_meta(missing), Err(Error::Table(TableError::TableNotFound(ref n))) if n == "zz"));
}

#[test]
fn cache_evicts_the_least_recently_used_value() {
    let mut cache = SingleCache::new(2);
    let v = |b: u8| SingleValue::new(vec![b], DataType::Blob);
    assert!(cache.insert(ValueId::new(1, 0, 0), v(1)).is_none());
    assert_eq!(cache.insert(ValueId::new(1, 0, 0), v(2)), Some(v(1)));
    assert!(cache.insert(ValueId::new(1, 1, 0), v(3)).is_none());
    // a lookup makes row 0 the most recently used
    assert_eq!(cache.get(&ValueId::new(1, 0, 0)), Some(&v(2)));
    // full: row 1, the least recently used, makes room for row 2
    assert!(cache.insert(ValueId::new(1, 2, 0), v(4)).is_none());
    assert_eq!(cache.peek(&ValueId::new(1, 1, 0)), None);
    assert_eq!(cache.peek(&ValueId::new(1, 0, 0)), Some(&v(2)));
    assert_eq!(cache.peek(&ValueId::new(1, 2, 0)), Some(&v(4)));
    // row 0 is now the least recently used: it goes next
    assert!(cache.insert(ValueId::new(1, 3, 0), v(5)).is_none());
    assert_eq!(cache.peek(&ValueId::new(1, 0, 0)), None);
    assert_eq!(cache.peek(&ValueId::new(1, 2, 0)), Some(&v(4)));
    assert_eq!(cache.peek(&ValueId::new(1, 3, 0)), Some(&v(5)));
    let mut zero = SingleCache::new(0);
    zero.insert(ValueId::new(0, 0, 0), v(9));
    assert_eq!(zero.get(&ValueId::new(0, 0, 0)), Some(&v(9)));
}

#[test]
fn cache_reads_through_to_stored_values() {
    let mut cache = CacheManager::default();
    let h = ValueId::new(0, 0, 0);
    let v = |b: u8| SingleValue::new(vec![b], DataType::Blob);
    // neither cached nor stored
    assert!(cache.get_row(&h, None).is_none());
    assert!(!cache.has_row(&h));
    // a miss gives the stored value and keeps it
    assert_eq!(cache.get_row(&h, Some(v(7))), Some(v(7)));
    assert!(cache.has_row(&h));
    // a hit gives the cached value, whatever is handed in
    assert_eq!(cache.get_row(&h, Some(v(8))), Some(v(7)));
    assert_eq!(cache.get_row(&h, None), Some(v(7)));
    assert_eq!(cache.peek_row(&h), Some(&v(7)));
}

fn table(rows: &[u64]) -> TableAbstract {
    TableAbstract {
        columns: vec![
            ColumnAbstract { id: 1, name: "a".into(), table_name: "t".into(), data_type: DataType::Integer },
            ColumnAbstract { id: 2, name: "b".into(), table_name: "t".into(), data_type: DataType::Text },
        ],
        rows: rows.iter().map(|&r| RowId::new(5, r)).collect(),
    }
}

#[test]
fn table_set_operators() {
    let a = table(&[1, 2, 3]);
    let b = table(&[3, 4, 2]);
    let ids = |t: &TableAbstract| t.rows.iter().map(|r| r.row_id).collect::<Vec<_>>();
    assert_eq!(ids(&a.and(&b)), vec![2, 3]);
    assert_eq!(ids(&a.or(&b)), vec![1, 2, 3, 4]);
    assert_eq!(ids(&a.minus(&b)), vec![1]);
    assert_eq!(a.and(&b).columns.len(), 2);
    let p = a.project(&["b".to_string()]);
    assert_eq!(p.columns.len(), 1);
    assert_eq!(p.columns[0].name, "b");
    assert_eq!(ids(&p), vec![1, 2, 3]);
    assert_eq!(a.project(&["*".to_string()]).columns.len(), 2);
    assert_eq!(a.project(&[]).columns.len(), 0);
}

#[test]
fn actual_tables_read_their_values_through_the_cache() {
    let mut cache = CacheManager::default();
    let empty = table(&[]);
    assert!(empty.stored_fits(&cache, &vec![]));
    let actual = empty.to_actual(&mut cache, &vec![]);
    assert_eq!(actual.columns.len(), 2);
    assert!(actual.values.is_empty());

    let integer = |n: i32| SingleValue::new(n.to_le_bytes().to_vec(), DataType::Integer);
    let text = |s: &str| SingleValue::new(s.as_bytes().to_vec(), DataType::Text);
    let t = table(&[1, 2]);
    // a cell is missing
    assert!(!t.stored_fits(&cache, &vec![vec![Some(integer(1)), None], vec![Some(integer(2)), Some(text("y"))]]));
    // a row is missing
    assert!(!t.stored_fits(&cache, &vec![vec![Some(integer(1)), Some(text("x"))]]));
    let stored = vec![vec![Some(integer(1)), Some(text("x"))], vec![Some(integer(2)), Some(text("y"))]];
    assert!(t.stored_fits(&cache, &stored));
    let actual = t.to_actual(&mut cache, &stored);
    assert_eq!(actual.values, vec![vec![integer(1), text("x")], vec![integer(2), text("y")]]);
    // the values are cached now
    assert_eq!(cache.peek_row(&ValueId::new(5, 2, 2)), Some(&text("y")));
    // stored values that disagree with the cache do not fit
    let other = vec![vec![Some(integer(9)), Some(text("x"))], vec![Some(integer(2)), Some(text("y"))]];
    assert!(!table(&[1, 2]).stored_fits(&cache, &other));
}

fn index(unique: bool) -> MemoryIndex {
    MemoryIndex::new(IndexDef {
        name: "i".into(),
        table_name: "t".into(),
        column_name: "c".into(),
        index_type: IndexType::BTree,
        unique,
    })
}

#[test]
fn index_insert_lookup_delete() {
    let mut ix = index(false);
    assert_eq!((ix.name(), ix.table_name(), ix.column_name()), ("i", "t", "c"));
    assert_eq!(ix.index_type(), IndexType::BTree);
    ix.insert("k", 1).unwrap();
    ix.insert("k", 2).unwrap();
    ix.insert("j", 3).unwrap();
    assert_eq!(ix.lookup("k").unwrap(), vec![1, 2]);
    assert_eq!(ix.lookup("none").unwrap(), Vec::<u64>::new());
    ix.delete("k", 1).unwrap();
    assert_eq!(ix.lookup("k").unwrap(), vec![2]);
    ix.delete("k", 9).unwrap();
    ix.delete("k", 2).unwrap();
    assert_eq!(ix.lookup("k").unwrap(), Vec::<u64>::new());
    assert_eq!(ix.range_scan(None, None).unwrap(), vec![("j".to_string(), 3)]);
}

#[test]
fn unique_index_refuses_a_second_row() {
    let mut ix = index(true);
    ix.insert("k", 1).unwrap();
    match ix.insert("k", 2) {
        Err(Error::Index(lishdb::error::IndexError::IndexUniqueViolation(m))) => {
            assert_eq!(m, "唯一索引冲突: 键 'k' 已存在")
        },
        other => panic!("{:?}", other),
    }
    assert_eq!(ix.lookup("k").unwrap(), vec![1]);
    ix.delete("k", 1).unwrap();
    ix.insert("k", 2).unwrap();
    assert_eq!(ix.lookup("k").unwrap(), vec![2]);
}

#[test]
fn index_range_scan_in_key_order() {
    let mut ix = index(false);
    for (k, r) in [("pear", 1u64), ("apple", 2), ("fig", 3), ("apple", 4), ("zebra", 5), ("Apple", 6)] {
        ix.insert(k, r).unwrap();
    }
    let all = ix.range_scan(None, None).unwrap();
    let keys: Vec<(&str, u64)> = all.iter().map(|(k, r)| (k.as_str(), *r)).collect();
    assert_eq!(keys, vec![("Apple", 6), ("apple", 2), ("apple", 4), ("fig", 3), ("pear", 1), ("zebra", 5)]);
    let mid = ix.range_scan(Some("apple"), Some("pear")).unwrap();
    let keys: Vec<(&str, u64)> = mid.iter().map(|(k, r)| (k.as_str(), *r)).collect();
    assert_eq!(keys, vec![("apple", 2), ("apple", 4), ("fig", 3), ("pear", 1)]);
    assert!(ix.range_scan(Some("q"), Some("r")).unwrap().is_empty());
    let low = ix.range_scan(None, Some("b")).unwrap();
    assert_eq!(low.len(), 3);
}

#[test]
fn inserted_rows_read_back_from_their_column_files() {
    let meta = TableMeta::new("t".into(), vec![column("id", DataType::Integer), column("name", DataType::Text)], 0);
    let names = vec!["id".to_string(), "name".to_string()];
    let values = vec![vec!["5".to_string(), "eve".to_string()], vec!["-2".to_string(), "".to_string()]];
    let bits = vec![vec![None, None], vec![None, None]];
    let (writes, err, short) = plan_insert(&meta, &names, &values, &bits);
    assert!(err.is_none() && !short);
    // the name file held one row before the insert
    let mut name_file = record(b"old");
    let mut id_file = Vec::new();
    for w in &writes {
        match w.column.as_str() {
            "id" => id_file.extend_from_slice(&w.record),
            _ => name_file.extend_from_slice(&w.record),
        }
    }
    assert_eq!(read_column_record(&id_file, 0), Some(vec![5, 0, 0, 0]));
    assert_eq!(read_column_record(&id_file, 1), Some((-2i32).to_le_bytes().to_vec()));
    assert_eq!(read_column_record(&name_file, 0), Some(b"old".to_vec()));
    assert_eq!(read_column_record(&name_file, 1), Some(b"eve".to_vec()));
    assert_eq!(read_column_record(&name_file, 2), Some(vec![]));
    assert_eq!(read_column_record(&name_file, 3), None);
}
