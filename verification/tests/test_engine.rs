use lishdb::cache::CacheManager;
use lishdb::catalog::CatalogManager;
use lishdb::error::{Error, ExecutionError, ParserError, TableError};
use lishdb::executor::{
    execute_plan, generate_create_plan, generate_drop_plan, generate_execution_plan, generate_select_plan,
    storage_action, ExecutionResult, StorageAction,
};
use lishdb::expression::{BinaryExpr, BinaryOp, ConstantExpr, Expr, ExprNode, IdentifierExpr, InExpr};
use lishdb::optimizer::{evaluate_constant_binary_op, optimize_stmt};
use lishdb::parser::{leading_stmt_type, parse_sql, parse_sql_stmt};
use lishdb::stmt::{ColumnConstraint, ColumnStmt, CreateStmt, DropStmt, SelectStmt, Stmt, StmtType, TableStmt};
use lishdb::storage::{ColumnMeta, TableMeta};
use lishdb::table::ValueId;
use lishdb::value::{DataType, SingleValue};
use lishdb::{error_reply, into_handle_result, is_supported, plan_sql, HandleResult};

const NOW: i64 = 1_700_000_000;

fn run(sql: &str, catalog: &mut CatalogManager) -> Result<ExecutionResult, Error> {
    let plan = plan_sql(sql, NOW)?;
    execute_plan(plan, catalog, &CacheManager::default(), &[])
}

fn message(r: ExecutionResult) -> String {
    match into_handle_result(r, &mut CacheManager::default(), &vec![]) {
        HandleResult::Message(m) => m,
        HandleResult::Table(t) => panic!("unexpected table {:?}", t),
    }
}

#[test]
fn select_with_alias_where_and_star() {
    let st = parse_sql("select a AS x, b y FROM t1 WHERE a = 1").unwrap();
    match st {
        Stmt::Select(s) => {
            assert_eq!(s.columns.len(), 2);
            assert_eq!(s.columns[0].name, "a");
            assert_eq!(s.columns[0].alias.as_deref(), Some("x"));
            assert_eq!(s.columns[1].alias.as_deref(), Some("y"));
            assert_eq!(s.table.name, "t1");
            assert!(s.where_expr.is_some());
        },
        other => panic!("{:?}", other),
    }
    match parse_sql("SELECT * FROM t").unwrap() {
        Stmt::Select(s) => assert_eq!(s.columns[0].name, "*"),
        other => panic!("{:?}", other),
    }
}

#[test]
fn statement_kinds_and_errors() {
    assert_eq!(leading_stmt_type("  show tables"), Some(StmtType::ShowTables));
    assert_eq!(leading_stmt_type("UPDATE t"), Some(StmtType::Update));
    assert_eq!(leading_stmt_type("hello"), None);
    assert!(matches!(parse_sql("DROP TABLE old"), Ok(Stmt::Drop(d)) if d.table_name == "old"));
    assert!(matches!(parse_sql("SHOW TABLES"), Ok(Stmt::ShowTables(_))));
    assert!(matches!(parse_sql("SELECT FROM"), Err(Error::Parser(ParserError::InvalidSyntax))));
    assert!(matches!(parse_sql_stmt("nonsense"), Err(ParserError::InvalidSyntax)));
    assert!(!is_supported("UPDATE t SET a = 1"));
    assert!(!is_supported("DELETE FROM t"));
    assert!(!is_supported("INSERT INTO t VALUES ('1')"));
    assert!(is_supported("INSERT INTO"));
    assert!(is_supported("SELECT a FROM t"));
}

#[test]
fn create_column_types_and_constraints() {
    match parse_sql("CREATE TABLE t (a INT NULL, b VARCHAR PRIMARY KEY)").unwrap() {
        Stmt::Create(c) => {
            assert_eq!(c.columns[0].constraints, vec![ColumnConstraint::Nullable]);
            assert_eq!(c.columns[1].constraints, vec![ColumnConstraint::PrimaryKey]);
        },
        other => panic!("{:?}", other),
    }
}

#[test]
fn optimizing_keeps_the_statement() {
    let st = parse_sql("SELECT a FROM t WHERE a > 2").unwrap();
    let before = format!("{:?}", st);
    assert_eq!(format!("{:?}", optimize_stmt(st)), before);
}

#[test]
fn planning_refuses_empty_names_and_columns() {
    let e = generate_drop_plan(DropStmt { table_name: String::new() }).unwrap_err();
    assert!(matches!(e, Error::Table(TableError::TableNameInvalid(ref m)) if m == "表名不能为空"));
    let e = generate_create_plan(CreateStmt { table_name: "t".into(), columns: vec![] }, NOW).unwrap_err();
    assert!(matches!(e, Error::Table(TableError::ColumnDefinitionEmpty(ref m)) if m == "列定义不能为空"));
    let e = generate_create_plan(CreateStmt { table_name: String::new(), columns: vec![] }, NOW).unwrap_err();
    assert!(matches!(e, Error::Table(TableError::TableNameInvalid(_))));
    let sel = SelectStmt {
        columns: vec![ColumnStmt::new("a")],
        table: TableStmt { name: String::new(), alias: None },
        where_expr: None,
    };
    assert!(matches!(generate_select_plan(sel), Err(Error::Table(TableError::TableNameInvalid(_)))));
    assert!(matches!(
        generate_execution_plan(Stmt::Drop(DropStmt { table_name: String::new() }), NOW),
        Err(Error::Table(TableError::TableNameInvalid(_)))
    ));
    // each kind of statement is refused with its own error
    assert!(matches!(
        generate_execution_plan(Stmt::Create(CreateStmt { table_name: "t".into(), columns: vec![] }), NOW),
        Err(Error::Table(TableError::ColumnDefinitionEmpty(_)))
    ));
    assert!(matches!(
        generate_execution_plan(Stmt::Create(CreateStmt { table_name: String::new(), columns: vec![] }), NOW),
        Err(Error::Table(TableError::TableNameInvalid(_)))
    ));
    let sel = SelectStmt { columns: vec![], table: TableStmt { name: String::new(), alias: None }, where_expr: None };
    assert!(matches!(
        generate_execution_plan(Stmt::Select(sel), NOW),
        Err(Error::Table(TableError::TableNameInvalid(_)))
    ));
}

#[test]
fn created_tables_carry_the_creation_time() {
    let mut catalog = CatalogManager::empty();
    let plan = plan_sql("CREATE TABLE c (x INT)", 42).unwrap();
    match storage_action(&plan, &catalog) {
        StorageAction::CreateTableFiles(t) => assert_eq!(t.created_at, 42),
        other => panic!("{:?}", other),
    }
    execute_plan(plan, &mut catalog, &CacheManager::default(), &[]).unwrap();
    assert_eq!(catalog.get_table_meta("c").unwrap().created_at, 42);
}

fn int_value(n: i32) -> SingleValue {
    SingleValue::new(n.to_le_bytes().to_vec(), DataType::Integer)
}

/// A catalog with a table `nums (n INT, flag BOOLEAN, tag TEXT)` of four
/// rows, and a cache holding the `n` and `flag` of each row.
fn numbers() -> (CatalogManager, CacheManager) {
    let column = |name: &str, data_type: DataType| ColumnMeta {
        id: 0,
        name: name.into(),
        data_type,
        nullable: true,
        primary_key: false,
        default_value: None,
    };
    let mut meta = TableMeta::new(
        "nums".into(),
        vec![column("n", DataType::Integer), column("flag", DataType::Boolean), column("tag", DataType::Text)],
        NOW,
    );
    meta.row_count = 4;
    let (n_id, flag_id) = (meta.columns[0].id, meta.columns[1].id);
    let mut cache = CacheManager::default();
    for (row, n, flag) in [(0u64, 5, true), (1, 12, false), (2, 7, true), (3, 20, false)] {
        cache.get_row(&ValueId::new(meta.id, row, n_id), Some(int_value(n)));
        cache.get_row(&ValueId::new(meta.id, row, flag_id), Some(SingleValue::from_bool(flag)));
    }
    (CatalogManager::new(vec![meta]), cache)
}

fn row_ids(r: Result<ExecutionResult, Error>) -> Vec<u64> {
    match r.unwrap() {
        ExecutionResult::Table(t) => t.rows.iter().map(|r| r.row_id).collect(),
        other => panic!("{:?}", other),
    }
}

fn constant(v: &str, t: DataType) -> Expr {
    Expr::new(Box::new(ExprNode::Constant(ConstantExpr { value: v.to_string(), data_type: t })))
}

fn ident(n: &str) -> Expr {
    Expr::new(Box::new(ExprNode::Identifier(IdentifierExpr { name: n.to_string() })))
}

fn binary(l: Expr, op: BinaryOp, r: Expr) -> Expr {
    Expr::new(Box::new(ExprNode::Binary(BinaryExpr { left: l, op, right: r })))
}

/// The row ids `SELECT n FROM nums WHERE condition` keeps.
fn kept(condition: Expr, floats: &[(String, u64)]) -> Vec<u64> {
    let (mut catalog, cache) = numbers();
    let stmt = SelectStmt {
        columns: vec![ColumnStmt::new("n")],
        table: TableStmt { name: "nums".into(), alias: None },
        where_expr: Some(condition),
    };
    let plan = generate_select_plan(stmt).unwrap();
    row_ids(execute_plan(plan, &mut catalog, &cache, floats))
}

#[test]
fn where_keeps_the_rows_that_meet_the_condition() {
    let int = |v: &str| constant(v, DataType::Integer);
    assert_eq!(kept(binary(ident("n"), BinaryOp::GreaterThan, int("6")), &[]), vec![1, 2, 3]);
    let between = binary(
        binary(ident("n"), BinaryOp::GreaterThan, int("6")),
        BinaryOp::And,
        binary(ident("n"), BinaryOp::LessThan, int("15")),
    );
    assert_eq!(kept(between, &[]), vec![1, 2]);
    let either = binary(
        binary(ident("n"), BinaryOp::Equal, int("7")),
        BinaryOp::Or,
        binary(ident("n"), BinaryOp::Equal, int("5")),
    );
    assert_eq!(kept(either, &[]), vec![0, 2]);
    let listed = Expr::new(Box::new(ExprNode::In(InExpr { value: ident("n"), values: vec![int("20"), int("12")] })));
    assert_eq!(kept(listed, &[]), vec![1, 3]);
    // a condition that is not a Boolean keeps no row
    assert_eq!(kept(binary(ident("n"), BinaryOp::Add, int("1")), &[]), Vec::<u64>::new());
    // a column without a cached value reads as null, which compares to nothing
    assert_eq!(kept(binary(ident("tag"), BinaryOp::Equal, constant("x", DataType::Text)), &[]), Vec::<u64>::new());
}

#[test]
fn where_on_a_boolean_column_through_sql() {
    let (mut catalog, cache) = numbers();
    let mut select = |sql: &str| {
        let plan = plan_sql(sql, NOW).unwrap();
        row_ids(execute_plan(plan, &mut catalog, &cache, &[]))
    };
    assert_eq!(select("SELECT n FROM nums"), vec![0, 1, 2, 3]);
    assert_eq!(select("SELECT n FROM nums WHERE flag"), vec![0, 2]);
    assert_eq!(select("SELECT n FROM nums WHERE n"), Vec::<u64>::new());
}

#[test]
fn storage_work_for_plans() {
    let mut catalog = CatalogManager::empty();
    let plan = plan_sql("CREATE TABLE a (x INT)", NOW).unwrap();
    match storage_action(&plan, &catalog) {
        StorageAction::CreateTableFiles(t) => assert_eq!(t.name, "a"),
        other => panic!("{:?}", other),
    }
    execute_plan(plan, &mut catalog, &CacheManager::default(), &[]).unwrap();
    let again = plan_sql("CREATE TABLE a (x INT)", NOW).unwrap();
    assert!(matches!(storage_action(&again, &catalog), StorageAction::Nothing));
    let drop = plan_sql("DROP TABLE a", NOW).unwrap();
    assert!(matches!(storage_action(&drop, &catalog), StorageAction::DeleteTableFiles(ref n) if n == "a"));
    let show = plan_sql("SHOW TABLES", NOW).unwrap();
    assert!(matches!(storage_action(&show, &catalog), StorageAction::Nothing));
}

#[test]
fn error_replies_by_kind() {
    let p = Error::Parser(ParserError::InvalidSyntax);
    assert_eq!(error_reply(&p), "无法解析的 SQL 语句: Parser Error: Invalid SQL syntax");
    let x = Error::Execution(ExecutionError::UnexpectedResultType);
    assert_eq!(error_reply(&x), "执行错误: Execution Error: Unexpected result type");
    let t = Error::Table(TableError::InvalidTableId("t".into(), 5, 7));
    assert_eq!(error_reply(&t), "Table Error: Table 't' ID 5 does not match expected ID 7");
    assert_eq!(Error::Internal("boom".into()).message(), "Internal Error: boom");
}

#[test]
fn folding_integer_constants() {
    let c = |v: &str, t: DataType| ConstantExpr { value: v.to_string(), data_type: t };
    let r = evaluate_constant_binary_op(&c("7", DataType::Integer), BinaryOp::Multiply, &c("-6", DataType::Integer), None)
        .unwrap();
    assert_eq!(r.value, "-42");
    assert_eq!(r.data_type, DataType::Integer);
    let q = evaluate_constant_binary_op(&c("-7", DataType::Integer), BinaryOp::Divide, &c("2", DataType::Integer), None)
        .unwrap();
    assert_eq!(q.value, "-3");
    assert!(evaluate_constant_binary_op(&c("1", DataType::Integer), BinaryOp::Divide, &c("0", DataType::Integer), None)
        .is_none());
    assert!(evaluate_constant_binary_op(&c("1", DataType::Integer), BinaryOp::Equal, &c("1", DataType::Integer), None)
        .is_none());
    assert!(evaluate_constant_binary_op(&c("x", DataType::Integer), BinaryOp::Add, &c("1", DataType::Integer), None)
        .is_none());
    let f = evaluate_constant_binary_op(
        &c("1.5", DataType::Float),
        BinaryOp::Add,
        &c("2", DataType::Integer),
        Some("3.5".to_string()),
    )
    .unwrap();
    assert_eq!((f.value.as_str(), f.data_type), ("3.5", DataType::Float));
    assert!(evaluate_constant_binary_op(&c("a", DataType::Text), BinaryOp::Add, &c("b", DataType::Text), None).is_none());
}

#[test]
fn errors_convert_into_the_database_error() {
    let e: Error = TableError::SchemaMismatch.into();
    assert!(matches!(e, Error::Table(TableError::SchemaMismatch)));
    assert_eq!(e.message(), "Table Error: Table schema mismatch");
    let p: Error = ParserError::InvalidSyntax.into();
    assert_eq!(p.message(), "Parser Error: Invalid SQL syntax");
    let v: Error = lishdb::error::ValueError::TypeMismatch { expected: "Integer".into(), found: "Text".into() }.into();
    assert_eq!(v.message(), "Value Error: Value type mismatch: expected Integer, found Text");
    let s: Error = lishdb::error::StorageError::ReadError("f.col".into()).into();
    assert_eq!(s.message(), "Storage Error: Failed to read storage file: f.col");
    let i: Error = lishdb::error::IndexError::IndexNotFound("ix".into()).into();
    assert_eq!(i.message(), "Index Error: Index 'ix' not found");
}
