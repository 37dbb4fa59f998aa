//! Execution plans: how statements become plans, and how plans run
//! against the catalog.

use vstd::prelude::*;
use vstd::string::StrSliceExecFns;
use crate::stmt::{
    ColumnConstraint, ColumnStmt, CreateStmt, DropStmt, SelectStmt, ShowTablesStmt, Stmt,
    SpecColumn, SpecStmt, columns_view, strings_view, opt_view,
};
use crate::expression::{Expr, SpecExpr, eval, column_refs, floats_view};
use crate::valueops::truth;
use crate::value::{Column, SingleValue};
use crate::cache::CacheManager;
use crate::storage::{ColumnMeta, TableMeta, SpecColumnMeta, SpecTableMeta, spec_table_id, with_column_id};
use crate::catalog::{CatalogManager, table_named, rows_fit};
use crate::table::{
    ColumnAbstract, RowId, TableAbstract, SpecColumnAbstract, SpecTableAbstract, ValueId, projection,
    column_abstracts_view,
};
use crate::error::{Error, ExecutionError, TableError};

verus! {

broadcast use vstd::string::group_string_axioms;

/// A node of an execution plan.
#[derive(Debug)]
enum PlanNode {
    /// Creates a table.
    CreateTable(CreateTableNode),
    /// Drops a table.
    DropTable(DropTableNode),
    /// Lists the tables.
    ShowTables(ShowTablesNode),
    /// Reads every row of a table.
    Scan(ScanNode),
    /// Keeps the rows that meet a condition.
    Filter(FilterNode),
    /// Keeps the named columns.
    Projection(ProjectionNode),
}

#[derive(Debug)]
struct CreateTableNode {
    table_def: TableMeta,
}

#[derive(Debug)]
struct ShowTablesNode;

#[derive(Debug)]
struct DropTableNode {
    table_name: String,
}

#[derive(Debug)]
struct ScanNode {
    table_name: String,
    column_names: Vec<String>,
}

#[derive(Debug)]
struct FilterNode {
    child: Box<PlanNode>,
    condition: Expr,
}

#[derive(Debug)]
struct ProjectionNode {
    child: Box<PlanNode>,
    columns: Vec<String>,
}

/// An execution plan.
#[derive(Debug)]
pub struct ExecutionPlan {
    root: PlanNode,
}

/// The mathematical form of a plan.
pub enum SpecPlan {
    CreateTable(SpecTableMeta),
    DropTable(Seq<char>),
    ShowTables,
    Scan { table_name: Seq<char>, column_names: Seq<Seq<char>> },
    Filter { child: Box<SpecPlan>, condition: SpecExpr },
    Projection { child: Box<SpecPlan>, columns: Seq<Seq<char>> },
}

spec fn node_view(n: PlanNode) -> SpecPlan
    decreases n,
{
    match n {
        PlanNode::CreateTable(c) => SpecPlan::CreateTable(c.table_def@),
        PlanNode::DropTable(d) => SpecPlan::DropTable(d.table_name@),
        PlanNode::ShowTables(_) => SpecPlan::ShowTables,
        PlanNode::Scan(s) => SpecPlan::Scan {
            table_name: s.table_name@,
            column_names: strings_view(s.column_names@),
        },
        PlanNode::Filter(f) => SpecPlan::Filter {
            child: Box::new(node_view(*f.child)),
            condition: f.condition@,
        },
        PlanNode::Projection(p) => SpecPlan::Projection {
            child: Box::new(node_view(*p.child)),
            columns: strings_view(p.columns@),
        },
    }
}

impl View for ExecutionPlan {
    type V = SpecPlan;

    closed spec fn view(&self) -> SpecPlan {
        node_view(self.root)
    }
}

/// The result of running a plan.
#[derive(Debug)]
pub enum ExecutionResult {
    Table(TableAbstract),
    CreateTableSuccess(String),
    DropTableSuccess(String),
    ShowTablesSuccess(Vec<String>),
}

pub enum SpecResult {
    Table(SpecTableAbstract),
    CreateTableSuccess(Seq<char>),
    DropTableSuccess(Seq<char>),
    ShowTablesSuccess(Seq<Seq<char>>),
}

impl View for ExecutionResult {
    type V = SpecResult;

    open spec fn view(&self) -> SpecResult {
        match self {
            ExecutionResult::Table(t) => SpecResult::Table(t@),
            ExecutionResult::CreateTableSuccess(n) => SpecResult::CreateTableSuccess(n@),
            ExecutionResult::DropTableSuccess(n) => SpecResult::DropTableSuccess(n@),
            ExecutionResult::ShowTablesSuccess(v) => SpecResult::ShowTablesSuccess(strings_view(v@)),
        }
    }
}

// ----- planning -----

/// The error for a missing table name.
pub open spec fn is_empty_name_error(e: Error) -> bool {
    e matches Error::Table(TableError::TableNameInvalid(m)) && m@ == "表名不能为空"@
}

/// The error for an empty column list.
pub open spec fn is_no_columns_error(e: Error) -> bool {
    e matches Error::Table(TableError::ColumnDefinitionEmpty(m)) && m@ == "列定义不能为空"@
}

/// The plan for `SHOW TABLES`.
pub fn generate_show_tables_plan(_stmt: ShowTablesStmt) -> (r: Result<ExecutionPlan, Error>)
    ensures
        r matches Ok(p) && p@ == SpecPlan::ShowTables && p.wf(),
{
    Ok(ExecutionPlan { root: PlanNode::ShowTables(ShowTablesNode) })
}

/// The plan for `DROP TABLE`; refused for an empty table name.
pub fn generate_drop_plan(stmt: DropStmt) -> (r: Result<ExecutionPlan, Error>)
    ensures
        if stmt.table_name@.len() == 0 {
            r matches Err(e) && is_empty_name_error(e)
        } else {
            r matches Ok(p) && p@ == SpecPlan::DropTable(stmt.table_name@) && p.wf()
        },
{
    if stmt.table_name.as_str().unicode_len() == 0 {
        return Err(Error::Table(TableError::TableNameInvalid("表名不能为空".to_owned())));
    }
    Ok(ExecutionPlan { root: PlanNode::DropTable(DropTableNode { table_name: stmt.table_name }) })
}

/// The metadata a column definition of `CREATE TABLE` gives: no id yet,
/// nullable and primary key as its constraints say.
pub open spec fn column_meta_for(c: SpecColumn) -> SpecColumnMeta {
    SpecColumnMeta {
        id: 0,
        name: c.name,
        data_type: c.data_type,
        nullable: c.constraints.contains(ColumnConstraint::Nullable),
        primary_key: c.constraints.contains(ColumnConstraint::PrimaryKey),
        default_value: c.default_value,
    }
}

/// The definition `CREATE TABLE name (columns)` makes, created at `created_at`.
pub open spec fn table_meta_for(name: Seq<char>, columns: Seq<SpecColumn>, created_at: i64) -> SpecTableMeta {
    SpecTableMeta {
        id: spec_table_id(name),
        name,
        columns: columns.map_values(|c: SpecColumn| with_column_id(spec_table_id(name), column_meta_for(c))),
        created_at,
        row_count: 0,
    }
}

fn has_constraint(v: &Vec<ColumnConstraint>, c: ColumnConstraint) -> (b: bool)
    ensures
        b == v@.contains(c),
{
    let mut i: usize = 0;
    while i < v.len()
        invariant
            i <= v.len(),
            forall|k: int| 0 <= k < i ==> v@[k] != c,
        decreases v.len() - i,
    {
        if v[i] == c {
            proof {
                assert(v@[i as int] == c);
            }
            return true;
        }
        i = i + 1;
    }
    false
}

fn copy_opt(o: &Option<String>) -> (r: Option<String>)
    ensures
        opt_view(r) == opt_view(*o),
{
    match o {
        Some(s) => Some(s.clone()),
        None => None,
    }
}

/// The plan for `CREATE TABLE`, for a table created at `created_at`;
/// refused for an empty table name, then for an empty column list.
pub fn generate_create_plan(stmt: CreateStmt, created_at: i64) -> (r: Result<ExecutionPlan, Error>)
    ensures
        if stmt.table_name@.len() == 0 {
            r matches Err(e) && is_empty_name_error(e)
        } else if stmt.columns@.len() == 0 {
            r matches Err(e) && is_no_columns_error(e)
        } else {
            r matches Ok(p) && p@ == SpecPlan::CreateTable(
                table_meta_for(stmt.table_name@, columns_view(stmt.columns@), created_at),
            ) && p.wf()
        },
{
    if stmt.table_name.as_str().unicode_len() == 0 {
        return Err(Error::Table(TableError::TableNameInvalid("表名不能为空".to_owned())));
    }
    if stmt.columns.len() == 0 {
        return Err(Error::Table(TableError::ColumnDefinitionEmpty("列定义不能为空".to_owned())));
    }
    let ghost specs = columns_view(stmt.columns@);
    let mut metas: Vec<ColumnMeta> = Vec::new();
    let mut i: usize = 0;
    while i < stmt.columns.len()
        invariant
            i <= stmt.columns.len(),
            specs == columns_view(stmt.columns@),
            metas@.len() == i,
            forall|k: int| 0 <= k < i ==> #[trigger] metas@[k]@ == column_meta_for(specs[k]),
        decreases stmt.columns.len() - i,
    {
        let col = &stmt.columns[i];
        let nullable = has_constraint(&col.constraints, ColumnConstraint::Nullable);
        let primary_key = has_constraint(&col.constraints, ColumnConstraint::PrimaryKey);
        metas.push(
            ColumnMeta {
                id: 0,
                name: col.name.clone(),
                data_type: col.data_type,
                nullable,
                primary_key,
                default_value: copy_opt(&col.default_value),
            },
        );
        i = i + 1;
    }
    let ghost name = stmt.table_name@;
    let ghost mv = metas@;
    let table_def = TableMeta::new(stmt.table_name, metas, created_at);
    proof {
        let t = table_def@;
        assert(t.columns =~= specs.map_values(
            |c: SpecColumn| with_column_id(spec_table_id(name), column_meta_for(c)),
        ));
        assert(t == table_meta_for(name, specs, created_at));
    }
    Ok(ExecutionPlan { root: PlanNode::CreateTable(CreateTableNode { table_def }) })
}

/// The name a SELECT column is shown under: its alias, else its name.
pub open spec fn shown_name(c: SpecColumn) -> Seq<char> {
    match c.alias {
        Some(a) => a,
        None => c.name,
    }
}

/// The plan a SELECT gives: a scan of the table, a filter where there is a
/// condition, and a projection onto the columns' shown names.
pub open spec fn select_plan(
    columns: Seq<SpecColumn>,
    table_name: Seq<char>,
    where_expr: Option<SpecExpr>,
) -> SpecPlan {
    let scan = SpecPlan::Scan {
        table_name,
        column_names: columns.map_values(|c: SpecColumn| c.name),
    };
    let filtered = match where_expr {
        Some(e) => SpecPlan::Filter { child: Box::new(scan), condition: e },
        None => scan,
    };
    SpecPlan::Projection {
        child: Box::new(filtered),
        columns: columns.map_values(|c: SpecColumn| shown_name(c)),
    }
}

/// The plan for `SELECT`; refused for an empty table name.
pub fn generate_select_plan(stmt: SelectStmt) -> (r: Result<ExecutionPlan, Error>)
    ensures
        if stmt.table.name@.len() == 0 {
            r matches Err(e) && is_empty_name_error(e)
        } else {
            r matches Ok(p) && p.wf() && p@ == select_plan(
                columns_view(stmt.columns@),
                stmt.table.name@,
                crate::stmt::opt_expr_view(stmt.where_expr),
            )
        },
{
    if stmt.table.name.as_str().unicode_len() == 0 {
        return Err(Error::Table(TableError::TableNameInvalid("表名不能为空".to_owned())));
    }
    let ghost specs = columns_view(stmt.columns@);
    let mut names: Vec<String> = Vec::new();
    let mut shown: Vec<String> = Vec::new();
    let mut i: usize = 0;
    while i < stmt.columns.len()
        invariant
            i <= stmt.columns.len(),
            specs == columns_view(stmt.columns@),
            names@.len() == i,
            shown@.len() == i,
            forall|k: int| 0 <= k < i ==> #[trigger] names@[k]@ == specs[k].name,
            forall|k: int| 0 <= k < i ==> #[trigger] shown@[k]@ == shown_name(specs[k]),
        decreases stmt.columns.len() - i,
    {
        let col = &stmt.columns[i];
        names.push(col.name.clone());
        let s = match &col.alias {
            Some(a) => a.clone(),
            None => col.name.clone(),
        };
        shown.push(s);
        i = i + 1;
    }
    proof {
        assert(strings_view(names@) =~= specs.map_values(|c: SpecColumn| c.name));
        assert(strings_view(shown@) =~= specs.map_values(|c: SpecColumn| shown_name(c)));
    }
    let scan = PlanNode::Scan(ScanNode { table_name: stmt.table.name, column_names: names });
    let ghost scan_view = node_view(scan);
    let plan = match stmt.where_expr {
        Some(condition) => PlanNode::Filter(FilterNode { child: Box::new(scan), condition }),
        None => scan,
    };
    let root = PlanNode::Projection(ProjectionNode { child: Box::new(plan), columns: shown });
    proof {
        let sp = select_plan(specs, stmt.table.name@, crate::stmt::opt_expr_view(stmt.where_expr));
        assert(scan_view == (SpecPlan::Scan { table_name: stmt.table.name@, column_names: specs.map_values(|c: SpecColumn| c.name) }));
        let filtered = match crate::stmt::opt_expr_view(stmt.where_expr) {
            Some(e) => SpecPlan::Filter { child: Box::new(scan_view), condition: e },
            None => scan_view,
        };
        assert(node_view(plan) == filtered);
        assert(node_view(root) == sp);
        assert(creates_fit(scan_view));
        assert(creates_fit(filtered));
        assert(creates_fit(sp));
    }
    Ok(ExecutionPlan { root })
}

/// The plan a statement view gives, or `None` where the planner refuses the
/// statement (an empty table name or column list).
pub open spec fn stmt_plan(s: SpecStmt, created_at: i64) -> Option<SpecPlan> {
    match s {
        SpecStmt::Select { columns, table_name, where_expr, .. } => if table_name.len() == 0 {
            None
        } else {
            Some(select_plan(columns, table_name, where_expr))
        },
        SpecStmt::Create { table_name, columns } => if table_name.len() == 0 || columns.len() == 0 {
            None
        } else {
            Some(SpecPlan::CreateTable(table_meta_for(table_name, columns, created_at)))
        },
        SpecStmt::Drop { table_name } => if table_name.len() == 0 {
            None
        } else {
            Some(SpecPlan::DropTable(table_name))
        },
        SpecStmt::ShowTables => Some(SpecPlan::ShowTables),
        SpecStmt::Insert { .. } => None,
    }
}

/// The error the planner refuses a statement with: an empty table name
/// first, then, for `CREATE TABLE`, an empty column list.
pub open spec fn refusal(s: SpecStmt, e: Error) -> bool {
    match s {
        SpecStmt::Create { table_name, .. } => if table_name.len() == 0 {
            is_empty_name_error(e)
        } else {
            is_no_columns_error(e)
        },
        _ => is_empty_name_error(e),
    }
}

/// The plan of a statement; a table that it creates is created at
/// `created_at`. `INSERT` has no plan yet and must not be passed.
pub fn generate_execution_plan(stmt: Stmt, created_at: i64) -> (r: Result<ExecutionPlan, Error>)
    requires
        !(stmt is Insert),
    ensures
        match r {
            Ok(p) => p.wf() && stmt_plan(stmt@, created_at) == Some(p@),
            Err(e) => stmt_plan(stmt@, created_at) is None && refusal(stmt@, e),
        },
{
    match stmt {
        Stmt::Select(select_stmt) => generate_select_plan(select_stmt),
        Stmt::Create(create_stmt) => generate_create_plan(create_stmt, created_at),
        Stmt::Drop(drop_stmt) => generate_drop_plan(drop_stmt),
        Stmt::ShowTables(show_tables_stmt) => generate_show_tables_plan(show_tables_stmt),
        Stmt::Insert(_) => {
            // excluded by the precondition
            proof {
                assert(false);
            }
            Err(Error::Internal(String::new()))
        },
    }
}

// ----- running plans -----

/// How running a plan ends.
pub enum SpecOutcome {
    Done(SpecResult),
    TableExists(Seq<char>),
    TableNotFound(Seq<char>),
    UnexpectedResultType,
}

/// The table a scan of the table `meta`, named `name`, gives: its columns,
/// and the handles of rows `0 .. row_count`.
pub open spec fn scanned(meta: SpecTableMeta, name: Seq<char>) -> SpecTableAbstract {
    SpecTableAbstract {
        columns: meta.columns.map_values(
            |c: SpecColumnMeta|
                SpecColumnAbstract { id: c.id, name: c.name, table_name: name, data_type: c.data_type },
        ),
        rows: Seq::new(meta.row_count as nat, |i: int| RowId { table_id: meta.id, row_id: i as u64 }),
    }
}

/// The names of the tables, in catalog order.
pub open spec fn table_names(cat: Seq<SpecTableMeta>) -> Seq<Seq<char>> {
    cat.map_values(|t: SpecTableMeta| t.name)
}

/// The name and id of each column of a table, as a condition looks them up.
pub open spec fn table_refs(cols: Seq<SpecColumnAbstract>) -> Seq<(Seq<char>, u64)> {
    cols.map_values(|c: SpecColumnAbstract| (c.name, c.id))
}

/// A row meets `condition` where the condition's value in that row is the
/// Boolean true.
pub open spec fn meets(
    condition: SpecExpr,
    cols: Seq<(Seq<char>, u64)>,
    cache: Map<ValueId, SingleValue>,
    floats: Seq<(Seq<char>, u64)>,
) -> spec_fn(RowId) -> bool {
    |r: RowId| truth(eval(condition, r, cols, cache, floats)) == Some(true)
}

/// The table `t` keeps, under `condition`: its columns, and the rows that
/// meet the condition, in their order.
pub open spec fn filtered(
    t: SpecTableAbstract,
    condition: SpecExpr,
    cache: Map<ValueId, SingleValue>,
    floats: Seq<(Seq<char>, u64)>,
) -> SpecTableAbstract {
    SpecTableAbstract {
        columns: t.columns,
        rows: t.rows.filter(meets(condition, table_refs(t.columns), cache, floats)),
    }
}

/// What running plan `p` against the catalog `cat` gives, and the catalog
/// after. A condition reads the values of cells in `cache`, and a float
/// constant as the bit pattern `floats` lists for its text.
pub open spec fn run_plan(
    p: SpecPlan,
    cat: Seq<SpecTableMeta>,
    cache: Map<ValueId, SingleValue>,
    floats: Seq<(Seq<char>, u64)>,
) -> (SpecOutcome, Seq<SpecTableMeta>)
    decreases p,
{
    match p {
        SpecPlan::CreateTable(t) => match table_named(cat, t.name) {
            Some(_) => (SpecOutcome::TableExists(t.name), cat),
            None => (SpecOutcome::Done(SpecResult::CreateTableSuccess(t.name)), cat.push(t)),
        },
        SpecPlan::DropTable(n) => match table_named(cat, n) {
            Some(k) => (SpecOutcome::Done(SpecResult::DropTableSuccess(n)), cat.remove(k)),
            None => (SpecOutcome::TableNotFound(n), cat),
        },
        SpecPlan::ShowTables => (SpecOutcome::Done(SpecResult::ShowTablesSuccess(table_names(cat))), cat),
        SpecPlan::Scan { table_name, .. } => match table_named(cat, table_name) {
            Some(k) => (SpecOutcome::Done(SpecResult::Table(scanned(cat[k], table_name))), cat),
            None => (SpecOutcome::TableNotFound(table_name), cat),
        },
        SpecPlan::Filter { child, condition } => {
            let (o, c) = run_plan(*child, cat, cache, floats);
            match o {
                SpecOutcome::Done(SpecResult::Table(t)) => (
                    SpecOutcome::Done(SpecResult::Table(filtered(t, condition, cache, floats))),
                    c,
                ),
                SpecOutcome::Done(_) => (SpecOutcome::UnexpectedResultType, c),
                _ => (o, c),
            }
        },
        SpecPlan::Projection { child, columns } => {
            let (o, c) = run_plan(*child, cat, cache, floats);
            match o {
                SpecOutcome::Done(SpecResult::Table(t)) => (
                    SpecOutcome::Done(SpecResult::Table(projection(t, columns))),
                    c,
                ),
                SpecOutcome::Done(_) => (SpecOutcome::UnexpectedResultType, c),
                _ => (o, c),
            }
        },
    }
}

/// The result or error that stands for an outcome.
pub open spec fn outcome_matches(r: Result<ExecutionResult, Error>, o: SpecOutcome) -> bool {
    match o {
        SpecOutcome::Done(s) => r matches Ok(x) && x@ == s,
        SpecOutcome::TableExists(n) => r matches Err(Error::Table(TableError::TableExists(m))) && m@ == n,
        SpecOutcome::TableNotFound(n) => r matches Err(Error::Table(TableError::TableNotFound(m))) && m@ == n,
        SpecOutcome::UnexpectedResultType => r matches Err(
            Error::Execution(ExecutionError::UnexpectedResultType),
        ),
    }
}

/// Every table the plan creates has its rows counted in memory.
pub open spec fn creates_fit(p: SpecPlan) -> bool
    decreases p,
{
    match p {
        SpecPlan::CreateTable(t) => t.row_count <= usize::MAX,
        SpecPlan::Filter { child, .. } => creates_fit(*child),
        SpecPlan::Projection { child, .. } => creates_fit(*child),
        _ => true,
    }
}

impl ExecutionPlan {
    /// A plan as the planner makes it: the tables it creates have no rows.
    pub closed spec fn wf(&self) -> bool {
        creates_fit(node_view(self.root))
    }
}

fn execute_show_tables(catalog: &CatalogManager) -> (r: Result<ExecutionResult, Error>)
    ensures
        outcome_matches(r, run_plan(SpecPlan::ShowTables, catalog@, Map::empty(), Seq::empty()).0),
{
    let names = catalog.list_tables();
    proof {
        assert(strings_view(names@) =~= table_names(catalog@));
    }
    Ok(ExecutionResult::ShowTablesSuccess(names))
}

fn execute_drop_table(node: &DropTableNode, catalog: &mut CatalogManager) -> (r: Result<ExecutionResult, Error>)
    requires
        rows_fit(old(catalog)@),
    ensures
        outcome_matches(r, run_plan(SpecPlan::DropTable(node.table_name@), old(catalog)@, Map::empty(), Seq::empty()).0),
        final(catalog)@ == run_plan(SpecPlan::DropTable(node.table_name@), old(catalog)@, Map::empty(), Seq::empty()).1,
        rows_fit(final(catalog)@),
{
    match catalog.drop_table(node.table_name.as_str()) {
        Ok(()) => {
            proof {
                crate::catalog::lemma_table_named(old(catalog)@, node.table_name@);
                let k = table_named(old(catalog)@, node.table_name@)->0;
                assert forall|i: int| 0 <= i < catalog@.len() implies #[trigger] catalog@[i].row_count <= usize::MAX by {
                    if i < k {
                        assert(catalog@[i] == old(catalog)@[i]);
                    } else {
                        assert(catalog@[i] == old(catalog)@[i + 1]);
                    }
                }
            }
            Ok(ExecutionResult::DropTableSuccess(node.table_name.clone()))
        },
        Err(e) => Err(e),
    }
}

fn execute_create_table(node: &CreateTableNode, catalog: &mut CatalogManager) -> (r: Result<ExecutionResult, Error>)
    requires
        rows_fit(old(catalog)@),
        node.table_def@.row_count <= usize::MAX,
    ensures
        outcome_matches(r, run_plan(SpecPlan::CreateTable(node.table_def@), old(catalog)@, Map::empty(), Seq::empty()).0),
        final(catalog)@ == run_plan(SpecPlan::CreateTable(node.table_def@), old(catalog)@, Map::empty(), Seq::empty()).1,
        rows_fit(final(catalog)@),
{
    match catalog.create_table(node.table_def.duplicate()) {
        Ok(()) => {
            proof {
                assert forall|i: int| 0 <= i < catalog@.len() implies #[trigger] catalog@[i].row_count <= usize::MAX by {
                    if i < old(catalog)@.len() {
                        assert(catalog@[i] == old(catalog)@[i]);
                    }
                }
            }
            Ok(ExecutionResult::CreateTableSuccess(node.table_def.name.clone()))
        },
        Err(e) => Err(e),
    }
}

fn execute_scan(node: &ScanNode, catalog: &CatalogManager) -> (r: Result<ExecutionResult, Error>)
    requires
        rows_fit(catalog@),
    ensures
        outcome_matches(
            r,
            run_plan(
                SpecPlan::Scan { table_name: node.table_name@, column_names: strings_view(node.column_names@) },
                catalog@,
                Map::empty(),
                Seq::empty(),
            ).0,
        ),
{
    let meta = match catalog.get_table_meta(node.table_name.as_str()) {
        Some(t) => t,
        None => {
            return Err(Error::Table(TableError::TableNotFound(node.table_name.clone())));
        },
    };
    let ghost k = table_named(catalog@, node.table_name@)->0;
    proof {
        crate::catalog::lemma_table_named(catalog@, node.table_name@);
        assert(meta@.row_count <= usize::MAX);
    }
    let ghost want = scanned(meta@, node.table_name@);
    let mut columns: Vec<ColumnAbstract> = Vec::new();
    let mut i: usize = 0;
    while i < meta.columns.len()
        invariant
            i <= meta.columns.len(),
            want == scanned(meta@, node.table_name@),
            columns@.len() == i,
            forall|j: int| 0 <= j < i ==> #[trigger] columns@[j]@ == want.columns[j],
        decreases meta.columns.len() - i,
    {
        let c = &meta.columns[i];
        columns.push(
            ColumnAbstract {
                id: c.id,
                name: c.name.clone(),
                table_name: node.table_name.clone(),
                data_type: c.data_type,
            },
        );
        i = i + 1;
    }
    let rows = RowId::get_vec(meta.id, meta.row_count);
    let table = TableAbstract { columns, rows };
    proof {
        assert(table@.columns =~= want.columns);
        assert(table@.rows =~= want.rows);
    }
    Ok(ExecutionResult::Table(table))
}

/// The columns of a table as a condition reads them.
fn condition_columns(cols: &Vec<ColumnAbstract>) -> (r: Vec<Column>)
    ensures
        column_refs(r@) == table_refs(column_abstracts_view(cols@)),
{
    let mut r: Vec<Column> = Vec::new();
    let mut i: usize = 0;
    while i < cols.len()
        invariant
            i <= cols.len(),
            r@.len() == i,
            forall|k: int| 0 <= k < i ==> #[trigger] r@[k].name@ == cols@[k].name@ && r@[k].id == cols@[k].id,
        decreases cols.len() - i,
    {
        let c = &cols[i];
        r.push(
            Column {
                id: c.id,
                name: c.name.clone(),
                table_name: c.table_name.clone(),
                data_type: c.data_type,
            },
        );
        i = i + 1;
    }
    proof {
        assert(column_refs(r@) =~= table_refs(column_abstracts_view(cols@)));
    }
    r
}

/// Keeps the rows of `table` whose value of `condition` is the Boolean true.
fn execute_filter(
    table: TableAbstract,
    condition: &Expr,
    cache: &CacheManager,
    floats: &[(String, u64)],
) -> (r: Result<ExecutionResult, Error>)
    requires
        cache.wf(),
    ensures
        r matches Ok(ExecutionResult::Table(t)) && t@ == filtered(
            table@,
            condition@,
            cache.rows(),
            floats_view(floats@),
        ),
{
    let columns = condition_columns(&table.columns);
    let ghost pred = meets(condition@, table_refs(table@.columns), cache.rows(), floats_view(floats@));
    let mut rows: Vec<RowId> = Vec::new();
    let mut i: usize = 0;
    while i < table.rows.len()
        invariant
            i <= table.rows.len(),
            cache.wf(),
            column_refs(columns@) == table_refs(table@.columns),
            pred == meets(condition@, table_refs(table@.columns), cache.rows(), floats_view(floats@)),
            rows@ == table.rows@.take(i as int).filter(pred),
        decreases table.rows.len() - i,
    {
        let x = table.rows[i];
        let value = condition.evaluate(&x, columns.as_slice(), cache, floats);
        let keep = match value.as_bool() {
            Some(b) => b,
            None => false,
        };
        proof {
            reveal(Seq::filter);
            assert(table.rows@.take(i + 1).drop_last() =~= table.rows@.take(i as int));
            assert(table.rows@.take(i + 1).last() == x);
            assert(keep == pred(x));
        }
        if keep {
            rows.push(x);
        }
        i = i + 1;
    }
    proof {
        assert(table.rows@.take(table.rows.len() as int) =~= table.rows@);
    }
    Ok(ExecutionResult::Table(TableAbstract { columns: table.columns, rows }))
}

fn execute_projection(table: TableAbstract, columns: &[String]) -> (r: Result<ExecutionResult, Error>)
    ensures
        r matches Ok(ExecutionResult::Table(t)) && t@ == projection(table@, strings_view(columns@)),
{
    Ok(ExecutionResult::Table(table.project(columns)))
}

fn execute_node(
    node: &PlanNode,
    catalog: &mut CatalogManager,
    cache: &CacheManager,
    floats: &[(String, u64)],
) -> (r: Result<ExecutionResult, Error>)
    requires
        creates_fit(node_view(*node)),
        rows_fit(old(catalog)@),
        cache.wf(),
    ensures
        outcome_matches(r, run_plan(node_view(*node), old(catalog)@, cache.rows(), floats_view(floats@)).0),
        final(catalog)@ == run_plan(node_view(*node), old(catalog)@, cache.rows(), floats_view(floats@)).1,
        rows_fit(final(catalog)@),
    decreases node,
{
    match node {
        PlanNode::CreateTable(n) => execute_create_table(n, catalog),
        PlanNode::DropTable(n) => execute_drop_table(n, catalog),
        PlanNode::ShowTables(_) => execute_show_tables(catalog),
        PlanNode::Scan(n) => execute_scan(n, catalog),
        PlanNode::Filter(n) => {
            let child = execute_node(&n.child, catalog, cache, floats);
            match child {
                Ok(ExecutionResult::Table(table)) => execute_filter(table, &n.condition, cache, floats),
                Ok(_) => Err(Error::Execution(ExecutionError::UnexpectedResultType)),
                Err(e) => Err(e),
            }
        },
        PlanNode::Projection(n) => {
            let child = execute_node(&n.child, catalog, cache, floats);
            match child {
                Ok(ExecutionResult::Table(table)) => execute_projection(table, n.columns.as_slice()),
                Ok(_) => Err(Error::Execution(ExecutionError::UnexpectedResultType)),
                Err(e) => Err(e),
            }
        },
    }
}

/// Runs a plan against the catalog: creating or dropping a table changes it;
/// the other plans read it. A condition reads the values of cells from the
/// cache, and a float constant as the bit pattern `floats` lists for its text.
pub fn execute_plan(
    plan: ExecutionPlan,
    catalog: &mut CatalogManager,
    cache: &CacheManager,
    floats: &[(String, u64)],
) -> (r: Result<ExecutionResult, Error>)
    requires
        plan.wf(),
        rows_fit(old(catalog)@),
        cache.wf(),
    ensures
        outcome_matches(r, run_plan(plan@, old(catalog)@, cache.rows(), floats_view(floats@)).0),
        final(catalog)@ == run_plan(plan@, old(catalog)@, cache.rows(), floats_view(floats@)).1,
        rows_fit(final(catalog)@),
{
    execute_node(&plan.root, catalog, cache, floats)
}

/// What the files of the database need before (creating) or after (dropping)
/// running a plan.
#[derive(Debug)]
pub enum StorageAction {
    Nothing,
    /// Write the definition and create the empty column files of a new table.
    CreateTableFiles(TableMeta),
    /// Remove the files of a dropped table.
    DeleteTableFiles(String),
}

/// The file work that running `plan` against `catalog` calls for: a table
/// that will be created, or one that will be dropped.
pub fn storage_action(plan: &ExecutionPlan, catalog: &CatalogManager) -> (r: StorageAction)
    ensures
        match plan@ {
            SpecPlan::CreateTable(t) => if table_named(catalog@, t.name) is None {
                r matches StorageAction::CreateTableFiles(d) && d@ == t
            } else {
                r is Nothing
            },
            SpecPlan::DropTable(n) => if table_named(catalog@, n) is Some {
                r matches StorageAction::DeleteTableFiles(m) && m@ == n
            } else {
                r is Nothing
            },
            _ => r is Nothing,
        },
{
    match &plan.root {
        PlanNode::CreateTable(n) => {
            if catalog.has_table(n.table_def.name.as_str()) {
                StorageAction::Nothing
            } else {
                StorageAction::CreateTableFiles(n.table_def.duplicate())
            }
        },
        PlanNode::DropTable(n) => {
            if catalog.has_table(n.table_name.as_str()) {
                StorageAction::DeleteTableFiles(n.table_name.clone())
            } else {
                StorageAction::Nothing
            }
        },
        _ => StorageAction::Nothing,
    }
}

/// Running a CREATE TABLE plan for a free name, then a DROP TABLE plan for
/// that name, leaves the catalog as it was, and both report success.
pub proof fn law_drop_plan_undoes_create_plan(
    cat: Seq<SpecTableMeta>,
    t: SpecTableMeta,
    cache: Map<ValueId, SingleValue>,
    floats: Seq<(Seq<char>, u64)>,
)
    requires
        table_named(cat, t.name) is None,
    ensures
        run_plan(SpecPlan::CreateTable(t), cat, cache, floats).0 == SpecOutcome::Done(
            SpecResult::CreateTableSuccess(t.name),
        ),
        run_plan(SpecPlan::DropTable(t.name), run_plan(SpecPlan::CreateTable(t), cat, cache, floats).1, cache, floats).0
            == SpecOutcome::Done(SpecResult::DropTableSuccess(t.name)),
        run_plan(SpecPlan::DropTable(t.name), run_plan(SpecPlan::CreateTable(t), cat, cache, floats).1, cache, floats).1
            == cat,
{
    crate::catalog::law_drop_undoes_create(cat, t);
}

/// After a table is created, listing the tables gives the names that were
/// listed before, then the new one.
pub proof fn law_show_after_create(
    cat: Seq<SpecTableMeta>,
    t: SpecTableMeta,
    cache: Map<ValueId, SingleValue>,
    floats: Seq<(Seq<char>, u64)>,
)
    requires
        table_named(cat, t.name) is None,
    ensures
        run_plan(SpecPlan::ShowTables, run_plan(SpecPlan::CreateTable(t), cat, cache, floats).1, cache, floats).0
            == SpecOutcome::Done(SpecResult::ShowTablesSuccess(table_names(cat).push(t.name))),
{
    assert(table_names(cat.push(t)) =~= table_names(cat).push(t.name));
}

/// Creating a table under a name that is taken is refused and changes nothing.
pub proof fn law_create_plan_refused_when_taken(
    cat: Seq<SpecTableMeta>,
    t: SpecTableMeta,
    cache: Map<ValueId, SingleValue>,
    floats: Seq<(Seq<char>, u64)>,
)
    requires
        table_named(cat, t.name) is Some,
    ensures
        run_plan(SpecPlan::CreateTable(t), cat, cache, floats) == (SpecOutcome::TableExists(t.name), cat),
{
}

/// A scan of a table just created finds its columns and no rows.
pub proof fn law_scan_after_create(
    cat: Seq<SpecTableMeta>,
    t: SpecTableMeta,
    columns: Seq<Seq<char>>,
    cache: Map<ValueId, SingleValue>,
    floats: Seq<(Seq<char>, u64)>,
)
    requires
        table_named(cat, t.name) is None,
        t.row_count == 0,
    ensures
        run_plan(
            SpecPlan::Scan { table_name: t.name, column_names: columns },
            run_plan(SpecPlan::CreateTable(t), cat, cache, floats).1,
            cache,
            floats,
        ).0 matches SpecOutcome::Done(SpecResult::Table(tab)) && tab.rows.len() == 0 && tab.columns.len()
            == t.columns.len(),
{
    crate::catalog::law_create_then_lookup(cat, t);
}

/// A row is in a filtered table exactly when the table has it and it meets
/// the condition; the columns stay as they were.
pub proof fn law_filter_keeps_meeting_rows(
    t: SpecTableAbstract,
    condition: SpecExpr,
    cache: Map<ValueId, SingleValue>,
    floats: Seq<(Seq<char>, u64)>,
    x: RowId,
)
    ensures
        filtered(t, condition, cache, floats).columns == t.columns,
        filtered(t, condition, cache, floats).rows.contains(x) <==> (t.rows.contains(x) && truth(
            eval(condition, x, table_refs(t.columns), cache, floats),
        ) == Some(true)),
{
    let p = meets(condition, table_refs(t.columns), cache, floats);
    let f = t.rows.filter(p);
    if f.contains(x) {
        t.rows.lemma_filter_contains_rev(p, x);
        let i = choose|i: int| 0 <= i < f.len() && f[i] == x;
        t.rows.lemma_filter_pred(p, i);
    }
    if t.rows.contains(x) && p(x) {
        let i = choose|i: int| 0 <= i < t.rows.len() && t.rows[i] == x;
        t.rows.lemma_filter_contains(p, i);
    }
}

/// Filtering a table twice by the same condition keeps what filtering once keeps.
pub proof fn law_filter_twice_is_once(
    t: SpecTableAbstract,
    condition: SpecExpr,
    cache: Map<ValueId, SingleValue>,
    floats: Seq<(Seq<char>, u64)>,
)
    ensures
        filtered(filtered(t, condition, cache, floats), condition, cache, floats) == filtered(
            t,
            condition,
            cache,
            floats,
        ),
{
    let p = meets(condition, table_refs(t.columns), cache, floats);
    lemma_filter_idempotent(t.rows, p);
}

proof fn lemma_filter_idempotent(s: Seq<RowId>, p: spec_fn(RowId) -> bool)
    ensures
        s.filter(p).filter(p) == s.filter(p),
    decreases s.len(),
{
    reveal(Seq::filter);
    if s.len() > 0 {
        lemma_filter_idempotent(s.drop_last(), p);
        let f = s.drop_last().filter(p);
        if p(s.last()) {
            assert(f.push(s.last()).drop_last() =~= f);
        }
    }
}

} // verus!
