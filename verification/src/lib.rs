//! A small column-oriented SQL database engine: the statement grammar,
//! query planning and execution over the catalog, the value encoding, the
//! column-file format, the value cache and the in-memory index.

pub mod text;
pub mod error;
pub mod numtext;
pub mod value;
pub mod expression;
pub mod stmt;
pub mod grammar;
pub mod parser;
pub mod storage;
pub mod catalog;
pub mod cache;
pub mod table;
pub mod executor;
pub mod optimizer;
pub mod valueops;
pub mod index;

pub use parser::parse_sql;
pub use optimizer::optimize_stmt;
pub use catalog::CatalogManager;
pub use stmt::Stmt;
pub use value::DataType;
pub use table::TableActual;

use vstd::prelude::*;
use vstd::string::StringExecFns;
use crate::cache::CacheManager;
use crate::error::Error;
use crate::executor::{ExecutionPlan, ExecutionResult, generate_execution_plan, stmt_plan, refusal};
use crate::grammar::sp_stmt;
use crate::stmt::{SpecStmt, StmtType, strings_view};
use crate::table::{readable, agrees, stored_view, column_abstracts_view};
use crate::value::SingleValue;

verus! {

broadcast use vstd::string::group_string_axioms;

/// What a statement gives back: a table of values, or a message.
#[derive(Debug)]
pub enum HandleResult {
    Table(TableActual),
    Message(String),
}

/// The names joined with `sep` between each two.
pub open spec fn joined(names: Seq<Seq<char>>, sep: Seq<char>) -> Seq<char>
    decreases names.len(),
{
    if names.len() == 0 {
        Seq::empty()
    } else if names.len() == 1 {
        names[0]
    } else {
        joined(names.drop_last(), sep) + sep + names.last()
    }
}

/// The message for a result that is not a table.
pub open spec fn result_message(r: crate::executor::SpecResult) -> Seq<char> {
    match r {
        crate::executor::SpecResult::CreateTableSuccess(n) => "创建表 "@ + n + " 成功！"@,
        crate::executor::SpecResult::DropTableSuccess(n) => "删除表 "@ + n + " 成功！"@,
        crate::executor::SpecResult::ShowTablesSuccess(names) => if names.len() == 0 {
            "数据库中暂无表"@
        } else {
            "所有表: "@ + joined(names, ", "@)
        },
        crate::executor::SpecResult::Table(_) => Seq::empty(),
    }
}

/// `names` joined with `, `.
fn join_names(names: &Vec<String>) -> (r: String)
    ensures
        r@ == joined(strings_view(names@), ", "@),
{
    let ghost v = strings_view(names@);
    let mut s = String::new();
    let mut i: usize = 0;
    while i < names.len()
        invariant
            i <= names.len(),
            v == strings_view(names@),
            s@ == joined(v.take(i as int), ", "@),
        decreases names.len() - i,
    {
        proof {
            assert(v.take(i + 1).drop_last() =~= v.take(i as int));
            assert(v.take(i + 1).last() == names@[i as int]@);
        }
        if i > 0 {
            s.append(", ");
        } else {
            proof {
                assert(s@ =~= Seq::<char>::empty());
            }
        }
        s.append(names[i].as_str());
        proof {
            if i == 0 {
                assert(s@ =~= v.take(1)[0]);
            }
        }
        i = i + 1;
    }
    proof {
        assert(v.take(names.len() as int) =~= v);
    }
    s
}

/// Turns a result into what the caller is shown: a table's values read
/// through the cache (`stored` holds the values of the table's cells as its
/// column files hold them), or the message for a change or a listing.
pub fn into_handle_result(
    result: ExecutionResult,
    cache: &mut CacheManager,
    stored: &Vec<Vec<Option<SingleValue>>>,
) -> (r: HandleResult)
    requires
        old(cache).wf(),
        result matches ExecutionResult::Table(t) ==> readable(t@, stored_view(stored@)) && agrees(
            t@,
            stored_view(stored@),
            old(cache).rows(),
        ),
    ensures
        final(cache).wf(),
        final(cache).row_capacity() == old(cache).row_capacity(),
        match result@ {
            crate::executor::SpecResult::Table(t) => r matches HandleResult::Table(a)
                && column_abstracts_view(a.columns@) == t.columns && a.values@.len() == t.rows.len()
                && (forall|i: int| 0 <= i < t.rows.len() ==> #[trigger] a.values@[i]@.len() == t.columns.len())
                && (forall|i: int, j: int|
                    0 <= i < t.rows.len() && 0 <= j < t.columns.len() ==> #[trigger] a.values@[i]@[j]@
                        == stored_view(stored@)[i][j]->0@) && agrees(t, stored_view(stored@), final(cache).rows()),
            other => r matches HandleResult::Message(m) && m@ == result_message(other) && final(cache).entries()
                == old(cache).entries(),
        },
{
    match result {
        ExecutionResult::Table(table) => HandleResult::Table(table.to_actual(cache, stored)),
        ExecutionResult::CreateTableSuccess(name) => {
            let mut s = String::from_str("创建表 ");
            s.append(name.as_str());
            s.append(" 成功！");
            HandleResult::Message(s)
        },
        ExecutionResult::DropTableSuccess(name) => {
            let mut s = String::from_str("删除表 ");
            s.append(name.as_str());
            s.append(" 成功！");
            HandleResult::Message(s)
        },
        ExecutionResult::ShowTablesSuccess(names) => {
            if names.len() == 0 {
                HandleResult::Message(String::from_str("数据库中暂无表"))
            } else {
                let mut s = String::from_str("所有表: ");
                let joined_names = join_names(&names);
                s.append(joined_names.as_str());
                HandleResult::Message(s)
            }
        },
    }
}

/// Statements the engine can plan: `UPDATE` and `DELETE` have no grammar yet
/// and `INSERT` no plan.
pub open spec fn sql_supported(sql: Seq<char>) -> bool {
    &&& crate::grammar::sp_leading_type(sql) != Some(StmtType::Update)
    &&& crate::grammar::sp_leading_type(sql) != Some(StmtType::Delete)
    &&& !(sp_stmt(sql) matches Some((SpecStmt::Insert { .. }, _)))
}

/// Whether the engine can plan `sql` (see `sql_supported`).
pub fn is_supported(sql: &str) -> (b: bool)
    ensures
        b == sql_supported(sql@),
{
    match crate::parser::leading_stmt_type(sql) {
        Some(StmtType::Update) | Some(StmtType::Delete) => false,
        _ => match parse_sql(sql) {
            Ok(Stmt::Insert(_)) => false,
            _ => true,
        },
    }
}

/// Parses, rewrites and plans one statement; a table that it creates is
/// created at `created_at`.
pub fn plan_sql(sql: &str, created_at: i64) -> (r: Result<ExecutionPlan, Error>)
    requires
        sql_supported(sql@),
    ensures
        match sp_stmt(sql@) {
            None => r matches Err(e) && e == Error::Parser(crate::error::ParserError::InvalidSyntax),
            Some((s, _)) => match r {
                Ok(p) => p.wf() && stmt_plan(s, created_at) == Some(p@),
                Err(e) => stmt_plan(s, created_at) is None && refusal(s, e),
            },
        },
{
    let stmt = parse_sql(sql)?;
    let optimized = optimize_stmt(stmt);
    generate_execution_plan(optimized, created_at)
}

/// The text a client is sent for an error: table errors as they are, parse
/// errors and the rest under a heading.
pub open spec fn error_reply_text(e: Error) -> Seq<char> {
    match e {
        Error::Table(_) => crate::error::error_text(e),
        Error::Parser(_) => "无法解析的 SQL 语句: "@ + crate::error::error_text(e),
        _ => "执行错误: "@ + crate::error::error_text(e),
    }
}

/// The text a client is sent for an error.
pub fn error_reply(e: &Error) -> (r: String)
    ensures
        r@ == error_reply_text(*e),
{
    let text = e.message();
    match e {
        Error::Table(_) => text,
        Error::Parser(_) => {
            let mut s = String::from_str("无法解析的 SQL 语句: ");
            s.append(text.as_str());
            s
        },
        _ => {
            let mut s = String::from_str("执行错误: ");
            s.append(text.as_str());
            s
        },
    }
}

} // verus!
