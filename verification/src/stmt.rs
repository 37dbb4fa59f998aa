//! Parsed statements.

use vstd::prelude::*;
use crate::value::DataType;
use crate::expression::{Expr, SpecExpr};

verus! {

/// A parsed statement.
#[derive(Debug)]
pub enum Stmt {
    Select(SelectStmt),
    Create(CreateStmt),
    Drop(DropStmt),
    ShowTables(ShowTablesStmt),
    Insert(InsertStmt),
}

/// The leading keyword(s) of a statement.
#[derive(Debug, PartialEq, Clone, Copy, Structural, Eq)]
pub enum StmtType {
    Select,
    Create,
    Insert,
    Update,
    Delete,
    Drop,
    ShowTables,
}

/// `SELECT columns FROM table [WHERE expr]`.
#[derive(Debug)]
pub struct SelectStmt {
    pub columns: Vec<ColumnStmt>,
    pub table: TableStmt,
    pub where_expr: Option<Expr>,
}

/// Column constraints.
#[derive(Debug, Clone, Copy, PartialEq, Eq, Structural)]
pub enum ColumnConstraint {
    PrimaryKey,
    Nullable,
    NotNull,
}

/// A column, as a SELECT names it or a CREATE TABLE defines it.
#[derive(Debug)]
pub struct ColumnStmt {
    pub name: String,
    pub alias: Option<String>,
    pub data_type: DataType,
    pub constraints: Vec<ColumnConstraint>,
    pub default_value: Option<String>,
}

/// A table reference.
#[derive(Debug)]
pub struct TableStmt {
    pub name: String,
    pub alias: Option<String>,
}

/// `CREATE TABLE name (column definitions)`.
#[derive(Debug)]
pub struct CreateStmt {
    pub table_name: String,
    pub columns: Vec<ColumnStmt>,
}

/// `DROP TABLE name`.
#[derive(Debug)]
pub struct DropStmt {
    pub table_name: String,
}

/// `SHOW TABLES`.
#[derive(Debug)]
pub struct ShowTablesStmt {}

/// `INSERT INTO name [(columns)] VALUES (row), ...`.
#[derive(Debug)]
pub struct InsertStmt {
    pub table_name: String,
    pub columns: Option<Vec<String>>,
    pub values: Vec<Vec<String>>,
}

pub open spec fn opt_view(o: Option<String>) -> Option<Seq<char>> {
    match o {
        Some(s) => Some(s@),
        None => None,
    }
}

pub open spec fn strings_view(v: Seq<String>) -> Seq<Seq<char>> {
    v.map_values(|s: String| s@)
}

pub open spec fn rows_view(v: Seq<Vec<String>>) -> Seq<Seq<Seq<char>>> {
    v.map_values(|r: Vec<String>| strings_view(r@))
}

/// The mathematical form of a column.
pub struct SpecColumn {
    pub name: Seq<char>,
    pub alias: Option<Seq<char>>,
    pub data_type: DataType,
    pub constraints: Seq<ColumnConstraint>,
    pub default_value: Option<Seq<char>>,
}

impl View for ColumnStmt {
    type V = SpecColumn;

    open spec fn view(&self) -> SpecColumn {
        SpecColumn {
            name: self.name@,
            alias: opt_view(self.alias),
            data_type: self.data_type,
            constraints: self.constraints@,
            default_value: opt_view(self.default_value),
        }
    }
}

pub open spec fn columns_view(v: Seq<ColumnStmt>) -> Seq<SpecColumn> {
    v.map_values(|c: ColumnStmt| c@)
}

/// The mathematical form of a statement.
pub enum SpecStmt {
    Select {
        columns: Seq<SpecColumn>,
        table_name: Seq<char>,
        table_alias: Option<Seq<char>>,
        where_expr: Option<SpecExpr>,
    },
    Create { table_name: Seq<char>, columns: Seq<SpecColumn> },
    Drop { table_name: Seq<char> },
    ShowTables,
    Insert {
        table_name: Seq<char>,
        columns: Option<Seq<Seq<char>>>,
        values: Seq<Seq<Seq<char>>>,
    },
}

pub open spec fn opt_expr_view(e: Option<Expr>) -> Option<SpecExpr> {
    match e {
        Some(x) => Some(x@),
        None => None,
    }
}

impl View for Stmt {
    type V = SpecStmt;

    open spec fn view(&self) -> SpecStmt {
        match self {
            Stmt::Select(s) => SpecStmt::Select {
                columns: columns_view(s.columns@),
                table_name: s.table.name@,
                table_alias: opt_view(s.table.alias),
                where_expr: opt_expr_view(s.where_expr),
            },
            Stmt::Create(c) => SpecStmt::Create {
                table_name: c.table_name@,
                columns: columns_view(c.columns@),
            },
            Stmt::Drop(d) => SpecStmt::Drop { table_name: d.table_name@ },
            Stmt::ShowTables(_) => SpecStmt::ShowTables,
            Stmt::Insert(i) => SpecStmt::Insert {
                table_name: i.table_name@,
                columns: match i.columns {
                    Some(c) => Some(strings_view(c@)),
                    None => None,
                },
                values: rows_view(i.values@),
            },
        }
    }
}

impl ColumnStmt {
    /// A column with the given name, no alias, no type yet, no constraints.
    pub fn new(name: &str) -> (c: Self)
        ensures
            c@ == (SpecColumn {
                name: name@,
                alias: None,
                data_type: DataType::Null,
                constraints: Seq::empty(),
                default_value: None,
            }),
    {
        ColumnStmt {
            name: name.to_owned(),
            alias: None,
            data_type: DataType::Null,
            constraints: Vec::new(),
            default_value: None,
        }
    }

    /// Sets the alias.
    pub fn alias(self, alias: Option<String>) -> (c: Self)
        ensures
            c@ == (SpecColumn { alias: opt_view(alias), ..self@ }),
    {
        let mut c = self;
        c.alias = alias;
        c
    }

    /// Sets the data type.
    pub fn data_type(self, data_type: DataType) -> (c: Self)
        ensures
            c@ == (SpecColumn { data_type: data_type, ..self@ }),
    {
        let mut c = self;
        c.data_type = data_type;
        c
    }

    /// Sets the constraints.
    pub fn constraints(self, constraints: Vec<ColumnConstraint>) -> (c: Self)
        ensures
            c@ == (SpecColumn { constraints: constraints@, ..self@ }),
    {
        let mut c = self;
        c.constraints = constraints;
        c
    }
}

} // verus!
