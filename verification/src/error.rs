//! Error types.

use vstd::prelude::*;
use vstd::string::StringExecFns;
use crate::numtext::{append_nat, nat_text};

verus! {

/// Errors of the database.
#[derive(Debug)]
pub enum Error {
    Parser(ParserError),
    Table(TableError),
    Index(IndexError),
    Execution(ExecutionError),
    Storage(StorageError),
    Value(ValueError),
    Internal(String),
}

/// Parser errors.
#[derive(Debug, PartialEq, Eq, Structural, Clone, Copy)]
pub enum ParserError {
    InvalidSyntax,
}

/// Table errors.
#[derive(Debug)]
pub enum TableError {
    TableExists(String),
    TableNotFound(String),
    TableNameInvalid(String),
    /// The table schema does not match.
    SchemaMismatch,
    ColumnExists(String),
    ColumnNotFound(String),
    ColumnDefinitionEmpty(String),
    InsertValuesEmpty(String),
    InsertValuesMismatch(String),
    /// A table id does not agree with the table name.
    InvalidTableId(String, u64, u64),
}

/// Index errors.
#[derive(Debug)]
pub enum IndexError {
    IndexExists(String),
    IndexNotFound(String),
    IndexUniqueViolation(String),
}

/// Execution errors.
#[derive(Debug)]
pub enum ExecutionError {
    /// An operator returned a result of an unexpected kind.
    UnexpectedResultType,
    /// The named columns do not exist.
    ColumnsNotFound(String),
}

/// Storage errors.
#[derive(Debug)]
pub enum StorageError {
    FileNotFound(String),
    FileExists(String),
    OpenError(String),
    ReadError(String),
    WriteError(String),
    CloseError(String),
}

/// Value errors.
#[derive(Debug)]
pub enum ValueError {
    TypeMismatch { expected: String, found: String },
    InvalidFormat,
    ParseError(String),
    DivisionByZero,
}

broadcast use vstd::string::group_string_axioms;

// ----- messages -----

/// `a`, then `b`, then `c`.
fn text3(a: &str, b: &str, c: &str) -> (r: String)
    ensures
        r@ == a@ + b@ + c@,
{
    let mut s = String::from_str(a);
    s.append(b);
    s.append(c);
    s
}

/// `a`, then `b`.
fn text2(a: &str, b: &str) -> (r: String)
    ensures
        r@ == a@ + b@,
{
    let mut s = String::from_str(a);
    s.append(b);
    s
}

pub open spec fn parser_error_text(e: ParserError) -> Seq<char> {
    match e {
        ParserError::InvalidSyntax => "Invalid SQL syntax"@,
    }
}

pub open spec fn table_error_text(e: TableError) -> Seq<char> {
    match e {
        TableError::TableExists(n) => "Table '"@ + n@ + "' already exists"@,
        TableError::TableNotFound(n) => "Table '"@ + n@ + "' not found"@,
        TableError::TableNameInvalid(n) => "Table name '"@ + n@ + "' is invalid"@,
        TableError::SchemaMismatch => "Table schema mismatch"@,
        TableError::ColumnExists(n) => "Column '"@ + n@ + "' already exists"@,
        TableError::ColumnNotFound(n) => "Column '"@ + n@ + "' not found"@,
        TableError::ColumnDefinitionEmpty(n) => "Column '"@ + n@ + "' definition is empty"@,
        TableError::InsertValuesEmpty(m) => m@,
        TableError::InsertValuesMismatch(m) => m@,
        TableError::InvalidTableId(n, id, expected) => "Table '"@ + n@ + "' ID "@ + nat_text(id as nat)
            + " does not match expected ID "@ + nat_text(expected as nat),
    }
}

pub open spec fn index_error_text(e: IndexError) -> Seq<char> {
    match e {
        IndexError::IndexExists(n) => "Index '"@ + n@ + "' already exists"@,
        IndexError::IndexNotFound(n) => "Index '"@ + n@ + "' not found"@,
        IndexError::IndexUniqueViolation(m) => "Index unique violation: "@ + m@,
    }
}

pub open spec fn execution_error_text(e: ExecutionError) -> Seq<char> {
    match e {
        ExecutionError::UnexpectedResultType => "Unexpected result type"@,
        ExecutionError::ColumnsNotFound(c) => "Columns not found: "@ + c@,
    }
}

pub open spec fn storage_error_text(e: StorageError) -> Seq<char> {
    match e {
        StorageError::FileNotFound(p) => "Storage file not found: "@ + p@,
        StorageError::FileExists(p) => "Storage file already exists: "@ + p@,
        StorageError::OpenError(p) => "Failed to open storage file: "@ + p@,
        StorageError::ReadError(p) => "Failed to read storage file: "@ + p@,
        StorageError::WriteError(p) => "Failed to write storage file: "@ + p@,
        StorageError::CloseError(p) => "Failed to close storage file: "@ + p@,
    }
}

pub open spec fn value_error_text(e: ValueError) -> Seq<char> {
    match e {
        ValueError::TypeMismatch { expected, found } => "Value type mismatch: expected "@ + expected@
            + ", found "@ + found@,
        ValueError::InvalidFormat => "Value format is invalid"@,
        ValueError::ParseError(m) => "Failed to parse value: "@ + m@,
        ValueError::DivisionByZero => "Division by zero"@,
    }
}

pub open spec fn error_text(e: Error) -> Seq<char> {
    match e {
        Error::Parser(x) => "Parser Error: "@ + parser_error_text(x),
        Error::Table(x) => "Table Error: "@ + table_error_text(x),
        Error::Index(x) => "Index Error: "@ + index_error_text(x),
        Error::Execution(x) => "Execution Error: "@ + execution_error_text(x),
        Error::Storage(x) => "Storage Error: "@ + storage_error_text(x),
        Error::Value(x) => "Value Error: "@ + value_error_text(x),
        Error::Internal(m) => "Internal Error: "@ + m@,
    }
}

impl ParserError {
    /// The text shown for the error.
    pub fn message(&self) -> (r: String)
        ensures
            r@ == parser_error_text(*self),
    {
        match self {
            ParserError::InvalidSyntax => String::from_str("Invalid SQL syntax"),
        }
    }
}

impl TableError {
    /// The text shown for the error.
    pub fn message(&self) -> (r: String)
        ensures
            r@ == table_error_text(*self),
    {
        match self {
            TableError::TableExists(n) => text3("Table '", n.as_str(), "' already exists"),
            TableError::TableNotFound(n) => text3("Table '", n.as_str(), "' not found"),
            TableError::TableNameInvalid(n) => text3("Table name '", n.as_str(), "' is invalid"),
            TableError::SchemaMismatch => String::from_str("Table schema mismatch"),
            TableError::ColumnExists(n) => text3("Column '", n.as_str(), "' already exists"),
            TableError::ColumnNotFound(n) => text3("Column '", n.as_str(), "' not found"),
            TableError::ColumnDefinitionEmpty(n) => text3("Column '", n.as_str(), "' definition is empty"),
            TableError::InsertValuesEmpty(m) => m.clone(),
            TableError::InsertValuesMismatch(m) => m.clone(),
            TableError::InvalidTableId(n, id, expected) => {
                let mut s = text3("Table '", n.as_str(), "' ID ");
                append_nat(&mut s, *id);
                s.append(" does not match expected ID ");
                append_nat(&mut s, *expected);
                s
            },
        }
    }
}

impl IndexError {
    /// The text shown for the error.
    pub fn message(&self) -> (r: String)
        ensures
            r@ == index_error_text(*self),
    {
        match self {
            IndexError::IndexExists(n) => text3("Index '", n.as_str(), "' already exists"),
            IndexError::IndexNotFound(n) => text3("Index '", n.as_str(), "' not found"),
            IndexError::IndexUniqueViolation(m) => text2("Index unique violation: ", m.as_str()),
        }
    }
}

impl ExecutionError {
    /// The text shown for the error.
    pub fn message(&self) -> (r: String)
        ensures
            r@ == execution_error_text(*self),
    {
        match self {
            ExecutionError::UnexpectedResultType => String::from_str("Unexpected result type"),
            ExecutionError::ColumnsNotFound(c) => text2("Columns not found: ", c.as_str()),
        }
    }
}

impl StorageError {
    /// The text shown for the error.
    pub fn message(&self) -> (r: String)
        ensures
            r@ == storage_error_text(*self),
    {
        match self {
            StorageError::FileNotFound(p) => text2("Storage file not found: ", p.as_str()),
            StorageError::FileExists(p) => text2("Storage file already exists: ", p.as_str()),
            StorageError::OpenError(p) => text2("Failed to open storage file: ", p.as_str()),
            StorageError::ReadError(p) => text2("Failed to read storage file: ", p.as_str()),
            StorageError::WriteError(p) => text2("Failed to write storage file: ", p.as_str()),
            StorageError::CloseError(p) => text2("Failed to close storage file: ", p.as_str()),
        }
    }
}

impl ValueError {
    /// The text shown for the error.
    pub fn message(&self) -> (r: String)
        ensures
            r@ == value_error_text(*self),
    {
        match self {
            ValueError::TypeMismatch { expected, found } => {
                let mut s = text3("Value type mismatch: expected ", expected.as_str(), ", found ");
                s.append(found.as_str());
                s
            },
            ValueError::InvalidFormat => String::from_str("Value format is invalid"),
            ValueError::ParseError(m) => text2("Failed to parse value: ", m.as_str()),
            ValueError::DivisionByZero => String::from_str("Division by zero"),
        }
    }
}

impl Error {
    /// The text shown for the error.
    pub fn message(&self) -> (r: String)
        ensures
            r@ == error_text(*self),
    {
        match self {
            Error::Parser(x) => text2("Parser Error: ", x.message().as_str()),
            Error::Table(x) => text2("Table Error: ", x.message().as_str()),
            Error::Index(x) => text2("Index Error: ", x.message().as_str()),
            Error::Execution(x) => text2("Execution Error: ", x.message().as_str()),
            Error::Storage(x) => text2("Storage Error: ", x.message().as_str()),
            Error::Value(x) => text2("Value Error: ", x.message().as_str()),
            Error::Internal(m) => text2("Internal Error: ", m.as_str()),
        }
    }
}

// ----- conversions -----

impl From<ParserError> for Error {
    fn from(e: ParserError) -> (r: Self) {
        Error::Parser(e)
    }
}

impl vstd::std_specs::convert::FromSpecImpl<ParserError> for Error {
    open spec fn obeys_from_spec() -> bool {
        true
    }

    open spec fn from_spec(e: ParserError) -> Self {
        Error::Parser(e)
    }
}

impl From<TableError> for Error {
    fn from(e: TableError) -> (r: Self) {
        Error::Table(e)
    }
}

impl vstd::std_specs::convert::FromSpecImpl<TableError> for Error {
    open spec fn obeys_from_spec() -> bool {
        true
    }

    open spec fn from_spec(e: TableError) -> Self {
        Error::Table(e)
    }
}

impl From<IndexError> for Error {
    fn from(e: IndexError) -> (r: Self) {
        Error::Index(e)
    }
}

impl vstd::std_specs::convert::FromSpecImpl<IndexError> for Error {
    open spec fn obeys_from_spec() -> bool {
        true
    }

    open spec fn from_spec(e: IndexError) -> Self {
        Error::Index(e)
    }
}

impl From<ExecutionError> for Error {
    fn from(e: ExecutionError) -> (r: Self) {
        Error::Execution(e)
    }
}

impl vstd::std_specs::convert::FromSpecImpl<ExecutionError> for Error {
    open spec fn obeys_from_spec() -> bool {
        true
    }

    open spec fn from_spec(e: ExecutionError) -> Self {
        Error::Execution(e)
    }
}

impl From<StorageError> for Error {
    fn from(e: StorageError) -> (r: Self) {
        Error::Storage(e)
    }
}

impl vstd::std_specs::convert::FromSpecImpl<StorageError> for Error {
    open spec fn obeys_from_spec() -> bool {
        true
    }

    open spec fn from_spec(e: StorageError) -> Self {
        Error::Storage(e)
    }
}

impl From<ValueError> for Error {
    fn from(e: ValueError) -> (r: Self) {
        Error::Value(e)
    }
}

impl vstd::std_specs::convert::FromSpecImpl<ValueError> for Error {
    open spec fn obeys_from_spec() -> bool {
        true
    }

    open spec fn from_spec(e: ValueError) -> Self {
        Error::Value(e)
    }
}

} // verus!
