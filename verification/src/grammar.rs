//! The statement grammar, stated over character sequences.
//!
//! Each `sp_` function reads a construct at a position of the input and
//! gives the value read with the position after it, or `None` where the
//! construct does not occur there. The executable parser in `parser`
//! is proved to compute exactly these functions.

use vstd::prelude::*;
use crate::text::{CharClass, run_end, ws_end, lemma_run_end, tag_at, tag_nc_at, is_ascii_alpha, is_unicode_white, find_from};
use crate::value::DataType;
use crate::expression::{SpecExpr, BinaryOp, FunctionType};
use crate::stmt::{SpecStmt, SpecColumn, ColumnConstraint, StmtType};

verus! {

/// The keywords and fixed spellings of the grammar.
#[derive(Clone, Copy, PartialEq, Eq, Debug)]
pub enum Keyword {
    Select,
    Create,
    Table,
    Insert,
    Into,
    Update,
    Delete,
    Drop,
    Show,
    Tables,
    From,
    FromLower,
    As,
    Where,
    Length,
    True,
    False,
    Integer,
    Int,
    Float,
    Text,
    Varchar,
    Boolean,
    PrimaryKey,
    Not,
    Null,
    Values,
}

pub open spec fn kw(k: Keyword) -> Seq<char> {
    match k {
        Keyword::Select => seq!['S', 'E', 'L', 'E', 'C', 'T'],
        Keyword::Create => seq!['C', 'R', 'E', 'A', 'T', 'E'],
        Keyword::Table => seq!['T', 'A', 'B', 'L', 'E'],
        Keyword::Insert => seq!['I', 'N', 'S', 'E', 'R', 'T'],
        Keyword::Into => seq!['I', 'N', 'T', 'O'],
        Keyword::Update => seq!['U', 'P', 'D', 'A', 'T', 'E'],
        Keyword::Delete => seq!['D', 'E', 'L', 'E', 'T', 'E'],
        Keyword::Drop => seq!['D', 'R', 'O', 'P'],
        Keyword::Show => seq!['S', 'H', 'O', 'W'],
        Keyword::Tables => seq!['T', 'A', 'B', 'L', 'E', 'S'],
        Keyword::From => seq!['F', 'R', 'O', 'M'],
        Keyword::FromLower => seq!['f', 'r', 'o', 'm'],
        Keyword::As => seq!['A', 'S'],
        Keyword::Where => seq!['W', 'H', 'E', 'R', 'E'],
        Keyword::Length => seq!['L', 'E', 'N', 'G', 'T', 'H'],
        Keyword::True => seq!['T', 'R', 'U', 'E'],
        Keyword::False => seq!['F', 'A', 'L', 'S', 'E'],
        Keyword::Integer => seq!['I', 'N', 'T', 'E', 'G', 'E', 'R'],
        Keyword::Int => seq!['I', 'N', 'T'],
        Keyword::Float => seq!['F', 'L', 'O', 'A', 'T'],
        Keyword::Text => seq!['T', 'E', 'X', 'T'],
        Keyword::Varchar => seq!['V', 'A', 'R', 'C', 'H', 'A', 'R'],
        Keyword::Boolean => seq!['B', 'O', 'O', 'L', 'E', 'A', 'N'],
        Keyword::PrimaryKey => seq!['P', 'R', 'I', 'M', 'A', 'R', 'Y', ' ', 'K', 'E', 'Y'],
        Keyword::Not => seq!['N', 'O', 'T'],
        Keyword::Null => seq!['N', 'U', 'L', 'L'],
        Keyword::Values => seq!['V', 'A', 'L', 'U', 'E', 'S'],
    }
}

/// A single-character spelling.
pub open spec fn ch(c: char) -> Seq<char> {
    seq![c]
}

/// An identifier: a letter or `_`, then letters, digits and `_`. Gives its end.
pub open spec fn sp_ident(s: Seq<char>, i: int) -> Option<int> {
    if 0 <= i < s.len() && (is_ascii_alpha(s[i]) || s[i] == '_') {
        Some(run_end(s, i + 1, CharClass::Word))
    } else {
        None
    }
}

/// A quoted run `q ... q` of at least one character. Gives the end after the closing quote.
pub open spec fn sp_quoted(s: Seq<char>, i: int, q: char, inside: CharClass) -> Option<int> {
    if 0 <= i < s.len() && s[i] == q {
        let j = run_end(s, i + 1, inside);
        if j > i + 1 && j < s.len() {
            Some(j + 1)
        } else {
            None
        }
    } else {
        None
    }
}

/// A constant: `'text'`, `12.34`, `12`, `TRUE` or `FALSE` (the last two in any case).
pub open spec fn sp_constant(s: Seq<char>, i: int) -> Option<(SpecExpr, int)> {
    match sp_quoted(s, i, '\'', CharClass::NotQuote) {
        Some(e) => Some(
            (SpecExpr::Constant { value: s.subrange(i + 1, e - 1), data_type: DataType::Text }, e),
        ),
        None => {
            let d = run_end(s, i, CharClass::Digit);
            let f = run_end(s, d + 1, CharClass::Digit);
            if 0 <= i && d > i && d < s.len() && s[d] == '.' && f > d + 1 {
                Some((SpecExpr::Constant { value: s.subrange(i, f), data_type: DataType::Float }, f))
            } else if 0 <= i && d > i {
                Some(
                    (SpecExpr::Constant { value: s.subrange(i, d), data_type: DataType::Integer }, d),
                )
            } else if tag_nc_at(s, i, kw(Keyword::True)) {
                Some(
                    (
                        SpecExpr::Constant { value: kw(Keyword::True), data_type: DataType::Boolean },
                        i + 4,
                    ),
                )
            } else if tag_nc_at(s, i, kw(Keyword::False)) {
                Some(
                    (
                        SpecExpr::Constant {
                            value: kw(Keyword::False),
                            data_type: DataType::Boolean,
                        },
                        i + 5,
                    ),
                )
            } else {
                None
            }
        },
    }
}

/// An identifier read as an expression.
pub open spec fn sp_ident_expr(s: Seq<char>, i: int) -> Option<(SpecExpr, int)> {
    match sp_ident(s, i) {
        Some(e) => Some((SpecExpr::Identifier { name: s.subrange(i, e) }, e)),
        None => None,
    }
}

/// An expression: a function call, else a sum of products, else a constant, else an identifier.
pub open spec fn sp_expr(s: Seq<char>, i: int) -> Option<(SpecExpr, int)>
    decreases s.len() - i, 5int,
{
    match sp_function(s, i) {
        Some(r) => Some(r),
        None => match sp_binary(s, i) {
            Some(r) => Some(r),
            None => match sp_constant(s, i) {
                Some(r) => Some(r),
                None => sp_ident_expr(s, i),
            },
        },
    }
}

/// `LENGTH(expr, ...)`; the name is matched without case but only `LENGTH` is accepted.
pub open spec fn sp_function(s: Seq<char>, i: int) -> Option<(SpecExpr, int)>
    decreases s.len() - i, 4int,
{
    if tag_at(s, i, kw(Keyword::Length)) && tag_at(s, i + 6, ch('(')) {
        match sp_args(s, i + 7) {
            Some((args, e)) => if tag_at(s, e, ch(')')) {
                Some((SpecExpr::Function { function_type: FunctionType::LENGTH, args }, e + 1))
            } else {
                None
            },
            None => None,
        }
    } else {
        None
    }
}

/// Expressions separated by `,`.
pub open spec fn sp_args(s: Seq<char>, j: int) -> Option<(Seq<SpecExpr>, int)>
    decreases s.len() - j, 6int,
{
    match sp_expr(s, j) {
        Some((x, e)) => if j < e <= s.len() {
            let r = sp_args_rest(s, e);
            Some((seq![x] + r.0, r.1))
        } else {
            Some((seq![x], e))
        },
        None => None,
    }
}

/// The `, expr` items that follow a first argument at `e`.
pub open spec fn sp_args_rest(s: Seq<char>, e: int) -> (Seq<SpecExpr>, int)
    decreases s.len() - e, 0int,
{
    if 0 <= e < s.len() && s[e] == ',' {
        match sp_expr(s, e + 1) {
            Some((x, e2)) => if e + 1 < e2 <= s.len() {
                let r = sp_args_rest(s, e2);
                (seq![x] + r.0, r.1)
            } else {
                (Seq::empty(), e)
            },
            None => (Seq::empty(), e),
        }
    } else {
        (Seq::empty(), e)
    }
}

pub open spec fn additive_op(c: char) -> BinaryOp {
    if c == '+' {
        BinaryOp::Add
    } else {
        BinaryOp::Subtract
    }
}

pub open spec fn multiplicative_op(c: char) -> BinaryOp {
    if c == '*' {
        BinaryOp::Multiply
    } else {
        BinaryOp::Divide
    }
}

/// Terms joined by `+` and `-`, grouped to the left.
pub open spec fn sp_binary(s: Seq<char>, i: int) -> Option<(SpecExpr, int)>
    decreases s.len() - i, 3int,
{
    match sp_term(s, i) {
        Some((t, e)) => if i < e <= s.len() {
            Some(sp_binary_rest(s, e, t))
        } else {
            Some((t, e))
        },
        None => None,
    }
}

/// Folds the `+ term` and `- term` that follow `acc` at `e`.
pub open spec fn sp_binary_rest(s: Seq<char>, e: int, acc: SpecExpr) -> (SpecExpr, int)
    decreases s.len() - e, 0int,
{
    if 0 <= e <= s.len() {
        let j = ws_end(s, e);
        if j < s.len() && (s[j] == '+' || s[j] == '-') {
            let k = ws_end(s, j + 1);
            proof {
                lemma_run_end(s, e, CharClass::Space);
                lemma_run_end(s, j + 1, CharClass::Space);
            }
            match sp_term(s, k) {
                Some((t, e2)) => if k < e2 <= s.len() {
                    sp_binary_rest(
                        s,
                        e2,
                        SpecExpr::Binary {
                            left: Box::new(acc),
                            op: additive_op(s[j]),
                            right: Box::new(t),
                        },
                    )
                } else {
                    (acc, e)
                },
                None => (acc, e),
            }
        } else {
            (acc, e)
        }
    } else {
        (acc, e)
    }
}

/// Factors joined by `*` and `/`, grouped to the left.
pub open spec fn sp_term(s: Seq<char>, i: int) -> Option<(SpecExpr, int)>
    decreases s.len() - i, 2int,
{
    match sp_factor(s, i) {
        Some((f, e)) => if i < e <= s.len() {
            Some(sp_term_rest(s, e, f))
        } else {
            Some((f, e))
        },
        None => None,
    }
}

/// Folds the `* factor` and `/ factor` that follow `acc` at `e`.
pub open spec fn sp_term_rest(s: Seq<char>, e: int, acc: SpecExpr) -> (SpecExpr, int)
    decreases s.len() - e, 0int,
{
    if 0 <= e <= s.len() {
        let j = ws_end(s, e);
        if j < s.len() && (s[j] == '*' || s[j] == '/') {
            let k = ws_end(s, j + 1);
            proof {
                lemma_run_end(s, e, CharClass::Space);
                lemma_run_end(s, j + 1, CharClass::Space);
            }
            match sp_factor(s, k) {
                Some((f, e2)) => if k < e2 <= s.len() {
                    sp_term_rest(
                        s,
                        e2,
                        SpecExpr::Binary {
                            left: Box::new(acc),
                            op: multiplicative_op(s[j]),
                            right: Box::new(f),
                        },
                    )
                } else {
                    (acc, e)
                },
                None => (acc, e),
            }
        } else {
            (acc, e)
        }
    } else {
        (acc, e)
    }
}

/// A parenthesized expression, else a constant, else an identifier.
pub open spec fn sp_factor(s: Seq<char>, i: int) -> Option<(SpecExpr, int)>
    decreases s.len() - i, 1int,
{
    let p = if tag_at(s, i, ch('(')) {
        match sp_expr(s, i + 1) {
            Some((x, e)) => if tag_at(s, e, ch(')')) {
                Some((x, e + 1))
            } else {
                None
            },
            None => None,
        }
    } else {
        None
    };
    match p {
        Some(r) => Some(r),
        None => match sp_constant(s, i) {
            Some(r) => Some(r),
            None => sp_ident_expr(s, i),
        },
    }
}


/// The leading keywords of a statement, read at `i`.
pub open spec fn sp_stmt_type(s: Seq<char>, i: int) -> Option<(StmtType, int)> {
    if tag_nc_at(s, i, kw(Keyword::Select)) {
        Some((StmtType::Select, i + 6))
    } else if tag_nc_at(s, i, kw(Keyword::Create)) && ws_end(s, i + 6) > i + 6 && tag_nc_at(
        s,
        ws_end(s, i + 6),
        kw(Keyword::Table),
    ) {
        Some((StmtType::Create, ws_end(s, i + 6) + 5))
    } else if tag_nc_at(s, i, kw(Keyword::Insert)) && ws_end(s, i + 6) > i + 6 && tag_nc_at(
        s,
        ws_end(s, i + 6),
        kw(Keyword::Into),
    ) {
        Some((StmtType::Insert, ws_end(s, i + 6) + 4))
    } else if tag_nc_at(s, i, kw(Keyword::Update)) {
        Some((StmtType::Update, i + 6))
    } else if tag_nc_at(s, i, kw(Keyword::Delete)) {
        Some((StmtType::Delete, i + 6))
    } else if tag_nc_at(s, i, kw(Keyword::Drop)) && ws_end(s, i + 4) > i + 4 && tag_nc_at(
        s,
        ws_end(s, i + 4),
        kw(Keyword::Table),
    ) {
        Some((StmtType::Drop, ws_end(s, i + 4) + 5))
    } else if tag_nc_at(s, i, kw(Keyword::Show)) && ws_end(s, i + 4) > i + 4 && tag_nc_at(
        s,
        ws_end(s, i + 4),
        kw(Keyword::Tables),
    ) {
        Some((StmtType::ShowTables, ws_end(s, i + 4) + 6))
    } else {
        None
    }
}

/// An optional alias after `r`: white space, an optional `AS` followed by white
/// space, then an identifier. Where none is read, the position stays at `r`.
pub open spec fn sp_alias(s: Seq<char>, r: int) -> (Option<Seq<char>>, int) {
    let w = ws_end(s, r);
    if w > r {
        if tag_nc_at(s, w, kw(Keyword::As)) && ws_end(s, w + 2) > w + 2 {
            let x = ws_end(s, w + 2);
            match sp_ident(s, x) {
                Some(e) => (Some(s.subrange(x, e)), e),
                None => (None, r),
            }
        } else {
            match sp_ident(s, w) {
                Some(e) => (Some(s.subrange(w, e)), e),
                None => (None, r),
            }
        }
    } else {
        (None, r)
    }
}

/// End of the leading Unicode white space of `[a, b)`.
pub open spec fn trim_lo(s: Seq<char>, a: int, b: int) -> int {
    let r = run_end(s, a, CharClass::White);
    if r < b {
        r
    } else {
        b
    }
}

/// End of `[lo, b)` once its trailing Unicode white space is dropped.
pub open spec fn trim_hi(s: Seq<char>, lo: int, b: int) -> int
    decreases b - lo,
{
    if b > lo && 0 < b <= s.len() && is_unicode_white(s[b - 1]) {
        trim_hi(s, lo, b - 1)
    } else {
        b
    }
}

/// One item of a SELECT column list: a name (an identifier or `*`) and an
/// optional alias; what follows them in the item is not read.
pub open spec fn sp_col_item(p: Seq<char>) -> Option<SpecColumn> {
    let n = if p.len() > 0 && (is_ascii_alpha(p[0]) || p[0] == '_') {
        Some(run_end(p, 1, CharClass::Word))
    } else if p.len() > 0 && p[0] == '*' {
        Some(1int)
    } else {
        None
    };
    match n {
        Some(n) => Some(
            SpecColumn {
                name: p.subrange(0, n),
                alias: sp_alias(p, n).0,
                data_type: DataType::Null,
                constraints: Seq::empty(),
                default_value: None,
            },
        ),
        None => None,
    }
}

/// End of the comma-free run of `[a, hi)`.
pub open spec fn comma_end(s: Seq<char>, a: int, hi: int) -> int {
    let r = run_end(s, a, CharClass::NotComma);
    if r < hi {
        r
    } else {
        hi
    }
}

/// The `,`-separated items of `[a, hi)`, each trimmed; every one must read.
pub open spec fn sp_col_pieces(c: Seq<char>, a: int, hi: int) -> Option<Seq<SpecColumn>>
    decreases hi - a,
{
    if 0 <= a <= hi <= c.len() {
        let k = comma_end(c, a, hi);
        let pl = trim_lo(c, a, k);
        let ph = trim_hi(c, pl, k);
        proof {
            lemma_run_end(c, a, CharClass::NotComma);
        }
        match sp_col_item(c.subrange(pl, ph)) {
            Some(col) => if k < hi {
                match sp_col_pieces(c, k + 1, hi) {
                    Some(rest) => Some(seq![col] + rest),
                    None => None,
                }
            } else {
                Some(seq![col])
            },
            None => None,
        }
    } else {
        None
    }
}

/// The column list of a SELECT, the text before `FROM`.
pub open spec fn sp_select_columns(c: Seq<char>) -> Option<Seq<SpecColumn>> {
    let a = ws_end(c, 0);
    let lo = trim_lo(c, a, c.len() as int);
    let hi = trim_hi(c, lo, c.len() as int);
    sp_col_pieces(c, lo, hi)
}

/// An optional `WHERE expr` at `r`.
pub open spec fn sp_where(s: Seq<char>, r: int) -> (Option<SpecExpr>, int) {
    if tag_nc_at(s, r, kw(Keyword::Where)) && ws_end(s, r + 5) > r + 5 {
        match sp_expr(s, ws_end(s, r + 5)) {
            Some((x, e)) => (Some(x), e),
            None => (None, r),
        }
    } else {
        (None, r)
    }
}

/// The first occurrence of `FROM`, else of `from`, at or after `j`.
pub open spec fn from_pos(s: Seq<char>, j: int) -> Option<int> {
    match find_from(s, j, kw(Keyword::From)) {
        Some(p) => Some(p),
        None => find_from(s, j, kw(Keyword::FromLower)),
    }
}

/// The rest of a SELECT after its keyword.
pub open spec fn sp_select(s: Seq<char>, i: int) -> Option<(SpecStmt, int)> {
    let j = ws_end(s, i);
    match from_pos(s, j) {
        Some(p) => match sp_select_columns(s.subrange(j, p)) {
            Some(cols) => if tag_nc_at(s, p, kw(Keyword::From)) {
                let q = ws_end(s, p + 4);
                let a = run_end(s, q, CharClass::AlphaNum);
                if a > q {
                    let r = ws_end(s, a);
                    let al = sp_alias(s, r);
                    let w = sp_where(s, al.1);
                    Some(
                        (
                            SpecStmt::Select {
                                columns: cols,
                                table_name: s.subrange(q, a),
                                table_alias: al.0,
                                where_expr: w.0,
                            },
                            w.1,
                        ),
                    )
                } else {
                    None
                }
            } else {
                None
            },
            None => None,
        },
        None => None,
    }
}

/// A column type name.
pub open spec fn sp_data_type(s: Seq<char>, w: int) -> Option<(DataType, int)> {
    if tag_nc_at(s, w, kw(Keyword::Integer)) {
        Some((DataType::Integer, w + 7))
    } else if tag_nc_at(s, w, kw(Keyword::Int)) {
        Some((DataType::Integer, w + 3))
    } else if tag_nc_at(s, w, kw(Keyword::Float)) {
        Some((DataType::Float, w + 5))
    } else if tag_nc_at(s, w, kw(Keyword::Text)) {
        Some((DataType::Text, w + 4))
    } else if tag_nc_at(s, w, kw(Keyword::Varchar)) {
        Some((DataType::Text, w + 7))
    } else if tag_nc_at(s, w, kw(Keyword::Boolean)) {
        Some((DataType::Boolean, w + 7))
    } else {
        None
    }
}

/// A column constraint.
pub open spec fn sp_constraint(s: Seq<char>, r: int) -> Option<(ColumnConstraint, int)> {
    if tag_nc_at(s, r, kw(Keyword::PrimaryKey)) {
        Some((ColumnConstraint::PrimaryKey, r + 11))
    } else if tag_nc_at(s, r, kw(Keyword::Not)) && tag_nc_at(
        s,
        ws_end(s, r + 3),
        kw(Keyword::Null),
    ) {
        Some((ColumnConstraint::NotNull, ws_end(s, r + 3) + 4))
    } else if tag_nc_at(s, r, kw(Keyword::Null)) {
        Some((ColumnConstraint::Nullable, r + 4))
    } else {
        None
    }
}

/// The constraints of a column definition, each followed by white space.
pub open spec fn sp_constraints(s: Seq<char>, r: int) -> (Seq<ColumnConstraint>, int)
    decreases s.len() - r,
{
    match sp_constraint(s, r) {
        Some((c, n)) => if r < n <= s.len() {
            proof {
                lemma_run_end(s, n, CharClass::Space);
            }
            let t = sp_constraints(s, ws_end(s, n));
            (seq![c] + t.0, t.1)
        } else {
            (Seq::empty(), r)
        },
        None => (Seq::empty(), r),
    }
}

/// A column definition: name, white space, type, constraints.
pub open spec fn sp_coldef(s: Seq<char>, j: int) -> Option<(SpecColumn, int)> {
    let a = ws_end(s, j);
    match sp_ident(s, a) {
        Some(e) => {
            let w = ws_end(s, e);
            if w > e {
                match sp_data_type(s, w) {
                    Some((dt, d)) => {
                        let t = sp_constraints(s, ws_end(s, d));
                        Some(
                            (
                                SpecColumn {
                                    name: s.subrange(a, e),
                                    alias: None,
                                    data_type: dt,
                                    constraints: t.0,
                                    default_value: None,
                                },
                                t.1,
                            ),
                        )
                    },
                    None => None,
                }
            } else {
                None
            }
        },
        None => None,
    }
}

/// The `, column definition` items that follow at `e`.
pub open spec fn sp_coldefs_rest(s: Seq<char>, e: int) -> (Seq<SpecColumn>, int)
    decreases s.len() - e,
{
    let x = ws_end(s, e);
    if 0 <= e <= s.len() && x < s.len() && s[x] == ',' {
        match sp_coldef(s, ws_end(s, x + 1)) {
            Some((c, e2)) => if e < e2 <= s.len() {
                let r = sp_coldefs_rest(s, e2);
                (seq![c] + r.0, r.1)
            } else {
                (Seq::empty(), e)
            },
            None => (Seq::empty(), e),
        }
    } else {
        (Seq::empty(), e)
    }
}

/// Column definitions separated by `,`.
pub open spec fn sp_coldefs(s: Seq<char>, j: int) -> Option<(Seq<SpecColumn>, int)> {
    match sp_coldef(s, j) {
        Some((c, e)) => if j < e <= s.len() {
            let r = sp_coldefs_rest(s, e);
            Some((seq![c] + r.0, r.1))
        } else {
            Some((seq![c], e))
        },
        None => None,
    }
}

/// The rest of a CREATE TABLE after its keywords.
pub open spec fn sp_create(s: Seq<char>, i: int) -> Option<(SpecStmt, int)> {
    let a = ws_end(s, i);
    match sp_ident(s, a) {
        Some(e1) => {
            let b = ws_end(s, e1);
            if tag_at(s, b, ch('(')) {
                match sp_coldefs(s, b + 1) {
                    Some((cols, c)) => if tag_at(s, c, ch(')')) {
                        Some((SpecStmt::Create { table_name: s.subrange(a, e1), columns: cols }, c + 1))
                    } else {
                        None
                    },
                    None => None,
                }
            } else {
                None
            }
        },
        None => None,
    }
}

/// The rest of a DROP TABLE after its keywords.
pub open spec fn sp_drop(s: Seq<char>, i: int) -> Option<(SpecStmt, int)> {
    let a = ws_end(s, i);
    match sp_ident(s, a) {
        Some(e) => Some((SpecStmt::Drop { table_name: s.subrange(a, e) }, ws_end(s, e))),
        None => None,
    }
}

/// The `, identifier` items of an INSERT column list that follow at `e`.
pub open spec fn sp_idents_rest(s: Seq<char>, e: int) -> (Seq<Seq<char>>, int)
    decreases s.len() - e,
{
    let y = ws_end(s, e);
    if 0 <= e <= s.len() && y < s.len() && s[y] == ',' {
        let z = ws_end(s, ws_end(s, y + 1));
        match sp_ident(s, z) {
            Some(e2) => if e < e2 <= s.len() {
                let r = sp_idents_rest(s, e2);
                (seq![s.subrange(z, e2)] + r.0, r.1)
            } else {
                (Seq::empty(), e)
            },
            None => (Seq::empty(), e),
        }
    } else {
        (Seq::empty(), e)
    }
}

/// An INSERT column list `(a, b, ...)`.
pub open spec fn sp_insert_cols(s: Seq<char>, b: int) -> Option<(Seq<Seq<char>>, int)> {
    if tag_at(s, b, ch('(')) {
        let x = ws_end(s, b + 1);
        match sp_ident(s, x) {
            Some(e) => {
                let r = sp_idents_rest(s, e);
                let z = ws_end(s, r.1);
                if tag_at(s, z, ch(')')) {
                    Some((seq![s.subrange(x, e)] + r.0, z + 1))
                } else {
                    None
                }
            },
            None => None,
        }
    } else {
        None
    }
}

/// One value of a VALUES row: `'text'`, `"text"` or a bare word.
pub open spec fn sp_value(s: Seq<char>, v: int) -> Option<(Seq<char>, int)> {
    let a = ws_end(s, v);
    match sp_quoted(s, a, '\'', CharClass::NotQuote) {
        Some(e) => Some((s.subrange(a + 1, e - 1), e)),
        None => match sp_quoted(s, a, '"', CharClass::NotDoubleQuote) {
            Some(e) => Some((s.subrange(a + 1, e - 1), e)),
            None => {
                let u = run_end(s, a, CharClass::Bare);
                if 0 <= a && u > a {
                    Some((s.subrange(a, u), u))
                } else {
                    None
                }
            },
        },
    }
}

/// The `, value` items of a row that follow at `e`.
pub open spec fn sp_values_rest(s: Seq<char>, e: int) -> (Seq<Seq<char>>, int)
    decreases s.len() - e,
{
    let x = ws_end(s, e);
    if 0 <= e <= s.len() && x < s.len() && s[x] == ',' {
        match sp_value(s, ws_end(s, x + 1)) {
            Some((v, e2)) => if e < e2 <= s.len() {
                let r = sp_values_rest(s, e2);
                (seq![v] + r.0, r.1)
            } else {
                (Seq::empty(), e)
            },
            None => (Seq::empty(), e),
        }
    } else {
        (Seq::empty(), e)
    }
}

/// A row `(value, ...)`.
pub open spec fn sp_row(s: Seq<char>, r: int) -> Option<(Seq<Seq<char>>, int)> {
    if tag_at(s, r, ch('(')) {
        match sp_value(s, r + 1) {
            Some((v, e)) => {
                let t = sp_values_rest(s, e);
                let z = ws_end(s, t.1);
                if tag_at(s, z, ch(')')) {
                    Some((seq![v] + t.0, z + 1))
                } else {
                    None
                }
            },
            None => None,
        }
    } else {
        None
    }
}

/// The `, row` items that follow at `e`.
pub open spec fn sp_rows_rest(s: Seq<char>, e: int) -> (Seq<Seq<Seq<char>>>, int)
    decreases s.len() - e,
{
    let x = ws_end(s, e);
    if 0 <= e <= s.len() && x < s.len() && s[x] == ',' {
        match sp_row(s, ws_end(s, x + 1)) {
            Some((r, e2)) => if e < e2 <= s.len() {
                let t = sp_rows_rest(s, e2);
                (seq![r] + t.0, t.1)
            } else {
                (Seq::empty(), e)
            },
            None => (Seq::empty(), e),
        }
    } else {
        (Seq::empty(), e)
    }
}

/// Rows separated by `,`.
pub open spec fn sp_rows(s: Seq<char>, f: int) -> Option<(Seq<Seq<Seq<char>>>, int)> {
    match sp_row(s, f) {
        Some((r, e)) => if f < e <= s.len() {
            let t = sp_rows_rest(s, e);
            Some((seq![r] + t.0, t.1))
        } else {
            Some((seq![r], e))
        },
        None => None,
    }
}

/// The rest of an INSERT INTO after its keywords.
pub open spec fn sp_insert(s: Seq<char>, i: int) -> Option<(SpecStmt, int)> {
    let a = ws_end(s, i);
    match sp_ident(s, a) {
        Some(e1) => {
            let b = ws_end(s, e1);
            let cols = sp_insert_cols(s, b);
            let c = match cols {
                Some((_, c)) => c,
                None => b,
            };
            let d = ws_end(s, c);
            if tag_nc_at(s, d, kw(Keyword::Values)) {
                match sp_rows(s, ws_end(s, d + 6)) {
                    Some((rows, g)) => Some(
                        (
                            SpecStmt::Insert {
                                table_name: s.subrange(a, e1),
                                columns: match cols {
                                    Some((cs, _)) => Some(cs),
                                    None => None,
                                },
                                values: rows,
                            },
                            g,
                        ),
                    ),
                    None => None,
                }
            } else {
                None
            }
        },
        None => None,
    }
}

/// The statement type that `s` opens with, after leading white space.
pub open spec fn sp_leading_type(s: Seq<char>) -> Option<StmtType> {
    match sp_stmt_type(s, ws_end(s, 0)) {
        Some((t, _)) => Some(t),
        None => None,
    }
}

/// A whole statement: the value read and the position where reading stopped.
/// (`UPDATE` and `DELETE` are recognised but have no grammar of their own.)
pub open spec fn sp_stmt(s: Seq<char>) -> Option<(SpecStmt, int)> {
    match sp_stmt_type(s, ws_end(s, 0)) {
        Some((t, j)) => match t {
            StmtType::Select => sp_select(s, j),
            StmtType::Create => sp_create(s, j),
            StmtType::Drop => sp_drop(s, j),
            StmtType::ShowTables => Some((SpecStmt::ShowTables, ws_end(s, j))),
            StmtType::Insert => sp_insert(s, j),
            _ => None,
        },
        None => None,
    }
}

} // verus!
