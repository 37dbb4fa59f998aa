//! The executable statement parser; every function computes its `grammar` counterpart.

use vstd::prelude::*;
use vstd::string::StrSliceExecFns;
use crate::text::{
    chars_of, scan, skip_ws, match_tag, match_tag_nc, find, CharClass, run_end, ws_end,
    lemma_run_end, tag_at, tag_nc_at, find_from, is_white,
};
use crate::grammar::{
    Keyword, kw, ch, sp_ident, sp_quoted, sp_constant, sp_ident_expr, sp_expr, sp_function,
    sp_args, sp_args_rest, sp_binary, sp_binary_rest, sp_term, sp_term_rest, sp_factor,
    additive_op, multiplicative_op, sp_stmt_type, sp_alias, trim_lo, trim_hi, sp_col_item,
    comma_end, sp_col_pieces, sp_select_columns, sp_where, from_pos, sp_select, sp_data_type,
    sp_constraint, sp_constraints, sp_coldef, sp_coldefs_rest, sp_coldefs, sp_create, sp_drop,
    sp_idents_rest, sp_insert_cols, sp_value, sp_values_rest, sp_row, sp_rows_rest, sp_rows,
    sp_insert, sp_stmt, sp_leading_type,
};
use crate::stmt::{
    Stmt, StmtType, SelectStmt, ColumnConstraint, ColumnStmt, TableStmt, CreateStmt, DropStmt,
    ShowTablesStmt, InsertStmt, SpecStmt, SpecColumn, opt_view, strings_view, rows_view,
    columns_view,
};
use crate::error::{Error, ParserError};
use crate::value::DataType;
use crate::expression::{
    Expr, ExprNode, ConstantExpr, IdentifierExpr, BinaryExpr, BinaryOp, FunctionExpr,
    FunctionType, SpecExpr, exprs_view,
};

verus! {

broadcast use vstd::string::group_string_axioms;

/// Parser input: the text and its characters.
pub struct Src<'a> {
    pub text: &'a str,
    pub chars: Vec<char>,
}

impl<'a> Src<'a> {
    pub open spec fn wf(&self) -> bool {
        self.chars@ == self.text@
    }

    pub open spec fn s(&self) -> Seq<char> {
        self.chars@
    }

    pub fn new(text: &'a str) -> (r: Src<'a>)
        ensures
            r.wf(),
            r.s() == text@,
    {
        Src { text, chars: chars_of(text) }
    }

    /// The text of positions `[a, b)`.
    pub fn slice(&self, a: usize, b: usize) -> (r: &'a str)
        requires
            self.wf(),
            a <= b <= self.chars.len(),
        ensures
            r@ == self.s().subrange(a as int, b as int),
    {
        self.text.substring_char(a, b)
    }

    /// The owned text of positions `[a, b)`.
    pub fn string(&self, a: usize, b: usize) -> (r: String)
        requires
            self.wf(),
            a <= b <= self.chars.len(),
        ensures
            r@ == self.s().subrange(a as int, b as int),
    {
        self.slice(a, b).to_owned()
    }

    /// Whether the character `c` is at `e`.
    pub fn at(&self, e: usize, c: char) -> (b: bool)
        ensures
            b == tag_at(self.s(), e as int, ch(c)),
    {
        if e < self.chars.len() && self.chars[e] == c {
            proof {
                assert(self.s().subrange(e as int, e + 1) =~= ch(c));
            }
            true
        } else {
            proof {
                if tag_at(self.s(), e as int, ch(c)) {
                    assert(self.s().subrange(e as int, e + 1)[0] == c);
                }
            }
            false
        }
    }
}

/// The characters of a keyword.
pub fn kw_chars(k: Keyword) -> (v: Vec<char>)
    ensures
        v@ == kw(k),
{
    let v = match k {
        Keyword::Select => vec!['S', 'E', 'L', 'E', 'C', 'T'],
        Keyword::Create => vec!['C', 'R', 'E', 'A', 'T', 'E'],
        Keyword::Table => vec!['T', 'A', 'B', 'L', 'E'],
        Keyword::Insert => vec!['I', 'N', 'S', 'E', 'R', 'T'],
        Keyword::Into => vec!['I', 'N', 'T', 'O'],
        Keyword::Update => vec!['U', 'P', 'D', 'A', 'T', 'E'],
        Keyword::Delete => vec!['D', 'E', 'L', 'E', 'T', 'E'],
        Keyword::Drop => vec!['D', 'R', 'O', 'P'],
        Keyword::Show => vec!['S', 'H', 'O', 'W'],
        Keyword::Tables => vec!['T', 'A', 'B', 'L', 'E', 'S'],
        Keyword::From => vec!['F', 'R', 'O', 'M'],
        Keyword::FromLower => vec!['f', 'r', 'o', 'm'],
        Keyword::As => vec!['A', 'S'],
        Keyword::Where => vec!['W', 'H', 'E', 'R', 'E'],
        Keyword::Length => vec!['L', 'E', 'N', 'G', 'T', 'H'],
        Keyword::True => vec!['T', 'R', 'U', 'E'],
        Keyword::False => vec!['F', 'A', 'L', 'S', 'E'],
        Keyword::Integer => vec!['I', 'N', 'T', 'E', 'G', 'E', 'R'],
        Keyword::Int => vec!['I', 'N', 'T'],
        Keyword::Float => vec!['F', 'L', 'O', 'A', 'T'],
        Keyword::Text => vec!['T', 'E', 'X', 'T'],
        Keyword::Varchar => vec!['V', 'A', 'R', 'C', 'H', 'A', 'R'],
        Keyword::Boolean => vec!['B', 'O', 'O', 'L', 'E', 'A', 'N'],
        Keyword::PrimaryKey => vec!['P', 'R', 'I', 'M', 'A', 'R', 'Y', ' ', 'K', 'E', 'Y'],
        Keyword::Not => vec!['N', 'O', 'T'],
        Keyword::Null => vec!['N', 'U', 'L', 'L'],
        Keyword::Values => vec!['V', 'A', 'L', 'U', 'E', 'S'],
    };
    proof {
        assert(v@ =~= kw(k));
    }
    v
}

/// A position as an integer.
pub open spec fn oi(r: Option<usize>) -> Option<int> {
    match r {
        Some(e) => Some(e as int),
        None => None,
    }
}

/// An expression read, with its end, in mathematical form.
pub open spec fn ev(r: Option<(Expr, usize)>) -> Option<(SpecExpr, int)> {
    match r {
        Some((x, e)) => Some((x@, e as int)),
        None => None,
    }
}

/// What was read ends within the first `n` characters.
pub open spec fn ends_within(r: Option<(Expr, usize)>, n: int) -> bool {
    r matches Some((_, e)) ==> e <= n
}

/// An identifier at `i`: its end.
pub fn p_ident(src: &Src, i: usize) -> (r: Option<usize>)
    requires
        src.wf(),
        i <= src.chars.len(),
    ensures
        oi(r) == sp_ident(src.s(), i as int),
        r matches Some(e) ==> i < e <= src.chars.len(),
{
    if i < src.chars.len() {
        let c = src.chars[i];
        if ('a' <= c && c <= 'z') || ('A' <= c && c <= 'Z') || c == '_' {
            return Some(scan(&src.chars, i + 1, CharClass::Word));
        }
    }
    None
}

/// A quoted run at `i`: the end after its closing quote.
pub fn p_quoted(src: &Src, i: usize, q: char, inside: CharClass) -> (r: Option<usize>)
    requires
        src.wf(),
        i <= src.chars.len(),
    ensures
        oi(r) == sp_quoted(src.s(), i as int, q, inside),
        r matches Some(e) ==> i + 2 < e <= src.chars.len(),
{
    if i < src.chars.len() && src.chars[i] == q {
        let j = scan(&src.chars, i + 1, inside);
        if j > i + 1 && j < src.chars.len() {
            return Some(j + 1);
        }
    }
    None
}

/// A constant expression.
fn constant(value: String, data_type: DataType) -> (e: Expr)
    ensures
        e@ == (SpecExpr::Constant { value: value@, data_type }),
{
    Expr(Box::new(ExprNode::Constant(ConstantExpr { value, data_type })))
}

/// A constant at `i`.
pub fn p_constant(src: &Src, i: usize) -> (r: Option<(Expr, usize)>)
    requires
        src.wf(),
        i <= src.chars.len(),
    ensures
        ev(r) == sp_constant(src.s(), i as int),
        ends_within(r, src.s().len() as int),
{
    let n = src.chars.len();
    match p_quoted(src, i, '\'', CharClass::NotQuote) {
        Some(e) => {
            return Some((constant(src.string(i + 1, e - 1), DataType::Text), e));
        },
        None => {},
    }
    let d = scan(&src.chars, i, CharClass::Digit);
    if d > i && d < n && src.chars[d] == '.' {
        let f = scan(&src.chars, d + 1, CharClass::Digit);
        if f > d + 1 {
            return Some((constant(src.string(i, f), DataType::Float), f));
        }
    }
    if d > i {
        return Some((constant(src.string(i, d), DataType::Integer), d));
    }
    if match_tag_nc(&src.chars, i, &kw_chars(Keyword::True)) {
        let t = "TRUE".to_owned();
        proof {
            reveal_strlit("TRUE");
            assert(t@ =~= kw(Keyword::True));
        }
        return Some((constant(t, DataType::Boolean), i + 4));
    }
    if match_tag_nc(&src.chars, i, &kw_chars(Keyword::False)) {
        let t = "FALSE".to_owned();
        proof {
            reveal_strlit("FALSE");
            assert(t@ =~= kw(Keyword::False));
        }
        return Some((constant(t, DataType::Boolean), i + 5));
    }
    None
}

/// An identifier at `i`, as an expression.
pub fn p_ident_expr(src: &Src, i: usize) -> (r: Option<(Expr, usize)>)
    requires
        src.wf(),
        i <= src.chars.len(),
    ensures
        ev(r) == sp_ident_expr(src.s(), i as int),
        ends_within(r, src.s().len() as int),
{
    match p_ident(src, i) {
        Some(e) => Some(
            (Expr(Box::new(ExprNode::Identifier(IdentifierExpr { name: src.string(i, e) }))), e),
        ),
        None => None,
    }
}

/// An expression at `i`.
pub fn p_expr(src: &Src, i: usize) -> (r: Option<(Expr, usize)>)
    requires
        src.wf(),
        i <= src.chars.len(),
    ensures
        ev(r) == sp_expr(src.s(), i as int),
        ends_within(r, src.s().len() as int),
    decreases src.s().len() - i, 5int,
{
    match p_function(src, i) {
        Some(r) => {
            return Some(r);
        },
        None => {},
    }
    match p_binary(src, i) {
        Some(r) => {
            return Some(r);
        },
        None => {},
    }
    match p_constant(src, i) {
        Some(r) => {
            return Some(r);
        },
        None => {},
    }
    p_ident_expr(src, i)
}

/// A function call at `i`.
fn p_function(src: &Src, i: usize) -> (r: Option<(Expr, usize)>)
    requires
        src.wf(),
        i <= src.chars.len(),
    ensures
        ev(r) == sp_function(src.s(), i as int),
        ends_within(r, src.s().len() as int),
    decreases src.s().len() - i, 4int,
{
    if match_tag(&src.chars, i, &kw_chars(Keyword::Length)) && src.at(i + 6, '(') {
        match p_args(src, i + 7) {
            Some((args, e)) => {
                if src.at(e, ')') {
                    let f = Expr(
                        Box::new(
                            ExprNode::Function(
                                FunctionExpr { function_type: FunctionType::LENGTH, args },
                            ),
                        ),
                    );
                    return Some((f, e + 1));
                }
            },
            None => {},
        }
    }
    None
}

/// Function arguments at `j`.
fn p_args(src: &Src, j: usize) -> (r: Option<(Vec<Expr>, usize)>)
    requires
        src.wf(),
        j <= src.chars.len(),
    ensures
        match r {
            Some((v, e)) => sp_args(src.s(), j as int) == Some((exprs_view(v@), e as int)) && e
                <= src.s().len(),
            None => sp_args(src.s(), j as int) is None,
        },
    decreases src.s().len() - j, 6int,
{
    let n = src.chars.len();
    let (x, e0) = match p_expr(src, j) {
        Some(p) => p,
        None => {
            return None;
        },
    };
    let mut acc: Vec<Expr> = Vec::new();
    let ghost xv = x@;
    acc.push(x);
    proof {
        assert(acc@.drop_last() =~= Seq::<Expr>::empty());
        assert(exprs_view(acc@.drop_last()) == Seq::<SpecExpr>::empty());
        assert(exprs_view(acc@) =~= seq![xv]);
    }
    if !(j < e0 && e0 <= n) {
        return Some((acc, e0));
    }
    let ghost first = acc@[0]@;
    let mut e = e0;
    loop
        invariant
            src.wf(),
            n == src.chars.len(),
            j < e <= n,
            sp_args(src.s(), j as int) == Some(
                (exprs_view(acc@) + sp_args_rest(src.s(), e as int).0, sp_args_rest(
                    src.s(),
                    e as int,
                ).1),
            ),
        decreases n - e,
    {
        let ghost rest = sp_args_rest(src.s(), e as int);
        if e < n && src.chars[e] == ',' {
            match p_expr(src, e + 1) {
                Some((x2, e2)) => {
                    if e + 1 < e2 && e2 <= n {
                        let ghost prev = acc@;
                        acc.push(x2);
                        proof {
                            assert(acc@.drop_last() =~= prev);
                            assert(exprs_view(acc@) == exprs_view(prev).push(x2@));
                            let r2 = sp_args_rest(src.s(), e2 as int);
                            assert(exprs_view(prev) + (seq![x2@] + r2.0) =~= exprs_view(
                                acc@,
                            ) + r2.0);
                        }
                        e = e2;
                        continue ;
                    }
                },
                None => {},
            }
        }
        proof {
            assert(exprs_view(acc@) + Seq::<SpecExpr>::empty() =~= exprs_view(acc@));
        }
        return Some((acc, e));
    }
}

/// A sum of products at `i`.
fn p_binary(src: &Src, i: usize) -> (r: Option<(Expr, usize)>)
    requires
        src.wf(),
        i <= src.chars.len(),
    ensures
        ev(r) == sp_binary(src.s(), i as int),
        ends_within(r, src.s().len() as int),
    decreases src.s().len() - i, 3int,
{
    let n = src.chars.len();
    let (t, e0) = match p_term(src, i) {
        Some(p) => p,
        None => {
            return None;
        },
    };
    if !(i < e0 && e0 <= n) {
        return Some((t, e0));
    }
    let mut acc = t;
    let mut e = e0;
    loop
        invariant
            src.wf(),
            n == src.chars.len(),
            i < e <= n,
            sp_binary(src.s(), i as int) == Some(sp_binary_rest(src.s(), e as int, acc@)),
        decreases n - e,
    {
        let j = skip_ws(&src.chars, e);
        if j < n && (src.chars[j] == '+' || src.chars[j] == '-') {
            let op = if src.chars[j] == '+' {
                BinaryOp::Add
            } else {
                BinaryOp::Subtract
            };
            let k = skip_ws(&src.chars, j + 1);
            match p_term(src, k) {
                Some((t2, e2)) => {
                    if k < e2 && e2 <= n {
                        acc = Expr(
                            Box::new(ExprNode::Binary(BinaryExpr { left: acc, op, right: t2 })),
                        );
                        e = e2;
                        continue ;
                    }
                },
                None => {},
            }
        }
        return Some((acc, e));
    }
}

/// A product of factors at `i`.
fn p_term(src: &Src, i: usize) -> (r: Option<(Expr, usize)>)
    requires
        src.wf(),
        i <= src.chars.len(),
    ensures
        ev(r) == sp_term(src.s(), i as int),
        ends_within(r, src.s().len() as int),
    decreases src.s().len() - i, 2int,
{
    let n = src.chars.len();
    let (f, e0) = match p_factor(src, i) {
        Some(p) => p,
        None => {
            return None;
        },
    };
    if !(i < e0 && e0 <= n) {
        return Some((f, e0));
    }
    let mut acc = f;
    let mut e = e0;
    loop
        invariant
            src.wf(),
            n == src.chars.len(),
            i < e <= n,
            sp_term(src.s(), i as int) == Some(sp_term_rest(src.s(), e as int, acc@)),
        decreases n - e,
    {
        let j = skip_ws(&src.chars, e);
        if j < n && (src.chars[j] == '*' || src.chars[j] == '/') {
            let op = if src.chars[j] == '*' {
                BinaryOp::Multiply
            } else {
                BinaryOp::Divide
            };
            let k = skip_ws(&src.chars, j + 1);
            match p_factor(src, k) {
                Some((f2, e2)) => {
                    if k < e2 && e2 <= n {
                        acc = Expr(
                            Box::new(ExprNode::Binary(BinaryExpr { left: acc, op, right: f2 })),
                        );
                        e = e2;
                        continue ;
                    }
                },
                None => {},
            }
        }
        return Some((acc, e));
    }
}

/// A factor at `i`.
fn p_factor(src: &Src, i: usize) -> (r: Option<(Expr, usize)>)
    requires
        src.wf(),
        i <= src.chars.len(),
    ensures
        ev(r) == sp_factor(src.s(), i as int),
        ends_within(r, src.s().len() as int),
    decreases src.s().len() - i, 1int,
{
    if src.at(i, '(') {
        match p_expr(src, i + 1) {
            Some((x, e)) => {
                if src.at(e, ')') {
                    return Some((x, e + 1));
                }
            },
            None => {},
        }
    }
    match p_constant(src, i) {
        Some(r) => {
            return Some(r);
        },
        None => {},
    }
    p_ident_expr(src, i)
}


/// A statement read, with its end, in mathematical form.
pub open spec fn sv(r: Option<(Stmt, usize)>) -> Option<(SpecStmt, int)> {
    match r {
        Some((x, e)) => Some((x@, e as int)),
        None => None,
    }
}

/// The leading keywords of a statement.
pub fn p_stmt_type(src: &Src, i: usize) -> (r: Option<(StmtType, usize)>)
    requires
        src.wf(),
        i <= src.chars.len(),
    ensures
        match r {
            Some((t, e)) => sp_stmt_type(src.s(), i as int) == Some((t, e as int)) && e
                <= src.chars.len(),
            None => sp_stmt_type(src.s(), i as int) is None,
        },
{
    let v = &src.chars;
    if match_tag_nc(v, i, &kw_chars(Keyword::Select)) {
        return Some((StmtType::Select, i + 6));
    }
    if match_tag_nc(v, i, &kw_chars(Keyword::Create)) {
        let w = skip_ws(v, i + 6);
        if w > i + 6 && match_tag_nc(v, w, &kw_chars(Keyword::Table)) {
            return Some((StmtType::Create, w + 5));
        }
    }
    if match_tag_nc(v, i, &kw_chars(Keyword::Insert)) {
        let w = skip_ws(v, i + 6);
        if w > i + 6 && match_tag_nc(v, w, &kw_chars(Keyword::Into)) {
            return Some((StmtType::Insert, w + 4));
        }
    }
    if match_tag_nc(v, i, &kw_chars(Keyword::Update)) {
        return Some((StmtType::Update, i + 6));
    }
    if match_tag_nc(v, i, &kw_chars(Keyword::Delete)) {
        return Some((StmtType::Delete, i + 6));
    }
    if match_tag_nc(v, i, &kw_chars(Keyword::Drop)) {
        let w = skip_ws(v, i + 4);
        if w > i + 4 && match_tag_nc(v, w, &kw_chars(Keyword::Table)) {
            return Some((StmtType::Drop, w + 5));
        }
    }
    if match_tag_nc(v, i, &kw_chars(Keyword::Show)) {
        let w = skip_ws(v, i + 4);
        if w > i + 4 && match_tag_nc(v, w, &kw_chars(Keyword::Tables)) {
            return Some((StmtType::ShowTables, w + 6));
        }
    }
    None
}

/// An optional alias at `r`.
pub fn p_alias(src: &Src, r: usize) -> (res: (Option<String>, usize))
    requires
        src.wf(),
        r <= src.chars.len(),
    ensures
        (opt_view(res.0), res.1 as int) == sp_alias(src.s(), r as int),
        res.1 <= src.chars.len(),
{
    let v = &src.chars;
    let w = skip_ws(v, r);
    if w > r {
        if match_tag_nc(v, w, &kw_chars(Keyword::As)) {
            let x = skip_ws(v, w + 2);
            if x > w + 2 {
                return match p_ident(src, x) {
                    Some(e) => (Some(src.string(x, e)), e),
                    None => (None, r),
                };
            }
        }
        match p_ident(src, w) {
            Some(e) => (Some(src.string(w, e)), e),
            None => (None, r),
        }
    } else {
        (None, r)
    }
}

/// Drops the trailing Unicode white space of `[lo, b)`.
pub fn p_trim_hi(src: &Src, lo: usize, b: usize) -> (r: usize)
    requires
        src.wf(),
        lo <= b <= src.chars.len(),
    ensures
        r == trim_hi(src.s(), lo as int, b as int),
        lo <= r <= b,
{
    let mut k = b;
    while k > lo && is_white(src.chars[k - 1])
        invariant
            lo <= k <= b <= src.chars.len(),
            trim_hi(src.s(), lo as int, b as int) == trim_hi(src.s(), lo as int, k as int),
        decreases k,
    {
        k = k - 1;
    }
    k
}

/// Drops the leading Unicode white space of `[a, b)`.
pub fn p_trim_lo(src: &Src, a: usize, b: usize) -> (r: usize)
    requires
        src.wf(),
        a <= b <= src.chars.len(),
    ensures
        r == trim_lo(src.s(), a as int, b as int),
        a <= r <= b,
{
    let r = scan(&src.chars, a, CharClass::White);
    if r < b {
        r
    } else {
        b
    }
}

/// One item of a SELECT column list.
pub fn p_col_item(p: &Src) -> (r: Option<ColumnStmt>)
    requires
        p.wf(),
    ensures
        match r {
            Some(c) => sp_col_item(p.s()) == Some(c@),
            None => sp_col_item(p.s()) is None,
        },
{
    let n = p.chars.len();
    let name_end = if n > 0 && (('a' <= p.chars[0] && p.chars[0] <= 'z') || ('A' <= p.chars[0]
        && p.chars[0] <= 'Z') || p.chars[0] == '_') {
        scan(&p.chars, 1, CharClass::Word)
    } else if n > 0 && p.chars[0] == '*' {
        1
    } else {
        return None;
    };
    let (alias, _) = p_alias(p, name_end);
    Some(ColumnStmt::new(p.slice(0, name_end)).alias(alias))
}

/// The items of a SELECT column list in `[lo, hi)`.
fn p_col_pieces(c: &Src, lo: usize, hi: usize) -> (r: Option<Vec<ColumnStmt>>)
    requires
        c.wf(),
        lo <= hi <= c.chars.len(),
    ensures
        match r {
            Some(v) => sp_col_pieces(c.s(), lo as int, hi as int) == Some(columns_view(v@)),
            None => sp_col_pieces(c.s(), lo as int, hi as int) is None,
        },
{
    let mut acc: Vec<ColumnStmt> = Vec::new();
    let mut a = lo;
    proof {
        assert(columns_view(acc@) + Seq::<SpecColumn>::empty() =~= Seq::<SpecColumn>::empty());
    }
    loop
        invariant
            c.wf(),
            lo <= a <= hi <= c.chars.len(),
            sp_col_pieces(c.s(), lo as int, hi as int) == (match sp_col_pieces(
                c.s(),
                a as int,
                hi as int,
            ) {
                Some(rest) => Some(columns_view(acc@) + rest),
                None => None,
            }),
        decreases hi - a,
    {
        let r0 = scan(&c.chars, a, CharClass::NotComma);
        let k = if r0 < hi {
            r0
        } else {
            hi
        };
        let pl = p_trim_lo(c, a, k);
        let ph = p_trim_hi(c, pl, k);
        let piece = Src::new(c.slice(pl, ph));
        match p_col_item(&piece) {
            None => {
                return None;
            },
            Some(col) => {
                let ghost prev = acc@;
                let ghost cv = col@;
                acc.push(col);
                proof {
                    assert(columns_view(acc@) =~= columns_view(prev).push(cv));
                }
                if k < hi {
                    proof {
                        let rest = sp_col_pieces(c.s(), k + 1, hi as int);
                        if rest is Some {
                            assert(columns_view(prev) + (seq![cv] + rest->0) =~= columns_view(
                                acc@,
                            ) + rest->0);
                        }
                    }
                    a = k + 1;
                } else {
                    proof {
                        assert(columns_view(prev) + seq![cv] =~= columns_view(acc@));
                    }
                    return Some(acc);
                }
            },
        }
    }
}

/// The column list of a SELECT.
fn p_select_columns(c: &Src) -> (r: Option<Vec<ColumnStmt>>)
    requires
        c.wf(),
    ensures
        match r {
            Some(v) => sp_select_columns(c.s()) == Some(columns_view(v@)),
            None => sp_select_columns(c.s()) is None,
        },
{
    let n = c.chars.len();
    let a = skip_ws(&c.chars, 0);
    let lo = p_trim_lo(c, a, n);
    let hi = p_trim_hi(c, lo, n);
    p_col_pieces(c, lo, hi)
}

/// An optional `WHERE expr` at `r`.
fn p_where(src: &Src, r: usize) -> (res: (Option<Expr>, usize))
    requires
        src.wf(),
        r <= src.chars.len(),
    ensures
        (match res.0 {
            Some(x) => Some(x@),
            None => None::<SpecExpr>,
        }, res.1 as int) == sp_where(src.s(), r as int),
        res.1 <= src.chars.len(),
{
    if match_tag_nc(&src.chars, r, &kw_chars(Keyword::Where)) {
        let x = skip_ws(&src.chars, r + 5);
        if x > r + 5 {
            match p_expr(src, x) {
                Some((w, e)) => {
                    return (Some(w), e);
                },
                None => {
                    return (None, r);
                },
            }
        }
    }
    (None, r)
}

/// The rest of a SELECT.
fn p_select(src: &Src, i: usize) -> (r: Option<(Stmt, usize)>)
    requires
        src.wf(),
        i <= src.chars.len(),
    ensures
        sv(r) == sp_select(src.s(), i as int),
        r matches Some((_, e)) ==> e <= src.chars.len(),
{
    let v = &src.chars;
    let j = skip_ws(v, i);
    let p = match find(v, j, &kw_chars(Keyword::From)) {
        Some(p) => p,
        None => match find(v, j, &kw_chars(Keyword::FromLower)) {
            Some(p) => p,
            None => {
                return None;
            },
        },
    };
    let sub = Src::new(src.slice(j, p));
    let columns = match p_select_columns(&sub) {
        Some(c) => c,
        None => {
            return None;
        },
    };
    if !match_tag_nc(v, p, &kw_chars(Keyword::From)) {
        return None;
    }
    let q = skip_ws(v, p + 4);
    let a = scan(v, q, CharClass::AlphaNum);
    if a <= q {
        return None;
    }
    let r = skip_ws(v, a);
    let (alias, r2) = p_alias(src, r);
    let (where_expr, e) = p_where(src, r2);
    let table = TableStmt { name: src.string(q, a), alias };
    Some((Stmt::Select(SelectStmt { columns, table, where_expr }), e))
}

/// A column type name.
fn p_data_type(src: &Src, w: usize) -> (r: Option<(DataType, usize)>)
    requires
        src.wf(),
        w <= src.chars.len(),
    ensures
        match r {
            Some((t, e)) => sp_data_type(src.s(), w as int) == Some((t, e as int)),
            None => sp_data_type(src.s(), w as int) is None,
        },
{
    let v = &src.chars;
    if match_tag_nc(v, w, &kw_chars(Keyword::Integer)) {
        Some((DataType::Integer, w + 7))
    } else if match_tag_nc(v, w, &kw_chars(Keyword::Int)) {
        Some((DataType::Integer, w + 3))
    } else if match_tag_nc(v, w, &kw_chars(Keyword::Float)) {
        Some((DataType::Float, w + 5))
    } else if match_tag_nc(v, w, &kw_chars(Keyword::Text)) {
        Some((DataType::Text, w + 4))
    } else if match_tag_nc(v, w, &kw_chars(Keyword::Varchar)) {
        Some((DataType::Text, w + 7))
    } else if match_tag_nc(v, w, &kw_chars(Keyword::Boolean)) {
        Some((DataType::Boolean, w + 7))
    } else {
        None
    }
}

/// A column constraint.
fn p_constraint(src: &Src, r: usize) -> (res: Option<(ColumnConstraint, usize)>)
    requires
        src.wf(),
        r <= src.chars.len(),
    ensures
        match res {
            Some((c, e)) => sp_constraint(src.s(), r as int) == Some((c, e as int)),
            None => sp_constraint(src.s(), r as int) is None,
        },
{
    let v = &src.chars;
    if match_tag_nc(v, r, &kw_chars(Keyword::PrimaryKey)) {
        return Some((ColumnConstraint::PrimaryKey, r + 11));
    }
    if match_tag_nc(v, r, &kw_chars(Keyword::Not)) {
        let w = skip_ws(v, r + 3);
        if match_tag_nc(v, w, &kw_chars(Keyword::Null)) {
            return Some((ColumnConstraint::NotNull, w + 4));
        }
    }
    if match_tag_nc(v, r, &kw_chars(Keyword::Null)) {
        return Some((ColumnConstraint::Nullable, r + 4));
    }
    None
}

/// The constraints of a column definition.
fn p_constraints(src: &Src, r0: usize) -> (res: (Vec<ColumnConstraint>, usize))
    requires
        src.wf(),
        r0 <= src.chars.len(),
    ensures
        (res.0@, res.1 as int) == sp_constraints(src.s(), r0 as int),
        res.1 <= src.chars.len(),
{
    let n = src.chars.len();
    let mut acc: Vec<ColumnConstraint> = Vec::new();
    let mut r = r0;
    proof {
        assert(acc@ + sp_constraints(src.s(), r as int).0 =~= sp_constraints(
            src.s(),
            r as int,
        ).0);
    }
    loop
        invariant
            src.wf(),
            n == src.chars.len(),
            r0 <= r <= n,
            sp_constraints(src.s(), r0 as int) == (acc@ + sp_constraints(src.s(), r as int).0,
            sp_constraints(src.s(), r as int).1),
        decreases n - r,
    {
        match p_constraint(src, r) {
            Some((c, m)) => {
                if r < m && m <= n {
                    let r1 = skip_ws(&src.chars, m);
                    let ghost prev = acc@;
                    acc.push(c);
                    proof {
                        let t = sp_constraints(src.s(), r1 as int);
                        assert(prev + (seq![c] + t.0) =~= acc@ + t.0);
                    }
                    r = r1;
                    continue ;
                }
            },
            None => {},
        }
        proof {
            assert(acc@ + Seq::<ColumnConstraint>::empty() =~= acc@);
        }
        return (acc, r);
    }
}

/// A column definition.
fn p_coldef(src: &Src, j: usize) -> (r: Option<(ColumnStmt, usize)>)
    requires
        src.wf(),
        j <= src.chars.len(),
    ensures
        match r {
            Some((c, e)) => sp_coldef(src.s(), j as int) == Some((c@, e as int)) && e
                <= src.chars.len(),
            None => sp_coldef(src.s(), j as int) is None,
        },
{
    let v = &src.chars;
    let a = skip_ws(v, j);
    let e = match p_ident(src, a) {
        Some(e) => e,
        None => {
            return None;
        },
    };
    let w = skip_ws(v, e);
    if w <= e {
        return None;
    }
    let (dt, d) = match p_data_type(src, w) {
        Some(p) => p,
        None => {
            return None;
        },
    };
    proof {
        assert(d <= v.len());
    }
    let r = skip_ws(v, d);
    let (constraints, r2) = p_constraints(src, r);
    let col = ColumnStmt::new(src.slice(a, e)).data_type(dt).constraints(constraints);
    Some((col, r2))
}

/// Column definitions separated by `,`.
fn p_coldefs(src: &Src, j: usize) -> (r: Option<(Vec<ColumnStmt>, usize)>)
    requires
        src.wf(),
        j <= src.chars.len(),
    ensures
        match r {
            Some((v, e)) => sp_coldefs(src.s(), j as int) == Some((columns_view(v@), e as int))
                && e <= src.chars.len(),
            None => sp_coldefs(src.s(), j as int) is None,
        },
{
    let n = src.chars.len();
    let (c0, e0) = match p_coldef(src, j) {
        Some(p) => p,
        None => {
            return None;
        },
    };
    let ghost cv0 = c0@;
    let mut acc: Vec<ColumnStmt> = Vec::new();
    acc.push(c0);
    proof {
        assert(columns_view(acc@) =~= seq![cv0]);
    }
    if !(j < e0 && e0 <= n) {
        return Some((acc, e0));
    }
    let mut e = e0;
    loop
        invariant
            src.wf(),
            n == src.chars.len(),
            j < e <= n,
            sp_coldefs(src.s(), j as int) == Some(
                (columns_view(acc@) + sp_coldefs_rest(src.s(), e as int).0, sp_coldefs_rest(
                    src.s(),
                    e as int,
                ).1),
            ),
        decreases n - e,
    {
        let x = skip_ws(&src.chars, e);
        if x < n && src.chars[x] == ',' {
            let y = skip_ws(&src.chars, x + 1);
            match p_coldef(src, y) {
                Some((c, e2)) => {
                    if e < e2 && e2 <= n {
                        let ghost prev = acc@;
                        let ghost cv = c@;
                        acc.push(c);
                        proof {
                            let t = sp_coldefs_rest(src.s(), e2 as int);
                            assert(columns_view(acc@) =~= columns_view(prev).push(cv));
                            assert(columns_view(prev) + (seq![cv] + t.0) =~= columns_view(acc@)
                                + t.0);
                        }
                        e = e2;
                        continue ;
                    }
                },
                None => {},
            }
        }
        proof {
            assert(columns_view(acc@) + Seq::<SpecColumn>::empty() =~= columns_view(acc@));
        }
        return Some((acc, e));
    }
}

/// The rest of a CREATE TABLE.
fn p_create(src: &Src, i: usize) -> (r: Option<(Stmt, usize)>)
    requires
        src.wf(),
        i <= src.chars.len(),
    ensures
        sv(r) == sp_create(src.s(), i as int),
        r matches Some((_, e)) ==> e <= src.chars.len(),
{
    let v = &src.chars;
    let a = skip_ws(v, i);
    let e1 = match p_ident(src, a) {
        Some(e) => e,
        None => {
            return None;
        },
    };
    let b = skip_ws(v, e1);
    if !src.at(b, '(') {
        return None;
    }
    let (columns, c) = match p_coldefs(src, b + 1) {
        Some(p) => p,
        None => {
            return None;
        },
    };
    if !src.at(c, ')') {
        return None;
    }
    Some((Stmt::Create(CreateStmt { table_name: src.string(a, e1), columns }), c + 1))
}

/// The rest of a DROP TABLE.
fn p_drop(src: &Src, i: usize) -> (r: Option<(Stmt, usize)>)
    requires
        src.wf(),
        i <= src.chars.len(),
    ensures
        sv(r) == sp_drop(src.s(), i as int),
        r matches Some((_, e)) ==> e <= src.chars.len(),
{
    let a = skip_ws(&src.chars, i);
    match p_ident(src, a) {
        Some(e) => Some(
            (
                Stmt::Drop(DropStmt { table_name: src.string(a, e) }),
                skip_ws(&src.chars, e),
            ),
        ),
        None => None,
    }
}

/// An INSERT column list.
fn p_insert_cols(src: &Src, b: usize) -> (r: Option<(Vec<String>, usize)>)
    requires
        src.wf(),
        b <= src.chars.len(),
    ensures
        match r {
            Some((v, e)) => sp_insert_cols(src.s(), b as int) == Some((strings_view(v@), e as int))
                && e <= src.chars.len(),
            None => sp_insert_cols(src.s(), b as int) is None,
        },
{
    let n = src.chars.len();
    if !src.at(b, '(') {
        return None;
    }
    let x = skip_ws(&src.chars, b + 1);
    let e0 = match p_ident(src, x) {
        Some(e) => e,
        None => {
            return None;
        },
    };
    let mut acc: Vec<String> = Vec::new();
    let first = src.string(x, e0);
    let ghost fv = first@;
    acc.push(first);
    proof {
        assert(strings_view(acc@) =~= seq![fv]);
    }
    let mut e = e0;
    loop
        invariant
            src.wf(),
            n == src.chars.len(),
            e0 <= e <= n,
            sp_insert_cols(src.s(), b as int) == (if tag_at(
                src.s(),
                ws_end(src.s(), sp_idents_rest(src.s(), e as int).1),
                ch(')'),
            ) {
                Some(
                    (
                        strings_view(acc@) + sp_idents_rest(src.s(), e as int).0,
                        ws_end(src.s(), sp_idents_rest(src.s(), e as int).1) + 1,
                    ),
                )
            } else {
                None
            }),
        decreases n - e,
    {
        let y = skip_ws(&src.chars, e);
        if y < n && src.chars[y] == ',' {
            let z = skip_ws(&src.chars, skip_ws(&src.chars, y + 1));
            match p_ident(src, z) {
                Some(e2) => {
                    if e < e2 && e2 <= n {
                        let name = src.string(z, e2);
                        let ghost prev = acc@;
                        let ghost nv = name@;
                        acc.push(name);
                        proof {
                            let t = sp_idents_rest(src.s(), e2 as int);
                            assert(strings_view(acc@) =~= strings_view(prev).push(nv));
                            assert(strings_view(prev) + (seq![nv] + t.0) =~= strings_view(acc@)
                                + t.0);
                        }
                        e = e2;
                        continue ;
                    }
                },
                None => {},
            }
        }
        proof {
            assert(strings_view(acc@) + Seq::<Seq<char>>::empty() =~= strings_view(acc@));
        }
        let z = skip_ws(&src.chars, e);
        if src.at(z, ')') {
            return Some((acc, z + 1));
        } else {
            return None;
        }
    }
}

/// One value of a row.
fn p_value(src: &Src, v: usize) -> (r: Option<(String, usize)>)
    requires
        src.wf(),
        v <= src.chars.len(),
    ensures
        match r {
            Some((x, e)) => sp_value(src.s(), v as int) == Some((x@, e as int)) && e
                <= src.chars.len(),
            None => sp_value(src.s(), v as int) is None,
        },
{
    let a = skip_ws(&src.chars, v);
    match p_quoted(src, a, '\'', CharClass::NotQuote) {
        Some(e) => {
            return Some((src.string(a + 1, e - 1), e));
        },
        None => {},
    }
    match p_quoted(src, a, '"', CharClass::NotDoubleQuote) {
        Some(e) => {
            return Some((src.string(a + 1, e - 1), e));
        },
        None => {},
    }
    let u = scan(&src.chars, a, CharClass::Bare);
    if u > a {
        Some((src.string(a, u), u))
    } else {
        None
    }
}

/// A row of values.
fn p_row(src: &Src, r0: usize) -> (res: Option<(Vec<String>, usize)>)
    requires
        src.wf(),
        r0 <= src.chars.len(),
    ensures
        match res {
            Some((v, e)) => sp_row(src.s(), r0 as int) == Some((strings_view(v@), e as int)) && e
                <= src.chars.len(),
            None => sp_row(src.s(), r0 as int) is None,
        },
{
    let n = src.chars.len();
    if !src.at(r0, '(') {
        return None;
    }
    let (first, e0) = match p_value(src, r0 + 1) {
        Some(p) => p,
        None => {
            return None;
        },
    };
    let mut acc: Vec<String> = Vec::new();
    let ghost fv = first@;
    acc.push(first);
    proof {
        assert(strings_view(acc@) =~= seq![fv]);
    }
    let mut e = e0;
    loop
        invariant
            src.wf(),
            n == src.chars.len(),
            e0 <= e <= n,
            sp_row(src.s(), r0 as int) == (if tag_at(
                src.s(),
                ws_end(src.s(), sp_values_rest(src.s(), e as int).1),
                ch(')'),
            ) {
                Some(
                    (
                        strings_view(acc@) + sp_values_rest(src.s(), e as int).0,
                        ws_end(src.s(), sp_values_rest(src.s(), e as int).1) + 1,
                    ),
                )
            } else {
                None
            }),
        decreases n - e,
    {
        let x = skip_ws(&src.chars, e);
        if x < n && src.chars[x] == ',' {
            let y = skip_ws(&src.chars, x + 1);
            match p_value(src, y) {
                Some((val, e2)) => {
                    if e < e2 && e2 <= n {
                        let ghost prev = acc@;
                        let ghost vv = val@;
                        acc.push(val);
                        proof {
                            let t = sp_values_rest(src.s(), e2 as int);
                            assert(strings_view(acc@) =~= strings_view(prev).push(vv));
                            assert(strings_view(prev) + (seq![vv] + t.0) =~= strings_view(acc@)
                                + t.0);
                        }
                        e = e2;
                        continue ;
                    }
                },
                None => {},
            }
        }
        proof {
            assert(strings_view(acc@) + Seq::<Seq<char>>::empty() =~= strings_view(acc@));
        }
        let z = skip_ws(&src.chars, e);
        if src.at(z, ')') {
            return Some((acc, z + 1));
        } else {
            return None;
        }
    }
}

/// Rows separated by `,`.
fn p_rows(src: &Src, f: usize) -> (r: Option<(Vec<Vec<String>>, usize)>)
    requires
        src.wf(),
        f <= src.chars.len(),
    ensures
        match r {
            Some((v, e)) => sp_rows(src.s(), f as int) == Some((rows_view(v@), e as int)) && e
                <= src.chars.len(),
            None => sp_rows(src.s(), f as int) is None,
        },
{
    let n = src.chars.len();
    let (r0, e0) = match p_row(src, f) {
        Some(p) => p,
        None => {
            return None;
        },
    };
    let ghost rv0 = strings_view(r0@);
    let mut acc: Vec<Vec<String>> = Vec::new();
    acc.push(r0);
    proof {
        assert(rows_view(acc@) =~= seq![rv0]);
    }
    if !(f < e0 && e0 <= n) {
        return Some((acc, e0));
    }
    let mut e = e0;
    loop
        invariant
            src.wf(),
            n == src.chars.len(),
            f < e <= n,
            sp_rows(src.s(), f as int) == Some(
                (rows_view(acc@) + sp_rows_rest(src.s(), e as int).0, sp_rows_rest(
                    src.s(),
                    e as int,
                ).1),
            ),
        decreases n - e,
    {
        let x = skip_ws(&src.chars, e);
        if x < n && src.chars[x] == ',' {
            let y = skip_ws(&src.chars, x + 1);
            match p_row(src, y) {
                Some((row, e2)) => {
                    if e < e2 && e2 <= n {
                        let ghost prev = acc@;
                        let ghost rv = strings_view(row@);
                        acc.push(row);
                        proof {
                            let t = sp_rows_rest(src.s(), e2 as int);
                            assert(rows_view(acc@) =~= rows_view(prev).push(rv));
                            assert(rows_view(prev) + (seq![rv] + t.0) =~= rows_view(acc@) + t.0);
                        }
                        e = e2;
                        continue ;
                    }
                },
                None => {},
            }
        }
        proof {
            assert(rows_view(acc@) + Seq::<Seq<Seq<char>>>::empty() =~= rows_view(acc@));
        }
        return Some((acc, e));
    }
}

/// The rest of an INSERT INTO.
fn p_insert(src: &Src, i: usize) -> (r: Option<(Stmt, usize)>)
    requires
        src.wf(),
        i <= src.chars.len(),
    ensures
        sv(r) == sp_insert(src.s(), i as int),
        r matches Some((_, e)) ==> e <= src.chars.len(),
{
    let v = &src.chars;
    let a = skip_ws(v, i);
    let e1 = match p_ident(src, a) {
        Some(e) => e,
        None => {
            return None;
        },
    };
    let b = skip_ws(v, e1);
    let (columns, c) = match p_insert_cols(src, b) {
        Some((cs, c)) => (Some(cs), c),
        None => (None, b),
    };
    let d = skip_ws(v, c);
    if !match_tag_nc(v, d, &kw_chars(Keyword::Values)) {
        return None;
    }
    let f = skip_ws(v, d + 6);
    match p_rows(src, f) {
        Some((values, g)) => Some(
            (Stmt::Insert(InsertStmt { table_name: src.string(a, e1), columns, values }), g),
        ),
        None => None,
    }
}

/// Reads a statement from the start of `src`.
pub fn p_stmt(src: &Src) -> (r: Option<(Stmt, usize)>)
    requires
        src.wf(),
        sp_leading_type(src.s()) != Some(StmtType::Update),
        sp_leading_type(src.s()) != Some(StmtType::Delete),
    ensures
        sv(r) == sp_stmt(src.s()),
        r matches Some((_, e)) ==> e <= src.chars.len(),
{
    let i = skip_ws(&src.chars, 0);
    match p_stmt_type(src, i) {
        Some((t, j)) => match t {
            StmtType::Select => p_select(src, j),
            StmtType::Create => p_create(src, j),
            StmtType::Drop => p_drop(src, j),
            StmtType::ShowTables => Some(
                (Stmt::ShowTables(ShowTablesStmt {  }), skip_ws(&src.chars, j)),
            ),
            StmtType::Insert => p_insert(src, j),
            _ => None,
        },
        None => None,
    }
}

/// The statement type that `input` opens with, after leading white space.
pub fn leading_stmt_type(input: &str) -> (r: Option<StmtType>)
    ensures
        r == sp_leading_type(input@),
{
    let src = Src::new(input);
    let i = skip_ws(&src.chars, 0);
    match p_stmt_type(&src, i) {
        Some((t, _)) => Some(t),
        None => None,
    }
}

/// Reads one statement from the start of `input`; gives it with the text left after it.
/// `UPDATE` and `DELETE` have no grammar yet and must not be passed.
pub fn parse_sql_stmt(input: &str) -> (r: Result<(&str, Stmt), ParserError>)
    requires
        sp_leading_type(input@) != Some(StmtType::Update),
        sp_leading_type(input@) != Some(StmtType::Delete),
    ensures
        match r {
            Ok((rest, st)) => sp_stmt(input@) matches Some((v, e)) && v == st@ && rest@
                == input@.subrange(e, input@.len() as int),
            Err(err) => sp_stmt(input@) is None && err == ParserError::InvalidSyntax,
        },
{
    let src = Src::new(input);
    match p_stmt(&src) {
        Some((st, e)) => Ok((src.slice(e, src.chars.len()), st)),
        None => Err(ParserError::InvalidSyntax),
    }
}

/// Parses one statement; the text after it is ignored.
pub fn parse_sql(input: &str) -> (r: Result<Stmt, Error>)
    requires
        sp_leading_type(input@) != Some(StmtType::Update),
        sp_leading_type(input@) != Some(StmtType::Delete),
    ensures
        match r {
            Ok(st) => sp_stmt(input@) matches Some((v, _)) && v == st@,
            Err(err) => sp_stmt(input@) is None && err == Error::Parser(ParserError::InvalidSyntax),
        },
{
    match parse_sql_stmt(input) {
        Ok((_, stmt)) => Ok(stmt),
        Err(_) => Err(Error::Parser(ParserError::InvalidSyntax)),
    }
}

} // verus!
