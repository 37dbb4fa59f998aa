//! Statement rewriting before planning: the passes leave statements as they
//! are for now, and constant folding of integer arithmetic.

use vstd::prelude::*;
use crate::stmt::{Stmt, SelectStmt, ColumnStmt, columns_view, opt_expr_view};
use crate::expression::{Expr, ConstantExpr, BinaryOp};
use crate::value::DataType;
use crate::numtext::{parse_int, parse_i64_spec, int_to_text, int_text};
use crate::text::chars_of;
use crate::expression::{SpecExpr, eval, expr_type};
use crate::value::{SingleValue, RowId, ValueId, lemma_le_u32_roundtrip, lemma_i32_u32_roundtrip};
use crate::valueops::int_arith;
use crate::numtext::{parse_i32_spec, lemma_int_text_reads_back};

verus! {

/// Rewrites a statement for planning; every statement comes out as it went in.
pub fn optimize_stmt(stmt: Stmt) -> (r: Stmt)
    ensures
        r@ == stmt@,
{
    match stmt {
        Stmt::Select(select_stmt) => Stmt::Select(optimize_select_stmt(select_stmt)),
        other => other,
    }
}

/// Rewrites the condition and the column list of a SELECT.
fn optimize_select_stmt(stmt: SelectStmt) -> (r: SelectStmt)
    ensures
        columns_view(r.columns@) == columns_view(stmt.columns@),
        r.table == stmt.table,
        opt_expr_view(r.where_expr) == opt_expr_view(stmt.where_expr),
{
    let SelectStmt { columns, table, where_expr } = stmt;
    let where_expr = match where_expr {
        Some(e) => Some(optimize_expression(e)),
        None => None,
    };
    SelectStmt { columns: optimize_columns(columns), table, where_expr }
}

/// Column pruning: the list stays as it is.
fn optimize_columns(columns: Vec<ColumnStmt>) -> (r: Vec<ColumnStmt>)
    ensures
        r@ == columns@,
{
    columns
}

/// Expression rewriting: the expression stays as it is, so in every row the
/// rewritten expression has the value and the type of the original.
pub fn optimize_expression(expr: Expr) -> (r: Expr)
    ensures
        r@ == expr@,
        expr_type(r@) == expr_type(expr@),
        forall|row: RowId, cols: Seq<(Seq<char>, u64)>, cache: Map<ValueId, SingleValue>, floats: Seq<(Seq<char>, u64)>|
            #[trigger] eval(r@, row, cols, cache, floats) == eval(expr@, row, cols, cache, floats),
{
    expr
}

/// The constant an expression stands for, where it can be told; no
/// expression is recognised as one yet.
pub fn try_extract_constant(_expr: &Expr) -> (r: Option<ConstantExpr>)
    ensures
        r is None,
{
    None
}

/// The integer result of `l op r` for an arithmetic operator; `None` for the
/// other operators and for a division by zero. (`/` truncates toward zero.)
pub open spec fn int_op(l: int, op: BinaryOp, r: int) -> Option<int> {
    match op {
        BinaryOp::Add => Some(l + r),
        BinaryOp::Subtract => Some(l - r),
        BinaryOp::Multiply => Some(l * r),
        BinaryOp::Divide => if r == 0 {
            None
        } else if (l >= 0) == (r > 0) {
            Some(abs(l) / abs(r))
        } else {
            Some(-(abs(l) / abs(r)))
        },
        _ => None,
    }
}

pub open spec fn abs(x: int) -> int {
    if x < 0 { -x } else { x }
}

/// Whether the operator is one of `+ - * /`.
pub open spec fn is_arithmetic(op: BinaryOp) -> bool {
    op == BinaryOp::Add || op == BinaryOp::Subtract || op == BinaryOp::Multiply || op == BinaryOp::Divide
}

/// What folding `left op right` gives for two constants.
///
/// Two integers (written as `i64`) fold to the integer the operator gives.
/// Where either side is a float, the result is `float_result`, which the
/// caller computed on the two sides read as `f64` (`None` where either does
/// not read as one, or for a division by zero). Anything else does not fold.
pub open spec fn folded(
    left: (Seq<char>, DataType),
    op: BinaryOp,
    right: (Seq<char>, DataType),
    float_result: Option<Seq<char>>,
) -> Option<(Seq<char>, DataType)> {
    if left.1 == DataType::Integer && right.1 == DataType::Integer {
        match (parse_i64_spec(left.0), parse_i64_spec(right.0)) {
            (Some(a), Some(b)) => match int_op(a as int, op, b as int) {
                Some(v) => Some((int_text(v), DataType::Integer)),
                None => None,
            },
            _ => None,
        }
    } else if left.1 == DataType::Float || right.1 == DataType::Float {
        if is_arithmetic(op) {
            match float_result {
                Some(t) => Some((t, DataType::Float)),
                None => None,
            }
        } else {
            None
        }
    } else {
        None
    }
}

/// Integer arithmetic that stays within `i64`.
pub open spec fn int_op_fits(left: (Seq<char>, DataType), op: BinaryOp, right: (Seq<char>, DataType)) -> bool {
    left.1 == DataType::Integer && right.1 == DataType::Integer ==> match (
        parse_i64_spec(left.0),
        parse_i64_spec(right.0),
    ) {
        (Some(a), Some(b)) => match int_op(a as int, op, b as int) {
            Some(v) => i64::MIN <= v <= i64::MAX,
            None => true,
        },
        _ => true,
    }
}

/// Folds `left op right` for two constants (see `folded`). Integer results
/// must fit in an `i64`.
pub fn evaluate_constant_binary_op(
    left: &ConstantExpr,
    op: BinaryOp,
    right: &ConstantExpr,
    float_result: Option<String>,
) -> (r: Option<ConstantExpr>)
    requires
        int_op_fits((left.value@, left.data_type), op, (right.value@, right.data_type)),
    ensures
        match r {
            Some(c) => folded(
                (left.value@, left.data_type),
                op,
                (right.value@, right.data_type),
                crate::stmt::opt_view(float_result),
            ) == Some((c.value@, c.data_type)),
            None => folded(
                (left.value@, left.data_type),
                op,
                (right.value@, right.data_type),
                crate::stmt::opt_view(float_result),
            ) is None,
        },
{
    if left.data_type == DataType::Integer && right.data_type == DataType::Integer {
        let lv = parse_int(&chars_of(left.value.as_str()));
        let rv = parse_int(&chars_of(right.value.as_str()));
        match (lv, rv) {
            (Some(a), Some(b)) => {
                let v: i64 = match op {
                    BinaryOp::Add => a + b,
                    BinaryOp::Subtract => a - b,
                    BinaryOp::Multiply => a * b,
                    BinaryOp::Divide => {
                        if b == 0 {
                            return None;
                        }
                        let q: i64 = quotient_of(a, b);
                        q
                    },
                    _ => {
                        return None;
                    },
                };
                Some(ConstantExpr { value: int_to_text(v), data_type: DataType::Integer })
            },
            _ => None,
        }
    } else if left.data_type == DataType::Float || right.data_type == DataType::Float {
        match op {
            BinaryOp::Add | BinaryOp::Subtract | BinaryOp::Multiply | BinaryOp::Divide => match float_result {
                Some(t) => Some(ConstantExpr { value: t, data_type: DataType::Float }),
                None => None,
            },
            _ => None,
        }
    } else {
        None
    }
}

/// `|a|`.
fn magnitude(a: i64) -> (m: u64)
    ensures
        m == abs(a as int),
{
    if a == i64::MIN {
        9223372036854775808u64
    } else if a < 0 {
        (-a) as u64
    } else {
        a as u64
    }
}

/// `a / b`, truncated toward zero.
pub fn quotient_of(a: i64, b: i64) -> (q: i64)
    requires
        b != 0,
        int_op(a as int, BinaryOp::Divide, b as int) matches Some(v) && i64::MIN <= v <= i64::MAX,
    ensures
        int_op(a as int, BinaryOp::Divide, b as int) == Some(q as int),
{
    let ua: u64 = magnitude(a);
    let ub: u64 = magnitude(b);
    let m: u64 = ua / ub;
    if (a >= 0) == (b > 0) {
        m as i64
    } else {
        if m == 9223372036854775808u64 {
            i64::MIN
        } else {
            -(m as i64)
        }
    }
}

/// Folding keeps the value: where two integer constants and the result of
/// the operator on them fit in an `i32`, the folded constant evaluates, in
/// any row, to what the unfolded expression evaluates to.
pub proof fn law_folding_keeps_value(
    lv: Seq<char>,
    op: BinaryOp,
    rv: Seq<char>,
    row: RowId,
    cols: Seq<(Seq<char>, u64)>,
    cache: Map<ValueId, SingleValue>,
    floats: Seq<(Seq<char>, u64)>,
)
    requires
        parse_i32_spec(lv) is Some,
        parse_i32_spec(rv) is Some,
        int_arith(parse_i32_spec(lv)->0 as int, op, parse_i32_spec(rv)->0 as int) is Some,
    ensures
        folded((lv, DataType::Integer), op, (rv, DataType::Integer), None) matches Some((t, dt)) && eval(
            SpecExpr::Constant { value: t, data_type: dt },
            row,
            cols,
            cache,
            floats,
        ) == eval(
            SpecExpr::Binary {
                left: Box::new(SpecExpr::Constant { value: lv, data_type: DataType::Integer }),
                op,
                right: Box::new(SpecExpr::Constant { value: rv, data_type: DataType::Integer }),
            },
            row,
            cols,
            cache,
            floats,
        ),
{
    let a = parse_i32_spec(lv)->0;
    let b = parse_i32_spec(rv)->0;
    let v = int_arith(a as int, op, b as int)->0;
    lemma_le_u32_roundtrip(a as u32);
    lemma_le_u32_roundtrip(b as u32);
    lemma_i32_u32_roundtrip(a);
    lemma_i32_u32_roundtrip(b);
    assert(parse_i64_spec(lv) == Some(a as i64));
    assert(parse_i64_spec(rv) == Some(b as i64));
    assert(int_op(a as int, op, b as int) == Some(v));
    lemma_int_text_reads_back(v);
    let vi = v as i32;
    lemma_i32_u32_roundtrip(vi);
    assert(parse_i32_spec(int_text(v)) == Some(vi));
    let lc = SpecExpr::Constant { value: lv, data_type: DataType::Integer };
    let rc = SpecExpr::Constant { value: rv, data_type: DataType::Integer };
    let la = crate::value::SpecValue { raw: crate::value::le_u32(a as u32), data_type: DataType::Integer };
    let rb = crate::value::SpecValue { raw: crate::value::le_u32(b as u32), data_type: DataType::Integer };
    assert(eval(lc, row, cols, cache, floats) == la);
    assert(eval(rc, row, cols, cache, floats) == rb);
    assert(crate::valueops::int_value(la) == Some(a));
    assert(crate::valueops::int_value(rb) == Some(b));
    assert(crate::valueops::arith_values(la, op, rb) == Some(crate::valueops::int_result(v)));
    assert(crate::expression::binary_value(la, op, rb) == crate::valueops::int_result(v));
}

} // verus!
