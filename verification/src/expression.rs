//! Expressions of the query language.

use vstd::prelude::*;
use vstd::string::StringExecFns;
use crate::value::{DataType, SingleValue, SpecValue, Column, RowId, ValueId, encoded, u32_to_le};
use crate::valueops::{bool_value, null_value, truth, compare_values, order_holds, arith_values, int_result};
use crate::cache::CacheManager;

verus! {

/// An expression (expressions nest).
#[derive(Debug)]
pub struct Expr(pub Box<ExprNode>);

/// The kinds of expression.
#[derive(Debug)]
pub enum ExprNode {
    Constant(ConstantExpr),
    Identifier(IdentifierExpr),
    Binary(BinaryExpr),
    In(InExpr),
    Function(FunctionExpr),
}

/// A constant, kept in its written form with the type it was read as.
#[derive(Debug)]
pub struct ConstantExpr {
    pub value: String,
    pub data_type: DataType,
}

/// A column name or alias.
#[derive(Debug)]
pub struct IdentifierExpr {
    pub name: String,
}

/// Binary operators.
#[derive(Debug, Clone, Copy, PartialEq, Eq, Structural)]
pub enum BinaryOp {
    Add,
    Subtract,
    Multiply,
    Divide,
    Equal,
    NotEqual,
    GreaterThan,
    GreaterThanOrEqual,
    LessThan,
    LessThanOrEqual,
    And,
    Or,
}

/// How an operator is written.
pub open spec fn op_symbol(op: BinaryOp) -> Seq<char> {
    match op {
        BinaryOp::Add => "+"@,
        BinaryOp::Subtract => "-"@,
        BinaryOp::Multiply => "*"@,
        BinaryOp::Divide => "/"@,
        BinaryOp::Equal => "="@,
        BinaryOp::NotEqual => "!="@,
        BinaryOp::GreaterThan => ">"@,
        BinaryOp::GreaterThanOrEqual => ">="@,
        BinaryOp::LessThan => "<"@,
        BinaryOp::LessThanOrEqual => "<="@,
        BinaryOp::And => "AND"@,
        BinaryOp::Or => "OR"@,
    }
}

impl BinaryOp {
    /// How the operator is written.
    pub fn symbol(&self) -> (r: &'static str)
        ensures
            r@ == op_symbol(*self),
    {
        match self {
            BinaryOp::Add => "+",
            BinaryOp::Subtract => "-",
            BinaryOp::Multiply => "*",
            BinaryOp::Divide => "/",
            BinaryOp::Equal => "=",
            BinaryOp::NotEqual => "!=",
            BinaryOp::GreaterThan => ">",
            BinaryOp::GreaterThanOrEqual => ">=",
            BinaryOp::LessThan => "<",
            BinaryOp::LessThanOrEqual => "<=",
            BinaryOp::And => "AND",
            BinaryOp::Or => "OR",
        }
    }
}

/// `left op right`.
#[derive(Debug)]
pub struct BinaryExpr {
    pub left: Expr,
    pub op: BinaryOp,
    pub right: Expr,
}

/// `value IN (values...)`.
#[derive(Debug)]
pub struct InExpr {
    pub value: Expr,
    pub values: Vec<Expr>,
}

/// The built-in functions.
#[allow(non_camel_case_types)]
#[derive(Debug, Clone, Copy, PartialEq, Eq, Structural)]
pub enum FunctionType {
    LENGTH,
}

/// A call of a built-in function.
#[derive(Debug)]
pub struct FunctionExpr {
    pub function_type: FunctionType,
    pub args: Vec<Expr>,
}

/// The mathematical form of an expression: text as character sequences.
pub enum SpecExpr {
    Constant { value: Seq<char>, data_type: DataType },
    Identifier { name: Seq<char> },
    Binary { left: Box<SpecExpr>, op: BinaryOp, right: Box<SpecExpr> },
    In { value: Box<SpecExpr>, values: Seq<SpecExpr> },
    Function { function_type: FunctionType, args: Seq<SpecExpr> },
}

pub open spec fn expr_view(e: Expr) -> SpecExpr
    decreases e,
{
    match *e.0 {
        ExprNode::Constant(c) => SpecExpr::Constant { value: c.value@, data_type: c.data_type },
        ExprNode::Identifier(i) => SpecExpr::Identifier { name: i.name@ },
        ExprNode::Binary(b) => SpecExpr::Binary {
            left: Box::new(expr_view(b.left)),
            op: b.op,
            right: Box::new(expr_view(b.right)),
        },
        ExprNode::In(n) => SpecExpr::In {
            value: Box::new(expr_view(n.value)),
            values: exprs_view(n.values@),
        },
        ExprNode::Function(f) => SpecExpr::Function {
            function_type: f.function_type,
            args: exprs_view(f.args@),
        },
    }
}

pub open spec fn exprs_view(s: Seq<Expr>) -> Seq<SpecExpr>
    decreases s,
{
    if s.len() == 0 {
        Seq::empty()
    } else {
        exprs_view(s.drop_last()).push(expr_view(s.last()))
    }
}

impl View for Expr {
    type V = SpecExpr;

    open spec fn view(&self) -> SpecExpr {
        expr_view(*self)
    }
}

/// The type of the value an expression gives, where it can be told without
/// the columns: comparisons and logic give booleans; arithmetic gives the
/// type its two sides combine to.
pub open spec fn expr_type(e: SpecExpr) -> Option<DataType>
    decreases e,
{
    match e {
        SpecExpr::Constant { data_type, .. } => Some(data_type),
        SpecExpr::Identifier { .. } => None,
        SpecExpr::Binary { left, op, right } => if is_arithmetic_op(op) {
            match (expr_type(*left), expr_type(*right)) {
                (Some(l), Some(r)) => combined_type(l, r),
                _ => None,
            }
        } else {
            Some(DataType::Boolean)
        },
        SpecExpr::In { .. } => Some(DataType::Boolean),
        SpecExpr::Function { .. } => Some(DataType::Integer),
    }
}

/// `+ - * /`.
pub open spec fn is_arithmetic_op(op: BinaryOp) -> bool {
    op == BinaryOp::Add || op == BinaryOp::Subtract || op == BinaryOp::Multiply || op == BinaryOp::Divide
}

/// The type arithmetic on values of types `l` and `r` gives.
pub open spec fn combined_type(l: DataType, r: DataType) -> Option<DataType> {
    if l == DataType::Integer && r == DataType::Integer {
        Some(DataType::Integer)
    } else if l == DataType::Float || r == DataType::Float {
        Some(DataType::Float)
    } else if l == DataType::Text || r == DataType::Text {
        Some(DataType::Text)
    } else if l == DataType::Blob || r == DataType::Blob {
        Some(DataType::Blob)
    } else if l == DataType::Boolean && r == DataType::Boolean {
        Some(DataType::Boolean)
    } else if l == DataType::DateTime && r == DataType::DateTime {
        Some(DataType::DateTime)
    } else {
        None
    }
}

/// The direct subexpressions, left to right.
pub open spec fn expr_children(e: SpecExpr) -> Seq<SpecExpr> {
    match e {
        SpecExpr::Binary { left, right, .. } => seq![*left, *right],
        SpecExpr::In { value, values } => seq![*value] + values,
        SpecExpr::Function { args, .. } => args,
        _ => Seq::empty(),
    }
}

fn combine_types(l: DataType, r: DataType) -> (t: Option<DataType>)
    ensures
        t == combined_type(l, r),
{
    match (l, r) {
        (DataType::Integer, DataType::Integer) => Some(DataType::Integer),
        (DataType::Float, _) | (_, DataType::Float) => Some(DataType::Float),
        (DataType::Text, _) | (_, DataType::Text) => Some(DataType::Text),
        (DataType::Blob, _) | (_, DataType::Blob) => Some(DataType::Blob),
        (DataType::Boolean, DataType::Boolean) => Some(DataType::Boolean),
        (DataType::DateTime, DataType::DateTime) => Some(DataType::DateTime),
        _ => None,
    }
}

/// The views of a sequence of expressions, element by element.
pub proof fn lemma_exprs_view(s: Seq<Expr>)
    ensures
        exprs_view(s).len() == s.len(),
        forall|i: int| 0 <= i < s.len() ==> #[trigger] exprs_view(s)[i] == s[i]@,
    decreases s.len(),
{
    if s.len() > 0 {
        lemma_exprs_view(s.drop_last());
        assert forall|i: int| 0 <= i < s.len() implies #[trigger] exprs_view(s)[i] == s[i]@ by {
            if i < s.len() - 1 {
                assert(s.drop_last()[i] == s[i]);
            }
        }
    }
}

impl Expr {
    pub fn new(expr: Box<ExprNode>) -> (r: Self)
        ensures
            r.0 == expr,
    {
        Self(expr)
    }

    /// The type of the value the expression gives, where it can be told
    /// without the columns.
    pub fn data_type(&self) -> (r: Option<DataType>)
        ensures
            r == expr_type(self@),
        decreases self,
    {
        match &*self.0 {
            ExprNode::Constant(c) => Some(c.data_type),
            ExprNode::Identifier(_) => None,
            ExprNode::Binary(b) => match b.op {
                BinaryOp::Add | BinaryOp::Subtract | BinaryOp::Multiply | BinaryOp::Divide => {
                    let l = match b.left.data_type() {
                        Some(t) => t,
                        None => {
                            return None;
                        },
                    };
                    let r = match b.right.data_type() {
                        Some(t) => t,
                        None => {
                            return None;
                        },
                    };
                    combine_types(l, r)
                },
                _ => Some(DataType::Boolean),
            },
            ExprNode::In(_) => Some(DataType::Boolean),
            ExprNode::Function(_) => Some(DataType::Integer),
        }
    }

    /// No expression gives a null.
    pub fn is_nullable(&self) -> (r: bool)
        ensures
            r == false,
    {
        false
    }

    /// The direct subexpressions, left to right.
    pub fn children(&self) -> (r: Vec<&Expr>)
        ensures
            r@.len() == expr_children(self@).len(),
            forall|i: int| 0 <= i < r@.len() ==> #[trigger] r@[i]@ == expr_children(self@)[i],
    {
        match &*self.0 {
            ExprNode::Binary(b) => {
                let mut v: Vec<&Expr> = Vec::new();
                v.push(&b.left);
                v.push(&b.right);
                v
            },
            ExprNode::In(n) => {
                proof {
                    lemma_exprs_view(n.values@);
                }
                let mut v: Vec<&Expr> = Vec::new();
                v.push(&n.value);
                let mut i: usize = 0;
                while i < n.values.len()
                    invariant
                        i <= n.values.len(),
                        v@.len() == i + 1,
                        v@[0]@ == n.value@,
                        exprs_view(n.values@).len() == n.values@.len(),
                        forall|k: int| 0 <= k < n.values@.len() ==> #[trigger] exprs_view(n.values@)[k] == n.values@[k]@,
                        forall|k: int| 0 <= k < i ==> #[trigger] v@[k + 1]@ == n.values@[k]@,
                    decreases n.values.len() - i,
                {
                    v.push(&n.values[i]);
                    i = i + 1;
                }
                proof {
                    let want = expr_children(self@);
                    assert forall|k: int| 0 <= k < v@.len() implies #[trigger] v@[k]@ == want[k] by {
                        if k > 0 {
                            assert(v@[(k - 1) + 1]@ == n.values@[k - 1]@);
                        }
                    }
                }
                v
            },
            ExprNode::Function(f) => {
                proof {
                    lemma_exprs_view(f.args@);
                }
                let mut v: Vec<&Expr> = Vec::new();
                let mut i: usize = 0;
                while i < f.args.len()
                    invariant
                        i <= f.args.len(),
                        v@.len() == i,
                        forall|k: int| 0 <= k < i ==> #[trigger] v@[k]@ == f.args@[k]@,
                    decreases f.args.len() - i,
                {
                    v.push(&f.args[i]);
                    i = i + 1;
                }
                v
            },
            _ => Vec::new(),
        }
    }

    /// A copy of the expression.
    pub fn duplicate(&self) -> (r: Self)
        ensures
            r@ == self@,
        decreases self,
    {
        let node = match &*self.0 {
            ExprNode::Constant(c) => ExprNode::Constant(
                ConstantExpr { value: c.value.clone(), data_type: c.data_type },
            ),
            ExprNode::Identifier(i) => ExprNode::Identifier(IdentifierExpr { name: i.name.clone() }),
            ExprNode::Binary(b) => ExprNode::Binary(
                BinaryExpr { left: b.left.duplicate(), op: b.op, right: b.right.duplicate() },
            ),
            ExprNode::In(n) => ExprNode::In(InExpr { value: n.value.duplicate(), values: duplicate_all(&n.values) }),
            ExprNode::Function(f) => ExprNode::Function(
                FunctionExpr { function_type: f.function_type, args: duplicate_all(&f.args) },
            ),
        };
        Expr(Box::new(node))
    }
}

/// Copies of the expressions, in order.
fn duplicate_all(v: &Vec<Expr>) -> (r: Vec<Expr>)
    ensures
        exprs_view(r@) == exprs_view(v@),
    decreases v,
{
    let mut r: Vec<Expr> = Vec::new();
    let mut i: usize = 0;
    proof {
        lemma_exprs_view(v@);
    }
    while i < v.len()
        invariant
            i <= v.len(),
            r@.len() == i,
            forall|k: int| 0 <= k < i ==> #[trigger] r@[k]@ == v@[k]@,
        decreases v.len() - i,
    {
        r.push(v[i].duplicate());
        i = i + 1;
    }
    proof {
        lemma_exprs_view(r@);
        lemma_exprs_view(v@);
        assert(exprs_view(r@) =~= exprs_view(v@));
    }
    r
}

impl Default for Expr {
    /// The empty text constant.
    fn default() -> (r: Self)
        ensures
            r@ == (SpecExpr::Constant { value: Seq::empty(), data_type: DataType::Text }),
    {
        let value = String::new();
        proof {
            assert(value@ =~= Seq::<char>::empty());
        }
        Expr(Box::new(ExprNode::Constant(ConstantExpr { value, data_type: DataType::Text })))
    }
}

impl Clone for Expr {
    fn clone(&self) -> (r: Self)
        ensures
            r@ == self@,
    {
        self.duplicate()
    }
}

// ----- evaluation -----

/// Index of the first column named `name`.
pub open spec fn column_named_from(cols: Seq<(Seq<char>, u64)>, name: Seq<char>, i: int) -> Option<int>
    decreases cols.len() - i,
{
    if i < 0 || i >= cols.len() {
        None
    } else if cols[i].0 == name {
        Some(i)
    } else {
        column_named_from(cols, name, i + 1)
    }
}

/// The bit pattern listed for the float written `text` (the first entry for it).
pub open spec fn listed_bits_from(floats: Seq<(Seq<char>, u64)>, text: Seq<char>, i: int) -> Option<u64>
    decreases floats.len() - i,
{
    if i < 0 || i >= floats.len() {
        None
    } else if floats[i].0 == text {
        Some(floats[i].1)
    } else {
        listed_bits_from(floats, text, i + 1)
    }
}

pub open spec fn floats_view(v: Seq<(String, u64)>) -> Seq<(Seq<char>, u64)> {
    v.map_values(|e: (String, u64)| (e.0@, e.1))
}

/// What a column name gives in a row: the cached value of the first column
/// of that name, else null.
pub open spec fn identifier_value(
    name: Seq<char>,
    row: RowId,
    cols: Seq<(Seq<char>, u64)>,
    cache: Map<ValueId, SingleValue>,
) -> SpecValue {
    match column_named_from(cols, name, 0) {
        Some(k) => {
            let id = ValueId { table_id: row.table_id, row_id: row.row_id, column_id: cols[k].1 };
            if cache.contains_key(id) {
                cache[id]@
            } else {
                null_value()
            }
        },
        None => null_value(),
    }
}

/// What a constant gives: its encoding, or null where it does not read as
/// its type.
pub open spec fn constant_value(value: Seq<char>, dt: DataType, floats: Seq<(Seq<char>, u64)>) -> SpecValue {
    match encoded(value, dt, listed_bits_from(floats, value, 0)) {
        Some(raw) => SpecValue { raw, data_type: dt },
        None => null_value(),
    }
}

/// What a binary operator gives on two values: comparisons and logic give
/// booleans (false where the values cannot be compared or are not booleans);
/// arithmetic gives its value, or null.
pub open spec fn binary_value(l: SpecValue, op: BinaryOp, r: SpecValue) -> SpecValue {
    match op {
        BinaryOp::And => bool_value(truth(l) == Some(true) && truth(r) == Some(true)),
        BinaryOp::Or => bool_value(truth(l) == Some(true) || truth(r) == Some(true)),
        BinaryOp::Add | BinaryOp::Subtract | BinaryOp::Multiply | BinaryOp::Divide => match arith_values(l, op, r) {
            Some(v) => v,
            None => null_value(),
        },
        _ => bool_value(
            match compare_values(l, r) {
                Some(o) => order_holds(op, o),
                None => false,
            },
        ),
    }
}

/// `LENGTH(v)`: the number of bytes of a text, as an integer; null for anything else.
pub open spec fn length_value(v: SpecValue) -> SpecValue {
    if v.data_type == DataType::Text {
        int_result((v.raw.len() as i32) as int)
    } else {
        null_value()
    }
}

/// The value of an expression in a row.
///
/// Column names are looked up in `cols` (name and id of each column) and
/// their values in `cache`; a float
/// constant reads as the bit pattern `floats` lists for its text.
pub open spec fn eval(
    e: SpecExpr,
    row: RowId,
    cols: Seq<(Seq<char>, u64)>,
    cache: Map<ValueId, SingleValue>,
    floats: Seq<(Seq<char>, u64)>,
) -> SpecValue
    decreases e,
{
    match e {
        SpecExpr::Constant { value, data_type } => constant_value(value, data_type, floats),
        SpecExpr::Identifier { name } => identifier_value(name, row, cols, cache),
        SpecExpr::Binary { left, op, right } => binary_value(
            eval(*left, row, cols, cache, floats),
            op,
            eval(*right, row, cols, cache, floats),
        ),
        SpecExpr::In { value, values } => bool_value(
            in_values(eval(*value, row, cols, cache, floats), values, row, cols, cache, floats),
        ),
        SpecExpr::Function { args, .. } => if args.len() > 0 {
            length_value(eval(args[0], row, cols, cache, floats))
        } else {
            null_value()
        },
    }
}

/// Whether `target` equals the value of one of `values`.
pub open spec fn in_values(
    target: SpecValue,
    values: Seq<SpecExpr>,
    row: RowId,
    cols: Seq<(Seq<char>, u64)>,
    cache: Map<ValueId, SingleValue>,
    floats: Seq<(Seq<char>, u64)>,
) -> bool
    decreases values,
{
    if values.len() == 0 {
        false
    } else {
        in_values(target, values.drop_last(), row, cols, cache, floats) || compare_values(
            target,
            eval(values.last(), row, cols, cache, floats),
        ) == Some(crate::valueops::ValueOrder::Equal)
    }
}

/// The name and id of each column.
pub open spec fn column_refs(cols: Seq<Column>) -> Seq<(Seq<char>, u64)> {
    cols.map_values(|c: Column| (c.name@, c.id))
}

fn find_column(cols: &[Column], name: &String) -> (r: Option<usize>)
    ensures
        match r {
            Some(k) => column_named_from(column_refs(cols@), name@, 0) == Some(k as int) && k < cols@.len(),
            None => column_named_from(column_refs(cols@), name@, 0) is None,
        },
{
    let mut i: usize = 0;
    while i < cols.len()
        invariant
            i <= cols.len(),
            column_named_from(column_refs(cols@), name@, 0) == column_named_from(column_refs(cols@), name@, i as int),
        decreases cols.len() - i,
    {
        proof {
            assert(column_refs(cols@)[i as int] == (cols@[i as int].name@, cols@[i as int].id));
        }
        if cols[i].name == *name {
            return Some(i);
        }
        i = i + 1;
    }
    None
}

fn listed_bits(floats: &[(String, u64)], text: &String) -> (r: Option<u64>)
    ensures
        r == listed_bits_from(floats_view(floats@), text@, 0),
{
    let ghost fv = floats_view(floats@);
    let mut i: usize = 0;
    while i < floats.len()
        invariant
            i <= floats.len(),
            fv == floats_view(floats@),
            listed_bits_from(fv, text@, 0) == listed_bits_from(fv, text@, i as int),
        decreases floats.len() - i,
    {
        proof {
            assert(fv[i as int] == (floats@[i as int].0@, floats@[i as int].1));
        }
        if floats[i].0 == *text {
            return Some(floats[i].1);
        }
        i = i + 1;
    }
    None
}

impl Expr {
    /// The value of the expression in the row `row_id`.
    ///
    /// `floats` lists, for the text of each float constant, the bit pattern
    /// of that text read as an `f64`; a float constant not listed gives null.
    pub fn evaluate(
        &self,
        row_id: &RowId,
        columns: &[Column],
        cache_manager: &CacheManager,
        floats: &[(String, u64)],
    ) -> (r: SingleValue)
        requires
            cache_manager.wf(),
        ensures
            r@ == eval(self@, *row_id, column_refs(columns@), cache_manager.rows(), floats_view(floats@)),
        decreases self,
    {
        match &*self.0 {
            ExprNode::Constant(c) => {
                let bits = listed_bits(floats, &c.value);
                match SingleValue::encode_value(c.value.as_str(), &c.data_type, bits) {
                    Ok(v) => v,
                    Err(_) => SingleValue::null(),
                }
            },
            ExprNode::Identifier(i) => match find_column(columns, &i.name) {
                Some(k) => {
                    let id = ValueId::new(row_id.table_id, row_id.row_id, columns[k].id);
                    proof {
                        assert(column_refs(columns@)[k as int] == (columns@[k as int].name@, columns@[k as int].id));
                    }
                    match cache_manager.peek_row(&id) {
                        Some(v) => v.duplicate(),
                        None => SingleValue::null(),
                    }
                },
                None => SingleValue::null(),
            },
            ExprNode::Binary(b) => {
                let l = b.left.evaluate(row_id, columns, cache_manager, floats);
                let r = b.right.evaluate(row_id, columns, cache_manager, floats);
                match b.op {
                    BinaryOp::And => {
                        let x = match l.as_bool() { Some(v) => v, None => false };
                        let y = match r.as_bool() { Some(v) => v, None => false };
                        SingleValue::from_bool(x && y)
                    },
                    BinaryOp::Or => {
                        let x = match l.as_bool() { Some(v) => v, None => false };
                        let y = match r.as_bool() { Some(v) => v, None => false };
                        SingleValue::from_bool(x || y)
                    },
                    BinaryOp::Add | BinaryOp::Subtract | BinaryOp::Multiply | BinaryOp::Divide => {
                        match l.arith(b.op, &r) {
                            Some(v) => v,
                            None => SingleValue::null(),
                        }
                    },
                    _ => {
                        let holds = match l.compare_with(b.op, &r) {
                            Some(v) => v,
                            None => false,
                        };
                        SingleValue::from_bool(holds)
                    },
                }
            },
            ExprNode::In(n) => {
                let target = n.value.evaluate(row_id, columns, cache_manager, floats);
                let found = in_list(&target, &n.values, row_id, columns, cache_manager, floats);
                SingleValue::from_bool(found)
            },
            ExprNode::Function(f) => {
                proof {
                    lemma_exprs_view(f.args@);
                }
                if f.args.len() == 0 {
                    return SingleValue::null();
                }
                let first = f.args[0].evaluate(row_id, columns, cache_manager, floats);
                match first.data_type() {
                    DataType::Text => {
                        let n = first.len() as i32;
                        SingleValue::new(u32_to_le(n as u32), DataType::Integer)
                    },
                    _ => SingleValue::null(),
                }
            },
        }
    }
}

/// Whether `target` equals the value of one of `values` in the row.
fn in_list(
    target: &SingleValue,
    values: &Vec<Expr>,
    row_id: &RowId,
    columns: &[Column],
    cache_manager: &CacheManager,
    floats: &[(String, u64)],
) -> (b: bool)
    requires
        cache_manager.wf(),
    ensures
        b == in_values(target@, exprs_view(values@), *row_id, column_refs(columns@), cache_manager.rows(), floats_view(floats@)),
    decreases values,
{
    let ghost vs = exprs_view(values@);
    proof {
        lemma_exprs_view(values@);
    }
    let mut i: usize = 0;
    while i < values.len()
        invariant
            i <= values.len(),
            cache_manager.wf(),
            vs == exprs_view(values@),
            vs.len() == values@.len(),
            forall|k: int| 0 <= k < values@.len() ==> #[trigger] vs[k] == values@[k]@,
            !in_values(target@, vs.take(i as int), *row_id, column_refs(columns@), cache_manager.rows(), floats_view(floats@)),
        decreases values.len() - i,
    {
        let item = values[i].evaluate(row_id, columns, cache_manager, floats);
        proof {
            assert(vs.take(i + 1).drop_last() =~= vs.take(i as int));
            assert(vs.take(i + 1).last() == values@[i as int]@);
        }
        if target.compare(&item) == Some(crate::valueops::ValueOrder::Equal) {
            proof {
                lemma_in_values_prefix(target@, vs, i + 1, *row_id, column_refs(columns@), cache_manager.rows(), floats_view(floats@));
            }
            return true;
        }
        i = i + 1;
    }
    proof {
        assert(vs.take(i as int) =~= vs);
    }
    false
}

/// A match in a prefix of the list is a match in the list.
proof fn lemma_in_values_prefix(
    target: SpecValue,
    values: Seq<SpecExpr>,
    j: int,
    row: RowId,
    cols: Seq<(Seq<char>, u64)>,
    cache: Map<ValueId, SingleValue>,
    floats: Seq<(Seq<char>, u64)>,
)
    requires
        0 <= j <= values.len(),
        in_values(target, values.take(j), row, cols, cache, floats),
    ensures
        in_values(target, values, row, cols, cache, floats),
    decreases values.len() - j,
{
    if j < values.len() {
        assert(values.take(j + 1).drop_last() =~= values.take(j));
        lemma_in_values_prefix(target, values, j + 1, row, cols, cache, floats);
    } else {
        assert(values.take(j) =~= values);
    }
}

/// `IN` holds exactly when the target equals the value of some item of the
/// list, at whatever position the item stands.
pub proof fn law_in_matches_any_item(
    target: SpecValue,
    values: Seq<SpecExpr>,
    row: RowId,
    cols: Seq<(Seq<char>, u64)>,
    cache: Map<ValueId, SingleValue>,
    floats: Seq<(Seq<char>, u64)>,
)
    ensures
        in_values(target, values, row, cols, cache, floats) <==> exists|i: int|
            0 <= i < values.len() && compare_values(target, #[trigger] eval(values[i], row, cols, cache, floats))
                == Some(crate::valueops::ValueOrder::Equal),
    decreases values.len(),
{
    if values.len() > 0 {
        let d = values.drop_last();
        let n = values.len() - 1;
        law_in_matches_any_item(target, d, row, cols, cache, floats);
        if in_values(target, values, row, cols, cache, floats) {
            if in_values(target, d, row, cols, cache, floats) {
                let i = choose|i: int|
                    0 <= i < d.len() && compare_values(target, #[trigger] eval(d[i], row, cols, cache, floats))
                        == Some(crate::valueops::ValueOrder::Equal);
                assert(d[i] == values[i]);
                assert(compare_values(target, eval(values[i], row, cols, cache, floats))
                    == Some(crate::valueops::ValueOrder::Equal));
            } else {
                assert(values.last() == values[n]);
                assert(compare_values(target, eval(values[n], row, cols, cache, floats))
                    == Some(crate::valueops::ValueOrder::Equal));
            }
        }
        if exists|i: int|
            0 <= i < values.len() && compare_values(target, #[trigger] eval(values[i], row, cols, cache, floats))
                == Some(crate::valueops::ValueOrder::Equal) {
            let i = choose|i: int|
                0 <= i < values.len() && compare_values(target, #[trigger] eval(values[i], row, cols, cache, floats))
                    == Some(crate::valueops::ValueOrder::Equal);
            if i < n {
                assert(d[i] == values[i]);
                assert(compare_values(target, eval(d[i], row, cols, cache, floats))
                    == Some(crate::valueops::ValueOrder::Equal));
            } else {
                assert(values.last() == values[i]);
            }
        }
    }
}

} // verus!
