use lishdb::cache::CacheManager;
use lishdb::expression::{BinaryExpr, BinaryOp, ConstantExpr, Expr, ExprNode, FunctionExpr, FunctionType, IdentifierExpr, InExpr};
use lishdb::optimizer::evaluate_constant_binary_op;
use lishdb::parser::parse_sql;
use lishdb::stmt::Stmt;
use lishdb::value::{Column, DataType, RowId, SingleValue};

fn constant(v: &str, t: DataType) -> Expr {
    Expr::new(Box::new(ExprNode::Constant(ConstantExpr { value: v.to_string(), data_type: t })))
}

fn binary(l: Expr, op: BinaryOp, r: Expr) -> Expr {
    Expr::new(Box::new(ExprNode::Binary(BinaryExpr { left: l, op, right: r })))
}

fn ident(n: &str) -> Expr {
    Expr::new(Box::new(ExprNode::Identifier(IdentifierExpr { name: n.to_string() })))
}

fn eval(e: &Expr) -> SingleValue {
    let cols = vec![Column { id: 1, name: "a".into(), table_name: "t".into(), data_type: DataType::Integer }];
    e.evaluate(&RowId::new(1, 0), &cols, &CacheManager::default(), &[("2.5".to_string(), 2.5f64.to_bits())])
}

fn where_expr(sql: &str) -> Expr {
    match parse_sql(sql).unwrap() {
        Stmt::Select(s) => s.where_expr.unwrap(),
        other => panic!("{:?}", other),
    }
}

#[test]
fn expression_types() {
    let sum = binary(constant("1", DataType::Integer), BinaryOp::Add, constant("2", DataType::Integer));
    assert_eq!(sum.data_type(), Some(DataType::Integer));
    let mixed = binary(constant("1", DataType::Integer), BinaryOp::Add, constant("2.5", DataType::Float));
    assert_eq!(mixed.data_type(), Some(DataType::Float));
    let cmp = binary(ident("a"), BinaryOp::LessThan, constant("2", DataType::Integer));
    assert_eq!(cmp.data_type(), Some(DataType::Boolean));
    let unknown = binary(ident("a"), BinaryOp::Add, constant("2", DataType::Integer));
    assert_eq!(unknown.data_type(), None);
    let bools = binary(constant("TRUE", DataType::Boolean), BinaryOp::Multiply, constant("1", DataType::Integer));
    assert_eq!(bools.data_type(), None);
    assert!(!sum.is_nullable());
    assert_eq!(Expr::default().data_type(), Some(DataType::Text));
}

#[test]
fn expression_children() {
    let e = where_expr("SELECT a FROM t WHERE a + 1");
    let kids = e.children();
    assert_eq!(kids.len(), 2);
    assert_eq!(kids[0].data_type(), None);
    assert_eq!(kids[1].data_type(), Some(DataType::Integer));
    let f = Expr::new(Box::new(ExprNode::Function(FunctionExpr {
        function_type: FunctionType::LENGTH,
        args: vec![constant("x", DataType::Text)],
    })));
    assert_eq!(f.children().len(), 1);
    assert_eq!(f.data_type(), Some(DataType::Integer));
    let copy = e.clone();
    assert_eq!(format!("{:?}", copy), format!("{:?}", e));
}

#[test]
fn evaluating_constants_and_arithmetic() {
    assert_eq!(eval(&constant("5", DataType::Integer)).as_ref(), &[5u8, 0, 0, 0][..]);
    assert_eq!(eval(&constant("oops", DataType::Integer)), SingleValue::null());
    assert_eq!(eval(&constant("2.5", DataType::Float)).as_ref(), &2.5f64.to_bits().to_le_bytes()[..]);
    assert_eq!(eval(&constant("9.5", DataType::Float)), SingleValue::null());
    let e = binary(constant("6", DataType::Integer), BinaryOp::Multiply, constant("7", DataType::Integer));
    assert_eq!(eval(&e).as_ref(), &[42u8, 0, 0, 0][..]);
    let z = binary(constant("6", DataType::Integer), BinaryOp::Divide, constant("0", DataType::Integer));
    assert_eq!(eval(&z), SingleValue::null());
}

#[test]
fn evaluating_conditions() {
    let int = |v: &str| constant(v, DataType::Integer);
    let text = |v: &str| constant(v, DataType::Text);
    let t = binary(
        binary(int("3"), BinaryOp::GreaterThan, int("2")),
        BinaryOp::And,
        binary(text("b"), BinaryOp::Equal, text("b")),
    );
    assert_eq!(eval(&t), SingleValue::from_bool(true));
    let f = binary(
        binary(int("3"), BinaryOp::LessThan, int("2")),
        BinaryOp::Or,
        binary(int("1"), BinaryOp::NotEqual, int("1")),
    );
    assert_eq!(eval(&f), SingleValue::from_bool(false));
    // a column with no cached value is null, and null compares with nothing
    let c = binary(ident("a"), BinaryOp::Equal, int("1"));
    assert_eq!(eval(&c), SingleValue::from_bool(false));
    // the condition grammar has arithmetic only: a comparison is left unread
    let w = where_expr("SELECT a FROM t WHERE a = 1");
    assert!(w.children().is_empty());
    let p = where_expr("SELECT a FROM t WHERE (1 + 2) * 3");
    assert_eq!(eval(&p).as_ref(), &[9u8, 0, 0, 0][..]);
    assert_eq!(eval(&ident("a")), SingleValue::null());
    assert_eq!(eval(&ident("missing")), SingleValue::null());
}

#[test]
fn evaluating_in_and_length() {
    let inside = Expr::new(Box::new(ExprNode::In(InExpr {
        value: constant("2", DataType::Integer),
        values: vec![constant("1", DataType::Integer), constant("2", DataType::Integer)],
    })));
    assert_eq!(eval(&inside), SingleValue::from_bool(true));
    let outside = Expr::new(Box::new(ExprNode::In(InExpr {
        value: constant("5", DataType::Integer),
        values: vec![constant("1", DataType::Integer)],
    })));
    assert_eq!(eval(&outside), SingleValue::from_bool(false));
    let len = Expr::new(Box::new(ExprNode::Function(FunctionExpr {
        function_type: FunctionType::LENGTH,
        args: vec![constant("héllo", DataType::Text)],
    })));
    assert_eq!(eval(&len).as_ref(), &[6u8, 0, 0, 0][..]);
    let not_text = Expr::new(Box::new(ExprNode::Function(FunctionExpr {
        function_type: FunctionType::LENGTH,
        args: vec![constant("12", DataType::Integer)],
    })));
    assert_eq!(eval(&not_text), SingleValue::null());
}

#[test]
fn folding_keeps_the_value_of_an_expression() {
    for (l, op, r) in [("12", BinaryOp::Subtract, "30"), ("-9", BinaryOp::Divide, "4"), ("1000", BinaryOp::Multiply, "-3")] {
        let lc = ConstantExpr { value: l.to_string(), data_type: DataType::Integer };
        let rc = ConstantExpr { value: r.to_string(), data_type: DataType::Integer };
        let folded = evaluate_constant_binary_op(&lc, op, &rc, None).unwrap();
        let unfolded = binary(constant(l, DataType::Integer), op, constant(r, DataType::Integer));
        assert_eq!(eval(&constant(&folded.value, folded.data_type)), eval(&unfolded));
    }
}

#[test]
fn optimizing_an_expression_keeps_its_value_and_type() {
    let e = binary(constant("4", DataType::Integer), BinaryOp::Multiply, constant("3", DataType::Integer));
    let before = eval(&e);
    let t = e.data_type();
    let o = lishdb::optimizer::optimize_expression(e);
    assert_eq!(eval(&o), before);
    assert_eq!(o.data_type(), t);
}
