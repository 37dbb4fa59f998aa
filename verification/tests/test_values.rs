use lishdb::value::{Column, DataType, RowId, SingleValue, ValueId, ColumnId};
use lishdb::valueops::ValueOrder;
use lishdb::expression::BinaryOp;
use lishdb::error::ValueError;

fn int_value(v: i32) -> SingleValue {
    SingleValue::new((v as u32).to_le_bytes().to_vec(), DataType::Integer)
}

fn text_value(s: &str) -> SingleValue {
    SingleValue::new(s.as_bytes().to_vec(), DataType::Text)
}

#[test]
fn encode_integer_gives_little_endian_bytes() {
    let v = SingleValue::encode_value("42", &DataType::Integer, None).unwrap();
    assert_eq!(v.as_ref(), &[42u8, 0, 0, 0][..]);
    assert_eq!(v.data_type(), DataType::Integer);
    let n = SingleValue::encode_value("-1", &DataType::Integer, None).unwrap();
    assert_eq!(n.as_ref(), &[255u8, 255, 255, 255][..]);
}

#[test]
fn encode_integer_rejects_non_numbers_and_overflow() {
    match SingleValue::encode_value("abc", &DataType::Integer, None) {
        Err(ValueError::ParseError(m)) => assert_eq!(m, "Failed to parse integer value"),
        other => panic!("unexpected {:?}", other),
    }
    match SingleValue::encode_value("2147483648", &DataType::Integer, None) {
        Err(ValueError::ParseError(m)) => assert_eq!(m, "Failed to parse integer value"),
        other => panic!("unexpected {:?}", other),
    }
    assert!(SingleValue::encode_value("2147483647", &DataType::Integer, None).is_ok());
}

#[test]
fn encode_float_uses_the_given_bits() {
    let bits = 1.5f64.to_bits();
    let v = SingleValue::encode_value("1.5", &DataType::Float, Some(bits)).unwrap();
    assert_eq!(v.as_ref(), &bits.to_le_bytes()[..]);
    match SingleValue::encode_value("x", &DataType::Float, None) {
        Err(ValueError::ParseError(m)) => assert_eq!(m, "Failed to parse float value"),
        other => panic!("unexpected {:?}", other),
    }
}

#[test]
fn encode_boolean_reads_true_and_one() {
    for (text, byte) in [("TRUE", 1u8), ("true", 1), ("1", 1), ("false", 0), ("yes", 0), ("0", 0)] {
        let v = SingleValue::encode_value(text, &DataType::Boolean, None).unwrap();
        assert_eq!(v.as_ref(), &[byte][..], "{}", text);
    }
}

#[test]
fn encode_text_keeps_utf8_bytes() {
    let v = SingleValue::encode_value("héllo", &DataType::Text, None).unwrap();
    assert_eq!(v.as_ref(), "héllo".as_bytes());
    assert_eq!(v.len(), 6);
}

#[test]
fn value_text_forms() {
    assert_eq!(SingleValue::null().to_string(""), "NULL");
    assert_eq!(int_value(-123).to_string(""), "-123");
    assert_eq!(text_value("abc").to_string(""), "abc");
    assert_eq!(SingleValue::new(vec![0xff, 0xfe], DataType::Text).to_string(""), "[255, 254]");
    assert_eq!(SingleValue::new(vec![1], DataType::Boolean).to_string(""), "true");
    assert_eq!(SingleValue::new(vec![0], DataType::Boolean).to_string(""), "false");
    assert_eq!(SingleValue::new(vec![1, 2, 3], DataType::Blob).to_string(""), "[1, 2, 3]");
    assert_eq!(
        SingleValue::new((0u8..12).collect(), DataType::Blob).to_string(""),
        "[0, 1, 2, 3, 4, 5, 6, 7, 8, 9]..."
    );
    let ts = SingleValue::new(1_700_000_000i64.to_le_bytes().to_vec(), DataType::DateTime);
    assert_eq!(ts.to_string(""), "1700000000");
    let f = SingleValue::new(2.5f64.to_le_bytes().to_vec(), DataType::Float);
    assert_eq!(f.to_string("2.5"), "2.5");
    assert_eq!(SingleValue::new(vec![1, 2, 3], DataType::Integer).to_string(""), "[1, 2, 3]");
}

#[test]
fn integer_round_trip_through_text() {
    for n in [0i32, 7, -7, 2147483647, -2147483648] {
        let v = SingleValue::encode_value(&n.to_string(), &DataType::Integer, None).unwrap();
        assert_eq!(v.to_string(""), n.to_string());
    }
}

#[test]
fn from_str_guesses_types() {
    let q = SingleValue::from_str("  'hi there' ", None).unwrap();
    assert_eq!(q.data_type(), DataType::String);
    assert_eq!(q.as_ref(), b"hi there");
    let b = SingleValue::from_str("TRUE", None).unwrap();
    assert_eq!(b.data_type(), DataType::Boolean);
    assert_eq!(b.as_ref(), &[1u8][..]);
    let i = SingleValue::from_str(" 12 ", None).unwrap();
    assert_eq!(i.data_type(), DataType::Integer);
    assert_eq!(i.as_ref(), &[12u8, 0, 0, 0][..]);
    let bits = 3.25f64.to_bits();
    let f = SingleValue::from_str("3.25", Some(bits)).unwrap();
    assert_eq!(f.data_type(), DataType::Float);
    assert_eq!(f.as_ref(), &bits.to_le_bytes()[..]);
    let s = SingleValue::from_str("hello", None).unwrap();
    assert_eq!(s.data_type(), DataType::String);
    assert_eq!(s.as_ref(), b"hello");
    // a dot without a float reading falls through to text
    let d = SingleValue::from_str("1.2.3", None).unwrap();
    assert_eq!(d.data_type(), DataType::String);
}

#[test]
fn row_handles_of_a_table() {
    let rows = RowId::get_vec(9, 3);
    assert_eq!(rows, vec![RowId::new(9, 0), RowId::new(9, 1), RowId::new(9, 2)]);
    assert!(RowId::get_vec(9, 0).is_empty());
    assert_eq!(ValueId::new(1, 2, 3).column_id, 3);
    assert_eq!(ColumnId::new(1, 2).table_id, 1);
}

#[test]
fn columns_same_with_compares_name_and_type() {
    let a = Column { id: 1, name: "x".into(), table_name: "t".into(), data_type: DataType::Integer };
    let b = Column { id: 2, name: "x".into(), table_name: "u".into(), data_type: DataType::Integer };
    let c = Column { id: 1, name: "x".into(), table_name: "t".into(), data_type: DataType::Text };
    assert!(a.same_with(&b));
    assert!(!a.same_with(&c));
}

#[test]
fn comparing_values() {
    assert_eq!(int_value(3).compare(&int_value(5)), Some(ValueOrder::Less));
    assert_eq!(int_value(-3).compare(&int_value(-3)), Some(ValueOrder::Equal));
    assert_eq!(text_value("b").compare(&text_value("ab")), Some(ValueOrder::Greater));
    assert_eq!(text_value("ab").compare(&text_value("abc")), Some(ValueOrder::Less));
    assert_eq!(SingleValue::from_bool(false).compare(&SingleValue::from_bool(true)), Some(ValueOrder::Less));
    assert_eq!(int_value(1).compare(&text_value("1")), None);
    assert_eq!(int_value(1).compare_with(BinaryOp::LessThanOrEqual, &int_value(1)), Some(true));
    assert_eq!(int_value(2).compare_with(BinaryOp::NotEqual, &int_value(1)), Some(true));
}

#[test]
fn integer_arithmetic_on_values() {
    assert_eq!(int_value(7).arith(BinaryOp::Add, &int_value(5)), Some(int_value(12)));
    assert_eq!(int_value(7).arith(BinaryOp::Subtract, &int_value(9)), Some(int_value(-2)));
    assert_eq!(int_value(-7).arith(BinaryOp::Divide, &int_value(2)), Some(int_value(-3)));
    assert_eq!(int_value(7).arith(BinaryOp::Divide, &int_value(0)), None);
    assert_eq!(int_value(i32::MAX).arith(BinaryOp::Add, &int_value(1)), None);
    assert_eq!(int_value(65536).arith(BinaryOp::Multiply, &int_value(65536)), None);
    assert_eq!(int_value(1).arith(BinaryOp::Equal, &int_value(1)), None);
    assert_eq!(SingleValue::from_bool(true).as_bool(), Some(true));
    assert_eq!(int_value(1).as_bool(), None);
}

#[test]
fn stored_order_of_values() {
    assert_eq!(int_value(1).partial_cmp(&int_value(256)), Some(ValueOrder::Greater));
    assert_eq!(text_value("a").partial_cmp(&text_value("a")), Some(ValueOrder::Equal));
    assert_eq!(text_value("a").partial_cmp(&int_value(1)), None);
    assert_eq!(text_value("a").cmp(&int_value(1)), ValueOrder::Equal);
    assert_eq!(text_value("a").cmp(&text_value("b")), ValueOrder::Less);
}

#[test]
fn short_handle_texts_and_symbols() {
    assert_eq!(RowId::new(123456, 7).short_text(), "456:7");
    assert_eq!(ColumnId::new(1000, 2001).short_text(), "0:1");
    assert_eq!(ValueId::new(5, 1999, 42).short_text(), "5:999:42");
    assert_eq!(BinaryOp::GreaterThanOrEqual.symbol(), ">=");
    assert_eq!(BinaryOp::And.symbol(), "AND");
    assert_eq!(BinaryOp::Add.symbol(), "+");
}
