//! Comparison, logic and arithmetic on stored values.
//!
//! Integers (four-byte `i32` values) compare and compute; texts (`Text`,
//! `String`, `Varchar`) compare by their bytes; booleans compare with
//! `false < true`; date-times (eight-byte `i64` values) compare. Any other
//! pairing, floats among them, cannot be compared, and arithmetic is on
//! integers only: an overflow or a division by zero gives no value.

use vstd::prelude::*;
use crate::value::{DataType, SingleValue, SpecValue, u32_le, u64_le, u32_to_le, u32_from_le, u64_from_le};
use crate::expression::BinaryOp;

verus! {

/// The result of comparing two values.
#[derive(Debug, Clone, Copy, PartialEq, Eq, Structural)]
pub enum ValueOrder {
    Less,
    Equal,
    Greater,
}

/// A boolean value.
pub open spec fn bool_value(b: bool) -> SpecValue {
    SpecValue { raw: seq![if b { 1u8 } else { 0u8 }], data_type: DataType::Boolean }
}

/// The null value.
pub open spec fn null_value() -> SpecValue {
    SpecValue { raw: Seq::empty(), data_type: DataType::Null }
}

/// The truth a boolean value holds.
pub open spec fn truth(v: SpecValue) -> Option<bool> {
    if v.data_type == DataType::Boolean && v.raw.len() == 1 {
        Some(v.raw[0] != 0)
    } else {
        None
    }
}

/// The number an integer value holds.
pub open spec fn int_value(v: SpecValue) -> Option<i32> {
    if v.data_type == DataType::Integer && v.raw.len() == 4 {
        Some(u32_le(v.raw) as i32)
    } else {
        None
    }
}

/// The instant a date-time value holds.
pub open spec fn time_value(v: SpecValue) -> Option<i64> {
    if v.data_type == DataType::DateTime && v.raw.len() == 8 {
        Some(u64_le(v.raw) as i64)
    } else {
        None
    }
}

pub open spec fn is_text_type(t: DataType) -> bool {
    t == DataType::Text || t == DataType::String || t is Varchar
}

pub open spec fn order_of(a: int, b: int) -> ValueOrder {
    if a < b {
        ValueOrder::Less
    } else if a == b {
        ValueOrder::Equal
    } else {
        ValueOrder::Greater
    }
}

/// Byte strings in dictionary order.
pub open spec fn bytes_order(a: Seq<u8>, b: Seq<u8>) -> ValueOrder
    decreases a.len(),
{
    if a.len() == 0 {
        if b.len() == 0 {
            ValueOrder::Equal
        } else {
            ValueOrder::Less
        }
    } else if b.len() == 0 {
        ValueOrder::Greater
    } else if a[0] != b[0] {
        order_of(a[0] as int, b[0] as int)
    } else {
        bytes_order(a.drop_first(), b.drop_first())
    }
}

/// How `a` compares with `b`, where they can be compared.
pub open spec fn compare_values(a: SpecValue, b: SpecValue) -> Option<ValueOrder> {
    match (int_value(a), int_value(b)) {
        (Some(x), Some(y)) => Some(order_of(x as int, y as int)),
        _ => if is_text_type(a.data_type) && is_text_type(b.data_type) {
            Some(bytes_order(a.raw, b.raw))
        } else {
            match (truth(a), truth(b)) {
                (Some(x), Some(y)) => Some(order_of(if x { 1 } else { 0 }, if y { 1 } else { 0 })),
                _ => match (time_value(a), time_value(b)) {
                    (Some(x), Some(y)) => Some(order_of(x as int, y as int)),
                    _ => None,
                },
            }
        },
    }
}

/// Whether the comparison `op` holds between values ordered as `o`.
pub open spec fn order_holds(op: BinaryOp, o: ValueOrder) -> bool {
    match op {
        BinaryOp::Equal => o == ValueOrder::Equal,
        BinaryOp::NotEqual => o != ValueOrder::Equal,
        BinaryOp::GreaterThan => o == ValueOrder::Greater,
        BinaryOp::GreaterThanOrEqual => o != ValueOrder::Less,
        BinaryOp::LessThan => o == ValueOrder::Less,
        BinaryOp::LessThanOrEqual => o != ValueOrder::Greater,
        _ => false,
    }
}

/// The `i32` result of integer arithmetic, where it has one.
pub open spec fn int_arith(x: int, op: BinaryOp, y: int) -> Option<int> {
    let v = match op {
        BinaryOp::Add => Some(x + y),
        BinaryOp::Subtract => Some(x - y),
        BinaryOp::Multiply => Some(x * y),
        BinaryOp::Divide => if y == 0 {
            None
        } else {
            Some(crate::optimizer::int_op(x, op, y)->0)
        },
        _ => None,
    };
    match v {
        Some(n) => if i32::MIN <= n <= i32::MAX {
            Some(n)
        } else {
            None
        },
        None => None,
    }
}

/// An integer value.
pub open spec fn int_result(n: int) -> SpecValue {
    SpecValue { raw: crate::value::le_u32(n as i32 as u32), data_type: DataType::Integer }
}

/// The value arithmetic `op` gives on `a` and `b`, where it gives one.
pub open spec fn arith_values(a: SpecValue, op: BinaryOp, b: SpecValue) -> Option<SpecValue> {
    match (int_value(a), int_value(b)) {
        (Some(x), Some(y)) => match int_arith(x as int, op, y as int) {
            Some(n) => Some(int_result(n)),
            None => None,
        },
        _ => None,
    }
}

fn order_ints(a: i64, b: i64) -> (o: ValueOrder)
    ensures
        o == order_of(a as int, b as int),
{
    if a < b {
        ValueOrder::Less
    } else if a == b {
        ValueOrder::Equal
    } else {
        ValueOrder::Greater
    }
}

fn order_bytes(a: &[u8], b: &[u8]) -> (o: ValueOrder)
    ensures
        o == bytes_order(a@, b@),
{
    let mut i: usize = 0;
    proof {
        assert(a@.skip(0) =~= a@);
        assert(b@.skip(0) =~= b@);
    }
    while i < a.len() && i < b.len()
        invariant
            i <= a.len(),
            i <= b.len(),
            bytes_order(a@, b@) == bytes_order(a@.skip(i as int), b@.skip(i as int)),
        decreases a.len() - i,
    {
        if a[i] != b[i] {
            proof {
                assert(a@.skip(i as int)[0] == a[i as int]);
                assert(b@.skip(i as int)[0] == b[i as int]);
            }
            return order_ints(a[i] as i64, b[i] as i64);
        }
        proof {
            assert(a@.skip(i as int).drop_first() =~= a@.skip(i + 1));
            assert(b@.skip(i as int).drop_first() =~= b@.skip(i + 1));
        }
        i = i + 1;
    }
    proof {
        assert(a@.skip(i as int).len() == 0 || b@.skip(i as int).len() == 0);
    }
    if i < a.len() {
        ValueOrder::Greater
    } else if i < b.len() {
        ValueOrder::Less
    } else {
        ValueOrder::Equal
    }
}

fn is_text(t: DataType) -> (b: bool)
    ensures
        b == is_text_type(t),
{
    match t {
        DataType::Text | DataType::String | DataType::Varchar(_) => true,
        _ => false,
    }
}

impl SingleValue {
    /// A boolean value.
    pub fn from_bool(b: bool) -> (r: Self)
        ensures
            r@ == bool_value(b),
    {
        let raw = vec![if b { 1u8 } else { 0u8 }];
        proof {
            assert(raw@ =~= seq![if b { 1u8 } else { 0u8 }]);
        }
        SingleValue::new(raw, DataType::Boolean)
    }

    /// The truth of a boolean value.
    pub fn as_bool(&self) -> (r: Option<bool>)
        ensures
            r == truth(self@),
    {
        if self.data_type() == DataType::Boolean && self.len() == 1 {
            Some(self.as_ref()[0] != 0)
        } else {
            None
        }
    }

    /// The number of an integer value.
    pub fn as_int(&self) -> (r: Option<i32>)
        ensures
            r == int_value(self@),
    {
        if self.data_type() == DataType::Integer && self.len() == 4 {
            proof {
                assert(self@.raw.subrange(0, 4) =~= self@.raw);
            }
            Some(u32_from_le(self.as_ref(), 0) as i32)
        } else {
            None
        }
    }

    fn as_time(&self) -> (r: Option<i64>)
        ensures
            r == time_value(self@),
    {
        if self.data_type() == DataType::DateTime && self.len() == 8 {
            proof {
                assert(self@.raw.subrange(0, 8) =~= self@.raw);
            }
            Some(u64_from_le(self.as_ref(), 0) as i64)
        } else {
            None
        }
    }

    /// How this value compares with `other`, where they can be compared.
    pub fn compare(&self, other: &SingleValue) -> (r: Option<ValueOrder>)
        ensures
            r == compare_values(self@, other@),
    {
        match (self.as_int(), other.as_int()) {
            (Some(x), Some(y)) => {
                return Some(order_ints(x as i64, y as i64));
            },
            _ => {},
        }
        if is_text(self.data_type()) && is_text(other.data_type()) {
            return Some(order_bytes(self.as_ref(), other.as_ref()));
        }
        match (self.as_bool(), other.as_bool()) {
            (Some(x), Some(y)) => {
                return Some(order_ints(if x { 1 } else { 0 }, if y { 1 } else { 0 }));
            },
            _ => {},
        }
        match (self.as_time(), other.as_time()) {
            (Some(x), Some(y)) => Some(order_ints(x, y)),
            _ => None,
        }
    }

    /// Whether the comparison `op` holds between this value and `other`;
    /// `None` where they cannot be compared.
    pub fn compare_with(&self, op: BinaryOp, other: &SingleValue) -> (r: Option<bool>)
        ensures
            r == (match compare_values(self@, other@) {
                Some(o) => Some(order_holds(op, o)),
                None => None,
            }),
    {
        match self.compare(other) {
            Some(o) => Some(
                match op {
                    BinaryOp::Equal => o == ValueOrder::Equal,
                    BinaryOp::NotEqual => o != ValueOrder::Equal,
                    BinaryOp::GreaterThan => o == ValueOrder::Greater,
                    BinaryOp::GreaterThanOrEqual => o != ValueOrder::Less,
                    BinaryOp::LessThan => o == ValueOrder::Less,
                    BinaryOp::LessThanOrEqual => o != ValueOrder::Greater,
                    _ => false,
                },
            ),
            None => None,
        }
    }

    /// The value arithmetic `op` gives on this value and `other`.
    pub fn arith(&self, op: BinaryOp, other: &SingleValue) -> (r: Option<SingleValue>)
        ensures
            match arith_values(self@, op, other@) {
                Some(v) => r matches Some(x) && x@ == v,
                None => r is None,
            },
    {
        let (x, y) = match (self.as_int(), other.as_int()) {
            (Some(x), Some(y)) => (x as i64, y as i64),
            _ => {
                return None;
            },
        };
        let n: i64 = match op {
            BinaryOp::Add => x + y,
            BinaryOp::Subtract => x - y,
            BinaryOp::Multiply => {
                proof {
                    assert(-2147483648 * 2147483648 <= x * y <= 2147483648 * 2147483648) by (nonlinear_arith)
                        requires
                            -2147483648 <= x <= 2147483647,
                            -2147483648 <= y <= 2147483647,
                    ;
                }
                x * y
            },
            BinaryOp::Divide => {
                if y == 0 {
                    return None;
                }
                crate::optimizer::quotient_of(x, y)
            },
            _ => {
                return None;
            },
        };
        if n < -2147483648 || n > 2147483647 {
            return None;
        }
        let v = n as i32;
        Some(SingleValue::new(u32_to_le(v as u32), DataType::Integer))
    }
}

/// How two values order as stored: values of one type by their bytes; values
/// of different types not at all.
pub open spec fn stored_order(a: SpecValue, b: SpecValue) -> Option<ValueOrder> {
    if a.data_type == b.data_type {
        Some(bytes_order(a.raw, b.raw))
    } else {
        None
    }
}

impl SingleValue {
    /// The order of two values as stored (see `stored_order`).
    pub fn partial_cmp(&self, other: &SingleValue) -> (r: Option<ValueOrder>)
        ensures
            r == stored_order(self@, other@),
    {
        if self.data_type() == other.data_type() {
            Some(order_bytes(self.as_ref(), other.as_ref()))
        } else {
            None
        }
    }

    /// The stored order, with values of different types taken as equal.
    pub fn cmp(&self, other: &SingleValue) -> (r: ValueOrder)
        ensures
            r == match stored_order(self@, other@) {
                Some(o) => o,
                None => ValueOrder::Equal,
            },
    {
        match self.partial_cmp(other) {
            Some(o) => o,
            None => ValueOrder::Equal,
        }
    }
}

// ----- laws of comparison -----

/// The order with its sides exchanged.
pub open spec fn flipped(o: ValueOrder) -> ValueOrder {
    match o {
        ValueOrder::Less => ValueOrder::Greater,
        ValueOrder::Equal => ValueOrder::Equal,
        ValueOrder::Greater => ValueOrder::Less,
    }
}

/// Where two byte strings first differ, the smaller byte decides.
proof fn lemma_bytes_first_difference(a: Seq<u8>, b: Seq<u8>, i: int)
    requires
        0 <= i < a.len(),
        i < b.len(),
        a.take(i) == b.take(i),
        a[i] != b[i],
    ensures
        bytes_order(a, b) == order_of(a[i] as int, b[i] as int),
    decreases i,
{
    if i > 0 {
        assert(a[0] == a.take(i)[0]);
        assert(b[0] == b.take(i)[0]);
        assert(a.drop_first().take(i - 1) =~= b.drop_first().take(i - 1)) by {
            assert forall|k: int| 0 <= k < i - 1 implies #[trigger] a.drop_first()[k] == b.drop_first()[k] by {
                assert(a.take(i)[k + 1] == a[k + 1]);
                assert(b.take(i)[k + 1] == b[k + 1]);
                assert(a.take(i)[k + 1] == b.take(i)[k + 1]);
            }
        }
        lemma_bytes_first_difference(a.drop_first(), b.drop_first(), i - 1);
    }
}

/// A string that is a proper prefix of another comes first.
proof fn lemma_bytes_prefix(a: Seq<u8>, b: Seq<u8>)
    requires
        a.len() < b.len(),
        b.take(a.len() as int) == a,
    ensures
        bytes_order(a, b) == ValueOrder::Less,
    decreases a.len(),
{
    if a.len() > 0 {
        assert(b[0] == b.take(a.len() as int)[0]);
        assert(b.drop_first().take(a.drop_first().len() as int) =~= a.drop_first()) by {
            assert forall|k: int| 0 <= k < a.len() - 1 implies #[trigger] b.drop_first()[k] == a.drop_first()[k] by {
                assert(b.take(a.len() as int)[k + 1] == a[k + 1]);
            }
        }
        lemma_bytes_prefix(a.drop_first(), b.drop_first());
    }
}

/// Two byte strings order as equal exactly when they are the same, and
/// exchanging them exchanges the order.
proof fn lemma_bytes_equal_and_flip(a: Seq<u8>, b: Seq<u8>)
    ensures
        (bytes_order(a, b) == ValueOrder::Equal) <==> (a == b),
        bytes_order(b, a) == flipped(bytes_order(a, b)),
    decreases a.len(),
{
    if a.len() > 0 && b.len() > 0 {
        lemma_bytes_equal_and_flip(a.drop_first(), b.drop_first());
        if a[0] == b[0] && a.drop_first() == b.drop_first() {
            assert(a =~= seq![a[0]] + a.drop_first());
            assert(b =~= seq![b[0]] + b.drop_first());
        }
    }
    if a.len() == 0 && b.len() == 0 {
        assert(a =~= b);
    }
}

/// Text bytes are ordered as in a dictionary of unsigned bytes: equal
/// exactly when they are the same bytes; at the first position where they
/// differ, the smaller byte comes first; a proper prefix comes first; and
/// exchanging the sides exchanges the order.
pub proof fn law_bytes_order_is_lexicographic(a: Seq<u8>, b: Seq<u8>)
    ensures
        (bytes_order(a, b) == ValueOrder::Equal) <==> (a == b),
        forall|i: int|
            0 <= i < a.len() && i < b.len() && a.take(i) == b.take(i) && #[trigger] a[i] != #[trigger] b[i]
                ==> (bytes_order(a, b) == ValueOrder::Less <==> a[i] < b[i]),
        a.len() < b.len() && b.take(a.len() as int) == a ==> bytes_order(a, b) == ValueOrder::Less,
        bytes_order(b, a) == flipped(bytes_order(a, b)),
{
    lemma_bytes_equal_and_flip(a, b);
    assert forall|i: int|
        0 <= i < a.len() && i < b.len() && a.take(i) == b.take(i) && #[trigger] a[i] != #[trigger] b[i]
            implies (bytes_order(a, b) == ValueOrder::Less <==> a[i] < b[i]) by {
        lemma_bytes_first_difference(a, b, i);
    }
    if a.len() < b.len() && b.take(a.len() as int) == a {
        lemma_bytes_prefix(a, b);
    }
}

/// The stored order of two values of one type is the dictionary order of
/// their bytes: it is `Equal` only for the same bytes, and the first byte
/// that differs decides.
pub proof fn law_stored_order_by_first_difference(a: SpecValue, b: SpecValue, i: int)
    requires
        a.data_type == b.data_type,
        0 <= i < a.raw.len(),
        i < b.raw.len(),
        a.raw.take(i) == b.raw.take(i),
        a.raw[i] != b.raw[i],
    ensures
        stored_order(a, b) == Some(if a.raw[i] < b.raw[i] { ValueOrder::Less } else { ValueOrder::Greater }),
{
    lemma_bytes_first_difference(a.raw, b.raw, i);
}

/// Comparing two integers with a comparison operator holds exactly when the
/// operator holds between the numbers.
pub proof fn law_integer_comparisons(x: i32, y: i32)
    ensures
        compare_values(int_result(x as int), int_result(y as int)) is Some,
        order_holds(BinaryOp::Equal, compare_values(int_result(x as int), int_result(y as int))->0) == (x == y),
        order_holds(BinaryOp::NotEqual, compare_values(int_result(x as int), int_result(y as int))->0) == (x != y),
        order_holds(BinaryOp::GreaterThan, compare_values(int_result(x as int), int_result(y as int))->0) == (x > y),
        order_holds(BinaryOp::GreaterThanOrEqual, compare_values(int_result(x as int), int_result(y as int))->0)
            == (x >= y),
        order_holds(BinaryOp::LessThan, compare_values(int_result(x as int), int_result(y as int))->0) == (x < y),
        order_holds(BinaryOp::LessThanOrEqual, compare_values(int_result(x as int), int_result(y as int))->0)
            == (x <= y),
{
    crate::value::lemma_le_u32_roundtrip(x as u32);
    crate::value::lemma_le_u32_roundtrip(y as u32);
    crate::value::lemma_i32_u32_roundtrip(x);
    crate::value::lemma_i32_u32_roundtrip(y);
    assert(int_value(int_result(x as int)) == Some(x));
    assert(int_value(int_result(y as int)) == Some(y));
}

/// A value that can be compared with itself is equal to itself: `=`, `>=`
/// and `<=` hold, and `!=`, `<` and `>` do not.
pub proof fn law_comparison_reflexive(a: SpecValue)
    requires
        compare_values(a, a) is Some,
    ensures
        compare_values(a, a) == Some(ValueOrder::Equal),
        order_holds(BinaryOp::Equal, ValueOrder::Equal),
        order_holds(BinaryOp::GreaterThanOrEqual, ValueOrder::Equal),
        order_holds(BinaryOp::LessThanOrEqual, ValueOrder::Equal),
        !order_holds(BinaryOp::NotEqual, ValueOrder::Equal),
        !order_holds(BinaryOp::GreaterThan, ValueOrder::Equal),
        !order_holds(BinaryOp::LessThan, ValueOrder::Equal),
{
    lemma_bytes_equal_and_flip(a.raw, a.raw);
}

/// Exchanging the sides of a comparison exchanges the order: `a > b`
/// exactly when `b < a`, `a >= b` exactly when `b <= a`, and `=` and `!=`
/// do not depend on the side.
pub proof fn law_comparison_exchange(a: SpecValue, b: SpecValue)
    ensures
        compare_values(b, a) == match compare_values(a, b) {
            Some(o) => Some(flipped(o)),
            None => None,
        },
        forall|o: ValueOrder|
            (#[trigger] order_holds(BinaryOp::GreaterThan, o) == order_holds(BinaryOp::LessThan, flipped(o)))
                && order_holds(BinaryOp::GreaterThanOrEqual, o) == order_holds(BinaryOp::LessThanOrEqual, flipped(o))
                && order_holds(BinaryOp::Equal, o) == order_holds(BinaryOp::Equal, flipped(o))
                && order_holds(BinaryOp::NotEqual, o) == order_holds(BinaryOp::NotEqual, flipped(o)),
        forall|o: ValueOrder|
            #[trigger] order_holds(BinaryOp::GreaterThanOrEqual, o) == (order_holds(BinaryOp::GreaterThan, o)
                || order_holds(BinaryOp::Equal, o)),
        forall|o: ValueOrder|
            #[trigger] order_holds(BinaryOp::LessThanOrEqual, o) == (order_holds(BinaryOp::LessThan, o)
                || order_holds(BinaryOp::Equal, o)),
{
    lemma_bytes_equal_and_flip(a.raw, b.raw);
}

/// Booleans compare with `false` before `true`, and equal booleans are equal.
pub proof fn law_boolean_order(x: bool, y: bool)
    ensures
        compare_values(bool_value(x), bool_value(y)) == Some(
            if x == y {
                ValueOrder::Equal
            } else if !x {
                ValueOrder::Less
            } else {
                ValueOrder::Greater
            },
        ),
{
}

} // verus!
