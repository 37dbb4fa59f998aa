//! Column values: their data types, their byte encoding and their text form.

use vstd::prelude::*;
use vstd::string::StrSliceExecFns;
use vstd::utf8::{encode_utf8, valid_utf8, decode_utf8};
use vstd::string::StringExecFns;
use crate::text::{tag_nc_at, match_tag_nc};
use crate::grammar::{Keyword, kw, trim_lo, trim_hi};
use crate::parser::{Src, kw_chars, p_trim_lo, p_trim_hi};
use crate::numtext::{
    int_text, bytes_debug, parse_i32_spec, parse_i32, append_int, append_bytes_debug,
    lemma_int_text_reads_back, nat_text, append_nat,
};
use crate::error::ValueError;

verus! {

broadcast use vstd::string::group_string_axioms;

/// The data type of a column or a value.
#[derive(Debug, PartialEq, Eq, Hash, Clone, Copy, Structural)]
pub enum DataType {
    Null,
    Integer,
    Float,
    Text,
    Blob,
    Boolean,
    DateTime,
    String,
    Varchar(usize),
}

/// The stored form of one value of one column in one row: its bytes and its type.
#[derive(Debug, Hash, PartialEq, Eq, Clone)]
pub struct SingleValue {
    raw: Vec<u8>,
    data_type: DataType,
}

/// The mathematical form of a value.
pub struct SpecValue {
    pub raw: Seq<u8>,
    pub data_type: DataType,
}

impl View for SingleValue {
    type V = SpecValue;

    closed spec fn view(&self) -> SpecValue {
        SpecValue { raw: self.raw@, data_type: self.data_type }
    }
}

// ----- fixed-width little-endian integers -----

pub open spec fn le_u32(x: u32) -> Seq<u8> {
    seq![(x & 0xff) as u8, ((x >> 8u32) & 0xff) as u8, ((x >> 16u32) & 0xff) as u8, ((x >> 24u32) & 0xff) as u8]
}

pub open spec fn le_u64(x: u64) -> Seq<u8> {
    seq![
        (x & 0xff) as u8,
        ((x >> 8u64) & 0xff) as u8,
        ((x >> 16u64) & 0xff) as u8,
        ((x >> 24u64) & 0xff) as u8,
        ((x >> 32u64) & 0xff) as u8,
        ((x >> 40u64) & 0xff) as u8,
        ((x >> 48u64) & 0xff) as u8,
        ((x >> 56u64) & 0xff) as u8,
    ]
}

pub open spec fn u32_of_le(b0: u8, b1: u8, b2: u8, b3: u8) -> u32 {
    (b0 as u32) | ((b1 as u32) << 8u32) | ((b2 as u32) << 16u32) | ((b3 as u32) << 24u32)
}

pub open spec fn u32_le(b: Seq<u8>) -> u32 {
    u32_of_le(b[0], b[1], b[2], b[3])
}

pub open spec fn u64_of_le(b0: u8, b1: u8, b2: u8, b3: u8, b4: u8, b5: u8, b6: u8, b7: u8) -> u64 {
    (b0 as u64) | ((b1 as u64) << 8u64) | ((b2 as u64) << 16u64) | ((b3 as u64) << 24u64) | ((
    b4 as u64) << 32u64) | ((b5 as u64) << 40u64) | ((b6 as u64) << 48u64) | ((b7 as u64)
        << 56u64)
}

pub open spec fn u64_le(b: Seq<u8>) -> u64 {
    u64_of_le(b[0], b[1], b[2], b[3], b[4], b[5], b[6], b[7])
}

/// `x.to_le_bytes()` for a `u32`.
pub fn u32_to_le(x: u32) -> (r: Vec<u8>)
    ensures
        r@ == le_u32(x),
{
    let r = vec![(x & 0xff) as u8, ((x >> 8) & 0xff) as u8, ((x >> 16) & 0xff) as u8, ((x >> 24) & 0xff) as u8];
    proof {
        assert(r@ =~= le_u32(x));
    }
    r
}

/// `x.to_le_bytes()` for a `u64`.
pub fn u64_to_le(x: u64) -> (r: Vec<u8>)
    ensures
        r@ == le_u64(x),
{
    let r = vec![
        (x & 0xff) as u8,
        ((x >> 8) & 0xff) as u8,
        ((x >> 16) & 0xff) as u8,
        ((x >> 24) & 0xff) as u8,
        ((x >> 32) & 0xff) as u8,
        ((x >> 40) & 0xff) as u8,
        ((x >> 48) & 0xff) as u8,
        ((x >> 56) & 0xff) as u8,
    ];
    proof {
        assert(r@ =~= le_u64(x));
    }
    r
}

/// `u32::from_le_bytes` of four bytes starting at `at`.
pub fn u32_from_le(b: &[u8], at: usize) -> (r: u32)
    requires
        at + 4 <= b@.len(),
    ensures
        r == u32_le(b@.subrange(at as int, at + 4)),
{
    (b[at] as u32) | ((b[at + 1] as u32) << 8) | ((b[at + 2] as u32) << 16) | ((b[at + 3] as u32)
        << 24)
}

/// `u64::from_le_bytes` of eight bytes starting at `at`.
pub fn u64_from_le(b: &[u8], at: usize) -> (r: u64)
    requires
        at + 8 <= b@.len(),
    ensures
        r == u64_le(b@.subrange(at as int, at + 8)),
{
    (b[at] as u64) | ((b[at + 1] as u64) << 8) | ((b[at + 2] as u64) << 16) | ((b[at + 3] as u64)
        << 24) | ((b[at + 4] as u64) << 32) | ((b[at + 5] as u64) << 40) | ((b[at + 6] as u64)
        << 48) | ((b[at + 7] as u64) << 56)
}

/// Reading back four little-endian bytes gives the number written.
pub proof fn lemma_le_u32_roundtrip(x: u32)
    ensures
        u32_le(le_u32(x)) == x,
{
    let b0 = (x & 0xff) as u8;
    let b1 = ((x >> 8u32) & 0xff) as u8;
    let b2 = ((x >> 16u32) & 0xff) as u8;
    let b3 = ((x >> 24u32) & 0xff) as u8;
    assert(u32_of_le(b0, b1, b2, b3) == x) by (bit_vector)
        requires
            b0 == (x & 0xff) as u8,
            b1 == ((x >> 8u32) & 0xff) as u8,
            b2 == ((x >> 16u32) & 0xff) as u8,
            b3 == ((x >> 24u32) & 0xff) as u8,
    ;
}

/// Reading back eight little-endian bytes gives the number written.
pub proof fn lemma_le_u64_roundtrip(x: u64)
    ensures
        u64_le(le_u64(x)) == x,
{
    let b0 = (x & 0xff) as u8;
    let b1 = ((x >> 8u64) & 0xff) as u8;
    let b2 = ((x >> 16u64) & 0xff) as u8;
    let b3 = ((x >> 24u64) & 0xff) as u8;
    let b4 = ((x >> 32u64) & 0xff) as u8;
    let b5 = ((x >> 40u64) & 0xff) as u8;
    let b6 = ((x >> 48u64) & 0xff) as u8;
    let b7 = ((x >> 56u64) & 0xff) as u8;
    assert(u64_of_le(b0, b1, b2, b3, b4, b5, b6, b7) == x) by (bit_vector)
        requires
            b0 == (x & 0xff) as u8,
            b1 == ((x >> 8u64) & 0xff) as u8,
            b2 == ((x >> 16u64) & 0xff) as u8,
            b3 == ((x >> 24u64) & 0xff) as u8,
            b4 == ((x >> 32u64) & 0xff) as u8,
            b5 == ((x >> 40u64) & 0xff) as u8,
            b6 == ((x >> 48u64) & 0xff) as u8,
            b7 == ((x >> 56u64) & 0xff) as u8,
    ;
}

/// An `i32` survives the round trip through its two's-complement `u32` form.
pub proof fn lemma_i32_u32_roundtrip(v: i32)
    ensures
        (v as u32) as i32 == v,
{
    assert((v as u32) as i32 == v) by (bit_vector);
}


// ----- text <-> bytes -----

/// `String::from_utf8`: the text the bytes encode, when they are valid UTF-8.
#[verifier::external_body]
fn utf8_text(bytes: &[u8]) -> (r: Option<String>)
    ensures
        match r {
            Some(t) => valid_utf8(bytes@) && t@ == decode_utf8(bytes@),
            None => !valid_utf8(bytes@),
        },
{
    String::from_utf8(bytes.to_vec()).ok()
}

/// `s` spells `true` in any ASCII case.
pub open spec fn is_true_word(s: Seq<char>) -> bool {
    s.len() == 4 && tag_nc_at(s, 0, kw(Keyword::True))
}

/// `s` spells `false` in any ASCII case.
pub open spec fn is_false_word(s: Seq<char>) -> bool {
    s.len() == 5 && tag_nc_at(s, 0, kw(Keyword::False))
}

/// The bytes that encode `value` as type `dt`; `None` where it does not read as that type.
/// `float_bits` is the bit pattern of `value` read as an `f64`, if it reads as one.
pub open spec fn encoded(value: Seq<char>, dt: DataType, float_bits: Option<u64>) -> Option<Seq<u8>> {
    match dt {
        DataType::Integer => match parse_i32_spec(value) {
            Some(v) => Some(le_u32(v as u32)),
            None => None,
        },
        DataType::Float => match float_bits {
            Some(b) => Some(le_u64(b)),
            None => None,
        },
        DataType::Boolean => Some(
            seq![
                if is_true_word(value) || value == seq!['1'] {
                    1u8
                } else {
                    0u8
                },
            ],
        ),
        _ => Some(encode_utf8(value)),
    }
}

impl SingleValue {
    pub fn new(raw: Vec<u8>, data_type: DataType) -> (r: Self)
        ensures
            r@ == (SpecValue { raw: raw@, data_type }),
    {
        Self { raw, data_type }
    }

    /// The number of bytes.
    pub fn len(&self) -> (r: usize)
        ensures
            r == self@.raw.len(),
    {
        self.raw.len()
    }

    /// The bytes.
    pub fn as_ref(&self) -> (r: &[u8])
        ensures
            r@ == self@.raw,
    {
        self.raw.as_slice()
    }

    /// The data type.
    pub fn data_type(&self) -> (r: DataType)
        ensures
            r == self@.data_type,
    {
        self.data_type
    }

    /// The null value: no bytes, type `Null`.
    pub fn null() -> (r: Self)
        ensures
            r@ == (SpecValue { raw: Seq::empty(), data_type: DataType::Null }),
    {
        Self { raw: Vec::new(), data_type: DataType::Null }
    }

    /// Whether the two values have the same type and the same bytes.
    pub fn same_as(&self, other: &SingleValue) -> (b: bool)
        ensures
            b == (self@ == other@),
    {
        if self.data_type != other.data_type || self.raw.len() != other.raw.len() {
            return false;
        }
        let mut i: usize = 0;
        while i < self.raw.len()
            invariant
                i <= self.raw.len() == other.raw.len(),
                forall|k: int| 0 <= k < i ==> self.raw@[k] == other.raw@[k],
            decreases self.raw.len() - i,
        {
            if self.raw[i] != other.raw[i] {
                return false;
            }
            i = i + 1;
        }
        proof {
            assert(self.raw@ =~= other.raw@);
        }
        true
    }

    /// A copy of this value.
    pub fn duplicate(&self) -> (r: Self)
        ensures
            r@ == self@,
    {
        let mut raw: Vec<u8> = Vec::new();
        let mut i: usize = 0;
        while i < self.raw.len()
            invariant
                i <= self.raw.len(),
                raw@ == self.raw@.take(i as int),
            decreases self.raw.len() - i,
        {
            raw.push(self.raw[i]);
            proof {
                assert(raw@ =~= self.raw@.take(i + 1));
            }
            i = i + 1;
        }
        proof {
            assert(raw@ =~= self.raw@);
        }
        Self { raw, data_type: self.data_type }
    }

    /// Encodes `value` as a value of type `data_type`.
    ///
    /// `float_bits` is what the caller read `value` as when taken as an `f64`
    /// (`value.parse::<f64>().ok().map(f64::to_bits)`); it is used only for `Float`.
    pub fn encode_value(value: &str, data_type: &DataType, float_bits: Option<u64>) -> (r: Result<
        Self,
        ValueError,
    >)
        ensures
            match encoded(value@, *data_type, float_bits) {
                Some(raw) => r matches Ok(v) && v@ == (SpecValue { raw, data_type: *data_type }),
                None => r matches Err(ValueError::ParseError(m)) && (if *data_type
                    == DataType::Integer {
                    m@ == "Failed to parse integer value"@
                } else {
                    m@ == "Failed to parse float value"@
                }),
            },
    {
        match data_type {
            DataType::Integer => {
                let src = Src::new(value);
                match parse_i32(&src.chars) {
                    Some(v) => Ok(Self { raw: u32_to_le(v as u32), data_type: *data_type }),
                    None => Err(ValueError::ParseError("Failed to parse integer value".to_owned())),
                }
            },
            DataType::Float => match float_bits {
                Some(b) => Ok(Self { raw: u64_to_le(b), data_type: *data_type }),
                None => Err(ValueError::ParseError("Failed to parse float value".to_owned())),
            },
            DataType::Boolean => {
                let src = Src::new(value);
                let t = src.chars.len() == 4 && match_tag_nc(&src.chars, 0, &kw_chars(Keyword::True));
                let one = src.chars.len() == 1 && src.chars[0] == '1';
                proof {
                    if one {
                        assert(value@ =~= seq!['1']);
                    }
                }
                let b: u8 = if t || one {
                    1
                } else {
                    0
                };
                let raw = vec![b];
                proof {
                    assert(raw@ =~= seq![b]);
                }
                Ok(Self { raw, data_type: *data_type })
            },
            _ => Ok(Self { raw: value.as_bytes_vec(), data_type: *data_type }),
        }
    }
}


/// The text form of a value. `float_text` stands for the text of the number a
/// `Float` value of 4 or 8 bytes holds (as `f32` or `f64`).
pub open spec fn value_text(v: SpecValue, float_text: Seq<char>) -> Seq<char> {
    let raw = v.raw;
    if raw.len() == 0 {
        seq!['N', 'U', 'L', 'L']
    } else {
        match v.data_type {
            DataType::Integer => if raw.len() == 4 {
                int_text((u32_le(raw) as i32) as int)
            } else if raw.len() == 8 {
                int_text((u64_le(raw) as i64) as int)
            } else {
                bytes_debug(raw)
            },
            DataType::Float => if raw.len() == 4 || raw.len() == 8 {
                float_text
            } else {
                bytes_debug(raw)
            },
            DataType::Text | DataType::String | DataType::Varchar(_) => if valid_utf8(raw) {
                decode_utf8(raw)
            } else {
                bytes_debug(raw)
            },
            DataType::Boolean => if raw[0] != 0 {
                seq!['t', 'r', 'u', 'e']
            } else {
                seq!['f', 'a', 'l', 's', 'e']
            },
            DataType::Blob => if raw.len() <= 10 {
                bytes_debug(raw)
            } else {
                bytes_debug(raw.take(10)) + seq!['.', '.', '.']
            },
            DataType::DateTime => if raw.len() == 8 {
                int_text((u64_le(raw) as i64) as int)
            } else {
                bytes_debug(raw)
            },
            DataType::Null => bytes_debug(raw),
        }
    }
}

/// `s` with its leading and trailing Unicode white space removed (`str::trim`).
pub open spec fn trimmed(s: Seq<char>) -> Seq<char> {
    let lo = trim_lo(s, 0, s.len() as int);
    s.subrange(lo, trim_hi(s, lo, s.len() as int))
}

/// The text that `from_str` encodes, and the type it encodes it as.
pub open spec fn from_str_reading(input: Seq<char>, float_bits: Option<u64>) -> (Seq<char>, DataType) {
    let t = trimmed(input);
    if t.len() >= 2 && t[0] == '\'' && t[t.len() - 1] == '\'' {
        (t.subrange(1, t.len() - 1), DataType::String)
    } else if is_true_word(t) || is_false_word(t) {
        (t, DataType::Boolean)
    } else if t.contains('.') && float_bits is Some {
        (t, DataType::Float)
    } else if parse_i32_spec(t) is Some {
        (t, DataType::Integer)
    } else {
        (t, DataType::String)
    }
}

impl SingleValue {
    /// The text form of the value.
    ///
    /// `float_text` is what the caller wrote for the number a `Float` value of
    /// 4 or 8 bytes holds (`f32`/`f64` from its little-endian bytes, then
    /// `to_string`); other values do not use it.
    pub fn to_string(&self, float_text: &str) -> (r: String)
        ensures
            r@ == value_text(self@, float_text@),
    {
        let raw = &self.raw;
        let n = raw.len();
        let mut s = String::new();
        if n == 0 {
            s.append("NULL");
            proof {
                reveal_strlit("NULL");
                assert(s@ =~= value_text(self@, float_text@));
            }
            return s;
        }
        proof {
            assert(raw@.subrange(0, n as int) =~= raw@);
            assert(raw@.take(n as int) =~= raw@);
        }
        match self.data_type {
            DataType::Integer => {
                if n == 4 {
                    let x = u32_from_le(raw.as_slice(), 0) as i32;
                    append_int(&mut s, x as i64);
                } else if n == 8 {
                    let x = u64_from_le(raw.as_slice(), 0) as i64;
                    append_int(&mut s, x);
                } else {
                    append_bytes_debug(&mut s, raw.as_slice(), n);
                }
            },
            DataType::Float => {
                if n == 4 || n == 8 {
                    s.append(float_text);
                } else {
                    append_bytes_debug(&mut s, raw.as_slice(), n);
                }
            },
            DataType::Text | DataType::String | DataType::Varchar(_) => {
                match utf8_text(raw.as_slice()) {
                    Some(t) => {
                        s.append(t.as_str());
                    },
                    None => {
                        append_bytes_debug(&mut s, raw.as_slice(), n);
                    },
                }
            },
            DataType::Boolean => {
                if raw[0] != 0 {
                    s.append("true");
                } else {
                    s.append("false");
                }
                proof {
                    reveal_strlit("true");
                    reveal_strlit("false");
                }
            },
            DataType::Blob => {
                if n <= 10 {
                    append_bytes_debug(&mut s, raw.as_slice(), n);
                } else {
                    append_bytes_debug(&mut s, raw.as_slice(), 10);
                    s.append("...");
                    proof {
                        reveal_strlit("...");
                    }
                }
            },
            DataType::DateTime => {
                if n == 8 {
                    let x = u64_from_le(raw.as_slice(), 0) as i64;
                    append_int(&mut s, x);
                } else {
                    append_bytes_debug(&mut s, raw.as_slice(), n);
                }
            },
            DataType::Null => {
                append_bytes_debug(&mut s, raw.as_slice(), n);
            },
        }
        proof {
            assert(s@ =~= value_text(self@, float_text@));
        }
        s
    }

    /// Reads a value from text, guessing its type: a quoted string, a boolean,
    /// a float (text with a `.` that reads as one), an integer, else a string.
    ///
    /// `float_bits` is what the caller read the trimmed input as when taken as
    /// an `f64` (`input.trim().parse::<f64>().ok().map(f64::to_bits)`).
    pub fn from_str(input: &str, float_bits: Option<u64>) -> (r: Result<Self, ValueError>)
        ensures
            r matches Ok(v) && v@ == (SpecValue {
                raw: encoded(
                    from_str_reading(input@, float_bits).0,
                    from_str_reading(input@, float_bits).1,
                    float_bits,
                )->Some_0,
                data_type: from_str_reading(input@, float_bits).1,
            }),
            encoded(
                from_str_reading(input@, float_bits).0,
                from_str_reading(input@, float_bits).1,
                float_bits,
            ) is Some,
    {
        let src = Src::new(input);
        let n = src.chars.len();
        let lo = p_trim_lo(&src, 0, n);
        let hi = p_trim_hi(&src, lo, n);
        let t = Src::new(src.slice(lo, hi));
        let m = t.chars.len();
        if m >= 2 && t.chars[0] == '\'' && t.chars[m - 1] == '\'' {
            return Self::encode_value(t.slice(1, m - 1), &DataType::String, float_bits);
        }
        if (m == 4 && match_tag_nc(&t.chars, 0, &kw_chars(Keyword::True))) || (m == 5
            && match_tag_nc(&t.chars, 0, &kw_chars(Keyword::False))) {
            return Self::encode_value(t.text, &DataType::Boolean, float_bits);
        }
        let mut has_dot = false;
        let mut k: usize = 0;
        while k < m
            invariant
                k <= m == t.chars.len(),
                has_dot == t.s().take(k as int).contains('.'),
            decreases m - k,
        {
            proof {
                let a = t.s().take(k as int);
                let b = t.s().take(k + 1);
                assert(b =~= a.push(t.s()[k as int]));
                if b.contains('.') && !a.contains('.') {
                    let w = choose|w: int| 0 <= w < b.len() && b[w] == '.';
                    if w < k {
                        assert(a[w] == '.');
                    }
                }
                if a.contains('.') {
                    let w = choose|w: int| 0 <= w < a.len() && a[w] == '.';
                    assert(b[w] == '.');
                }
                if t.s()[k as int] == '.' {
                    assert(b[k as int] == '.');
                }
            }
            if t.chars[k] == '.' {
                has_dot = true;
            }
            k = k + 1;
        }
        proof {
            assert(t.s().take(m as int) =~= t.s());
        }
        if has_dot && float_bits.is_some() {
            return Self::encode_value(t.text, &DataType::Float, float_bits);
        }
        if parse_i32(&t.chars).is_some() {
            return Self::encode_value(t.text, &DataType::Integer, float_bits);
        }
        Self::encode_value(t.text, &DataType::String, float_bits)
    }
}


/// Basic facts of a column.
#[derive(Debug, Clone, PartialEq)]
pub struct Column {
    pub id: u64,
    pub name: String,
    pub table_name: String,
    pub data_type: DataType,
}

impl Column {
    /// Same name and same data type.
    pub fn same_with(&self, other: &Column) -> (r: bool)
        ensures
            r == (self.name@ == other.name@ && self.data_type == other.data_type),
    {
        (self.name == other.name) && (self.data_type == other.data_type)
    }
}

/// Handle of a row.
#[derive(Debug, Clone, Copy, PartialEq, Eq, Hash, Structural)]
pub struct RowId {
    pub table_id: u64,
    pub row_id: u64,
}

impl RowId {
    pub fn new(table_id: u64, row_id: u64) -> (r: Self)
        ensures
            r == (RowId { table_id, row_id }),
    {
        Self { table_id, row_id }
    }

    /// The handles of rows `0 .. row_count` of a table.
    pub fn get_vec(table_id: u64, row_count: u64) -> (r: Vec<Self>)
        requires
            row_count <= usize::MAX,
        ensures
            r@.len() == row_count,
            forall|i: int| 0 <= i < row_count ==> #[trigger] r@[i] == (RowId { table_id, row_id: i as u64 }),
    {
        let mut v: Vec<Self> = Vec::new();
        let mut i: u64 = 0;
        while i < row_count
            invariant
                i <= row_count <= usize::MAX,
                v@.len() == i,
                forall|k: int| 0 <= k < i ==> #[trigger] v@[k] == (RowId { table_id, row_id: k as u64 }),
            decreases row_count - i,
        {
            v.push(Self::new(table_id, i));
            i = i + 1;
        }
        v
    }
}

/// Handle of a column.
#[derive(Debug, Clone, Copy, PartialEq, Eq, Hash, Structural)]
pub struct ColumnId {
    pub table_id: u64,
    pub column_id: u64,
}

impl ColumnId {
    pub fn new(table_id: u64, column_id: u64) -> (r: Self)
        ensures
            r == (ColumnId { table_id, column_id }),
    {
        Self { table_id, column_id }
    }
}

/// Handle of one value: table, row and column.
#[derive(Debug, Clone, Copy, PartialEq, Eq, Hash, Structural)]
pub struct ValueId {
    pub table_id: u64,
    pub row_id: u64,
    pub column_id: u64,
}

impl ValueId {
    pub fn new(table_id: u64, row_id: u64, column_id: u64) -> (r: Self)
        ensures
            r == (ValueId { table_id, row_id, column_id }),
    {
        Self { table_id, row_id, column_id }
    }
}

/// An integer written in decimal is stored as the number it writes, and the
/// stored value's text is that decimal text again.
pub proof fn law_integer_text_round_trip(v: i32, float_bits: Option<u64>, float_text: Seq<char>)
    ensures
        encoded(int_text(v as int), DataType::Integer, float_bits) == Some(le_u32(v as u32)),
        value_text(SpecValue { raw: le_u32(v as u32), data_type: DataType::Integer }, float_text)
            == int_text(v as int),
{
    lemma_int_text_reads_back(v as int);
    lemma_le_u32_roundtrip(v as u32);
    lemma_i32_u32_roundtrip(v);
}

/// The short text of a handle: the last three decimal digits of each part,
/// joined with `:`.
pub open spec fn handle_text(parts: Seq<u64>) -> Seq<char>
    decreases parts.len(),
{
    if parts.len() == 0 {
        Seq::empty()
    } else if parts.len() == 1 {
        nat_text((parts[0] % 1000) as nat)
    } else {
        handle_text(parts.drop_last()) + seq![':'] + nat_text((parts.last() % 1000) as nat)
    }
}

fn short_handle(a: u64, b: u64) -> (r: String)
    ensures
        r@ == handle_text(seq![a, b]),
{
    let mut s = String::new();
    append_nat(&mut s, a % 1000);
    s.append(":");
    append_nat(&mut s, b % 1000);
    proof {
        reveal_strlit(":");
        assert(seq![a, b].drop_last() =~= seq![a]);
        assert(handle_text(seq![a]) == nat_text((a % 1000) as nat));
        assert(seq![a, b].last() == b);
        assert(s@ =~= handle_text(seq![a, b]));
    }
    s
}

impl RowId {
    /// The short text of the handle (`table:row`, last three digits each).
    pub fn short_text(&self) -> (r: String)
        ensures
            r@ == handle_text(seq![self.table_id, self.row_id]),
    {
        short_handle(self.table_id, self.row_id)
    }
}

impl ColumnId {
    /// The short text of the handle (`table:column`, last three digits each).
    pub fn short_text(&self) -> (r: String)
        ensures
            r@ == handle_text(seq![self.table_id, self.column_id]),
    {
        short_handle(self.table_id, self.column_id)
    }
}

impl ValueId {
    /// The short text of the handle (`table:row:column`, last three digits each).
    pub fn short_text(&self) -> (r: String)
        ensures
            r@ == handle_text(seq![self.table_id, self.row_id, self.column_id]),
    {
        let mut s = short_handle(self.table_id, self.row_id);
        s.append(":");
        append_nat(&mut s, self.column_id % 1000);
        proof {
            reveal_strlit(":");
            assert(seq![self.table_id, self.row_id, self.column_id].drop_last() =~= seq![self.table_id, self.row_id]);
            assert(s@ =~= handle_text(seq![self.table_id, self.row_id, self.column_id]));
        }
        s
    }
}

/// Text that, once trimmed, spells `true` or `false` in any ASCII case
/// reads as a Boolean: one byte, `1` for true and `0` for false.
pub proof fn law_from_str_reads_boolean_words(input: Seq<char>, float_bits: Option<u64>)
    requires
        is_true_word(trimmed(input)) || is_false_word(trimmed(input)),
    ensures
        from_str_reading(input, float_bits).1 == DataType::Boolean,
        encoded(from_str_reading(input, float_bits).0, from_str_reading(input, float_bits).1, float_bits)
            == Some(seq![if is_true_word(trimmed(input)) { 1u8 } else { 0u8 }]),
{
    let t = trimmed(input);
    let k: int = 0;
    if is_true_word(t) {
        assert(crate::text::fold_case(t[0 + k]) == crate::text::fold_case(kw(Keyword::True)[k]));
    } else {
        assert(crate::text::fold_case(t[0 + k]) == crate::text::fold_case(kw(Keyword::False)[k]));
    }
    assert(t[0] != '\'');
    assert(t != seq!['1']);
}

} // verus!
