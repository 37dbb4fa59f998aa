//! Decimal text of integers: writing it and reading it.

use vstd::prelude::*;
use vstd::string::StringExecFns;
use crate::text::is_ascii_digit;

verus! {

broadcast use vstd::string::group_string_axioms;

pub open spec fn digit_chars() -> Seq<char> {
    seq!['0', '1', '2', '3', '4', '5', '6', '7', '8', '9']
}

/// Decimal digits of a natural number, without leading zeros.
pub open spec fn nat_text(n: nat) -> Seq<char>
    decreases n,
{
    if n < 10 {
        seq![digit_chars()[n as int]]
    } else {
        nat_text(n / 10).push(digit_chars()[(n % 10) as int])
    }
}

/// Decimal text of an integer, as `Display` writes it.
pub open spec fn int_text(v: int) -> Seq<char> {
    if v < 0 {
        seq!['-'] + nat_text((-v) as nat)
    } else {
        nat_text(v as nat)
    }
}

/// Appends one decimal digit.
fn push_digit(s: &mut String, d: u64)
    requires
        d < 10,
    ensures
        final(s)@ == old(s)@.push(digit_chars()[d as int]),
{
    let t = match d {
        0 => "0",
        1 => "1",
        2 => "2",
        3 => "3",
        4 => "4",
        5 => "5",
        6 => "6",
        7 => "7",
        8 => "8",
        _ => "9",
    };
    proof {
        reveal_strlit("0");
        reveal_strlit("1");
        reveal_strlit("2");
        reveal_strlit("3");
        reveal_strlit("4");
        reveal_strlit("5");
        reveal_strlit("6");
        reveal_strlit("7");
        reveal_strlit("8");
        reveal_strlit("9");
        assert(t@ =~= seq![digit_chars()[d as int]]);
    }
    s.append(t);
    proof {
        assert(s@ =~= old(s)@.push(digit_chars()[d as int]));
    }
}

/// Appends the decimal digits of `n`.
pub fn append_nat(s: &mut String, n: u64)
    ensures
        final(s)@ == old(s)@ + nat_text(n as nat),
    decreases n,
{
    if n >= 10 {
        append_nat(s, n / 10);
        push_digit(s, n % 10);
        proof {
            assert(s@ =~= old(s)@ + nat_text(n as nat));
        }
    } else {
        push_digit(s, n);
        proof {
            assert(s@ =~= old(s)@ + nat_text(n as nat));
        }
    }
}

/// Appends the decimal text of `v`.
pub fn append_int(s: &mut String, v: i64)
    ensures
        final(s)@ == old(s)@ + int_text(v as int),
{
    if v < 0 {
        s.append("-");
        proof {
            reveal_strlit("-");
        }
        let m: u64 = if v == i64::MIN {
            9223372036854775808u64
        } else {
            (-v) as u64
        };
        append_nat(s, m);
        proof {
            assert(s@ =~= old(s)@ + int_text(v as int));
        }
    } else {
        append_nat(s, v as u64);
    }
}

/// The decimal text of `v`.
pub fn int_to_text(v: i64) -> (r: String)
    ensures
        r@ == int_text(v as int),
{
    let mut s = String::new();
    append_int(&mut s, v);
    proof {
        assert(s@ =~= int_text(v as int));
    }
    s
}

/// `Debug` text of a byte list: `[1, 2, 3]`.
pub open spec fn bytes_items(b: Seq<u8>) -> Seq<char>
    decreases b.len(),
{
    if b.len() == 0 {
        Seq::empty()
    } else if b.len() == 1 {
        nat_text(b[0] as nat)
    } else {
        bytes_items(b.drop_last()) + seq![',', ' '] + nat_text(b.last() as nat)
    }
}

pub open spec fn bytes_debug(b: Seq<u8>) -> Seq<char> {
    seq!['['] + bytes_items(b) + seq![']']
}

/// Appends the `Debug` text of `b[..n]`.
pub fn append_bytes_debug(s: &mut String, b: &[u8], n: usize)
    requires
        n <= b@.len(),
    ensures
        final(s)@ == old(s)@ + bytes_debug(b@.take(n as int)),
{
    s.append("[");
    let mut i: usize = 0;
    proof {
        reveal_strlit("[");
        reveal_strlit(", ");
        reveal_strlit("]");
        assert(b@.take(0) =~= Seq::<u8>::empty());
    }
    while i < n
        invariant
            i <= n <= b@.len(),
            s@ == old(s)@ + seq!['['] + bytes_items(b@.take(i as int)),
        decreases n - i,
    {
        if i > 0 {
            s.append(", ");
        }
        append_nat(s, b[i] as u64);
        proof {
            reveal_strlit(", ");
            let t = b@.take(i + 1);
            assert(t.drop_last() =~= b@.take(i as int));
            assert(t.last() == b@[i as int]);
            if i == 0 {
                assert(s@ =~= old(s)@ + seq!['['] + bytes_items(t));
            } else {
                assert(s@ =~= old(s)@ + seq!['['] + bytes_items(t));
            }
        }
        i = i + 1;
    }
    s.append("]");
    proof {
        reveal_strlit("]");
        assert(s@ =~= old(s)@ + bytes_debug(b@.take(n as int)));
    }
}

// ----- reading integers -----

/// Value of a run of decimal digits.
pub open spec fn digits_value(s: Seq<char>) -> int
    decreases s.len(),
{
    if s.len() == 0 {
        0
    } else {
        digits_value(s.drop_last()) * 10 + (s.last() as int - '0' as int)
    }
}

pub open spec fn all_digits(s: Seq<char>) -> bool {
    s.len() > 0 && forall|k: int| 0 <= k < s.len() ==> is_ascii_digit(#[trigger] s[k])
}

/// The integer that `s` writes: an optional `+` or `-`, then one or more digits.
pub open spec fn int_text_value(s: Seq<char>) -> Option<int> {
    if s.len() > 0 && (s[0] == '+' || s[0] == '-') {
        let d = s.drop_first();
        if all_digits(d) {
            Some(
                if s[0] == '-' {
                    -digits_value(d)
                } else {
                    digits_value(d)
                },
            )
        } else {
            None
        }
    } else if all_digits(s) {
        Some(digits_value(s))
    } else {
        None
    }
}

/// What `str::parse::<i32>` gives: the value written, when it fits in an `i32`.
pub open spec fn parse_i32_spec(s: Seq<char>) -> Option<i32> {
    match int_text_value(s) {
        Some(v) => if i32::MIN <= v <= i32::MAX {
            Some(v as i32)
        } else {
            None
        },
        None => None,
    }
}

/// What `str::parse::<i64>` gives.
pub open spec fn parse_i64_spec(s: Seq<char>) -> Option<i64> {
    match int_text_value(s) {
        Some(v) => if i64::MIN <= v <= i64::MAX {
            Some(v as i64)
        } else {
            None
        },
        None => None,
    }
}

proof fn lemma_digits_value_nonneg(s: Seq<char>)
    requires
        forall|k: int| 0 <= k < s.len() ==> is_ascii_digit(#[trigger] s[k]),
    ensures
        digits_value(s) >= 0,
    decreases s.len(),
{
    if s.len() > 0 {
        assert forall|k: int| 0 <= k < s.drop_last().len() implies is_ascii_digit(
            #[trigger] s.drop_last()[k],
        ) by {
            assert(s.drop_last()[k] == s[k]);
        }
        lemma_digits_value_nonneg(s.drop_last());
    }
}

/// Reads an integer written in decimal; `None` when it is not one or does not fit in an `i64`.
pub fn parse_int(s: &Vec<char>) -> (r: Option<i64>)
    ensures
        r == parse_i64_spec(s@),
{
    let n = s.len();
    let mut start: usize = 0;
    let mut neg = false;
    if n > 0 && (s[0] == '+' || s[0] == '-') {
        start = 1;
        neg = s[0] == '-';
    }
    if start >= n {
        proof {
            if n > 0 {
                assert(s@.drop_first().len() == 0);
            }
        }
        return None;
    }
    let ghost d = s@.subrange(start as int, n as int);
    proof {
        if start == 1 {
            assert(d =~= s@.drop_first());
        } else {
            assert(d =~= s@);
        }
    }
    // saturated at BIG = 2^64 so that no step overflows
    let big: u128 = 18446744073709551616u128;
    let mut acc: u128 = 0;
    let mut i = start;
    while i < n
        invariant
            start <= i <= n == s.len(),
            d == s@.subrange(start as int, n as int),
            start == 1 ==> d == s@.drop_first(),
            start == 0 ==> d == s@,
            start == 1 <==> (s@.len() > 0 && (s@[0] == '+' || s@[0] == '-')),
            start <= 1,
            neg == (start == 1 && s@[0] == '-'),
            forall|k: int| start <= k < i ==> is_ascii_digit(#[trigger] s@[k]),
            big == 18446744073709551616u128,
            acc == (if digits_value(s@.subrange(start as int, i as int)) < big {
                digits_value(s@.subrange(start as int, i as int))
            } else {
                big as int
            }),
        decreases n - i,
    {
        let c = s[i];
        if !('0' <= c && c <= '9') {
            proof {
                assert(d[i - start] == c);
                assert(!all_digits(d));
            }
            return None;
        }
        proof {
            let p = s@.subrange(start as int, i as int);
            let q = s@.subrange(start as int, i + 1);
            assert(q.drop_last() =~= p);
            assert forall|k: int| 0 <= k < p.len() implies is_ascii_digit(#[trigger] p[k]) by {
                assert(p[k] == s@[start + k]);
            }
            lemma_digits_value_nonneg(p);
        }
        let dv = (c as u32 - '0' as u32) as u128;
        if acc < big {
            let next = acc * 10 + dv;
            acc = if next < big {
                next
            } else {
                big
            };
        }
        i = i + 1;
    }
    proof {
        assert(s@.subrange(start as int, n as int) == d);
        assert(all_digits(d)) by {
            assert forall|k: int| 0 <= k < d.len() implies is_ascii_digit(#[trigger] d[k]) by {
                assert(d[k] == s@[start + k]);
            }
        }
    }
    if neg {
        if acc <= 9223372036854775808u128 {
            let m = acc as i128;
            Some((-m) as i64)
        } else {
            None
        }
    } else {
        if acc <= 9223372036854775807u128 {
            Some(acc as i64)
        } else {
            None
        }
    }
}

/// Reads an `i32` written in decimal (`str::parse::<i32>`).
pub fn parse_i32(s: &Vec<char>) -> (r: Option<i32>)
    ensures
        r == parse_i32_spec(s@),
{
    match parse_int(s) {
        Some(v) => if -2147483648 <= v && v <= 2147483647 {
            Some(v as i32)
        } else {
            None
        },
        None => None,
    }
}

/// The decimal digits of `n` are digits, and read back as `n`.
pub proof fn lemma_nat_text_reads_back(n: nat)
    ensures
        all_digits(nat_text(n)),
        digits_value(nat_text(n)) == n,
    decreases n,
{
    let d = (n % 10) as int;
    assert(0 <= d < 10);
    let c = digit_chars()[d];
    assert(is_ascii_digit(c) && c as int - '0' as int == d) by {
        assert(digit_chars()[0] == '0' && digit_chars()[1] == '1' && digit_chars()[2] == '2'
            && digit_chars()[3] == '3' && digit_chars()[4] == '4' && digit_chars()[5] == '5'
            && digit_chars()[6] == '6' && digit_chars()[7] == '7' && digit_chars()[8] == '8'
            && digit_chars()[9] == '9');
    }
    if n >= 10 {
        lemma_nat_text_reads_back(n / 10);
        let t = nat_text(n / 10);
        let u = nat_text(n);
        assert(u == t.push(c));
        assert(u.drop_last() =~= t);
        assert(u.last() == c);
        assert(digits_value(u) == digits_value(t) * 10 + (c as int - '0' as int));
        assert((n / 10) * 10 + n % 10 == n);
        assert forall|k: int| 0 <= k < u.len() implies is_ascii_digit(#[trigger] u[k]) by {
            if k < t.len() {
                assert(u[k] == t[k]);
            }
        }
    } else {
        let u = nat_text(n);
        assert(u == seq![c]);
        assert(u.drop_last() =~= Seq::<char>::empty());
        assert(u.last() == c);
        assert(digits_value(u) == digits_value(u.drop_last()) * 10 + (c as int - '0' as int));
    }
}

/// The decimal text of an integer reads back as that integer.
pub proof fn lemma_int_text_reads_back(v: int)
    ensures
        int_text_value(int_text(v)) == Some(v),
{
    if v < 0 {
        let d = nat_text((-v) as nat);
        lemma_nat_text_reads_back((-v) as nat);
        let s = int_text(v);
        assert(s.drop_first() =~= d);
        assert(s[0] == '-');
    } else {
        let d = nat_text(v as nat);
        lemma_nat_text_reads_back(v as nat);
        assert(is_ascii_digit(d[0]));
    }
}

} // verus!
