//! Decimal literals of the wire protocol: a signed 64-bit integer and a
//! floating-point value, both in the textual forms that Rust's `FromStr`
//! accepts for `i64` and `f64`.
use vstd::prelude::*;

verus! {

pub const DIGIT_ZERO: u8 = 48;
pub const DIGIT_NINE: u8 = 57;
pub const PLUS: u8 = 43;
pub const MINUS: u8 = 45;
pub const DOT: u8 = 46;
pub const LOWER_E: u8 = 101;

pub open spec fn is_digit(b: u8) -> bool {
    DIGIT_ZERO <= b <= DIGIT_NINE
}

pub open spec fn is_sign(b: u8) -> bool {
    b == PLUS || b == MINUS
}

pub open spec fn all_digits(s: Seq<u8>) -> bool {
    forall|i: int| 0 <= i < s.len() ==> is_digit(#[trigger] s[i])
}

/// The number written by a run of decimal digits.
pub open spec fn digits_value(s: Seq<u8>) -> nat
    decreases s.len(),
{
    if s.len() == 0 {
        0
    } else {
        digits_value(s.drop_last()) * 10 + (s.last() - DIGIT_ZERO) as nat
    }
}

/// `s` without its leading sign, if it has one.
pub open spec fn unsigned_part(s: Seq<u8>) -> Seq<u8> {
    if s.len() > 0 && is_sign(s[0]) {
        s.drop_first()
    } else {
        s
    }
}

/// The value of an optionally signed run of one or more digits.
pub open spec fn integer_text_value(s: Seq<u8>) -> Option<int> {
    let digits = unsigned_part(s);
    if digits.len() > 0 && all_digits(digits) {
        if s[0] == MINUS {
            Some(-digits_value(digits))
        } else {
            Some(digits_value(digits) as int)
        }
    } else {
        None
    }
}

pub open spec fn fits_i64(v: int) -> bool {
    i64::MIN <= v <= i64::MAX
}

/// The `i64` that `s` denotes, if it is an integer literal in range.
pub open spec fn i64_text_value(s: Seq<u8>) -> Option<int> {
    let v = integer_text_value(s);
    if v is Some && fits_i64(v->0) {
        v
    } else {
        None
    }
}

proof fn lemma_digits_value_monotone(t: Seq<u8>, k: int)
    requires
        0 <= k <= t.len(),
        all_digits(t),
    ensures
        digits_value(t.take(k)) <= digits_value(t),
    decreases t.len(),
{
    if k < t.len() {
        let u = t.drop_last();
        assert(u.take(k) =~= t.take(k));
        assert(all_digits(u)) by {
            assert forall|i: int| 0 <= i < u.len() implies is_digit(#[trigger] u[i]) by {
                assert(u[i] == t[i]);
            }
        }
        lemma_digits_value_monotone(u, k);
    } else {
        assert(t.take(k) =~= t);
    }
}

/// Parses an `i64` literal: an optional `+` or `-` followed by one or more
/// decimal digits whose value lies in range.
pub fn parse_i64(s: &[u8]) -> (r: Option<i64>)
    ensures
        match r {
            Some(v) => i64_text_value(s@) == Some(v as int),
            None => i64_text_value(s@) is None,
        },
{
    let n = s.len();
    if n == 0 {
        return None;
    }
    let negative = s[0] == MINUS;
    let start: usize = if s[0] == PLUS || s[0] == MINUS { 1 } else { 0 };
    let ghost digits = unsigned_part(s@);
    assert(digits =~= s@.subrange(start as int, n as int));
    if start == n {
        return None;
    }
    let mut acc: u64 = 0;
    let mut i: usize = start;
    while i < n
        invariant
            start <= i <= n,
            n == s@.len(),
            digits == unsigned_part(s@),
            digits =~= s@.subrange(start as int, n as int),
            all_digits(s@.subrange(start as int, i as int)),
            acc as nat == digits_value(s@.subrange(start as int, i as int)),
            acc <= 9223372036854775808u64,
        decreases n - i,
    {
        let b = s[i];
        if b < DIGIT_ZERO || b > DIGIT_NINE {
            assert(digits[i - start] == b);
            return None;
        }
        let d: u64 = (b - DIGIT_ZERO) as u64;
        let ghost next = s@.subrange(start as int, i + 1);
        assert(next.drop_last() =~= s@.subrange(start as int, i as int));
        assert(all_digits(next));
        if acc > 922337203685477580u64 || (acc == 922337203685477580u64 && d > 8) {
            proof {
                if all_digits(digits) {
                    assert(digits.take(i + 1 - start) =~= next);
                    lemma_digits_value_monotone(digits, i + 1 - start);
                }
            }
            return None;
        }
        acc = acc * 10 + d;
        i = i + 1;
    }
    assert(s@.subrange(start as int, n as int) =~= digits);
    if negative {
        if acc == 9223372036854775808u64 {
            Some(i64::MIN)
        } else {
            Some(-(acc as i64))
        }
    } else if acc > 9223372036854775807u64 {
        None
    } else {
        Some(acc as i64)
    }
}

/// ASCII lower case of one byte; other bytes are kept.
pub open spec fn lower(b: u8) -> u8 {
    if 65 <= b <= 90 {
        (b + 32) as u8
    } else {
        b
    }
}

pub open spec fn lower_seq(s: Seq<u8>) -> Seq<u8> {
    s.map_values(|b: u8| lower(b))
}

/// Index of the first `b` in `s`, or `s.len()` where there is none.
pub open spec fn index_of(s: Seq<u8>, b: u8) -> int
    decreases s.len(),
{
    if s.len() == 0 {
        0
    } else if s[0] == b {
        0
    } else {
        1 + index_of(s.drop_first(), b)
    }
}

/// `inf`, `infinity` or `nan`, in any mix of cases.
pub open spec fn is_special_float(u: Seq<u8>) -> bool {
    let l = lower_seq(u);
    l == seq![105u8, 110, 102] || l == seq![105u8, 110, 102, 105, 110, 105, 116, 121] || l == seq![
        110u8,
        97,
        110,
    ]
}

/// Digits with at most one `.`, and at least one digit on either side.
pub open spec fn is_mantissa(m: Seq<u8>) -> bool {
    let d = index_of(m, DOT);
    let whole = m.take(d);
    let fraction = if d < m.len() {
        m.skip(d + 1)
    } else {
        Seq::empty()
    };
    all_digits(whole) && all_digits(fraction) && (whole.len() > 0 || fraction.len() > 0)
}

/// A mantissa, then optionally `e` or `E` and a signed run of digits.
pub open spec fn is_decimal_float(u: Seq<u8>) -> bool {
    let e = index_of(lower_seq(u), LOWER_E);
    is_mantissa(u.take(e)) && (e == u.len() || integer_text_value(u.skip(e + 1)) is Some)
}

/// The literals that Rust's `f64::from_str` accepts: an optional sign, then
/// `inf`, `infinity`, `nan` or a decimal number with an optional exponent.
pub open spec fn float_text(s: Seq<u8>) -> bool {
    let u = unsigned_part(s);
    is_special_float(u) || is_decimal_float(u)
}

pub proof fn lemma_index_of(t: Seq<u8>, b: u8, k: int)
    requires
        0 <= k <= t.len(),
        forall|j: int| 0 <= j < k ==> t[j] != b,
        k < t.len() ==> t[k] == b,
    ensures
        index_of(t, b) == k,
    decreases k,
{
    if k > 0 {
        lemma_index_of(t.drop_first(), b, k - 1);
    }
}

fn lower_byte(b: u8) -> (r: u8)
    ensures
        r == lower(b),
{
    if 65 <= b && b <= 90 {
        b + 32
    } else {
        b
    }
}

/// Position of the first byte of `s[lo..hi]` whose lower case is `b`, or `hi`.
fn find_lower(s: &[u8], lo: usize, hi: usize, b: u8) -> (r: usize)
    requires
        lo <= hi <= s@.len(),
    ensures
        lo <= r <= hi,
        r - lo == index_of(lower_seq(s@.subrange(lo as int, hi as int)), b),
{
    let ghost t = lower_seq(s@.subrange(lo as int, hi as int));
    let mut i = lo;
    while i < hi
        invariant
            lo <= i <= hi <= s@.len(),
            t == lower_seq(s@.subrange(lo as int, hi as int)),
            forall|j: int| 0 <= j < i - lo ==> t[j] != b,
        decreases hi - i,
    {
        if lower_byte(s[i]) == b {
            proof {
                lemma_index_of(t, b, i - lo);
            }
            return i;
        }
        i = i + 1;
    }
    proof {
        lemma_index_of(t, b, i - lo);
    }
    i
}

/// Position of the first `b` in `s[lo..hi]`, or `hi`.
pub(crate) fn find_byte(s: &[u8], lo: usize, hi: usize, b: u8) -> (r: usize)
    requires
        lo <= hi <= s@.len(),
    ensures
        lo <= r <= hi,
        r - lo == index_of(s@.subrange(lo as int, hi as int), b),
{
    let ghost t = s@.subrange(lo as int, hi as int);
    let mut i = lo;
    while i < hi
        invariant
            lo <= i <= hi <= s@.len(),
            t == s@.subrange(lo as int, hi as int),
            forall|j: int| 0 <= j < i - lo ==> t[j] != b,
        decreases hi - i,
    {
        if s[i] == b {
            proof {
                lemma_index_of(t, b, i - lo);
            }
            return i;
        }
        i = i + 1;
    }
    proof {
        lemma_index_of(t, b, i - lo);
    }
    i
}

/// Whether `s[lo..hi]` is all decimal digits.
fn digits_only(s: &[u8], lo: usize, hi: usize) -> (r: bool)
    requires
        lo <= hi <= s@.len(),
    ensures
        r == all_digits(s@.subrange(lo as int, hi as int)),
{
    let ghost t = s@.subrange(lo as int, hi as int);
    let mut i = lo;
    while i < hi
        invariant
            lo <= i <= hi <= s@.len(),
            t == s@.subrange(lo as int, hi as int),
            forall|j: int| 0 <= j < i - lo ==> is_digit(#[trigger] t[j]),
        decreases hi - i,
    {
        if s[i] < DIGIT_ZERO || s[i] > DIGIT_NINE {
            assert(!is_digit(t[i - lo]));
            return false;
        }
        i = i + 1;
    }
    true
}

/// Whether the lower case of `s[lo..hi]` is `word`.
fn equals_lower(s: &[u8], lo: usize, hi: usize, word: &[u8]) -> (r: bool)
    requires
        lo <= hi <= s@.len(),
    ensures
        r == (lower_seq(s@.subrange(lo as int, hi as int)) == word@),
{
    let ghost t = lower_seq(s@.subrange(lo as int, hi as int));
    if hi - lo != word.len() {
        assert(t.len() != word@.len());
        return false;
    }
    let mut i: usize = 0;
    while i < word.len()
        invariant
            lo <= hi <= s@.len(),
            hi - lo == word@.len(),
            t == lower_seq(s@.subrange(lo as int, hi as int)),
            0 <= i <= word@.len(),
            forall|j: int| 0 <= j < i ==> t[j] == word@[j],
        decreases word@.len() - i,
    {
        if lower_byte(s[lo + i]) != word[i] {
            assert(t[i as int] != word@[i as int]);
            return false;
        }
        i = i + 1;
    }
    assert(t =~= word@);
    true
}

/// Whether `s[lo..hi]` is an optionally signed run of one or more digits.
fn is_integer_text(s: &[u8], lo: usize, hi: usize) -> (r: bool)
    requires
        lo <= hi <= s@.len(),
    ensures
        r == (integer_text_value(s@.subrange(lo as int, hi as int)) is Some),
{
    let ghost t = s@.subrange(lo as int, hi as int);
    let start = if lo < hi && (s[lo] == PLUS || s[lo] == MINUS) { lo + 1 } else { lo };
    assert(unsigned_part(t) =~= s@.subrange(start as int, hi as int));
    start < hi && digits_only(s, start, hi)
}

/// Whether `s` is a literal that Rust's `f64::from_str` accepts.
pub fn is_float_text(s: &[u8]) -> (r: bool)
    ensures
        r == float_text(s@),
{
    let n = s.len();
    let lo = if n > 0 && (s[0] == PLUS || s[0] == MINUS) { 1 } else { 0 };
    let ghost u = unsigned_part(s@);
    assert(u =~= s@.subrange(lo as int, n as int));
    if equals_lower(s, lo, n, &[105u8, 110, 102]) || equals_lower(
        s,
        lo,
        n,
        &[105u8, 110, 102, 105, 110, 105, 116, 121],
    ) || equals_lower(s, lo, n, &[110u8, 97, 110]) {
        assert(is_special_float(u));
        return true;
    }
    assert(!is_special_float(u));
    let e = find_lower(s, lo, n, LOWER_E);
    let d = find_byte(s, lo, e, DOT);
    let ghost m = u.take(e - lo);
    assert(m =~= s@.subrange(lo as int, e as int));
    assert(s@.subrange(lo as int, d as int) =~= m.take(d - lo));
    let whole_ok = digits_only(s, lo, d);
    let fraction_ok = if d < e {
        assert(s@.subrange(d + 1, e as int) =~= m.skip(d - lo + 1));
        digits_only(s, d + 1, e)
    } else {
        true
    };
    let mantissa_ok = whole_ok && fraction_ok && (d > lo || e > d + 1);
    let exponent_ok = if e < n {
        assert(s@.subrange(e + 1, n as int) =~= u.skip(e - lo + 1));
        is_integer_text(s, e + 1, n)
    } else {
        true
    };
    assert(mantissa_ok == is_mantissa(m));
    assert(exponent_ok == (e == n || integer_text_value(u.skip(e - lo + 1)) is Some));
    mantissa_ok && exponent_ok
}

} // verus!
