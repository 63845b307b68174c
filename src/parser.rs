//! The device's text protocol: one reading per frame, written
//! `(<device milliseconds> <value>)`.
use vstd::prelude::*;
use crate::numeric::{
    find_byte, float_text, i64_text_value, index_of, is_float_text, lemma_index_of, parse_i64,
};

verus! {

pub const OPEN_PAREN: u8 = 40;
pub const CLOSE_PAREN: u8 = 41;
pub const SPACE: u8 = 32;

/// Why a frame holds no reading.
#[derive(Debug, Clone, Copy, PartialEq, Eq, Structural)]
pub enum ParseError {
    /// The frame is empty.
    Empty,
    /// The frame does not start with `(` and end with `)`.
    Unbracketed,
    /// The first field is not an `i64` literal.
    BadMillis,
    /// There is no space, hence no second field.
    MissingValue,
    /// The second field is not a floating-point literal.
    BadValue,
}

/// A reading as the sensor reports it, on its own clock. The value is kept as
/// the floating-point literal that was received, a valid `f64` literal.
#[derive(Debug, PartialEq, Eq)]
pub struct DeviceReading {
    pub device_millis: i64,
    pub value: Vec<u8>,
}

/// One-byte whitespace: tab, line feed, vertical tab, form feed, carriage
/// return, space.
pub open spec fn is_blank(b: u8) -> bool {
    b == 32 || (9 <= b <= 13)
}

/// Whether `a`, `b`, `c` encode one of the three-byte characters of Unicode's
/// White_Space: U+1680, U+2000 to U+200A, U+2028, U+2029, U+202F, U+205F,
/// U+3000.
pub open spec fn is_wide_blank(a: u8, b: u8, c: u8) -> bool {
    (a == 0xe1 && b == 0x9a && c == 0x80) || (a == 0xe2 && b == 0x80 && (0x80 <= c <= 0x8a || c
        == 0xa8 || c == 0xa9 || c == 0xaf)) || (a == 0xe2 && b == 0x81 && c == 0x9f) || (a == 0xe3
        && b == 0x80 && c == 0x80)
}

/// Length of the whitespace character that `s` starts with, or 0. The
/// whitespace characters are those of `char::is_whitespace`, in UTF-8;
/// U+0085 and U+00A0 take two bytes.
pub open spec fn blank_width_at_start(s: Seq<u8>) -> int {
    if s.len() >= 1 && is_blank(s[0]) {
        1
    } else if s.len() >= 2 && s[0] == 0xc2 && (s[1] == 0x85 || s[1] == 0xa0) {
        2
    } else if s.len() >= 3 && is_wide_blank(s[0], s[1], s[2]) {
        3
    } else {
        0
    }
}

/// Length of the whitespace character that `s` ends with, or 0.
pub open spec fn blank_width_at_end(s: Seq<u8>) -> int {
    let n = s.len() as int;
    if n >= 1 && is_blank(s[n - 1]) {
        1
    } else if n >= 2 && s[n - 2] == 0xc2 && (s[n - 1] == 0x85 || s[n - 1] == 0xa0) {
        2
    } else if n >= 3 && is_wide_blank(s[n - 3], s[n - 2], s[n - 1]) {
        3
    } else {
        0
    }
}

/// Number of bytes of whitespace at the start of `s`.
pub open spec fn leading_blanks(s: Seq<u8>) -> int
    decreases s.len(),
{
    let w = blank_width_at_start(s);
    if w > 0 {
        w + leading_blanks(s.skip(w))
    } else {
        0
    }
}

/// Number of bytes of whitespace at the end of `s`.
pub open spec fn trailing_blanks(s: Seq<u8>) -> int
    decreases s.len(),
{
    let w = blank_width_at_end(s);
    if w > 0 {
        w + trailing_blanks(s.take(s.len() - w))
    } else {
        0
    }
}

/// `s` without whitespace at either end, as `str::trim` leaves it.
pub open spec fn trimmed(s: Seq<u8>) -> Seq<u8> {
    let rest = s.skip(leading_blanks(s));
    rest.take(rest.len() - trailing_blanks(rest))
}

/// What a trimmed frame means: the device milliseconds and the value's
/// literal, or the first rule that it breaks.
pub open spec fn parse_outcome(s: Seq<u8>) -> Result<(int, Seq<u8>), ParseError> {
    if s.len() == 0 {
        Err(ParseError::Empty)
    } else if !(s[0] == OPEN_PAREN && s.last() == CLOSE_PAREN && s.len() >= 2) {
        Err(ParseError::Unbracketed)
    } else {
        let inner = s.subrange(1, s.len() - 1);
        let k = index_of(inner, SPACE);
        let millis = i64_text_value(inner.take(k));
        if millis is None {
            Err(ParseError::BadMillis)
        } else if k == inner.len() {
            Err(ParseError::MissingValue)
        } else if !float_text(inner.skip(k + 1)) {
            Err(ParseError::BadValue)
        } else {
            Ok((millis->0, inner.skip(k + 1)))
        }
    }
}

/// The frame written by the device for a reading.
pub open spec fn frame_text(millis_text: Seq<u8>, value_text: Seq<u8>) -> Seq<u8> {
    seq![OPEN_PAREN] + millis_text + seq![SPACE] + value_text + seq![CLOSE_PAREN]
}

proof fn lemma_blanks_bounded(s: Seq<u8>)
    ensures
        0 <= leading_blanks(s) <= s.len(),
        0 <= trailing_blanks(s) <= s.len(),
    decreases s.len(),
{
    let w = blank_width_at_start(s);
    if w > 0 {
        lemma_blanks_bounded(s.skip(w));
    }
    let v = blank_width_at_end(s);
    if v > 0 {
        lemma_blanks_bounded(s.take(s.len() - v));
    }
}

fn is_wide_blank_exec(a: u8, b: u8, c: u8) -> (r: bool)
    ensures
        r == is_wide_blank(a, b, c),
{
    (a == 0xe1 && b == 0x9a && c == 0x80) || (a == 0xe2 && b == 0x80 && ((0x80 <= c && c <= 0x8a)
        || c == 0xa8 || c == 0xa9 || c == 0xaf)) || (a == 0xe2 && b == 0x81 && c == 0x9f) || (a
        == 0xe3 && b == 0x80 && c == 0x80)
}

fn is_blank_exec(b: u8) -> (r: bool)
    ensures
        r == is_blank(b),
{
    b == 32 || (9 <= b && b <= 13)
}

/// Length of the whitespace character that `s[lo..hi]` starts with, or 0.
fn blank_at_start(s: &[u8], lo: usize, hi: usize) -> (r: usize)
    requires
        lo <= hi <= s@.len(),
    ensures
        r == blank_width_at_start(s@.subrange(lo as int, hi as int)),
{
    let n = hi - lo;
    if n >= 1 && is_blank_exec(s[lo]) {
        1
    } else if n >= 2 && s[lo] == 0xc2 && (s[lo + 1] == 0x85 || s[lo + 1] == 0xa0) {
        2
    } else if n >= 3 && is_wide_blank_exec(s[lo], s[lo + 1], s[lo + 2]) {
        3
    } else {
        0
    }
}

/// Length of the whitespace character that `s[lo..hi]` ends with, or 0.
fn blank_at_end(s: &[u8], lo: usize, hi: usize) -> (r: usize)
    requires
        lo <= hi <= s@.len(),
    ensures
        r == blank_width_at_end(s@.subrange(lo as int, hi as int)),
{
    let n = hi - lo;
    if n >= 1 && is_blank_exec(s[hi - 1]) {
        1
    } else if n >= 2 && s[hi - 2] == 0xc2 && (s[hi - 1] == 0x85 || s[hi - 1] == 0xa0) {
        2
    } else if n >= 3 && is_wide_blank_exec(s[hi - 3], s[hi - 2], s[hi - 1]) {
        3
    } else {
        0
    }
}

/// Bounds of `line` without whitespace at either end.
pub fn trim_bounds(line: &[u8]) -> (r: (usize, usize))
    ensures
        r.0 <= r.1 <= line@.len(),
        line@.subrange(r.0 as int, r.1 as int) == trimmed(line@),
{
    let n = line.len();
    let mut lo: usize = 0;
    assert(line@.subrange(0, n as int) =~= line@);
    loop
        invariant
            lo <= n == line@.len(),
            leading_blanks(line@) == lo + leading_blanks(line@.subrange(lo as int, n as int)),
        ensures
            lo <= n,
            leading_blanks(line@) == lo,
        decreases n - lo,
    {
        let w = blank_at_start(line, lo, n);
        if w == 0 {
            break;
        }
        proof {
            let t = line@.subrange(lo as int, n as int);
            assert(t.skip(w as int) =~= line@.subrange(lo + w, n as int));
        }
        lo = lo + w;
    }
    let ghost rest = line@.skip(lo as int);
    assert(rest =~= line@.subrange(lo as int, n as int));
    let mut hi: usize = n;
    loop
        invariant
            lo <= hi <= n == line@.len(),
            rest =~= line@.subrange(lo as int, n as int),
            trailing_blanks(rest) == (n - hi) + trailing_blanks(
                line@.subrange(lo as int, hi as int),
            ),
        ensures
            lo <= hi <= n,
            trailing_blanks(rest) == n - hi,
        decreases hi,
    {
        let w = blank_at_end(line, lo, hi);
        if w == 0 {
            break;
        }
        proof {
            let t = line@.subrange(lo as int, hi as int);
            assert(t.take(t.len() - w) =~= line@.subrange(lo as int, hi - w));
        }
        hi = hi - w;
    }
    proof {
        lemma_blanks_bounded(rest);
        assert(line@.subrange(lo as int, hi as int) =~= trimmed(line@));
    }
    (lo, hi)
}

/// Copy of `s[lo..hi]`.
pub(crate) fn copy_range(s: &[u8], lo: usize, hi: usize) -> (r: Vec<u8>)
    requires
        lo <= hi <= s@.len(),
    ensures
        r@ == s@.subrange(lo as int, hi as int),
{
    let mut r: Vec<u8> = Vec::new();
    let mut i = lo;
    while i < hi
        invariant
            lo <= i <= hi <= s@.len(),
            r@ == s@.subrange(lo as int, i as int),
        decreases hi - i,
    {
        r.push(s[i]);
        i = i + 1;
        assert(r@ =~= s@.subrange(lo as int, i as int));
    }
    r
}

/// Parses `entry[lo..hi]`, a frame without its surrounding blanks.
fn parse_range(entry: &[u8], lo: usize, hi: usize) -> (r: Result<DeviceReading, ParseError>)
    requires
        lo <= hi <= entry@.len(),
    ensures
        match r {
            Ok(d) => parse_outcome(entry@.subrange(lo as int, hi as int)) == Ok::<
                (int, Seq<u8>),
                ParseError,
            >((d.device_millis as int, d.value@)),
            Err(e) => parse_outcome(entry@.subrange(lo as int, hi as int)) == Err::<
                (int, Seq<u8>),
                ParseError,
            >(e),
        },
{
    let ghost s = entry@.subrange(lo as int, hi as int);
    if lo == hi {
        return Err(ParseError::Empty);
    }
    if !(entry[lo] == OPEN_PAREN && entry[hi - 1] == CLOSE_PAREN && hi - lo >= 2) {
        return Err(ParseError::Unbracketed);
    }
    let ghost inner = s.subrange(1, s.len() - 1);
    assert(inner =~= entry@.subrange(lo + 1, hi - 1));
    let space = find_byte(entry, lo + 1, hi - 1, SPACE);
    let ghost k = space - (lo + 1);
    assert(inner.take(k) =~= entry@.subrange(lo + 1, space as int));
    let millis_text = copy_range(entry, lo + 1, space);
    let millis = match parse_i64(millis_text.as_slice()) {
        Some(v) => v,
        None => return Err(ParseError::BadMillis),
    };
    if space == hi - 1 {
        return Err(ParseError::MissingValue);
    }
    assert(inner.skip(k + 1) =~= entry@.subrange(space + 1, hi - 1));
    let value = copy_range(entry, space + 1, hi - 1);
    if !is_float_text(value.as_slice()) {
        return Err(ParseError::BadValue);
    }
    Ok(DeviceReading { device_millis: millis, value })
}

/// Parses a frame that has already been trimmed: `(` , an `i64` literal, one
/// space, a floating-point literal, `)`.
pub fn parse_serial_entry(entry: &[u8]) -> (r: Result<DeviceReading, ParseError>)
    ensures
        match r {
            Ok(d) => parse_outcome(entry@) == Ok::<(int, Seq<u8>), ParseError>(
                (d.device_millis as int, d.value@),
            ),
            Err(e) => parse_outcome(entry@) == Err::<(int, Seq<u8>), ParseError>(e),
        },
{
    assert(entry@.subrange(0, entry@.len() as int) =~= entry@);
    parse_range(entry, 0, entry.len())
}

/// Parses a received line: blanks at either end, the line terminator
/// included, are removed first.
pub fn parse_frame(line: &[u8]) -> (r: Result<DeviceReading, ParseError>)
    ensures
        match r {
            Ok(d) => parse_outcome(trimmed(line@)) == Ok::<(int, Seq<u8>), ParseError>(
                (d.device_millis as int, d.value@),
            ),
            Err(e) => parse_outcome(trimmed(line@)) == Err::<(int, Seq<u8>), ParseError>(e),
        },
{
    let (lo, hi) = trim_bounds(line);
    parse_range(line, lo, hi)
}

proof fn lemma_frame_fields(m: Seq<u8>, v: Seq<u8>)
    requires
        forall|j: int| 0 <= j < m.len() ==> m[j] != SPACE,
    ensures
        ({
            let s = frame_text(m, v);
            &&& s.len() >= 2
            &&& s[0] == OPEN_PAREN
            &&& s.last() == CLOSE_PAREN
            &&& s.subrange(1, s.len() - 1).take(m.len() as int) == m
            &&& s.subrange(1, s.len() - 1).skip(m.len() as int + 1) == v
            &&& index_of(s.subrange(1, s.len() - 1), SPACE) == m.len()
        }),
{
    let s = frame_text(m, v);
    let inner = s.subrange(1, s.len() - 1);
    assert(inner =~= m + seq![SPACE] + v);
    assert(inner.take(m.len() as int) =~= m);
    assert(inner.skip(m.len() as int + 1) =~= v);
    lemma_index_of(inner, SPACE, m.len() as int);
}

/// A frame made of an `i64` literal and a floating-point literal parses to
/// exactly the integer it writes and the value literal as written.
pub proof fn lemma_well_formed_frame_parses(m: Seq<u8>, v: Seq<u8>)
    requires
        i64_text_value(m) is Some,
        float_text(v),
    ensures
        parse_outcome(frame_text(m, v)) == Ok::<(int, Seq<u8>), ParseError>(
            (i64_text_value(m)->0, v),
        ),
{
    assert forall|j: int| 0 <= j < m.len() implies m[j] != SPACE by {
        if j > 0 || !crate::numeric::is_sign(m[0]) {
            let k = if crate::numeric::is_sign(m[0]) { j - 1 } else { j };
            assert(crate::numeric::unsigned_part(m)[k] == m[j]);
        }
    }
    lemma_frame_fields(m, v);
}

/// A frame that is empty, or does not start with `(`, or does not end with
/// `)`, yields no reading.
pub proof fn lemma_unbracketed_frame_fails(s: Seq<u8>)
    requires
        s.len() == 0 || s[0] != OPEN_PAREN || s.last() != CLOSE_PAREN,
    ensures
        parse_outcome(s) is Err,
{
}

/// A frame whose first field is not an `i64` literal, or whose second field is
/// not a floating-point literal, yields no reading.
pub proof fn lemma_non_numeric_field_fails(m: Seq<u8>, v: Seq<u8>)
    requires
        forall|j: int| 0 <= j < m.len() ==> m[j] != SPACE,
        i64_text_value(m) is None || !float_text(v),
    ensures
        parse_outcome(frame_text(m, v)) is Err,
{
    lemma_frame_fields(m, v);
}

} // verus!
