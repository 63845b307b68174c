//! Names of session log files: `<YYYY-MM-DD>.csv` for the first session of a
//! day, then `<YYYY-MM-DD> (n).csv` with the smallest unused `n >= 1`.
use vstd::prelude::*;
use vstd::relations::injective_on;
use vstd::set_lib::{lemma_int_range, lemma_len_subset, lemma_map_size, set_int_range};
use crate::numeric::{digits_value, DIGIT_ZERO, MINUS};
use crate::parser::{CLOSE_PAREN, OPEN_PAREN, SPACE};

verus! {

pub open spec fn is_leap_year(y: int) -> bool {
    (y % 4 == 0 && y % 100 != 0) || y % 400 == 0
}

pub open spec fn days_in_month(y: int, m: int) -> int {
    if m == 2 {
        if is_leap_year(y) {
            29
        } else {
            28
        }
    } else if m == 4 || m == 6 || m == 9 || m == 11 {
        30
    } else {
        31
    }
}

/// A day of the Gregorian calendar.
pub open spec fn valid_date(y: int, m: int, d: int) -> bool {
    1 <= m <= 12 && 1 <= d <= days_in_month(y, m)
}

/// The last `width` decimal digits of `n`, zeros in front.
pub open spec fn padded(n: nat, width: nat) -> Seq<u8>
    decreases width,
{
    if width == 0 {
        Seq::empty()
    } else {
        padded(n / 10, (width - 1) as nat).push((DIGIT_ZERO + n % 10) as u8)
    }
}

/// `YYYY-MM-DD`.
pub open spec fn iso_date(y: nat, m: nat, d: nat) -> Seq<u8> {
    padded(y, 4) + seq![MINUS] + padded(m, 2) + seq![MINUS] + padded(d, 2)
}

/// The decimal digits of `n`, without leading zeros.
pub open spec fn decimal(n: nat) -> Seq<u8>
    decreases n,
{
    if n < 10 {
        seq![(DIGIT_ZERO + n) as u8]
    } else {
        decimal(n / 10).push((DIGIT_ZERO + n % 10) as u8)
    }
}

/// `.csv`
pub open spec fn csv_extension() -> Seq<u8> {
    seq![46u8, 99, 115, 118]
}

/// The name of the `n`-th log file of the day written `date`, counting from 0.
pub open spec fn file_name(date: Seq<u8>, n: nat) -> Seq<u8> {
    if n == 0 {
        date + csv_extension()
    } else {
        date + seq![SPACE, OPEN_PAREN] + decimal(n) + seq![CLOSE_PAREN] + csv_extension()
    }
}

/// `name` is the first name of the day `date` that `taken` does not hold.
pub open spec fn is_first_free(date: Seq<u8>, taken: Seq<Seq<u8>>, name: Seq<u8>) -> bool {
    exists|n: nat|
        {
            &&& name == #[trigger] file_name(date, n)
            &&& !taken.contains(name)
            &&& forall|m: nat| m < n ==> taken.contains(#[trigger] file_name(date, m))
        }
}

/// The names in a list of byte strings.
pub open spec fn names_of(v: Seq<Vec<u8>>) -> Seq<Seq<u8>> {
    v.map_values(|x: Vec<u8>| x@)
}

proof fn lemma_decimal_value(n: nat)
    ensures
        digits_value(decimal(n)) == n,
        decimal(n).len() >= 1,
    decreases n,
{
    if n >= 10 {
        lemma_decimal_value(n / 10);
        assert(decimal(n).drop_last() =~= decimal(n / 10));
        assert(decimal(n).last() == (DIGIT_ZERO + n % 10) as u8);
        assert(n == (n / 10) * 10 + n % 10);
    } else {
        assert(decimal(n).drop_last() =~= Seq::<u8>::empty());
        assert(digits_value(Seq::<u8>::empty()) == 0);
    }
}

/// Different numbers give different file names on one day.
pub proof fn lemma_file_name_injective(date: Seq<u8>, a: nat, b: nat)
    requires
        file_name(date, a) == file_name(date, b),
    ensures
        a == b,
{
    lemma_decimal_value(a);
    lemma_decimal_value(b);
    let fa = file_name(date, a);
    let fb = file_name(date, b);
    if a != 0 && b != 0 {
        let lo = date.len() as int + 2;
        assert(fa.subrange(lo, fa.len() - 5) =~= decimal(a));
        assert(fb.subrange(lo, fb.len() - 5) =~= decimal(b));
    } else if a == 0 && b != 0 {
        assert(csv_extension().len() == 4);
        assert(fa =~= date + csv_extension());
        assert(fb.len() == date.len() + 2 + decimal(b).len() + 1 + 4);
    } else if a != 0 && b == 0 {
        assert(csv_extension().len() == 4);
        assert(fb =~= date + csv_extension());
        assert(fa.len() == date.len() + 2 + decimal(a).len() + 1 + 4);
    }
}

/// Where the first `k` names of a day are all taken, `taken` holds at least
/// `k` entries.
proof fn lemma_taken_bound(date: Seq<u8>, taken: Seq<Seq<u8>>, k: int)
    requires
        0 <= k,
        forall|m: nat| m < k ==> taken.contains(#[trigger] file_name(date, m)),
    ensures
        k <= taken.len(),
{
    let x = set_int_range(0, k);
    lemma_int_range(0, k);
    let f = |m: int| file_name(date, m as nat);
    assert(injective_on(f, x)) by {
        assert forall|p: int, q: int| x.contains(p) && x.contains(q) && #[trigger] f(p) == #[trigger] f(
            q,
        ) implies p == q by {
            lemma_file_name_injective(date, p as nat, q as nat);
        }
    }
    let y = x.map(f);
    lemma_map_size(x, y, f);
    assert(y.subset_of(taken.to_set())) by {
        assert forall|s: Seq<u8>| y.contains(s) implies taken.to_set().contains(s) by {
            let m = choose|m: int| x.contains(m) && f(m) == s;
            assert(taken.contains(file_name(date, m as nat)));
        }
    }
    taken.lemma_cardinality_of_set();
    lemma_len_subset(y, taken.to_set());
}

fn push_decimal(out: &mut Vec<u8>, n: u64)
    ensures
        final(out)@ == old(out)@ + decimal(n as nat),
    decreases n,
{
    if n >= 10 {
        push_decimal(out, n / 10);
    }
    out.push(DIGIT_ZERO + (n % 10) as u8);
    assert(final(out)@ =~= old(out)@ + decimal(n as nat));
}

fn append_bytes(out: &mut Vec<u8>, s: &[u8])
    ensures
        final(out)@ == old(out)@ + s@,
{
    let ghost start = out@;
    let mut i: usize = 0;
    while i < s.len()
        invariant
            0 <= i <= s@.len(),
            out@ == start + s@.take(i as int),
        decreases s@.len() - i,
    {
        out.push(s[i]);
        i = i + 1;
        assert(out@ =~= start + s@.take(i as int));
    }
    assert(s@.take(i as int) =~= s@);
}

/// The name of the `n`-th log file of the day written `date`.
pub fn numbered_file_name(date: &[u8], n: u64) -> (r: Vec<u8>)
    ensures
        r@ == file_name(date@, n as nat),
{
    let mut r: Vec<u8> = Vec::new();
    append_bytes(&mut r, date);
    if n > 0 {
        r.push(SPACE);
        r.push(OPEN_PAREN);
        push_decimal(&mut r, n);
        r.push(CLOSE_PAREN);
    }
    r.push(46u8);
    r.push(99u8);
    r.push(115u8);
    r.push(118u8);
    assert(r@ =~= file_name(date@, n as nat));
    r
}

fn same_bytes(a: &Vec<u8>, b: &Vec<u8>) -> (r: bool)
    ensures
        r == (a@ == b@),
{
    if a.len() != b.len() {
        return false;
    }
    let mut i: usize = 0;
    while i < a.len()
        invariant
            a@.len() == b@.len(),
            0 <= i <= a@.len(),
            forall|j: int| 0 <= j < i ==> a@[j] == b@[j],
        decreases a@.len() - i,
    {
        if a[i] != b[i] {
            return false;
        }
        i = i + 1;
    }
    assert(a@ =~= b@);
    true
}

fn is_taken(taken: &Vec<Vec<u8>>, name: &Vec<u8>) -> (r: bool)
    ensures
        r == names_of(taken@).contains(name@),
{
    let ghost names = names_of(taken@);
    let mut i: usize = 0;
    while i < taken.len()
        invariant
            0 <= i <= taken@.len(),
            names == names_of(taken@),
            forall|j: int| 0 <= j < i ==> names[j] != name@,
        decreases taken@.len() - i,
    {
        if same_bytes(&taken[i], name) {
            assert(names[i as int] == name@);
            return true;
        }
        i = i + 1;
    }
    false
}

/// The first name of the day written `date` that is not among `taken`.
pub fn first_free_file_name(date: &[u8], taken: &Vec<Vec<u8>>) -> (r: Vec<u8>)
    ensures
        is_first_free(date@, names_of(taken@), r@),
{
    let ghost names = names_of(taken@);
    let count = taken.len();
    let mut n: usize = 0;
    let mut name = numbered_file_name(date, 0);
    while is_taken(taken, &name)
        invariant
            names == names_of(taken@),
            n <= taken@.len(),
            count == taken@.len(),
            name@ == file_name(date@, n as nat),
            forall|m: nat| m < n ==> names.contains(#[trigger] file_name(date@, m)),
        decreases taken@.len() - n,
    {
        proof {
            assert(names.contains(file_name(date@, n as nat)));
            assert forall|m: nat| m < n + 1 implies names.contains(#[trigger] file_name(date@, m)) by {
                if m < n {
                    assert(names.contains(file_name(date@, m)));
                }
            }
            lemma_taken_bound(date@, names, n + 1);
            assert(names.len() == taken@.len());
        }
        n = n + 1;
        name = numbered_file_name(date, n as u64);
    }
    assert(name@ == file_name(date@, n as nat));
    name
}

/// Relies on chrono's `NaiveDate::from_ymd_opt`, which accepts exactly the
/// days of the proleptic Gregorian calendar within its year range, and on
/// `NaiveDate`'s `Display`, which writes a year from 0 to 9999 as
/// `YYYY-MM-DD`.
#[verifier::external_body]
fn calendar_date_text(year: i32, month: u32, day: u32) -> (r: Option<Vec<u8>>)
    ensures
        0 <= year <= 9999 ==> (r is Some <==> valid_date(year as int, month as int, day as int)),
        0 <= year <= 9999 && r is Some ==> r->0@ == iso_date(year as nat, month as nat, day as nat),
{
    match chrono::NaiveDate::from_ymd_opt(year, month, day) {
        Some(date) => Some(date.to_string().into_bytes()),
        None => None,
    }
}

/// The log file name for a session opened on the given day: the first name
/// of that day not among `taken`. `None` where the day does not exist or the
/// year has other than four digits.
pub fn session_file_name(year: i32, month: u32, day: u32, taken: &Vec<Vec<u8>>) -> (r: Option<
    Vec<u8>,
>)
    ensures
        r is Some <==> (0 <= year <= 9999 && valid_date(year as int, month as int, day as int)),
        r is Some ==> is_first_free(
            iso_date(year as nat, month as nat, day as nat),
            names_of(taken@),
            r->0@,
        ),
{
    if year < 0 || year > 9999 {
        return None;
    }
    match calendar_date_text(year, month, day) {
        Some(date) => Some(first_free_file_name(date.as_slice(), taken)),
        None => None,
    }
}

/// Sessions opened one after another on one day, in a directory that holds
/// no log file of that day yet, are named `<date>.csv`, `<date> (1).csv`,
/// `<date> (2).csv`, ...: the `k`-th takes number `k` once the `k` before it
/// have been added.
pub proof fn lemma_sessions_named_in_order(date: Seq<u8>, taken: Seq<Seq<u8>>, k: nat)
    requires
        forall|n: nat| !taken.contains(#[trigger] file_name(date, n)),
    ensures
        is_first_free(
            date,
            taken + Seq::new(k, |m: int| file_name(date, m as nat)),
            file_name(date, k),
        ),
{
    let earlier = Seq::new(k, |m: int| file_name(date, m as nat));
    let all = taken + earlier;
    assert forall|m: nat| m < k implies all.contains(#[trigger] file_name(date, m)) by {
        assert(all[taken.len() as int + m] == file_name(date, m));
    }
    assert(!all.contains(file_name(date, k))) by {
        if all.contains(file_name(date, k)) {
            let i = choose|i: int| 0 <= i < all.len() && all[i] == file_name(date, k);
            if i < taken.len() {
                assert(taken.contains(file_name(date, k)));
            } else {
                lemma_file_name_injective(date, (i - taken.len()) as nat, k);
            }
        }
    }
}

/// A session's log file is never one that was there before it: the name
/// chosen differs from every name already taken, the previous session's
/// included.
pub proof fn lemma_new_session_file_is_new(
    date: Seq<u8>,
    taken: Seq<Seq<u8>>,
    name: Seq<u8>,
    previous: Seq<u8>,
)
    requires
        is_first_free(date, taken, name),
        taken.contains(previous),
    ensures
        name != previous,
{
}

} // verus!
