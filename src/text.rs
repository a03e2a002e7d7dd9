//! Character-level building blocks of the header grammar: splitting a line
//! into whitespace-separated words, finding separators, and reading numbers.
use vstd::prelude::*;
use vstd::string::StrSliceExecFns;
use vstd::string::StringExecFns;

verus! {

pub open spec fn is_space(c: char) -> bool {
    c == ' ' || c == '\t' || c == '\n' || c == '\r'
}

pub fn is_space_char(c: char) -> (r: bool)
    ensures
        r == is_space(c),
{
    c == ' ' || c == '\t' || c == '\n' || c == '\r'
}

/// The first position at or after `i` that is not inside the word running from `i`.
pub open spec fn word_end(s: Seq<char>, i: int) -> int
    decreases s.len() - i,
{
    if i < 0 || i >= s.len() || is_space(s[i]) {
        i
    } else {
        word_end(s, i + 1)
    }
}

/// The `[start, end)` spans of the whitespace-separated words of `s` that begin
/// at or after position `i`, in order.
pub open spec fn spans_from(s: Seq<char>, i: int) -> Seq<(int, int)>
    decreases s.len() - i,
{
    if i < 0 || i >= s.len() {
        seq![]
    } else if is_space(s[i]) {
        spans_from(s, i + 1)
    } else {
        let e = word_end(s, i + 1);
        if e <= i || e > s.len() {
            seq![]
        } else {
            seq![(i, e)] + spans_from(s, e)
        }
    }
}

/// The spans of all words of a line.
pub open spec fn spans(s: Seq<char>) -> Seq<(int, int)> {
    spans_from(s, 0)
}

pub open spec fn spans_view(v: Seq<(usize, usize)>) -> Seq<(int, int)> {
    v.map_values(|p: (usize, usize)| (p.0 as int, p.1 as int))
}

/// The characters of a string, one per element.
pub fn chars_of(s: &str) -> (r: Vec<char>)
    ensures
        r@ == s@,
{
    let n = s.unicode_len();
    let mut r: Vec<char> = Vec::new();
    let mut i: usize = 0;
    while i < n
        invariant
            n == s@.len(),
            i <= n,
            r@ == s@.subrange(0, i as int),
        decreases n - i,
    {
        let c = s.get_char(i);
        r.push(c);
        i = i + 1;
        assert(r@ =~= s@.subrange(0, i as int));
    }
    assert(r@ =~= s@);
    r
}

/// The text of the characters `[a, b)` of a line.
pub fn text_of(line: &str, a: usize, b: usize) -> (r: String)
    requires
        a <= b <= line@.len(),
    ensures
        r@ == line@.subrange(a as int, b as int),
{
    let part = line.substring_char(a, b);
    String::from_str(part)
}

/// Word spans lie inside the line, are not empty, and come in order.
pub open spec fn spans_ordered(t: Seq<(int, int)>, i: int, n: int) -> bool {
    &&& forall|k: int| 0 <= k < t.len() ==> i <= #[trigger] t[k].0 && t[k].0 < t[k].1 && t[k].1 <= n
    &&& forall|j: int, k: int| 0 <= j < k < t.len() ==> #[trigger] t[j].1 <= #[trigger] t[k].0
}

proof fn lemma_spans_ordered(s: Seq<char>, i: int)
    requires
        0 <= i,
    ensures
        spans_ordered(spans_from(s, i), i, s.len() as int),
    decreases s.len() - i,
{
    if i < s.len() {
        if is_space(s[i]) {
            lemma_spans_ordered(s, i + 1);
        } else {
            let e = word_end(s, i + 1);
            if i < e <= s.len() {
                lemma_spans_ordered(s, e);
                let rest = spans_from(s, e);
                let all = seq![(i, e)] + rest;
                assert(spans_from(s, i) == all);
                assert forall|k: int| 0 < k < all.len() implies all[k] == rest[k - 1] by {}
                assert forall|j: int, k: int| 0 <= j < k < all.len() implies #[trigger] all[j].1
                    <= #[trigger] all[k].0 by {
                    assert(all[k] == rest[k - 1]);
                    if j > 0 {
                        assert(all[j] == rest[j - 1]);
                    }
                }
            }
        }
    }
}

/// A run of non-space characters from `i` that stops at a space or at the
/// end of the line ends at `j`.
pub proof fn lemma_word_end(s: Seq<char>, i: int, j: int)
    requires
        0 <= i <= j <= s.len(),
        forall|k: int| i <= k < j ==> !is_space(#[trigger] s[k]),
        j == s.len() || is_space(s[j]),
    ensures
        word_end(s, i) == j,
    decreases j - i,
{
    if i < j {
        lemma_word_end(s, i + 1, j);
    }
}

/// The word spans of a whole line lie inside it, are not empty, and come in order.
pub proof fn lemma_spans_ordered_all(s: Seq<char>)
    ensures
        spans_ordered(spans(s), 0, s.len() as int),
{
    lemma_spans_ordered(s, 0);
}

/// Splits a line into the spans of its whitespace-separated words.
pub fn word_spans(s: &Vec<char>) -> (r: Vec<(usize, usize)>)
    ensures
        spans_view(r@) == spans(s@),
        spans_ordered(spans(s@), 0, s@.len() as int),
{
    proof {
        lemma_spans_ordered(s@, 0);
    }
    let n = s.len();
    let mut r: Vec<(usize, usize)> = Vec::new();
    let mut i: usize = 0;
    while i < n
        invariant
            n == s@.len(),
            i <= n,
            spans_view(r@) + spans_from(s@, i as int) == spans(s@),
        decreases n - i,
    {
        if is_space_char(s[i]) {
            i = i + 1;
        } else {
            let mut j: usize = i + 1;
            while j < n && !is_space_char(s[j])
                invariant
                    n == s@.len(),
                    i < j <= n,
                    word_end(s@, i + 1) == word_end(s@, j as int),
                decreases n - j,
            {
                j = j + 1;
            }
            assert(word_end(s@, j as int) == j);
            let ghost before = r@;
            r.push((i, j));
            proof {
                assert(spans_view(r@) =~= spans_view(before).push((i as int, j as int)));
                assert(spans_view(r@) + spans_from(s@, j as int) =~= spans_view(before)
                    + spans_from(s@, i as int));
            }
            i = j;
        }
    }
    assert(spans_view(r@) + spans_from(s@, n as int) =~= spans_view(r@));
    r
}

/// The first position in `[a, b)` that holds `c`, or `b` where none does.
pub open spec fn first_of(s: Seq<char>, c: char, a: int, b: int) -> int
    decreases b - a,
{
    if a >= b {
        b
    } else if s[a] == c {
        a
    } else {
        first_of(s, c, a + 1, b)
    }
}

/// `first_of` stays inside its range, and is its end where `c` does not occur.
pub proof fn lemma_first_of(s: Seq<char>, c: char, a: int, b: int)
    requires
        a <= b,
    ensures
        a <= first_of(s, c, a, b) <= b,
        (forall|k: int| a <= k < b ==> s[k] != c) ==> first_of(s, c, a, b) == b,
    decreases b - a,
{
    if a < b {
        lemma_first_of(s, c, a + 1, b);
    }
}

pub fn find_char(s: &Vec<char>, c: char, a: usize, b: usize) -> (r: usize)
    requires
        a <= b <= s@.len(),
    ensures
        r == first_of(s@, c, a as int, b as int),
        a <= r <= b,
{
    let mut i: usize = a;
    while i < b
        invariant
            a <= i <= b,
            b <= s@.len(),
            first_of(s@, c, a as int, b as int) == first_of(s@, c, i as int, b as int),
        decreases b - i,
    {
        if s[i] == c {
            return i;
        }
        i = i + 1;
    }
    i
}

pub open spec fn is_digit(c: char) -> bool {
    '0' <= c && c <= '9'
}

pub open spec fn digit_value(c: char) -> nat {
    (c as u32 - '0' as u32) as nat
}

pub open spec fn all_digits(s: Seq<char>, a: int, b: int) -> bool {
    forall|k: int| a <= k < b ==> #[trigger] is_digit(s[k])
}

/// The value of the decimal numeral written in `[a, b)`.
pub open spec fn digits_value(s: Seq<char>, a: int, b: int) -> nat
    decreases b - a,
{
    if b <= a {
        0
    } else {
        digits_value(s, a, b - 1) * 10 + digit_value(s[b - 1])
    }
}

/// An unsigned decimal integer: one digit at least, and no more than `u64` holds.
pub open spec fn spec_uint(s: Seq<char>, a: int, b: int) -> Option<u64> {
    if a < b && all_digits(s, a, b) && digits_value(s, a, b) <= u64::MAX {
        Some(digits_value(s, a, b) as u64)
    } else {
        None
    }
}

/// A numeral has the same value wherever it is written.
pub proof fn lemma_digits_shift(s: Seq<char>, a: int, b: int, u: Seq<char>, c: int)
    requires
        a <= b,
        forall|k: int| 0 <= k < b - a ==> s[a + k] == #[trigger] u[c + k],
    ensures
        digits_value(s, a, b) == digits_value(u, c, c + (b - a)),
    decreases b - a,
{
    if a < b {
        lemma_digits_shift(s, a, b - 1, u, c);
        assert(s[a + (b - 1 - a)] == u[c + (b - 1 - a)]);
    }
}

proof fn lemma_digits_grow(s: Seq<char>, a: int, i: int, b: int)
    requires
        a <= i <= b,
    ensures
        digits_value(s, a, i) <= digits_value(s, a, b),
    decreases b - i,
{
    if i < b {
        lemma_digits_grow(s, a, i, b - 1);
    }
}

pub fn parse_uint(s: &Vec<char>, a: usize, b: usize) -> (r: Option<u64>)
    requires
        a <= b <= s@.len(),
    ensures
        r == spec_uint(s@, a as int, b as int),
{
    if a >= b {
        return None;
    }
    let mut acc: u64 = 0;
    let mut i: usize = a;
    while i < b
        invariant
            a <= i <= b,
            b <= s@.len(),
            all_digits(s@, a as int, i as int),
            acc == digits_value(s@, a as int, i as int),
        decreases b - i,
    {
        let c = s[i];
        if !('0' <= c && c <= '9') {
            assert(!is_digit(s@[i as int]));
            return None;
        }
        let d: u64 = (c as u32 - '0' as u32) as u64;
        let next: u128 = acc as u128 * 10 + d as u128;
        if next > u64::MAX as u128 {
            proof {
                assert(digits_value(s@, a as int, i + 1) == next);
                lemma_digits_grow(s@, a as int, i + 1, b as int);
            }
            return None;
        }
        acc = next as u64;
        i = i + 1;
    }
    Some(acc)
}

/// A signed decimal integer: an optional minus sign, then digits, in `i64`'s range.
pub open spec fn spec_int(s: Seq<char>, a: int, b: int) -> Option<i64> {
    if a < b && s[a] == '-' {
        match spec_uint(s, a + 1, b) {
            Some(v) => if v <= 0x8000_0000_0000_0000 {
                Some((-(v as int)) as i64)
            } else {
                None
            },
            None => None,
        }
    } else {
        match spec_uint(s, a, b) {
            Some(v) => if v <= 0x7fff_ffff_ffff_ffff {
                Some(v as i64)
            } else {
                None
            },
            None => None,
        }
    }
}

pub fn parse_int(s: &Vec<char>, a: usize, b: usize) -> (r: Option<i64>)
    requires
        a <= b <= s@.len(),
    ensures
        r == spec_int(s@, a as int, b as int),
{
    if a < b && s[a] == '-' {
        match parse_uint(s, a + 1, b) {
            Some(v) => if v == 0x8000_0000_0000_0000 {
                Some(i64::MIN)
            } else if v < 0x8000_0000_0000_0000 {
                Some(-(v as i64))
            } else {
                None
            },
            None => None,
        }
    } else {
        match parse_uint(s, a, b) {
            Some(v) => if v <= 0x7fff_ffff_ffff_ffff {
                Some(v as i64)
            } else {
                None
            },
            None => None,
        }
    }
}

/// A decimal number `whole.fraction`, the fraction written with
/// `fraction_digits` digits (so `0.05` has fraction 5 and two digits).
#[derive(Clone, Copy, Debug, PartialEq, Eq, Structural)]
pub struct Decimal {
    pub negative: bool,
    pub whole: u64,
    pub fraction: u64,
    pub fraction_digits: u64,
}

impl Decimal {
    pub open spec fn spec_from_whole(n: u64) -> Decimal {
        Decimal { negative: false, whole: n, fraction: 0, fraction_digits: 0 }
    }

    /// The decimal that is the whole number `n`.
    pub fn from_whole(n: u64) -> (r: Decimal)
        ensures
            r == Decimal::spec_from_whole(n),
    {
        Decimal { negative: false, whole: n, fraction: 0, fraction_digits: 0 }
    }
}

/// A run of digits that may be empty (then worth zero).
pub open spec fn spec_opt_digits(s: Seq<char>, a: int, b: int) -> Option<u64> {
    if a >= b {
        Some(0)
    } else {
        spec_uint(s, a, b)
    }
}

/// A decimal number: an optional minus sign, digits, and an optional `.`
/// followed by digits; one digit at least on either side of the point.
pub open spec fn spec_decimal(s: Seq<char>, a: int, b: int) -> Option<Decimal> {
    let negative = a < b && s[a] == '-';
    let p = if negative { a + 1 } else { a };
    let d = first_of(s, '.', p, b);
    let fraction_start = if d < b { d + 1 } else { b };
    if d == p && fraction_start >= b {
        None
    } else {
        match (spec_opt_digits(s, p, d), spec_opt_digits(s, fraction_start, b)) {
            (Some(w), Some(f)) => Some(
                Decimal {
                    negative,
                    whole: w,
                    fraction: f,
                    fraction_digits: (b - fraction_start) as u64,
                },
            ),
            _ => None,
        }
    }
}

fn parse_opt_digits(s: &Vec<char>, a: usize, b: usize) -> (r: Option<u64>)
    requires
        a <= b <= s@.len(),
    ensures
        r == spec_opt_digits(s@, a as int, b as int),
{
    if a >= b {
        Some(0)
    } else {
        parse_uint(s, a, b)
    }
}

pub fn parse_decimal(s: &Vec<char>, a: usize, b: usize) -> (r: Option<Decimal>)
    requires
        a <= b <= s@.len(),
    ensures
        r == spec_decimal(s@, a as int, b as int),
{
    let negative = a < b && s[a] == '-';
    let p = if negative { a + 1 } else { a };
    let d = find_char(s, '.', p, b);
    let fraction_start = if d < b { d + 1 } else { b };
    if d == p && fraction_start >= b {
        return None;
    }
    match (parse_opt_digits(s, p, d), parse_opt_digits(s, fraction_start, b)) {
        (Some(w), Some(f)) => Some(
            Decimal {
                negative,
                whole: w,
                fraction: f,
                fraction_digits: (b - fraction_start) as u64,
            },
        ),
        _ => None,
    }
}

} // verus!
