//! Scanning primitives behind std's `trim_start`, `split`, `split_whitespace`
//! and `usize::from_str`, stated over character sequences.

use vstd::prelude::*;
use crate::text::{chars_start_with_at, copy_range, occurs_at};

verus! {

/// `char::is_whitespace`: the Unicode `White_Space` property.
pub open spec fn is_ws(c: char) -> bool {
    ('\u{9}' <= c && c <= '\u{d}') || c == ' ' || c == '\u{85}' || c == '\u{a0}' || c
        == '\u{1680}' || ('\u{2000}' <= c && c <= '\u{200a}') || c == '\u{2028}' || c
        == '\u{2029}' || c == '\u{202f}' || c == '\u{205f}' || c == '\u{3000}'
}

/// `char::is_whitespace`, written out from its Unicode definition.
pub fn is_whitespace(c: char) -> (r: bool)
    ensures
        r == is_ws(c),
{
    ('\u{9}' <= c && c <= '\u{d}') || c == ' ' || c == '\u{85}' || c == '\u{a0}' || c
        == '\u{1680}' || ('\u{2000}' <= c && c <= '\u{200a}') || c == '\u{2028}' || c
        == '\u{2029}' || c == '\u{202f}' || c == '\u{205f}' || c == '\u{3000}'
}

/// The number of leading whitespace characters of `s`.
pub open spec fn leading_ws(s: Seq<char>) -> int
    decreases s.len(),
{
    if s.len() > 0 && is_ws(s[0]) {
        1 + leading_ws(s.skip(1))
    } else {
        0
    }
}

/// `str::trim_start`.
pub open spec fn trim_start(s: Seq<char>) -> Seq<char> {
    s.skip(leading_ws(s))
}

pub proof fn lemma_leading_ws(s: Seq<char>)
    ensures
        0 <= leading_ws(s) <= s.len(),
        forall|j: int| 0 <= j < leading_ws(s) ==> is_ws(#[trigger] s[j]),
        leading_ws(s) < s.len() ==> !is_ws(s[leading_ws(s)]),
    decreases s.len(),
{
    if s.len() > 0 && is_ws(s[0]) {
        lemma_leading_ws(s.skip(1));
        assert forall|j: int| 0 <= j < leading_ws(s) implies is_ws(#[trigger] s[j]) by {
            if j > 0 {
                assert(s[j] == s.skip(1)[j - 1]);
            }
        }
    }
}

pub proof fn lemma_leading_ws_is(s: Seq<char>, n: int)
    requires
        0 <= n <= s.len(),
        forall|j: int| 0 <= j < n ==> is_ws(#[trigger] s[j]),
        n < s.len() ==> !is_ws(s[n]),
    ensures
        leading_ws(s) == n,
    decreases s.len(),
{
    if n > 0 {
        assert(is_ws(s[0]));
        assert forall|j: int| 0 <= j < n - 1 implies is_ws(#[trigger] s.skip(1)[j]) by {
            assert(s.skip(1)[j] == s[j + 1]);
        }
        lemma_leading_ws_is(s.skip(1), n - 1);
    }
}

/// Index of the first non-whitespace character of `v`, or its length.
pub fn skip_ws(v: &Vec<char>, from: usize) -> (n: usize)
    requires
        from <= v.len(),
    ensures
        from <= n <= v.len(),
        n as int - from == leading_ws(v@.skip(from as int)),
{
    let mut n = from;
    while n < v.len() && is_whitespace(v[n])
        invariant
            from <= n <= v.len(),
            forall|j: int| from <= j < n ==> is_ws(#[trigger] v@[j]),
        decreases v.len() - n,
    {
        n = n + 1;
    }
    proof {
        let t = v@.skip(from as int);
        assert forall|j: int| 0 <= j < n - from implies is_ws(#[trigger] t[j]) by {
            assert(t[j] == v@[from + j]);
        }
        lemma_leading_ws_is(t, n - from);
    }
    n
}

/// `str::trim_start` on characters.
pub fn trim_start_chars(v: &Vec<char>) -> (out: Vec<char>)
    ensures
        out@ == trim_start(v@),
{
    let n = skip_ws(v, 0);
    assert(v@.skip(0) =~= v@);
    let out = copy_range(v, n, v.len());
    assert(out@ =~= v@.skip(n as int));
    out
}

/// Leftmost occurrence of `pat` in `s` at or after `from`, or -1.
pub open spec fn occurrence_from(s: Seq<char>, pat: Seq<char>, from: int) -> int
    decreases s.len() - from,
{
    if from < 0 || from + pat.len() > s.len() {
        -1
    } else if occurs_at(s, pat, from) {
        from
    } else if from >= s.len() {
        -1
    } else {
        occurrence_from(s, pat, from + 1)
    }
}

pub proof fn lemma_occurrence_from(s: Seq<char>, pat: Seq<char>, from: int)
    requires
        from >= 0,
    ensures
        ({
            let i = occurrence_from(s, pat, from);
            (i == -1 && forall|j: int| from <= j ==> !#[trigger] occurs_at(s, pat, j)) || (from
                <= i && occurs_at(s, pat, i) && forall|j: int|
                from <= j < i ==> !#[trigger] occurs_at(s, pat, j))
        }),
    decreases s.len() - from,
{
    if from + pat.len() > s.len() {
    } else if occurs_at(s, pat, from) {
    } else if from >= s.len() {
        assert(s.subrange(from, from + pat.len()) =~= pat);
    } else {
        lemma_occurrence_from(s, pat, from + 1);
    }
}

pub proof fn lemma_occurrence_is(s: Seq<char>, pat: Seq<char>, i: int)
    requires
        i == -1 ==> forall|j: int| 0 <= j ==> !#[trigger] occurs_at(s, pat, j),
        i != -1 ==> 0 <= i && occurs_at(s, pat, i) && forall|j: int|
            0 <= j < i ==> !#[trigger] occurs_at(s, pat, j),
    ensures
        occurrence_from(s, pat, 0) == i,
{
    lemma_occurrence_from(s, pat, 0);
    let f = occurrence_from(s, pat, 0);
    if f != -1 && i != -1 {
        if f < i {
            assert(occurs_at(s, pat, f));
        } else if i < f {
            assert(occurs_at(s, pat, i));
        }
    } else if f != -1 {
        assert(occurs_at(s, pat, f));
    } else if i != -1 {
        assert(occurs_at(s, pat, i));
    }
}

/// The leftmost occurrence of `pat` in `v` at or after `from`, if any.
pub fn find_from(v: &Vec<char>, pat: &Vec<char>, from: usize) -> (r: Option<usize>)
    requires
        from <= v.len(),
    ensures
        r is Some ==> occurrence_from(v@.skip(from as int), pat@, 0) == r->0 - from && from
            <= r->0 <= v.len(),
        r is None ==> occurrence_from(v@.skip(from as int), pat@, 0) == -1,
{
    let ghost t = v@.skip(from as int);
    let mut at = from;
    while at < v.len()
        invariant
            from <= at <= v.len(),
            t == v@.skip(from as int),
            forall|j: int| 0 <= j < at - from ==> !#[trigger] occurs_at(t, pat@, j),
        decreases v.len() - at,
    {
        if chars_start_with_at(v, at, pat) {
            proof {
                assert(occurs_at(t, pat@, at - from)) by {
                    assert(t.subrange(at - from, at - from + pat@.len()) =~= v@.subrange(
                        at as int,
                        at + pat@.len(),
                    ));
                }
                lemma_occurrence_is(t, pat@, at - from);
            }
            return Some(at);
        }
        proof {
            if occurs_at(t, pat@, at - from) {
                assert(t.subrange(at - from, at - from + pat@.len()) =~= v@.subrange(
                    at as int,
                    at + pat@.len(),
                ));
            }
        }
        at = at + 1;
    }
    if chars_start_with_at(v, at, pat) {
        proof {
            assert(occurs_at(t, pat@, at - from)) by {
                assert(t.subrange(at - from, at - from + pat@.len()) =~= v@.subrange(
                    at as int,
                    at + pat@.len(),
                ));
            }
            lemma_occurrence_is(t, pat@, at - from);
        }
        return Some(at);
    }
    proof {
        assert forall|j: int| 0 <= j implies !#[trigger] occurs_at(t, pat@, j) by {
            if j < at - from {
            } else if j == at - from {
                if occurs_at(t, pat@, j) {
                    assert(t.subrange(j, j + pat@.len()) =~= v@.subrange(
                        at as int,
                        at + pat@.len(),
                    ));
                }
            } else {
                assert(j > t.len());
            }
        }
        lemma_occurrence_is(t, pat@, -1);
    }
    None
}

/// `s.split(pat).nth(1)`: the text between the first and second occurrence of
/// `pat`, or to the end when there is no second one.
pub open spec fn second_piece(s: Seq<char>, pat: Seq<char>) -> Option<Seq<char>> {
    let i = occurrence_from(s, pat, 0);
    if i < 0 {
        None
    } else {
        let rest = s.skip(i + pat.len());
        let j = occurrence_from(rest, pat, 0);
        if j < 0 {
            Some(rest)
        } else {
            Some(rest.take(j))
        }
    }
}

/// `s.split(pat).nth(1)` on characters; `pat` is not empty.
pub fn second_piece_of(v: &Vec<char>, pat: &Vec<char>) -> (r: Option<Vec<char>>)
    requires
        pat.len() > 0,
    ensures
        r is None <==> second_piece(v@, pat@) is None,
        r is Some ==> r->0@ == second_piece(v@, pat@)->0,
{
    assert(v@.skip(0) =~= v@);
    match find_from(v, pat, 0) {
        None => None,
        Some(i) => {
            proof {
                lemma_occurrence_from(v@, pat@, 0);
            }
            let start = i + pat.len();
            let ghost rest = v@.skip(start as int);
            match find_from(v, pat, start) {
                None => Some(copy_range(v, start, v.len())),
                Some(j) => {
                    let piece = copy_range(v, start, j);
                    assert(piece@ =~= rest.take(j - start));
                    Some(piece)
                },
            }
        },
    }
}

/// The end of the run of non-whitespace characters starting at `from`.
pub open spec fn token_end(s: Seq<char>, from: int) -> int
    decreases s.len() - from,
{
    if from < 0 || from >= s.len() || is_ws(s[from]) {
        from
    } else {
        token_end(s, from + 1)
    }
}

/// `s.split_whitespace().next()`.
pub open spec fn first_token(s: Seq<char>) -> Option<Seq<char>> {
    let t = trim_start(s);
    if t.len() == 0 {
        None
    } else {
        Some(t.take(token_end(t, 0)))
    }
}

pub proof fn lemma_token_end(s: Seq<char>, from: int)
    requires
        0 <= from <= s.len(),
    ensures
        from <= token_end(s, from) <= s.len(),
        forall|j: int| from <= j < token_end(s, from) ==> !is_ws(#[trigger] s[j]),
        token_end(s, from) < s.len() ==> is_ws(s[token_end(s, from)]),
    decreases s.len() - from,
{
    if from < s.len() && !is_ws(s[from]) {
        lemma_token_end(s, from + 1);
    }
}

/// `split_whitespace().next()` on characters.
pub fn first_token_of(v: &Vec<char>) -> (r: Option<Vec<char>>)
    ensures
        r is None <==> first_token(v@) is None,
        r is Some ==> r->0@ == first_token(v@)->0,
{
    let start = skip_ws(v, 0);
    assert(v@.skip(0) =~= v@);
    if start == v.len() {
        return None;
    }
    let ghost t = v@.skip(start as int);
    let mut end = start;
    while end < v.len() && !is_whitespace(v[end])
        invariant
            start <= end <= v.len(),
            t == v@.skip(start as int),
            forall|j: int| start <= j < end ==> !is_ws(#[trigger] v@[j]),
        decreases v.len() - end,
    {
        end = end + 1;
    }
    proof {
        lemma_token_end(t, 0);
        assert forall|j: int| 0 <= j < end - start implies !is_ws(#[trigger] t[j]) by {
            assert(t[j] == v@[start + j]);
        }
        let n = end - start;
        // token_end(t, 0) is the first whitespace position in t.
        lemma_token_end_is(t, 0, n);
    }
    let tok = copy_range(v, start, end);
    assert(tok@ =~= t.take(end - start));
    Some(tok)
}

pub proof fn lemma_token_end_is(s: Seq<char>, from: int, n: int)
    requires
        0 <= from <= n <= s.len(),
        forall|j: int| from <= j < n ==> !is_ws(#[trigger] s[j]),
        n < s.len() ==> is_ws(s[n]),
    ensures
        token_end(s, from) == n,
    decreases s.len() - from,
{
    if from < n {
        lemma_token_end_is(s, from + 1, n);
    }
}

pub open spec fn is_digit(c: char) -> bool {
    '0' <= c && c <= '9'
}

pub open spec fn digit_value(c: char) -> int {
    (c as int) - ('0' as int)
}

pub open spec fn all_digits(d: Seq<char>) -> bool {
    forall|j: int| 0 <= j < d.len() ==> is_digit(#[trigger] d[j])
}

/// The number written by a string of decimal digits.
pub open spec fn digits_value(d: Seq<char>) -> int
    decreases d.len(),
{
    if d.len() == 0 {
        0
    } else {
        10 * digits_value(d.drop_last()) + digit_value(d.last())
    }
}

/// `str::parse::<usize>`: an optional `+`, then one or more decimal digits
/// whose value fits in `usize`.
pub open spec fn parse_usize(t: Seq<char>) -> Option<int> {
    let d = if t.len() > 0 && t[0] == '+' {
        t.skip(1)
    } else {
        t
    };
    if d.len() == 0 || !all_digits(d) {
        None
    } else if digits_value(d) > usize::MAX {
        None
    } else {
        Some(digits_value(d))
    }
}

proof fn lemma_digits_value_grows(d: Seq<char>, k: int)
    requires
        0 <= k <= d.len(),
        forall|j: int| 0 <= j < d.len() ==> is_digit(#[trigger] d[j]),
    ensures
        digits_value(d.take(k)) <= digits_value(d),
        digits_value(d.take(k)) >= 0,
    decreases d.len() - k,
{
    if k == d.len() {
        assert(d.take(k) =~= d);
        lemma_digits_value_nonneg(d);
    } else {
        lemma_digits_value_grows(d, k + 1);
        assert(d.take(k + 1).drop_last() =~= d.take(k));
        lemma_digits_value_nonneg(d.take(k));
    }
}

proof fn lemma_digits_value_nonneg(d: Seq<char>)
    requires
        forall|j: int| 0 <= j < d.len() ==> is_digit(#[trigger] d[j]),
    ensures
        digits_value(d) >= 0,
    decreases d.len(),
{
    if d.len() > 0 {
        lemma_digits_value_nonneg(d.drop_last());
    }
}

/// `str::parse::<usize>` on characters.
pub fn parse_usize_chars(t: &Vec<char>) -> (r: Option<usize>)
    ensures
        r is None <==> parse_usize(t@) is None,
        r is Some ==> r->0 == parse_usize(t@)->0,
{
    let start: usize = if t.len() > 0 && t[0] == '+' {
        1
    } else {
        0
    };
    let ghost d = if t@.len() > 0 && t@[0] == '+' {
        t@.skip(1)
    } else {
        t@
    };
    assert(d =~= t@.skip(start as int));
    if start == t.len() {
        return None;
    }
    let mut value: u128 = 0;
    let mut i = start;
    while i < t.len()
        invariant
            start <= i <= t.len(),
            d == t@.skip(start as int),
            d == (if t@.len() > 0 && t@[0] == '+' {
                t@.skip(1)
            } else {
                t@
            }),
            forall|j: int| 0 <= j < i - start ==> is_digit(#[trigger] d[j]),
            value == digits_value(d.take(i - start)),
            value <= usize::MAX,
        decreases t.len() - i,
    {
        let c = t[i];
        assert(d[i - start] == c);
        if !('0' <= c && c <= '9') {
            assert(!is_digit(d[i - start]));
            assert(!(forall|j: int| 0 <= j < d.len() ==> is_digit(#[trigger] d[j])));
            assert(parse_usize(t@) is None);
            return None;
        }
        let digit = (c as u32 - '0' as u32) as u128;
        assert(d.take(i - start + 1).drop_last() =~= d.take(i - start));
        assert(d.take(i - start + 1).last() == c);
        assert(digit == digit_value(c));
        value = value * 10 + digit;
        i = i + 1;
        assert(value == digits_value(d.take(i - start)));
        if value > usize::MAX as u128 {
            proof {
                if forall|j: int| 0 <= j < d.len() ==> is_digit(#[trigger] d[j]) {
                    lemma_digits_value_grows(d, i - start);
                    assert(digits_value(d) > usize::MAX);
                }
                assert(parse_usize(t@) is None);
            }
            return None;
        }
    }
    assert(d.take(i - start) =~= d);
    Some(value as usize)
}

} // verus!
