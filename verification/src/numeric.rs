//! Recognition of the strings that the standard library's decimal number
//! parser (`str::parse` into a binary floating-point type) accepts.
//!
//! The accepted language is documented as the grammar, read after ASCII
//! lower-casing:
//!
//! ```text
//! Number   ::= Sign? ( 'inf' | 'infinity' | 'nan' | Decimal )
//! Decimal  ::= ( Digit+ | Digit+ '.' Digit* | Digit* '.' Digit+ ) Exp?
//! Exp      ::= 'e' Sign? Digit+
//! Sign     ::= [+-]
//! Digit    ::= [0-9]
//! ```
//!
//! Leading or trailing whitespace is an error.

use vstd::prelude::*;
use crate::text::{char_from_ascii, is_ascii_digit, to_chars};

verus! {

/// ASCII lower-casing of one character.
pub open spec fn ascii_lower(c: char) -> char {
    if 'A' <= c && c <= 'Z' {
        ((c as u32) + 32) as char
    } else {
        c
    }
}

/// `s` equals the lower-case ASCII word `word` up to ASCII case.
pub open spec fn eq_ignore_ascii_case(s: Seq<char>, word: Seq<char>) -> bool {
    s.len() == word.len() && forall|i: int| 0 <= i < s.len() ==> ascii_lower(#[trigger] s[i]) == word[i]
}

pub open spec fn all_digits(s: Seq<char>) -> bool {
    forall|i: int| 0 <= i < s.len() ==> is_ascii_digit(#[trigger] s[i])
}

pub open spec fn is_sign(c: char) -> bool {
    c == '+' || c == '-'
}

/// `s` without one leading sign character.
pub open spec fn strip_sign(s: Seq<char>) -> Seq<char> {
    if s.len() > 0 && is_sign(s[0]) {
        s.drop_first()
    } else {
        s
    }
}

/// Index of the first exponent marker (`e` or `E`) at or after `i`, or `s.len()`.
pub open spec fn exp_index_from(s: Seq<char>, i: int) -> int
    decreases s.len() - i,
{
    if i < 0 || i >= s.len() {
        s.len() as int
    } else if s[i] == 'e' || s[i] == 'E' {
        i
    } else {
        exp_index_from(s, i + 1)
    }
}

/// Index of the first `.` at or after `i`, or `s.len()`.
pub open spec fn dot_index_from(s: Seq<char>, i: int) -> int
    decreases s.len() - i,
{
    if i < 0 || i >= s.len() {
        s.len() as int
    } else if s[i] == '.' {
        i
    } else {
        dot_index_from(s, i + 1)
    }
}

/// `Digit+ | Digit+ '.' Digit* | Digit* '.' Digit+`
pub open spec fn mantissa_syntax(m: Seq<char>) -> bool {
    let d = dot_index_from(m, 0);
    if d == m.len() {
        m.len() > 0 && all_digits(m)
    } else {
        all_digits(m.take(d)) && all_digits(m.skip(d + 1)) && m.len() >= 2
    }
}

/// `Sign? Digit+` (what follows the exponent marker).
pub open spec fn exponent_syntax(x: Seq<char>) -> bool {
    let y = strip_sign(x);
    y.len() > 0 && all_digits(y)
}

/// `Decimal` of the grammar.
pub open spec fn decimal_syntax(b: Seq<char>) -> bool {
    let e = exp_index_from(b, 0);
    mantissa_syntax(b.take(e)) && (e == b.len() || exponent_syntax(b.skip(e + 1)))
}

/// `s` is accepted by the standard library's decimal floating-point parser.
pub open spec fn number_syntax(s: Seq<char>) -> bool {
    let b = strip_sign(s);
    ||| eq_ignore_ascii_case(b, "inf"@)
    ||| eq_ignore_ascii_case(b, "infinity"@)
    ||| eq_ignore_ascii_case(b, "nan"@)
    ||| decimal_syntax(b)
}

proof fn lemma_exp_index(s: Seq<char>, i: int)
    requires
        0 <= i <= s.len(),
    ensures
        i <= exp_index_from(s, i) <= s.len(),
        exp_index_from(s, i) < s.len() ==> (s[exp_index_from(s, i)] == 'e' || s[exp_index_from(
            s,
            i,
        )] == 'E'),
        forall|k: int| i <= k < exp_index_from(s, i) ==> #[trigger] s[k] != 'e' && s[k] != 'E',
    decreases s.len() - i,
{
    if i < s.len() && !(s[i] == 'e' || s[i] == 'E') {
        lemma_exp_index(s, i + 1);
    }
}

proof fn lemma_dot_index(s: Seq<char>, i: int)
    requires
        0 <= i <= s.len(),
    ensures
        i <= dot_index_from(s, i) <= s.len(),
        dot_index_from(s, i) < s.len() ==> s[dot_index_from(s, i)] == '.',
        forall|k: int| i <= k < dot_index_from(s, i) ==> #[trigger] s[k] != '.',
    decreases s.len() - i,
{
    if i < s.len() && s[i] != '.' {
        lemma_dot_index(s, i + 1);
    }
}

fn ascii_lower_exec(c: char) -> (r: char)
    ensures
        r == ascii_lower(c),
{
    if 'A' <= c && c <= 'Z' {
        let u: u32 = (c as u32) + 32;
        char_from_ascii(u)
    } else {
        c
    }
}

/// Whether `v[lo..hi]` equals `word` up to ASCII case.
fn range_eq_ignore_case(v: &Vec<char>, lo: usize, hi: usize, word: &str) -> (r: bool)
    requires
        lo <= hi <= v.len(),
    ensures
        r == eq_ignore_ascii_case(v@.subrange(lo as int, hi as int), word@),
{
    let w = to_chars(word);
    if hi - lo != w.len() {
        return false;
    }
    let mut k: usize = 0;
    while k < w.len()
        invariant
            lo <= hi <= v.len(),
            hi - lo == w.len(),
            w@ == word@,
            k <= w.len(),
            forall|j: int| 0 <= j < k ==> ascii_lower(v@[lo + j]) == w@[j],
        decreases w.len() - k,
    {
        if ascii_lower_exec(v[lo + k]) != w[k] {
            assert(ascii_lower(v@.subrange(lo as int, hi as int)[k as int]) != word@[k as int]);
            return false;
        }
        k = k + 1;
    }
    true
}

/// Whether every character of `v[lo..hi]` is an ASCII digit.
fn range_all_digits(v: &Vec<char>, lo: usize, hi: usize) -> (r: bool)
    requires
        lo <= hi <= v.len(),
    ensures
        r == all_digits(v@.subrange(lo as int, hi as int)),
{
    let mut k = lo;
    while k < hi
        invariant
            lo <= k <= hi <= v.len(),
            forall|j: int| lo <= j < k ==> is_ascii_digit(v@[j]),
        decreases hi - k,
    {
        if !('0' <= v[k] && v[k] <= '9') {
            assert(!is_ascii_digit(v@.subrange(lo as int, hi as int)[k - lo]));
            return false;
        }
        k = k + 1;
    }
    assert forall|i: int| 0 <= i < hi - lo implies is_ascii_digit(
        #[trigger] v@.subrange(lo as int, hi as int)[i],
    ) by {
        assert(v@.subrange(lo as int, hi as int)[i] == v@[lo + i]);
    }
    true
}

fn mantissa_exec(v: &Vec<char>, lo: usize, hi: usize) -> (r: bool)
    requires
        lo <= hi <= v.len(),
    ensures
        r == mantissa_syntax(v@.subrange(lo as int, hi as int)),
{
    let ghost m = v@.subrange(lo as int, hi as int);
    let mut d = lo;
    while d < hi && v[d] != '.'
        invariant
            lo <= d <= hi <= v.len(),
            m == v@.subrange(lo as int, hi as int),
            dot_index_from(m, (d - lo) as int) == dot_index_from(m, 0),
        decreases hi - d,
    {
        assert(m[d - lo] == v@[d as int]);
        d = d + 1;
    }
    proof {
        if d < hi {
            assert(m[d - lo] == v@[d as int]);
        }
    }
    if d == hi {
        assert(m.take(d - lo) == m);
        hi > lo && range_all_digits(v, lo, hi)
    } else {
        assert(m.take(d - lo) == v@.subrange(lo as int, d as int));
        assert(m.skip(d - lo + 1) == v@.subrange(d + 1, hi as int));
        range_all_digits(v, lo, d) && range_all_digits(v, d + 1, hi) && hi - lo >= 2
    }
}

fn exponent_exec(v: &Vec<char>, lo: usize, hi: usize) -> (r: bool)
    requires
        lo <= hi <= v.len(),
    ensures
        r == exponent_syntax(v@.subrange(lo as int, hi as int)),
{
    let ghost x = v@.subrange(lo as int, hi as int);
    let start = if lo < hi && (v[lo] == '+' || v[lo] == '-') {
        assert(x[0] == v@[lo as int]);
        assert(x.drop_first() == v@.subrange(lo + 1, hi as int));
        lo + 1
    } else {
        lo
    };
    start < hi && range_all_digits(v, start, hi)
}

fn decimal_exec(v: &Vec<char>, lo: usize, hi: usize) -> (r: bool)
    requires
        lo <= hi <= v.len(),
    ensures
        r == decimal_syntax(v@.subrange(lo as int, hi as int)),
{
    let ghost b = v@.subrange(lo as int, hi as int);
    let mut e = lo;
    while e < hi && v[e] != 'e' && v[e] != 'E'
        invariant
            lo <= e <= hi <= v.len(),
            b == v@.subrange(lo as int, hi as int),
            exp_index_from(b, (e - lo) as int) == exp_index_from(b, 0),
        decreases hi - e,
    {
        assert(b[e - lo] == v@[e as int]);
        e = e + 1;
    }
    proof {
        if e < hi {
            assert(b[e - lo] == v@[e as int]);
        }
    }
    assert(b.take(e - lo) == v@.subrange(lo as int, e as int));
    if !mantissa_exec(v, lo, e) {
        return false;
    }
    if e == hi {
        true
    } else {
        assert(b.skip(e - lo + 1) == v@.subrange(e + 1, hi as int));
        exponent_exec(v, e + 1, hi)
    }
}

/// Whether the standard library's decimal floating-point parser accepts `v`.
pub fn is_number_syntax(v: &Vec<char>) -> (r: bool)
    ensures
        r == number_syntax(v@),
{
    let n = v.len();
    let lo: usize = if n > 0 && (v[0] == '+' || v[0] == '-') {
        1
    } else {
        0
    };
    assert(strip_sign(v@) == v@.subrange(lo as int, n as int));
    range_eq_ignore_case(v, lo, n, "inf") || range_eq_ignore_case(v, lo, n, "infinity")
        || range_eq_ignore_case(v, lo, n, "nan") || decimal_exec(v, lo, n)
}

} // verus!
