//! Which texts denote floating-point numbers.
use vstd::prelude::*;

use crate::text::{all_digits, is_digit, is_text, lower, to_lower};

verus! {

/// An optional sign is left out.
pub open spec fn unsigned(s: Seq<char>) -> Seq<char> {
    if s.len() > 0 && (s[0] == '+' || s[0] == '-') {
        s.drop_first()
    } else {
        s
    }
}

/// The first place of one of two characters, or the length.
pub open spec fn first_of_two(s: Seq<char>, a: char, b: char) -> int
    decreases s.len(),
{
    if s.len() == 0 {
        0
    } else if s[0] == a || s[0] == b {
        0
    } else {
        1 + first_of_two(s.drop_first(), a, b)
    }
}

/// Digits with at most one point among them, and at least one digit.
pub open spec fn is_mantissa(s: Seq<char>) -> bool {
    let d = first_of_two(s, '.', '.');
    if d >= s.len() {
        s.len() > 0 && all_digits(s)
    } else {
        s.len() >= 2 && all_digits(s.take(d)) && all_digits(s.skip(d + 1))
    }
}

/// Digits after an optional sign.
pub open spec fn is_exponent(s: Seq<char>) -> bool {
    unsigned(s).len() > 0 && all_digits(unsigned(s))
}

/// A mantissa with an optional exponent.
pub open spec fn is_plain_number(s: Seq<char>) -> bool {
    let k = first_of_two(s, 'e', 'E');
    if k >= s.len() {
        is_mantissa(s)
    } else {
        is_mantissa(s.take(k)) && is_exponent(s.skip(k + 1))
    }
}

/// A floating-point number: a sign if any, and infinity, not-a-number, or a plain number.
pub open spec fn is_float(s: Seq<char>) -> bool {
    let u = unsigned(s);
    ||| lower(u) == "inf"@
    ||| lower(u) == "infinity"@
    ||| lower(u) == "nan"@
    ||| is_plain_number(u)
}

proof fn lemma_first_of_two(s: Seq<char>, a: char, b: char)
    ensures
        0 <= first_of_two(s, a, b) <= s.len(),
        first_of_two(s, a, b) < s.len() ==> s[first_of_two(s, a, b)] == a || s[first_of_two(
            s,
            a,
            b,
        )] == b,
        forall|i: int| 0 <= i < first_of_two(s, a, b) ==> s[i] != a && s[i] != b,
    decreases s.len(),
{
    if s.len() > 0 && s[0] != a && s[0] != b {
        let t = s.drop_first();
        lemma_first_of_two(t, a, b);
        assert forall|i: int| 0 <= i < first_of_two(s, a, b) implies s[i] != a && s[i] != b by {
            if i > 0 {
                assert(t[i - 1] == s[i]);
            }
        }
    }
}

fn copy_range(v: &[char], a: usize, b: usize) -> (r: Vec<char>)
    requires
        a <= b <= v@.len(),
    ensures
        r@ == v@.subrange(a as int, b as int),
{
    let mut r: Vec<char> = Vec::new();
    let mut i: usize = a;
    while i < b
        invariant
            a <= i <= b <= v@.len(),
            r@ == v@.subrange(a as int, i as int),
        decreases b - i,
    {
        r.push(v[i]);
        assert(r@ =~= v@.subrange(a as int, i + 1));
        i = i + 1;
    }
    r
}

fn find_of_two(v: &[char], a: char, b: char) -> (r: usize)
    ensures
        r == first_of_two(v@, a, b),
        r <= v@.len(),
{
    let mut i: usize = 0;
    assert(v@.skip(0) =~= v@);
    proof {
        lemma_first_of_two(v@, a, b);
    }
    while i < v.len()
        invariant
            i <= v@.len(),
            i + first_of_two(v@.skip(i as int), a, b) == first_of_two(v@, a, b),
        decreases v@.len() - i,
    {
        if v[i] == a || v[i] == b {
            return i;
        }
        assert(v@.skip(i as int).drop_first() =~= v@.skip(i + 1));
        i = i + 1;
    }
    i
}

fn only_digits(v: &[char]) -> (r: bool)
    ensures
        r == all_digits(v@),
{
    let mut i: usize = 0;
    while i < v.len()
        invariant
            i <= v@.len(),
            forall|j: int| 0 <= j < i ==> is_digit(#[trigger] v@[j]),
        decreases v@.len() - i,
    {
        let c = v[i];
        if !('0' <= c && c <= '9') {
            assert(!is_digit(v@[i as int]));
            return false;
        }
        i = i + 1;
    }
    true
}

fn strip_sign(v: &[char]) -> (r: Vec<char>)
    ensures
        r@ == unsigned(v@),
{
    let from: usize = if v.len() > 0 && (v[0] == '+' || v[0] == '-') {
        1
    } else {
        0
    };
    let r = copy_range(v, from, v.len());
    assert(r@ =~= unsigned(v@));
    r
}

fn mantissa(v: &[char]) -> (r: bool)
    ensures
        r == is_mantissa(v@),
{
    let d = find_of_two(v, '.', '.');
    if d >= v.len() {
        v.len() > 0 && only_digits(v)
    } else {
        let whole = copy_range(v, 0, d);
        let part = copy_range(v, d + 1, v.len());
        assert(whole@ =~= v@.take(d as int));
        assert(part@ =~= v@.skip(d + 1));
        v.len() >= 2 && only_digits(whole.as_slice()) && only_digits(part.as_slice())
    }
}

/// Whether a text denotes a floating-point number.
pub fn float_text(v: &[char]) -> (r: bool)
    ensures
        r == is_float(v@),
{
    let u = strip_sign(v);
    let small = to_lower(u.as_slice());
    if is_text(small.as_slice(), "inf") || is_text(small.as_slice(), "infinity") || is_text(
        small.as_slice(),
        "nan",
    ) {
        return true;
    }
    let k = find_of_two(u.as_slice(), 'e', 'E');
    if k >= u.len() {
        mantissa(u.as_slice())
    } else {
        let m = copy_range(u.as_slice(), 0, k);
        let e = copy_range(u.as_slice(), k + 1, u.len());
        assert(m@ =~= u@.take(k as int));
        assert(e@ =~= u@.skip(k + 1));
        let digits = strip_sign(e.as_slice());
        mantissa(m.as_slice()) && digits.len() > 0 && only_digits(digits.as_slice())
    }
}

} // verus!
