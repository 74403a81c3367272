//! Which list items hold a number. Tables keep only the items that read as a
//! floating-point literal in the syntax that Rust's `f64` parsing accepts:
//!
//! ```text
//! Float  ::= Sign? ( 'inf' | 'infinity' | 'nan' | Number )
//! Number ::= ( Digit+ | Digit+ '.' Digit* | Digit* '.' Digit+ ) Exp?
//! Exp    ::= ('e' | 'E') Sign? Digit+
//! ```
//!
//! with `inf`, `infinity` and `nan` matched regardless of case.
use vstd::prelude::*;
use vstd::slice::slice_subrange;
use crate::text::{str_chars, texts};
use crate::data::{Text, group_view_push};

verus! {

pub open spec fn is_digit(c: char) -> bool {
    '0' <= c <= '9'
}

/// The first position at or after `i` that holds no ASCII digit.
pub open spec fn digits_end(s: Seq<char>, i: int) -> int
    decreases s.len() - i,
{
    if 0 <= i < s.len() && is_digit(s[i]) {
        digits_end(s, i + 1)
    } else {
        i
    }
}

/// Whether `s` from `i` is empty or an exponent: `e` or `E`, an optional
/// sign, and at least one digit, up to the end.
pub open spec fn exponent_ok(s: Seq<char>, i: int) -> bool {
    ||| i == s.len()
    ||| {
        &&& 0 <= i < s.len()
        &&& (s[i] == 'e' || s[i] == 'E')
        &&& {
            let j = if i + 1 < s.len() && (s[i + 1] == '+' || s[i + 1] == '-') {
                i + 2
            } else {
                i + 1
            };
            let k = digits_end(s, j);
            k > j && k == s.len()
        }
    }
}

/// Whether `s` is an unsigned decimal number: digits, an optional `.` and
/// digits, at least one digit in all, then an optional exponent.
pub open spec fn is_decimal(s: Seq<char>) -> bool {
    let a = digits_end(s, 0);
    if a < s.len() && s[a] == '.' {
        let c = digits_end(s, a + 1);
        (a > 0 || c > a + 1) && exponent_ok(s, c)
    } else {
        a > 0 && exponent_ok(s, a)
    }
}

/// `c` is the lower-case ASCII letter `w`, in either case.
pub open spec fn same_letter(c: char, w: char) -> bool {
    c == w || ('A' <= c <= 'Z' && c as u32 + 32 == w as u32)
}

/// `s` spells the lower-case `word`, ignoring ASCII case.
pub open spec fn eq_ignore_case(s: Seq<char>, word: Seq<char>) -> bool {
    s.len() == word.len() && forall|i: int| 0 <= i < s.len() ==> same_letter(s[i], word[i])
}

/// `s` without a leading `+` or `-`.
pub open spec fn unsigned_part(s: Seq<char>) -> Seq<char> {
    if s.len() > 0 && (s[0] == '+' || s[0] == '-') {
        s.subrange(1, s.len() as int)
    } else {
        s
    }
}

/// Whether `s` is a floating-point literal.
pub open spec fn is_float_text(s: Seq<char>) -> bool {
    let b = unsigned_part(s);
    eq_ignore_case(b, "inf"@) || eq_ignore_case(b, "infinity"@) || eq_ignore_case(b, "nan"@)
        || is_decimal(b)
}

fn find_digits_end(s: &[char], i: usize) -> (r: usize)
    requires
        i <= s@.len(),
    ensures
        r as int == digits_end(s@, i as int),
        i <= r <= s@.len(),
{
    let mut j = i;
    while j < s.len() && '0' <= s[j] && s[j] <= '9'
        invariant
            i <= j <= s@.len(),
            digits_end(s@, j as int) == digits_end(s@, i as int),
        decreases s@.len() - j,
    {
        j = j + 1;
    }
    j
}

fn check_exponent(s: &[char], i: usize) -> (r: bool)
    requires
        i <= s@.len(),
    ensures
        r == exponent_ok(s@, i as int),
{
    let n = s.len();
    if i == n {
        return true;
    }
    if !(s[i] == 'e' || s[i] == 'E') {
        return false;
    }
    let j = if i + 1 < n && (s[i + 1] == '+' || s[i + 1] == '-') {
        i + 2
    } else {
        i + 1
    };
    let k = find_digits_end(s, j);
    k > j && k == n
}

fn check_decimal(s: &[char]) -> (r: bool)
    ensures
        r == is_decimal(s@),
{
    let a = find_digits_end(s, 0);
    if a < s.len() && s[a] == '.' {
        let c = find_digits_end(s, a + 1);
        (a > 0 || c > a + 1) && check_exponent(s, c)
    } else {
        a > 0 && check_exponent(s, a)
    }
}

fn check_word(s: &[char], word: &str) -> (r: bool)
    ensures
        r == eq_ignore_case(s@, word@),
{
    let w = str_chars(word);
    if s.len() != w.len() {
        return false;
    }
    let mut i: usize = 0;
    while i < s.len()
        invariant
            s@.len() == w@.len(),
            w@ == word@,
            i <= s@.len(),
            forall|m: int| 0 <= m < i ==> same_letter(s@[m], w@[m]),
        decreases s@.len() - i,
    {
        let c = s[i];
        let l = w[i];
        if !(c == l || ('A' <= c && c <= 'Z' && (c as u32) + 32 == (l as u32))) {
            assert(!same_letter(s@[i as int], word@[i as int]));
            return false;
        }
        i = i + 1;
    }
    true
}

/// Whether `t` is a floating-point literal.
pub fn is_float(t: &str) -> (r: bool)
    ensures
        r == is_float_text(t@),
{
    let v = str_chars(t);
    let n = v.len();
    let b = if n > 0 && (v[0] == '+' || v[0] == '-') {
        slice_subrange(v.as_slice(), 1, n)
    } else {
        slice_subrange(v.as_slice(), 0, n)
    };
    proof {
        assert(v@.subrange(0, n as int) =~= v@);
        assert(b@ == unsigned_part(t@));
    }
    check_word(b, "inf") || check_word(b, "infinity") || check_word(b, "nan") || check_decimal(b)
}

/// The items of `s` that are floating-point literals, in order.
pub open spec fn numbers_only(s: Seq<Text>) -> Seq<Text>
    decreases s.len(),
{
    if s.len() == 0 {
        s
    } else {
        let p = numbers_only(s.drop_last());
        if is_float_text(s.last()) {
            p.push(s.last())
        } else {
            p
        }
    }
}

/// Keeps the items of `v` that are floating-point literals.
pub fn keep_numbers(v: Vec<String>) -> (r: Vec<String>)
    ensures
        texts(r@) == numbers_only(texts(v@)),
{
    broadcast use group_view_push;

    let mut out: Vec<String> = Vec::new();
    let mut i: usize = 0;
    assert(texts(v@).take(0) =~= Seq::<Text>::empty());
    assert(texts(out@) =~= Seq::<Text>::empty());
    while i < v.len()
        invariant
            i <= v@.len(),
            texts(out@) == numbers_only(texts(v@).take(i as int)),
        decreases v@.len() - i,
    {
        proof {
            let t = texts(v@).take(i + 1);
            assert(t.drop_last() =~= texts(v@).take(i as int));
            assert(t.last() == v@[i as int]@);
        }
        if is_float(v[i].as_str()) {
            out.push(v[i].clone());
        }
        i = i + 1;
    }
    assert(texts(v@).take(v@.len() as int) =~= texts(v@));
    out
}

} // verus!
