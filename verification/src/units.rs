//! Unit strings such as `1mA`, `1ps` or `1V`: the number in front and the SI
//! prefix of the unit after it. A unit of one letter (`V`, `A`, `s`) has no
//! prefix; in a longer unit the first letter is the prefix, when it is one.
use vstd::prelude::*;
use crate::text::{spec_trim, trim_string, str_chars, string_from_chars};

verus! {

/// An SI prefix: the power of ten that a unit carries.
#[derive(Clone, Copy, Debug, PartialEq, Eq, Structural)]
pub enum SiPrefix {
    Femto,
    Pico,
    Nano,
    Micro,
    Milli,
    Kilo,
    Mega,
    Giga,
    One,
}

/// The parts of a unit string: the number text before the unit, and the
/// unit's prefix.
pub struct UnitParts {
    pub number: String,
    pub prefix: SiPrefix,
}

pub open spec fn is_ascii_alpha(c: char) -> bool {
    ('a' <= c <= 'z') || ('A' <= c <= 'Z')
}

/// The first position at or after `i` holding an ASCII letter, or the end.
pub open spec fn first_alpha(s: Seq<char>, i: int) -> int
    decreases s.len() - i,
{
    if 0 <= i < s.len() && !is_ascii_alpha(s[i]) {
        first_alpha(s, i + 1)
    } else {
        i
    }
}

/// The prefix that the letter `c` names at the head of a longer unit.
pub open spec fn prefix_of(c: char) -> SiPrefix {
    if c == 'f' {
        SiPrefix::Femto
    } else if c == 'p' {
        SiPrefix::Pico
    } else if c == 'n' {
        SiPrefix::Nano
    } else if c == 'u' {
        SiPrefix::Micro
    } else if c == 'm' {
        SiPrefix::Milli
    } else if c == 'k' {
        SiPrefix::Kilo
    } else if c == 'M' {
        SiPrefix::Mega
    } else if c == 'G' {
        SiPrefix::Giga
    } else {
        SiPrefix::One
    }
}

/// The parts of the unit string `v`, trimmed: `None` when it holds no ASCII
/// letter; else the trimmed text before the first letter, and the prefix of
/// the unit that starts there. The unit starts with an ASCII letter, so it
/// has at least two characters exactly when it has at least two bytes.
pub open spec fn spec_unit_parts(v: Seq<char>) -> Option<(Seq<char>, SiPrefix)> {
    let t = spec_trim(v);
    let k = first_alpha(t, 0);
    if k >= t.len() {
        None
    } else {
        let unit = t.subrange(k, t.len() as int);
        Some(
            (
                spec_trim(t.subrange(0, k)),
                if unit.len() >= 2 {
                    prefix_of(unit[0])
                } else {
                    SiPrefix::One
                },
            ),
        )
    }
}

fn prefix_exec(c: char) -> (r: SiPrefix)
    ensures
        r == prefix_of(c),
{
    if c == 'f' {
        SiPrefix::Femto
    } else if c == 'p' {
        SiPrefix::Pico
    } else if c == 'n' {
        SiPrefix::Nano
    } else if c == 'u' {
        SiPrefix::Micro
    } else if c == 'm' {
        SiPrefix::Milli
    } else if c == 'k' {
        SiPrefix::Kilo
    } else if c == 'M' {
        SiPrefix::Mega
    } else if c == 'G' {
        SiPrefix::Giga
    } else {
        SiPrefix::One
    }
}

/// Splits a unit string into its number text and its unit's prefix.
pub fn unit_parts(value: &str) -> (r: Option<UnitParts>)
    ensures
        match spec_unit_parts(value@) {
            None => r is None,
            Some((n, p)) => r is Some && r->0.number@ == n && r->0.prefix == p,
        },
{
    let t = trim_string(value);
    let c = str_chars(t.as_str());
    let n = c.len();
    let mut k: usize = 0;
    while k < n && !(('a' <= c[k] && c[k] <= 'z') || ('A' <= c[k] && c[k] <= 'Z'))
        invariant
            n == c@.len(),
            c@ == spec_trim(value@),
            k <= n,
            first_alpha(c@, k as int) == first_alpha(c@, 0),
        decreases n - k,
    {
        k = k + 1;
    }
    if k >= n {
        return None;
    }
    let head = string_from_chars(c.as_slice(), 0, k);
    let number = trim_string(head.as_str());
    let prefix = if n - k >= 2 {
        prefix_exec(c[k])
    } else {
        SiPrefix::One
    };
    Some(UnitParts { number, prefix })
}

} // verus!
