//! Laws of the `when` expression syntax: `+` is another spelling of `|`, `*`
//! of `&`, and `~` of `!`.
use vstd::prelude::*;
use crate::text::spec_is_whitespace;
use crate::boolexpr::{
    SpecBool, spec_primary, spec_postfix, spec_not, spec_and_rest, spec_and, spec_xor_rest, spec_xor,
    spec_or_rest, spec_or, spec_parse_bool, skip_ws_from, ident_end, at, byte_offset, utf8_len,
    char_utf8_len, lemma_skip_ws_from, lemma_ident_end, is_operator_char,
};

verus! {

/// `s` with every `a` written as `b`.
pub open spec fn respell(s: Seq<char>, a: char, b: char) -> Seq<char> {
    Seq::new(s.len(), |k: int| if s[k] == a { b } else { s[k] })
}

/// Two spellings of one operator: `+` and `|` (or), `*` and `&` (and), `~`
/// and `!` (not).
pub open spec fn same_operator(a: char, b: char) -> bool {
    ||| a == '+' && b == '|'
    ||| a == '*' && b == '&'
    ||| a == '~' && b == '!'
}

proof fn lemma_pb_ws(s: Seq<char>, a: char, b: char, i: int)
    requires
        same_operator(a, b),
        0 <= i <= s.len(),
    ensures
        skip_ws_from(respell(s, a, b), i) == skip_ws_from(s, i),
    decreases s.len() - i,
{
    let t = respell(s, a, b);
    if i < s.len() {
        assert(spec_is_whitespace(t[i]) == spec_is_whitespace(s[i]));
        if spec_is_whitespace(s[i]) {
            lemma_pb_ws(s, a, b, i + 1);
        }
    }
}

proof fn lemma_pb_ident(s: Seq<char>, a: char, b: char, i: int)
    requires
        same_operator(a, b),
        0 <= i <= s.len(),
    ensures
        ident_end(respell(s, a, b), i) == ident_end(s, i),
        respell(s, a, b).subrange(i, ident_end(s, i)) == s.subrange(i, ident_end(s, i)),
    decreases s.len() - i,
{
    let t = respell(s, a, b);
    lemma_ident_end(s, i);
    if i < s.len() && !spec_is_whitespace(s[i]) && !is_operator_char(s[i]) {
        assert(t[i] == s[i]);
        lemma_pb_ident(s, a, b, i + 1);
        lemma_ident_end(s, i + 1);
        let e = ident_end(s, i);
        assert(e == ident_end(s, i + 1));
        assert(t.subrange(i, e) =~= seq![t[i]] + t.subrange(i + 1, e));
        assert(s.subrange(i, e) =~= seq![s[i]] + s.subrange(i + 1, e));
    } else {
        assert(spec_is_whitespace(t[i]) == spec_is_whitespace(s[i]) || i >= s.len());
        if i < s.len() {
            assert(is_operator_char(t[i]) == is_operator_char(s[i]));
        }
        assert(t.subrange(i, i) =~= s.subrange(i, i));
    }
}

proof fn lemma_pb_len(x: Seq<char>, y: Seq<char>)
    requires
        x.len() == y.len(),
        forall|k: int| 0 <= k < x.len() ==> char_utf8_len(#[trigger] x[k]) == char_utf8_len(y[k]),
    ensures
        utf8_len(x) == utf8_len(y),
    decreases x.len(),
{
    if x.len() > 0 {
        assert(char_utf8_len(x[0]) == char_utf8_len(y[0]));
        let x1 = x.drop_first();
        let y1 = y.drop_first();
        assert forall|k: int| 0 <= k < x1.len() implies char_utf8_len(#[trigger] x1[k]) == char_utf8_len(
            y1[k],
        ) by {
            assert(x1[k] == x[k + 1] && y1[k] == y[k + 1]);
        }
        lemma_pb_len(x1, y1);
    }
}

proof fn lemma_pb_offset(s: Seq<char>, a: char, b: char, i: int)
    requires
        same_operator(a, b),
        0 <= i <= s.len(),
    ensures
        byte_offset(respell(s, a, b), i) == byte_offset(s, i),
{
    let t = respell(s, a, b);
    assert('+' as u32 == 43 && '|' as u32 == 124 && '*' as u32 == 42 && '&' as u32 == 38 && '~' as u32
        == 126 && '!' as u32 == 33);
    assert forall|k: int| 0 <= k < s.take(i).len() implies char_utf8_len(#[trigger] t.take(i)[k])
        == char_utf8_len(s.take(i)[k]) by {
        assert(t.take(i)[k] == t[k]);
    }
    lemma_pb_len(t.take(i), s.take(i));
}

proof fn lemma_pb_primary(s: Seq<char>, a: char, b: char, i: int)
    requires
        same_operator(a, b),
        0 <= i <= s.len(),
    ensures
        spec_primary(respell(s, a, b), i) == spec_primary(s, i),
        spec_primary(s, i) matches Ok((_, j)) ==> i <= j <= s.len(),
    decreases s.len() - i, 0int,
{
    let t = respell(s, a, b);
    lemma_pb_ws(s, a, b, i);
    lemma_skip_ws_from(s, i);
    let k = skip_ws_from(s, i);
    if k < s.len() {
        assert(at(t, k, '(') == at(s, k, '('));
    }
    if at(s, k, '(') {
        lemma_pb_or(s, a, b, k + 1);
        if let Ok((e, j)) = spec_or(s, k + 1) {
            lemma_pb_ws(s, a, b, j);
            lemma_skip_ws_from(s, j);
            let m = skip_ws_from(s, j);
            if m < s.len() {
                assert(at(t, m, ')') == at(s, m, ')'));
            }
            lemma_pb_offset(s, a, b, m);
        }
    } else {
        lemma_pb_ident(s, a, b, k);
        lemma_ident_end(s, k);
        lemma_pb_offset(s, a, b, k);
    }
}

proof fn lemma_pb_postfix(s: Seq<char>, a: char, b: char, i: int, e: SpecBool)
    requires
        same_operator(a, b),
        0 <= i <= s.len(),
    ensures
        spec_postfix(respell(s, a, b), i, e) == spec_postfix(s, i, e),
        spec_postfix(s, i, e) matches Ok((_, j)) ==> i <= j <= s.len(),
    decreases s.len() - i, 1int,
{
    let t = respell(s, a, b);
    lemma_pb_ws(s, a, b, i);
    lemma_skip_ws_from(s, i);
    let k = skip_ws_from(s, i);
    if k < s.len() {
        assert(at(t, k, '\'') == at(s, k, '\''));
    }
    if at(s, k, '\'') {
        lemma_pb_postfix(s, a, b, k + 1, SpecBool::Not(Box::new(e)));
    }
}

proof fn lemma_pb_not(s: Seq<char>, a: char, b: char, i: int)
    requires
        same_operator(a, b),
        0 <= i <= s.len(),
    ensures
        spec_not(respell(s, a, b), i) == spec_not(s, i),
        spec_not(s, i) matches Ok((_, j)) ==> i <= j <= s.len(),
    decreases s.len() - i, 2int,
{
    let t = respell(s, a, b);
    lemma_pb_ws(s, a, b, i);
    lemma_skip_ws_from(s, i);
    let k = skip_ws_from(s, i);
    if k < s.len() {
        assert((at(t, k, '!') || at(t, k, '~')) == (at(s, k, '!') || at(s, k, '~')));
    }
    if at(s, k, '!') || at(s, k, '~') {
        lemma_pb_not(s, a, b, k + 1);
    } else {
        lemma_pb_primary(s, a, b, k);
        if let Ok((e, j)) = spec_primary(s, k) {
            lemma_pb_postfix(s, a, b, j, e);
        }
    }
}

proof fn lemma_pb_and_rest(s: Seq<char>, a: char, b: char, i: int, acc: SpecBool)
    requires
        same_operator(a, b),
        0 <= i <= s.len(),
    ensures
        spec_and_rest(respell(s, a, b), i, acc) == spec_and_rest(s, i, acc),
        spec_and_rest(s, i, acc) matches Ok((_, j)) ==> i <= j <= s.len(),
    decreases s.len() - i, 3int,
{
    let t = respell(s, a, b);
    lemma_pb_ws(s, a, b, i);
    lemma_skip_ws_from(s, i);
    let k = skip_ws_from(s, i);
    if k < s.len() {
        assert((at(t, k, '&') || at(t, k, '*')) == (at(s, k, '&') || at(s, k, '*')));
    }
    if at(s, k, '&') || at(s, k, '*') {
        lemma_pb_not(s, a, b, k + 1);
        if let Ok((r, j)) = spec_not(s, k + 1) {
            if i < j <= s.len() {
                lemma_pb_and_rest(s, a, b, j, SpecBool::And(Box::new(acc), Box::new(r)));
            }
        }
    }
}

proof fn lemma_pb_and(s: Seq<char>, a: char, b: char, i: int)
    requires
        same_operator(a, b),
        0 <= i <= s.len(),
    ensures
        spec_and(respell(s, a, b), i) == spec_and(s, i),
        spec_and(s, i) matches Ok((_, j)) ==> i <= j <= s.len(),
    decreases s.len() - i, 4int,
{
    lemma_pb_not(s, a, b, i);
    if let Ok((e, j)) = spec_not(s, i) {
        lemma_pb_and_rest(s, a, b, j, e);
    }
}

proof fn lemma_pb_xor_rest(s: Seq<char>, a: char, b: char, i: int, acc: SpecBool)
    requires
        same_operator(a, b),
        0 <= i <= s.len(),
    ensures
        spec_xor_rest(respell(s, a, b), i, acc) == spec_xor_rest(s, i, acc),
        spec_xor_rest(s, i, acc) matches Ok((_, j)) ==> i <= j <= s.len(),
    decreases s.len() - i, 5int,
{
    let t = respell(s, a, b);
    lemma_pb_ws(s, a, b, i);
    lemma_skip_ws_from(s, i);
    let k = skip_ws_from(s, i);
    if k < s.len() {
        assert(at(t, k, '^') == at(s, k, '^'));
    }
    if at(s, k, '^') {
        lemma_pb_and(s, a, b, k + 1);
        if let Ok((r, j)) = spec_and(s, k + 1) {
            if i < j <= s.len() {
                lemma_pb_xor_rest(s, a, b, j, SpecBool::Xor(Box::new(acc), Box::new(r)));
            }
        }
    }
}

proof fn lemma_pb_xor(s: Seq<char>, a: char, b: char, i: int)
    requires
        same_operator(a, b),
        0 <= i <= s.len(),
    ensures
        spec_xor(respell(s, a, b), i) == spec_xor(s, i),
        spec_xor(s, i) matches Ok((_, j)) ==> i <= j <= s.len(),
    decreases s.len() - i, 6int,
{
    lemma_pb_and(s, a, b, i);
    if let Ok((e, j)) = spec_and(s, i) {
        lemma_pb_xor_rest(s, a, b, j, e);
    }
}

proof fn lemma_pb_or_rest(s: Seq<char>, a: char, b: char, i: int, acc: SpecBool)
    requires
        same_operator(a, b),
        0 <= i <= s.len(),
    ensures
        spec_or_rest(respell(s, a, b), i, acc) == spec_or_rest(s, i, acc),
        spec_or_rest(s, i, acc) matches Ok((_, j)) ==> i <= j <= s.len(),
    decreases s.len() - i, 7int,
{
    let t = respell(s, a, b);
    lemma_pb_ws(s, a, b, i);
    lemma_skip_ws_from(s, i);
    let k = skip_ws_from(s, i);
    if k < s.len() {
        assert((at(t, k, '|') || at(t, k, '+')) == (at(s, k, '|') || at(s, k, '+')));
    }
    if at(s, k, '|') || at(s, k, '+') {
        lemma_pb_xor(s, a, b, k + 1);
        if let Ok((r, j)) = spec_xor(s, k + 1) {
            if i < j <= s.len() {
                lemma_pb_or_rest(s, a, b, j, SpecBool::Or(Box::new(acc), Box::new(r)));
            }
        }
    }
}

proof fn lemma_pb_or(s: Seq<char>, a: char, b: char, i: int)
    requires
        same_operator(a, b),
        0 <= i <= s.len(),
    ensures
        spec_or(respell(s, a, b), i) == spec_or(s, i),
        spec_or(s, i) matches Ok((_, j)) ==> i <= j <= s.len(),
    decreases s.len() - i, 8int,
{
    lemma_pb_xor(s, a, b, i);
    if let Ok((e, j)) = spec_xor(s, i) {
        lemma_pb_or_rest(s, a, b, j, e);
    }
}

/// In a `when` expression `+` and `|` are two spellings of or, `*` and `&`
/// of and, `~` and `!` of not: writing every `a` of a text as `b` changes
/// neither the expression it parses to nor, where it does not parse, the
/// error.
pub proof fn lemma_operator_spellings_agree(s: Seq<char>, a: char, b: char)
    requires
        same_operator(a, b),
    ensures
        spec_parse_bool(respell(s, a, b)) == spec_parse_bool(s),
{
    lemma_pb_or(s, a, b, 0);
    if let Ok((e, j)) = spec_or(s, 0) {
        lemma_pb_ws(s, a, b, j);
        lemma_skip_ws_from(s, j);
        lemma_pb_offset(s, a, b, skip_ws_from(s, j));
    }
}

} // verus!
