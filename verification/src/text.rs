//! Character-level text helpers: Unicode whitespace, trimming, splitting,
//! joining and decimal rendering, each specified over `Seq<char>`.
use vstd::prelude::*;
use vstd::utf8::*;

verus! {

/// Whether `c` has the Unicode `White_Space` property (what `char::is_whitespace`
/// tests).
pub open spec fn spec_is_whitespace(c: char) -> bool {
    let u = c as u32;
    ||| 0x09 <= u <= 0x0d
    ||| u == 0x20
    ||| u == 0x85
    ||| u == 0xa0
    ||| u == 0x1680
    ||| 0x2000 <= u <= 0x200a
    ||| u == 0x2028
    ||| u == 0x2029
    ||| u == 0x202f
    ||| u == 0x205f
    ||| u == 0x3000
}

/// Executable form of `spec_is_whitespace`.
pub fn is_whitespace(c: char) -> (r: bool)
    ensures
        r == spec_is_whitespace(c),
{
    let u = c as u32;
    (0x09 <= u && u <= 0x0d) || u == 0x20 || u == 0x85 || u == 0xa0 || u == 0x1680 || (0x2000
        <= u && u <= 0x200a) || u == 0x2028 || u == 0x2029 || u == 0x202f || u == 0x205f || u
        == 0x3000
}

/// The text that `String::from_utf8_lossy` makes of `bytes`: every maximal
/// invalid UTF-8 sequence replaced by U+FFFD.
pub uninterp spec fn utf8_lossy(bytes: Seq<u8>) -> Seq<char>;

/// Calls `String::from_utf8_lossy`. Trusted: the result is `utf8_lossy` of the
/// bytes, and (as std documents) valid UTF-8 comes back decoded unchanged.
#[verifier::external_body]
pub(crate) fn lossy_string(bytes: &[u8]) -> (s: String)
    ensures
        s@ == utf8_lossy(bytes@),
        valid_utf8(bytes@) ==> s@ == decode_utf8(bytes@),
{
    String::from_utf8_lossy(bytes).into_owned()
}

/// Calls `String::push`. Trusted: appends exactly `c`.
#[verifier::external_body]
pub(crate) fn push_char(s: &mut String, c: char)
    ensures
        final(s)@ == old(s)@.push(c),
{
    s.push(c);
}

/// Whether two string slices hold the same characters.
pub fn str_eq(a: &str, b: &str) -> (r: bool)
    ensures
        r == (a@ == b@),
{
    let ab = a.as_bytes();
    let bb = b.as_bytes();
    proof {
        broadcast use encode_utf8_decode_utf8;

        assert(decode_utf8(ab@) == a@);
        assert(decode_utf8(bb@) == b@);
    }
    if ab.len() != bb.len() {
        return false;
    }
    let mut i: usize = 0;
    while i < ab.len()
        invariant
            ab@.len() == bb@.len(),
            ab@ == encode_utf8(a@),
            bb@ == encode_utf8(b@),
            i <= ab@.len(),
            forall|k: int| 0 <= k < i ==> ab@[k] == bb@[k],
        decreases ab@.len() - i,
    {
        if ab[i] != bb[i] {
            return false;
        }
        i = i + 1;
    }
    assert(ab@ =~= bb@);
    true
}

/// Whether a `String` holds the same characters as a string slice.
pub fn string_is(a: &String, b: &str) -> (r: bool)
    ensures
        r == (a@ == b@),
{
    str_eq(a.as_str(), b)
}

/// The characters of `s`, in order.
pub fn str_chars(s: &str) -> (v: Vec<char>)
    ensures
        v@ == s@,
{
    let mut v: Vec<char> = Vec::new();
    for c in it: s.chars()
        invariant
            it.seq() == s@,
            v@ == it.seq().take(it.index() as int),
    {
        v.push(c);
        assert(v@ =~= it.seq().take(it.index() + 1));
    }
    assert(v@ =~= s@);
    v
}

/// A `String` holding exactly the characters of `v[from..to]`.
pub fn string_from_chars(v: &[char], from: usize, to: usize) -> (s: String)
    requires
        from <= to <= v@.len(),
    ensures
        s@ == v@.subrange(from as int, to as int),
{
    let mut s = String::new();
    let mut i = from;
    while i < to
        invariant
            from <= i <= to <= v@.len(),
            s@ == v@.subrange(from as int, i as int),
        decreases to - i,
    {
        push_char(&mut s, v[i]);
        assert(s@ =~= v@.subrange(from as int, i + 1));
        i = i + 1;
    }
    s
}

/// `s` with `t` appended.
pub fn append_str(s: &mut String, t: &str)
    ensures
        final(s)@ == old(s)@ + t@,
{
    let tc = str_chars(t);
    let mut i: usize = 0;
    while i < tc.len()
        invariant
            i <= tc@.len(),
            tc@ == t@,
            s@ == old(s)@ + tc@.take(i as int),
        decreases tc@.len() - i,
    {
        push_char(s, tc[i]);
        assert(s@ =~= old(s)@ + tc@.take(i + 1));
        i = i + 1;
    }
    assert(tc@.take(i as int) =~= tc@);
}

/// A new `String` holding the characters of `t`.
pub fn string_of(t: &str) -> (s: String)
    ensures
        s@ == t@,
{
    let mut s = String::new();
    append_str(&mut s, t);
    assert(s@ =~= t@);
    s
}

// ---- trimming ----
/// Number of leading whitespace characters of `s`.
pub open spec fn leading_ws(s: Seq<char>) -> nat
    decreases s.len(),
{
    if s.len() > 0 && spec_is_whitespace(s[0]) {
        1 + leading_ws(s.drop_first())
    } else {
        0
    }
}

/// Number of trailing whitespace characters of `s`.
pub open spec fn trailing_ws(s: Seq<char>) -> nat
    decreases s.len(),
{
    if s.len() > 0 && spec_is_whitespace(s.last()) {
        1 + trailing_ws(s.drop_last())
    } else {
        0
    }
}

/// `s` without leading and trailing whitespace (what `str::trim` gives).
pub open spec fn spec_trim(s: Seq<char>) -> Seq<char> {
    let t = s.skip(leading_ws(s) as int);
    t.take(t.len() - trailing_ws(t))
}

proof fn lemma_leading_ws(s: Seq<char>, i: int)
    requires
        0 <= i <= s.len(),
        forall|k: int| 0 <= k < i ==> spec_is_whitespace(#[trigger] s[k]),
    ensures
        leading_ws(s) == i + leading_ws(s.skip(i)),
    decreases i,
{
    if i > 0 {
        lemma_leading_ws(s.drop_first(), i - 1);
        assert(s.drop_first().skip(i - 1) =~= s.skip(i));
    } else {
        assert(s.skip(0) =~= s);
    }
}

proof fn lemma_trailing_ws(s: Seq<char>, j: int)
    requires
        0 <= j <= s.len(),
        forall|k: int| j <= k < s.len() ==> spec_is_whitespace(#[trigger] s[k]),
    ensures
        trailing_ws(s) == (s.len() - j) + trailing_ws(s.take(j)),
    decreases s.len() - j,
{
    if j < s.len() {
        lemma_trailing_ws(s.drop_last(), j);
        assert(s.drop_last().take(j) =~= s.take(j));
    } else {
        assert(s.take(j) =~= s);
    }
}

/// Bounds `(a, b)` such that `v[a..b]` is `v[from..to]` trimmed.
pub fn trim_bounds(v: &[char], from: usize, to: usize) -> (r: (usize, usize))
    requires
        from <= to <= v@.len(),
    ensures
        from <= r.0 <= r.1 <= to,
        v@.subrange(r.0 as int, r.1 as int) == spec_trim(v@.subrange(from as int, to as int)),
{
    let ghost w = v@.subrange(from as int, to as int);
    let mut a: usize = from;
    while a < to && is_whitespace(v[a])
        invariant
            from <= a <= to <= v@.len(),
            forall|k: int| from <= k < a ==> spec_is_whitespace(#[trigger] v@[k]),
        decreases to - a,
    {
        a = a + 1;
    }
    proof {
        assert forall|k: int| 0 <= k < a - from implies spec_is_whitespace(#[trigger] w[k]) by {
            assert(w[k] == v@[from + k]);
        }
        lemma_leading_ws(w, a - from);
        if a < to {
            assert(w.skip(a - from)[0] == v@[a as int]);
        }
        assert(leading_ws(w.skip(a - from)) == 0);
    }
    let mut b: usize = to;
    while b > a && is_whitespace(v[b - 1])
        invariant
            from <= a <= b <= to <= v@.len(),
            forall|k: int| b <= k < to ==> spec_is_whitespace(#[trigger] v@[k]),
        decreases b,
    {
        b = b - 1;
    }
    proof {
        let t = w.skip(a - from);
        assert forall|k: int| b - a <= k < t.len() implies spec_is_whitespace(#[trigger] t[k]) by {
            assert(t[k] == v@[a + k]);
        }
        lemma_trailing_ws(t, b - a);
        assert(t.take(b - a) =~= v@.subrange(a as int, b as int));
        if b > a {
            assert(t.take(b - a).last() == v@[b - 1]);
            assert(trailing_ws(t.take(b - a)) == 0);
        } else {
            assert(t.take(0).len() == 0);
        }
        assert(t.take(t.len() - trailing_ws(t)) =~= v@.subrange(a as int, b as int));
    }
    (a, b)
}

/// `s` trimmed, as a new `String`.
pub fn trim_string(s: &str) -> (r: String)
    ensures
        r@ == spec_trim(s@),
{
    let v = str_chars(s);
    let (a, b) = trim_bounds(v.as_slice(), 0, v.len());
    proof {
        assert(v@.subrange(0, v@.len() as int) =~= v@);
    }
    string_from_chars(v.as_slice(), a, b)
}

// ---- splitting ----
/// Index of the first `c` in `s`, or `s.len()`.
pub open spec fn first_index_of(s: Seq<char>, c: char) -> nat
    decreases s.len(),
{
    if s.len() == 0 {
        0
    } else if s[0] == c {
        0
    } else {
        1 + first_index_of(s.drop_first(), c)
    }
}

/// The pieces of `s` between occurrences of `sep` (what `str::split(sep)`
/// yields): always at least one piece.
pub open spec fn spec_split(s: Seq<char>, sep: char) -> Seq<Seq<char>>
    decreases s.len(),
{
    let k = first_index_of(s, sep);
    if k >= s.len() {
        seq![s]
    } else {
        seq![s.take(k as int)].add(spec_split(s.skip(k + 1 as int), sep))
    }
}

proof fn lemma_first_index(s: Seq<char>, c: char, i: int)
    requires
        0 <= i <= s.len(),
        forall|k: int| 0 <= k < i ==> #[trigger] s[k] != c,
    ensures
        (i < s.len() && s[i] == c) ==> first_index_of(s, c) == i,
        i == s.len() ==> first_index_of(s, c) == s.len(),
        first_index_of(s, c) >= i,
    decreases i,
{
    if i > 0 {
        lemma_first_index(s.drop_first(), c, i - 1);
    }
}

/// `s` split at every `sep`, each piece trimmed.
pub fn split_trimmed(s: &str, sep: char) -> (r: Vec<String>)
    ensures
        r@.len() == spec_split(s@, sep).len(),
        forall|k: int|
            0 <= k < r@.len() ==> #[trigger] r@[k]@ == spec_trim(spec_split(s@, sep)[k]),
{
    let v = str_chars(s);
    let mut out: Vec<String> = Vec::new();
    let mut cur: usize = 0;
    let mut i: usize = 0;
    let ghost mut pieces: Seq<Seq<char>> = Seq::empty();
    proof {
        assert(v@.skip(0) =~= v@);
    }
    while i < v.len()
        invariant
            v@ == s@,
            cur <= i <= v@.len(),
            forall|k: int| cur <= k < i ==> #[trigger] v@[k] != sep,
            pieces + spec_split(v@.skip(cur as int), sep) == spec_split(v@, sep),
            out@.len() == pieces.len(),
            forall|k: int| 0 <= k < out@.len() ==> #[trigger] out@[k]@ == spec_trim(pieces[k]),
        decreases v@.len() - i,
    {
        if v[i] == sep {
            proof {
                let t = v@.skip(cur as int);
                assert forall|k: int| 0 <= k < i - cur implies #[trigger] t[k] != sep by {
                    assert(t[k] == v@[cur + k]);
                }
                lemma_first_index(t, sep, i - cur);
                assert(t.take(i - cur) =~= v@.subrange(cur as int, i as int));
                assert(t.skip(i - cur + 1) =~= v@.skip(i + 1));
                assert(spec_split(t, sep) == seq![v@.subrange(cur as int, i as int)].add(
                    spec_split(v@.skip(i + 1), sep),
                ));
                assert(pieces.push(v@.subrange(cur as int, i as int)) + spec_split(
                    v@.skip(i + 1),
                    sep,
                ) =~= pieces + spec_split(t, sep));
            }
            let (a, b) = trim_bounds(v.as_slice(), cur, i);
            let piece = string_from_chars(v.as_slice(), a, b);
            proof {
                let sub = v@.subrange(cur as int, i as int);
                pieces = pieces.push(sub);
            }
            out.push(piece);
            cur = i + 1;
        }
        i = i + 1;
    }
    proof {
        let t = v@.skip(cur as int);
        assert forall|k: int| 0 <= k < t.len() implies #[trigger] t[k] != sep by {
            assert(t[k] == v@[cur + k]);
        }
        lemma_first_index(t, sep, t.len() as int);
        assert(spec_split(t, sep) == seq![t]);
        assert(t =~= v@.subrange(cur as int, v@.len() as int));
    }
    let (a, b) = trim_bounds(v.as_slice(), cur, v.len());
    let piece = string_from_chars(v.as_slice(), a, b);
    proof {
        let sub = v@.subrange(cur as int, v@.len() as int);
        assert(pieces.push(sub) =~= pieces + spec_split(v@.skip(cur as int), sep));
        pieces = pieces.push(sub);
    }
    out.push(piece);
    out
}

/// Number of leading non-whitespace characters of `s`.
pub open spec fn word_len(s: Seq<char>) -> nat
    decreases s.len(),
{
    if s.len() == 0 || spec_is_whitespace(s[0]) {
        0
    } else {
        1 + word_len(s.drop_first())
    }
}

pub proof fn lemma_word_len_bound(s: Seq<char>)
    ensures
        word_len(s) <= s.len(),
        s.len() > 0 && !spec_is_whitespace(s[0]) ==> word_len(s) >= 1,
    decreases s.len(),
{
    if s.len() > 0 {
        lemma_word_len_bound(s.drop_first());
    }
}

/// The maximal runs of non-whitespace characters of `s`, in order (what
/// `str::split_whitespace` yields).
pub open spec fn spec_words(s: Seq<char>) -> Seq<Seq<char>>
    decreases s.len(),
{
    if s.len() == 0 {
        Seq::empty()
    } else if spec_is_whitespace(s[0]) {
        spec_words(s.drop_first())
    } else {
        let k = word_len(s);
        proof {
            lemma_word_len_bound(s);
        }
        seq![s.take(k as int)].add(spec_words(s.skip(k as int)))
    }
}

proof fn lemma_word_len(s: Seq<char>, i: int)
    requires
        0 <= i <= s.len(),
        forall|k: int| 0 <= k < i ==> !spec_is_whitespace(#[trigger] s[k]),
        i == s.len() || spec_is_whitespace(s[i]),
    ensures
        word_len(s) == i,
    decreases i,
{
    if i > 0 {
        lemma_word_len(s.drop_first(), i - 1);
    }
}

/// The whitespace-separated words of `s`.
pub fn words(s: &str) -> (r: Vec<String>)
    ensures
        r@.len() == spec_words(s@).len(),
        forall|k: int| 0 <= k < r@.len() ==> #[trigger] r@[k]@ == spec_words(s@)[k],
{
    let v = str_chars(s);
    let mut out: Vec<String> = Vec::new();
    let mut i: usize = 0;
    let ghost mut pieces: Seq<Seq<char>> = Seq::empty();
    proof {
        assert(v@.skip(0) =~= v@);
    }
    while i < v.len()
        invariant
            v@ == s@,
            i <= v@.len(),
            pieces + spec_words(v@.skip(i as int)) == spec_words(v@),
            out@.len() == pieces.len(),
            forall|k: int| 0 <= k < out@.len() ==> #[trigger] out@[k]@ == pieces[k],
        decreases v@.len() - i,
    {
        if is_whitespace(v[i]) {
            proof {
                assert(v@.skip(i as int).drop_first() =~= v@.skip(i + 1));
            }
            i = i + 1;
        } else {
            let start = i;
            while i < v.len() && !is_whitespace(v[i])
                invariant
                    start <= i <= v@.len(),
                    forall|k: int| start <= k < i ==> !spec_is_whitespace(#[trigger] v@[k]),
                decreases v@.len() - i,
            {
                i = i + 1;
            }
            let piece = string_from_chars(v.as_slice(), start, i);
            proof {
                let t = v@.skip(start as int);
                assert forall|k: int| 0 <= k < i - start implies !spec_is_whitespace(
                    #[trigger] t[k],
                ) by {
                    assert(t[k] == v@[start + k]);
                }
                lemma_word_len(t, i - start);
                assert(t.take(i - start) =~= v@.subrange(start as int, i as int));
                assert(t.skip(i - start) =~= v@.skip(i as int));
                assert(pieces.push(v@.subrange(start as int, i as int)) + spec_words(
                    v@.skip(i as int),
                ) =~= pieces + spec_words(t));
                pieces = pieces.push(v@.subrange(start as int, i as int));
            }
            out.push(piece);
        }
    }
    proof {
        assert(spec_words(v@.skip(i as int)) =~= Seq::<Seq<char>>::empty());
        assert(pieces =~= pieces + spec_words(v@.skip(i as int)));
    }
    out
}

// ---- joining ----
/// The pieces separated by `sep` (what `[String]::join(sep)` gives).
pub open spec fn spec_join(parts: Seq<Seq<char>>, sep: Seq<char>) -> Seq<char>
    decreases parts.len(),
{
    if parts.len() == 0 {
        Seq::empty()
    } else if parts.len() == 1 {
        parts[0]
    } else {
        spec_join(parts.drop_last(), sep) + sep + parts.last()
    }
}

/// The views of a vector of strings.
pub open spec fn texts(v: Seq<String>) -> Seq<Seq<char>> {
    v.map_values(|s: String| s@)
}

/// `parts` joined by `sep`.
pub fn join(parts: &Vec<String>, sep: &str) -> (r: String)
    ensures
        r@ == spec_join(texts(parts@), sep@),
{
    let mut r = String::new();
    let mut i: usize = 0;
    while i < parts.len()
        invariant
            i <= parts@.len(),
            r@ == spec_join(texts(parts@).take(i as int), sep@),
        decreases parts@.len() - i,
    {
        proof {
            assert(texts(parts@).take(i + 1).drop_last() =~= texts(parts@).take(i as int));
        }
        if i > 0 {
            append_str(&mut r, sep);
        }
        append_str(&mut r, parts[i].as_str());
        proof {
            if i == 0 {
                assert(r@ =~= texts(parts@).take(1)[0]);
            }
        }
        i = i + 1;
    }
    assert(texts(parts@).take(i as int) =~= texts(parts@));
    r
}

// ---- decimal numbers ----
/// The decimal digit character for `d < 10`.
pub open spec fn digit_char(d: nat) -> char {
    ((48 + d) as u8) as char
}

/// Decimal rendering of `n` (what `{}` formatting of an unsigned integer gives).
pub open spec fn spec_decimal(n: nat) -> Seq<char>
    decreases n,
{
    if n < 10 {
        seq![digit_char(n)]
    } else {
        spec_decimal(n / 10).push(digit_char(n % 10))
    }
}

/// Appends the decimal rendering of `n` to `s`.
pub fn push_decimal(s: &mut String, n: usize)
    ensures
        final(s)@ == old(s)@ + spec_decimal(n as nat),
    decreases n,
{
    if n >= 10 {
        push_decimal(s, n / 10);
    }
    let d = (n % 10) as u8;
    push_char(s, (48u8 + d) as char);
    assert(s@ =~= old(s)@ + spec_decimal(n as nat));
}

/// What `{:?}` formatting makes of a string: the text in double quotes, with
/// quotes, backslashes and special characters escaped.
pub uninterp spec fn debug_quoted(s: Seq<char>) -> Seq<char>;

/// Formats `s` with `{:?}`. Trusted: the result is `debug_quoted` of `s`.
#[verifier::external_body]
pub(crate) fn debug_string(s: &str) -> (r: String)
    ensures
        r@ == debug_quoted(s@),
{
    format!("{:?}", s)
}

} // verus!
