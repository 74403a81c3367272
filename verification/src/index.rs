//! Byte-offset indexing of the top-level `cell` groups of a Liberty file, so
//! that cells can be listed cheaply and parsed one at a time. The scanner
//! respects quoted strings and comments but builds no syntax tree.
use vstd::prelude::*;
use vstd::slice::slice_subrange;
use crate::text::{lossy_string, utf8_lossy, push_char, append_str, spec_trim, trim_string, texts,
    string_is};
use crate::lexer::{spec_ascii_ws, is_ascii_ws};
use crate::data::{Text, group_view_push};
use crate::parser::first_or_empty;

verus! {

/// Bytes that end a bare token in the index scanner.
pub open spec fn spec_is_index_symbol(b: u8) -> bool {
    b == 0x28 || b == 0x29 || b == 0x7b || b == 0x7d || b == 0x3a || b == 0x3b || b == 0x2c
}

pub fn is_index_symbol(b: u8) -> (r: bool)
    ensures
        r == spec_is_index_symbol(b),
{
    b == 0x28 || b == 0x29 || b == 0x7b || b == 0x7d || b == 0x3a || b == 0x3b || b == 0x2c
}

/// Inputs the scanner handles: positions up to two past the end fit a `usize`.
pub open spec fn scannable(d: Seq<u8>) -> bool {
    d.len() + 2 < usize::MAX
}

/// The position after a quoted string's closing quote `q`, scanning from `i`;
/// a backslash skips the byte after it. May be one past the end when the
/// input ends in a backslash.
pub open spec fn quoted_end(d: Seq<u8>, i: int, q: u8) -> int
    decreases d.len() + 1 - i,
{
    if 0 <= i < d.len() {
        if d[i] == 0x5c {
            quoted_end(d, i + 2, q)
        } else if d[i] == q {
            i + 1
        } else {
            quoted_end(d, i + 1, q)
        }
    } else {
        i
    }
}

/// The position after the quoted string that starts at `i`.
pub open spec fn spec_skip_quoted(d: Seq<u8>, i: int) -> int {
    quoted_end(d, i + 1, d[i])
}

/// The first line feed at or after `i`, or the end.
pub open spec fn line_end(d: Seq<u8>, i: int) -> int
    decreases d.len() - i,
{
    if 0 <= i < d.len() && d[i] != 0x0a {
        line_end(d, i + 1)
    } else {
        i
    }
}

/// The first position at or after `i` holding `*/`, or the last byte.
pub open spec fn block_close(d: Seq<u8>, i: int) -> int
    decreases d.len() - i,
{
    if 0 <= i && i + 1 < d.len() && !(d[i] == 0x2a && d[i + 1] == 0x2f) {
        block_close(d, i + 1)
    } else {
        i
    }
}

/// The position after a block comment whose body starts at `i`.
pub open spec fn after_block(d: Seq<u8>, i: int) -> int {
    let j = block_close(d, i) + 2;
    if j < d.len() {
        j
    } else {
        d.len() as int
    }
}

/// The position after whitespace, `\`-newline continuations and `#`, `//`
/// and `/* */` comments from `i`.
pub open spec fn spec_skip_trivia(d: Seq<u8>, i: int) -> int
    decreases d.len() + 2 - i,
{
    if 0 <= i < d.len() && spec_ascii_ws(d[i]) {
        spec_skip_trivia(d, i + 1)
    } else if 0 <= i && i + 1 < d.len() && d[i] == 0x5c && (d[i + 1] == 0x0a || d[i + 1] == 0x0d) {
        spec_skip_trivia(d, i + 2)
    } else if 0 <= i < d.len() && d[i] == 0x23 {
        let j = line_end(d, i);
        if i < j <= d.len() {
            spec_skip_trivia(d, j)
        } else {
            i
        }
    } else if 0 <= i && i + 1 < d.len() && d[i] == 0x2f && d[i + 1] == 0x2f {
        let j = line_end(d, i);
        if i < j <= d.len() {
            spec_skip_trivia(d, j)
        } else {
            i
        }
    } else if 0 <= i && i + 1 < d.len() && d[i] == 0x2f && d[i + 1] == 0x2a {
        let j = after_block(d, i + 2);
        if i < j <= d.len() {
            spec_skip_trivia(d, j)
        } else {
            i
        }
    } else {
        i
    }
}

/// The first position at or after `i` that ends a bare token.
pub open spec fn word_end(d: Seq<u8>, i: int) -> int
    decreases d.len() - i,
{
    if 0 <= i < d.len() && !spec_ascii_ws(d[i]) && !spec_is_index_symbol(d[i]) {
        word_end(d, i + 1)
    } else {
        i
    }
}

/// The token at `i`: the bounds of its text and the position after it. A
/// quoted token's text is what lies between its quotes.
pub open spec fn token_span(d: Seq<u8>, i: int) -> (int, int, int) {
    if 0 <= i < d.len() && (d[i] == 0x22 || d[i] == 0x27) {
        let end = spec_skip_quoted(d, i);
        (i + 1, if end - 1 > i + 1 { end - 1 } else { i + 1 }, end)
    } else {
        (i, word_end(d, i), word_end(d, i))
    }
}

/// The text of the token at `i`.
pub open spec fn token_at(d: Seq<u8>, i: int) -> Text {
    let (a, b, _) = token_span(d, i);
    utf8_lossy(d.subrange(a, b))
}

/// Parenthesized arguments from `i` (after the `(`): trivia is dropped,
/// quoted text is kept without its quotes, and `,` ends an argument. Returns
/// the finished arguments, the text of the last one so far, and the position
/// after the `)` (or where the input ran out).
pub open spec fn paren_loop(d: Seq<u8>, i: int, cur: Seq<char>, args: Seq<Text>) -> (
    Seq<Text>,
    Seq<char>,
    int,
)
    decreases d.len() + 2 - i,
{
    if !(0 <= i < d.len()) {
        (args, cur, i)
    } else {
        let i1 = spec_skip_trivia(d, i);
        if !(i <= i1 < d.len()) {
            (args, cur, i1)
        } else if d[i1] == 0x29 {
            (args, cur, i1 + 1)
        } else if d[i1] == 0x2c {
            paren_loop(d, i1 + 1, Seq::empty(), args.push(spec_trim(cur)))
        } else if d[i1] == 0x22 || d[i1] == 0x27 {
            let end = spec_skip_quoted(d, i1);
            let hi = if end - 1 > i1 + 1 {
                end - 1
            } else {
                i1 + 1
            };
            if i1 < end <= d.len() + 1 {
                paren_loop(d, end, cur + utf8_lossy(d.subrange(i1 + 1, hi)), args)
            } else {
                (args, cur, i1)
            }
        } else {
            paren_loop(d, i1 + 1, cur.push(d[i1] as char), args)
        }
    }
}

/// The arguments of the parenthesized list whose `(` is at `i`, and the
/// position after it.
pub open spec fn spec_paren_args(d: Seq<u8>, i: int) -> (Seq<Text>, int) {
    let (args, cur, j) = paren_loop(d, i + 1, Seq::empty(), Seq::empty());
    let t = spec_trim(cur);
    if t.len() > 0 || args.len() > 0 {
        (args.push(t), j)
    } else {
        (args, j)
    }
}

/// The position after the `}` matching a `{` before `i`, with `depth` groups
/// open; quoted strings and comments are passed over.
pub open spec fn brace_loop(d: Seq<u8>, i: int, depth: nat) -> int
    decreases d.len() + 2 - i,
{
    if !(0 <= i < d.len()) {
        i
    } else {
        let b = d[i];
        if b == 0x22 || b == 0x27 {
            let j = spec_skip_quoted(d, i);
            if i < j <= d.len() + 1 {
                brace_loop(d, j, depth)
            } else {
                i
            }
        } else if b == 0x23 || (b == 0x2f && i + 1 < d.len() && d[i + 1] == 0x2f) {
            let j = line_end(d, i);
            if i < j <= d.len() {
                brace_loop(d, j, depth)
            } else {
                i
            }
        } else if b == 0x2f && i + 1 < d.len() && d[i + 1] == 0x2a {
            let j = after_block(d, i + 2);
            if i < j <= d.len() {
                brace_loop(d, j, depth)
            } else {
                i
            }
        } else if b == 0x7b {
            brace_loop(d, i + 1, depth + 1)
        } else if b == 0x7d {
            if depth <= 1 {
                i + 1
            } else {
                brace_loop(d, i + 1, (depth - 1) as nat)
            }
        } else {
            brace_loop(d, i + 1, depth)
        }
    }
}

/// The position after the group whose `{` is at `i`.
pub open spec fn spec_match_braces(d: Seq<u8>, i: int) -> int {
    brace_loop(d, i, 0)
}

/// The position after the next `;` outside quoted strings, or the end.
pub open spec fn spec_skip_to_semicolon(d: Seq<u8>, i: int) -> int
    decreases d.len() + 2 - i,
{
    if !(0 <= i < d.len()) {
        i
    } else if d[i] == 0x22 || d[i] == 0x27 {
        let j = spec_skip_quoted(d, i);
        if i < j <= d.len() + 1 {
            spec_skip_to_semicolon(d, j)
        } else {
            i
        }
    } else if d[i] == 0x3b {
        i + 1
    } else {
        spec_skip_to_semicolon(d, i + 1)
    }
}

/// The library body scan from `i`: the `cell` groups found, as (name, start,
/// end) with `start` at the `cell` keyword; the start of the first; and the
/// position where the scan stopped. A stray `}` does not stop the scan.
pub open spec fn cells_loop(d: Seq<u8>, i: int, found: Seq<(Text, int, int)>, first: Option<int>) -> (
    Seq<(Text, int, int)>,
    Option<int>,
    int,
)
    decreases d.len() + 2 - i,
{
    if !(0 <= i < d.len()) {
        (found, first, i)
    } else {
        let i1 = spec_skip_trivia(d, i);
        if !(i <= i1 < d.len()) {
            (found, first, i1)
        } else if d[i1] == 0x7d {
            cells_loop(d, i1 + 1, found, first)
        } else {
            let (a, b, j) = token_span(d, i1);
            let name = utf8_lossy(d.subrange(a, b));
            if name.len() == 0 {
                cells_loop(d, i1 + 1, found, first)
            } else {
                let i2 = spec_skip_trivia(d, j);
                let next_and_found: (int, Seq<(Text, int, int)>, Option<int>) = if i2 < d.len()
                    && d[i2] == 0x28 {
                    let (args, k) = spec_paren_args(d, i2);
                    let i3 = spec_skip_trivia(d, k);
                    if i3 < d.len() && d[i3] == 0x7b {
                        let end = spec_match_braces(d, i3);
                        let s = spec_skip_trivia(d, end);
                        let nxt = if s < d.len() && d[s] == 0x3b {
                            s + 1
                        } else {
                            end
                        };
                        if name == "cell"@ {
                            (
                                nxt,
                                found.push((first_or_empty(args), i1, end)),
                                if first is None {
                                    Some(i1)
                                } else {
                                    first
                                },
                            )
                        } else {
                            (nxt, found, first)
                        }
                    } else if i3 < d.len() && d[i3] == 0x3b {
                        (i3 + 1, found, first)
                    } else {
                        (i3, found, first)
                    }
                } else if i2 < d.len() && d[i2] == 0x3a {
                    (spec_skip_to_semicolon(d, i2 + 1), found, first)
                } else {
                    (i2 + 1, found, first)
                };
                let (nxt, f2, first2) = next_and_found;
                if i < nxt <= d.len() + 2 {
                    cells_loop(d, nxt, f2, first2)
                } else {
                    (found, first, i)
                }
            }
        }
    }
}

/// Where the top-level `cell` groups of a file lie.
pub struct SpecCellIndex {
    pub library_name: Text,
    pub preamble_start: int,
    pub preamble_end: int,
    pub cells: Seq<(Text, int, int)>,
}

/// The index of a file: the library name (first argument of the top-level
/// group), where the library body starts, where the first cell starts (or
/// where the scan ended), and every top-level `cell` group.
pub open spec fn spec_index_cells(d: Seq<u8>) -> SpecCellIndex {
    let i0 = spec_skip_trivia(d, 0);
    let (_, _, j) = token_span(d, i0);
    let i1 = spec_skip_trivia(d, j);
    let (lib, i2) = if i1 < d.len() && d[i1] == 0x28 {
        let (args, k) = spec_paren_args(d, i1);
        (first_or_empty(args), spec_skip_trivia(d, k))
    } else {
        (Seq::empty(), i1)
    };
    let body_start = if i2 < d.len() && d[i2] == 0x7b {
        i2 + 1
    } else {
        i2
    };
    let (found, first, end) = cells_loop(d, body_start, Seq::empty(), None);
    SpecCellIndex {
        library_name: lib,
        preamble_start: body_start,
        preamble_end: match first {
            Some(f) => f,
            None => end,
        },
        cells: found,
    }
}

// ---- executable scanner ----

pub fn skip_quoted(d: &[u8], i: usize) -> (r: usize)
    requires
        i < d@.len(),
        scannable(d@),
    ensures
        r as int == spec_skip_quoted(d@, i as int),
        i < r <= d@.len() + 1,
{
    let n = d.len();
    let q = d[i];
    let mut j = i + 1;
    while j < n
        invariant
            n == d@.len(),
            scannable(d@),
            i < j <= n + 1,
            q == d@[i as int],
            quoted_end(d@, j as int, q) == spec_skip_quoted(d@, i as int),
        decreases n + 1 - j,
    {
        if d[j] == 0x5c {
            j = j + 2;
        } else if d[j] == q {
            return j + 1;
        } else {
            j = j + 1;
        }
    }
    j
}

fn find_line_end(d: &[u8], i: usize) -> (r: usize)
    requires
        i <= d@.len(),
    ensures
        r as int == line_end(d@, i as int),
        i <= r <= d@.len(),
        i < d@.len() && d@[i as int] != 0x0a ==> r > i,
{
    let mut j = i;
    while j < d.len() && d[j] != 0x0a
        invariant
            i <= j <= d@.len(),
            line_end(d@, j as int) == line_end(d@, i as int),
        decreases d@.len() - j,
    {
        j = j + 1;
    }
    j
}

/// The position after a block comment whose body starts at `i`.
fn after_block_comment(d: &[u8], i: usize) -> (r: usize)
    requires
        i <= d@.len(),
        scannable(d@),
    ensures
        r as int == after_block(d@, i as int),
        r <= d@.len(),
        r >= i + 2 || r == d@.len(),
{
    let n = d.len();
    let mut j = i;
    while j + 1 < n && !(d[j] == 0x2a && d[j + 1] == 0x2f)
        invariant
            n == d@.len(),
            scannable(d@),
            i <= j <= n,
            block_close(d@, j as int) == block_close(d@, i as int),
        decreases n - j,
    {
        j = j + 1;
    }
    if j + 2 < n {
        j + 2
    } else {
        n
    }
}

/// The position after whitespace, continuations and comments from `i`.
pub fn skip_trivia(d: &[u8], i: usize) -> (r: usize)
    requires
        scannable(d@),
        i <= d@.len() + 2,
    ensures
        r as int == spec_skip_trivia(d@, i as int),
        i <= r,
        r <= d@.len() || r == i,
{
    let n = d.len();
    let mut j = i;
    loop
        invariant
            n == d@.len(),
            scannable(d@),
            i <= j <= n + 2,
            j <= n || j == i,
            spec_skip_trivia(d@, j as int) == spec_skip_trivia(d@, i as int),
        decreases n + 2 - j,
    {
        if j < n && is_ascii_ws(d[j]) {
            j = j + 1;
        } else if j + 1 < n && d[j] == 0x5c && (d[j + 1] == 0x0a || d[j + 1] == 0x0d) {
            j = j + 2;
        } else if j < n && d[j] == 0x23 {
            j = find_line_end(d, j);
        } else if j + 1 < n && d[j] == 0x2f && d[j + 1] == 0x2f {
            j = find_line_end(d, j);
        } else if j + 1 < n && d[j] == 0x2f && d[j + 1] == 0x2a {
            j = after_block_comment(d, j + 2);
        } else {
            return j;
        }
    }
}

fn find_word_end(d: &[u8], i: usize) -> (r: usize)
    requires
        i <= d@.len(),
    ensures
        r as int == word_end(d@, i as int),
        i <= r <= d@.len(),
{
    let mut j = i;
    while j < d.len() && !is_ascii_ws(d[j]) && !is_index_symbol(d[j])
        invariant
            i <= j <= d@.len(),
            word_end(d@, j as int) == word_end(d@, i as int),
        decreases d@.len() - j,
    {
        j = j + 1;
    }
    j
}

/// The token (bare word or quoted string, quotes stripped) at `i`, and the
/// position after it.
pub fn read_token(d: &[u8], i: usize) -> (r: (String, usize))
    requires
        scannable(d@),
        i <= d@.len(),
    ensures
        r.0@ == token_at(d@, i as int),
        r.1 as int == token_span(d@, i as int).2,
        i <= r.1 <= d@.len() + 1,
{
    let n = d.len();
    if i < n && (d[i] == 0x22 || d[i] == 0x27) {
        let end = skip_quoted(d, i);
        let hi = if end - 1 > i + 1 {
            end - 1
        } else {
            i + 1
        };
        let s = lossy_string(slice_subrange(d, i + 1, hi));
        (s, end)
    } else {
        let j = find_word_end(d, i);
        let s = lossy_string(slice_subrange(d, i, j));
        (s, j)
    }
}

/// The arguments of the parenthesized list whose `(` is at `i` (trimmed,
/// quotes stripped), and the position after its `)`.
pub fn read_paren_args(d: &[u8], i: usize) -> (r: (Vec<String>, usize))
    requires
        scannable(d@),
        i < d@.len(),
    ensures
        texts(r.0@) == spec_paren_args(d@, i as int).0,
        r.1 as int == spec_paren_args(d@, i as int).1,
        i < r.1 <= d@.len() + 1,
{
    broadcast use group_view_push;

    let n = d.len();
    let mut j = i + 1;
    let mut args: Vec<String> = Vec::new();
    let mut cur = String::new();
    let ghost target = paren_loop(d@, i + 1, Seq::empty(), Seq::empty());
    proof {
        assert(texts(args@) =~= Seq::<Text>::empty());
    }
    loop
        invariant_except_break
            paren_loop(d@, j as int, cur@, texts(args@)) == target,
        invariant
            n == d@.len(),
            scannable(d@),
            i < j <= n + 1,
        ensures
            target == (texts(args@), cur@, j as int),
        decreases n + 1 - j,
    {
        if j >= n {
            break;
        }
        let j1 = skip_trivia(d, j);
        if j1 >= n {
            j = j1;
            break;
        }
        let b = d[j1];
        if b == 0x29 {
            j = j1 + 1;
            break;
        } else if b == 0x2c {
            let ghost a0 = texts(args@);
            let t = trim_string(cur.as_str());
            args.push(t);
            cur = String::new();
            proof {
                assert(texts(args@) =~= a0.push(t@));
                assert(cur@ =~= Seq::<char>::empty());
            }
            j = j1 + 1;
        } else if b == 0x22 || b == 0x27 {
            let end = skip_quoted(d, j1);
            let hi = if end - 1 > j1 + 1 {
                end - 1
            } else {
                j1 + 1
            };
            let s = lossy_string(slice_subrange(d, j1 + 1, hi));
            append_str(&mut cur, s.as_str());
            j = end;
        } else {
            push_char(&mut cur, b as char);
            j = j1 + 1;
        }
    }
    let t = trim_string(cur.as_str());
    if !t.as_str().is_empty() || args.len() > 0 {
        args.push(t);
    }
    (args, j)
}

/// The position after the group whose `{` is at `i`.
pub fn match_braces(d: &[u8], i: usize) -> (r: usize)
    requires
        scannable(d@),
        i < d@.len(),
        d@[i as int] == 0x7b,
    ensures
        r as int == spec_match_braces(d@, i as int),
        i < r <= d@.len() + 1,
{
    let n = d.len();
    let mut j = i;
    let mut depth: usize = 0;
    while j < n
        invariant
            n == d@.len(),
            scannable(d@),
            i <= j <= n + 1,
            d@[i as int] == 0x7b,
            j > i ==> depth >= 1,
            j == i ==> depth == 0,
            depth <= j,
            brace_loop(d@, j as int, depth as nat) == spec_match_braces(d@, i as int),
        decreases n + 1 - j,
    {
        let b = d[j];
        if b == 0x22 || b == 0x27 {
            j = skip_quoted(d, j);
        } else if b == 0x23 || (b == 0x2f && j + 1 < n && d[j + 1] == 0x2f) {
            j = find_line_end(d, j);
        } else if b == 0x2f && j + 1 < n && d[j + 1] == 0x2a {
            j = after_block_comment(d, j + 2);
        } else if b == 0x7b {
            depth = depth + 1;
            j = j + 1;
        } else if b == 0x7d {
            if depth <= 1 {
                return j + 1;
            }
            depth = depth - 1;
            j = j + 1;
        } else {
            j = j + 1;
        }
    }
    j
}

/// The position after the next `;` outside quoted strings, or the end.
pub fn skip_to_semicolon(d: &[u8], i: usize) -> (r: usize)
    requires
        scannable(d@),
        i <= d@.len(),
    ensures
        r as int == spec_skip_to_semicolon(d@, i as int),
        i <= r <= d@.len() + 1,
        i < d@.len() ==> i < r,
{
    let n = d.len();
    let mut j = i;
    while j < n
        invariant
            n == d@.len(),
            scannable(d@),
            i <= j <= n + 1,
            spec_skip_to_semicolon(d@, j as int) == spec_skip_to_semicolon(d@, i as int),
        decreases n + 1 - j,
    {
        if d[j] == 0x22 || d[j] == 0x27 {
            j = skip_quoted(d, j);
        } else if d[j] == 0x3b {
            return j + 1;
        } else {
            j = j + 1;
        }
    }
    j
}

/// Where the top-level `cell` groups of a file lie, as byte offsets: the
/// library name, the library body before the first cell (the preamble), and
/// each cell as (name, start, end), `start` at its `cell` keyword.
pub struct CellIndex {
    pub library_name: String,
    pub preamble_start: usize,
    pub preamble_end: usize,
    pub cells: Vec<(String, usize, usize)>,
}

/// The views of (name, start, end) entries.
pub open spec fn entry_views(v: Seq<(String, usize, usize)>) -> Seq<(Text, int, int)> {
    Seq::new(v.len(), |k: int| (v[k].0@, v[k].1 as int, v[k].2 as int))
}

impl View for CellIndex {
    type V = SpecCellIndex;

    open spec fn view(&self) -> SpecCellIndex {
        SpecCellIndex {
            library_name: self.library_name@,
            preamble_start: self.preamble_start as int,
            preamble_end: self.preamble_end as int,
            cells: entry_views(self.cells@),
        }
    }
}

pub open spec fn opt_int(o: Option<usize>) -> Option<int> {
    match o {
        Some(v) => Some(v as int),
        None => None,
    }
}

fn first_string(args: &Vec<String>) -> (r: String)
    ensures
        r@ == first_or_empty(texts(args@)),
{
    if args.len() > 0 {
        args[0].clone()
    } else {
        String::new()
    }
}

/// Indexes every top-level `cell` group of a Liberty file's bytes.
pub fn index_cells(d: &[u8]) -> (r: CellIndex)
    requires
        scannable(d@),
    ensures
        r@ == spec_index_cells(d@),
{
    let n = d.len();
    let i0 = skip_trivia(d, 0);
    let (_kw, j) = read_token(d, i0);
    let i1 = skip_trivia(d, j);
    let mut lib = String::new();
    let mut i2 = i1;
    if i1 < n && d[i1] == 0x28 {
        let (args, k) = read_paren_args(d, i1);
        lib = first_string(&args);
        i2 = skip_trivia(d, k);
    }
    let body_start = if i2 < n && d[i2] == 0x7b {
        i2 + 1
    } else {
        i2
    };
    let mut i = body_start;
    let mut found: Vec<(String, usize, usize)> = Vec::new();
    let mut first: Option<usize> = None;
    let ghost target = cells_loop(d@, body_start as int, Seq::empty(), None);
    proof {
        assert(entry_views(found@) =~= Seq::<(Text, int, int)>::empty());
    }
    loop
        invariant_except_break
            cells_loop(d@, i as int, entry_views(found@), opt_int(first)) == target,
        invariant
            n == d@.len(),
            scannable(d@),
            i <= n + 2,
        ensures
            target == (entry_views(found@), opt_int(first), i as int),
        decreases n + 2 - i,
    {
        if i >= n {
            break;
        }
        let t = skip_trivia(d, i);
        if t >= n {
            i = t;
            break;
        }
        if d[t] == 0x7d {
            i = t + 1;
            continue;
        }
        let (name, j) = read_token(d, t);
        if name.as_str().is_empty() {
            i = t + 1;
            continue;
        }
        let p = skip_trivia(d, j);
        let nxt: usize;
        if p < n && d[p] == 0x28 {
            let (args, k) = read_paren_args(d, p);
            let q = skip_trivia(d, k);
            if q < n && d[q] == 0x7b {
                let end = match_braces(d, q);
                let s = skip_trivia(d, end);
                nxt = if s < n && d[s] == 0x3b {
                    s + 1
                } else {
                    end
                };
                if string_is(&name, "cell") {
                    if first.is_none() {
                        first = Some(t);
                    }
                    let ghost f0 = entry_views(found@);
                    let entry = (first_string(&args), t, end);
                    found.push(entry);
                    proof {
                        assert(entry_views(found@) =~= f0.push((entry.0@, t as int, end as int)));
                    }
                }
            } else if q < n && d[q] == 0x3b {
                nxt = q + 1;
            } else {
                nxt = q;
            }
        } else if p < n && d[p] == 0x3a {
            nxt = skip_to_semicolon(d, p + 1);
        } else {
            nxt = p + 1;
        }
        i = nxt;
    }
    let preamble_end = match first {
        Some(f) => f,
        None => i,
    };
    CellIndex { library_name: lib, preamble_start: body_start, preamble_end, cells: found }
}

} // verus!
