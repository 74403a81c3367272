//! Where the index scanner's positions can fall: every scan stays within the
//! data, except that a backslash as the very last byte, inside a quoted
//! string, lets a scan end one past the end.
use vstd::prelude::*;
use crate::data::Text;
use crate::lexer::spec_ascii_ws;
use crate::index::{
    quoted_end, spec_skip_quoted, line_end, block_close, after_block, spec_skip_trivia, word_end,
    token_span, token_at, paren_loop, spec_paren_args, brace_loop, spec_match_braces,
    spec_skip_to_semicolon, cells_loop, spec_index_cells, spec_is_index_symbol,
};

verus! {

/// The data does not end in a backslash.
pub open spec fn ends_clean(d: Seq<u8>) -> bool {
    d.len() == 0 || d.last() != 0x5c
}

proof fn lemma_quoted_end(d: Seq<u8>, i: int, q: u8)
    requires
        0 <= i <= d.len() + 1,
    ensures
        i <= quoted_end(d, i, q) <= d.len() + 1,
        ends_clean(d) && i <= d.len() ==> quoted_end(d, i, q) <= d.len(),
        quoted_end(d, i, q) == d.len() + 1 ==> !ends_clean(d) || i == d.len() + 1,
        quoted_end(d, i, q) < d.len() ==> i < quoted_end(d, i, q) && d[quoted_end(d, i, q) - 1] == q,
    decreases d.len() + 1 - i,
{
    if 0 <= i < d.len() {
        if d[i] == 0x5c {
            if i + 2 <= d.len() + 1 {
                lemma_quoted_end(d, i + 2, q);
            }
        } else if d[i] != q {
            lemma_quoted_end(d, i + 1, q);
        }
    }
}

/// Skipping a quoted string that starts at `i` ends just past the first
/// quote of the same kind that no backslash escapes, or at the end of the
/// data; only a backslash as the last byte can carry it one past the end.
pub proof fn lemma_skip_quoted_range(d: Seq<u8>, i: int)
    requires
        0 <= i < d.len(),
    ensures
        i < spec_skip_quoted(d, i) <= d.len() + 1,
        spec_skip_quoted(d, i) == d.len() + 1 ==> !ends_clean(d),
        spec_skip_quoted(d, i) < d.len() ==> d[spec_skip_quoted(d, i) - 1] == d[i],
{
    lemma_quoted_end(d, i + 1, d[i]);
}

/// How many backslashes stand right before position `j`, counting no further
/// back than `s`.
pub open spec fn backslashes_before(d: Seq<u8>, s: int, j: int) -> nat
    decreases j - s,
{
    if s < j && j - 1 < d.len() && d[j - 1] == 0x5c {
        1 + backslashes_before(d, s, j - 1)
    } else {
        0
    }
}

/// The byte at `j` of a string whose text starts at `s` is not escaped: an
/// even number of backslashes stands right before it.
pub open spec fn unescaped(d: Seq<u8>, s: int, j: int) -> bool {
    backslashes_before(d, s, j) % 2 == 0
}

/// `q` is not found unescaped in `d[s..e]`.
pub open spec fn no_open_quote(d: Seq<u8>, s: int, e: int, q: u8) -> bool {
    forall|j: int| s <= j < e && j < d.len() ==> !(#[trigger] d[j] == q && unescaped(d, s, j))
}

proof fn lemma_quoted_end_first(d: Seq<u8>, s: int, i: int, q: u8)
    requires
        0 <= s <= i <= d.len() + 1,
        q != 0x5c,
        i <= d.len() ==> unescaped(d, s, i),
        no_open_quote(d, s, i, q),
    ensures
        ({
            let r = quoted_end(d, i, q);
            &&& no_open_quote(d, s, r - 1, q)
            &&& r <= d.len() && s < r ==> r == d.len() || (d[r - 1] == q && unescaped(d, s, r - 1))
        }),
    decreases d.len() + 1 - i,
{
    if 0 <= i < d.len() {
        if d[i] == 0x5c {
            assert(backslashes_before(d, s, i + 1) == 1 + backslashes_before(d, s, i));
            if i + 2 <= d.len() {
                if d[i + 1] == 0x5c {
                    assert(backslashes_before(d, s, i + 2) == 1 + backslashes_before(d, s, i + 1));
                } else {
                    assert(backslashes_before(d, s, i + 2) == 0);
                }
            }
            assert(no_open_quote(d, s, i + 2, q)) by {
                assert forall|j: int| s <= j < i + 2 && j < d.len() implies !(#[trigger] d[j] == q
                    && unescaped(d, s, j)) by {
                    if j < i {
                        assert(!(d[j] == q && unescaped(d, s, j)));
                    }
                }
            }
            lemma_quoted_end_first(d, s, i + 2, q);
        } else if d[i] == q {
        } else {
            assert(backslashes_before(d, s, i + 1) == 0);
            assert(no_open_quote(d, s, i + 1, q)) by {
                assert forall|j: int| s <= j < i + 1 && j < d.len() implies !(#[trigger] d[j] == q
                    && unescaped(d, s, j)) by {
                    if j < i {
                        assert(!(d[j] == q && unescaped(d, s, j)));
                    }
                }
            }
            lemma_quoted_end_first(d, s, i + 1, q);
        }
    } else {
        assert(no_open_quote(d, s, i - 1, q)) by {
            assert forall|j: int| s <= j < i - 1 && j < d.len() implies !(#[trigger] d[j] == q
                && unescaped(d, s, j)) by {
                assert(!(d[j] == q && unescaped(d, s, j)));
            }
        }
    }
}

/// Skipping the quoted string that opens at `i` ends just past the first
/// quote of the same kind that no backslash escapes (an even run of
/// backslashes before a byte leaves it unescaped), or at the end of the data
/// when there is none; only a backslash as the last byte can carry it one
/// past the end, and no unescaped closing quote precedes where it ends.
pub proof fn lemma_skip_quoted_stops_at_first_quote(d: Seq<u8>, i: int)
    requires
        0 <= i < d.len(),
        d[i] == 0x22 || d[i] == 0x27,
    ensures
        ({
            let r = spec_skip_quoted(d, i);
            &&& i < r <= d.len() + 1
            &&& no_open_quote(d, i + 1, r - 1, d[i])
            &&& r <= d.len() ==> r == d.len() || (d[r - 1] == d[i] && unescaped(d, i + 1, r - 1))
            &&& r == d.len() + 1 ==> !ends_clean(d)
        }),
{
    lemma_quoted_end(d, i + 1, d[i]);
    lemma_quoted_end_first(d, i + 1, i + 1, d[i]);
}

proof fn lemma_line_end(d: Seq<u8>, i: int)
    requires
        0 <= i <= d.len(),
    ensures
        i <= line_end(d, i) <= d.len(),
        i < d.len() && d[i] != 0x0a ==> i < line_end(d, i),
    decreases d.len() - i,
{
    if i < d.len() && d[i] != 0x0a {
        lemma_line_end(d, i + 1);
    }
}

proof fn lemma_block_close(d: Seq<u8>, i: int)
    requires
        0 <= i,
    ensures
        block_close(d, i) >= i,
    decreases d.len() - i,
{
    if i + 1 < d.len() && !(d[i] == 0x2a && d[i + 1] == 0x2f) {
        lemma_block_close(d, i + 1);
    }
}

/// Trivia skipping stays within the data and ends on a byte that starts
/// no trivia.
pub proof fn lemma_skip_trivia(d: Seq<u8>, i: int)
    requires
        0 <= i <= d.len() + 2,
    ensures
        i <= spec_skip_trivia(d, i),
        i <= d.len() ==> spec_skip_trivia(d, i) <= d.len(),
        ({
            let r = spec_skip_trivia(d, i);
            0 <= r < d.len() ==> {
                &&& !spec_ascii_ws(d[r])
                &&& d[r] != 0x23
                &&& !(r + 1 < d.len() && d[r] == 0x2f && (d[r + 1] == 0x2f || d[r + 1] == 0x2a))
                &&& !(r + 1 < d.len() && d[r] == 0x5c && (d[r + 1] == 0x0a || d[r + 1] == 0x0d))
            }
        }),
    decreases d.len() + 2 - i,
{
    if 0 <= i < d.len() && spec_ascii_ws(d[i]) {
        lemma_skip_trivia(d, i + 1);
    } else if 0 <= i && i + 1 < d.len() && d[i] == 0x5c && (d[i + 1] == 0x0a || d[i + 1] == 0x0d) {
        lemma_skip_trivia(d, i + 2);
    } else if 0 <= i < d.len() && d[i] == 0x23 {
        lemma_line_end(d, i);
        let j = line_end(d, i);
        if i < j <= d.len() {
            lemma_skip_trivia(d, j);
        }
    } else if 0 <= i && i + 1 < d.len() && d[i] == 0x2f && d[i + 1] == 0x2f {
        lemma_line_end(d, i);
        let j = line_end(d, i);
        if i < j <= d.len() {
            lemma_skip_trivia(d, j);
        }
    } else if 0 <= i && i + 1 < d.len() && d[i] == 0x2f && d[i + 1] == 0x2a {
        lemma_block_close(d, i + 2);
        let j = after_block(d, i + 2);
        if i < j <= d.len() {
            lemma_skip_trivia(d, j);
        }
    }
}

proof fn lemma_word_end(d: Seq<u8>, i: int)
    requires
        0 <= i <= d.len(),
    ensures
        i <= word_end(d, i) <= d.len(),
    decreases d.len() - i,
{
    if i < d.len() && !spec_ascii_ws(d[i]) && !spec_is_index_symbol(d[i]) {
        lemma_word_end(d, i + 1);
    }
}

proof fn lemma_token_span(d: Seq<u8>, i: int)
    requires
        0 <= i < d.len(),
    ensures
        i <= token_span(d, i).2 <= d.len() + 1,
        ends_clean(d) ==> token_span(d, i).2 <= d.len(),
{
    if d[i] == 0x22 || d[i] == 0x27 {
        lemma_quoted_end(d, i + 1, d[i]);
    } else {
        lemma_word_end(d, i);
    }
}

proof fn lemma_paren_loop(d: Seq<u8>, i: int, cur: Seq<char>, args: Seq<Text>)
    requires
        0 <= i <= d.len() + 1,
    ensures
        i <= paren_loop(d, i, cur, args).2 <= d.len() + 1,
        ends_clean(d) && i <= d.len() ==> paren_loop(d, i, cur, args).2 <= d.len(),
    decreases d.len() + 2 - i,
{
    if 0 <= i < d.len() {
        lemma_skip_trivia(d, i);
        let i1 = spec_skip_trivia(d, i);
        if i <= i1 < d.len() {
            if d[i1] == 0x29 {
            } else if d[i1] == 0x2c {
                lemma_paren_loop(d, i1 + 1, Seq::empty(), args.push(crate::text::spec_trim(cur)));
            } else if d[i1] == 0x22 || d[i1] == 0x27 {
                lemma_quoted_end(d, i1 + 1, d[i1]);
                let end = spec_skip_quoted(d, i1);
                let hi = if end - 1 > i1 + 1 {
                    end - 1
                } else {
                    i1 + 1
                };
                if i1 < end <= d.len() + 1 {
                    lemma_paren_loop(
                        d,
                        end,
                        cur + crate::text::utf8_lossy(d.subrange(i1 + 1, hi)),
                        args,
                    );
                }
            } else {
                lemma_paren_loop(d, i1 + 1, cur.push(d[i1] as char), args);
            }
        }
    }
}

proof fn lemma_brace_loop(d: Seq<u8>, i: int, depth: nat)
    requires
        0 <= i <= d.len() + 1,
    ensures
        i <= brace_loop(d, i, depth) <= d.len() + 1,
        ends_clean(d) && i <= d.len() ==> brace_loop(d, i, depth) <= d.len(),
    decreases d.len() + 2 - i,
{
    if 0 <= i < d.len() {
        let b = d[i];
        if b == 0x22 || b == 0x27 {
            lemma_quoted_end(d, i + 1, b);
            let j = spec_skip_quoted(d, i);
            if i < j <= d.len() + 1 {
                lemma_brace_loop(d, j, depth);
            }
        } else if b == 0x23 || (b == 0x2f && i + 1 < d.len() && d[i + 1] == 0x2f) {
            lemma_line_end(d, i);
            let j = line_end(d, i);
            if i < j <= d.len() {
                lemma_brace_loop(d, j, depth);
            }
        } else if b == 0x2f && i + 1 < d.len() && d[i + 1] == 0x2a {
            let j = after_block(d, i + 2);
            if i < j <= d.len() {
                lemma_brace_loop(d, j, depth);
            }
        } else if b == 0x7b {
            lemma_brace_loop(d, i + 1, depth + 1);
        } else if b == 0x7d {
            if depth > 1 {
                lemma_brace_loop(d, i + 1, (depth - 1) as nat);
            }
        } else {
            lemma_brace_loop(d, i + 1, depth);
        }
    }
}

proof fn lemma_skip_to_semicolon(d: Seq<u8>, i: int)
    requires
        0 <= i <= d.len() + 1,
    ensures
        i <= spec_skip_to_semicolon(d, i) <= d.len() + 1,
        ends_clean(d) && i <= d.len() ==> spec_skip_to_semicolon(d, i) <= d.len(),
    decreases d.len() + 2 - i,
{
    if 0 <= i < d.len() {
        if d[i] == 0x22 || d[i] == 0x27 {
            lemma_quoted_end(d, i + 1, d[i]);
            let j = spec_skip_quoted(d, i);
            if i < j <= d.len() + 1 {
                lemma_skip_to_semicolon(d, j);
            }
        } else if d[i] != 0x3b {
            lemma_skip_to_semicolon(d, i + 1);
        }
    }
}

/// The cells found so far, up to position `i`: each starts at a `cell`
/// keyword inside the data and ends after it starts and by `i`, they come in
/// order without overlap, and `first` is the start of the first of them.
pub open spec fn found_ok(d: Seq<u8>, found: Seq<(Text, int, int)>, first: Option<int>, i: int) -> bool {
    &&& forall|k: int|
        0 <= k < found.len() ==> {
            &&& 0 <= (#[trigger] found[k]).1 < found[k].2 <= i
            &&& found[k].1 < d.len()
            &&& found[k].2 <= d.len() + 1
            &&& token_at(d, found[k].1) == "cell"@
            &&& (ends_clean(d) ==> found[k].2 <= d.len())
        }
    &&& forall|k: int, m: int| 0 <= k < m < found.len() ==> #[trigger] found[k].2 <= #[trigger] found[m].1
    &&& (found.len() == 0 <==> first is None)
    &&& (found.len() > 0 ==> first == Some(found[0].1))
}

proof fn lemma_cells_loop(d: Seq<u8>, i: int, found: Seq<(Text, int, int)>, first: Option<int>)
    requires
        0 <= i <= d.len() + 2,
        found_ok(d, found, first, i),
    ensures
        ({
            let (f2, first2, e) = cells_loop(d, i, found, first);
            &&& found_ok(d, f2, first2, e)
            &&& i <= e <= d.len() + 2
        }),
    decreases d.len() + 2 - i,
{
    if 0 <= i < d.len() {
        lemma_skip_trivia(d, i);
        let i1 = spec_skip_trivia(d, i);
        if i <= i1 < d.len() {
            if d[i1] == 0x7d {
                lemma_cells_loop(d, i1 + 1, found, first);
            } else {
                lemma_token_span(d, i1);
                let (a, b, j) = token_span(d, i1);
                let name = crate::text::utf8_lossy(d.subrange(a, b));
                if name.len() == 0 {
                    lemma_cells_loop(d, i1 + 1, found, first);
                } else {
                    lemma_skip_trivia(d, j);
                    let i2 = spec_skip_trivia(d, j);
                    if i2 < d.len() && d[i2] == 0x28 {
                        lemma_paren_loop(d, i2 + 1, Seq::empty(), Seq::empty());
                        let (args, k) = spec_paren_args(d, i2);
                        lemma_skip_trivia(d, k);
                        let i3 = spec_skip_trivia(d, k);
                        if i3 < d.len() && d[i3] == 0x7b {
                            lemma_brace_loop(d, i3, 0);
                            lemma_brace_loop(d, i3 + 1, 1);
                            let end = spec_match_braces(d, i3);
                            lemma_skip_trivia(d, end);
                            let s = spec_skip_trivia(d, end);
                            let nxt = if s < d.len() && d[s] == 0x3b {
                                s + 1
                            } else {
                                end
                            };
                            if name == "cell"@ {
                                let f2 = found.push((crate::parser::first_or_empty(args), i1, end));
                                let first2 = if first is None {
                                    Some(i1)
                                } else {
                                    first
                                };
                                assert(token_at(d, i1) == "cell"@);
                                assert(found_ok(d, f2, first2, nxt)) by {
                                    assert forall|k: int, m: int|
                                        0 <= k < m < f2.len() implies #[trigger] f2[k].2
                                        <= #[trigger] f2[m].1 by {
                                        if m < found.len() {
                                            assert(found[k].2 <= found[m].1);
                                        } else {
                                            assert(found[k].2 <= i);
                                        }
                                    }
                                    assert forall|k: int| 0 <= k < f2.len() implies {
                                        &&& 0 <= (#[trigger] f2[k]).1 < f2[k].2 <= nxt
                                        &&& f2[k].1 < d.len()
                                        &&& f2[k].2 <= d.len() + 1
                                        &&& token_at(d, f2[k].1) == "cell"@
                                        &&& (ends_clean(d) ==> f2[k].2 <= d.len())
                                    } by {
                                        if k < found.len() {
                                            assert(f2[k] == found[k]);
                                        }
                                    }
                                }
                                if i < nxt <= d.len() + 2 {
                                    lemma_cells_loop(d, nxt, f2, first2);
                                }
                            } else {
                                if i < nxt <= d.len() + 2 {
                                    lemma_cells_loop(d, nxt, found, first);
                                }
                            }
                        } else if i3 < d.len() && d[i3] == 0x3b {
                            lemma_cells_loop(d, i3 + 1, found, first);
                        } else {
                            if i < i3 <= d.len() + 2 {
                                lemma_cells_loop(d, i3, found, first);
                            }
                        }
                    } else if i2 < d.len() && d[i2] == 0x3a {
                        lemma_skip_to_semicolon(d, i2 + 1);
                        let n2 = spec_skip_to_semicolon(d, i2 + 1);
                        lemma_cells_loop(d, n2, found, first);
                    } else {
                        if i < i2 + 1 <= d.len() + 2 {
                            lemma_cells_loop(d, i2 + 1, found, first);
                        }
                    }
                }
            }
        }
    }
}

/// The index of any data: the preamble starts no later than it ends, at
/// most two past the end of the data; each cell's range starts at a `cell`
/// keyword inside the data and ends after it starts, at most one past the
/// end; the ranges come in file order without overlap; the preamble ends
/// where the first cell starts, inside the data; and unless the data ends in
/// a backslash, every cell's range lies within the data.
pub proof fn lemma_index_ranges(d: Seq<u8>)
    ensures
        ({
            let idx = spec_index_cells(d);
            &&& 0 <= idx.preamble_start <= idx.preamble_end <= d.len() + 2
            &&& forall|k: int|
                0 <= k < idx.cells.len() ==> {
                    &&& 0 <= (#[trigger] idx.cells[k]).1 < idx.cells[k].2 <= d.len() + 1
                    &&& idx.cells[k].1 < d.len()
                    &&& token_at(d, idx.cells[k].1) == "cell"@
                    &&& (ends_clean(d) ==> idx.cells[k].2 <= d.len())
                }
            &&& forall|k: int, m: int|
                0 <= k < m < idx.cells.len() ==> #[trigger] idx.cells[k].2 <= #[trigger] idx.cells[m].1
            &&& idx.cells.len() > 0 ==> idx.preamble_end == idx.cells[0].1 && idx.preamble_end
                < d.len()
        }),
{
    lemma_skip_trivia(d, 0);
    let i0 = spec_skip_trivia(d, 0);
    if i0 < d.len() {
        lemma_token_span(d, i0);
    } else {
        lemma_word_end(d, i0);
    }
    let (_, _, j) = token_span(d, i0);
    lemma_skip_trivia(d, j);
    let i1 = spec_skip_trivia(d, j);
    let i2 = if i1 < d.len() && d[i1] == 0x28 {
        lemma_paren_loop(d, i1 + 1, Seq::empty(), Seq::empty());
        let (_, k) = spec_paren_args(d, i1);
        lemma_skip_trivia(d, k);
        spec_skip_trivia(d, k)
    } else {
        i1
    };
    let body_start = if i2 < d.len() && d[i2] == 0x7b {
        i2 + 1
    } else {
        i2
    };
    lemma_cells_loop(d, body_start, Seq::empty(), None);
    let (found, first, end) = cells_loop(d, body_start, Seq::empty(), None);
    if found.len() > 0 {
        assert(found[0].1 >= body_start) by {
            lemma_found_after(d, body_start, Seq::empty(), None);
        }
    }
}

/// Every cell that the scan from `i` adds starts at or after `i`.
proof fn lemma_found_after(d: Seq<u8>, i: int, found: Seq<(Text, int, int)>, first: Option<int>)
    requires
        0 <= i <= d.len() + 2,
    ensures
        ({
            let (f2, _, e) = cells_loop(d, i, found, first);
            &&& f2.len() >= found.len()
            &&& forall|k: int| 0 <= k < found.len() ==> #[trigger] f2[k] == found[k]
            &&& forall|k: int| found.len() <= k < f2.len() ==> (#[trigger] f2[k]).1 >= i
            &&& e >= i
        }),
    decreases d.len() + 2 - i,
{
    if 0 <= i < d.len() {
        lemma_skip_trivia(d, i);
        let i1 = spec_skip_trivia(d, i);
        if i <= i1 < d.len() {
            if d[i1] == 0x7d {
                lemma_found_after(d, i1 + 1, found, first);
            } else {
                let (a, b, j) = token_span(d, i1);
                let name = crate::text::utf8_lossy(d.subrange(a, b));
                if name.len() == 0 {
                    lemma_found_after(d, i1 + 1, found, first);
                } else {
                    lemma_token_span(d, i1);
                    lemma_skip_trivia(d, j);
                    let i2 = spec_skip_trivia(d, j);
                    if i2 < d.len() && d[i2] == 0x28 {
                        lemma_paren_loop(d, i2 + 1, Seq::empty(), Seq::empty());
                        let (args, k) = spec_paren_args(d, i2);
                        lemma_skip_trivia(d, k);
                        let i3 = spec_skip_trivia(d, k);
                        if i3 < d.len() && d[i3] == 0x7b {
                            lemma_brace_loop(d, i3 + 1, 1);
                            let end = spec_match_braces(d, i3);
                            lemma_skip_trivia(d, end);
                            let s = spec_skip_trivia(d, end);
                            let nxt = if s < d.len() && d[s] == 0x3b {
                                s + 1
                            } else {
                                end
                            };
                            let f2 = if name == "cell"@ {
                                found.push((crate::parser::first_or_empty(args), i1, end))
                            } else {
                                found
                            };
                            let first2 = if name == "cell"@ && first is None {
                                Some(i1)
                            } else {
                                first
                            };
                            if i < nxt <= d.len() + 2 {
                                lemma_found_after(d, nxt, f2, first2);
                                let (f3, _, _) = cells_loop(d, nxt, f2, first2);
                                assert forall|q: int| 0 <= q < found.len() implies #[trigger] f3[q]
                                    == found[q] by {
                                    assert(f2[q] == found[q]);
                                }
                            }
                        } else if i3 < d.len() && d[i3] == 0x3b {
                            lemma_found_after(d, i3 + 1, found, first);
                        } else if i < i3 <= d.len() + 2 {
                            lemma_found_after(d, i3, found, first);
                        }
                    } else if i2 < d.len() && d[i2] == 0x3a {
                        lemma_skip_to_semicolon(d, i2 + 1);
                        lemma_found_after(d, spec_skip_to_semicolon(d, i2 + 1), found, first);
                    } else if i < i2 + 1 <= d.len() + 2 {
                        lemma_found_after(d, i2 + 1, found, first);
                    }
                }
            }
        }
    }
}

} // verus!
