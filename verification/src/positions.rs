//! Where the lexer says things are: a token's line is one more than the line
//! feeds before its first byte, and its column is that byte's offset from the
//! start of its line, plus one. Trivia skipping consumes only whitespace,
//! comments and continuations, and stops at the first byte that starts none.
use vstd::prelude::*;
use crate::lexer::{
    SpecCursor, SpecToken, SpecKind, SpecError, spec_bump, spec_skip_line, spec_skip_block,
    spec_skip_trivia, spec_read_word, spec_read_quoted, spec_next_token, spec_lex_from, spec_lex,
    start_cursor, spec_ascii_ws, spec_is_symbol, byte_at,
};

verus! {

/// The line feeds among the first `p` bytes.
pub open spec fn newlines(d: Seq<u8>, p: int) -> nat
    decreases p,
{
    if p <= 0 {
        0
    } else {
        newlines(d, p - 1) + if d[p - 1] == 0x0a {
            1nat
        } else {
            0nat
        }
    }
}

/// Where the line holding position `p` starts: just past the last line feed
/// before `p`, or 0.
pub open spec fn line_start(d: Seq<u8>, p: int) -> int
    decreases p,
{
    if p <= 0 {
        0
    } else if d[p - 1] == 0x0a {
        p
    } else {
        line_start(d, p - 1)
    }
}

/// The line and column that position `p` has.
pub open spec fn placed_at(d: Seq<u8>, line: int, column: int, p: int) -> bool {
    line == 1 + newlines(d, p) && column == p + 1 - line_start(d, p)
}

/// A cursor whose line and column are those of its position.
pub open spec fn placed(d: Seq<u8>, c: SpecCursor) -> bool {
    0 <= c.pos && placed_at(d, c.line, c.column, c.pos)
}

proof fn lemma_bump(d: Seq<u8>, c: SpecCursor)
    requires
        0 <= c.pos,
    ensures
        placed(d, c) ==> placed(d, spec_bump(d, c)),
        spec_bump(d, c).pos == if c.pos < d.len() {
            c.pos + 1
        } else {
            c.pos
        },
{
}

proof fn lemma_skip_line(d: Seq<u8>, c: SpecCursor)
    requires
        0 <= c.pos <= d.len(),
    ensures
        placed(d, c) ==> placed(d, spec_skip_line(d, c)),
        c.pos <= spec_skip_line(d, c).pos <= d.len(),
        c.pos < d.len() ==> c.pos < spec_skip_line(d, c).pos,
    decreases d.len() - c.pos,
{
    lemma_bump(d, c);
    if c.pos < d.len() && d[c.pos] != 0x0a {
        lemma_skip_line(d, spec_bump(d, c));
    }
}

proof fn lemma_skip_block(d: Seq<u8>, c: SpecCursor, prev: u8)
    requires
        0 <= c.pos <= d.len(),
    ensures
        spec_skip_block(d, c, prev) matches Some(c1) ==> (placed(d, c) ==> placed(d, c1)) && c.pos
            < c1.pos <= d.len(),
    decreases d.len() - c.pos,
{
    lemma_bump(d, c);
    if c.pos < d.len() {
        let b = d[c.pos];
        if !(prev == 0x2a && b == 0x2f) {
            lemma_skip_block(d, spec_bump(d, c), b);
        }
    }
}

/// A block comment opens at `p`, at or after `from`; where `placed_ok`
/// holds, `line` and `column` are those of `p`.
pub open spec fn comment_opens_at(
    d: Seq<u8>,
    from: int,
    line: int,
    column: int,
    p: int,
    placed_ok: bool,
) -> bool {
    &&& from <= p && p + 1 < d.len() && d[p] == 0x2f && d[p + 1] == 0x2a
    &&& placed_ok ==> placed_at(d, line, column, p)
}

/// An error of trivia skipping from `c` names an open block comment at or
/// after `c`, placed where it opens when `c` is placed.
pub open spec fn open_comment_error(d: Seq<u8>, c: SpecCursor, r: Result<SpecCursor, SpecError>) -> bool {
    r is Err ==> {
        &&& r->Err_0.message == "unterminated block comment"@
        &&& exists|p: int|
            #[trigger] comment_opens_at(d, c.pos, r->Err_0.line, r->Err_0.column, p, placed(d, c))
    }
}

proof fn lemma_error_from_later(d: Seq<u8>, c: SpecCursor, c2: SpecCursor)
    requires
        c.pos <= c2.pos,
        placed(d, c) ==> placed(d, c2),
        open_comment_error(d, c2, spec_skip_trivia(d, c2)),
    ensures
        open_comment_error(d, c, spec_skip_trivia(d, c2)),
{
    if let Err(e) = spec_skip_trivia(d, c2) {
        let p = choose|p: int|
            #[trigger] comment_opens_at(d, c2.pos, e.line, e.column, p, placed(d, c2));
        assert(comment_opens_at(d, c.pos, e.line, e.column, p, placed(d, c)));
    }
}

proof fn lemma_comment_left_open(d: Seq<u8>, c: SpecCursor, e: SpecError)
    requires
        comment_opens_at(d, c.pos, e.line, e.column, c.pos, placed(d, c)),
        e.message == "unterminated block comment"@,
    ensures
        open_comment_error(d, c, Err::<SpecCursor, SpecError>(e)),
{
}

/// Skipping trivia from any cursor within the data ends, within the data,
/// on a byte that starts no trivia; it fails only on a block comment left
/// open at or after the cursor. From a cursor whose line and column are those
/// of its position (every cursor the lexer holds, see `lemma_next_token`),
/// the cursor it ends on is placed too, and a failure reports the line and
/// column where that comment starts.
pub proof fn lemma_skip_trivia_stops(d: Seq<u8>, c: SpecCursor)
    requires
        0 <= c.pos <= d.len(),
    ensures
        spec_skip_trivia(d, c) matches Ok(c1) ==> {
            &&& placed(d, c) ==> placed(d, c1)
            &&& c.pos <= c1.pos <= d.len()
            &&& c1.pos < d.len() ==> {
                &&& !spec_ascii_ws(d[c1.pos])
                &&& d[c1.pos] != 0x23
                &&& !(byte_at(d, c1.pos + 1) matches Some(n) && d[c1.pos] == 0x2f && (n == 0x2f
                    || n == 0x2a))
                &&& !(byte_at(d, c1.pos + 1) matches Some(n) && d[c1.pos] == 0x5c && (n == 0x0a
                    || n == 0x0d))
            }
        },
        open_comment_error(d, c, spec_skip_trivia(d, c)),
    decreases d.len() - c.pos,
{
    if c.pos < d.len() {
        let b = d[c.pos];
        let n = byte_at(d, c.pos + 1);
        lemma_bump(d, c);
        if spec_ascii_ws(b) {
            lemma_skip_trivia_stops(d, spec_bump(d, c));
            lemma_error_from_later(d, c, spec_bump(d, c));
        } else if b == 0x5c && (n == Some(0x0au8) || n == Some(0x0du8)) {
            let c1 = spec_bump(d, c);
            lemma_bump(d, c1);
            let c2 = spec_bump(d, c1);
            lemma_bump(d, c2);
            let c3 = if n == Some(0x0du8) && byte_at(d, c2.pos) == Some(0x0au8) {
                spec_bump(d, c2)
            } else {
                c2
            };
            lemma_skip_trivia_stops(d, c3);
            lemma_error_from_later(d, c, c3);
        } else if b == 0x23 {
            lemma_skip_line(d, c);
            lemma_skip_trivia_stops(d, spec_skip_line(d, c));
            lemma_error_from_later(d, c, spec_skip_line(d, c));
        } else if b == 0x2f && n == Some(0x2fu8) {
            let c1 = spec_bump(d, c);
            lemma_bump(d, c1);
            let c2 = spec_bump(d, c1);
            lemma_skip_line(d, c2);
            lemma_skip_trivia_stops(d, spec_skip_line(d, c2));
            lemma_error_from_later(d, c, spec_skip_line(d, c2));
        } else if b == 0x2f && n == Some(0x2au8) {
            let c1 = spec_bump(d, c);
            lemma_bump(d, c1);
            let c2 = spec_bump(d, c1);
            lemma_skip_block(d, c2, 0);
            match spec_skip_block(d, c2, 0) {
                Some(c3) => {
                    lemma_skip_trivia_stops(d, c3);
                    assert(spec_skip_trivia(d, c) == spec_skip_trivia(d, c3));
                    if let Err(e) = spec_skip_trivia(d, c3) {
                        let p = choose|p: int|
                            #[trigger] comment_opens_at(d, c3.pos, e.line, e.column, p, placed(d, c3));
                        assert(comment_opens_at(d, c.pos, e.line, e.column, p, placed(d, c)));
                    }
                    assert(open_comment_error(d, c, spec_skip_trivia(d, c)));
                },
                None => {
                    let e = SpecError {
                        line: c.line,
                        column: c.column,
                        message: "unterminated block comment"@,
                    };
                    assert(spec_skip_trivia(d, c) == Err::<SpecCursor, SpecError>(e));
                    assert(c.pos + 1 < d.len() && d[c.pos] == 0x2f && d[c.pos + 1] == 0x2a);
                    assert(comment_opens_at(d, c.pos, e.line, e.column, c.pos, placed(d, c)));
                    lemma_comment_left_open(d, c, e);
                    assert(open_comment_error(d, c, spec_skip_trivia(d, c)));
                },
            }
        }
    }
}

/// The bytes `d[a..b]` are one piece of trivia: a whitespace byte; a
/// backslash before a line feed, a carriage return, or both; a line comment
/// (`#` or `//`) through its line feed, or to the end of the data; or a block
/// comment through the first `*/` after its opening `/*`.
pub open spec fn trivia_piece(d: Seq<u8>, a: int, b: int) -> bool {
    &&& 0 <= a < b <= d.len()
    &&& {
        ||| b == a + 1 && spec_ascii_ws(d[a])
        ||| d[a] == 0x5c && b == a + 2 && (d[a + 1] == 0x0a || d[a + 1] == 0x0d)
        ||| d[a] == 0x5c && b == a + 3 && d[a + 1] == 0x0d && d[a + 2] == 0x0a
        ||| (d[a] == 0x23 || (a + 1 < b && d[a] == 0x2f && d[a + 1] == 0x2f)) && (forall|j: int|
            a <= j < b - 1 ==> d[j] != 0x0a) && (b == d.len() || d[b - 1] == 0x0a)
        ||| a + 4 <= b && d[a] == 0x2f && d[a + 1] == 0x2a && d[b - 2] == 0x2a && d[b - 1] == 0x2f
            && forall|j: int| a + 2 <= j < b - 2 ==> !(#[trigger] d[j] == 0x2a && d[j + 1] == 0x2f)
    }
}

/// The `k`-th step of `cuts` is a piece of trivia.
pub open spec fn cut_is_trivia(d: Seq<u8>, cuts: Seq<int>, k: int) -> bool {
    trivia_piece(d, cuts[k], cuts[k + 1])
}

/// The bytes `d[a..b]` are pieces of trivia one after another.
pub open spec fn trivia_run(d: Seq<u8>, a: int, b: int) -> bool {
    exists|cuts: Seq<int>|
        cuts.len() >= 1 && cuts[0] == a && cuts.last() == b && forall|k: int|
            0 <= k < cuts.len() - 1 ==> #[trigger] cut_is_trivia(d, cuts, k)
}

proof fn lemma_run_empty(d: Seq<u8>, a: int)
    ensures
        trivia_run(d, a, a),
{
    let cuts = seq![a];
    assert(cuts.last() == a);
}

proof fn lemma_run_prepend(d: Seq<u8>, a: int, m: int, b: int)
    requires
        trivia_piece(d, a, m),
        trivia_run(d, m, b),
    ensures
        trivia_run(d, a, b),
{
    let cuts = choose|cuts: Seq<int>|
        cuts.len() >= 1 && cuts[0] == m && cuts.last() == b && forall|k: int|
            0 <= k < cuts.len() - 1 ==> #[trigger] cut_is_trivia(d, cuts, k);
    let all = seq![a] + cuts;
    assert(all.last() == b);
    assert forall|k: int| 0 <= k < all.len() - 1 implies #[trigger] cut_is_trivia(d, all, k) by {
        if k == 0 {
            assert(all[0] == a && all[1] == m);
        } else {
            assert(cut_is_trivia(d, cuts, k - 1));
            assert(all[k] == cuts[k - 1] && all[k + 1] == cuts[k]);
        }
    }
}

proof fn lemma_skip_line_shape(d: Seq<u8>, c: SpecCursor)
    requires
        0 <= c.pos <= d.len(),
    ensures
        ({
            let m = spec_skip_line(d, c).pos;
            &&& c.pos <= m <= d.len()
            &&& c.pos < d.len() ==> c.pos < m
            &&& forall|j: int| c.pos <= j < m - 1 ==> d[j] != 0x0a
            &&& (m == d.len() || (c.pos < m && d[m - 1] == 0x0a))
        }),
    decreases d.len() - c.pos,
{
    if c.pos < d.len() && d[c.pos] != 0x0a {
        lemma_skip_line_shape(d, spec_bump(d, c));
    }
}

proof fn lemma_skip_block_shape(d: Seq<u8>, c: SpecCursor, prev: u8)
    requires
        0 <= c.pos <= d.len(),
    ensures
        spec_skip_block(d, c, prev) matches Some(c1) ==> {
            &&& c.pos < c1.pos <= d.len()
            &&& d[c1.pos - 1] == 0x2f
            &&& c1.pos - 2 >= c.pos ==> d[c1.pos - 2] == 0x2a
            &&& c1.pos - 1 == c.pos <==> (prev == 0x2a && d[c.pos] == 0x2f)
            &&& forall|j: int| c.pos <= j < c1.pos - 2 ==> !(#[trigger] d[j] == 0x2a && d[j + 1] == 0x2f)
        },
    decreases d.len() - c.pos,
{
    if c.pos < d.len() {
        let b = d[c.pos];
        if !(prev == 0x2a && b == 0x2f) {
            lemma_skip_block_shape(d, spec_bump(d, c), b);
        }
    }
}

/// Skipping trivia from any cursor within the data consumes only trivia:
/// the bytes between the cursor and where it stops are whitespace,
/// backslash line continuations and comments, one piece after another.
pub proof fn lemma_skip_trivia_consumes_trivia(d: Seq<u8>, c: SpecCursor)
    requires
        0 <= c.pos <= d.len(),
    ensures
        spec_skip_trivia(d, c) matches Ok(c1) ==> trivia_run(d, c.pos, c1.pos),
    decreases d.len() - c.pos,
{
    lemma_run_empty(d, c.pos);
    if c.pos < d.len() {
        let b = d[c.pos];
        let n = byte_at(d, c.pos + 1);
        let c1 = spec_bump(d, c);
        if spec_ascii_ws(b) {
            lemma_skip_trivia_consumes_trivia(d, c1);
            if let Ok(e) = spec_skip_trivia(d, c) {
                lemma_run_prepend(d, c.pos, c.pos + 1, e.pos);
            }
        } else if b == 0x5c && (n == Some(0x0au8) || n == Some(0x0du8)) {
            let c2 = spec_bump(d, c1);
            let c3 = if n == Some(0x0du8) && byte_at(d, c2.pos) == Some(0x0au8) {
                spec_bump(d, c2)
            } else {
                c2
            };
            lemma_skip_trivia_consumes_trivia(d, c3);
            if let Ok(e) = spec_skip_trivia(d, c) {
                assert(trivia_piece(d, c.pos, c3.pos));
                lemma_run_prepend(d, c.pos, c3.pos, e.pos);
            }
        } else if b == 0x23 {
            let m = spec_skip_line(d, c);
            lemma_skip_line_shape(d, c);
            lemma_skip_trivia_consumes_trivia(d, m);
            if let Ok(e) = spec_skip_trivia(d, c) {
                if c.pos < m.pos <= d.len() {
                    assert(trivia_piece(d, c.pos, m.pos));
                    lemma_run_prepend(d, c.pos, m.pos, e.pos);
                }
            }
        } else if b == 0x2f && n == Some(0x2fu8) {
            let c2 = spec_bump(d, c1);
            let m = spec_skip_line(d, c2);
            lemma_skip_line_shape(d, c2);
            lemma_skip_trivia_consumes_trivia(d, m);
            if let Ok(e) = spec_skip_trivia(d, c) {
                if c.pos < m.pos <= d.len() {
                    assert(trivia_piece(d, c.pos, m.pos));
                    lemma_run_prepend(d, c.pos, m.pos, e.pos);
                }
            }
        } else if b == 0x2f && n == Some(0x2au8) {
            let c2 = spec_bump(d, c1);
            lemma_skip_block_shape(d, c2, 0);
            if let Some(m) = spec_skip_block(d, c2, 0) {
                lemma_skip_trivia_consumes_trivia(d, m);
                if let Ok(e) = spec_skip_trivia(d, c) {
                    if c.pos < m.pos <= d.len() {
                        assert(trivia_piece(d, c.pos, m.pos));
                        lemma_run_prepend(d, c.pos, m.pos, e.pos);
                    }
                }
            }
        }
    }
}

proof fn lemma_read_word(d: Seq<u8>, c: SpecCursor, acc: Seq<u8>)
    requires
        placed(d, c),
        c.pos <= d.len(),
    ensures
        placed(d, spec_read_word(d, c, acc).1),
        c.pos <= spec_read_word(d, c, acc).1.pos <= d.len(),
    decreases d.len() - c.pos,
{
    if c.pos < d.len() {
        let b = d[c.pos];
        let n = byte_at(d, c.pos + 1);
        lemma_bump(d, c);
        let c1 = spec_bump(d, c);
        if spec_ascii_ws(b) || spec_is_symbol(b) {
        } else if b == 0x2f && (n == Some(0x2au8) || n == Some(0x2fu8)) {
        } else if b == 0x5c {
            lemma_bump(d, c1);
            match n {
                Some(e) => if e == 0x0a {
                    lemma_read_word(d, spec_bump(d, c1), acc);
                } else if e == 0x0d {
                    let c2 = spec_bump(d, c1);
                    lemma_bump(d, c2);
                    if byte_at(d, c2.pos) == Some(0x0au8) {
                        lemma_read_word(d, spec_bump(d, c2), acc);
                    } else {
                        lemma_read_word(d, c2, acc);
                    }
                } else {
                    lemma_read_word(d, spec_bump(d, c1), acc.push(0x5c).push(e));
                },
                None => lemma_read_word(d, c1, acc.push(0x5c)),
            }
        } else {
            lemma_read_word(d, c1, acc.push(b));
        }
    }
}

proof fn lemma_read_quoted(d: Seq<u8>, c: SpecCursor, quote: u8, acc: Seq<u8>, escaped: bool)
    requires
        placed(d, c),
        c.pos <= d.len(),
    ensures
        spec_read_quoted(d, c, quote, acc, escaped) matches Some((_, c1)) ==> placed(d, c1) && c.pos
            <= c1.pos <= d.len(),
    decreases d.len() - c.pos,
{
    if c.pos < d.len() {
        let b = d[c.pos];
        lemma_bump(d, c);
        let c1 = spec_bump(d, c);
        if escaped {
            if b == 0x0a {
                lemma_read_quoted(d, c1, quote, acc, false);
            } else if b == 0x0d {
                lemma_bump(d, c1);
                if byte_at(d, c1.pos) == Some(0x0au8) {
                    lemma_read_quoted(d, spec_bump(d, c1), quote, acc, false);
                } else {
                    lemma_read_quoted(d, c1, quote, acc, false);
                }
            } else {
                lemma_read_quoted(d, c1, quote, acc.push(b), false);
            }
        } else if b == 0x5c {
            lemma_read_quoted(d, c1, quote, acc, true);
        } else if b != quote {
            lemma_read_quoted(d, c1, quote, acc.push(b), false);
        }
    }
}

/// A token stands at position `p`: its first byte (its opening quote, if
/// quoted) is `d[p]`, and its line and column are those of `p`.
pub open spec fn token_at_pos(d: Seq<u8>, t: SpecToken, p: int) -> bool {
    &&& 0 <= p < d.len()
    &&& !spec_ascii_ws(d[p])
    &&& placed_at(d, t.line, t.column, p)
    &&& (t.kind matches SpecKind::Symbol(b) ==> d[p] == b)
}

/// A token that the lexer reads from a cursor whose line and column are
/// those of its position starts where skipping trivia from that cursor
/// stopped: that byte is its first byte (the symbol itself, or the opening
/// quote of a quoted word), and the token's line and column are that
/// position's. The cursor after it keeps its line and column right.
pub proof fn lemma_next_token(d: Seq<u8>, c: SpecCursor)
    requires
        placed(d, c),
        c.pos <= d.len(),
    ensures
        spec_next_token(d, c) matches Ok((t, c1)) ==> {
            &&& placed(d, c1)
            &&& c.pos <= c1.pos <= d.len()
            &&& t matches Some(tok) ==> exists|p: int| c.pos <= p < c1.pos && #[trigger] token_at_pos(d, tok, p)
            &&& t matches Some(tok) ==> spec_skip_trivia(d, c) matches Ok(c0) && {
                &&& c.pos <= c0.pos < c1.pos
                &&& token_at_pos(d, tok, c0.pos)
                &&& (spec_is_symbol(d[c0.pos]) <==> tok.kind is Symbol)
            }
        },
{
    lemma_skip_trivia_stops(d, c);
    if let Ok(c1) = spec_skip_trivia(d, c) {
        if 0 <= c1.pos < d.len() {
            let b = d[c1.pos];
            lemma_bump(d, c1);
            let c2 = spec_bump(d, c1);
            if !spec_is_symbol(b) {
                if b == 0x22 || b == 0x27 {
                    lemma_read_quoted(d, c2, b, Seq::empty(), false);
                } else {
                    lemma_read_word(d, c2, seq![b]);
                }
            }
            if let Ok((Some(tok), c3)) = spec_next_token(d, c) {
                assert(token_at_pos(d, tok, c1.pos));
            }
        }
    }
}

/// Each of the tokens `ts` stands at a position of `d` at or after `from`.
pub open spec fn tokens_placed(d: Seq<u8>, ts: Seq<SpecToken>, from: int) -> bool {
    forall|k: int| 0 <= k < ts.len() ==> #[trigger] placed_after(d, ts[k], from)
}

/// The token `t` stands at some position of `d` at or after `from`.
pub open spec fn placed_after(d: Seq<u8>, t: SpecToken, from: int) -> bool {
    exists|p: int| from <= p && #[trigger] token_at_pos(d, t, p)
}

proof fn lemma_tokens_placed_cons(
    d: Seq<u8>,
    t: SpecToken,
    ts: Seq<SpecToken>,
    from: int,
    mid: int,
    p: int,
)
    requires
        from <= p,
        from <= mid,
        token_at_pos(d, t, p),
        tokens_placed(d, ts, mid),
    ensures
        tokens_placed(d, seq![t] + ts, from),
{
    let all = seq![t] + ts;
    assert forall|k: int| 0 <= k < all.len() implies #[trigger] placed_after(d, all[k], from) by {
        if k == 0 {
            assert(all[0] == t);
        } else {
            assert(all[k] == ts[k - 1]);
            assert(placed_after(d, ts[k - 1], mid));
            let q = choose|q: int| mid <= q && #[trigger] token_at_pos(d, ts[k - 1], q);
        }
    }
}

proof fn lemma_lex_from(d: Seq<u8>, c: SpecCursor)
    requires
        placed(d, c),
        c.pos <= d.len(),
    ensures
        tokens_placed(d, spec_lex_from(d, c).0, c.pos),
    decreases d.len() - c.pos,
{
    lemma_next_token(d, c);
    if let Ok((Some(t), c1)) = spec_next_token(d, c) {
        if c.pos < c1.pos <= d.len() {
            lemma_lex_from(d, c1);
            let (ts, e, end) = spec_lex_from(d, c1);
            let all = spec_lex_from(d, c).0;
            assert(all == seq![t] + ts);
            let p = choose|p: int| c.pos <= p < c1.pos && #[trigger] token_at_pos(d, t, p);
            lemma_tokens_placed_cons(d, t, ts, c.pos, c1.pos, p);
        } else {
            assert(spec_lex_from(d, c).0.len() == 0);
        }
    } else {
        assert(spec_lex_from(d, c).0.len() == 0);
    }
}

/// Every token that lexing `d` gives stands at some position `p` of `d`: its
/// first byte is `d[p]`, its line is one more than the line feeds before
/// `p`, and its column is `p` minus the start of its line, plus one.
pub proof fn lemma_token_positions(d: Seq<u8>)
    ensures
        tokens_placed(d, spec_lex(d).0, 0),
{
    lemma_lex_from(d, start_cursor());
}

/// Reading a quoted string depends on where the cursor is, not on the line
/// and column it carries: two cursors at one position read the same text and
/// end at one position.
proof fn lemma_read_quoted_by_position(
    d: Seq<u8>,
    c: SpecCursor,
    c2: SpecCursor,
    quote: u8,
    acc: Seq<u8>,
    escaped: bool,
)
    requires
        c.pos == c2.pos,
    ensures
        spec_read_quoted(d, c, quote, acc, escaped) is Some <==> spec_read_quoted(
            d,
            c2,
            quote,
            acc,
            escaped,
        ) is Some,
        spec_read_quoted(d, c, quote, acc, escaped) matches Some((t, e)) ==> spec_read_quoted(
            d,
            c2,
            quote,
            acc,
            escaped,
        ) matches Some((t2, e2)) && t == t2 && e.pos == e2.pos,
    decreases d.len() - c.pos,
{
    if 0 <= c.pos < d.len() {
        let b = d[c.pos];
        let c1 = spec_bump(d, c);
        let d1 = spec_bump(d, c2);
        if escaped {
            if b == 0x0a {
                lemma_read_quoted_by_position(d, c1, d1, quote, acc, false);
            } else if b == 0x0d {
                if byte_at(d, c1.pos) == Some(0x0au8) {
                    lemma_read_quoted_by_position(d, spec_bump(d, c1), spec_bump(d, d1), quote, acc, false);
                } else {
                    lemma_read_quoted_by_position(d, c1, d1, quote, acc, false);
                }
            } else {
                lemma_read_quoted_by_position(d, c1, d1, quote, acc.push(b), false);
            }
        } else if b == 0x5c {
            lemma_read_quoted_by_position(d, c1, d1, quote, acc, true);
        } else if b != quote {
            lemma_read_quoted_by_position(d, c1, d1, quote, acc.push(b), false);
        }
    }
}

/// A backslash before a line break inside a quoted string is a line
/// continuation and adds nothing to the string: reading the string from the
/// backslash gives the same text, and ends at the same place, as reading it
/// from just past the line break (`\n`, `\r`, or `\r\n`).
pub proof fn lemma_quoted_continuation_adds_nothing(
    d: Seq<u8>,
    c: SpecCursor,
    after: SpecCursor,
    quote: u8,
    acc: Seq<u8>,
)
    requires
        0 <= c.pos,
        c.pos + 1 < d.len(),
        d[c.pos] == 0x5c,
        d[c.pos + 1] == 0x0a || d[c.pos + 1] == 0x0d,
        after.pos == if d[c.pos + 1] == 0x0d && c.pos + 2 < d.len() && d[c.pos + 2] == 0x0a {
            c.pos + 3
        } else {
            c.pos + 2
        },
    ensures
        spec_read_quoted(d, c, quote, acc, false) is Some <==> spec_read_quoted(
            d,
            after,
            quote,
            acc,
            false,
        ) is Some,
        spec_read_quoted(d, c, quote, acc, false) matches Some((t, e)) ==> spec_read_quoted(
            d,
            after,
            quote,
            acc,
            false,
        ) matches Some((t2, e2)) && t == t2 && e.pos == e2.pos,
{
    let c1 = spec_bump(d, c);
    let c2 = spec_bump(d, c1);
    assert(c1.pos == c.pos + 1 && c2.pos == c.pos + 2);
    assert(spec_read_quoted(d, c, quote, acc, false) == spec_read_quoted(d, c1, quote, acc, true));
    if d[c.pos + 1] == 0x0d && c.pos + 2 < d.len() && d[c.pos + 2] == 0x0a {
        assert(byte_at(d, c2.pos) == Some(0x0au8));
        assert(spec_read_quoted(d, c1, quote, acc, true) == spec_read_quoted(
            d,
            spec_bump(d, c2),
            quote,
            acc,
            false,
        ));
        lemma_read_quoted_by_position(d, spec_bump(d, c2), after, quote, acc, false);
    } else {
        assert(spec_read_quoted(d, c1, quote, acc, true) == spec_read_quoted(d, c2, quote, acc, false));
        lemma_read_quoted_by_position(d, c2, after, quote, acc, false);
    }
}

/// Two reads of quoted strings agree: both end, on the same text at the same
/// position, or neither does.
pub open spec fn quoted_reads_agree(
    r1: Option<(Seq<u8>, SpecCursor)>,
    r2: Option<(Seq<u8>, SpecCursor)>,
) -> bool {
    &&& r1 is Some <==> r2 is Some
    &&& r1 matches Some((t, e)) ==> r2 matches Some((t2, e2)) && t == t2 && e.pos == e2.pos
}

/// Inside a quoted string a backslash before any byte but a line break
/// stands for that byte alone: reading from the backslash gives what reading
/// from past the byte gives, with the byte already read.
pub proof fn lemma_quoted_escape_keeps_byte(
    d: Seq<u8>,
    c: SpecCursor,
    after: SpecCursor,
    quote: u8,
    acc: Seq<u8>,
)
    requires
        0 <= c.pos,
        c.pos + 1 < d.len(),
        d[c.pos] == 0x5c,
        d[c.pos + 1] != 0x0a && d[c.pos + 1] != 0x0d,
        after.pos == c.pos + 2,
    ensures
        quoted_reads_agree(
            spec_read_quoted(d, c, quote, acc, false),
            spec_read_quoted(d, after, quote, acc.push(d[c.pos + 1]), false),
        ),
{
    let c1 = spec_bump(d, c);
    let c2 = spec_bump(d, c1);
    assert(spec_read_quoted(d, c, quote, acc, false) == spec_read_quoted(d, c1, quote, acc, true));
    assert(spec_read_quoted(d, c1, quote, acc, true) == spec_read_quoted(
        d,
        c2,
        quote,
        acc.push(d[c.pos + 1]),
        false,
    ));
    lemma_read_quoted_by_position(d, c2, after, quote, acc.push(d[c.pos + 1]), false);
}

/// Inside a quoted string a byte that is neither a backslash nor the quote
/// stands for itself.
pub proof fn lemma_quoted_plain_byte(
    d: Seq<u8>,
    c: SpecCursor,
    after: SpecCursor,
    quote: u8,
    acc: Seq<u8>,
)
    requires
        0 <= c.pos < d.len(),
        d[c.pos] != 0x5c,
        d[c.pos] != quote,
        after.pos == c.pos + 1,
    ensures
        quoted_reads_agree(
            spec_read_quoted(d, c, quote, acc, false),
            spec_read_quoted(d, after, quote, acc.push(d[c.pos]), false),
        ),
{
    lemma_read_quoted_by_position(d, spec_bump(d, c), after, quote, acc.push(d[c.pos]), false);
}

/// An unescaped quote of the opening kind ends a quoted string, just past
/// it, with what was read so far; the data ending first leaves it open.
pub proof fn lemma_quoted_string_ends(d: Seq<u8>, c: SpecCursor, quote: u8, acc: Seq<u8>)
    requires
        0 <= c.pos,
        quote != 0x5c,
    ensures
        c.pos < d.len() && d[c.pos] == quote ==> (spec_read_quoted(d, c, quote, acc, false) matches Some(
            (t, e),
        ) && t == acc && e.pos == c.pos + 1),
        c.pos >= d.len() ==> spec_read_quoted(d, c, quote, acc, false) is None,
{
}

/// Reading a bare word depends on where the cursor is, not on the line and
/// column it carries.
proof fn lemma_read_word_by_position(d: Seq<u8>, c: SpecCursor, c2: SpecCursor, acc: Seq<u8>)
    requires
        c.pos == c2.pos,
    ensures
        spec_read_word(d, c, acc).0 == spec_read_word(d, c2, acc).0,
        spec_read_word(d, c, acc).1.pos == spec_read_word(d, c2, acc).1.pos,
    decreases d.len() - c.pos,
{
    if 0 <= c.pos < d.len() {
        let b = d[c.pos];
        let n = byte_at(d, c.pos + 1);
        let c1 = spec_bump(d, c);
        let d1 = spec_bump(d, c2);
        if spec_ascii_ws(b) || spec_is_symbol(b) {
        } else if b == 0x2f && (n == Some(0x2au8) || n == Some(0x2fu8)) {
        } else if b == 0x5c {
            match n {
                Some(e) => if e == 0x0a {
                    lemma_read_word_by_position(d, spec_bump(d, c1), spec_bump(d, d1), acc);
                } else if e == 0x0d {
                    let cc = spec_bump(d, c1);
                    let dd = spec_bump(d, d1);
                    if byte_at(d, cc.pos) == Some(0x0au8) {
                        lemma_read_word_by_position(d, spec_bump(d, cc), spec_bump(d, dd), acc);
                    } else {
                        lemma_read_word_by_position(d, cc, dd, acc);
                    }
                } else {
                    lemma_read_word_by_position(
                        d,
                        spec_bump(d, c1),
                        spec_bump(d, d1),
                        acc.push(0x5c).push(e),
                    );
                },
                None => lemma_read_word_by_position(d, c1, d1, acc.push(0x5c)),
            }
        } else {
            lemma_read_word_by_position(d, c1, d1, acc.push(b));
        }
    }
}

/// A backslash before a line break inside a bare word is a line continuation
/// and adds nothing to the word: reading from the backslash gives the same
/// text, and ends at the same place, as reading from just past the line
/// break (`\n`, `\r`, or `\r\n`).
pub proof fn lemma_word_continuation_adds_nothing(
    d: Seq<u8>,
    c: SpecCursor,
    after: SpecCursor,
    acc: Seq<u8>,
)
    requires
        0 <= c.pos,
        c.pos + 1 < d.len(),
        d[c.pos] == 0x5c,
        d[c.pos + 1] == 0x0a || d[c.pos + 1] == 0x0d,
        after.pos == if d[c.pos + 1] == 0x0d && c.pos + 2 < d.len() && d[c.pos + 2] == 0x0a {
            c.pos + 3
        } else {
            c.pos + 2
        },
    ensures
        spec_read_word(d, c, acc).0 == spec_read_word(d, after, acc).0,
        spec_read_word(d, c, acc).1.pos == spec_read_word(d, after, acc).1.pos,
{
    let c1 = spec_bump(d, c);
    let c2 = spec_bump(d, c1);
    assert(c1.pos == c.pos + 1 && c2.pos == c.pos + 2);
    assert(!spec_ascii_ws(0x5c) && !spec_is_symbol(0x5c));
    if d[c.pos + 1] == 0x0d && c.pos + 2 < d.len() && d[c.pos + 2] == 0x0a {
        assert(byte_at(d, c2.pos) == Some(0x0au8));
        assert(spec_read_word(d, c, acc) == spec_read_word(d, spec_bump(d, c2), acc));
        lemma_read_word_by_position(d, spec_bump(d, c2), after, acc);
    } else {
        assert(spec_read_word(d, c, acc) == spec_read_word(d, c2, acc));
        lemma_read_word_by_position(d, c2, after, acc);
    }
}

} // verus!
