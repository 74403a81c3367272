//! The Liberty lexer: bytes to words and symbols, with line and column of each
//! token, skipping whitespace, `\`-newline continuations and `#`, `//` and
//! `/* */` comments.
use vstd::prelude::*;
use crate::text::{lossy_string, utf8_lossy, push_char, string_of, append_str, push_decimal,
    spec_decimal};

verus! {

/// A lexing or parsing error at a 1-based line and column (0, 0 when the input
/// could not be read).
#[derive(Clone, Debug)]
pub struct ParseError {
    pub line: usize,
    pub column: usize,
    pub message: String,
}

/// The mathematical form of a `ParseError`.
pub struct SpecError {
    pub line: int,
    pub column: int,
    pub message: Seq<char>,
}

impl View for ParseError {
    type V = SpecError;

    open spec fn view(&self) -> SpecError {
        SpecError { line: self.line as int, column: self.column as int, message: self.message@ }
    }
}

/// The text of a parse error as reported to users:
/// `Liberty parse error at line L, column C: MESSAGE`.
pub open spec fn error_text(e: SpecError) -> Seq<char> {
    "Liberty parse error at line "@ + spec_decimal(e.line as nat) + ", column "@ + spec_decimal(
        e.column as nat,
    ) + ": "@ + e.message
}

impl ParseError {
    /// The error as reported to users.
    pub fn describe(&self) -> (r: String)
        ensures
            r@ == error_text(self@),
    {
        let mut s = string_of("Liberty parse error at line ");
        push_decimal(&mut s, self.line);
        append_str(&mut s, ", column ");
        push_decimal(&mut s, self.column);
        append_str(&mut s, ": ");
        append_str(&mut s, self.message.as_str());
        s
    }

    pub fn new(line: usize, column: usize, message: &str) -> (r: ParseError)
        ensures
            r@ == (SpecError { line: line as int, column: column as int, message: message@ }),
    {
        ParseError { line, column, message: string_of(message) }
    }
}

/// A token: a word (bare or quoted) or a one-byte symbol.
pub enum TokenKind {
    Word(String),
    Symbol(u8),
}

pub struct Token {
    pub kind: TokenKind,
    pub line: usize,
    pub column: usize,
}

pub enum SpecKind {
    Word(Seq<char>),
    Symbol(u8),
}

pub struct SpecToken {
    pub kind: SpecKind,
    pub line: int,
    pub column: int,
}

impl View for Token {
    type V = SpecToken;

    open spec fn view(&self) -> SpecToken {
        SpecToken {
            kind: match self.kind {
                TokenKind::Word(w) => SpecKind::Word(w@),
                TokenKind::Symbol(b) => SpecKind::Symbol(b),
            },
            line: self.line as int,
            column: self.column as int,
        }
    }
}

impl Token {
    pub fn clone_token(&self) -> (r: Token)
        ensures
            r@ == self@,
    {
        Token {
            kind: match &self.kind {
                TokenKind::Word(w) => TokenKind::Word(w.clone()),
                TokenKind::Symbol(b) => TokenKind::Symbol(*b),
            },
            line: self.line,
            column: self.column,
        }
    }
}

/// Lexer position: byte offset, 1-based line and column.
pub struct Cursor {
    pub pos: usize,
    pub line: usize,
    pub column: usize,
}

pub struct SpecCursor {
    pub pos: int,
    pub line: int,
    pub column: int,
}

impl View for Cursor {
    type V = SpecCursor;

    open spec fn view(&self) -> SpecCursor {
        SpecCursor { pos: self.pos as int, line: self.line as int, column: self.column as int }
    }
}

/// The cursor at the start of the input.
pub open spec fn start_cursor() -> SpecCursor {
    SpecCursor { pos: 0, line: 1, column: 1 }
}

/// Bytes that are tokens by themselves.
pub open spec fn spec_is_symbol(b: u8) -> bool {
    b == 0x2c || b == 0x7b || b == 0x7d || b == 0x28 || b == 0x29 || b == 0x5b || b == 0x5d || b
        == 0x3b || b == 0x3a
}

/// `u8::is_ascii_whitespace`: space, tab, line feed, form feed, carriage return.
pub open spec fn spec_ascii_ws(b: u8) -> bool {
    b == 0x20 || b == 0x09 || b == 0x0a || b == 0x0c || b == 0x0d
}

pub fn is_symbol(b: u8) -> (r: bool)
    ensures
        r == spec_is_symbol(b),
{
    b == 0x2c || b == 0x7b || b == 0x7d || b == 0x28 || b == 0x29 || b == 0x5b || b == 0x5d || b
        == 0x3b || b == 0x3a
}

pub fn is_ascii_ws(b: u8) -> (r: bool)
    ensures
        r == spec_ascii_ws(b),
{
    b == 0x20 || b == 0x09 || b == 0x0a || b == 0x0c || b == 0x0d
}

/// The byte at `i`, if any.
pub open spec fn byte_at(d: Seq<u8>, i: int) -> Option<u8> {
    if 0 <= i < d.len() {
        Some(d[i])
    } else {
        None
    }
}

/// The cursor after consuming the byte under it (unchanged at the end).
pub open spec fn spec_bump(d: Seq<u8>, c: SpecCursor) -> SpecCursor {
    if 0 <= c.pos < d.len() {
        if d[c.pos] == 0x0a {
            SpecCursor { pos: c.pos + 1, line: c.line + 1, column: 1 }
        } else {
            SpecCursor { pos: c.pos + 1, line: c.line, column: c.column + 1 }
        }
    } else {
        c
    }
}

/// The cursor after a line comment: just past the next line feed, or at the end.
pub open spec fn spec_skip_line(d: Seq<u8>, c: SpecCursor) -> SpecCursor
    decreases d.len() - c.pos,
{
    if 0 <= c.pos < d.len() {
        if d[c.pos] == 0x0a {
            spec_bump(d, c)
        } else {
            spec_skip_line(d, spec_bump(d, c))
        }
    } else {
        c
    }
}

/// The cursor just past the `*/` that closes a block comment, given the byte
/// before the cursor; `None` when the input ends first.
pub open spec fn spec_skip_block(d: Seq<u8>, c: SpecCursor, prev: u8) -> Option<SpecCursor>
    decreases d.len() - c.pos,
{
    if 0 <= c.pos < d.len() {
        let b = d[c.pos];
        if prev == 0x2a && b == 0x2f {
            Some(spec_bump(d, c))
        } else {
            spec_skip_block(d, spec_bump(d, c), b)
        }
    } else {
        None
    }
}

/// The cursor after whitespace, `\`-newline continuations and comments.
pub open spec fn spec_skip_trivia(d: Seq<u8>, c: SpecCursor) -> Result<SpecCursor, SpecError>
    decreases d.len() - c.pos,
{
    if !(0 <= c.pos < d.len()) {
        Ok(c)
    } else {
        let b = d[c.pos];
        let n = byte_at(d, c.pos + 1);
        if spec_ascii_ws(b) {
            spec_skip_trivia(d, spec_bump(d, c))
        } else if b == 0x5c && (n == Some(0x0au8) || n == Some(0x0du8)) {
            let c1 = spec_bump(d, c);
            let c2 = spec_bump(d, c1);
            let c3 = if n == Some(0x0du8) && byte_at(d, c2.pos) == Some(0x0au8) {
                spec_bump(d, c2)
            } else {
                c2
            };
            spec_skip_trivia(d, c3)
        } else if b == 0x23 {
            let c1 = spec_skip_line(d, c);
            if c.pos < c1.pos <= d.len() {
                spec_skip_trivia(d, c1)
            } else {
                Ok(c)
            }
        } else if b == 0x2f && n == Some(0x2fu8) {
            let c1 = spec_skip_line(d, spec_bump(d, spec_bump(d, c)));
            if c.pos < c1.pos <= d.len() {
                spec_skip_trivia(d, c1)
            } else {
                Ok(c)
            }
        } else if b == 0x2f && n == Some(0x2au8) {
            match spec_skip_block(d, spec_bump(d, spec_bump(d, c)), 0) {
                Some(c1) => if c.pos < c1.pos <= d.len() {
                    spec_skip_trivia(d, c1)
                } else {
                    Ok(c)
                },
                None => Err(
                    SpecError {
                        line: c.line,
                        column: c.column,
                        message: "unterminated block comment"@,
                    },
                ),
            }
        } else {
            Ok(c)
        }
    }
}

/// The rest of a bare word from `c`, appended to `acc`, and the cursor after it.
pub open spec fn spec_read_word(d: Seq<u8>, c: SpecCursor, acc: Seq<u8>) -> (Seq<u8>, SpecCursor)
    decreases d.len() - c.pos,
{
    if !(0 <= c.pos < d.len()) {
        (acc, c)
    } else {
        let b = d[c.pos];
        let n = byte_at(d, c.pos + 1);
        if spec_ascii_ws(b) || spec_is_symbol(b) {
            (acc, c)
        } else if b == 0x2f && (n == Some(0x2au8) || n == Some(0x2fu8)) {
            (acc, c)
        } else if b == 0x5c {
            let c1 = spec_bump(d, c);
            match n {
                Some(e) => if e == 0x0a {
                    spec_read_word(d, spec_bump(d, c1), acc)
                } else if e == 0x0d {
                    let c2 = spec_bump(d, c1);
                    if byte_at(d, c2.pos) == Some(0x0au8) {
                        spec_read_word(d, spec_bump(d, c2), acc)
                    } else {
                        spec_read_word(d, c2, acc)
                    }
                } else {
                    spec_read_word(d, spec_bump(d, c1), acc.push(0x5c).push(e))
                },
                None => spec_read_word(d, c1, acc.push(0x5c)),
            }
        } else {
            spec_read_word(d, spec_bump(d, c), acc.push(b))
        }
    }
}

/// The contents of a quoted string from `c` (after the opening quote), appended
/// to `acc`, and the cursor after the closing quote; `None` when the input ends
/// first. `escaped` tells that the previous byte was an unconsumed `\`.
pub open spec fn spec_read_quoted(
    d: Seq<u8>,
    c: SpecCursor,
    quote: u8,
    acc: Seq<u8>,
    escaped: bool,
) -> Option<(Seq<u8>, SpecCursor)>
    decreases d.len() - c.pos,
{
    if !(0 <= c.pos < d.len()) {
        None
    } else {
        let b = d[c.pos];
        let c1 = spec_bump(d, c);
        if escaped {
            if b == 0x0a {
                spec_read_quoted(d, c1, quote, acc, false)
            } else if b == 0x0d {
                if byte_at(d, c1.pos) == Some(0x0au8) {
                    spec_read_quoted(d, spec_bump(d, c1), quote, acc, false)
                } else {
                    spec_read_quoted(d, c1, quote, acc, false)
                }
            } else {
                spec_read_quoted(d, c1, quote, acc.push(b), false)
            }
        } else if b == 0x5c {
            spec_read_quoted(d, c1, quote, acc, true)
        } else if b == quote {
            Some((acc, c1))
        } else {
            spec_read_quoted(d, c1, quote, acc.push(b), false)
        }
    }
}

/// The next token from `c` and the cursor after it; no token at the end of the
/// input (the cursor then past the trailing whitespace and comments).
pub open spec fn spec_next_token(d: Seq<u8>, c: SpecCursor) -> Result<
    (Option<SpecToken>, SpecCursor),
    SpecError,
> {
    match spec_skip_trivia(d, c) {
        Err(e) => Err(e),
        Ok(c1) => if !(0 <= c1.pos < d.len()) {
            Ok((None, c1))
        } else {
            let b = d[c1.pos];
            let c2 = spec_bump(d, c1);
            if spec_is_symbol(b) {
                Ok(
                    (
                        Some(SpecToken { kind: SpecKind::Symbol(b), line: c1.line, column: c1.column }),
                        c2,
                    ),
                )
            } else if b == 0x22 || b == 0x27 {
                match spec_read_quoted(d, c2, b, Seq::empty(), false) {
                    Some((bytes, c3)) => Ok(
                        (
                            Some(
                                SpecToken {
                                    kind: SpecKind::Word(utf8_lossy(bytes)),
                                    line: c1.line,
                                    column: c1.column,
                                },
                            ),
                            c3,
                        ),
                    ),
                    None => Err(
                        SpecError {
                            line: c1.line,
                            column: c1.column,
                            message: "unterminated quoted string"@,
                        },
                    ),
                }
            } else {
                let (bytes, c3) = spec_read_word(d, c2, seq![b]);
                Ok(
                    (
                        Some(
                            SpecToken {
                                kind: SpecKind::Word(utf8_lossy(bytes)),
                                line: c1.line,
                                column: c1.column,
                            },
                        ),
                        c3,
                    ),
                )
            }
        },
    }
}

/// The tokens of `d` from `c` on, the error that stopped lexing if one did, and
/// the cursor where lexing stopped.
pub open spec fn spec_lex_from(d: Seq<u8>, c: SpecCursor) -> (
    Seq<SpecToken>,
    Option<SpecError>,
    SpecCursor,
)
    decreases d.len() - c.pos,
{
    match spec_next_token(d, c) {
        Err(e) => (Seq::empty(), Some(e), c),
        Ok((None, c1)) => (Seq::empty(), None, c1),
        Ok((Some(t), c1)) => if c.pos < c1.pos <= d.len() {
            let (ts, e, end) = spec_lex_from(d, c1);
            (seq![t] + ts, e, end)
        } else {
            (Seq::empty(), None, c1)
        },
    }
}

/// The tokens of the whole input.
pub open spec fn spec_lex(d: Seq<u8>) -> (Seq<SpecToken>, Option<SpecError>, SpecCursor) {
    spec_lex_from(d, start_cursor())
}

/// Cursor invariant: in range, and line and column no larger than the bytes
/// consumed allow.
pub open spec fn cursor_ok(d: Seq<u8>, c: SpecCursor) -> bool {
    &&& 0 <= c.pos <= d.len()
    &&& 1 <= c.line <= c.pos + 1
    &&& 1 <= c.column <= c.pos + 1
    &&& d.len() < usize::MAX
}

fn bump(d: &[u8], c: &mut Cursor)
    requires
        cursor_ok(d@, old(c)@),
        old(c).pos < d@.len(),
    ensures
        cursor_ok(d@, final(c)@),
        final(c)@ == spec_bump(d@, old(c)@),
{
    if d[c.pos] == 0x0a {
        c.line = c.line + 1;
        c.column = 1;
    } else {
        c.column = c.column + 1;
    }
    c.pos = c.pos + 1;
}

fn peek_at(d: &[u8], i: usize) -> (r: Option<u8>)
    ensures
        r == byte_at(d@, i as int),
{
    if i < d.len() {
        Some(d[i])
    } else {
        None
    }
}

fn skip_line(d: &[u8], c: &mut Cursor)
    requires
        cursor_ok(d@, old(c)@),
    ensures
        cursor_ok(d@, final(c)@),
        final(c)@ == spec_skip_line(d@, old(c)@),
        final(c).pos >= old(c).pos,
        old(c).pos < d@.len() ==> final(c).pos > old(c).pos,
{
    while c.pos < d.len()
        invariant
            cursor_ok(d@, c@),
            spec_skip_line(d@, c@) == spec_skip_line(d@, old(c)@),
            c.pos >= old(c).pos,
            old(c).pos < d@.len() && c.pos == old(c).pos ==> c@ == old(c)@,
        decreases d@.len() - c.pos,
    {
        let b = d[c.pos];
        bump(d, c);
        if b == 0x0a {
            return ;
        }
    }
}

fn skip_block(d: &[u8], c: &mut Cursor) -> (r: bool)
    requires
        cursor_ok(d@, old(c)@),
    ensures
        cursor_ok(d@, final(c)@),
        match spec_skip_block(d@, old(c)@, 0) {
            Some(c1) => r && final(c)@ == c1,
            None => !r,
        },
        final(c).pos >= old(c).pos,
{
    let mut prev: u8 = 0;
    while c.pos < d.len()
        invariant
            cursor_ok(d@, c@),
            spec_skip_block(d@, c@, prev) == spec_skip_block(d@, old(c)@, 0),
            c.pos >= old(c).pos,
        decreases d@.len() - c.pos,
    {
        let b = d[c.pos];
        bump(d, c);
        if prev == 0x2a && b == 0x2f {
            return true;
        }
        prev = b;
    }
    false
}

fn skip_trivia(d: &[u8], c: &mut Cursor) -> (r: Result<(), ParseError>)
    requires
        cursor_ok(d@, old(c)@),
    ensures
        cursor_ok(d@, final(c)@),
        final(c).pos >= old(c).pos,
        match spec_skip_trivia(d@, old(c)@) {
            Ok(c1) => r is Ok && final(c)@ == c1,
            Err(e) => r is Err && r->Err_0@ == e,
        },
{
    loop
        invariant
            cursor_ok(d@, c@),
            c.pos >= old(c).pos,
            spec_skip_trivia(d@, c@) == spec_skip_trivia(d@, old(c)@),
        decreases d@.len() - c.pos,
    {
        if c.pos >= d.len() {
            return Ok(());
        }
        let b = d[c.pos];
        let n = peek_at(d, c.pos + 1);
        if is_ascii_ws(b) {
            bump(d, c);
        } else if b == 0x5c && (n == Some(0x0au8) || n == Some(0x0du8)) {
            bump(d, c);
            bump(d, c);
            if n == Some(0x0du8) && peek_at(d, c.pos) == Some(0x0au8) {
                bump(d, c);
            }
        } else if b == 0x23 {
            skip_line(d, c);
        } else if b == 0x2f && n == Some(0x2fu8) {
            bump(d, c);
            bump(d, c);
            skip_line(d, c);
        } else if b == 0x2f && n == Some(0x2au8) {
            let line = c.line;
            let column = c.column;
            bump(d, c);
            bump(d, c);
            if !skip_block(d, c) {
                return Err(ParseError::new(line, column, "unterminated block comment"));
            }
        } else {
            return Ok(());
        }
    }
}

fn read_word(d: &[u8], c: &mut Cursor, acc: &mut Vec<u8>)
    requires
        cursor_ok(d@, old(c)@),
    ensures
        cursor_ok(d@, final(c)@),
        final(c).pos >= old(c).pos,
        (final(acc)@, final(c)@) == spec_read_word(d@, old(c)@, old(acc)@),
{
    loop
        invariant
            cursor_ok(d@, c@),
            c.pos >= old(c).pos,
            spec_read_word(d@, c@, acc@) == spec_read_word(d@, old(c)@, old(acc)@),
        decreases d@.len() - c.pos,
    {
        if c.pos >= d.len() {
            return ;
        }
        let b = d[c.pos];
        let n = peek_at(d, c.pos + 1);
        if is_ascii_ws(b) || is_symbol(b) {
            return ;
        } else if b == 0x2f && (n == Some(0x2au8) || n == Some(0x2fu8)) {
            return ;
        } else if b == 0x5c {
            bump(d, c);
            match n {
                Some(e) => {
                    if e == 0x0a {
                        bump(d, c);
                    } else if e == 0x0d {
                        bump(d, c);
                        if peek_at(d, c.pos) == Some(0x0au8) {
                            bump(d, c);
                        }
                    } else {
                        acc.push(0x5c);
                        acc.push(e);
                        bump(d, c);
                    }
                },
                None => {
                    acc.push(0x5c);
                },
            }
        } else {
            acc.push(b);
            bump(d, c);
        }
    }
}

fn read_quoted(d: &[u8], c: &mut Cursor, quote: u8, acc: &mut Vec<u8>) -> (r: bool)
    requires
        cursor_ok(d@, old(c)@),
    ensures
        cursor_ok(d@, final(c)@),
        final(c).pos >= old(c).pos,
        match spec_read_quoted(d@, old(c)@, quote, old(acc)@, false) {
            Some((bytes, c1)) => r && final(acc)@ == bytes && final(c)@ == c1,
            None => !r,
        },
{
    let mut escaped = false;
    while c.pos < d.len()
        invariant
            cursor_ok(d@, c@),
            c.pos >= old(c).pos,
            spec_read_quoted(d@, c@, quote, acc@, escaped) == spec_read_quoted(
                d@,
                old(c)@,
                quote,
                old(acc)@,
                false,
            ),
        decreases d@.len() - c.pos,
    {
        let b = d[c.pos];
        bump(d, c);
        if escaped {
            if b == 0x0a {
            } else if b == 0x0d {
                if peek_at(d, c.pos) == Some(0x0au8) {
                    bump(d, c);
                }
            } else {
                acc.push(b);
            }
            escaped = false;
        } else if b == 0x5c {
            escaped = true;
        } else if b == quote {
            return true;
        } else {
            acc.push(b);
        }
    }
    false
}

/// The next token from cursor `c`; `Ok(None)` at the end of the input.
pub fn next_token(d: &[u8], c: &mut Cursor) -> (r: Result<Option<Token>, ParseError>)
    requires
        cursor_ok(d@, old(c)@),
    ensures
        cursor_ok(d@, final(c)@),
        final(c).pos >= old(c).pos,
        match spec_next_token(d@, old(c)@) {
            Ok((t, c1)) => r is Ok && final(c)@ == c1 && match t {
                Some(t) => r->Ok_0 is Some && r->Ok_0->Some_0@ == t && final(c).pos > old(c).pos,
                None => r->Ok_0 is None,
            },
            Err(e) => r is Err && r->Err_0@ == e,
        },
{
    skip_trivia(d, c)?;
    if c.pos >= d.len() {
        return Ok(None);
    }
    let line = c.line;
    let column = c.column;
    let b = d[c.pos];
    bump(d, c);
    if is_symbol(b) {
        return Ok(Some(Token { kind: TokenKind::Symbol(b), line, column }));
    }
    if b == 0x22 || b == 0x27 {
        let mut bytes: Vec<u8> = Vec::new();
        if read_quoted(d, c, b, &mut bytes) {
            let w = lossy_string(bytes.as_slice());
            return Ok(Some(Token { kind: TokenKind::Word(w), line, column }));
        } else {
            return Err(ParseError::new(line, column, "unterminated quoted string"));
        }
    }
    let mut bytes: Vec<u8> = Vec::new();
    bytes.push(b);
    proof {
        assert(bytes@ =~= seq![b]);
    }
    read_word(d, c, &mut bytes);
    let w = lossy_string(bytes.as_slice());
    Ok(Some(Token { kind: TokenKind::Word(w), line, column }))
}

/// The result of lexing a whole input.
pub struct Lexed {
    pub tokens: Vec<Token>,
    pub error: Option<ParseError>,
    pub end_line: usize,
    pub end_column: usize,
}

/// Views of a vector of tokens.
pub open spec fn token_views(v: Seq<Token>) -> Seq<SpecToken> {
    v.map_values(|t: Token| t@)
}

/// Whether `l` is what lexing `d` gives.
pub open spec fn lexed_from(l: &Lexed, d: Seq<u8>) -> bool {
    let (ts, e, end) = spec_lex(d);
    &&& token_views(l.tokens@) == ts
    &&& match e {
        Some(e) => l.error is Some && l.error->Some_0@ == e,
        None => l.error is None,
    }
    &&& l.end_line == end.line
    &&& l.end_column == end.column
}

/// Lexes the whole input, stopping at the first error.
pub fn lex(d: &[u8]) -> (r: Lexed)
    requires
        d@.len() < usize::MAX,
    ensures
        lexed_from(&r, d@),
{
    let mut c = Cursor { pos: 0, line: 1, column: 1 };
    let mut tokens: Vec<Token> = Vec::new();
    loop
        invariant
            cursor_ok(d@, c@),
            ({
                let (ts, e, end) = spec_lex_from(d@, c@);
                let (ts0, e0, end0) = spec_lex(d@);
                &&& token_views(tokens@) + ts == ts0
                &&& e == e0
                &&& end == end0
            }),
        decreases d@.len() - c.pos,
    {
        let ghost c0 = c@;
        let ghost old_tokens = tokens@;
        let (line0, column0) = (c.line, c.column);
        match next_token(d, &mut c) {
            Err(e) => {
                proof {
                    assert(token_views(tokens@) + Seq::<SpecToken>::empty() =~= token_views(
                        tokens@,
                    ));
                }
                return Lexed { tokens, error: Some(e), end_line: line0, end_column: column0 };
            },
            Ok(None) => {
                proof {
                    assert(token_views(tokens@) + Seq::<SpecToken>::empty() =~= token_views(
                        tokens@,
                    ));
                }
                return Lexed { tokens, error: None, end_line: c.line, end_column: c.column };
            },
            Ok(Some(t)) => {
                tokens.push(t);
                proof {
                    let (ts, e, end) = spec_lex_from(d@, c@);
                    assert(token_views(tokens@) =~= token_views(old_tokens).push(tokens@.last()@));
                    assert(token_views(tokens@) + ts =~= token_views(old_tokens) + (seq![
                        tokens@.last()@,
                    ] + ts));
                }
            },
        }
    }
}

/// The strings that encode a token stream: `W` then the word, or `S` then the
/// symbol character.
pub open spec fn token_code(t: SpecToken) -> Seq<char> {
    match t.kind {
        SpecKind::Word(w) => "W"@ + w,
        SpecKind::Symbol(b) => "S"@.push(b as char),
    }
}

/// Encodes the token stream of `d` as strings (`W<word>`, `S<symbol>`).
/// Comments and whitespace are not tokens, so inputs with equal encodings parse
/// alike.
pub fn lex_all(d: &[u8]) -> (r: Result<Vec<String>, ParseError>)
    requires
        d@.len() < usize::MAX,
    ensures
        ({
            let (ts, e, _) = spec_lex(d@);
            match e {
                Some(e) => r is Err && r->Err_0@ == e,
                None => r is Ok && r->Ok_0@.len() == ts.len() && forall|k: int|
                    0 <= k < ts.len() ==> #[trigger] r->Ok_0@[k]@ == token_code(ts[k]),
            }
        }),
{
    let lexed = lex(d);
    if let Some(e) = lexed.error {
        return Err(e);
    }
    let mut out: Vec<String> = Vec::new();
    let mut i: usize = 0;
    while i < lexed.tokens.len()
        invariant
            i <= lexed.tokens@.len(),
            out@.len() == i,
            forall|k: int| 0 <= k < i ==> #[trigger] out@[k]@ == token_code(lexed.tokens@[k]@),
        decreases lexed.tokens@.len() - i,
    {
        let t = &lexed.tokens[i];
        match &t.kind {
            TokenKind::Word(v) => {
                let mut s = string_of("W");
                append_str(&mut s, v.as_str());
                out.push(s);
            },
            TokenKind::Symbol(b) => {
                let mut s = string_of("S");
                push_char(&mut s, *b as char);
                out.push(s);
            },
        }
        i = i + 1;
    }
    proof {
        assert forall|k: int| 0 <= k < lexed.tokens@.len() implies token_views(lexed.tokens@)[k]
            == lexed.tokens@[k]@ by {}
    }
    Ok(out)
}

/// Every token takes at least one byte.
pub proof fn lemma_lex_count(d: Seq<u8>, c: SpecCursor)
    requires
        0 <= c.pos <= d.len(),
    ensures
        spec_lex_from(d, c).0.len() <= d.len() - c.pos,
    decreases d.len() - c.pos,
{
    match spec_next_token(d, c) {
        Err(_) => {},
        Ok((None, _)) => {},
        Ok((Some(_), c1)) => {
            if c.pos < c1.pos <= d.len() {
                lemma_lex_count(d, c1);
            }
        },
    }
}

} // verus!
