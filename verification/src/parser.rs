//! The Liberty parser: tokens to a `Document`. Groups it does not model are
//! skipped with balanced braces; a parse stops at the first error, which names
//! a line and column.
use vstd::prelude::*;
use crate::number::{numbers_only, keep_numbers};
use crate::text::{
    texts, spec_join, spec_split, spec_trim, spec_words, join, split_trimmed, words, string_is,
    string_of, push_char, append_str, debug_quoted, debug_string,
};
use crate::lexer::{
    ParseError, SpecError, Token, TokenKind, SpecToken, SpecKind, Lexed, token_views, spec_lex,
};
use crate::data::{
    TimingTableData, TimingArcData, InternalPowerData, PinData, BusData, BundleData, BusTypeData,
    PgCurrentData, SwitchingGroupData, DynamicCurrentData, CellData, TemplateVars, Document, Text,
    SpecTable, SpecArc, SpecPower, SpecPin, SpecBus, SpecBundle, SpecBusType, SpecPgCurrent,
    SpecSwitching, SpecDynamic, SpecCell, SpecTemplate, SpecDoc, opt_text, clone_opt, tables, arcs,
    pins, buses, bundles, bus_types, pg_currents, switching_groups, cells,
    templates,
};

verus! {

/// The token stream a parse works on: the tokens, the error that ended lexing
/// (if any), and the position of the end of the input.
pub struct Input {
    pub toks: Seq<SpecToken>,
    pub err: Option<SpecError>,
    pub end_line: int,
    pub end_column: int,
}

pub open spec fn input_of(l: &Lexed) -> Input {
    Input {
        toks: token_views(l.tokens@),
        err: match l.error {
            Some(e) => Some(e@),
            None => None,
        },
        end_line: l.end_line as int,
        end_column: l.end_column as int,
    }
}

/// The input that lexing `d` gives.
pub open spec fn input_of_bytes(d: Seq<u8>) -> Input {
    let (ts, e, end) = spec_lex(d);
    Input { toks: ts, err: e, end_line: end.line, end_column: end.column }
}

/// Result of parsing a piece: the value and the position of the next token.
pub type Parsed<T> = Result<(T, int), SpecError>;

/// The position after the current token (position `i`); moving past the last
/// token surfaces the lexing error, if there was one.
pub open spec fn spec_advance(inp: Input, i: int) -> Result<int, SpecError> {
    if i + 1 < inp.toks.len() {
        Ok(i + 1)
    } else if i < inp.toks.len() && inp.err is Some {
        Err(inp.err->Some_0)
    } else {
        Ok(inp.toks.len() as int)
    }
}

pub open spec fn cur(inp: Input, i: int) -> Option<SpecToken> {
    if 0 <= i < inp.toks.len() {
        Some(inp.toks[i])
    } else {
        None
    }
}

pub open spec fn is_sym(inp: Input, i: int, b: u8) -> bool {
    0 <= i < inp.toks.len() && inp.toks[i].kind == SpecKind::Symbol(b)
}

/// Line and column of position `i`: those of its token, or of the end.
pub open spec fn error_here(inp: Input, i: int, msg: Text) -> SpecError {
    if 0 <= i < inp.toks.len() {
        SpecError { line: inp.toks[i].line, column: inp.toks[i].column, message: msg }
    } else {
        SpecError { line: inp.end_line, column: inp.end_column, message: msg }
    }
}

/// Consumes symbol `b` if it is the current token.
pub open spec fn spec_consume(inp: Input, i: int, b: u8) -> Parsed<bool> {
    if is_sym(inp, i, b) {
        match spec_advance(inp, i) {
            Ok(j) => Ok((true, j)),
            Err(e) => Err(e),
        }
    } else {
        Ok((false, i))
    }
}

pub open spec fn expected_message(b: u8) -> Text {
    "expected '"@.push(b as char) + "'"@
}

/// Consumes symbol `b`, which must be the current token.
pub open spec fn spec_expect(inp: Input, i: int, b: u8) -> Result<int, SpecError> {
    match spec_consume(inp, i, b) {
        Ok((true, j)) => Ok(j),
        Ok((false, _)) => Err(error_here(inp, i, expected_message(b))),
        Err(e) => Err(e),
    }
}

/// Consumes a word, which must be the current token.
pub open spec fn spec_take_word(inp: Input, i: int) -> Parsed<Text> {
    match cur(inp, i) {
        Some(t) => match t.kind {
            SpecKind::Word(w) => match spec_advance(inp, i) {
                Ok(j) => Ok((w, j)),
                Err(e) => Err(e),
            },
            SpecKind::Symbol(_) => Err(
                SpecError { line: t.line, column: t.column, message: "expected identifier or value"@ },
            ),
        },
        None => Err(error_here(inp, i, "unexpected end of file"@)),
    }
}

/// An argument value: a word, optionally followed by `[selector]`.
pub open spec fn spec_read_value(inp: Input, i: int) -> Parsed<Text> {
    match spec_take_word(inp, i) {
        Err(e) => Err(e),
        Ok((w, j)) => match spec_consume(inp, j, 0x5b) {
            Err(e) => Err(e),
            Ok((false, k)) => Ok((w, k)),
            Ok((true, k)) => match spec_take_word(inp, k) {
                Err(e) => Err(e),
                Ok((sel, m)) => match spec_expect(inp, m, 0x5d) {
                    Err(e) => Err(e),
                    Ok(p) => Ok((w + "["@ + sel + "]"@, p)),
                },
            },
        },
    }
}

/// Whether the arguments of group or attribute `name` may be separated by
/// spaces instead of commas.
pub open spec fn allows_spaces(name: Text) -> bool {
    name == "input_switching_condition"@ || name == "output_switching_condition"@
}

/// Arguments up to and including the closing `)`, after those in `acc`.
pub open spec fn spec_args_from(inp: Input, i: int, allow: bool, acc: Seq<Text>) -> Parsed<
    Seq<Text>,
>
    decreases inp.toks.len() - i,
{
    match spec_consume(inp, i, 0x29) {
        Err(e) => Err(e),
        Ok((true, j)) => Ok((acc, j)),
        Ok((false, _)) => match spec_read_value(inp, i) {
            Err(e) => Err(e),
            Ok((v, k)) => match spec_consume(inp, k, 0x29) {
                Err(e) => Err(e),
                Ok((true, m)) => Ok((acc.push(v), m)),
                Ok((false, _)) => {
                    let next = if allow {
                        match spec_consume(inp, k, 0x2c) {
                            Ok((_, p)) => Ok(p),
                            Err(e) => Err(e),
                        }
                    } else {
                        spec_expect(inp, k, 0x2c)
                    };
                    match next {
                        Err(e) => Err(e),
                        Ok(p) => if i < p <= inp.toks.len() {
                            spec_args_from(inp, p, allow, acc.push(v))
                        } else {
                            Err(error_here(inp, i, Seq::empty()))
                        },
                    }
                },
            },
        },
    }
}

/// The arguments after `(` of group or attribute `name`.
pub open spec fn spec_read_args(inp: Input, i: int, name: Text) -> Parsed<Seq<Text>> {
    spec_args_from(inp, i, allows_spaces(name), Seq::empty())
}

/// The text of a token: the word, or the symbol character.
pub open spec fn token_text(t: SpecToken) -> Text {
    match t.kind {
        SpecKind::Word(w) => w,
        SpecKind::Symbol(b) => seq![b as char],
    }
}

/// The tokens of a simple attribute value up to `;`, joined by spaces, after
/// those in `parts`.
pub open spec fn spec_value_from(inp: Input, i: int, parts: Seq<Text>) -> Parsed<Text>
    decreases inp.toks.len() - i,
{
    match spec_consume(inp, i, 0x3b) {
        Err(e) => Err(e),
        Ok((true, j)) => Ok((spec_join(parts, " "@), j)),
        Ok((false, _)) => if !(0 <= i < inp.toks.len()) {
            Err(error_here(inp, i, "unexpected end of file in attribute value"@))
        } else {
            match spec_advance(inp, i) {
                Err(e) => Err(e),
                Ok(k) => if i < k <= inp.toks.len() {
                    spec_value_from(inp, k, parts.push(token_text(inp.toks[i])))
                } else {
                    Err(error_here(inp, i, Seq::empty()))
                },
            }
        },
    }
}

/// A simple attribute's value (after `:`).
pub open spec fn spec_read_simple_value(inp: Input, i: int) -> Parsed<Text> {
    spec_value_from(inp, i, Seq::empty())
}

/// Skips the rest of a group whose braces are `depth` deep, up to and including
/// its closing `}`.
pub open spec fn spec_skip_group(inp: Input, i: int, depth: nat) -> Result<int, SpecError>
    decreases inp.toks.len() - i,
{
    if !(0 <= i < inp.toks.len()) {
        Err(error_here(inp, i, "unexpected end of file while skipping group"@))
    } else {
        match spec_advance(inp, i) {
            Err(e) => Err(e),
            Ok(j) => if i < j <= inp.toks.len() {
                if inp.toks[i].kind == SpecKind::Symbol(0x7b) {
                    spec_skip_group(inp, j, depth + 1)
                } else if inp.toks[i].kind == SpecKind::Symbol(0x7d) {
                    if depth <= 1 {
                        Ok(j)
                    } else {
                        spec_skip_group(inp, j, (depth - 1) as nat)
                    }
                } else {
                    spec_skip_group(inp, j, depth)
                }
            } else {
                Err(error_here(inp, i, Seq::empty()))
            },
        }
    }
}

/// The start of an item inside a group: a nested group (after its `{`), a
/// complex attribute (after its `)`), a simple attribute (after its `;`), or
/// none of these (after the item's name).
pub enum SpecHead {
    Group(Text, Seq<Text>),
    Complex(Text, Seq<Text>),
    Simple(Text, Text),
    Bad,
}

#[verifier::opaque]
pub open spec fn spec_head(inp: Input, i: int) -> Parsed<SpecHead> {
    match spec_take_word(inp, i) {
        Err(e) => Err(e),
        Ok((name, j)) => match spec_consume(inp, j, 0x28) {
            Err(e) => Err(e),
            Ok((true, k)) => match spec_read_args(inp, k, name) {
                Err(e) => Err(e),
                Ok((args, k2)) => match spec_consume(inp, k2, 0x7b) {
                    Err(e) => Err(e),
                    Ok((true, k3)) => Ok((SpecHead::Group(name, args), k3)),
                    Ok((false, k3)) => Ok((SpecHead::Complex(name, args), k3)),
                },
            },
            Ok((false, _)) => match spec_consume(inp, j, 0x3a) {
                Err(e) => Err(e),
                Ok((true, m)) => match spec_read_simple_value(inp, m) {
                    Err(e) => Err(e),
                    Ok((v, m2)) => Ok((SpecHead::Simple(name, v), m2)),
                },
                Ok((false, _)) => Ok((SpecHead::Bad, j)),
            },
        },
    }
}

/// `r` followed by an optional `;`.
pub open spec fn then_semicolon<T>(inp: Input, r: Parsed<T>) -> Parsed<T> {
    match r {
        Err(e) => Err(e),
        Ok((x, k)) => match spec_consume(inp, k, 0x3b) {
            Err(e) => Err(e),
            Ok((_, m)) => Ok((x, m)),
        },
    }
}

/// `acc` after skipping a group body.
pub open spec fn skipped<T>(inp: Input, j: int, acc: T) -> Parsed<T> {
    match spec_skip_group(inp, j, 1) {
        Err(e) => Err(e),
        Ok(k) => Ok((acc, k)),
    }
}

pub open spec fn first_or_empty(args: Seq<Text>) -> Text {
    if args.len() > 0 {
        args[0]
    } else {
        Seq::empty()
    }
}

pub open spec fn first_opt(args: Seq<Text>) -> Option<Text> {
    if args.len() > 0 {
        Some(args[0])
    } else {
        None
    }
}

/// The comma-separated, trimmed items of an optional list text that read as
/// numbers.
pub open spec fn list_items(o: Option<Text>) -> Seq<Text> {
    match o {
        Some(s) => numbers_only(spec_split(s, ',').map_values(|p: Text| spec_trim(p))),
        None => Seq::empty(),
    }
}

/// The comma-separated, trimmed items of every argument that read as
/// numbers, in order.
pub open spec fn all_items(args: Seq<Text>) -> Seq<Text>
    decreases args.len(),
{
    if args.len() == 0 {
        Seq::empty()
    } else {
        all_items(args.drop_last()) + list_items(Some(args.last()))
    }
}

/// The whitespace-separated words of every argument, in order.
pub open spec fn member_names(args: Seq<Text>) -> Seq<Text>
    decreases args.len(),
{
    if args.len() == 0 {
        Seq::empty()
    } else {
        member_names(args.drop_last()) + spec_words(args.last())
    }
}

/// An arbitrary error for positions a parse cannot reach.
pub open spec fn stuck(inp: Input, i: int) -> SpecError {
    error_here(inp, i, Seq::empty())
}

// ---- lookup tables ----
pub open spec fn is_timing_table_name(n: Text) -> bool {
    n == "cell_rise"@ || n == "cell_fall"@ || n == "rise_transition"@ || n == "fall_transition"@
        || n == "rise_constraint"@ || n == "fall_constraint"@ || n == "cell_degradation"@ || n
        == "retaining_rise"@ || n == "retaining_fall"@ || n == "retain_rise_slew"@ || n
        == "retain_fall_slew"@ || n == "output_current_rise"@ || n == "output_current_fall"@ || n
        == "ccst_rise"@ || n == "ccst_fall"@ || n == "ccsp_rise"@ || n == "ccsp_fall"@ || n
        == "ccsn_first_stage"@ || n == "ccsn_last_stage"@ || n == "ccsn_rise_first_stage"@ || n
        == "ccsn_rise_last_stage"@ || n == "ccsn_fall_first_stage"@ || n
        == "ccsn_fall_last_stage"@ || n == "receiver_capacitance1_rise"@ || n
        == "receiver_capacitance1_fall"@ || n == "receiver_capacitance2_rise"@ || n
        == "receiver_capacitance2_fall"@
}

pub open spec fn is_power_table_name(n: Text) -> bool {
    n == "rise_power"@ || n == "fall_power"@ || n == "power"@
}

pub open spec fn new_table(name: Text, template: Option<Text>) -> SpecTable {
    SpecTable {
        name,
        index_1: Seq::empty(),
        index_2: Seq::empty(),
        index_3: Seq::empty(),
        values: Seq::empty(),
        template,
        reference_time: None,
        vectors: Seq::empty(),
    }
}

/// One item of a table group body.
pub open spec fn spec_table_item(inp: Input, i: int, acc: SpecTable) -> Parsed<SpecTable>
    decreases inp.toks.len() - i, 1int,
{
    match spec_head(inp, i) {
        Err(e) => Err(e),
        Ok((h, j)) => if !(i < j <= inp.toks.len()) {
            Err(stuck(inp, i))
        } else {
            match h {
                SpecHead::Group(name, args) => then_semicolon(
                    inp,
                    if name == "vector"@ {
                        match spec_table_body(inp, j, name, first_opt(args)) {
                            Err(e) => Err(e),
                            Ok((t, k)) => Ok((SpecTable { vectors: acc.vectors.push(t), ..acc }, k)),
                        }
                    } else {
                        skipped(inp, j, acc)
                    },
                ),
                SpecHead::Complex(name, args) => then_semicolon(
                    inp,
                    Ok(
                        (
                            if name == "index_1"@ {
                                SpecTable { index_1: list_items(first_opt(args)), ..acc }
                            } else if name == "index_2"@ {
                                SpecTable { index_2: list_items(first_opt(args)), ..acc }
                            } else if name == "index_3"@ {
                                SpecTable { index_3: list_items(first_opt(args)), ..acc }
                            } else if name == "values"@ {
                                SpecTable { values: all_items(args), ..acc }
                            } else {
                                acc
                            },
                            j,
                        ),
                    ),
                ),
                SpecHead::Simple(name, v) => Ok(
                    (
                        if name == "reference_time"@ {
                            SpecTable { reference_time: Some(v), ..acc }
                        } else if name == "driver_waveform_name"@ {
                            SpecTable { name: v, ..acc }
                        } else {
                            acc
                        },
                        j,
                    ),
                ),
                SpecHead::Bad => Err(
                    error_here(inp, j, "expected '(' or ':' after table item name"@),
                ),
            }
        },
    }
}

/// Table items up to and including the closing `}`.
pub open spec fn spec_table_items(inp: Input, i: int, acc: SpecTable) -> Parsed<SpecTable>
    decreases inp.toks.len() - i, 2int,
{
    match spec_consume(inp, i, 0x7d) {
        Err(e) => Err(e),
        Ok((true, j)) => Ok((acc, j)),
        Ok((false, _)) => match spec_table_item(inp, i, acc) {
            Err(e) => Err(e),
            Ok((a, j)) => if i < j <= inp.toks.len() {
                spec_table_items(inp, j, a)
            } else {
                Err(stuck(inp, i))
            },
        },
    }
}

/// A table group body (after its `{`).
pub open spec fn spec_table_body(inp: Input, i: int, name: Text, template: Option<Text>) -> Parsed<
    SpecTable,
>
    decreases inp.toks.len() - i, 3int,
{
    spec_table_items(inp, i, new_table(name, template))
}

// ---- executable parsing ----
/// How an executable result stands to a specified one.
pub open spec fn agrees<T: View>(r: Result<(T, usize), ParseError>, s: Parsed<T::V>) -> bool {
    match s {
        Ok((v, j)) => r is Ok && r->Ok_0.0@ == v && r->Ok_0.1 as int == j,
        Err(e) => r is Err && r->Err_0@ == e,
    }
}

pub open spec fn pos_agrees(r: Result<usize, ParseError>, s: Result<int, SpecError>) -> bool {
    match s {
        Ok(j) => r is Ok && r->Ok_0 as int == j,
        Err(e) => r is Err && r->Err_0@ == e,
    }
}

pub open spec fn flag_agrees(r: Result<(bool, usize), ParseError>, s: Parsed<bool>) -> bool {
    match s {
        Ok((v, j)) => r is Ok && r->Ok_0.0 == v && r->Ok_0.1 as int == j,
        Err(e) => r is Err && r->Err_0@ == e,
    }
}

pub open spec fn list_agrees(r: Result<(Vec<String>, usize), ParseError>, s: Parsed<Seq<Text>>) -> bool {
    match s {
        Ok((v, j)) => r is Ok && texts(r->Ok_0.0@) == v && r->Ok_0.1 as int == j,
        Err(e) => r is Err && r->Err_0@ == e,
    }
}

/// Positions a parse may stand at.
pub open spec fn at_pos(l: &Lexed, i: usize) -> bool {
    i <= l.tokens@.len() < usize::MAX
}

/// A positive result stays within the input and moves forward.
pub open spec fn moves<T>(r: Result<(T, usize), ParseError>, l: &Lexed, i: usize) -> bool {
    r is Ok ==> i <= r->Ok_0.1 <= l.tokens@.len()
}

fn clone_error(e: &ParseError) -> (r: ParseError)
    ensures
        r@ == e@,
{
    ParseError { line: e.line, column: e.column, message: e.message.clone() }
}

fn advance(l: &Lexed, i: usize) -> (r: Result<usize, ParseError>)
    requires
        at_pos(l, i),
    ensures
        pos_agrees(r, spec_advance(input_of(l), i as int)),
        r is Ok ==> i <= r->Ok_0 <= l.tokens@.len(),
        r is Ok && i < l.tokens@.len() ==> i < r->Ok_0,
{
    if i + 1 < l.tokens.len() {
        Ok(i + 1)
    } else if i < l.tokens.len() && l.error.is_some() {
        match &l.error {
            Some(e) => Err(clone_error(e)),
            None => Ok(l.tokens.len()),
        }
    } else {
        Ok(l.tokens.len())
    }
}

fn is_symbol_at(l: &Lexed, i: usize, b: u8) -> (r: bool)
    ensures
        r == is_sym(input_of(l), i as int, b),
{
    if i < l.tokens.len() {
        match &l.tokens[i].kind {
            TokenKind::Symbol(s) => *s == b,
            TokenKind::Word(_) => false,
        }
    } else {
        false
    }
}

fn error_here_exec(l: &Lexed, i: usize, msg: String) -> (r: ParseError)
    ensures
        r@ == error_here(input_of(l), i as int, msg@),
{
    if i < l.tokens.len() {
        ParseError { line: l.tokens[i].line, column: l.tokens[i].column, message: msg }
    } else {
        ParseError { line: l.end_line, column: l.end_column, message: msg }
    }
}

fn consume(l: &Lexed, i: usize, b: u8) -> (r: Result<(bool, usize), ParseError>)
    requires
        at_pos(l, i),
    ensures
        flag_agrees(r, spec_consume(input_of(l), i as int, b)),
        moves(r, l, i),
        r is Ok && r->Ok_0.0 ==> i < r->Ok_0.1,
{
    if is_symbol_at(l, i, b) {
        let j = advance(l, i)?;
        Ok((true, j))
    } else {
        Ok((false, i))
    }
}

fn expect(l: &Lexed, i: usize, b: u8) -> (r: Result<usize, ParseError>)
    requires
        at_pos(l, i),
    ensures
        pos_agrees(r, spec_expect(input_of(l), i as int, b)),
        r is Ok ==> i < r->Ok_0 <= l.tokens@.len(),
{
    let (ok, j) = consume(l, i, b)?;
    if ok {
        Ok(j)
    } else {
        let mut msg = string_of("expected '");
        push_char(&mut msg, b as char);
        append_str(&mut msg, "'");
        Err(error_here_exec(l, i, msg))
    }
}

fn take_word(l: &Lexed, i: usize) -> (r: Result<(String, usize), ParseError>)
    requires
        at_pos(l, i),
    ensures
        agrees(r, spec_take_word(input_of(l), i as int)),
        moves(r, l, i),
        r is Ok ==> i < r->Ok_0.1,
{
    if i < l.tokens.len() {
        let t = &l.tokens[i];
        match &t.kind {
            TokenKind::Word(w) => {
                let j = advance(l, i)?;
                Ok((w.clone(), j))
            },
            TokenKind::Symbol(_) => Err(
                ParseError::new(t.line, t.column, "expected identifier or value"),
            ),
        }
    } else {
        Err(error_here_exec(l, i, string_of("unexpected end of file")))
    }
}

fn read_value(l: &Lexed, i: usize) -> (r: Result<(String, usize), ParseError>)
    requires
        at_pos(l, i),
    ensures
        agrees(r, spec_read_value(input_of(l), i as int)),
        moves(r, l, i),
        r is Ok ==> i < r->Ok_0.1,
{
    let (mut value, j) = take_word(l, i)?;
    let (open, k) = consume(l, j, 0x5b)?;
    if open {
        let (sel, m) = take_word(l, k)?;
        let p = expect(l, m, 0x5d)?;
        push_char(&mut value, '[');
        append_str(&mut value, sel.as_str());
        push_char(&mut value, ']');
        proof {
            assert(value@ =~= spec_take_word(input_of(l), i as int)->Ok_0.0 + "["@ + sel@ + "]"@)
                by {
                reveal_strlit("[");
                reveal_strlit("]");
            }
        }
        Ok((value, p))
    } else {
        Ok((value, k))
    }
}

fn read_args(l: &Lexed, i: usize, name: &String) -> (r: Result<(Vec<String>, usize), ParseError>)
    requires
        at_pos(l, i),
    ensures
        list_agrees(r, spec_read_args(input_of(l), i as int, name@)),
        moves(r, l, i),
{
    let allow = string_is(name, "input_switching_condition") || string_is(
        name,
        "output_switching_condition",
    );
    let mut args: Vec<String> = Vec::new();
    let mut p = i;
    assert(texts(args@) =~= Seq::<Text>::empty());
    loop
        invariant
            at_pos(l, p),
            i <= p,
            allow == allows_spaces(name@),
            spec_args_from(input_of(l), p as int, allow, texts(args@)) == spec_read_args(
                input_of(l),
                i as int,
                name@,
            ),
        decreases l.tokens@.len() - p,
    {
        let (close, j) = consume(l, p, 0x29)?;
        if close {
            return Ok((args, j));
        }
        let (v, k) = read_value(l, p)?;
        let (close2, m) = consume(l, k, 0x29)?;
        let ghost old_args = texts(args@);
        args.push(v);
        assert(texts(args@) =~= old_args.push(v@));
        if close2 {
            return Ok((args, m));
        }
        if allow {
            let (_, q) = consume(l, k, 0x2c)?;
            p = q;
        } else {
            p = expect(l, k, 0x2c)?;
        }
    }
}

fn token_text_exec(t: &Token) -> (r: String)
    ensures
        r@ == token_text(t@),
{
    match &t.kind {
        TokenKind::Word(w) => w.clone(),
        TokenKind::Symbol(b) => {
            let mut s = String::new();
            push_char(&mut s, *b as char);
            assert(s@ =~= seq![*b as char]);
            s
        },
    }
}

fn read_simple_value(l: &Lexed, i: usize) -> (r: Result<(String, usize), ParseError>)
    requires
        at_pos(l, i),
    ensures
        agrees(r, spec_read_simple_value(input_of(l), i as int)),
        moves(r, l, i),
{
    let mut parts: Vec<String> = Vec::new();
    let mut p = i;
    assert(texts(parts@) =~= Seq::<Text>::empty());
    loop
        invariant
            at_pos(l, p),
            i <= p,
            spec_value_from(input_of(l), p as int, texts(parts@)) == spec_read_simple_value(
                input_of(l),
                i as int,
            ),
        decreases l.tokens@.len() - p,
    {
        let (semi, j) = consume(l, p, 0x3b)?;
        if semi {
            let v = join(&parts, " ");
            return Ok((v, j));
        }
        if p >= l.tokens.len() {
            return Err(
                error_here_exec(l, p, string_of("unexpected end of file in attribute value")),
            );
        }
        let part = token_text_exec(&l.tokens[p]);
        let k = advance(l, p)?;
        let ghost old_parts = texts(parts@);
        parts.push(part);
        assert(texts(parts@) =~= old_parts.push(token_text(input_of(l).toks[p as int])));
        p = k;
    }
}

fn skip_group(l: &Lexed, i: usize) -> (r: Result<usize, ParseError>)
    requires
        at_pos(l, i),
    ensures
        pos_agrees(r, spec_skip_group(input_of(l), i as int, 1)),
        r is Ok ==> i < r->Ok_0 <= l.tokens@.len(),
{
    let mut depth: usize = 1;
    let mut p = i;
    while p < l.tokens.len()
        invariant
            at_pos(l, p),
            i <= p,
            1 <= depth <= p - i + 1,
            spec_skip_group(input_of(l), p as int, depth as nat) == spec_skip_group(
                input_of(l),
                i as int,
                1,
            ),
        decreases l.tokens@.len() - p,
    {
        let j = advance(l, p)?;
        let is_open = is_symbol_at(l, p, 0x7b);
        let is_close = is_symbol_at(l, p, 0x7d);
        if is_open {
            depth = depth + 1;
        } else if is_close {
            if depth <= 1 {
                return Ok(j);
            }
            depth = depth - 1;
        }
        p = j;
    }
    Err(error_here_exec(l, p, string_of("unexpected end of file while skipping group")))
}

/// The executable form of `SpecHead`.
pub enum Head {
    Group(String, Vec<String>),
    Complex(String, Vec<String>),
    Simple(String, String),
    Bad,
}

impl View for Head {
    type V = SpecHead;

    open spec fn view(&self) -> SpecHead {
        match self {
            Head::Group(n, a) => SpecHead::Group(n@, texts(a@)),
            Head::Complex(n, a) => SpecHead::Complex(n@, texts(a@)),
            Head::Simple(n, v) => SpecHead::Simple(n@, v@),
            Head::Bad => SpecHead::Bad,
        }
    }
}

fn head(l: &Lexed, i: usize) -> (r: Result<(Head, usize), ParseError>)
    requires
        at_pos(l, i),
    ensures
        agrees(r, spec_head(input_of(l), i as int)),
        moves(r, l, i),
        r is Ok ==> i < r->Ok_0.1,
{
    proof {
        reveal(spec_head);
    }
    let (name, j) = take_word(l, i)?;
    let (open, k) = consume(l, j, 0x28)?;
    if open {
        let (args, k2) = read_args(l, k, &name)?;
        let (group, k3) = consume(l, k2, 0x7b)?;
        if group {
            Ok((Head::Group(name, args), k3))
        } else {
            Ok((Head::Complex(name, args), k3))
        }
    } else {
        let (colon, m) = consume(l, j, 0x3a)?;
        if colon {
            let (v, m2) = read_simple_value(l, m)?;
            Ok((Head::Simple(name, v), m2))
        } else {
            Ok((Head::Bad, j))
        }
    }
}

// ---- helpers over argument lists ----
fn first_or_empty_exec(args: &Vec<String>) -> (r: String)
    ensures
        r@ == first_or_empty(texts(args@)),
{
    if args.len() > 0 {
        args[0].clone()
    } else {
        String::new()
    }
}

fn first_opt_exec(args: &Vec<String>) -> (r: Option<String>)
    ensures
        opt_text(r) == first_opt(texts(args@)),
{
    if args.len() > 0 {
        Some(args[0].clone())
    } else {
        None
    }
}

fn list_items_exec(o: Option<String>) -> (r: Vec<String>)
    ensures
        texts(r@) == list_items(opt_text(o)),
{
    match o {
        Some(s) => {
            let v = split_trimmed(s.as_str(), ',');
            assert(texts(v@) =~= spec_split(s@, ',').map_values(|p: Text| spec_trim(p)));
            keep_numbers(v)
        },
        None => {
            let v: Vec<String> = Vec::new();
            assert(texts(v@) =~= Seq::<Text>::empty());
            v
        },
    }
}

fn all_items_exec(args: &Vec<String>) -> (r: Vec<String>)
    ensures
        texts(r@) == all_items(texts(args@)),
{
    let mut out: Vec<String> = Vec::new();
    let mut i: usize = 0;
    assert(texts(args@).take(0) =~= Seq::<Text>::empty());
    assert(texts(out@) =~= Seq::<Text>::empty());
    while i < args.len()
        invariant
            i <= args@.len(),
            texts(out@) == all_items(texts(args@).take(i as int)),
        decreases args@.len() - i,
    {
        let items = list_items_exec(Some(args[i].clone()));
        let ghost before = texts(out@);
        let mut k: usize = 0;
        while k < items.len()
            invariant
                k <= items@.len(),
                texts(out@) == before + texts(items@).take(k as int),
            decreases items@.len() - k,
        {
            let ghost prev = out@;
            out.push(items[k].clone());
            assert(texts(out@) =~= texts(prev).push(items@[k as int]@));
            assert(texts(items@).take(k + 1) =~= texts(items@).take(k as int).push(
                items@[k as int]@,
            ));
            assert(texts(out@) =~= before + texts(items@).take(k + 1));
            k = k + 1;
        }
        proof {
            let t = texts(args@).take(i + 1);
            assert(t.drop_last() =~= texts(args@).take(i as int));
            assert(t.last() == args@[i as int]@);
            assert(texts(items@) =~= list_items(Some(t.last())));
            assert(texts(items@).take(items@.len() as int) =~= texts(items@));
        }
        i = i + 1;
    }
    assert(texts(args@).take(args@.len() as int) =~= texts(args@));
    out
}

fn member_names_exec(args: &Vec<String>) -> (r: Vec<String>)
    ensures
        texts(r@) == member_names(texts(args@)),
{
    let mut out: Vec<String> = Vec::new();
    let mut i: usize = 0;
    assert(texts(args@).take(0) =~= Seq::<Text>::empty());
    assert(texts(out@) =~= Seq::<Text>::empty());
    while i < args.len()
        invariant
            i <= args@.len(),
            texts(out@) == member_names(texts(args@).take(i as int)),
        decreases args@.len() - i,
    {
        let items = words(args[i].as_str());
        let ghost before = texts(out@);
        let mut k: usize = 0;
        while k < items.len()
            invariant
                k <= items@.len(),
                texts(out@) == before + texts(items@).take(k as int),
            decreases items@.len() - k,
        {
            let ghost prev = out@;
            out.push(items[k].clone());
            assert(texts(out@) =~= texts(prev).push(items@[k as int]@));
            assert(texts(items@).take(k + 1) =~= texts(items@).take(k as int).push(
                items@[k as int]@,
            ));
            assert(texts(out@) =~= before + texts(items@).take(k + 1));
            k = k + 1;
        }
        proof {
            let t = texts(args@).take(i + 1);
            assert(t.drop_last() =~= texts(args@).take(i as int));
            assert(t.last() == args@[i as int]@);
            assert(texts(items@) =~= spec_words(t.last()));
            assert(texts(items@).take(items@.len() as int) =~= texts(items@));
        }
        i = i + 1;
    }
    assert(texts(args@).take(args@.len() as int) =~= texts(args@));
    out
}

/// How an executable item step stands to a specified one.
pub open spec fn step_agrees<T: View>(r: Result<usize, ParseError>, acc: T, s: Parsed<T::V>) -> bool {
    match s {
        Ok((v, j)) => r is Ok && acc@ == v && r->Ok_0 as int == j,
        Err(e) => r is Err && r->Err_0@ == e,
    }
}

fn semicolon(l: &Lexed, k: usize) -> (r: Result<usize, ParseError>)
    requires
        at_pos(l, k),
    ensures
        match spec_consume(input_of(l), k as int, 0x3b) {
            Ok((_, m)) => r is Ok && r->Ok_0 as int == m,
            Err(e) => r is Err && r->Err_0@ == e,
        },
        r is Ok ==> k <= r->Ok_0 <= l.tokens@.len(),
{
    let (_, m) = consume(l, k, 0x3b)?;
    Ok(m)
}

// ---- tables ----
fn table_item(l: &Lexed, i: usize, acc: &mut TimingTableData) -> (r: Result<usize, ParseError>)
    requires
        at_pos(l, i),
    ensures
        step_agrees(r, *final(acc), spec_table_item(input_of(l), i as int, old(acc)@)),
        r is Ok ==> i < r->Ok_0 <= l.tokens@.len(),
    decreases l.tokens@.len() - i, 1int,
{
    let (h, j) = head(l, i)?;
    match h {
        Head::Group(name, args) => {
            if string_is(&name, "vector") {
                let template = first_opt_exec(&args);
                let (t, k) = parse_table_body(l, j, name, template)?;
                let ghost before = acc@;
                acc.vectors.push(t);
                assert(acc@.vectors =~= old(acc)@.vectors.push(t@));
                assert(acc@.vectors =~= before.vectors.push(t@));
                assert(acc@ == SpecTable { vectors: before.vectors.push(t@), ..before });
                semicolon(l, k)
            } else {
                let k = skip_group(l, j)?;
                semicolon(l, k)
            }
        },
        Head::Complex(name, args) => {
            let m = semicolon(l, j)?;
            let ghost before = acc@;
            if string_is(&name, "index_1") {
                acc.index_1 = list_items_exec(first_opt_exec(&args));
                assert(acc@.vectors =~= before.vectors);
            } else if string_is(&name, "index_2") {
                acc.index_2 = list_items_exec(first_opt_exec(&args));
                assert(acc@.vectors =~= before.vectors);
            } else if string_is(&name, "index_3") {
                acc.index_3 = list_items_exec(first_opt_exec(&args));
                assert(acc@.vectors =~= before.vectors);
            } else if string_is(&name, "values") {
                acc.values = all_items_exec(&args);
                assert(acc@.vectors =~= before.vectors);
            }
            Ok(m)
        },
        Head::Simple(name, v) => {
            let ghost before = acc@;
            if string_is(&name, "reference_time") {
                acc.reference_time = Some(v);
                assert(acc@.vectors =~= before.vectors);
            } else if string_is(&name, "driver_waveform_name") {
                acc.name = v;
                assert(acc@.vectors =~= before.vectors);
            }
            Ok(j)
        },
        Head::Bad => Err(
            error_here_exec(l, j, string_of("expected '(' or ':' after table item name")),
        ),
    }
}

fn parse_table_items(l: &Lexed, i: usize, start: TimingTableData) -> (r: Result<
    (TimingTableData, usize),
    ParseError,
>)
    requires
        at_pos(l, i),
    ensures
        agrees(r, spec_table_items(input_of(l), i as int, start@)),
        moves(r, l, i),
    decreases l.tokens@.len() - i, 2int,
{
    let mut acc = start;
    let ghost acc0 = acc@;
    let mut p = i;
    loop
        invariant
            at_pos(l, p),
            i <= p,
            acc0 == start@,
            spec_table_items(input_of(l), p as int, acc@) == spec_table_items(
                input_of(l),
                i as int,
                acc0,
            ),
        decreases l.tokens@.len() - p,
    {
        let (close, j) = consume(l, p, 0x7d)?;
        if close {
            return Ok((acc, j));
        }
        p = table_item(l, p, &mut acc)?;
    }
}

/// Parses the body of a table group (after its `{`).
fn parse_table_body(l: &Lexed, i: usize, name: String, template: Option<String>) -> (r: Result<
    (TimingTableData, usize),
    ParseError,
>)
    requires
        at_pos(l, i),
    ensures
        agrees(r, spec_table_body(input_of(l), i as int, name@, opt_text(template))),
        moves(r, l, i),
    decreases l.tokens@.len() - i, 3int,
{
    let t = TimingTableData {
        name,
        index_1: Vec::new(),
        index_2: Vec::new(),
        index_3: Vec::new(),
        values: Vec::new(),
        template,
        reference_time: None,
        vectors: Vec::new(),
    };
    assert(t@.vectors =~= Seq::<SpecTable>::empty());
    assert(t@.index_1 =~= Seq::<Text>::empty());
    assert(t@.index_2 =~= Seq::<Text>::empty());
    assert(t@.index_3 =~= Seq::<Text>::empty());
    assert(t@.values =~= Seq::<Text>::empty());
    assert(t@ == new_table(name@, opt_text(template)));
    parse_table_items(l, i, t)
}


// ---- timing arcs ----
pub open spec fn spec_timing_item(inp: Input, i: int, acc: SpecArc) -> Parsed<SpecArc> {
    match spec_head(inp, i) {
        Err(e) => Err(e),
        Ok((h, j)) => match h {
            SpecHead::Group(name, args) => then_semicolon(
                inp,
                if is_timing_table_name(name) {
                    match spec_table_body(inp, j, name, first_opt(args)) {
                        Err(e) => Err(e),
                        Ok((t, k)) => Ok((SpecArc { tables: acc.tables.push(t), ..acc }, k)),
                    }
                } else {
                    skipped(inp, j, acc)
                },
            ),
            SpecHead::Complex(_, _) => then_semicolon(inp, Ok((acc, j))),
            SpecHead::Simple(name, v) => Ok(
                (
                    if name == "related_pin"@ {
                        SpecArc { related_pin: Some(v), ..acc }
                    } else if name == "timing_type"@ {
                        SpecArc { timing_type: Some(v), ..acc }
                    } else if name == "when"@ {
                        SpecArc { when: Some(v), ..acc }
                    } else {
                        acc
                    },
                    j,
                ),
            ),
            SpecHead::Bad => Err(error_here(inp, j, "expected '(' or ':' after timing item name"@)),
        },
    }
}

/// timing items up to and including the closing `}`.
pub open spec fn spec_timing_items(inp: Input, i: int, acc: SpecArc) -> Parsed<SpecArc>
    decreases inp.toks.len() - i,
{
    match spec_consume(inp, i, 0x7d) {
        Err(e) => Err(e),
        Ok((true, j)) => Ok((acc, j)),
        Ok((false, _)) => match spec_timing_item(inp, i, acc) {
            Err(e) => Err(e),
            Ok((a, j)) => if i < j <= inp.toks.len() {
                spec_timing_items(inp, j, a)
            } else {
                Err(stuck(inp, i))
            },
        },
    }
}

/// A `timing` group body (after its `{`).
pub open spec fn spec_timing_body(inp: Input, i: int) -> Parsed<SpecArc> {
    spec_timing_items(
        inp,
        i,
        SpecArc { related_pin: None, timing_type: None, when: None, tables: Seq::empty() },
    )
}

// ---- internal power ----
pub open spec fn spec_power_item(inp: Input, i: int, acc: SpecPower) -> Parsed<SpecPower> {
    match spec_head(inp, i) {
        Err(e) => Err(e),
        Ok((h, j)) => match h {
            SpecHead::Group(name, args) => then_semicolon(
                inp,
                if is_power_table_name(name) {
                    match spec_table_body(inp, j, name, first_opt(args)) {
                        Err(e) => Err(e),
                        Ok((t, k)) => Ok((SpecPower { tables: acc.tables.push(t), ..acc }, k)),
                    }
                } else {
                    skipped(inp, j, acc)
                },
            ),
            SpecHead::Complex(_, _) => then_semicolon(inp, Ok((acc, j))),
            SpecHead::Simple(name, v) => Ok(
                (
                    if name == "related_pin"@ {
                        SpecPower { related_pin: Some(v), ..acc }
                    } else if name == "related_pg_pin"@ {
                        SpecPower { related_pg_pin: Some(v), ..acc }
                    } else if name == "when"@ {
                        SpecPower { when: Some(v), ..acc }
                    } else {
                        acc
                    },
                    j,
                ),
            ),
            SpecHead::Bad => Err(
                error_here(inp, j, "expected '(' or ':' after internal_power item name"@),
            ),
        },
    }
}

/// power items up to and including the closing `}`.
pub open spec fn spec_power_items(inp: Input, i: int, acc: SpecPower) -> Parsed<SpecPower>
    decreases inp.toks.len() - i,
{
    match spec_consume(inp, i, 0x7d) {
        Err(e) => Err(e),
        Ok((true, j)) => Ok((acc, j)),
        Ok((false, _)) => match spec_power_item(inp, i, acc) {
            Err(e) => Err(e),
            Ok((a, j)) => if i < j <= inp.toks.len() {
                spec_power_items(inp, j, a)
            } else {
                Err(stuck(inp, i))
            },
        },
    }
}

/// An `internal_power` group body (after its `{`).
pub open spec fn spec_power_body(inp: Input, i: int) -> Parsed<SpecPower> {
    spec_power_items(
        inp,
        i,
        SpecPower { related_pin: None, related_pg_pin: None, when: None, tables: Seq::empty() },
    )
}

// ---- pins ----
pub open spec fn spec_pin_item(inp: Input, i: int, acc: SpecPin) -> Parsed<SpecPin> {
    match spec_head(inp, i) {
        Err(e) => Err(e),
        Ok((h, j)) => match h {
            SpecHead::Group(name, _) => then_semicolon(
                inp,
                if name == "timing"@ {
                    match spec_timing_body(inp, j) {
                        Err(e) => Err(e),
                        Ok((a, k)) => Ok((SpecPin { timing_arcs: acc.timing_arcs.push(a), ..acc }, k)),
                    }
                } else if name == "internal_power"@ {
                    match spec_power_body(inp, j) {
                        Err(e) => Err(e),
                        Ok((a, k)) => Ok(
                            (SpecPin { internal_powers: acc.internal_powers.push(a), ..acc }, k),
                        ),
                    }
                } else {
                    skipped(inp, j, acc)
                },
            ),
            SpecHead::Complex(name, args) => then_semicolon(
                inp,
                Ok(
                    (
                        SpecPin {
                            attributes: acc.attributes.push((name, spec_join(args, ", "@))),
                            ..acc
                        },
                        j,
                    ),
                ),
            ),
            SpecHead::Simple(name, v) => Ok(
                (
                    SpecPin {
                        direction: if name == "direction"@ {
                            Some(v)
                        } else {
                            acc.direction
                        },
                        function: if name == "function"@ {
                            Some(v)
                        } else {
                            acc.function
                        },
                        attributes: acc.attributes.push((name, v)),
                        ..acc
                    },
                    j,
                ),
            ),
            SpecHead::Bad => Err(error_here(inp, j, "expected '(' or ':' after pin item name"@)),
        },
    }
}

/// pin items up to and including the closing `}`.
pub open spec fn spec_pin_items(inp: Input, i: int, acc: SpecPin) -> Parsed<SpecPin>
    decreases inp.toks.len() - i,
{
    match spec_consume(inp, i, 0x7d) {
        Err(e) => Err(e),
        Ok((true, j)) => Ok((acc, j)),
        Ok((false, _)) => match spec_pin_item(inp, i, acc) {
            Err(e) => Err(e),
            Ok((a, j)) => if i < j <= inp.toks.len() {
                spec_pin_items(inp, j, a)
            } else {
                Err(stuck(inp, i))
            },
        },
    }
}

/// The pin named `name` with nothing else set.
pub open spec fn new_pin(name: Text, direction: Option<Text>) -> SpecPin {
    SpecPin {
        name,
        direction,
        function: None,
        timing_arcs: Seq::empty(),
        internal_powers: Seq::empty(),
        attributes: Seq::empty(),
    }
}

/// A `pin` group body (after its `{`).
pub open spec fn spec_pin_body(inp: Input, i: int, name: Text) -> Parsed<SpecPin> {
    spec_pin_items(inp, i, new_pin(name, None))
}

fn timing_item(l: &Lexed, i: usize, acc: &mut TimingArcData) -> (r: Result<usize, ParseError>)
    requires
        at_pos(l, i),
    ensures
        step_agrees(r, *final(acc), spec_timing_item(input_of(l), i as int, old(acc)@)),
        r is Ok ==> i < r->Ok_0 <= l.tokens@.len(),
{
    broadcast use crate::data::group_view_push;

    let (h, j) = head(l, i)?;
    match h {
        Head::Group(name, args) => {
            if is_timing_table_exec(&name) {
                let template = first_opt_exec(&args);
                let (t, k) = parse_table_body(l, j, name, template)?;
                acc.tables.push(t);
                semicolon(l, k)
            } else {
                let k = skip_group(l, j)?;
                semicolon(l, k)
            }
        },
        Head::Complex(_, _) => semicolon(l, j),
        Head::Simple(name, v) => {
            if string_is(&name, "related_pin") {
                acc.related_pin = Some(v);
            } else if string_is(&name, "timing_type") {
                acc.timing_type = Some(v);
            } else if string_is(&name, "when") {
                acc.when = Some(v);
            }
            Ok(j)
        },
        Head::Bad => Err(
            error_here_exec(l, j, string_of("expected '(' or ':' after timing item name")),
        ),
    }
}

fn parse_timing_items(l: &Lexed, i: usize, start: TimingArcData) -> (r: Result<(TimingArcData, usize), ParseError>)
    requires
        at_pos(l, i),
    ensures
        agrees(r, spec_timing_items(input_of(l), i as int, start@)),
        moves(r, l, i),
{
    let mut acc = start;
    let ghost acc0 = acc@;
    let mut p = i;
    loop
        invariant
            at_pos(l, p),
            i <= p,
            acc0 == start@,
            spec_timing_items(input_of(l), p as int, acc@) == spec_timing_items(
                input_of(l),
                i as int,
                acc0,
            ),
        decreases l.tokens@.len() - p,
    {
        let (close, j) = consume(l, p, 0x7d)?;
        if close {
            return Ok((acc, j));
        }
        p = timing_item(l, p, &mut acc)?;
    }
}

fn parse_timing_body(l: &Lexed, i: usize) -> (r: Result<(TimingArcData, usize), ParseError>)
    requires
        at_pos(l, i),
    ensures
        agrees(r, spec_timing_body(input_of(l), i as int)),
        moves(r, l, i),
{
    let a = TimingArcData { related_pin: None, timing_type: None, when: None, tables: Vec::new() };
    assert(a@.tables =~= Seq::<SpecTable>::empty());
    parse_timing_items(l, i, a)
}

fn power_item(l: &Lexed, i: usize, acc: &mut InternalPowerData) -> (r: Result<usize, ParseError>)
    requires
        at_pos(l, i),
    ensures
        step_agrees(r, *final(acc), spec_power_item(input_of(l), i as int, old(acc)@)),
        r is Ok ==> i < r->Ok_0 <= l.tokens@.len(),
{
    broadcast use crate::data::group_view_push;

    let (h, j) = head(l, i)?;
    match h {
        Head::Group(name, args) => {
            if is_power_table_exec(&name) {
                let template = first_opt_exec(&args);
                let (t, k) = parse_table_body(l, j, name, template)?;
                acc.tables.push(t);
                semicolon(l, k)
            } else {
                let k = skip_group(l, j)?;
                semicolon(l, k)
            }
        },
        Head::Complex(_, _) => semicolon(l, j),
        Head::Simple(name, v) => {
            if string_is(&name, "related_pin") {
                acc.related_pin = Some(v);
            } else if string_is(&name, "related_pg_pin") {
                acc.related_pg_pin = Some(v);
            } else if string_is(&name, "when") {
                acc.when = Some(v);
            }
            Ok(j)
        },
        Head::Bad => Err(
            error_here_exec(l, j, string_of("expected '(' or ':' after internal_power item name")),
        ),
    }
}

fn parse_power_items(l: &Lexed, i: usize, start: InternalPowerData) -> (r: Result<(InternalPowerData, usize), ParseError>)
    requires
        at_pos(l, i),
    ensures
        agrees(r, spec_power_items(input_of(l), i as int, start@)),
        moves(r, l, i),
{
    let mut acc = start;
    let ghost acc0 = acc@;
    let mut p = i;
    loop
        invariant
            at_pos(l, p),
            i <= p,
            acc0 == start@,
            spec_power_items(input_of(l), p as int, acc@) == spec_power_items(
                input_of(l),
                i as int,
                acc0,
            ),
        decreases l.tokens@.len() - p,
    {
        let (close, j) = consume(l, p, 0x7d)?;
        if close {
            return Ok((acc, j));
        }
        p = power_item(l, p, &mut acc)?;
    }
}

fn parse_power_body(l: &Lexed, i: usize) -> (r: Result<(InternalPowerData, usize), ParseError>)
    requires
        at_pos(l, i),
    ensures
        agrees(r, spec_power_body(input_of(l), i as int)),
        moves(r, l, i),
{
    let a = InternalPowerData {
        related_pin: None,
        related_pg_pin: None,
        when: None,
        tables: Vec::new(),
    };
    assert(a@.tables =~= Seq::<SpecTable>::empty());
    parse_power_items(l, i, a)
}

fn pin_item(l: &Lexed, i: usize, acc: &mut PinData) -> (r: Result<usize, ParseError>)
    requires
        at_pos(l, i),
    ensures
        step_agrees(r, *final(acc), spec_pin_item(input_of(l), i as int, old(acc)@)),
        r is Ok ==> i < r->Ok_0 <= l.tokens@.len(),
{
    broadcast use crate::data::group_view_push;

    let (h, j) = head(l, i)?;
    match h {
        Head::Group(name, _) => {
            if string_is(&name, "timing") {
                let (a, k) = parse_timing_body(l, j)?;
                acc.timing_arcs.push(a);
                semicolon(l, k)
            } else if string_is(&name, "internal_power") {
                let (a, k) = parse_power_body(l, j)?;
                acc.internal_powers.push(a);
                semicolon(l, k)
            } else {
                let k = skip_group(l, j)?;
                semicolon(l, k)
            }
        },
        Head::Complex(name, args) => {
            let joined = join(&args, ", ");
            acc.attributes.push((name, joined));
            semicolon(l, j)
        },
        Head::Simple(name, v) => {
            if string_is(&name, "direction") {
                acc.direction = Some(v.clone());
            }
            if string_is(&name, "function") {
                acc.function = Some(v.clone());
            }
            acc.attributes.push((name, v));
            Ok(j)
        },
        Head::Bad => Err(
            error_here_exec(l, j, string_of("expected '(' or ':' after pin item name")),
        ),
    }
}

fn parse_pin_items(l: &Lexed, i: usize, start: PinData) -> (r: Result<(PinData, usize), ParseError>)
    requires
        at_pos(l, i),
    ensures
        agrees(r, spec_pin_items(input_of(l), i as int, start@)),
        moves(r, l, i),
{
    let mut acc = start;
    let ghost acc0 = acc@;
    let mut p = i;
    loop
        invariant
            at_pos(l, p),
            i <= p,
            acc0 == start@,
            spec_pin_items(input_of(l), p as int, acc@) == spec_pin_items(
                input_of(l),
                i as int,
                acc0,
            ),
        decreases l.tokens@.len() - p,
    {
        let (close, j) = consume(l, p, 0x7d)?;
        if close {
            return Ok((acc, j));
        }
        p = pin_item(l, p, &mut acc)?;
    }
}

fn new_pin_exec(name: String, direction: Option<String>) -> (r: PinData)
    ensures
        r@ == new_pin(name@, opt_text(direction)),
{
    let p = PinData {
        name,
        direction,
        function: None,
        timing_arcs: Vec::new(),
        internal_powers: Vec::new(),
        attributes: Vec::new(),
    };
    assert(p@.timing_arcs =~= Seq::<SpecArc>::empty());
    assert(p@.internal_powers =~= Seq::<SpecPower>::empty());
    assert(p@.attributes =~= Seq::<(Text, Text)>::empty());
    p
}

fn parse_pin_body(l: &Lexed, i: usize, name: String) -> (r: Result<(PinData, usize), ParseError>)
    requires
        at_pos(l, i),
    ensures
        agrees(r, spec_pin_body(input_of(l), i as int, name@)),
        moves(r, l, i),
{
    parse_pin_items(l, i, new_pin_exec(name, None))
}

fn is_timing_table_exec(n: &String) -> (r: bool)
    ensures
        r == is_timing_table_name(n@),
{
    string_is(n, "cell_rise") || string_is(n, "cell_fall") || string_is(n, "rise_transition")
        || string_is(n, "fall_transition") || string_is(n, "rise_constraint") || string_is(
        n,
        "fall_constraint",
    ) || string_is(n, "cell_degradation") || string_is(n, "retaining_rise") || string_is(
        n,
        "retaining_fall",
    ) || string_is(n, "retain_rise_slew") || string_is(n, "retain_fall_slew") || string_is(
        n,
        "output_current_rise",
    ) || string_is(n, "output_current_fall") || string_is(n, "ccst_rise") || string_is(
        n,
        "ccst_fall",
    ) || string_is(n, "ccsp_rise") || string_is(n, "ccsp_fall") || string_is(
        n,
        "ccsn_first_stage",
    ) || string_is(n, "ccsn_last_stage") || string_is(n, "ccsn_rise_first_stage") || string_is(
        n,
        "ccsn_rise_last_stage",
    ) || string_is(n, "ccsn_fall_first_stage") || string_is(n, "ccsn_fall_last_stage")
        || string_is(n, "receiver_capacitance1_rise") || string_is(
        n,
        "receiver_capacitance1_fall",
    ) || string_is(n, "receiver_capacitance2_rise") || string_is(
        n,
        "receiver_capacitance2_fall",
    )
}

fn is_power_table_exec(n: &String) -> (r: bool)
    ensures
        r == is_power_table_name(n@),
{
    string_is(n, "rise_power") || string_is(n, "fall_power") || string_is(n, "power")
}


// ---- buses and bundles ----
/// The pins a `members` attribute adds to a bus, with the bus's current
/// direction.
pub open spec fn member_pins(args: Seq<Text>, direction: Option<Text>) -> Seq<SpecPin> {
    member_names(args).map_values(|m: Text| new_pin(m, direction))
}

pub open spec fn spec_bus_item(inp: Input, i: int, acc: SpecBus) -> Parsed<SpecBus> {
    match spec_head(inp, i) {
        Err(e) => Err(e),
        Ok((h, j)) => match h {
            SpecHead::Group(name, args) => then_semicolon(
                inp,
                if name == "pin"@ {
                    match spec_pin_body(inp, j, first_or_empty(args)) {
                        Err(e) => Err(e),
                        Ok((a, k)) => Ok((SpecBus { pins: acc.pins.push(a), ..acc }, k)),
                    }
                } else if name == "timing"@ {
                    match spec_timing_body(inp, j) {
                        Err(e) => Err(e),
                        Ok((a, k)) => Ok((SpecBus { timing_arcs: acc.timing_arcs.push(a), ..acc }, k)),
                    }
                } else {
                    skipped(inp, j, acc)
                },
            ),
            SpecHead::Complex(name, args) => then_semicolon(
                inp,
                Ok(
                    (
                        if name == "members"@ {
                            SpecBus { pins: acc.pins + member_pins(args, acc.direction), ..acc }
                        } else {
                            acc
                        },
                        j,
                    ),
                ),
            ),
            SpecHead::Simple(name, v) => Ok(
                (
                    if name == "direction"@ {
                        SpecBus { direction: Some(v), ..acc }
                    } else if name == "function"@ {
                        SpecBus { function: Some(v), ..acc }
                    } else if name == "bus_type"@ {
                        SpecBus { bus_type: Some(v), ..acc }
                    } else {
                        acc
                    },
                    j,
                ),
            ),
            SpecHead::Bad => Err(error_here(inp, j, "expected '(' or ':' after bus item name"@)),
        },
    }
}

/// bus items up to and including the closing `}`.
pub open spec fn spec_bus_items(inp: Input, i: int, acc: SpecBus) -> Parsed<SpecBus>
    decreases inp.toks.len() - i,
{
    match spec_consume(inp, i, 0x7d) {
        Err(e) => Err(e),
        Ok((true, j)) => Ok((acc, j)),
        Ok((false, _)) => match spec_bus_item(inp, i, acc) {
            Err(e) => Err(e),
            Ok((a, j)) => if i < j <= inp.toks.len() {
                spec_bus_items(inp, j, a)
            } else {
                Err(stuck(inp, i))
            },
        },
    }
}

/// A `bus` group body (after its `{`).
pub open spec fn spec_bus_body(inp: Input, i: int, name: Text) -> Parsed<SpecBus> {
    spec_bus_items(
        inp,
        i,
        SpecBus {
            name,
            direction: None,
            function: None,
            bus_type: None,
            pins: Seq::empty(),
            timing_arcs: Seq::empty(),
        },
    )
}

pub open spec fn spec_bundle_item(inp: Input, i: int, acc: SpecBundle) -> Parsed<SpecBundle> {
    match spec_head(inp, i) {
        Err(e) => Err(e),
        Ok((h, j)) => match h {
            SpecHead::Group(name, args) => then_semicolon(
                inp,
                if name == "pin"@ {
                    match spec_pin_body(inp, j, first_or_empty(args)) {
                        Err(e) => Err(e),
                        Ok((a, k)) => Ok((SpecBundle { pins: acc.pins.push(a), ..acc }, k)),
                    }
                } else if name == "timing"@ {
                    match spec_timing_body(inp, j) {
                        Err(e) => Err(e),
                        Ok((a, k)) => Ok(
                            (SpecBundle { timing_arcs: acc.timing_arcs.push(a), ..acc }, k),
                        ),
                    }
                } else {
                    skipped(inp, j, acc)
                },
            ),
            SpecHead::Complex(name, args) => then_semicolon(
                inp,
                Ok(
                    (
                        if name == "members"@ {
                            SpecBundle { members: member_names(args), ..acc }
                        } else {
                            acc
                        },
                        j,
                    ),
                ),
            ),
            SpecHead::Simple(name, v) => Ok(
                (
                    if name == "direction"@ {
                        SpecBundle { direction: Some(v), ..acc }
                    } else if name == "function"@ {
                        SpecBundle { function: Some(v), ..acc }
                    } else {
                        acc
                    },
                    j,
                ),
            ),
            SpecHead::Bad => Err(
                error_here(inp, j, "expected '(' or ':' after bundle item name"@),
            ),
        },
    }
}

/// bundle items up to and including the closing `}`.
pub open spec fn spec_bundle_items(inp: Input, i: int, acc: SpecBundle) -> Parsed<SpecBundle>
    decreases inp.toks.len() - i,
{
    match spec_consume(inp, i, 0x7d) {
        Err(e) => Err(e),
        Ok((true, j)) => Ok((acc, j)),
        Ok((false, _)) => match spec_bundle_item(inp, i, acc) {
            Err(e) => Err(e),
            Ok((a, j)) => if i < j <= inp.toks.len() {
                spec_bundle_items(inp, j, a)
            } else {
                Err(stuck(inp, i))
            },
        },
    }
}

/// A `bundle` group body (after its `{`).
pub open spec fn spec_bundle_body(inp: Input, i: int, name: Text) -> Parsed<SpecBundle> {
    spec_bundle_items(
        inp,
        i,
        SpecBundle {
            name,
            direction: None,
            function: None,
            members: Seq::empty(),
            pins: Seq::empty(),
            timing_arcs: Seq::empty(),
        },
    )
}

// ---- bus types and templates ----
pub open spec fn spec_bus_type_item(inp: Input, i: int, acc: SpecBusType) -> Parsed<SpecBusType> {
    match spec_head(inp, i) {
        Err(e) => Err(e),
        Ok((h, j)) => match h {
            SpecHead::Group(_, _) => skipped(inp, j, acc),
            SpecHead::Complex(_, _) => then_semicolon(inp, Ok((acc, j))),
            SpecHead::Simple(name, v) => Ok(
                (SpecBusType { attributes: acc.attributes.push((name, v)), ..acc }, j),
            ),
            SpecHead::Bad => Err(error_here(inp, j, "expected '(' or ':' after type item name"@)),
        },
    }
}

/// bus type items up to and including the closing `}`.
pub open spec fn spec_bus_type_items(inp: Input, i: int, acc: SpecBusType) -> Parsed<SpecBusType>
    decreases inp.toks.len() - i,
{
    match spec_consume(inp, i, 0x7d) {
        Err(e) => Err(e),
        Ok((true, j)) => Ok((acc, j)),
        Ok((false, _)) => match spec_bus_type_item(inp, i, acc) {
            Err(e) => Err(e),
            Ok((a, j)) => if i < j <= inp.toks.len() {
                spec_bus_type_items(inp, j, a)
            } else {
                Err(stuck(inp, i))
            },
        },
    }
}

/// A `type` group body (after its `{`).
pub open spec fn spec_bus_type_body(inp: Input, i: int, name: Text) -> Parsed<SpecBusType> {
    spec_bus_type_items(inp, i, SpecBusType { name, attributes: Seq::empty() })
}

pub open spec fn spec_template_item(inp: Input, i: int, acc: SpecTemplate) -> Parsed<SpecTemplate> {
    match spec_head(inp, i) {
        Err(e) => Err(e),
        Ok((h, j)) => match h {
            SpecHead::Group(_, _) => then_semicolon(inp, skipped(inp, j, acc)),
            SpecHead::Complex(_, _) => then_semicolon(inp, Ok((acc, j))),
            SpecHead::Simple(name, v) => Ok(
                (
                    if name == "variable_1"@ {
                        SpecTemplate { variable_1: Some(v), ..acc }
                    } else if name == "variable_2"@ {
                        SpecTemplate { variable_2: Some(v), ..acc }
                    } else if name == "variable_3"@ {
                        SpecTemplate { variable_3: Some(v), ..acc }
                    } else {
                        acc
                    },
                    j,
                ),
            ),
            SpecHead::Bad => Err(error_here(inp, j, "expected '(' or ':' in template body"@)),
        },
    }
}

/// template items up to and including the closing `}`.
pub open spec fn spec_template_items(inp: Input, i: int, acc: SpecTemplate) -> Parsed<SpecTemplate>
    decreases inp.toks.len() - i,
{
    match spec_consume(inp, i, 0x7d) {
        Err(e) => Err(e),
        Ok((true, j)) => Ok((acc, j)),
        Ok((false, _)) => match spec_template_item(inp, i, acc) {
            Err(e) => Err(e),
            Ok((a, j)) => if i < j <= inp.toks.len() {
                spec_template_items(inp, j, a)
            } else {
                Err(stuck(inp, i))
            },
        },
    }
}

/// A lookup-table template body (after its `{`): its axis variables.
pub open spec fn spec_template_body(inp: Input, i: int) -> Parsed<SpecTemplate> {
    spec_template_items(
        inp,
        i,
        SpecTemplate { variable_1: None, variable_2: None, variable_3: None },
    )
}

fn bus_item(l: &Lexed, i: usize, acc: &mut BusData) -> (r: Result<usize, ParseError>)
    requires
        at_pos(l, i),
    ensures
        step_agrees(r, *final(acc), spec_bus_item(input_of(l), i as int, old(acc)@)),
        r is Ok ==> i < r->Ok_0 <= l.tokens@.len(),
{
    broadcast use crate::data::group_view_push;

    let (h, j) = head(l, i)?;
    match h {
        Head::Group(name, args) => {
            if string_is(&name, "pin") {
                let (a, k) = parse_pin_body(l, j, first_or_empty_exec(&args))?;
                acc.pins.push(a);
                semicolon(l, k)
            } else if string_is(&name, "timing") {
                let (a, k) = parse_timing_body(l, j)?;
                acc.timing_arcs.push(a);
                semicolon(l, k)
            } else {
                let k = skip_group(l, j)?;
                semicolon(l, k)
            }
        },
        Head::Complex(name, args) => {
            if string_is(&name, "members") {
                let names = member_names_exec(&args);
                let ghost added = member_pins(texts(args@), opt_text(acc.direction));
                let mut extra: Vec<PinData> = Vec::new();
                let mut k: usize = 0;
                while k < names.len()
                    invariant
                        k <= names@.len(),
                        texts(names@) == member_names(texts(args@)),
                        added == member_pins(texts(args@), opt_text(acc.direction)),
                        pins(extra@) == added.take(k as int),
                    decreases names@.len() - k,
                {
                    let pin = new_pin_exec(names[k].clone(), clone_opt(&acc.direction));
                    assert(texts(names@)[k as int] == names@[k as int]@);
                    extra.push(pin);
                    assert(added.take(k + 1) =~= added.take(k as int).push(added[k as int]));
                    k = k + 1;
                }
                assert(added.take(k as int) =~= added);
                let ghost p0 = acc.pins@;
                let ghost e0 = extra@;
                acc.pins.append(&mut extra);
                assert(pins(p0 + e0) =~= pins(p0) + pins(e0));
            }
            semicolon(l, j)
        },
        Head::Simple(name, v) => {
            if string_is(&name, "direction") {
                acc.direction = Some(v);
            } else if string_is(&name, "function") {
                acc.function = Some(v);
            } else if string_is(&name, "bus_type") {
                acc.bus_type = Some(v);
            }
            Ok(j)
        },
        Head::Bad => Err(
            error_here_exec(l, j, string_of("expected '(' or ':' after bus item name")),
        ),
    }
}

fn parse_bus_items(l: &Lexed, i: usize, start: BusData) -> (r: Result<(BusData, usize), ParseError>)
    requires
        at_pos(l, i),
    ensures
        agrees(r, spec_bus_items(input_of(l), i as int, start@)),
        moves(r, l, i),
{
    let mut acc = start;
    let ghost acc0 = acc@;
    let mut p = i;
    loop
        invariant
            at_pos(l, p),
            i <= p,
            acc0 == start@,
            spec_bus_items(input_of(l), p as int, acc@) == spec_bus_items(
                input_of(l),
                i as int,
                acc0,
            ),
        decreases l.tokens@.len() - p,
    {
        let (close, j) = consume(l, p, 0x7d)?;
        if close {
            return Ok((acc, j));
        }
        p = bus_item(l, p, &mut acc)?;
    }
}

fn parse_bus_body(l: &Lexed, i: usize, name: String) -> (r: Result<(BusData, usize), ParseError>)
    requires
        at_pos(l, i),
    ensures
        agrees(r, spec_bus_body(input_of(l), i as int, name@)),
        moves(r, l, i),
{
    let b = BusData {
        name,
        direction: None,
        function: None,
        bus_type: None,
        pins: Vec::new(),
        timing_arcs: Vec::new(),
    };
    assert(b@.pins =~= Seq::<SpecPin>::empty());
    assert(b@.timing_arcs =~= Seq::<SpecArc>::empty());
    parse_bus_items(l, i, b)
}

fn bundle_item(l: &Lexed, i: usize, acc: &mut BundleData) -> (r: Result<usize, ParseError>)
    requires
        at_pos(l, i),
    ensures
        step_agrees(r, *final(acc), spec_bundle_item(input_of(l), i as int, old(acc)@)),
        r is Ok ==> i < r->Ok_0 <= l.tokens@.len(),
{
    broadcast use crate::data::group_view_push;

    let (h, j) = head(l, i)?;
    match h {
        Head::Group(name, args) => {
            if string_is(&name, "pin") {
                let (a, k) = parse_pin_body(l, j, first_or_empty_exec(&args))?;
                acc.pins.push(a);
                semicolon(l, k)
            } else if string_is(&name, "timing") {
                let (a, k) = parse_timing_body(l, j)?;
                acc.timing_arcs.push(a);
                semicolon(l, k)
            } else {
                let k = skip_group(l, j)?;
                semicolon(l, k)
            }
        },
        Head::Complex(name, args) => {
            if string_is(&name, "members") {
                acc.members = member_names_exec(&args);
            }
            semicolon(l, j)
        },
        Head::Simple(name, v) => {
            if string_is(&name, "direction") {
                acc.direction = Some(v);
            } else if string_is(&name, "function") {
                acc.function = Some(v);
            }
            Ok(j)
        },
        Head::Bad => Err(
            error_here_exec(l, j, string_of("expected '(' or ':' after bundle item name")),
        ),
    }
}

fn parse_bundle_items(l: &Lexed, i: usize, start: BundleData) -> (r: Result<(BundleData, usize), ParseError>)
    requires
        at_pos(l, i),
    ensures
        agrees(r, spec_bundle_items(input_of(l), i as int, start@)),
        moves(r, l, i),
{
    let mut acc = start;
    let ghost acc0 = acc@;
    let mut p = i;
    loop
        invariant
            at_pos(l, p),
            i <= p,
            acc0 == start@,
            spec_bundle_items(input_of(l), p as int, acc@) == spec_bundle_items(
                input_of(l),
                i as int,
                acc0,
            ),
        decreases l.tokens@.len() - p,
    {
        let (close, j) = consume(l, p, 0x7d)?;
        if close {
            return Ok((acc, j));
        }
        p = bundle_item(l, p, &mut acc)?;
    }
}

fn parse_bundle_body(l: &Lexed, i: usize, name: String) -> (r: Result<(BundleData, usize), ParseError>)
    requires
        at_pos(l, i),
    ensures
        agrees(r, spec_bundle_body(input_of(l), i as int, name@)),
        moves(r, l, i),
{
    let b = BundleData {
        name,
        direction: None,
        function: None,
        members: Vec::new(),
        pins: Vec::new(),
        timing_arcs: Vec::new(),
    };
    assert(b@.members =~= Seq::<Text>::empty());
    assert(b@.pins =~= Seq::<SpecPin>::empty());
    assert(b@.timing_arcs =~= Seq::<SpecArc>::empty());
    parse_bundle_items(l, i, b)
}

fn bus_type_item(l: &Lexed, i: usize, acc: &mut BusTypeData) -> (r: Result<usize, ParseError>)
    requires
        at_pos(l, i),
    ensures
        step_agrees(r, *final(acc), spec_bus_type_item(input_of(l), i as int, old(acc)@)),
        r is Ok ==> i < r->Ok_0 <= l.tokens@.len(),
{
    broadcast use crate::data::group_view_push;

    let (h, j) = head(l, i)?;
    match h {
        Head::Group(_, _) => skip_group(l, j),
        Head::Complex(_, _) => semicolon(l, j),
        Head::Simple(name, v) => {
            acc.attributes.push((name, v));
            Ok(j)
        },
        Head::Bad => Err(
            error_here_exec(l, j, string_of("expected '(' or ':' after type item name")),
        ),
    }
}

fn parse_bus_type_items(l: &Lexed, i: usize, start: BusTypeData) -> (r: Result<(BusTypeData, usize), ParseError>)
    requires
        at_pos(l, i),
    ensures
        agrees(r, spec_bus_type_items(input_of(l), i as int, start@)),
        moves(r, l, i),
{
    let mut acc = start;
    let ghost acc0 = acc@;
    let mut p = i;
    loop
        invariant
            at_pos(l, p),
            i <= p,
            acc0 == start@,
            spec_bus_type_items(input_of(l), p as int, acc@) == spec_bus_type_items(
                input_of(l),
                i as int,
                acc0,
            ),
        decreases l.tokens@.len() - p,
    {
        let (close, j) = consume(l, p, 0x7d)?;
        if close {
            return Ok((acc, j));
        }
        p = bus_type_item(l, p, &mut acc)?;
    }
}

fn parse_bus_type_body(l: &Lexed, i: usize, name: String) -> (r: Result<(BusTypeData, usize), ParseError>)
    requires
        at_pos(l, i),
    ensures
        agrees(r, spec_bus_type_body(input_of(l), i as int, name@)),
        moves(r, l, i),
{
    let b = BusTypeData { name, attributes: Vec::new() };
    assert(b@.attributes =~= Seq::<(Text, Text)>::empty());
    parse_bus_type_items(l, i, b)
}

fn template_item(l: &Lexed, i: usize, acc: &mut TemplateVars) -> (r: Result<usize, ParseError>)
    requires
        at_pos(l, i),
    ensures
        step_agrees(r, *final(acc), spec_template_item(input_of(l), i as int, old(acc)@)),
        r is Ok ==> i < r->Ok_0 <= l.tokens@.len(),
{
    let (h, j) = head(l, i)?;
    match h {
        Head::Group(_, _) => {
            let k = skip_group(l, j)?;
            semicolon(l, k)
        },
        Head::Complex(_, _) => semicolon(l, j),
        Head::Simple(name, v) => {
            if string_is(&name, "variable_1") {
                acc.variable_1 = Some(v);
            } else if string_is(&name, "variable_2") {
                acc.variable_2 = Some(v);
            } else if string_is(&name, "variable_3") {
                acc.variable_3 = Some(v);
            }
            Ok(j)
        },
        Head::Bad => Err(error_here_exec(l, j, string_of("expected '(' or ':' in template body"))),
    }
}

fn parse_template_items(l: &Lexed, i: usize, start: TemplateVars) -> (r: Result<(TemplateVars, usize), ParseError>)
    requires
        at_pos(l, i),
    ensures
        agrees(r, spec_template_items(input_of(l), i as int, start@)),
        moves(r, l, i),
{
    let mut acc = start;
    let ghost acc0 = acc@;
    let mut p = i;
    loop
        invariant
            at_pos(l, p),
            i <= p,
            acc0 == start@,
            spec_template_items(input_of(l), p as int, acc@) == spec_template_items(
                input_of(l),
                i as int,
                acc0,
            ),
        decreases l.tokens@.len() - p,
    {
        let (close, j) = consume(l, p, 0x7d)?;
        if close {
            return Ok((acc, j));
        }
        p = template_item(l, p, &mut acc)?;
    }
}

fn parse_template_body(l: &Lexed, i: usize) -> (r: Result<(TemplateVars, usize), ParseError>)
    requires
        at_pos(l, i),
    ensures
        agrees(r, spec_template_body(input_of(l), i as int)),
        moves(r, l, i),
{
    parse_template_items(
        l,
        i,
        TemplateVars { variable_1: None, variable_2: None, variable_3: None },
    )
}


// ---- CCS power ----
pub open spec fn spec_pg_item(inp: Input, i: int, acc: SpecPgCurrent) -> Parsed<SpecPgCurrent> {
    match spec_head(inp, i) {
        Err(e) => Err(e),
        Ok((h, j)) => match h {
            SpecHead::Group(name, args) => then_semicolon(
                inp,
                if name == "vector"@ {
                    match spec_table_body(inp, j, name, first_opt(args)) {
                        Err(e) => Err(e),
                        Ok((t, k)) => Ok((SpecPgCurrent { vectors: acc.vectors.push(t), ..acc }, k)),
                    }
                } else {
                    skipped(inp, j, acc)
                },
            ),
            SpecHead::Complex(_, _) => then_semicolon(inp, Ok((acc, j))),
            SpecHead::Simple(_, _) => Ok((acc, j)),
            SpecHead::Bad => Err(error_here(inp, j, "expected '(' or ':' in pg_current"@)),
        },
    }
}

/// pg items up to and including the closing `}`.
pub open spec fn spec_pg_items(inp: Input, i: int, acc: SpecPgCurrent) -> Parsed<SpecPgCurrent>
    decreases inp.toks.len() - i,
{
    match spec_consume(inp, i, 0x7d) {
        Err(e) => Err(e),
        Ok((true, j)) => Ok((acc, j)),
        Ok((false, _)) => match spec_pg_item(inp, i, acc) {
            Err(e) => Err(e),
            Ok((a, j)) => if i < j <= inp.toks.len() {
                spec_pg_items(inp, j, a)
            } else {
                Err(stuck(inp, i))
            },
        },
    }
}

/// A `pg_current` group body (after its `{`).
pub open spec fn spec_pg_body(inp: Input, i: int, pg_pin: Option<Text>) -> Parsed<SpecPgCurrent> {
    spec_pg_items(inp, i, SpecPgCurrent { pg_pin, vectors: Seq::empty() })
}

pub open spec fn spec_switching_item(inp: Input, i: int, acc: SpecSwitching) -> Parsed<
    SpecSwitching,
> {
    match spec_head(inp, i) {
        Err(e) => Err(e),
        Ok((h, j)) => match h {
            SpecHead::Group(name, args) => then_semicolon(
                inp,
                if name == "pg_current"@ {
                    match spec_pg_body(inp, j, first_opt(args)) {
                        Err(e) => Err(e),
                        Ok((a, k)) => Ok(
                            (SpecSwitching { pg_currents: acc.pg_currents.push(a), ..acc }, k),
                        ),
                    }
                } else {
                    skipped(inp, j, acc)
                },
            ),
            SpecHead::Complex(name, args) => then_semicolon(
                inp,
                Ok(
                    (
                        if name == "input_switching_condition"@ {
                            SpecSwitching { input_switching_condition: first_opt(args), ..acc }
                        } else if name == "output_switching_condition"@ {
                            SpecSwitching { output_switching_condition: first_opt(args), ..acc }
                        } else {
                            acc
                        },
                        j,
                    ),
                ),
            ),
            SpecHead::Simple(_, _) => Ok((acc, j)),
            SpecHead::Bad => Err(error_here(inp, j, "expected '(' or ':' in switching_group"@)),
        },
    }
}

/// switching items up to and including the closing `}`.
pub open spec fn spec_switching_items(inp: Input, i: int, acc: SpecSwitching) -> Parsed<SpecSwitching>
    decreases inp.toks.len() - i,
{
    match spec_consume(inp, i, 0x7d) {
        Err(e) => Err(e),
        Ok((true, j)) => Ok((acc, j)),
        Ok((false, _)) => match spec_switching_item(inp, i, acc) {
            Err(e) => Err(e),
            Ok((a, j)) => if i < j <= inp.toks.len() {
                spec_switching_items(inp, j, a)
            } else {
                Err(stuck(inp, i))
            },
        },
    }
}

/// A `switching_group` group body (after its `{`).
pub open spec fn spec_switching_body(inp: Input, i: int) -> Parsed<SpecSwitching> {
    spec_switching_items(
        inp,
        i,
        SpecSwitching {
            input_switching_condition: None,
            output_switching_condition: None,
            pg_currents: Seq::empty(),
        },
    )
}

pub open spec fn spec_dynamic_item(inp: Input, i: int, acc: SpecDynamic) -> Parsed<SpecDynamic> {
    match spec_head(inp, i) {
        Err(e) => Err(e),
        Ok((h, j)) => match h {
            SpecHead::Group(name, _) => then_semicolon(
                inp,
                if name == "switching_group"@ {
                    match spec_switching_body(inp, j) {
                        Err(e) => Err(e),
                        Ok((a, k)) => Ok(
                            (SpecDynamic { switching_groups: acc.switching_groups.push(a), ..acc }, k),
                        ),
                    }
                } else {
                    skipped(inp, j, acc)
                },
            ),
            SpecHead::Complex(_, _) => then_semicolon(inp, Ok((acc, j))),
            SpecHead::Simple(name, v) => Ok(
                (
                    if name == "related_inputs"@ {
                        SpecDynamic { related_inputs: Some(v), ..acc }
                    } else if name == "related_outputs"@ {
                        SpecDynamic { related_outputs: Some(v), ..acc }
                    } else if name == "when"@ {
                        SpecDynamic { when: Some(v), ..acc }
                    } else {
                        acc
                    },
                    j,
                ),
            ),
            SpecHead::Bad => Err(error_here(inp, j, "expected '(' or ':' in dynamic_current"@)),
        },
    }
}

/// dynamic items up to and including the closing `}`.
pub open spec fn spec_dynamic_items(inp: Input, i: int, acc: SpecDynamic) -> Parsed<SpecDynamic>
    decreases inp.toks.len() - i,
{
    match spec_consume(inp, i, 0x7d) {
        Err(e) => Err(e),
        Ok((true, j)) => Ok((acc, j)),
        Ok((false, _)) => match spec_dynamic_item(inp, i, acc) {
            Err(e) => Err(e),
            Ok((a, j)) => if i < j <= inp.toks.len() {
                spec_dynamic_items(inp, j, a)
            } else {
                Err(stuck(inp, i))
            },
        },
    }
}

/// A `dynamic_current` group body (after its `{`).
pub open spec fn spec_dynamic_body(inp: Input, i: int) -> Parsed<SpecDynamic> {
    spec_dynamic_items(
        inp,
        i,
        SpecDynamic {
            related_inputs: None,
            related_outputs: None,
            when: None,
            switching_groups: Seq::empty(),
        },
    )
}

// ---- cells ----
pub open spec fn spec_cell_item(inp: Input, i: int, acc: SpecCell) -> Parsed<SpecCell> {
    match spec_head(inp, i) {
        Err(e) => Err(e),
        Ok((h, j)) => match h {
            SpecHead::Group(name, args) => then_semicolon(
                inp,
                if name == "pin"@ {
                    match spec_pin_body(inp, j, first_or_empty(args)) {
                        Err(e) => Err(e),
                        Ok((a, k)) => Ok((SpecCell { pins: acc.pins.push(a), ..acc }, k)),
                    }
                } else if name == "bus"@ {
                    match spec_bus_body(inp, j, first_or_empty(args)) {
                        Err(e) => Err(e),
                        Ok((a, k)) => Ok((SpecCell { buses: acc.buses.push(a), ..acc }, k)),
                    }
                } else if name == "bundle"@ {
                    match spec_bundle_body(inp, j, first_or_empty(args)) {
                        Err(e) => Err(e),
                        Ok((a, k)) => Ok((SpecCell { bundles: acc.bundles.push(a), ..acc }, k)),
                    }
                } else if name == "dynamic_current"@ {
                    match spec_dynamic_body(inp, j) {
                        Err(e) => Err(e),
                        Ok((a, k)) => Ok(
                            (SpecCell { dynamic_currents: acc.dynamic_currents.push(a), ..acc }, k),
                        ),
                    }
                } else {
                    skipped(inp, j, acc)
                },
            ),
            SpecHead::Complex(name, args) => then_semicolon(
                inp,
                Ok(
                    (
                        SpecCell {
                            attributes: acc.attributes.push((name, spec_join(args, ", "@))),
                            ..acc
                        },
                        j,
                    ),
                ),
            ),
            SpecHead::Simple(name, v) => Ok(
                (
                    SpecCell {
                        area: if name == "area"@ {
                            Some(v)
                        } else {
                            acc.area
                        },
                        attributes: acc.attributes.push((name, v)),
                        ..acc
                    },
                    j,
                ),
            ),
            SpecHead::Bad => Err(error_here(inp, j, "expected '(' or ':' after cell item name"@)),
        },
    }
}

/// cell items up to and including the closing `}`.
pub open spec fn spec_cell_items(inp: Input, i: int, acc: SpecCell) -> Parsed<SpecCell>
    decreases inp.toks.len() - i,
{
    match spec_consume(inp, i, 0x7d) {
        Err(e) => Err(e),
        Ok((true, j)) => Ok((acc, j)),
        Ok((false, _)) => match spec_cell_item(inp, i, acc) {
            Err(e) => Err(e),
            Ok((a, j)) => if i < j <= inp.toks.len() {
                spec_cell_items(inp, j, a)
            } else {
                Err(stuck(inp, i))
            },
        },
    }
}

/// A `cell` group body (after its `{`).
pub open spec fn spec_cell_body(inp: Input, i: int, name: Text) -> Parsed<SpecCell> {
    spec_cell_items(
        inp,
        i,
        SpecCell {
            name,
            area: None,
            pins: Seq::empty(),
            buses: Seq::empty(),
            bundles: Seq::empty(),
            attributes: Seq::empty(),
            dynamic_currents: Seq::empty(),
        },
    )
}

fn pg_item(l: &Lexed, i: usize, acc: &mut PgCurrentData) -> (r: Result<usize, ParseError>)
    requires
        at_pos(l, i),
    ensures
        step_agrees(r, *final(acc), spec_pg_item(input_of(l), i as int, old(acc)@)),
        r is Ok ==> i < r->Ok_0 <= l.tokens@.len(),
{
    broadcast use crate::data::group_view_push;

    let (h, j) = head(l, i)?;
    match h {
        Head::Group(name, args) => {
            if string_is(&name, "vector") {
                let template = first_opt_exec(&args);
                let (t, k) = parse_table_body(l, j, name, template)?;
                acc.vectors.push(t);
                semicolon(l, k)
            } else {
                let k = skip_group(l, j)?;
                semicolon(l, k)
            }
        },
        Head::Complex(_, _) => semicolon(l, j),
        Head::Simple(_, _) => Ok(j),
        Head::Bad => Err(error_here_exec(l, j, string_of("expected '(' or ':' in pg_current"))),
    }
}

fn parse_pg_items(l: &Lexed, i: usize, start: PgCurrentData) -> (r: Result<(PgCurrentData, usize), ParseError>)
    requires
        at_pos(l, i),
    ensures
        agrees(r, spec_pg_items(input_of(l), i as int, start@)),
        moves(r, l, i),
{
    let mut acc = start;
    let ghost acc0 = acc@;
    let mut p = i;
    loop
        invariant
            at_pos(l, p),
            i <= p,
            acc0 == start@,
            spec_pg_items(input_of(l), p as int, acc@) == spec_pg_items(
                input_of(l),
                i as int,
                acc0,
            ),
        decreases l.tokens@.len() - p,
    {
        let (close, j) = consume(l, p, 0x7d)?;
        if close {
            return Ok((acc, j));
        }
        p = pg_item(l, p, &mut acc)?;
    }
}

fn parse_pg_body(l: &Lexed, i: usize, pg_pin: Option<String>) -> (r: Result<(PgCurrentData, usize), ParseError>)
    requires
        at_pos(l, i),
    ensures
        agrees(r, spec_pg_body(input_of(l), i as int, opt_text(pg_pin))),
        moves(r, l, i),
{
    let a = PgCurrentData { pg_pin, vectors: Vec::new() };
    assert(a@.vectors =~= Seq::<SpecTable>::empty());
    parse_pg_items(l, i, a)
}

fn switching_item(l: &Lexed, i: usize, acc: &mut SwitchingGroupData) -> (r: Result<usize, ParseError>)
    requires
        at_pos(l, i),
    ensures
        step_agrees(r, *final(acc), spec_switching_item(input_of(l), i as int, old(acc)@)),
        r is Ok ==> i < r->Ok_0 <= l.tokens@.len(),
{
    broadcast use crate::data::group_view_push;

    let (h, j) = head(l, i)?;
    match h {
        Head::Group(name, args) => {
            if string_is(&name, "pg_current") {
                let (a, k) = parse_pg_body(l, j, first_opt_exec(&args))?;
                acc.pg_currents.push(a);
                semicolon(l, k)
            } else {
                let k = skip_group(l, j)?;
                semicolon(l, k)
            }
        },
        Head::Complex(name, args) => {
            if string_is(&name, "input_switching_condition") {
                acc.input_switching_condition = first_opt_exec(&args);
            } else if string_is(&name, "output_switching_condition") {
                acc.output_switching_condition = first_opt_exec(&args);
            }
            semicolon(l, j)
        },
        Head::Simple(_, _) => Ok(j),
        Head::Bad => Err(error_here_exec(l, j, string_of("expected '(' or ':' in switching_group"))),
    }
}

fn parse_switching_items(l: &Lexed, i: usize, start: SwitchingGroupData) -> (r: Result<(SwitchingGroupData, usize), ParseError>)
    requires
        at_pos(l, i),
    ensures
        agrees(r, spec_switching_items(input_of(l), i as int, start@)),
        moves(r, l, i),
{
    let mut acc = start;
    let ghost acc0 = acc@;
    let mut p = i;
    loop
        invariant
            at_pos(l, p),
            i <= p,
            acc0 == start@,
            spec_switching_items(input_of(l), p as int, acc@) == spec_switching_items(
                input_of(l),
                i as int,
                acc0,
            ),
        decreases l.tokens@.len() - p,
    {
        let (close, j) = consume(l, p, 0x7d)?;
        if close {
            return Ok((acc, j));
        }
        p = switching_item(l, p, &mut acc)?;
    }
}

fn parse_switching_body(l: &Lexed, i: usize) -> (r: Result<(SwitchingGroupData, usize), ParseError>)
    requires
        at_pos(l, i),
    ensures
        agrees(r, spec_switching_body(input_of(l), i as int)),
        moves(r, l, i),
{
    let a = SwitchingGroupData {
        input_switching_condition: None,
        output_switching_condition: None,
        pg_currents: Vec::new(),
    };
    assert(a@.pg_currents =~= Seq::<SpecPgCurrent>::empty());
    parse_switching_items(l, i, a)
}

fn dynamic_item(l: &Lexed, i: usize, acc: &mut DynamicCurrentData) -> (r: Result<usize, ParseError>)
    requires
        at_pos(l, i),
    ensures
        step_agrees(r, *final(acc), spec_dynamic_item(input_of(l), i as int, old(acc)@)),
        r is Ok ==> i < r->Ok_0 <= l.tokens@.len(),
{
    broadcast use crate::data::group_view_push;

    let (h, j) = head(l, i)?;
    match h {
        Head::Group(name, _) => {
            if string_is(&name, "switching_group") {
                let (a, k) = parse_switching_body(l, j)?;
                acc.switching_groups.push(a);
                semicolon(l, k)
            } else {
                let k = skip_group(l, j)?;
                semicolon(l, k)
            }
        },
        Head::Complex(_, _) => semicolon(l, j),
        Head::Simple(name, v) => {
            if string_is(&name, "related_inputs") {
                acc.related_inputs = Some(v);
            } else if string_is(&name, "related_outputs") {
                acc.related_outputs = Some(v);
            } else if string_is(&name, "when") {
                acc.when = Some(v);
            }
            Ok(j)
        },
        Head::Bad => Err(error_here_exec(l, j, string_of("expected '(' or ':' in dynamic_current"))),
    }
}

fn parse_dynamic_items(l: &Lexed, i: usize, start: DynamicCurrentData) -> (r: Result<(DynamicCurrentData, usize), ParseError>)
    requires
        at_pos(l, i),
    ensures
        agrees(r, spec_dynamic_items(input_of(l), i as int, start@)),
        moves(r, l, i),
{
    let mut acc = start;
    let ghost acc0 = acc@;
    let mut p = i;
    loop
        invariant
            at_pos(l, p),
            i <= p,
            acc0 == start@,
            spec_dynamic_items(input_of(l), p as int, acc@) == spec_dynamic_items(
                input_of(l),
                i as int,
                acc0,
            ),
        decreases l.tokens@.len() - p,
    {
        let (close, j) = consume(l, p, 0x7d)?;
        if close {
            return Ok((acc, j));
        }
        p = dynamic_item(l, p, &mut acc)?;
    }
}

fn parse_dynamic_body(l: &Lexed, i: usize) -> (r: Result<(DynamicCurrentData, usize), ParseError>)
    requires
        at_pos(l, i),
    ensures
        agrees(r, spec_dynamic_body(input_of(l), i as int)),
        moves(r, l, i),
{
    let a = DynamicCurrentData {
        related_inputs: None,
        related_outputs: None,
        when: None,
        switching_groups: Vec::new(),
    };
    assert(a@.switching_groups =~= Seq::<SpecSwitching>::empty());
    parse_dynamic_items(l, i, a)
}

fn cell_item(l: &Lexed, i: usize, acc: &mut CellData) -> (r: Result<usize, ParseError>)
    requires
        at_pos(l, i),
    ensures
        step_agrees(r, *final(acc), spec_cell_item(input_of(l), i as int, old(acc)@)),
        r is Ok ==> i < r->Ok_0 <= l.tokens@.len(),
{
    broadcast use crate::data::group_view_push;

    let (h, j) = head(l, i)?;
    match h {
        Head::Group(name, args) => {
            if string_is(&name, "pin") {
                let (a, k) = parse_pin_body(l, j, first_or_empty_exec(&args))?;
                acc.pins.push(a);
                semicolon(l, k)
            } else if string_is(&name, "bus") {
                let (a, k) = parse_bus_body(l, j, first_or_empty_exec(&args))?;
                acc.buses.push(a);
                semicolon(l, k)
            } else if string_is(&name, "bundle") {
                let (a, k) = parse_bundle_body(l, j, first_or_empty_exec(&args))?;
                acc.bundles.push(a);
                semicolon(l, k)
            } else if string_is(&name, "dynamic_current") {
                let (a, k) = parse_dynamic_body(l, j)?;
                acc.dynamic_currents.push(a);
                semicolon(l, k)
            } else {
                let k = skip_group(l, j)?;
                semicolon(l, k)
            }
        },
        Head::Complex(name, args) => {
            let joined = join(&args, ", ");
            acc.attributes.push((name, joined));
            semicolon(l, j)
        },
        Head::Simple(name, v) => {
            if string_is(&name, "area") {
                acc.area = Some(v.clone());
            }
            acc.attributes.push((name, v));
            Ok(j)
        },
        Head::Bad => Err(
            error_here_exec(l, j, string_of("expected '(' or ':' after cell item name")),
        ),
    }
}

fn parse_cell_items(l: &Lexed, i: usize, start: CellData) -> (r: Result<(CellData, usize), ParseError>)
    requires
        at_pos(l, i),
    ensures
        agrees(r, spec_cell_items(input_of(l), i as int, start@)),
        moves(r, l, i),
{
    let mut acc = start;
    let ghost acc0 = acc@;
    let mut p = i;
    loop
        invariant
            at_pos(l, p),
            i <= p,
            acc0 == start@,
            spec_cell_items(input_of(l), p as int, acc@) == spec_cell_items(
                input_of(l),
                i as int,
                acc0,
            ),
        decreases l.tokens@.len() - p,
    {
        let (close, j) = consume(l, p, 0x7d)?;
        if close {
            return Ok((acc, j));
        }
        p = cell_item(l, p, &mut acc)?;
    }
}

fn parse_cell_body(l: &Lexed, i: usize, name: String) -> (r: Result<(CellData, usize), ParseError>)
    requires
        at_pos(l, i),
    ensures
        agrees(r, spec_cell_body(input_of(l), i as int, name@)),
        moves(r, l, i),
{
    let c = CellData {
        name,
        area: None,
        pins: Vec::new(),
        buses: Vec::new(),
        bundles: Vec::new(),
        attributes: Vec::new(),
        dynamic_currents: Vec::new(),
    };
    assert(c@.pins =~= Seq::<SpecPin>::empty());
    assert(c@.buses =~= Seq::<SpecBus>::empty());
    assert(c@.bundles =~= Seq::<SpecBundle>::empty());
    assert(c@.attributes =~= Seq::<(Text, Text)>::empty());
    assert(c@.dynamic_currents =~= Seq::<SpecDynamic>::empty());
    parse_cell_items(l, i, c)
}


// ---- the library ----
/// The optional cell filter as texts.
pub open spec fn filter_view(f: Option<Vec<String>>) -> Option<Seq<Text>> {
    match f {
        Some(v) => Some(texts(v@)),
        None => None,
    }
}

/// Whether a cell of this name is kept.
pub open spec fn cell_allowed(filter: Option<Seq<Text>>, name: Text) -> bool {
    match filter {
        Some(names) => names.contains(name),
        None => true,
    }
}

pub open spec fn second_opt(args: Seq<Text>) -> Option<Text> {
    if args.len() > 1 {
        Some(args[1])
    } else {
        None
    }
}

pub open spec fn is_template_group(n: Text) -> bool {
    n == "lu_table_template"@ || n == "power_lut_template"@ || n == "output_current_template"@
}

pub open spec fn spec_library_item(
    inp: Input,
    i: int,
    acc: SpecDoc,
    filter: Option<Seq<Text>>,
) -> Parsed<SpecDoc> {
    match spec_head(inp, i) {
        Err(e) => Err(e),
        Ok((h, j)) => match h {
            SpecHead::Group(name, args) => then_semicolon(
                inp,
                if name == "cell"@ {
                    if cell_allowed(filter, first_or_empty(args)) {
                        match spec_cell_body(inp, j, first_or_empty(args)) {
                            Err(e) => Err(e),
                            Ok((c, k)) => Ok((SpecDoc { cells: acc.cells.push(c), ..acc }, k)),
                        }
                    } else {
                        skipped(inp, j, acc)
                    }
                } else if name == "type"@ {
                    match spec_bus_type_body(inp, j, first_or_empty(args)) {
                        Err(e) => Err(e),
                        Ok((b, k)) => Ok((SpecDoc { bus_types: acc.bus_types.push(b), ..acc }, k)),
                    }
                } else if is_template_group(name) {
                    match spec_template_body(inp, j) {
                        Err(e) => Err(e),
                        Ok((t, k)) => Ok(
                            (
                                SpecDoc {
                                    templates: acc.templates.push((first_or_empty(args), t)),
                                    ..acc
                                },
                                k,
                            ),
                        ),
                    }
                } else if name == "normalized_driver_waveform"@ {
                    match spec_table_body(inp, j, Seq::empty(), first_opt(args)) {
                        Err(e) => Err(e),
                        Ok((t, k)) => Ok(
                            (SpecDoc { driver_waveforms: acc.driver_waveforms.push(t), ..acc }, k),
                        ),
                    }
                } else {
                    skipped(inp, j, acc)
                },
            ),
            SpecHead::Complex(name, args) => then_semicolon(
                inp,
                Ok(
                    (
                        SpecDoc {
                            capacitive_load_unit: if name == "capacitive_load_unit"@ {
                                second_opt(args)
                            } else {
                                acc.capacitive_load_unit
                            },
                            attributes: acc.attributes.push((name, spec_join(args, ", "@))),
                            ..acc
                        },
                        j,
                    ),
                ),
            ),
            SpecHead::Simple(name, v) => Ok(
                (
                    SpecDoc {
                        voltage_unit: if name == "voltage_unit"@ {
                            Some(v)
                        } else {
                            acc.voltage_unit
                        },
                        current_unit: if name == "current_unit"@ {
                            Some(v)
                        } else {
                            acc.current_unit
                        },
                        time_unit: if name == "time_unit"@ {
                            Some(v)
                        } else {
                            acc.time_unit
                        },
                        attributes: acc.attributes.push((name, v)),
                        ..acc
                    },
                    j,
                ),
            ),
            SpecHead::Bad => Err(
                error_here(inp, j, "expected '(' or ':' after library item name"@),
            ),
        },
    }
}

/// library items up to and including the closing `}`.
pub open spec fn spec_library_items(inp: Input, i: int, acc: SpecDoc, filter: Option<Seq<Text>>) -> Parsed<SpecDoc>
    decreases inp.toks.len() - i,
{
    match spec_consume(inp, i, 0x7d) {
        Err(e) => Err(e),
        Ok((true, j)) => Ok((acc, j)),
        Ok((false, _)) => match spec_library_item(inp, i, acc, filter) {
            Err(e) => Err(e),
            Ok((a, j)) => if i < j <= inp.toks.len() {
                spec_library_items(inp, j, a, filter)
            } else {
                Err(stuck(inp, i))
            },
        },
    }
}

/// The message for a `}` at the top level.
pub open spec fn unbalanced_message() -> Text {
    "unexpected '}': unbalanced braces (a group has an extra closing brace, or an opening brace is missing earlier)"@
}

/// The message for a top-level group other than `library`.
pub open spec fn top_level_message(name: Text) -> Text {
    "unexpected top-level "@ + debug_quoted(name)
        + " group: expected a single 'library' group (unbalanced braces may have closed it early)"@
}

/// Top-level groups from position `i` on, accumulated into `acc`; every
/// `library` group adds to the same document and renames it.
pub open spec fn spec_doc_loop(inp: Input, i: int, acc: SpecDoc, filter: Option<Seq<Text>>) -> Result<
    SpecDoc,
    SpecError,
>
    decreases inp.toks.len() - i,
{
    match cur(inp, i) {
        None => if acc.library_name.len() == 0 {
            Err(error_here(inp, i, "missing top-level library group"@))
        } else {
            Ok(acc)
        },
        Some(t) => if t.kind == SpecKind::Symbol(0x7d) {
            Err(SpecError { line: t.line, column: t.column, message: unbalanced_message() })
        } else {
            match spec_take_word(inp, i) {
                Err(e) => Err(e),
                Ok((name, j)) => match spec_consume(inp, j, 0x28) {
                    Err(e) => Err(e),
                    Ok((open, k)) => match if open {
                        spec_read_args(inp, k, name)
                    } else {
                        Ok((Seq::empty(), k))
                    } {
                        Err(e) => Err(e),
                        Ok((args, k2)) => match spec_expect(inp, k2, 0x7b) {
                            Err(e) => Err(e),
                            Ok(m) => if name == "library"@ {
                                match spec_library_items(
                                    inp,
                                    m,
                                    SpecDoc { library_name: first_or_empty(args), ..acc },
                                    filter,
                                ) {
                                    Err(e) => Err(e),
                                    Ok((acc2, m2)) => match spec_consume(inp, m2, 0x3b) {
                                        Err(e) => Err(e),
                                        Ok((_, m3)) => if i < m3 <= inp.toks.len() {
                                            spec_doc_loop(inp, m3, acc2, filter)
                                        } else {
                                            Err(stuck(inp, i))
                                        },
                                    },
                                }
                            } else {
                                Err(
                                    SpecError {
                                        line: t.line,
                                        column: t.column,
                                        message: top_level_message(name),
                                    },
                                )
                            },
                        },
                    },
                },
            }
        },
    }
}

pub open spec fn empty_doc() -> SpecDoc {
    SpecDoc {
        library_name: Seq::empty(),
        voltage_unit: None,
        current_unit: None,
        time_unit: None,
        capacitive_load_unit: None,
        templates: Seq::empty(),
        attributes: Seq::empty(),
        driver_waveforms: Seq::empty(),
        cells: Seq::empty(),
        bus_types: Seq::empty(),
    }
}

/// The document a token stream describes, keeping only the cells the filter
/// names (all cells without a filter), or the first error.
pub open spec fn spec_parse_tokens(inp: Input, filter: Option<Seq<Text>>) -> Result<SpecDoc, SpecError> {
    match spec_advance(inp, -1) {
        Err(e) => Err(e),
        Ok(i) => spec_doc_loop(inp, i, empty_doc(), filter),
    }
}

/// The document that the bytes of a Liberty file describe, or the first error.
pub open spec fn spec_parse_bytes(d: Seq<u8>, filter: Option<Seq<Text>>) -> Result<SpecDoc, SpecError> {
    spec_parse_tokens(input_of_bytes(d), filter)
}

/// Whether `name` is one of `names`.
fn contains_text(names: &Vec<String>, name: &String) -> (r: bool)
    ensures
        r == texts(names@).contains(name@),
{
    let mut i: usize = 0;
    while i < names.len()
        invariant
            i <= names@.len(),
            forall|k: int| 0 <= k < i ==> names@[k]@ != name@,
        decreases names@.len() - i,
    {
        if names[i] == *name {
            assert(texts(names@)[i as int] == name@);
            return true;
        }
        i = i + 1;
    }
    proof {
        if texts(names@).contains(name@) {
            let k = choose|k: int| 0 <= k < texts(names@).len() && texts(names@)[k] == name@;
            assert(names@[k]@ == name@);
        }
    }
    false
}

fn cell_allowed_exec(filter: &Option<Vec<String>>, name: &String) -> (r: bool)
    ensures
        r == cell_allowed(filter_view(*filter), name@),
{
    match filter {
        Some(names) => contains_text(names, name),
        None => true,
    }
}

fn second_opt_exec(args: &Vec<String>) -> (r: Option<String>)
    ensures
        opt_text(r) == second_opt(texts(args@)),
{
    if args.len() > 1 {
        Some(args[1].clone())
    } else {
        None
    }
}

fn library_item(l: &Lexed, i: usize, acc: &mut Document, filter: &Option<Vec<String>>) -> (r: Result<usize, ParseError>)
    requires
        at_pos(l, i),
    ensures
        step_agrees(
            r,
            *final(acc),
            spec_library_item(input_of(l), i as int, old(acc)@, filter_view(*filter)),
        ),
        r is Ok ==> i < r->Ok_0 <= l.tokens@.len(),
{
    broadcast use crate::data::group_view_push;

    let (h, j) = head(l, i)?;
    match h {
        Head::Group(name, args) => {
            if string_is(&name, "cell") {
                let cell_name = first_or_empty_exec(&args);
                if cell_allowed_exec(filter, &cell_name) {
                    let (c, k) = parse_cell_body(l, j, cell_name)?;
                    acc.cells.push(c);
                    semicolon(l, k)
                } else {
                    let k = skip_group(l, j)?;
                    semicolon(l, k)
                }
            } else if string_is(&name, "type") {
                let (b, k) = parse_bus_type_body(l, j, first_or_empty_exec(&args))?;
                acc.bus_types.push(b);
                semicolon(l, k)
            } else if string_is(&name, "lu_table_template") || string_is(&name, "power_lut_template")
                || string_is(&name, "output_current_template") {
                let template_name = first_or_empty_exec(&args);
                let (t, k) = parse_template_body(l, j)?;
                acc.templates.push((template_name, t));
                semicolon(l, k)
            } else if string_is(&name, "normalized_driver_waveform") {
                let template = first_opt_exec(&args);
                let (t, k) = parse_table_body(l, j, String::new(), template)?;
                acc.driver_waveforms.push(t);
                semicolon(l, k)
            } else {
                let k = skip_group(l, j)?;
                semicolon(l, k)
            }
        },
        Head::Complex(name, args) => {
            if string_is(&name, "capacitive_load_unit") {
                acc.capacitive_load_unit = second_opt_exec(&args);
            }
            let joined = join(&args, ", ");
            acc.attributes.push((name, joined));
            semicolon(l, j)
        },
        Head::Simple(name, v) => {
            if string_is(&name, "voltage_unit") {
                acc.voltage_unit = Some(v.clone());
            }
            if string_is(&name, "current_unit") {
                acc.current_unit = Some(v.clone());
            }
            if string_is(&name, "time_unit") {
                acc.time_unit = Some(v.clone());
            }
            acc.attributes.push((name, v));
            Ok(j)
        },
        Head::Bad => Err(
            error_here_exec(l, j, string_of("expected '(' or ':' after library item name")),
        ),
    }
}

fn parse_library_items(l: &Lexed, i: usize, start: Document, filter: &Option<Vec<String>>) -> (r: Result<(Document, usize), ParseError>)
    requires
        at_pos(l, i),
    ensures
        agrees(r, spec_library_items(input_of(l), i as int, start@, filter_view(*filter))),
        moves(r, l, i),
{
    let mut acc = start;
    let ghost acc0 = acc@;
    let mut p = i;
    loop
        invariant
            at_pos(l, p),
            i <= p,
            acc0 == start@,
            spec_library_items(input_of(l), p as int, acc@, filter_view(*filter)) == spec_library_items(
                input_of(l),
                i as int,
                acc0, filter_view(*filter),
            ),
        decreases l.tokens@.len() - p,
    {
        let (close, j) = consume(l, p, 0x7d)?;
        if close {
            return Ok((acc, j));
        }
        p = library_item(l, p, &mut acc, filter)?;
    }
}

fn empty_document() -> (r: Document)
    ensures
        r@ == empty_doc(),
{
    let d = Document {
        library_name: String::new(),
        voltage_unit: None,
        current_unit: None,
        time_unit: None,
        capacitive_load_unit: None,
        templates: Vec::new(),
        attributes: Vec::new(),
        driver_waveforms: Vec::new(),
        cells: Vec::new(),
        bus_types: Vec::new(),
    };
    assert(d@.templates =~= Seq::<(Text, SpecTemplate)>::empty());
    assert(d@.attributes =~= Seq::<(Text, Text)>::empty());
    assert(d@.driver_waveforms =~= Seq::<SpecTable>::empty());
    assert(d@.cells =~= Seq::<SpecCell>::empty());
    assert(d@.bus_types =~= Seq::<SpecBusType>::empty());
    d
}

/// Parses a token stream into a document, keeping only the cells that
/// `filter` names when there is one.
pub fn parse_tokens(l: &Lexed, filter: &Option<Vec<String>>) -> (r: Result<Document, ParseError>)
    requires
        l.tokens@.len() < usize::MAX,
    ensures
        match spec_parse_tokens(input_of(l), filter_view(*filter)) {
            Ok(d) => r is Ok && r->Ok_0@ == d,
            Err(e) => r is Err && r->Err_0@ == e,
        },
{
    let start: usize = if 0 < l.tokens.len() {
        0
    } else {
        match &l.error {
            Some(e) => {
                return Err(clone_error(e));
            },
            None => l.tokens.len(),
        }
    };
    let mut doc = empty_document();
    let mut p = start;
    loop
        invariant
            at_pos(l, p),
            spec_advance(input_of(l), -1) == Ok::<int, SpecError>(start as int),
            start <= p,
            spec_doc_loop(input_of(l), p as int, doc@, filter_view(*filter)) == spec_doc_loop(
                input_of(l),
                start as int,
                empty_doc(),
                filter_view(*filter),
            ),
        decreases l.tokens@.len() - p,
    {
        if p >= l.tokens.len() {
            if doc.library_name.as_str().is_empty() {
                return Err(error_here_exec(l, p, string_of("missing top-level library group")));
            }
            return Ok(doc);
        }
        let line = l.tokens[p].line;
        let column = l.tokens[p].column;
        if is_symbol_at(l, p, 0x7d) {
            return Err(
                ParseError::new(
                    line,
                    column,
                    "unexpected '}': unbalanced braces (a group has an extra closing brace, or an opening brace is missing earlier)",
                ),
            );
        }
        let (name, j) = take_word(l, p)?;
        let (open, k) = consume(l, j, 0x28)?;
        let (args, k2) = if open {
            read_args(l, k, &name)?
        } else {
            let none: Vec<String> = Vec::new();
            assert(texts(none@) =~= Seq::<Text>::empty());
            (none, k)
        };
        let m = expect(l, k2, 0x7b)?;
        if string_is(&name, "library") {
            doc.library_name = first_or_empty_exec(&args);
            let (doc2, m2) = parse_library_items(l, m, doc, filter)?;
            doc = doc2;
            let (_, m3) = consume(l, m2, 0x3b)?;
            p = m3;
        } else {
            let mut msg = string_of("unexpected top-level ");
            let quoted = debug_string(name.as_str());
            append_str(&mut msg, quoted.as_str());
            append_str(
                &mut msg,
                " group: expected a single 'library' group (unbalanced braces may have closed it early)",
            );
            return Err(ParseError { line, column, message: msg });
        }
    }
}

} // verus!
