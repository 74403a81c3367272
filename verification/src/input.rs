//! Reading a Liberty file's bytes: gzip decompression by file name, and the
//! entry points that lex and parse the result.
use std::io::Read;
use vstd::prelude::*;
use vstd::string::StringSliceAdditionalSpecFns;
use crate::text::{str_chars, string_of};
use crate::lexer::{ParseError, SpecError, lex, lex_all, spec_lex, lemma_lex_count, start_cursor,
    token_code};
use crate::parser::{parse_tokens, spec_parse_bytes, filter_view, input_of};
use crate::data::Document;

verus! {

/// What `flate2::read::GzDecoder` reads from `data` to its end: the
/// decompressed first gzip member, or the text of the error it reports.
pub uninterp spec fn gzip_decoded(data: Seq<u8>) -> Result<Seq<u8>, Seq<char>>;

/// Decompresses gzip data by reading a `flate2::read::GzDecoder` over it to
/// the end. Trusted: the result, and the error text on failure, are
/// `gzip_decoded` of the input.
#[verifier::external_body]
fn gunzip(data: &[u8]) -> (r: Result<Vec<u8>, String>)
    ensures
        match r {
            Ok(v) => gzip_decoded(data@) == Ok::<Seq<u8>, Seq<char>>(v@),
            Err(m) => gzip_decoded(data@) == Err::<Seq<u8>, Seq<char>>(m@),
        },
{
    let mut out = Vec::new();
    match flate2::read::GzDecoder::new(data).read_to_end(&mut out) {
        Ok(_) => Ok(out),
        Err(e) => Err(e.to_string()),
    }
}

/// Whether a file name ends in `.gz`.
pub open spec fn has_gz_suffix(path: Seq<char>) -> bool {
    path.len() >= 3 && path.subrange(path.len() - 3, path.len() as int) == ".gz"@
}

/// The contents of a file read as `raw`: decompressed when its name ends in
/// `.gz`.
pub open spec fn spec_decode_input(path: Seq<char>, raw: Seq<u8>) -> Result<Seq<u8>, Seq<char>> {
    if has_gz_suffix(path) {
        gzip_decoded(raw)
    } else {
        Ok(raw)
    }
}

pub fn is_gz_path(path: &str) -> (r: bool)
    ensures
        r == has_gz_suffix(path@),
{
    let c = str_chars(path);
    let n = c.len();
    proof {
        reveal_strlit(".gz");
    }
    if n >= 3 && c[n - 3] == '.' && c[n - 2] == 'g' && c[n - 1] == 'z' {
        assert(c@.subrange(n - 3, n as int) =~= ".gz"@);
        true
    } else {
        proof {
            if n >= 3 && c@.subrange(n - 3, n as int) == ".gz"@ {
                assert(c@.subrange(n - 3, n as int)[0] == c@[n - 3]);
                assert(c@.subrange(n - 3, n as int)[1] == c@[n - 2]);
                assert(c@.subrange(n - 3, n as int)[2] == c@[n - 1]);
            }
        }
        false
    }
}

/// The contents of the file `path` given its raw bytes: decompressed when the
/// name ends in `.gz`, else the bytes themselves; on a decompression failure,
/// the decoder's error text.
pub fn decode_input(path: &str, raw: Vec<u8>) -> (r: Result<Vec<u8>, String>)
    ensures
        match spec_decode_input(path@, raw@) {
            Ok(v) => r is Ok && r->Ok_0@ == v,
            Err(m) => r is Err && r->Err_0@ == m,
        },
{
    if is_gz_path(path) {
        gunzip(raw.as_slice())
    } else {
        Ok(raw)
    }
}

/// Parses the bytes of a Liberty file, keeping only the cells that `filter`
/// names when there is one.
pub fn parse_bytes(data: &[u8], filter: &Option<Vec<String>>) -> (r: Result<Document, ParseError>)
    requires
        data@.len() < usize::MAX,
    ensures
        match spec_parse_bytes(data@, filter_view(*filter)) {
            Ok(d) => r is Ok && r->Ok_0@ == d,
            Err(e) => r is Err && r->Err_0@ == e,
        },
{
    let l = lex(data);
    proof {
        lemma_lex_count(data@, start_cursor());
        assert(input_of(&l) == crate::parser::input_of_bytes(data@));
    }
    parse_tokens(&l, filter)
}

/// The error a parse reports when the input could not be read: line and
/// column 0.
pub open spec fn read_error(m: Seq<char>) -> SpecError {
    SpecError { line: 0, column: 0, message: m }
}

/// Parses the file `path` given its raw bytes: decompressed first when the
/// name ends in `.gz`. A decompression failure is reported at line 0,
/// column 0.
pub fn parse_input(path: &str, raw: Vec<u8>, filter: &Option<Vec<String>>) -> (r: Result<
    Document,
    ParseError,
>)
    ensures
        match spec_decode_input(path@, raw@) {
            Err(m) => r is Err && r->Err_0@ == read_error(m),
            Ok(d) => d.len() < usize::MAX ==> match spec_parse_bytes(d, filter_view(*filter)) {
                Ok(doc) => r is Ok && r->Ok_0@ == doc,
                Err(e) => r is Err && r->Err_0@ == e,
            },
        },
{
    match decode_input(path, raw) {
        Err(m) => Err(ParseError { line: 0, column: 0, message: m }),
        Ok(d) => {
            if d.len() == usize::MAX {
                return Err(ParseError { line: 0, column: 0, message: string_of("input too large") });
            }
            parse_bytes(d.as_slice(), filter)
        },
    }
}

/// The token stream of the file `path` given its raw bytes, encoded as
/// strings (`W<word>`, `S<symbol>`).
pub fn tokenize_input(path: &str, raw: Vec<u8>) -> (r: Result<Vec<String>, ParseError>)
    ensures
        match spec_decode_input(path@, raw@) {
            Err(m) => r is Err && r->Err_0@ == read_error(m),
            Ok(d) => d.len() < usize::MAX ==> {
                let (ts, e, _) = spec_lex(d);
                match e {
                    Some(e) => r is Err && r->Err_0@ == e,
                    None => r is Ok && r->Ok_0@.len() == ts.len() && forall|k: int|
                        0 <= k < ts.len() ==> #[trigger] r->Ok_0@[k]@ == token_code(ts[k]),
                }
            },
        },
{
    match decode_input(path, raw) {
        Err(m) => Err(ParseError { line: 0, column: 0, message: m }),
        Ok(d) => {
            if d.len() == usize::MAX {
                return Err(ParseError { line: 0, column: 0, message: string_of("input too large") });
            }
            lex_all(d.as_slice())
        },
    }
}

/// The token stream of a text, encoded as strings (`W<word>`, `S<symbol>`).
pub fn tokenize_text(text: &str) -> (r: Result<Vec<String>, ParseError>)
    ensures
        text.spec_bytes().len() < usize::MAX ==> {
            let (ts, e, _) = spec_lex(text.spec_bytes());
            match e {
                Some(e) => r is Err && r->Err_0@ == e,
                None => r is Ok && r->Ok_0@.len() == ts.len() && forall|k: int|
                    0 <= k < ts.len() ==> #[trigger] r->Ok_0@[k]@ == token_code(ts[k]),
            }
        },
{
    let d = text.as_bytes();
    if d.len() == usize::MAX {
        return Err(ParseError { line: 0, column: 0, message: string_of("input too large") });
    }
    lex_all(d)
}

} // verus!
