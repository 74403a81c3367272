use liberty_tools::index::{index_cells, match_braces, read_paren_args, read_token, skip_trivia};
use liberty_tools::library::{parse_slice_as_library, CellLookupError, LibraryIndex};

const LIB: &str = "/* header */\nlibrary (\"lib1\") {\n  time_unit : \"1ns\";\n  cell (X) { area : 1; pin (A) { direction : \"in}put\"; } }\n  # note }\n  cell (Y) { area : 2; }\n  cell (X) { area : 3; }\n}\n";

fn open(text: &str) -> LibraryIndex {
    let data = text.as_bytes().to_vec();
    let idx = index_cells(&data);
    assert!(idx.preamble_start <= idx.preamble_end && idx.preamble_end <= data.len());
    match LibraryIndex::from_index(data, idx) {
        Ok(li) => li,
        Err(e) => panic!("{}", e.describe()),
    }
}

#[test]
fn index_finds_top_level_cells() {
    let d = LIB.as_bytes();
    let idx = index_cells(d);
    assert_eq!(idx.library_name, "lib1");
    let names: Vec<&str> = idx.cells.iter().map(|c| c.0.as_str()).collect();
    assert_eq!(names, vec!["X", "Y", "X"]);
    let (_, start, end) = &idx.cells[0];
    assert!(LIB[*start..*end].starts_with("cell (X)"));
    assert!(LIB[*start..*end].ends_with("} }"));
    assert_eq!(idx.preamble_end, idx.cells[0].1);
    assert!(LIB[idx.preamble_start..idx.preamble_end].contains("time_unit"));
}

#[test]
fn index_keeps_each_name_once_with_its_last_range() {
    let li = open(LIB);
    assert_eq!(li.cell_names(), vec!["X".to_string(), "Y".to_string()]);
    assert_eq!(li.num_cells(), 2);
    let x = li.cell("X").ok().unwrap();
    assert_eq!(x.area.as_deref(), Some("3"));
    let y = li.cell("Y").ok().unwrap();
    assert_eq!(y.name, "Y");
    assert_eq!(li.library_name, "lib1");
    assert_eq!(li.header.time_unit.as_deref(), Some("1ns"));
    assert!(li.header.cells.is_empty());
}

#[test]
fn unknown_cell_is_reported() {
    let li = open(LIB);
    assert!(matches!(li.cell("Z"), Err(CellLookupError::Unknown)));
    assert_eq!(li.cell_range("Z"), None);
    let (s, e) = li.cell_range("Y").unwrap();
    assert!(LIB[s..e].starts_with("cell (Y)"));
}

#[test]
fn broken_cell_reports_its_parse_error() {
    let li = open("library (l) {\n cell (B) { area : ; x ( }\n}\n");
    match li.cell("B") {
        Err(CellLookupError::Parse(e)) => assert!(!e.message.is_empty()),
        _ => panic!("expected a parse error"),
    }
}

#[test]
fn slices_parse_as_a_library_body() {
    let doc = parse_slice_as_library("n", b"cell (C) { area : 4; }").ok().unwrap();
    assert_eq!(doc.library_name, "n");
    assert_eq!(doc.cells.len(), 1);
    assert_eq!(doc.cells[0].area.as_deref(), Some("4"));
}

#[test]
fn scanner_pieces() {
    let d = b"  // c\n  name (\"a, b\", c d) { x { } \"}\" } ;";
    let i = skip_trivia(d, 0);
    assert_eq!(i, 9);
    let (tok, j) = read_token(d, i);
    assert_eq!(tok, "name");
    let p = skip_trivia(d, j);
    let (args, k) = read_paren_args(d, p);
    // trivia between the bytes of a bare argument is dropped
    assert_eq!(args, vec!["a, b".to_string(), "cd".to_string()]);
    let b = skip_trivia(d, k);
    assert_eq!(d[b], b'{');
    let end = match_braces(d, b);
    assert_eq!(&d[end - 1..end], b"}");
    assert_eq!(d[skip_trivia(d, end)], b';');
}

#[test]
fn skip_quoted_ends_past_the_closing_quote() {
    assert_eq!(liberty_tools::index::skip_quoted(b"'a\\'b' x", 0), 6);
    assert_eq!(liberty_tools::index::skip_quoted(b"\"ab\" x", 0), 4);
    // no closing quote: the end of the data
    assert_eq!(liberty_tools::index::skip_quoted(b"\"abc", 0), 4);
    // a quote of the other kind does not close
    assert_eq!(liberty_tools::index::skip_quoted(b"\"a'b\"", 0), 5);
    // a trailing backslash carries one past the end
    assert_eq!(liberty_tools::index::skip_quoted(b"\"a\\", 0), 4);
}

#[test]
fn index_ranges_are_ordered_and_within_the_data() {
    let d = LIB.as_bytes();
    let idx = index_cells(d);
    assert!(idx.preamble_start <= idx.preamble_end);
    assert_eq!(idx.preamble_end, idx.cells[0].1);
    for (k, (_, s, e)) in idx.cells.iter().enumerate() {
        assert!(s < e && *e <= d.len());
        assert_eq!(read_token(d, *s).0, "cell");
        if k + 1 < idx.cells.len() {
            assert!(*e <= idx.cells[k + 1].1);
        }
    }
}

#[test]
fn open_bytes_builds_the_index() {
    let li = match liberty_tools::library::open_bytes(LIB.as_bytes().to_vec()) {
        Ok(li) => li,
        Err(e) => panic!("{}", e.describe()),
    };
    assert_eq!(li.cell_names(), vec!["X".to_string(), "Y".to_string()]);
    match li.cell("Y") {
        Ok(c) => assert_eq!(c.area.as_deref(), Some("2")),
        _ => panic!("expected cell Y"),
    }
    assert!(matches!(li.cell("Q"), Err(CellLookupError::Unknown)));
    // a preamble that does not parse is its parse error
    assert!(liberty_tools::library::open_bytes(b"library (l) {\n ;\n cell (C) { }\n}\n".to_vec()).is_err());
}

#[test]
fn open_bytes_holds_ranges_to_the_data() {
    // the scan runs past the end of the data; the preamble is held to it
    assert!(liberty_tools::library::open_bytes(b"library(x){ a".to_vec()).is_err());
    // a quote left open after a backslash: the scan ends past the data
    // (its framed header does not parse)
    assert!(liberty_tools::library::open_bytes(b"\"\\".to_vec()).is_err());
    // a cell whose range ends past the data is parsed from what is there
    let li = liberty_tools::library::open_bytes(b"library (l) { cell (C) { a : \"x\\".to_vec()).ok().unwrap();
    assert_eq!(li.cell_names(), vec!["C".to_string()]);
    let (s, e) = li.cell_range("C").unwrap();
    assert_eq!(e, li.data.len() + 1);
    assert!(s < li.data.len());
    match li.cell("C") {
        Err(CellLookupError::Parse(e)) => assert_eq!(e.message, "unterminated quoted string"),
        _ => panic!("expected a parse error"),
    }
}

#[test]
fn unknown_names_are_exactly_the_unindexed_ones() {
    let li = open(LIB);
    for n in ["X", "Y"] {
        assert!(li.cell(n).is_ok());
    }
    for n in ["Z", "x", "", "cell"] {
        assert!(matches!(li.cell(n), Err(CellLookupError::Unknown)));
    }
}

#[test]
fn skip_quoted_stops_at_the_first_unescaped_quote() {
    // two backslashes escape each other; the quote after them closes
    assert_eq!(liberty_tools::index::skip_quoted(b"\"a\\\\\" b\"", 0), 5);
    // three leave the quote escaped
    assert_eq!(liberty_tools::index::skip_quoted(b"\"a\\\\\\\" b\"", 0), 9);
}
