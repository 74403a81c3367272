use std::io::Write;

use liberty_tools::input::{parse_bytes, parse_input, tokenize_input, tokenize_text};
use liberty_tools::lexer::{lex_all, next_token, Cursor, ParseError, TokenKind};

const DEMO: &str = r#"/* demo library */
library (demo) {
  time_unit : "1ns" ;
  voltage_unit : "1V";
  current_unit : "1mA";
  capacitive_load_unit (1, ff);
  lu_table_template (tmpl2) {
    variable_1 : input_net_transition;
    variable_2 : total_output_net_capacitance;
    index_1 ("1, 2");
  }
  type (bus4) {
    base_type : array;
    bit_width : 4;
  }
  cell (AND2) {
    area : 1.5;
    pin (A) { direction : input; }
    pin (B) { direction : input; }
    pin (Y) {
      direction : output;
      function : "A & B";
      timing () {
        related_pin : "A";
        timing_type : combinational;
        when : "B";
        cell_rise (tmpl2) {
          index_1 ("0.1, 0.2");
          index_2 ("1, 2, 3,");
          values ("1, 2, 3", \
                  "4, 5, 6");
        }
      }
      internal_power () {
        related_pin : "A";
        rise_power (tmpl2) { index_1 ("0.1"); values ("7, 8"); }
      }
    }
  }
  cell (INV) {
    area : 1;
    pin (Y) { direction : output; function : "!A"; }
  }
}
"#;

fn strings(v: &[&str]) -> Vec<String> {
    v.iter().map(|s| s.to_string()).collect()
}

#[test]
fn parses_library_header() {
    let doc = parse_bytes(DEMO.as_bytes(), &None).unwrap();
    assert_eq!(doc.library_name, "demo");
    assert_eq!(doc.time_unit.as_deref(), Some("1ns"));
    assert_eq!(doc.voltage_unit.as_deref(), Some("1V"));
    assert_eq!(doc.current_unit.as_deref(), Some("1mA"));
    assert_eq!(doc.capacitive_load_unit.as_deref(), Some("ff"));
    assert_eq!(doc.templates.len(), 1);
    assert_eq!(doc.templates[0].0, "tmpl2");
    assert_eq!(doc.templates[0].1.variable_1.as_deref(), Some("input_net_transition"));
    assert_eq!(doc.bus_types.len(), 1);
    assert_eq!(doc.bus_types[0].name, "bus4");
    assert!(doc
        .attributes
        .contains(&("capacitive_load_unit".to_string(), "1, ff".to_string())));
}

#[test]
fn parses_cells_pins_and_arcs() {
    let doc = parse_bytes(DEMO.as_bytes(), &None).unwrap();
    assert_eq!(doc.cells(), strings(&["AND2", "INV"]));
    let and2 = &doc.cells[doc.cell("AND2").unwrap()];
    assert_eq!(and2.area.as_deref(), Some("1.5"));
    assert_eq!(and2.pins(), strings(&["A", "B", "Y"]));
    let y = &and2.pins[and2.pin("Y").unwrap()];
    assert_eq!(y.direction.as_deref(), Some("output"));
    assert_eq!(y.function.as_deref(), Some("A & B"));
    assert_eq!(y.timing_arcs.len(), 1);
    let arc = &y.timing_arcs[0];
    assert_eq!(arc.related_pin.as_deref(), Some("A"));
    assert_eq!(arc.timing_type.as_deref(), Some("combinational"));
    assert_eq!(arc.when.as_deref(), Some("B"));
    assert_eq!(arc.tables(), strings(&["cell_rise"]));
    let t = &arc.tables[arc.table("cell_rise").unwrap()];
    assert_eq!(t.template.as_deref(), Some("tmpl2"));
    assert_eq!(t.index_1, strings(&["0.1", "0.2"]));
    // the empty item after the trailing comma is not a number and is dropped
    assert_eq!(t.index_2, strings(&["1", "2", "3"]));
    assert_eq!(t.values, strings(&["1", "2", "3", "4", "5", "6"]));
    assert_eq!(y.internal_powers.len(), 1);
    assert_eq!(y.internal_powers[0].tables(), strings(&["rise_power"]));
    assert_eq!(doc.cell("NOPE"), None);
    assert_eq!(and2.pin("Q"), None);
}

#[test]
fn selective_parse_keeps_named_cells() {
    let filter = Some(strings(&["INV"]));
    let doc = parse_bytes(DEMO.as_bytes(), &filter).unwrap();
    assert_eq!(doc.cells(), strings(&["INV"]));
    assert_eq!(doc.library_name, "demo");
}

#[test]
fn stray_close_brace_is_reported() {
    let err = parse_bytes(b"library (x) { }\n}\n", &None).err().unwrap();
    assert_eq!(err.line, 2);
    assert_eq!(err.column, 1);
    assert!(err.message.starts_with("unexpected '}': unbalanced braces"));
}

#[test]
fn missing_library_is_reported() {
    let err = parse_bytes(b"", &None).err().unwrap();
    assert_eq!(err.message, "missing top-level library group");
}

#[test]
fn top_level_group_other_than_library_is_reported() {
    let err = parse_bytes(b"library (x) { }\ncell (c) { }\n", &None).err().unwrap();
    assert_eq!(err.line, 2);
    assert_eq!(err.column, 1);
    assert_eq!(
        err.message,
        "unexpected top-level \"cell\" group: expected a single 'library' group (unbalanced braces may have closed it early)"
    );
}

#[test]
fn describe_formats_parse_errors() {
    let e = ParseError::new(3, 7, "oops");
    assert_eq!(e.describe(), "Liberty parse error at line 3, column 7: oops");
}

#[test]
fn tokenizes_words_and_symbols() {
    let toks = tokenize_text("a : \"b c\"; // note\n").unwrap();
    assert_eq!(toks, strings(&["Wa", "S:", "Wb c", "S;"]));
    let same = lex_all(b"a:\n  'b c' ;").unwrap();
    assert_eq!(same, toks);
}

#[test]
fn unterminated_comment_is_an_error() {
    assert!(tokenize_text("a /* never closed").is_err());
}

#[test]
fn gzip_input_is_decompressed() {
    let mut enc = flate2::write::GzEncoder::new(Vec::new(), flate2::Compression::default());
    enc.write_all(DEMO.as_bytes()).unwrap();
    let gz = enc.finish().unwrap();
    let doc = parse_input("demo.lib.gz", gz.clone(), &None).unwrap();
    assert_eq!(doc.cells(), strings(&["AND2", "INV"]));
    let toks = tokenize_input("demo.lib.gz", gz).unwrap();
    assert_eq!(toks[0], "Wlibrary");
}

#[test]
fn plain_input_is_read_as_is() {
    let doc = parse_input("demo.lib", DEMO.as_bytes().to_vec(), &None).unwrap();
    assert_eq!(doc.library_name, "demo");
}

#[test]
fn bad_gzip_reports_line_zero() {
    let err = parse_input("demo.lib.gz", b"not gzip data".to_vec(), &None).err().unwrap();
    assert_eq!((err.line, err.column), (0, 0));
    assert!(!err.message.is_empty());
}

#[test]
fn invalid_utf8_becomes_replacement_char() {
    let doc = parse_bytes(b"library (x\xffy) { }", &None).unwrap();
    assert_eq!(doc.library_name, "x\u{FFFD}y");
}

const SAME_TOKENS: &str = "library(demo){time_unit:\"1ns\";voltage_unit:'1V';current_unit:\"1mA\";\
capacitive_load_unit(1,ff);lu_table_template(tmpl2){variable_1:input_net_transition;\
variable_2:total_output_net_capacitance;index_1(\"1, 2\");}type(bus4){base_type:array;bit_width:4;}\
cell(AND2){area:1.5;pin(A){direction:input;}pin(B){direction:input;}pin(Y){direction:output;\
function:\"A & B\";timing(){related_pin:\"A\";timing_type:combinational;when:\"B\";\
cell_rise(tmpl2){index_1(\"0.1, 0.2\");index_2(\"1, 2, 3,\");values(\"1, 2, 3\",\"4, 5, 6\");}}\
internal_power(){related_pin:\"A\";rise_power(tmpl2){index_1(\"0.1\");values(\"7, 8\");}}}}\
cell(INV){area:1;pin(Y){direction:output;function:\"!A\";}}}";

#[test]
fn equal_token_streams_parse_alike() {
    assert_eq!(tokenize_text(DEMO).unwrap(), tokenize_text(SAME_TOKENS).unwrap());
    let a = parse_bytes(DEMO.as_bytes(), &None).unwrap();
    let b = parse_bytes(SAME_TOKENS.as_bytes(), &None).unwrap();
    assert_eq!(a.library_name, b.library_name);
    assert_eq!(a.cells(), b.cells());
    assert_eq!(a.attributes, b.attributes);
    let rows = |d: &liberty_tools::data::Document| {
        d.timing_tables(None, None, None, None, None, None)
            .unwrap()
            .iter()
            .map(|r| (r.pin.clone(), r.row, r.col, r.value.clone()))
            .collect::<Vec<_>>()
    };
    assert_eq!(rows(&a), rows(&b));
    // errors keep their message though their place in the text differs
    let e1 = parse_bytes(b"library (x) {\n\n  a b ;\n}", &None).err().unwrap();
    let e2 = parse_bytes(b"library(x){a b;}", &None).err().unwrap();
    assert_eq!(e1.message, e2.message);
    assert_ne!(e1.line, e2.line);
}

#[test]
fn token_lines_and_columns_follow_the_newlines() {
    let d = b"a {\n  # c\n\tb : \"x\" ;\r\n/* m\n */ c";
    let mut c = Cursor { pos: 0, line: 1, column: 1 };
    let mut seen = Vec::new();
    while let Ok(Some(t)) = next_token(d, &mut c) {
        let text = match &t.kind {
            TokenKind::Word(w) => w.clone(),
            TokenKind::Symbol(b) => (*b as char).to_string(),
        };
        seen.push((text, t.line, t.column));
    }
    let expect = vec![
        ("a".to_string(), 1, 1),
        ("{".to_string(), 1, 3),
        ("b".to_string(), 3, 2),
        (":".to_string(), 3, 4),
        ("x".to_string(), 3, 6),
        (";".to_string(), 3, 10),
        ("c".to_string(), 5, 5),
    ];
    assert_eq!(seen, expect);
}

#[test]
fn unclosed_block_comment_is_reported_where_it_opens() {
    let e = tokenize_text("a\n  /* never closed").err().unwrap();
    assert_eq!(e.message, "unterminated block comment");
    assert_eq!((e.line, e.column), (2, 3));
}

#[test]
fn selective_parse_is_the_full_parse_filtered() {
    let full = parse_bytes(DEMO.as_bytes(), &None).unwrap();
    assert_eq!(full.cells(), strings(&["AND2", "INV"]));
    for names in [vec!["INV"], vec!["AND2"], vec!["INV", "AND2", "NONE"], vec![]] {
        let filter = Some(strings(&names));
        let part = parse_bytes(DEMO.as_bytes(), &filter).unwrap();
        let expect: Vec<String> =
            full.cells().into_iter().filter(|n| names.contains(&n.as_str())).collect();
        assert_eq!(part.cells(), expect);
        for (k, c) in part.cells.iter().enumerate() {
            let i = full.cells.iter().position(|f| f.name == c.name).unwrap();
            assert_eq!(format!("{:?}", c), format!("{:?}", full.cells[i]));
            assert_eq!(c.name, expect[k]);
        }
        assert_eq!(part.library_name, full.library_name);
        assert_eq!(part.time_unit, full.time_unit);
        assert_eq!(format!("{:?}", part.attributes), format!("{:?}", full.attributes));
        assert_eq!(format!("{:?}", part.templates), format!("{:?}", full.templates));
        assert_eq!(format!("{:?}", part.bus_types), format!("{:?}", full.bus_types));
    }
}

#[test]
fn skipping_a_cell_that_parses_differently_changes_the_result() {
    // an attribute value `}` ends the skipped group early
    let text = b"library (l) { cell (X) { a : } ; } cell (Y) { } }";
    let full = parse_bytes(text, &None).unwrap();
    assert_eq!(full.cells(), strings(&["X", "Y"]));
    assert!(parse_bytes(text, &Some(strings(&["Y"]))).is_err());
}

#[test]
fn trivia_between_tokens_is_dropped() {
    let toks = tokenize_text("a \\\n b # c\n/* d */ // e\r\n c").unwrap();
    assert_eq!(toks, strings(&["Wa", "Wb", "Wc"]));
}
