use liberty_tools::boolexpr::{bool_implies, parse_bool_expr};
use liberty_tools::data::TimingTableData;
use liberty_tools::input::parse_bytes;
use liberty_tools::query::{
    filter_timing_arcs, matches_opt, matches_opt_opt, quoted_message, WhenFilter,
};
use liberty_tools::rows::table_position;

const LIB: &str = r#"library (q) {
  cell (MUX) {
    pin (Y) {
      direction : output;
      timing () { related_pin : A; timing_type : combinational; when : "A & B";
        cell_rise (t) { index_1 ("1, 2"); values ("10, 20"); } }
      timing () { related_pin : A; when : "A & !B";
        cell_fall (t) { index_1 ("1, 2"); values ("30, 40"); } }
      timing () { related_pin : A; when : "!A";
        cell_rise (t) { values ("50"); } }
      timing () { related_pin : A; when : "A | B";
        cell_rise (t) { values ("60"); } }
      timing () { related_pin : S;
        cell_rise (t) { values ("70"); } }
      internal_power () { related_pin : A; related_pg_pin : VDD; when : "A";
        rise_power (p) { index_1 ("0.5"); index_2 ("1, 2"); values ("1, 2"); } }
    }
    bus (D) {
      pin (D0) { timing () { related_pin : CK; cell_rise (t) { values ("5"); } } }
      timing () { related_pin : CK; cell_rise (t) { values ("6"); } }
    }
  }
}
"#;

fn s(v: &str) -> Option<String> {
    Some(v.to_string())
}

#[test]
fn when_query_matches_arcs_that_imply_it() {
    let f = WhenFilter::new(Some("A")).unwrap();
    assert!(f.matches(&s("A & B")));
    assert!(f.matches(&s("A & !B")));
    assert!(!f.matches(&s("!A")));
    assert!(!f.matches(&s("A | B")));
    assert!(!f.matches(&None));
    assert!(!f.matches(&s("A &")));
}

#[test]
fn no_when_query_matches_everything() {
    let f = WhenFilter::new(None).unwrap();
    assert!(f.matches(&None));
    assert!(f.matches(&s("!A")));
    assert!(f.matches(&s("((")));
}

#[test]
fn invalid_when_query_is_an_error() {
    let e = WhenFilter::new(Some("A &")).err().unwrap();
    assert!(e.starts_with("invalid when expression: "));
}

#[test]
fn operators_of_when_expressions() {
    let q = parse_bool_expr("A").unwrap();
    for text in ["A*B", "A & B'", "A & ~B", "(A+B)&A", "A ^ 0 & A"] {
        let a = parse_bool_expr(text).unwrap();
        assert!(bool_implies(&a, &q), "{text}");
    }
    for text in ["A'", "A ^ B", "B", "1"] {
        let a = parse_bool_expr(text).unwrap();
        assert!(!bool_implies(&a, &q), "{text}");
    }
}

#[test]
fn name_filters() {
    assert!(matches_opt(None, "x"));
    assert!(matches_opt(Some("x"), "x"));
    assert!(!matches_opt(Some("x"), "y"));
    assert!(matches_opt_opt(None, &None));
    assert!(!matches_opt_opt(Some("x"), &None));
    assert!(matches_opt_opt(Some("x"), &s("x")));
}

#[test]
fn pin_timing_arcs_filter_by_when() {
    let doc = parse_bytes(LIB.as_bytes(), &None).unwrap();
    let y = &doc.cells[0].pins[0];
    assert_eq!(y.timing_arcs(Some("A"), None, Some("A")).unwrap(), vec![0, 1]);
    assert_eq!(y.timing_arcs(None, None, None).unwrap(), vec![0, 1, 2, 3, 4]);
    assert_eq!(y.timing_arcs(Some("S"), None, None).unwrap(), vec![4]);
    assert_eq!(y.timing_arcs(None, Some("combinational"), None).unwrap(), vec![0]);
    assert!(y.timing_arcs(None, None, Some("(")).is_err());
    assert_eq!(
        filter_timing_arcs(&y.timing_arcs, None, None, Some("B")).unwrap(),
        vec![0]
    );
    assert_eq!(y.internal_power(None, Some("VDD"), Some("A")).unwrap(), vec![0]);
    assert_eq!(y.internal_power(None, Some("VSS"), None).unwrap(), Vec::<usize>::new());
}

#[test]
fn timing_rows_across_document() {
    let doc = parse_bytes(LIB.as_bytes(), &None).unwrap();
    let rows = doc.timing_tables(None, None, None, None, Some("A"), None).unwrap();
    let values: Vec<&str> = rows.iter().map(|r| r.value.as_str()).collect();
    assert_eq!(values, vec!["10", "20", "30", "40"]);
    assert_eq!(rows[1].cell, "MUX");
    assert_eq!(rows[1].pin, "Y");
    assert_eq!(rows[1].table, "cell_rise");
    assert_eq!(rows[1].row, 1);
    assert_eq!(rows[1].col, 0);
    assert_eq!(rows[1].index_1.as_deref(), Some("2"));
    assert_eq!(rows[1].index_2, None);
    assert_eq!(rows[1].when.as_deref(), Some("A & B"));
    assert_eq!(rows[1].timing_type.as_deref(), Some("combinational"));
    assert_eq!(rows[1].related_pg_pin, None);

    let bus_rows = doc
        .timing_tables(Some("MUX"), None, Some("CK"), None, None, Some("cell_rise"))
        .unwrap();
    let pins: Vec<&str> = bus_rows.iter().map(|r| r.pin.as_str()).collect();
    // the bus's own arcs come before those of its pins
    assert_eq!(pins, vec!["D", "D0"]);

    let only_bus_pin = doc.timing_tables(None, Some("D0"), None, None, None, None).unwrap();
    assert_eq!(only_bus_pin.len(), 1);
    assert_eq!(only_bus_pin[0].value, "5");

    assert!(doc.timing_tables(Some("NONE"), None, None, None, None, None).unwrap().is_empty());
    assert!(doc.timing_tables(None, None, None, None, Some("&"), None).is_err());
}

#[test]
fn power_rows_across_document() {
    let doc = parse_bytes(LIB.as_bytes(), &None).unwrap();
    let rows = doc.internal_power_tables(None, None, None, Some("VDD"), None, None).unwrap();
    assert_eq!(rows.len(), 2);
    assert_eq!(rows[0].related_pg_pin.as_deref(), Some("VDD"));
    assert_eq!(rows[0].timing_type, None);
    assert_eq!(rows[1].row, 0);
    assert_eq!(rows[1].col, 1);
    assert_eq!(rows[1].index_1.as_deref(), Some("0.5"));
    assert_eq!(rows[1].index_2.as_deref(), Some("2"));
    assert_eq!(rows[1].value, "2");
    assert!(doc.internal_power_tables(None, None, None, None, Some("!A"), None).unwrap().is_empty());
}

fn table(n1: usize, n2: usize, n3: usize, values: usize) -> TimingTableData {
    let items = |n: usize| (0..n).map(|i| i.to_string()).collect::<Vec<_>>();
    TimingTableData {
        name: "t".to_string(),
        index_1: items(n1),
        index_2: items(n2),
        index_3: items(n3),
        values: items(values),
        template: None,
        reference_time: None,
        vectors: Vec::new(),
    }
}

#[test]
fn table_positions() {
    assert_eq!(table_position(&table(2, 3, 0, 6), 4), (1, 1, 0));
    assert_eq!(table_position(&table(2, 3, 4, 24), 23), (1, 2, 3));
    assert_eq!(table_position(&table(2, 3, 4, 24), 13), (1, 0, 1));
    assert_eq!(table_position(&table(2, 0, 4, 8), 5), (1, 0, 1));
    assert_eq!(table_position(&table(5, 0, 0, 5), 3), (3, 0, 0));
    assert_eq!(table_position(&table(0, 0, 0, 3), 2), (0, 2, 0));
}

#[test]
fn table_positions_are_row_major() {
    for (n1, n2, n3) in [(2usize, 3usize, 4usize), (3, 5, 0), (1, 1, 7)] {
        let m3 = n3.max(1);
        let t = table(n1, n2, n3, n1 * n2 * m3);
        for idx in 0..n1 * n2 * m3 {
            let (i, j, k) = table_position(&t, idx);
            assert_eq!((i * n2 + j) * m3 + k, idx);
            assert!(j < n2 && k < m3);
        }
    }
}

#[test]
fn table_rows_of_a_single_table() {
    let rows = table(2, 2, 0, 4).rows();
    assert_eq!(rows.len(), 4);
    assert_eq!(rows[3].cell, "");
    assert_eq!(rows[3].index_1.as_deref(), Some("1"));
    assert_eq!(rows[3].index_2.as_deref(), Some("1"));
    assert_eq!(rows[3].index_3, None);
    assert_eq!(rows[3].value, "3");
    assert_eq!(rows[2].related_pin, None);
}

#[test]
fn lookup_messages_quote_the_name() {
    assert_eq!(quoted_message("unknown cell ", "a\"b"), "unknown cell \"a\\\"b\"");
}

#[test]
fn bus_type_attribute_lookup() {
    let doc = parse_bytes(
        b"library (l) { type (b8) { base_type : array; bit_width : 8; bit_width : 9; } }",
        &None,
    )
    .unwrap();
    let bt = &doc.bus_types[doc.bus_type("b8").unwrap()];
    assert_eq!(bt.get("bit_width").as_deref(), Some("8"));
    assert_eq!(bt.get("missing"), None);
    assert_eq!(doc.bus_types(), vec!["b8".to_string()]);
}

fn row_key(r: &liberty_tools::rows::TableRow) -> String {
    format!(
        "{}|{}|{:?}|{:?}|{:?}|{}|{}|{}|{}|{}",
        r.cell, r.pin, r.related_pin, r.timing_type, r.when, r.table, r.row, r.col, r.depth, r.value
    )
}

fn is_subsequence(narrow: &[String], wide: &[String]) -> bool {
    let mut i = 0;
    for w in wide {
        if i < narrow.len() && &narrow[i] == w {
            i += 1;
        }
    }
    i == narrow.len()
}

#[test]
fn adding_a_timing_filter_keeps_a_subsequence() {
    let doc = parse_bytes(LIB.as_bytes(), &None).unwrap();
    let all: Vec<String> =
        doc.timing_tables(None, None, None, None, None, None).unwrap().iter().map(row_key).collect();
    assert_eq!(all.len(), 9);
    let by_pin: Vec<String> =
        doc.timing_tables(None, Some("Y"), None, None, None, None).unwrap().iter().map(row_key).collect();
    assert_eq!(by_pin.len(), 7);
    assert!(is_subsequence(&by_pin, &all));
    let by_pin_and_table: Vec<String> = doc
        .timing_tables(None, Some("Y"), None, None, None, Some("cell_rise"))
        .unwrap()
        .iter()
        .map(row_key)
        .collect();
    assert_eq!(by_pin_and_table.len(), 5);
    assert!(is_subsequence(&by_pin_and_table, &by_pin));
    let by_when: Vec<String> = doc
        .timing_tables(None, Some("Y"), None, None, Some("A"), Some("cell_rise"))
        .unwrap()
        .iter()
        .map(row_key)
        .collect();
    assert_eq!(by_when.len(), 2);
    assert!(is_subsequence(&by_when, &by_pin_and_table));
}

#[test]
fn adding_a_power_filter_keeps_a_subsequence() {
    let doc = parse_bytes(LIB.as_bytes(), &None).unwrap();
    let all: Vec<String> = doc
        .internal_power_tables(None, None, None, None, None, None)
        .unwrap()
        .iter()
        .map(row_key)
        .collect();
    assert_eq!(all.len(), 2);
    let by_pg: Vec<String> = doc
        .internal_power_tables(None, None, None, Some("VDD"), None, None)
        .unwrap()
        .iter()
        .map(row_key)
        .collect();
    assert_eq!(by_pg, all);
    let none: Vec<String> = doc
        .internal_power_tables(None, None, None, Some("VSS"), None, None)
        .unwrap()
        .iter()
        .map(row_key)
        .collect();
    assert!(none.is_empty());
    assert!(is_subsequence(&none, &all));
}
