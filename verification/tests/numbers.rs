use liberty_tools::number::{is_float, keep_numbers};
use liberty_tools::units::{unit_parts, SiPrefix};

#[test]
fn float_literals() {
    for t in ["1", "1.5", "1.", ".5", "-2e-3", "+4E7", "inf", "-Infinity", "NaN", "0.1e+2"] {
        assert!(is_float(t), "{t}");
    }
    for t in ["", ".", "e5", "1e", "1e+", "abc", "1,2", " 1", "--1", "0x10", "1.2.3"] {
        assert!(!is_float(t), "{t}");
    }
}

#[test]
fn float_check_agrees_with_std() {
    for t in ["1", "1.", ".5", "-.5e1", "inF", "+nan", "1e", "e", "", "1_0", "١"] {
        assert_eq!(is_float(t), t.parse::<f64>().is_ok(), "{t}");
    }
}

#[test]
fn keeps_only_numbers() {
    let v: Vec<String> = ["1", "", "x", "2.5"].iter().map(|s| s.to_string()).collect();
    assert_eq!(keep_numbers(v), vec!["1".to_string(), "2.5".to_string()]);
}

#[test]
fn unit_prefixes() {
    let u = unit_parts("1mA").unwrap();
    assert_eq!((u.number.as_str(), u.prefix), ("1", SiPrefix::Milli));
    let u = unit_parts(" 10 ps ").unwrap();
    assert_eq!((u.number.as_str(), u.prefix), ("10", SiPrefix::Pico));
    let u = unit_parts("1V").unwrap();
    assert_eq!((u.number.as_str(), u.prefix), ("1", SiPrefix::One));
    let u = unit_parts("1xy").unwrap();
    assert_eq!(u.prefix, SiPrefix::One);
    let u = unit_parts("kohm").unwrap();
    assert_eq!((u.number.as_str(), u.prefix), ("", SiPrefix::Kilo));
    assert_eq!(unit_parts("1ff").unwrap().prefix, SiPrefix::Femto);
    assert_eq!(unit_parts("1nW").unwrap().prefix, SiPrefix::Nano);
    assert_eq!(unit_parts("1uA").unwrap().prefix, SiPrefix::Micro);
    assert_eq!(unit_parts("1MHz").unwrap().prefix, SiPrefix::Mega);
    assert_eq!(unit_parts("1GHz").unwrap().prefix, SiPrefix::Giga);
    assert!(unit_parts("123").is_none());
}
