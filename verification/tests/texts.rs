use odoo_ls_core::names::NameMap;
use odoo_ls_core::text::{is_float, is_i32, join_with, same_text, split_on, without_leading};

#[test]
fn split_and_join() {
    assert_eq!(split_on("a.b.c", '.'), vec!["a", "b", "c"]);
    assert_eq!(split_on("", '.'), vec![""]);
    assert_eq!(split_on(".é.", '.'), vec!["", "é", ""]);
    let parts = split_on("x,,y", ',');
    assert_eq!(join_with(&parts, ',', ","), "x,,y");
    assert_eq!(join_with(&vec![], ',', ","), "");
}

#[test]
fn comparison_of_texts() {
    assert!(same_text("é", "é"));
    assert!(!same_text("a", "ab"));
    assert!(!same_text("ab", "ac"));
}

#[test]
fn leading_characters_are_dropped() {
    assert_eq!(without_leading("--a-", '-'), "a-");
    assert_eq!(without_leading("a", '-'), "a");
    assert_eq!(without_leading("--", '-'), "");
}

#[test]
fn integers_are_those_of_the_standard_parser() {
    for text in [
        "", "+", "-", "0", "-0", "+7", "12", "007", "2147483647", "2147483648", "-2147483648",
        "-2147483649", "99999999999999999999", "1.0", " 1", "1 ", "a", "１", "--1", "+-1",
    ] {
        assert_eq!(is_i32(text), text.parse::<i32>().is_ok(), "{}", text);
    }
}

#[test]
fn floats_are_those_of_the_standard_parser() {
    for text in [
        "", "+", "-", ".", "1", "-1", "+1", "1.", ".5", "1.5", "1..5", "1e3", "1E-3", "1e+3", "1e",
        "e1", ".e1", "1.e1", "inf", "-INF", "infinity", "Infinity", "+infinity", "nan", "NaN",
        "-nan", "infinit", "1 ", " 1", "0x1", "1_0", "1e1.0", "--1", "１", "1f", "1e400",
    ] {
        assert_eq!(is_float(text), text.parse::<f64>().is_ok(), "{}", text);
    }
}

#[test]
fn names_keep_their_first_value() {
    let mut map: NameMap<u32> = NameMap::new();
    assert!(map.get("a").is_none());
    *map.entry("a", 1) = 2;
    assert_eq!(map.get("a"), Some(&2));
    assert_eq!(*map.entry("a", 9), 2);
    map.entry("b", 5);
    assert_eq!(map.find("b"), Some(1));
    assert_eq!(map.get("a"), Some(&2));
}
