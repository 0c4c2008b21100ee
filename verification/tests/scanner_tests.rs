//! Tests of the terminal token matchers.

use metis::scan::{
    blank_node_label, multispace0, multispace1, pname_ln, pname_ns, pn_local, scan_anon,
    scan_decimal, scan_double, scan_integer, scan_iriref, scan_langtag, scan_string,
};
use metis::text::str_to_chars;

fn matches_iriref(input: &str) -> bool {
    scan_iriref(&str_to_chars(input), 0).is_some()
}

#[test]
fn check_iriref() {
    assert!(matches_iriref("<>"));
    assert!(matches_iriref("<http://www.w3.org/1999/02/>"));
    assert!(matches_iriref("<http://www.w3.org/1999/02/22-rdf-syntax-ns#>"));
    assert!(matches_iriref("<../ns/vocab#>"));
    assert!(matches_iriref("<\\u0ace>"));
    assert!(matches_iriref("<\\UFeDc0123>"));
    assert!(!matches_iriref("<\0>"));
    assert!(!matches_iriref("<  >"));
    assert!(!matches_iriref("<\">"));
    assert!(!matches_iriref("<{>"));
    assert!(!matches_iriref("<}>"));
    assert!(!matches_iriref("<|>"));
    assert!(!matches_iriref("<^>"));
    assert!(!matches_iriref("<`>"));
    assert!(!matches_iriref("<\\>"));
    assert!(!matches_iriref("<\\u000>"));
    assert!(!matches_iriref("<\\uzzzz>"));
    assert!(!matches_iriref("<\\U000000>"));
    assert!(!matches_iriref("<\\Uzzzzzzzz>"));
}

#[test]
fn check_langtag() {
    let scan = |input: &str| scan_langtag(&str_to_chars(input), 0);
    assert_eq!(Some(3), scan("@en"));
    assert_eq!(Some(6), scan("@en-uk"));
    assert_eq!(Some(10), scan("@en-uk-man"));
    assert_eq!(None, scan("en-uk-man"));
    assert_eq!(None, scan("@1en-uk-man"));
    assert_eq!(Some(12), scan("@en-2uk2-man")); // numbers allowed past the first part
    assert_eq!(Some(3), scan("@en-")); // no extension consumed
    assert_eq!(None, scan(" "));
}

#[test]
fn check_numeric_classification() {
    let int = |input: &str| scan_integer(&str_to_chars(input), 0).is_some();
    let dec = |input: &str| scan_decimal(&str_to_chars(input), 0).is_some();
    let dbl = |input: &str| scan_double(&str_to_chars(input), 0).is_some();

    assert!(int("123") && int("-123") && int("123.45"));
    assert!(!int(".45") && !int("-.45") && !int(" "));

    assert!(!dec("123") && !dec("-123"));
    assert!(dec("123.45") && dec("-123.45") && dec(".45") && dec("-.45"));
    assert!(dec("1.2345e2") && !dec("-12345E-2") && dec("-.12345E-2"));

    assert!(!dbl("123") && !dbl("123.45") && !dbl(".45"));
    assert!(dbl("1.2345e2") && dbl("-12345E-2") && dbl("-.12345E-2"));
}

#[test]
fn check_whitespace_and_comments() {
    let ws0 = |input: &str| {
        let chars = str_to_chars(input);
        multispace0(&chars, 0)
    };
    assert_eq!(4, ws0(" \t\n\rx"));
    assert_eq!(16, ws0("# some comment \nx"));
    // a comment without a closing line feed is not consumed
    assert_eq!(0, ws0("# open comment"));
    assert_eq!(1, ws0("\n# open comment"));
    assert_eq!(0, ws0("text"));

    let chars = str_to_chars("text");
    assert_eq!(None, multispace1(&chars, 0));
    let chars = str_to_chars(" x");
    assert_eq!(Some(1), multispace1(&chars, 0));
}

#[test]
fn check_anon() {
    let anon = |input: &str| scan_anon(&str_to_chars(input), 0).is_some();
    assert!(anon("[]"));
    assert!(anon("[ \t\n]"));
    assert!(!anon("[ \thello\n]"));
    assert!(!anon(" \t\n"));
}

#[test]
fn check_blank_node_label_forms() {
    let scan = |input: &str| blank_node_label(&str_to_chars(input), 0);
    assert_eq!(Some(9), scan("_:example  rest"));
    assert_eq!(Some(3), scan("_:0  rest"));
    assert_eq!(Some(3), scan("_:_  rest"));
    // a trailing dot stays outside the label
    assert_eq!(Some(3), scan("_:a."));
    assert_eq!(None, scan("example"));
}

#[test]
fn check_prefixed_name_tokens() {
    let chars = str_to_chars("ex:a.b  rest");
    assert_eq!(Some(3), pname_ns(&chars, 0));
    assert_eq!(Some(6), pn_local(&chars, 3));
    assert_eq!(Some((3, 6)), pname_ln(&chars, 0));

    // the default prefix is the bare colon
    let chars = str_to_chars(":x");
    assert_eq!(Some((1, 2)), pname_ln(&chars, 0));

    // a prefix must not end in a dot
    let chars = str_to_chars("ab.:x");
    assert_eq!(None, pname_ns(&chars, 0));
}

#[test]
fn check_string_tokens() {
    let scan = |input: &str| scan_string(&str_to_chars(input), 0);
    assert_eq!(Some((7, 1, 6)), scan("\"quote\""));
    assert_eq!(Some((14, 3, 11)), scan("\"\"\"long\nstr\"\"\""));
    assert_eq!(Some((4, 1, 3)), scan("\"\\t\" tail"));
    assert_eq!(None, scan("\"unterminated"));
    assert_eq!(None, scan("\"line\nbreak\""));
    assert_eq!(Some((2, 1, 1)), scan("\"\"")); // the empty string
}
