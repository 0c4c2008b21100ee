//! Tests of the prolog: prefix table, base resolution, and matching.

use metis::error::Error;
use metis::prolog::{is_valid_prefix, Prolog, PrologMatch};
use metis::text::{chars_to_string, str_to_chars};

fn resolve(prolog: &Prolog, reference: &str) -> String {
    chars_to_string(&prolog.resolve(&str_to_chars(reference)))
}

#[test]
fn base_resolution_is_cumulative() {
    let mut prolog = Prolog::new();
    prolog.set_base("http://a/b/").unwrap();
    prolog.set_base("c/").unwrap();
    assert_eq!("http://a/b/c/", prolog.base().unwrap());
    assert_eq!("http://a/b/c/d", resolve(&prolog, "d"));
}

#[test]
fn resolution_without_base_is_identity() {
    let prolog = Prolog::new();
    assert_eq!("d/e", resolve(&prolog, "d/e"));
}

#[test]
fn reference_resolution_algebra() {
    let mut prolog = Prolog::new();
    prolog.set_base("http://a/b/c/d;p?q").unwrap();
    assert_eq!("http://a/b/c/g", resolve(&prolog, "g"));
    assert_eq!("http://a/b/c/g/", resolve(&prolog, "g/"));
    assert_eq!("http://a/g", resolve(&prolog, "/g"));
    assert_eq!("http://g", resolve(&prolog, "//g"));
    assert_eq!("http://a/b/c/d;p?y", resolve(&prolog, "?y"));
    assert_eq!("http://a/b/c/g?y", resolve(&prolog, "g?y"));
    assert_eq!("http://a/b/c/d;p?q#s", resolve(&prolog, "#s"));
    assert_eq!("http://a/b/c/g#s", resolve(&prolog, "g#s"));
    assert_eq!("http://a/b/c/", resolve(&prolog, "./"));
    assert_eq!("http://a/b/", resolve(&prolog, ".."));
    assert_eq!("http://a/b/g", resolve(&prolog, "../g"));
    assert_eq!("http://a/", resolve(&prolog, "../.."));
    assert_eq!("http://a/g", resolve(&prolog, "../../g"));
    assert_eq!("g:h", resolve(&prolog, "g:h"));
}

#[test]
fn base_rejects_nonempty_fragment() {
    let mut prolog = Prolog::new();
    assert_eq!(Err(Error::InvalidBase), prolog.set_base("http://a/b#x"));
    // an empty fragment is allowed
    prolog.set_base("http://a/b#").unwrap();
}

#[test]
fn base_rejects_invalid_characters() {
    let mut prolog = Prolog::new();
    match prolog.set_base("http://a/ b") {
        Err(Error::InvalidIri(t)) => assert_eq!("http://a/ b", t),
        other => panic!("expected an invalid-IRI failure, got {:?}", other),
    }
}

#[test]
fn unset_base_removes_it() {
    let mut prolog = Prolog::new();
    prolog.set_base("http://a/").unwrap();
    prolog.unset_base();
    assert!(prolog.base().is_none());
    assert_eq!("d", resolve(&prolog, "d"));
}

#[test]
fn prefix_validity() {
    assert!(is_valid_prefix(""));
    assert!(is_valid_prefix("ex"));
    assert!(is_valid_prefix("a01.23.456.789x"));
    assert!(!is_valid_prefix("0"));
    assert!(!is_valid_prefix("_"));
    assert!(!is_valid_prefix("ab."));
    assert!(!is_valid_prefix("a b"));
}

#[test]
fn add_prefix_validates_and_overwrites() {
    let mut prolog = Prolog::new();
    match prolog.add_prefix("1bad", "http://ex/") {
        Err(Error::InvalidPrefix(p)) => assert_eq!("1bad", p),
        other => panic!("expected an invalid-prefix failure, got {:?}", other),
    }
    prolog.add_prefix("ex", "http://one/").unwrap();
    prolog.add_prefix("ex", "http://two/").unwrap();
    assert_eq!(Some("http://two/".to_string()), prolog.lookup_prefix("ex"));
    assert_eq!(None, prolog.lookup_prefix("nope"));
}

#[test]
fn namespaces_resolve_against_base() {
    let mut prolog = Prolog::new();
    prolog.set_base("http://a/b/").unwrap();
    prolog.add_prefix("ex", "ns/vocab#").unwrap();
    assert_eq!(
        Some("http://a/b/ns/vocab#".to_string()),
        prolog.lookup_prefix("ex")
    );
}

#[test]
fn matches_base_and_prefixes() {
    let mut prolog = Prolog::new();
    prolog.set_base("http://base/").unwrap();
    prolog.add_prefix("ex", "http://ex/").unwrap();

    match prolog.matches("http://base/rest") {
        PrologMatch::Base(rest) => assert_eq!("rest", rest),
        other => panic!("expected a base match, got {:?}", other),
    }
    match prolog.matches("http://ex/local") {
        PrologMatch::Prefix(p, rest) => {
            assert_eq!("ex", p);
            assert_eq!("local", rest);
        }
        other => panic!("expected a prefix match, got {:?}", other),
    }
    assert_eq!(PrologMatch::NoMatch, prolog.matches("http://other/x"));
}

#[test]
fn clear_prefixes_empties_the_table() {
    let mut prolog = Prolog::with_default_prefixes();
    assert!(prolog.lookup_prefix("rdf").is_some());
    prolog.clear_prefixes();
    assert_eq!(None, prolog.lookup_prefix("rdf"));
}
