//! Tests of text helpers, escape expansion, and term equality.

use metis::iri::remove_dot_segments;
use metis::parse::turtle::escape;
use metis::term::{LiteralKind, Term, Triple};
use metis::text::{chars_to_string, str_to_chars};

#[test]
fn chars_round_trip_keeps_unicode() {
    let text = "rB\u{e4}\u{f4}\u{ed} \u{1F300} end";
    let chars = str_to_chars(text);
    assert_eq!(text, chars_to_string(&chars));
}

#[test]
fn escape_drops_backslashes() {
    let chars = str_to_chars("a\\.b\\%c");
    assert_eq!("a.b%c", chars_to_string(&escape(&chars, 0, chars.len())));
    let plain = str_to_chars("plain");
    assert_eq!("plain", chars_to_string(&escape(&plain, 0, plain.len())));
}

#[test]
fn dot_segments_are_removed() {
    for (input, expected) in [
        ("/a/b/c/./../../g", "/a/g"),
        ("mid/content=5/../6", "mid/6"),
        ("/a/../../b", "/b"),
        ("./x", "x"),
        ("..", ""),
    ] {
        let chars = str_to_chars(input);
        assert_eq!(expected, chars_to_string(&remove_dot_segments(&chars)));
    }
}

#[test]
fn term_equality_is_structural() {
    let a = Term::Iri("http://ex/a".to_string());
    let b = Term::Iri("http://ex/a".to_string());
    let c = Term::BNode("http://ex/a".to_string());
    assert!(a.same_as(&b));
    assert!(!a.same_as(&c));
    assert_eq!(a, b);
    assert_ne!(a, c);

    let l1 = Term::Literal("x".to_string(), LiteralKind::Lang("en".to_string()));
    let l2 = Term::Literal("x".to_string(), LiteralKind::Datatype("en".to_string()));
    assert!(!l1.same_as(&l2));

    let t1 = Triple { s: a.clone(), p: b.clone(), o: l1.clone() };
    let t2 = Triple { s: b.clone(), p: a.clone(), o: l1.clone() };
    assert!(t1.same_as(&t2));
    let t3 = Triple { s: a, p: b, o: l2 };
    assert!(!t1.same_as(&t3));
}
