//! Tests of the grammar productions on short input fragments.

use metis::ns;
use metis::parse::turtle::{blank_node, iri, object_list, predicate_object_list, rdf_literal, string, triples, unwrap_str};
use metis::parse::{Context, PoList, SpoList};
use metis::term::{LiteralKind, Term};
use metis::text::{chars_to_string, str_to_chars};

fn ctx() -> Context {
    Context::with_default_prefixes()
}

fn rdf(local: &str) -> Term {
    Term::Iri(format!("http://www.w3.org/1999/02/22-rdf-syntax-ns#{}", local))
}

fn xsd_int_lit(lex: &str) -> Term {
    Term::Literal(lex.to_string(), LiteralKind::Datatype(ns::xsd_integer()))
}

#[test]
fn check_spo_triples() {
    let check1 = xsd_int_lit("45");
    let check2 = Term::Literal("false".to_string(), LiteralKind::Datatype(ns::xsd_boolean()));
    let objects1 = vec![check1, rdf("type")];
    let objects2 = vec![check2];
    let po1 = PoList::new(rdf("value"), objects1);
    let po2 = PoList::new(rdf("type"), objects2);
    let pos = vec![po1, po2];
    let check3 = Term::BNode("anon0".to_string());
    let res = SpoList::new(check3, pos);

    let mut ctx = ctx();
    let check = str_to_chars("[] rdf:value \"45\"^^xsd:integer, rdf:type  ;  a  false  rest");
    let (rest, list) = triples(&check, 0, &mut ctx).unwrap();
    assert_eq!(3, list.triples().len());
    assert_eq!("  rest", chars_to_string(&check[rest..]));
    assert_eq!(res, list);
}

#[test]
fn check_predicate_object_list() {
    let check1 = xsd_int_lit("45");
    let check2 = Term::Literal("false".to_string(), LiteralKind::Datatype(ns::xsd_boolean()));
    let objects1 = vec![check1, rdf("type")];
    let objects2 = vec![check2];
    let po1 = PoList::new(rdf("value"), objects1);
    let po2 = PoList::new(rdf("type"), objects2);
    let res = vec![po1, po2];

    let mut ctx = ctx();
    let check = str_to_chars("rdf:value \"45\"^^xsd:integer, rdf:type  ;  a  false  rest");
    let (rest, list) = predicate_object_list(&check, 0, &mut ctx).unwrap();
    assert_eq!(2, list.len());
    assert_eq!(3, list.iter().map(|pol| pol.len()).sum::<usize>());
    assert_eq!("  rest", chars_to_string(&check[rest..]));
    assert_eq!(res, list);
}

#[test]
fn check_object_list() {
    let mut ctx = ctx();
    let check = str_to_chars("\"45\"^^xsd:integer, rdf:type  ,  false  rest");
    let (rest, list) = object_list(&check, 0, &mut ctx).unwrap();
    assert_eq!(3, list.len());
    assert_eq!("  rest", chars_to_string(&check[rest..]));
    let check1 = xsd_int_lit("45");
    let check3 = Term::Literal("false".to_string(), LiteralKind::Datatype(ns::xsd_boolean()));
    assert_eq!(check1, list[0]);
    assert_eq!(rdf("type"), list[1]);
    assert_eq!(check3, list[2]);
}

#[test]
fn check_iri() {
    let ctx = ctx();
    let check = str_to_chars("<http://www.w3.org/1999/02/22-rdf-syntax-ns#>  rest");
    let (rest, parsed) = iri(&check, 0, &ctx).unwrap();
    assert_eq!("  rest", chars_to_string(&check[rest..]));
    assert_eq!(
        Term::Iri("http://www.w3.org/1999/02/22-rdf-syntax-ns#".to_string()),
        parsed
    );
}

#[test]
fn check_rdf_literal() {
    let ctx = ctx();
    let check = str_to_chars("\"45\"^^xsd:integer  rest");
    let (rest, term) = rdf_literal(&check, 0, &ctx).unwrap();
    assert_eq!("  rest", chars_to_string(&check[rest..]));
    match term {
        Term::Literal(txt, LiteralKind::Datatype(dt)) => {
            assert_eq!("45", txt);
            assert_eq!(ns::xsd_integer(), dt);
        }
        _ => panic!("Wrong parsed"),
    };

    let check = str_to_chars("\"lorem ipsum\"   rest");
    let (rest, term) = rdf_literal(&check, 0, &ctx).unwrap();
    assert_eq!("   rest", chars_to_string(&check[rest..]));
    match term {
        Term::Literal(txt, LiteralKind::Datatype(dt)) => {
            assert_eq!("lorem ipsum", txt);
            assert_eq!(ns::xsd_string(), dt);
        }
        _ => panic!("Wrong parsed"),
    };

    let check = str_to_chars("\"hello\"@en  rest");
    let (rest, term) = rdf_literal(&check, 0, &ctx).unwrap();
    assert_eq!("  rest", chars_to_string(&check[rest..]));
    match term {
        Term::Literal(txt, LiteralKind::Lang(lang)) => {
            assert_eq!("hello", txt);
            assert_eq!("en", lang);
        }
        _ => panic!("Wrong parsed"),
    };
}

#[test]
fn check_string_forms() {
    for (input, rest_expect, value) in [
        ("\"quote\"  rest", "  rest", "quote"),
        ("'quote'  rest", "  rest", "quote"),
        ("\"\"\"quote\"\"\"  rest", "  rest", "quote"),
        ("'''quote'''  rest", "  rest", "quote"),
    ] {
        let chars = str_to_chars(input);
        let (rest, lex) = string(&chars, 0).unwrap();
        assert_eq!(rest_expect, chars_to_string(&chars[rest..]));
        assert_eq!(value, lex);
    }
}

#[test]
fn check_blank_node() {
    let mut ctx = ctx();
    let check = str_to_chars("_:example  rest");
    let (rest, res) = blank_node(&check, 0, &mut ctx).unwrap();
    assert_eq!("  rest", chars_to_string(&check[rest..]));
    assert_eq!(Term::BNode("example".to_string()), res);
}

#[test]
fn check_unwrap_str() {
    let chars = str_to_chars("12345a54321");
    assert_eq!("12345a54321", chars_to_string(&unwrap_str(&chars, 0, 11, 0)));
    assert_eq!("2345a5432", chars_to_string(&unwrap_str(&chars, 0, 11, 1)));
    assert_eq!("345a543", chars_to_string(&unwrap_str(&chars, 0, 11, 2)));
}
