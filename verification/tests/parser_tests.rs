//! Tests of the statement iterator: documents parsed triple by triple.

use metis::error::Error;
use metis::ns;
use metis::parse::turtle::Parser;
use metis::term::{LiteralKind, Term, Triple};

fn collect(parser: &mut Parser) -> Result<Vec<Triple>, Error> {
    let mut out = Vec::new();
    while let Some(item) = parser.next() {
        out.push(item?);
    }
    Ok(out)
}

fn iri(text: &str) -> Term {
    Term::Iri(text.to_string())
}

#[test]
fn parse_example() {
    let example = r#"   # initial comment
    @prefix rdf:  <http://www.w3.org/1999/02/22-rdf-syntax-ns#> .
    @prefix rdfs: <http://www.w3.org/2000/01/rdf-schema#>.
    @prefix sosa: <http://www.w3.org/ns/sosa/> .
    @prefix ssn: <http://www.w3.org/ns/ssn/> .
    @prefix xsd:  <http://www.w3.org/2001/XMLSchema#> .
    @prefix qudt-1-1: <http://qudt.org/1.1/schema/qudt#> .
    @prefix qudt-unit-1-1: <http://qudt.org/1.1/vocab/unit#> .
    @base <http://example.org/data/> .

    # rangefinder #30 is a laser range finder sensor that was used
    # to observe the height of tree #124 and #125.

    <rangefinder/30>        rdf:type           sosa:Sensor ;
      rdfs:label "rangefinder #30"@en ;
      rdfs:comment "rangefinder #30 is a laser range finder sensor."@en .

    # rangefinder #30 made observation #1087 of the height of tree #124.

    <observation/1087>  rdf:type               sosa:Observation ;
      rdfs:label "observation #1087"@en ;
      sosa:hasFeatureOfInterest  <tree/124> ;
      sosa:observedProperty  <tree/124#height> ;
      sosa:madeBySensor <rangefinder/30> ;
      sosa:hasResult [
        qudt-1-1:unit qudt-unit-1-1:Meter ;
        qudt-1-1:numericalValue "15.3"^^xsd:double ] .

    <tree/124>  rdf:type         sosa:FeatureOfInterest ;
      rdfs:label "tree #124"@en .

    <tree/124#height>  rdf:type    sosa:ObservableProperty , ssn:Property ;
      rdfs:label "the height of tree #124"@en .

    <observation/1088>  rdf:type               sosa:Observation ;
      rdfs:label "observation #1088"@en ;
      sosa:hasFeatureOfInterest  <tree/125> ;
      sosa:observedProperty  <tree/125/height> ;
      sosa:madeBySensor <rangefinder/30> ;
      sosa:hasResult [
        qudt-1-1:numericValue "23.0"^^xsd:double ;
        qudt-1-1:unit qudt-unit-1-1:Meter ] .

    <tree/125>  rdf:type    sosa:FeatureOfInterest ;
      rdfs:label "tree #125"@en .

    <tree/125#height>  rdf:type    sosa:ObservableProperty , ssn:Property ;
      rdfs:label "the height of tree #125"@en .
    "#;

    let mut parser = Parser::new(example);
    let g = collect(&mut parser).unwrap();
    assert_eq!(29, g.len());

    // relative IRIs are resolved against the declared base
    let sensor = iri("http://example.org/data/rangefinder/30");
    let sosa_sensor = iri("http://www.w3.org/ns/sosa/Sensor");
    let rdf_type = iri("http://www.w3.org/1999/02/22-rdf-syntax-ns#type");
    assert!(g.iter().any(|t| t.s == sensor && t.p == rdf_type && t.o == sosa_sensor));

    // the double literal carries its datatype
    let double_val = Term::Literal("15.3".to_string(), LiteralKind::Datatype(ns::xsd_double()));
    assert!(g.iter().any(|t| t.o == double_val));

    // once finished, the iterator stays finished
    assert!(parser.next().is_none());
    assert!(parser.next().is_none());
}

#[test]
fn empty_document_yields_empty_sequence() {
    let mut parser = Parser::new("   # only a comment\n   ");
    assert!(parser.next().is_none());
    assert!(parser.next().is_none());
}

#[test]
fn iterator_latches_after_failure() {
    // a parse failure is surfaced exactly once; afterwards only end-of-sequence
    let mut parser = Parser::new("<http://ex/s> <http://ex/p> <http://ex/o> .  ???");
    let first = parser.next().unwrap().unwrap();
    assert_eq!(iri("http://ex/s"), first.s);
    let failure = parser.next().unwrap();
    assert!(failure.is_err());
    assert!(parser.next().is_none());
    assert!(parser.next().is_none());
}

#[test]
fn unknown_prefix_fails_with_invalid_prefix() {
    let mut parser = Parser::new("unknown:term <http://ex/p> <http://ex/o> .");
    match parser.next().unwrap() {
        Err(Error::InvalidPrefix(p)) => assert_eq!("unknown", p),
        other => panic!("expected an unresolved-prefix failure, got {:?}", other),
    }
    assert!(parser.next().is_none());
}

#[test]
fn with_base_resolves_relative_iris() {
    let mut parser = Parser::with_base("<d> <p> <o> .", "http://a/b/").unwrap();
    let g = collect(&mut parser).unwrap();
    assert_eq!(1, g.len());
    assert_eq!(iri("http://a/b/d"), g[0].s);
}

#[test]
fn base_directives_are_cumulative() {
    let doc = "@base <http://a/b/> . @base <c/> . <d> <p> <o> .";
    let mut parser = Parser::new(doc);
    let g = collect(&mut parser).unwrap();
    assert_eq!(1, g.len());
    assert_eq!(iri("http://a/b/c/d"), g[0].s);
    assert_eq!(iri("http://a/b/c/p"), g[0].p);
    assert_eq!(iri("http://a/b/c/o"), g[0].o);
}

#[test]
fn sparql_style_directives() {
    let doc = "PREFIX ex: <http://ex/>\nBASE <http://base/>\nex:s ex:p <o> .";
    let mut parser = Parser::new(doc);
    let g = collect(&mut parser).unwrap();
    assert_eq!(1, g.len());
    assert_eq!(iri("http://ex/s"), g[0].s);
    assert_eq!(iri("http://base/o"), g[0].o);
}

#[test]
fn predicate_with_n_objects_yields_n_triples() {
    let doc = "@prefix : <http://ex/> . :s :p :o1 , :o2 , :o3 , :o4 .";
    let mut parser = Parser::new(doc);
    let g = collect(&mut parser).unwrap();
    assert_eq!(4, g.len());
    for t in &g {
        assert_eq!(iri("http://ex/s"), t.s);
        assert_eq!(iri("http://ex/p"), t.p);
    }
}

#[test]
fn boolean_and_numeric_literals() {
    let doc = "@prefix : <http://ex/> . :s :p true , 42 , -7.5 , 1.2e3 .";
    let mut parser = Parser::new(doc);
    let g = collect(&mut parser).unwrap();
    assert_eq!(4, g.len());
    assert_eq!(
        Term::Literal("true".to_string(), LiteralKind::Datatype(ns::xsd_boolean())),
        g[0].o
    );
    assert_eq!(
        Term::Literal("42".to_string(), LiteralKind::Datatype(ns::xsd_integer())),
        g[1].o
    );
    assert_eq!(
        Term::Literal("-7.5".to_string(), LiteralKind::Datatype(ns::xsd_decimal())),
        g[2].o
    );
    assert_eq!(
        Term::Literal("1.2e3".to_string(), LiteralKind::Datatype(ns::xsd_double())),
        g[3].o
    );
}

#[test]
fn invalid_base_candidate_is_rejected() {
    let doc = "@base <http://a/b#frag> . <d> <p> <o> .";
    let mut parser = Parser::new(doc);
    match parser.next().unwrap() {
        Err(Error::InvalidBase) => {}
        other => panic!("expected an invalid-base failure, got {:?}", other),
    }
    assert!(parser.next().is_none());
}

#[test]
fn no_rule_matched_reports_no_match() {
    let mut parser = Parser::new("???");
    match parser.next().unwrap() {
        Err(Error::NoMatch) => {}
        other => panic!("expected a no-match failure, got {:?}", other),
    }
    assert!(parser.next().is_none());
}

#[test]
fn committed_verb_without_object_fails_hard() {
    let mut parser = Parser::new("@prefix : <http://ex/> . :s :p .");
    match parser.next().unwrap() {
        Err(Error::Parser(ctx)) => assert!(ctx.len() <= 48),
        other => panic!("expected a positioned parse failure, got {:?}", other),
    }
    assert!(parser.next().is_none());
}

#[test]
fn committed_subject_without_predicate_fails_hard() {
    // once a subject is parsed, a missing predicate-object list is a
    // positioned hard failure, not a no-match
    let mut parser = Parser::new("<http://ex/s> ???");
    match parser.next().unwrap() {
        Err(Error::Parser(ctx)) => assert!(ctx.starts_with("???")),
        other => panic!("expected a positioned parse failure, got {:?}", other),
    }
    assert!(parser.next().is_none());
}
