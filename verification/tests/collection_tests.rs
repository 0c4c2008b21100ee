//! Tests of collection desugaring: `( ... )` expands into an
//! `rdf:first`/`rdf:rest` chain terminated by `rdf:nil`.

use metis::error::Error;
use metis::ns;
use metis::parse::turtle::Parser;
use metis::term::{LiteralKind, Term, Triple};

fn collect(parser: &mut Parser) -> Result<Vec<Triple>, Error> {
    let mut out = Vec::new();
    while let Some(item) = parser.next() {
        out.push(item?);
    }
    Ok(out)
}

fn iri(text: &str) -> Term {
    Term::Iri(text.to_string())
}

fn bnode(label: &str) -> Term {
    Term::BNode(label.to_string())
}

fn int_lit(lex: &str) -> Term {
    Term::Literal(lex.to_string(), LiteralKind::Datatype(ns::xsd_integer()))
}

#[test]
fn collection_desugars_into_chain() {
    let doc = "@prefix : <http://ex/> . :s :p (1 2 3) .";
    let mut parser = Parser::new(doc);
    let g = collect(&mut parser).unwrap();
    assert_eq!(7, g.len());

    let first = ns::rdf_first();
    let rest = ns::rdf_rest();
    let nil = ns::rdf_nil();

    // side triples come in emission order, left to right, first cell first;
    // the statement's own triple follows
    assert_eq!(Triple { s: bnode("anon0"), p: first.clone(), o: int_lit("1") }, g[0]);
    assert_eq!(Triple { s: bnode("anon0"), p: rest.clone(), o: bnode("anon1") }, g[1]);
    assert_eq!(Triple { s: bnode("anon1"), p: first.clone(), o: int_lit("2") }, g[2]);
    assert_eq!(Triple { s: bnode("anon1"), p: rest.clone(), o: bnode("anon2") }, g[3]);
    assert_eq!(Triple { s: bnode("anon2"), p: first.clone(), o: int_lit("3") }, g[4]);
    assert_eq!(Triple { s: bnode("anon2"), p: rest.clone(), o: nil }, g[5]);
    assert_eq!(
        Triple { s: iri("http://ex/s"), p: iri("http://ex/p"), o: bnode("anon0") },
        g[6]
    );

    // anonymous labels are strictly increasing and unique within the document
    let mut labels: Vec<String> = g
        .iter()
        .flat_map(|t| [&t.s, &t.o])
        .filter_map(|t| match t {
            Term::BNode(l) => Some(l.clone()),
            _ => None,
        })
        .collect();
    labels.sort();
    labels.dedup();
    assert_eq!(vec!["anon0", "anon1", "anon2"], labels);
}

#[test]
fn empty_collection_is_nil() {
    let doc = "@prefix : <http://ex/> . :s :p () .";
    let mut parser = Parser::new(doc);
    let g = collect(&mut parser).unwrap();
    assert_eq!(1, g.len());
    assert_eq!(
        Triple { s: iri("http://ex/s"), p: iri("http://ex/p"), o: ns::rdf_nil() },
        g[0]
    );
}

#[test]
fn blank_node_property_list_as_object() {
    let doc = "@prefix : <http://ex/> . :s :p [ :q :r ] .";
    let mut parser = Parser::new(doc);
    let g = collect(&mut parser).unwrap();
    assert_eq!(2, g.len());
    // the inner triples are enqueued before the statement's own
    assert_eq!(
        Triple { s: bnode("anon0"), p: iri("http://ex/q"), o: iri("http://ex/r") },
        g[0]
    );
    assert_eq!(
        Triple { s: iri("http://ex/s"), p: iri("http://ex/p"), o: bnode("anon0") },
        g[1]
    );
}

#[test]
fn blank_node_property_list_as_subject() {
    let doc = "@prefix : <http://ex/> . [ :p :o ] .";
    let mut parser = Parser::new(doc);
    let g = collect(&mut parser).unwrap();
    assert_eq!(1, g.len());
    assert_eq!(
        Triple { s: bnode("anon0"), p: iri("http://ex/p"), o: iri("http://ex/o") },
        g[0]
    );
}

#[test]
fn nested_property_lists_mint_outer_subject_first() {
    // the subject of a property list is minted before its inner list is
    // parsed, so the outer node gets the smaller label
    let doc = "@prefix : <http://ex/> . :s :p [ :q [ :r :o ] ] .";
    let mut parser = Parser::new(doc);
    let g = collect(&mut parser).unwrap();
    assert_eq!(3, g.len());
    assert_eq!(
        Triple { s: bnode("anon1"), p: iri("http://ex/r"), o: iri("http://ex/o") },
        g[0]
    );
    assert_eq!(
        Triple { s: bnode("anon0"), p: iri("http://ex/q"), o: bnode("anon1") },
        g[1]
    );
    assert_eq!(
        Triple { s: iri("http://ex/s"), p: iri("http://ex/p"), o: bnode("anon0") },
        g[2]
    );
}
