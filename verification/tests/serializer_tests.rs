//! Tests of the streaming serializer: grouping, separators, the preamble,
//! and the round trip back through the parser.

use metis::error::Error;
use metis::parse::turtle::Parser;
use metis::serialize::{Config, Indentation, Serializer};
use metis::term::{Term, Triple};

fn collect(parser: &mut Parser) -> Result<Vec<Triple>, Error> {
    let mut out = Vec::new();
    while let Some(item) = parser.next() {
        out.push(item?);
    }
    Ok(out)
}

fn iri(text: &str) -> Term {
    Term::Iri(text.to_string())
}

fn tri(s: &str, p: &str, o: &str) -> Triple {
    Triple { s: iri(s), p: iri(p), o: iri(o) }
}

#[test]
fn round_trip_two_blocks() {
    let triples = vec![
        tri("http://ex/s1", "http://ex/p1", "http://ex/o1"),
        tri("http://ex/s1", "http://ex/p1", "http://ex/o2"),
        tri("http://ex/s1", "http://ex/p2", "http://ex/o3"),
        tri("http://ex/s2", "http://ex/p1", "http://ex/o1"),
    ];

    let mut config = Config::new();
    config.set_indentation(Indentation::spaces_2());
    let mut ser = Serializer::new(config);
    ser.serialize(&triples);
    let text = ser.finish();

    // two blocks: the repeated subject groups with `;` and `,`, the new
    // subject starts its own block
    let expected = "<http://ex/s1> <http://ex/p1> <http://ex/o1>, <http://ex/o2> ;\n\
                    \x20\x20<http://ex/p2> <http://ex/o3> .\n\n\
                    <http://ex/s2> <http://ex/p1> <http://ex/o1> .\n\n";
    assert_eq!(expected, text);

    // re-parsing yields the same four triples in the same relative order
    let mut parser = Parser::new(&text);
    let again = collect(&mut parser).unwrap();
    assert_eq!(triples, again);
}

#[test]
fn idempotent_round_trip() {
    let doc = r#"@prefix : <http://ex/> .
    @prefix xsd: <http://www.w3.org/2001/XMLSchema#> .
    :a :p "x"@en , "45"^^xsd:integer ;
       :q :b .
    :b :p "plain" .
    "#;
    let mut parser = Parser::new(doc);
    let first = collect(&mut parser).unwrap();

    let mut ser = Serializer::new(Config::new());
    ser.serialize(&first);
    let text = ser.finish();

    let mut parser = Parser::new(&text);
    let second = collect(&mut parser).unwrap();
    assert_eq!(first, second);

    // and a second round trip reproduces the same text exactly
    let mut ser = Serializer::new(Config::new());
    ser.serialize(&second);
    assert_eq!(text, ser.finish());
}

#[test]
fn preamble_lists_prefixes_and_base() {
    let mut config = Config::new();
    config.prolog.add_prefix("ex", "http://ex/").unwrap();
    config.prolog.set_base("http://base/").unwrap();
    let ser = Serializer::new(config);
    let text = ser.finish();
    assert_eq!("@prefix ex: <http://ex/> .\n@base <http://base/> .\n\n", text);
}

#[test]
fn empty_preamble_writes_nothing() {
    let ser = Serializer::new(Config::new());
    assert_eq!("", ser.finish());
}

#[test]
fn literals_keep_their_qualifiers() {
    let doc = "@prefix : <http://ex/> . :s :p \"hi\"@en , \"5\"^^<http://www.w3.org/2001/XMLSchema#integer> , \"plain\" .";
    let mut parser = Parser::new(doc);
    let first = collect(&mut parser).unwrap();

    let mut ser = Serializer::new(Config::new());
    ser.serialize(&first);
    let text = ser.finish();
    assert!(text.contains("\"hi\"@en"));
    assert!(text.contains("\"5\"^^<http://www.w3.org/2001/XMLSchema#integer>"));
    assert!(text.contains(", \"plain\""));

    let mut parser = Parser::new(&text);
    let second = collect(&mut parser).unwrap();
    assert_eq!(first, second);
}

#[test]
fn serialize_one_streams_per_triple() {
    let mut ser = Serializer::new(Config::new());
    let a = tri("http://ex/s", "http://ex/p", "http://ex/o1");
    let b = tri("http://ex/s", "http://ex/p", "http://ex/o2");
    ser.serialize_one(&a);
    ser.serialize_one(&b);
    let text = ser.finish();
    assert_eq!(
        "<http://ex/s> <http://ex/p> <http://ex/o1>, <http://ex/o2> .\n\n",
        text
    );
}

#[test]
fn indentation_configuration() {
    assert_eq!(Ok(Indentation::Spaces(7)), Indentation::spaces_custom(7));
    assert_eq!(
        Err(Error::ToMuchSpaces(64)),
        Indentation::spaces_custom(64)
    );
    assert!(Indentation::none().is_empty());
    assert!(Indentation::Spaces(0).is_empty());
    assert!(!Indentation::tab().is_empty());
    assert!(!Indentation::space().is_empty());

    let mut out = String::new();
    Indentation::spaces_4().serialize(&mut out);
    Indentation::tab().serialize(&mut out);
    Indentation::none().serialize(&mut out);
    assert_eq!("    \t", out);

    let mut config = Config::new();
    assert_eq!(Err(Error::InvalidSpacing), config.set_spacing(Indentation::none()));
    assert_eq!(Ok(()), config.set_spacing(Indentation::spaces_2()));
}

#[test]
fn error_messages() {
    assert_eq!(
        "The text 1x is not a valid Prefix",
        Error::InvalidPrefix("1x".to_string()).message()
    );
    assert_eq!("The given term is not an IRI", Error::InvalidBase.message());
    assert_eq!("No parser rule matched", Error::NoMatch.message());
}
