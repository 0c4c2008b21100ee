//! A grammar-driven parser and a streaming serializer for the Turtle RDF
//! syntax.
//!
//! A document is parsed statement by statement into subject-predicate-object
//! triples; an ordered triple sequence is serialized back into grouped,
//! indented text.  The parse context (prefix table, base IRI, blank-node
//! counter, pending-triple queue), the grammar productions with their
//! collection and blank-node-property-list desugaring, the relative-IRI
//! resolution algebra, and the serializer's triple-grouping state machine are
//! all verified.

pub mod error;
pub mod iri;
pub mod ns;
pub mod parse;
pub mod prolog;
pub mod scan;
pub mod serialize;
pub mod term;
pub mod text;
