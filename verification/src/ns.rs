//! The fixed vocabulary: RDF, RDFS and XSD namespace IRIs and the handful of
//! RDF terms the grammar engine itself emits.

use vstd::prelude::*;

use crate::term::{Term, TermV};

verus! {

/// The RDF namespace.
pub open spec fn rdf_ns() -> Seq<char> {
    "http://www.w3.org/1999/02/22-rdf-syntax-ns#"@
}

/// The RDFS namespace.
pub open spec fn rdfs_ns() -> Seq<char> {
    "http://www.w3.org/2000/01/rdf-schema#"@
}

/// The XSD namespace.
pub open spec fn xsd_ns() -> Seq<char> {
    "http://www.w3.org/2001/XMLSchema#"@
}

/// The IRI of `rdf:type`.
pub open spec fn rdf_type_iri() -> Seq<char> {
    "http://www.w3.org/1999/02/22-rdf-syntax-ns#type"@
}

/// The IRI of `rdf:first`.
pub open spec fn rdf_first_iri() -> Seq<char> {
    "http://www.w3.org/1999/02/22-rdf-syntax-ns#first"@
}

/// The IRI of `rdf:rest`.
pub open spec fn rdf_rest_iri() -> Seq<char> {
    "http://www.w3.org/1999/02/22-rdf-syntax-ns#rest"@
}

/// The IRI of `rdf:nil`, the terminator of every desugared collection.
pub open spec fn rdf_nil_iri() -> Seq<char> {
    "http://www.w3.org/1999/02/22-rdf-syntax-ns#nil"@
}

/// The IRI of `xsd:string`, the default datatype of plain literals.
pub open spec fn xsd_string_iri() -> Seq<char> {
    "http://www.w3.org/2001/XMLSchema#string"@
}

/// The IRI of `xsd:integer`.
pub open spec fn xsd_integer_iri() -> Seq<char> {
    "http://www.w3.org/2001/XMLSchema#integer"@
}

/// The IRI of `xsd:decimal`.
pub open spec fn xsd_decimal_iri() -> Seq<char> {
    "http://www.w3.org/2001/XMLSchema#decimal"@
}

/// The IRI of `xsd:double`.
pub open spec fn xsd_double_iri() -> Seq<char> {
    "http://www.w3.org/2001/XMLSchema#double"@
}

/// The IRI of `xsd:boolean`.
pub open spec fn xsd_boolean_iri() -> Seq<char> {
    "http://www.w3.org/2001/XMLSchema#boolean"@
}

/// The term `rdf:type`, the expansion of the keyword `a`.
pub fn rdf_type() -> (t: Term)
    ensures
        t@ == TermV::Iri(rdf_type_iri()),
{
    Term::Iri("http://www.w3.org/1999/02/22-rdf-syntax-ns#type".to_owned())
}

/// The term `rdf:first`.
pub fn rdf_first() -> (t: Term)
    ensures
        t@ == TermV::Iri(rdf_first_iri()),
{
    Term::Iri("http://www.w3.org/1999/02/22-rdf-syntax-ns#first".to_owned())
}

/// The term `rdf:rest`.
pub fn rdf_rest() -> (t: Term)
    ensures
        t@ == TermV::Iri(rdf_rest_iri()),
{
    Term::Iri("http://www.w3.org/1999/02/22-rdf-syntax-ns#rest".to_owned())
}

/// The term `rdf:nil`.
pub fn rdf_nil() -> (t: Term)
    ensures
        t@ == TermV::Iri(rdf_nil_iri()),
{
    Term::Iri("http://www.w3.org/1999/02/22-rdf-syntax-ns#nil".to_owned())
}

/// The namespace IRI bound to `rdf:` by the default prefixes.
pub fn rdf_namespace() -> (s: String)
    ensures
        s@ == rdf_ns(),
{
    "http://www.w3.org/1999/02/22-rdf-syntax-ns#".to_owned()
}

/// The namespace IRI bound to `rdfs:` by the default prefixes.
pub fn rdfs_namespace() -> (s: String)
    ensures
        s@ == rdfs_ns(),
{
    "http://www.w3.org/2000/01/rdf-schema#".to_owned()
}

/// The namespace IRI bound to `xsd:` by the default prefixes.
pub fn xsd_namespace() -> (s: String)
    ensures
        s@ == xsd_ns(),
{
    "http://www.w3.org/2001/XMLSchema#".to_owned()
}

/// The IRI text of `xsd:string` as an owned string.
pub fn xsd_string() -> (s: String)
    ensures
        s@ == xsd_string_iri(),
{
    "http://www.w3.org/2001/XMLSchema#string".to_owned()
}

/// The IRI text of `xsd:integer` as an owned string.
pub fn xsd_integer() -> (s: String)
    ensures
        s@ == xsd_integer_iri(),
{
    "http://www.w3.org/2001/XMLSchema#integer".to_owned()
}

/// The IRI text of `xsd:decimal` as an owned string.
pub fn xsd_decimal() -> (s: String)
    ensures
        s@ == xsd_decimal_iri(),
{
    "http://www.w3.org/2001/XMLSchema#decimal".to_owned()
}

/// The IRI text of `xsd:double` as an owned string.
pub fn xsd_double() -> (s: String)
    ensures
        s@ == xsd_double_iri(),
{
    "http://www.w3.org/2001/XMLSchema#double".to_owned()
}

/// The IRI text of `xsd:boolean` as an owned string.
pub fn xsd_boolean() -> (s: String)
    ensures
        s@ == xsd_boolean_iri(),
{
    "http://www.w3.org/2001/XMLSchema#boolean".to_owned()
}

} // verus!
