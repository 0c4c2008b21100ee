//! RDF terms and triples: a closed variant type with structural equality.

use vstd::prelude::*;

verus! {

/// Mathematical value of a literal's qualifier: either a datatype IRI or a
/// language tag.  Exactly one of the two is present on every literal.
pub enum LiteralKindV {
    /// The literal's datatype IRI.
    Datatype(Seq<char>),
    /// The literal's language tag (without the leading `@`).
    Lang(Seq<char>),
}

/// Mathematical value of a term.
pub enum TermV {
    /// An absolute or resolved IRI.
    Iri(Seq<char>),
    /// A literal: lexical form plus datatype or language tag.
    Literal(Seq<char>, LiteralKindV),
    /// A blank node, identified by its label.
    BNode(Seq<char>),
    /// A named (universally quantified) variable.
    Variable(Seq<char>),
}

/// Qualifier of a literal: a datatype IRI or a language tag.
#[derive(Debug, Clone, PartialEq, Eq, Hash)]
pub enum LiteralKind {
    /// The literal's datatype IRI.
    Datatype(String),
    /// The literal's language tag (without the leading `@`).
    Lang(String),
}

impl View for LiteralKind {
    type V = LiteralKindV;

    open spec fn view(&self) -> LiteralKindV {
        match self {
            LiteralKind::Datatype(dt) => LiteralKindV::Datatype(dt@),
            LiteralKind::Lang(tag) => LiteralKindV::Lang(tag@),
        }
    }
}

/// An RDF term: a closed variant type with structural equality.
///
/// Terms are immutable once constructed.  A literal carries exactly one of a
/// datatype IRI or a language tag; plain string literals carry the string
/// datatype explicitly.
#[derive(Debug, Clone, PartialEq, Eq, Hash)]
pub enum Term {
    /// An absolute or resolved IRI.
    Iri(String),
    /// A literal with its lexical form kept verbatim.
    Literal(String, LiteralKind),
    /// A blank node, identified by its label (without the leading `_:`).
    BNode(String),
    /// A named variable (without the leading `?`).
    Variable(String),
}

impl View for Term {
    type V = TermV;

    open spec fn view(&self) -> TermV {
        match self {
            Term::Iri(iri) => TermV::Iri(iri@),
            Term::Literal(lex, kind) => TermV::Literal(lex@, kind@),
            Term::BNode(label) => TermV::BNode(label@),
            Term::Variable(name) => TermV::Variable(name@),
        }
    }
}

impl Term {
    /// A structurally equal copy.
    pub fn duplicate(&self) -> (r: Term)
        ensures
            r@ == self@,
    {
        match self {
            Term::Iri(iri) => Term::Iri(iri.clone()),
            Term::Literal(lex, kind) => Term::Literal(lex.clone(), kind.duplicate()),
            Term::BNode(label) => Term::BNode(label.clone()),
            Term::Variable(name) => Term::Variable(name.clone()),
        }
    }

    /// Whether two terms are structurally equal.
    pub fn same_as(&self, other: &Term) -> (r: bool)
        ensures
            r == (self@ == other@),
    {
        match (self, other) {
            (Term::Iri(a), Term::Iri(b)) => *a == *b,
            (Term::Literal(a, ka), Term::Literal(b, kb)) => {
                let kinds = match (ka, kb) {
                    (LiteralKind::Datatype(da), LiteralKind::Datatype(db)) => *da == *db,
                    (LiteralKind::Lang(la), LiteralKind::Lang(lb)) => *la == *lb,
                    _ => false,
                };
                kinds && *a == *b
            },
            (Term::BNode(a), Term::BNode(b)) => *a == *b,
            (Term::Variable(a), Term::Variable(b)) => *a == *b,
            _ => false,
        }
    }
}

impl LiteralKind {
    /// A structurally equal copy.
    pub fn duplicate(&self) -> (r: LiteralKind)
        ensures
            r@ == self@,
    {
        match self {
            LiteralKind::Datatype(dt) => LiteralKind::Datatype(dt.clone()),
            LiteralKind::Lang(tag) => LiteralKind::Lang(tag.clone()),
        }
    }
}

/// Mathematical value of a triple.
pub struct TripleV {
    /// The subject.
    pub s: TermV,
    /// The predicate.
    pub p: TermV,
    /// The object.
    pub o: TermV,
}

/// An ordered subject-predicate-object statement, the unit of RDF data.
///
/// A triple has no identity beyond its components; duplicates are legal and
/// are not deduplicated by this layer.
#[derive(Debug, Clone, PartialEq, Eq, Hash)]
pub struct Triple {
    /// The subject.
    pub s: Term,
    /// The predicate.
    pub p: Term,
    /// The object.
    pub o: Term,
}

impl View for Triple {
    type V = TripleV;

    open spec fn view(&self) -> TripleV {
        TripleV { s: self.s@, p: self.p@, o: self.o@ }
    }
}

impl Triple {
    /// Builds a triple from its three components.
    pub fn new(s: Term, p: Term, o: Term) -> (t: Triple)
        ensures
            t@ == (TripleV { s: s@, p: p@, o: o@ }),
    {
        Triple { s, p, o }
    }

    /// A structurally equal copy.
    pub fn duplicate(&self) -> (r: Triple)
        ensures
            r@ == self@,
    {
        Triple { s: self.s.duplicate(), p: self.p.duplicate(), o: self.o.duplicate() }
    }

    /// Whether two triples are structurally equal.
    pub fn same_as(&self, other: &Triple) -> (r: bool)
        ensures
            r == (self@ == other@),
    {
        let r = self.s.same_as(&other.s) && self.p.same_as(&other.p) && self.o.same_as(&other.o);
        proof {
            if r {
                assert(self@ == other@);
            }
        }
        r
    }
}

} // verus!
