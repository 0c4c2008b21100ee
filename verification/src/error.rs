//! Error handling.

use vstd::prelude::*;
use vstd::string::StringExecFns;

verus! {

/// Errors raised by this crate.
#[derive(Debug, Clone, PartialEq, Eq)]
pub enum Error {
    /// The given text is not a valid IRI.
    InvalidIri(String),
    /// The given term cannot serve as a base IRI.
    InvalidBase,
    /// The given text is not a valid prefix, or a prefix was unresolved at
    /// its use site.
    InvalidPrefix(String),
    /// The configured inter-term spacing is empty.
    InvalidSpacing,
    /// The requested indentation is too wide.
    ToMuchSpaces(u8),
    /// No grammar alternative applied at the failing position.
    NoMatch,
    /// A grammar production matched in shape but failed content validation;
    /// carries the offending input truncated to a bounded context window.
    Parser(String),
}

/// The message text of an error.
pub open spec fn spec_message(e: Error) -> Seq<char> {
    match e {
        Error::InvalidIri(t) => "The text "@ + t@ + " is not a valid IRI"@,
        Error::InvalidBase => "The given term is not an IRI"@,
        Error::InvalidPrefix(t) => "The text "@ + t@ + " is not a valid Prefix"@,
        Error::InvalidSpacing => "Spacing must be at least one space"@,
        Error::ToMuchSpaces(_) => "Requested too much spaces to indent"@,
        Error::NoMatch => "No parser rule matched"@,
        Error::Parser(t) => "Parser: "@ + t@,
    }
}

impl Error {
    /// A human-readable description of the error.
    pub fn message(&self) -> (r: String)
        ensures
            r@ == spec_message(*self),
    {
        match self {
            Error::InvalidIri(t) => {
                let mut m = String::from_str("The text ");
                m.append(t.as_str());
                m.append(" is not a valid IRI");
                m
            },
            Error::InvalidBase => String::from_str("The given term is not an IRI"),
            Error::InvalidPrefix(t) => {
                let mut m = String::from_str("The text ");
                m.append(t.as_str());
                m.append(" is not a valid Prefix");
                m
            },
            Error::InvalidSpacing => String::from_str("Spacing must be at least one space"),
            Error::ToMuchSpaces(_) => String::from_str("Requested too much spaces to indent"),
            Error::NoMatch => String::from_str("No parser rule matched"),
            Error::Parser(t) => {
                let mut m = String::from_str("Parser: ");
                m.append(t.as_str());
                m
            },
        }
    }
}

} // verus!
