//! The library's error type. Failures of outside collaborators reach this
//! library as plain messages; broken internal links carry the full list of
//! offending links so that one pass reports every problem.

use crate::markdown::MdLink;
use vstd::prelude::*;

verus! {

/// What went wrong, by category.
#[derive(Debug, Clone, PartialEq)]
pub enum ErrorKind {
    /// A filesystem read or write failed.
    Io,
    /// A YAML document could not be parsed.
    Yaml,
    /// A template could not be rendered.
    Handlebars,
    /// Internal links that resolve to no artifact, each with the source
    /// document's path.
    BrokenLinks(Vec<(String, MdLink)>),
    Generic,
}

#[derive(Debug, Clone, PartialEq)]
pub struct Error {
    kind: ErrorKind,
    message: String,
}

impl Error {
    pub closed spec fn spec_kind(&self) -> ErrorKind {
        self.kind
    }

    pub closed spec fn spec_message(&self) -> Seq<char> {
        self.message@
    }

    pub fn new(msg: &str) -> (r: Error)
        ensures
            r.spec_kind() == ErrorKind::Generic,
            r.spec_message() == msg@,
    {
        Error { kind: ErrorKind::Generic, message: msg.to_owned() }
    }

    pub fn yaml(msg: &str) -> (r: Error)
        ensures
            r.spec_kind() == ErrorKind::Yaml,
            r.spec_message() == msg@,
    {
        Error { kind: ErrorKind::Yaml, message: msg.to_owned() }
    }

    pub fn io(msg: &str) -> (r: Error)
        ensures
            r.spec_kind() == ErrorKind::Io,
            r.spec_message() == msg@,
    {
        Error { kind: ErrorKind::Io, message: msg.to_owned() }
    }

    pub fn handlebars(msg: &str) -> (r: Error)
        ensures
            r.spec_kind() == ErrorKind::Handlebars,
            r.spec_message() == msg@,
    {
        Error { kind: ErrorKind::Handlebars, message: msg.to_owned() }
    }

    pub fn broken_links(links: Vec<(String, MdLink)>) -> (r: Error)
        ensures
            r.spec_kind() == ErrorKind::BrokenLinks(links),
            r.spec_message() == "Detected broken internal links"@,
    {
        Error { kind: ErrorKind::BrokenLinks(links), message: "Detected broken internal links".to_owned() }
    }

    pub fn kind(&self) -> (r: &ErrorKind)
        ensures
            *r == self.spec_kind(),
    {
        &self.kind
    }

    pub fn message(&self) -> (r: &String)
        ensures
            r@ == self.spec_message(),
    {
        &self.message
    }
}

} // verus!
