//! Data carried by a rendered Markdown document. Rendering itself is an
//! external collaborator: the compiled HTML, the headings and the outgoing
//! links are handed to this library as plain values.

use vstd::prelude::*;

verus! {

/// One heading found in a document, with the anchor the renderer gave it.
#[derive(Debug, Clone, PartialEq)]
pub struct Heading {
    pub title: String,
    pub anchor: String,
    pub level: u16,
}

/// Target of an outgoing link: either a path local to this site or a remote
/// URL.
#[derive(Debug, Clone, PartialEq)]
pub enum UrlType {
    Local(String),
    Remote(String),
}

/// One outgoing link found in a document.
#[derive(Debug, Clone, PartialEq)]
pub struct MdLink {
    pub title: String,
    pub url: UrlType,
}

/// The result of rendering one Markdown document.
#[derive(Debug, Clone, PartialEq)]
pub struct Markdown {
    pub as_html: String,
    pub headings: Vec<Heading>,
    pub links: Vec<MdLink>,
}

impl Markdown {
    /// A rendering result with no content at all.
    pub fn empty() -> (r: Markdown)
        ensures
            r.as_html@ == Seq::<char>::empty(),
            r.headings@ == Seq::<Heading>::empty(),
            r.links@ == Seq::<MdLink>::empty(),
    {
        Markdown { as_html: String::new(), headings: Vec::new(), links: Vec::new() }
    }
}

} // verus!
