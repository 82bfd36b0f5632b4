//! A documentation-site compiler core: the verified model of a Markdown
//! documentation tree, its derived URI space and navigation, the site
//! artifacts a build writes, and the path-resolution rules that the
//! development server and the broken-link checker share.
//!
//! The pieces, roughly in the order a build touches them: `ingest` turns
//! walked source files into the `document` tree and synthesizes missing
//! index pages; `frontmatter` reads each file's metadata; `paths` derives
//! output paths and site URIs; `navigation` builds the sorted navigation
//! tree and applies authored override rules; `generator` writes the
//! artifacts into a `site` backend; `resolve` answers requests against the
//! artifacts, and `checker` holds every local link to those same rules.
//! `serve`, `watcher` and `livereload` carry the development loop's
//! decisions; the threads, sockets and files around them live outside this
//! crate.

pub mod alphanum;
pub mod checker;
pub mod config;
pub mod document;
pub mod error;
pub mod frontmatter;
pub mod generator;
pub mod ingest;
pub mod livereload;
pub mod markdown;
pub mod navigation;
pub mod paths;
pub mod resolve;
pub mod serve;
pub mod site;
pub mod strutil;
pub mod watcher;

use vstd::prelude::*;

verus! {

} // verus!
