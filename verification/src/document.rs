//! The document model: one `Document` per source file, one `Directory` per
//! folder, mirroring the docs root. URIs, titles and output paths are all
//! derived from these.

use crate::frontmatter::{fm_lookup, without, Frontmatter};
use crate::markdown::{Heading, Markdown, MdLink};
use crate::navigation::{sorted_by_title, sort_links, Link};
use crate::paths::{
    ext_start, file_name, find_file_name_start, join, lemma_file_name_start_props, spec_html_path,
    spec_join, spec_path_to_uri, to_uri,
};
use crate::strutil::{concat2, str_eq, substring};
use vstd::prelude::*;

verus! {

/// The stem of a file name: the file name with its extension cut off.
pub open spec fn file_stem_of(f: Seq<char>) -> Seq<char> {
    match ext_start(f) {
        Some(e) => f.take(e),
        None => f,
    }
}

/// One ingested source file with its metadata and rendering results.
#[derive(Debug, Clone, PartialEq)]
pub struct Document {
    pub id: u32,
    pub path: String,
    pub raw: String,
    pub markdown: Markdown,
    pub frontmatter: Frontmatter,
    pub base_path: String,
}

impl Document {
    /// The path of the source file, relative to the docs root.
    pub open spec fn spec_path(&self) -> Seq<char> {
        self.path@
    }

    /// The raw text of the source file, frontmatter included.
    pub open spec fn spec_raw(&self) -> Seq<char> {
        self.raw@
    }

    /// The base path the document's URI is qualified with.
    pub open spec fn spec_base(&self) -> Seq<char> {
        self.base_path@
    }

    /// The frontmatter entries of the document.
    pub open spec fn spec_fm(&self) -> Seq<(Seq<char>, Seq<char>)> {
        self.frontmatter@
    }

    /// The rendering result the document was built with.
    pub open spec fn spec_markdown(&self) -> Markdown {
        self.markdown
    }

    /// Whether this document is its directory's canonical index file.
    pub open spec fn is_index(&self) -> bool {
        file_name(self.spec_path()) == "README.md"@
    }

    /// The document's title: the frontmatter's `title` entry, or the file
    /// name's stem when there is none.
    pub open spec fn spec_title(&self) -> Seq<char> {
        match fm_lookup(self.spec_fm(), "title"@) {
            Some(t) => t,
            None => file_stem_of(file_name(self.spec_path())),
        }
    }

    /// The document's base-qualified site URI.
    pub open spec fn spec_uri(&self) -> Seq<char> {
        self.spec_base() + spec_path_to_uri(spec_html_path(self.spec_path()))
    }

    /// Creates a document from its parts: the source-relative path, the raw
    /// text, the parsed frontmatter, the base path, the rendering result,
    /// and the process-unique id the ingestion step assigned.
    pub fn new(
        path: &str,
        raw: String,
        frontmatter: Frontmatter,
        base_path: &str,
        markdown: Markdown,
        id: u32,
    ) -> (r: Document)
        ensures
            r.spec_path() == path@,
            r.spec_raw() == raw@,
            r.spec_fm() == frontmatter@,
            r.spec_base() == base_path@,
            r.spec_markdown() == markdown,
            r.id == id,
    {
        Document {
            id,
            path: path.to_owned(),
            raw,
            markdown,
            frontmatter,
            base_path: base_path.to_owned(),
        }
    }

    /// The file name of the source file.
    pub fn original_file_name(&self) -> (r: String)
        ensures
            r@ == file_name(self.spec_path()),
    {
        let len = self.path.as_str().unicode_len();
        let fs = find_file_name_start(self.path.as_str());
        proof {
            lemma_file_name_start_props(self.path@);
        }
        let r = substring(self.path.as_str(), fs, len);
        proof {
            assert(r@ =~= file_name(self.path@));
        }
        r
    }

    /// The source-relative path of the file.
    pub fn original_path(&self) -> (r: &String)
        ensures
            r@ == self.spec_path(),
    {
        &self.path
    }

    /// Whether this document is its directory's canonical index file.
    pub fn is_index_doc(&self) -> (r: bool)
        ensures
            r == self.is_index(),
    {
        let name = self.original_file_name();
        str_eq(name.as_str(), "README.md")
    }

    /// The output path of the page generated from this document.
    pub fn html_path(&self) -> (r: String)
        ensures
            r@ == spec_html_path(self.spec_path()),
    {
        let p = self.path.as_str();
        let len = p.unicode_len();
        let fs = find_file_name_start(p);
        proof {
            lemma_file_name_start_props(self.path@);
        }
        let f = p.substring_char(fs, len);
        proof {
            assert(f@ =~= self.path@.skip(fs as int));
        }
        if str_eq(f, "README.md") {
            let head = substring(p, 0, fs);
            concat2(head.as_str(), "index.html")
        } else {
            match crate::strutil::rfind_char(f, '.') {
                Some(e) => {
                    if e > 0 {
                        proof {
                            crate::paths::lemma_ext_start_at(f@, e as int);
                        }
                        let head = substring(p, 0, fs + e);
                        assert(head@ =~= self.path@.take(fs as int) + f@.take(e as int));
                        concat2(head.as_str(), ".html")
                    } else {
                        proof {
                            crate::paths::lemma_ext_start_none(f@);
                        }
                        concat2(p, ".html")
                    }
                },
                None => {
                    proof {
                        crate::paths::lemma_ext_start_none(f@);
                    }
                    concat2(p, ".html")
                },
            }
        }
    }

    /// Where the generated page lands under the output directory `out`.
    pub fn destination(&self, out: &str) -> (r: String)
        ensures
            r@ == spec_join(out@, spec_html_path(self.spec_path())),
    {
        let html = self.html_path();
        join(out, html.as_str())
    }

    /// The document's base-qualified site URI.
    pub fn uri_path(&self) -> (r: String)
        ensures
            r@ == self.spec_uri(),
    {
        let html = self.html_path();
        let uri = to_uri(html.as_str());
        concat2(self.base_path.as_str(), uri.as_str())
    }

    /// The document body: the raw text after the frontmatter section.
    pub fn markdown_section(&self) -> (r: &str)
        ensures
            r@ == self.spec_raw().skip(
                crate::frontmatter::spec_end_pos(self.spec_raw()) as int,
            ),
    {
        without(self.raw.as_str())
    }

    /// The headings the renderer found in the document.
    pub fn headings(&self) -> (r: &Vec<Heading>)
        ensures
            r@ == self.spec_markdown().headings@,
    {
        &self.markdown.headings
    }

    /// The outgoing links the renderer found in the document.
    pub fn outgoing_links(&self) -> (r: &Vec<MdLink>)
        ensures
            r@ == self.spec_markdown().links@,
    {
        &self.markdown.links
    }

    /// The rendered HTML of the document body.
    pub fn html(&self) -> (r: &str)
        ensures
            r@ == self.spec_markdown().as_html@,
    {
        self.markdown.as_html.as_str()
    }

    /// The document's title (see `spec_title`).
    pub fn title(&self) -> (r: String)
        ensures
            r@ == self.spec_title(),
    {
        match self.frontmatter.get("title") {
            Some(t) => t.clone(),
            None => {
                let name = self.original_file_name();
                let f = name.as_str();
                match crate::strutil::rfind_char(f, '.') {
                    Some(e) => {
                        if e > 0 {
                            proof {
                                crate::paths::lemma_ext_start_at(f@, e as int);
                            }
                            substring(f, 0, e)
                        } else {
                            proof {
                                crate::paths::lemma_ext_start_none(f@);
                            }
                            f.to_owned()
                        }
                    },
                    None => {
                        proof {
                            crate::paths::lemma_ext_start_none(f@);
                        }
                        f.to_owned()
                    },
                }
            },
        }
    }
}

/// One folder of the docs tree.
#[derive(Debug)]
pub struct Directory {
    pub path: String,
    pub docs: Vec<Document>,
    pub dirs: Vec<Directory>,
}

/// Some document in the list is an index document.
pub open spec fn has_index(docs: Seq<Document>) -> bool {
    exists|i: int| 0 <= i < docs.len() && (#[trigger] docs[i]).is_index()
}

/// The first index document in the list.
pub open spec fn first_index(docs: Seq<Document>) -> Document
    decreases docs.len(),
{
    if docs.len() == 0 {
        vstd::pervasive::arbitrary()
    } else if docs[0].is_index() {
        docs[0]
    } else {
        first_index(docs.skip(1))
    }
}

/// How many index documents the list holds.
pub open spec fn index_count(docs: Seq<Document>) -> int
    decreases docs.len(),
{
    if docs.len() == 0 {
        0
    } else {
        index_count(docs.drop_last()) + (if docs.last().is_index() {
            1int
        } else {
            0int
        })
    }
}

/// A list has an index document exactly when it holds at least one.
pub proof fn lemma_index_count(docs: Seq<Document>)
    ensures
        index_count(docs) >= 0,
        has_index(docs) <==> index_count(docs) >= 1,
    decreases docs.len(),
{
    if docs.len() > 0 {
        let pre = docs.drop_last();
        lemma_index_count(pre);
        assert(forall|i: int| 0 <= i < pre.len() ==> #[trigger] pre[i] == docs[i]);
        if has_index(docs) {
            let w = choose|i: int| 0 <= i < docs.len() && (#[trigger] docs[i]).is_index();
            if w < docs.len() - 1 {
                assert(pre[w].is_index());
                assert(has_index(pre));
            }
        } else {
            assert(!docs.last().is_index());
            if has_index(pre) {
                let w = choose|i: int| 0 <= i < pre.len() && (#[trigger] pre[i]).is_index();
                assert(docs[w].is_index());
            }
        }
    }
}

/// No directory of the tree has more than one index document (true of any
/// tree walked off a filesystem, where file names are unique within a
/// folder).
pub open spec fn tree_at_most_one_index(d: Directory) -> bool
    decreases d, 1int,
{
    index_count(d.docs@) <= 1 && dirs_at_most_one_index(d.dirs@)
}

/// As `tree_at_most_one_index`, over a directory list.
pub open spec fn dirs_at_most_one_index(s: Seq<Directory>) -> bool
    decreases s, 0int,
{
    if s.len() == 0 {
        true
    } else {
        tree_at_most_one_index(s[0]) && dirs_at_most_one_index(s.subrange(1, s.len() as int))
    }
}

/// Every directory of the tree has exactly one index document.
pub open spec fn tree_uniquely_indexed(d: Directory) -> bool
    decreases d, 1int,
{
    index_count(d.docs@) == 1 && dirs_uniquely_indexed(d.dirs@)
}

/// As `tree_uniquely_indexed`, over a directory list.
pub open spec fn dirs_uniquely_indexed(s: Seq<Directory>) -> bool
    decreases s, 0int,
{
    if s.len() == 0 {
        true
    } else {
        tree_uniquely_indexed(s[0]) && dirs_uniquely_indexed(s.subrange(1, s.len() as int))
    }
}

/// `dirs_at_most_one_index` and `dirs_uniquely_indexed` hold exactly when
/// they hold of each element.
pub proof fn lemma_dirs_index_bounds(s: Seq<Directory>)
    ensures
        dirs_at_most_one_index(s) <==> (forall|i: int|
            0 <= i < s.len() ==> tree_at_most_one_index(#[trigger] s[i])),
        dirs_uniquely_indexed(s) <==> (forall|i: int|
            0 <= i < s.len() ==> tree_uniquely_indexed(#[trigger] s[i])),
    decreases s,
{
    if s.len() > 0 {
        let tl = s.subrange(1, s.len() as int);
        lemma_dirs_index_bounds(tl);
        assert(forall|i: int| 0 <= i < tl.len() ==> #[trigger] tl[i] == s[i + 1]);
        assert forall|i: int|
            0 <= i < s.len() && dirs_at_most_one_index(s) implies tree_at_most_one_index(
            #[trigger] s[i],
        ) by {
            if i > 0 {
                assert(tl[i - 1] == s[i]);
            }
        }
        assert forall|i: int|
            0 <= i < s.len() && dirs_uniquely_indexed(s) implies tree_uniquely_indexed(
            #[trigger] s[i],
        ) by {
            if i > 0 {
                assert(tl[i - 1] == s[i]);
            }
        }
        if !dirs_at_most_one_index(s) && (forall|i: int|
            0 <= i < s.len() ==> tree_at_most_one_index(#[trigger] s[i])) {
            assert forall|i: int| 0 <= i < tl.len() implies tree_at_most_one_index(
                #[trigger] tl[i],
            ) by {
                assert(tl[i] == s[i + 1]);
            }
            assert(tree_at_most_one_index(s[0]));
            assert(false);
        }
        if !dirs_uniquely_indexed(s) && (forall|i: int|
            0 <= i < s.len() ==> tree_uniquely_indexed(#[trigger] s[i])) {
            assert forall|i: int| 0 <= i < tl.len() implies tree_uniquely_indexed(
                #[trigger] tl[i],
            ) by {
                assert(tl[i] == s[i + 1]);
            }
            assert(tree_uniquely_indexed(s[0]));
            assert(false);
        }
    }
}

/// A tree in which every directory has an index, and none has more than
/// one, has exactly one index document per directory: the auto-index
/// invariant that ingestion establishes.
pub proof fn lemma_exactly_one_index(d: Directory)
    requires
        tree_indexed(d),
        tree_at_most_one_index(d),
    ensures
        tree_uniquely_indexed(d),
    decreases d,
{
    lemma_index_count(d.docs@);
    lemma_dirs_indexed(d.dirs@);
    lemma_dirs_index_bounds(d.dirs@);
    assert forall|i: int| 0 <= i < d.dirs@.len() implies tree_uniquely_indexed(
        #[trigger] d.dirs@[i],
    ) by {
        assert(decreases_to!(d => d.dirs@[i]));
        lemma_exactly_one_index(d.dirs@[i]);
    }
}

/// Every directory of the tree has an index document.
pub open spec fn tree_indexed(d: Directory) -> bool
    decreases d, 1int,
{
    has_index(d.docs@) && dirs_indexed(d.dirs@)
}

/// Every directory of every tree in the list has an index document.
pub open spec fn dirs_indexed(s: Seq<Directory>) -> bool
    decreases s, 0int,
{
    if s.len() == 0 {
        true
    } else {
        tree_indexed(s[0]) && dirs_indexed(s.subrange(1, s.len() as int))
    }
}

/// `dirs_indexed` holds of a list exactly when `tree_indexed` holds of each
/// element.
pub proof fn lemma_dirs_indexed(s: Seq<Directory>)
    ensures
        dirs_indexed(s) <==> forall|i: int| 0 <= i < s.len() ==> tree_indexed(#[trigger] s[i]),
    decreases s,
{
    if s.len() > 0 {
        let tl = s.subrange(1, s.len() as int);
        lemma_dirs_indexed(tl);
        assert(forall|i: int| 0 <= i < tl.len() ==> #[trigger] tl[i] == s[i + 1]);
        if dirs_indexed(s) {
            assert forall|i: int| 0 <= i < s.len() implies tree_indexed(#[trigger] s[i]) by {
                if i > 0 {
                    assert(tl[i - 1] == s[i]);
                }
            }
        } else {
            if forall|i: int| 0 <= i < s.len() ==> tree_indexed(#[trigger] s[i]) {
                assert forall|i: int| 0 <= i < tl.len() implies tree_indexed(#[trigger] tl[i]) by {
                    assert(tl[i] == s[i + 1]);
                }
                assert(tree_indexed(s[0]));
                assert(false);
            }
        }
    }
}

/// The documents of the list that are not the directory's index page, in
/// order (judged by URI, as the navigation does).
pub open spec fn non_index_docs(docs: Seq<Document>, index_uri: Seq<char>) -> Seq<Document>
    decreases docs.len(),
{
    if docs.len() == 0 {
        Seq::<Document>::empty()
    } else {
        let pre = non_index_docs(docs.drop_last(), index_uri);
        if docs.last().spec_uri() != index_uri {
            pre.push(docs.last())
        } else {
            pre
        }
    }
}

/// `l` is the navigation entry of the plain document `d`: its title, its
/// URI, and no children.
pub open spec fn doc_link_ok(d: Document, l: Link) -> bool {
    l.title@ == d.spec_title() && l.path@ == d.spec_uri() && l.children@ == Seq::<Link>::empty()
}

/// `l` is the navigation entry of the subdirectory `sub`: titled and
/// addressed by `sub`'s index document, with `sub`'s own navigation as its
/// children.
pub open spec fn dir_link_ok(sub: Directory, l: Link) -> bool
    decreases sub, 2int,
{
    &&& l.title@ == first_index(sub.docs@).spec_title()
    &&& l.path@ == first_index(sub.docs@).spec_uri()
    &&& links_ok(sub, l.children@)
}

/// `base` is the unsorted navigation of `dir`: first one entry per
/// non-index document, in document order, then one entry per subdirectory,
/// in subdirectory order.
pub open spec fn base_links_ok(dir: Directory, base: Seq<Link>) -> bool
    decreases dir, 0int,
{
    let iuri = first_index(dir.docs@).spec_uri();
    let kept = non_index_docs(dir.docs@, iuri);
    &&& base.len() == kept.len() + dir.dirs@.len()
    &&& forall|i: int| 0 <= i < kept.len() ==> doc_link_ok(kept[i], #[trigger] base[i])
    &&& forall|j: int|
        0 <= j < dir.dirs@.len() ==> dir_link_ok(#[trigger] dir.dirs@[j], base[kept.len() + j])
}

/// `out` is the navigation of `dir`: the unsorted entries of
/// `base_links_ok`, reordered into alphanumeric order of their titles.
pub open spec fn links_ok(dir: Directory, out: Seq<Link>) -> bool
    decreases dir, 1int,
{
    exists|base: Seq<Link>|
        {
            &&& base_links_ok(dir, base)
            &&& sorted_by_title(out)
            &&& out.to_multiset() == #[trigger] base.to_multiset()
        }
}

/// Packages the witness for `links_ok`: an unsorted base and a sorted
/// reordering of it make a navigation for `dir`.
proof fn lemma_links_ok_intro(dir: Directory, out: Seq<Link>, base: Seq<Link>)
    requires
        base_links_ok(dir, base),
        sorted_by_title(out),
        out.to_multiset() == base.to_multiset(),
    ensures
        links_ok(dir, out),
{
}

impl Directory {
    /// The folder's path.
    pub fn path(&self) -> (r: &String)
        ensures
            r@ == self.path@,
    {
        &self.path
    }

    /// The directory's index document. Every ingested directory has one.
    pub fn index(&self) -> (r: &Document)
        requires
            has_index(self.docs@),
        ensures
            *r == first_index(self.docs@),
    {
        proof {
            assert(self.docs@.skip(0) =~= self.docs@);
        }
        self.index_from(0)
    }

    fn index_from(&self, i: usize) -> (r: &Document)
        requires
            i <= self.docs@.len(),
            has_index(self.docs@.skip(i as int)),
        ensures
            *r == first_index(self.docs@.skip(i as int)),
        decreases self.docs@.len() - i,
    {
        let ghost tail = self.docs@.skip(i as int);
        proof {
            if tail.len() == 0 {
                assert(!has_index(tail));
            }
            assert(tail[0] == self.docs@[i as int]);
            assert(tail.skip(1) =~= self.docs@.skip(i as int + 1));
        }
        let n = self.docs.len();
        if self.docs[i].is_index_doc() {
            &self.docs[i]
        } else {
            proof {
                assert forall|k: int|
                    0 <= k < tail.len() && (#[trigger] tail[k]).is_index() implies k >= 1 by {}
                assert(has_index(tail.skip(1))) by {
                    let w = choose|k: int| 0 <= k < tail.len() && (#[trigger] tail[k]).is_index();
                    assert(tail.skip(1)[w - 1].is_index());
                }
                assert(tail.len() > 0);
                assert(i < n);
            }
            self.index_from(i + 1)
        }
    }

    /// The navigation entries of this directory: its non-index documents
    /// and its subdirectories, each under its index entry, sorted
    /// alphanumerically by title at every level.
    pub fn links(&self) -> (r: Vec<Link>)
        requires
            tree_indexed(*self),
        ensures
            links_ok(*self, r@),
        decreases *self,
    {
        let index_uri = self.index().uri_path();
        let ghost iuri = first_index(self.docs@).spec_uri();
        let mut base: Vec<Link> = Vec::new();
        let nd = self.docs.len();
        let mut i: usize = 0;
        while i < nd
            invariant
                nd == self.docs@.len(),
                iuri == first_index(self.docs@).spec_uri(),
                index_uri@ == iuri,
                0 <= i <= nd,
                base@.len() == non_index_docs(self.docs@.take(i as int), iuri).len(),
                forall|k: int|
                    0 <= k < base@.len() ==> doc_link_ok(
                        non_index_docs(self.docs@.take(i as int), iuri)[k],
                        #[trigger] base@[k],
                    ),
            decreases nd - i,
        {
            let d = &self.docs[i];
            let ghost prefix = self.docs@.take(i as int);
            let ghost prefix1 = self.docs@.take(i as int + 1);
            proof {
                assert(prefix1.drop_last() =~= prefix);
                assert(prefix1.last() == self.docs@[i as int]);
            }
            let uri = d.uri_path();
            if !str_eq(uri.as_str(), index_uri.as_str()) {
                let title = d.title();
                base.push(Link { path: uri, title, children: Vec::new() });
                proof {
                    let kept1 = non_index_docs(prefix1, iuri);
                    assert(kept1 == non_index_docs(prefix, iuri).push(self.docs@[i as int]));
                }
            } else {
                proof {
                    assert(non_index_docs(prefix1, iuri) == non_index_docs(prefix, iuri));
                }
            }
            i = i + 1;
        }
        proof {
            assert(self.docs@.take(nd as int) =~= self.docs@);
        }
        let ghost kept = non_index_docs(self.docs@, iuri);
        let ghost nkept = base@.len() as int;
        let ns = self.dirs.len();
        proof {
            lemma_dirs_indexed(self.dirs@);
        }
        let mut j: usize = 0;
        while j < ns
            invariant
                ns == self.dirs@.len(),
                iuri == first_index(self.docs@).spec_uri(),
                kept == non_index_docs(self.docs@, iuri),
                nkept == kept.len(),
                forall|k: int| 0 <= k < ns ==> tree_indexed(#[trigger] self.dirs@[k]),
                0 <= j <= ns,
                base@.len() == nkept + j,
                forall|k: int|
                    0 <= k < nkept ==> doc_link_ok(kept[k], #[trigger] base@[k]),
                forall|k: int|
                    0 <= k < j ==> dir_link_ok(#[trigger] self.dirs@[k], base@[nkept + k]),
            decreases ns - j,
        {
            let sub = &self.dirs[j];
            let children = sub.links();
            let sub_index = sub.index();
            let title = sub_index.title();
            let path = sub_index.uri_path();
            base.push(Link { path, title, children });
            j = j + 1;
        }
        let ghost base_snapshot = base@;
        proof {
            assert(base_links_ok(*self, base_snapshot));
        }
        let r = sort_links(base);
        proof {
            lemma_links_ok_intro(*self, r@, base_snapshot);
        }
        r
    }
}

} // verus!
