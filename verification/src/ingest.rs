//! Ingestion: turns the flat list of Markdown source files a directory walk
//! yields into the nested `Directory` tree, then synthesizes an index
//! document for every directory that lacks one, bottom-up, so that after
//! ingestion every directory has exactly its one landing page.

use crate::config::Config;
use crate::document::{
    dirs_indexed, first_index, has_index, lemma_dirs_index_bounds, lemma_index_count,
    tree_at_most_one_index, tree_indexed, tree_uniquely_indexed, Directory, Document,
};
use crate::error::Error;
use crate::frontmatter::{fm_lookup, parse, spec_end_pos, spec_section, yaml_string_map_of, Frontmatter};
use crate::markdown::{Markdown, MdLink, UrlType};
use crate::paths::{file_name, find_file_name_start, join, lemma_file_name_start_props};
use crate::strutil::{concat2, find_char, starts_with, str_eq, substring};
use vstd::prelude::*;

verus! {

/// One source file as the filesystem walk hands it over: its path relative
/// to the docs root, its raw text, and the renderer's output for its body.
#[derive(Debug, Clone, PartialEq)]
pub struct SourceFile {
    pub path: String,
    pub raw: String,
    pub markdown: Markdown,
}

/// The document `d` is the ingested form of the file `f` under base path
/// `base`, carrying the id `did`.
pub open spec fn doc_matches(d: Document, f: SourceFile, base: Seq<char>, did: u32) -> bool {
    d.spec_path() == f.path@ && d.spec_raw() == f.raw@ && d.spec_markdown() == f.markdown
        && d.spec_base() == base && d.id == did
}

/// Some document in the list is the ingested form of `f`.
pub open spec fn docs_have(docs: Seq<Document>, f: SourceFile, base: Seq<char>, did: u32) -> bool
    decreases docs.len(),
{
    if docs.len() == 0 {
        false
    } else {
        doc_matches(docs[0], f, base, did) || docs_have(docs.subrange(1, docs.len() as int), f, base, did)
    }
}

/// Some tree in the list holds the ingested form of `f`.
pub open spec fn dirs_have(dirs: Seq<Directory>, f: SourceFile, base: Seq<char>, did: u32) -> bool
    decreases dirs, 0int,
{
    if dirs.len() == 0 {
        false
    } else {
        tree_has(dirs[0], f, base, did) || dirs_have(dirs.subrange(1, dirs.len() as int), f, base, did)
    }
}

/// The tree holds the ingested form of `f`, in this directory or below.
pub open spec fn tree_has(dir: Directory, f: SourceFile, base: Seq<char>, did: u32) -> bool
    decreases dir, 1int,
{
    docs_have(dir.docs@, f, base, did) || dirs_have(dir.dirs@, f, base, did)
}

/// `docs_have` holds exactly when some element matches.
pub proof fn lemma_docs_have(docs: Seq<Document>, f: SourceFile, base: Seq<char>, did: u32)
    ensures
        docs_have(docs, f, base, did) <==> exists|i: int|
            0 <= i < docs.len() && doc_matches(#[trigger] docs[i], f, base, did),
    decreases docs.len(),
{
    if docs.len() > 0 {
        let tl = docs.subrange(1, docs.len() as int);
        lemma_docs_have(tl, f, base, did);
        assert(forall|i: int| 0 <= i < tl.len() ==> #[trigger] tl[i] == docs[i + 1]);
        if docs_have(docs, f, base, did) {
            if doc_matches(docs[0], f, base, did) {
            } else {
                let w = choose|i: int| 0 <= i < tl.len() && doc_matches(#[trigger] tl[i], f, base, did);
                assert(doc_matches(docs[w + 1], f, base, did));
            }
        } else {
            if exists|i: int| 0 <= i < docs.len() && doc_matches(#[trigger] docs[i], f, base, did) {
                let w = choose|i: int|
                    0 <= i < docs.len() && doc_matches(#[trigger] docs[i], f, base, did);
                if w > 0 {
                    assert(doc_matches(tl[w - 1], f, base, did));
                }
                assert(false);
            }
        }
    }
}

/// `dirs_have` holds exactly when some element's tree holds the file.
pub proof fn lemma_dirs_have(dirs: Seq<Directory>, f: SourceFile, base: Seq<char>, did: u32)
    ensures
        dirs_have(dirs, f, base, did) <==> exists|i: int|
            0 <= i < dirs.len() && tree_has(#[trigger] dirs[i], f, base, did),
    decreases dirs.len(),
{
    if dirs.len() > 0 {
        let tl = dirs.subrange(1, dirs.len() as int);
        lemma_dirs_have(tl, f, base, did);
        assert(forall|i: int| 0 <= i < tl.len() ==> #[trigger] tl[i] == dirs[i + 1]);
        if dirs_have(dirs, f, base, did) {
            if tree_has(dirs[0], f, base, did) {
            } else {
                let w = choose|i: int| 0 <= i < tl.len() && tree_has(#[trigger] tl[i], f, base, did);
                assert(tree_has(dirs[w + 1], f, base, did));
            }
        } else {
            if exists|i: int| 0 <= i < dirs.len() && tree_has(#[trigger] dirs[i], f, base, did) {
                let w = choose|i: int| 0 <= i < dirs.len() && tree_has(#[trigger] dirs[i], f, base, did);
                if w > 0 {
                    assert(tree_has(tl[w - 1], f, base, did));
                }
                assert(false);
            }
        }
    }
}

/// A document list keeps everything it had when one more is appended.
pub proof fn lemma_docs_have_push(docs: Seq<Document>, d: Document, f: SourceFile, base: Seq<char>, did: u32)
    ensures
        docs_have(docs, f, base, did) ==> docs_have(docs.push(d), f, base, did),
        doc_matches(d, f, base, did) ==> docs_have(docs.push(d), f, base, did),
{
    lemma_docs_have(docs, f, base, did);
    lemma_docs_have(docs.push(d), f, base, did);
    if docs_have(docs, f, base, did) {
        let w = choose|i: int| 0 <= i < docs.len() && doc_matches(#[trigger] docs[i], f, base, did);
        assert(doc_matches(docs.push(d)[w], f, base, did));
    }
    if doc_matches(d, f, base, did) {
        assert(doc_matches(docs.push(d)[docs.len() as int], f, base, did));
    }
}

/// Some document in the list has the source path `p`.
pub open spec fn docs_have_path(docs: Seq<Document>, p: Seq<char>) -> bool
    decreases docs.len(),
{
    if docs.len() == 0 {
        false
    } else {
        docs[0].spec_path() == p || docs_have_path(docs.subrange(1, docs.len() as int), p)
    }
}

/// Some tree in the list holds a document with the source path `p`.
pub open spec fn dirs_have_path(dirs: Seq<Directory>, p: Seq<char>) -> bool
    decreases dirs, 0int,
{
    if dirs.len() == 0 {
        false
    } else {
        tree_has_path(dirs[0], p) || dirs_have_path(dirs.subrange(1, dirs.len() as int), p)
    }
}

/// The tree holds a document with the source path `p`.
pub open spec fn tree_has_path(dir: Directory, p: Seq<char>) -> bool
    decreases dir, 1int,
{
    docs_have_path(dir.docs@, p) || dirs_have_path(dir.dirs@, p)
}

/// `docs_have_path` holds exactly when some element's path is `p`.
pub proof fn lemma_docs_have_path(docs: Seq<Document>, p: Seq<char>)
    ensures
        docs_have_path(docs, p) <==> exists|i: int|
            0 <= i < docs.len() && (#[trigger] docs[i]).spec_path() == p,
    decreases docs.len(),
{
    if docs.len() > 0 {
        let tl = docs.subrange(1, docs.len() as int);
        lemma_docs_have_path(tl, p);
        assert(forall|i: int| 0 <= i < tl.len() ==> #[trigger] tl[i] == docs[i + 1]);
        if docs_have_path(docs, p) {
            if docs[0].spec_path() == p {
            } else {
                let w = choose|i: int| 0 <= i < tl.len() && (#[trigger] tl[i]).spec_path() == p;
                assert(docs[w + 1].spec_path() == p);
            }
        } else {
            if exists|i: int| 0 <= i < docs.len() && (#[trigger] docs[i]).spec_path() == p {
                let w = choose|i: int|
                    0 <= i < docs.len() && (#[trigger] docs[i]).spec_path() == p;
                if w > 0 {
                    assert(tl[w - 1].spec_path() == p);
                }
                assert(false);
            }
        }
    }
}

/// `dirs_have_path` holds exactly when some element's tree holds `p`.
pub proof fn lemma_dirs_have_path(dirs: Seq<Directory>, p: Seq<char>)
    ensures
        dirs_have_path(dirs, p) <==> exists|i: int|
            0 <= i < dirs.len() && tree_has_path(#[trigger] dirs[i], p),
    decreases dirs.len(),
{
    if dirs.len() > 0 {
        let tl = dirs.subrange(1, dirs.len() as int);
        lemma_dirs_have_path(tl, p);
        assert(forall|i: int| 0 <= i < tl.len() ==> #[trigger] tl[i] == dirs[i + 1]);
        if dirs_have_path(dirs, p) {
            if tree_has_path(dirs[0], p) {
            } else {
                let w = choose|i: int| 0 <= i < tl.len() && tree_has_path(#[trigger] tl[i], p);
                assert(tree_has_path(dirs[w + 1], p));
            }
        } else {
            if exists|i: int| 0 <= i < dirs.len() && tree_has_path(#[trigger] dirs[i], p) {
                let w = choose|i: int|
                    0 <= i < dirs.len() && tree_has_path(#[trigger] dirs[i], p);
                if w > 0 {
                    assert(tree_has_path(tl[w - 1], p));
                }
                assert(false);
            }
        }
    }
}

/// Every index document of the tree is filed at `README.md` directly
/// under its directory's prefix (the chain of subdirectory names below
/// the root), and no directory holds more than one. Insertion keeps this,
/// which is where the auto-index invariant's "at most one" comes from.
pub open spec fn tree_readmes_at(dir: Directory, pre: Seq<char>) -> bool
    decreases dir, 1int,
{
    &&& crate::document::index_count(dir.docs@) <= 1
    &&& (forall|i: int|
        0 <= i < dir.docs@.len() && (#[trigger] dir.docs@[i]).is_index()
            ==> dir.docs@[i].spec_path() == pre + "README.md"@)
    &&& dirs_readmes_at(dir.dirs@, pre)
}

/// As `tree_readmes_at`, over a directory list: each element's prefix
/// grows by its own name.
pub open spec fn dirs_readmes_at(dirs: Seq<Directory>, pre: Seq<char>) -> bool
    decreases dirs, 0int,
{
    if dirs.len() == 0 {
        true
    } else {
        tree_readmes_at(dirs[0], pre + file_name(dirs[0].path@) + "/"@) && dirs_readmes_at(
            dirs.subrange(1, dirs.len() as int),
            pre,
        )
    }
}

/// `dirs_readmes_at` holds exactly when it holds of each element.
pub proof fn lemma_dirs_readmes_at(dirs: Seq<Directory>, pre: Seq<char>)
    ensures
        dirs_readmes_at(dirs, pre) <==> (forall|i: int|
            0 <= i < dirs.len() ==> tree_readmes_at(
                #[trigger] dirs[i],
                pre + file_name(dirs[i].path@) + "/"@,
            )),
    decreases dirs.len(),
{
    if dirs.len() > 0 {
        let tl = dirs.subrange(1, dirs.len() as int);
        lemma_dirs_readmes_at(tl, pre);
        assert(forall|i: int| 0 <= i < tl.len() ==> #[trigger] tl[i] == dirs[i + 1]);
        if dirs_readmes_at(dirs, pre) {
            assert forall|i: int| 0 <= i < dirs.len() implies tree_readmes_at(
                #[trigger] dirs[i],
                pre + file_name(dirs[i].path@) + "/"@,
            ) by {
                if i > 0 {
                    assert(tl[i - 1] == dirs[i]);
                    assert(tree_readmes_at(tl[i - 1], pre + file_name(tl[i - 1].path@) + "/"@));
                }
            }
        } else {
            if forall|i: int|
                0 <= i < dirs.len() ==> tree_readmes_at(
                    #[trigger] dirs[i],
                    pre + file_name(dirs[i].path@) + "/"@,
                ) {
                assert forall|i: int| 0 <= i < tl.len() implies tree_readmes_at(
                    #[trigger] tl[i],
                    pre + file_name(tl[i].path@) + "/"@,
                ) by {
                    assert(tl[i] == dirs[i + 1]);
                    assert(tree_readmes_at(dirs[i + 1], pre + file_name(dirs[i + 1].path@) + "/"@));
                }
                assert(tree_readmes_at(dirs[0], pre + file_name(dirs[0].path@) + "/"@));
                assert(false);
            }
        }
    }
}

/// A tree whose index documents all sit at their directory's own
/// `README.md` has at most one index per directory.
pub proof fn lemma_readmes_at_most_one(dir: Directory, pre: Seq<char>)
    requires
        tree_readmes_at(dir, pre),
    ensures
        crate::document::tree_at_most_one_index(dir),
    decreases dir,
{
    lemma_dirs_readmes_at(dir.dirs@, pre);
    crate::document::lemma_dirs_index_bounds(dir.dirs@);
    assert forall|i: int| 0 <= i < dir.dirs@.len() implies crate::document::tree_at_most_one_index(
        #[trigger] dir.dirs@[i],
    ) by {
        assert(decreases_to!(dir => dir.dirs@[i]));
        lemma_readmes_at_most_one(dir.dirs@[i], pre + file_name(dir.dirs@[i].path@) + "/"@);
    }
}

/// Every file the tree `a` holds, the tree `r` holds too.
pub open spec fn tree_covers(a: Directory, r: Directory) -> bool {
    forall|f: SourceFile, base: Seq<char>, did: u32| tree_has(a, f, base, did) ==> #[trigger] tree_has(r, f, base, did)
}

/// Appending a document appends exactly its path to what the list holds.
proof fn lemma_docs_have_path_push(docs: Seq<Document>, d: Document, p: Seq<char>)
    ensures
        docs_have_path(docs.push(d), p) <==> (docs_have_path(docs, p) || d.spec_path() == p),
{
    lemma_docs_have_path(docs, p);
    lemma_docs_have_path(docs.push(d), p);
    if docs_have_path(docs, p) {
        let w = choose|i: int| 0 <= i < docs.len() && (#[trigger] docs[i]).spec_path() == p;
        assert(docs.push(d)[w].spec_path() == p);
    }
    if d.spec_path() == p {
        assert(docs.push(d)[docs.len() as int].spec_path() == p);
    }
    if docs_have_path(docs.push(d), p) {
        let w = choose|i: int|
            0 <= i < docs.push(d).len() && (#[trigger] docs.push(d)[i]).spec_path() == p;
        if w < docs.len() {
            assert(docs[w].spec_path() == p);
        }
    }
}

/// Pushing a document whose relative path has no `/` (so it is filed
/// right here) keeps every index at its directory's own `README.md`: a
/// second index would share the first one's path, which the tree does
/// not hold.
proof fn lemma_readmes_push(
    dir: Directory,
    d2: Directory,
    doc: Document,
    rel: Seq<char>,
    pre: Seq<char>,
)
    requires
        d2.docs@ == dir.docs@.push(doc),
        d2.dirs@ == dir.dirs@,
        forall|j: int| 0 <= j < rel.len() ==> rel[j] != '/',
        doc.spec_path() == pre + rel,
        pre.len() == 0 || pre.last() == '/',
        tree_readmes_at(dir, pre),
        !tree_has_path(dir, doc.spec_path()),
    ensures
        tree_readmes_at(d2, pre),
{
    reveal_strlit("README.md");
    let p = doc.spec_path();
    assert(p.len() == pre.len() + rel.len());
    assert forall|j: int| pre.len() <= j < p.len() implies p[j] != '/' by {
        assert(p[j] == rel[j - pre.len()]);
    }
    crate::paths::lemma_file_name_start_at(p, pre.len() as int);
    assert(file_name(p) =~= rel);
    let nd = d2.docs@;
    assert(nd.drop_last() =~= dir.docs@);
    if doc.is_index() {
        assert(rel =~= "README.md"@);
        assert(p == pre + "README.md"@);
        crate::document::lemma_index_count(dir.docs@);
        if crate::document::index_count(dir.docs@) >= 1 {
            let w = choose|i: int|
                0 <= i < dir.docs@.len() && (#[trigger] dir.docs@[i]).is_index();
            assert(dir.docs@[w].spec_path() == pre + "README.md"@);
            lemma_docs_have_path(dir.docs@, p);
            assert(false);
        }
        assert(crate::document::index_count(nd) == 1);
    } else {
        assert(crate::document::index_count(nd) == crate::document::index_count(dir.docs@));
    }
    assert forall|i: int|
        0 <= i < nd.len() && (#[trigger] nd[i]).is_index() implies nd[i].spec_path() == pre
        + "README.md"@ by {
        if i < dir.docs@.len() {
            assert(nd[i] == dir.docs@[i]);
        } else {
            assert(nd[i] == doc);
        }
    }
}

/// Inserts an ingested document into the tree at the place its relative
/// path `rel` (taken below `dir`) puts it, creating directories as needed.
/// Everything the tree held stays in it, the new document is in the
/// result, the tree's path set grows by exactly the document's path, and
/// indexes stay at their directories' own `README.md`.
fn insert_doc(dir: Directory, rel: &str, doc: Document) -> (r: Directory)
    ensures
        r.path@ == dir.path@,
        tree_covers(dir, r),
        forall|f: SourceFile, base: Seq<char>, did: u32|
            doc_matches(doc, f, base, did) ==> #[trigger] tree_has(r, f, base, did),
        (forall|j: int| 0 <= j < rel@.len() ==> rel@[j] != '/') ==> r.docs@ == dir.docs@.push(
            doc,
        ) && r.dirs@ == dir.dirs@,
        (exists|j: int| 0 <= j < rel@.len() && rel@[j] == '/') ==> r.docs@ == dir.docs@,
        forall|p: Seq<char>|
            #[trigger] tree_has_path(r, p) <==> (tree_has_path(dir, p) || doc.spec_path() == p),
        forall|pre: Seq<char>|
            (doc.spec_path() == pre + rel@ && (pre.len() == 0 || pre.last() == '/')
                && tree_readmes_at(dir, pre) && !tree_has_path(dir, doc.spec_path()))
                ==> #[trigger] tree_readmes_at(r, pre),
    decreases rel@.len(),
{
    match find_char(rel, '/') {
        None => {
            let ghost old_docs = dir.docs@;
            let mut d2 = dir;
            d2.docs.push(doc);
            proof {
                assert forall|f: SourceFile, base: Seq<char>, did: u32|
                    tree_has(dir, f, base, did) implies #[trigger] tree_has(d2, f, base, did) by {
                    lemma_docs_have_push(old_docs, doc, f, base, did);
                }
                assert forall|f: SourceFile, base: Seq<char>, did: u32|
                    doc_matches(doc, f, base, did) implies #[trigger] tree_has(d2, f, base, did) by {
                    lemma_docs_have_push(old_docs, doc, f, base, did);
                }
                assert forall|p: Seq<char>| #[trigger] tree_has_path(d2, p) <==> (tree_has_path(
                    dir,
                    p,
                ) || doc.spec_path() == p) by {
                    lemma_docs_have_path_push(old_docs, doc, p);
                }
                assert forall|pre: Seq<char>|
                    (doc.spec_path() == pre + rel@ && (pre.len() == 0 || pre.last() == '/')
                        && tree_readmes_at(dir, pre) && !tree_has_path(
                        dir,
                        doc.spec_path(),
                    )) implies #[trigger] tree_readmes_at(d2, pre) by {
                    lemma_readmes_push(dir, d2, doc, rel@, pre);
                }
            }
            d2
        },
        Some(slash) => {
            let len = rel.unicode_len();
            let seg = substring(rel, 0, slash);
            let tail = rel.substring_char(slash + 1, len);
            proof {
                assert(tail@ =~= rel@.skip(slash as int + 1));
            }
            let ghost old_dirs = dir.dirs@;
            let Directory { path: dpath, docs: ddocs, dirs: subs } = dir;
            let mut subs = subs;
            let n = subs.len();
            let mut idx: usize = 0;
            let mut found = false;
            while idx < n && !found
                invariant
                    n == subs@.len(),
                    0 <= idx <= n,
                    found ==> idx < n && file_name(subs@[idx as int].path@) == seg@,
                decreases n - idx + (if found { 0int } else { 1int }),
            {
                let fs = find_file_name_start(subs[idx].path.as_str());
                proof {
                    lemma_file_name_start_props(subs@[idx as int].path@);
                }
                let name = substring(
                    subs[idx].path.as_str(),
                    fs,
                    subs[idx].path.as_str().unicode_len(),
                );
                proof {
                    assert(name@ =~= file_name(subs@[idx as int].path@));
                }
                if str_eq(name.as_str(), seg.as_str()) {
                    found = true;
                } else {
                    idx = idx + 1;
                }
            }
            if found {
                let ghost j = idx as int;
                let sub = subs.remove(idx);
                let sub2 = insert_doc(sub, tail, doc);
                subs.insert(idx, sub2);
                let ghost nd = subs@;
                let d2 = Directory { path: dpath, docs: ddocs, dirs: subs };
                proof {
                    assert(nd =~= old_dirs.update(j, sub2));
                    assert(nd.len() == old_dirs.len());
                    assert(nd[j] == sub2);
                    assert(forall|k: int| 0 <= k < nd.len() && k != j ==> nd[k] == old_dirs[k]);
                    assert forall|f: SourceFile, base: Seq<char>, did: u32|
                        tree_has(dir, f, base, did) implies #[trigger] tree_has(d2, f, base, did) by {
                        if !docs_have(dir.docs@, f, base, did) {
                            lemma_dirs_have(old_dirs, f, base, did);
                            let w = choose|k: int|
                                0 <= k < old_dirs.len() && tree_has(#[trigger] old_dirs[k], f, base, did);
                            assert(tree_has(nd[w], f, base, did));
                            lemma_dirs_have(nd, f, base, did);
                        }
                    }
                    assert forall|f: SourceFile, base: Seq<char>, did: u32|
                        doc_matches(doc, f, base, did) implies #[trigger] tree_has(d2, f, base, did) by {
                        assert(tree_has(nd[j], f, base, did));
                        lemma_dirs_have(nd, f, base, did);
                    }
                    reveal_strlit("/");
                    assert("/"@.len() == 1 && "/"@[0] == '/');
                    assert(seg@ == rel@.subrange(0, slash as int));
                    assert(rel@[slash as int] == '/');
                    assert(rel@ =~= seg@ + "/"@ + tail@);
                    assert forall|p: Seq<char>| #[trigger] tree_has_path(d2, p) <==> (tree_has_path(
                        dir,
                        p,
                    ) || doc.spec_path() == p) by {
                        lemma_dirs_have_path(old_dirs, p);
                        lemma_dirs_have_path(nd, p);
                        assert(tree_has_path(sub2, p) <==> (tree_has_path(sub, p)
                            || doc.spec_path() == p));
                        if tree_has_path(d2, p) {
                            if dirs_have_path(nd, p) {
                                let w = choose|k: int|
                                    0 <= k < nd.len() && tree_has_path(#[trigger] nd[k], p);
                                if w != j {
                                    assert(tree_has_path(old_dirs[w], p));
                                }
                            }
                        }
                        if tree_has_path(dir, p) {
                            if dirs_have_path(old_dirs, p) {
                                let w = choose|k: int|
                                    0 <= k < old_dirs.len() && tree_has_path(
                                        #[trigger] old_dirs[k],
                                        p,
                                    );
                                if w != j {
                                    assert(tree_has_path(nd[w], p));
                                } else {
                                    assert(tree_has_path(nd[j], p));
                                }
                            }
                        }
                        if doc.spec_path() == p {
                            assert(tree_has_path(nd[j], p));
                        }
                    }
                    assert forall|pre: Seq<char>|
                        (doc.spec_path() == pre + rel@ && (pre.len() == 0 || pre.last() == '/')
                            && tree_readmes_at(dir, pre) && !tree_has_path(
                            dir,
                            doc.spec_path(),
                        )) implies #[trigger] tree_readmes_at(d2, pre) by {
                        let pre2 = pre + seg@ + "/"@;
                        assert(doc.spec_path() =~= pre2 + tail@);
                        assert(pre2.last() == '/');
                        lemma_dirs_readmes_at(old_dirs, pre);
                        assert(file_name(sub.path@) == seg@);
                        assert(tree_readmes_at(sub, pre + file_name(old_dirs[j].path@) + "/"@));
                        assert(pre + file_name(sub.path@) + "/"@ =~= pre2);
                        lemma_dirs_have_path(old_dirs, doc.spec_path());
                        assert(!tree_has_path(sub, doc.spec_path()));
                        assert(tree_readmes_at(sub2, pre2));
                        lemma_dirs_readmes_at(nd, pre);
                        assert forall|k: int| 0 <= k < nd.len() implies tree_readmes_at(
                            #[trigger] nd[k],
                            pre + file_name(nd[k].path@) + "/"@,
                        ) by {
                            if k == j {
                                assert(nd[j] == sub2);
                                assert(sub2.path@ == sub.path@);
                                assert(pre + file_name(sub2.path@) + "/"@ =~= pre2);
                            } else {
                                assert(nd[k] == old_dirs[k]);
                                assert(tree_readmes_at(
                                    old_dirs[k],
                                    pre + file_name(old_dirs[k].path@) + "/"@,
                                ));
                            }
                        }
                    }
                }
                d2
            } else {
                let child_path = join(dpath.as_str(), seg.as_str());
                let child = Directory { path: child_path, docs: Vec::new(), dirs: Vec::new() };
                let child2 = insert_doc(child, tail, doc);
                subs.push(child2);
                let ghost nd = subs@;
                let d2 = Directory { path: dpath, docs: ddocs, dirs: subs };
                proof {
                    assert(nd =~= old_dirs.push(child2));
                    assert forall|f: SourceFile, base: Seq<char>, did: u32|
                        tree_has(dir, f, base, did) implies #[trigger] tree_has(d2, f, base, did) by {
                        if !docs_have(dir.docs@, f, base, did) {
                            lemma_dirs_have(old_dirs, f, base, did);
                            let w = choose|k: int|
                                0 <= k < old_dirs.len() && tree_has(#[trigger] old_dirs[k], f, base, did);
                            assert(tree_has(nd[w], f, base, did));
                            lemma_dirs_have(nd, f, base, did);
                        }
                    }
                    assert forall|f: SourceFile, base: Seq<char>, did: u32|
                        doc_matches(doc, f, base, did) implies #[trigger] tree_has(d2, f, base, did) by {
                        assert(tree_has(nd[nd.len() - 1], f, base, did));
                        lemma_dirs_have(nd, f, base, did);
                    }
                    reveal_strlit("/");
                    assert("/"@.len() == 1 && "/"@[0] == '/');
                    assert(seg@ == rel@.subrange(0, slash as int));
                    assert(rel@[slash as int] == '/');
                    assert(rel@ =~= seg@ + "/"@ + tail@);
                    assert(!tree_has_path(child, doc.spec_path()));
                    assert forall|p: Seq<char>| #[trigger] tree_has_path(d2, p) <==> (tree_has_path(
                        dir,
                        p,
                    ) || doc.spec_path() == p) by {
                        lemma_dirs_have_path(old_dirs, p);
                        lemma_dirs_have_path(nd, p);
                        assert(!tree_has_path(child, p));
                        assert(tree_has_path(child2, p) <==> (tree_has_path(child, p)
                            || doc.spec_path() == p));
                        if tree_has_path(d2, p) {
                            if dirs_have_path(nd, p) {
                                let w = choose|k: int|
                                    0 <= k < nd.len() && tree_has_path(#[trigger] nd[k], p);
                                if w < old_dirs.len() {
                                    assert(tree_has_path(old_dirs[w], p));
                                }
                            }
                        }
                        if tree_has_path(dir, p) {
                            if dirs_have_path(old_dirs, p) {
                                let w = choose|k: int|
                                    0 <= k < old_dirs.len() && tree_has_path(
                                        #[trigger] old_dirs[k],
                                        p,
                                    );
                                assert(tree_has_path(nd[w], p));
                            }
                        }
                        if doc.spec_path() == p {
                            assert(tree_has_path(nd[nd.len() - 1], p));
                        }
                    }
                    assert forall|pre: Seq<char>|
                        (doc.spec_path() == pre + rel@ && (pre.len() == 0 || pre.last() == '/')
                            && tree_readmes_at(dir, pre) && !tree_has_path(
                            dir,
                            doc.spec_path(),
                        )) implies #[trigger] tree_readmes_at(d2, pre) by {
                        let pre2 = pre + seg@ + "/"@;
                        assert(doc.spec_path() =~= pre2 + tail@);
                        assert(pre2.last() == '/');
                        assert(file_name(child.path@) == seg@) by {
                            reveal_strlit("/");
                            let cp = child2.path@;
                            assert(cp == crate::paths::spec_join(dpath@, seg@));
                            if dpath@.len() == 0 {
                                assert(cp == seg@);
                                crate::paths::lemma_file_name_start_at(cp, 0);
                                assert(cp.skip(0) =~= seg@);
                            } else if dpath@.last() == '/' {
                                assert(cp == dpath@ + seg@);
                                crate::paths::lemma_file_name_start_at(cp, dpath@.len() as int);
                                assert(cp.skip(dpath@.len() as int) =~= seg@);
                            } else {
                                assert(cp == dpath@ + "/"@ + seg@);
                                assert("/"@.len() == 1);
                                assert(cp[dpath@.len() as int] == '/');
                                crate::paths::lemma_file_name_start_at(
                                    cp,
                                    dpath@.len() as int + 1,
                                );
                                assert(cp.skip(dpath@.len() as int + 1) =~= seg@);
                            }
                        }
                        assert(tree_readmes_at(child, pre2)) by {
                            assert(crate::document::index_count(child.docs@) == 0);
                            assert(dirs_readmes_at(child.dirs@, pre2));
                        }
                        assert(tree_readmes_at(child2, pre2));
                        lemma_dirs_readmes_at(old_dirs, pre);
                        lemma_dirs_readmes_at(nd, pre);
                        assert forall|k: int| 0 <= k < nd.len() implies tree_readmes_at(
                            #[trigger] nd[k],
                            pre + file_name(nd[k].path@) + "/"@,
                        ) by {
                            if k < old_dirs.len() {
                                assert(nd[k] == old_dirs[k]);
                                assert(tree_readmes_at(
                                    old_dirs[k],
                                    pre + file_name(old_dirs[k].path@) + "/"@,
                                ));
                            } else {
                                assert(nd[k] == child2);
                                assert(child2.path@ == child.path@);
                                assert(pre + file_name(child2.path@) + "/"@ =~= pre2);
                            }
                        }
                    }
                }
                d2
            }
        },
    }
}

/// No two of the walked files share a path: what any directory walk
/// yields, since file names are unique within a folder.
pub open spec fn paths_distinct(files: Seq<SourceFile>) -> bool {
    forall|i: int, j: int|
        0 <= i < j < files.len() ==> (#[trigger] files[i]).path@ != (#[trigger] files[j]).path@
}

/// The frontmatter section of this text reads as a map of strings (or is
/// absent), so ingestion accepts the document.
pub open spec fn fm_ok(raw: Seq<char>) -> bool {
    spec_end_pos(raw) == 0 || yaml_string_map_of(spec_section(raw)) is Some
}

/// The id the `i`-th ingested document gets when numbering starts at
/// `start`: consecutive ids in walk order, held at the top of the range
/// rather than wrapped in the (practically unreachable) case that the
/// range is exhausted.
pub open spec fn nth_id(start: u32, i: int) -> u32 {
    if start + i <= u32::MAX {
        (start + i) as u32
    } else {
        u32::MAX
    }
}

/// Builds the document tree from the walked source files: each file's
/// document is inserted at the place its relative path puts it. Fails
/// exactly when some file's frontmatter section is not a map of strings.
/// When the walked paths are distinct, no directory of the result holds
/// more than one index document.
pub fn build_tree(files: Vec<SourceFile>, config: &Config, start_id: u32) -> (r: Result<
    (Directory, u32),
    Error,
>)
    ensures
        (r is Ok <==> forall|i: int| 0 <= i < files@.len() ==> fm_ok(#[trigger] files@[i].raw@)),
        r matches Ok(t) ==> {
            &&& t.0.path@ == config.docs_dir@
            &&& forall|i: int|
                0 <= i < files@.len() ==> tree_has(
                    t.0,
                    #[trigger] files@[i],
                    config.base_path@,
                    nth_id(start_id, i),
                )
            &&& t.1 == nth_id(start_id, files@.len() as int)
            &&& paths_distinct(files@) ==> crate::document::tree_at_most_one_index(t.0)
        },
{
    let mut root = Directory { path: config.docs_dir.clone(), docs: Vec::new(), dirs: Vec::new() };
    let mut id = start_id;
    let mut rest = files;
    let ghost all = rest@;
    let ghost total = all.len() as int;
    proof {
        assert(all.skip(0) =~= all);
        assert(crate::document::index_count(root.docs@) == 0);
        assert(tree_readmes_at(root, Seq::<char>::empty()));
    }
    while rest.len() > 0
        invariant
            all == files@,
            all.len() == total,
            rest@.len() <= total,
            rest@ =~= all.skip(total - rest@.len()),
            root.path@ == config.docs_dir@,
            id == nth_id(start_id, total - rest@.len()),
            forall|i: int|
                0 <= i < total - rest@.len() ==> fm_ok((#[trigger] all[i]).raw@) && tree_has(
                    root,
                    all[i],
                    config.base_path@,
                    nth_id(start_id, i),
                ),
            paths_distinct(all) ==> tree_readmes_at(root, Seq::<char>::empty()),
            forall|p: Seq<char>|
                #[trigger] tree_has_path(root, p) <==> exists|i: int|
                    0 <= i < total - rest@.len() && (#[trigger] all[i]).path@ == p,
        decreases rest@.len(),
    {
        let ghost k = total - rest@.len();
        let ghost before = root;
        let ghost rest_before = rest@;
        let f = rest.remove(0);
        proof {
            assert(0 <= k < total);
            assert(rest_before[0] == all.skip(k)[0]);
            assert(f == all[k]);
            assert(rest@ =~= rest_before.remove(0));
            assert(rest@ =~= all.skip(k + 1));
        }
        let SourceFile { path, raw, markdown } = f;
        let fm = match parse(raw.as_str()) {
            Ok(fm) => fm,
            Err(e) => {
                proof {
                    assert(all == files@);
                    assert(!fm_ok(files@[k].raw@));
                }
                return Err(e);
            },
        };
        let doc = Document::new(
            path.as_str(),
            raw,
            fm,
            config.base_path.as_str(),
            markdown,
            id,
        );
        id = if id == u32::MAX {
            id
        } else {
            id + 1
        };
        root = insert_doc(root, path.as_str(), doc);
        proof {
            assert(doc_matches(doc, all[k], config.base_path@, nth_id(start_id, k)));
            assert(tree_has(root, all[k], config.base_path@, nth_id(start_id, k)));
            assert(fm_ok(all[k].raw@));
            assert(id == nth_id(start_id, k + 1));
            assert forall|i: int| 0 <= i < k implies fm_ok((#[trigger] all[i]).raw@) && tree_has(
                root,
                all[i],
                config.base_path@,
                nth_id(start_id, i),
            ) by {
                assert(fm_ok(all[i].raw@) && tree_has(
                    before,
                    all[i],
                    config.base_path@,
                    nth_id(start_id, i),
                ));
            }
            assert(doc.spec_path() == all[k].path@);
            if paths_distinct(all) {
                assert(!tree_has_path(before, doc.spec_path())) by {
                    if tree_has_path(before, doc.spec_path()) {
                        let w = choose|i: int|
                            0 <= i < k && (#[trigger] all[i]).path@ == doc.spec_path();
                        assert(all[w].path@ == all[k].path@);
                        assert(false);
                    }
                }
                assert(doc.spec_path() =~= Seq::<char>::empty() + path@);
                assert(tree_readmes_at(root, Seq::<char>::empty()));
            }
            assert forall|p: Seq<char>| #[trigger] tree_has_path(root, p) <==> (exists|i: int|
                0 <= i < k + 1 && (#[trigger] all[i]).path@ == p) by {
                assert(tree_has_path(root, p) <==> (tree_has_path(before, p) || doc.spec_path()
                    == p));
                if tree_has_path(before, p) {
                    let w = choose|i: int| 0 <= i < k && (#[trigger] all[i]).path@ == p;
                    assert(all[w].path@ == p);
                }
                if doc.spec_path() == p {
                    assert(all[k].path@ == p);
                }
                if exists|i: int| 0 <= i < k + 1 && (#[trigger] all[i]).path@ == p {
                    let w = choose|i: int| 0 <= i < k + 1 && (#[trigger] all[i]).path@ == p;
                    if w < k {
                        assert(tree_has_path(before, p));
                    }
                }
            }
        }
    }
    proof {
        assert(forall|i: int|
            0 <= i < files@.len() ==> fm_ok((#[trigger] files@[i]).raw@) && tree_has(
                root,
                files@[i],
                config.base_path@,
                nth_id(start_id, i),
            ));
        if paths_distinct(files@) {
            lemma_readmes_at_most_one(root, Seq::<char>::empty());
        }
    }
    Ok((root, id))
}

/// `l` is a list entry pointing at the page titled `t` under the URI `u`.
pub open spec fn md_link_for(l: MdLink, t: Seq<char>, u: Seq<char>) -> bool {
    l.title@ == t && (match l.url {
        UrlType::Local(p) => p@ == u,
        UrlType::Remote(_) => false,
    })
}

/// One child entry of an auto-generated index page: a title and a URI.
pub open spec fn index_entry_line(t: Seq<char>, u: Seq<char>) -> Seq<char> {
    "* ["@ + t + "]("@ + u + ")"@
}

/// One list item of an auto-generated index page's HTML.
pub open spec fn index_entry_item(t: Seq<char>, u: Seq<char>) -> Seq<char> {
    "<li><a href=\""@ + u + "\">"@ + t + "</a></li>\n"@
}

/// The (title, URI) entries of the direct documents, in order.
pub open spec fn doc_entries(docs: Seq<Document>) -> Seq<(Seq<char>, Seq<char>)>
    decreases docs.len(),
{
    if docs.len() == 0 {
        Seq::<(Seq<char>, Seq<char>)>::empty()
    } else {
        doc_entries(docs.subrange(0, docs.len() - 1)).push(
            (docs.last().spec_title(), docs.last().spec_uri()),
        )
    }
}

/// The (title, URI) entries of the subdirectories, each through its index
/// document, in order.
pub open spec fn dir_entries(dirs: Seq<Directory>) -> Seq<(Seq<char>, Seq<char>)>
    decreases dirs.len(),
{
    if dirs.len() == 0 {
        Seq::<(Seq<char>, Seq<char>)>::empty()
    } else {
        dir_entries(dirs.subrange(0, dirs.len() - 1)).push(
            (
                first_index(dirs.last().docs@).spec_title(),
                first_index(dirs.last().docs@).spec_uri(),
            ),
        )
    }
}

/// A document list yields one entry per document.
proof fn lemma_doc_entries_len(docs: Seq<Document>)
    ensures
        doc_entries(docs).len() == docs.len(),
    decreases docs.len(),
{
    if docs.len() > 0 {
        lemma_doc_entries_len(docs.subrange(0, docs.len() - 1));
    }
}

/// The newline-joined bullet lines of the entries.
pub open spec fn index_lines(entries: Seq<(Seq<char>, Seq<char>)>) -> Seq<char>
    decreases entries.len(),
{
    if entries.len() == 0 {
        Seq::<char>::empty()
    } else if entries.len() == 1 {
        index_entry_line(entries[0].0, entries[0].1)
    } else {
        index_lines(entries.subrange(0, entries.len() - 1)) + "\n"@ + index_entry_line(
            entries.last().0,
            entries.last().1,
        )
    }
}

/// The concatenated HTML list items of the entries.
pub open spec fn index_items(entries: Seq<(Seq<char>, Seq<char>)>) -> Seq<char>
    decreases entries.len(),
{
    if entries.len() == 0 {
        Seq::<char>::empty()
    } else {
        index_items(entries.subrange(0, entries.len() - 1)) + index_entry_item(
            entries.last().0,
            entries.last().1,
        )
    }
}

/// The full text of an auto-generated index page.
pub open spec fn synth_index_raw(name: Seq<char>, shown: Seq<char>, lines: Seq<char>) -> Seq<
    char,
> {
    "# Index of "@ + name
        + "\n \n This page was generated automatically by Doctave, because the directory `"@
        + shown
        + "` did not contain an index `README.md` file. You can customize this page by creating one yourself.\n## Pages\n\n"@
        + lines
}

/// The HTML of an auto-generated index page.
pub open spec fn synth_index_html(name: Seq<char>, items: Seq<char>) -> Seq<char> {
    "<h1>Index of "@ + name + "</h1>\n<ul>\n"@ + items + "</ul>\n"@
}

/// A directory's path taken relative to `root` when it lies under it:
/// what the auto-generated page shows (relative to the project root) and
/// where the synthesized index is filed (relative to the docs root).
pub open spec fn spec_dir_below(root: Seq<char>, p: Seq<char>) -> Seq<char> {
    if crate::strutil::is_prefix_of(root, p) {
        crate::paths::trim_leading_slashes(p.skip(root.len() as int))
    } else {
        p
    }
}

/// The docs-relative source path a synthesized index document is filed
/// under: `README.md` inside the directory's docs-relative path.
pub open spec fn spec_index_rel_path(docs_dir: Seq<char>, p: Seq<char>) -> Seq<char> {
    let rel = spec_dir_below(docs_dir, p);
    if rel.len() == 0 {
        "README.md"@
    } else {
        rel + "/README.md"@
    }
}

/// Synthesizes the index document of a directory that has none: titled
/// after the directory, bodied by a bullet list of links to the
/// directory's direct children (its documents, and each subdirectory
/// through that subdirectory's own index), and marked as auto-generated.
/// The page carries its rendering directly: one local link per child.
fn make_index_doc(
    dir_path: &str,
    docs: &Vec<Document>,
    dirs: &Vec<Directory>,
    config: &Config,
    id: u32,
) -> (r: Document)
    requires
        forall|j: int| 0 <= j < dirs@.len() ==> has_index((#[trigger] dirs@[j]).docs@),
    ensures
        r.is_index(),
        r.spec_base() == config.base_path@,
        r.spec_title() == file_name(dir_path@),
        r.spec_markdown().links@.len() == docs@.len() + dirs@.len(),
        forall|i: int|
            0 <= i < docs@.len() ==> md_link_for(
                #[trigger] r.spec_markdown().links@[i],
                docs@[i].spec_title(),
                docs@[i].spec_uri(),
            ),
        forall|j: int|
            0 <= j < dirs@.len() ==> md_link_for(
                #[trigger] r.spec_markdown().links@[docs@.len() + j],
                first_index(dirs@[j].docs@).spec_title(),
                first_index(dirs@[j].docs@).spec_uri(),
            ),
        r.spec_path() == spec_index_rel_path(config.docs_dir@, dir_path@),
        r.spec_raw() == synth_index_raw(
            file_name(dir_path@),
            spec_dir_below(config.project_root@, dir_path@),
            index_lines(doc_entries(docs@) + dir_entries(dirs@)),
        ),
        r.spec_markdown().as_html@ == synth_index_html(
            file_name(dir_path@),
            index_items(doc_entries(docs@) + dir_entries(dirs@)),
        ),
{
    proof {
        reveal_strlit("README.md");
        reveal_strlit("/README.md");
        reveal_strlit("title");
    }
    let dlen = dir_path.unicode_len();
    let fs = find_file_name_start(dir_path);
    proof {
        lemma_file_name_start_props(dir_path@);
    }
    let name = substring(dir_path, fs, dlen);
    proof {
        assert(name@ =~= file_name(dir_path@));
    }
    let docs_dir = config.docs_dir.as_str();
    let rel_dir: String = if starts_with(dir_path, docs_dir) {
        let stripped = substring(dir_path, docs_dir.unicode_len(), dlen);
        crate::paths::trim_slashes(stripped.as_str()).to_owned()
    } else {
        dir_path.to_owned()
    };
    proof {
        assert(rel_dir@ == spec_dir_below(config.docs_dir@, dir_path@));
    }
    let rel_index: String = if rel_dir.as_str().unicode_len() == 0 {
        "README.md".to_owned()
    } else {
        concat2(rel_dir.as_str(), "/README.md")
    };
    proof {
        assert(rel_index@ == spec_index_rel_path(config.docs_dir@, dir_path@));
        let ri = rel_index@;
        if rel_dir@.len() == 0 {
            assert(forall|j: int| 0 <= j < ri.len() ==> ri[j] != '/');
            crate::paths::lemma_file_name_start_at(ri, 0);
            assert(ri.skip(0) =~= "README.md"@);
        } else {
            let n = rel_dir@.len() as int;
            assert(ri[n] == '/');
            assert(forall|j: int| n + 1 <= j < ri.len() ==> ri[j] != '/');
            crate::paths::lemma_file_name_start_at(ri, n + 1);
            assert(ri.skip(n + 1) =~= "README.md"@);
        }
    }
    let shown: String = if starts_with(dir_path, config.project_root.as_str()) {
        let stripped = substring(dir_path, config.project_root.as_str().unicode_len(), dlen);
        crate::paths::trim_slashes(stripped.as_str()).to_owned()
    } else {
        dir_path.to_owned()
    };
    let mut lines = String::new();
    let mut items = String::new();
    let mut links: Vec<MdLink> = Vec::new();
    let nd = docs.len();
    proof {
        assert(docs@.take(0) =~= Seq::<Document>::empty());
    }
    let mut i: usize = 0;
    while i < nd
        invariant
            nd == docs@.len(),
            0 <= i <= nd,
            links@.len() == i,
            forall|k: int|
                0 <= k < i ==> md_link_for(
                    #[trigger] links@[k],
                    docs@[k].spec_title(),
                    docs@[k].spec_uri(),
                ),
            lines@ == index_lines(doc_entries(docs@.take(i as int))),
            items@ == index_items(doc_entries(docs@.take(i as int))),
        decreases nd - i,
    {
        let ghost pre = docs@.take(i as int);
        let ghost pre1 = docs@.take(i as int + 1);
        proof {
            assert(pre1.subrange(0, pre1.len() - 1) =~= pre);
            assert(pre1.last() == docs@[i as int]);
            assert(doc_entries(pre1) == doc_entries(pre).push(
                (docs@[i as int].spec_title(), docs@[i as int].spec_uri()),
            ));
            assert(doc_entries(pre1).subrange(0, doc_entries(pre1).len() - 1) =~= doc_entries(
                pre,
            ));
        }
        let t = docs[i].title();
        let u = docs[i].uri_path();
        let line = make_list_line(t.as_str(), u.as_str());
        if i > 0 {
            lines.append("\n");
        }
        lines.append(line.as_str());
        let item = make_list_item(t.as_str(), u.as_str());
        items.append(item.as_str());
        links.push(MdLink { title: t, url: UrlType::Local(u) });
        proof {
            assert(lines@ =~= index_lines(doc_entries(pre1)));
            assert(items@ =~= index_items(doc_entries(pre1)));
        }
        i = i + 1;
    }
    let ghost all_doc_entries = doc_entries(docs@);
    proof {
        lemma_doc_entries_len(docs@);
        assert(docs@.take(nd as int) =~= docs@);
        assert(dirs@.take(0) =~= Seq::<Directory>::empty());
        assert(all_doc_entries + dir_entries(dirs@.take(0)) =~= all_doc_entries);
    }
    let ns = dirs.len();
    let mut j: usize = 0;
    while j < ns
        invariant
            nd == docs@.len(),
            ns == dirs@.len(),
            forall|k: int| 0 <= k < ns ==> has_index((#[trigger] dirs@[k]).docs@),
            0 <= j <= ns,
            links@.len() == nd + j,
            forall|k: int|
                0 <= k < nd ==> md_link_for(
                    #[trigger] links@[k],
                    docs@[k].spec_title(),
                    docs@[k].spec_uri(),
                ),
            forall|k: int|
                0 <= k < j ==> md_link_for(
                    #[trigger] links@[nd + k],
                    first_index(dirs@[k].docs@).spec_title(),
                    first_index(dirs@[k].docs@).spec_uri(),
                ),
            all_doc_entries == doc_entries(docs@),
            all_doc_entries.len() == nd,
            lines@ == index_lines(all_doc_entries + dir_entries(dirs@.take(j as int))),
            items@ == index_items(all_doc_entries + dir_entries(dirs@.take(j as int))),
        decreases ns - j,
    {
        let ghost pre = dirs@.take(j as int);
        let ghost pre1 = dirs@.take(j as int + 1);
        let ghost combined = all_doc_entries + dir_entries(pre);
        let ghost entry = (
            first_index(dirs@[j as int].docs@).spec_title(),
            first_index(dirs@[j as int].docs@).spec_uri(),
        );
        proof {
            assert(pre1.subrange(0, pre1.len() - 1) =~= pre);
            assert(pre1.last() == dirs@[j as int]);
            assert(dir_entries(pre1) == dir_entries(pre).push(entry));
            assert(all_doc_entries + dir_entries(pre1) =~= combined.push(entry));
            assert(combined.push(entry).subrange(0, combined.push(entry).len() - 1)
                =~= combined);
            assert(combined.push(entry).last() == entry);
        }
        let idx = dirs[j].index();
        let t = idx.title();
        let u = idx.uri_path();
        let line = make_list_line(t.as_str(), u.as_str());
        if nd > 0 || j > 0 {
            lines.append("\n");
        }
        lines.append(line.as_str());
        let item = make_list_item(t.as_str(), u.as_str());
        items.append(item.as_str());
        links.push(MdLink { title: t, url: UrlType::Local(u) });
        proof {
            assert(lines@ =~= index_lines(all_doc_entries + dir_entries(pre1)));
            assert(items@ =~= index_items(all_doc_entries + dir_entries(pre1)));
        }
        j = j + 1;
    }
    proof {
        assert(dirs@.take(ns as int) =~= dirs@);
    }
    let mut raw = "# Index of ".to_owned();
    raw.append(name.as_str());
    raw.append("\n \n This page was generated automatically by Doctave, because the directory `");
    raw.append(shown.as_str());
    raw.append(
        "` did not contain an index `README.md` file. You can customize this page by creating one yourself.\n## Pages\n\n",
    );
    raw.append(lines.as_str());
    let mut html = "<h1>Index of ".to_owned();
    html.append(name.as_str());
    html.append("</h1>\n<ul>\n");
    html.append(items.as_str());
    html.append("</ul>\n");
    let mut fm = Frontmatter::new();
    fm.insert("title".to_owned(), name.clone());
    proof {
        assert(shown@ == spec_dir_below(config.project_root@, dir_path@));
        assert(raw@ =~= synth_index_raw(
            file_name(dir_path@),
            spec_dir_below(config.project_root@, dir_path@),
            index_lines(doc_entries(docs@) + dir_entries(dirs@)),
        ));
        assert(html@ =~= synth_index_html(
            file_name(dir_path@),
            index_items(doc_entries(docs@) + dir_entries(dirs@)),
        ));
    }
    let md = Markdown { as_html: html, headings: Vec::new(), links };
    let doc = Document::new(rel_index.as_str(), raw, fm, config.base_path.as_str(), md, id);
    proof {
        assert(fm_lookup(doc.spec_fm(), "title"@) == Some(name@)) by {
            assert(doc.spec_fm() =~= Seq::<(Seq<char>, Seq<char>)>::empty().push(
                ("title"@, name@),
            ));
            assert(doc.spec_fm().skip(1) =~= Seq::<(Seq<char>, Seq<char>)>::empty());
        }
    }
    doc
}

/// One bullet line of an auto-generated index page.
fn make_list_line(t: &str, u: &str) -> (r: String)
    ensures
        r@ == "* ["@ + t@ + "]("@ + u@ + ")"@,
{
    let mut r = "* [".to_owned();
    r.append(t);
    r.append("](");
    r.append(u);
    r.append(")");
    r
}

/// One list item of an auto-generated index page's HTML.
fn make_list_item(t: &str, u: &str) -> (r: String)
    ensures
        r@ == "<li><a href=\""@ + u@ + "\">"@ + t@ + "</a></li>\n"@,
{
    let mut r = "<li><a href=\"".to_owned();
    r.append(u);
    r.append("\">");
    r.append(t);
    r.append("</a></li>\n");
    r
}

/// What index generation does to one directory: the path stays; the
/// documents stay as they were, with exactly one synthesized index
/// appended when none was there (titled after the directory, under the
/// configured base path); and each subdirectory is treated the same way,
/// in place.
pub open spec fn indices_added(o: Directory, n: Directory, cfg: Config) -> bool
    decreases o, 1int,
{
    &&& n.path@ == o.path@
    &&& (has_index(o.docs@) ==> n.docs@ == o.docs@)
    &&& (!has_index(o.docs@) ==> {
        &&& n.docs@.len() == o.docs@.len() + 1
        &&& n.docs@.take(o.docs@.len() as int) == o.docs@
        &&& n.docs@.last().is_index()
        &&& n.docs@.last().spec_base() == cfg.base_path@
        &&& n.docs@.last().spec_title() == file_name(o.path@)
        &&& n.docs@.last().spec_path() == spec_index_rel_path(cfg.docs_dir@, o.path@)
        &&& n.docs@.last().spec_raw() == synth_index_raw(
            file_name(o.path@),
            spec_dir_below(cfg.project_root@, o.path@),
            index_lines(doc_entries(o.docs@) + dir_entries(n.dirs@)),
        )
    })
    &&& n.dirs@.len() == o.dirs@.len()
    &&& dirs_indices_added(o.dirs@, n.dirs@, cfg)
}

/// As `indices_added`, element by element over two directory lists.
pub open spec fn dirs_indices_added(os: Seq<Directory>, ns: Seq<Directory>, cfg: Config) -> bool
    decreases os, 0int,
{
    if os.len() == 0 || ns.len() == 0 {
        os.len() == ns.len()
    } else {
        indices_added(os[0], ns[0], cfg) && dirs_indices_added(
            os.subrange(1, os.len() as int),
            ns.subrange(1, ns.len() as int),
            cfg,
        )
    }
}

/// `dirs_indices_added` holds exactly when it holds of each pair.
proof fn lemma_dirs_indices_added(os: Seq<Directory>, ns: Seq<Directory>, cfg: Config)
    requires
        os.len() == ns.len(),
    ensures
        dirs_indices_added(os, ns, cfg) <==> (forall|j: int|
            0 <= j < os.len() ==> indices_added(#[trigger] os[j], ns[j], cfg)),
    decreases os.len(),
{
    if os.len() > 0 {
        let ot = os.subrange(1, os.len() as int);
        let nt = ns.subrange(1, ns.len() as int);
        lemma_dirs_indices_added(ot, nt, cfg);
        assert(forall|j: int| 0 <= j < ot.len() ==> #[trigger] ot[j] == os[j + 1]);
        assert(forall|j: int| 0 <= j < nt.len() ==> #[trigger] nt[j] == ns[j + 1]);
        if dirs_indices_added(os, ns, cfg) {
            assert forall|j: int| 0 <= j < os.len() implies indices_added(
                #[trigger] os[j],
                ns[j],
                cfg,
            ) by {
                if j > 0 {
                    assert(ot[j - 1] == os[j] && nt[j - 1] == ns[j]);
                    assert(indices_added(ot[j - 1], nt[j - 1], cfg));
                }
            }
        } else {
            if forall|j: int| 0 <= j < os.len() ==> indices_added(#[trigger] os[j], ns[j], cfg) {
                assert forall|j: int| 0 <= j < ot.len() implies indices_added(
                    #[trigger] ot[j],
                    nt[j],
                    cfg,
                ) by {
                    assert(ot[j] == os[j + 1]);
                    assert(indices_added(os[j + 1], ns[j + 1], cfg));
                }
                assert(indices_added(os[0], ns[0], cfg));
                assert(false);
            }
        }
    }
}

/// Walks the tree bottom-up and synthesizes an index document for every
/// directory that lacks one, so that afterwards every directory of the
/// tree has an index (the auto-index invariant). Everything the tree held
/// stays in it, and nothing else changes (see `indices_added`). Returns
/// the tree and the next unused document id.
pub fn generate_missing_indices(dir: Directory, config: &Config, counter: u32) -> (r: (
    Directory,
    u32,
))
    ensures
        tree_indexed(r.0),
        r.0.path@ == dir.path@,
        tree_covers(dir, r.0),
        indices_added(dir, r.0, *config),
        tree_at_most_one_index(dir) ==> tree_uniquely_indexed(r.0),
    decreases dir,
{
    let ghost old_dirs = dir.dirs@;
    let ghost old_docs = dir.docs@;
    let Directory { path, docs, dirs } = dir;
    let mut pending = dirs;
    let mut new_dirs: Vec<Directory> = Vec::new();
    let mut c = counter;
    let ghost total = old_dirs.len() as int;
    proof {
        assert(old_dirs.skip(0) =~= old_dirs);
    }
    while pending.len() > 0
        invariant
            old_dirs == dir.dirs@,
            old_dirs.len() == total,
            pending@.len() <= total,
            pending@ =~= old_dirs.skip(total - pending@.len()),
            new_dirs@.len() == total - pending@.len(),
            forall|j: int|
                0 <= j < new_dirs@.len() ==> tree_indexed(#[trigger] new_dirs@[j]) && tree_covers(
                    old_dirs[j],
                    new_dirs@[j],
                ) && indices_added(old_dirs[j], new_dirs@[j], *config) && (tree_at_most_one_index(
                    old_dirs[j],
                ) ==> tree_uniquely_indexed(new_dirs@[j])),
        decreases pending@.len(),
    {
        let ghost k = total - pending@.len();
        let ghost pending_before = pending@;
        let sub = pending.remove(0);
        proof {
            assert(pending_before[0] == old_dirs.skip(k)[0]);
            assert(sub == old_dirs[k]);
            assert(pending@ =~= pending_before.remove(0));
            assert(pending@ =~= old_dirs.skip(k + 1));
            assert(decreases_to!(dir => dir.dirs));
            assert(decreases_to!(dir.dirs => dir.dirs@));
            assert(decreases_to!(dir.dirs@ => dir.dirs@[k]));
            assert(decreases_to!(dir => sub));
        }
        proof {
            if tree_at_most_one_index(dir) {
                lemma_dirs_index_bounds(dir.dirs@);
            }
        }
        let (sub2, c2) = generate_missing_indices(sub, config, c);
        c = c2;
        new_dirs.push(sub2);
    }
    let nd = docs.len();
    let mut found_idx = false;
    let mut i: usize = 0;
    while i < nd && !found_idx
        invariant
            nd == docs@.len(),
            0 <= i <= nd,
            found_idx ==> i < nd && docs@[i as int].is_index(),
            !found_idx ==> forall|k: int| 0 <= k < i ==> !(#[trigger] docs@[k]).is_index(),
        decreases nd - i + (if found_idx {
            0int
        } else {
            1int
        }),
    {
        if docs[i].is_index_doc() {
            found_idx = true;
        } else {
            i = i + 1;
        }
    }
    let mut new_docs = docs;
    if !found_idx {
        proof {
            lemma_dirs_indexed_elementwise(new_dirs@);
        }
        let synth = make_index_doc(path.as_str(), &new_docs, &new_dirs, config, c);
        c = if c == u32::MAX {
            c
        } else {
            c + 1
        };
        new_docs.push(synth);
    }
    let ghost ndirs = new_dirs@;
    let ghost ndocs = new_docs@;
    let r = Directory { path, docs: new_docs, dirs: new_dirs };
    proof {
        assert(has_index(ndocs)) by {
            if found_idx {
                assert(ndocs[i as int].is_index());
            } else {
                assert(ndocs[ndocs.len() - 1].is_index());
            }
        }
        assert(dirs_indexed(ndirs)) by {
            crate::document::lemma_dirs_indexed(ndirs);
        }
        assert(tree_indexed(r));
        if tree_at_most_one_index(dir) {
            assert(tree_uniquely_indexed(r)) by {
                lemma_dirs_index_bounds(dir.dirs@);
                lemma_dirs_index_bounds(ndirs);
                lemma_index_count(old_docs);
                lemma_index_count(ndocs);
                if found_idx {
                    assert(ndocs == old_docs);
                    assert(crate::document::index_count(ndocs) == 1);
                } else {
                    assert(crate::document::index_count(old_docs) == 0);
                    assert(ndocs.drop_last() =~= old_docs);
                    assert(crate::document::index_count(ndocs) == 1);
                }
            }
        }
        assert(indices_added(dir, r, *config)) by {
            lemma_dirs_indices_added(old_dirs, ndirs, *config);
            if !found_idx {
                assert(ndocs.take(old_docs.len() as int) =~= old_docs);
            }
        }
        assert forall|f: SourceFile, base: Seq<char>, did: u32|
            tree_has(dir, f, base, did) implies #[trigger] tree_has(r, f, base, did) by {
            if docs_have(old_docs, f, base, did) {
                if !found_idx {
                    lemma_docs_have_push(old_docs, ndocs[ndocs.len() - 1], f, base, did);
                }
                assert(docs_have(ndocs, f, base, did));
            } else {
                lemma_dirs_have(old_dirs, f, base, did);
                let w = choose|j: int|
                    0 <= j < old_dirs.len() && tree_has(#[trigger] old_dirs[j], f, base, did);
                assert(tree_covers(old_dirs[w], ndirs[w]));
                assert(tree_has(ndirs[w], f, base, did));
                lemma_dirs_have(ndirs, f, base, did);
            }
        }
    }
    (r, c)
}

/// Bridges the loop's elementwise facts to `has_index` of each element.
proof fn lemma_dirs_indexed_elementwise(s: Seq<Directory>)
    requires
        forall|j: int| 0 <= j < s.len() ==> tree_indexed(#[trigger] s[j]),
    ensures
        forall|j: int| 0 <= j < s.len() ==> has_index((#[trigger] s[j]).docs@),
{
}

/// Loads the documentation tree from the walked source files: builds the
/// nested tree, then synthesizes the missing index documents. The result
/// holds every ingested file (ids assigned consecutively in walk order)
/// and is rooted at the configured docs directory; every directory of it
/// has an index document — exactly one, when the walked paths are
/// distinct, as a directory walk's always are. Fails exactly when some
/// file's frontmatter section is not a map of strings.
pub fn find(files: Vec<SourceFile>, config: &Config) -> (r: Result<Directory, Error>)
    ensures
        (r is Ok <==> forall|i: int| 0 <= i < files@.len() ==> fm_ok(#[trigger] files@[i].raw@)),
        r matches Ok(root) ==> {
            &&& tree_indexed(root)
            &&& root.path@ == config.docs_dir@
            &&& forall|i: int|
                0 <= i < files@.len() ==> tree_has(
                    root,
                    #[trigger] files@[i],
                    config.base_path@,
                    nth_id(1, i),
                )
            &&& paths_distinct(files@) ==> tree_uniquely_indexed(root)
        },
{
    match build_tree(files, config, 1) {
        Ok((tree, next_id)) => {
            let (root, _) = generate_missing_indices(tree, config, next_id);
            Ok(root)
        },
        Err(e) => Err(e),
    }
}

} // verus!
