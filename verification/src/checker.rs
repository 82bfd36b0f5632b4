//! The broken-link checker: walks the document tree and verifies that
//! every local outgoing link resolves against the just-built site, using
//! exactly the resolution rules the preview server serves by. All broken
//! links are collected and reported in one pass.

use crate::document::{Directory, Document};
use crate::error::{Error, ErrorKind};
use crate::markdown::{MdLink, UrlType};
use crate::resolve::{resolve_file, spec_resolve, spec_status};
use crate::site::{Site, SiteBackend};
use vstd::prelude::*;

verus! {

/// A link the checker accepts: remote links are not checked; a local link
/// must resolve to an artifact.
pub open spec fn link_ok(m: Map<Seq<char>, Seq<u8>>, base: Seq<char>, l: MdLink) -> bool {
    match l.url {
        UrlType::Remote(_) => true,
        UrlType::Local(p) => spec_resolve(m, base, p@) is Some,
    }
}

/// The broken links among `links`, each paired with the source document's
/// path, in order.
pub open spec fn broken_in_links(
    p: Seq<char>,
    links: Seq<MdLink>,
    m: Map<Seq<char>, Seq<u8>>,
    base: Seq<char>,
) -> Seq<(Seq<char>, MdLink)>
    decreases links.len(),
{
    if links.len() == 0 {
        Seq::<(Seq<char>, MdLink)>::empty()
    } else {
        let pre = broken_in_links(p, links.drop_last(), m, base);
        if link_ok(m, base, links.last()) {
            pre
        } else {
            pre.push((p, links.last()))
        }
    }
}

/// The broken links of a document list, in document order.
pub open spec fn broken_in_docs(
    docs: Seq<Document>,
    m: Map<Seq<char>, Seq<u8>>,
    base: Seq<char>,
) -> Seq<(Seq<char>, MdLink)>
    decreases docs.len(),
{
    if docs.len() == 0 {
        Seq::<(Seq<char>, MdLink)>::empty()
    } else {
        broken_in_docs(docs.drop_last(), m, base) + broken_in_links(
            docs.last().spec_path(),
            docs.last().spec_markdown().links@,
            m,
            base,
        )
    }
}

/// The broken links of a directory list, in order.
pub open spec fn broken_in_dirs(
    dirs: Seq<Directory>,
    m: Map<Seq<char>, Seq<u8>>,
    base: Seq<char>,
) -> Seq<(Seq<char>, MdLink)>
    decreases dirs, 0int,
{
    if dirs.len() == 0 {
        Seq::<(Seq<char>, MdLink)>::empty()
    } else {
        broken_in_dirs(dirs.drop_last(), m, base) + broken_in_tree(dirs.last(), m, base)
    }
}

/// Every broken link of the tree, depth-first: first this directory's
/// documents, then its subdirectories.
pub open spec fn broken_in_tree(
    dir: Directory,
    m: Map<Seq<char>, Seq<u8>>,
    base: Seq<char>,
) -> Seq<(Seq<char>, MdLink)>
    decreases dir, 1int,
{
    broken_in_docs(dir.docs@, m, base) + broken_in_dirs(dir.dirs@, m, base)
}

/// The collected pairs correspond to the spec list, element by element.
pub open spec fn broken_list_matches(
    v: Seq<(String, MdLink)>,
    s: Seq<(Seq<char>, MdLink)>,
) -> bool {
    v.len() == s.len() && forall|i: int|
        0 <= i < v.len() ==> (#[trigger] v[i]).0@ == s[i].0 && v[i].1 == s[i].1
}

/// Collects the broken links of one document's outgoing links.
fn find_broken_in_doc<B: SiteBackend>(
    doc: &Document,
    site: &Site<B>,
    base_path: &str,
    broken: &mut Vec<(String, MdLink)>,
)
    requires
        base_path@ == site.config.base_path@,
    ensures
        final(broken)@.len() == old(broken)@.len() + broken_in_links(
            doc.spec_path(),
            doc.spec_markdown().links@,
            site.backend.artifacts(),
            base_path@,
        ).len(),
        final(broken)@.take(old(broken)@.len() as int) == old(broken)@,
        forall|i: int|
            old(broken)@.len() <= i < final(broken)@.len() ==> {
                let s = broken_in_links(
                    doc.spec_path(),
                    doc.spec_markdown().links@,
                    site.backend.artifacts(),
                    base_path@,
                );
                (#[trigger] final(broken)@[i]).0@ == s[i - old(broken)@.len()].0
                    && final(broken)@[i].1 == s[i - old(broken)@.len()].1
            },
{
    let ghost m = site.backend.artifacts();
    let ghost p = doc.spec_path();
    let ghost base = base_path@;
    let ghost start = broken@.len() as int;
    let links = doc.outgoing_links();
    let n = links.len();
    let ghost lv = links@;
    proof {
        assert(broken@.take(start) =~= broken@);
        assert(lv.take(0) =~= Seq::<MdLink>::empty());
    }
    let mut i: usize = 0;
    while i < n
        invariant
            n == lv.len(),
            lv == doc.spec_markdown().links@,
            m == site.backend.artifacts(),
            p == doc.spec_path(),
            base == base_path@ && base == site.config.base_path@,
            links@ == lv,
            0 <= i <= n,
            0 <= start <= broken@.len(),
            broken@.len() == start + broken_in_links(p, lv.take(i as int), m, base).len(),
            broken@.take(start) == old(broken)@,
            forall|k: int|
                start <= k < broken@.len() ==> {
                    let s = broken_in_links(p, lv.take(i as int), m, base);
                    (#[trigger] broken@[k]).0@ == s[k - start].0 && broken@[k].1 == s[k - start].1
                },
        decreases n - i,
    {
        let ghost pre = lv.take(i as int);
        let ghost pre1 = lv.take(i as int + 1);
        proof {
            assert(pre1.drop_last() =~= pre);
            assert(pre1.last() == lv[i as int]);
        }
        let link = &links[i];
        let is_broken: bool = match &link.url {
            UrlType::Remote(_) => false,
            UrlType::Local(target) => {
                let r = resolve_file(target.as_str(), site, base_path);
                match r {
                    Some(_) => false,
                    None => true,
                }
            },
        };
        let ghost before = broken@;
        if is_broken {
            broken.push((doc.original_path().clone(), link_copy(link)));
        }
        proof {
            let s_old = broken_in_links(p, pre, m, base);
            let s_new = broken_in_links(p, pre1, m, base);
            assert(is_broken == !link_ok(m, base, lv[i as int]));
            if is_broken {
                assert(s_new == s_old.push((p, lv[i as int])));
                assert(broken@ == before.push((broken@[broken@.len() - 1])));
                assert(broken@.take(start) =~= before.take(start));
            } else {
                assert(s_new == s_old);
            }
            assert forall|k: int| start <= k < broken@.len() implies ((#[trigger] broken@[k]).0@
                == s_new[k - start].0 && broken@[k].1 == s_new[k - start].1) by {
                if k < before.len() {
                    assert(broken@[k] == before[k]);
                    assert(s_new[k - start] == s_old[k - start]);
                } else {
                    assert(k == broken@.len() - 1);
                    assert(s_new[k - start] == (p, lv[i as int]));
                }
            }
        }
        i = i + 1;
    }
    proof {
        assert(lv.take(n as int) =~= lv);
    }
}

/// A value copy of one outgoing link.
fn link_copy(l: &MdLink) -> (r: MdLink)
    ensures
        r == *l,
{
    MdLink {
        title: l.title.clone(),
        url: (match &l.url {
            UrlType::Local(p) => UrlType::Local(p.clone()),
            UrlType::Remote(u) => UrlType::Remote(u.clone()),
        }),
    }
}

/// Collects the broken links of the whole tree, depth-first.
fn find_broken_links<B: SiteBackend>(
    dir: &Directory,
    site: &Site<B>,
    base_path: &str,
    broken: &mut Vec<(String, MdLink)>,
)
    requires
        base_path@ == site.config.base_path@,
    ensures
        final(broken)@.len() == old(broken)@.len() + broken_in_tree(
            *dir,
            site.backend.artifacts(),
            base_path@,
        ).len(),
        final(broken)@.take(old(broken)@.len() as int) == old(broken)@,
        forall|i: int|
            old(broken)@.len() <= i < final(broken)@.len() ==> {
                let s = broken_in_tree(*dir, site.backend.artifacts(), base_path@);
                (#[trigger] final(broken)@[i]).0@ == s[i - old(broken)@.len()].0
                    && final(broken)@[i].1 == s[i - old(broken)@.len()].1
            },
    decreases *dir,
{
    let ghost m = site.backend.artifacts();
    let ghost base = base_path@;
    let ghost start = broken@.len() as int;
    let nd = dir.docs.len();
    proof {
        assert(broken@.take(start) =~= broken@);
        assert(dir.docs@.take(0) =~= Seq::<Document>::empty());
    }
    let mut i: usize = 0;
    while i < nd
        invariant
            nd == dir.docs@.len(),
            m == site.backend.artifacts(),
            base == base_path@ && base == site.config.base_path@,
            0 <= i <= nd,
            0 <= start <= broken@.len(),
            broken@.len() == start + broken_in_docs(dir.docs@.take(i as int), m, base).len(),
            broken@.take(start) == old(broken)@,
            forall|k: int|
                start <= k < broken@.len() ==> {
                    let s = broken_in_docs(dir.docs@.take(i as int), m, base);
                    (#[trigger] broken@[k]).0@ == s[k - start].0 && broken@[k].1 == s[k - start].1
                },
        decreases nd - i,
    {
        let ghost pre = dir.docs@.take(i as int);
        let ghost pre1 = dir.docs@.take(i as int + 1);
        proof {
            assert(pre1.drop_last() =~= pre);
            assert(pre1.last() == dir.docs@[i as int]);
        }
        let ghost before = broken@;
        let ghost prev_len = broken@.len() as int;
        find_broken_in_doc(&dir.docs[i], site, base_path, broken);
        proof {
            let s_old = broken_in_docs(pre, m, base);
            let s_new = broken_in_docs(pre1, m, base);
            let part = broken_in_links(
                dir.docs@[i as int].spec_path(),
                dir.docs@[i as int].spec_markdown().links@,
                m,
                base,
            );
            assert(s_new == s_old + part);
            assert(broken@.take(prev_len) == before);
            assert(broken@.take(start) =~= broken@.take(prev_len).take(start));
            assert forall|k: int| start <= k < broken@.len() implies ((#[trigger] broken@[k]).0@
                == s_new[k - start].0 && broken@[k].1 == s_new[k - start].1) by {
                if k < prev_len {
                    assert(broken@[k] == broken@.take(prev_len)[k]);
                    assert(broken@[k] == before[k]);
                    assert(s_new[k - start] == s_old[k - start]);
                } else {
                    assert(s_new[k - start] == part[k - prev_len]);
                }
            }
        }
        i = i + 1;
    }
    proof {
        assert(dir.docs@.take(nd as int) =~= dir.docs@);
    }
    let ns = dir.dirs.len();
    let ghost doc_part = broken_in_docs(dir.docs@, m, base);
    proof {
        assert(dir.dirs@.take(0) =~= Seq::<Directory>::empty());
        assert(broken_in_dirs(dir.dirs@.take(0), m, base).len() == 0);
    }
    let mut j: usize = 0;
    while j < ns
        invariant
            ns == dir.dirs@.len(),
            m == site.backend.artifacts(),
            base == base_path@ && base == site.config.base_path@,
            0 <= j <= ns,
            0 <= start <= broken@.len(),
            doc_part == broken_in_docs(dir.docs@, m, base),
            broken@.len() == start + doc_part.len() + broken_in_dirs(
                dir.dirs@.take(j as int),
                m,
                base,
            ).len(),
            broken@.take(start) == old(broken)@,
            forall|k: int|
                start <= k < broken@.len() ==> {
                    let s = doc_part + broken_in_dirs(dir.dirs@.take(j as int), m, base);
                    (#[trigger] broken@[k]).0@ == s[k - start].0 && broken@[k].1 == s[k - start].1
                },
        decreases ns - j,
    {
        let ghost pre = dir.dirs@.take(j as int);
        let ghost pre1 = dir.dirs@.take(j as int + 1);
        proof {
            assert(pre1.drop_last() =~= pre);
            assert(pre1.last() == dir.dirs@[j as int]);
            assert(decreases_to!(dir.dirs@ => dir.dirs@[j as int]));
        }
        let ghost before = broken@;
        let ghost prev_len = broken@.len() as int;
        find_broken_links(&dir.dirs[j], site, base_path, broken);
        proof {
            let s_old = doc_part + broken_in_dirs(pre, m, base);
            let s_new = doc_part + broken_in_dirs(pre1, m, base);
            let part = broken_in_tree(dir.dirs@[j as int], m, base);
            assert(broken_in_dirs(pre1, m, base) == broken_in_dirs(pre, m, base) + part);
            assert(s_new =~= s_old + part);
            assert(broken@.take(prev_len) == before);
            assert(broken@.take(start) =~= broken@.take(prev_len).take(start));
            assert forall|k: int| start <= k < broken@.len() implies ((#[trigger] broken@[k]).0@
                == s_new[k - start].0 && broken@[k].1 == s_new[k - start].1) by {
                if k < prev_len {
                    assert(broken@[k] == broken@.take(prev_len)[k]);
                    assert(broken@[k] == before[k]);
                    assert(s_new[k - start] == s_old[k - start]);
                } else {
                    assert(s_new[k - start] == part[k - prev_len]);
                }
            }
        }
        j = j + 1;
    }
    proof {
        assert(dir.dirs@.take(ns as int) =~= dir.dirs@);
    }
}

/// Checks every local link of the site's documents against the site's
/// artifacts. Succeeds exactly when no link is broken; otherwise the
/// error carries every broken link, with its source document, in
/// depth-first order.
pub fn run<B: SiteBackend>(site: &Site<B>) -> (r: Result<(), Error>)
    ensures
        (r is Ok <==> broken_in_tree(
            site.backend.site_root(),
            site.backend.artifacts(),
            site.config.base_path@,
        ).len() == 0),
        (match r {
            Err(e) => match e.spec_kind() {
                ErrorKind::BrokenLinks(v) => broken_list_matches(
                    v@,
                    broken_in_tree(
                        site.backend.site_root(),
                        site.backend.artifacts(),
                        site.config.base_path@,
                    ),
                ),
                _ => false,
            },
            Ok(_) => true,
        }),
{
    let mut broken: Vec<(String, MdLink)> = Vec::new();
    let root = site.backend.root();
    find_broken_links(root, site, site.config.base_path.as_str(), &mut broken);
    if broken.len() == 0 {
        Ok(())
    } else {
        Err(Error::broken_links(broken))
    }
}

impl<B: SiteBackend> Site<B> {
    /// Checks every local link of the site against its artifacts (see
    /// `run`).
    pub fn check_dead_links(&self) -> (r: Result<(), Error>)
        ensures
            (r is Ok <==> broken_in_tree(
                self.backend.site_root(),
                self.backend.artifacts(),
                self.config.base_path@,
            ).len() == 0),
            (match r {
                Err(e) => match e.spec_kind() {
                    ErrorKind::BrokenLinks(v) => broken_list_matches(
                        v@,
                        broken_in_tree(
                            self.backend.site_root(),
                            self.backend.artifacts(),
                            self.config.base_path@,
                        ),
                    ),
                    _ => false,
                },
                Ok(_) => true,
            }),
    {
        run(self)
    }
}

/// What the checker accepts is what the server serves: a local link is
/// accepted by the checker exactly when the preview server's resolution
/// answers 200 for the same path, against the same site state.
pub proof fn lemma_serve_check_consistent(
    m: Map<Seq<char>, Seq<u8>>,
    base: Seq<char>,
    l: MdLink,
    p: String,
)
    requires
        l.url == UrlType::Local(p),
    ensures
        link_ok(m, base, l) <==> spec_status(m, base, p@) == 200,
{
}

} // verus!
