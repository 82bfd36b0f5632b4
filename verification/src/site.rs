//! The site surface: which mode it is built in, the storage contract that
//! build, serve and check code share, and the in-memory backend. All
//! callers are written against the backend contract alone, so the build,
//! serve and check steps behave identically whatever the storage is.

use crate::config::Config;
use crate::document::Directory;
use crate::paths::trim_leading_slashes;
use crate::strutil::{is_prefix_of, str_eq, substring};
use vstd::prelude::*;

verus! {

/// The mode a site is built in: development builds carry the live-reload
/// machinery, release builds do not.
#[derive(Debug, Clone, Copy, PartialEq, Eq, Structural)]
pub enum BuildMode {
    Dev,
    Release,
}

impl BuildMode {
    /// The mode's name as it appears in page data.
    pub fn mode_str(&self) -> (r: &'static str)
        ensures
            *self == BuildMode::Dev ==> r@ == "dev"@,
            *self == BuildMode::Release ==> r@ == "release"@,
    {
        match self {
            BuildMode::Dev => "dev",
            BuildMode::Release => "release",
        }
    }
}

/// The artifact map a write list denotes: written in order, last write to
/// a path wins.
pub open spec fn map_of_pairs(s: Seq<(String, Vec<u8>)>) -> Map<Seq<char>, Seq<u8>>
    decreases s.len(),
{
    if s.len() == 0 {
        Map::<Seq<char>, Seq<u8>>::empty()
    } else {
        map_of_pairs(s.drop_last()).insert(s.last().0@, s.last().1@)
    }
}

/// The storage contract shared by the build, serve and check steps: a map
/// from site-relative output path to artifact bytes, plus the ingested
/// document tree the artifacts were generated from.
pub trait SiteBackend: Sized {
    /// The artifacts written so far, by site-relative path.
    spec fn artifacts(&self) -> Map<Seq<char>, Seq<u8>>;

    /// The ingested document tree.
    spec fn site_root(&self) -> Directory;

    /// The output directory artifact paths are given relative to.
    spec fn spec_out_dir(&self) -> Seq<char>;

    /// The ingested document tree.
    fn root(&self) -> (r: &Directory)
        ensures
            *r == self.site_root();

    /// Records the artifact at `path` (which must lie under the output
    /// directory); a later write to the same path wins.
    fn add_file(&mut self, path: &str, content: Vec<u8>)
        requires
            is_prefix_of(old(self).spec_out_dir(), path@),
        ensures
            final(self).artifacts() == old(self).artifacts().insert(
                trim_leading_slashes(path@.skip(old(self).spec_out_dir().len() as int)),
                content@,
            ),
            final(self).site_root() == old(self).site_root(),
            final(self).spec_out_dir() == old(self).spec_out_dir(),
    ;

    /// The artifact at the site-relative `path`, if one was written.
    fn read_path(&self, path: &str) -> (r: Option<Vec<u8>>)
        ensures
            (match r {
                Some(v) => self.artifacts().contains_key(path@) && v@ == self.artifacts()[path@],
                None => !self.artifacts().contains_key(path@),
            }),
    ;

    /// Whether an artifact was written at the site-relative `path`.
    fn has_file(&self, path: &str) -> (r: bool)
        ensures
            r == self.artifacts().contains_key(path@),
    ;

    /// Discards every artifact and replaces the document tree with a
    /// freshly ingested one, as one step.
    fn reset(&mut self, root: Directory)
        ensures
            final(self).artifacts() == Map::<Seq<char>, Seq<u8>>::empty(),
            final(self).site_root() == root,
            final(self).spec_out_dir() == old(self).spec_out_dir(),
    ;

    /// Discards every artifact, keeping the document tree.
    fn clear(&mut self)
        ensures
            final(self).artifacts() == Map::<Seq<char>, Seq<u8>>::empty(),
            final(self).site_root() == old(self).site_root(),
            final(self).spec_out_dir() == old(self).spec_out_dir(),
    ;
}

/// The in-memory backend: artifacts live in process memory only, so the
/// development server's writes and reads never touch the disk.
#[derive(Debug)]
pub struct InMemorySite {
    root: Directory,
    out_dir: String,
    rendered: Vec<(String, Vec<u8>)>,
}

impl InMemorySite {
    /// An empty in-memory site over an already ingested tree.
    pub fn new(root: Directory, out_dir: &str) -> (r: InMemorySite)
        ensures
            r.artifacts() == Map::<Seq<char>, Seq<u8>>::empty(),
            r.site_root() == root,
            r.spec_out_dir() == out_dir@,
    {
        InMemorySite { root, out_dir: out_dir.to_owned(), rendered: Vec::new() }
    }

    /// The writes recorded so far, in order; folding them up yields the
    /// artifact map (a later write to a path wins).
    pub fn artifact_list(&self) -> (r: &Vec<(String, Vec<u8>)>)
        ensures
            map_of_pairs(r@) == self.artifacts(),
    {
        &self.rendered
    }

    fn read_from(&self, path: &str, i: usize) -> (r: Option<&Vec<u8>>)
        requires
            i <= self.rendered@.len(),
        ensures
            (match r {
                Some(v) => map_of_pairs(self.rendered@.take(i as int)).contains_key(path@) && v@
                    == map_of_pairs(self.rendered@.take(i as int))[path@],
                None => !map_of_pairs(self.rendered@.take(i as int)).contains_key(path@),
            }),
        decreases i,
    {
        if i == 0 {
            None
        } else {
            let ghost pre = self.rendered@.take(i as int);
            proof {
                assert(pre.drop_last() =~= self.rendered@.take(i as int - 1));
                assert(pre.last() == self.rendered@[i as int - 1]);
            }
            if str_eq(self.rendered[i - 1].0.as_str(), path) {
                Some(&self.rendered[i - 1].1)
            } else {
                self.read_from(path, i - 1)
            }
        }
    }
}

impl SiteBackend for InMemorySite {
    closed spec fn artifacts(&self) -> Map<Seq<char>, Seq<u8>> {
        map_of_pairs(self.rendered@)
    }

    closed spec fn site_root(&self) -> Directory {
        self.root
    }

    closed spec fn spec_out_dir(&self) -> Seq<char> {
        self.out_dir@
    }

    fn root(&self) -> (r: &Directory) {
        &self.root
    }

    fn add_file(&mut self, path: &str, content: Vec<u8>) {
        let plen = path.unicode_len();
        let olen = self.out_dir.as_str().unicode_len();
        let stripped = substring(path, olen, plen);
        let key = crate::paths::trim_slashes(stripped.as_str());
        let ghost before = self.rendered@;
        self.rendered.push((key.to_owned(), content));
        proof {
            assert(self.rendered@.drop_last() =~= before);
        }
    }

    fn read_path(&self, path: &str) -> (r: Option<Vec<u8>>) {
        proof {
            assert(self.rendered@.take(self.rendered@.len() as int) =~= self.rendered@);
        }
        match self.read_from(path, self.rendered.len()) {
            Some(v) => Some(v.clone()),
            None => None,
        }
    }

    fn has_file(&self, path: &str) -> (r: bool) {
        proof {
            assert(self.rendered@.take(self.rendered@.len() as int) =~= self.rendered@);
        }
        match self.read_from(path, self.rendered.len()) {
            Some(_) => true,
            None => false,
        }
    }

    fn reset(&mut self, root: Directory) {
        self.root = root;
        self.rendered = Vec::new();
    }

    fn clear(&mut self) {
        self.rendered = Vec::new();
    }
}

/// The main handle to a site: a backend joined with the configuration the
/// site is built from.
pub struct Site<B: SiteBackend> {
    pub backend: B,
    pub config: Config,
}

impl Site<InMemorySite> {
    /// An in-memory site over an already ingested document tree.
    pub fn with_root(root: Directory, config: Config) -> (r: Site<InMemorySite>)
        ensures
            r.backend.artifacts() == Map::<Seq<char>, Seq<u8>>::empty(),
            r.backend.site_root() == root,
            r.backend.spec_out_dir() == config.out_dir@,
            r.config == config,
    {
        let backend = InMemorySite::new(root, config.out_dir.as_str());
        Site { backend, config }
    }
}

impl<B: SiteBackend> Site<B> {
    /// The ingested document tree.
    pub fn root(&self) -> (r: &Directory)
        ensures
            *r == self.backend.site_root(),
    {
        self.backend.root()
    }

    /// Discards every artifact and replaces the document tree, as one
    /// step: a reader sees the old artifact set or the new one, never a
    /// mixture.
    pub fn reset(&mut self, root: Directory)
        ensures
            final(self).backend.artifacts() == Map::<Seq<char>, Seq<u8>>::empty(),
            final(self).backend.site_root() == root,
            final(self).backend.spec_out_dir() == old(self).backend.spec_out_dir(),
            final(self).config == old(self).config,
    {
        self.backend.reset(root)
    }
}

} // verus!
