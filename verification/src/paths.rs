//! Path and URI logic. A source-relative path (segments joined by `/`) is
//! turned into the canonical site URI: the rendering extension is stripped,
//! an `index` file name collapses to its parent directory, and the
//! configured base path is prefixed. Every component that needs a URI from a
//! path goes through these functions.

use crate::strutil::{is_suffix_of, rfind_char, str_eq, substring};
use vstd::prelude::*;

verus! {

/// Index of the first character of the path's file name (just after the
/// last `/`, or `0` when there is none).
pub open spec fn file_name_start(p: Seq<char>) -> int
    decreases p.len(),
{
    if p.len() == 0 {
        0
    } else if p.last() == '/' {
        p.len() as int
    } else {
        file_name_start(p.drop_last())
    }
}

/// The path's file name: everything after the last `/`.
pub open spec fn file_name(p: Seq<char>) -> Seq<char> {
    p.skip(file_name_start(p))
}

/// `file_name_start` lands just after the last `/`: in range, preceded by a
/// `/` unless at the start, with no `/` after it.
pub proof fn lemma_file_name_start_props(p: Seq<char>)
    ensures
        0 <= file_name_start(p) <= p.len(),
        file_name_start(p) > 0 ==> p[file_name_start(p) - 1] == '/',
        forall|j: int| file_name_start(p) <= j < p.len() ==> p[j] != '/',
    decreases p.len(),
{
    if p.len() == 0 {
    } else if p.last() == '/' {
    } else {
        lemma_file_name_start_props(p.drop_last());
        assert(forall|j: int| 0 <= j < p.len() - 1 ==> p.drop_last()[j] == p[j]);
    }
}

/// Any position that is just after the last `/` is `file_name_start`.
pub proof fn lemma_file_name_start_at(p: Seq<char>, i: int)
    requires
        0 <= i <= p.len(),
        i == 0 || p[i - 1] == '/',
        forall|j: int| i <= j < p.len() ==> p[j] != '/',
    ensures
        file_name_start(p) == i,
    decreases p.len(),
{
    if p.len() == 0 {
    } else if p.last() == '/' {
        assert(i == p.len());
    } else {
        assert(i < p.len());
        lemma_file_name_start_at(p.drop_last(), i);
    }
}

/// Index of the `.` starting the file name's extension, if the file name
/// has one: the last `.`, except that a leading `.` marks no extension.
pub open spec fn ext_start(f: Seq<char>) -> Option<int>
    decreases f.len(),
{
    if f.len() <= 1 {
        None
    } else if f.last() == '.' {
        Some(f.len() - 1)
    } else {
        ext_start(f.drop_last())
    }
}

/// What `ext_start` finds is the last `.` of the file name, never leading.
pub proof fn lemma_ext_start_props(f: Seq<char>)
    ensures
        (match ext_start(f) {
            Some(e) => 0 < e < f.len() && f[e] == '.' && forall|j: int|
                e < j < f.len() ==> f[j] != '.',
            None => forall|j: int| 0 < j < f.len() ==> f[j] != '.',
        }),
    decreases f.len(),
{
    if f.len() <= 1 {
    } else if f.last() == '.' {
    } else {
        lemma_ext_start_props(f.drop_last());
        assert(forall|j: int| 0 <= j < f.len() - 1 ==> f.drop_last()[j] == f[j]);
    }
}

/// Any non-leading last `.` is what `ext_start` finds.
pub proof fn lemma_ext_start_at(f: Seq<char>, e: int)
    requires
        0 < e < f.len(),
        f[e] == '.',
        forall|j: int| e < j < f.len() ==> f[j] != '.',
    ensures
        ext_start(f) == Some(e),
    decreases f.len(),
{
    if f.last() == '.' {
        assert(e == f.len() - 1);
    } else {
        assert(e < f.len() - 1);
        lemma_ext_start_at(f.drop_last(), e);
    }
}

/// When the file name has no `.` past its first character, there is no
/// extension.
pub proof fn lemma_ext_start_none(f: Seq<char>)
    requires
        forall|j: int| 0 < j < f.len() ==> f[j] != '.',
    ensures
        ext_start(f) is None,
    decreases f.len(),
{
    if f.len() <= 1 {
    } else {
        assert(f.last() != '.');
        lemma_ext_start_none(f.drop_last());
    }
}

/// `p` with its file name's extension removed (the file name itself when it
/// has no extension).
pub open spec fn strip_dot_ext(p: Seq<char>) -> Seq<char> {
    let fs = file_name_start(p);
    match ext_start(p.skip(fs)) {
        Some(e) => p.take(fs + e),
        None => p,
    }
}

/// `p` collapsed to its parent when its file name is exactly `index`; the
/// root collapses to the empty path.
pub open spec fn drop_index_name(p: Seq<char>) -> Seq<char> {
    let fs = file_name_start(p);
    if p.skip(fs) == "index"@ {
        if fs == 0 {
            Seq::<char>::empty()
        } else {
            p.take(fs - 1)
        }
    } else {
        p
    }
}

/// `p` with every leading `/` removed.
pub open spec fn trim_leading_slashes(p: Seq<char>) -> Seq<char>
    decreases p.len(),
{
    if p.len() > 0 && p[0] == '/' {
        trim_leading_slashes(p.skip(1))
    } else {
        p
    }
}

/// The site URI of an output path: extension stripped, `index` collapsed to
/// the parent directory, leading slashes removed. The base path is not yet
/// applied.
pub open spec fn spec_path_to_uri(p: Seq<char>) -> Seq<char> {
    trim_leading_slashes(drop_index_name(strip_dot_ext(p)))
}

/// As `spec_path_to_uri`, but the extension is kept.
pub open spec fn spec_path_to_uri_with_extension(p: Seq<char>) -> Seq<char> {
    trim_leading_slashes(drop_index_name(p))
}

/// Index of the first character of the file name of `path` (executable).
pub fn find_file_name_start(path: &str) -> (r: usize)
    ensures
        r == file_name_start(path@),
{
    let len = path.unicode_len();
    match rfind_char(path, '/') {
        Some(i) => {
            assert(i < len);
            proof {
                lemma_file_name_start_at(path@, i + 1);
            }
            i + 1
        },
        None => {
            proof {
                lemma_file_name_start_at(path@, 0);
            }
            0
        },
    }
}

/// `path` with its file name's extension removed.
pub fn strip_extension(path: &str) -> (r: String)
    ensures
        r@ == strip_dot_ext(path@),
{
    let len = path.unicode_len();
    let fs = find_file_name_start(path);
    proof {
        lemma_file_name_start_props(path@);
    }
    let f = path.substring_char(fs, len);
    assert(f@ =~= path@.skip(fs as int));
    match rfind_char(f, '.') {
        Some(e) => {
            if e > 0 {
                proof {
                    lemma_ext_start_at(f@, e as int);
                }
                substring(path, 0, fs + e)
            } else {
                proof {
                    lemma_ext_start_none(f@);
                }
                path.to_owned()
            }
        },
        None => {
            proof {
                lemma_ext_start_none(f@);
            }
            path.to_owned()
        },
    }
}

/// `path` collapsed to its parent when its file name is exactly `index`.
pub fn drop_index(path: &str) -> (r: String)
    ensures
        r@ == drop_index_name(path@),
{
    let len = path.unicode_len();
    let fs = find_file_name_start(path);
    proof {
        lemma_file_name_start_props(path@);
    }
    let f = path.substring_char(fs, len);
    assert(f@ =~= path@.skip(fs as int));
    if str_eq(f, "index") {
        if fs == 0 {
            String::new()
        } else {
            substring(path, 0, fs - 1)
        }
    } else {
        path.to_owned()
    }
}

/// `path` with every leading `/` removed.
pub fn trim_slashes(path: &str) -> (r: &str)
    ensures
        r@ == trim_leading_slashes(path@),
    decreases path@.len(),
{
    let len = path.unicode_len();
    if len > 0 && path.get_char(0) == '/' {
        let rest = path.substring_char(1, len);
        assert(rest@ =~= path@.skip(1));
        trim_slashes(rest)
    } else {
        path
    }
}

/// The site URI of an output path (see `spec_path_to_uri`).
pub fn to_uri(path: &str) -> (r: String)
    ensures
        r@ == spec_path_to_uri(path@),
{
    let stripped = strip_extension(path);
    let collapsed = drop_index(stripped.as_str());
    trim_slashes(collapsed.as_str()).to_owned()
}

/// As `to_uri`, but the extension is kept.
pub fn to_uri_with_extension(path: &str) -> (r: String)
    ensures
        r@ == spec_path_to_uri_with_extension(path@),
{
    let collapsed = drop_index(path);
    trim_slashes(collapsed.as_str()).to_owned()
}

/// `b` appended under the directory `a`, with exactly one `/` between them
/// (an empty `a` leaves `b` alone).
pub open spec fn spec_join(a: Seq<char>, b: Seq<char>) -> Seq<char> {
    if a.len() == 0 {
        b
    } else if a.last() == '/' {
        a + b
    } else {
        a + "/"@ + b
    }
}

/// Joins a path under a directory (see `spec_join`).
pub fn join(a: &str, b: &str) -> (r: String)
    ensures
        r@ == spec_join(a@, b@),
{
    let alen = a.unicode_len();
    if alen == 0 {
        b.to_owned()
    } else if a.get_char(alen - 1) == '/' {
        crate::strutil::concat2(a, b)
    } else {
        crate::strutil::concat3(a, "/", b)
    }
}

/// The output path of the page generated from the source file `p`: the file
/// name's extension is replaced by `.html`, and the directory's canonical
/// index file `README.md` becomes `index.html`.
pub open spec fn spec_html_path(p: Seq<char>) -> Seq<char> {
    let fs = file_name_start(p);
    let f = p.skip(fs);
    if f == "README.md"@ {
        p.take(fs) + "index.html"@
    } else {
        match ext_start(f) {
            Some(e) => p.take(fs) + f.take(e) + ".html"@,
            None => p + ".html"@,
        }
    }
}

/// A source path in regular position for the URI round trip: a relative
/// `.md` path whose file name has a stem, is not the directory index
/// `README.md`, and is not `index.md` (which collapses onto the directory's
/// own URI).
pub open spec fn regular_doc_path(p: Seq<char>) -> bool {
    p.len() > 3 && is_suffix_of(".md"@, p) && p[0] != '/' && file_name(p).len() > 3
        && file_name(p) != "README.md"@ && file_name(p) != "index.md"@
}

/// For a source path in regular position, the site URI of its generated
/// page is the path itself with the `.md` extension cut off.
pub proof fn lemma_regular_uri_shape(p: Seq<char>)
    requires
        regular_doc_path(p),
    ensures
        spec_path_to_uri(spec_html_path(p)) == p.take(p.len() - 3),
{
    reveal_strlit(".md");
    reveal_strlit(".html");
    reveal_strlit("index");
    reveal_strlit("index.md");
    reveal_strlit("README.md");
    let n = p.len() as int;
    let fs = file_name_start(p);
    lemma_file_name_start_props(p);
    let f = p.skip(fs);
    assert(p.subrange(n - 3, n) == ".md"@);
    assert(".md"@.len() == 3);
    assert(p.subrange(n - 3, n)[0] == p[n - 3]);
    assert(p.subrange(n - 3, n)[1] == p[n - 2]);
    assert(p.subrange(n - 3, n)[2] == p[n - 1]);
    assert(p[n - 3] == '.' && p[n - 2] == 'm' && p[n - 1] == 'd');
    assert(f.len() > 3);
    assert(forall|j: int| 0 <= j < f.len() ==> f[j] == p[fs + j]);
    assert(ext_start(f) == Some(f.len() - 3)) by {
        lemma_ext_start_at(f, f.len() - 3);
    }
    let stem = f.take(f.len() - 3);
    let html = p.take(fs) + stem + ".html"@;
    assert(spec_html_path(p) == html);
    let m = html.len() as int;
    assert(".html"@.len() == 5);
    assert(stem.len() == f.len() - 3);
    assert(f.len() == n - fs);
    assert(m == fs + stem.len() + 5);
    assert(m == n + 2);
    assert(forall|j: int| 0 <= j < fs ==> html[j] == p[j]);
    assert(forall|j: int| fs <= j < n - 3 ==> html[j] == p[j]);
    assert(html[n - 3] == '.' && html[n - 2] == 'h' && html[n - 1] == 't' && html[n] == 'm'
        && html[n + 1] == 'l');
    assert(file_name_start(html) == fs) by {
        lemma_file_name_start_at(html, fs);
    }
    let fh = html.skip(fs);
    assert(forall|j: int| 0 <= j < fh.len() ==> fh[j] == html[fs + j]);
    assert(ext_start(fh) == Some(n - 3 - fs)) by {
        lemma_ext_start_at(fh, n - 3 - fs);
    }
    let core = html.take(fs + (n - 3 - fs));
    assert(strip_dot_ext(html) == core);
    assert(core =~= p.take(n - 3));
    assert(file_name_start(core) == fs) by {
        lemma_file_name_start_at(core, fs);
    }
    assert(core.skip(fs) =~= stem);
    assert(stem != "index"@) by {
        if stem == "index"@ {
            assert(f =~= stem + ".md"@);
            assert(f =~= "index.md"@);
        }
    }
    assert(drop_index_name(core) == core);
    assert(core.len() > 0 && core[0] == p[0]);
    assert(trim_leading_slashes(core) == core);
}

/// The URI space is injective on documents in regular position: two
/// distinct non-index source paths never produce the same base-qualified
/// site URI.
pub proof fn lemma_uri_round_trip(base: Seq<char>, p: Seq<char>, q: Seq<char>)
    requires
        regular_doc_path(p),
        regular_doc_path(q),
        p != q,
    ensures
        base + spec_path_to_uri(spec_html_path(p)) != base + spec_path_to_uri(spec_html_path(q)),
{
    reveal_strlit(".md");
    lemma_regular_uri_shape(p);
    lemma_regular_uri_shape(q);
    let up = base + p.take(p.len() - 3);
    let uq = base + q.take(q.len() - 3);
    if up == uq {
        assert(up.len() == uq.len());
        assert(p.len() == q.len());
        let n = p.len() as int;
        assert forall|i: int| 0 <= i < n implies p[i] == q[i] by {
            if i < n - 3 {
                assert(up[base.len() + i] == p[i]);
                assert(uq[base.len() + i] == q[i]);
            } else {
                assert(p.subrange(n - 3, n) == ".md"@);
                assert(q.subrange(n - 3, n) == ".md"@);
                assert(p.subrange(n - 3, n)[i - (n - 3)] == p[i]);
                assert(q.subrange(n - 3, n)[i - (n - 3)] == q[i]);
            }
        }
        assert(p =~= q);
    }
}

} // verus!
