//! The serving rules: how a requested path resolves to an artifact of the
//! site, and which content type the artifact is served with. The
//! broken-link checker uses exactly these rules, so a link it accepts is a
//! link the server answers.

use crate::paths::{ext_start, file_name, strip_dot_ext, trim_leading_slashes};
use crate::site::{Site, SiteBackend};
use crate::strutil::{
    contains_seq, contains_sub, find_char, is_prefix_of, starts_with, str_eq, substring,
};
use vstd::prelude::*;

verus! {

/// Index of the first `#` in `p`, or `p`'s length when there is none.
pub open spec fn hash_pos(p: Seq<char>) -> int
    decreases p.len(),
{
    if p.len() == 0 {
        0
    } else if p[0] == '#' {
        0
    } else {
        1 + hash_pos(p.skip(1))
    }
}

/// `p` with every trailing `/` removed.
pub open spec fn trim_trailing_slashes(p: Seq<char>) -> Seq<char>
    decreases p.len(),
{
    if p.len() > 0 && p.last() == '/' {
        trim_trailing_slashes(p.drop_last())
    } else {
        p
    }
}

fn trim_end_slashes(s: &str) -> (r: &str)
    ensures
        r@ == trim_trailing_slashes(s@),
    decreases s@.len(),
{
    let len = s.unicode_len();
    if len > 0 && s.get_char(len - 1) == '/' {
        let shorter = s.substring_char(0, len - 1);
        assert(shorter@ =~= s@.drop_last());
        trim_end_slashes(shorter)
    } else {
        s
    }
}

/// The request path under the directory-like route `rel`: `index.html`
/// inside it.
pub open spec fn spec_index_of(rel: Seq<char>) -> Seq<char> {
    if rel.len() == 0 {
        "index.html"@
    } else {
        trim_trailing_slashes(rel) + "/index.html"@
    }
}

/// `rel` with its extension replaced by `.html` (unchanged when `rel` has
/// no file name at all).
pub open spec fn spec_with_html_ext(rel: Seq<char>) -> Seq<char> {
    let t = trim_trailing_slashes(rel);
    if t.len() == 0 {
        rel
    } else {
        strip_dot_ext(t) + ".html"@
    }
}

/// The request path with the base path removed: the part after a base-path
/// prefix, the empty path for a request of the base path itself, nothing
/// when the request lies outside the base path.
pub open spec fn spec_after_base(base: Seq<char>, q: Seq<char>) -> Option<Seq<char>> {
    if is_prefix_of(base, q) {
        Some(q.skip(base.len() as int))
    } else if q + "/"@ == base {
        Some(Seq::<char>::empty())
    } else {
        None
    }
}

/// Which artifact of `m` a request for `p` under `base` resolves to:
/// the fragment is cut off and paths holding `..` are rejected; the base
/// path is cut off, rejecting requests outside it; then the first hit of
/// exact match, `index.html` inside a directory-like route, and the
/// `.html`-extended path wins.
pub open spec fn spec_resolve(
    m: Map<Seq<char>, Seq<u8>>,
    base: Seq<char>,
    p: Seq<char>,
) -> Option<Seq<char>> {
    if contains_seq(p, ".."@) {
        None
    } else {
        let q = p.take(hash_pos(p));
        match spec_after_base(base, q) {
            None => None,
            Some(rel0) => {
                let rel = trim_leading_slashes(rel0);
                if m.contains_key(rel) {
                    Some(rel)
                } else if m.contains_key(spec_index_of(rel)) {
                    Some(spec_index_of(rel))
                } else if m.contains_key(spec_with_html_ext(rel)) {
                    Some(spec_with_html_ext(rel))
                } else {
                    None
                }
            },
        }
    }
}

/// Resolves a requested path against the site's artifacts (see
/// `spec_resolve`).
pub fn resolve_file<B: SiteBackend>(path: &str, site: &Site<B>, base_path: &str) -> (r: Option<
    String,
>)
    ensures
        (match r {
            Some(t) => spec_resolve(site.backend.artifacts(), base_path@, path@) == Some(t@),
            None => spec_resolve(site.backend.artifacts(), base_path@, path@) is None,
        }),
{
    proof {
        reveal_strlit("..");
        reveal_strlit("/");
    }
    if contains_sub(path, "..") {
        return None;
    }
    let len = path.unicode_len();
    let q: &str = match find_char(path, '#') {
        Some(h) => {
            proof {
                lemma_hash_pos_at(path@, h as int);
            }
            path.substring_char(0, h)
        },
        None => {
            proof {
                lemma_hash_pos_none(path@);
            }
            path
        },
    };
    proof {
        assert(q@ =~= path@.take(hash_pos(path@)));
    }
    let qlen = q.unicode_len();
    let rel0: String = if starts_with(q, base_path) {
        substring(q, base_path.unicode_len(), qlen)
    } else {
        let q_slash = crate::strutil::concat2(q, "/");
        if str_eq(q_slash.as_str(), base_path) {
            String::new()
        } else {
            proof {
                assert(spec_after_base(base_path@, q@) is None);
            }
            return None;
        }
    };
    let rel = crate::paths::trim_slashes(rel0.as_str());
    if site.backend.has_file(rel) {
        Some(rel.to_owned())
    } else {
        let trimmed = trim_end_slashes(rel);
        let with_index: String = if rel.unicode_len() == 0 {
            "index.html".to_owned()
        } else {
            crate::strutil::concat2(trimmed, "/index.html")
        };
        if site.backend.has_file(with_index.as_str()) {
            Some(with_index)
        } else {
            let with_html: String = if trimmed.unicode_len() == 0 {
                rel.to_owned()
            } else {
                let stripped = crate::paths::strip_extension(trimmed);
                crate::strutil::concat2(stripped.as_str(), ".html")
            };
            if site.backend.has_file(with_html.as_str()) {
                Some(with_html)
            } else {
                None
            }
        }
    }
}

proof fn lemma_hash_pos_at(p: Seq<char>, h: int)
    requires
        0 <= h < p.len(),
        p[h] == '#',
        forall|j: int| 0 <= j < h ==> p[j] != '#',
    ensures
        hash_pos(p) == h,
    decreases p.len(),
{
    if p[0] != '#' {
        assert(h > 0);
        let t = p.skip(1);
        assert(forall|j: int| 0 <= j < t.len() ==> t[j] == p[j + 1]);
        lemma_hash_pos_at(t, h - 1);
    }
}

proof fn lemma_hash_pos_none(p: Seq<char>)
    requires
        forall|j: int| 0 <= j < p.len() ==> p[j] != '#',
    ensures
        hash_pos(p) == p.len(),
    decreases p.len(),
{
    if p.len() > 0 {
        let t = p.skip(1);
        assert(forall|j: int| 0 <= j < t.len() ==> t[j] == p[j + 1]);
        lemma_hash_pos_none(t);
    }
}

/// The content type an artifact is served with, by the extension of its
/// resolved path; an unknown extension gets none.
pub open spec fn spec_content_type(ext: Option<Seq<char>>) -> Option<Seq<char>> {
    match ext {
        Some(e) => if e == "txt"@ {
            Some("text/plain; charset=utf8"@)
        } else if e == "html"@ {
            Some("text/html; charset=utf8"@)
        } else if e == "htm"@ {
            Some("text/html; charset=utf8"@)
        } else if e == "css"@ {
            Some("text/css"@)
        } else if e == "js"@ {
            Some("text/javascript"@)
        } else if e == "pdf"@ {
            Some("application/pdf"@)
        } else if e == "zip"@ {
            Some("application/zip"@)
        } else if e == "jpg"@ {
            Some("image/jpeg"@)
        } else if e == "jpeg"@ {
            Some("image/jpeg"@)
        } else if e == "png"@ {
            Some("image/png"@)
        } else if e == "svg"@ {
            Some("image/svg+xml"@)
        } else {
            None
        },
        None => None,
    }
}

/// The extension of the path `p`, if its file name has one.
pub open spec fn spec_ext_of(p: Seq<char>) -> Option<Seq<char>> {
    let f = file_name(p);
    match ext_start(f) {
        Some(e) => Some(f.skip(e + 1)),
        None => None,
    }
}

/// The extension of a resolved path (executable form of `spec_ext_of`).
pub fn ext_of(p: &str) -> (r: Option<String>)
    ensures
        (match r {
            Some(e) => spec_ext_of(p@) == Some(e@),
            None => spec_ext_of(p@) is None,
        }),
{
    let len = p.unicode_len();
    let fs = crate::paths::find_file_name_start(p);
    proof {
        crate::paths::lemma_file_name_start_props(p@);
    }
    let f = p.substring_char(fs, len);
    proof {
        assert(f@ =~= file_name(p@));
    }
    let flen = f.unicode_len();
    match crate::strutil::rfind_char(f, '.') {
        Some(e) => {
            if e > 0 {
                proof {
                    crate::paths::lemma_ext_start_at(f@, e as int);
                }
                let r = substring(f, e + 1, flen);
                proof {
                    assert(r@ =~= f@.skip(e as int + 1));
                }
                Some(r)
            } else {
                proof {
                    crate::paths::lemma_ext_start_none(f@);
                }
                None
            }
        },
        None => {
            proof {
                crate::paths::lemma_ext_start_none(f@);
            }
            None
        },
    }
}

/// The content type for a path's extension (see `spec_content_type`).
pub fn content_type_for(extension: Option<&str>) -> (r: Option<&'static str>)
    ensures
        (match r {
            Some(ct) => spec_content_type(
                (match extension {
                    Some(e) => Some(e@),
                    None => None,
                }),
            ) == Some(ct@),
            None => spec_content_type(
                (match extension {
                    Some(e) => Some(e@),
                    None => None,
                }),
            ) is None,
        }),
{
    match extension {
        Some(e) => {
            if str_eq(e, "txt") {
                Some("text/plain; charset=utf8")
            } else if str_eq(e, "html") {
                Some("text/html; charset=utf8")
            } else if str_eq(e, "htm") {
                Some("text/html; charset=utf8")
            } else if str_eq(e, "css") {
                Some("text/css")
            } else if str_eq(e, "js") {
                Some("text/javascript")
            } else if str_eq(e, "pdf") {
                Some("application/pdf")
            } else if str_eq(e, "zip") {
                Some("application/zip")
            } else if str_eq(e, "jpg") {
                Some("image/jpeg")
            } else if str_eq(e, "jpeg") {
                Some("image/jpeg")
            } else if str_eq(e, "png") {
                Some("image/png")
            } else if str_eq(e, "svg") {
                Some("image/svg+xml")
            } else {
                None
            }
        },
        None => None,
    }
}

/// What the preview server answers: the artifact's bytes with a content
/// type, or an empty 404.
#[derive(Debug, Clone, PartialEq)]
pub struct HttpAnswer {
    pub status: u16,
    pub content_type: Option<String>,
    pub body: Vec<u8>,
}

/// The status the server answers a request with.
pub open spec fn spec_status(m: Map<Seq<char>, Seq<u8>>, base: Seq<char>, p: Seq<char>) -> int {
    if spec_resolve(m, base, p) is Some {
        200int
    } else {
        404int
    }
}

/// Decides one request: resolves the path and packages the artifact with
/// its content type, or a 404 when nothing resolves.
pub fn respond<B: SiteBackend>(path: &str, site: &Site<B>, base_path: &str) -> (r: HttpAnswer)
    ensures
        r.status == spec_status(site.backend.artifacts(), base_path@, path@),
        (match spec_resolve(site.backend.artifacts(), base_path@, path@) {
            Some(t) => r.body@ == site.backend.artifacts()[t] && (match r.content_type {
                Some(ct) => spec_content_type(spec_ext_of(t)) == Some(ct@),
                None => spec_content_type(spec_ext_of(t)) is None,
            }),
            None => r.body@ == Seq::<u8>::empty() && r.content_type is None,
        }),
{
    match resolve_file(path, site, base_path) {
        Some(t) => {
            let body = match site.backend.read_path(t.as_str()) {
                Some(v) => v,
                None => {
                    proof {
                        assert(false);
                    }
                    Vec::new()
                },
            };
            let ext = ext_of(t.as_str());
            let ct: Option<String> = match &ext {
                Some(e) => match content_type_for(Some(e.as_str())) {
                    Some(c) => Some(c.to_owned()),
                    None => None,
                },
                None => match content_type_for(None) {
                    Some(c) => Some(c.to_owned()),
                    None => None,
                },
            };
            HttpAnswer { status: 200, content_type: ct, body }
        },
        None => HttpAnswer { status: 404, content_type: None, body: Vec::new() },
    }
}

} // verus!
