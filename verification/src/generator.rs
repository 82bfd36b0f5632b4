//! The build pipeline: renders every document's page through the template
//! collaborator, writes the fixed assets and the themed style sheet, and
//! records the search index. The page data handed to the templates is
//! framed as JSON by verified code; only the template rendering itself and
//! the search index serialization are outside calls.

use crate::config::Config;
use crate::document::{
    first_index, has_index, tree_indexed, Directory, Document,
};
use crate::error::Error;
use crate::markdown::Heading;
use crate::navigation::{links_view, Link};
use crate::site::{Site, SiteBackend};
use crate::strutil::concat2;
use vstd::prelude::*;

verus! {

/// What the template collaborator produces for the page template set and
/// one page's JSON data: the final HTML, or nothing when the templates or
/// the data are rejected. The result depends on the four texts alone.
pub uninterp spec fn rendered_template_of(
    page_tpl: Seq<char>,
    nav_tpl: Seq<char>,
    nested_tpl: Seq<char>,
    data_json: Seq<char>,
) -> Option<Seq<char>>;

/// Relies on handlebars::Handlebars::render and serde_json::from_str: the
/// page template set is rendered over the given JSON data; the outcome
/// depends on the templates and the data alone.
#[verifier::external_body]
fn render_page_template(
    page_tpl: &str,
    nav_tpl: &str,
    nested_tpl: &str,
    data_json: &str,
) -> (r: Option<String>)
    ensures
        (match r {
            Some(v) => rendered_template_of(page_tpl@, nav_tpl@, nested_tpl@, data_json@) == Some(
                v@,
            ),
            None => rendered_template_of(page_tpl@, nav_tpl@, nested_tpl@, data_json@) is None,
        }),
{
    let data: serde_json::Value = match serde_json::from_str(data_json) {
        Ok(v) => v,
        Err(_) => return None,
    };
    let mut hb = handlebars::Handlebars::new();
    if hb.register_template_string("page", page_tpl).is_err() {
        return None;
    }
    if hb.register_template_string("navigation", nav_tpl).is_err() {
        return None;
    }
    if hb.register_template_string("nested_navigation", nested_tpl).is_err() {
        return None;
    }
    hb.render("page", &data).ok()
}

/// What the template collaborator produces for one lone template and JSON
/// data; the result depends on the two texts alone.
pub uninterp spec fn rendered_single_of(tpl: Seq<char>, data_json: Seq<char>) -> Option<Seq<char>>;

/// Relies on handlebars::Handlebars::render_template and
/// serde_json::from_str: one template rendered over the given JSON data.
#[verifier::external_body]
fn render_single_template(tpl: &str, data_json: &str) -> (r: Option<String>)
    ensures
        (match r {
            Some(v) => rendered_single_of(tpl@, data_json@) == Some(v@),
            None => rendered_single_of(tpl@, data_json@) is None,
        }),
{
    let data: serde_json::Value = match serde_json::from_str(data_json) {
        Ok(v) => v,
        Err(_) => return None,
    };
    handlebars::Handlebars::new().render_template(tpl, &data).ok()
}

/// The fields a search index was created over.
pub uninterp spec fn index_fields(i: elasticlunr::Index) -> Seq<Seq<char>>;

/// The documents recorded in a search index, in insertion order: each a
/// reference key with its field values.
pub uninterp spec fn index_docs(i: elasticlunr::Index) -> Seq<(Seq<char>, Seq<Seq<char>>)>;

/// The serialized form of a search index with the given fields and
/// recorded documents; it depends on those alone.
pub uninterp spec fn search_json_of(
    fields: Seq<Seq<char>>,
    docs: Seq<(Seq<char>, Seq<Seq<char>>)>,
) -> Seq<char>;

#[verifier::external_type_specification]
#[verifier::external_body]
pub struct ExIndex(elasticlunr::Index);

/// Relies on elasticlunr::Index::new: a fresh index over the given fields
/// (which must be distinct; a repeated field name makes the call panic).
#[verifier::external_body]
fn index_new(fields: &Vec<String>) -> (r: elasticlunr::Index)
    requires
        forall|i: int, j: int| 0 <= i < j < fields@.len() ==> fields@[i]@ != fields@[j]@,
    ensures
        index_fields(r) == fields@.map_values(|s: String| s@),
        index_docs(r) == Seq::<(Seq<char>, Seq<Seq<char>>)>::empty(),
{
    elasticlunr::Index::new(fields)
}

/// Relies on elasticlunr::Index::add_doc: records one document's field
/// values under a reference key (at most one value per field; more would
/// make the call panic).
#[verifier::external_body]
fn index_add_doc(i: &mut elasticlunr::Index, doc_ref: &str, data: &Vec<String>)
    requires
        data@.len() <= index_fields(*old(i)).len(),
    ensures
        index_fields(*final(i)) == index_fields(*old(i)),
        index_docs(*final(i)) == index_docs(*old(i)).push(
            (doc_ref@, data@.map_values(|s: String| s@)),
        ),
{
    i.add_doc(doc_ref, data)
}

/// Relies on elasticlunr::Index::to_json: serializes the index; the
/// result depends on the fields and the recorded documents alone.
#[verifier::external_body]
fn index_to_json(i: &elasticlunr::Index) -> (r: String)
    ensures
        r@ == search_json_of(index_fields(*i), index_docs(*i)),
{
    i.to_json()
}

/// The decimal digit `d` as a character.
pub open spec fn digit_char(d: int) -> char {
    if d == 0 {
        '0'
    } else if d == 1 {
        '1'
    } else if d == 2 {
        '2'
    } else if d == 3 {
        '3'
    } else if d == 4 {
        '4'
    } else if d == 5 {
        '5'
    } else if d == 6 {
        '6'
    } else if d == 7 {
        '7'
    } else if d == 8 {
        '8'
    } else {
        '9'
    }
}

/// The decimal digits of `n`.
pub open spec fn dec_str_of(n: nat) -> Seq<char>
    decreases n,
{
    if n < 10 {
        seq![digit_char(n as int)]
    } else {
        dec_str_of(n / 10).push(digit_char((n % 10) as int))
    }
}

/// Relies on u32::to_string (std): the decimal digits of the number.
#[verifier::external_body]
fn u32_to_string(n: u32) -> (r: String)
    ensures
        r@ == dec_str_of(n as nat),
{
    n.to_string()
}

/// The JSON escape of one character.
pub open spec fn json_escape_char(c: char) -> Seq<char> {
    if c == '"' {
        "\\\""@
    } else if c == '\\' {
        "\\\\"@
    } else if c == '\n' {
        "\\n"@
    } else if c == '\r' {
        "\\r"@
    } else if c == '\t' {
        "\\t"@
    } else if (c as u32) < 32 {
        control_escape(c)
    } else {
        seq![c]
    }
}

/// The `\u00XX` escape of a control character.
pub open spec fn control_escape(c: char) -> Seq<char> {
    let n = c as u32;
    "\\u00"@ + seq![digit_char((n / 16) as int), hex_char((n % 16) as int)]
}

/// The hexadecimal digit `d` as a (lower-case) character.
pub open spec fn hex_char(d: int) -> char {
    if d < 10 {
        digit_char(d)
    } else if d == 10 {
        'a'
    } else if d == 11 {
        'b'
    } else if d == 12 {
        'c'
    } else if d == 13 {
        'd'
    } else if d == 14 {
        'e'
    } else {
        'f'
    }
}

/// The body of a JSON string literal holding `s`.
pub open spec fn json_escape(s: Seq<char>) -> Seq<char>
    decreases s.len(),
{
    if s.len() == 0 {
        Seq::<char>::empty()
    } else {
        json_escape(s.drop_last()) + json_escape_char(s.last())
    }
}

/// A JSON string literal holding `s`.
pub open spec fn json_string(s: Seq<char>) -> Seq<char> {
    "\""@ + json_escape(s) + "\""@
}

fn hex_char_exec(d: u32) -> (r: &'static str)
    requires
        d < 16,
    ensures
        r@ == seq![hex_char(d as int)],

{
    proof {
        reveal_strlit("0");
        reveal_strlit("1");
        reveal_strlit("2");
        reveal_strlit("3");
        reveal_strlit("4");
        reveal_strlit("5");
        reveal_strlit("6");
        reveal_strlit("7");
        reveal_strlit("8");
        reveal_strlit("9");
        reveal_strlit("a");
        reveal_strlit("b");
        reveal_strlit("c");
        reveal_strlit("d");
        reveal_strlit("e");
        reveal_strlit("f");
    }
    if d == 0 {
        "0"
    } else if d == 1 {
        "1"
    } else if d == 2 {
        "2"
    } else if d == 3 {
        "3"
    } else if d == 4 {
        "4"
    } else if d == 5 {
        "5"
    } else if d == 6 {
        "6"
    } else if d == 7 {
        "7"
    } else if d == 8 {
        "8"
    } else if d == 9 {
        "9"
    } else if d == 10 {
        "a"
    } else if d == 11 {
        "b"
    } else if d == 12 {
        "c"
    } else if d == 13 {
        "d"
    } else if d == 14 {
        "e"
    } else {
        "f"
    }
}

/// Appends the body of a JSON string literal holding `s` to `out`.
fn append_json_escaped(out: &mut String, s: &str)
    ensures
        final(out)@ == old(out)@ + json_escape(s@),
{
    let len = s.unicode_len();
    let mut i: usize = 0;
    while i < len
        invariant
            len == s@.len(),
            0 <= i <= len,
            out@ == old(out)@ + json_escape(s@.take(i as int)),
        decreases len - i,
    {
        let ghost pre = s@.take(i as int);
        let ghost pre1 = s@.take(i as int + 1);
        proof {
            assert(pre1.drop_last() =~= pre);
            assert(pre1.last() == s@[i as int]);
        }
        let c = s.get_char(i);
        if c == '"' {
            out.append("\\\"");
        } else if c == '\\' {
            out.append("\\\\");
        } else if c == '\n' {
            out.append("\\n");
        } else if c == '\r' {
            out.append("\\r");
        } else if c == '\t' {
            out.append("\\t");
        } else if (c as u32) < 32 {
            let n = c as u32;
            out.append("\\u00");
            out.append(hex_char_exec(n / 16));
            out.append(hex_char_exec(n % 16));
            proof {
                assert((n / 16) < 16);
                assert(json_escape_char(s@[i as int]) == control_escape(s@[i as int]));
                assert(control_escape(s@[i as int]) =~= "\\u00"@ + seq![
                    hex_char((n / 16) as int),
                    hex_char((n % 16) as int),
                ]);
                assert(seq![digit_char((n / 16) as int)] =~= seq![hex_char((n / 16) as int)]);
                assert(out@ =~= old(out)@ + json_escape(pre1));
            }
        } else {
            let one = s.substring_char(i, i + 1);
            proof {
                assert(one@ =~= seq![s@[i as int]]);
            }
            out.append(one);
        }
        proof {
            assert(out@ =~= old(out)@ + json_escape(pre1));
        }
        i = i + 1;
    }
    proof {
        assert(s@.take(len as int) =~= s@);
    }
}

/// Appends a JSON string literal holding `s` to `out`.
fn append_json_string(out: &mut String, s: &str)
    ensures
        final(out)@ == old(out)@ + json_string(s@),
{
    out.append("\"");
    append_json_escaped(out, s);
    out.append("\"");
    proof {
        assert(out@ =~= old(out)@ + json_string(s@));
    }
}

/// A JSON string literal, or `null` when there is nothing.
pub open spec fn json_opt_string(o: Option<Seq<char>>) -> Seq<char> {
    match o {
        Some(s) => json_string(s),
        None => "null"@,
    }
}

/// The JSON object of one heading: anchor, level (as decimal text), and
/// title, in key order.
pub open spec fn json_of_heading(h: Heading) -> Seq<char> {
    "{\"anchor\":"@ + json_string(h.anchor@) + ",\"level\":"@ + json_string(
        dec_str_of(h.level as nat),
    ) + ",\"title\":"@ + json_string(h.title@) + "}"@
}

/// The comma-joined JSON objects of a heading list.
pub open spec fn json_of_headings(hs: Seq<Heading>) -> Seq<char>
    decreases hs.len(),
{
    if hs.len() == 0 {
        Seq::<char>::empty()
    } else if hs.len() == 1 {
        json_of_heading(hs[0])
    } else {
        json_of_headings(hs.subrange(0, hs.len() - 1)) + ","@ + json_of_heading(hs.last())
    }
}

/// The JSON object of one navigation entry, children included.
pub open spec fn json_of_link(l: Link) -> Seq<char>
    decreases l, 1int,
{
    "{\"path\":"@ + json_string(l.path@) + ",\"title\":"@ + json_string(l.title@)
        + ",\"children\":["@ + json_of_links(l.children@) + "]}"@
}

/// The comma-joined JSON objects of a navigation level.
pub open spec fn json_of_links(ls: Seq<Link>) -> Seq<char>
    decreases ls, 0int,
{
    if ls.len() == 0 {
        Seq::<char>::empty()
    } else if ls.len() == 1 {
        json_of_link(ls[0])
    } else {
        json_of_links(ls.subrange(0, ls.len() - 1)) + ","@ + json_of_link(ls.last())
    }
}

fn append_json_headings(out: &mut String, hs: &Vec<Heading>)
    ensures
        final(out)@ == old(out)@ + json_of_headings(hs@),
{
    let n = hs.len();
    let mut i: usize = 0;
    while i < n
        invariant
            n == hs@.len(),
            0 <= i <= n,
            out@ == old(out)@ + json_of_headings(hs@.take(i as int)),
        decreases n - i,
    {
        let ghost pre = hs@.take(i as int);
        let ghost pre1 = hs@.take(i as int + 1);
        proof {
            assert(pre1.subrange(0, pre1.len() - 1) =~= pre);
            assert(pre1.last() == hs@[i as int]);
        }
        if i > 0 {
            out.append(",");
        }
        let h = &hs[i];
        out.append("{\"anchor\":");
        append_json_string(out, h.anchor.as_str());
        out.append(",\"level\":");
        let level = u32_to_string(h.level as u32);
        append_json_string(out, level.as_str());
        out.append(",\"title\":");
        append_json_string(out, h.title.as_str());
        out.append("}");
        proof {
            assert(out@ =~= old(out)@ + json_of_headings(pre1));
        }
        i = i + 1;
    }
    proof {
        assert(hs@.take(n as int) =~= hs@);
    }
}

fn append_json_link(out: &mut String, l: &Link)
    ensures
        final(out)@ == old(out)@ + json_of_link(*l),
    decreases *l,
{
    out.append("{\"path\":");
    append_json_string(out, l.path.as_str());
    out.append(",\"title\":");
    append_json_string(out, l.title.as_str());
    out.append(",\"children\":[");
    append_json_links(out, &l.children);
    out.append("]}");
    proof {
        assert(out@ =~= old(out)@ + json_of_link(*l));
    }
}

fn append_json_links(out: &mut String, ls: &Vec<Link>)
    ensures
        final(out)@ == old(out)@ + json_of_links(ls@),
    decreases ls@,
{
    let n = ls.len();
    let mut i: usize = 0;
    while i < n
        invariant
            n == ls@.len(),
            0 <= i <= n,
            out@ == old(out)@ + json_of_links(ls@.take(i as int)),
        decreases n - i,
    {
        let ghost pre = ls@.take(i as int);
        let ghost pre1 = ls@.take(i as int + 1);
        proof {
            assert(pre1.subrange(0, pre1.len() - 1) =~= pre);
            assert(pre1.last() == ls@[i as int]);
            assert(decreases_to!(ls@ => ls@[i as int]));
        }
        if i > 0 {
            out.append(",");
        }
        append_json_link(out, &ls[i]);
        proof {
            assert(out@ =~= old(out)@ + json_of_links(pre1));
        }
        i = i + 1;
    }
    proof {
        assert(ls@.take(n as int) =~= ls@);
    }
}

/// The fixed inputs of one build pass: the template sources, the raw
/// assets, the custom include files copied to the output root, the
/// optional custom head include, the theme colors as CSS text, and the
/// timestamp pages are stamped with. They come from outside the model
/// (files on disk, the clock), so the pipeline takes them as plain
/// values.
#[derive(Debug, Clone)]
pub struct BuildInputs {
    pub page_template: String,
    pub navigation_template: String,
    pub nested_navigation_template: String,
    pub style_template: String,
    pub assets: Vec<(String, Vec<u8>)>,
    pub includes: Vec<(String, Vec<u8>)>,
    pub head_include: Option<String>,
    pub theme_main: String,
    pub theme_main_dark: String,
    pub timestamp: String,
}

/// The view of an optional string.
pub open spec fn opt_view(o: Option<String>) -> Option<Seq<char>> {
    match o {
        Some(s) => Some(s@),
        None => None,
    }
}

/// The JSON page data one document is rendered with.
#[verifier::opaque]
pub open spec fn page_json_of(
    d: Document,
    nav: Seq<Link>,
    cfg: Config,
    inputs: BuildInputs,
) -> Seq<char> {
    "{\"base_path\":"@ + json_string(cfg.base_path@) + ",\"build_mode\":"@ + json_string(
        (if cfg.build_mode == crate::site::BuildMode::Dev {
            "dev"@
        } else {
            "release"@
        }),
    ) + ",\"content\":"@ + json_string(d.spec_markdown().as_html@) + ",\"current_path\":"@
        + json_string(d.spec_uri()) + ",\"head_include\":"@ + json_opt_string(
        opt_view(inputs.head_include),
    ) + ",\"headings\":["@ + json_of_headings(d.spec_markdown().headings@) + "]"@ + ",\"logo\":"@
        + json_opt_string(opt_view(cfg.logo)) + ",\"navigation\":["@ + json_of_links(nav) + "]"@
        + ",\"page_title\":"@ + json_string(
        (if d.spec_uri() == "/"@ {
            cfg.title@
        } else {
            d.spec_title()
        }),
    ) + ",\"project_title\":"@ + json_string(cfg.title@) + ",\"timestamp\":"@ + json_string(
        inputs.timestamp@,
    ) + "}"@
}

/// What the template collaborator produces for one document's page.
pub open spec fn page_render_of(
    d: Document,
    nav: Seq<Link>,
    cfg: Config,
    inputs: BuildInputs,
) -> Option<Seq<char>> {
    rendered_template_of(
        inputs.page_template@,
        inputs.navigation_template@,
        inputs.nested_navigation_template@,
        page_json_of(d, nav, cfg, inputs),
    )
}

/// Builds the JSON page data of one document.
fn make_page_json(d: &Document, nav: &Vec<Link>, cfg: &Config, inputs: &BuildInputs) -> (r:
    String)
    ensures
        r@ == page_json_of(*d, nav@, *cfg, *inputs),
{
    let mut out = "{\"base_path\":".to_owned();
    append_json_string(&mut out, cfg.base_path.as_str());
    out.append(",\"build_mode\":");
    append_json_string(&mut out, cfg.build_mode.mode_str());
    out.append(",\"content\":");
    append_json_string(&mut out, d.html());
    out.append(",\"current_path\":");
    let uri = d.uri_path();
    append_json_string(&mut out, uri.as_str());
    out.append(",\"head_include\":");
    match &inputs.head_include {
        Some(h) => append_json_string(&mut out, h.as_str()),
        None => out.append("null"),
    }
    out.append(",\"headings\":[");
    append_json_headings(&mut out, d.headings());
    out.append("]");
    out.append(",\"logo\":");
    match cfg.logo() {
        Some(l) => append_json_string(&mut out, l.as_str()),
        None => out.append("null"),
    }
    out.append(",\"navigation\":[");
    append_json_links(&mut out, nav);
    out.append("]");
    out.append(",\"page_title\":");
    proof {
        reveal_strlit("/");
    }
    if crate::strutil::str_eq(uri.as_str(), "/") {
        append_json_string(&mut out, cfg.title.as_str());
    } else {
        let title = d.title();
        append_json_string(&mut out, title.as_str());
    }
    out.append(",\"project_title\":");
    append_json_string(&mut out, cfg.title.as_str());
    out.append(",\"timestamp\":");
    append_json_string(&mut out, inputs.timestamp.as_str());
    out.append("}");
    proof {
        reveal(page_json_of);
        assert(out@ =~= page_json_of(*d, nav@, *cfg, *inputs));
    }
    out
}

/// The destination and content of every page of a document list, in
/// order (meaningful where every render succeeds).
pub open spec fn docs_pages(
    docs: Seq<Document>,
    nav: Seq<Link>,
    cfg: Config,
    inputs: BuildInputs,
) -> Seq<(Seq<char>, Seq<u8>)>
    decreases docs.len(),
{
    if docs.len() == 0 {
        Seq::<(Seq<char>, Seq<u8>)>::empty()
    } else {
        docs_pages(docs.subrange(0, docs.len() - 1), nav, cfg, inputs).push(
            (
                crate::paths::spec_html_path(docs.last().spec_path()),
                vstd::utf8::encode_utf8(page_render_of(docs.last(), nav, cfg, inputs).unwrap()),
            ),
        )
    }
}

/// Every render of a document list succeeds.
pub open spec fn docs_pages_ok(
    docs: Seq<Document>,
    nav: Seq<Link>,
    cfg: Config,
    inputs: BuildInputs,
) -> bool
    decreases docs.len(),
{
    if docs.len() == 0 {
        true
    } else {
        docs_pages_ok(docs.subrange(0, docs.len() - 1), nav, cfg, inputs) && page_render_of(
            docs.last(),
            nav,
            cfg,
            inputs,
        ) is Some
    }
}

/// The pages of a directory list, in order.
pub open spec fn dirs_pages(
    dirs: Seq<Directory>,
    nav: Seq<Link>,
    cfg: Config,
    inputs: BuildInputs,
) -> Seq<(Seq<char>, Seq<u8>)>
    decreases dirs, 0int,
{
    if dirs.len() == 0 {
        Seq::<(Seq<char>, Seq<u8>)>::empty()
    } else {
        dirs_pages(dirs.subrange(0, dirs.len() - 1), nav, cfg, inputs) + tree_pages(
            dirs.last(),
            nav,
            cfg,
            inputs,
        )
    }
}

/// Every render of a directory list succeeds.
pub open spec fn dirs_pages_ok(
    dirs: Seq<Directory>,
    nav: Seq<Link>,
    cfg: Config,
    inputs: BuildInputs,
) -> bool
    decreases dirs, 0int,
{
    if dirs.len() == 0 {
        true
    } else {
        dirs_pages_ok(dirs.subrange(0, dirs.len() - 1), nav, cfg, inputs) && tree_pages_ok(
            dirs.last(),
            nav,
            cfg,
            inputs,
        )
    }
}

/// The destination and content of every page generated from the tree,
/// depth-first: this directory's documents, then its subdirectories.
pub open spec fn tree_pages(
    dir: Directory,
    nav: Seq<Link>,
    cfg: Config,
    inputs: BuildInputs,
) -> Seq<(Seq<char>, Seq<u8>)>
    decreases dir, 1int,
{
    docs_pages(dir.docs@, nav, cfg, inputs) + dirs_pages(dir.dirs@, nav, cfg, inputs)
}

/// Every render of the tree succeeds.
pub open spec fn tree_pages_ok(
    dir: Directory,
    nav: Seq<Link>,
    cfg: Config,
    inputs: BuildInputs,
) -> bool
    decreases dir, 1int,
{
    docs_pages_ok(dir.docs@, nav, cfg, inputs) && dirs_pages_ok(dir.dirs@, nav, cfg, inputs)
}

/// A document list renders exactly when each of its documents renders.
pub proof fn lemma_docs_pages_ok(
    docs: Seq<Document>,
    nav: Seq<Link>,
    cfg: Config,
    inputs: BuildInputs,
)
    ensures
        docs_pages_ok(docs, nav, cfg, inputs) <==> (forall|i: int|
            0 <= i < docs.len() ==> page_render_of(#[trigger] docs[i], nav, cfg, inputs) is Some),
    decreases docs.len(),
{
    if docs.len() > 0 {
        let pre = docs.subrange(0, docs.len() - 1);
        lemma_docs_pages_ok(pre, nav, cfg, inputs);
        assert(forall|i: int| 0 <= i < pre.len() ==> #[trigger] pre[i] == docs[i]);
        if docs_pages_ok(docs, nav, cfg, inputs) {
            assert forall|i: int| 0 <= i < docs.len() implies page_render_of(
                #[trigger] docs[i],
                nav,
                cfg,
                inputs,
            ) is Some by {
                if i < docs.len() - 1 {
                    assert(pre[i] == docs[i]);
                }
            }
        } else {
            if forall|i: int|
                0 <= i < docs.len() ==> page_render_of(
                    #[trigger] docs[i],
                    nav,
                    cfg,
                    inputs,
                ) is Some {
                assert forall|i: int| 0 <= i < pre.len() implies page_render_of(
                    #[trigger] pre[i],
                    nav,
                    cfg,
                    inputs,
                ) is Some by {
                    assert(pre[i] == docs[i]);
                }
                assert(page_render_of(docs.last(), nav, cfg, inputs) is Some);
                assert(false);
            }
        }
    }
}

/// A directory list renders exactly when each of its trees renders.
pub proof fn lemma_dirs_pages_ok(
    dirs: Seq<Directory>,
    nav: Seq<Link>,
    cfg: Config,
    inputs: BuildInputs,
)
    ensures
        dirs_pages_ok(dirs, nav, cfg, inputs) <==> (forall|i: int|
            0 <= i < dirs.len() ==> tree_pages_ok(#[trigger] dirs[i], nav, cfg, inputs)),
    decreases dirs.len(),
{
    if dirs.len() > 0 {
        let pre = dirs.subrange(0, dirs.len() - 1);
        lemma_dirs_pages_ok(pre, nav, cfg, inputs);
        assert(forall|i: int| 0 <= i < pre.len() ==> #[trigger] pre[i] == dirs[i]);
        if dirs_pages_ok(dirs, nav, cfg, inputs) {
            assert forall|i: int| 0 <= i < dirs.len() implies tree_pages_ok(
                #[trigger] dirs[i],
                nav,
                cfg,
                inputs,
            ) by {
                if i < dirs.len() - 1 {
                    assert(pre[i] == dirs[i]);
                }
            }
        } else {
            if forall|i: int|
                0 <= i < dirs.len() ==> tree_pages_ok(#[trigger] dirs[i], nav, cfg, inputs) {
                assert forall|i: int| 0 <= i < pre.len() implies tree_pages_ok(
                    #[trigger] pre[i],
                    nav,
                    cfg,
                    inputs,
                ) by {
                    assert(pre[i] == dirs[i]);
                }
                assert(tree_pages_ok(dirs.last(), nav, cfg, inputs));
                assert(false);
            }
        }
    }
}

/// Renders every page of the tree into `out`, depth-first. Fails exactly
/// when the template collaborator rejects some page.
#[verifier::rlimit(60)]
fn build_directory(
    dir: &Directory,
    nav: &Vec<Link>,
    cfg: &Config,
    inputs: &BuildInputs,
    out: &mut Vec<(String, Vec<u8>)>,
) -> (r: Result<(), Error>)
    ensures
        (r is Ok <==> tree_pages_ok(*dir, nav@, *cfg, *inputs)),
        r is Ok ==> {
            let pages = tree_pages(*dir, nav@, *cfg, *inputs);
            final(out)@.len() == old(out)@.len() + pages.len() && final(out)@.take(
                old(out)@.len() as int,
            ) == old(out)@ && (forall|i: int|
                old(out)@.len() <= i < final(out)@.len() ==> (#[trigger] final(out)@[i]).0@
                    == pages[i - old(out)@.len()].0 && final(out)@[i].1@ == pages[i - old(
                    out,
                )@.len()].1)
        },
        r is Err ==> final(out)@ == old(out)@,
    decreases *dir,
{
    let ghost start = out@.len() as int;
    let ghost out0 = out@;
    let start_len = out.len();
    let nd = dir.docs.len();
    proof {
        assert(out@.take(start) =~= out@);
        assert(dir.docs@.take(0) =~= Seq::<Document>::empty());
    }
    let mut i: usize = 0;
    while i < nd
        invariant
            nd == dir.docs@.len(),
            0 <= i <= nd,
            0 <= start <= out@.len(),
            start_len == start,
            out0 == old(out)@,
            out@.take(start) == out0,
            docs_pages_ok(dir.docs@.take(i as int), nav@, *cfg, *inputs),
            out@.len() == start + docs_pages(dir.docs@.take(i as int), nav@, *cfg, *inputs).len(),
            forall|k: int|
                start <= k < out@.len() ==> {
                    let s = docs_pages(dir.docs@.take(i as int), nav@, *cfg, *inputs);
                    (#[trigger] out@[k]).0@ == s[k - start].0 && out@[k].1@ == s[k - start].1
                },
        decreases nd - i,
    {
        let ghost pre = dir.docs@.take(i as int);
        let ghost pre1 = dir.docs@.take(i as int + 1);
        proof {
            assert(pre1.subrange(0, pre1.len() - 1) =~= pre);
            assert(pre1.last() == dir.docs@[i as int]);
        }
        let d = &dir.docs[i];
        let data = make_page_json(d, nav, cfg, inputs);
        match render_page_template(
            inputs.page_template.as_str(),
            inputs.navigation_template.as_str(),
            inputs.nested_navigation_template.as_str(),
            data.as_str(),
        ) {
            Some(html) => {
                let ghost before = out@;
                let dest = d.html_path();
                let bytes = html.as_str().as_bytes_vec();
                out.push((dest, bytes));
                proof {
                    assert(out@.take(start) =~= before.take(start));
                    let s_new = docs_pages(pre1, nav@, *cfg, *inputs);
                    assert forall|k: int| start <= k < out@.len() implies ((#[trigger] out@[k]).0@
                        == s_new[k - start].0 && out@[k].1@ == s_new[k - start].1) by {
                        if k < before.len() {
                            assert(out@[k] == before[k]);
                        } else {
                            assert(out@[k] == out@.last());
                        }
                    }
                }
            },
            None => {
                let ghost before_trunc = out@;
                out.truncate(start_len);
                proof {
                    assert(out@ =~= before_trunc.take(start));
                    assert(out@ =~= out0);
                    lemma_docs_pages_ok(dir.docs@, nav@, *cfg, *inputs);
                    assert(page_render_of(dir.docs@[i as int], nav@, *cfg, *inputs) is None);
                    assert(!docs_pages_ok(dir.docs@, nav@, *cfg, *inputs));
                }
                return Err(Error::handlebars("Could not render template"));
            },
        }
        i = i + 1;
    }
    proof {
        assert(dir.docs@.take(nd as int) =~= dir.docs@);
        assert(dir.dirs@.take(0) =~= Seq::<Directory>::empty());
    }
    let ghost doc_part = docs_pages(dir.docs@, nav@, *cfg, *inputs);
    let ns = dir.dirs.len();
    let mut j: usize = 0;
    while j < ns
        invariant
            nd == dir.docs@.len(),
            ns == dir.dirs@.len(),
            0 <= j <= ns,
            0 <= start <= out@.len(),
            start_len == start,
            out0 == old(out)@,
            out@.take(start) == out0,
            doc_part == docs_pages(dir.docs@, nav@, *cfg, *inputs),
            docs_pages_ok(dir.docs@, nav@, *cfg, *inputs),
            dirs_pages_ok(dir.dirs@.take(j as int), nav@, *cfg, *inputs),
            out@.len() == start + doc_part.len() + dirs_pages(
                dir.dirs@.take(j as int),
                nav@,
                *cfg,
                *inputs,
            ).len(),
            forall|k: int|
                start <= k < out@.len() ==> {
                    let s = doc_part + dirs_pages(dir.dirs@.take(j as int), nav@, *cfg, *inputs);
                    (#[trigger] out@[k]).0@ == s[k - start].0 && out@[k].1@ == s[k - start].1
                },
        decreases ns - j,
    {
        let ghost pre = dir.dirs@.take(j as int);
        let ghost pre1 = dir.dirs@.take(j as int + 1);
        proof {
            assert(pre1.subrange(0, pre1.len() - 1) =~= pre);
            assert(pre1.last() == dir.dirs@[j as int]);
            assert(decreases_to!(dir.dirs@ => dir.dirs@[j as int]));
        }
        let ghost before = out@;
        let ghost prev_len = out@.len() as int;
        match build_directory(&dir.dirs[j], nav, cfg, inputs, out) {
            Ok(_) => {
                proof {
                    let s_old = doc_part + dirs_pages(pre, nav@, *cfg, *inputs);
                    let s_new = doc_part + dirs_pages(pre1, nav@, *cfg, *inputs);
                    let part = tree_pages(dir.dirs@[j as int], nav@, *cfg, *inputs);
                    assert(dirs_pages(pre1, nav@, *cfg, *inputs) == dirs_pages(
                        pre,
                        nav@,
                        *cfg,
                        *inputs,
                    ) + part);
                    assert(s_new =~= s_old + part);
                    assert(out@.take(prev_len) == before);
                    assert(out@.take(start) =~= out@.take(prev_len).take(start));
                    assert forall|k: int| start <= k < out@.len() implies ((#[trigger] out@[k]).0@
                        == s_new[k - start].0 && out@[k].1@ == s_new[k - start].1) by {
                        if k < prev_len {
                            assert(out@[k] == out@.take(prev_len)[k]);
                            assert(out@[k] == before[k]);
                            assert(s_new[k - start] == s_old[k - start]);
                        } else {
                            assert(s_new[k - start] == part[k - prev_len]);
                        }
                    }
                }
            },
            Err(e) => {
                let ghost before_trunc = out@;
                out.truncate(start_len);
                proof {
                    assert(before_trunc.take(start) == out0);
                    assert(out@ =~= before_trunc.take(start));
                    assert(out@ =~= out0);
                    lemma_dirs_pages_ok(dir.dirs@, nav@, *cfg, *inputs);
                    assert(!tree_pages_ok(dir.dirs@[j as int], nav@, *cfg, *inputs));
                    assert(!dirs_pages_ok(dir.dirs@, nav@, *cfg, *inputs));
                }
                return Err(e);
            },
        }
        j = j + 1;
    }
    proof {
        assert(dir.dirs@.take(ns as int) =~= dir.dirs@);
    }
    Ok(())
}

/// The site-relative output path of a named asset.
pub open spec fn asset_key(name: Seq<char>) -> Seq<char> {
    "assets/"@ + name
}

/// The artifact entries of the custom include files, written at the
/// output root under their given site-relative paths, in order; an entry
/// whose path is empty or not relative is left out.
pub open spec fn includes_entries(incs: Seq<(String, Vec<u8>)>) -> Seq<(Seq<char>, Seq<u8>)>
    decreases incs.len(),
{
    if incs.len() == 0 {
        Seq::<(Seq<char>, Seq<u8>)>::empty()
    } else {
        let pre = includes_entries(incs.subrange(0, incs.len() - 1));
        if incs.last().0@.len() == 0 || incs.last().0@[0] == '/' {
            pre
        } else {
            pre.push((incs.last().0@, incs.last().1@))
        }
    }
}

/// The artifact entries of the fixed assets, in order; the live-reload
/// script is carried in development builds only.
pub open spec fn assets_entries(assets: Seq<(String, Vec<u8>)>, mode: crate::site::BuildMode) -> Seq<
    (Seq<char>, Seq<u8>),
>
    decreases assets.len(),
{
    if assets.len() == 0 {
        Seq::<(Seq<char>, Seq<u8>)>::empty()
    } else {
        let pre = assets_entries(assets.subrange(0, assets.len() - 1), mode);
        if mode == crate::site::BuildMode::Release && assets.last().0@ == "livereload.js"@ {
            pre
        } else {
            pre.push((asset_key(assets.last().0@), assets.last().1@))
        }
    }
}

/// The JSON data the style sheet template is rendered with.
pub open spec fn style_json_of(inputs: BuildInputs) -> Seq<char> {
    "{\"theme_main\":"@ + json_string(inputs.theme_main@) + ",\"theme_main_dark\":"@ + json_string(
        inputs.theme_main_dark@,
    ) + "}"@
}

/// The search index entry of one document: its id as the reference key,
/// with its title, its URI and its body text.
pub open spec fn doc_index_entry(d: Document) -> (Seq<char>, Seq<Seq<char>>) {
    (
        dec_str_of(d.id as nat),
        seq![
            d.spec_title(),
            d.spec_uri(),
            d.spec_raw().skip(crate::frontmatter::spec_end_pos(d.spec_raw()) as int),
        ],
    )
}

/// The search index entries of a document list, in order.
pub open spec fn docs_index_entries(docs: Seq<Document>) -> Seq<(Seq<char>, Seq<Seq<char>>)>
    decreases docs.len(),
{
    if docs.len() == 0 {
        Seq::<(Seq<char>, Seq<Seq<char>>)>::empty()
    } else {
        docs_index_entries(docs.subrange(0, docs.len() - 1)).push(doc_index_entry(docs.last()))
    }
}

/// The search index entries of a directory list, in order.
pub open spec fn dirs_index_entries(dirs: Seq<Directory>) -> Seq<(Seq<char>, Seq<Seq<char>>)>
    decreases dirs, 0int,
{
    if dirs.len() == 0 {
        Seq::<(Seq<char>, Seq<Seq<char>>)>::empty()
    } else {
        dirs_index_entries(dirs.subrange(0, dirs.len() - 1)) + tree_index_entries(dirs.last())
    }
}

/// The search index entries of the whole tree, depth-first.
pub open spec fn tree_index_entries(dir: Directory) -> Seq<(Seq<char>, Seq<Seq<char>>)>
    decreases dir, 1int,
{
    docs_index_entries(dir.docs@) + dirs_index_entries(dir.dirs@)
}

/// The fields of the site search index.
pub open spec fn search_fields() -> Seq<Seq<char>> {
    seq!["title"@, "uri"@, "body"@]
}

fn fill_search_index(dir: &Directory, index: &mut elasticlunr::Index)
    requires
        index_fields(*old(index)).len() == 3,
    ensures
        index_fields(*final(index)) == index_fields(*old(index)),
        index_docs(*final(index)) == index_docs(*old(index)) + tree_index_entries(*dir),
    decreases *dir,
{
    let ghost fields0 = index_fields(*index);
    let ghost docs0 = index_docs(*index);
    let nd = dir.docs.len();
    proof {
        assert(dir.docs@.take(0) =~= Seq::<Document>::empty());
        assert(index_docs(*index) =~= docs0 + docs_index_entries(dir.docs@.take(0)));
    }
    let mut i: usize = 0;
    while i < nd
        invariant
            nd == dir.docs@.len(),
            0 <= i <= nd,
            fields0 == index_fields(*old(index)),
            docs0 == index_docs(*old(index)),
            index_fields(*index) == fields0,
            fields0.len() == 3,
            index_docs(*index) == docs0 + docs_index_entries(dir.docs@.take(i as int)),
        decreases nd - i,
    {
        let ghost pre = dir.docs@.take(i as int);
        let ghost pre1 = dir.docs@.take(i as int + 1);
        proof {
            assert(pre1.subrange(0, pre1.len() - 1) =~= pre);
            assert(pre1.last() == dir.docs@[i as int]);
        }
        let d = &dir.docs[i];
        let doc_ref = u32_to_string(d.id);
        let title = d.title();
        let uri = d.uri_path();
        let body = d.markdown_section().to_owned();
        let mut data: Vec<String> = Vec::new();
        data.push(title);
        data.push(uri);
        data.push(body);
        index_add_doc(index, doc_ref.as_str(), &data);
        proof {
            assert(data@.map_values(|s: String| s@) =~= doc_index_entry(dir.docs@[i as int]).1);
            assert(index_docs(*index) =~= docs0 + docs_index_entries(pre1));
        }
        i = i + 1;
    }
    proof {
        assert(dir.docs@.take(nd as int) =~= dir.docs@);
        assert(dir.dirs@.take(0) =~= Seq::<Directory>::empty());
        assert(index_docs(*index) =~= docs0 + docs_index_entries(dir.docs@) + dirs_index_entries(
            dir.dirs@.take(0),
        ));
    }
    let ghost doc_part = docs_index_entries(dir.docs@);
    let ns = dir.dirs.len();
    let mut j: usize = 0;
    while j < ns
        invariant
            ns == dir.dirs@.len(),
            0 <= j <= ns,
            fields0 == index_fields(*old(index)),
            docs0 == index_docs(*old(index)),
            index_fields(*index) == fields0,
            fields0.len() == 3,
            doc_part == docs_index_entries(dir.docs@),
            index_docs(*index) == docs0 + doc_part + dirs_index_entries(
                dir.dirs@.take(j as int),
            ),
        decreases ns - j,
    {
        let ghost pre = dir.dirs@.take(j as int);
        let ghost pre1 = dir.dirs@.take(j as int + 1);
        proof {
            assert(pre1.subrange(0, pre1.len() - 1) =~= pre);
            assert(pre1.last() == dir.dirs@[j as int]);
            assert(decreases_to!(dir.dirs@ => dir.dirs@[j as int]));
        }
        fill_search_index(&dir.dirs[j], index);
        proof {
            assert(index_docs(*index) =~= docs0 + doc_part + dirs_index_entries(pre1));
        }
        j = j + 1;
    }
    proof {
        assert(dir.dirs@.take(ns as int) =~= dir.dirs@);
        assert(index_docs(*index) =~= docs0 + tree_index_entries(*dir));
    }
}

/// The artifact map one build pass writes, in write order: the custom
/// include files, the assets, the themed style sheet, every document's
/// page, and the search index.
pub open spec fn built_entries(
    root: Directory,
    nav: Seq<Link>,
    cfg: Config,
    inputs: BuildInputs,
) -> Seq<(Seq<char>, Seq<u8>)> {
    includes_entries(inputs.includes@) + assets_entries(inputs.assets@, cfg.build_mode).push(
        (
            "assets/doctave-style.css"@,
            vstd::utf8::encode_utf8(
                rendered_single_of(inputs.style_template@, style_json_of(inputs)).unwrap(),
            ),
        ),
    ) + tree_pages(root, nav, cfg, inputs).push(
        (
            "search_index.json"@,
            vstd::utf8::encode_utf8(search_json_of(search_fields(), tree_index_entries(root))),
        ),
    )
}

/// A write list folded into the artifact map it leaves behind.
pub open spec fn insert_entries(
    m: Map<Seq<char>, Seq<u8>>,
    s: Seq<(Seq<char>, Seq<u8>)>,
) -> Map<Seq<char>, Seq<u8>>
    decreases s.len(),
{
    if s.len() == 0 {
        m
    } else {
        insert_entries(m, s.subrange(0, s.len() - 1)).insert(s.last().0, s.last().1)
    }
}

/// The artifact map a successful build leaves behind.
pub open spec fn spec_built_map(
    root: Directory,
    nav: Seq<Link>,
    cfg: Config,
    inputs: BuildInputs,
) -> Map<Seq<char>, Seq<u8>> {
    insert_entries(Map::<Seq<char>, Seq<u8>>::empty(), built_entries(root, nav, cfg, inputs))
}

/// A build pass succeeds: the style sheet and every page render.
pub open spec fn spec_build_ok(
    root: Directory,
    nav: Seq<Link>,
    cfg: Config,
    inputs: BuildInputs,
) -> bool {
    rendered_single_of(inputs.style_template@, style_json_of(inputs)) is Some && tree_pages_ok(
        root,
        nav,
        cfg,
        inputs,
    )
}

/// `nav` is a navigation the configuration admits for `root`: the default
/// tree, or the authored override of it.
pub open spec fn nav_ok(root: Directory, cfg: Config, nav: Seq<Link>) -> bool {
    match cfg.navigation {
        None => crate::document::links_ok(root, nav),
        Some(rules) => exists|dft: Seq<Link>|
            {
                &&& #[trigger] crate::document::links_ok(root, dft)
                &&& crate::navigation::customize_spec(
                    cfg.base_path@,
                    rules@,
                    links_view(dft),
                ) == Some(links_view(nav))
            },
    }
}

/// A build pass over this site state is bound to fail: some document
/// path is not relative to the docs root, some authored navigation rule
/// names no link of the default tree, or the template collaborator
/// rejects the style sheet or some page. A build returns an error only
/// on these inputs; on every other input success is owed.
pub open spec fn spec_build_fails(root: Directory, cfg: Config, inputs: BuildInputs) -> bool {
    ||| !tree_rel_paths(root)
    ||| (match cfg.navigation {
        Some(rules) => exists|dft: Seq<Link>|
            {
                &&& #[trigger] crate::document::links_ok(root, dft)
                &&& crate::navigation::customize_spec(
                    cfg.base_path@,
                    rules@,
                    links_view(dft),
                ) is None
            },
        None => false,
    })
    ||| exists|nav: Seq<Link>|
        #[trigger] nav_ok(root, cfg, nav) && !spec_build_ok(root, nav, cfg, inputs)
}

/// Every document path of the tree is relative (no leading `/`), so its
/// page lands under the output directory.
pub open spec fn tree_rel_paths(dir: Directory) -> bool
    decreases dir, 1int,
{
    (forall|i: int|
        0 <= i < dir.docs@.len() ==> ((#[trigger] dir.docs@[i]).spec_path().len() == 0
            || dir.docs@[i].spec_path()[0] != '/')) && dirs_rel_paths(dir.dirs@)
}

/// As `tree_rel_paths`, over a directory list.
pub open spec fn dirs_rel_paths(dirs: Seq<Directory>) -> bool
    decreases dirs, 0int,
{
    if dirs.len() == 0 {
        true
    } else {
        tree_rel_paths(dirs[0]) && dirs_rel_paths(dirs.subrange(1, dirs.len() as int))
    }
}

/// `dirs_rel_paths` holds exactly when it holds of each element.
proof fn lemma_dirs_rel_paths(dirs: Seq<Directory>)
    ensures
        dirs_rel_paths(dirs) <==> (forall|i: int|
            0 <= i < dirs.len() ==> tree_rel_paths(#[trigger] dirs[i])),
    decreases dirs.len(),
{
    if dirs.len() > 0 {
        let tl = dirs.subrange(1, dirs.len() as int);
        lemma_dirs_rel_paths(tl);
        assert(forall|i: int| 0 <= i < tl.len() ==> #[trigger] tl[i] == dirs[i + 1]);
        if dirs_rel_paths(dirs) {
            assert forall|i: int| 0 <= i < dirs.len() implies tree_rel_paths(
                #[trigger] dirs[i],
            ) by {
                if i > 0 {
                    assert(tl[i - 1] == dirs[i]);
                }
            }
        } else {
            if forall|i: int| 0 <= i < dirs.len() ==> tree_rel_paths(#[trigger] dirs[i]) {
                assert forall|i: int| 0 <= i < tl.len() implies tree_rel_paths(
                    #[trigger] tl[i],
                ) by {
                    assert(tl[i] == dirs[i + 1]);
                }
                assert(tree_rel_paths(dirs[0]));
                assert(false);
            }
        }
    }
}

/// Checks that every document path of the tree is relative.
fn check_tree_rel(dir: &Directory) -> (r: bool)
    ensures
        r == tree_rel_paths(*dir),
    decreases *dir,
{
    proof {
        reveal_strlit("/");
    }
    let nd = dir.docs.len();
    let mut i: usize = 0;
    while i < nd
        invariant
            nd == dir.docs@.len(),
            0 <= i <= nd,
            forall|k: int|
                0 <= k < i ==> ((#[trigger] dir.docs@[k]).spec_path().len() == 0
                    || dir.docs@[k].spec_path()[0] != '/'),
        decreases nd - i,
    {
        let p = dir.docs[i].original_path();
        if p.as_str().unicode_len() > 0 && p.as_str().get_char(0) == '/' {
            return false;
        }
        i = i + 1;
    }
    let ns = dir.dirs.len();
    proof {
        lemma_dirs_rel_paths(dir.dirs@);
    }
    let mut j: usize = 0;
    while j < ns
        invariant
            ns == dir.dirs@.len(),
            0 <= j <= ns,
            forall|k: int|
                0 <= k < dir.docs@.len() ==> ((#[trigger] dir.docs@[k]).spec_path().len() == 0
                    || dir.docs@[k].spec_path()[0] != '/'),
            forall|k: int| 0 <= k < j ==> tree_rel_paths(#[trigger] dir.dirs@[k]),
        decreases ns - j,
    {
        proof {
            assert(decreases_to!(dir.dirs@ => dir.dirs@[j as int]));
        }
        if !check_tree_rel(&dir.dirs[j]) {
            proof {
                lemma_dirs_rel_paths(dir.dirs@);
            }
            return false;
        }
        j = j + 1;
    }
    proof {
        lemma_dirs_rel_paths(dir.dirs@);
    }
    true
}

/// A relative source path makes a relative output path.
proof fn lemma_html_head(p: Seq<char>)
    requires
        p.len() == 0 || p[0] != '/',
    ensures
        crate::paths::spec_html_path(p).len() > 0,
        crate::paths::spec_html_path(p)[0] != '/',
{
    reveal_strlit("README.md");
    reveal_strlit("index.html");
    reveal_strlit(".html");
    let fs = crate::paths::file_name_start(p);
    crate::paths::lemma_file_name_start_props(p);
    let f = p.skip(fs);
    let html = crate::paths::spec_html_path(p);
    if f == "README.md"@ {
        if fs > 0 {
            assert(html[0] == p[0]);
        } else {
            assert(html =~= "index.html"@);
            assert(html[0] == 'i');
        }
    } else {
        crate::paths::lemma_ext_start_props(f);
        match crate::paths::ext_start(f) {
            Some(e) => {
                if fs > 0 {
                    assert(html[0] == p[0]);
                } else {
                    assert(html[0] == f[0]);
                    assert(f[0] == p[0]);
                }
            },
            None => {
                if p.len() > 0 {
                    assert(html[0] == p[0]);
                } else {
                    assert(html =~= ".html"@);
                    assert(html[0] == '.');
                }
            },
        }
    }
}

/// Joining a relative path under the output directory and stripping the
/// output directory back off returns the relative path.
proof fn lemma_join_key(out: Seq<char>, rel: Seq<char>)
    requires
        rel.len() == 0 || rel[0] != '/',
    ensures
        crate::strutil::is_prefix_of(out, crate::paths::spec_join(out, rel)),
        crate::paths::trim_leading_slashes(
            crate::paths::spec_join(out, rel).skip(out.len() as int),
        ) == rel,
{
    reveal_strlit("/");
    let joined = crate::paths::spec_join(out, rel);
    if out.len() == 0 {
        assert(joined == rel);
        assert(joined.subrange(0, 0) =~= out);
        assert(joined.skip(0) =~= rel);
        assert(crate::paths::trim_leading_slashes(rel) == rel);
    } else if out.last() == '/' {
        assert(joined == out + rel);
        assert(joined.subrange(0, out.len() as int) =~= out);
        assert(joined.skip(out.len() as int) =~= rel);
        assert(crate::paths::trim_leading_slashes(rel) == rel);
    } else {
        assert(joined == out + "/"@ + rel);
        assert("/"@.len() == 1);
        assert(joined.subrange(0, out.len() as int) =~= out);
        let tail = joined.skip(out.len() as int);
        assert(tail =~= "/"@ + rel);
        assert(tail[0] == '/');
        assert(tail.skip(1) =~= rel);
        assert(crate::paths::trim_leading_slashes(tail) == crate::paths::trim_leading_slashes(
            rel,
        ));
        assert(crate::paths::trim_leading_slashes(rel) == rel);
    }
}

/// Splitting a write list splits the map fold.
proof fn lemma_insert_entries_add(
    m: Map<Seq<char>, Seq<u8>>,
    a: Seq<(Seq<char>, Seq<u8>)>,
    b: Seq<(Seq<char>, Seq<u8>)>,
)
    ensures
        insert_entries(m, a + b) == insert_entries(insert_entries(m, a), b),
    decreases b.len(),
{
    if b.len() == 0 {
        assert(a + b =~= a);
    } else {
        let b0 = b.subrange(0, b.len() - 1);
        lemma_insert_entries_add(m, a, b0);
        assert((a + b).subrange(0, (a + b).len() - 1) =~= a + b0);
        assert((a + b).last() == b.last());
    }
}

/// Every page entry of a tree with relative paths has a relative key.
proof fn lemma_tree_pages_heads(
    dir: Directory,
    nav: Seq<Link>,
    cfg: Config,
    inputs: BuildInputs,
)
    requires
        tree_rel_paths(dir),
    ensures
        forall|k: int|
            0 <= k < tree_pages(dir, nav, cfg, inputs).len() ==> ((#[trigger] tree_pages(
                dir,
                nav,
                cfg,
                inputs,
            )[k]).0.len() > 0 && tree_pages(dir, nav, cfg, inputs)[k].0[0] != '/'),
    decreases dir, 1int,
{
    let pages = tree_pages(dir, nav, cfg, inputs);
    lemma_docs_pages_heads(dir.docs@, nav, cfg, inputs);
    lemma_dirs_rel_paths(dir.dirs@);
    lemma_dirs_pages_heads(dir.dirs@, nav, cfg, inputs);
    let dp = docs_pages(dir.docs@, nav, cfg, inputs);
    let sp = dirs_pages(dir.dirs@, nav, cfg, inputs);
    assert(pages == dp + sp);
    assert forall|k: int| 0 <= k < pages.len() implies ((#[trigger] pages[k]).0.len() > 0
        && pages[k].0[0] != '/') by {
        if k < dp.len() {
            assert(pages[k] == dp[k]);
        } else {
            assert(pages[k] == sp[k - dp.len()]);
        }
    }
}

/// As `lemma_tree_pages_heads`, over a document list.
proof fn lemma_docs_pages_heads(
    docs: Seq<Document>,
    nav: Seq<Link>,
    cfg: Config,
    inputs: BuildInputs,
)
    requires
        forall|i: int|
            0 <= i < docs.len() ==> ((#[trigger] docs[i]).spec_path().len() == 0
                || docs[i].spec_path()[0] != '/'),
    ensures
        forall|k: int|
            0 <= k < docs_pages(docs, nav, cfg, inputs).len() ==> ((#[trigger] docs_pages(
                docs,
                nav,
                cfg,
                inputs,
            )[k]).0.len() > 0 && docs_pages(docs, nav, cfg, inputs)[k].0[0] != '/'),
    decreases docs.len(),
{
    if docs.len() > 0 {
        let pre = docs.subrange(0, docs.len() - 1);
        assert(forall|i: int| 0 <= i < pre.len() ==> #[trigger] pre[i] == docs[i]);
        lemma_docs_pages_heads(pre, nav, cfg, inputs);
        lemma_html_head(docs.last().spec_path());
        let s = docs_pages(docs, nav, cfg, inputs);
        let s0 = docs_pages(pre, nav, cfg, inputs);
        assert forall|k: int| 0 <= k < s.len() implies ((#[trigger] s[k]).0.len() > 0 && s[k].0[0]
            != '/') by {
            if k < s.len() - 1 {
                assert(s[k] == s0[k]);
            }
        }
    }
}

/// As `lemma_tree_pages_heads`, over a directory list.
proof fn lemma_dirs_pages_heads(
    dirs: Seq<Directory>,
    nav: Seq<Link>,
    cfg: Config,
    inputs: BuildInputs,
)
    requires
        forall|i: int| 0 <= i < dirs.len() ==> tree_rel_paths(#[trigger] dirs[i]),
    ensures
        forall|k: int|
            0 <= k < dirs_pages(dirs, nav, cfg, inputs).len() ==> ((#[trigger] dirs_pages(
                dirs,
                nav,
                cfg,
                inputs,
            )[k]).0.len() > 0 && dirs_pages(dirs, nav, cfg, inputs)[k].0[0] != '/'),
    decreases dirs, 0int,
{
    if dirs.len() > 0 {
        let pre = dirs.subrange(0, dirs.len() - 1);
        assert(forall|i: int| 0 <= i < pre.len() ==> #[trigger] pre[i] == dirs[i]);
        lemma_dirs_pages_heads(pre, nav, cfg, inputs);
        assert(decreases_to!(dirs => dirs[dirs.len() - 1]));
        lemma_tree_pages_heads(dirs.last(), nav, cfg, inputs);
        let s = dirs_pages(dirs, nav, cfg, inputs);
        let s0 = dirs_pages(pre, nav, cfg, inputs);
        let part = tree_pages(dirs.last(), nav, cfg, inputs);
        assert forall|k: int| 0 <= k < s.len() implies ((#[trigger] s[k]).0.len() > 0 && s[k].0[0]
            != '/') by {
            if k < s0.len() {
                assert(s[k] == s0[k]);
            } else {
                assert(s[k] == part[k - s0.len()]);
            }
        }
    }
}

/// One build pass against a site backend: clears the artifacts and
/// writes the assets, the themed style sheet, every document's page, and
/// the search index, in that order. Nothing is written when any step of
/// the pipeline fails, so a failed build leaves the site untouched.
#[verifier::rlimit(100)]
pub fn build_site<B: SiteBackend>(site: &mut Site<B>, inputs: &BuildInputs) -> (r: Result<
    (),
    Error,
>)
    requires
        old(site).backend.spec_out_dir() == old(site).config.out_dir@,
        tree_indexed(old(site).backend.site_root()),
    ensures
        final(site).config == old(site).config,
        final(site).backend.site_root() == old(site).backend.site_root(),
        final(site).backend.spec_out_dir() == old(site).backend.spec_out_dir(),
        r is Ok ==> exists|nav: Seq<Link>|
            {
                &&& #[trigger] nav_ok(old(site).backend.site_root(), old(site).config, nav)
                &&& spec_build_ok(old(site).backend.site_root(), nav, old(site).config, *inputs)
                &&& final(site).backend.artifacts() == spec_built_map(
                    old(site).backend.site_root(),
                    nav,
                    old(site).config,
                    *inputs,
                )
            },
        r is Err ==> final(site).backend.artifacts() == old(site).backend.artifacts()
            && spec_build_fails(old(site).backend.site_root(), old(site).config, *inputs),
{
    proof {
        reveal_strlit("livereload.js");
        reveal_strlit("assets/");
        reveal_strlit("assets/doctave-style.css");
        reveal_strlit("search_index.json");
        reveal_strlit("title");
        reveal_strlit("uri");
        reveal_strlit("body");
    }
    let ghost root0 = site.backend.site_root();
    let ghost cfg0 = site.config;
    let (ghost_nav, nav, pages, search_json, style_html) = {
        let root = site.backend.root();
        if !check_tree_rel(root) {
            proof {
                assert(spec_build_fails(root0, cfg0, *inputs));
            }
            return Err(Error::new("A document path is not relative to the docs root"));
        }
        let navigation = crate::navigation::Navigation::new(&site.config);
        let nav = match navigation.build_for(root) {
            Ok(n) => n,
            Err(e) => {
                proof {
                    assert(spec_build_fails(root0, cfg0, *inputs));
                }
                return Err(e);
            },
        };
        let ghost gnav = nav@;
        proof {
            assert(nav_ok(root0, cfg0, gnav));
        }
        let mut pages: Vec<(String, Vec<u8>)> = Vec::new();
        match build_directory(root, &nav, &site.config, inputs, &mut pages) {
            Ok(_) => {},
            Err(e) => {
                proof {
                    assert(nav_ok(root0, cfg0, gnav));
                    assert(!spec_build_ok(root0, gnav, cfg0, *inputs));
                    assert(spec_build_fails(root0, cfg0, *inputs));
                }
                return Err(e);
            },
        }
        let mut fields: Vec<String> = Vec::new();
        fields.push("title".to_owned());
        fields.push("uri".to_owned());
        fields.push("body".to_owned());
        proof {
            reveal_strlit("title");
            reveal_strlit("uri");
            reveal_strlit("body");
            assert(fields@.len() == 3);
            assert(fields@[0]@ == "title"@ && fields@[1]@ == "uri"@ && fields@[2]@ == "body"@);
            assert("title"@.len() == 5 && "uri"@.len() == 3 && "body"@.len() == 4);
        }
        let mut index = index_new(&fields);
        proof {
            assert(fields@.map_values(|s: String| s@) =~= search_fields());
            assert(index_docs(index) + tree_index_entries(root0) =~= tree_index_entries(root0));
        }
        fill_search_index(root, &mut index);
        let search_json = index_to_json(&index);
        let mut style_data = "{\"theme_main\":".to_owned();
        append_json_string(&mut style_data, inputs.theme_main.as_str());
        style_data.append(",\"theme_main_dark\":");
        append_json_string(&mut style_data, inputs.theme_main_dark.as_str());
        style_data.append("}");
        proof {
            assert(style_data@ =~= style_json_of(*inputs));
        }
        let style_html = match render_single_template(
            inputs.style_template.as_str(),
            style_data.as_str(),
        ) {
            Some(h) => h,
            None => {
                proof {
                    assert(nav_ok(root0, cfg0, gnav));
                    assert(!spec_build_ok(root0, gnav, cfg0, *inputs));
                    assert(spec_build_fails(root0, cfg0, *inputs));
                }
                return Err(Error::handlebars("Could not write custom style sheet"));
            },
        };
        (Ghost(nav@), nav, pages, search_json, style_html)
    };
    let ghost gnav: Seq<Link> = ghost_nav@;
    let ghost all_entries = built_entries(root0, gnav, cfg0, *inputs);
    let ghost asset_part = assets_entries(inputs.assets@, cfg0.build_mode).push(
        (
            "assets/doctave-style.css"@,
            vstd::utf8::encode_utf8(
                rendered_single_of(inputs.style_template@, style_json_of(*inputs)).unwrap(),
            ),
        ),
    );
    let ghost page_part = tree_pages(root0, gnav, cfg0, *inputs);
    let ghost inc_part = includes_entries(inputs.includes@);
    site.backend.clear();
    let ni = inputs.includes.len();
    proof {
        assert(includes_entries(inputs.includes@.take(0)) =~= Seq::<(Seq<char>, Seq<u8>)>::empty());
    }
    let mut h: usize = 0;
    while h < ni
        invariant
            ni == inputs.includes@.len(),
            0 <= h <= ni,
            site.config == cfg0,
            site.backend.site_root() == root0,
            site.backend.spec_out_dir() == cfg0.out_dir@,
            site.backend.artifacts() == insert_entries(
                Map::<Seq<char>, Seq<u8>>::empty(),
                includes_entries(inputs.includes@.take(h as int)),
            ),
        decreases ni - h,
    {
        let ghost pre = inputs.includes@.take(h as int);
        let ghost pre1 = inputs.includes@.take(h as int + 1);
        proof {
            assert(pre1.subrange(0, pre1.len() - 1) =~= pre);
            assert(pre1.last() == inputs.includes@[h as int]);
        }
        let name = &inputs.includes[h].0;
        let nlen = name.as_str().unicode_len();
        if nlen > 0 && name.as_str().get_char(0) != '/' {
            proof {
                lemma_join_key(cfg0.out_dir@, name@);
            }
            let dest = crate::paths::join(site.config.out_dir.as_str(), name.as_str());
            let bytes = inputs.includes[h].1.clone();
            proof {
                assert(bytes@ =~= inputs.includes@[h as int].1@);
            }
            site.backend.add_file(dest.as_str(), bytes);
            proof {
                let ie_pre = includes_entries(pre);
                let ie_pre1 = includes_entries(pre1);
                assert(ie_pre1 == ie_pre.push(
                    (inputs.includes@[h as int].0@, inputs.includes@[h as int].1@),
                ));
                assert(ie_pre1.subrange(0, ie_pre1.len() - 1) =~= ie_pre);
                assert(ie_pre1.last() == (
                    inputs.includes@[h as int].0@,
                    inputs.includes@[h as int].1@,
                ));
                assert(site.backend.artifacts() == insert_entries(
                    Map::<Seq<char>, Seq<u8>>::empty(),
                    ie_pre1,
                ));
            }
        } else {
            proof {
                assert(includes_entries(pre1) == includes_entries(pre));
            }
        }
        h = h + 1;
    }
    proof {
        assert(inputs.includes@.take(ni as int) =~= inputs.includes@);
        assert(inc_part + assets_entries(inputs.assets@.take(0), cfg0.build_mode) =~= inc_part);
    }
    let na = inputs.assets.len();
    let mut i: usize = 0;
    while i < na
        invariant
            na == inputs.assets@.len(),
            0 <= i <= na,
            site.config == cfg0,
            site.backend.site_root() == root0,
            site.backend.spec_out_dir() == cfg0.out_dir@,
            inc_part == includes_entries(inputs.includes@),
            site.backend.artifacts() == insert_entries(
                Map::<Seq<char>, Seq<u8>>::empty(),
                inc_part + assets_entries(inputs.assets@.take(i as int), cfg0.build_mode),
            ),
        decreases na - i,
    {
        proof {
            reveal_strlit("livereload.js");
            reveal_strlit("assets/");
        }
        let ghost pre = inputs.assets@.take(i as int);
        let ghost pre1 = inputs.assets@.take(i as int + 1);
        proof {
            assert(pre1.subrange(0, pre1.len() - 1) =~= pre);
            assert(pre1.last() == inputs.assets@[i as int]);
        }
        let name = &inputs.assets[i].0;
        let skip_asset = match site.config.build_mode {
            crate::site::BuildMode::Release => crate::strutil::str_eq(
                name.as_str(),
                "livereload.js",
            ),
            crate::site::BuildMode::Dev => false,
        };
        if !skip_asset {
            let rel = concat2("assets/", name.as_str());
            proof {
                assert("assets/"@.len() == 7);
                assert(rel@[0] == "assets/"@[0]);
                assert(rel@[0] == 'a');
                lemma_join_key(cfg0.out_dir@, rel@);
            }
            let dest = crate::paths::join(site.config.out_dir.as_str(), rel.as_str());
            let bytes = inputs.assets[i].1.clone();
            proof {
                assert(bytes@ =~= inputs.assets@[i as int].1@);
            }
            site.backend.add_file(dest.as_str(), bytes);
            proof {
                assert(rel@ =~= asset_key(inputs.assets@[i as int].0@));
                let ae_pre = assets_entries(pre, cfg0.build_mode);
                let ae_pre1 = assets_entries(pre1, cfg0.build_mode);
                assert(ae_pre1 == ae_pre.push(
                    (asset_key(inputs.assets@[i as int].0@), inputs.assets@[i as int].1@),
                ));
                let comb1 = inc_part + ae_pre1;
                assert(comb1.subrange(0, comb1.len() - 1) =~= inc_part + ae_pre);
                assert(comb1.last() == (
                    asset_key(inputs.assets@[i as int].0@),
                    inputs.assets@[i as int].1@,
                ));
                assert(site.backend.artifacts() == insert_entries(
                    Map::<Seq<char>, Seq<u8>>::empty(),
                    comb1,
                ));
            }
        } else {
            proof {
                assert(assets_entries(pre1, cfg0.build_mode) == assets_entries(
                    pre,
                    cfg0.build_mode,
                ));
            }
        }
        i = i + 1;
    }
    proof {
        assert(inputs.assets@.take(na as int) =~= inputs.assets@);
    }
    let style_rel = "assets/doctave-style.css";
    let style_dest = crate::paths::join(site.config.out_dir.as_str(), style_rel);
    proof {
        lemma_join_key(cfg0.out_dir@, style_rel@);
    }
    let style_bytes = style_html.as_str().as_bytes_vec();
    site.backend.add_file(style_dest.as_str(), style_bytes);
    proof {
        let comb = inc_part + asset_part;
        assert(comb.subrange(0, comb.len() - 1) =~= inc_part + assets_entries(
            inputs.assets@,
            cfg0.build_mode,
        ));
        assert(comb.last() == asset_part.last());
        assert(site.backend.artifacts() == insert_entries(
            Map::<Seq<char>, Seq<u8>>::empty(),
            comb,
        ));
        lemma_tree_pages_heads(root0, gnav, cfg0, *inputs);
        assert(inc_part + asset_part + page_part.take(0) =~= comb);
    }
    let np = pages.len();
    let mut k: usize = 0;
    while k < np
        invariant
            np == pages@.len(),
            np == page_part.len(),
            0 <= k <= np,
            site.config == cfg0,
            site.backend.site_root() == root0,
            site.backend.spec_out_dir() == cfg0.out_dir@,
            asset_part == assets_entries(inputs.assets@, cfg0.build_mode).push(
                (
                    "assets/doctave-style.css"@,
                    vstd::utf8::encode_utf8(
                        rendered_single_of(
                            inputs.style_template@,
                            style_json_of(*inputs),
                        ).unwrap(),
                    ),
                ),
            ),
            page_part == tree_pages(root0, gnav, cfg0, *inputs),
            inc_part == includes_entries(inputs.includes@),
            forall|q: int|
                0 <= q < np ==> ((#[trigger] pages@[q]).0@ == page_part[q].0 && pages@[q].1@
                    == page_part[q].1),
            forall|q: int|
                0 <= q < page_part.len() ==> ((#[trigger] page_part[q]).0.len() > 0
                    && page_part[q].0[0] != '/'),
            site.backend.artifacts() == insert_entries(
                Map::<Seq<char>, Seq<u8>>::empty(),
                inc_part + asset_part + page_part.take(k as int),
            ),
        decreases np - k,
    {
        let ghost pre = inc_part + asset_part + page_part.take(k as int);
        let ghost pre1 = inc_part + asset_part + page_part.take(k as int + 1);
        proof {
            assert(pre1.subrange(0, pre1.len() - 1) =~= pre);
            assert(pre1.last() == page_part[k as int]);
        }
        let dest = crate::paths::join(site.config.out_dir.as_str(), pages[k].0.as_str());
        proof {
            lemma_join_key(cfg0.out_dir@, pages@[k as int].0@);
        }
        let bytes = pages[k].1.clone();
        proof {
            assert(bytes@ =~= pages@[k as int].1@);
        }
        site.backend.add_file(dest.as_str(), bytes);
        proof {
            assert(site.backend.artifacts() == insert_entries(
                Map::<Seq<char>, Seq<u8>>::empty(),
                pre1,
            ));
        }
        k = k + 1;
    }
    proof {
        assert(page_part.take(np as int) =~= page_part);
    }
    let search_rel = "search_index.json";
    let search_dest = crate::paths::join(site.config.out_dir.as_str(), search_rel);
    proof {
        lemma_join_key(cfg0.out_dir@, search_rel@);
    }
    let search_bytes = search_json.as_str().as_bytes_vec();
    site.backend.add_file(search_dest.as_str(), search_bytes);
    proof {
        let whole = (inc_part + asset_part + page_part).push(
            (
                "search_index.json"@,
                vstd::utf8::encode_utf8(
                    search_json_of(search_fields(), tree_index_entries(root0)),
                ),
            ),
        );
        assert(whole.subrange(0, whole.len() - 1) =~= inc_part + asset_part + page_part);
        assert(site.backend.artifacts() == insert_entries(
            Map::<Seq<char>, Seq<u8>>::empty(),
            whole,
        ));
        assert(whole =~= all_entries);
        assert(nav_ok(root0, cfg0, gnav));
        assert(spec_build_ok(root0, gnav, cfg0, *inputs));
        assert(final(site).backend.artifacts() == spec_built_map(root0, gnav, cfg0, *inputs));
    }
    Ok(())
}

impl<B: SiteBackend> Site<B> {
    /// Runs the full compile pipeline against this backend: assets, the
    /// themed style sheet, one page per document, and the search index.
    pub fn build(&mut self, inputs: &BuildInputs) -> (r: Result<(), Error>)
        requires
            old(self).backend.spec_out_dir() == old(self).config.out_dir@,
            tree_indexed(old(self).backend.site_root()),
        ensures
            final(self).config == old(self).config,
            final(self).backend.site_root() == old(self).backend.site_root(),
            final(self).backend.spec_out_dir() == old(self).backend.spec_out_dir(),
            r is Ok ==> exists|nav: Seq<Link>|
                {
                    &&& #[trigger] nav_ok(old(self).backend.site_root(), old(self).config, nav)
                    &&& spec_build_ok(
                        old(self).backend.site_root(),
                        nav,
                        old(self).config,
                        *inputs,
                    )
                    &&& final(self).backend.artifacts() == spec_built_map(
                        old(self).backend.site_root(),
                        nav,
                        old(self).config,
                        *inputs,
                    )
                },
            r is Err ==> final(self).backend.artifacts() == old(self).backend.artifacts()
                && spec_build_fails(old(self).backend.site_root(), old(self).config, *inputs),
    {
        build_site(self, inputs)
    }

    /// Replaces the document tree and rebuilds, as one generation swap:
    /// afterwards the backend holds exactly the artifact set generated
    /// from the new tree, whatever it held before. A reader therefore
    /// observes either the complete previous artifact set or this
    /// complete new one, never a mixture of the two.
    pub fn rebuild(&mut self, root: Directory, inputs: &BuildInputs) -> (r: Result<(), Error>)
        requires
            old(self).backend.spec_out_dir() == old(self).config.out_dir@,
            tree_indexed(root),
        ensures
            final(self).config == old(self).config,
            final(self).backend.site_root() == root,
            final(self).backend.spec_out_dir() == old(self).backend.spec_out_dir(),
            r is Ok ==> exists|nav: Seq<Link>|
                {
                    &&& #[trigger] nav_ok(root, old(self).config, nav)
                    &&& spec_build_ok(root, nav, old(self).config, *inputs)
                    &&& final(self).backend.artifacts() == spec_built_map(
                        root,
                        nav,
                        old(self).config,
                        *inputs,
                    )
                },
            r is Err ==> final(self).backend.artifacts() == Map::<Seq<char>, Seq<u8>>::empty()
                && spec_build_fails(root, old(self).config, *inputs),
    {
        self.backend.reset(root);
        build_site(self, inputs)
    }
}

} // verus!
