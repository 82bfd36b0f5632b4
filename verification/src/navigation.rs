//! The navigation tree: `Link` entries derived from the document tree,
//! sorted alphanumerically by title, and the override algorithm that
//! rebuilds the tree from authored rules.

use crate::alphanum::{alphanum_le, alphanum_le_cmp};
use crate::config::{Config, DirIncludeRule, NavRule};
use crate::document::{links_ok, tree_indexed, Directory};
use crate::error::Error;
use crate::paths::{spec_path_to_uri, to_uri};
use crate::strutil::{is_prefix_of, starts_with, str_eq, substring};
use vstd::multiset::Multiset;
use vstd::prelude::*;

verus! {

/// A navigation entry: a page's title, its base-qualified URI, and the
/// entries nested beneath it.
#[derive(Debug, PartialEq)]
pub struct Link {
    pub path: String,
    pub title: String,
    pub children: Vec<Link>,
}

/// The mathematical shape of a `Link`: the same tree over character
/// sequences.
pub struct LinkNode {
    pub path: Seq<char>,
    pub title: Seq<char>,
    pub children: Seq<LinkNode>,
}

/// The view of one navigation entry.
pub open spec fn link_view(l: Link) -> LinkNode
    decreases l,
{
    LinkNode { path: l.path@, title: l.title@, children: links_view(l.children@) }
}

/// The view of a list of navigation entries, in order.
pub open spec fn links_view(s: Seq<Link>) -> Seq<LinkNode>
    decreases s,
{
    if s.len() == 0 {
        Seq::<LinkNode>::empty()
    } else {
        seq![link_view(s[0])] + links_view(s.subrange(1, s.len() as int))
    }
}

/// `links_view` maps `link_view` over the sequence, element by element.
pub proof fn lemma_links_view(s: Seq<Link>)
    ensures
        links_view(s).len() == s.len(),
        forall|i: int| 0 <= i < s.len() ==> links_view(s)[i] == link_view(s[i]),
    decreases s,
{
    if s.len() > 0 {
        lemma_links_view(s.subrange(1, s.len() as int));
    }
}

fn clone_link(l: &Link) -> (r: Link)
    ensures
        link_view(r) == link_view(*l),
    decreases *l,
{
    let r = Link { path: l.path.clone(), title: l.title.clone(), children: clone_links(&l.children) };
    r
}

fn clone_links(v: &Vec<Link>) -> (r: Vec<Link>)
    ensures
        links_view(r@) == links_view(v@),
    decreases v@,
{
    let mut out: Vec<Link> = Vec::new();
    let mut i: usize = 0;
    while i < v.len()
        invariant
            i <= v@.len(),
            out@.len() == i,
            forall|j: int| 0 <= j < i ==> link_view(out@[j]) == link_view(v@[j]),
        decreases v@.len() - i,
    {
        out.push(clone_link(&v[i]));
        i = i + 1;
    }
    proof {
        lemma_links_view(out@);
        lemma_links_view(v@);
        assert(links_view(out@) =~= links_view(v@));
    }
    out
}

impl Link {
    /// The site URI of an output path: the extension is stripped, an
    /// `index` file collapses onto its directory, and leading slashes are
    /// removed. Every component that needs a URI from a path uses this.
    pub fn path_to_uri(path: &str) -> (r: String)
        ensures
            r@ == spec_path_to_uri(path@),
    {
        to_uri(path)
    }

    /// As `path_to_uri`, but the extension is kept.
    pub fn path_to_uri_with_extension(path: &str) -> (r: String)
        ensures
            r@ == crate::paths::spec_path_to_uri_with_extension(path@),
    {
        crate::paths::to_uri_with_extension(path)
    }
}

impl Clone for Link {
    /// A deep copy; the copy has the same view as the original.
    fn clone(&self) -> (r: Link)
        ensures
            link_view(r) == link_view(*self),
    {
        clone_link(self)
    }
}

/// The entries stand in alphanumeric order of their titles.
pub open spec fn sorted_by_title(s: Seq<Link>) -> bool {
    forall|i: int| 0 <= i && i + 1 < s.len() ==> alphanum_le(#[trigger] s[i].title@, s[i + 1].title@)
}

/// Sorts navigation entries by title in the alphanumeric order. The result
/// holds exactly the entries given, reordered.
pub fn sort_links(v: Vec<Link>) -> (r: Vec<Link>)
    ensures
        sorted_by_title(r@),
        r@.to_multiset() == v@.to_multiset(),
{
    broadcast use vstd::seq_lib::group_to_multiset_ensures;

    let mut rest = v;
    let ghost orig = rest@;
    let mut out: Vec<Link> = Vec::new();
    loop
        invariant
            sorted_by_title(out@),
            out@.to_multiset().add(rest@.to_multiset()) == orig.to_multiset(),
        ensures
            sorted_by_title(out@),
            out@.to_multiset().add(rest@.to_multiset()) == orig.to_multiset(),
            rest@.len() == 0,
        decreases rest@.len(),
    {
        if rest.len() == 0 {
            break ;
        }
        let ghost popped_from = rest@;
        let x = rest.remove(0);
        proof {
            popped_from.to_multiset_ensures();
            assert(popped_from.remove(0) == rest@);
            assert(popped_from.remove(0).to_multiset() =~= popped_from.to_multiset().remove(x));
            assert(popped_from.to_multiset().contains(x)) by {
                assert(popped_from[0] == x);
            }
            assert(popped_from.to_multiset() =~= rest@.to_multiset().insert(x));
        }
        let ghost out_before = out@;
        let n = out.len();
        let mut j: usize = 0;
        while j < n
            invariant
                n == out@.len(),
                0 <= j <= n,
                out@ == out_before,
                forall|k: int| 0 <= k < j ==> alphanum_le(#[trigger] out@[k].title@, x.title@),
            ensures
                0 <= j <= n,
                out@ == out_before,
                forall|k: int| 0 <= k < j ==> alphanum_le(#[trigger] out@[k].title@, x.title@),
                j < n ==> alphanum_le(x.title@, out@[j as int].title@),
            decreases n - j,
        {
            if !alphanum_le_cmp(out[j].title.as_str(), x.title.as_str()) {
                break ;
            }
            j = j + 1;
        }
        out.insert(j, x);
        proof {
            let oa = out@;
            assert(oa == out_before.insert(j as int, x));
            assert(oa =~= out_before.subrange(0, j as int).push(x) + out_before.subrange(
                j as int,
                n as int,
            ));
            assert(oa.len() == n + 1);
            assert(oa[j as int] == x);
            assert(forall|k: int| 0 <= k < j ==> oa[k] == out_before[k]);
            assert(forall|k: int| j < k < oa.len() ==> oa[k] == out_before[k - 1]);
            assert(sorted_by_title(oa)) by {
                assert forall|i: int| 0 <= i && i + 1 < oa.len() implies alphanum_le(
                    #[trigger] oa[i].title@,
                    oa[i + 1].title@,
                ) by {
                    if i + 1 == j {
                        assert(oa[i] == out_before[i]);
                    } else if i == j {
                        assert(oa[i + 1] == out_before[i]);
                    }
                }
            }
            oa.to_multiset_ensures();
            assert(oa.remove(j as int) =~= out_before);
            assert(oa.remove(j as int).to_multiset() =~= oa.to_multiset().remove(oa[j as int]));
            assert(oa.to_multiset().contains(x)) by {
                assert(oa[j as int] == x);
            }
            assert(oa.to_multiset() =~= out_before.to_multiset().insert(x));
            assert(oa.to_multiset().add(rest@.to_multiset()) =~= orig.to_multiset());
        }
    }
    proof {
        assert(rest@.to_multiset() =~= Multiset::<Link>::empty()) by {
            assert(rest@.to_multiset().len() == 0);
        }
        assert(out@.to_multiset() =~= orig.to_multiset());
    }
    out
}

/// `p` with `base` removed from its front, when `base` is a prefix of it.
pub open spec fn spec_strip_prefix(base: Seq<char>, p: Seq<char>) -> Seq<char> {
    if is_prefix_of(base, p) {
        p.skip(base.len() as int)
    } else {
        p
    }
}

/// Everything after the first path component: authored rule paths start
/// with the docs directory, which URIs do not carry.
pub open spec fn spec_after_first_component(p: Seq<char>) -> Seq<char>
    decreases p.len(),
{
    if p.len() == 0 {
        Seq::<char>::empty()
    } else if p[0] == '/' {
        p.skip(1)
    } else {
        spec_after_first_component(p.skip(1))
    }
}

fn after_first_component(path: &str) -> (r: &str)
    ensures
        r@ == spec_after_first_component(path@),
    decreases path@.len(),
{
    let len = path.unicode_len();
    if len == 0 {
        path
    } else if path.get_char(0) == '/' {
        let r = path.substring_char(1, len);
        proof {
            assert(r@ =~= path@.skip(1));
        }
        r
    } else {
        let rest = path.substring_char(1, len);
        proof {
            assert(rest@ =~= path@.skip(1));
        }
        after_first_component(rest)
    }
}

/// Whether the link at `l` is the one an authored rule path `rule_path`
/// names: the link's URI without the base path equals the URI of the rule
/// path without its leading docs directory.
pub open spec fn rule_matches(base: Seq<char>, rule_path: Seq<char>, l: LinkNode) -> bool {
    crate::paths::trim_leading_slashes(spec_strip_prefix(base, l.path))
        == crate::paths::trim_leading_slashes(
        spec_path_to_uri(spec_after_first_component(rule_path)),
    )
}

/// The first link at this level that the rule path names.
pub open spec fn level_find(base: Seq<char>, rp: Seq<char>, s: Seq<LinkNode>) -> Option<LinkNode>
    decreases s, 0int,
{
    if s.len() == 0 {
        None
    } else if rule_matches(base, rp, s[0]) {
        Some(s[0])
    } else {
        level_find(base, rp, s.subrange(1, s.len() as int))
    }
}

/// The link the rule path names, searched depth-first: first the current
/// level in order, then each entry's children in turn.
pub open spec fn find_link(base: Seq<char>, rp: Seq<char>, s: Seq<LinkNode>) -> Option<LinkNode>
    decreases s, 2int,
{
    match level_find(base, rp, s) {
        Some(l) => Some(l),
        None => deep_find(base, rp, s),
    }
}

/// The first match found inside the children of the entries of `s`.
pub open spec fn deep_find(base: Seq<char>, rp: Seq<char>, s: Seq<LinkNode>) -> Option<LinkNode>
    decreases s, 1int,
{
    if s.len() == 0 {
        None
    } else {
        match find_link(base, rp, s[0].children) {
            Some(l) => Some(l),
            None => deep_find(base, rp, s.subrange(1, s.len() as int)),
        }
    }
}

/// What one override rule produces from the default tree: the named link,
/// with its children kept, cut off, or rebuilt as the rule directs; nothing
/// when the rule names no link.
pub open spec fn apply_rule_spec(base: Seq<char>, rule: NavRule, dft: Seq<LinkNode>) -> Option<
    LinkNode,
>
    decreases rule, 1int,
{
    match rule {
        NavRule::File(p) => find_link(base, p@, dft),
        NavRule::Dir(p, policy) => match find_link(base, p@, dft) {
            Some(l) => match policy {
                None => Some(LinkNode { path: l.path, title: l.title, children: Seq::empty() }),
                Some(DirIncludeRule::WildCard) => Some(l),
                Some(DirIncludeRule::Explicit(rules)) => match customize_spec(base, rules@, dft) {
                    Some(cs) => Some(LinkNode { path: l.path, title: l.title, children: cs }),
                    None => None,
                },
            },
            None => None,
        },
    }
}

/// What an ordered list of override rules produces from the default tree:
/// one link per rule, in authored order; nothing when any rule names no
/// link.
pub open spec fn customize_spec(base: Seq<char>, rules: Seq<NavRule>, dft: Seq<LinkNode>) -> Option<
    Seq<LinkNode>,
>
    decreases rules, 0int,
{
    if rules.len() == 0 {
        Some(Seq::<LinkNode>::empty())
    } else {
        match (apply_rule_spec(base, rules[0], dft), customize_spec(
            base,
            rules.subrange(1, rules.len() as int),
            dft,
        )) {
            (Some(hd), Some(tl)) => Some(seq![hd] + tl),
            _ => None,
        }
    }
}

/// `customize_spec` is the rule-by-rule map of `apply_rule_spec`: it
/// produces a list exactly when every rule finds its link, and then the
/// k-th entry is what the k-th rule produced.
pub proof fn lemma_customize_spec(base: Seq<char>, rules: Seq<NavRule>, dft: Seq<LinkNode>)
    ensures
        (customize_spec(base, rules, dft) is Some <==> forall|i: int|
            0 <= i < rules.len() ==> apply_rule_spec(base, #[trigger] rules[i], dft) is Some),
        customize_spec(base, rules, dft) matches Some(out) ==> out.len() == rules.len() && forall|
            i: int,
        |
            0 <= i < rules.len() ==> Some(#[trigger] out[i]) == apply_rule_spec(
                base,
                rules[i],
                dft,
            ),
    decreases rules,
{
    if rules.len() > 0 {
        let tl = rules.subrange(1, rules.len() as int);
        lemma_customize_spec(base, tl, dft);
        assert(forall|i: int| 0 <= i < tl.len() ==> #[trigger] tl[i] == rules[i + 1]);
        if customize_spec(base, rules, dft) is Some {
            let out = customize_spec(base, rules, dft).unwrap();
            let tl_out = customize_spec(base, tl, dft).unwrap();
            assert(out == seq![apply_rule_spec(base, rules[0], dft).unwrap()] + tl_out);
            assert forall|i: int| 0 <= i < rules.len() implies apply_rule_spec(
                base,
                #[trigger] rules[i],
                dft,
            ) is Some by {
                if i > 0 {
                    assert(tl[i - 1] == rules[i]);
                }
            }
            assert forall|i: int| 0 <= i < rules.len() implies Some(#[trigger] out[i])
                == apply_rule_spec(base, rules[i], dft) by {
                if i > 0 {
                    assert(out[i] == tl_out[i - 1]);
                    assert(tl[i - 1] == rules[i]);
                }
            }
        } else {
            if forall|i: int|
                0 <= i < rules.len() ==> apply_rule_spec(base, #[trigger] rules[i], dft) is Some {
                assert(apply_rule_spec(base, rules[0], dft) is Some);
                assert forall|i: int| 0 <= i < tl.len() implies apply_rule_spec(
                    base,
                    #[trigger] tl[i],
                    dft,
                ) is Some by {
                    assert(tl[i] == rules[i + 1]);
                }
                assert(customize_spec(base, tl, dft) is Some);
                assert(false);
            }
        }
    }
}

/// Builds the navigation tree for a site: the default tree of a root
/// directory, reshaped by the authored override rules when there are any.
pub struct Navigation<'a> {
    pub config: &'a Config,
}

impl<'a> Navigation<'a> {
    pub fn new(config: &'a Config) -> (r: Self)
        ensures
            r.config == config,
    {
        Navigation { config }
    }

    /// Whether `link` is the link that the rule path `path` names.
    fn matches_link(&self, path: &str, link: &Link) -> (r: bool)
        ensures
            r == rule_matches(self.config.base_path@, path@, link_view(*link)),
    {
        let base = self.config.base_path.as_str();
        let stripped: String = if starts_with(link.path.as_str(), base) {
            substring(link.path.as_str(), base.unicode_len(), link.path.as_str().unicode_len())
        } else {
            link.path.clone()
        };
        proof {
            assert(stripped@ == spec_strip_prefix(base@, link.path@));
        }
        let link_path = crate::paths::trim_slashes(stripped.as_str());
        let tail = after_first_component(path);
        let doc_path = to_uri(tail);
        let doc_path_trimmed = crate::paths::trim_slashes(doc_path.as_str());
        str_eq(link_path, doc_path_trimmed)
    }

    /// Finds the link an authored rule path names, searching the whole
    /// default tree depth-first. The copy returned has the view that
    /// `find_link` describes.
    pub fn find_matching_link(&self, path: &str, links: &Vec<Link>) -> (r: Option<Link>)
        ensures
            (match r {
                Some(l) => find_link(self.config.base_path@, path@, links_view(links@)) == Some(
                    link_view(l),
                ),
                None => find_link(self.config.base_path@, path@, links_view(links@)) is None,
            }),
        decreases links@,
    {
        let ghost base = self.config.base_path@;
        let ghost sv = links_view(links@);
        proof {
            lemma_links_view(links@);
        }
        let n = links.len();
        proof {
            assert(sv.skip(0) =~= sv);
        }
        let mut i: usize = 0;
        while i < n
            invariant
                n == links@.len(),
                sv == links_view(links@),
                sv.len() == n,
                forall|k: int| 0 <= k < n ==> sv[k] == link_view(links@[k]),
                base == self.config.base_path@,
                0 <= i <= n,
                level_find(base, path@, sv) == level_find(base, path@, sv.skip(i as int)),
            decreases n - i,
        {
            let ghost tail = sv.skip(i as int);
            proof {
                assert(tail[0] == sv[i as int]);
                assert(tail.subrange(1, tail.len() as int) =~= sv.skip(i as int + 1));
            }
            if self.matches_link(path, &links[i]) {
                let found = links[i].clone();
                return Some(found);
            }
            i = i + 1;
        }
        proof {
            assert(sv.skip(n as int) =~= Seq::<LinkNode>::empty());
            assert(level_find(base, path@, sv) is None);
        }
        proof {
            assert(sv.skip(0) =~= sv);
        }
        let mut i: usize = 0;
        while i < n
            invariant
                n == links@.len(),
                sv == links_view(links@),
                sv.len() == n,
                forall|k: int| 0 <= k < n ==> sv[k] == link_view(links@[k]),
                base == self.config.base_path@,
                0 <= i <= n,
                deep_find(base, path@, sv) == deep_find(base, path@, sv.skip(i as int)),
                level_find(base, path@, sv) is None,
            decreases n - i,
        {
            let ghost tail = sv.skip(i as int);
            proof {
                assert(tail[0] == sv[i as int]);
                assert(tail.subrange(1, tail.len() as int) =~= sv.skip(i as int + 1));
            }
            match self.find_matching_link(path, &links[i].children) {
                Some(l) => {
                    return Some(l);
                },
                None => {},
            }
            i = i + 1;
        }
        proof {
            assert(sv.skip(n as int) =~= Seq::<LinkNode>::empty());
            assert(deep_find(base, path@, sv) is None);
        }
        None
    }

    /// Applies one override rule against the default tree.
    fn apply_rule(&self, rule: &NavRule, default: &Vec<Link>) -> (r: Option<Link>)
        ensures
            (match r {
                Some(l) => apply_rule_spec(
                    self.config.base_path@,
                    *rule,
                    links_view(default@),
                ) == Some(link_view(l)),
                None => apply_rule_spec(
                    self.config.base_path@,
                    *rule,
                    links_view(default@),
                ) is None,
            }),
        decreases *rule, 1int,
    {
        match rule {
            NavRule::File(path) => self.find_matching_link(path.as_str(), default),
            NavRule::Dir(path, policy) => {
                let found = self.find_matching_link(path.as_str(), default);
                match found {
                    Some(mut index_link) => match policy {
                        None => {
                            index_link.children = Vec::new();
                            proof {
                                assert(links_view(index_link.children@) =~= Seq::<
                                    LinkNode,
                                >::empty());
                            }
                            Some(index_link)
                        },
                        Some(DirIncludeRule::WildCard) => Some(index_link),
                        Some(DirIncludeRule::Explicit(nested_rules)) => {
                            match self.customize(nested_rules, default) {
                                Some(children) => {
                                    index_link.children = children;
                                    Some(index_link)
                                },
                                None => None,
                            }
                        },
                    },
                    None => None,
                }
            },
        }
    }

    /// Rebuilds a navigation level from authored rules, in authored order:
    /// one entry per rule; unmentioned entries are dropped. Nothing when a
    /// rule names no link in the default tree.
    pub fn customize(&self, rules: &Vec<NavRule>, default: &Vec<Link>) -> (r: Option<Vec<Link>>)
        ensures
            (match r {
                Some(v) => customize_spec(
                    self.config.base_path@,
                    rules@,
                    links_view(default@),
                ) == Some(links_view(v@)),
                None => customize_spec(
                    self.config.base_path@,
                    rules@,
                    links_view(default@),
                ) is None,
            }),
        decreases rules@, 0int,
    {
        let ghost base = self.config.base_path@;
        let ghost dft = links_view(default@);
        proof {
            lemma_customize_spec(base, rules@, dft);
        }
        let mut out: Vec<Link> = Vec::new();
        let n = rules.len();
        let mut i: usize = 0;
        while i < n
            invariant
                n == rules@.len(),
                base == self.config.base_path@,
                dft == links_view(default@),
                0 <= i <= n,
                out@.len() == i,
                forall|k: int|
                    0 <= k < i ==> Some(link_view(#[trigger] out@[k])) == apply_rule_spec(
                        base,
                        rules@[k],
                        dft,
                    ),
            decreases n - i,
        {
            match self.apply_rule(&rules[i], default) {
                Some(l) => {
                    out.push(l);
                },
                None => {
                    proof {
                        lemma_customize_spec(base, rules@, dft);
                    }
                    return None;
                },
            }
            i = i + 1;
        }
        proof {
            assert forall|k: int| 0 <= k < n implies apply_rule_spec(
                base,
                #[trigger] rules@[k],
                dft,
            ) is Some by {
                assert(Some(link_view(out@[k])) == apply_rule_spec(base, rules@[k], dft));
            }
            lemma_customize_spec(base, rules@, dft);
            lemma_links_view(out@);
            let result = customize_spec(base, rules@, dft);
            assert(result is Some);
            assert(result.unwrap() =~= links_view(out@));
        }
        Some(out)
    }

    /// Builds the navigation tree for a site root: the default
    /// alphanumerically sorted tree of the directory, reshaped by the
    /// authored override rules when the configuration has any. Fails
    /// exactly when some rule names no link of the default tree.
    pub fn build_for(&self, dir: &Directory) -> (r: Result<Vec<Link>, Error>)
        requires
            tree_indexed(*dir),
        ensures
            self.config.navigation is None ==> (r matches Ok(v) && links_ok(*dir, v@)),
            (match self.config.navigation {
                Some(rules) => (match r {
                    Ok(v) => exists|dft: Seq<Link>|
                        {
                            &&& #[trigger] links_ok(*dir, dft)
                            &&& customize_spec(
                                self.config.base_path@,
                                rules@,
                                links_view(dft),
                            ) == Some(links_view(v@))
                        },
                    Err(_) => exists|dft: Seq<Link>|
                        {
                            &&& #[trigger] links_ok(*dir, dft)
                            &&& customize_spec(
                                self.config.base_path@,
                                rules@,
                                links_view(dft),
                            ) is None
                        },
                }),
                None => true,
            }),
    {
        let default: Vec<Link> = dir.links();
        match self.config.navigation() {
            None => Ok(default),
            Some(rules) => {
                match self.customize(rules, &default) {
                    Some(v) => Ok(v),
                    None => Err(Error::new("A navigation rule matched no page of the site")),
                }
            },
        }
    }
}

} // verus!
