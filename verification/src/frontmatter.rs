//! Frontmatter handling: a document may begin with a `---` delimited YAML
//! section holding string-valued metadata (the title above all). `end_pos`
//! finds where that section ends, `without` returns the body after it, and
//! `parse` reads the section into a key/value map.

use crate::error::Error;
use crate::strutil::{find_sub, matches_at, starts_with};
use vstd::prelude::*;

verus! {

/// Position of the first occurrence of `pat` in `s`, if any.
pub open spec fn first_match(s: Seq<char>, pat: Seq<char>) -> Option<nat>
    decreases s.len(),
{
    if pat.len() > s.len() {
        None
    } else if matches_at(s, pat, 0) {
        Some(0nat)
    } else if s.len() == 0 {
        None
    } else {
        match first_match(s.skip(1), pat) {
            Some(k) => Some((k + 1) as nat),
            None => None,
        }
    }
}

/// `first_match` returns exactly the least position at which `pat` occurs.
proof fn lemma_first_match_found(s: Seq<char>, pat: Seq<char>, i: int)
    requires
        matches_at(s, pat, i),
        forall|j: int| 0 <= j < i ==> !matches_at(s, pat, j),
    ensures
        first_match(s, pat) == Some(i as nat),
    decreases i,
{
    if i == 0 {
        assert(pat.len() <= s.len());
    } else {
        assert(!matches_at(s, pat, 0));
        assert(s.len() > 0);
        let t = s.skip(1);
        assert(matches_at(t, pat, i - 1)) by {
            assert(t.subrange(i - 1, i - 1 + pat.len()) =~= s.subrange(i, i + pat.len()));
        }
        assert forall|j: int| 0 <= j < i - 1 implies !matches_at(t, pat, j) by {
            if matches_at(t, pat, j) {
                assert(matches_at(s, pat, j + 1)) by {
                    assert(s.subrange(j + 1, j + 1 + pat.len()) =~= t.subrange(j, j + pat.len()));
                }
            }
        }
        lemma_first_match_found(t, pat, i - 1);
    }
}

/// When `pat` occurs nowhere in `s`, `first_match` finds nothing.
proof fn lemma_first_match_none(s: Seq<char>, pat: Seq<char>)
    requires
        forall|j: int| !matches_at(s, pat, j),
    ensures
        first_match(s, pat) is None,
    decreases s.len(),
{
    if pat.len() <= s.len() && s.len() > 0 {
        let t = s.skip(1);
        assert forall|j: int| !matches_at(t, pat, j) by {
            if matches_at(t, pat, j) {
                assert(matches_at(s, pat, j + 1)) by {
                    assert(s.subrange(j + 1, j + 1 + pat.len()) =~= t.subrange(j, j + pat.len()));
                }
            }
        }
        lemma_first_match_none(t, pat);
    }
}

/// Number of characters taken up by the frontmatter section, including both
/// `---` marker lines; zero when the document has no complete section.
pub open spec fn spec_end_pos(s: Seq<char>) -> nat {
    if is_prefix_lit_unix(s) {
        match first_match(s.skip(4), "---\n"@) {
            Some(k) => (k + 8) as nat,
            None => 0nat,
        }
    } else if is_prefix_lit_windows(s) {
        match first_match(s.skip(5), "---\r\n"@) {
            Some(k) => (k + 10) as nat,
            None => 0nat,
        }
    } else {
        0nat
    }
}

/// The document starts with a `---` line with a Unix line ending.
pub open spec fn is_prefix_lit_unix(s: Seq<char>) -> bool {
    s.len() >= 4 && s.subrange(0, 4) == "---\n"@
}

/// The document starts with a `---` line with a Windows line ending.
pub open spec fn is_prefix_lit_windows(s: Seq<char>) -> bool {
    s.len() >= 5 && s.subrange(0, 5) == "---\r\n"@
}

/// Where the frontmatter section of `input` ends: the index just past the
/// closing `---` line, or `0` when the document does not open with `---` or
/// the section never closes.
pub fn end_pos(input: &str) -> (r: usize)
    ensures
        r == spec_end_pos(input@),
        r <= input@.len(),
{
    proof {
        reveal_strlit("---\n");
        reveal_strlit("---\r\n");
    }
    let len = input.unicode_len();
    if starts_with(input, "---\n") {
        assert(is_prefix_lit_unix(input@));
        let after = input.substring_char(4, len);
        assert(after@ =~= input@.skip(4));
        match find_sub(after, "---\n") {
            Some(k) => {
                proof {
                    lemma_first_match_found(after@, "---\n"@, k as int);
                }
                assert(k + 4 <= after@.len());
                k + 8
            },
            None => {
                proof {
                    lemma_first_match_none(after@, "---\n"@);
                }
                0
            },
        }
    } else if starts_with(input, "---\r\n") {
        assert(is_prefix_lit_windows(input@));
        assert(!is_prefix_lit_unix(input@)) by {
            if is_prefix_lit_unix(input@) {
                assert(input@.subrange(0, 4)[3] == '\n');
                assert(input@.subrange(0, 5)[3] == '\r');
            }
        }
        let after = input.substring_char(5, len);
        assert(after@ =~= input@.skip(5));
        match find_sub(after, "---\r\n") {
            Some(k) => {
                proof {
                    lemma_first_match_found(after@, "---\r\n"@, k as int);
                }
                assert(k + 5 <= after@.len());
                k + 10
            },
            None => {
                proof {
                    lemma_first_match_none(after@, "---\r\n"@);
                }
                0
            },
        }
    } else {
        assert(!is_prefix_lit_unix(input@)) by {
            if is_prefix_lit_unix(input@) {
                assert(input@.subrange(0, 4) =~= "---\n"@);
            }
        }
        assert(!is_prefix_lit_windows(input@)) by {
            if is_prefix_lit_windows(input@) {
                assert(input@.subrange(0, 5) =~= "---\r\n"@);
            }
        }
        0
    }
}

/// The document body: everything after the frontmatter section.
pub fn without(input: &str) -> (r: &str)
    ensures
        r@ == input@.skip(spec_end_pos(input@) as int),
{
    let pos = end_pos(input);
    let r = input.substring_char(pos, input.unicode_len());
    proof {
        assert(r@ =~= input@.skip(pos as int));
    }
    r
}

/// ASCII whitespace, as trimmed from the end of the frontmatter section.
pub open spec fn is_ws(c: char) -> bool {
    c == ' ' || c == '\t' || c == '\n' || c == '\r'
}

/// `s` with every trailing whitespace character removed.
pub open spec fn spec_trim_end_ws(s: Seq<char>) -> Seq<char>
    decreases s.len(),
{
    if s.len() > 0 && is_ws(s.last()) {
        spec_trim_end_ws(s.drop_last())
    } else {
        s
    }
}

/// `s` with every trailing `-` removed.
pub open spec fn spec_trim_end_dashes(s: Seq<char>) -> Seq<char>
    decreases s.len(),
{
    if s.len() > 0 && s.last() == '-' {
        spec_trim_end_dashes(s.drop_last())
    } else {
        s
    }
}

fn is_ws_exec(c: char) -> (r: bool)
    ensures
        r == is_ws(c),
{
    c == ' ' || c == '\t' || c == '\n' || c == '\r'
}

/// Removes trailing whitespace from `s`.
pub fn trim_end_ws(s: &str) -> (r: &str)
    ensures
        r@ == spec_trim_end_ws(s@),
    decreases s@.len(),
{
    let len = s.unicode_len();
    if len > 0 && is_ws_exec(s.get_char(len - 1)) {
        let shorter = s.substring_char(0, len - 1);
        assert(shorter@ =~= s@.drop_last());
        trim_end_ws(shorter)
    } else {
        s
    }
}

/// Removes trailing dashes from `s`.
pub fn trim_end_dashes(s: &str) -> (r: &str)
    ensures
        r@ == spec_trim_end_dashes(s@),
    decreases s@.len(),
{
    let len = s.unicode_len();
    if len > 0 && s.get_char(len - 1) == '-' {
        let shorter = s.substring_char(0, len - 1);
        assert(shorter@ =~= s@.drop_last());
        trim_end_dashes(shorter)
    } else {
        s
    }
}

/// The YAML text of the frontmatter section: the part of the document up to
/// `spec_end_pos`, with the trailing newline and closing dashes removed.
pub open spec fn spec_section(s: Seq<char>) -> Seq<char> {
    spec_trim_end_dashes(spec_trim_end_ws(s.take(spec_end_pos(s) as int)))
}

/// What `serde_yaml` reads from a YAML document whose values are all
/// strings: a map from key to value, in key order, or nothing when the text
/// is not valid YAML of that shape.
pub uninterp spec fn yaml_string_map_of(s: Seq<char>) -> Option<Seq<(Seq<char>, Seq<char>)>>;

/// Relies on serde_yaml::from_str::<BTreeMap<String, String>>: parses YAML
/// text into a string-to-string map or fails, depending on the text alone;
/// a BTreeMap iterates its entries in key order.
#[verifier::external_body]
fn parse_yaml_string_map(s: &str) -> (r: Option<Vec<(String, String)>>)
    ensures
        (match r {
            Some(v) => yaml_string_map_of(s@) == Some(
                v@.map_values(|p: (String, String)| (p.0@, p.1@)),
            ),
            None => yaml_string_map_of(s@) is None,
        }),
{
    match serde_yaml::from_str::<std::collections::BTreeMap<String, String>>(s) {
        Ok(m) => Some(m.into_iter().collect()),
        Err(_) => None,
    }
}

/// First value bound to `k` in the entry list `m`, if any.
pub open spec fn fm_lookup(m: Seq<(Seq<char>, Seq<char>)>, k: Seq<char>) -> Option<Seq<char>>
    decreases m.len(),
{
    if m.len() == 0 {
        None
    } else if m[0].0 == k {
        Some(m[0].1)
    } else {
        fm_lookup(m.skip(1), k)
    }
}

/// The metadata read from a document's frontmatter: an ordered list of
/// string keys and values.
#[derive(Debug, Clone, PartialEq)]
pub struct Frontmatter {
    entries: Vec<(String, String)>,
}

impl View for Frontmatter {
    type V = Seq<(Seq<char>, Seq<char>)>;

    closed spec fn view(&self) -> Seq<(Seq<char>, Seq<char>)> {
        self.entries@.map_values(|p: (String, String)| (p.0@, p.1@))
    }
}

impl Frontmatter {
    /// An empty map.
    pub fn new() -> (r: Frontmatter)
        ensures
            r@ == Seq::<(Seq<char>, Seq<char>)>::empty(),
    {
        let r = Frontmatter { entries: Vec::new() };
        proof {
            assert(r@ =~= Seq::<(Seq<char>, Seq<char>)>::empty());
        }
        r
    }

    /// Appends the binding `k -> v`.
    pub fn insert(&mut self, k: String, v: String)
        ensures
            final(self)@ == old(self)@.push((k@, v@)),
    {
        let ghost before = self@;
        self.entries.push((k, v));
        proof {
            assert(self@ =~= before.push((k@, v@)));
        }
    }

    pub fn len(&self) -> (r: usize)
        ensures
            r == self@.len(),
    {
        self.entries.len()
    }

    pub fn is_empty(&self) -> (r: bool)
        ensures
            r == (self@.len() == 0),
    {
        self.entries.len() == 0
    }

    /// The first value bound to `key`, if any.
    pub fn get(&self, key: &str) -> (r: Option<&String>)
        ensures
            (match r {
                Some(v) => fm_lookup(self@, key@) == Some(v@),
                None => fm_lookup(self@, key@) is None,
            }),
    {
        assert(self@.skip(0) =~= self@);
        self.get_from(key, 0)
    }

    fn get_from(&self, key: &str, i: usize) -> (r: Option<&String>)
        requires
            i <= self@.len(),
        ensures
            (match r {
                Some(v) => fm_lookup(self@.skip(i as int), key@) == Some(v@),
                None => fm_lookup(self@.skip(i as int), key@) is None,
            }),
        decreases self@.len() - i,
    {
        if i == self.entries.len() {
            None
        } else {
            let ghost tail = self@.skip(i as int);
            assert(tail[0] == self@[i as int]);
            assert(tail.skip(1) =~= self@.skip(i as int + 1));
            if crate::strutil::str_eq(self.entries[i].0.as_str(), key) {
                Some(&self.entries[i].1)
            } else {
                self.get_from(key, i + 1)
            }
        }
    }
}

/// Reads the frontmatter section of `input` into a map. A document without
/// a section yields an empty map; a section that is not a YAML map of
/// strings is an error.
pub fn parse(input: &str) -> (r: Result<Frontmatter, Error>)
    ensures
        spec_end_pos(input@) == 0 ==> r is Ok && r.unwrap()@ == Seq::<(Seq<char>, Seq<char>)>::empty(),
        spec_end_pos(input@) > 0 ==> (match r {
            Ok(fm) => yaml_string_map_of(spec_section(input@)) == Some(fm@),
            Err(e) => yaml_string_map_of(spec_section(input@)) is None
                && e.spec_kind() == crate::error::ErrorKind::Yaml,
        }),
{
    let pos = end_pos(input);
    if pos > 0 {
        let head = input.substring_char(0, pos);
        assert(head@ =~= input@.take(pos as int));
        let section = trim_end_dashes(trim_end_ws(head));
        match parse_yaml_string_map(section) {
            Some(entries) => Ok(Frontmatter { entries }),
            None => Err(Error::yaml("Could not parse frontmatter")),
        }
    } else {
        Ok(Frontmatter::new())
    }
}

} // verus!
