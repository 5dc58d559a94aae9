//! Trusted boundary to the `regex` and `aho-corasick` crates.
//!
//! Each item here is believed by Verus without proof; its doc comment says
//! what is claimed of the outside code.

use vstd::prelude::*;
use crate::scan::rows_view;

verus! {

#[verifier::external_type_specification]
#[verifier::external_body]
pub struct ExRegex(regex::bytes::Regex);

#[verifier::external_type_specification]
#[verifier::external_body]
pub struct ExAhoCorasick(aho_corasick::AhoCorasick);

/// A compiled regular expression together with the pattern text it was
/// compiled from.
pub struct Pattern {
    source: Vec<u8>,
    re: regex::bytes::Regex,
}

impl Pattern {
    /// The pattern text (UTF-8 bytes) this regex was compiled from.
    pub closed spec fn source(&self) -> Seq<u8> {
        self.source@
    }
}

/// What `regex::bytes::Regex::replace_all` returns for a pattern, haystack
/// and replacement template (with `$n` group references).
pub uninterp spec fn regex_replace_all(pattern: Seq<u8>, text: Seq<u8>, rep: Seq<u8>) -> Seq<u8>;

/// What `regex::bytes::Regex::captures_iter` yields for a pattern and a
/// haystack: for each successive match, the byte range of every group
/// (group 0 being the whole match), `None` for groups that did not take part.
pub uninterp spec fn regex_captures(pattern: Seq<u8>, text: Seq<u8>) -> Seq<Seq<Option<(usize, usize)>>>;

/// The group ranges held in a list of capture vectors.
pub open spec fn captures_view(v: Seq<Vec<Option<(usize, usize)>>>) -> Seq<Seq<Option<(usize, usize)>>> {
    v.map_values(|r: Vec<Option<(usize, usize)>>| r@)
}

/// The facts the `regex` documentation gives about `captures_iter`: every
/// item has the whole match as group 0, every group lies inside the
/// haystack, and successive matches do not overlap and come in order.
pub open spec fn well_formed_captures(caps: Seq<Seq<Option<(usize, usize)>>>, len: nat) -> bool {
    &&& forall|k: int| 0 <= k < caps.len() ==> (#[trigger] caps[k]).len() >= 1 && caps[k][0] is Some
    &&& forall|k: int, g: int|
        0 <= k < caps.len() && 0 <= g < caps[k].len() ==> match #[trigger] caps[k][g] {
            Some((a, b)) => a <= b && b <= len,
            None => true,
        }
    &&& forall|k: int|
        0 <= k < caps.len() - 1 ==> group_end(#[trigger] caps[k], 0) <= group_start(caps[k + 1], 0)
}

/// Start of group `g` of a match (0 when absent).
pub open spec fn group_start(c: Seq<Option<(usize, usize)>>, g: int) -> usize {
    match c[g] {
        Some((a, _)) => a,
        None => 0,
    }
}

/// End of group `g` of a match (0 when absent).
pub open spec fn group_end(c: Seq<Option<(usize, usize)>>, g: int) -> usize {
    match c[g] {
        Some((_, b)) => b,
        None => 0,
    }
}

/// Whether `regex::bytes::Regex::new` accepts a pattern text.
pub uninterp spec fn regex_compiles(pattern: Seq<u8>) -> bool;

/// Wraps `regex::bytes::Regex::new`. Claimed: whether it succeeds is a
/// function of the pattern text, and on success the returned value matches
/// that pattern text.
#[verifier::external_body]
pub fn pattern_new(src: &str) -> (res: Option<Pattern>)
    ensures
        res is Some <== regex_compiles(vstd::string::StringSliceAdditionalSpecFns::spec_bytes(src)),
        res is Some ==> regex_compiles(vstd::string::StringSliceAdditionalSpecFns::spec_bytes(src)),
        res matches Some(p) ==> p.source() == vstd::string::StringSliceAdditionalSpecFns::spec_bytes(src),
{
    match regex::bytes::Regex::new(src) {
        Ok(re) => Some(Pattern { source: src.as_bytes().to_vec(), re }),
        Err(_) => None,
    }
}

/// Wraps `regex::bytes::Regex::replace_all`. Claimed: the result is a
/// function of the pattern text, the haystack and the replacement template,
/// and (as matches are replaced, never added) an empty replacement does not
/// lengthen the haystack.
#[verifier::external_body]
pub fn pattern_replace_all(p: &Pattern, text: &[u8], rep: &[u8]) -> (res: Vec<u8>)
    ensures
        res@ == regex_replace_all(p.source(), text@, rep@),
        rep@.len() == 0 ==> res@.len() <= text@.len(),
{
    p.re.replace_all(text, rep).into_owned()
}

/// Wraps `regex::bytes::Regex::captures_iter`, turning each match into the
/// byte ranges of its groups. Claimed: the result is a function of the
/// pattern text and the haystack, and is well formed as the documentation
/// describes (see `well_formed_captures`).
#[verifier::external_body]
pub fn pattern_captures(p: &Pattern, text: &[u8]) -> (res: Vec<Vec<Option<(usize, usize)>>>)
    ensures
        captures_view(res@) == regex_captures(p.source(), text@),
        well_formed_captures(captures_view(res@), text@.len()),
{
    let mut out = Vec::new();
    for caps in p.re.captures_iter(text) {
        let mut groups = Vec::new();
        for m in caps.iter() {
            groups.push(m.map(|m| (m.start(), m.end())));
        }
        out.push(groups);
    }
    out
}

/// A leftmost-longest multi-pattern matcher together with its patterns.
pub struct Automaton {
    patterns: Vec<Vec<u8>>,
    ac: aho_corasick::AhoCorasick,
}

impl Automaton {
    /// The patterns the matcher was built from, in order.
    pub closed spec fn patterns(&self) -> Seq<Seq<u8>> {
        rows_view(self.patterns@)
    }
}

/// What `aho_corasick::AhoCorasick::find_iter` yields for a leftmost-longest
/// matcher over `patterns` on a haystack: (pattern index, start, end).
pub uninterp spec fn aho_leftmost_longest(patterns: Seq<Seq<u8>>, text: Seq<u8>) -> Seq<(usize, usize, usize)>;

/// The facts the `aho-corasick` documentation gives about `find_iter`: each
/// match is an occurrence of the pattern it names, inside the haystack, and
/// successive matches do not overlap and come in order.
pub open spec fn well_formed_matches(m: Seq<(usize, usize, usize)>, patterns: Seq<Seq<u8>>, text: Seq<u8>) -> bool {
    &&& forall|k: int|
        0 <= k < m.len() ==> {
            let (p, s, e) = #[trigger] m[k];
            &&& p < patterns.len()
            &&& s <= e <= text.len()
            &&& text.subrange(s as int, e as int) == patterns[p as int]
        }
    &&& forall|k: int| 0 <= k < m.len() - 1 ==> (#[trigger] m[k]).2 <= m[k + 1].1
}

/// Whether a leftmost-longest `AhoCorasick` matcher can be built for the
/// given patterns.
pub uninterp spec fn aho_builds(patterns: Seq<Seq<u8>>) -> bool;

/// Wraps `AhoCorasick::builder().match_kind(LeftmostLongest).build`.
/// Claimed: whether it succeeds is a function of the patterns, and on
/// success the matcher searches for exactly the given patterns.
#[verifier::external_body]
pub fn automaton_new(patterns: Vec<Vec<u8>>) -> (res: Option<Automaton>)
    ensures
        res is Some <==> aho_builds(rows_view(patterns@)),
        res matches Some(a) ==> a.patterns() == rows_view(patterns@),
{
    match aho_corasick::AhoCorasick::builder()
        .match_kind(aho_corasick::MatchKind::LeftmostLongest)
        .build(&patterns)
    {
        Ok(ac) => Some(Automaton { patterns, ac }),
        Err(_) => None,
    }
}

/// Wraps `AhoCorasick::find_iter`. Claimed: the result is a function of the
/// patterns and the haystack, and is well formed (see `well_formed_matches`).
#[verifier::external_body]
pub fn automaton_find_all(a: &Automaton, text: &[u8]) -> (res: Vec<(usize, usize, usize)>)
    ensures
        res@ == aho_leftmost_longest(a.patterns(), text@),
        well_formed_matches(res@, a.patterns(), text@),
{
    let mut out = Vec::new();
    for m in a.ac.find_iter(text) {
        out.push((m.pattern().as_usize(), m.start(), m.end()));
    }
    out
}

} // verus!
