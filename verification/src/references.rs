//! Citations, cross-references, labels, URLs and bibliography entries.

use vstd::prelude::*;
use vstd::string::StringSliceAdditionalSpecFns;
use crate::braces::{
    after_optional_arg, after_optional_arg_bytes, command_arg, command_arg_bytes, is_alpha,
    is_alpha_byte, lemma_closing_brace_bounds, lemma_closing_bracket_bounds,
    lemma_letters_end_bounds, lemma_skip_blanks_bounds, letters_end, skip_blanks,
    skip_blanks_bytes,
};
use crate::cleanup::{backslash_name, lemma_command_arg_bounds, EMPTY};
use crate::macros::{all_digits, pair_patterns, pair_replacements, replacer_for};
use crate::regexes::{re_replace, re_replace_bytes};
use crate::replacer::replace_commands;
use crate::scan::{
    bytes_in_list, find_bytes, find_from, in_list, lemma_find_from_bounds, push_all, push_range,
    slice_to_vec, trim_ws, trim_ws_range,
};
use crate::text::{string_from_bytes, utf8_lossy};
use crate::textmap::TextMap;
use crate::timing::{decimal, push_decimal};

verus! {

/// A parser run where a command's name ends: the replacement text and the
/// position where scanning resumes, or `None` when the command is left as
/// it is.
pub type Parse = spec_fn(Seq<u8>, int) -> Option<(Seq<u8>, int)>;

/// The text from `le` on, with each occurrence of `pat` found scanning from
/// `s` replaced as `parse` says. With `boundary`, an occurrence followed by
/// a letter is part of a longer command name and stays.
pub open spec fn replaced_from(t: Seq<u8>, pat: Seq<u8>, boundary: bool, parse: Parse, s: int, le: int) -> Seq<u8>
    decreases t.len() + 1 - s,
{
    if s < 0 || s > t.len() || pat.len() == 0 {
        t.subrange(le, t.len() as int)
    } else {
        proof {
            lemma_find_from_bounds(t, pat, s);
        }
        match find_from(t, pat, s) {
            None => t.subrange(le, t.len() as int),
            Some(p) => {
                let after = p + pat.len();
                if boundary && after < t.len() && is_alpha(t[after]) {
                    replaced_from(t, pat, boundary, parse, after, le)
                } else {
                    match parse(t, after) {
                        Some((rep, e)) => if after <= e <= t.len() {
                            t.subrange(le, p) + rep + replaced_from(t, pat, boundary, parse, e, e)
                        } else {
                            t.subrange(le, t.len() as int)
                        },
                        None => replaced_from(t, pat, boundary, parse, after, le),
                    }
                }
            },
        }
    }
}

fn backslash_vec(name: &str) -> (res: Vec<u8>)
    ensures
        res@ == backslash_name(name.spec_bytes()),
        res@.len() > 0,
{
    let mut v: Vec<u8> = Vec::new();
    v.push(0x5c);
    push_all(&mut v, name.as_bytes());
    assert(v@ =~= backslash_name(name.spec_bytes()));
    v
}

pub proof fn lemma_after_optional_arg(b: Seq<u8>, pos: int)
    requires
        0 <= pos <= b.len(),
    ensures
        pos <= after_optional_arg(b, pos) <= b.len(),
{
    lemma_skip_blanks_bounds(b, pos);
    let i = skip_blanks(b, pos);
    if 0 <= i < b.len() && b[i] == 0x5b {
        lemma_closing_bracket_bounds(b, i + 1, 1);
    }
}

/// Maps as lists of (key, value) pairs; the first entry for a key wins.
pub open spec fn pairs_view(v: Seq<(Vec<u8>, Vec<u8>)>) -> Seq<(Seq<u8>, Seq<u8>)> {
    v.map_values(|p: (Vec<u8>, Vec<u8>)| (p.0@, p.1@))
}

/// The value of the first entry at or after `i` with key `k`.
pub open spec fn lookup_from(m: Seq<(Seq<u8>, Seq<u8>)>, k: Seq<u8>, i: int) -> Option<Seq<u8>>
    decreases m.len() - i,
{
    if i < 0 || i >= m.len() {
        None
    } else if m[i].0 == k {
        Some(m[i].1)
    } else {
        lookup_from(m, k, i + 1)
    }
}

/// What a key resolves to: its value, or the key itself when absent.
pub open spec fn resolve(m: Seq<(Seq<u8>, Seq<u8>)>, k: Seq<u8>) -> Seq<u8> {
    match lookup_from(m, k, 0) {
        Some(v) => v,
        None => k,
    }
}

/// Append what `key` resolves to in `m`.
fn push_resolved(out: &mut Vec<u8>, m: &Vec<(Vec<u8>, Vec<u8>)>, key: &[u8])
    ensures
        final(out)@ == old(out)@ + resolve(pairs_view(m@), key@),
{
    let ghost mv = pairs_view(m@);
    let mut i: usize = 0;
    while i < m.len()
        invariant
            i <= m.len(),
            mv == pairs_view(m@),
            out@ == old(out)@,
            lookup_from(mv, key@, i as int) == lookup_from(mv, key@, 0),
        decreases m.len() - i,
    {
        assert(mv[i as int] == (m@[i as int].0@, m@[i as int].1@));
        if crate::scan::bytes_eq(m[i].0.as_slice(), key) {
            push_all(out, m[i].1.as_slice());
            return;
        }
        i = i + 1;
    }
    push_all(out, key);
}

/// Journal abbreviation macros and their expansions.
pub open spec fn journal_macros() -> Seq<(&'static str, &'static str)> {
    seq![
        ("\\aap", "A&A"),
        ("\\aapr", "A&A Rev."),
        ("\\aaps", "A&AS"),
        ("\\apj", "ApJ"),
        ("\\apjl", "ApJL"),
        ("\\apjs", "ApJS"),
        ("\\apss", "Ap&SS"),
        ("\\mnras", "MNRAS"),
        ("\\prl", "Phys. Rev. Lett."),
        ("\\prd", "Phys. Rev. D"),
        ("\\nat", "Nature"),
        ("\\sci", "Science"),
        ("\\araa", "ARA&A"),
        ("\\pasp", "PASP"),
        ("\\pasj", "PASJ"),
        ("\\jcap", "JCAP"),
        ("\\solphys", "Sol. Phys."),
        ("\\icarus", "Icarus"),
        ("\\planss", "Planet. Space Sci."),
        ("\\procspie", "Proc. SPIE"),
    ]
}

fn expand_journal_macros(t: &[u8]) -> (res: Vec<u8>)
    ensures
        res@ == replace_commands(
            pair_patterns(journal_macros()),
            pair_replacements(journal_macros()),
            t@,
        ),
{
    let pairs: Vec<(&'static str, &'static str)> = vec![
        ("\\aap", "A&A"),
        ("\\aapr", "A&A Rev."),
        ("\\aaps", "A&AS"),
        ("\\apj", "ApJ"),
        ("\\apjl", "ApJL"),
        ("\\apjs", "ApJS"),
        ("\\apss", "Ap&SS"),
        ("\\mnras", "MNRAS"),
        ("\\prl", "Phys. Rev. Lett."),
        ("\\prd", "Phys. Rev. D"),
        ("\\nat", "Nature"),
        ("\\sci", "Science"),
        ("\\araa", "ARA&A"),
        ("\\pasp", "PASP"),
        ("\\pasj", "PASJ"),
        ("\\jcap", "JCAP"),
        ("\\solphys", "Sol. Phys."),
        ("\\icarus", "Icarus"),
        ("\\planss", "Planet. Space Sci."),
        ("\\procspie", "Proc. SPIE"),
    ];
    let r = replacer_for(pairs.as_slice());
    r.replace_all_bytes(t)
}

pub const BIBITEM: &'static str = "bibitem";

pub const LABEL: &'static str = "label";

/// A bibliography entry: its key and its optional `[label]`.
pub type BibEntry = (Seq<u8>, Option<Seq<u8>>);

/// The optional label of a `\bibitem` whose name ends at `after`.
pub open spec fn bib_label(t: Seq<u8>, after: int) -> Option<Seq<u8>> {
    let ao = after_optional_arg(t, after);
    if ao > after {
        let i = skip_blanks(t, after);
        if 0 <= i < t.len() && t[i] == 0x5b {
            Some(t.subrange(i + 1, ao - 1))
        } else {
            None
        }
    } else {
        None
    }
}

/// The `\bibitem` entries found scanning from `s`, in document order.
pub open spec fn bib_entries_from(t: Seq<u8>, s: int) -> Seq<BibEntry>
    decreases t.len() + 1 - s,
{
    let pat = backslash_name(BIBITEM.spec_bytes());
    if s < 0 || s > t.len() {
        Seq::empty()
    } else {
        proof {
            lemma_find_from_bounds(t, pat, s);
        }
        match find_from(t, pat, s) {
            None => Seq::empty(),
            Some(p) => {
                let after = p + pat.len();
                if after < t.len() && is_alpha(t[after]) {
                    bib_entries_from(t, after)
                } else {
                    proof {
                        lemma_after_optional_arg(t, after);
                        lemma_command_arg_bounds(t, after_optional_arg(t, after));
                    }
                    let ao = after_optional_arg(t, after);
                    match command_arg(t, ao) {
                        Some((cs, ce, ac)) => seq![(t.subrange(cs, ce), bib_label(t, after))]
                            + bib_entries_from(t, ac),
                        None => bib_entries_from(t, after),
                    }
                }
            },
        }
    }
}

/// Author-year mode: some entry has a label that is not blank and not a
/// number.
pub open spec fn author_year(e: Seq<BibEntry>) -> bool {
    exists|k: int| 0 <= k < e.len() && #[trigger] meaningful_label(e[k].1)
}

/// A label that is neither blank nor a number.
pub open spec fn meaningful_label(l: Option<Seq<u8>>) -> bool {
    match l {
        Some(l) => trim_ws(l).len() > 0 && !all_digits(trim_ws(l)),
        None => false,
    }
}

/// The display text of each entry: its label in author-year mode (when it
/// has one), else its position counting from 1.
pub open spec fn cite_pairs(e: Seq<BibEntry>) -> Seq<(Seq<u8>, Seq<u8>)> {
    Seq::new(
        e.len(),
        |i: int|
            (
                e[i].0,
                if author_year(e) {
                    match e[i].1 {
                        Some(l) => l,
                        None => decimal((i + 1) as nat),
                    }
                } else {
                    decimal((i + 1) as nat)
                },
            ),
    )
}

/// The citation map of a text: bibliography key to display text.
pub open spec fn cite_map(t: Seq<u8>) -> Seq<(Seq<u8>, Seq<u8>)> {
    cite_pairs(bib_entries_from(t, 0))
}

/// Keys of the `\label{..}` commands found scanning from `s`.
pub open spec fn label_keys_from(t: Seq<u8>, s: int) -> Seq<Seq<u8>>
    decreases t.len() + 1 - s,
{
    let pat = backslash_name(LABEL.spec_bytes());
    if s < 0 || s > t.len() {
        Seq::empty()
    } else {
        proof {
            lemma_find_from_bounds(t, pat, s);
        }
        match find_from(t, pat, s) {
            None => Seq::empty(),
            Some(p) => {
                let after = p + pat.len();
                if after < t.len() && is_alpha(t[after]) {
                    label_keys_from(t, after)
                } else {
                    proof {
                        lemma_command_arg_bounds(t, after);
                    }
                    match command_arg(t, after) {
                        Some((cs, ce, ac)) => seq![t.subrange(cs, ce)] + label_keys_from(t, ac),
                        None => label_keys_from(t, after),
                    }
                }
            },
        }
    }
}

/// Position of the first `:` at or after `i` in a key.
pub open spec fn colon_from(k: Seq<u8>, i: int) -> Option<int>
    decreases k.len() - i,
{
    if i < 0 || i >= k.len() {
        None
    } else if k[i] == 0x3a {
        Some(i)
    } else {
        colon_from(k, i + 1)
    }
}

/// Position of the first `:` in a key.
pub open spec fn colon_pos(k: Seq<u8>) -> Option<int> {
    colon_from(k, 0)
}

/// The counter a key belongs to: its prefix before the first `:`, or none.
pub open spec fn label_prefix(k: Seq<u8>) -> Option<Seq<u8>> {
    match colon_pos(k) {
        Some(c) => Some(k.subrange(0, c)),
        None => None,
    }
}

/// How many of the first `n` keys share the counter `pre`.
pub open spec fn count_same_prefix(keys: Seq<Seq<u8>>, n: int, pre: Option<Seq<u8>>) -> nat
    decreases n,
{
    if n <= 0 {
        0
    } else {
        count_same_prefix(keys, n - 1, pre) + if label_prefix(keys[n - 1]) == pre {
            1nat
        } else {
            0nat
        }
    }
}

/// Each label numbered within its counter (per prefix such as `fig:` or
/// `eq:`, or the shared counter of keys without one), counting from 1.
pub open spec fn label_pairs(keys: Seq<Seq<u8>>) -> Seq<(Seq<u8>, Seq<u8>)> {
    Seq::new(
        keys.len(),
        |j: int| (keys[j], decimal(count_same_prefix(keys, j + 1, label_prefix(keys[j])))),
    )
}

/// The labels of a text with their numbers.
pub open spec fn label_map(t: Seq<u8>) -> Seq<(Seq<u8>, Seq<u8>)> {
    label_pairs(label_keys_from(t, 0))
}

/// The section labels given by the structure pass, as bytes.
pub open spec fn section_pairs(m: Seq<(Seq<char>, Seq<char>)>) -> Seq<(Seq<u8>, Seq<u8>)> {
    m.map_values(
        |p: (Seq<char>, Seq<char>)|
            (vstd::utf8::encode_utf8(p.0), vstd::utf8::encode_utf8(p.1)),
    )
}

/// `\url{x}` gives `x`.
pub open spec fn url_parse() -> Parse {
    |t: Seq<u8>, a: int|
        match command_arg(t, a) {
            Some((cs, ce, ac)) => Some((t.subrange(cs, ce), ac)),
            None => None,
        }
}

/// `\hyperref[label]{x}` gives `x`.
pub open spec fn hyperref_parse() -> Parse {
    |t: Seq<u8>, a: int|
        match command_arg(t, after_optional_arg(t, a)) {
            Some((cs, ce, ac)) => Some((t.subrange(cs, ce), ac)),
            None => None,
        }
}

/// `\href{url}{x}` gives `x`.
pub open spec fn href_parse() -> Parse {
    |t: Seq<u8>, a: int|
        match command_arg(t, a) {
            Some((cs1, ce1, a1)) => match command_arg(t, a1) {
                Some((cs, ce, ac)) => Some((t.subrange(cs, ce), ac)),
                None => None,
            },
            None => None,
        }
}

/// `\ref{key}` gives the key's number, or the key.
pub open spec fn ref_parse(m: Seq<(Seq<u8>, Seq<u8>)>) -> Parse {
    |t: Seq<u8>, a: int|
        match command_arg(t, a) {
            Some((cs, ce, ac)) => Some((resolve(m, t.subrange(cs, ce)), ac)),
            None => None,
        }
}

/// `\bibitem[label]{key}` gives a new line and `[display] `; without a
/// key, a new line where the optional label was.
pub open spec fn bibitem_parse(m: Seq<(Seq<u8>, Seq<u8>)>) -> Parse {
    |t: Seq<u8>, a: int|
        {
            let ao = after_optional_arg(t, a);
            match command_arg(t, ao) {
                Some((cs, ce, ac)) => Some(
                    (seq![0x0au8, 0x5bu8] + resolve(m, t.subrange(cs, ce)) + seq![0x5du8, 0x20u8], ac),
                ),
                None => Some((seq![0x0au8], ao)),
            }
        }
}

/// The citation command suffixes after `\cite`.
pub open spec fn cite_suffixes() -> Seq<&'static str> {
    seq!["", "p", "t", "alp", "alt", "author", "year", "num"]
}

/// The keys of a citation, each trimmed and resolved, from the piece
/// starting at `i` on, joined by commas.
pub open spec fn resolved_keys_from(ks: Seq<u8>, m: Seq<(Seq<u8>, Seq<u8>)>, i: int) -> Seq<u8>
    decreases ks.len() - i,
{
    if i < 0 || i > ks.len() {
        Seq::empty()
    } else {
        proof {
            lemma_comma_end(ks, i);
        }
        let c = comma_end(ks, i);
        let piece = resolve(m, trim_ws(ks.subrange(i, c)));
        if c >= ks.len() {
            piece
        } else {
            piece + seq![0x2cu8] + resolved_keys_from(ks, m, c + 1)
        }
    }
}

/// Position of the first `,` at or after `i`, or the end.
pub open spec fn comma_end(s: Seq<u8>, i: int) -> int
    decreases s.len() - i,
{
    if i < 0 || i >= s.len() || s[i] == 0x2c {
        i
    } else {
        comma_end(s, i + 1)
    }
}

pub proof fn lemma_comma_end(s: Seq<u8>, i: int)
    requires
        0 <= i <= s.len(),
    ensures
        i <= comma_end(s, i) <= s.len(),
    decreases s.len() - i,
{
    if i < s.len() && s[i] != 0x2c {
        lemma_comma_end(s, i + 1);
    }
}

/// `\cite`, `\citep`, `\citet`, ... with optional `*` and up to two optional
/// arguments give `[display,...]`; other names starting with `\cite` stay.
pub open spec fn cite_parse(m: Seq<(Seq<u8>, Seq<u8>)>) -> Parse {
    |t: Seq<u8>, a: int|
        {
            let le = letters_end(t, a);
            if !in_list(t.subrange(a, le), cite_suffixes()) {
                None
            } else {
                let ce = if 0 <= le < t.len() && t[le] == 0x2a {
                    le + 1
                } else {
                    le
                };
                let ao = after_optional_arg(t, after_optional_arg(t, ce));
                match command_arg(t, ao) {
                    Some((cs, cend, ac)) => Some(
                        (
                            seq![0x5bu8] + resolved_keys_from(t.subrange(cs, cend), m, 0) + seq![
                                0x5du8,
                            ],
                            ac,
                        ),
                    ),
                    None => None,
                }
            }
        }
}

pub const URL: &'static str = "url";

pub const HYPERREF: &'static str = "hyperref";

pub const HREF: &'static str = "href";

pub const CITE: &'static str = "cite";

fn url_arg(t: &[u8], after: usize) -> (res: Option<(Vec<u8>, usize)>)
    requires
        after <= t.len(),
    ensures
        match res {
            Some((rep, e)) => (url_parse())(t@, after as int) == Some((rep@, e as int)) && after
                <= e <= t.len(),
            None => (url_parse())(t@, after as int) is None,
        },
{
    match command_arg_bytes(t, after) {
        Some((cs, ce, ac)) => Some((slice_to_vec(t, cs, ce), ac)),
        None => None,
    }
}

fn hyperref_arg(t: &[u8], after: usize) -> (res: Option<(Vec<u8>, usize)>)
    requires
        after <= t.len(),
    ensures
        match res {
            Some((rep, e)) => (hyperref_parse())(t@, after as int) == Some((rep@, e as int))
                && after <= e <= t.len(),
            None => (hyperref_parse())(t@, after as int) is None,
        },
{
    let ao = after_optional_arg_bytes(t, after);
    match command_arg_bytes(t, ao) {
        Some((cs, ce, ac)) => Some((slice_to_vec(t, cs, ce), ac)),
        None => None,
    }
}

fn href_arg(t: &[u8], after: usize) -> (res: Option<(Vec<u8>, usize)>)
    requires
        after <= t.len(),
    ensures
        match res {
            Some((rep, e)) => (href_parse())(t@, after as int) == Some((rep@, e as int)) && after
                <= e <= t.len(),
            None => (href_parse())(t@, after as int) is None,
        },
{
    match command_arg_bytes(t, after) {
        Some((_, _, a1)) => match command_arg_bytes(t, a1) {
            Some((cs, ce, ac)) => Some((slice_to_vec(t, cs, ce), ac)),
            None => None,
        },
        None => None,
    }
}

fn ref_arg(t: &[u8], after: usize, m: &Vec<(Vec<u8>, Vec<u8>)>) -> (res: Option<(Vec<u8>, usize)>)
    requires
        after <= t.len(),
    ensures
        match res {
            Some((rep, e)) => (ref_parse(pairs_view(m@)))(t@, after as int) == Some(
                (rep@, e as int),
            ) && after <= e <= t.len(),
            None => (ref_parse(pairs_view(m@)))(t@, after as int) is None,
        },
{
    match command_arg_bytes(t, after) {
        Some((cs, ce, ac)) => {
            let mut rep: Vec<u8> = Vec::new();
            let key = &t[cs..ce];
            assert(key@ =~= t@.subrange(cs as int, ce as int));
            push_resolved(&mut rep, m, key);
            assert(rep@ =~= resolve(pairs_view(m@), t@.subrange(cs as int, ce as int)));
            Some((rep, ac))
        },
        None => None,
    }
}

fn bibitem_arg(t: &[u8], after: usize, m: &Vec<(Vec<u8>, Vec<u8>)>) -> (res: Option<(Vec<u8>, usize)>)
    requires
        after <= t.len(),
    ensures
        match res {
            Some((rep, e)) => (bibitem_parse(pairs_view(m@)))(t@, after as int) == Some(
                (rep@, e as int),
            ) && after <= e <= t.len(),
            None => (bibitem_parse(pairs_view(m@)))(t@, after as int) is None,
        },
{
    let ao = after_optional_arg_bytes(t, after);
    let mut rep: Vec<u8> = Vec::new();
    rep.push(0x0a);
    match command_arg_bytes(t, ao) {
        Some((cs, ce, ac)) => {
            rep.push(0x5b);
            let key = &t[cs..ce];
            assert(key@ =~= t@.subrange(cs as int, ce as int));
            push_resolved(&mut rep, m, key);
            rep.push(0x5d);
            rep.push(0x20);
            assert(rep@ =~= seq![0x0au8, 0x5bu8] + resolve(
                pairs_view(m@),
                t@.subrange(cs as int, ce as int),
            ) + seq![0x5du8, 0x20u8]);
            Some((rep, ac))
        },
        None => {
            assert(rep@ =~= seq![0x0au8]);
            Some((rep, ao))
        },
    }
}

fn push_resolved_keys(out: &mut Vec<u8>, ks: &[u8], m: &Vec<(Vec<u8>, Vec<u8>)>)
    ensures
        final(out)@ == old(out)@ + resolved_keys_from(ks@, pairs_view(m@), 0),
{
    let ghost base = old(out)@;
    let mut i: usize = 0;
    loop
        invariant
            i <= ks.len(),
            base == old(out)@,
            out@ + resolved_keys_from(ks@, pairs_view(m@), i as int) == base + resolved_keys_from(
                ks@,
                pairs_view(m@),
                0,
            ),
        decreases ks.len() - i,
    {
        let ghost o = out@;
        let mut c = i;
        while c < ks.len() && ks[c] != 0x2c
            invariant
                i <= c <= ks.len(),
                comma_end(ks@, c as int) == comma_end(ks@, i as int),
            decreases ks.len() - c,
        {
            c = c + 1;
        }
        assert(c as int == comma_end(ks@, i as int));
        proof {
            lemma_comma_end(ks@, i as int);
        }
        let (a, b) = trim_ws_range(ks, i, c);
        let key = &ks[a..b];
        assert(key@ =~= trim_ws(ks@.subrange(i as int, c as int)));
        push_resolved(out, m, key);
        if c >= ks.len() {
            assert(o + resolved_keys_from(ks@, pairs_view(m@), i as int) =~= out@);
            return;
        }
        out.push(0x2c);
        assert(o + resolved_keys_from(ks@, pairs_view(m@), i as int) =~= out@
            + resolved_keys_from(ks@, pairs_view(m@), c + 1));
        i = c + 1;
    }
}

fn cite_suffix_list() -> (res: Vec<&'static str>)
    ensures
        res@ == cite_suffixes(),
{
    vec!["", "p", "t", "alp", "alt", "author", "year", "num"]
}

fn cite_arg(t: &[u8], after: usize, m: &Vec<(Vec<u8>, Vec<u8>)>) -> (res: Option<(Vec<u8>, usize)>)
    requires
        after <= t.len(),
    ensures
        match res {
            Some((rep, e)) => (cite_parse(pairs_view(m@)))(t@, after as int) == Some(
                (rep@, e as int),
            ) && after <= e <= t.len(),
            None => (cite_parse(pairs_view(m@)))(t@, after as int) is None,
        },
{
    proof {
        lemma_letters_end_bounds(t@, after as int);
    }
    let mut le = after;
    while le < t.len() && is_alpha_byte(t[le])
        invariant
            after <= le <= t.len(),
            letters_end(t@, le as int) == letters_end(t@, after as int),
        decreases t.len() - le,
    {
        le = le + 1;
    }
    let suffix = &t[after..le];
    assert(suffix@ =~= t@.subrange(after as int, le as int));
    let valid = cite_suffix_list();
    if !bytes_in_list(suffix, valid.as_slice()) {
        return None;
    }
    let ce = if le < t.len() && t[le] == 0x2a {
        le + 1
    } else {
        le
    };
    let a1 = after_optional_arg_bytes(t, ce);
    let ao = after_optional_arg_bytes(t, a1);
    match command_arg_bytes(t, ao) {
        Some((cs, cend, ac)) => {
            let mut rep: Vec<u8> = Vec::new();
            rep.push(0x5b);
            let ks = &t[cs..cend];
            assert(ks@ =~= t@.subrange(cs as int, cend as int));
            push_resolved_keys(&mut rep, ks, m);
            rep.push(0x5d);
            assert(rep@ =~= seq![0x5bu8] + resolved_keys_from(
                t@.subrange(cs as int, cend as int),
                pairs_view(m@),
                0,
            ) + seq![0x5du8]);
            Some((rep, ac))
        },
        None => None,
    }
}

/// Replace `\url{x}` by `x`.
fn replace_url_command(t: &[u8]) -> (res: Vec<u8>)
    ensures
        res@ == replaced_from(t@, backslash_name(URL.spec_bytes()), true, url_parse(), 0, 0),
{
    let pat = backslash_vec(URL);
    let mut out: Vec<u8> = Vec::new();
    let mut le: usize = 0;
    let mut s: usize = 0;
    loop
        invariant
            le <= s <= t.len(),
            pat@ == backslash_name(URL.spec_bytes()),
            pat@.len() > 0,
            out@ + replaced_from(t@, pat@, true, url_parse(), s as int, le as int)
                == replaced_from(t@, pat@, true, url_parse(), 0, 0),
        decreases t.len() + 1 - s,
    {
        let ghost o = out@;
        proof {
            lemma_find_from_bounds(t@, pat@, s as int);
        }
        match find_bytes(t, pat.as_slice(), s) {
            None => {
                push_range(&mut out, t, le, t.len());
                return out;
            },
            Some(p) => {
                let after = p + pat.len();
                if after < t.len() && is_alpha_byte(t[after]) {
                    s = after;
                } else {
                    match url_arg(t, after) {
                        Some((rep, e)) => {
                            push_range(&mut out, t, le, p);
                            push_all(&mut out, rep.as_slice());
                            assert(o + (t@.subrange(le as int, p as int) + rep@ + replaced_from(
                                t@,
                                pat@,
                                true,
                                url_parse(),
                                e as int,
                                e as int,
                            )) =~= out@ + replaced_from(t@, pat@, true, url_parse(), e as int, e as int));
                            le = e;
                            s = e;
                        },
                        None => {
                            s = after;
                        },
                    }
                }
            },
        }
    }
}

/// Replace `\hyperref[label]{x}` by `x`.
fn replace_hyperref_command(t: &[u8]) -> (res: Vec<u8>)
    ensures
        res@ == replaced_from(t@, backslash_name(HYPERREF.spec_bytes()), true, hyperref_parse(), 0, 0),
{
    let pat = backslash_vec(HYPERREF);
    let mut out: Vec<u8> = Vec::new();
    let mut le: usize = 0;
    let mut s: usize = 0;
    loop
        invariant
            le <= s <= t.len(),
            pat@ == backslash_name(HYPERREF.spec_bytes()),
            pat@.len() > 0,
            out@ + replaced_from(t@, pat@, true, hyperref_parse(), s as int, le as int)
                == replaced_from(t@, pat@, true, hyperref_parse(), 0, 0),
        decreases t.len() + 1 - s,
    {
        let ghost o = out@;
        proof {
            lemma_find_from_bounds(t@, pat@, s as int);
        }
        match find_bytes(t, pat.as_slice(), s) {
            None => {
                push_range(&mut out, t, le, t.len());
                return out;
            },
            Some(p) => {
                let after = p + pat.len();
                if after < t.len() && is_alpha_byte(t[after]) {
                    s = after;
                } else {
                    match hyperref_arg(t, after) {
                        Some((rep, e)) => {
                            push_range(&mut out, t, le, p);
                            push_all(&mut out, rep.as_slice());
                            assert(o + (t@.subrange(le as int, p as int) + rep@ + replaced_from(
                                t@,
                                pat@,
                                true,
                                hyperref_parse(),
                                e as int,
                                e as int,
                            )) =~= out@ + replaced_from(t@, pat@, true, hyperref_parse(), e as int, e as int));
                            le = e;
                            s = e;
                        },
                        None => {
                            s = after;
                        },
                    }
                }
            },
        }
    }
}

/// Replace `\href{url}{x}` by `x`.
fn replace_href_command(t: &[u8]) -> (res: Vec<u8>)
    ensures
        res@ == replaced_from(t@, backslash_name(HREF.spec_bytes()), true, href_parse(), 0, 0),
{
    let pat = backslash_vec(HREF);
    let mut out: Vec<u8> = Vec::new();
    let mut le: usize = 0;
    let mut s: usize = 0;
    loop
        invariant
            le <= s <= t.len(),
            pat@ == backslash_name(HREF.spec_bytes()),
            pat@.len() > 0,
            out@ + replaced_from(t@, pat@, true, href_parse(), s as int, le as int)
                == replaced_from(t@, pat@, true, href_parse(), 0, 0),
        decreases t.len() + 1 - s,
    {
        let ghost o = out@;
        proof {
            lemma_find_from_bounds(t@, pat@, s as int);
        }
        match find_bytes(t, pat.as_slice(), s) {
            None => {
                push_range(&mut out, t, le, t.len());
                return out;
            },
            Some(p) => {
                let after = p + pat.len();
                if after < t.len() && is_alpha_byte(t[after]) {
                    s = after;
                } else {
                    match href_arg(t, after) {
                        Some((rep, e)) => {
                            push_range(&mut out, t, le, p);
                            push_all(&mut out, rep.as_slice());
                            assert(o + (t@.subrange(le as int, p as int) + rep@ + replaced_from(
                                t@,
                                pat@,
                                true,
                                href_parse(),
                                e as int,
                                e as int,
                            )) =~= out@ + replaced_from(t@, pat@, true, href_parse(), e as int, e as int));
                            le = e;
                            s = e;
                        },
                        None => {
                            s = after;
                        },
                    }
                }
            },
        }
    }
}

/// Replace `\name{key}` by the key's number, or the key when it has none.
fn replace_ref_command(t: &[u8], name: &str, m: &Vec<(Vec<u8>, Vec<u8>)>) -> (res: Vec<u8>)
    ensures
        res@ == replaced_from(t@, backslash_name(name.spec_bytes()), true, ref_parse(pairs_view(m@)), 0, 0),
{
    let pat = backslash_vec(name);
    let mut out: Vec<u8> = Vec::new();
    let mut le: usize = 0;
    let mut s: usize = 0;
    loop
        invariant
            le <= s <= t.len(),
            pat@ == backslash_name(name.spec_bytes()),
            pat@.len() > 0,
            out@ + replaced_from(t@, pat@, true, ref_parse(pairs_view(m@)), s as int, le as int)
                == replaced_from(t@, pat@, true, ref_parse(pairs_view(m@)), 0, 0),
        decreases t.len() + 1 - s,
    {
        let ghost o = out@;
        proof {
            lemma_find_from_bounds(t@, pat@, s as int);
        }
        match find_bytes(t, pat.as_slice(), s) {
            None => {
                push_range(&mut out, t, le, t.len());
                return out;
            },
            Some(p) => {
                let after = p + pat.len();
                if after < t.len() && is_alpha_byte(t[after]) {
                    s = after;
                } else {
                    match ref_arg(t, after, m) {
                        Some((rep, e)) => {
                            push_range(&mut out, t, le, p);
                            push_all(&mut out, rep.as_slice());
                            assert(o + (t@.subrange(le as int, p as int) + rep@ + replaced_from(
                                t@,
                                pat@,
                                true,
                                ref_parse(pairs_view(m@)),
                                e as int,
                                e as int,
                            )) =~= out@ + replaced_from(t@, pat@, true, ref_parse(pairs_view(m@)), e as int, e as int));
                            le = e;
                            s = e;
                        },
                        None => {
                            s = after;
                        },
                    }
                }
            },
        }
    }
}

/// Replace `\bibitem[label]{key}` by a new line and `[display] `.
fn convert_bibitems(t: &[u8], m: &Vec<(Vec<u8>, Vec<u8>)>) -> (res: Vec<u8>)
    ensures
        res@ == replaced_from(t@, backslash_name(BIBITEM.spec_bytes()), true, bibitem_parse(pairs_view(m@)), 0, 0),
{
    let pat = backslash_vec(BIBITEM);
    let mut out: Vec<u8> = Vec::new();
    let mut le: usize = 0;
    let mut s: usize = 0;
    loop
        invariant
            le <= s <= t.len(),
            pat@ == backslash_name(BIBITEM.spec_bytes()),
            pat@.len() > 0,
            out@ + replaced_from(t@, pat@, true, bibitem_parse(pairs_view(m@)), s as int, le as int)
                == replaced_from(t@, pat@, true, bibitem_parse(pairs_view(m@)), 0, 0),
        decreases t.len() + 1 - s,
    {
        let ghost o = out@;
        proof {
            lemma_find_from_bounds(t@, pat@, s as int);
        }
        match find_bytes(t, pat.as_slice(), s) {
            None => {
                push_range(&mut out, t, le, t.len());
                return out;
            },
            Some(p) => {
                let after = p + pat.len();
                if after < t.len() && is_alpha_byte(t[after]) {
                    s = after;
                } else {
                    match bibitem_arg(t, after, m) {
                        Some((rep, e)) => {
                            push_range(&mut out, t, le, p);
                            push_all(&mut out, rep.as_slice());
                            assert(o + (t@.subrange(le as int, p as int) + rep@ + replaced_from(
                                t@,
                                pat@,
                                true,
                                bibitem_parse(pairs_view(m@)),
                                e as int,
                                e as int,
                            )) =~= out@ + replaced_from(t@, pat@, true, bibitem_parse(pairs_view(m@)), e as int, e as int));
                            le = e;
                            s = e;
                        },
                        None => {
                            s = after;
                        },
                    }
                }
            },
        }
    }
}

/// Replace the citation commands by `[display,...]`, each key resolved
/// through the citation map or kept as it is.
fn replace_cite_commands(t: &[u8], m: &Vec<(Vec<u8>, Vec<u8>)>) -> (res: Vec<u8>)
    ensures
        res@ == replaced_from(t@, backslash_name(CITE.spec_bytes()), false, cite_parse(pairs_view(m@)), 0, 0),
{
    let pat = backslash_vec(CITE);
    let mut out: Vec<u8> = Vec::new();
    let mut le: usize = 0;
    let mut s: usize = 0;
    loop
        invariant
            le <= s <= t.len(),
            pat@ == backslash_name(CITE.spec_bytes()),
            pat@.len() > 0,
            out@ + replaced_from(t@, pat@, false, cite_parse(pairs_view(m@)), s as int, le as int)
                == replaced_from(t@, pat@, false, cite_parse(pairs_view(m@)), 0, 0),
        decreases t.len() + 1 - s,
    {
        let ghost o = out@;
        proof {
            lemma_find_from_bounds(t@, pat@, s as int);
        }
        match find_bytes(t, pat.as_slice(), s) {
            None => {
                push_range(&mut out, t, le, t.len());
                return out;
            },
            Some(p) => {
                let after = p + pat.len();
                if false {
                    s = after;
                } else {
                    match cite_arg(t, after, m) {
                        Some((rep, e)) => {
                            push_range(&mut out, t, le, p);
                            push_all(&mut out, rep.as_slice());
                            assert(o + (t@.subrange(le as int, p as int) + rep@ + replaced_from(
                                t@,
                                pat@,
                                false,
                                cite_parse(pairs_view(m@)),
                                e as int,
                                e as int,
                            )) =~= out@ + replaced_from(t@, pat@, false, cite_parse(pairs_view(m@)), e as int, e as int));
                            le = e;
                            s = e;
                        },
                        None => {
                            s = after;
                        },
                    }
                }
            },
        }
    }
}

pub open spec fn bib_view(v: Seq<(Vec<u8>, Option<Vec<u8>>)>) -> Seq<BibEntry> {
    v.map_values(
        |x: (Vec<u8>, Option<Vec<u8>>)|
            (
                x.0@,
                match x.1 {
                    Some(l) => Some(l@),
                    None => None,
                },
            ),
    )
}

proof fn lemma_closing_bracket_advances(b: Seq<u8>, i: int, depth: nat)
    requires
        depth > 0,
    ensures
        crate::braces::closing_bracket_from(b, i, depth) matches Some(j) ==> j > i,
    decreases b.len() - i,
{
    if i < 0 || i >= b.len() {
    } else if b[i] == 0x5b {
        lemma_closing_bracket_advances(b, i + 1, depth + 1);
    } else if b[i] == 0x5d {
        if depth > 1 {
            lemma_closing_bracket_advances(b, i + 1, (depth - 1) as nat);
        }
    } else if b[i] == 0x5c {
        if i + 1 < b.len() {
            lemma_closing_bracket_advances(b, i + 2, depth);
        }
    } else {
        lemma_closing_bracket_advances(b, i + 1, depth);
    }
}

fn bib_label_bytes(t: &[u8], after: usize) -> (res: Option<Vec<u8>>)
    requires
        after <= t.len(),
    ensures
        match res {
            Some(l) => bib_label(t@, after as int) == Some(l@),
            None => bib_label(t@, after as int) is None,
        },
{
    let ao = after_optional_arg_bytes(t, after);
    if ao > after {
        let i = skip_blanks_bytes(t, after);
        if i < t.len() && t[i] == 0x5b {
            proof {
                lemma_closing_bracket_advances(t@, i + 1, 1);
                lemma_closing_bracket_bounds(t@, i + 1, 1);
            }
            return Some(slice_to_vec(t, i + 1, ao - 1));
        }
    }
    None
}

/// The `\bibitem` entries of a text, in document order.
fn bib_entries(t: &[u8]) -> (res: Vec<(Vec<u8>, Option<Vec<u8>>)>)
    ensures
        bib_view(res@) == bib_entries_from(t@, 0),
{
    let pat = backslash_vec(BIBITEM);
    let mut out: Vec<(Vec<u8>, Option<Vec<u8>>)> = Vec::new();
    let mut s: usize = 0;
    loop
        invariant
            s <= t.len(),
            pat@ == backslash_name(BIBITEM.spec_bytes()),
            pat@.len() > 0,
            bib_view(out@) + bib_entries_from(t@, s as int) == bib_entries_from(t@, 0),
        decreases t.len() + 1 - s,
    {
        let ghost o = bib_view(out@);
        proof {
            lemma_find_from_bounds(t@, pat@, s as int);
        }
        match find_bytes(t, pat.as_slice(), s) {
            None => {
                assert(bib_view(out@) + bib_entries_from(t@, s as int) =~= bib_view(out@));
                return out;
            },
            Some(p) => {
                let after = p + pat.len();
                if after < t.len() && is_alpha_byte(t[after]) {
                    s = after;
                } else {
                    proof {
                        lemma_after_optional_arg(t@, after as int);
                    }
                    let ao = after_optional_arg_bytes(t, after);
                    proof {
                        lemma_command_arg_bounds(t@, ao as int);
                    }
                    match command_arg_bytes(t, ao) {
                        Some((cs, ce, ac)) => {
                            let key = slice_to_vec(t, cs, ce);
                            let label = bib_label_bytes(t, after);
                            out.push((key, label));
                            assert(bib_view(out@) =~= o.push(
                                (t@.subrange(cs as int, ce as int), bib_label(t@, after as int)),
                            ));
                            assert(o + (seq![
                                (t@.subrange(cs as int, ce as int), bib_label(t@, after as int)),
                            ] + bib_entries_from(t@, ac as int)) =~= bib_view(out@)
                                + bib_entries_from(t@, ac as int));
                            s = ac;
                        },
                        None => {
                            s = after;
                        },
                    }
                }
            },
        }
    }
}

fn all_digit_bytes(d: &[u8]) -> (res: bool)
    ensures
        res == all_digits(d@),
{
    let mut i: usize = 0;
    while i < d.len()
        invariant
            i <= d.len(),
            forall|j: int| 0 <= j < i ==> crate::macros::is_digit(#[trigger] d@[j]),
        decreases d.len() - i,
    {
        if !(0x30 <= d[i] && d[i] <= 0x39) {
            return false;
        }
        i = i + 1;
    }
    true
}

fn is_meaningful_label(l: &Option<Vec<u8>>) -> (res: bool)
    ensures
        res == meaningful_label(
            match l {
                Some(v) => Some(v@),
                None => None,
            },
        ),
{
    match l {
        Some(v) => {
            let (a, b) = trim_ws_range(v.as_slice(), 0, v.len());
            assert(v@.subrange(0, v@.len() as int) =~= v@);
            let tr = &v[a..b];
            assert(tr@ =~= trim_ws(v@));
            tr.len() > 0 && !all_digit_bytes(tr)
        },
        None => false,
    }
}

/// The citation map of a text: each `\bibitem` key with its display text,
/// in document order (the first entry for a key wins).
fn build_cite_key_map(t: &[u8]) -> (res: Vec<(Vec<u8>, Vec<u8>)>)
    ensures
        pairs_view(res@) == cite_map(t@),
{
    let entries = bib_entries(t);
    let ghost e = bib_view(entries@);
    let mut ay = false;
    let mut k: usize = 0;
    while k < entries.len()
        invariant
            k <= entries.len(),
            e == bib_view(entries@),
            ay == exists|j: int| 0 <= j < k && #[trigger] meaningful_label(e[j].1),
        decreases entries.len() - k,
    {
        assert(e[k as int].1 == match entries@[k as int].1 {
            Some(v) => Some(v@),
            None => None,
        });
        if is_meaningful_label(&entries[k].1) {
            ay = true;
        }
        k = k + 1;
    }
    assert(ay == author_year(e));
    let mut out: Vec<(Vec<u8>, Vec<u8>)> = Vec::new();
    let mut i: usize = 0;
    while i < entries.len()
        invariant
            i <= entries.len(),
            e == bib_view(entries@),
            ay == author_year(e),
            pairs_view(out@) == cite_pairs(e).subrange(0, i as int),
        decreases entries.len() - i,
    {
        let key = crate::input_resolve::clone_bytes(&entries[i].0);
        let mut display: Vec<u8> = Vec::new();
        let mut labeled = false;
        if ay {
            match &entries[i].1 {
                Some(l) => {
                    push_all(&mut display, l.as_slice());
                    labeled = true;
                },
                None => {},
            }
        }
        if !labeled {
            push_decimal(&mut display, (i as u64) + 1);
        }
        assert(display@ == cite_pairs(e)[i as int].1);
        let ghost before = pairs_view(out@);
        out.push((key, display));
        assert(pairs_view(out@) =~= before.push((key@, display@)));
        assert(cite_pairs(e).subrange(0, i + 1) =~= cite_pairs(e).subrange(0, i as int).push(
            cite_pairs(e)[i as int],
        ));
        i = i + 1;
    }
    assert(cite_pairs(e).subrange(0, e.len() as int) =~= cite_pairs(e));
    out
}

/// Keys of the `\label{..}` commands of a text, in document order.
fn label_keys(t: &[u8]) -> (res: Vec<Vec<u8>>)
    ensures
        crate::scan::rows_view(res@) == label_keys_from(t@, 0),
{
    let pat = backslash_vec(LABEL);
    let mut out: Vec<Vec<u8>> = Vec::new();
    let mut s: usize = 0;
    loop
        invariant
            s <= t.len(),
            pat@ == backslash_name(LABEL.spec_bytes()),
            pat@.len() > 0,
            crate::scan::rows_view(out@) + label_keys_from(t@, s as int) == label_keys_from(t@, 0),
        decreases t.len() + 1 - s,
    {
        let ghost o = crate::scan::rows_view(out@);
        proof {
            lemma_find_from_bounds(t@, pat@, s as int);
        }
        match find_bytes(t, pat.as_slice(), s) {
            None => {
                assert(o + label_keys_from(t@, s as int) =~= o);
                return out;
            },
            Some(p) => {
                let after = p + pat.len();
                if after < t.len() && is_alpha_byte(t[after]) {
                    s = after;
                } else {
                    proof {
                        lemma_command_arg_bounds(t@, after as int);
                    }
                    match command_arg_bytes(t, after) {
                        Some((cs, ce, ac)) => {
                            let key = slice_to_vec(t, cs, ce);
                            out.push(key);
                            assert(crate::scan::rows_view(out@) =~= o.push(
                                t@.subrange(cs as int, ce as int),
                            ));
                            assert(o + (seq![t@.subrange(cs as int, ce as int)] + label_keys_from(
                                t@,
                                ac as int,
                            )) =~= crate::scan::rows_view(out@) + label_keys_from(t@, ac as int));
                            s = ac;
                        },
                        None => {
                            s = after;
                        },
                    }
                }
            },
        }
    }
}

fn prefix_of(k: &Vec<u8>) -> (res: Option<Vec<u8>>)
    ensures
        match res {
            Some(p) => label_prefix(k@) == Some(p@),
            None => label_prefix(k@) is None,
        },
{
    let mut i: usize = 0;
    while i < k.len() && k[i] != 0x3a
        invariant
            i <= k.len(),
            colon_from(k@, i as int) == colon_from(k@, 0),
        decreases k.len() - i,
    {
        i = i + 1;
    }
    if i < k.len() {
        Some(slice_to_vec(k.as_slice(), 0, i))
    } else {
        None
    }
}

fn same_prefix(a: &Option<Vec<u8>>, b: &Option<Vec<u8>>) -> (res: bool)
    ensures
        res == (match a {
            Some(x) => Some(x@),
            None => None,
        } == match b {
            Some(x) => Some(x@),
            None => None,
        }),
{
    match (a, b) {
        (Some(x), Some(y)) => crate::scan::bytes_eq(x.as_slice(), y.as_slice()),
        (None, None) => true,
        _ => false,
    }
}

pub open spec fn opt_view(o: Option<Vec<u8>>) -> Option<Seq<u8>> {
    match o {
        Some(x) => Some(x@),
        None => None,
    }
}

/// The label map of a text: each `\label` key with its number within its
/// counter, in document order.
fn build_label_map(t: &[u8]) -> (res: Vec<(Vec<u8>, Vec<u8>)>)
    ensures
        pairs_view(res@) == label_map(t@),
{
    let keys = label_keys(t);
    let ghost kv = crate::scan::rows_view(keys@);
    let mut prefixes: Vec<Option<Vec<u8>>> = Vec::new();
    let mut j: usize = 0;
    while j < keys.len()
        invariant
            j <= keys.len(),
            kv == crate::scan::rows_view(keys@),
            prefixes@.len() == j,
            forall|x: int| 0 <= x < j ==> opt_view(#[trigger] prefixes@[x]) == label_prefix(kv[x]),
        decreases keys.len() - j,
    {
        let p = prefix_of(&keys[j]);
        prefixes.push(p);
        j = j + 1;
    }
    let mut out: Vec<(Vec<u8>, Vec<u8>)> = Vec::new();
    let mut i: usize = 0;
    while i < keys.len()
        invariant
            i <= keys.len(),
            kv == crate::scan::rows_view(keys@),
            prefixes@.len() == keys.len(),
            forall|x: int| 0 <= x < keys.len() ==> opt_view(#[trigger] prefixes@[x]) == label_prefix(kv[x]),
            pairs_view(out@) == label_pairs(kv).subrange(0, i as int),
        decreases keys.len() - i,
    {
        let ghost pre = label_prefix(kv[i as int]);
        let mut count: usize = 0;
        let mut k: usize = 0;
        while k <= i
            invariant
                k <= i + 1,
                i < keys.len(),
                prefixes@.len() == keys.len(),
                forall|x: int| 0 <= x < keys.len() ==> opt_view(#[trigger] prefixes@[x]) == label_prefix(kv[x]),
                pre == label_prefix(kv[i as int]),
                count == count_same_prefix(kv, k as int, pre),
                count <= k,
            decreases i + 1 - k,
        {
            assert(opt_view(prefixes@[k as int]) == label_prefix(kv[k as int]));
            assert(opt_view(prefixes@[i as int]) == pre);
            if same_prefix(&prefixes[k], &prefixes[i]) {
                count = count + 1;
            }
            k = k + 1;
        }
        let key = crate::input_resolve::clone_bytes(&keys[i]);
        let mut display: Vec<u8> = Vec::new();
        push_decimal(&mut display, count as u64);
        let ghost before = pairs_view(out@);
        out.push((key, display));
        assert(pairs_view(out@) =~= before.push((key@, display@)));
        assert(label_pairs(kv).subrange(0, i + 1) =~= label_pairs(kv).subrange(0, i as int).push(
            label_pairs(kv)[i as int],
        ));
        i = i + 1;
    }
    assert(label_pairs(kv).subrange(0, kv.len() as int) =~= label_pairs(kv));
    out
}

/// The reference commands resolved through the label map.
pub open spec fn ref_commands() -> Seq<&'static str> {
    seq!["ref", "eqref", "pageref", "autoref", "cref", "Cref", "nameref"]
}

/// `t` with the reference commands of `cmds[..n]` resolved in turn.
pub open spec fn refs_resolved(t: Seq<u8>, cmds: Seq<&'static str>, n: int, m: Seq<(Seq<u8>, Seq<u8>)>) -> Seq<u8>
    decreases n,
{
    if n <= 0 {
        t
    } else {
        let prev = refs_resolved(t, cmds, n - 1, m);
        replaced_from(prev, backslash_name(cmds[n - 1].spec_bytes()), true, ref_parse(m), 0, 0)
    }
}

pub const LABEL_PATTERN: &'static str = "\\\\label\\{[^{}]*\\}";

/// The text with citations, references, labels, URLs and bibliography
/// entries converted, given the section numbers of the structure pass.
pub open spec fn references_converted(t: Seq<u8>, sections: Seq<(Seq<char>, Seq<char>)>) -> Seq<u8> {
    let a = replace_commands(pair_patterns(journal_macros()), pair_replacements(journal_macros()), t);
    let cm = cite_map(a);
    let lm = section_pairs(sections) + label_map(a);
    let b = replaced_from(a, backslash_name(CITE.spec_bytes()), false, cite_parse(cm), 0, 0);
    let c = refs_resolved(b, ref_commands(), ref_commands().len() as int, lm);
    let d = re_replace(LABEL_PATTERN.spec_bytes(), c, EMPTY.spec_bytes());
    let e = replaced_from(d, backslash_name(URL.spec_bytes()), true, url_parse(), 0, 0);
    let f = replaced_from(e, backslash_name(HREF.spec_bytes()), true, href_parse(), 0, 0);
    let g = replaced_from(f, backslash_name(HYPERREF.spec_bytes()), true, hyperref_parse(), 0, 0);
    replaced_from(g, backslash_name(BIBITEM.spec_bytes()), true, bibitem_parse(cm), 0, 0)
}

fn section_label_pairs(sections: &TextMap) -> (res: Vec<(Vec<u8>, Vec<u8>)>)
    ensures
        pairs_view(res@) == section_pairs(sections.entry_seq()),
{
    let mut out: Vec<(Vec<u8>, Vec<u8>)> = Vec::new();
    let mut i: usize = 0;
    while i < sections.len()
        invariant
            i <= sections.entry_seq().len(),
            pairs_view(out@) == section_pairs(sections.entry_seq()).subrange(0, i as int),
        decreases sections.entry_seq().len() - i,
    {
        let (k, v) = sections.entry(i);
        let mut kb: Vec<u8> = Vec::new();
        push_all(&mut kb, k.as_str().as_bytes());
        let mut vb: Vec<u8> = Vec::new();
        push_all(&mut vb, v.as_str().as_bytes());
        let ghost before = pairs_view(out@);
        out.push((kb, vb));
        assert(pairs_view(out@) =~= before.push((kb@, vb@)));
        assert(section_pairs(sections.entry_seq()).subrange(0, i + 1) =~= section_pairs(
            sections.entry_seq(),
        ).subrange(0, i as int).push(section_pairs(sections.entry_seq())[i as int]));
        i = i + 1;
    }
    assert(section_pairs(sections.entry_seq()).subrange(0, sections.entry_seq().len() as int)
        =~= section_pairs(sections.entry_seq()));
    out
}

fn ref_command_list() -> (res: Vec<&'static str>)
    ensures
        res@ == ref_commands(),
{
    vec!["ref", "eqref", "pageref", "autoref", "cref", "Cref", "nameref"]
}

/// Conversion of citations and references on bytes.
pub fn convert_references_bytes(t: &[u8], section_labels: &TextMap) -> (res: Vec<u8>)
    ensures
        res@ == references_converted(t@, section_labels.entry_seq()),
{
    let a = expand_journal_macros(t);
    let cm = build_cite_key_map(a.as_slice());
    let mut lm = section_label_pairs(section_labels);
    let labels = build_label_map(a.as_slice());
    let mut k: usize = 0;
    let ghost sp = pairs_view(lm@);
    while k < labels.len()
        invariant
            k <= labels.len(),
            pairs_view(lm@) == sp + pairs_view(labels@).subrange(0, k as int),
        decreases labels.len() - k,
    {
        let kb = crate::input_resolve::clone_bytes(&labels[k].0);
        let vb = crate::input_resolve::clone_bytes(&labels[k].1);
        let ghost before = pairs_view(lm@);
        lm.push((kb, vb));
        assert(pairs_view(lm@) =~= before.push((kb@, vb@)));
        assert(pairs_view(labels@).subrange(0, k + 1) =~= pairs_view(labels@).subrange(0, k as int).push(pairs_view(labels@)[k as int]));
        k = k + 1;
    }
    assert(pairs_view(labels@).subrange(0, labels@.len() as int) =~= pairs_view(labels@));
    let mut cur = replace_cite_commands(a.as_slice(), &cm);
    let cmds = ref_command_list();
    let ghost b = cur@;
    let mut r: usize = 0;
    while r < cmds.len()
        invariant
            r <= cmds.len(),
            cmds@ == ref_commands(),
            cur@ == refs_resolved(b, ref_commands(), r as int, pairs_view(lm@)),
        decreases cmds.len() - r,
    {
        cur = replace_ref_command(cur.as_slice(), cmds[r], &lm);
        r = r + 1;
    }
    let d = re_replace_bytes(LABEL_PATTERN, cur.as_slice(), EMPTY.as_bytes());
    let e = replace_url_command(d.as_slice());
    let f = replace_href_command(e.as_slice());
    let g = replace_hyperref_command(f.as_slice());
    convert_bibitems(g.as_slice(), &cm)
}

/// Handle citation and reference commands: journal abbreviations expand;
/// citations become `[n]` (or author-year labels) through the
/// bibliography; references become the number of their label, or of the
/// section from `section_labels`; labels go; URLs and links become their
/// text; bibliography entries start a new `[n] ` line.
pub fn convert_references(text: &str, section_labels: &TextMap) -> (res: String)
    ensures
        res@ == utf8_lossy(references_converted(text.spec_bytes(), section_labels.entry_seq())),
{
    let out = convert_references_bytes(text.as_bytes(), section_labels);
    string_from_bytes(out.as_slice())
}

} // verus!
