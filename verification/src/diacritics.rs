//! LaTeX accents and special letters turned into Unicode.

use vstd::prelude::*;
use vstd::string::StringSliceAdditionalSpecFns;
use crate::braces::{is_alpha, is_alpha_byte};
use crate::cleanup::backslash_name;
use crate::formatting::char_len_at;
use crate::macros::{pair_patterns, pair_replacements, replacer_for};
use crate::outside::{captures_view, group_end, group_start, well_formed_captures};
use crate::regexes::{re_captures, re_captures_bytes};
use crate::replacer::replace_commands;
use crate::scan::{find_bytes, find_from, lemma_find_from_bounds, push_all, push_range, replace_all_spec, replace_bytes};
use crate::structure::{scan_replace, Step};
use crate::text::{string_from_bytes, utf8_lossy};
use crate::unicode::{nfc_bytes, nfc_of};

verus! {

/// Braced special characters, replaced literally in order.
pub open spec fn braced_special_pairs() -> Seq<(&'static str, &'static str)> {
    seq![
        ("\\c{c}", "\u{e7}"),
        ("\\c{C}", "\u{c7}"),
        ("\\c{s}", "\u{15f}"),
        ("\\c{S}", "\u{15e}"),
        ("\\c{t}", "\u{163}"),
        ("\\c{T}", "\u{162}"),
        ("\\c{e}", "\u{119}"),
        ("\\c{E}", "\u{118}"),
        ("\\c{a}", "\u{105}"),
        ("\\c{A}", "\u{104}"),
        ("\\v{C}", "\u{10c}"),
        ("\\v{c}", "\u{10d}"),
        ("\\v{S}", "\u{160}"),
        ("\\v{s}", "\u{161}"),
        ("\\v{Z}", "\u{17d}"),
        ("\\v{z}", "\u{17e}"),
        ("\\v{r}", "\u{159}"),
        ("\\v{R}", "\u{158}"),
        ("\\v{n}", "\u{148}"),
        ("\\v{N}", "\u{147}"),
        ("\\v{e}", "\u{11b}"),
        ("\\v{E}", "\u{11a}"),
        ("\\v{d}", "\u{10f}"),
        ("\\v{D}", "\u{10e}"),
        ("\\v{t}", "\u{165}"),
        ("\\v{T}", "\u{164}"),
        ("\\v{\\i}", "\u{1d0}"),
    ]
}

fn braced_special_list() -> (res: Vec<(&'static str, &'static str)>)
    ensures
        res@ == braced_special_pairs(),
{
    vec![
        ("\\c{c}", "\u{e7}"),
        ("\\c{C}", "\u{c7}"),
        ("\\c{s}", "\u{15f}"),
        ("\\c{S}", "\u{15e}"),
        ("\\c{t}", "\u{163}"),
        ("\\c{T}", "\u{162}"),
        ("\\c{e}", "\u{119}"),
        ("\\c{E}", "\u{118}"),
        ("\\c{a}", "\u{105}"),
        ("\\c{A}", "\u{104}"),
        ("\\v{C}", "\u{10c}"),
        ("\\v{c}", "\u{10d}"),
        ("\\v{S}", "\u{160}"),
        ("\\v{s}", "\u{161}"),
        ("\\v{Z}", "\u{17d}"),
        ("\\v{z}", "\u{17e}"),
        ("\\v{r}", "\u{159}"),
        ("\\v{R}", "\u{158}"),
        ("\\v{n}", "\u{148}"),
        ("\\v{N}", "\u{147}"),
        ("\\v{e}", "\u{11b}"),
        ("\\v{E}", "\u{11a}"),
        ("\\v{d}", "\u{10f}"),
        ("\\v{D}", "\u{10e}"),
        ("\\v{t}", "\u{165}"),
        ("\\v{T}", "\u{164}"),
        ("\\v{\\i}", "\u{1d0}"),
    ]
}

/// Special-letter commands and their characters.
pub open spec fn bare_special_pairs() -> Seq<(&'static str, &'static str)> {
    seq![
        ("\\ss", "\u{df}"),
        ("\\ae", "\u{e6}"),
        ("\\AE", "\u{c6}"),
        ("\\oe", "\u{153}"),
        ("\\OE", "\u{152}"),
        ("\\o", "\u{f8}"),
        ("\\O", "\u{d8}"),
        ("\\aa", "\u{e5}"),
        ("\\AA", "\u{c5}"),
        ("\\l", "\u{142}"),
        ("\\L", "\u{141}"),
        ("\\i", "\u{131}"),
        ("\\j", "\u{237}"),
        ("\\DJ", "\u{110}"),
        ("\\dj", "\u{111}"),
        ("\\TH", "\u{de}"),
        ("\\th", "\u{fe}"),
        ("\\DH", "\u{d0}"),
        ("\\dh", "\u{f0}"),
        ("\\NG", "\u{14a}"),
        ("\\ng", "\u{14b}"),
    ]
}

fn bare_special_list() -> (res: Vec<(&'static str, &'static str)>)
    ensures
        res@ == bare_special_pairs(),
{
    vec![
        ("\\ss", "\u{df}"),
        ("\\ae", "\u{e6}"),
        ("\\AE", "\u{c6}"),
        ("\\oe", "\u{153}"),
        ("\\OE", "\u{152}"),
        ("\\o", "\u{f8}"),
        ("\\O", "\u{d8}"),
        ("\\aa", "\u{e5}"),
        ("\\AA", "\u{c5}"),
        ("\\l", "\u{142}"),
        ("\\L", "\u{141}"),
        ("\\i", "\u{131}"),
        ("\\j", "\u{237}"),
        ("\\DJ", "\u{110}"),
        ("\\dj", "\u{111}"),
        ("\\TH", "\u{de}"),
        ("\\th", "\u{fe}"),
        ("\\DH", "\u{d0}"),
        ("\\dh", "\u{f0}"),
        ("\\NG", "\u{14a}"),
        ("\\ng", "\u{14b}"),
    ]
}

/// Braced accent patterns and their combining marks.
pub open spec fn braced_accents() -> Seq<(&'static str, &'static str)> {
    seq![
        ("\\\\`\\{([a-zA-Z])\\}", "\u{0300}"),
        ("\\\\'\\{([a-zA-Z])\\}", "\u{0301}"),
        ("\\\\\\^\\{([a-zA-Z])\\}", "\u{0302}"),
        ("\\\\\\~\\{([a-zA-Z])\\}", "\u{0303}"),
        ("\\\\=\\{([a-zA-Z])\\}", "\u{0304}"),
        ("\\\\\\.\\{([a-zA-Z])\\}", "\u{0307}"),
        ("\\\\\"\\{([a-zA-Z])\\}", "\u{0308}"),
        ("\\\\u\\{([a-zA-Z])\\}", "\u{0306}"),
        ("\\\\v\\{([a-zA-Z])\\}", "\u{030c}"),
        ("\\\\H\\{([a-zA-Z])\\}", "\u{030b}"),
        ("\\\\r\\{([a-zA-Z])\\}", "\u{030a}"),
        ("\\\\d\\{([a-zA-Z])\\}", "\u{0323}"),
        ("\\\\b\\{([a-zA-Z])\\}", "\u{0331}"),
        ("\\\\k\\{([a-zA-Z])\\}", "\u{0328}"),
    ]
}

fn braced_accents_list() -> (res: Vec<(&'static str, &'static str)>)
    ensures
        res@ == braced_accents(),
{
    vec![
        ("\\\\`\\{([a-zA-Z])\\}", "\u{0300}"),
        ("\\\\'\\{([a-zA-Z])\\}", "\u{0301}"),
        ("\\\\\\^\\{([a-zA-Z])\\}", "\u{0302}"),
        ("\\\\\\~\\{([a-zA-Z])\\}", "\u{0303}"),
        ("\\\\=\\{([a-zA-Z])\\}", "\u{0304}"),
        ("\\\\\\.\\{([a-zA-Z])\\}", "\u{0307}"),
        ("\\\\\"\\{([a-zA-Z])\\}", "\u{0308}"),
        ("\\\\u\\{([a-zA-Z])\\}", "\u{0306}"),
        ("\\\\v\\{([a-zA-Z])\\}", "\u{030c}"),
        ("\\\\H\\{([a-zA-Z])\\}", "\u{030b}"),
        ("\\\\r\\{([a-zA-Z])\\}", "\u{030a}"),
        ("\\\\d\\{([a-zA-Z])\\}", "\u{0323}"),
        ("\\\\b\\{([a-zA-Z])\\}", "\u{0331}"),
        ("\\\\k\\{([a-zA-Z])\\}", "\u{0328}"),
    ]
}

/// Bare punctuation accent patterns and their combining marks.
pub open spec fn punct_accents() -> Seq<(&'static str, &'static str)> {
    seq![
        ("\\\\`([a-zA-Z])", "\u{0300}"),
        ("\\\\'([a-zA-Z])", "\u{0301}"),
        ("\\\\\\^([a-zA-Z])", "\u{0302}"),
        ("\\\\\\~([a-zA-Z])", "\u{0303}"),
        ("\\\\=([a-zA-Z])", "\u{0304}"),
        ("\\\\\\.([a-zA-Z])", "\u{0307}"),
        ("\\\\\"([a-zA-Z])", "\u{0308}"),
    ]
}

fn punct_accents_list() -> (res: Vec<(&'static str, &'static str)>)
    ensures
        res@ == punct_accents(),
{
    vec![
        ("\\\\`([a-zA-Z])", "\u{0300}"),
        ("\\\\'([a-zA-Z])", "\u{0301}"),
        ("\\\\\\^([a-zA-Z])", "\u{0302}"),
        ("\\\\\\~([a-zA-Z])", "\u{0303}"),
        ("\\\\=([a-zA-Z])", "\u{0304}"),
        ("\\\\\\.([a-zA-Z])", "\u{0307}"),
        ("\\\\\"([a-zA-Z])", "\u{0308}"),
    ]
}

/// Bare letter accent patterns and their combining marks.
pub open spec fn letter_accents() -> Seq<(&'static str, &'static str)> {
    seq![
        ("\\\\u([a-zA-Z])", "\u{0306}"),
        ("\\\\v([a-zA-Z])", "\u{030c}"),
        ("\\\\H([a-zA-Z])", "\u{030b}"),
        ("\\\\r([a-zA-Z])", "\u{030a}"),
        ("\\\\d([a-zA-Z])", "\u{0323}"),
        ("\\\\b([a-zA-Z])", "\u{0331}"),
        ("\\\\k([a-zA-Z])", "\u{0328}"),
    ]
}

fn letter_accents_list() -> (res: Vec<(&'static str, &'static str)>)
    ensures
        res@ == letter_accents(),
{
    vec![
        ("\\\\u([a-zA-Z])", "\u{0306}"),
        ("\\\\v([a-zA-Z])", "\u{030c}"),
        ("\\\\H([a-zA-Z])", "\u{030b}"),
        ("\\\\r([a-zA-Z])", "\u{030a}"),
        ("\\\\d([a-zA-Z])", "\u{0323}"),
        ("\\\\b([a-zA-Z])", "\u{0331}"),
        ("\\\\k([a-zA-Z])", "\u{0328}"),
    ]
}

// ---------------------------------------------------------------------------
// \not overlays
// ---------------------------------------------------------------------------

pub const NOT_NAME: &'static str = "not";

/// First position at or after `i` that is not a space or a tab.
pub open spec fn skip_spaces(t: Seq<u8>, i: int) -> int
    decreases t.len() - i,
{
    if 0 <= i < t.len() && (t[i] == 0x20 || t[i] == 0x09) {
        skip_spaces(t, i + 1)
    } else {
        i
    }
}

/// `\not` followed (after spaces) by one character overlays it with a long
/// solidus; before a command, `\not` just goes.
pub open spec fn not_step() -> Step {
    |t: Seq<u8>, after: int|
        if after < t.len() && is_alpha(t[after]) {
            Err(after)
        } else if after >= t.len() {
            Ok((Seq::empty(), after))
        } else {
            let cur = skip_spaces(t, after);
            if cur >= t.len() || t[cur] == 0x5c {
                Ok((Seq::empty(), after))
            } else {
                let e = cur + char_len_at(t, cur);
                Ok((t.subrange(cur, e) + seq![0xccu8, 0xb8u8], e))
            }
        }
}

pub open spec fn not_overlaid(t: Seq<u8>) -> Seq<u8> {
    scan_replace(t, backslash_name(NOT_NAME.spec_bytes()), not_step(), 0, 0)
}

fn char_len(t: &[u8], i: usize) -> (res: usize)
    requires
        i < t.len(),
    ensures
        res as int == char_len_at(t@, i as int),
        1 <= res,
        i + res <= t.len(),
{
    crate::formatting::char_len_at_bytes(t, i)
}

fn convert_not_overlay(t: &[u8]) -> (res: Vec<u8>)
    ensures
        res@ == not_overlaid(t@),
{
    let mut pat: Vec<u8> = Vec::new();
    pat.push(0x5c);
    push_all(&mut pat, NOT_NAME.as_bytes());
    assert(pat@ =~= backslash_name(NOT_NAME.spec_bytes()));
    let ghost step = not_step();
    let mut out: Vec<u8> = Vec::new();
    let mut le: usize = 0;
    let mut s: usize = 0;
    loop
        invariant
            le <= s <= t.len(),
            pat@ == backslash_name(NOT_NAME.spec_bytes()),
            step == not_step(),
            out@ + scan_replace(t@, pat@, step, s as int, le as int) == scan_replace(t@, pat@, step, 0, 0),
        decreases t.len() + 1 - s,
    {
        let ghost o = out@;
        proof {
            lemma_find_from_bounds(t@, pat@, s as int);
        }
        match find_bytes(t, pat.as_slice(), s) {
            None => {
                push_range(&mut out, t, le, t.len());
                return out;
            },
            Some(p) => {
                let after = p + pat.len();
                if after < t.len() && is_alpha_byte(t[after]) {
                    s = after;
                } else {
                    let mut rep: Vec<u8> = Vec::new();
                    let mut e = after;
                    if after < t.len() {
                        let mut cur = after;
                        while cur < t.len() && (t[cur] == 0x20 || t[cur] == 0x09)
                            invariant
                                after <= cur <= t.len(),
                                skip_spaces(t@, cur as int) == skip_spaces(t@, after as int),
                            decreases t.len() - cur,
                        {
                            cur = cur + 1;
                        }
                        assert(skip_spaces(t@, cur as int) == cur);
                        if cur < t.len() && t[cur] != 0x5c {
                            let cl = char_len(t, cur);
                            push_range(&mut rep, t, cur, cur + cl);
                            rep.push(0xcc);
                            rep.push(0xb8);
                            e = cur + cl;
                            assert(rep@ =~= t@.subrange(cur as int, e as int) + seq![0xccu8, 0xb8u8]);
                        } else {
                            assert(rep@ =~= Seq::<u8>::empty());
                        }
                    } else {
                        assert(rep@ =~= Seq::<u8>::empty());
                    }
                    assert(step(t@, after as int) == Ok::<(Seq<u8>, int), int>((rep@, e as int)));
                    push_range(&mut out, t, le, p);
                    push_all(&mut out, rep.as_slice());
                    assert(o + (t@.subrange(le as int, p as int) + rep@ + scan_replace(
                        t@,
                        pat@,
                        step,
                        e as int,
                        e as int,
                    )) =~= out@ + scan_replace(t@, pat@, step, e as int, e as int));
                    le = e;
                    s = e;
                }
            },
        }
    }
}

// ---------------------------------------------------------------------------
// Accents
// ---------------------------------------------------------------------------

/// What an accent match becomes: its letter composed with the combining
/// `mark` (NFC). With `boundary`, a match right after a letter or right
/// before one is part of a longer command and stays.
pub open spec fn accent_text(t: Seq<u8>, c: Seq<Option<(usize, usize)>>, mark: Seq<u8>, boundary: bool) -> Seq<u8> {
    let s = group_start(c, 0) as int;
    let e = group_end(c, 0) as int;
    let whole = t.subrange(s, e);
    if boundary && ((s > 0 && is_alpha(t[s - 1])) || (e < t.len() && is_alpha(t[e]))) {
        whole
    } else if c.len() > 1 {
        match c[1] {
            Some((a, b)) => nfc_of(t.subrange(a as int, b as int) + mark),
            None => whole,
        }
    } else {
        whole
    }
}

/// The text from `le` on with the accent matches from `k` on converted.
pub open spec fn accents_from(
    t: Seq<u8>,
    caps: Seq<Seq<Option<(usize, usize)>>>,
    mark: Seq<u8>,
    boundary: bool,
    k: int,
    le: int,
) -> Seq<u8>
    decreases caps.len() - k,
{
    if k < 0 || k >= caps.len() {
        t.subrange(le, t.len() as int)
    } else {
        t.subrange(le, group_start(caps[k], 0) as int) + accent_text(t, caps[k], mark, boundary) + accents_from(
            t,
            caps,
            mark,
            boundary,
            k + 1,
            group_end(caps[k], 0) as int,
        )
    }
}

pub open spec fn accent_converted(t: Seq<u8>, pat: Seq<u8>, mark: Seq<u8>, boundary: bool) -> Seq<u8> {
    accents_from(t, re_captures(pat, t), mark, boundary, 0, 0)
}

/// `t` after the first `n` accents of a list.
pub open spec fn accents_applied(t: Seq<u8>, list: Seq<(&'static str, &'static str)>, boundary: bool, n: int) -> Seq<u8>
    decreases n,
{
    if n <= 0 {
        t
    } else {
        accent_converted(
            accents_applied(t, list, boundary, n - 1),
            list[n - 1].0.spec_bytes(),
            list[n - 1].1.spec_bytes(),
            boundary,
        )
    }
}

fn convert_accent(t: &[u8], pat: &str, mark: &str, boundary: bool) -> (res: Vec<u8>)
    ensures
        res@ == accent_converted(t@, pat.spec_bytes(), mark.spec_bytes(), boundary),
{
    let caps = re_captures_bytes(pat, t);
    let ghost cv = captures_view(caps@);
    let ghost mk = mark.spec_bytes();
    let mut out: Vec<u8> = Vec::new();
    let mut le: usize = 0;
    let mut k: usize = 0;
    while k < caps.len()
        invariant
            k <= caps.len(),
            le <= t.len(),
            mk == mark.spec_bytes(),
            cv == captures_view(caps@),
            cv == re_captures(pat.spec_bytes(), t@),
            well_formed_captures(cv, t@.len()),
            k > 0 ==> le == group_end(cv[k - 1], 0),
            k == 0 ==> le == 0,
            out@ + accents_from(t@, cv, mk, boundary, k as int, le as int) == accents_from(t@, cv, mk, boundary, 0, 0),
        decreases caps.len() - k,
    {
        let ghost o = out@;
        let c = &caps[k];
        assert(cv[k as int] == c@);
        let (s, e) = match c[0] {
            Some((x, y)) => (x, y),
            None => (0, 0),
        };
        assert(s == group_start(cv[k as int], 0) && e == group_end(cv[k as int], 0));
        if k > 0 {
            assert(group_end(cv[k - 1], 0) <= group_start(cv[k as int], 0));
        }
        push_range(&mut out, t, le, s);
        let kept = boundary && ((s > 0 && is_alpha_byte(t[s - 1])) || (e < t.len() && is_alpha_byte(t[e])));
        let mut done = false;
        if !kept && c.len() > 1 {
            match c[1] {
                Some((a, b)) => {
                    let mut composed: Vec<u8> = Vec::new();
                    push_range(&mut composed, t, a, b);
                    push_all(&mut composed, mark.as_bytes());
                    let n = nfc_bytes(composed.as_slice());
                    push_all(&mut out, n.as_slice());
                    done = true;
                },
                None => {},
            }
        }
        if !done {
            push_range(&mut out, t, s, e);
        }
        assert(out@ =~= o + t@.subrange(le as int, s as int) + accent_text(t@, c@, mk, boundary));
        assert(o + (t@.subrange(le as int, s as int) + accent_text(t@, c@, mk, boundary) + accents_from(
            t@,
            cv,
            mk,
            boundary,
            k + 1,
            e as int,
        )) =~= out@ + accents_from(t@, cv, mk, boundary, k + 1, e as int));
        le = e;
        k = k + 1;
    }
    push_range(&mut out, t, le, t.len());
    out
}

fn apply_accents(t: Vec<u8>, list: &Vec<(&'static str, &'static str)>, boundary: bool) -> (res: Vec<u8>)
    ensures
        res@ == accents_applied(t@, list@, boundary, list@.len() as int),
{
    let ghost t0 = t@;
    let mut cur = t;
    let mut i: usize = 0;
    while i < list.len()
        invariant
            i <= list.len(),
            cur@ == accents_applied(t0, list@, boundary, i as int),
        decreases list.len() - i,
    {
        let (pat, mark) = list[i];
        cur = convert_accent(cur.as_slice(), pat, mark, boundary);
        i = i + 1;
    }
    cur
}

/// `t` after the first `n` braced special characters.
pub open spec fn specials_replaced(t: Seq<u8>, n: int) -> Seq<u8>
    decreases n,
{
    if n <= 0 {
        t
    } else {
        let p = braced_special_pairs()[n - 1];
        replace_all_spec(specials_replaced(t, n - 1), p.0.spec_bytes(), p.1.spec_bytes())
    }
}

fn replace_braced_specials(t: Vec<u8>) -> (res: Vec<u8>)
    ensures
        res@ == specials_replaced(t@, braced_special_pairs().len() as int),
{
    let pairs = braced_special_list();
    let ghost t0 = t@;
    let mut cur = t;
    let mut i: usize = 0;
    while i < pairs.len()
        invariant
            i <= pairs.len(),
            pairs@ == braced_special_pairs(),
            cur@ == specials_replaced(t0, i as int),
        decreases pairs.len() - i,
    {
        let (from, to) = pairs[i];
        cur = replace_bytes(cur.as_slice(), from.as_bytes(), to.as_bytes());
        i = i + 1;
    }
    cur
}

/// `\not` overlays, braced and bare special characters.
pub open spec fn letters_converted(t: Seq<u8>) -> Seq<u8> {
    let a = not_overlaid(t);
    let b = specials_replaced(a, braced_special_pairs().len() as int);
    replace_commands(pair_patterns(bare_special_pairs()), pair_replacements(bare_special_pairs()), b)
}

/// The whole diacritic conversion: braced accents, then bare punctuation
/// accents, then bare letter accents (with the boundary check).
pub open spec fn diacritics_converted(t: Seq<u8>) -> Seq<u8> {
    let a = letters_converted(t);
    let b = accents_applied(a, braced_accents(), false, braced_accents().len() as int);
    let c = accents_applied(b, punct_accents(), false, punct_accents().len() as int);
    accents_applied(c, letter_accents(), true, letter_accents().len() as int)
}

/// What replaces an accent match when its surroundings do not matter: the
/// captured letter composed (NFC) with the combining `mark`.
pub open spec fn composed_piece(t: Seq<u8>, c: Seq<Option<(usize, usize)>>, mark: Seq<u8>) -> Seq<u8> {
    if c.len() > 1 && c[1] is Some {
        let (a, b) = c[1]->0;
        nfc_of(t.subrange(a as int, b as int) + mark)
    } else {
        t.subrange(group_start(c, 0) as int, group_end(c, 0) as int)
    }
}

/// The text from `le` on with every accent match from `k` on composed,
/// whatever stands before or after it.
pub open spec fn composed_from(
    t: Seq<u8>,
    caps: Seq<Seq<Option<(usize, usize)>>>,
    mark: Seq<u8>,
    k: int,
    le: int,
) -> Seq<u8>
    decreases caps.len() - k,
{
    if k < 0 || k >= caps.len() {
        t.subrange(le, t.len() as int)
    } else {
        t.subrange(le, group_start(caps[k], 0) as int) + composed_piece(t, caps[k], mark) + composed_from(
            t,
            caps,
            mark,
            k + 1,
            group_end(caps[k], 0) as int,
        )
    }
}

/// `t` after composing every match of the first `n` accents of a list, in
/// order, whatever surrounds each match.
pub open spec fn composed_everywhere(t: Seq<u8>, list: Seq<(&'static str, &'static str)>, n: int) -> Seq<u8>
    decreases n,
{
    if n <= 0 {
        t
    } else {
        let u = composed_everywhere(t, list, n - 1);
        let pat = list[n - 1].0.spec_bytes();
        composed_from(u, re_captures(pat, u), list[n - 1].1.spec_bytes(), 0, 0)
    }
}

proof fn lemma_unchecked_is_composed(
    t: Seq<u8>,
    caps: Seq<Seq<Option<(usize, usize)>>>,
    mark: Seq<u8>,
    k: int,
    le: int,
)
    ensures
        accents_from(t, caps, mark, false, k, le) == composed_from(t, caps, mark, k, le),
    decreases caps.len() - k,
{
    if 0 <= k < caps.len() {
        lemma_unchecked_is_composed(t, caps, mark, k + 1, group_end(caps[k], 0) as int);
        assert(accent_text(t, caps[k], mark, false) == composed_piece(t, caps[k], mark));
    }
}

proof fn lemma_unchecked_stages_compose(t: Seq<u8>, list: Seq<(&'static str, &'static str)>, n: int)
    ensures
        accents_applied(t, list, false, n) == composed_everywhere(t, list, n),
    decreases n,
{
    if n > 0 {
        lemma_unchecked_stages_compose(t, list, n - 1);
        let u = composed_everywhere(t, list, n - 1);
        lemma_unchecked_is_composed(u, re_captures(list[n - 1].0.spec_bytes(), u), list[n - 1].1.spec_bytes(), 0, 0);
    }
}

/// Braced accents (`\H{o}`, `\"{a}`, ...) and the punctuation accents
/// (`\'e`, `\^o`, ...) are composed wherever they stand, even inside a word
/// (`Erd\H{o}s` gives `Erdős`); only the bare letter accents (`\u`, `\v`,
/// `\H`, ... without braces) are left alone next to a letter, where they
/// would be part of a longer command.
pub proof fn law_braced_and_punct_accents_compose_anywhere(t: Seq<u8>)
    ensures
        diacritics_converted(t) == accents_applied(
            composed_everywhere(
                composed_everywhere(letters_converted(t), braced_accents(), braced_accents().len() as int),
                punct_accents(),
                punct_accents().len() as int,
            ),
            letter_accents(),
            true,
            letter_accents().len() as int,
        ),
{
    let a = letters_converted(t);
    lemma_unchecked_stages_compose(a, braced_accents(), braced_accents().len() as int);
    let b = composed_everywhere(a, braced_accents(), braced_accents().len() as int);
    lemma_unchecked_stages_compose(b, punct_accents(), punct_accents().len() as int);
}

fn convert_letters(t: &[u8]) -> (res: Vec<u8>)
    ensures
        res@ == letters_converted(t@),
{
    let a = convert_not_overlay(t);
    let b = replace_braced_specials(a);
    let bl = bare_special_list();
    let r = replacer_for(bl.as_slice());
    r.replace_all_bytes(b.as_slice())
}

/// The diacritic conversion on bytes.
pub fn convert_diacritics_bytes(t: &[u8]) -> (res: Vec<u8>)
    ensures
        res@ == diacritics_converted(t@),
{
    let a = convert_letters(t);
    let bl = braced_accents_list();
    let b = apply_accents(a, &bl, false);
    let pl = punct_accents_list();
    let c = apply_accents(b, &pl, false);
    let ll = letter_accents_list();
    apply_accents(c, &ll, true)
}

/// Convert LaTeX diacritics to Unicode.
pub fn convert_diacritics(text: &str) -> (res: String)
    ensures
        res@ == utf8_lossy(diacritics_converted(text.spec_bytes())),
{
    let out = convert_diacritics_bytes(text.as_bytes());
    string_from_bytes(out.as_slice())
}

} // verus!
