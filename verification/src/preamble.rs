//! The document body and the metadata of the preamble: title, authors,
//! affiliations, addresses, e-mails and footnote-like remarks.

use vstd::prelude::*;
use vstd::string::StringSliceAdditionalSpecFns;
use crate::braces::{
    braced_group, braced_group_bytes, is_alpha, is_alpha_byte, lemma_closing_brace_bounds,
    lemma_skip_blanks_bounds, skip_blanks, skip_blanks_bytes,
};
use crate::cleanup::{backslash_name, in_regions, region_view, regions_view};
use crate::comments::{remove_comments_bytes, uncomment_from};
use crate::input_resolve::BEGIN_DOCUMENT;
use crate::references::{comma_end, lemma_comma_end};
use crate::scan::{
    bytes_contains, bytes_starts_with, contains, find_bytes, find_from, lemma_find_from_bounds,
    push_all, push_range, rows_view, slice_to_vec, starts_with, trim_ws, trim_ws_range,
    ws_len_front, ws_len_front_at,
};
use crate::text::{string_from_bytes, utf8_lossy};
use crate::timing::{decimal, push_decimal};

verus! {

/// A parser run where a command's name ends (`p` is where its backslash
/// stands): the items it yields and where scanning resumes, or `None` when
/// the command yields nothing.
pub type ItemParse = spec_fn(Seq<u8>, int, int) -> Option<(Seq<Seq<u8>>, int)>;

/// The items yielded by the occurrences of `pat` found scanning from `s`.
/// With `boundary`, an occurrence followed by a letter belongs to a longer
/// command name and is skipped.
pub open spec fn items_from(t: Seq<u8>, pat: Seq<u8>, boundary: bool, parse: ItemParse, s: int) -> Seq<Seq<u8>>
    decreases t.len() + 1 - s,
{
    if s < 0 || s > t.len() || pat.len() == 0 {
        Seq::empty()
    } else {
        proof {
            lemma_find_from_bounds(t, pat, s);
        }
        match find_from(t, pat, s) {
            None => Seq::empty(),
            Some(p) => {
                let after = p + pat.len();
                if boundary && after < t.len() && is_alpha(t[after]) {
                    items_from(t, pat, boundary, parse, after)
                } else {
                    match parse(t, p, after) {
                        Some((its, e)) => if after <= e <= t.len() {
                            its + items_from(t, pat, boundary, parse, e)
                        } else {
                            Seq::empty()
                        },
                        None => items_from(t, pat, boundary, parse, after),
                    }
                }
            },
        }
    }
}

fn append_rows(out: &mut Vec<Vec<u8>>, its: Vec<Vec<u8>>)
    ensures
        rows_view(final(out)@) == rows_view(old(out)@) + rows_view(its@),
{
    let ghost o = out@;
    let mut its = its;
    let ghost iv = its@;
    out.append(&mut its);
    assert(rows_view(out@) =~= rows_view(o) + rows_view(iv));
}

/// Where an optional `[...]` (counted without escapes) closes when its
/// interior scan starts at `i` with `depth` brackets open: the position
/// after the `]`.
pub open spec fn bracket_scan(t: Seq<u8>, i: int, depth: nat) -> Option<int>
    decreases t.len() - i,
{
    if depth == 0 {
        Some(i)
    } else if i < 0 || i >= t.len() {
        None
    } else if t[i] == 0x5b {
        bracket_scan(t, i + 1, depth + 1)
    } else if t[i] == 0x5d {
        bracket_scan(t, i + 1, (depth - 1) as nat)
    } else {
        bracket_scan(t, i + 1, depth)
    }
}

pub proof fn lemma_bracket_scan(t: Seq<u8>, i: int, depth: nat)
    requires
        0 <= i <= t.len(),
    ensures
        bracket_scan(t, i, depth) matches Some(j) ==> i <= j <= t.len() && (depth > 0 ==> j > i),
    decreases t.len() - i,
{
    if depth == 0 {
    } else if i >= t.len() {
    } else if t[i] == 0x5b {
        lemma_bracket_scan(t, i + 1, depth + 1);
    } else if t[i] == 0x5d {
        lemma_bracket_scan(t, i + 1, (depth - 1) as nat);
    } else {
        lemma_bracket_scan(t, i + 1, depth);
    }
}

/// An optional `[...]` after blanks at `pos`: its content and the position
/// after it, or no content and `pos`.
pub open spec fn opt_bracket(t: Seq<u8>, pos: int) -> (Option<Seq<u8>>, int) {
    let i = skip_blanks(t, pos);
    if 0 <= i < t.len() && t[i] == 0x5b {
        match bracket_scan(t, i + 1, 1) {
            Some(j) => (Some(t.subrange(i + 1, j - 1)), j),
            None => (None, pos),
        }
    } else {
        (None, pos)
    }
}

pub proof fn lemma_opt_bracket(t: Seq<u8>, pos: int)
    requires
        0 <= pos <= t.len(),
    ensures
        pos <= opt_bracket(t, pos).1 <= t.len(),
{
    lemma_skip_blanks_bounds(t, pos);
    let i = skip_blanks(t, pos);
    if 0 <= i < t.len() && t[i] == 0x5b {
        lemma_bracket_scan(t, i + 1, 1);
    }
}

/// The braced group after blanks at `pos`.
pub open spec fn braced_after(t: Seq<u8>, pos: int) -> Option<(int, int)> {
    braced_group(t, skip_blanks(t, pos))
}

pub proof fn lemma_braced_after(t: Seq<u8>, pos: int)
    requires
        0 <= pos <= t.len(),
    ensures
        braced_after(t, pos) matches Some((cs, ce)) ==> pos < cs <= ce < t.len(),
{
    lemma_skip_blanks_bounds(t, pos);
    let i = skip_blanks(t, pos);
    if 0 <= i < t.len() && t[i] == 0x7b {
        lemma_closing_brace_bounds(t, i + 1, 1);
    }
}

/// Where a name that ends at `after` ends including an optional `*`.
pub open spec fn star_end(t: Seq<u8>, after: int) -> int {
    if 0 <= after < t.len() && t[after] == 0x2a {
        after + 1
    } else {
        after
    }
}

/// The braced content of a command (after blanks) as the one item.
pub open spec fn simple_parse() -> ItemParse {
    |t: Seq<u8>, p: int, a: int|
        match braced_after(t, a) {
            Some((cs, ce)) => Some((seq![t.subrange(cs, ce)], ce + 1)),
            None => None,
        }
}

/// The braced content after an optional `[...]` as the one item.
pub open spec fn opt_then_braced_parse() -> ItemParse {
    |t: Seq<u8>, p: int, a: int|
        match braced_after(t, opt_bracket(t, a).1) {
            Some((cs, ce)) => Some((seq![t.subrange(cs, ce)], ce + 1)),
            None => None,
        }
}

pub const TITLE_MARK: &'static str = "# ";

/// `\title[short]{x}` (or `\title*`) gives the heading `# x`.
pub open spec fn title_parse() -> ItemParse {
    |t: Seq<u8>, p: int, a: int|
        match braced_after(t, opt_bracket(t, star_end(t, a)).1) {
            Some((cs, ce)) => Some((seq![TITLE_MARK.spec_bytes() + t.subrange(cs, ce)], ce + 1)),
            None => None,
        }
}

pub const ABSTRACT_MARK: &'static str = "**Abstract.** ";

/// `\abst{x}` gives `**Abstract.** x`.
pub open spec fn abst_parse() -> ItemParse {
    |t: Seq<u8>, p: int, a: int|
        match braced_after(t, a) {
            Some((cs, ce)) => Some((seq![ABSTRACT_MARK.spec_bytes() + t.subrange(cs, ce)], ce + 1)),
            None => None,
        }
}

/// The UTF-8 bytes of the superscript form of a digit; other bytes (the
/// comma) stay.
pub open spec fn superscript_utf8(c: u8) -> Seq<u8> {
    if c == 0x30 {
        seq![0xe2u8, 0x81u8, 0xb0u8]
    } else if c == 0x31 {
        seq![0xc2u8, 0xb9u8]
    } else if c == 0x32 {
        seq![0xc2u8, 0xb2u8]
    } else if c == 0x33 {
        seq![0xc2u8, 0xb3u8]
    } else if 0x34 <= c <= 0x39 {
        seq![0xe2u8, 0x81u8, (0xb0 + (c - 0x30)) as u8]
    } else {
        seq![c]
    }
}

/// `s` with each digit in superscript form.
pub open spec fn superscripted(s: Seq<u8>) -> Seq<u8>
    decreases s.len(),
{
    if s.len() == 0 {
        Seq::empty()
    } else {
        superscripted(s.drop_last()) + superscript_utf8(s.last())
    }
}

/// The trimmed, non-empty comma-separated pieces of `ls` from `i` on.
pub open spec fn label_pieces_from(ls: Seq<u8>, i: int) -> Seq<Seq<u8>>
    decreases ls.len() - i,
{
    if i < 0 || i > ls.len() {
        Seq::empty()
    } else {
        proof {
            lemma_comma_end(ls, i);
        }
        let c = comma_end(ls, i);
        let piece = trim_ws(ls.subrange(i, c));
        let here = if piece.len() > 0 {
            seq![piece]
        } else {
            Seq::empty()
        };
        if c >= ls.len() {
            here
        } else {
            here + label_pieces_from(ls, c + 1)
        }
    }
}

/// Each piece paired with an address number.
pub open spec fn numbered(pieces: Seq<Seq<u8>>, n: nat) -> Seq<(Seq<u8>, nat)> {
    pieces.map_values(|x: Seq<u8>| (x, n))
}

pub const ADDRESS: &'static str = "address";

/// The address labels found scanning from `s`, each with the number of its
/// `\address` (counting on from `idx`).
pub open spec fn address_labels_from(t: Seq<u8>, s: int, idx: nat) -> Seq<(Seq<u8>, nat)>
    decreases t.len() + 1 - s,
{
    let pat = backslash_name(ADDRESS.spec_bytes());
    if s < 0 || s > t.len() {
        Seq::empty()
    } else {
        proof {
            lemma_find_from_bounds(t, pat, s);
        }
        match find_from(t, pat, s) {
            None => Seq::empty(),
            Some(p) => {
                let after = p + pat.len();
                if after < t.len() && is_alpha(t[after]) {
                    address_labels_from(t, after, idx)
                } else {
                    proof {
                        lemma_opt_bracket(t, after);
                        lemma_braced_after(t, opt_bracket(t, after).1);
                    }
                    let (labels, ao) = opt_bracket(t, after);
                    match braced_after(t, ao) {
                        Some((cs, ce)) => {
                            let n = idx + 1;
                            let here = match labels {
                                Some(ls) => numbered(label_pieces_from(ls, 0), n),
                                None => Seq::empty(),
                            };
                            here + address_labels_from(t, ce + 1, n)
                        },
                        None => address_labels_from(t, after, idx),
                    }
                }
            },
        }
    }
}

/// The number of the last address labelled `k`.
pub open spec fn address_number(m: Seq<(Seq<u8>, nat)>, k: Seq<u8>) -> Option<nat>
    decreases m.len(),
{
    if m.len() == 0 {
        None
    } else if m.last().0 == k {
        Some(m.last().1)
    } else {
        address_number(m.drop_last(), k)
    }
}

/// The numbers of the addresses named by the comma-separated labels from
/// `i` on (unknown labels dropped).
pub open spec fn label_numbers_from(ls: Seq<u8>, m: Seq<(Seq<u8>, nat)>, i: int) -> Seq<Seq<u8>>
    decreases ls.len() - i,
{
    if i < 0 || i > ls.len() {
        Seq::empty()
    } else {
        proof {
            lemma_comma_end(ls, i);
        }
        let c = comma_end(ls, i);
        let here = match address_number(m, trim_ws(ls.subrange(i, c))) {
            Some(n) => seq![decimal(n)],
            None => Seq::empty(),
        };
        if c >= ls.len() {
            here
        } else {
            here + label_numbers_from(ls, m, c + 1)
        }
    }
}

/// Strings joined by commas.
pub open spec fn join_commas(v: Seq<Seq<u8>>) -> Seq<u8>
    decreases v.len(),
{
    if v.len() == 0 {
        Seq::empty()
    } else if v.len() == 1 {
        v[0]
    } else {
        join_commas(v.drop_last()) + seq![0x2cu8] + v.last()
    }
}

/// `\author[labels]{x}` (or `\author*`) gives `x` followed by the numbers
/// of the labelled addresses in superscript.
pub open spec fn author_parse(m: Seq<(Seq<u8>, nat)>) -> ItemParse {
    |t: Seq<u8>, p: int, a: int|
        {
            let (labels, ao) = opt_bracket(t, star_end(t, a));
            match braced_after(t, ao) {
                Some((cs, ce)) => {
                    let marks = match labels {
                        Some(ls) => superscripted(join_commas(label_numbers_from(ls, m, 0))),
                        None => Seq::empty(),
                    };
                    Some((seq![t.subrange(cs, ce) + marks], ce + 1))
                },
                None => None,
            }
        }
}

/// The addresses found scanning from `s`, numbered in superscript when
/// `mark` (counting on from `idx`).
pub open spec fn address_items_from(t: Seq<u8>, s: int, idx: nat, mark: bool) -> Seq<Seq<u8>>
    decreases t.len() + 1 - s,
{
    let pat = backslash_name(ADDRESS.spec_bytes());
    if s < 0 || s > t.len() {
        Seq::empty()
    } else {
        proof {
            lemma_find_from_bounds(t, pat, s);
        }
        match find_from(t, pat, s) {
            None => Seq::empty(),
            Some(p) => {
                let after = p + pat.len();
                if after < t.len() && is_alpha(t[after]) {
                    address_items_from(t, after, idx, mark)
                } else {
                    proof {
                        lemma_opt_bracket(t, after);
                        lemma_braced_after(t, opt_bracket(t, after).1);
                    }
                    match braced_after(t, opt_bracket(t, after).1) {
                        Some((cs, ce)) => {
                            let n = idx + 1;
                            let entry = if mark {
                                superscripted(decimal(n)) + seq![0x20u8] + t.subrange(cs, ce)
                            } else {
                                t.subrange(cs, ce)
                            };
                            seq![entry] + address_items_from(t, ce + 1, n, mark)
                        },
                        None => address_items_from(t, after, idx, mark),
                    }
                }
            },
        }
    }
}

/// The bytes of a byte taken as a Latin-1 character and encoded as UTF-8.
pub open spec fn latin1_utf8(b: u8) -> Seq<u8> {
    if b < 0x80 {
        seq![b]
    } else if b < 0xc0 {
        seq![0xc2u8, b]
    } else {
        seq![0xc3u8, (b - 0x40) as u8]
    }
}

/// An institute block from `i` on with each `\\` (and a `[...]` right after
/// it) turned into a space, and every other byte taken as a Latin-1
/// character.
pub open spec fn institute_normalized(c: Seq<u8>, i: int) -> Seq<u8>
    decreases c.len() - i,
{
    if i < 0 || i >= c.len() {
        Seq::empty()
    } else if i + 1 < c.len() && c[i] == 0x5c && c[i + 1] == 0x5c {
        let j = i + 2;
        if j < c.len() && c[j] == 0x5b {
            proof {
                lemma_byte_end(c, j, 0x5d);
            }
            let k = byte_end(c, j, 0x5d);
            let k2 = if k < c.len() {
                k + 1
            } else {
                k
            };
            seq![0x20u8] + institute_normalized(c, k2)
        } else {
            seq![0x20u8] + institute_normalized(c, j)
        }
    } else {
        latin1_utf8(c[i]) + institute_normalized(c, i + 1)
    }
}

/// Position of the first byte `x` at or after `i`, or the end.
pub open spec fn byte_end(s: Seq<u8>, i: int, x: u8) -> int
    decreases s.len() - i,
{
    if i < 0 || i >= s.len() || s[i] == x {
        i
    } else {
        byte_end(s, i + 1, x)
    }
}

pub proof fn lemma_byte_end(s: Seq<u8>, i: int, x: u8)
    requires
        0 <= i <= s.len(),
    ensures
        i <= byte_end(s, i, x) <= s.len(),
        byte_end(s, i, x) < s.len() ==> s[byte_end(s, i, x)] == x,
    decreases s.len() - i,
{
    if i < s.len() && s[i] != x {
        lemma_byte_end(s, i + 1, x);
    }
}

pub const INST_OPEN: &'static str = "\\inst{";

pub const AND: &'static str = "\\and";

/// The institutions of a block numbered with `\inst{n}`, from `s` on: the
/// trimmed, non-empty text after each `\inst{..}` up to the next one.
pub open spec fn inst_split_from(n: Seq<u8>, s: int) -> Seq<Seq<u8>>
    decreases n.len() + 1 - s,
{
    let ip = INST_OPEN.spec_bytes();
    if s < 0 || s > n.len() || ip.len() == 0 {
        Seq::empty()
    } else {
        proof {
            lemma_find_from_bounds(n, ip, s);
        }
        match find_from(n, ip, s) {
            None => Seq::empty(),
            Some(a) => {
                let ns = a + ip.len();
                proof {
                    lemma_byte_end(n, ns, 0x7d);
                }
                let close = byte_end(n, ns, 0x7d);
                if close >= n.len() {
                    Seq::empty()
                } else {
                    let ts = close + 1;
                    proof {
                        lemma_find_from_bounds(n, ip, ts);
                    }
                    let te = match find_from(n, ip, ts) {
                        Some(q) => q,
                        None => n.len() as int,
                    };
                    let entry = trim_ws(n.subrange(ts, te));
                    (if entry.len() > 0 {
                        seq![entry]
                    } else {
                        Seq::empty()
                    }) + inst_split_from(n, te)
                }
            },
        }
    }
}

/// The trimmed, non-empty pieces of `n` between `\and`s, from `i` on.
pub open spec fn and_pieces_from(n: Seq<u8>, i: int) -> Seq<Seq<u8>>
    decreases n.len() + 1 - i,
{
    let sep = AND.spec_bytes();
    if i < 0 || i > n.len() || sep.len() == 0 {
        Seq::empty()
    } else {
        proof {
            lemma_find_from_bounds(n, sep, i);
        }
        match find_from(n, sep, i) {
            None => {
                let piece = trim_ws(n.subrange(i, n.len() as int));
                if piece.len() > 0 {
                    seq![piece]
                } else {
                    Seq::empty()
                }
            },
            Some(q) => {
                let piece = trim_ws(n.subrange(i, q));
                (if piece.len() > 0 {
                    seq![piece]
                } else {
                    Seq::empty()
                }) + and_pieces_from(n, q + sep.len())
            },
        }
    }
}

/// The institutions of an `\institute` block.
pub open spec fn institutions(content: Seq<u8>) -> Seq<Seq<u8>> {
    let n = institute_normalized(content, 0);
    if !contains(n, AND.spec_bytes()) && contains(n, INST_OPEN.spec_bytes()) {
        inst_split_from(n, 0)
    } else {
        and_pieces_from(n, 0)
    }
}

/// `\institute{..}` gives its institutions.
pub open spec fn institute_parse() -> ItemParse {
    |t: Seq<u8>, p: int, a: int|
        match braced_after(t, a) {
            Some((cs, ce)) => Some((institutions(t.subrange(cs, ce)), ce + 1)),
            None => None,
        }
}

pub const TITLE: &'static str = "title";

pub const AUTHOR: &'static str = "author";

pub const AUTHORS: &'static str = "authors";

pub const AFFILIATIONS: &'static str = "affiliations";

pub const AFFILIATION: &'static str = "affiliation";

pub const INSTITUTE: &'static str = "institute";

pub const INST: &'static str = "inst";

pub const ABST: &'static str = "abst";

pub const EMAIL: &'static str = "email";

pub const EMAIL_ADD: &'static str = "emailAdd";

pub const TITLE_BRACE: &'static str = "\\title{";

pub const TITLE_SPACE: &'static str = "\\title ";

pub const AUTHOR_BRACE: &'static str = "\\author{";

pub const AUTHOR_SPACE: &'static str = "\\author ";

pub const INSTITUTE_CMD: &'static str = "\\institute";

/// The body has its own title.
pub open spec fn has_title(body: Seq<u8>) -> bool {
    contains(body, TITLE_BRACE.spec_bytes()) || contains(body, TITLE_SPACE.spec_bytes())
}

/// The body has its own author.
pub open spec fn has_author(body: Seq<u8>) -> bool {
    contains(body, AUTHOR_BRACE.spec_bytes()) || contains(body, AUTHOR_SPACE.spec_bytes())
}

/// The metadata items of a preamble (comments removed), given whether the
/// body has its own title and author.
pub open spec fn metadata_items(pre: Seq<u8>, ht: bool, ha: bool) -> Seq<Seq<u8>> {
    let m = address_labels_from(pre, 0, 0);
    (if !ht {
        items_from(pre, backslash_name(TITLE.spec_bytes()), true, title_parse(), 0)
    } else {
        Seq::empty()
    }) + (if !ha {
        items_from(pre, backslash_name(AUTHOR.spec_bytes()), true, author_parse(m), 0)
    } else {
        Seq::empty()
    }) + (if !ha {
        items_from(pre, backslash_name(AUTHORS.spec_bytes()), true, simple_parse(), 0)
    } else {
        Seq::empty()
    }) + items_from(pre, backslash_name(AFFILIATIONS.spec_bytes()), true, simple_parse(), 0)
        + items_from(pre, backslash_name(AFFILIATION.spec_bytes()), true, opt_then_braced_parse(), 0)
        + address_items_from(pre, 0, 0, m.len() > 0) + items_from(
        pre,
        backslash_name(INSTITUTE.spec_bytes()),
        true,
        institute_parse(),
        0,
    ) + (if !contains(pre, INSTITUTE_CMD.spec_bytes()) {
        items_from(pre, backslash_name(INST.spec_bytes()), true, simple_parse(), 0)
    } else {
        Seq::empty()
    }) + items_from(pre, backslash_name(ABST.spec_bytes()), true, abst_parse(), 0) + items_from(
        pre,
        backslash_name(EMAIL.spec_bytes()),
        true,
        opt_then_braced_parse(),
        0,
    ) + items_from(pre, backslash_name(EMAIL_ADD.spec_bytes()), true, simple_parse(), 0)
}

/// Title, authors, affiliations, addresses, abstract and e-mails given in
/// the preamble, when `\begin{document}` is there.
pub open spec fn preamble_metadata(f: Seq<u8>) -> Seq<Seq<u8>> {
    match find_from(f, BEGIN_DOCUMENT.spec_bytes(), 0) {
        None => Seq::empty(),
        Some(d) => {
            let body = f.subrange(d + BEGIN_DOCUMENT.spec_bytes().len(), f.len() as int);
            metadata_items(uncomment_from(f.subrange(0, d), 0), has_title(body), has_author(body))
        },
    }
}

/// A `\thanks`-like remark's braced content, unless the command stands
/// inside one of `ranges`.
pub open spec fn remark_parse(ranges: Seq<(int, int)>) -> ItemParse {
    |t: Seq<u8>, p: int, a: int|
        if in_regions(ranges, p) {
            None
        } else {
            match braced_after(t, a) {
                Some((cs, ce)) => Some((seq![t.subrange(cs, ce)], ce + 1)),
                None => None,
            }
        }
}

pub const THANKS: &'static str = "thanks";

pub const FOOTNOTE: &'static str = "footnote";

pub const FOOTNOTETEXT: &'static str = "footnotetext";

pub const FUNDING: &'static str = "funding";

/// The remarks of a preamble outside `ranges`: `\thanks`, `\footnote`,
/// `\footnotetext` and `\funding` contents, command by command.
pub open spec fn remark_items(pre: Seq<u8>, ranges: Seq<(int, int)>) -> Seq<Seq<u8>> {
    items_from(pre, backslash_name(THANKS.spec_bytes()), true, remark_parse(ranges), 0)
        + items_from(pre, backslash_name(FOOTNOTE.spec_bytes()), true, remark_parse(ranges), 0)
        + items_from(pre, backslash_name(FOOTNOTETEXT.spec_bytes()), false, remark_parse(ranges), 0)
        + items_from(pre, backslash_name(FUNDING.spec_bytes()), true, remark_parse(ranges), 0)
}

/// The remarks of the preamble of `f` outside `ranges`; none without
/// `\begin{document}`.
pub open spec fn preamble_remarks(f: Seq<u8>, ranges: Seq<(int, int)>) -> Seq<Seq<u8>> {
    match find_from(f, BEGIN_DOCUMENT.spec_bytes(), 0) {
        None => Seq::empty(),
        Some(d) => remark_items(f.subrange(0, d), ranges),
    }
}

/// The ranges of the `\title`/`\author` blocks found scanning from `s`.
pub open spec fn meta_ranges_from(t: Seq<u8>, pat: Seq<u8>, s: int) -> Seq<(int, int)>
    decreases t.len() + 1 - s,
{
    if s < 0 || s > t.len() || pat.len() == 0 {
        Seq::empty()
    } else {
        proof {
            lemma_find_from_bounds(t, pat, s);
        }
        match find_from(t, pat, s) {
            None => Seq::empty(),
            Some(p) => {
                let after = p + pat.len();
                if after < t.len() && is_alpha(t[after]) {
                    meta_ranges_from(t, pat, after)
                } else {
                    let ao = opt_bracket(t, star_end(t, after)).1;
                    proof {
                        lemma_opt_bracket(t, star_end(t, after));
                        lemma_braced_after(t, ao);
                    }
                    match braced_after(t, ao) {
                        Some((cs, ce)) => seq![(p, ce + 1)] + meta_ranges_from(t, pat, ce + 1),
                        None => meta_ranges_from(t, pat, after),
                    }
                }
            },
        }
    }
}

/// The ranges of the (raw) preamble's `\title` and `\author` blocks that
/// give metadata, so that remarks inside them are not taken twice.
pub open spec fn metadata_ranges(f: Seq<u8>) -> Seq<(int, int)> {
    match find_from(f, BEGIN_DOCUMENT.spec_bytes(), 0) {
        None => Seq::empty(),
        Some(d) => {
            let pre = f.subrange(0, d);
            let body = f.subrange(d + BEGIN_DOCUMENT.spec_bytes().len(), f.len() as int);
            (if !has_title(body) {
                meta_ranges_from(pre, backslash_name(TITLE.spec_bytes()), 0)
            } else {
                Seq::empty()
            }) + (if !has_author(body) {
                meta_ranges_from(pre, backslash_name(AUTHOR.spec_bytes()), 0)
            } else {
                Seq::empty()
            })
        },
    }
}

/// Start of the line holding position `p`.
pub open spec fn line_start(t: Seq<u8>, p: int) -> int
    decreases p,
{
    if p <= 0 {
        0
    } else if t[p - 1] == 0x0a {
        p
    } else {
        line_start(t, p - 1)
    }
}

/// `s` without leading Unicode whitespace.
pub open spec fn trim_front(s: Seq<u8>) -> Seq<u8>
    decreases s.len(),
{
    if ws_len_front(s) > 0 && ws_len_front(s) <= s.len() {
        trim_front(s.subrange(ws_len_front(s) as int, s.len() as int))
    } else {
        s
    }
}

pub const END_DOCUMENT_NAME: &'static str = "end{document}";

pub const PERCENT: &'static str = "%";

/// The first `\end{document}` at or after `s` whose line does not start
/// (after blanks) with `%`.
pub open spec fn end_document_from(t: Seq<u8>, s: int) -> Option<int>
    decreases t.len() + 1 - s,
{
    let ed = backslash_name(END_DOCUMENT_NAME.spec_bytes());
    if s < 0 || s > t.len() {
        None
    } else {
        proof {
            lemma_find_from_bounds(t, ed, s);
        }
        match find_from(t, ed, s) {
            None => None,
            Some(p) => if !starts_with(trim_front(t.subrange(line_start(t, p), p)), PERCENT.spec_bytes()) {
                Some(p)
            } else {
                end_document_from(t, p + ed.len())
            },
        }
    }
}

proof fn lemma_end_document_at(t: Seq<u8>, s: int)
    requires
        0 <= s,
    ensures
        end_document_from(t, s) matches Some(p) ==> 0 <= p < t.len() && t[p] == 0x5c,
    decreases t.len() + 1 - s,
{
    let ed = backslash_name(END_DOCUMENT_NAME.spec_bytes());
    if s <= t.len() {
        lemma_find_from_bounds(t, ed, s);
        match find_from(t, ed, s) {
            Some(p) => {
                assert(t.subrange(p, p + ed.len())[0] == ed[0]);
                if starts_with(trim_front(t.subrange(line_start(t, p), p)), PERCENT.spec_bytes()) {
                    lemma_end_document_at(t, p + ed.len());
                }
            },
            None => {},
        }
    }
}

/// The body of valid UTF-8 text is valid UTF-8: it starts after the ASCII
/// `}` of `\begin{document}` and ends at the ASCII backslash of
/// `\end{document}`.
proof fn lemma_body_text_utf8(f: Seq<u8>)
    requires
        vstd::utf8::valid_utf8(f),
    ensures
        vstd::utf8::valid_utf8(body_text(f)),
{
    let bd = BEGIN_DOCUMENT.spec_bytes();
    lemma_find_from_bounds(f, bd, 0);
    assert(f.subrange(0, f.len() as int) =~= f);
    match find_from(f, bd, 0) {
        Some(d) => {
            reveal_strlit("\\begin{document}");
            assert(BEGIN_DOCUMENT@.len() == 16);
            assert(vstd::string::is_ascii(BEGIN_DOCUMENT));
            vstd::string::is_ascii_spec_bytes(BEGIN_DOCUMENT);
            assert(bd[15] == 0x7d);
            assert(f.subrange(d, d + 16)[15] == bd[15]);
            crate::text::lemma_utf8_after_ascii(f, 0, d + 15);
            let rest = f.subrange(d + 16, f.len() as int);
            lemma_end_document_at(rest, 0);
            match end_document_from(rest, 0) {
                Some(e) => {
                    assert(rest.subrange(0, rest.len() as int) =~= rest);
                    crate::text::lemma_utf8_before_ascii(rest, 0, e);
                },
                None => {},
            }
        },
        None => {},
    }
}

/// The document body: between `\begin{document}` and the first
/// uncommented `\end{document}` (or the end), or all of `f` without
/// `\begin{document}`.
pub open spec fn body_text(f: Seq<u8>) -> Seq<u8> {
    match find_from(f, BEGIN_DOCUMENT.spec_bytes(), 0) {
        Some(d) => {
            let rest = f.subrange(d + BEGIN_DOCUMENT.spec_bytes().len(), f.len() as int);
            match end_document_from(rest, 0) {
                Some(e) => rest.subrange(0, e),
                None => rest,
            }
        },
        None => f,
    }
}

/// The kinds of command parsers used on the preamble.
#[derive(Clone, Copy)]
pub enum ParserKind {
    Simple,
    OptThenBraced,
    Title,
    Abst,
    Author,
    Institute,
    Remark,
}

/// The parser of a kind (with the address labels and excluded ranges the
/// author and remark parsers use).
pub open spec fn parser_of(k: ParserKind, m: Seq<(Seq<u8>, nat)>, r: Seq<(int, int)>) -> ItemParse {
    match k {
        ParserKind::Simple => simple_parse(),
        ParserKind::OptThenBraced => opt_then_braced_parse(),
        ParserKind::Title => title_parse(),
        ParserKind::Abst => abst_parse(),
        ParserKind::Author => author_parse(m),
        ParserKind::Institute => institute_parse(),
        ParserKind::Remark => remark_parse(r),
    }
}

fn bracket_scan_bytes(t: &[u8], start: usize) -> (res: Option<usize>)
    requires
        1 <= start <= t.len(),
    ensures
        bracket_scan(t@, start as int, 1) == match res {
            Some(j) => Some(j as int),
            None => None,
        },
{
    let mut i = start;
    let mut depth: usize = 1;
    while i < t.len() && depth > 0
        invariant
            start <= i <= t.len(),
            depth <= i,
            bracket_scan(t@, i as int, depth as nat) == bracket_scan(t@, start as int, 1),
        decreases t.len() - i,
    {
        if t[i] == 0x5b {
            depth = depth + 1;
        } else if t[i] == 0x5d {
            depth = depth - 1;
        }
        i = i + 1;
    }
    if depth == 0 {
        Some(i)
    } else {
        None
    }
}

pub(crate) fn opt_bracket_bytes(t: &[u8], pos: usize) -> (res: (Option<Vec<u8>>, usize))
    requires
        pos <= t.len(),
    ensures
        opt_bracket(t@, pos as int) == (
            match res.0 {
                Some(v) => Some(v@),
                None => None,
            },
            res.1 as int,
        ),
        pos <= res.1 <= t.len(),
{
    let i = skip_blanks_bytes(t, pos);
    if i < t.len() && t[i] == 0x5b {
        proof {
            lemma_bracket_scan(t@, i + 1, 1);
        }
        match bracket_scan_bytes(t, i + 1) {
            Some(j) => (Some(slice_to_vec(t, i + 1, j - 1)), j),
            None => (None, pos),
        }
    } else {
        (None, pos)
    }
}

fn braced_after_bytes(t: &[u8], pos: usize) -> (res: Option<(usize, usize)>)
    requires
        pos <= t.len(),
    ensures
        braced_after(t@, pos as int) == match res {
            Some((cs, ce)) => Some((cs as int, ce as int)),
            None => None,
        },
        res matches Some((cs, ce)) ==> pos < cs <= ce < t.len(),
{
    let i = skip_blanks_bytes(t, pos);
    braced_group_bytes(t, i)
}

/// Address labels with their numbers.
pub open spec fn addr_view(m: Seq<(Vec<u8>, usize)>) -> Seq<(Seq<u8>, nat)> {
    m.map_values(|x: (Vec<u8>, usize)| (x.0@, x.1 as nat))
}

pub(crate) fn push_superscripted(out: &mut Vec<u8>, s: &[u8])
    ensures
        final(out)@ == old(out)@ + superscripted(s@),
{
    let ghost base = old(out)@;
    let mut i: usize = 0;
    while i < s.len()
        invariant
            i <= s.len(),
            base == old(out)@,
            out@ == base + superscripted(s@.subrange(0, i as int)),
        decreases s.len() - i,
    {
        let c = s[i];
        let ghost o = out@;
        if c == 0x30 {
            out.push(0xe2);
            out.push(0x81);
            out.push(0xb0);
        } else if c == 0x31 {
            out.push(0xc2);
            out.push(0xb9);
        } else if c == 0x32 {
            out.push(0xc2);
            out.push(0xb2);
        } else if c == 0x33 {
            out.push(0xc2);
            out.push(0xb3);
        } else if 0x34 <= c && c <= 0x39 {
            out.push(0xe2);
            out.push(0x81);
            out.push(0xb0 + (c - 0x30));
        } else {
            out.push(c);
        }
        assert(out@ =~= o + superscript_utf8(c));
        assert(s@.subrange(0, i + 1).drop_last() =~= s@.subrange(0, i as int));
        i = i + 1;
    }
    assert(s@.subrange(0, s@.len() as int) =~= s@);
}

pub(crate) fn push_label_pieces(out: &mut Vec<(Vec<u8>, usize)>, ls: &[u8], n: usize)
    ensures
        addr_view(final(out)@) == addr_view(old(out)@) + numbered(label_pieces_from(ls@, 0), n as nat),
{
    let ghost base = addr_view(old(out)@);
    let mut i: usize = 0;
    loop
        invariant
            i <= ls.len(),
            base == addr_view(old(out)@),
            addr_view(out@) + numbered(label_pieces_from(ls@, i as int), n as nat) == base
                + numbered(label_pieces_from(ls@, 0), n as nat),
        decreases ls.len() - i,
    {
        let ghost o = addr_view(out@);
        let mut c = i;
        while c < ls.len() && ls[c] != 0x2c
            invariant
                i <= c <= ls.len(),
                comma_end(ls@, c as int) == comma_end(ls@, i as int),
            decreases ls.len() - c,
        {
            c = c + 1;
        }
        assert(c as int == comma_end(ls@, i as int));
        proof {
            lemma_comma_end(ls@, i as int);
        }
        let (a, b) = trim_ws_range(ls, i, c);
        let ghost piece = trim_ws(ls@.subrange(i as int, c as int));
        let ghost here: Seq<Seq<u8>> = if piece.len() > 0 {
            seq![piece]
        } else {
            Seq::empty()
        };
        if b > a {
            let v = slice_to_vec(ls, a, b);
            out.push((v, n));
            assert(addr_view(out@) =~= o + numbered(here, n as nat));
        } else {
            assert(addr_view(out@) =~= o + numbered(here, n as nat));
        }
        if c >= ls.len() {
            assert(label_pieces_from(ls@, i as int) == here);
            return;
        }
        assert(label_pieces_from(ls@, i as int) == here + label_pieces_from(ls@, c + 1));
        assert(numbered(here + label_pieces_from(ls@, c + 1), n as nat) =~= numbered(here, n as nat)
            + numbered(label_pieces_from(ls@, c + 1), n as nat));
        assert(o + numbered(label_pieces_from(ls@, i as int), n as nat) =~= addr_view(out@)
            + numbered(label_pieces_from(ls@, c + 1), n as nat));
        i = c + 1;
    }
}

fn address_pattern() -> (res: Vec<u8>)
    ensures
        res@ == backslash_name(ADDRESS.spec_bytes()),
        res@.len() > 0,
{
    let mut v: Vec<u8> = Vec::new();
    v.push(0x5c);
    push_all(&mut v, ADDRESS.as_bytes());
    assert(v@ =~= backslash_name(ADDRESS.spec_bytes()));
    v
}

/// The address labels of a preamble with the number of their address.
fn build_address_label_map(t: &[u8]) -> (res: Vec<(Vec<u8>, usize)>)
    ensures
        addr_view(res@) == address_labels_from(t@, 0, 0),
{
    let pat = address_pattern();
    let mut out: Vec<(Vec<u8>, usize)> = Vec::new();
    let mut s: usize = 0;
    let mut idx: usize = 0;
    loop
        invariant
            s <= t.len(),
            idx <= s,
            pat@ == backslash_name(ADDRESS.spec_bytes()),
            pat@.len() > 0,
            addr_view(out@) + address_labels_from(t@, s as int, idx as nat) == address_labels_from(t@, 0, 0),
        decreases t.len() + 1 - s,
    {
        let ghost o = addr_view(out@);
        proof {
            lemma_find_from_bounds(t@, pat@, s as int);
        }
        match find_bytes(t, pat.as_slice(), s) {
            None => {
                assert(o + address_labels_from(t@, s as int, idx as nat) =~= o);
                return out;
            },
            Some(p) => {
                let after = p + pat.len();
                if after < t.len() && is_alpha_byte(t[after]) {
                    s = after;
                } else {
                    let (labels, ao) = opt_bracket_bytes(t, after);
                    match braced_after_bytes(t, ao) {
                        Some((_, ce)) => {
                            let n = idx + 1;
                            match &labels {
                                Some(ls) => {
                                    push_label_pieces(&mut out, ls.as_slice(), n);
                                },
                                None => {},
                            }
                            assert(o + address_labels_from(t@, s as int, idx as nat) =~= addr_view(out@)
                                + address_labels_from(t@, ce + 1, n as nat));
                            idx = n;
                            s = ce + 1;
                        },
                        None => {
                            s = after;
                        },
                    }
                }
            },
        }
    }
}

/// Append the number of the last address labelled `k`, when there is one.
pub(crate) fn address_number_of(m: &Vec<(Vec<u8>, usize)>, k: &[u8]) -> (res: Option<usize>)
    ensures
        address_number(addr_view(m@), k@) == match res {
            Some(n) => Some(n as nat),
            None => None,
        },
{
    let ghost mv = addr_view(m@);
    let mut i = m.len();
    assert(mv.subrange(0, m@.len() as int) =~= mv);
    while i > 0
        invariant
            i <= m.len(),
            mv == addr_view(m@),
            address_number(mv.subrange(0, i as int), k@) == address_number(mv, k@),
        decreases i,
    {
        let ghost pre = mv.subrange(0, i as int);
        assert(pre.drop_last() =~= mv.subrange(0, i - 1));
        assert(pre.last() == (m@[i - 1].0@, m@[i - 1].1 as nat));
        if crate::scan::bytes_eq(m[i - 1].0.as_slice(), k) {
            return Some(m[i - 1].1);
        }
        i = i - 1;
    }
    assert(mv.subrange(0, 0) =~= Seq::<(Seq<u8>, nat)>::empty());
    None
}

pub(crate) fn label_numbers(ls: &[u8], m: &Vec<(Vec<u8>, usize)>) -> (res: Vec<Vec<u8>>)
    ensures
        rows_view(res@) == label_numbers_from(ls@, addr_view(m@), 0),
{
    let mut out: Vec<Vec<u8>> = Vec::new();
    let mut i: usize = 0;
    loop
        invariant
            i <= ls.len(),
            rows_view(out@) + label_numbers_from(ls@, addr_view(m@), i as int) == label_numbers_from(
                ls@,
                addr_view(m@),
                0,
            ),
        decreases ls.len() - i,
    {
        let ghost o = rows_view(out@);
        let mut c = i;
        while c < ls.len() && ls[c] != 0x2c
            invariant
                i <= c <= ls.len(),
                comma_end(ls@, c as int) == comma_end(ls@, i as int),
            decreases ls.len() - c,
        {
            c = c + 1;
        }
        assert(c as int == comma_end(ls@, i as int));
        proof {
            lemma_comma_end(ls@, i as int);
        }
        let (a, b) = trim_ws_range(ls, i, c);
        let key = &ls[a..b];
        assert(key@ =~= trim_ws(ls@.subrange(i as int, c as int)));
        let ghost here: Seq<Seq<u8>> = match address_number(addr_view(m@), key@) {
            Some(n) => seq![decimal(n)],
            None => Seq::empty(),
        };
        match address_number_of(m, key) {
            Some(n) => {
                let mut d: Vec<u8> = Vec::new();
                push_decimal(&mut d, n as u64);
                out.push(d);
                assert(rows_view(out@) =~= o + here);
            },
            None => {
                assert(rows_view(out@) =~= o + here);
            },
        }
        if c >= ls.len() {
            assert(label_numbers_from(ls@, addr_view(m@), i as int) == here);
            return out;
        }
        assert(o + label_numbers_from(ls@, addr_view(m@), i as int) =~= rows_view(out@)
            + label_numbers_from(ls@, addr_view(m@), c + 1));
        i = c + 1;
    }
}

pub(crate) fn join_commas_bytes(v: &Vec<Vec<u8>>) -> (res: Vec<u8>)
    ensures
        res@ == join_commas(rows_view(v@)),
{
    let ghost rv = rows_view(v@);
    let mut out: Vec<u8> = Vec::new();
    let mut i: usize = 0;
    while i < v.len()
        invariant
            i <= v.len(),
            rv == rows_view(v@),
            out@ == join_commas(rv.subrange(0, i as int)),
        decreases v.len() - i,
    {
        let ghost pre = rv.subrange(0, i + 1);
        assert(pre.drop_last() =~= rv.subrange(0, i as int));
        if i > 0 {
            out.push(0x2c);
        } else {
            assert(rv.subrange(0, 0) =~= Seq::<Seq<u8>>::empty());
        }
        push_all(&mut out, v[i].as_slice());
        i = i + 1;
    }
    assert(rv.subrange(0, v@.len() as int) =~= rv);
    out
}

fn latin1_push(out: &mut Vec<u8>, b: u8)
    ensures
        final(out)@ == old(out)@ + latin1_utf8(b),
{
    if b < 0x80 {
        out.push(b);
    } else if b < 0xc0 {
        out.push(0xc2);
        out.push(b);
    } else {
        out.push(0xc3);
        out.push(b - 0x40);
    }
}

pub(crate) fn normalize_institute(c: &[u8]) -> (res: Vec<u8>)
    ensures
        res@ == institute_normalized(c@, 0),
{
    let mut out: Vec<u8> = Vec::new();
    let mut i: usize = 0;
    while i < c.len()
        invariant
            i <= c.len(),
            out@ + institute_normalized(c@, i as int) == institute_normalized(c@, 0),
        decreases c.len() - i,
    {
        let ghost o = out@;
        if i + 1 < c.len() && c[i] == 0x5c && c[i + 1] == 0x5c {
            out.push(0x20);
            let j = i + 2;
            if j < c.len() && c[j] == 0x5b {
                proof {
                    lemma_byte_end(c@, j as int, 0x5d);
                }
                let mut k = j;
                while k < c.len() && c[k] != 0x5d
                    invariant
                        j <= k <= c.len(),
                        byte_end(c@, k as int, 0x5d) == byte_end(c@, j as int, 0x5d),
                    decreases c.len() - k,
                {
                    k = k + 1;
                }
                let k2 = if k < c.len() {
                    k + 1
                } else {
                    k
                };
                assert(o + (seq![0x20u8] + institute_normalized(c@, k2 as int)) =~= out@
                    + institute_normalized(c@, k2 as int));
                i = k2;
            } else {
                assert(o + (seq![0x20u8] + institute_normalized(c@, j as int)) =~= out@
                    + institute_normalized(c@, j as int));
                i = j;
            }
        } else {
            latin1_push(&mut out, c[i]);
            assert(o + (latin1_utf8(c@[i as int]) + institute_normalized(c@, i + 1)) =~= out@
                + institute_normalized(c@, i + 1));
            i = i + 1;
        }
    }
    assert(out@ + institute_normalized(c@, i as int) =~= out@);
    out
}

fn push_trimmed_nonempty(out: &mut Vec<Vec<u8>>, n: &[u8], a: usize, b: usize)
    requires
        a <= b <= n.len(),
    ensures
        rows_view(final(out)@) == rows_view(old(out)@) + (if trim_ws(n@.subrange(a as int, b as int)).len() > 0 {
            seq![trim_ws(n@.subrange(a as int, b as int))]
        } else {
            Seq::empty()
        }),
{
    let (x, y) = trim_ws_range(n, a, b);
    let ghost o = rows_view(out@);
    if y > x {
        let v = slice_to_vec(n, x, y);
        out.push(v);
        assert(rows_view(out@) =~= o.push(trim_ws(n@.subrange(a as int, b as int))));
    } else {
        assert(o + Seq::<Seq<u8>>::empty() =~= o);
    }
}

fn inst_split(n: &[u8]) -> (res: Vec<Vec<u8>>)
    ensures
        rows_view(res@) == inst_split_from(n@, 0),
{
    let ip = INST_OPEN.as_bytes();
    let mut out: Vec<Vec<u8>> = Vec::new();
    let mut s: usize = 0;
    if ip.len() == 0 {
        assert(inst_split_from(n@, 0) =~= Seq::<Seq<u8>>::empty());
        return out;
    }
    loop
        invariant
            s <= n.len(),
            ip@ == INST_OPEN.spec_bytes(),
            ip@.len() > 0,
            rows_view(out@) + inst_split_from(n@, s as int) == inst_split_from(n@, 0),
        decreases n.len() + 1 - s,
    {
        let ghost o = rows_view(out@);
        proof {
            lemma_find_from_bounds(n@, ip@, s as int);
        }
        match find_bytes(n, ip, s) {
            None => {
                assert(o + inst_split_from(n@, s as int) =~= o);
                return out;
            },
            Some(a) => {
                let ns = a + ip.len();
                proof {
                    lemma_byte_end(n@, ns as int, 0x7d);
                }
                let mut close = ns;
                while close < n.len() && n[close] != 0x7d
                    invariant
                        ns <= close <= n.len(),
                        byte_end(n@, close as int, 0x7d) == byte_end(n@, ns as int, 0x7d),
                    decreases n.len() - close,
                {
                    close = close + 1;
                }
                if close >= n.len() {
                    assert(o + inst_split_from(n@, s as int) =~= o);
                    return out;
                }
                let ts = close + 1;
                proof {
                    lemma_find_from_bounds(n@, ip@, ts as int);
                }
                let te = match find_bytes(n, ip, ts) {
                    Some(q) => q,
                    None => n.len(),
                };
                push_trimmed_nonempty(&mut out, n, ts, te);
                assert(o + inst_split_from(n@, s as int) =~= rows_view(out@) + inst_split_from(
                    n@,
                    te as int,
                ));
                s = te;
            },
        }
    }
}

fn and_pieces(n: &[u8]) -> (res: Vec<Vec<u8>>)
    ensures
        rows_view(res@) == and_pieces_from(n@, 0),
{
    let sep = AND.as_bytes();
    let mut out: Vec<Vec<u8>> = Vec::new();
    let mut i: usize = 0;
    if sep.len() == 0 {
        assert(and_pieces_from(n@, 0) =~= Seq::<Seq<u8>>::empty());
        return out;
    }
    loop
        invariant
            i <= n.len(),
            sep@ == AND.spec_bytes(),
            sep@.len() > 0,
            rows_view(out@) + and_pieces_from(n@, i as int) == and_pieces_from(n@, 0),
        decreases n.len() + 1 - i,
    {
        let ghost o = rows_view(out@);
        proof {
            lemma_find_from_bounds(n@, sep@, i as int);
        }
        match find_bytes(n, sep, i) {
            None => {
                push_trimmed_nonempty(&mut out, n, i, n.len());
                assert(o + and_pieces_from(n@, i as int) =~= rows_view(out@));
                return out;
            },
            Some(q) => {
                push_trimmed_nonempty(&mut out, n, i, q);
                assert(o + and_pieces_from(n@, i as int) =~= rows_view(out@) + and_pieces_from(
                    n@,
                    q + sep@.len(),
                ));
                i = q + sep.len();
            },
        }
    }
}

fn institutions_of(content: &[u8]) -> (res: Vec<Vec<u8>>)
    ensures
        rows_view(res@) == institutions(content@),
{
    let n = normalize_institute(content);
    if !bytes_contains(n.as_slice(), AND.as_bytes()) && bytes_contains(n.as_slice(), INST_OPEN.as_bytes()) {
        inst_split(n.as_slice())
    } else {
        and_pieces(n.as_slice())
    }
}

fn in_ranges(pos: usize, r: &Vec<(usize, usize)>) -> (res: bool)
    ensures
        res == in_regions(regions_view(r@), pos as int),
{
    let ghost rv = regions_view(r@);
    let mut k: usize = 0;
    while k < r.len()
        invariant
            k <= r.len(),
            rv == regions_view(r@),
            forall|j: int| 0 <= j < k ==> !((#[trigger] rv[j]).0 <= pos && pos < rv[j].1),
        decreases r.len() - k,
    {
        assert(rv[k as int] == region_view(r@[k as int]));
        if r[k].0 <= pos && pos < r[k].1 {
            return true;
        }
        k = k + 1;
    }
    false
}

fn one_item(v: Vec<u8>) -> (res: Vec<Vec<u8>>)
    ensures
        rows_view(res@) == seq![v@],
{
    let out = vec![v];
    assert(rows_view(out@) =~= seq![v@]);
    out
}

/// Run one of the preamble parsers where a command's name ends.
fn run_parser(
    k: ParserKind,
    t: &[u8],
    p: usize,
    a: usize,
    m: &Vec<(Vec<u8>, usize)>,
    r: &Vec<(usize, usize)>,
) -> (res: Option<(Vec<Vec<u8>>, usize)>)
    requires
        p < a <= t.len(),
    ensures
        match res {
            Some((its, e)) => (parser_of(k, addr_view(m@), regions_view(r@)))(t@, p as int, a as int)
                == Some((rows_view(its@), e as int)) && a <= e <= t.len(),
            None => (parser_of(k, addr_view(m@), regions_view(r@)))(t@, p as int, a as int) is None,
        },
{
    match k {
        ParserKind::Simple => match braced_after_bytes(t, a) {
            Some((cs, ce)) => Some((one_item(slice_to_vec(t, cs, ce)), ce + 1)),
            None => None,
        },
        ParserKind::OptThenBraced => {
            let (_, ao) = opt_bracket_bytes(t, a);
            match braced_after_bytes(t, ao) {
                Some((cs, ce)) => Some((one_item(slice_to_vec(t, cs, ce)), ce + 1)),
                None => None,
            }
        },
        ParserKind::Title => {
            let se = if a < t.len() && t[a] == 0x2a {
                a + 1
            } else {
                a
            };
            let (_, ao) = opt_bracket_bytes(t, se);
            match braced_after_bytes(t, ao) {
                Some((cs, ce)) => {
                    let mut v: Vec<u8> = Vec::new();
                    push_all(&mut v, TITLE_MARK.as_bytes());
                    push_range(&mut v, t, cs, ce);
                    Some((one_item(v), ce + 1))
                },
                None => None,
            }
        },
        ParserKind::Abst => match braced_after_bytes(t, a) {
            Some((cs, ce)) => {
                let mut v: Vec<u8> = Vec::new();
                push_all(&mut v, ABSTRACT_MARK.as_bytes());
                push_range(&mut v, t, cs, ce);
                Some((one_item(v), ce + 1))
            },
            None => None,
        },
        ParserKind::Author => {
            let se = if a < t.len() && t[a] == 0x2a {
                a + 1
            } else {
                a
            };
            let (labels, ao) = opt_bracket_bytes(t, se);
            match braced_after_bytes(t, ao) {
                Some((cs, ce)) => {
                    let mut v: Vec<u8> = Vec::new();
                    push_range(&mut v, t, cs, ce);
                    match &labels {
                        Some(ls) => {
                            let nums = label_numbers(ls.as_slice(), m);
                            let joined = join_commas_bytes(&nums);
                            push_superscripted(&mut v, joined.as_slice());
                        },
                        None => {},
                    }
                    Some((one_item(v), ce + 1))
                },
                None => None,
            }
        },
        ParserKind::Institute => match braced_after_bytes(t, a) {
            Some((cs, ce)) => {
                let content = &t[cs..ce];
                assert(content@ =~= t@.subrange(cs as int, ce as int));
                Some((institutions_of(content), ce + 1))
            },
            None => None,
        },
        ParserKind::Remark => {
            if in_ranges(p, r) {
                None
            } else {
                match braced_after_bytes(t, a) {
                    Some((cs, ce)) => Some((one_item(slice_to_vec(t, cs, ce)), ce + 1)),
                    None => None,
                }
            }
        },
    }
}

fn name_pattern(name: &str) -> (res: Vec<u8>)
    ensures
        res@ == backslash_name(name.spec_bytes()),
        res@.len() > 0,
{
    let mut v: Vec<u8> = Vec::new();
    v.push(0x5c);
    push_all(&mut v, name.as_bytes());
    assert(v@ =~= backslash_name(name.spec_bytes()));
    v
}

/// The items of every `\name` in `t`, read by the parser of kind `k`.
fn collect_items(
    t: &[u8],
    name: &str,
    boundary: bool,
    k: ParserKind,
    m: &Vec<(Vec<u8>, usize)>,
    r: &Vec<(usize, usize)>,
) -> (res: Vec<Vec<u8>>)
    ensures
        rows_view(res@) == items_from(
            t@,
            backslash_name(name.spec_bytes()),
            boundary,
            parser_of(k, addr_view(m@), regions_view(r@)),
            0,
        ),
{
    let ghost parse = parser_of(k, addr_view(m@), regions_view(r@));
    let pat = name_pattern(name);
    let mut out: Vec<Vec<u8>> = Vec::new();
    let mut s: usize = 0;
    loop
        invariant
            s <= t.len(),
            pat@ == backslash_name(name.spec_bytes()),
            pat@.len() > 0,
            parse == parser_of(k, addr_view(m@), regions_view(r@)),
            rows_view(out@) + items_from(t@, pat@, boundary, parse, s as int) == items_from(
                t@,
                pat@,
                boundary,
                parse,
                0,
            ),
        decreases t.len() + 1 - s,
    {
        let ghost o = rows_view(out@);
        proof {
            lemma_find_from_bounds(t@, pat@, s as int);
        }
        match find_bytes(t, pat.as_slice(), s) {
            None => {
                assert(o + items_from(t@, pat@, boundary, parse, s as int) =~= o);
                return out;
            },
            Some(p) => {
                let after = p + pat.len();
                if boundary && after < t.len() && is_alpha_byte(t[after]) {
                    s = after;
                } else {
                    match run_parser(k, t, p, after, m, r) {
                        Some((its, e)) => {
                            let ghost iv = rows_view(its@);
                            append_rows(&mut out, its);
                            assert(o + (iv + items_from(t@, pat@, boundary, parse, e as int))
                                =~= rows_view(out@) + items_from(t@, pat@, boundary, parse, e as int));
                            s = e;
                        },
                        None => {
                            s = after;
                        },
                    }
                }
            },
        }
    }
}

/// The addresses of a preamble, numbered in superscript when `mark`.
fn address_items(t: &[u8], mark: bool) -> (res: Vec<Vec<u8>>)
    ensures
        rows_view(res@) == address_items_from(t@, 0, 0, mark),
{
    let pat = address_pattern();
    let mut out: Vec<Vec<u8>> = Vec::new();
    let mut s: usize = 0;
    let mut idx: usize = 0;
    loop
        invariant
            s <= t.len(),
            idx <= s,
            pat@ == backslash_name(ADDRESS.spec_bytes()),
            pat@.len() > 0,
            rows_view(out@) + address_items_from(t@, s as int, idx as nat, mark)
                == address_items_from(t@, 0, 0, mark),
        decreases t.len() + 1 - s,
    {
        let ghost o = rows_view(out@);
        proof {
            lemma_find_from_bounds(t@, pat@, s as int);
        }
        match find_bytes(t, pat.as_slice(), s) {
            None => {
                assert(o + address_items_from(t@, s as int, idx as nat, mark) =~= o);
                return out;
            },
            Some(p) => {
                let after = p + pat.len();
                if after < t.len() && is_alpha_byte(t[after]) {
                    s = after;
                } else {
                    let (_, ao) = opt_bracket_bytes(t, after);
                    match braced_after_bytes(t, ao) {
                        Some((cs, ce)) => {
                            let n = idx + 1;
                            let mut entry: Vec<u8> = Vec::new();
                            if mark {
                                let mut d: Vec<u8> = Vec::new();
                                push_decimal(&mut d, n as u64);
                                assert(d@ =~= decimal(n as nat));
                                push_superscripted(&mut entry, d.as_slice());
                                entry.push(0x20);
                            }
                            push_range(&mut entry, t, cs, ce);
                            let ghost ev = entry@;
                            assert(ev =~= (if mark {
                                superscripted(decimal(n as nat)) + seq![0x20u8] + t@.subrange(cs as int, ce as int)
                            } else {
                                t@.subrange(cs as int, ce as int)
                            }));
                            out.push(entry);
                            assert(rows_view(out@) =~= o.push(ev));
                            assert(o + address_items_from(t@, s as int, idx as nat, mark)
                                =~= rows_view(out@) + address_items_from(t@, ce + 1, n as nat, mark));
                            idx = n;
                            s = ce + 1;
                        },
                        None => {
                            s = after;
                        },
                    }
                }
            },
        }
    }
}

fn has_title_bytes(body: &[u8]) -> (res: bool)
    ensures
        res == has_title(body@),
{
    bytes_contains(body, TITLE_BRACE.as_bytes()) || bytes_contains(body, TITLE_SPACE.as_bytes())
}

fn has_author_bytes(body: &[u8]) -> (res: bool)
    ensures
        res == has_author(body@),
{
    bytes_contains(body, AUTHOR_BRACE.as_bytes()) || bytes_contains(body, AUTHOR_SPACE.as_bytes())
}

fn metadata_items_bytes(pre: &[u8], ht: bool, ha: bool) -> (res: Vec<Vec<u8>>)
    ensures
        rows_view(res@) == metadata_items(pre@, ht, ha),
{
    let m = build_address_label_map(pre);
    let none: Vec<(usize, usize)> = Vec::new();
    let mut out: Vec<Vec<u8>> = Vec::new();
    if !ht {
        let v = collect_items(pre, TITLE, true, ParserKind::Title, &m, &none);
        append_rows(&mut out, v);
    }
    if !ha {
        let v = collect_items(pre, AUTHOR, true, ParserKind::Author, &m, &none);
        append_rows(&mut out, v);
        let v = collect_items(pre, AUTHORS, true, ParserKind::Simple, &m, &none);
        append_rows(&mut out, v);
    }
    let v = collect_items(pre, AFFILIATIONS, true, ParserKind::Simple, &m, &none);
    append_rows(&mut out, v);
    let v = collect_items(pre, AFFILIATION, true, ParserKind::OptThenBraced, &m, &none);
    append_rows(&mut out, v);
    let v = address_items(pre, m.len() > 0);
    append_rows(&mut out, v);
    let v = collect_items(pre, INSTITUTE, true, ParserKind::Institute, &m, &none);
    append_rows(&mut out, v);
    if !bytes_contains(pre, INSTITUTE_CMD.as_bytes()) {
        let v = collect_items(pre, INST, true, ParserKind::Simple, &m, &none);
        append_rows(&mut out, v);
    }
    let v = collect_items(pre, ABST, true, ParserKind::Abst, &m, &none);
    append_rows(&mut out, v);
    let v = collect_items(pre, EMAIL, true, ParserKind::OptThenBraced, &m, &none);
    append_rows(&mut out, v);
    let v = collect_items(pre, EMAIL_ADD, true, ParserKind::Simple, &m, &none);
    append_rows(&mut out, v);
    proof {
        let e = Seq::<Seq<u8>>::empty();
        assert(e + Seq::<Seq<u8>>::empty() =~= e);
    }
    assert(rows_view(out@) =~= metadata_items(pre@, ht, ha));
    out
}

/// Title, authors, affiliations, addresses, abstract and e-mails written in
/// the preamble.
fn extract_preamble_metadata(f: &[u8]) -> (res: Vec<Vec<u8>>)
    ensures
        rows_view(res@) == preamble_metadata(f@),
{
    match find_bytes(f, BEGIN_DOCUMENT.as_bytes(), 0) {
        None => {
            let v: Vec<Vec<u8>> = Vec::new();
            assert(rows_view(v@) =~= Seq::<Seq<u8>>::empty());
            v
        },
        Some(d) => {
            let raw = &f[0..d];
            assert(raw@ =~= f@.subrange(0, d as int));
            let pre = remove_comments_bytes(raw);
            let body = &f[d + BEGIN_DOCUMENT.as_bytes().len()..f.len()];
            assert(body@ =~= f@.subrange(d + BEGIN_DOCUMENT.spec_bytes().len(), f@.len() as int));
            let ht = has_title_bytes(body);
            let ha = has_author_bytes(body);
            metadata_items_bytes(pre.as_slice(), ht, ha)
        },
    }
}

fn meta_ranges(t: &[u8], name: &str, out: &mut Vec<(usize, usize)>)
    ensures
        regions_view(final(out)@) == regions_view(old(out)@) + meta_ranges_from(
            t@,
            backslash_name(name.spec_bytes()),
            0,
        ),
{
    let pat = name_pattern(name);
    let ghost base = regions_view(old(out)@);
    let mut s: usize = 0;
    loop
        invariant
            s <= t.len(),
            base == regions_view(old(out)@),
            pat@ == backslash_name(name.spec_bytes()),
            pat@.len() > 0,
            regions_view(out@) + meta_ranges_from(t@, pat@, s as int) == base + meta_ranges_from(
                t@,
                pat@,
                0,
            ),
        decreases t.len() + 1 - s,
    {
        let ghost o = regions_view(out@);
        proof {
            lemma_find_from_bounds(t@, pat@, s as int);
        }
        match find_bytes(t, pat.as_slice(), s) {
            None => {
                assert(o + meta_ranges_from(t@, pat@, s as int) =~= o);
                return;
            },
            Some(p) => {
                let after = p + pat.len();
                if after < t.len() && is_alpha_byte(t[after]) {
                    s = after;
                } else {
                    let se = if after < t.len() && t[after] == 0x2a {
                        after + 1
                    } else {
                        after
                    };
                    let (_, ao) = opt_bracket_bytes(t, se);
                    match braced_after_bytes(t, ao) {
                        Some((_, ce)) => {
                            out.push((p, ce + 1));
                            assert(regions_view(out@) =~= o.push((p as int, ce + 1)));
                            assert(o + meta_ranges_from(t@, pat@, s as int) =~= regions_view(out@)
                                + meta_ranges_from(t@, pat@, ce + 1));
                            s = ce + 1;
                        },
                        None => {
                            s = after;
                        },
                    }
                }
            },
        }
    }
}

/// Ranges of the preamble's `\title` and `\author` blocks that give
/// metadata.
fn extract_preamble_metadata_ranges(f: &[u8]) -> (res: Vec<(usize, usize)>)
    ensures
        regions_view(res@) == metadata_ranges(f@),
{
    let mut out: Vec<(usize, usize)> = Vec::new();
    match find_bytes(f, BEGIN_DOCUMENT.as_bytes(), 0) {
        None => {
            assert(regions_view(out@) =~= Seq::<(int, int)>::empty());
            out
        },
        Some(d) => {
            let pre = &f[0..d];
            assert(pre@ =~= f@.subrange(0, d as int));
            let body = &f[d + BEGIN_DOCUMENT.as_bytes().len()..f.len()];
            assert(body@ =~= f@.subrange(d + BEGIN_DOCUMENT.spec_bytes().len(), f@.len() as int));
            if !has_title_bytes(body) {
                meta_ranges(pre, TITLE, &mut out);
            }
            if !has_author_bytes(body) {
                meta_ranges(pre, AUTHOR, &mut out);
            }
            assert(regions_view(out@) =~= metadata_ranges(f@));
            out
        },
    }
}

fn remark_items_bytes(pre: &[u8], r: &Vec<(usize, usize)>) -> (res: Vec<Vec<u8>>)
    ensures
        rows_view(res@) == remark_items(pre@, regions_view(r@)),
{
    let m: Vec<(Vec<u8>, usize)> = Vec::new();
    let mut out = collect_items(pre, THANKS, true, ParserKind::Remark, &m, r);
    let v = collect_items(pre, FOOTNOTE, true, ParserKind::Remark, &m, r);
    append_rows(&mut out, v);
    let v = collect_items(pre, FOOTNOTETEXT, false, ParserKind::Remark, &m, r);
    append_rows(&mut out, v);
    let v = collect_items(pre, FUNDING, true, ParserKind::Remark, &m, r);
    append_rows(&mut out, v);
    out
}

/// Remarks of the preamble, skipping those inside `exclude`.
fn extract_preamble_extras_excluding(f: &[u8], exclude: &Vec<(usize, usize)>) -> (res: Vec<Vec<u8>>)
    ensures
        rows_view(res@) == preamble_remarks(f@, regions_view(exclude@)),
{
    match find_bytes(f, BEGIN_DOCUMENT.as_bytes(), 0) {
        None => {
            let v: Vec<Vec<u8>> = Vec::new();
            assert(rows_view(v@) =~= Seq::<Seq<u8>>::empty());
            v
        },
        Some(d) => {
            let pre = &f[0..d];
            assert(pre@ =~= f@.subrange(0, d as int));
            remark_items_bytes(pre, exclude)
        },
    }
}

/// Each byte string decoded as text.
pub open spec fn lossy_rows(v: Seq<Seq<u8>>) -> Seq<Seq<char>> {
    v.map_values(|r: Seq<u8>| utf8_lossy(r))
}

/// The texts of a list of strings.
pub open spec fn string_views(v: Seq<String>) -> Seq<Seq<char>> {
    v.map_values(|s: String| s@)
}

fn strings_of(v: &Vec<Vec<u8>>) -> (res: Vec<String>)
    ensures
        string_views(res@) == lossy_rows(rows_view(v@)),
{
    let mut out: Vec<String> = Vec::new();
    let mut i: usize = 0;
    while i < v.len()
        invariant
            i <= v.len(),
            string_views(out@) == lossy_rows(rows_view(v@)).subrange(0, i as int),
        decreases v.len() - i,
    {
        let s = string_from_bytes(v[i].as_slice());
        let ghost before = string_views(out@);
        out.push(s);
        assert(string_views(out@) =~= before.push(s@));
        assert(lossy_rows(rows_view(v@)).subrange(0, i + 1) =~= lossy_rows(rows_view(v@)).subrange(
            0,
            i as int,
        ).push(utf8_lossy(v@[i as int]@)));
        i = i + 1;
    }
    assert(lossy_rows(rows_view(v@)).subrange(0, v@.len() as int) =~= lossy_rows(rows_view(v@)));
    out
}

/// Footnote-like remarks of the preamble (before `\begin{document}`):
/// the contents of `\thanks`, `\footnote`, `\footnotetext` and `\funding`.
pub fn extract_preamble_extras(file_content: &str) -> (res: Vec<String>)
    ensures
        string_views(res@) == lossy_rows(preamble_remarks(file_content.spec_bytes(), Seq::empty())),
{
    let none: Vec<(usize, usize)> = Vec::new();
    assert(regions_view(none@) =~= Seq::<(int, int)>::empty());
    let v = extract_preamble_extras_excluding(file_content.as_bytes(), &none);
    strings_of(&v)
}

fn line_start_bytes(t: &[u8], p: usize) -> (res: usize)
    requires
        p <= t.len(),
    ensures
        res as int == line_start(t@, p as int),
        res <= p,
{
    let mut i = p;
    while i > 0 && t[i - 1] != 0x0a
        invariant
            i <= p <= t.len(),
            line_start(t@, i as int) == line_start(t@, p as int),
        decreases i,
    {
        i = i - 1;
    }
    i
}

fn trim_front_start(t: &[u8], a: usize, b: usize) -> (res: usize)
    requires
        a <= b <= t.len(),
    ensures
        a <= res <= b,
        t@.subrange(res as int, b as int) == trim_front(t@.subrange(a as int, b as int)),
{
    let mut x = a;
    loop
        invariant
            a <= x <= b <= t.len(),
            trim_front(t@.subrange(x as int, b as int)) == trim_front(t@.subrange(a as int, b as int)),
        decreases b - x,
    {
        let n = ws_len_front_at(t, x, b);
        if n > 0 && n <= b - x {
            assert(t@.subrange(x as int, b as int).subrange(n as int, (b - x) as int) =~= t@.subrange(
                x + n,
                b as int,
            ));
            x = x + n;
        } else {
            return x;
        }
    }
}

/// The first uncommented `\end{document}`.
fn find_end_document(t: &[u8]) -> (res: Option<usize>)
    ensures
        end_document_from(t@, 0) == match res {
            Some(p) => Some(p as int),
            None => None,
        },
        res matches Some(p) ==> p <= t.len(),
{
    let ed = name_pattern(END_DOCUMENT_NAME);
    let mut s: usize = 0;
    loop
        invariant
            s <= t.len(),
            ed@ == backslash_name(END_DOCUMENT_NAME.spec_bytes()),
            ed@.len() > 0,
            end_document_from(t@, s as int) == end_document_from(t@, 0),
        decreases t.len() + 1 - s,
    {
        proof {
            lemma_find_from_bounds(t@, ed@, s as int);
        }
        match find_bytes(t, ed.as_slice(), s) {
            None => {
                return None;
            },
            Some(p) => {
                let ls = line_start_bytes(t, p);
                let st = trim_front_start(t, ls, p);
                let before = &t[st..p];
                assert(before@ =~= t@.subrange(st as int, p as int));
                if !bytes_starts_with(before, PERCENT.as_bytes()) {
                    return Some(p);
                }
                s = p + ed.len();
            },
        }
    }
}

/// The document body of a file.
fn body_bytes(f: &[u8]) -> (res: Vec<u8>)
    ensures
        res@ == body_text(f@),
{
    match find_bytes(f, BEGIN_DOCUMENT.as_bytes(), 0) {
        Some(d) => {
            let ab = d + BEGIN_DOCUMENT.as_bytes().len();
            let rest = &f[ab..f.len()];
            assert(rest@ =~= f@.subrange(ab as int, f@.len() as int));
            match find_end_document(rest) {
                Some(e) => slice_to_vec(rest, 0, e),
                None => slice_to_vec(rest, 0, rest.len()),
            }
        },
        None => slice_to_vec(f, 0, f.len()),
    }
}

/// Split a file into the preamble's extras and the document body.
///
/// The extras are the metadata given in the preamble (see
/// `preamble_metadata`) followed by its remarks outside the title and
/// author blocks; the body lies between `\begin{document}` and the first
/// uncommented `\end{document}`, or is the whole file without
/// `\begin{document}`.
pub fn extract_body(file_content: &str) -> (res: (Vec<String>, String))
    ensures
        string_views(res.0@) == lossy_rows(
            preamble_metadata(file_content.spec_bytes()) + preamble_remarks(
                file_content.spec_bytes(),
                metadata_ranges(file_content.spec_bytes()),
            ),
        ),
        res.1@ == utf8_lossy(body_text(file_content.spec_bytes())),
        vstd::utf8::valid_utf8(body_text(file_content.spec_bytes())),
        res.1@ == vstd::utf8::decode_utf8(body_text(file_content.spec_bytes())),
{
    proof {
        vstd::utf8::encode_utf8_valid_utf8(file_content@);
        lemma_body_text_utf8(file_content.spec_bytes());
    }
    let f = file_content.as_bytes();
    let mut extras = extract_preamble_metadata(f);
    let ranges = extract_preamble_metadata_ranges(f);
    let more = extract_preamble_extras_excluding(f, &ranges);
    append_rows(&mut extras, more);
    let body = body_bytes(f);
    (strings_of(&extras), string_from_bytes(body.as_slice()))
}

} // verus!
