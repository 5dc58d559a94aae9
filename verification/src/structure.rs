//! Sectioning, title-block and affiliation commands turned into plain-text
//! headers and numbered lists.

use vstd::prelude::*;
use vstd::string::StringSliceAdditionalSpecFns;
use crate::braces::{
    after_optional_arg, after_optional_arg_bytes, command_arg, command_arg_bytes, is_alpha,
    is_alpha_byte,
};
use crate::cleanup::{backslash_name, lemma_command_arg_bounds};
use crate::preamble::{
    addr_view, address_number, join_commas, label_numbers_from, label_pieces_from, lemma_opt_bracket,
    byte_end, institute_normalized, lemma_byte_end, numbered, opt_bracket, star_end, superscripted,
    ADDRESS, AND, INST, INSTITUTE, INST_OPEN,
};
use crate::macros::{all_digits, is_digit, unsigned_part};
use crate::outside::{captures_view, group_end, group_start, well_formed_captures};
use crate::references::{comma_end, lemma_comma_end};
use crate::regexes::{re_captures, re_captures_bytes, re_replace, re_replace_bytes};
use crate::cleanup::EMPTY;
use crate::references::lemma_after_optional_arg;
use crate::braces::{skip_blanks, skip_blanks_bytes};
use crate::scan::{
    replace_all_spec, bytes_match_at, contains, find_bytes, find_from, lemma_find_from_bounds, match_at, push_all,
    push_range, slice_to_vec, trim_ws,
};
use crate::text::{string_from_bytes, utf8_lossy};
use crate::textmap::{entries_insert, TextMap};
use crate::timing::{decimal, push_decimal};

verus! {

/// What happens where a command's name ends at `after`: `Ok((text, end))`
/// replaces the command up to `end` by `text`; `Err(r)` leaves it in place
/// and resumes the search at `r`.
pub type Step = spec_fn(Seq<u8>, int) -> Result<(Seq<u8>, int), int>;

/// The text from `le` on, with the occurrences of `pat` found scanning from
/// `s` handled as `step` says.
pub open spec fn scan_replace(t: Seq<u8>, pat: Seq<u8>, step: Step, s: int, le: int) -> Seq<u8>
    decreases t.len() + 1 - s,
{
    if s < 0 || s > t.len() || pat.len() == 0 {
        t.subrange(le, t.len() as int)
    } else {
        proof {
            lemma_find_from_bounds(t, pat, s);
        }
        match find_from(t, pat, s) {
            None => t.subrange(le, t.len() as int),
            Some(p) => {
                let after = p + pat.len();
                match step(t, after) {
                    Ok((rep, e)) => if after <= e <= t.len() {
                        t.subrange(le, p) + rep + scan_replace(t, pat, step, e, e)
                    } else {
                        t.subrange(le, t.len() as int)
                    },
                    Err(r) => if after <= r <= t.len() {
                        scan_replace(t, pat, step, r, le)
                    } else {
                        t.subrange(le, t.len() as int)
                    },
                }
            },
        }
    }
}

/// The argument of a sectioning-like command whose name ends at `after`
/// (an optional `*`, an optional `[...]`, then `{...}`): the content range
/// and the end, or where the search resumes.
pub open spec fn heading_arg(t: Seq<u8>, after: int) -> Result<(int, int, int), int> {
    let ce = star_end(t, after);
    if ce < t.len() && is_alpha(t[ce]) {
        Err(ce)
    } else {
        let ao = after_optional_arg(t, ce);
        match command_arg(t, ao) {
            Some((cs, cend, ac)) => Ok((cs, cend, ac)),
            None => Err(ao),
        }
    }
}

/// A heading command becomes `prefix`, its argument and a line break.
pub open spec fn heading_step(prefix: Seq<u8>) -> Step {
    |t: Seq<u8>, after: int|
        match heading_arg(t, after) {
            Ok((cs, ce, ac)) => Ok((prefix + t.subrange(cs, ce) + seq![0x0au8], ac)),
            Err(r) => Err(r),
        }
}

/// A paragraph command becomes its argument in bold, run into the text.
pub open spec fn bold_step() -> Step {
    |t: Seq<u8>, after: int|
        match heading_arg(t, after) {
            Ok((cs, ce, ac)) => Ok(
                (seq![0x0au8, 0x2au8, 0x2au8] + t.subrange(cs, ce) + seq![0x2au8, 0x2au8, 0x20u8], ac),
            ),
            Err(r) => Err(r),
        }
}

/// The ways a found command is handled.
pub enum StepKind {
    /// A heading with the given prefix.
    Heading(&'static str),
    /// A run-in bold paragraph title.
    Bold,
}

pub open spec fn step_of(k: StepKind) -> Step {
    match k {
        StepKind::Heading(prefix) => heading_step(prefix.spec_bytes()),
        StepKind::Bold => bold_step(),
    }
}

pub proof fn lemma_heading_arg(t: Seq<u8>, after: int)
    requires
        0 <= after <= t.len(),
    ensures
        match heading_arg(t, after) {
            Ok((cs, ce, ac)) => after < cs <= ce < ac <= t.len() && ac == ce + 1,
            Err(r) => after <= r <= t.len(),
        },
{
    let ce = star_end(t, after);
    if !(ce < t.len() && is_alpha(t[ce])) {
        lemma_after_optional_arg(t, ce);
        let ao = after_optional_arg(t, ce);
        lemma_command_arg_bounds(t, ao);
        crate::braces::lemma_skip_blanks_bounds(t, ao);
        let i = crate::braces::skip_blanks(t, ao);
        if 0 <= i < t.len() && t[i] == 0x7b {
            crate::braces::lemma_closing_brace_bounds(t, i + 1, 1);
        }
    }
}

fn heading_arg_bytes(t: &[u8], after: usize) -> (res: Result<(usize, usize, usize), usize>)
    requires
        after <= t.len(),
    ensures
        heading_arg(t@, after as int) == match res {
            Ok((cs, ce, ac)) => Ok((cs as int, ce as int, ac as int)),
            Err(r) => Err(r as int),
        },
        match res {
            Ok((cs, ce, ac)) => after < cs <= ce < ac <= t.len() && ac == ce + 1,
            Err(r) => after <= r <= t.len(),
        },
{
    proof {
        lemma_heading_arg(t@, after as int);
    }
    let ce = if after < t.len() && t[after] == 0x2a {
        after + 1
    } else {
        after
    };
    if ce < t.len() && is_alpha_byte(t[ce]) {
        return Err(ce);
    }
    let ao = after_optional_arg_bytes(t, ce);
    match command_arg_bytes(t, ao) {
        Some((cs, cend, ac)) => Ok((cs, cend, ac)),
        None => Err(ao),
    }
}

fn run_step(k: &StepKind, t: &[u8], after: usize) -> (res: Result<(Vec<u8>, usize), usize>)
    requires
        after <= t.len(),
    ensures
        match res {
            Ok((v, e)) => (step_of(*k))(t@, after as int) == Ok::<(Seq<u8>, int), int>((v@, e as int))
                && after <= e <= t.len(),
            Err(r) => (step_of(*k))(t@, after as int) == Err::<(Seq<u8>, int), int>(r as int) && after <= r
                <= t.len(),
        },
{
    match heading_arg_bytes(t, after) {
        Err(r) => {
            match k {
                StepKind::Heading(_) => {},
                StepKind::Bold => {},
            }
            Err(r)
        },
        Ok((cs, ce, ac)) => {
            let mut v: Vec<u8> = Vec::new();
            match k {
                StepKind::Heading(prefix) => {
                    push_all(&mut v, prefix.as_bytes());
                    push_range(&mut v, t, cs, ce);
                    v.push(0x0a);
                    assert(v@ =~= prefix.spec_bytes() + t@.subrange(cs as int, ce as int) + seq![0x0au8]);
                },
                StepKind::Bold => {
                    v.push(0x0a);
                    v.push(0x2a);
                    v.push(0x2a);
                    push_range(&mut v, t, cs, ce);
                    v.push(0x2a);
                    v.push(0x2a);
                    v.push(0x20);
                    assert(v@ =~= seq![0x0au8, 0x2au8, 0x2au8] + t@.subrange(cs as int, ce as int) + seq![
                        0x2au8,
                        0x2au8,
                        0x20u8,
                    ]);
                },
            }
            Ok((v, ac))
        },
    }
}

/// Replace each occurrence of `pat` in `t` as the step `k` says.
fn scan_replace_bytes(t: &[u8], pat: &[u8], k: &StepKind) -> (res: Vec<u8>)
    requires
        pat@.len() > 0,
    ensures
        res@ == scan_replace(t@, pat@, step_of(*k), 0, 0),
{
    let ghost step = step_of(*k);
    let mut out: Vec<u8> = Vec::new();
    let mut le: usize = 0;
    let mut s: usize = 0;
    loop
        invariant
            le <= s <= t.len(),
            pat@.len() > 0,
            step == step_of(*k),
            out@ + scan_replace(t@, pat@, step, s as int, le as int) == scan_replace(t@, pat@, step, 0, 0),
        decreases t.len() + 1 - s,
    {
        let ghost o = out@;
        proof {
            lemma_find_from_bounds(t@, pat@, s as int);
        }
        match find_bytes(t, pat, s) {
            None => {
                push_range(&mut out, t, le, t.len());
                return out;
            },
            Some(p) => {
                let after = p + pat.len();
                match run_step(k, t, after) {
                    Ok((rep, e)) => {
                        push_range(&mut out, t, le, p);
                        push_all(&mut out, rep.as_slice());
                        assert(o + (t@.subrange(le as int, p as int) + rep@ + scan_replace(
                            t@,
                            pat@,
                            step,
                            e as int,
                            e as int,
                        )) =~= out@ + scan_replace(t@, pat@, step, e as int, e as int));
                        le = e;
                        s = e;
                    },
                    Err(r) => {
                        s = r;
                    },
                }
            },
        }
    }
}

/// `\name` as bytes.
fn command_pattern(name: &str) -> (res: Vec<u8>)
    ensures
        res@ == backslash_name(name.spec_bytes()),
        res@.len() > 0,
{
    let mut v: Vec<u8> = Vec::new();
    v.push(0x5c);
    push_all(&mut v, name.as_bytes());
    assert(v@ =~= backslash_name(name.spec_bytes()));
    v
}

/// `\cmd[opt]{x}` (or `\cmd*{x}`) becomes `prefix`, `x` and a line break.
fn replace_sectioning_command(t: &[u8], cmd_name: &str, prefix: &'static str) -> (res: Vec<u8>)
    ensures
        res@ == scan_replace(t@, backslash_name(cmd_name.spec_bytes()), heading_step(prefix.spec_bytes()), 0, 0),
{
    let pat = command_pattern(cmd_name);
    scan_replace_bytes(t, pat.as_slice(), &StepKind::Heading(prefix))
}

/// `\cmd[opt]{x}` becomes `**x**` on a new line, run into the text.
fn replace_paragraph_command(t: &[u8], cmd_name: &str) -> (res: Vec<u8>)
    ensures
        res@ == scan_replace(t@, backslash_name(cmd_name.spec_bytes()), bold_step(), 0, 0),
{
    let pat = command_pattern(cmd_name);
    scan_replace_bytes(t, pat.as_slice(), &StepKind::Bold)
}

// ---------------------------------------------------------------------------
// Numbered sections
// ---------------------------------------------------------------------------

/// The numbered sectioning commands, outermost first.
pub open spec fn section_names() -> Seq<&'static str> {
    seq!["chapter", "section", "subsection", "subsubsection"]
}

/// The header prefix of each numbered sectioning command.
pub open spec fn section_prefixes() -> Seq<&'static str> {
    seq!["\n# ", "\n## ", "\n### ", "\n#### "]
}

fn section_name_list() -> (res: Vec<&'static str>)
    ensures
        res@ == section_names(),
{
    vec!["chapter", "section", "subsection", "subsubsection"]
}

fn section_prefix_list() -> (res: Vec<&'static str>)
    ensures
        res@ == section_prefixes(),
{
    vec!["\n# ", "\n## ", "\n### ", "\n#### "]
}

/// The first occurrence of `\name` of command `i` found from `s`: its
/// position and where its name (with an optional `*`) ends; none when a
/// letter follows, as the command is then another one.
pub open spec fn section_candidate(t: Seq<u8>, s: int, i: int) -> Option<(int, int)> {
    let pat = backslash_name(section_names()[i].spec_bytes());
    match find_from(t, pat, s) {
        None => None,
        Some(p) => {
            let ce = star_end(t, p + pat.len());
            if ce < t.len() && is_alpha(t[ce]) {
                None
            } else {
                Some((p, ce))
            }
        },
    }
}

/// The earliest candidate among the first `n` commands (the outer command
/// wins a tie): position, name end and command index.
pub open spec fn earliest_section(t: Seq<u8>, s: int, n: int) -> Option<(int, int, int)>
    decreases n,
{
    if n <= 0 {
        None
    } else {
        let prev = earliest_section(t, s, n - 1);
        match section_candidate(t, s, n - 1) {
            None => prev,
            Some((p, ce)) => match prev {
                None => Some((p, ce, n - 1)),
                Some((bp, _, _)) => if p < bp {
                    Some((p, ce, n - 1))
                } else {
                    prev
                },
            },
        }
    }
}

pub proof fn lemma_earliest_section(t: Seq<u8>, s: int, n: int)
    requires
        0 <= s,
        n <= 4,
    ensures
        earliest_section(t, s, n) matches Some((p, ce, i)) ==> 0 <= i < n && s <= p && p
            + backslash_name(section_names()[i].spec_bytes()).len() <= ce <= t.len() && ce == star_end(
            t,
            p + backslash_name(section_names()[i].spec_bytes()).len(),
        ),
    decreases n,
{
    if n > 0 {
        lemma_earliest_section(t, s, n - 1);
        let pat = backslash_name(section_names()[n - 1].spec_bytes());
        lemma_find_from_bounds(t, pat, s);
    }
}

/// Counters after a section at depth `d`: that level counts one more and
/// the deeper levels restart.
pub open spec fn bumped(c: Seq<nat>, d: int) -> Seq<nat> {
    Seq::new(4, |i: int| if i < d { c[i] } else if i == d { c[d] + 1 } else { 0 })
}

/// The first level from `i` up to `d` whose counter is positive (`d` when
/// none is).
pub open spec fn first_positive(c: Seq<nat>, d: int, i: int) -> int
    decreases d - i,
{
    if i >= d {
        d
    } else if c[i] > 0 {
        i
    } else {
        first_positive(c, d, i + 1)
    }
}

/// The counters of levels `a` to `d`, joined by dots.
pub open spec fn joined_numbers(c: Seq<nat>, a: int, d: int) -> Seq<u8>
    decreases d - a,
{
    if a >= d {
        decimal(c[d])
    } else {
        decimal(c[a]) + seq![0x2eu8] + joined_numbers(c, a + 1, d)
    }
}

/// The number of a section at depth `d`, such as `1.2.3`: the counters
/// from the outermost level in use down to `d`.
pub open spec fn section_number(c: Seq<nat>, d: int) -> Seq<u8> {
    joined_numbers(c, first_positive(c, d, 0), d)
}

proof fn lemma_first_positive_same(c: Seq<nat>, c2: Seq<nat>, d: int, i: int)
    requires
        forall|j: int| i <= j < d ==> c[j] == c2[j],
    ensures
        first_positive(c, d, i) == first_positive(c2, d, i),
    decreases d - i,
{
    if i < d {
        lemma_first_positive_same(c, c2, d, i + 1);
    }
}

proof fn lemma_first_positive_bounds(c: Seq<nat>, d: int, i: int)
    requires
        i <= d,
    ensures
        i <= first_positive(c, d, i) <= d,
        first_positive(c, d, i) < d ==> c[first_positive(c, d, i)] > 0,
    decreases d - i,
{
    if i < d && c[i] == 0 {
        lemma_first_positive_bounds(c, d, i + 1);
    }
}

/// A positive counter at `d` stops the search one level further down at
/// the same place.
proof fn lemma_first_positive_extend(c: Seq<nat>, d: int, i: int)
    requires
        0 <= i <= d,
        c[d] > 0,
    ensures
        first_positive(c, d + 1, i) == first_positive(c, d, i),
    decreases d - i,
{
    if i < d && c[i] == 0 {
        lemma_first_positive_extend(c, d, i + 1);
    }
}

proof fn lemma_joined_extend(c: Seq<nat>, c2: Seq<nat>, a: int, d: int)
    requires
        a <= d,
        forall|j: int| a <= j <= d ==> c[j] == c2[j],
    ensures
        joined_numbers(c2, a, d + 1) == joined_numbers(c, a, d) + seq![0x2eu8] + decimal(c2[d + 1]),
    decreases d - a,
{
    if a < d {
        lemma_joined_extend(c, c2, a + 1, d);
        assert(decimal(c2[a]) + seq![0x2eu8] + (joined_numbers(c, a + 1, d) + seq![0x2eu8] + decimal(c2[d + 1]))
            =~= decimal(c[a]) + seq![0x2eu8] + joined_numbers(c, a + 1, d) + seq![0x2eu8] + decimal(c2[d + 1]));
    } else {
        assert(joined_numbers(c2, d + 1, d + 1) == decimal(c2[d + 1]));
    }
}

proof fn lemma_joined_same(c: Seq<nat>, c2: Seq<nat>, a: int, d: int)
    requires
        a <= d,
        forall|j: int| a <= j <= d ==> c[j] == c2[j],
    ensures
        joined_numbers(c, a, d) == joined_numbers(c2, a, d),
    decreases d - a,
{
    if a < d {
        lemma_joined_same(c, c2, a + 1, d);
    }
}

/// A heading one level below a numbered heading, with none in between,
/// is numbered as that heading followed by `.1`: each numbered heading
/// restarts the counting of the levels below it (`\section{A}` numbered
/// `2.` makes the next `\subsection` `2.1.`).
pub proof fn law_subheading_numbering_restarts(c: Seq<nat>, d: int)
    requires
        c.len() == 4,
        0 <= d < 3,
    ensures
        section_number(bumped(bumped(c, d), d + 1), d + 1) == section_number(bumped(c, d), d) + seq![
            0x2eu8,
            0x31u8,
        ],
{
    let c2 = bumped(c, d);
    let c3 = bumped(c2, d + 1);
    assert(c2[d] > 0);
    assert(c3[d + 1] == 1);
    lemma_first_positive_same(c2, c3, d + 1, 0);
    lemma_first_positive_extend(c2, d, 0);
    lemma_first_positive_bounds(c2, d, 0);
    let a = first_positive(c2, d, 0);
    lemma_joined_extend(c2, c3, a, d);
    assert(decimal(1) =~= seq![0x31u8]);
}

/// A numbered heading at depth `d` counts one more than the counter of its
/// level, and its number does not depend on the counters of the deeper
/// levels.
pub proof fn law_heading_number_counts_its_level(c: Seq<nat>, c_other: Seq<nat>, d: int)
    requires
        c.len() == 4,
        c_other.len() == 4,
        0 <= d < 4,
        forall|j: int| 0 <= j <= d ==> c[j] == c_other[j],
    ensures
        bumped(c, d)[d] == c[d] + 1,
        forall|j: int| 0 <= j < d ==> bumped(c, d)[j] == c[j],
        section_number(bumped(c, d), d) == section_number(bumped(c_other, d), d),
{
    let b1 = bumped(c, d);
    let b2 = bumped(c_other, d);
    lemma_first_positive_same(b1, b2, d, 0);
    lemma_first_positive_bounds(b1, d, 0);
    lemma_joined_same(b1, b2, first_positive(b1, d, 0), d);
}

pub const LABEL_NAME: &'static str = "label";

/// The key of a `\label{key}` that follows a heading ending at `ac`, after
/// blanks.
pub open spec fn label_after(t: Seq<u8>, ac: int) -> Option<Seq<u8>> {
    let ls = skip_blanks(t, ac);
    let pat = backslash_name(LABEL_NAME.spec_bytes());
    if match_at(t, pat, ls) {
        match command_arg(t, ls + pat.len()) {
            Some((a, b, _)) => Some(t.subrange(a, b)),
            None => None,
        }
    } else {
        None
    }
}

/// The text from `le` on with the numbered sectioning commands found from
/// `s` turned into numbered headers, counting from `c`; and the
/// (label, number) pairs of the labels that directly follow a numbered
/// header, in order.
pub open spec fn numbered_from(t: Seq<u8>, s: int, le: int, c: Seq<nat>) -> (Seq<u8>, Seq<(Seq<u8>, Seq<u8>)>)
    decreases t.len() + 1 - s,
{
    if s < 0 || s > t.len() {
        (t.subrange(le, t.len() as int), Seq::empty())
    } else {
        match earliest_section(t, s, 4) {
            None => (t.subrange(le, t.len() as int), Seq::empty()),
            Some((p, ce, i)) => {
                let plen = backslash_name(section_names()[i].spec_bytes()).len();
                if !(s <= p && p + plen <= ce <= t.len() && plen > 0) {
                    (t.subrange(le, t.len() as int), Seq::empty())
                } else {
                    let ao = after_optional_arg(t, ce);
                    match command_arg(t, ao) {
                        None => numbered_from(t, ce, le, c),
                        Some((cs, cend, ac)) => if !(ce < ac <= t.len()) {
                            (t.subrange(le, t.len() as int), Seq::empty())
                        } else {
                            let head = t.subrange(le, p) + section_prefixes()[i].spec_bytes();
                            let title = t.subrange(cs, cend) + seq![0x0au8];
                            if ce > p + plen {
                                let r = numbered_from(t, ac, ac, c);
                                (head + title + r.0, r.1)
                            } else {
                                let c2 = bumped(c, i);
                                let num = section_number(c2, i);
                                let r = numbered_from(t, ac, ac, c2);
                                let here: Seq<(Seq<u8>, Seq<u8>)> = match label_after(t, ac) {
                                    Some(k) => seq![(k, num)],
                                    None => Seq::empty(),
                                };
                                (head + num + seq![0x2eu8, 0x20u8] + title + r.0, here + r.1)
                            }
                        },
                    }
                }
            },
        }
    }
}

/// At a numbered (unstarred) heading of depth `i`, the heading is written
/// with the number `section_number(bumped(c, i), i)` and everything after
/// it is numbered from the counters `bumped(c, i)`: one more at its level,
/// the deeper levels restarted.
pub proof fn law_numbered_heading_step(
    t: Seq<u8>,
    s: int,
    le: int,
    c: Seq<nat>,
    p: int,
    i: int,
    cs: int,
    cend: int,
    ac: int,
)
    requires
        0 <= s <= t.len(),
        earliest_section(t, s, 4) == Some((p, p + backslash_name(section_names()[i].spec_bytes()).len(), i)),
        command_arg(t, after_optional_arg(t, p + backslash_name(section_names()[i].spec_bytes()).len())) == Some(
            (cs, cend, ac),
        ),
        p + backslash_name(section_names()[i].spec_bytes()).len() < ac <= t.len(),
    ensures
        numbered_from(t, s, le, c).0 == t.subrange(le, p) + section_prefixes()[i].spec_bytes() + section_number(
            bumped(c, i),
            i,
        ) + seq![0x2eu8, 0x20u8] + t.subrange(cs, cend) + seq![0x0au8] + numbered_from(t, ac, ac, bumped(c, i)).0,
{
    lemma_earliest_section(t, s, 4);
    let plen = backslash_name(section_names()[i].spec_bytes()).len();
    assert(plen > 0);
    let head = t.subrange(le, p) + section_prefixes()[i].spec_bytes();
    let title = t.subrange(cs, cend) + seq![0x0au8];
    let num = section_number(bumped(c, i), i);
    let r = numbered_from(t, ac, ac, bumped(c, i));
    assert(numbered_from(t, s, le, c).0 == head + num + seq![0x2eu8, 0x20u8] + title + r.0);
    assert(head + num + seq![0x2eu8, 0x20u8] + title + r.0 =~= t.subrange(le, p) + section_prefixes()[i].spec_bytes()
        + num + seq![0x2eu8, 0x20u8] + t.subrange(cs, cend) + seq![0x0au8] + r.0);
}

/// The map entries after inserting each (key, value) pair in order.
pub open spec fn inserted_all(e: Seq<(Seq<char>, Seq<char>)>, ins: Seq<(Seq<u8>, Seq<u8>)>) -> Seq<(Seq<char>, Seq<char>)>
    decreases ins.len(),
{
    if ins.len() == 0 {
        e
    } else {
        inserted_all(entries_insert(e, utf8_lossy(ins[0].0), utf8_lossy(ins[0].1)), ins.drop_first())
    }
}

pub open spec fn counters_view(c: Seq<usize>) -> Seq<nat> {
    c.map_values(|x: usize| x as nat)
}

fn earliest_section_bytes(t: &[u8], s: usize, pats: &Vec<Vec<u8>>) -> (res: Option<(usize, usize, usize)>)
    requires
        s <= t.len(),
        pats.len() == 4,
        forall|i: int| 0 <= i < 4 ==> (#[trigger] pats@[i])@ == backslash_name(section_names()[i].spec_bytes()),
    ensures
        earliest_section(t@, s as int, 4) == match res {
            Some((p, ce, i)) => Some((p as int, ce as int, i as int)),
            None => None,
        },
{
    let mut best: Option<(usize, usize, usize)> = None;
    let mut i: usize = 0;
    while i < 4
        invariant
            i <= 4,
            s <= t.len(),
            pats.len() == 4,
            forall|j: int| 0 <= j < 4 ==> (#[trigger] pats@[j])@ == backslash_name(section_names()[j].spec_bytes()),
            earliest_section(t@, s as int, i as int) == match best {
                Some((p, ce, k)) => Some((p as int, ce as int, k as int)),
                None => None,
            },
        decreases 4 - i,
    {
        let pat = &pats[i];
        assert(pat@ == backslash_name(section_names()[i as int].spec_bytes()));
        match find_bytes(t, pat.as_slice(), s) {
            None => {},
            Some(p) => {
                let after = p + pat.len();
                let ce = if after < t.len() && t[after] == 0x2a {
                    after + 1
                } else {
                    after
                };
                if !(ce < t.len() && is_alpha_byte(t[ce])) {
                    match best {
                        None => {
                            best = Some((p, ce, i));
                        },
                        Some((bp, _, _)) => {
                            if p < bp {
                                best = Some((p, ce, i));
                            }
                        },
                    }
                }
            },
        }
        i = i + 1;
    }
    best
}

/// Append the dotted number of a section at depth `d`.
fn push_section_number(out: &mut Vec<u8>, c: &Vec<usize>, d: usize)
    requires
        c.len() == 4,
        d < 4,
    ensures
        final(out)@ == old(out)@ + section_number(counters_view(c@), d as int),
{
    let ghost cv = counters_view(c@);
    let mut top: usize = 0;
    while top < d && c[top] == 0
        invariant
            top <= d < 4,
            c.len() == 4,
            cv == counters_view(c@),
            first_positive(cv, d as int, top as int) == first_positive(cv, d as int, 0),
        decreases d - top,
    {
        top = top + 1;
    }
    assert(first_positive(cv, d as int, top as int) == top);
    let ghost base = out@;
    let mut a = top;
    while a < d
        invariant
            top <= a <= d < 4,
            c.len() == 4,
            cv == counters_view(c@),
            base == old(out)@,
            out@ + joined_numbers(cv, a as int, d as int) == base + joined_numbers(cv, top as int, d as int),
        decreases d - a,
    {
        let ghost o = out@;
        push_decimal(out, c[a] as u64);
        out.push(0x2e);
        assert(o + joined_numbers(cv, a as int, d as int) =~= out@ + joined_numbers(cv, a + 1, d as int));
        a = a + 1;
    }
    let ghost o = out@;
    push_decimal(out, c[d] as u64);
    assert(out@ =~= o + joined_numbers(cv, d as int, d as int));
}

fn label_after_bytes(t: &[u8], ac: usize, lpat: &[u8]) -> (res: Option<(usize, usize)>)
    requires
        ac <= t.len(),
        lpat@ == backslash_name(LABEL_NAME.spec_bytes()),
    ensures
        label_after(t@, ac as int) == match res {
            Some((a, b)) => Some(t@.subrange(a as int, b as int)),
            None => None,
        },
        res matches Some((a, b)) ==> a <= b <= t.len(),
{
    let ls = skip_blanks_bytes(t, ac);
    if bytes_match_at(t, lpat, ls) {
        match command_arg_bytes(t, ls + lpat.len()) {
            Some((a, b, _)) => Some((a, b)),
            None => None,
        }
    } else {
        None
    }
}

/// Turn `\chapter`, `\section`, `\subsection` and `\subsubsection` into
/// numbered headers, and record in `section_label_map` the number of each
/// section whose `\label` directly follows its header.
fn replace_numbered_sections(t: &[u8], section_label_map: &mut TextMap) -> (res: Vec<u8>)
    ensures
        res@ == numbered_from(t@, 0, 0, seq![0nat, 0nat, 0nat, 0nat]).0,
        final(section_label_map).entry_seq() == inserted_all(
            old(section_label_map).entry_seq(),
            numbered_from(t@, 0, 0, seq![0nat, 0nat, 0nat, 0nat]).1,
        ),
{
    let names = section_name_list();
    let prefixes = section_prefix_list();
    let mut pats: Vec<Vec<u8>> = Vec::new();
    let mut j: usize = 0;
    while j < 4
        invariant
            j <= 4,
            names@ == section_names(),
            pats.len() == j,
            forall|k: int| 0 <= k < j ==> (#[trigger] pats@[k])@ == backslash_name(section_names()[k].spec_bytes()),
        decreases 4 - j,
    {
        pats.push(command_pattern(names[j]));
        j = j + 1;
    }
    let lpat = command_pattern(LABEL_NAME);
    let ghost full = numbered_from(t@, 0, 0, seq![0nat, 0nat, 0nat, 0nat]);
    let ghost e0 = section_label_map.entry_seq();
    let mut c: Vec<usize> = vec![0, 0, 0, 0];
    assert(counters_view(c@) =~= seq![0nat, 0nat, 0nat, 0nat]);
    let mut out: Vec<u8> = Vec::new();
    let mut le: usize = 0;
    let mut s: usize = 0;
    loop
        invariant
            le <= s <= t.len(),
            c.len() == 4,
            forall|k: int| 0 <= k < 4 ==> c@[k] <= s,
            prefixes@ == section_prefixes(),
            pats.len() == 4,
            forall|k: int| 0 <= k < 4 ==> (#[trigger] pats@[k])@ == backslash_name(section_names()[k].spec_bytes()),
            lpat@ == backslash_name(LABEL_NAME.spec_bytes()),
            full == numbered_from(t@, 0, 0, seq![0nat, 0nat, 0nat, 0nat]),
            e0 == old(section_label_map).entry_seq(),
            out@ + numbered_from(t@, s as int, le as int, counters_view(c@)).0 == full.0,
            inserted_all(section_label_map.entry_seq(), numbered_from(t@, s as int, le as int, counters_view(c@)).1)
                == inserted_all(e0, full.1),
        decreases t.len() + 1 - s,
    {
        let ghost cv = counters_view(c@);
        let ghost o = out@;
        proof {
            lemma_earliest_section(t@, s as int, 4);
        }
        match earliest_section_bytes(t, s, &pats) {
            None => {
                push_range(&mut out, t, le, t.len());
                assert(inserted_all(section_label_map.entry_seq(), Seq::empty())
                    == section_label_map.entry_seq());
                return out;
            },
            Some((p, ce, i)) => {
                assert(pats@[i as int]@ == backslash_name(section_names()[i as int].spec_bytes()));
                let plen = pats[i].len();
                let ao = after_optional_arg_bytes(t, ce);
                match command_arg_bytes(t, ao) {
                    None => {
                        assert(c@[0] <= ce && c@[1] <= ce && c@[2] <= ce && c@[3] <= ce);
                        s = ce;
                    },
                    Some((cs, cend, ac)) => {
                        push_range(&mut out, t, le, p);
                        push_all(&mut out, prefixes[i].as_bytes());
                        if ce > p + plen {
                            push_range(&mut out, t, cs, cend);
                            out.push(0x0a);
                            assert(o + numbered_from(t@, s as int, le as int, cv).0 =~= out@ + numbered_from(
                                t@,
                                ac as int,
                                ac as int,
                                cv,
                            ).0);
                        } else {
                            let ghost c0 = c@;
                            c.set(i, c[i] + 1);
                            let mut k = i + 1;
                            while k < 4
                                invariant
                                    i < k <= 4,
                                    c.len() == 4,
                                    forall|m: int| 0 <= m < k ==> c@[m] == if m < i {
                                        c0[m]
                                    } else if m == i {
                                        (c0[m] + 1) as usize
                                    } else {
                                        0
                                    },
                                    forall|m: int| k <= m < 4 ==> c@[m] == c0[m],
                                decreases 4 - k,
                            {
                                c.set(k, 0);
                                k = k + 1;
                            }
                            assert(counters_view(c@) =~= bumped(cv, i as int));
                            let ghost c2 = counters_view(c@);
                            let ghost num = section_number(c2, i as int);
                            let mut numv: Vec<u8> = Vec::new();
                            push_section_number(&mut numv, &c, i);
                            push_all(&mut out, numv.as_slice());
                            out.push(0x2e);
                            out.push(0x20);
                            push_range(&mut out, t, cs, cend);
                            out.push(0x0a);
                            assert(o + numbered_from(t@, s as int, le as int, cv).0 =~= out@ + numbered_from(
                                t@,
                                ac as int,
                                ac as int,
                                c2,
                            ).0);
                            match label_after_bytes(t, ac, lpat.as_slice()) {
                                Some((a, b)) => {
                                    let ghost m0 = section_label_map.entry_seq();
                                    let ghost rest = numbered_from(t@, ac as int, ac as int, c2).1;
                                    let ks = &t[a..b];
                                    assert(ks@ =~= t@.subrange(a as int, b as int));
                                    let key = string_from_bytes(ks);
                                    let val = string_from_bytes(numv.as_slice());
                                    section_label_map.insert(key, val);
                                    assert((seq![(t@.subrange(a as int, b as int), num)] + rest).drop_first() =~= rest);
                                },
                                None => {
                                    assert(Seq::<(Seq<u8>, Seq<u8>)>::empty() + numbered_from(
                                        t@,
                                        ac as int,
                                        ac as int,
                                        c2,
                                    ).1 =~= numbered_from(t@, ac as int, ac as int, c2).1);
                                },
                            }
                        }
                        le = ac;
                        s = ac;
                    },
                }
            },
        }
    }
}

// ---------------------------------------------------------------------------
// REVTeX authors and affiliations
// ---------------------------------------------------------------------------

pub const AUTHOR_NAME: &'static str = "author";

pub const AFFILIATION_NAME: &'static str = "affiliation";

pub const ALTAFFILIATION_NAME: &'static str = "altaffiliation";

/// The kind of a REVTeX title-block command.
#[derive(Clone, Copy)]
pub enum EntryKind {
    Author,
    Affiliation,
    AltAffiliation,
}

/// A title-block command as found: kind, start, end and braced content.
pub type Entry = (EntryKind, int, int, Seq<u8>);

pub open spec fn is_author(k: EntryKind) -> bool {
    k is Author
}

/// `\author`, `\affiliation` or `\altaffiliation`.
pub open spec fn kind_pattern(k: EntryKind) -> Seq<u8> {
    match k {
        EntryKind::Author => backslash_name(AUTHOR_NAME.spec_bytes()),
        EntryKind::Affiliation => backslash_name(AFFILIATION_NAME.spec_bytes()),
        EntryKind::AltAffiliation => backslash_name(ALTAFFILIATION_NAME.spec_bytes()),
    }
}

/// The earliest of the three next occurrences (the one listed first wins a
/// tie).
pub open spec fn first_candidate(na: Option<int>, nf: Option<int>, nl: Option<int>) -> Option<(int, EntryKind)> {
    let c1 = match na {
        Some(p) => Some((p, EntryKind::Author)),
        None => None,
    };
    let c2 = match nf {
        Some(p) => match c1 {
            Some((q, _)) => if p < q {
                Some((p, EntryKind::Affiliation))
            } else {
                c1
            },
            None => Some((p, EntryKind::Affiliation)),
        },
        None => c1,
    };
    match nl {
        Some(p) => match c2 {
            Some((q, _)) => if p < q {
                Some((p, EntryKind::AltAffiliation))
            } else {
                c2
            },
            None => Some((p, EntryKind::AltAffiliation)),
        },
        None => c2,
    }
}

pub open spec fn prepend(e: Entry, rest: Option<Seq<Entry>>) -> Option<Seq<Entry>> {
    match rest {
        Some(r) => Some(seq![e] + r),
        None => None,
    }
}

/// The `\author`, `\affiliation` and `\altaffiliation` commands found
/// scanning from `s`, in order; `None` when an `\author` has a `[label]`,
/// which is the labelled style handled elsewhere.
pub open spec fn revtex_entries_from(t: Seq<u8>, s: int) -> Option<Seq<Entry>>
    decreases t.len() + 1 - s,
{
    if s < 0 || s > t.len() {
        Some(Seq::empty())
    } else {
        let na = find_from(t, kind_pattern(EntryKind::Author), s);
        let nf0 = find_from(t, kind_pattern(EntryKind::Affiliation), s);
        let nl = find_from(t, kind_pattern(EntryKind::AltAffiliation), s);
        let nf = if nf0 is Some && nl is Some && nf0 == nl {
            None
        } else {
            nf0
        };
        match first_candidate(na, nf, nl) {
            None => Some(Seq::empty()),
            Some((p, k)) => {
                let after = p + kind_pattern(k).len();
                if !(s <= p && after <= t.len() && kind_pattern(k).len() > 0) {
                    Some(Seq::empty())
                } else if after < t.len() && is_alpha(t[after]) {
                    revtex_entries_from(t, after)
                } else {
                    let ao = match k {
                        EntryKind::AltAffiliation => opt_bracket(t, after).1,
                        _ => after,
                    };
                    let ws = skip_blanks(t, after);
                    if is_author(k) && ws < t.len() && t[ws] == 0x5b {
                        None
                    } else if !(after <= ao <= t.len()) {
                        Some(Seq::empty())
                    } else {
                        match command_arg(t, ao) {
                            Some((cs, ce, ac)) => if ao < ac <= t.len() {
                                prepend((k, p, ac, t.subrange(cs, ce)), revtex_entries_from(t, ac))
                            } else {
                                Some(Seq::empty())
                            },
                            None => revtex_entries_from(t, after),
                        }
                    }
                }
            },
        }
    }
}

/// How many of the first `n` entries have kind `k`.
pub open spec fn count_kind(es: Seq<Entry>, author: bool, n: int) -> nat
    decreases n,
{
    if n <= 0 {
        0
    } else {
        count_kind(es, author, n - 1) + if (author && es[n - 1].0 is Author) || (!author
            && es[n - 1].0 is Affiliation) {
            1nat
        } else {
            0nat
        }
    }
}

/// The distinct trimmed affiliation texts of the first `n` entries, in
/// order of first appearance.
pub open spec fn affil_names(es: Seq<Entry>, n: int) -> Seq<Seq<u8>>
    decreases n,
{
    if n <= 0 {
        Seq::empty()
    } else {
        let l = affil_names(es, n - 1);
        let c = trim_ws(es[n - 1].3);
        if !is_author(es[n - 1].0) && !l.contains(c) {
            l.push(c)
        } else {
            l
        }
    }
}

/// The first position of `x` in `l` from `i` on (`l.len()` when absent).
pub open spec fn position_of(l: Seq<Seq<u8>>, x: Seq<u8>, i: int) -> int
    decreases l.len() - i,
{
    if i < 0 || i >= l.len() {
        l.len() as int
    } else if l[i] == x {
        i
    } else {
        position_of(l, x, i + 1)
    }
}

/// Whether entry `j` gives its affiliation to the author at entry `a`: an
/// `\affiliation` applies to every author since the previous
/// `\affiliation`, an `\altaffiliation` to the author just before it.
pub open spec fn applies(es: Seq<Entry>, a: int, j: int) -> bool {
    match es[j].0 {
        EntryKind::Affiliation => forall|k: int| a < k < j ==> !(#[trigger] es[k].0 is Affiliation),
        EntryKind::AltAffiliation => forall|k: int| a < k < j ==> !(#[trigger] es[k].0 is Author),
        EntryKind::Author => false,
    }
}

/// The affiliation numbers of the author at entry `a` given by entries
/// `a + 1 .. n`, each once, in order.
pub open spec fn author_marks(es: Seq<Entry>, l: Seq<Seq<u8>>, a: int, n: int) -> Seq<nat>
    decreases n - a,
{
    if n <= a + 1 {
        Seq::empty()
    } else {
        let prev = author_marks(es, l, a, n - 1);
        let j = n - 1;
        if applies(es, a, j) {
            let idx = (position_of(l, trim_ws(es[j].3), 0) + 1) as nat;
            if prev.contains(idx) {
                prev
            } else {
                prev.push(idx)
            }
        } else {
            prev
        }
    }
}

/// Numbers in decimal, joined by commas.
pub open spec fn commas_decimal(m: Seq<nat>) -> Seq<u8>
    decreases m.len(),
{
    if m.len() == 0 {
        Seq::empty()
    } else if m.len() == 1 {
        decimal(m[0])
    } else {
        commas_decimal(m.drop_last()) + seq![0x2cu8] + decimal(m.last())
    }
}

/// The numbered affiliation list: one line per affiliation, its number in
/// superscript.
pub open spec fn affil_block(l: Seq<Seq<u8>>, n: int) -> Seq<u8>
    decreases n,
{
    if n <= 0 {
        Seq::empty()
    } else {
        affil_block(l, n - 1) + superscripted(decimal(n as nat)) + seq![0x20u8] + l[n - 1] + seq![0x0au8]
    }
}

/// The output from entry `k` on, the text before `le` already written:
/// each author on its own line with its affiliation numbers in
/// superscript; the affiliation list once, where the first affiliation
/// command stood.
pub open spec fn revtex_out_from(t: Seq<u8>, es: Seq<Entry>, l: Seq<Seq<u8>>, k: int, le: int, emitted: bool) -> Seq<u8>
    decreases es.len() - k,
{
    if k < 0 || k >= es.len() {
        t.subrange(le, t.len() as int)
    } else {
        let e = es[k];
        if is_author(e.0) {
            t.subrange(le, e.1) + seq![0x0au8] + e.3 + superscripted(
                commas_decimal(author_marks(es, l, k, es.len() as int)),
            ) + revtex_out_from(t, es, l, k + 1, e.2, emitted)
        } else {
            t.subrange(le, e.1) + (if emitted {
                Seq::empty()
            } else {
                seq![0x0au8] + affil_block(l, l.len() as int)
            }) + revtex_out_from(t, es, l, k + 1, e.2, true)
        }
    }
}

/// REVTeX `superscriptaddress` style: with two or more `\author{..}` (none
/// with a `[label]`) and at least one `\affiliation{..}`, each author gets
/// the numbers of its affiliations and the affiliations become one
/// numbered list; other text is left as it is.
pub open spec fn revtex_converted(t: Seq<u8>) -> Seq<u8> {
    if !contains(t, kind_pattern(EntryKind::Author)) || !contains(t, kind_pattern(EntryKind::Affiliation)) {
        t
    } else {
        match revtex_entries_from(t, 0) {
            None => t,
            Some(es) => if count_kind(es, true, es.len() as int) < 2 || count_kind(es, false, es.len() as int)
                == 0 {
                t
            } else {
                revtex_out_from(t, es, affil_names(es, es.len() as int), 0, 0, false)
            },
        }
    }
}

pub open spec fn entries_view(v: Seq<(EntryKind, usize, usize, Vec<u8>)>) -> Seq<Entry> {
    v.map_values(|e: (EntryKind, usize, usize, Vec<u8>)| (e.0, e.1 as int, e.2 as int, e.3@))
}

pub open spec fn prepend_all(done: Seq<Entry>, rest: Option<Seq<Entry>>) -> Option<Seq<Entry>> {
    match rest {
        Some(r) => Some(done + r),
        None => None,
    }
}

fn first_candidate_bytes(na: Option<usize>, nf: Option<usize>, nl: Option<usize>) -> (res: Option<(usize, EntryKind)>)
    ensures
        first_candidate(
            match na {
                Some(p) => Some(p as int),
                None => None,
            },
            match nf {
                Some(p) => Some(p as int),
                None => None,
            },
            match nl {
                Some(p) => Some(p as int),
                None => None,
            },
        ) == match res {
            Some((p, k)) => Some((p as int, k)),
            None => None,
        },
        res matches Some((p, k)) ==> (k is Author ==> na == Some(p)) && (k is Affiliation ==> nf == Some(p))
            && (k is AltAffiliation ==> nl == Some(p)),
{
    let c1: Option<(usize, EntryKind)> = match na {
        Some(p) => Some((p, EntryKind::Author)),
        None => None,
    };
    let c2: Option<(usize, EntryKind)> = match nf {
        Some(p) => match c1 {
            Some((q, _)) => if p < q {
                Some((p, EntryKind::Affiliation))
            } else {
                c1
            },
            None => Some((p, EntryKind::Affiliation)),
        },
        None => c1,
    };
    match nl {
        Some(p) => match c2 {
            Some((q, _)) => if p < q {
                Some((p, EntryKind::AltAffiliation))
            } else {
                c2
            },
            None => Some((p, EntryKind::AltAffiliation)),
        },
        None => c2,
    }
}

/// Scan the title-block commands; `None` for the labelled style.
fn revtex_entries(t: &[u8], pats: &Vec<Vec<u8>>) -> (res: Option<Vec<(EntryKind, usize, usize, Vec<u8>)>>)
    requires
        pats.len() == 3,
        pats@[0]@ == kind_pattern(EntryKind::Author),
        pats@[1]@ == kind_pattern(EntryKind::Affiliation),
        pats@[2]@ == kind_pattern(EntryKind::AltAffiliation),
    ensures
        revtex_entries_from(t@, 0) == match res {
            Some(v) => Some(entries_view(v@)),
            None => None,
        },
        res matches Some(v) ==> forall|k: int|
            0 <= k < v.len() ==> (#[trigger] v@[k]).1 < v@[k].2 <= t.len() && (k > 0 ==> v@[k - 1].2
                <= v@[k].1),
{
    let mut es: Vec<(EntryKind, usize, usize, Vec<u8>)> = Vec::new();
    let mut s: usize = 0;
    loop
        invariant
            s <= t.len(),
            pats.len() == 3,
            pats@[0]@ == kind_pattern(EntryKind::Author),
            pats@[1]@ == kind_pattern(EntryKind::Affiliation),
            pats@[2]@ == kind_pattern(EntryKind::AltAffiliation),
            revtex_entries_from(t@, 0) == prepend_all(entries_view(es@), revtex_entries_from(t@, s as int)),
            forall|k: int|
                0 <= k < es.len() ==> (#[trigger] es@[k]).1 < es@[k].2 <= s && (k > 0 ==> es@[k - 1].2
                    <= es@[k].1),
        decreases t.len() + 1 - s,
    {
        let ghost ev = entries_view(es@);
        proof {
            lemma_find_from_bounds(t@, kind_pattern(EntryKind::Author), s as int);
            lemma_find_from_bounds(t@, kind_pattern(EntryKind::Affiliation), s as int);
            lemma_find_from_bounds(t@, kind_pattern(EntryKind::AltAffiliation), s as int);
        }
        let na = find_bytes(t, pats[0].as_slice(), s);
        let nf0 = find_bytes(t, pats[1].as_slice(), s);
        let nl = find_bytes(t, pats[2].as_slice(), s);
        let nf = match (nf0, nl) {
            (Some(f), Some(a)) => if f == a {
                None
            } else {
                nf0
            },
            _ => nf0,
        };
        match first_candidate_bytes(na, nf, nl) {
            None => {
                assert(entries_view(es@) + Seq::<Entry>::empty() =~= entries_view(es@));
                return Some(es);
            },
            Some((p, k)) => {
                let pat: &Vec<u8> = match k {
                    EntryKind::Author => &pats[0],
                    EntryKind::Affiliation => &pats[1],
                    EntryKind::AltAffiliation => &pats[2],
                };
                assert(pat@ == kind_pattern(k));
                let after = p + pat.len();
                if after < t.len() && is_alpha_byte(t[after]) {
                    s = after;
                } else {
                    let ao = match k {
                        EntryKind::AltAffiliation => opt_bracket_end(t, after),
                        _ => after,
                    };
                    let ws = skip_blanks_bytes(t, after);
                    let authored = match k {
                        EntryKind::Author => true,
                        _ => false,
                    };
                    if authored && ws < t.len() && t[ws] == 0x5b {
                        return None;
                    }
                    match command_arg_bytes(t, ao) {
                        Some((cs, ce, ac)) => {
                            let content = slice_to_vec(t, cs, ce);
                            let ghost e: Entry = (k, p as int, ac as int, content@);
                            es.push((k, p, ac, content));
                            proof {
                                assert(entries_view(es@) =~= ev.push(e));
                                assert(ev + (seq![e] + revtex_entries_from(t@, ac as int)->0) =~= ev.push(e)
                                    + revtex_entries_from(t@, ac as int)->0);
                            }
                            s = ac;
                        },
                        None => {
                            s = after;
                        },
                    }
                }
            },
        }
    }
}

fn opt_bracket_end(t: &[u8], pos: usize) -> (res: usize)
    requires
        pos <= t.len(),
    ensures
        res as int == opt_bracket(t@, pos as int).1,
        pos <= res <= t.len(),
{
    let (_, e) = crate::preamble::opt_bracket_bytes(t, pos);
    e
}

/// Number of authors (`author`) or of plain affiliations among entries.
fn count_entries(es: &Vec<(EntryKind, usize, usize, Vec<u8>)>, author: bool) -> (res: usize)
    ensures
        res as int == count_kind(entries_view(es@), author, es@.len() as int),
{
    let ghost ev = entries_view(es@);
    let mut n: usize = 0;
    let mut i: usize = 0;
    while i < es.len()
        invariant
            i <= es.len(),
            n <= i,
            ev == entries_view(es@),
            n as int == count_kind(ev, author, i as int),
        decreases es.len() - i,
    {
        let hit = match es[i].0 {
            EntryKind::Author => author,
            EntryKind::Affiliation => !author,
            EntryKind::AltAffiliation => false,
        };
        if hit {
            n = n + 1;
        }
        i = i + 1;
    }
    n
}

/// Position of `x` in `l` (its length when absent).
fn position_in(l: &Vec<Vec<u8>>, x: &[u8]) -> (res: usize)
    ensures
        res as int == position_of(crate::scan::rows_view(l@), x@, 0),
        res <= l.len(),
{
    let ghost lv = crate::scan::rows_view(l@);
    let mut i: usize = 0;
    while i < l.len()
        invariant
            i <= l.len(),
            lv == crate::scan::rows_view(l@),
            position_of(lv, x@, i as int) == position_of(lv, x@, 0),
        decreases l.len() - i,
    {
        if crate::scan::bytes_eq(l[i].as_slice(), x) {
            return i;
        }
        i = i + 1;
    }
    i
}

proof fn lemma_position_of(l: Seq<Seq<u8>>, x: Seq<u8>, i: int)
    requires
        0 <= i,
    ensures
        i <= position_of(l, x, i) <= l.len() || (i > l.len() && position_of(l, x, i) == l.len()),
        position_of(l, x, i) < l.len() ==> l[position_of(l, x, i)] == x,
        (forall|k: int| i <= k < l.len() ==> l[k] != x) ==> position_of(l, x, i) >= l.len(),
        (exists|k: int| i <= k < l.len() && l[k] == x) ==> position_of(l, x, i) < l.len(),
    decreases l.len() - i,
{
    if i < l.len() && l[i] != x {
        lemma_position_of(l, x, i + 1);
    }
}

/// The distinct trimmed affiliation texts.
fn affil_name_list(es: &Vec<(EntryKind, usize, usize, Vec<u8>)>) -> (res: Vec<Vec<u8>>)
    ensures
        crate::scan::rows_view(res@) == affil_names(entries_view(es@), es@.len() as int),
{
    let ghost ev = entries_view(es@);
    let mut l: Vec<Vec<u8>> = Vec::new();
    let mut i: usize = 0;
    while i < es.len()
        invariant
            i <= es.len(),
            ev == entries_view(es@),
            crate::scan::rows_view(l@) == affil_names(ev, i as int),
        decreases es.len() - i,
    {
        let authored = match es[i].0 {
            EntryKind::Author => true,
            _ => false,
        };
        if !authored {
            let c = es[i].3.as_slice();
            let (a, b) = crate::scan::trim_ws_range(c, 0, c.len());
            let tc = slice_to_vec(c, a, b);
            assert(c@.subrange(0, c@.len() as int) =~= c@);
            assert(tc@ == trim_ws(ev[i as int].3));
            let pos = position_in(&l, tc.as_slice());
            let ghost lv = crate::scan::rows_view(l@);
            proof {
                lemma_position_of(lv, tc@, 0);
            }
            if pos == l.len() {
                proof {
                    if lv.contains(tc@) {
                        let w = choose|w: int| 0 <= w < lv.len() && lv[w] == tc@;
                        assert(lv[w] == tc@);
                    }
                }
                l.push(tc);
                assert(crate::scan::rows_view(l@) =~= lv.push(trim_ws(ev[i as int].3)));
            } else {
                assert(lv[pos as int] == tc@);
                assert(lv.contains(tc@));
            }
        }
        i = i + 1;
    }
    l
}

/// Append the affiliation numbers of the author at entry `a`.
fn push_author_marks(out: &mut Vec<u8>, es: &Vec<(EntryKind, usize, usize, Vec<u8>)>, l: &Vec<Vec<u8>>, a: usize)
    requires
        a < es.len(),
        l.len() < usize::MAX,
    ensures
        final(out)@ == old(out)@ + superscripted(
            commas_decimal(author_marks(entries_view(es@), crate::scan::rows_view(l@), a as int, es@.len() as int)),
        ),
{
    let ghost ev = entries_view(es@);
    let ghost lv = crate::scan::rows_view(l@);
    let mut marks: Vec<usize> = Vec::new();
    let mut pending = true;
    let mut last = true;
    let mut j: usize = a + 1;
    while j < es.len()
        invariant
            a < j <= es.len(),
            l.len() < usize::MAX,
            ev == entries_view(es@),
            lv == crate::scan::rows_view(l@),
            marks@.map_values(|x: usize| x as nat) == author_marks(ev, lv, a as int, j as int),
            pending == forall|k: int| a < k < j ==> !(#[trigger] ev[k].0 is Affiliation),
            last == forall|k: int| a < k < j ==> !(#[trigger] ev[k].0 is Author),
            forall|m: int| 0 <= m < marks.len() ==> marks@[m] <= l.len() + 1,
        decreases es.len() - j,
    {
        let ghost mv = marks@.map_values(|x: usize| x as nat);
        let (hit, is_aff, is_auth) = match es[j].0 {
            EntryKind::Author => (false, false, true),
            EntryKind::Affiliation => (pending, true, false),
            EntryKind::AltAffiliation => (last, false, false),
        };
        assert(hit == applies(ev, a as int, j as int));
        if hit {
            let c = es[j].3.as_slice();
            let (x, y) = crate::scan::trim_ws_range(c, 0, c.len());
            assert(c@.subrange(0, c@.len() as int) =~= c@);
            let tc = &c[x..y];
            assert(tc@ =~= trim_ws(ev[j as int].3));
            let idx = position_in(l, tc) + 1;
            let mut found = false;
            let mut m: usize = 0;
            while m < marks.len()
                invariant
                    m <= marks.len(),
                    found == exists|q: int| 0 <= q < m && marks@[q] == idx,
                decreases marks.len() - m,
            {
                if marks[m] == idx {
                    found = true;
                }
                m = m + 1;
            }
            proof {
                if found {
                    let q = choose|q: int| 0 <= q < marks.len() && marks@[q] == idx;
                    assert(mv[q] == idx as nat);
                    assert(mv.contains(idx as nat));
                } else {
                    if mv.contains(idx as nat) {
                        let q = choose|q: int| 0 <= q < mv.len() && mv[q] == idx as nat;
                        assert(marks@[q] == idx);
                    }
                }
            }
            if !found {
                marks.push(idx);
                assert(marks@.map_values(|x: usize| x as nat) =~= mv.push(idx as nat));
            }
        }
        if is_aff {
            pending = false;
        }
        if is_auth {
            last = false;
        }
        j = j + 1;
    }
    let ghost mv = marks@.map_values(|x: usize| x as nat);
    let mut buf: Vec<u8> = Vec::new();
    let mut m: usize = 0;
    while m < marks.len()
        invariant
            m <= marks.len(),
            mv == marks@.map_values(|x: usize| x as nat),
            buf@ == commas_decimal(mv.subrange(0, m as int)),
        decreases marks.len() - m,
    {
        let ghost b = buf@;
        if m > 0 {
            buf.push(0x2c);
        }
        push_decimal(&mut buf, marks[m] as u64);
        assert(mv.subrange(0, m + 1).drop_last() =~= mv.subrange(0, m as int));
        assert(buf@ =~= commas_decimal(mv.subrange(0, m + 1)));
        m = m + 1;
    }
    assert(mv.subrange(0, marks.len() as int) =~= mv);
    crate::preamble::push_superscripted(out, buf.as_slice());
}

proof fn lemma_affil_names_len(es: Seq<Entry>, n: int)
    requires
        0 <= n <= es.len(),
    ensures
        affil_names(es, n).len() + count_kind(es, true, n) <= n,
    decreases n,
{
    if n > 0 {
        lemma_affil_names_len(es, n - 1);
    }
}

/// Append the numbered affiliation list.
fn push_affil_block(out: &mut Vec<u8>, l: &Vec<Vec<u8>>)
    ensures
        final(out)@ == old(out)@ + affil_block(crate::scan::rows_view(l@), l@.len() as int),
{
    let ghost lv = crate::scan::rows_view(l@);
    let ghost base = old(out)@;
    let mut n: usize = 0;
    while n < l.len()
        invariant
            n <= l.len(),
            lv == crate::scan::rows_view(l@),
            base == old(out)@,
            out@ == base + affil_block(lv, n as int),
        decreases l.len() - n,
    {
        let ghost o = out@;
        let mut num: Vec<u8> = Vec::new();
        push_decimal(&mut num, (n + 1) as u64);
        crate::preamble::push_superscripted(out, num.as_slice());
        out.push(0x20);
        push_all(out, l[n].as_slice());
        out.push(0x0a);
        assert(out@ =~= o + (superscripted(decimal((n + 1) as nat)) + seq![0x20u8] + lv[n as int] + seq![0x0au8]));
        n = n + 1;
    }
}

/// Link REVTeX authors to their affiliations by superscript numbers.
#[verifier::rlimit(40)]
#[verifier::spinoff_prover]
fn convert_revtex_author_affiliation(t: &[u8]) -> (res: Vec<u8>)
    ensures
        res@ == revtex_converted(t@),
{
    let mut pats: Vec<Vec<u8>> = Vec::new();
    pats.push(command_pattern(AUTHOR_NAME));
    pats.push(command_pattern(AFFILIATION_NAME));
    pats.push(command_pattern(ALTAFFILIATION_NAME));
    let whole = slice_to_vec(t, 0, t.len());
    assert(whole@ =~= t@);
    if !crate::scan::bytes_contains(t, pats[0].as_slice()) || !crate::scan::bytes_contains(t, pats[1].as_slice()) {
        return whole;
    }
    let es = match revtex_entries(t, &pats) {
        None => {
            return whole;
        },
        Some(v) => v,
    };
    let ghost ev = entries_view(es@);
    if count_entries(&es, true) < 2 || count_entries(&es, false) == 0 {
        return whole;
    }
    let l = affil_name_list(&es);
    let ghost lv = crate::scan::rows_view(l@);
    proof {
        lemma_affil_names_len(ev, ev.len() as int);
    }
    assert(l.len() < usize::MAX);
    let mut out: Vec<u8> = Vec::new();
    let mut le: usize = 0;
    let mut emitted = false;
    let mut k: usize = 0;
    while k < es.len()
        invariant
            k <= es.len(),
            ev == entries_view(es@),
            lv == crate::scan::rows_view(l@),
            lv == affil_names(ev, ev.len() as int),
            l.len() < usize::MAX,
            forall|i: int|
                0 <= i < es.len() ==> (#[trigger] es@[i]).1 < es@[i].2 <= t.len() && (i > 0 ==> es@[i - 1].2
                    <= es@[i].1),
            k == 0 ==> le == 0,
            k > 0 ==> le == es@[k - 1].2,
            le <= t.len(),
            out@ + revtex_out_from(t@, ev, lv, k as int, le as int, emitted) == revtex_out_from(
                t@,
                ev,
                lv,
                0,
                0,
                false,
            ),
        decreases es.len() - k,
    {
        let ghost o = out@;
        let st = es[k].1;
        let en = es[k].2;
        assert(le <= st);
        push_range(&mut out, t, le, st);
        match es[k].0 {
            EntryKind::Author => {
                out.push(0x0a);
                push_all(&mut out, es[k].3.as_slice());
                push_author_marks(&mut out, &es, &l, k);
                assert(o + revtex_out_from(t@, ev, lv, k as int, le as int, emitted) =~= out@
                    + revtex_out_from(t@, ev, lv, k + 1, en as int, emitted));
            },
            _ => {
                if !emitted {
                    out.push(0x0a);
                    push_affil_block(&mut out, &l);
                }
                assert(o + revtex_out_from(t@, ev, lv, k as int, le as int, emitted) =~= out@
                    + revtex_out_from(t@, ev, lv, k + 1, en as int, true));
                emitted = true;
            },
        }
        le = en;
        k = k + 1;
    }
    push_range(&mut out, t, le, t.len());
    out
}

// ---------------------------------------------------------------------------
// Labelled authors and addresses
// ---------------------------------------------------------------------------

/// Whether some `\address` found from `s` has a `[label]`.
pub open spec fn has_labeled_address_from(t: Seq<u8>, s: int) -> bool
    decreases t.len() + 1 - s,
{
    let pat = backslash_name(ADDRESS.spec_bytes());
    if s < 0 || s > t.len() {
        false
    } else {
        proof {
            lemma_find_from_bounds(t, pat, s);
        }
        match find_from(t, pat, s) {
            None => false,
            Some(p) => {
                let after = p + pat.len();
                if after < t.len() && is_alpha(t[after]) {
                    has_labeled_address_from(t, after)
                } else {
                    let i = skip_blanks(t, after);
                    if i < t.len() && t[i] == 0x5b {
                        true
                    } else {
                        has_labeled_address_from(t, after)
                    }
                }
            },
        }
    }
}

/// A labelled address: start, end, labels and content.
pub type Address = (int, int, Seq<u8>, Seq<u8>);

/// The `\address[labels]{x}` commands found scanning from `s`.
pub open spec fn labeled_addresses_from(t: Seq<u8>, s: int) -> Seq<Address>
    decreases t.len() + 1 - s,
{
    let pat = backslash_name(ADDRESS.spec_bytes());
    if s < 0 || s > t.len() {
        Seq::empty()
    } else {
        proof {
            lemma_find_from_bounds(t, pat, s);
        }
        match find_from(t, pat, s) {
            None => Seq::empty(),
            Some(p) => {
                let after = p + pat.len();
                if after < t.len() && is_alpha(t[after]) {
                    labeled_addresses_from(t, after)
                } else {
                    proof {
                        lemma_opt_bracket(t, after);
                    }
                    let (lab, ab) = opt_bracket(t, after);
                    match lab {
                        Some(ls) => match command_arg(t, ab) {
                            Some((cs, ce, ac)) => if after < ac <= t.len() {
                                seq![(p, ac, ls, t.subrange(cs, ce))] + labeled_addresses_from(t, ac)
                            } else {
                                Seq::empty()
                            },
                            None => labeled_addresses_from(t, after),
                        },
                        None => labeled_addresses_from(t, after),
                    }
                }
            },
        }
    }
}

/// The labels of the first `n` addresses, each with its address number
/// (the later binding of a label wins on lookup).
pub open spec fn address_label_map(es: Seq<Address>, n: int) -> Seq<(Seq<u8>, nat)>
    decreases n,
{
    if n <= 0 {
        Seq::empty()
    } else {
        address_label_map(es, n - 1) + numbered(label_pieces_from(es[n - 1].2, 0), n as nat)
    }
}

/// An address on its own line, after its number in superscript.
#[verifier::opaque]
pub open spec fn address_text(n: nat, c: Seq<u8>) -> Seq<u8> {
    seq![0x0au8] + superscripted(decimal(n)) + seq![0x20u8] + c + seq![0x0au8]
}

/// The text from `le` with addresses from `k` on replaced by numbered lines.
pub open spec fn addresses_out(t: Seq<u8>, es: Seq<Address>, k: int, le: int) -> Seq<u8>
    decreases es.len() - k,
{
    if k < 0 || k >= es.len() {
        t.subrange(le, t.len() as int)
    } else {
        t.subrange(le, es[k].0) + address_text((k + 1) as nat, es[k].3) + addresses_out(t, es, k + 1, es[k].1)
    }
}

/// `\author[labels]{x}` becomes `x` on its own line with the numbers of the
/// labelled addresses in superscript.
pub open spec fn labeled_author_step(m: Seq<(Seq<u8>, nat)>) -> Step {
    |t: Seq<u8>, after: int|
        if after < t.len() && is_alpha(t[after]) {
            Err(after)
        } else {
            let (lab, ab) = opt_bracket(t, after);
            match lab {
                Some(ls) => match command_arg(t, ab) {
                    Some((cs, ce, ac)) => Ok(
                        (seq![0x0au8] + t.subrange(cs, ce) + superscripted(join_commas(label_numbers_from(ls, m, 0))), ac),
                    ),
                    None => Err(after),
                },
                None => Err(after),
            }
        }
}

/// Elsevier style: when an `\address` has a `[label]`, the labelled
/// addresses become a numbered list and each `\author[labels]{x}` is
/// followed by the numbers of its addresses.
pub open spec fn labeled_converted(t: Seq<u8>) -> Seq<u8> {
    if !has_labeled_address_from(t, 0) {
        t
    } else {
        let es = labeled_addresses_from(t, 0);
        let m = address_label_map(es, es.len() as int);
        if m.len() == 0 {
            t
        } else {
            scan_replace(
                addresses_out(t, es, 0, 0),
                backslash_name(AUTHOR_NAME.spec_bytes()),
                labeled_author_step(m),
                0,
                0,
            )
        }
    }
}

fn has_labeled_address(t: &[u8], pat: &[u8]) -> (res: bool)
    requires
        pat@ == backslash_name(ADDRESS.spec_bytes()),
    ensures
        res == has_labeled_address_from(t@, 0),
{
    let mut s: usize = 0;
    loop
        invariant
            s <= t.len(),
            pat@ == backslash_name(ADDRESS.spec_bytes()),
            has_labeled_address_from(t@, s as int) == has_labeled_address_from(t@, 0),
        decreases t.len() + 1 - s,
    {
        proof {
            lemma_find_from_bounds(t@, pat@, s as int);
        }
        match find_bytes(t, pat, s) {
            None => {
                return false;
            },
            Some(p) => {
                let after = p + pat.len();
                if after < t.len() && is_alpha_byte(t[after]) {
                    s = after;
                } else {
                    let i = skip_blanks_bytes(t, after);
                    if i < t.len() && t[i] == 0x5b {
                        return true;
                    }
                    s = after;
                }
            },
        }
    }
}

pub open spec fn addresses_view(v: Seq<(usize, usize, Vec<u8>, Vec<u8>)>) -> Seq<Address> {
    v.map_values(|e: (usize, usize, Vec<u8>, Vec<u8>)| (e.0 as int, e.1 as int, e.2@, e.3@))
}

fn labeled_addresses(t: &[u8], pat: &[u8]) -> (res: Vec<(usize, usize, Vec<u8>, Vec<u8>)>)
    requires
        pat@ == backslash_name(ADDRESS.spec_bytes()),
    ensures
        addresses_view(res@) == labeled_addresses_from(t@, 0),
        forall|k: int|
            0 <= k < res.len() ==> (#[trigger] res@[k]).0 < res@[k].1 <= t.len() && (k > 0 ==> res@[k
                - 1].1 <= res@[k].0),
        res.len() <= t.len(),
{
    let mut es: Vec<(usize, usize, Vec<u8>, Vec<u8>)> = Vec::new();
    let mut s: usize = 0;
    loop
        invariant
            s <= t.len(),
            es.len() <= s,
            pat@ == backslash_name(ADDRESS.spec_bytes()),
            addresses_view(es@) + labeled_addresses_from(t@, s as int) == labeled_addresses_from(t@, 0),
            forall|k: int|
                0 <= k < es.len() ==> (#[trigger] es@[k]).0 < es@[k].1 <= s && (k > 0 ==> es@[k - 1].1
                    <= es@[k].0),
        decreases t.len() + 1 - s,
    {
        let ghost ev = addresses_view(es@);
        proof {
            lemma_find_from_bounds(t@, pat@, s as int);
        }
        match find_bytes(t, pat, s) {
            None => {
                assert(ev + Seq::<Address>::empty() =~= ev);
                return es;
            },
            Some(p) => {
                let after = p + pat.len();
                if after < t.len() && is_alpha_byte(t[after]) {
                    s = after;
                } else {
                    let (lab, ab) = crate::preamble::opt_bracket_bytes(t, after);
                    let mut next = after;
                    match lab {
                        Some(ls) => match command_arg_bytes(t, ab) {
                            Some((cs, ce, ac)) => {
                                let content = slice_to_vec(t, cs, ce);
                                let ghost e: Address = (p as int, ac as int, ls@, content@);
                                es.push((p, ac, ls, content));
                                assert(addresses_view(es@) =~= ev.push(e));
                                assert(ev + (seq![e] + labeled_addresses_from(t@, ac as int)) =~= ev.push(e)
                                    + labeled_addresses_from(t@, ac as int));
                                next = ac;
                            },
                            None => {},
                        },
                        None => {},
                    }
                    s = next;
                }
            },
        }
    }
}

/// Replace `\author[labels]{x}` by `x` and the numbers of its addresses.
fn replace_labeled_authors(r: &[u8], pat: &[u8], m: &Vec<(Vec<u8>, usize)>) -> (res: Vec<u8>)
    requires
        pat@ == backslash_name(AUTHOR_NAME.spec_bytes()),
    ensures
        res@ == scan_replace(r@, pat@, labeled_author_step(addr_view(m@)), 0, 0),
{
    let ghost step = labeled_author_step(addr_view(m@));
    let mut out: Vec<u8> = Vec::new();
    let mut le: usize = 0;
    let mut s: usize = 0;
    loop
        invariant
            le <= s <= r.len(),
            pat@ == backslash_name(AUTHOR_NAME.spec_bytes()),
            step == labeled_author_step(addr_view(m@)),
            out@ + scan_replace(r@, pat@, step, s as int, le as int) == scan_replace(r@, pat@, step, 0, 0),
        decreases r.len() + 1 - s,
    {
        let ghost o = out@;
        proof {
            lemma_find_from_bounds(r@, pat@, s as int);
        }
        match find_bytes(r, pat, s) {
            None => {
                push_range(&mut out, r, le, r.len());
                return out;
            },
            Some(p) => {
                let after = p + pat.len();
                let mut next = after;
                if !(after < r.len() && is_alpha_byte(r[after])) {
                    let (lab, ab) = crate::preamble::opt_bracket_bytes(r, after);
                    match lab {
                        Some(ls) => match command_arg_bytes(r, ab) {
                            Some((cs, ce, ac)) => {
                                push_range(&mut out, r, le, p);
                                out.push(0x0a);
                                push_range(&mut out, r, cs, ce);
                                let nums = crate::preamble::label_numbers(ls.as_slice(), m);
                                let joined = crate::preamble::join_commas_bytes(&nums);
                                crate::preamble::push_superscripted(&mut out, joined.as_slice());
                                let ghost rep = seq![0x0au8] + r@.subrange(cs as int, ce as int) + superscripted(
                                    join_commas(label_numbers_from(ls@, addr_view(m@), 0)),
                                );
                                assert(step(r@, after as int) == Ok::<(Seq<u8>, int), int>((rep, ac as int)));
                                assert(o + (r@.subrange(le as int, p as int) + rep + scan_replace(
                                    r@,
                                    pat@,
                                    step,
                                    ac as int,
                                    ac as int,
                                )) =~= out@ + scan_replace(r@, pat@, step, ac as int, ac as int));
                                le = ac;
                                next = ac;
                            },
                            None => {},
                        },
                        None => {},
                    }
                }
                s = next;
            },
        }
    }
}

/// A numbered address line.
fn address_line(n: usize, content: &[u8]) -> (res: Vec<u8>)
    ensures
        res@ == address_text(n as nat, content@),
{
    reveal(address_text);
    let mut v: Vec<u8> = Vec::new();
    v.push(0x0a);
    let mut num: Vec<u8> = Vec::new();
    push_decimal(&mut num, n as u64);
    crate::preamble::push_superscripted(&mut v, num.as_slice());
    v.push(0x20);
    push_all(&mut v, content);
    v.push(0x0a);
    assert(v@ =~= seq![0x0au8] + superscripted(decimal(n as nat)) + seq![0x20u8] + content@ + seq![0x0au8]);
    v
}

/// Number the labelled `\address[label]{..}` commands and give each
/// `\author[labels]{..}` the numbers of its addresses.
fn convert_labeled_author_address(t: &[u8]) -> (res: Vec<u8>)
    ensures
        res@ == labeled_converted(t@),
{
    let apat = command_pattern(ADDRESS);
    let whole = slice_to_vec(t, 0, t.len());
    assert(whole@ =~= t@);
    if !has_labeled_address(t, apat.as_slice()) {
        return whole;
    }
    let es = labeled_addresses(t, apat.as_slice());
    let ghost ev = addresses_view(es@);
    let mut m: Vec<(Vec<u8>, usize)> = Vec::new();
    let mut i: usize = 0;
    while i < es.len()
        invariant
            i <= es.len(),
            es.len() <= t.len(),
            ev == addresses_view(es@),
            addr_view(m@) == address_label_map(ev, i as int),
        decreases es.len() - i,
    {
        crate::preamble::push_label_pieces(&mut m, es[i].2.as_slice(), i + 1);
        i = i + 1;
    }
    if m.len() == 0 {
        return whole;
    }
    let mut r: Vec<u8> = Vec::new();
    let mut le: usize = 0;
    let mut k: usize = 0;
    while k < es.len()
        invariant
            k <= es.len(),
            es.len() <= t.len(),
            ev == addresses_view(es@),
            forall|j: int|
                0 <= j < es.len() ==> (#[trigger] es@[j]).0 < es@[j].1 <= t.len() && (j > 0 ==> es@[j - 1].1
                    <= es@[j].0),
            k == 0 ==> le == 0,
            k > 0 ==> le == es@[k - 1].1,
            le <= t.len(),
            r@ + addresses_out(t@, ev, k as int, le as int) == addresses_out(t@, ev, 0, 0),
        decreases es.len() - k,
    {
        let ghost o = r@;
        let st = es[k].0;
        let en = es[k].1;
        let line = address_line(k + 1, es[k].3.as_slice());
        push_range(&mut r, t, le, st);
        push_all(&mut r, line.as_slice());
        proof {
            let rest = addresses_out(t@, ev, k + 1, en as int);
            assert(addresses_out(t@, ev, k as int, le as int) == t@.subrange(le as int, st as int) + line@ + rest);
            assert(o + (t@.subrange(le as int, st as int) + line@ + rest) =~= r@ + rest);
        }
        le = en;
        k = k + 1;
    }
    push_range(&mut r, t, le, t.len());
    let upat = command_pattern(AUTHOR_NAME);
    replace_labeled_authors(r.as_slice(), upat.as_slice(), &m)
}

// ---------------------------------------------------------------------------
// \institute blocks and \inst marks
// ---------------------------------------------------------------------------

pub const LABEL_KEY_PATTERN: &'static str = "\\\\label\\{([^{}]*)\\}";

pub const REF_KEY_PATTERN: &'static str = "\\\\ref\\{([^{}]*)\\}";

/// The value of a run of decimal digits.
pub open spec fn decimal_value(s: Seq<u8>) -> nat
    decreases s.len(),
{
    if s.len() == 0 {
        0
    } else {
        decimal_value(s.drop_last()) * 10 + (s.last() - 0x30) as nat
    }
}

/// An index written as an optional `+` and decimal digits that fit in a
/// `usize`, as `str::parse::<usize>` reads it.
pub open spec fn parsed_index(s: Seq<u8>) -> Option<nat> {
    let d = unsigned_part(s);
    if d.len() > 0 && all_digits(d) && decimal_value(d) <= usize::MAX {
        Some(decimal_value(d))
    } else {
        None
    }
}

/// The institutions of a block numbered with `\inst{n}`, from `s` on: each
/// trimmed, non-empty text after an `\inst{n}` up to the next one, with
/// `n` (or its rank among the kept ones when `n` is not a number).
pub open spec fn inst_entries_from(n: Seq<u8>, s: int, count: nat) -> Seq<(nat, Seq<u8>)>
    decreases n.len() + 1 - s,
{
    let ip = INST_OPEN.spec_bytes();
    if s < 0 || s > n.len() || ip.len() == 0 {
        Seq::empty()
    } else {
        proof {
            lemma_find_from_bounds(n, ip, s);
        }
        match find_from(n, ip, s) {
            None => Seq::empty(),
            Some(a) => {
                let ns = a + ip.len();
                proof {
                    lemma_byte_end(n, ns, 0x7d);
                }
                let close = byte_end(n, ns, 0x7d);
                if close >= n.len() {
                    Seq::empty()
                } else {
                    let idx = match parsed_index(trim_ws(n.subrange(ns, close))) {
                        Some(v) => v,
                        None => count + 1,
                    };
                    let ts = close + 1;
                    proof {
                        lemma_find_from_bounds(n, ip, ts);
                    }
                    let te = match find_from(n, ip, ts) {
                        Some(q) => q,
                        None => n.len() as int,
                    };
                    let entry = trim_ws(n.subrange(ts, te));
                    if entry.len() > 0 {
                        seq![(idx, entry)] + inst_entries_from(n, te, count + 1)
                    } else {
                        inst_entries_from(n, te, count)
                    }
                }
            },
        }
    }
}

/// The trimmed, non-empty pieces of `n` between `\and`s from `i` on, each
/// with its piece number (empty pieces count too), starting at `k`.
pub open spec fn and_entries_from(n: Seq<u8>, i: int, k: nat) -> Seq<(nat, Seq<u8>)>
    decreases n.len() + 1 - i,
{
    let sep = AND.spec_bytes();
    if i < 0 || i > n.len() || sep.len() == 0 {
        Seq::empty()
    } else {
        proof {
            lemma_find_from_bounds(n, sep, i);
        }
        let q = find_from(n, sep, i);
        let end = match q {
            Some(x) => x,
            None => n.len() as int,
        };
        let piece = trim_ws(n.subrange(i, end));
        let here = if piece.len() > 0 {
            seq![(k, piece)]
        } else {
            Seq::empty()
        };
        match q {
            Some(x) => here + and_entries_from(n, x + sep.len(), k + 1),
            None => here,
        }
    }
}

/// The numbered institutions of an `\institute` block.
pub open spec fn institute_pieces(content: Seq<u8>) -> Seq<(nat, Seq<u8>)> {
    let n = institute_normalized(content, 0);
    if !contains(n, AND.spec_bytes()) && contains(n, INST_OPEN.spec_bytes()) {
        inst_entries_from(n, 0, 0)
    } else {
        and_entries_from(n, 0, 1)
    }
}

/// The keys of the captures from `k` on (group 1 of each match).
pub open spec fn keys_from(x: Seq<u8>, caps: Seq<Seq<Option<(usize, usize)>>>, k: int) -> Seq<Seq<u8>>
    decreases caps.len() - k,
{
    if k < 0 || k >= caps.len() {
        Seq::empty()
    } else {
        let here = if caps[k].len() > 1 {
            match caps[k][1] {
                Some((a, b)) => if a <= b <= x.len() {
                    seq![x.subrange(a as int, b as int)]
                } else {
                    Seq::empty()
                },
                None => Seq::empty(),
            }
        } else {
            Seq::empty()
        };
        here + keys_from(x, caps, k + 1)
    }
}

/// The keys of the `\label{key}`s in a text.
pub open spec fn label_keys(x: Seq<u8>) -> Seq<Seq<u8>> {
    keys_from(x, re_captures(LABEL_KEY_PATTERN.spec_bytes(), x), 0)
}

/// An institution on its own line after its number in superscript, its
/// labels removed.
pub open spec fn piece_text(idx: nat, x: Seq<u8>) -> Seq<u8> {
    seq![0x0au8] + superscripted(decimal(idx)) + seq![0x20u8] + trim_ws(
        re_replace(LABEL_KEY_PATTERN.spec_bytes(), x, Seq::empty()),
    )
}

/// The lines of the first `n` institutions.
pub open spec fn pieces_out(ps: Seq<(nat, Seq<u8>)>, n: int) -> Seq<u8>
    decreases n,
{
    if n <= 0 {
        Seq::empty()
    } else {
        pieces_out(ps, n - 1) + piece_text(ps[n - 1].0, ps[n - 1].1)
    }
}

/// The (label, number) bindings of the first `n` institutions.
pub open spec fn pieces_binds(ps: Seq<(nat, Seq<u8>)>, n: int) -> Seq<(Seq<u8>, nat)>
    decreases n,
{
    if n <= 0 {
        Seq::empty()
    } else {
        pieces_binds(ps, n - 1) + numbered(label_keys(ps[n - 1].1), ps[n - 1].0)
    }
}

/// The text from `le` on with the `\institute{..}` blocks found from `s`
/// turned into numbered lines, and the label bindings they make.
pub open spec fn institute_from(t: Seq<u8>, s: int, le: int) -> (Seq<u8>, Seq<(Seq<u8>, nat)>)
    decreases t.len() + 1 - s,
{
    let pat = backslash_name(INSTITUTE.spec_bytes());
    if s < 0 || s > t.len() {
        (t.subrange(le, t.len() as int), Seq::empty())
    } else {
        proof {
            lemma_find_from_bounds(t, pat, s);
        }
        match find_from(t, pat, s) {
            None => (t.subrange(le, t.len() as int), Seq::empty()),
            Some(p) => {
                let after = p + pat.len();
                if after < t.len() && is_alpha(t[after]) {
                    institute_from(t, after, le)
                } else {
                    match command_arg(t, after) {
                        Some((cs, ce, ac)) => if after < ac <= t.len() {
                            let ps = institute_pieces(t.subrange(cs, ce));
                            let r = institute_from(t, ac, ac);
                            (
                                t.subrange(le, p) + pieces_out(ps, ps.len() as int) + seq![0x0au8] + r.0,
                                pieces_binds(ps, ps.len() as int) + r.1,
                            )
                        } else {
                            (t.subrange(le, t.len() as int), Seq::empty())
                        },
                        None => institute_from(t, after, le),
                    }
                }
            },
        }
    }
}

/// The key of the first `\ref{key}` in a text.
pub open spec fn ref_key(x: Seq<u8>) -> Option<Seq<u8>> {
    let caps = re_captures(REF_KEY_PATTERN.spec_bytes(), x);
    if caps.len() > 0 && caps[0].len() > 1 {
        match caps[0][1] {
            Some((a, b)) => if a <= b <= x.len() {
                Some(x.subrange(a as int, b as int))
            } else {
                None
            },
            None => None,
        }
    } else {
        None
    }
}

/// A piece of an `\inst{..}`: the number bound to a `\ref{key}` it holds,
/// else the piece itself.
pub open spec fn inst_piece(part: Seq<u8>, m: Seq<(Seq<u8>, nat)>) -> Seq<u8> {
    match ref_key(part) {
        Some(k) => match address_number(m, k) {
            Some(idx) => decimal(idx),
            None => part,
        },
        None => part,
    }
}

/// The comma-separated pieces of `c` from `i` on, trimmed and resolved.
pub open spec fn inst_pieces_from(c: Seq<u8>, m: Seq<(Seq<u8>, nat)>, i: int) -> Seq<Seq<u8>>
    decreases c.len() - i,
{
    if i < 0 || i > c.len() {
        Seq::empty()
    } else {
        proof {
            lemma_comma_end(c, i);
        }
        let e = comma_end(c, i);
        let here = seq![inst_piece(trim_ws(c.subrange(i, e)), m)];
        if e >= c.len() {
            here
        } else {
            here + inst_pieces_from(c, m, e + 1)
        }
    }
}

/// Only digits and commas.
pub open spec fn all_numeric(s: Seq<u8>) -> bool {
    forall|i: int| 0 <= i < s.len() ==> is_digit(#[trigger] s[i]) || s[i] == 0x2c
}

/// What `\inst{..}` becomes: its resolved pieces joined by commas, in
/// superscript when all numeric.
pub open spec fn inst_marks(c: Seq<u8>, m: Seq<(Seq<u8>, nat)>) -> Seq<u8> {
    let joined = join_commas(inst_pieces_from(c, m, 0));
    if all_numeric(joined) {
        superscripted(joined)
    } else {
        joined
    }
}

pub open spec fn inst_step(m: Seq<(Seq<u8>, nat)>) -> Step {
    |t: Seq<u8>, after: int|
        if after < t.len() && is_alpha(t[after]) {
            Err(after)
        } else {
            match command_arg(t, after) {
                Some((cs, ce, ac)) => Ok((inst_marks(t.subrange(cs, ce), m), ac)),
                None => Err(after),
            }
        }
}

/// `\institute{..}` blocks become numbered lines and `\inst{..}` marks
/// become the numbers of the institutions they name.
pub open spec fn institutes_converted(t: Seq<u8>) -> Seq<u8> {
    let r = institute_from(t, 0, 0);
    scan_replace(r.0, backslash_name(INST.spec_bytes()), inst_step(r.1), 0, 0)
}

proof fn lemma_literal_lengths()
    ensures
        EMPTY.spec_bytes() == Seq::<u8>::empty(),
        AND.spec_bytes().len() == 4,
        INST_OPEN.spec_bytes().len() == 6,
{
    reveal_strlit("");
    reveal_strlit("\\and");
    reveal_strlit("\\inst{");
    assert(vstd::string::is_ascii(EMPTY));
    vstd::string::is_ascii_spec_bytes(EMPTY);
    assert(vstd::string::is_ascii(AND));
    vstd::string::is_ascii_spec_bytes(AND);
    assert(vstd::string::is_ascii(INST_OPEN));
    vstd::string::is_ascii_spec_bytes(INST_OPEN);
    assert(EMPTY.spec_bytes() =~= Seq::<u8>::empty());
}

proof fn lemma_decimal_value_grows(d: Seq<u8>, i: int, j: int)
    requires
        0 <= i <= j <= d.len(),
    ensures
        decimal_value(d.subrange(0, i)) <= decimal_value(d.subrange(0, j)),
    decreases j - i,
{
    if i < j {
        lemma_decimal_value_grows(d, i, j - 1);
        assert(d.subrange(0, j).drop_last() =~= d.subrange(0, j - 1));
    }
}

/// Parse `t[a..b]` as an index.
fn parse_index(t: &[u8], a: usize, b: usize) -> (res: Option<usize>)
    requires
        a <= b <= t.len(),
    ensures
        parsed_index(t@.subrange(a as int, b as int)) == match res {
            Some(n) => Some(n as nat),
            None => None,
        },
{
    let ghost x = t@.subrange(a as int, b as int);
    let mut s = a;
    if s < b && t[s] == 0x2b {
        s = s + 1;
    }
    let ghost d = t@.subrange(s as int, b as int);
    proof {
        if a < b && t@[a as int] == 0x2b {
            assert(x[0] == 0x2b);
            assert(d =~= x.drop_first());
        } else {
            assert(d =~= x);
            if x.len() > 0 {
                assert(x[0] == t@[a as int]);
            }
        }
        assert(d == unsigned_part(x));
    }
    if s >= b {
        assert(d.len() == 0);
        return None;
    }
    let mut v: usize = 0;
    let mut over = false;
    let mut i = s;
    while i < b
        invariant
            s <= i <= b <= t.len(),
            d == t@.subrange(s as int, b as int),
            x == t@.subrange(a as int, b as int),
            d == unsigned_part(x),
            forall|k: int| s <= k < i ==> is_digit(#[trigger] t@[k]),
            !over ==> v as nat == decimal_value(d.subrange(0, i - s)),
            over ==> decimal_value(d.subrange(0, i - s)) > usize::MAX,
        decreases b - i,
    {
        if !(0x30 <= t[i] && t[i] <= 0x39) {
            assert(d[i - s] == t@[i as int]);
            assert(!is_digit(d[i - s]));
            assert(!all_digits(d));
            return None;
        }
        let dig = (t[i] - 0x30) as usize;
        assert(d.subrange(0, i + 1 - s).drop_last() =~= d.subrange(0, i - s));
        assert(d.subrange(0, i + 1 - s).last() == t@[i as int]);
        if !over {
            if v > (usize::MAX - dig) / 10 {
                assert(v * 10 + dig > usize::MAX) by (nonlinear_arith)
                    requires
                        v > (usize::MAX - dig) / 10,
                        dig <= 9,
                ;
                over = true;
            } else {
                assert(v * 10 + dig <= usize::MAX) by (nonlinear_arith)
                    requires
                        v <= (usize::MAX - dig) / 10,
                        dig <= 9,
                ;
                v = v * 10 + dig;
            }
        } else {
            proof {
                lemma_decimal_value_grows(d, i - s, i + 1 - s);
            }
        }
        i = i + 1;
    }
    assert(d.subrange(0, b - s) =~= d);
    assert forall|k: int| 0 <= k < d.len() implies is_digit(#[trigger] d[k]) by {
        assert(d[k] == t@[s + k]);
    }
    if over {
        None
    } else {
        Some(v)
    }
}

/// Position of the first `x` at or after `i` (or the end).
fn byte_end_bytes(s: &[u8], i: usize, x: u8) -> (res: usize)
    requires
        i <= s.len(),
    ensures
        res as int == byte_end(s@, i as int, x),
        i <= res <= s.len(),
{
    let mut k = i;
    while k < s.len() && s[k] != x
        invariant
            i <= k <= s.len(),
            byte_end(s@, k as int, x) == byte_end(s@, i as int, x),
        decreases s.len() - k,
    {
        k = k + 1;
    }
    k
}

pub open spec fn pieces_view(v: Seq<(usize, Vec<u8>)>) -> Seq<(nat, Seq<u8>)> {
    v.map_values(|e: (usize, Vec<u8>)| (e.0 as nat, e.1@))
}

/// The trimmed text `n[a..b]` as a vector.
fn trimmed_vec(n: &[u8], a: usize, b: usize) -> (res: Vec<u8>)
    requires
        a <= b <= n.len(),
    ensures
        res@ == trim_ws(n@.subrange(a as int, b as int)),
{
    let (x, y) = crate::scan::trim_ws_range(n, a, b);
    slice_to_vec(n, x, y)
}

fn inst_entries(n: &[u8], ip: &[u8]) -> (res: Vec<(usize, Vec<u8>)>)
    requires
        ip@ == INST_OPEN.spec_bytes(),
        ip@.len() > 0,
    ensures
        pieces_view(res@) == inst_entries_from(n@, 0, 0),
{
    let mut es: Vec<(usize, Vec<u8>)> = Vec::new();
    let mut s: usize = 0;
    loop
        invariant
            s <= n.len(),
            es.len() <= s,
            ip@ == INST_OPEN.spec_bytes(),
            ip@.len() > 0,
            pieces_view(es@) + inst_entries_from(n@, s as int, es.len() as nat) == inst_entries_from(n@, 0, 0),
        decreases n.len() + 1 - s,
    {
        let ghost ev = pieces_view(es@);
        proof {
            lemma_find_from_bounds(n@, ip@, s as int);
        }
        match find_bytes(n, ip, s) {
            None => {
                assert(ev + Seq::<(nat, Seq<u8>)>::empty() =~= ev);
                return es;
            },
            Some(a) => {
                let ns = a + ip.len();
                let close = byte_end_bytes(n, ns, 0x7d);
                if close >= n.len() {
                    assert(ev + Seq::<(nat, Seq<u8>)>::empty() =~= ev);
                    return es;
                }
                let (x, y) = crate::scan::trim_ws_range(n, ns, close);
                let idx = match parse_index(n, x, y) {
                    Some(v) => v,
                    None => es.len() + 1,
                };
                let ts = close + 1;
                proof {
                    lemma_find_from_bounds(n@, ip@, ts as int);
                }
                let te = match find_bytes(n, ip, ts) {
                    Some(q) => q,
                    None => n.len(),
                };
                let entry = trimmed_vec(n, ts, te);
                if entry.len() > 0 {
                    let ghost e = (idx as nat, entry@);
                    es.push((idx, entry));
                    assert(pieces_view(es@) =~= ev.push(e));
                    assert(ev + (seq![e] + inst_entries_from(n@, te as int, (ev.len() + 1) as nat)) =~= ev.push(e)
                        + inst_entries_from(n@, te as int, (ev.len() + 1) as nat));
                }
                s = te;
            },
        }
    }
}

fn and_entries(n: &[u8], sep: &[u8]) -> (res: Vec<(usize, Vec<u8>)>)
    requires
        sep@ == AND.spec_bytes(),
        sep@.len() == 4,
    ensures
        pieces_view(res@) == and_entries_from(n@, 0, 1),
{
    let mut es: Vec<(usize, Vec<u8>)> = Vec::new();
    let mut i: usize = 0;
    let mut k: usize = 1;
    loop
        invariant
            i <= n.len(),
            1 <= k <= i + 1,
            sep@ == AND.spec_bytes(),
            sep@.len() == 4,
            pieces_view(es@) + and_entries_from(n@, i as int, k as nat) == and_entries_from(n@, 0, 1),
        decreases n.len() + 1 - i,
    {
        let ghost ev = pieces_view(es@);
        proof {
            lemma_find_from_bounds(n@, sep@, i as int);
        }
        let q = find_bytes(n, sep, i);
        let end = match q {
            Some(x) => x,
            None => n.len(),
        };
        let piece = trimmed_vec(n, i, end);
        let ghost here: Seq<(nat, Seq<u8>)> = if piece@.len() > 0 {
            seq![(k as nat, piece@)]
        } else {
            Seq::empty()
        };
        if piece.len() > 0 {
            es.push((k, piece));
        }
        assert(pieces_view(es@) =~= ev + here);
        match q {
            None => {
                return es;
            },
            Some(x) => {
                assert(ev + (here + and_entries_from(n@, x + sep@.len(), (k + 1) as nat)) =~= pieces_view(es@)
                    + and_entries_from(n@, x + sep@.len(), (k + 1) as nat));
                i = x + sep.len();
                k = k + 1;
            },
        }
    }
}

/// The numbered institutions of a block.
fn institute_pieces_of(content: &[u8]) -> (res: Vec<(usize, Vec<u8>)>)
    ensures
        pieces_view(res@) == institute_pieces(content@),
{
    let n = crate::preamble::normalize_institute(content);
    let andv: Vec<u8> = slice_to_vec(AND.as_bytes(), 0, AND.as_bytes().len());
    let ipv: Vec<u8> = slice_to_vec(INST_OPEN.as_bytes(), 0, INST_OPEN.as_bytes().len());
    assert(andv@ =~= AND.spec_bytes());
    assert(ipv@ =~= INST_OPEN.spec_bytes());
    proof {
        lemma_literal_lengths();
    }
    if !crate::scan::bytes_contains(n.as_slice(), andv.as_slice()) && crate::scan::bytes_contains(
        n.as_slice(),
        ipv.as_slice(),
    ) {
        inst_entries(n.as_slice(), ipv.as_slice())
    } else {
        and_entries(n.as_slice(), andv.as_slice())
    }
}

/// Append the keys of the captures (group 1 of each), each bound to `idx`.
fn push_label_binds(binds: &mut Vec<(Vec<u8>, usize)>, x: &[u8], idx: usize)
    ensures
        addr_view(final(binds)@) == addr_view(old(binds)@) + numbered(label_keys(x@), idx as nat),
{
    let caps = re_captures_bytes(LABEL_KEY_PATTERN, x);
    let ghost cv = captures_view(caps@);
    let ghost base = addr_view(old(binds)@);
    let mut k: usize = 0;
    while k < caps.len()
        invariant
            k <= caps.len(),
            cv == captures_view(caps@),
            cv == re_captures(LABEL_KEY_PATTERN.spec_bytes(), x@),
            base == addr_view(old(binds)@),
            addr_view(binds@) + numbered(keys_from(x@, cv, k as int), idx as nat) == base + numbered(
                keys_from(x@, cv, 0),
                idx as nat,
            ),
        decreases caps.len() - k,
    {
        let ghost b0 = addr_view(binds@);
        let c = &caps[k];
        assert(cv[k as int] == c@);
        let mut pushed = false;
        if c.len() > 1 {
            match c[1] {
                Some((a, b)) => {
                    if a <= b && b <= x.len() {
                        binds.push((slice_to_vec(x, a, b), idx));
                        pushed = true;
                    }
                },
                None => {},
            }
        }
        proof {
            let here: Seq<Seq<u8>> = if pushed {
                match c@[1] {
                    Some((a, b)) => seq![x@.subrange(a as int, b as int)],
                    None => Seq::empty(),
                }
            } else {
                Seq::empty()
            };
            assert(keys_from(x@, cv, k as int) == here + keys_from(x@, cv, k + 1));
            assert(numbered(here + keys_from(x@, cv, k + 1), idx as nat) =~= numbered(here, idx as nat)
                + numbered(keys_from(x@, cv, k + 1), idx as nat));
            assert(addr_view(binds@) =~= b0 + numbered(here, idx as nat));
        }
        k = k + 1;
    }
    assert(numbered(keys_from(x@, cv, k as int), idx as nat) =~= Seq::<(Seq<u8>, nat)>::empty());
}

/// Append the lines of the institutions and record their label bindings.
fn push_pieces(out: &mut Vec<u8>, binds: &mut Vec<(Vec<u8>, usize)>, ps: &Vec<(usize, Vec<u8>)>)
    ensures
        final(out)@ == old(out)@ + pieces_out(pieces_view(ps@), ps@.len() as int),
        addr_view(final(binds)@) == addr_view(old(binds)@) + pieces_binds(pieces_view(ps@), ps@.len() as int),
{
    let ghost pv = pieces_view(ps@);
    let ghost o0 = old(out)@;
    let ghost b0 = addr_view(old(binds)@);
    let mut i: usize = 0;
    while i < ps.len()
        invariant
            i <= ps.len(),
            pv == pieces_view(ps@),
            o0 == old(out)@,
            b0 == addr_view(old(binds)@),
            out@ == o0 + pieces_out(pv, i as int),
            addr_view(binds@) == b0 + pieces_binds(pv, i as int),
        decreases ps.len() - i,
    {
        let ghost o = out@;
        let ghost bb = addr_view(binds@);
        let idx = ps[i].0;
        let x = ps[i].1.as_slice();
        push_label_binds(binds, x, idx);
        let cleaned = re_replace_bytes(LABEL_KEY_PATTERN, x, EMPTY.as_bytes());
        proof {
            lemma_literal_lengths();
        }
        let (a, b) = crate::scan::trim_ws_range(cleaned.as_slice(), 0, cleaned.len());
        assert(cleaned@.subrange(0, cleaned@.len() as int) =~= cleaned@);
        out.push(0x0a);
        let mut num: Vec<u8> = Vec::new();
        push_decimal(&mut num, idx as u64);
        crate::preamble::push_superscripted(out, num.as_slice());
        out.push(0x20);
        push_range(out, cleaned.as_slice(), a, b);
        assert(out@ =~= o + piece_text(pv[i as int].0, pv[i as int].1));
        assert(bb + numbered(label_keys(pv[i as int].1), pv[i as int].0) =~= addr_view(binds@));
        i = i + 1;
    }
}

/// Turn the `\institute{..}` blocks into numbered lines, collecting the
/// label bindings.
fn convert_institutes(t: &[u8], binds: &mut Vec<(Vec<u8>, usize)>) -> (res: Vec<u8>)
    requires
        old(binds)@.len() == 0,
    ensures
        res@ == institute_from(t@, 0, 0).0,
        addr_view(final(binds)@) == institute_from(t@, 0, 0).1,
{
    let pat = command_pattern(INSTITUTE);
    let ghost full = institute_from(t@, 0, 0);
    let mut out: Vec<u8> = Vec::new();
    let mut le: usize = 0;
    let mut s: usize = 0;
    assert(addr_view(binds@) =~= Seq::<(Seq<u8>, nat)>::empty());
    loop
        invariant
            le <= s <= t.len(),
            pat@ == backslash_name(INSTITUTE.spec_bytes()),
            full == institute_from(t@, 0, 0),
            out@ + institute_from(t@, s as int, le as int).0 == full.0,
            addr_view(binds@) + institute_from(t@, s as int, le as int).1 == full.1,
        decreases t.len() + 1 - s,
    {
        let ghost o = out@;
        let ghost bb = addr_view(binds@);
        proof {
            lemma_find_from_bounds(t@, pat@, s as int);
        }
        match find_bytes(t, pat.as_slice(), s) {
            None => {
                push_range(&mut out, t, le, t.len());
                assert(addr_view(binds@) + Seq::<(Seq<u8>, nat)>::empty() =~= addr_view(binds@));
                return out;
            },
            Some(p) => {
                let after = p + pat.len();
                if after < t.len() && is_alpha_byte(t[after]) {
                    s = after;
                } else {
                    match command_arg_bytes(t, after) {
                        Some((cs, ce, ac)) => {
                            let content = &t[cs..ce];
                            assert(content@ =~= t@.subrange(cs as int, ce as int));
                            let ps = institute_pieces_of(content);
                            push_range(&mut out, t, le, p);
                            push_pieces(&mut out, binds, &ps);
                            out.push(0x0a);
                            let ghost r = institute_from(t@, ac as int, ac as int);
                            let ghost pv = pieces_view(ps@);
                            assert(o + (t@.subrange(le as int, p as int) + pieces_out(pv, pv.len() as int) + seq![0x0au8]
                                + r.0) =~= out@ + r.0);
                            assert(bb + (pieces_binds(pv, pv.len() as int) + r.1) =~= addr_view(binds@) + r.1);
                            le = ac;
                            s = ac;
                        },
                        None => {
                            s = after;
                        },
                    }
                }
            },
        }
    }
}

/// The key of the first `\ref{key}` in `x`, as a range of `x`.
fn ref_key_range(x: &[u8]) -> (res: Option<(usize, usize)>)
    ensures
        ref_key(x@) == match res {
            Some((a, b)) => Some(x@.subrange(a as int, b as int)),
            None => None,
        },
        res matches Some((a, b)) ==> a <= b <= x.len(),
{
    let caps = re_captures_bytes(REF_KEY_PATTERN, x);
    if caps.len() > 0 && caps[0].len() > 1 {
        assert(captures_view(caps@)[0] == caps@[0]@);
        match caps[0][1] {
            Some((a, b)) => if a <= b && b <= x.len() {
                Some((a, b))
            } else {
                None
            },
            None => None,
        }
    } else {
        None
    }
}

/// What `\inst{c}` becomes.
fn inst_marks_bytes(c: &[u8], m: &Vec<(Vec<u8>, usize)>) -> (res: Vec<u8>)
    ensures
        res@ == inst_marks(c@, addr_view(m@)),
{
    let ghost mv = addr_view(m@);
    let mut pieces: Vec<Vec<u8>> = Vec::new();
    let mut i: usize = 0;
    loop
        invariant
            i <= c.len(),
            mv == addr_view(m@),
            crate::scan::rows_view(pieces@) + inst_pieces_from(c@, mv, i as int) == inst_pieces_from(c@, mv, 0),
        decreases c.len() - i,
    {
        let ghost pv = crate::scan::rows_view(pieces@);
        let mut e = i;
        while e < c.len() && c[e] != 0x2c
            invariant
                i <= e <= c.len(),
                comma_end(c@, e as int) == comma_end(c@, i as int),
            decreases c.len() - e,
        {
            e = e + 1;
        }
        proof {
            lemma_comma_end(c@, i as int);
        }
        let part = trimmed_vec(c, i, e);
        let resolved: Vec<u8> = match ref_key_range(part.as_slice()) {
            Some((a, b)) => {
                let key = &part.as_slice()[a..b];
                assert(key@ =~= part@.subrange(a as int, b as int));
                match crate::preamble::address_number_of(m, key) {
                    Some(idx) => {
                        let mut d: Vec<u8> = Vec::new();
                        push_decimal(&mut d, idx as u64);
                        d
                    },
                    None => part,
                }
            },
            None => part,
        };
        assert(resolved@ == inst_piece(trim_ws(c@.subrange(i as int, e as int)), mv));
        pieces.push(resolved);
        assert(crate::scan::rows_view(pieces@) =~= pv + seq![inst_piece(trim_ws(c@.subrange(i as int, e as int)), mv)]);
        if e >= c.len() {
            return finish_inst_marks(&pieces, c, m);
        }
        assert(pv + (seq![inst_piece(trim_ws(c@.subrange(i as int, e as int)), mv)] + inst_pieces_from(c@, mv, e + 1))
            =~= crate::scan::rows_view(pieces@) + inst_pieces_from(c@, mv, e + 1));
        i = e + 1;
    }
}

fn finish_inst_marks(pieces: &Vec<Vec<u8>>, c: &[u8], m: &Vec<(Vec<u8>, usize)>) -> (res: Vec<u8>)
    requires
        crate::scan::rows_view(pieces@) == inst_pieces_from(c@, addr_view(m@), 0),
    ensures
        res@ == inst_marks(c@, addr_view(m@)),
{
    let joined = crate::preamble::join_commas_bytes(pieces);
    let mut numeric = true;
    let mut k: usize = 0;
    while k < joined.len()
        invariant
            k <= joined.len(),
            numeric == forall|q: int| 0 <= q < k ==> is_digit(#[trigger] joined@[q]) || joined@[q] == 0x2c,
        decreases joined.len() - k,
    {
        if !((0x30 <= joined[k] && joined[k] <= 0x39) || joined[k] == 0x2c) {
            numeric = false;
        }
        k = k + 1;
    }
    if numeric {
        let mut out: Vec<u8> = Vec::new();
        crate::preamble::push_superscripted(&mut out, joined.as_slice());
        out
    } else {
        joined
    }
}

/// Replace each `\inst{..}` by its resolved marks.
fn replace_inst_marks(r: &[u8], pat: &[u8], m: &Vec<(Vec<u8>, usize)>) -> (res: Vec<u8>)
    requires
        pat@ == backslash_name(INST.spec_bytes()),
    ensures
        res@ == scan_replace(r@, pat@, inst_step(addr_view(m@)), 0, 0),
{
    let ghost step = inst_step(addr_view(m@));
    let mut out: Vec<u8> = Vec::new();
    let mut le: usize = 0;
    let mut s: usize = 0;
    loop
        invariant
            le <= s <= r.len(),
            pat@ == backslash_name(INST.spec_bytes()),
            step == inst_step(addr_view(m@)),
            out@ + scan_replace(r@, pat@, step, s as int, le as int) == scan_replace(r@, pat@, step, 0, 0),
        decreases r.len() + 1 - s,
    {
        let ghost o = out@;
        proof {
            lemma_find_from_bounds(r@, pat@, s as int);
        }
        match find_bytes(r, pat, s) {
            None => {
                push_range(&mut out, r, le, r.len());
                return out;
            },
            Some(p) => {
                let after = p + pat.len();
                let mut next = after;
                if !(after < r.len() && is_alpha_byte(r[after])) {
                    match command_arg_bytes(r, after) {
                        Some((cs, ce, ac)) => {
                            let content = &r[cs..ce];
                            assert(content@ =~= r@.subrange(cs as int, ce as int));
                            let marks = inst_marks_bytes(content, m);
                            push_range(&mut out, r, le, p);
                            push_all(&mut out, marks.as_slice());
                            assert(step(r@, after as int) == Ok::<(Seq<u8>, int), int>((marks@, ac as int)));
                            assert(o + (r@.subrange(le as int, p as int) + marks@ + scan_replace(
                                r@,
                                pat@,
                                step,
                                ac as int,
                                ac as int,
                            )) =~= out@ + scan_replace(r@, pat@, step, ac as int, ac as int));
                            le = ac;
                            next = ac;
                        },
                        None => {},
                    }
                }
                s = next;
            },
        }
    }
}

/// Number the `\institute{..}` blocks and resolve `\inst{..}` marks.
fn convert_institute_and_inst(t: &[u8]) -> (res: Vec<u8>)
    ensures
        res@ == institutes_converted(t@),
{
    let mut binds: Vec<(Vec<u8>, usize)> = Vec::new();
    let r = convert_institutes(t, &mut binds);
    let pat = command_pattern(INST);
    replace_inst_marks(r.as_slice(), pat.as_slice(), &binds)
}

// ---------------------------------------------------------------------------
// Whole-document structure
// ---------------------------------------------------------------------------

pub const PROCLAIM_PATTERN: &'static str = "\\\\proclaim\\s*(?:\\{([^{}]*)\\})?\\s*";

pub const SUBHEAD_PATTERN: &'static str = "\\\\subhead\\s*";

pub const MAKETITLE_PATTERN: &'static str = "\\\\maketitle";

pub const ABSTRACT_BEGIN_PATTERN: &'static str = "\\\\begin\\{abstract\\}";

pub const ABSTRACT_END_PATTERN: &'static str = "\\\\end\\{abstract\\}";

pub const ACK_BEGIN_PATTERN: &'static str = "\\\\begin\\{acknowledge?ments?\\}";

pub const ACK_END_PATTERN: &'static str = "\\\\end\\{acknowledge?ments?\\}";

pub const ABSTRACT_HEAD: &'static str = "\n**Abstract.** ";

pub const ACK_HEAD: &'static str = "\n## Acknowledgements\n";

pub const NEWLINE_TEXT: &'static str = "\n";

pub const THEOREM_HEAD: &'static str = "\n**Theorem.** ";

pub const END_PROCLAIM: &'static str = "\\endproclaim";

pub const END_SUBHEAD: &'static str = "\\endsubhead";

pub const SUBHEAD_HEAD: &'static str = "\n### ";

/// What a `\proclaim` match becomes: its braced title in bold, or
/// `**Theorem.**` when it has none.
pub open spec fn proclaim_text(t: Seq<u8>, c: Seq<Option<(usize, usize)>>) -> Seq<u8> {
    let title: Seq<u8> = if c.len() > 1 {
        match c[1] {
            Some((a, b)) => t.subrange(a as int, b as int),
            None => Seq::empty(),
        }
    } else {
        Seq::empty()
    };
    if title.len() > 0 {
        seq![0x0au8, 0x2au8, 0x2au8] + title + seq![0x2eu8, 0x2au8, 0x2au8, 0x20u8]
    } else {
        THEOREM_HEAD.spec_bytes()
    }
}

/// The text from `le` on with the `\proclaim` matches from `k` on replaced.
pub open spec fn proclaims_from(t: Seq<u8>, caps: Seq<Seq<Option<(usize, usize)>>>, k: int, le: int) -> Seq<u8>
    decreases caps.len() - k,
{
    if k < 0 || k >= caps.len() {
        t.subrange(le, t.len() as int)
    } else {
        t.subrange(le, group_start(caps[k], 0) as int) + proclaim_text(t, caps[k]) + proclaims_from(
            t,
            caps,
            k + 1,
            group_end(caps[k], 0) as int,
        )
    }
}

pub open spec fn proclaims_converted(t: Seq<u8>) -> Seq<u8> {
    proclaims_from(t, re_captures(PROCLAIM_PATTERN.spec_bytes(), t), 0, 0)
}

/// The title-block commands and their prefixes.
pub open spec fn title_commands() -> Seq<(&'static str, &'static str)> {
    seq![
        ("title", "\n# "),
        ("author", "\n"),
        ("authors", "\n"),
        ("date", "\n"),
        ("address", "\n"),
        ("affiliation", "\n"),
        ("affiliations", "\n"),
    ]
}

fn title_command_list() -> (res: Vec<(&'static str, &'static str)>)
    ensures
        res@ == title_commands(),
{
    vec![
        ("title", "\n# "),
        ("author", "\n"),
        ("authors", "\n"),
        ("date", "\n"),
        ("address", "\n"),
        ("affiliation", "\n"),
        ("affiliations", "\n"),
    ]
}

/// `t` with the first `n` title-block commands turned into lines.
pub open spec fn titled(t: Seq<u8>, n: int) -> Seq<u8>
    decreases n,
{
    if n <= 0 {
        t
    } else {
        let tc = title_commands()[n - 1];
        scan_replace(titled(t, n - 1), backslash_name(tc.0.spec_bytes()), heading_step(tc.1.spec_bytes()), 0, 0)
    }
}

pub const PART_NAME: &'static str = "part";

pub const PART_PREFIX: &'static str = "\n# ";

pub const PARAGRAPH_NAME: &'static str = "paragraph";

pub const SUBPARAGRAPH_NAME: &'static str = "subparagraph";

pub const ABSTRACT_NAME: &'static str = "abstract";

/// Numbered sections, parts and paragraph titles.
pub open spec fn headings_converted(t: Seq<u8>) -> Seq<u8> {
    let a = numbered_from(t, 0, 0, seq![0nat, 0nat, 0nat, 0nat]).0;
    let b = scan_replace(a, backslash_name(PART_NAME.spec_bytes()), heading_step(PART_PREFIX.spec_bytes()), 0, 0);
    let c = scan_replace(b, backslash_name(PARAGRAPH_NAME.spec_bytes()), bold_step(), 0, 0);
    scan_replace(c, backslash_name(SUBPARAGRAPH_NAME.spec_bytes()), bold_step(), 0, 0)
}

/// The title block: authors, affiliations and the other title commands.
pub open spec fn title_block_converted(t: Seq<u8>) -> Seq<u8> {
    titled(labeled_converted(revtex_converted(t)), title_commands().len() as int)
}

/// `\maketitle` goes; abstracts, acknowledgements, `\proclaim` and
/// `\subhead` become headers.
pub open spec fn headers_converted(t: Seq<u8>) -> Seq<u8> {
    let a = re_replace(MAKETITLE_PATTERN.spec_bytes(), t, EMPTY.spec_bytes());
    let b = re_replace(ABSTRACT_BEGIN_PATTERN.spec_bytes(), a, ABSTRACT_HEAD.spec_bytes());
    let c = re_replace(ABSTRACT_END_PATTERN.spec_bytes(), b, NEWLINE_TEXT.spec_bytes());
    let d = re_replace(ACK_BEGIN_PATTERN.spec_bytes(), c, ACK_HEAD.spec_bytes());
    let e = re_replace(ACK_END_PATTERN.spec_bytes(), d, NEWLINE_TEXT.spec_bytes());
    let f = scan_replace(e, backslash_name(ABSTRACT_NAME.spec_bytes()), heading_step(ABSTRACT_HEAD.spec_bytes()), 0, 0);
    let g = replace_all_spec(proclaims_converted(f), END_PROCLAIM.spec_bytes(), NEWLINE_TEXT.spec_bytes());
    let h = re_replace(SUBHEAD_PATTERN.spec_bytes(), g, SUBHEAD_HEAD.spec_bytes());
    replace_all_spec(h, END_SUBHEAD.spec_bytes(), NEWLINE_TEXT.spec_bytes())
}

/// The whole structural conversion of a text.
pub open spec fn structure_converted(t: Seq<u8>) -> Seq<u8> {
    institutes_converted(headers_converted(title_block_converted(headings_converted(t))))
}

/// The labels recorded with their section numbers.
pub open spec fn section_labels(t: Seq<u8>) -> Seq<(Seq<u8>, Seq<u8>)> {
    numbered_from(t, 0, 0, seq![0nat, 0nat, 0nat, 0nat]).1
}

fn convert_proclaims(t: &[u8]) -> (res: Vec<u8>)
    ensures
        res@ == proclaims_converted(t@),
{
    let caps = re_captures_bytes(PROCLAIM_PATTERN, t);
    let ghost cv = captures_view(caps@);
    let mut out: Vec<u8> = Vec::new();
    let mut le: usize = 0;
    let mut k: usize = 0;
    while k < caps.len()
        invariant
            k <= caps.len(),
            le <= t.len(),
            cv == captures_view(caps@),
            cv == re_captures(PROCLAIM_PATTERN.spec_bytes(), t@),
            well_formed_captures(cv, t@.len()),
            k > 0 ==> le == group_end(cv[k - 1], 0),
            k == 0 ==> le == 0,
            out@ + proclaims_from(t@, cv, k as int, le as int) == proclaims_from(t@, cv, 0, 0),
        decreases caps.len() - k,
    {
        let ghost o = out@;
        let c = &caps[k];
        assert(cv[k as int] == c@);
        let (s, e) = match c[0] {
            Some((x, y)) => (x, y),
            None => (0, 0),
        };
        assert(s == group_start(cv[k as int], 0) && e == group_end(cv[k as int], 0));
        if k > 0 {
            assert(group_end(cv[k - 1], 0) <= group_start(cv[k as int], 0));
        }
        push_range(&mut out, t, le, s);
        let mut titled = false;
        if c.len() > 1 {
            match c[1] {
                Some((a, b)) => {
                    if b > a {
                        out.push(0x0a);
                        out.push(0x2a);
                        out.push(0x2a);
                        push_range(&mut out, t, a, b);
                        out.push(0x2e);
                        out.push(0x2a);
                        out.push(0x2a);
                        out.push(0x20);
                        titled = true;
                    }
                },
                None => {},
            }
        }
        if !titled {
            push_all(&mut out, THEOREM_HEAD.as_bytes());
        }
        assert(out@ =~= o + t@.subrange(le as int, s as int) + proclaim_text(t@, c@));
        assert(o + (t@.subrange(le as int, s as int) + proclaim_text(t@, c@) + proclaims_from(t@, cv, k + 1, e as int))
            =~= out@ + proclaims_from(t@, cv, k + 1, e as int));
        le = e;
        k = k + 1;
    }
    push_range(&mut out, t, le, t.len());
    out
}

fn convert_headings(t: &[u8], section_label_map: &mut TextMap) -> (res: Vec<u8>)
    ensures
        res@ == headings_converted(t@),
        final(section_label_map).entry_seq() == inserted_all(old(section_label_map).entry_seq(), section_labels(t@)),
{
    let a = replace_numbered_sections(t, section_label_map);
    let b = replace_sectioning_command(a.as_slice(), PART_NAME, PART_PREFIX);
    let c = replace_paragraph_command(b.as_slice(), PARAGRAPH_NAME);
    replace_paragraph_command(c.as_slice(), SUBPARAGRAPH_NAME)
}

fn convert_title_block(t: &[u8]) -> (res: Vec<u8>)
    ensures
        res@ == title_block_converted(t@),
{
    let a = convert_revtex_author_affiliation(t);
    let b = convert_labeled_author_address(a.as_slice());
    let cmds = title_command_list();
    let mut cur = b;
    let mut i: usize = 0;
    while i < cmds.len()
        invariant
            i <= cmds.len(),
            cmds@ == title_commands(),
            cur@ == titled(labeled_converted(revtex_converted(t@)), i as int),
        decreases cmds.len() - i,
    {
        let (name, prefix) = cmds[i];
        cur = replace_sectioning_command(cur.as_slice(), name, prefix);
        i = i + 1;
    }
    cur
}

fn convert_headers(t: &[u8]) -> (res: Vec<u8>)
    ensures
        res@ == headers_converted(t@),
{
    let a = re_replace_bytes(MAKETITLE_PATTERN, t, EMPTY.as_bytes());
    let b = re_replace_bytes(ABSTRACT_BEGIN_PATTERN, a.as_slice(), ABSTRACT_HEAD.as_bytes());
    let c = re_replace_bytes(ABSTRACT_END_PATTERN, b.as_slice(), NEWLINE_TEXT.as_bytes());
    let d = re_replace_bytes(ACK_BEGIN_PATTERN, c.as_slice(), ACK_HEAD.as_bytes());
    let e = re_replace_bytes(ACK_END_PATTERN, d.as_slice(), NEWLINE_TEXT.as_bytes());
    let f = replace_sectioning_command(e.as_slice(), ABSTRACT_NAME, ABSTRACT_HEAD);
    let p = convert_proclaims(f.as_slice());
    let g = crate::scan::replace_bytes(p.as_slice(), END_PROCLAIM.as_bytes(), NEWLINE_TEXT.as_bytes());
    let h = re_replace_bytes(SUBHEAD_PATTERN, g.as_slice(), SUBHEAD_HEAD.as_bytes());
    crate::scan::replace_bytes(h.as_slice(), END_SUBHEAD.as_bytes(), NEWLINE_TEXT.as_bytes())
}

/// The structural conversion on bytes.
pub fn convert_structure_bytes(t: &[u8], section_label_map: &mut TextMap) -> (res: Vec<u8>)
    ensures
        res@ == structure_converted(t@),
        final(section_label_map).entry_seq() == inserted_all(old(section_label_map).entry_seq(), section_labels(t@)),
{
    let a = convert_headings(t, section_label_map);
    let b = convert_title_block(a.as_slice());
    let c = convert_headers(b.as_slice());
    convert_institute_and_inst(c.as_slice())
}

/// Convert LaTeX structural commands to markdown-style headers, recording
/// in `section_label_map` the number of each section whose `\label`
/// directly follows its header.
pub fn convert_structure(text: &str, section_label_map: &mut TextMap) -> (res: String)
    ensures
        res@ == utf8_lossy(structure_converted(text.spec_bytes())),
        final(section_label_map).entry_seq() == inserted_all(
            old(section_label_map).entry_seq(),
            section_labels(text.spec_bytes()),
        ),
{
    let out = convert_structure_bytes(text.as_bytes(), section_label_map);
    string_from_bytes(out.as_slice())
}

} // verus!
