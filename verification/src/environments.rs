//! Conversion of LaTeX environments to readable text.

use vstd::prelude::*;
use vstd::string::StringSliceAdditionalSpecFns;
use crate::braces::{
    after_optional_arg, after_optional_arg_bytes, command_arg, command_arg_bytes, is_alpha,
    is_alpha_byte, skip_blanks, skip_blanks_bytes,
};
use crate::cleanup::{
    begin_pat, end_pat, lemma_command_arg_bounds, lemma_marker_lengths, BEGIN_OPEN, CLOSE_BRACE,
    END_OPEN, LINE_BREAK_PATTERN, NEWLINE, EMPTY,
};
use crate::outside::{captures_view, group_end, group_start, well_formed_captures};
use crate::preamble::{bracket_scan, byte_end, lemma_bracket_scan, lemma_byte_end};
use crate::regexes::{re_captures, re_captures_bytes, re_replace, re_replace_bytes};
use crate::scan::{
    bytes_contains, bytes_in_list, contains, find_bytes, find_from, in_list,
    lemma_find_from_bounds, push_all, push_range, replace_all_spec, replace_bytes, slice_to_vec,
    trim_ws, trim_ws_range,
};
use crate::text::{string_from_bytes, utf8_lossy};
use crate::textmap::TextMap;
use crate::timing::{decimal, deadline_expired, push_decimal};

verus! {

/// Math display environments; also what `cleanup` protects as math.
pub open spec fn math_envs() -> Seq<&'static str> {
    seq![
        "equation", "equation*", "align", "align*", "gather", "gather*",
        "multline", "multline*", "eqnarray", "eqnarray*",
        "displaymath", "flalign", "flalign*",
        "alignat", "alignat*",
        "math", "dmath", "dmath*",
        "split", "cases", "aligned", "gathered", "alignedat",
        "subequations",
        "pmatrix", "bmatrix", "vmatrix", "Bmatrix", "Vmatrix",
        "smallmatrix", "psmallmatrix", "bsmallmatrix",
    ]
}

/// The math display environments, in order.
pub fn math_env_list() -> (res: Vec<&'static str>)
    ensures
        res@ == math_envs(),
{
    vec![
        "equation", "equation*", "align", "align*", "gather", "gather*",
        "multline", "multline*", "eqnarray", "eqnarray*",
        "displaymath", "flalign", "flalign*",
        "alignat", "alignat*",
        "math", "dmath", "dmath*",
        "split", "cases", "aligned", "gathered", "alignedat",
        "subequations",
        "pmatrix", "bmatrix", "vmatrix", "Bmatrix", "Vmatrix",
        "smallmatrix", "psmallmatrix", "bsmallmatrix",
    ]
}

pub open spec fn list_envs() -> Seq<&'static str> {
    seq!["itemize", "enumerate", "description", "compactitem", "compactenum", "compactdesc", "inparaenum"]
}

pub open spec fn float_envs() -> Seq<&'static str> {
    seq![
        "figure", "figure*", "table", "table*", "wrapfigure", "wraptable",
        "subfigure", "subfloat", "sidewaysfigure", "sidewaystable",
    ]
}

pub open spec fn quote_envs() -> Seq<&'static str> {
    seq!["quote", "quotation", "verse"]
}

/// Theorem-like environments.
pub open spec fn theorem_envs() -> Seq<&'static str> {
    seq![
        "theorem", "lemma", "proposition", "corollary", "conjecture",
        "definition", "example", "remark", "proof", "claim", "observation",
        "notation", "assumption", "hypothesis", "property", "fact",
        "question", "problem", "exercise", "solution", "case", "condition",
    ]
}

pub open spec fn tabular_envs() -> Seq<&'static str> {
    seq!["tabular", "tabular*", "tabularx", "tabulary", "longtable", "longtable*", "supertabular", "array"]
}

pub open spec fn algorithm_envs() -> Seq<&'static str> {
    seq!["algorithm", "algorithm*", "algorithmic", "algorithm2e", "procedure", "function"]
}

pub open spec fn keyword_envs() -> Seq<&'static str> {
    seq!["keywords", "keyword", "IEEEkeywords"]
}

/// Layout environments unwrapped to their content.
pub open spec fn layout_envs() -> Seq<&'static str> {
    seq![
        "minipage", "adjustbox", "adjustwidth",
        "spacing", "singlespace", "doublespace", "onehalfspace",
        "multicols", "multicols*", "widetext",
        "titlepage", "landscape",
    ]
}

pub open spec fn verbatim_envs() -> Seq<&'static str> {
    seq!["verbatim", "Verbatim", "lstlisting", "minted", "alltt"]
}

/// Environments dropped with their content.
pub open spec fn discard_envs() -> Seq<&'static str> {
    seq!["filecontents", "filecontents*", "tikzpicture", "tikzcd", "pgfpicture", "pspicture", "picture"]
}

fn list_env_list() -> (res: Vec<&'static str>)
    ensures
        res@ == list_envs(),
{
    vec!["itemize", "enumerate", "description", "compactitem", "compactenum", "compactdesc", "inparaenum"]
}

fn float_env_list() -> (res: Vec<&'static str>)
    ensures
        res@ == float_envs(),
{
    vec![
        "figure", "figure*", "table", "table*", "wrapfigure", "wraptable",
        "subfigure", "subfloat", "sidewaysfigure", "sidewaystable",
    ]
}

fn quote_env_list() -> (res: Vec<&'static str>)
    ensures
        res@ == quote_envs(),
{
    vec!["quote", "quotation", "verse"]
}

fn theorem_env_list() -> (res: Vec<&'static str>)
    ensures
        res@ == theorem_envs(),
{
    vec![
        "theorem", "lemma", "proposition", "corollary", "conjecture",
        "definition", "example", "remark", "proof", "claim", "observation",
        "notation", "assumption", "hypothesis", "property", "fact",
        "question", "problem", "exercise", "solution", "case", "condition",
    ]
}

fn tabular_env_list() -> (res: Vec<&'static str>)
    ensures
        res@ == tabular_envs(),
{
    vec!["tabular", "tabular*", "tabularx", "tabulary", "longtable", "longtable*", "supertabular", "array"]
}

fn algorithm_env_list() -> (res: Vec<&'static str>)
    ensures
        res@ == algorithm_envs(),
{
    vec!["algorithm", "algorithm*", "algorithmic", "algorithm2e", "procedure", "function"]
}

fn keyword_env_list() -> (res: Vec<&'static str>)
    ensures
        res@ == keyword_envs(),
{
    vec!["keywords", "keyword", "IEEEkeywords"]
}

fn layout_env_list() -> (res: Vec<&'static str>)
    ensures
        res@ == layout_envs(),
{
    vec![
        "minipage", "adjustbox", "adjustwidth",
        "spacing", "singlespace", "doublespace", "onehalfspace",
        "multicols", "multicols*", "widetext",
        "titlepage", "landscape",
    ]
}

fn verbatim_env_list() -> (res: Vec<&'static str>)
    ensures
        res@ == verbatim_envs(),
{
    vec!["verbatim", "Verbatim", "lstlisting", "minted", "alltt"]
}

fn discard_env_list() -> (res: Vec<&'static str>)
    ensures
        res@ == discard_envs(),
{
    vec!["filecontents", "filecontents*", "tikzpicture", "tikzcd", "pgfpicture", "pspicture", "picture"]
}

/// Where an `[...]` at `i` (counted without escapes) ends, running to the
/// end when unclosed; `i` when there is none.
pub open spec fn skip_options(t: Seq<u8>, i: int) -> int {
    if 0 <= i < t.len() && t[i] == 0x5b {
        match bracket_scan(t, i + 1, 1) {
            Some(j) => j,
            None => t.len() as int,
        }
    } else {
        i
    }
}

/// Where a `{...}` group whose interior starts at `i` with `depth` groups
/// open closes (counted without escapes).
pub open spec fn brace_scan(t: Seq<u8>, i: int, depth: nat) -> Option<int>
    decreases t.len() - i,
{
    if depth == 0 {
        Some(i)
    } else if i < 0 || i >= t.len() {
        None
    } else if t[i] == 0x7b {
        brace_scan(t, i + 1, depth + 1)
    } else if t[i] == 0x7d {
        brace_scan(t, i + 1, (depth - 1) as nat)
    } else {
        brace_scan(t, i + 1, depth)
    }
}

pub proof fn lemma_brace_scan(t: Seq<u8>, i: int, depth: nat)
    requires
        0 <= i <= t.len(),
    ensures
        brace_scan(t, i, depth) matches Some(j) ==> i <= j <= t.len() && (depth > 0 ==> j > i),
    decreases t.len() - i,
{
    if depth == 0 {
    } else if i >= t.len() {
    } else if t[i] == 0x7b {
        lemma_brace_scan(t, i + 1, depth + 1);
    } else if t[i] == 0x7d {
        lemma_brace_scan(t, i + 1, (depth - 1) as nat);
    } else {
        lemma_brace_scan(t, i + 1, depth);
    }
}

/// Past every `{...}` group starting at `i` (an unclosed one runs to the
/// end).
pub open spec fn skip_braces(t: Seq<u8>, i: int) -> int
    decreases t.len() - i,
{
    if 0 <= i < t.len() && t[i] == 0x7b {
        proof {
            lemma_brace_scan(t, i + 1, 1);
        }
        match brace_scan(t, i + 1, 1) {
            Some(j) => skip_braces(t, j),
            None => t.len() as int,
        }
    } else {
        i
    }
}

/// Past trailing `{...}` groups and one `[...]` after an environment's
/// begin marker.
pub open spec fn skip_args(t: Seq<u8>, i: int) -> int {
    skip_options(t, skip_braces(t, i))
}

pub proof fn lemma_skips(t: Seq<u8>, i: int)
    requires
        0 <= i <= t.len(),
    ensures
        i <= skip_options(t, i) <= t.len(),
        i <= skip_braces(t, i) <= t.len(),
        i <= skip_args(t, i) <= t.len(),
    decreases t.len() - i,
{
    if i < t.len() && t[i] == 0x5b {
        lemma_bracket_scan(t, i + 1, 1);
    }
    if i < t.len() && t[i] == 0x7b {
        lemma_brace_scan(t, i + 1, 1);
        match brace_scan(t, i + 1, 1) {
            Some(j) => lemma_skips(t, j),
            None => {},
        }
    }
    let k = skip_braces(t, i);
    if k < t.len() && t[k] == 0x5b {
        lemma_bracket_scan(t, k + 1, 1);
    }
}

fn bracket_end(t: &[u8], i: usize) -> (res: usize)
    requires
        i <= t.len(),
    ensures
        res as int == skip_options(t@, i as int),
        i <= res <= t.len(),
{
    proof {
        lemma_skips(t@, i as int);
    }
    if i < t.len() && t[i] == 0x5b {
        let mut j = i + 1;
        let mut depth: usize = 1;
        while j < t.len() && depth > 0
            invariant
                i + 1 <= j <= t.len(),
                depth <= j,
                bracket_scan(t@, j as int, depth as nat) == bracket_scan(t@, i + 1, 1),
            decreases t.len() - j,
        {
            if t[j] == 0x5b {
                depth = depth + 1;
            } else if t[j] == 0x5d {
                depth = depth - 1;
            }
            j = j + 1;
        }
        if depth == 0 {
            j
        } else {
            t.len()
        }
    } else {
        i
    }
}

fn braces_end(t: &[u8], i: usize) -> (res: usize)
    requires
        i <= t.len(),
    ensures
        res as int == skip_braces(t@, i as int),
        i <= res <= t.len(),
{
    proof {
        lemma_skips(t@, i as int);
    }
    let mut k = i;
    while k < t.len() && t[k] == 0x7b
        invariant
            i <= k <= t.len(),
            skip_braces(t@, k as int) == skip_braces(t@, i as int),
        decreases t.len() - k,
    {
        proof {
            lemma_brace_scan(t@, k + 1, 1);
        }
        let mut j = k + 1;
        let mut depth: usize = 1;
        while j < t.len() && depth > 0
            invariant
                k + 1 <= j <= t.len(),
                depth <= j,
                brace_scan(t@, j as int, depth as nat) == brace_scan(t@, k + 1, 1),
            decreases t.len() - j,
        {
            if t[j] == 0x7b {
                depth = depth + 1;
            } else if t[j] == 0x7d {
                depth = depth - 1;
            }
            j = j + 1;
        }
        if depth == 0 {
            k = j;
        } else {
            return t.len();
        }
    }
    k
}

fn args_end(t: &[u8], i: usize) -> (res: usize)
    requires
        i <= t.len(),
    ensures
        res as int == skip_args(t@, i as int),
        i <= res <= t.len(),
{
    let k = braces_end(t, i);
    bracket_end(t, k)
}

fn env_marker(open: &str, env: &str) -> (res: Vec<u8>)
    ensures
        res@ == open.spec_bytes() + env.spec_bytes() + CLOSE_BRACE.spec_bytes(),
        res@.len() > 0,
{
    proof {
        lemma_marker_lengths();
    }
    let mut v: Vec<u8> = Vec::new();
    push_all(&mut v, open.as_bytes());
    push_all(&mut v, env.as_bytes());
    push_all(&mut v, CLOSE_BRACE.as_bytes());
    v
}

/// The text from `le` on with each `bp` found scanning from `s` replaced by
/// `rep`, together with the trailing options (`args` false) or trailing
/// groups and options (`args` true).
pub open spec fn markers_from(t: Seq<u8>, bp: Seq<u8>, args: bool, rep: Seq<u8>, s: int, le: int) -> Seq<u8>
    decreases t.len() + 1 - s,
{
    if s < 0 || s > t.len() || bp.len() == 0 {
        t.subrange(le, t.len() as int)
    } else {
        proof {
            lemma_find_from_bounds(t, bp, s);
        }
        match find_from(t, bp, s) {
            None => t.subrange(le, t.len() as int),
            Some(p) => {
                let after = p + bp.len();
                proof {
                    lemma_skips(t, after);
                }
                let k = if args {
                    skip_args(t, after)
                } else {
                    skip_options(t, after)
                };
                t.subrange(le, p) + rep + markers_from(t, bp, args, rep, k, k)
            },
        }
    }
}

fn replace_markers(t: &[u8], bp: &[u8], args: bool, rep: &[u8]) -> (res: Vec<u8>)
    requires
        bp@.len() > 0,
    ensures
        res@ == markers_from(t@, bp@, args, rep@, 0, 0),
{
    let mut out: Vec<u8> = Vec::new();
    let mut le: usize = 0;
    let mut s: usize = 0;
    loop
        invariant
            le == s,
            s <= t.len(),
            bp@.len() > 0,
            out@ + markers_from(t@, bp@, args, rep@, s as int, le as int) == markers_from(t@, bp@, args, rep@, 0, 0),
        decreases t.len() + 1 - s,
    {
        let ghost o = out@;
        proof {
            lemma_find_from_bounds(t@, bp@, s as int);
        }
        match find_bytes(t, bp, s) {
            None => {
                push_range(&mut out, t, le, t.len());
                return out;
            },
            Some(p) => {
                let after = p + bp.len();
                let k = if args {
                    args_end(t, after)
                } else {
                    bracket_end(t, after)
                };
                push_range(&mut out, t, le, p);
                push_all(&mut out, rep);
                assert(o + (t@.subrange(le as int, p as int) + rep@ + markers_from(t@, bp@, args, rep@, k as int, k as int))
                    =~= out@ + markers_from(t@, bp@, args, rep@, k as int, k as int));
                le = k;
                s = k;
            },
        }
    }
}

/// `\begin{env}` (with trailing options, or groups and options when
/// `args`) and `\end{env}` each replaced by a newline.
pub open spec fn markers_removed(t: Seq<u8>, env: Seq<u8>, args: bool) -> Seq<u8> {
    replace_all_spec(
        markers_from(t, begin_pat(env), args, NEWLINE.spec_bytes(), 0, 0),
        end_pat(env),
        NEWLINE.spec_bytes(),
    )
}

fn remove_env_markers(t: &[u8], env: &str, args: bool) -> (res: Vec<u8>)
    ensures
        res@ == markers_removed(t@, env.spec_bytes(), args),
{
    let bp = env_marker(BEGIN_OPEN, env);
    let ep = env_marker(END_OPEN, env);
    let a = replace_markers(t, bp.as_slice(), args, NEWLINE.as_bytes());
    replace_bytes(a.as_slice(), ep.as_slice(), NEWLINE.as_bytes())
}

/// `t` with the markers of `envs[..n]` removed in turn.
pub open spec fn all_markers_removed(t: Seq<u8>, envs: Seq<&'static str>, args: bool, n: int) -> Seq<u8>
    decreases n,
{
    if n <= 0 {
        t
    } else {
        markers_removed(all_markers_removed(t, envs, args, n - 1), envs[n - 1].spec_bytes(), args)
    }
}

fn remove_all_markers(t: Vec<u8>, envs: &Vec<&'static str>, args: bool) -> (res: Vec<u8>)
    ensures
        res@ == all_markers_removed(t@, envs@, args, envs@.len() as int),
{
    let ghost t0 = t@;
    let mut cur = t;
    let mut i: usize = 0;
    while i < envs.len()
        invariant
            i <= envs.len(),
            cur@ == all_markers_removed(t0, envs@, args, i as int),
        decreases envs.len() - i,
    {
        cur = remove_env_markers(cur.as_slice(), envs[i], args);
        i = i + 1;
    }
    cur
}

/// The text from `le` on with each environment of markers `bp`/`ep` found
/// scanning from `s` dropped with its content; scanning stops at a begin
/// marker with no end after it.
pub open spec fn discarded_from(t: Seq<u8>, bp: Seq<u8>, ep: Seq<u8>, s: int, le: int) -> Seq<u8>
    decreases t.len() + 1 - s,
{
    if s < 0 || s > t.len() || ep.len() == 0 {
        t.subrange(le, t.len() as int)
    } else {
        proof {
            lemma_find_from_bounds(t, bp, s);
        }
        match find_from(t, bp, s) {
            None => t.subrange(le, t.len() as int),
            Some(ab) => {
                proof {
                    lemma_find_from_bounds(t, ep, ab);
                }
                match find_from(t, ep, ab) {
                    None => t.subrange(le, t.len() as int),
                    Some(q) => t.subrange(le, ab) + discarded_from(t, bp, ep, q + ep.len(), q + ep.len()),
                }
            },
        }
    }
}

/// `t` without the environment `env`, content included.
pub open spec fn env_discarded(t: Seq<u8>, env: Seq<u8>) -> Seq<u8> {
    discarded_from(t, begin_pat(env), end_pat(env), 0, 0)
}

fn discard_env(t: &[u8], env: &str) -> (res: Vec<u8>)
    ensures
        res@ == env_discarded(t@, env.spec_bytes()),
{
    let bp = env_marker(BEGIN_OPEN, env);
    let ep = env_marker(END_OPEN, env);
    let mut out: Vec<u8> = Vec::new();
    let mut le: usize = 0;
    let mut s: usize = 0;
    loop
        invariant
            le == s,
            s <= t.len(),
            ep@.len() > 0,
            bp@ == begin_pat(env.spec_bytes()),
            ep@ == end_pat(env.spec_bytes()),
            out@ + discarded_from(t@, bp@, ep@, s as int, le as int) == discarded_from(t@, bp@, ep@, 0, 0),
        decreases t.len() + 1 - s,
    {
        let ghost o = out@;
        proof {
            lemma_find_from_bounds(t@, bp@, s as int);
        }
        match find_bytes(t, bp.as_slice(), s) {
            None => {
                push_range(&mut out, t, le, t.len());
                return out;
            },
            Some(ab) => {
                proof {
                    lemma_find_from_bounds(t@, ep@, ab as int);
                }
                match find_bytes(t, ep.as_slice(), ab) {
                    None => {
                        push_range(&mut out, t, le, t.len());
                        return out;
                    },
                    Some(q) => {
                        let e = q + ep.len();
                        push_range(&mut out, t, le, ab);
                        assert(o + (t@.subrange(le as int, ab as int) + discarded_from(t@, bp@, ep@, e as int, e as int))
                            =~= out@ + discarded_from(t@, bp@, ep@, e as int, e as int));
                        le = e;
                        s = e;
                    },
                }
            },
        }
    }
}

/// `t` without the environments of `envs[..n]`, in turn.
pub open spec fn all_discarded(t: Seq<u8>, envs: Seq<&'static str>, n: int) -> Seq<u8>
    decreases n,
{
    if n <= 0 {
        t
    } else {
        env_discarded(all_discarded(t, envs, n - 1), envs[n - 1].spec_bytes())
    }
}

pub const ITEM_PATTERN: &'static str = "\\\\item\\s*(?:\\[([^\\]]*)\\])?";

pub const ITEM_DASH: &'static str = "\n- ";

/// What an `\item` match becomes: a new list line, with its label.
pub open spec fn item_text(t: Seq<u8>, c: Seq<Option<(usize, usize)>>) -> Seq<u8> {
    let label = if c.len() > 1 {
        match c[1] {
            Some((a, b)) => t.subrange(a as int, b as int),
            None => Seq::empty(),
        }
    } else {
        Seq::empty()
    };
    if label.len() > 0 {
        ITEM_DASH.spec_bytes() + label + seq![0x20u8]
    } else {
        ITEM_DASH.spec_bytes()
    }
}

/// The text from `le` on with the `\item` matches from `k` on replaced.
pub open spec fn items_replaced_from(t: Seq<u8>, caps: Seq<Seq<Option<(usize, usize)>>>, k: int, le: int) -> Seq<u8>
    decreases caps.len() - k,
{
    if k < 0 || k >= caps.len() {
        t.subrange(le, t.len() as int)
    } else {
        t.subrange(le, group_start(caps[k], 0) as int) + item_text(t, caps[k]) + items_replaced_from(
            t,
            caps,
            k + 1,
            group_end(caps[k], 0) as int,
        )
    }
}

/// `\item[label]` becomes a new line `- label `, `\item` a new line `- `.
pub open spec fn items_converted(t: Seq<u8>) -> Seq<u8> {
    items_replaced_from(t, re_captures(ITEM_PATTERN.spec_bytes(), t), 0, 0)
}

/// Convert `\item[label]` to a new line `- label ` and `\item` to `- `.
pub fn convert_items_bytes(t: &[u8]) -> (res: Vec<u8>)
    ensures
        res@ == items_converted(t@),
{
    let caps = re_captures_bytes(ITEM_PATTERN, t);
    let ghost cv = captures_view(caps@);
    let mut out: Vec<u8> = Vec::new();
    let mut le: usize = 0;
    let mut k: usize = 0;
    while k < caps.len()
        invariant
            k <= caps.len(),
            le <= t.len(),
            cv == captures_view(caps@),
            well_formed_captures(cv, t@.len()),
            k > 0 ==> le == group_end(cv[k - 1], 0),
            k == 0 ==> le == 0,
            out@ + items_replaced_from(t@, cv, k as int, le as int) == items_replaced_from(t@, cv, 0, 0),
        decreases caps.len() - k,
    {
        let ghost o = out@;
        let c = &caps[k];
        assert(cv[k as int] == c@);
        let (s, e) = match c[0] {
            Some((x, y)) => (x, y),
            None => (0, 0),
        };
        assert(s == group_start(cv[k as int], 0) && e == group_end(cv[k as int], 0));
        if k > 0 {
            assert(group_end(cv[k - 1], 0) <= group_start(cv[k as int], 0));
        }
        push_range(&mut out, t, le, s);
        push_all(&mut out, ITEM_DASH.as_bytes());
        let mut labeled = false;
        if c.len() > 1 {
            match c[1] {
                Some((a, b)) => {
                    if b > a {
                        push_range(&mut out, t, a, b);
                        out.push(0x20);
                        labeled = true;
                    }
                },
                None => {},
            }
        }
        assert(out@ =~= o + t@.subrange(le as int, s as int) + item_text(t@, c@));
        assert(o + (t@.subrange(le as int, s as int) + item_text(t@, c@) + items_replaced_from(t@, cv, k + 1, e as int))
            =~= out@ + items_replaced_from(t@, cv, k + 1, e as int));
        le = e;
        k = k + 1;
    }
    push_range(&mut out, t, le, t.len());
    out
}

/// Convert `\item[label]` to a new line `- label ` and `\item` to `- `.
pub fn convert_items(text: &str) -> (res: String)
    ensures
        res@ == utf8_lossy(items_converted(text.spec_bytes())),
{
    let out = convert_items_bytes(text.as_bytes());
    string_from_bytes(out.as_slice())
}

/// The first begin marker of `envs[..n]` at or after `s`: its position and
/// the environment's index (the earlier listed wins a tie).
pub open spec fn earliest_from(t: Seq<u8>, s: int, envs: Seq<&'static str>, n: int) -> Option<(int, int)>
    decreases n,
{
    if n <= 0 {
        None
    } else {
        let prev = earliest_from(t, s, envs, n - 1);
        match find_from(t, begin_pat(envs[n - 1].spec_bytes()), s) {
            None => prev,
            Some(p) => match prev {
                None => Some((p, n - 1)),
                Some((bp, bi)) => if p < bp {
                    Some((p, n - 1))
                } else {
                    prev
                },
            },
        }
    }
}

pub proof fn lemma_earliest(t: Seq<u8>, s: int, envs: Seq<&'static str>, n: int)
    requires
        0 <= s,
        n <= envs.len(),
    ensures
        earliest_from(t, s, envs, n) matches Some((p, i)) ==> 0 <= i < n && s <= p && find_from(
            t,
            begin_pat(envs[i].spec_bytes()),
            s,
        ) == Some(p) && p + begin_pat(envs[i].spec_bytes()).len() <= t.len(),
    decreases n,
{
    if n > 0 {
        lemma_earliest(t, s, envs, n - 1);
        lemma_find_from_bounds(t, begin_pat(envs[n - 1].spec_bytes()), s);
    }
}

/// A figure (as opposed to a table) for numbering.
pub open spec fn figure_envs() -> Seq<&'static str> {
    seq!["figure", "figure*", "wrapfigure", "subfigure", "subfloat", "sidewaysfigure"]
}

fn figure_env_list() -> (res: Vec<&'static str>)
    ensures
        res@ == figure_envs(),
{
    vec!["figure", "figure*", "wrapfigure", "subfigure", "subfloat", "sidewaysfigure"]
}

pub const FIGURE: &'static str = "Figure";

pub const TABLE: &'static str = "Table";

pub const CAPTION: &'static str = "caption";

pub const COLON_SPACE: &'static str = ": ";

/// The content from `le` on with each `\caption[short]{x}` found scanning
/// from `s` replaced by its own line `Label n: x`, counting on from `n`;
/// also the last number used.
pub open spec fn captions_from(c: Seq<u8>, label: Seq<u8>, s: int, le: int, n: nat) -> (Seq<u8>, nat)
    decreases c.len() + 1 - s,
{
    let pat = seq![0x5cu8] + CAPTION.spec_bytes();
    if s < 0 || s > c.len() {
        (c.subrange(le, c.len() as int), n)
    } else {
        proof {
            lemma_find_from_bounds(c, pat, s);
        }
        match find_from(c, pat, s) {
            None => (c.subrange(le, c.len() as int), n),
            Some(p) => {
                let after = p + pat.len();
                let ce = if after < c.len() && c[after] == 0x2a {
                    after + 1
                } else {
                    after
                };
                if ce < c.len() && is_alpha(c[ce]) {
                    captions_from(c, label, ce, le, n)
                } else {
                    proof {
                        crate::references::lemma_after_optional_arg(c, ce);
                        lemma_command_arg_bounds(c, after_optional_arg(c, ce));
                    }
                    match command_arg(c, after_optional_arg(c, ce)) {
                        Some((cs, cend, ac)) => {
                            let rest = captions_from(c, label, ac, ac, n + 1);
                            (
                                c.subrange(le, p) + seq![0x0au8] + label + seq![0x20u8] + decimal(n + 1)
                                    + COLON_SPACE.spec_bytes() + c.subrange(cs, cend) + seq![0x0au8] + rest.0,
                                rest.1,
                            )
                        },
                        None => captions_from(c, label, ce, le, n),
                    }
                }
            },
        }
    }
}

pub const INCLUDEGRAPHICS_PATTERN: &'static str = "\\\\includegraphics\\s*(?:\\[[^\\]]*\\])?\\s*\\{[^{}]*\\}";

pub const CENTERING_PATTERN: &'static str = "\\\\centering";

/// A float's content without graphics and centering, its captions
/// numbered from `n`.
pub open spec fn float_body(content: Seq<u8>, fig: bool, n: nat) -> (Seq<u8>, nat) {
    let a = re_replace(INCLUDEGRAPHICS_PATTERN.spec_bytes(), content, EMPTY.spec_bytes());
    let b = re_replace(CENTERING_PATTERN.spec_bytes(), a, EMPTY.spec_bytes());
    captions_from(b, if fig { FIGURE.spec_bytes() } else { TABLE.spec_bytes() }, 0, 0, n)
}

/// The text from `le` on with each float found scanning from `s` replaced
/// by its trimmed, caption-numbered content on lines of its own; `nf` and
/// `nt` count the figures and tables so far.
pub open spec fn floats_from(t: Seq<u8>, s: int, le: int, nf: nat, nt: nat) -> Seq<u8>
    decreases t.len() + 1 - s,
{
    if s < 0 || s >= t.len() {
        t.subrange(le, t.len() as int)
    } else {
        proof {
            lemma_earliest(t, s, float_envs(), float_envs().len() as int);
            lemma_marker_lengths();
        }
        match earliest_from(t, s, float_envs(), float_envs().len() as int) {
            None => t.subrange(le, t.len() as int),
            Some((ab, i)) => {
                let env = float_envs()[i].spec_bytes();
                let after = ab + begin_pat(env).len();
                proof {
                    lemma_skips(t, after);
                    lemma_find_from_bounds(t, end_pat(env), skip_options(t, after));
                }
                let cs = skip_options(t, after);
                match find_from(t, end_pat(env), cs) {
                    None => floats_from(t, after, le, nf, nt),
                    Some(q) => {
                        let fig = in_list(env, figure_envs());
                        let (body, n2) = float_body(t.subrange(cs, q), fig, if fig { nf } else { nt });
                        let e = q + end_pat(env).len();
                        t.subrange(le, ab) + seq![0x0au8] + trim_ws(body) + seq![0x0au8] + floats_from(
                            t,
                            e,
                            e,
                            if fig { n2 } else { nf },
                            if fig { nt } else { n2 },
                        )
                    },
                }
            },
        }
    }
}

/// Caption numbering counts on from where it starts: starting at `n`
/// instead of 0 ends `n` further on.
proof fn lemma_captions_count_shift(c: Seq<u8>, label: Seq<u8>, s: int, le: int, n: nat)
    ensures
        captions_from(c, label, s, le, n).1 == n + captions_from(c, label, s, le, 0).1,
    decreases c.len() + 1 - s,
{
    let pat = seq![0x5cu8] + CAPTION.spec_bytes();
    if 0 <= s <= c.len() {
        lemma_find_from_bounds(c, pat, s);
        match find_from(c, pat, s) {
            None => {},
            Some(p) => {
                let after = p + pat.len();
                let ce = if after < c.len() && c[after] == 0x2a {
                    after + 1
                } else {
                    after
                };
                if ce < c.len() && is_alpha(c[ce]) {
                    lemma_captions_count_shift(c, label, ce, le, n);
                } else {
                    crate::references::lemma_after_optional_arg(c, ce);
                    lemma_command_arg_bounds(c, after_optional_arg(c, ce));
                    match command_arg(c, after_optional_arg(c, ce)) {
                        Some((cs, cend, ac)) => {
                            lemma_captions_count_shift(c, label, ac, ac, n + 1);
                            lemma_captions_count_shift(c, label, ac, ac, 1);
                            lemma_captions_count_shift(c, label, ac, ac, 0);
                        },
                        None => {
                            lemma_captions_count_shift(c, label, ce, le, n);
                        },
                    }
                }
            },
        }
    }
}

/// The number of captions a float's content numbers.
pub open spec fn float_caption_count(content: Seq<u8>, fig: bool) -> nat {
    float_body(content, fig, 0).1
}

/// Figures and tables are numbered separately and in document order: once
/// a float has been converted, the floats after it continue counting its
/// kind from where it left off, one more per caption it holds, while the
/// other kind's count is unchanged (so the second table caption of a
/// document reads `Table 2:`, whatever figures come between).
pub proof fn law_float_counters_advance(t: Seq<u8>, s: int, le: int, nf: nat, nt: nat, ab: int, i: int, q: int)
    requires
        0 <= s < t.len(),
        earliest_from(t, s, float_envs(), float_envs().len() as int) == Some((ab, i)),
        find_from(
            t,
            end_pat(float_envs()[i].spec_bytes()),
            skip_options(t, ab + begin_pat(float_envs()[i].spec_bytes()).len()),
        ) == Some(q),
    ensures
        ({
            let env = float_envs()[i].spec_bytes();
            let cs = skip_options(t, ab + begin_pat(env).len());
            let content = t.subrange(cs, q);
            let fig = in_list(env, figure_envs());
            let k = float_caption_count(content, fig);
            let e = q + end_pat(env).len();
            floats_from(t, s, le, nf, nt) == t.subrange(le, ab) + seq![0x0au8] + trim_ws(
                float_body(content, fig, if fig { nf } else { nt }).0,
            ) + seq![0x0au8] + floats_from(
                t,
                e,
                e,
                if fig { nf + k } else { nf },
                if fig { nt } else { nt + k },
            )
        }),
{
    let env = float_envs()[i].spec_bytes();
    let cs = skip_options(t, ab + begin_pat(env).len());
    let content = t.subrange(cs, q);
    let fig = in_list(env, figure_envs());
    let a = re_replace(INCLUDEGRAPHICS_PATTERN.spec_bytes(), content, EMPTY.spec_bytes());
    let b = re_replace(CENTERING_PATTERN.spec_bytes(), a, EMPTY.spec_bytes());
    let label = if fig { FIGURE.spec_bytes() } else { TABLE.spec_bytes() };
    lemma_captions_count_shift(b, label, 0, 0, if fig { nf } else { nt });
}

/// Floats as units: figure and table captions numbered in order, graphics
/// dropped.
pub open spec fn floats_converted(t: Seq<u8>) -> Seq<u8> {
    re_replace(INCLUDEGRAPHICS_PATTERN.spec_bytes(), floats_from(t, 0, 0, 0, 0), EMPTY.spec_bytes())
}

fn number_captions(c: &[u8], label: &str, n: usize) -> (res: (Vec<u8>, usize))
    requires
        n + c.len() < usize::MAX,
    ensures
        captions_from(c@, label.spec_bytes(), 0, 0, n as nat) == (res.0@, res.1 as nat),
        res.1 <= n + c.len(),
{
    let pat = env_marker_plain(CAPTION);
    let mut out: Vec<u8> = Vec::new();
    let mut le: usize = 0;
    let mut s: usize = 0;
    let mut k: usize = n;
    loop
        invariant
            le <= s <= c.len(),
            pat@ == seq![0x5cu8] + CAPTION.spec_bytes(),
            n <= k <= n + s,
            n + c.len() < usize::MAX,
            ({
                let r = captions_from(c@, label.spec_bytes(), s as int, le as int, k as nat);
                let full = captions_from(c@, label.spec_bytes(), 0, 0, n as nat);
                out@ + r.0 == full.0 && r.1 == full.1
            }),
        decreases c.len() + 1 - s,
    {
        let ghost o = out@;
        proof {
            lemma_find_from_bounds(c@, pat@, s as int);
        }
        match find_bytes(c, pat.as_slice(), s) {
            None => {
                push_range(&mut out, c, le, c.len());
                return (out, k);
            },
            Some(p) => {
                let after = p + pat.len();
                let ce = if after < c.len() && c[after] == 0x2a {
                    after + 1
                } else {
                    after
                };
                if ce < c.len() && is_alpha_byte(c[ce]) {
                    s = ce;
                } else {
                    let ao = after_optional_arg_bytes(c, ce);
                    match command_arg_bytes(c, ao) {
                        Some((cs, cend, ac)) => {
                            k = k + 1;
                            push_range(&mut out, c, le, p);
                            out.push(0x0a);
                            push_all(&mut out, label.as_bytes());
                            out.push(0x20);
                            push_decimal(&mut out, k as u64);
                            push_all(&mut out, COLON_SPACE.as_bytes());
                            push_range(&mut out, c, cs, cend);
                            out.push(0x0a);
                            proof {
                                let r = captions_from(c@, label.spec_bytes(), ac as int, ac as int, k as nat);
                                assert(o + (c@.subrange(le as int, p as int) + seq![0x0au8] + label.spec_bytes()
                                    + seq![0x20u8] + decimal(k as nat) + COLON_SPACE.spec_bytes() + c@.subrange(
                                    cs as int,
                                    cend as int,
                                ) + seq![0x0au8] + r.0) =~= out@ + r.0);
                            }
                            le = ac;
                            s = ac;
                        },
                        None => {
                            s = ce;
                        },
                    }
                }
            },
        }
    }
}

fn env_marker_plain(name: &str) -> (res: Vec<u8>)
    ensures
        res@ == seq![0x5cu8] + name.spec_bytes(),
        res@.len() > 0,
{
    let mut v: Vec<u8> = Vec::new();
    v.push(0x5c);
    push_all(&mut v, name.as_bytes());
    assert(v@ =~= seq![0x5cu8] + name.spec_bytes());
    v
}

fn float_body_bytes(content: &[u8], fig: bool, n: usize) -> (res: (Vec<u8>, usize))
    requires
        n + content.len() < usize::MAX,
    ensures
        float_body(content@, fig, n as nat) == (res.0@, res.1 as nat),
        res.1 <= n + content.len(),
{
    let empty = EMPTY.as_bytes();
    proof {
        reveal_strlit("");
    }
    assert(empty@.len() == 0);
    let a = re_replace_bytes(INCLUDEGRAPHICS_PATTERN, content, empty);
    let b = re_replace_bytes(CENTERING_PATTERN, a.as_slice(), empty);
    number_captions(b.as_slice(), if fig { FIGURE } else { TABLE }, n)
}

fn begin_markers(envs: &Vec<&'static str>) -> (res: Vec<Vec<u8>>)
    ensures
        res@.len() == envs@.len(),
        forall|i: int| 0 <= i < envs@.len() ==> (#[trigger] res@[i])@ == begin_pat(envs@[i].spec_bytes()),
{
    let mut out: Vec<Vec<u8>> = Vec::new();
    let mut i: usize = 0;
    while i < envs.len()
        invariant
            i <= envs.len(),
            out@.len() == i,
            forall|j: int| 0 <= j < i ==> (#[trigger] out@[j])@ == begin_pat(envs@[j].spec_bytes()),
        decreases envs.len() - i,
    {
        out.push(env_marker(BEGIN_OPEN, envs[i]));
        i = i + 1;
    }
    out
}

fn earliest_float(t: &[u8], s: usize, envs: &Vec<&'static str>, bps: &Vec<Vec<u8>>) -> (res: Option<(usize, usize)>)
    requires
        bps@.len() == envs@.len(),
        forall|i: int| 0 <= i < envs@.len() ==> (#[trigger] bps@[i])@ == begin_pat(envs@[i].spec_bytes()),
    ensures
        earliest_from(t@, s as int, envs@, envs@.len() as int) == match res {
            Some((p, i)) => Some((p as int, i as int)),
            None => None,
        },
{
    let mut best: Option<(usize, usize)> = None;
    let mut i: usize = 0;
    while i < envs.len()
        invariant
            i <= envs.len(),
            bps@.len() == envs@.len(),
            forall|j: int| 0 <= j < envs@.len() ==> (#[trigger] bps@[j])@ == begin_pat(envs@[j].spec_bytes()),
            earliest_from(t@, s as int, envs@, i as int) == match best {
                Some((p, k)) => Some((p as int, k as int)),
                None => None,
            },
        decreases envs.len() - i,
    {
        assert(bps@[i as int]@ == begin_pat(envs@[i as int].spec_bytes()));
        match find_bytes(t, bps[i].as_slice(), s) {
            None => {},
            Some(p) => {
                match best {
                    None => {
                        best = Some((p, i));
                    },
                    Some((bp, _)) => {
                        if p < bp {
                            best = Some((p, i));
                        }
                    },
                }
            },
        }
        i = i + 1;
    }
    best
}

fn push_trimmed(out: &mut Vec<u8>, b: &[u8])
    ensures
        final(out)@ == old(out)@ + trim_ws(b@),
{
    let (x, y) = trim_ws_range(b, 0, b.len());
    assert(b@.subrange(0, b@.len() as int) =~= b@);
    push_range(out, b, x, y);
}

/// Floats as units, before graphics are dropped from the rest.
fn floats_pass(t: &[u8]) -> (res: Vec<u8>)
    ensures
        res@ == floats_from(t@, 0, 0, 0, 0),
{
    let envs = float_env_list();
    let figs = figure_env_list();
    let bps = begin_markers(&envs);
    let mut out: Vec<u8> = Vec::new();
    let mut le: usize = 0;
    let mut s: usize = 0;
    let mut nf: usize = 0;
    let mut nt: usize = 0;
    loop
        invariant
            le <= s <= t.len(),
            nf + nt <= s,
            envs@ == float_envs(),
            figs@ == figure_envs(),
            bps@.len() == envs@.len(),
            forall|j: int| 0 <= j < envs@.len() ==> (#[trigger] bps@[j])@ == begin_pat(envs@[j].spec_bytes()),
            out@ + floats_from(t@, s as int, le as int, nf as nat, nt as nat) == floats_from(t@, 0, 0, 0, 0),
        decreases t.len() + 1 - s,
    {
        let ghost o = out@;
        if s >= t.len() {
            push_range(&mut out, t, le, t.len());
            return out;
        }
        proof {
            lemma_earliest(t@, s as int, float_envs(), float_envs().len() as int);
            lemma_marker_lengths();
        }
        match earliest_float(t, s, &envs, &bps) {
            None => {
                push_range(&mut out, t, le, t.len());
                return out;
            },
            Some((ab, i)) => {
                let env = envs[i];
                assert(bps@[i as int]@ == begin_pat(env.spec_bytes()));
                let after = ab + bps[i].len();
                proof {
                    lemma_skips(t@, after as int);
                }
                let cs = bracket_end(t, after);
                let ep = env_marker(END_OPEN, env);
                proof {
                    lemma_find_from_bounds(t@, ep@, cs as int);
                }
                match find_bytes(t, ep.as_slice(), cs) {
                    None => {
                        s = after;
                    },
                    Some(q) => {
                        let fig = bytes_in_list(env.as_bytes(), figs.as_slice());
                        let content = &t[cs..q];
                        assert(content@ =~= t@.subrange(cs as int, q as int));
                        let n = if fig {
                            nf
                        } else {
                            nt
                        };
                        let (body, n2) = float_body_bytes(content, fig, n);
                        let e = q + ep.len();
                        let ghost onf = nf;
                        let ghost ont = nt;
                        push_range(&mut out, t, le, ab);
                        out.push(0x0a);
                        push_trimmed(&mut out, body.as_slice());
                        out.push(0x0a);
                        if fig {
                            nf = n2;
                        } else {
                            nt = n2;
                        }
                        assert(o + floats_from(t@, s as int, le as int, onf as nat, ont as nat) =~= out@
                            + floats_from(t@, e as int, e as int, nf as nat, nt as nat));
                        le = e;
                        s = e;
                    },
                }
            },
        }
    }
}

/// Floats as units: captions numbered per figure and table, graphics
/// dropped.
fn convert_all_floats(t: &[u8]) -> (res: Vec<u8>)
    ensures
        res@ == floats_converted(t@),
{
    let a = floats_pass(t);
    re_replace_bytes(INCLUDEGRAPHICS_PATTERN, a.as_slice(), EMPTY.as_bytes())
}

pub const HEAD_OPEN: &'static str = "\n**";

pub const NAME_OPEN: &'static str = " (";

pub const NAMED_CLOSE: &'static str = ").** ";

pub const PLAIN_CLOSE: &'static str = ".** ";

/// `s` with its first letter uppercased.
pub open spec fn capitalized(s: Seq<u8>) -> Seq<u8> {
    if s.len() > 0 && 0x61 <= s[0] <= 0x7a {
        seq![(s[0] - 32) as u8] + s.subrange(1, s.len() as int)
    } else {
        s
    }
}

/// The text from `le` on with each begin marker `pat` found scanning from
/// `s` replaced by a bold heading `**Label (name).**` (with an optional
/// `[name]`) or `**Label.**`, on a new line.
pub open spec fn heads_from(t: Seq<u8>, pat: Seq<u8>, label: Seq<u8>, s: int, le: int) -> Seq<u8>
    decreases t.len() + 1 - s,
{
    if s < 0 || s > t.len() || pat.len() == 0 {
        t.subrange(le, t.len() as int)
    } else {
        proof {
            lemma_find_from_bounds(t, pat, s);
        }
        match find_from(t, pat, s) {
            None => t.subrange(le, t.len() as int),
            Some(p) => {
                let after = p + pat.len();
                proof {
                    crate::braces::lemma_skip_blanks_bounds(t, after);
                }
                let w = skip_blanks(t, after);
                if w < t.len() && t[w] == 0x5b && byte_end(t, w + 1, 0x5d) < t.len() {
                    let q = byte_end(t, w + 1, 0x5d);
                    proof {
                        lemma_byte_end(t, w + 1, 0x5d);
                    }
                    t.subrange(le, p) + HEAD_OPEN.spec_bytes() + label + NAME_OPEN.spec_bytes() + t.subrange(w + 1, q)
                        + NAMED_CLOSE.spec_bytes() + heads_from(t, pat, label, q + 1, q + 1)
                } else {
                    t.subrange(le, p) + HEAD_OPEN.spec_bytes() + label + PLAIN_CLOSE.spec_bytes() + heads_from(
                        t,
                        pat,
                        label,
                        after,
                        after,
                    )
                }
            },
        }
    }
}

fn replace_heads(t: &[u8], pat: &[u8], label: &[u8]) -> (res: Vec<u8>)
    requires
        pat@.len() > 0,
    ensures
        res@ == heads_from(t@, pat@, label@, 0, 0),
{
    let mut out: Vec<u8> = Vec::new();
    let mut s: usize = 0;
    loop
        invariant
            s <= t.len(),
            pat@.len() > 0,
            out@ + heads_from(t@, pat@, label@, s as int, s as int) == heads_from(t@, pat@, label@, 0, 0),
        decreases t.len() + 1 - s,
    {
        let ghost o = out@;
        proof {
            lemma_find_from_bounds(t@, pat@, s as int);
        }
        match find_bytes(t, pat, s) {
            None => {
                push_range(&mut out, t, s, t.len());
                return out;
            },
            Some(p) => {
                let after = p + pat.len();
                let w = skip_blanks_bytes(t, after);
                push_range(&mut out, t, s, p);
                push_all(&mut out, HEAD_OPEN.as_bytes());
                push_all(&mut out, label);
                let mut named = false;
                if w < t.len() && t[w] == 0x5b {
                    proof {
                        lemma_byte_end(t@, w + 1, 0x5d);
                    }
                    let mut q = w + 1;
                    while q < t.len() && t[q] != 0x5d
                        invariant
                            w + 1 <= q <= t.len(),
                            byte_end(t@, q as int, 0x5d) == byte_end(t@, w + 1, 0x5d),
                        decreases t.len() - q,
                    {
                        q = q + 1;
                    }
                    if q < t.len() {
                        push_all(&mut out, NAME_OPEN.as_bytes());
                        push_range(&mut out, t, w + 1, q);
                        push_all(&mut out, NAMED_CLOSE.as_bytes());
                        assert(o + heads_from(t@, pat@, label@, s as int, s as int) =~= out@ + heads_from(
                            t@,
                            pat@,
                            label@,
                            q + 1,
                            q + 1,
                        ));
                        s = q + 1;
                        named = true;
                    }
                }
                if !named {
                    push_all(&mut out, PLAIN_CLOSE.as_bytes());
                    assert(o + heads_from(t@, pat@, label@, s as int, s as int) =~= out@ + heads_from(
                        t@,
                        pat@,
                        label@,
                        after as int,
                        after as int,
                    ));
                    s = after;
                }
            },
        }
    }
}

pub const QED: &'static str = "\\qed";

pub const QEDSYMBOL: &'static str = "\\qedsymbol";

pub const QED_MARK: &'static str = " \u{25A1}";

/// The text from `s` on with each end marker `ep` replaced by a new line,
/// preceded by ` □` unless the text since the previous marker holds `\qed`
/// or `\qedsymbol`.
pub open spec fn qed_from(t: Seq<u8>, ep: Seq<u8>, s: int) -> Seq<u8>
    decreases t.len() + 1 - s,
{
    if s < 0 || s > t.len() || ep.len() == 0 {
        t.subrange(s, t.len() as int)
    } else {
        proof {
            lemma_find_from_bounds(t, ep, s);
        }
        match find_from(t, ep, s) {
            None => t.subrange(s, t.len() as int),
            Some(p) => {
                let body = t.subrange(s, p);
                let has_qed = contains(body, QED.spec_bytes()) || contains(body, QEDSYMBOL.spec_bytes());
                body + (if has_qed {
                    Seq::empty()
                } else {
                    QED_MARK.spec_bytes()
                }) + seq![0x0au8] + qed_from(t, ep, p + ep.len())
            },
        }
    }
}

fn append_qed(t: &[u8], ep: &[u8]) -> (res: Vec<u8>)
    requires
        ep@.len() > 0,
    ensures
        res@ == qed_from(t@, ep@, 0),
{
    let mut out: Vec<u8> = Vec::new();
    let mut s: usize = 0;
    loop
        invariant
            s <= t.len(),
            ep@.len() > 0,
            out@ + qed_from(t@, ep@, s as int) == qed_from(t@, ep@, 0),
        decreases t.len() + 1 - s,
    {
        let ghost o = out@;
        proof {
            lemma_find_from_bounds(t@, ep@, s as int);
        }
        match find_bytes(t, ep, s) {
            None => {
                push_range(&mut out, t, s, t.len());
                return out;
            },
            Some(p) => {
                let body = &t[s..p];
                assert(body@ =~= t@.subrange(s as int, p as int));
                let has_qed = bytes_contains(body, QED.as_bytes()) || bytes_contains(body, QEDSYMBOL.as_bytes());
                push_all(&mut out, body);
                if !has_qed {
                    push_all(&mut out, QED_MARK.as_bytes());
                }
                out.push(0x0a);
                assert(o + qed_from(t@, ep@, s as int) =~= out@ + qed_from(t@, ep@, p + ep@.len()));
                s = p + ep.len();
            },
        }
    }
}

/// `env` followed by a star.
pub open spec fn starred(env: Seq<u8>) -> Seq<u8> {
    env + seq![0x2au8]
}

/// A theorem-like environment as bold headings: begin markers (plain and
/// starred) become `**Label (name).**` or `**Label.**`; end markers become
/// new lines, for proofs preceded by a QED mark unless one is there.
#[verifier::opaque]
pub open spec fn theorem_converted(t: Seq<u8>, env: Seq<u8>, label: Seq<u8>, qed: bool) -> Seq<u8> {
    let a = heads_from(t, begin_pat(env), label, 0, 0);
    let b = heads_from(a, begin_pat(starred(env)), label, 0, 0);
    if qed {
        qed_from(qed_from(b, end_pat(env), 0), end_pat(starred(env)), 0)
    } else {
        replace_all_spec(
            replace_all_spec(b, end_pat(env), NEWLINE.spec_bytes()),
            end_pat(starred(env)),
            NEWLINE.spec_bytes(),
        )
    }
}

fn marker_bytes(open: &[u8], env: &[u8]) -> (res: Vec<u8>)
    ensures
        res@ == open@ + env@ + CLOSE_BRACE.spec_bytes(),
        res@.len() > 0,
{
    proof {
        lemma_marker_lengths();
    }
    let mut v: Vec<u8> = Vec::new();
    push_all(&mut v, open);
    push_all(&mut v, env);
    push_all(&mut v, CLOSE_BRACE.as_bytes());
    v
}

fn convert_theorem(t: &[u8], env: &[u8], label: &[u8], qed: bool) -> (res: Vec<u8>)
    ensures
        res@ == theorem_converted(t@, env@, label@, qed),
{
    let mut envs: Vec<u8> = Vec::new();
    push_all(&mut envs, env);
    envs.push(0x2a);
    assert(envs@ =~= starred(env@));
    let bp = marker_bytes(BEGIN_OPEN.as_bytes(), env);
    let bps = marker_bytes(BEGIN_OPEN.as_bytes(), envs.as_slice());
    let ep = marker_bytes(END_OPEN.as_bytes(), env);
    let eps = marker_bytes(END_OPEN.as_bytes(), envs.as_slice());
    let a = replace_heads(t, bp.as_slice(), label);
    let b = replace_heads(a.as_slice(), bps.as_slice(), label);
    proof {
        reveal(theorem_converted);
    }
    if qed {
        let c = append_qed(b.as_slice(), ep.as_slice());
        append_qed(c.as_slice(), eps.as_slice())
    } else {
        let c = replace_bytes(b.as_slice(), ep.as_slice(), NEWLINE.as_bytes());
        replace_bytes(c.as_slice(), eps.as_slice(), NEWLINE.as_bytes())
    }
}

pub const PROOF: &'static str = "proof";

/// The theorem-like environments of `envs[..n]` converted in turn, each
/// labelled by its capitalized name, proofs with a QED mark.
pub open spec fn theorems_converted(t: Seq<u8>, envs: Seq<&'static str>, n: int) -> Seq<u8>
    decreases n,
{
    if n <= 0 {
        t
    } else {
        let env = envs[n - 1].spec_bytes();
        theorem_converted(theorems_converted(t, envs, n - 1), env, capitalized(env), env == PROOF.spec_bytes())
    }
}

fn capitalize(s: &[u8]) -> (res: Vec<u8>)
    ensures
        res@ == capitalized(s@),
{
    let mut v: Vec<u8> = Vec::new();
    if s.len() > 0 && 0x61 <= s[0] && s[0] <= 0x7a {
        v.push(s[0] - 32);
        push_range(&mut v, s, 1, s.len());
    } else {
        push_all(&mut v, s);
    }
    assert(v@ =~= capitalized(s@));
    v
}

fn convert_theorems(t: Vec<u8>, envs: &Vec<&'static str>) -> (res: Vec<u8>)
    ensures
        res@ == theorems_converted(t@, envs@, envs@.len() as int),
{
    let ghost t0 = t@;
    let mut cur = t;
    let mut i: usize = 0;
    while i < envs.len()
        invariant
            i <= envs.len(),
            cur@ == theorems_converted(t0, envs@, i as int),
        decreases envs.len() - i,
    {
        let env = envs[i].as_bytes();
        let label = capitalize(env);
        let qed = crate::scan::bytes_eq(env, PROOF.as_bytes());
        cur = convert_theorem(cur.as_slice(), env, label.as_slice(), qed);
        i = i + 1;
    }
    cur
}

/// The custom theorem environments of `m[..n]` (preamble name to display
/// name) not among `theorem_envs`, converted in turn.
pub open spec fn custom_converted(t: Seq<u8>, m: Seq<(Seq<char>, Seq<char>)>, n: int) -> Seq<u8>
    decreases n,
{
    if n <= 0 {
        t
    } else {
        let prev = custom_converted(t, m, n - 1);
        let name = vstd::utf8::encode_utf8(m[n - 1].0);
        if in_list(name, theorem_envs()) {
            prev
        } else {
            theorem_converted(prev, name, vstd::utf8::encode_utf8(m[n - 1].1), false)
        }
    }
}

fn convert_custom_theorems(t: Vec<u8>, m: &TextMap) -> (res: Vec<u8>)
    ensures
        res@ == custom_converted(t@, m.entry_seq(), m.entry_seq().len() as int),
{
    let known = theorem_env_list();
    let ghost t0 = t@;
    let mut cur = t;
    let mut i: usize = 0;
    while i < m.len()
        invariant
            i <= m.entry_seq().len(),
            known@ == theorem_envs(),
            cur@ == custom_converted(t0, m.entry_seq(), i as int),
        decreases m.entry_seq().len() - i,
    {
        let (k, v) = m.entry(i);
        let name = k.as_str().as_bytes();
        if !bytes_in_list(name, known.as_slice()) {
            cur = convert_theorem(cur.as_slice(), name, v.as_str().as_bytes(), false);
        }
        i = i + 1;
    }
    cur
}

pub const DISPLAY_OPEN: &'static str = "\n$$\n";

pub const NUMBER_OPEN: &'static str = " (";

pub const NUMBER_CLOSE: &'static str = ")";

/// The text from `le` on with each `bp..ep` environment found scanning from
/// `s` replaced by display math numbered from `n + 1`; also the last number
/// used. Numbering stops once the count would not fit in `usize`.
pub open spec fn numbered_from(t: Seq<u8>, bp: Seq<u8>, ep: Seq<u8>, s: int, le: int, n: nat) -> (Seq<u8>, nat)
    decreases t.len() + 1 - s,
{
    if s < 0 || s > t.len() || bp.len() == 0 || n >= usize::MAX {
        (t.subrange(le, t.len() as int), n)
    } else {
        proof {
            lemma_find_from_bounds(t, bp, s);
        }
        match find_from(t, bp, s) {
            None => (t.subrange(le, t.len() as int), n),
            Some(ab) => {
                let cs = ab + bp.len();
                proof {
                    lemma_find_from_bounds(t, ep, cs);
                }
                match find_from(t, ep, cs) {
                    None => numbered_from(t, bp, ep, cs, le, n),
                    Some(q) => {
                        let rest = numbered_from(t, bp, ep, q + ep.len(), q + ep.len(), n + 1);
                        (
                            t.subrange(le, ab) + DISPLAY_OPEN.spec_bytes() + t.subrange(cs, q) + NUMBER_OPEN.spec_bytes()
                                + decimal(n + 1) + NUMBER_CLOSE.spec_bytes() + DISPLAY_OPEN.spec_bytes() + rest.0,
                            rest.1,
                        )
                    },
                }
            },
        }
    }
}

fn number_math_env(t: &[u8], bp: &[u8], ep: &[u8], n: usize) -> (res: (Vec<u8>, usize))
    requires
        bp@.len() > 0,
    ensures
        numbered_from(t@, bp@, ep@, 0, 0, n as nat) == (res.0@, res.1 as nat),
{
    let mut out: Vec<u8> = Vec::new();
    let mut le: usize = 0;
    let mut s: usize = 0;
    let mut k: usize = n;
    loop
        invariant
            le <= s <= t.len(),
            bp@.len() > 0,
            ({
                let r = numbered_from(t@, bp@, ep@, s as int, le as int, k as nat);
                let full = numbered_from(t@, bp@, ep@, 0, 0, n as nat);
                out@ + r.0 == full.0 && r.1 == full.1
            }),
        decreases t.len() + 1 - s,
    {
        let ghost o = out@;
        if k == usize::MAX {
            push_range(&mut out, t, le, t.len());
            return (out, k);
        }
        proof {
            lemma_find_from_bounds(t@, bp@, s as int);
        }
        match find_bytes(t, bp, s) {
            None => {
                push_range(&mut out, t, le, t.len());
                return (out, k);
            },
            Some(ab) => {
                let cs = ab + bp.len();
                proof {
                    lemma_find_from_bounds(t@, ep@, cs as int);
                }
                match find_bytes(t, ep, cs) {
                    None => {
                        s = cs;
                    },
                    Some(q) => {
                        k = k + 1;
                        push_range(&mut out, t, le, ab);
                        push_all(&mut out, DISPLAY_OPEN.as_bytes());
                        push_range(&mut out, t, cs, q);
                        push_all(&mut out, NUMBER_OPEN.as_bytes());
                        push_decimal(&mut out, k as u64);
                        push_all(&mut out, NUMBER_CLOSE.as_bytes());
                        push_all(&mut out, DISPLAY_OPEN.as_bytes());
                        let e = q + ep.len();
                        proof {
                            let r = numbered_from(t@, bp@, ep@, e as int, e as int, k as nat);
                            assert(o + (t@.subrange(le as int, ab as int) + DISPLAY_OPEN.spec_bytes() + t@.subrange(
                                cs as int,
                                q as int,
                            ) + NUMBER_OPEN.spec_bytes() + decimal(k as nat) + NUMBER_CLOSE.spec_bytes()
                                + DISPLAY_OPEN.spec_bytes() + r.0) =~= out@ + r.0);
                        }
                        le = e;
                        s = e;
                    },
                }
            },
        }
    }
}

pub const DISPLAYMATH: &'static str = "displaymath";

/// An unnumbered math environment: starred, or `displaymath`.
pub open spec fn unnumbered(env: Seq<u8>) -> bool {
    (env.len() > 0 && env.last() == 0x2a) || env == DISPLAYMATH.spec_bytes()
}

/// The math environments of `envs[..n]` turned into display math in turn,
/// numbered ones sharing one counter; also the count.
pub open spec fn math_converted(t: Seq<u8>, envs: Seq<&'static str>, n: int) -> (Seq<u8>, nat)
    decreases n,
{
    if n <= 0 {
        (t, 0)
    } else {
        let (prev, k) = math_converted(t, envs, n - 1);
        let env = envs[n - 1].spec_bytes();
        if unnumbered(env) {
            (
                replace_all_spec(
                    replace_all_spec(prev, begin_pat(env), DISPLAY_OPEN.spec_bytes()),
                    end_pat(env),
                    DISPLAY_OPEN.spec_bytes(),
                ),
                k,
            )
        } else {
            numbered_from(prev, begin_pat(env), end_pat(env), 0, 0, k)
        }
    }
}

fn convert_math_envs(t: Vec<u8>) -> (res: Vec<u8>)
    ensures
        res@ == math_converted(t@, math_envs(), math_envs().len() as int).0,
{
    let envs = math_env_list();
    let ghost t0 = t@;
    let mut cur = t;
    let mut k: usize = 0;
    let mut i: usize = 0;
    while i < envs.len()
        invariant
            i <= envs.len(),
            envs@ == math_envs(),
            math_converted(t0, math_envs(), i as int) == (cur@, k as nat),
        decreases envs.len() - i,
    {
        let env = envs[i].as_bytes();
        let bp = marker_bytes(BEGIN_OPEN.as_bytes(), env);
        let ep = marker_bytes(END_OPEN.as_bytes(), env);
        assert(bp@ == begin_pat(envs@[i as int].spec_bytes()));
        let un = (env.len() > 0 && env[env.len() - 1] == 0x2a) || crate::scan::bytes_eq(env, DISPLAYMATH.as_bytes());
        if un {
            let a = replace_bytes(cur.as_slice(), bp.as_slice(), DISPLAY_OPEN.as_bytes());
            cur = replace_bytes(a.as_slice(), ep.as_slice(), DISPLAY_OPEN.as_bytes());
        } else {
            let (c, k2) = number_math_env(cur.as_slice(), bp.as_slice(), ep.as_slice(), k);
            cur = c;
            k = k2;
        }
        i = i + 1;
    }
    cur
}

/// The text from `s` on with the interior of each `$$` display block
/// cleaned: `&` becomes a space and `\\` a new line.
pub open spec fn display_cleaned_from(t: Seq<u8>, s: int) -> Seq<u8>
    decreases t.len() + 1 - s,
{
    let d = DISPLAY_OPEN.spec_bytes();
    if s < 0 || s > t.len() || d.len() == 0 {
        t.subrange(s, t.len() as int)
    } else {
        proof {
            lemma_find_from_bounds(t, d, s);
        }
        match find_from(t, d, s) {
            None => t.subrange(s, t.len() as int),
            Some(o) => {
                let cs = o + d.len();
                proof {
                    lemma_find_from_bounds(t, d, cs);
                }
                match find_from(t, d, cs) {
                    None => t.subrange(s, t.len() as int),
                    Some(c) => t.subrange(s, cs) + display_interior(t.subrange(cs, c)) + display_cleaned_from(t, c),
                }
            },
        }
    }
}

pub const AMP: &'static str = "&";

/// A display block's interior: `&` to spaces, `\\` line breaks to new lines.
pub open spec fn display_interior(x: Seq<u8>) -> Seq<u8> {
    re_replace(LINE_BREAK_PATTERN.spec_bytes(), replace_all_spec(x, AMP.spec_bytes(), SPACE.spec_bytes()), NEWLINE.spec_bytes())
}

pub const SPACE: &'static str = " ";

fn clean_math_display_interiors(t: &[u8]) -> (res: Vec<u8>)
    ensures
        res@ == display_cleaned_from(t@, 0),
{
    let d = DISPLAY_OPEN.as_bytes();
    let mut out: Vec<u8> = Vec::new();
    if d.len() == 0 {
        push_all(&mut out, t);
        assert(t@.subrange(0, t@.len() as int) =~= t@);
        return out;
    }
    let mut s: usize = 0;
    loop
        invariant
            s <= t.len(),
            d@ == DISPLAY_OPEN.spec_bytes(),
            d@.len() > 0,
            out@ + display_cleaned_from(t@, s as int) == display_cleaned_from(t@, 0),
        decreases t.len() + 1 - s,
    {
        let ghost o = out@;
        proof {
            lemma_find_from_bounds(t@, d@, s as int);
        }
        match find_bytes(t, d, s) {
            None => {
                push_range(&mut out, t, s, t.len());
                return out;
            },
            Some(op) => {
                let cs = op + d.len();
                proof {
                    lemma_find_from_bounds(t@, d@, cs as int);
                }
                match find_bytes(t, d, cs) {
                    None => {
                        push_range(&mut out, t, s, t.len());
                        return out;
                    },
                    Some(c) => {
                        push_range(&mut out, t, s, cs);
                        let inner = &t[cs..c];
                        assert(inner@ =~= t@.subrange(cs as int, c as int));
                        let a = replace_bytes(inner, AMP.as_bytes(), SPACE.as_bytes());
                        let b = re_replace_bytes(LINE_BREAK_PATTERN, a.as_slice(), NEWLINE.as_bytes());
                        push_all(&mut out, b.as_slice());
                        assert(o + display_cleaned_from(t@, s as int) =~= out@ + display_cleaned_from(t@, c as int));
                        s = c;
                    },
                }
            },
        }
    }
}

/// The text from `le` on with each `bp..ep` table environment found
/// scanning from `s` replaced by its cells on lines of their own, `&`
/// separators turned into spaces (the column spec and options dropped).
pub open spec fn tabular_from(t: Seq<u8>, bp: Seq<u8>, ep: Seq<u8>, s: int, le: int) -> Seq<u8>
    decreases t.len() + 1 - s,
{
    if s < 0 || s > t.len() || bp.len() == 0 {
        t.subrange(le, t.len() as int)
    } else {
        proof {
            lemma_find_from_bounds(t, bp, s);
        }
        match find_from(t, bp, s) {
            None => t.subrange(le, t.len() as int),
            Some(ab) => {
                let after = ab + bp.len();
                proof {
                    lemma_skips(t, after);
                    lemma_find_from_bounds(t, ep, skip_args(t, after));
                }
                let ao = skip_args(t, after);
                match find_from(t, ep, ao) {
                    None => tabular_from(t, bp, ep, after, le),
                    Some(q) => t.subrange(le, ab) + seq![0x0au8] + replace_all_spec(
                        t.subrange(ao, q),
                        AMP.spec_bytes(),
                        SPACE.spec_bytes(),
                    ) + seq![0x0au8] + tabular_from(t, bp, ep, q + ep.len(), q + ep.len()),
                }
            },
        }
    }
}

fn convert_tabular_env(t: &[u8], env: &str) -> (res: Vec<u8>)
    ensures
        res@ == tabular_from(t@, begin_pat(env.spec_bytes()), end_pat(env.spec_bytes()), 0, 0),
{
    let bp = env_marker(BEGIN_OPEN, env);
    let ep = env_marker(END_OPEN, env);
    let mut out: Vec<u8> = Vec::new();
    let mut le: usize = 0;
    let mut s: usize = 0;
    loop
        invariant
            le <= s <= t.len(),
            bp@.len() > 0,
            bp@ == begin_pat(env.spec_bytes()),
            ep@ == end_pat(env.spec_bytes()),
            out@ + tabular_from(t@, bp@, ep@, s as int, le as int) == tabular_from(t@, bp@, ep@, 0, 0),
        decreases t.len() + 1 - s,
    {
        let ghost o = out@;
        proof {
            lemma_find_from_bounds(t@, bp@, s as int);
        }
        match find_bytes(t, bp.as_slice(), s) {
            None => {
                push_range(&mut out, t, le, t.len());
                return out;
            },
            Some(ab) => {
                let after = ab + bp.len();
                let ao = args_end(t, after);
                proof {
                    lemma_find_from_bounds(t@, ep@, ao as int);
                }
                match find_bytes(t, ep.as_slice(), ao) {
                    None => {
                        s = after;
                    },
                    Some(q) => {
                        push_range(&mut out, t, le, ab);
                        out.push(0x0a);
                        let cells = &t[ao..q];
                        assert(cells@ =~= t@.subrange(ao as int, q as int));
                        let c = replace_bytes(cells, AMP.as_bytes(), SPACE.as_bytes());
                        push_all(&mut out, c.as_slice());
                        out.push(0x0a);
                        let e = q + ep.len();
                        assert(o + tabular_from(t@, bp@, ep@, s as int, le as int) =~= out@ + tabular_from(
                            t@,
                            bp@,
                            ep@,
                            e as int,
                            e as int,
                        ));
                        le = e;
                        s = e;
                    },
                }
            },
        }
    }
}

/// The table environments of `envs[..n]` converted in turn.
pub open spec fn tabulars_converted(t: Seq<u8>, envs: Seq<&'static str>, n: int) -> Seq<u8>
    decreases n,
{
    if n <= 0 {
        t
    } else {
        let env = envs[n - 1].spec_bytes();
        tabular_from(tabulars_converted(t, envs, n - 1), begin_pat(env), end_pat(env), 0, 0)
    }
}

pub const KEYWORDS_HEAD: &'static str = "\n**Keywords:** ";

/// Keyword environments introduced by `**Keywords:**`.
pub open spec fn keywords_converted(t: Seq<u8>, envs: Seq<&'static str>, n: int) -> Seq<u8>
    decreases n,
{
    if n <= 0 {
        t
    } else {
        let env = envs[n - 1].spec_bytes();
        replace_all_spec(
            replace_all_spec(keywords_converted(t, envs, n - 1), begin_pat(env), KEYWORDS_HEAD.spec_bytes()),
            end_pat(env),
            NEWLINE.spec_bytes(),
        )
    }
}

pub const BIBLIOGRAPHY: &'static str = "thebibliography";

pub const REFERENCES_HEAD: &'static str = "\n## References\n";

/// The bibliography environment as a References heading.
pub open spec fn bibliography_converted(t: Seq<u8>) -> Seq<u8> {
    let env = BIBLIOGRAPHY.spec_bytes();
    replace_all_spec(
        markers_from(t, begin_pat(env), true, REFERENCES_HEAD.spec_bytes(), 0, 0),
        end_pat(env),
        NEWLINE.spec_bytes(),
    )
}

pub const DISPLAY_MATH_OPEN_PATTERN: &'static str = "\\\\\\[";

pub const DISPLAY_MATH_CLOSE_PATTERN: &'static str = "\\\\]";

/// `$$$$` in a replacement template stands for `$$`.
pub const DISPLAY_TEMPLATE: &'static str = "\n$$$$\n";

pub const ALGO_COMMAND_PATTERN: &'static str = "\\\\(?:State|If|Else|ElsIf|EndIf|While|EndWhile|For|EndFor|ForAll|EndForAll|Return|Require|Ensure|Input|Output|Procedure|EndProcedure|Function|EndFunction|Loop|EndLoop|Repeat|Until|Comment)\\b";

pub const BEGIN_ANY_PATTERN: &'static str = "\\\\begin\\{[^{}]*\\}(?:\\{[^{}]*\\})*(?:\\[[^\\]]*\\])?";

pub const END_ANY_PATTERN: &'static str = "\\\\end\\{[^{}]*\\}";

pub const CENTER: &'static str = "center";

/// Stage one: lists, items and floats.
pub open spec fn env_stage1(t: Seq<u8>) -> Seq<u8> {
    floats_converted(items_converted(all_markers_removed(t, list_envs(), false, list_envs().len() as int)))
}

/// Stage two: quotes, centering and theorems (custom ones from `m`).
pub open spec fn env_stage2(t: Seq<u8>, m: Seq<(Seq<char>, Seq<char>)>) -> Seq<u8> {
    let a = all_markers_removed(t, quote_envs(), false, quote_envs().len() as int);
    let b = markers_removed(a, CENTER.spec_bytes(), false);
    let c = re_replace(CENTERING_PATTERN.spec_bytes(), b, EMPTY.spec_bytes());
    let d = theorems_converted(c, theorem_envs(), theorem_envs().len() as int);
    custom_converted(d, m, m.len() as int)
}

/// Stage three: math environments to display math, interiors cleaned.
pub open spec fn env_stage3(t: Seq<u8>) -> Seq<u8> {
    display_cleaned_from(math_converted(t, math_envs(), math_envs().len() as int).0, 0)
}

/// Stage four: `\[ \]`, tables and algorithms.
pub open spec fn env_stage4(t: Seq<u8>) -> Seq<u8> {
    let a = re_replace(DISPLAY_MATH_OPEN_PATTERN.spec_bytes(), t, DISPLAY_TEMPLATE.spec_bytes());
    let b = re_replace(DISPLAY_MATH_CLOSE_PATTERN.spec_bytes(), a, DISPLAY_TEMPLATE.spec_bytes());
    let c = tabulars_converted(b, tabular_envs(), tabular_envs().len() as int);
    let d = all_markers_removed(c, algorithm_envs(), false, algorithm_envs().len() as int);
    re_replace(ALGO_COMMAND_PATTERN.spec_bytes(), d, EMPTY.spec_bytes())
}

/// Stage five: keywords, layout and verbatim environments, the
/// bibliography, discarded environments and any other markers.
pub open spec fn env_stage5(t: Seq<u8>) -> Seq<u8> {
    let a = keywords_converted(t, keyword_envs(), keyword_envs().len() as int);
    let b = all_markers_removed(a, layout_envs(), true, layout_envs().len() as int);
    let c = all_markers_removed(b, verbatim_envs(), false, verbatim_envs().len() as int);
    let d = bibliography_converted(c);
    let e = all_discarded(d, discard_envs(), discard_envs().len() as int);
    re_replace(END_ANY_PATTERN.spec_bytes(), re_replace(BEGIN_ANY_PATTERN.spec_bytes(), e, NEWLINE.spec_bytes()), NEWLINE.spec_bytes())
}

fn stage1(t: &[u8]) -> (res: Vec<u8>)
    ensures
        res@ == env_stage1(t@),
{
    let mut cur: Vec<u8> = Vec::new();
    push_all(&mut cur, t);
    assert(cur@ =~= t@);
    let a = remove_all_markers(cur, &list_env_list(), false);
    let b = convert_items_bytes(a.as_slice());
    convert_all_floats(b.as_slice())
}

fn stage2(t: Vec<u8>, m: &TextMap) -> (res: Vec<u8>)
    ensures
        res@ == env_stage2(t@, m.entry_seq()),
{
    let a = remove_all_markers(t, &quote_env_list(), false);
    let b = remove_env_markers(a.as_slice(), CENTER, false);
    let c = re_replace_bytes(CENTERING_PATTERN, b.as_slice(), EMPTY.as_bytes());
    let d = convert_theorems(c, &theorem_env_list());
    convert_custom_theorems(d, m)
}

fn stage3(t: Vec<u8>) -> (res: Vec<u8>)
    ensures
        res@ == env_stage3(t@),
{
    let a = convert_math_envs(t);
    clean_math_display_interiors(a.as_slice())
}

fn stage4(t: &[u8]) -> (res: Vec<u8>)
    ensures
        res@ == env_stage4(t@),
{
    let a = re_replace_bytes(DISPLAY_MATH_OPEN_PATTERN, t, DISPLAY_TEMPLATE.as_bytes());
    let b = re_replace_bytes(DISPLAY_MATH_CLOSE_PATTERN, a.as_slice(), DISPLAY_TEMPLATE.as_bytes());
    let envs = tabular_env_list();
    let ghost b0 = b@;
    let mut cur = b;
    let mut i: usize = 0;
    while i < envs.len()
        invariant
            i <= envs.len(),
            envs@ == tabular_envs(),
            cur@ == tabulars_converted(b0, tabular_envs(), i as int),
        decreases envs.len() - i,
    {
        cur = convert_tabular_env(cur.as_slice(), envs[i]);
        i = i + 1;
    }
    let d = remove_all_markers(cur, &algorithm_env_list(), false);
    re_replace_bytes(ALGO_COMMAND_PATTERN, d.as_slice(), EMPTY.as_bytes())
}

fn stage5(t: &[u8]) -> (res: Vec<u8>)
    ensures
        res@ == env_stage5(t@),
{
    let envs = keyword_env_list();
    let mut cur: Vec<u8> = Vec::new();
    push_all(&mut cur, t);
    assert(cur@ =~= t@);
    let mut i: usize = 0;
    while i < envs.len()
        invariant
            i <= envs.len(),
            envs@ == keyword_envs(),
            cur@ == keywords_converted(t@, keyword_envs(), i as int),
        decreases envs.len() - i,
    {
        let bp = env_marker(BEGIN_OPEN, envs[i]);
        let ep = env_marker(END_OPEN, envs[i]);
        let a = replace_bytes(cur.as_slice(), bp.as_slice(), KEYWORDS_HEAD.as_bytes());
        cur = replace_bytes(a.as_slice(), ep.as_slice(), NEWLINE.as_bytes());
        i = i + 1;
    }
    let b = remove_all_markers(cur, &layout_env_list(), true);
    let c = remove_all_markers(b, &verbatim_env_list(), false);
    let bbp = env_marker(BEGIN_OPEN, BIBLIOGRAPHY);
    let bep = env_marker(END_OPEN, BIBLIOGRAPHY);
    let d0 = replace_markers(c.as_slice(), bbp.as_slice(), true, REFERENCES_HEAD.as_bytes());
    let d = replace_bytes(d0.as_slice(), bep.as_slice(), NEWLINE.as_bytes());
    let denvs = discard_env_list();
    let ghost dv = d@;
    let mut e = d;
    let mut j: usize = 0;
    while j < denvs.len()
        invariant
            j <= denvs.len(),
            denvs@ == discard_envs(),
            e@ == all_discarded(dv, discard_envs(), j as int),
        decreases denvs.len() - j,
    {
        e = discard_env(e.as_slice(), denvs[j]);
        j = j + 1;
    }
    let f = re_replace_bytes(BEGIN_ANY_PATTERN, e.as_slice(), NEWLINE.as_bytes());
    re_replace_bytes(END_ANY_PATTERN, f.as_slice(), NEWLINE.as_bytes())
}

/// The complete conversion of environments.
pub open spec fn environments_converted(t: Seq<u8>, m: Seq<(Seq<char>, Seq<char>)>) -> Seq<u8> {
    env_stage5(env_stage4(env_stage3(env_stage2(env_stage1(t), m))))
}

/// Convert LaTeX environments to readable text: lists to `- ` items,
/// floats to their numbered captions, theorems to bold headings, math to
/// `$$` display blocks, tables to their cells, the bibliography to a
/// References heading; drawing and file environments go, other markers
/// become new lines. `custom_theorems` maps preamble environment names to
/// their display names. When `deadline` passes, the text converted so far
/// (after one of the first four stages) is returned.
pub fn convert_environments(text: &str, custom_theorems: &TextMap, deadline: Option<std::time::Instant>) -> (res: String)
    ensures
        ({
            let t = text.spec_bytes();
            let m = custom_theorems.entry_seq();
            let s1 = env_stage1(t);
            let s2 = env_stage2(s1, m);
            let s3 = env_stage3(s2);
            let s4 = env_stage4(s3);
            &&& deadline is None ==> res@ == utf8_lossy(environments_converted(t, m))
            &&& (res@ == utf8_lossy(environments_converted(t, m)) || res@ == utf8_lossy(s1) || res@
                == utf8_lossy(s2) || res@ == utf8_lossy(s3) || res@ == utf8_lossy(s4))
        }),
{
    let a = stage1(text.as_bytes());
    if deadline_expired(deadline) {
        return string_from_bytes(a.as_slice());
    }
    let b = stage2(a, custom_theorems);
    if deadline_expired(deadline) {
        return string_from_bytes(b.as_slice());
    }
    let c = stage3(b);
    if deadline_expired(deadline) {
        return string_from_bytes(c.as_slice());
    }
    let d = stage4(c.as_slice());
    if deadline_expired(deadline) {
        return string_from_bytes(d.as_slice());
    }
    let e = stage5(d.as_slice());
    string_from_bytes(e.as_slice())
}

} // verus!
