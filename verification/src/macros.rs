//! Collection and expansion of user-defined macros (`\newcommand`, `\def`,
//! `\newtheorem`).

use vstd::prelude::*;
use vstd::string::StringSliceAdditionalSpecFns;
use crate::braces::{
    braced_group, braced_group_bytes, optional_arg, optional_arg_bytes, closing_bracket_from, command_arg, command_arg_bytes,
    is_alpha, is_alpha_byte, lemma_closing_bracket_bounds, lemma_skip_blanks_bounds,
    skip_blanks, skip_blanks_bytes,
};
use crate::outside::{captures_view, group_end, group_start, well_formed_captures};
use crate::regexes::{re_captures, re_captures_bytes};
use crate::replacer::CommandReplacer;
use crate::scan::{
    find_from,
    bytes_in_list, in_list, push_all, push_range, skip_ascii_ws, skip_ascii_ws_bytes,
    slice_to_vec,
};
use crate::text::{string_from_bytes, utf8_lossy};
use crate::textmap::{entries_insert, TextMap};

verus! {

/// `\newcommand{\name}`, `\renewcommand`, `\providecommand` (optionally
/// starred): group 1 is the macro name.
pub const NEWCOMMAND_PATTERN: &'static str = "\\\\(?:(?:re)?new|provide)command\\*?\\{(\\\\[a-zA-Z]+)\\}";

/// `\def\name`: group 1 is the macro name.
pub const DEF_PATTERN: &'static str = "\\\\def\\s*(\\\\[a-zA-Z]+)";

/// Names that are never collected as user macros.
pub open spec fn protected_macros() -> Seq<&'static str> {
    seq![
        "\\a", "\\b", "\\c", "\\d", "\\e", "\\f", "\\g", "\\h", "\\i", "\\j",
        "\\k", "\\l", "\\m", "\\n", "\\o", "\\p", "\\q", "\\r", "\\s", "\\t",
        "\\u", "\\v", "\\w", "\\x", "\\y", "\\z",
        "\\it", "\\bf", "\\rm", "\\tt", "\\sc", "\\sl", "\\sf",
        "\\em", "\\be", "\\bi", "\\le", "\\ge", "\\ne", "\\in", "\\to",
        "\\if", "\\or", "\\do", "\\at", "\\on", "\\of",
        "\\begin", "\\end", "\\item", "\\label", "\\ref", "\\cite",
        "\\section", "\\subsection", "\\subsubsection", "\\chapter", "\\part",
        "\\paragraph", "\\subparagraph", "\\title", "\\author", "\\date",
        "\\large", "\\Large", "\\LARGE", "\\huge", "\\Huge",
        "\\small", "\\footnotesize", "\\scriptsize", "\\tiny",
        "\\normalsize", "\\normalfont",
        "\\newcommand", "\\renewcommand", "\\def", "\\let",
        "\\input", "\\include", "\\usepackage", "\\documentclass"
    ]
}

fn protected_macro_list() -> (res: Vec<&'static str>)
    ensures
        res@ == protected_macros(),
{
    vec![
        "\\a", "\\b", "\\c", "\\d", "\\e", "\\f", "\\g", "\\h", "\\i", "\\j",
        "\\k", "\\l", "\\m", "\\n", "\\o", "\\p", "\\q", "\\r", "\\s", "\\t",
        "\\u", "\\v", "\\w", "\\x", "\\y", "\\z",
        "\\it", "\\bf", "\\rm", "\\tt", "\\sc", "\\sl", "\\sf",
        "\\em", "\\be", "\\bi", "\\le", "\\ge", "\\ne", "\\in", "\\to",
        "\\if", "\\or", "\\do", "\\at", "\\on", "\\of",
        "\\begin", "\\end", "\\item", "\\label", "\\ref", "\\cite",
        "\\section", "\\subsection", "\\subsubsection", "\\chapter", "\\part",
        "\\paragraph", "\\subparagraph", "\\title", "\\author", "\\date",
        "\\large", "\\Large", "\\LARGE", "\\huge", "\\Huge",
        "\\small", "\\footnotesize", "\\scriptsize", "\\tiny",
        "\\normalsize", "\\normalfont",
        "\\newcommand", "\\renewcommand", "\\def", "\\let",
        "\\input", "\\include", "\\usepackage", "\\documentclass"
    ]
}

fn is_protected(name: &[u8]) -> (res: bool)
    ensures
        res == in_list(name@, protected_macros()),
{
    let list = protected_macro_list();
    bytes_in_list(name, list.as_slice())
}

/// Bytes of group `g` of a match, if it took part.
pub open spec fn group_text(t: Seq<u8>, c: Seq<Option<(usize, usize)>>, g: int) -> Option<Seq<u8>> {
    if 0 <= g < c.len() {
        match c[g] {
            Some((a, b)) => Some(t.subrange(a as int, b as int)),
            None => None,
        }
    } else {
        None
    }
}

/// The entry a `\newcommand` match (`is_def` false) or a `\def` match
/// (`is_def` true) contributes to the simple-macro table: the name and the
/// braced body, unless the macro takes arguments (`[n]` after a
/// `\newcommand` name, `#` after a `\def` name) or its name is protected.
pub open spec fn simple_macro_entry(t: Seq<u8>, c: Seq<Option<(usize, usize)>>, is_def: bool) -> Option<(Seq<u8>, Seq<u8>)> {
    match group_text(t, c, 1) {
        None => None,
        Some(name) => {
            let pos = skip_ascii_ws(t, group_end(c, 0) as int);
            let marker: u8 = if is_def { 0x23 } else { 0x5b };
            if pos < t.len() && t[pos] == marker {
                None
            } else {
                match braced_group(t, pos) {
                    Some((cs, ce)) => if in_list(name, protected_macros()) {
                        None
                    } else {
                        Some((name, t.subrange(cs, ce)))
                    },
                    None => None,
                }
            }
        },
    }
}

/// The table after the first `n` matches of `caps`.
pub open spec fn fold_simple_macros(
    t: Seq<u8>,
    caps: Seq<Seq<Option<(usize, usize)>>>,
    n: int,
    is_def: bool,
    init: Seq<(Seq<char>, Seq<char>)>,
) -> Seq<(Seq<char>, Seq<char>)>
    decreases n,
{
    if n <= 0 {
        init
    } else {
        let prev = fold_simple_macros(t, caps, n - 1, is_def, init);
        match simple_macro_entry(t, caps[n - 1], is_def) {
            Some((k, v)) => entries_insert(prev, utf8_lossy(k), utf8_lossy(v)),
            None => prev,
        }
    }
}

/// The simple macros of a file: `\newcommand`-style definitions first,
/// then `\def`s, later definitions replacing earlier ones.
pub open spec fn simple_macros(t: Seq<u8>) -> Seq<(Seq<char>, Seq<char>)> {
    let nc = re_captures(NEWCOMMAND_PATTERN.spec_bytes(), t);
    let df = re_captures(DEF_PATTERN.spec_bytes(), t);
    fold_simple_macros(
        t,
        df,
        df.len() as int,
        true,
        fold_simple_macros(t, nc, nc.len() as int, false, Seq::empty()),
    )
}

/// Add the simple macros of the matches `caps` to `map`.
fn add_simple_macros(t: &[u8], caps: &Vec<Vec<Option<(usize, usize)>>>, is_def: bool, map: &mut TextMap)
    requires
        well_formed_captures(captures_view(caps@), t@.len()),
    ensures
        final(map).entry_seq() == fold_simple_macros(
            t@,
            captures_view(caps@),
            caps@.len() as int,
            is_def,
            old(map).entry_seq(),
        ),
{
    let ghost cv = captures_view(caps@);
    let mut k: usize = 0;
    while k < caps.len()
        invariant
            cv == captures_view(caps@),
            well_formed_captures(cv, t@.len()),
            k <= caps.len(),
            map.entry_seq() == fold_simple_macros(t@, cv, k as int, is_def, old(map).entry_seq()),
        decreases caps.len() - k,
    {
        let c = &caps[k];
        assert(cv[k as int] == c@);
        assert(cv[k as int].len() >= 1 && cv[k as int][0] is Some);
        if c.len() > 1 {
            if let Some((a, b)) = c[1] {
                assert(a <= b <= t.len()) by {
                    assert(cv[k as int][1] == c@[1]);
                }
                let end0 = match c[0] {
                    Some((_, e)) => e,
                    None => 0,
                };
                assert(end0 <= t.len()) by {
                    assert(cv[k as int][0] == c@[0]);
                }
                let pos = skip_ascii_ws_bytes(t, end0);
                let marker: u8 = if is_def { 0x23 } else { 0x5b };
                if !(pos < t.len() && t[pos] == marker) {
                    if let Some((cs, ce)) = braced_group_bytes(t, pos) {
                        let name = slice_to_vec(t, a, b);
                        if !is_protected(name.as_slice()) {
                            let value = slice_to_vec(t, cs, ce);
                            let ks = string_from_bytes(name.as_slice());
                            let vs = string_from_bytes(value.as_slice());
                            map.insert(ks, vs);
                        }
                    }
                }
            }
        }
        k = k + 1;
    }
}

/// Collect `\newcommand` and `\def` macros WITHOUT arguments from a file.
///
/// Returns `{macro_name: macro_value}`. Skips macros that take arguments
/// (an `[n]` after the name, or `#` parameters after a `\def` name) and
/// protected names.
pub fn collect_macros(file_content: &str) -> (res: TextMap)
    ensures
        res.entry_seq() == simple_macros(file_content.spec_bytes()),
{
    let t = file_content.as_bytes();
    let mut map = TextMap::new();
    let nc = re_captures_bytes(NEWCOMMAND_PATTERN, t);
    add_simple_macros(t, &nc, false, &mut map);
    let df = re_captures_bytes(DEF_PATTERN, t);
    add_simple_macros(t, &df, true, &mut map);
    map
}


/// A macro defined with an argument count, e.g. `\newcommand{\foo}[2]{#1 and #2}`.
pub struct ParametricMacro {
    pub name: String,
    pub num_args: usize,
    pub body: String,
    pub optional_default: Option<String>,
}

/// A parametric macro as values: name, argument count, body and the
/// default of an optional first argument.
pub type MacroView = (Seq<char>, usize, Seq<char>, Option<Seq<char>>);

impl ParametricMacro {
    pub open spec fn view_tuple(&self) -> MacroView {
        (
            self.name@,
            self.num_args,
            self.body@,
            match self.optional_default {
                Some(d) => Some(d@),
                None => None,
            },
        )
    }
}

pub open spec fn macro_views(v: Seq<ParametricMacro>) -> Seq<MacroView> {
    v.map_values(|m: ParametricMacro| m.view_tuple())
}

pub open spec fn is_digit(c: u8) -> bool {
    0x30 <= c && c <= 0x39
}

/// Decimal value of a run of digits, capped at 10 (enough to tell 1..=9).
pub open spec fn digits_value(s: Seq<u8>) -> nat
    decreases s.len(),
{
    if s.len() == 0 {
        0
    } else {
        let v = digits_value(s.drop_last()) * 10 + (s.last() - 0x30);
        if v > 10 {
            10
        } else {
            v as nat
        }
    }
}

/// `s` with leading and trailing ASCII whitespace removed.
pub open spec fn trim_ascii(s: Seq<u8>) -> Seq<u8>
    decreases s.len(),
{
    if s.len() > 0 && crate::scan::is_ascii_ws(s[0]) {
        trim_ascii(s.drop_first())
    } else if s.len() > 0 && crate::scan::is_ascii_ws(s.last()) {
        trim_ascii(s.drop_last())
    } else {
        s
    }
}

/// The argument count written in `[n]`: an optional `+` and decimal
/// digits denoting 1 to 9, surrounded by whitespace.
pub open spec fn arg_count(s: Seq<u8>) -> Option<nat> {
    let d = unsigned_part(trim_ascii(s));
    if d.len() > 0 && all_digits(d) && 1 <= digits_value(d) <= 9 {
        Some(digits_value(d))
    } else {
        None
    }
}

/// `t` without a leading `+`.
pub open spec fn unsigned_part(t: Seq<u8>) -> Seq<u8> {
    if t.len() > 0 && t[0] == 0x2b {
        t.drop_first()
    } else {
        t
    }
}

pub open spec fn all_digits(d: Seq<u8>) -> bool {
    forall|i: int| 0 <= i < d.len() ==> is_digit(#[trigger] d[i])
}

fn trim_ascii_range(t: &[u8], a: usize, b: usize) -> (res: (usize, usize))
    requires
        a <= b <= t.len(),
    ensures
        res.0 <= res.1 <= t.len(),
        t@.subrange(res.0 as int, res.1 as int) == trim_ascii(t@.subrange(a as int, b as int)),
{
    let mut s = a;
    let mut e = b;
    while s < e && (t[s] == 0x20 || t[s] == 0x09 || t[s] == 0x0a || t[s] == 0x0c || t[s] == 0x0d)
        invariant
            a <= s <= e,
            e == b,
            b <= t.len(),
            trim_ascii(t@.subrange(s as int, e as int)) == trim_ascii(t@.subrange(a as int, b as int)),
        decreases e - s,
    {
        assert(t@.subrange(s as int, e as int).drop_first() =~= t@.subrange(s + 1, e as int));
        s = s + 1;
    }
    while s < e && (t[e - 1] == 0x20 || t[e - 1] == 0x09 || t[e - 1] == 0x0a || t[e - 1] == 0x0c
        || t[e - 1] == 0x0d)
        invariant
            a <= s <= e <= b <= t.len(),
            s < e ==> !crate::scan::is_ascii_ws(t@[s as int]),
            trim_ascii(t@.subrange(s as int, e as int)) == trim_ascii(t@.subrange(a as int, b as int)),
        decreases e - s,
    {
        assert(t@.subrange(s as int, e as int).drop_last() =~= t@.subrange(s as int, e - 1));
        assert(t@.subrange(s as int, e as int)[0] == t@[s as int]);
        e = e - 1;
    }
    proof {
        let x = t@.subrange(s as int, e as int);
        if x.len() > 0 {
            assert(x[0] == t@[s as int]);
            assert(x.last() == t@[e - 1]);
        }
    }
    (s, e)
}

/// Parse the argument count in `t[a..b]`.
fn parse_arg_count(t: &[u8], a: usize, b: usize) -> (res: Option<usize>)
    requires
        a <= b <= t.len(),
    ensures
        arg_count(t@.subrange(a as int, b as int)) == match res {
            Some(n) => Some(n as nat),
            None => None,
        },
{
    let (s0, e) = trim_ascii_range(t, a, b);
    let ghost tr = t@.subrange(s0 as int, e as int);
    let mut s = s0;
    if s < e && t[s] == 0x2b {
        s = s + 1;
    }
    let ghost d = t@.subrange(s as int, e as int);
    proof {
        if s0 < e && t@[s0 as int] == 0x2b {
            assert(tr[0] == 0x2b);
            assert(d =~= tr.drop_first());
        } else {
            assert(d =~= tr);
            if tr.len() > 0 {
                assert(tr[0] == t@[s0 as int]);
            }
        }
    }
    if s >= e {
        assert(d.len() == 0);
        return None;
    }
    let mut v: usize = 0;
    let mut i = s;
    while i < e
        invariant
            s <= i <= e <= t.len(),
            d == t@.subrange(s as int, e as int),
            tr == t@.subrange(s0 as int, e as int),
            tr == trim_ascii(t@.subrange(a as int, b as int)),
            d == unsigned_part(tr),
            v <= 10,
            v as nat == digits_value(t@.subrange(s as int, i as int)),
            forall|k: int| s <= k < i ==> is_digit(#[trigger] t@[k]),
        decreases e - i,
    {
        if !(0x30 <= t[i] && t[i] <= 0x39) {
            assert(d[i - s] == t@[i as int]);
            assert(!is_digit(d[i - s]));
            assert(!all_digits(d));
            return None;
        }
        assert(t@.subrange(s as int, i + 1).drop_last() =~= t@.subrange(s as int, i as int));
        v = v * 10 + (t[i] - 0x30) as usize;
        if v > 10 {
            v = 10;
        }
        i = i + 1;
    }
    assert(t@.subrange(s as int, e as int) =~= d);
    assert(unsigned_part(tr) == d);
    assert forall|k: int| 0 <= k < d.len() implies is_digit(#[trigger] d[k]) by {
        assert(d[k] == t@[s + k]);
    }
    if 1 <= v && v <= 9 {
        Some(v)
    } else {
        None
    }
}

/// Number of `#d` parameter markers from `i` and where they end.
pub open spec fn hash_params(t: Seq<u8>, i: int) -> (nat, int)
    decreases t.len() - i,
{
    if 0 <= i && i + 1 < t.len() && t[i] == 0x23 && is_digit(t[i + 1]) {
        let (n, e) = hash_params(t, i + 2);
        (n + 1, e)
    } else {
        (0, i)
    }
}

/// The parametric macro a `\newcommand`-style match defines, if any: it
/// needs `[n]` with n in 1..=9 after the name, may have `[default]`, and a
/// braced body.
pub open spec fn newcommand_parametric(t: Seq<u8>, c: Seq<Option<(usize, usize)>>) -> Option<(Seq<u8>, nat, Seq<u8>, Option<Seq<u8>>)> {
    match group_text(t, c, 1) {
        None => None,
        Some(name) => {
            let pos = skip_ascii_ws(t, group_end(c, 0) as int);
            if in_list(name, protected_macros()) || pos >= t.len() || t[pos] != 0x5b {
                None
            } else {
                match optional_arg(t, pos) {
                    None => None,
                    Some((cs, ce, after)) => match arg_count(t.subrange(cs, ce)) {
                        None => None,
                        Some(n) => {
                            let p2 = skip_ascii_ws(t, after);
                            let (default, p3) = if p2 < t.len() && t[p2] == 0x5b {
                                match optional_arg(t, p2) {
                                    Some((ds, de, a2)) => (Some(t.subrange(ds, de)), a2),
                                    None => (None, p2),
                                }
                            } else {
                                (None, p2)
                            };
                            match braced_group(t, p3) {
                                Some((bs, be)) => Some((name, n, t.subrange(bs, be), default)),
                                None => None,
                            }
                        },
                    },
                }
            }
        },
    }
}

/// The parametric macro a `\def` match defines, if any: `#1#2...` (1 to 9
/// markers) after the name, then a braced body.
pub open spec fn def_parametric(t: Seq<u8>, c: Seq<Option<(usize, usize)>>) -> Option<(Seq<u8>, nat, Seq<u8>, Option<Seq<u8>>)> {
    match group_text(t, c, 1) {
        None => None,
        Some(name) => {
            let pos = skip_ascii_ws(t, group_end(c, 0) as int);
            if in_list(name, protected_macros()) || pos >= t.len() || t[pos] != 0x23 {
                None
            } else {
                let (n, e) = hash_params(t, pos);
                if n == 0 || n > 9 {
                    None
                } else {
                    match braced_group(t, skip_ascii_ws(t, e)) {
                        Some((bs, be)) => Some((name, n, t.subrange(bs, be), None)),
                        None => None,
                    }
                }
            }
        },
    }
}

/// Keeps the macros not named `name`.
pub open spec fn not_named(name: Seq<char>) -> spec_fn(MacroView) -> bool {
    |x: MacroView| x.0 != name
}

/// `list` with any macro of the same name removed and `m` appended.
pub open spec fn replace_macro(list: Seq<MacroView>, m: MacroView) -> Seq<MacroView> {
    list.filter(not_named(m.0)).push(m)
}

pub open spec fn bytes_macro_view(m: (Seq<u8>, nat, Seq<u8>, Option<Seq<u8>>)) -> MacroView {
    (
        utf8_lossy(m.0),
        m.1 as usize,
        utf8_lossy(m.2),
        match m.3 {
            Some(d) => Some(utf8_lossy(d)),
            None => None,
        },
    )
}

/// The list after the first `n` matches of `caps`.
pub open spec fn fold_parametric(
    t: Seq<u8>,
    caps: Seq<Seq<Option<(usize, usize)>>>,
    n: int,
    is_def: bool,
    init: Seq<MacroView>,
) -> Seq<MacroView>
    decreases n,
{
    if n <= 0 {
        init
    } else {
        let prev = fold_parametric(t, caps, n - 1, is_def, init);
        let found = if is_def {
            def_parametric(t, caps[n - 1])
        } else {
            newcommand_parametric(t, caps[n - 1])
        };
        match found {
            Some(m) => replace_macro(prev, bytes_macro_view(m)),
            None => prev,
        }
    }
}

/// The parametric macros of a file, later definitions replacing earlier
/// ones of the same name.
pub open spec fn parametric_macros(t: Seq<u8>) -> Seq<MacroView> {
    let nc = re_captures(NEWCOMMAND_PATTERN.spec_bytes(), t);
    let df = re_captures(DEF_PATTERN.spec_bytes(), t);
    fold_parametric(
        t,
        df,
        df.len() as int,
        true,
        fold_parametric(t, nc, nc.len() as int, false, Seq::empty()),
    )
}

/// Every macro takes 1 to 9 arguments, and no two share a name.
pub open spec fn well_formed_macros(s: Seq<MacroView>) -> bool {
    &&& forall|k: int| 0 <= k < s.len() ==> 1 <= (#[trigger] s[k]).1 <= 9
    &&& forall|i: int, j: int| 0 <= i < j < s.len() ==> (#[trigger] s[i]).0 != (#[trigger] s[j]).0
}

proof fn lemma_filter_well_formed(s: Seq<MacroView>, name: Seq<char>)
    requires
        well_formed_macros(s),
    ensures
        well_formed_macros(s.filter(not_named(name))),
        forall|k: int| 0 <= k < s.filter(not_named(name)).len() ==> (#[trigger] s.filter(not_named(name))[k]).0 != name,
        forall|k: int| 0 <= k < s.filter(not_named(name)).len() ==> s.contains(#[trigger] s.filter(not_named(name))[k]),
    decreases s.len(),
{
    reveal(Seq::filter);
    if s.len() > 0 {
        let d = s.drop_last();
        assert(well_formed_macros(d)) by {
            assert forall|i: int, j: int| 0 <= i < j < d.len() implies (#[trigger] d[i]).0 != (#[trigger] d[j]).0 by {
                assert(d[i] == s[i] && d[j] == s[j]);
            }
            assert forall|k: int| 0 <= k < d.len() implies 1 <= (#[trigger] d[k]).1 <= 9 by {
                assert(d[k] == s[k]);
            }
        }
        lemma_filter_well_formed(d, name);
        let fd = d.filter(not_named(name));
        assert forall|k: int| 0 <= k < fd.len() implies s.contains(#[trigger] fd[k]) by {
            let q = choose|q: int| 0 <= q < d.len() && d[q] == fd[k];
            assert(s[q] == fd[k]);
        }
        if not_named(name)(s.last()) {
            let f = fd.push(s.last());
            assert(f == s.filter(not_named(name)));
            assert forall|k: int| 0 <= k < fd.len() implies (#[trigger] fd[k]).0 != s.last().0 by {
                let q = choose|q: int| 0 <= q < d.len() && d[q] == fd[k];
                assert(s[q] == fd[k]);
                assert(s[q].0 != s[s.len() - 1].0);
            }
            assert forall|i: int, j: int| 0 <= i < j < f.len() implies (#[trigger] f[i]).0 != (#[trigger] f[j]).0 by {
                if j == fd.len() {
                    assert(f[i] == fd[i]);
                } else {
                    assert(f[i] == fd[i] && f[j] == fd[j]);
                }
            }
            assert forall|k: int| 0 <= k < f.len() implies 1 <= (#[trigger] f[k]).1 <= 9 by {
                if k < fd.len() {
                    assert(f[k] == fd[k]);
                } else {
                    assert(s[s.len() - 1] == f[k]);
                }
            }
            assert forall|k: int| 0 <= k < f.len() implies s.contains(#[trigger] f[k]) by {
                if k < fd.len() {
                    assert(f[k] == fd[k]);
                } else {
                    assert(s[s.len() - 1] == f[k]);
                }
            }
        }
    }
}

proof fn lemma_replace_well_formed(list: Seq<MacroView>, m: MacroView)
    requires
        well_formed_macros(list),
        1 <= m.1 <= 9,
    ensures
        well_formed_macros(replace_macro(list, m)),
{
    lemma_filter_well_formed(list, m.0);
    let f = list.filter(not_named(m.0));
    let r = f.push(m);
    assert forall|i: int, j: int| 0 <= i < j < r.len() implies (#[trigger] r[i]).0 != (#[trigger] r[j]).0 by {
        assert(r[i] == f[i]);
        if j < f.len() {
            assert(r[j] == f[j]);
        }
    }
    assert forall|k: int| 0 <= k < r.len() implies 1 <= (#[trigger] r[k]).1 <= 9 by {
        if k < f.len() {
            assert(r[k] == f[k]);
        }
    }
}

proof fn lemma_fold_well_formed(
    t: Seq<u8>,
    caps: Seq<Seq<Option<(usize, usize)>>>,
    n: int,
    is_def: bool,
    init: Seq<MacroView>,
)
    requires
        well_formed_macros(init),
    ensures
        well_formed_macros(fold_parametric(t, caps, n, is_def, init)),
    decreases n,
{
    if n > 0 {
        lemma_fold_well_formed(t, caps, n - 1, is_def, init);
        let prev = fold_parametric(t, caps, n - 1, is_def, init);
        let found = if is_def {
            def_parametric(t, caps[n - 1])
        } else {
            newcommand_parametric(t, caps[n - 1])
        };
        if let Some(m) = found {
            lemma_replace_well_formed(prev, bytes_macro_view(m));
        }
    }
}

/// Every collected parametric macro takes 1 to 9 arguments, and no two
/// share a name (a later definition replaces an earlier one).
pub proof fn law_parametric_macros_well_formed(t: Seq<u8>)
    ensures
        well_formed_macros(parametric_macros(t)),
{
    let nc = re_captures(NEWCOMMAND_PATTERN.spec_bytes(), t);
    let df = re_captures(DEF_PATTERN.spec_bytes(), t);
    assert(well_formed_macros(Seq::<MacroView>::empty()));
    lemma_fold_well_formed(t, nc, nc.len() as int, false, Seq::empty());
    lemma_fold_well_formed(t, df, df.len() as int, true, fold_parametric(t, nc, nc.len() as int, false, Seq::empty()));
}

/// `m` is what one definition in `t` makes: a `\newcommand`-style match,
/// which may carry a default for its first argument, or a `\def` match,
/// which carries none; either way its name is not a protected one.
pub open spec fn defined_in(t: Seq<u8>, m: MacroView) -> bool {
    let nc = re_captures(NEWCOMMAND_PATTERN.spec_bytes(), t);
    let df = re_captures(DEF_PATTERN.spec_bytes(), t);
    ||| exists|i: int|
        0 <= i < nc.len() && (#[trigger] newcommand_parametric(t, nc[i])) is Some && bytes_macro_view(
            newcommand_parametric(t, nc[i])->0,
        ) == m && !in_list((newcommand_parametric(t, nc[i])->0).0, protected_macros())
    ||| exists|i: int|
        0 <= i < df.len() && (#[trigger] def_parametric(t, df[i])) is Some && bytes_macro_view(
            def_parametric(t, df[i])->0,
        ) == m && !in_list((def_parametric(t, df[i])->0).0, protected_macros()) && m.3 is None
}

proof fn lemma_fold_defined(
    t: Seq<u8>,
    caps: Seq<Seq<Option<(usize, usize)>>>,
    n: int,
    is_def: bool,
    init: Seq<MacroView>,
)
    requires
        well_formed_macros(init),
        forall|k: int| 0 <= k < init.len() ==> defined_in(t, #[trigger] init[k]),
        n <= caps.len(),
        is_def ==> caps == re_captures(DEF_PATTERN.spec_bytes(), t),
        !is_def ==> caps == re_captures(NEWCOMMAND_PATTERN.spec_bytes(), t),
    ensures
        forall|k: int|
            0 <= k < fold_parametric(t, caps, n, is_def, init).len() ==> defined_in(
                t,
                #[trigger] fold_parametric(t, caps, n, is_def, init)[k],
            ),
    decreases n,
{
    if n > 0 {
        lemma_fold_defined(t, caps, n - 1, is_def, init);
        lemma_fold_well_formed(t, caps, n - 1, is_def, init);
        let prev = fold_parametric(t, caps, n - 1, is_def, init);
        let found = if is_def {
            def_parametric(t, caps[n - 1])
        } else {
            newcommand_parametric(t, caps[n - 1])
        };
        if let Some(x) = found {
            let m = bytes_macro_view(x);
            lemma_filter_well_formed(prev, m.0);
            let f = prev.filter(not_named(m.0));
            let r = f.push(m);
            assert(defined_in(t, m)) by {
                if is_def {
                    assert(def_parametric(t, caps[n - 1]) is Some);
                    assert(!in_list(x.0, protected_macros()));
                } else {
                    assert(newcommand_parametric(t, caps[n - 1]) is Some);
                    assert(!in_list(x.0, protected_macros()));
                }
            }
            assert forall|k: int| 0 <= k < r.len() implies defined_in(t, #[trigger] r[k]) by {
                if k < f.len() {
                    assert(r[k] == f[k]);
                    assert(prev.contains(f[k]));
                    let q = choose|q: int| 0 <= q < prev.len() && prev[q] == f[k];
                    assert(defined_in(t, prev[q]));
                } else {
                    assert(r[k] == m);
                }
            }
        }
    }
}

/// Every collected parametric macro comes from one definition of the file:
/// a `\newcommand`-style one (the only kind that can give a default for
/// the first argument) or a `\def`; no protected name is ever collected.
pub proof fn law_parametric_macros_defined(t: Seq<u8>)
    ensures
        forall|k: int| 0 <= k < parametric_macros(t).len() ==> defined_in(t, #[trigger] parametric_macros(t)[k]),
{
    let nc = re_captures(NEWCOMMAND_PATTERN.spec_bytes(), t);
    let df = re_captures(DEF_PATTERN.spec_bytes(), t);
    assert(well_formed_macros(Seq::<MacroView>::empty()));
    lemma_fold_defined(t, nc, nc.len() as int, false, Seq::empty());
    lemma_fold_well_formed(t, nc, nc.len() as int, false, Seq::empty());
    lemma_fold_defined(t, df, df.len() as int, true, fold_parametric(t, nc, nc.len() as int, false, Seq::empty()));
}

/// Drop every macro named `name` from `list` and append `m`.
fn push_replacing(list: &mut Vec<ParametricMacro>, m: ParametricMacro)
    ensures
        macro_views(final(list)@) == replace_macro(macro_views(old(list)@), m.view_tuple()),
{
    let ghost name = m.name@;
    let ghost old_views = macro_views(list@);
    let mut kept: Vec<ParametricMacro> = Vec::new();
    let mut rest: Vec<ParametricMacro> = Vec::new();
    std::mem::swap(&mut rest, list);
    let ghost src = rest@;
    assert(macro_views(src) == old_views);
    let mut i: usize = 0;
    let n = rest.len();
    while rest.len() > 0
        invariant
            rest@.len() + i == n,
            n == src.len(),
            rest@ =~= src.subrange(i as int, n as int),
            macro_views(kept@) == macro_views(src.subrange(0, i as int)).filter(not_named(name)),
            name == m.name@,
        decreases rest.len(),
    {
        let x = rest.remove(0);
        let ghost xv = x.view_tuple();
        assert(src[i as int] == x);
        proof {
            let pre = macro_views(src.subrange(0, i as int));
            assert(macro_views(src.subrange(0, i + 1)) =~= pre.push(xv));
            reveal(Seq::filter);
            assert(pre.push(xv).drop_last() =~= pre);
        }
        if !bytes_eq_str(x.name.as_str(), m.name.as_str()) {
            let ghost before = macro_views(kept@);
            kept.push(x);
            assert(macro_views(kept@) =~= before.push(xv));
        } else {
            assert(xv.0 == name);
        }
        i = i + 1;
    }
    assert(src.subrange(0, n as int) =~= src);
    assert(macro_views(src) =~= macro_views(src.subrange(0, n as int)));
    let ghost before = macro_views(kept@);
    let ghost mv = m.view_tuple();
    kept.push(m);
    assert(macro_views(kept@) =~= before.push(mv));
    *list = kept;
}

/// Equality of two strings.
pub fn bytes_eq_str(a: &str, b: &str) -> (res: bool)
    ensures
        res == (a@ == b@),
{
    let r = crate::scan::bytes_eq(a.as_bytes(), b.as_bytes());
    proof {
        if r {
            vstd::utf8::encode_utf8_decode_utf8(a@);
            vstd::utf8::encode_utf8_decode_utf8(b@);
        }
    }
    r
}

fn opt_string(t: &[u8], r: Option<(usize, usize)>) -> (res: Option<String>)
    requires
        r matches Some((a, b)) ==> a <= b <= t.len(),
    ensures
        match r {
            Some((a, b)) => res matches Some(s) && s@ == utf8_lossy(t@.subrange(a as int, b as int)),
            None => res is None,
        },
{
    match r {
        Some((a, b)) => {
            let v = slice_to_vec(t, a, b);
            Some(string_from_bytes(v.as_slice()))
        },
        None => None,
    }
}

/// Add the parametric macros of `\newcommand`-style matches to `list`.
fn add_newcommand_parametric(t: &[u8], caps: &Vec<Vec<Option<(usize, usize)>>>, list: &mut Vec<ParametricMacro>)
    requires
        well_formed_captures(captures_view(caps@), t@.len()),
    ensures
        macro_views(final(list)@) == fold_parametric(
            t@,
            captures_view(caps@),
            caps@.len() as int,
            false,
            macro_views(old(list)@),
        ),
{
    let ghost cv = captures_view(caps@);
    let mut k: usize = 0;
    while k < caps.len()
        invariant
            cv == captures_view(caps@),
            well_formed_captures(cv, t@.len()),
            k <= caps.len(),
            macro_views(list@) == fold_parametric(t@, cv, k as int, false, macro_views(old(list)@)),
        decreases caps.len() - k,
    {
        let c = &caps[k];
        assert(cv[k as int] == c@);
        assert(cv[k as int].len() >= 1 && cv[k as int][0] is Some);
        let ghost expect = newcommand_parametric(t@, c@);
        if c.len() > 1 {
            if let Some((a, b)) = c[1] {
                assert(a <= b <= t.len()) by {
                    assert(cv[k as int][1] == c@[1]);
                }
                let end0 = match c[0] {
                    Some((_, e)) => e,
                    None => 0,
                };
                assert(end0 <= t.len()) by {
                    assert(cv[k as int][0] == c@[0]);
                }
                let name = slice_to_vec(t, a, b);
                let pos = skip_ascii_ws_bytes(t, end0);
                if !is_protected(name.as_slice()) && pos < t.len() && t[pos] == 0x5b {
                    if let Some((cs, ce, after)) = optional_arg_bytes(t, pos) {
                        if let Some(n) = parse_arg_count(t, cs, ce) {
                            let p2 = skip_ascii_ws_bytes(t, after);
                            let mut p3 = p2;
                            let mut dr: Option<(usize, usize)> = None;
                            if p2 < t.len() && t[p2] == 0x5b {
                                if let Some((ds, de, a2)) = optional_arg_bytes(t, p2) {
                                    dr = Some((ds, de));
                                    p3 = a2;
                                }
                            }
                            if let Some((bs, be)) = braced_group_bytes(t, p3) {
                                let body = slice_to_vec(t, bs, be);
                                let m = ParametricMacro {
                                    name: string_from_bytes(name.as_slice()),
                                    num_args: n,
                                    body: string_from_bytes(body.as_slice()),
                                    optional_default: opt_string(t, dr),
                                };
                                push_replacing(list, m);
                            }
                        }
                    }
                }
            }
        }
        k = k + 1;
    }
}

/// Count `#d` markers starting at `pos`.
fn hash_params_bytes(t: &[u8], pos: usize) -> (res: (usize, usize))
    requires
        pos <= t.len(),
    ensures
        hash_params(t@, pos as int) == (res.0 as nat, res.1 as int),
        pos <= res.1 <= t.len(),
{
    let mut n: usize = 0;
    let mut p = pos;
    while t.len() > 1 && p < t.len() - 1 && t[p] == 0x23 && 0x30 <= t[p + 1] && t[p + 1] <= 0x39
        invariant
            pos <= p <= t.len(),
            n <= p - pos,
            hash_params(t@, pos as int) == ((n + hash_params(t@, p as int).0) as nat, hash_params(t@, p as int).1),
        decreases t.len() - p,
    {
        n = n + 1;
        p = p + 2;
    }
    (n, p)
}

/// Add the parametric macros of `\def` matches to `list`.
fn add_def_parametric(t: &[u8], caps: &Vec<Vec<Option<(usize, usize)>>>, list: &mut Vec<ParametricMacro>)
    requires
        well_formed_captures(captures_view(caps@), t@.len()),
    ensures
        macro_views(final(list)@) == fold_parametric(
            t@,
            captures_view(caps@),
            caps@.len() as int,
            true,
            macro_views(old(list)@),
        ),
{
    let ghost cv = captures_view(caps@);
    let mut k: usize = 0;
    while k < caps.len()
        invariant
            cv == captures_view(caps@),
            well_formed_captures(cv, t@.len()),
            k <= caps.len(),
            macro_views(list@) == fold_parametric(t@, cv, k as int, true, macro_views(old(list)@)),
        decreases caps.len() - k,
    {
        let c = &caps[k];
        assert(cv[k as int] == c@);
        assert(cv[k as int].len() >= 1 && cv[k as int][0] is Some);
        if c.len() > 1 {
            if let Some((a, b)) = c[1] {
                assert(a <= b <= t.len()) by {
                    assert(cv[k as int][1] == c@[1]);
                }
                let end0 = match c[0] {
                    Some((_, e)) => e,
                    None => 0,
                };
                assert(end0 <= t.len()) by {
                    assert(cv[k as int][0] == c@[0]);
                }
                let name = slice_to_vec(t, a, b);
                let pos = skip_ascii_ws_bytes(t, end0);
                if !is_protected(name.as_slice()) && pos < t.len() && t[pos] == 0x23 {
                    let (n, e) = hash_params_bytes(t, pos);
                    if n != 0 && n <= 9 {
                        let p = skip_ascii_ws_bytes(t, e);
                        if let Some((bs, be)) = braced_group_bytes(t, p) {
                            let body = slice_to_vec(t, bs, be);
                            let m = ParametricMacro {
                                name: string_from_bytes(name.as_slice()),
                                num_args: n,
                                body: string_from_bytes(body.as_slice()),
                                optional_default: None,
                            };
                            push_replacing(list, m);
                        }
                    }
                }
            }
        }
        k = k + 1;
    }
}

/// Collect `\newcommand`, `\renewcommand`, `\providecommand` and `\def`
/// macros WITH arguments from a file: the macros that `collect_macros`
/// skips. A later definition of a name replaces an earlier one.
pub fn collect_parametric_macros(file_content: &str) -> (res: Vec<ParametricMacro>)
    ensures
        macro_views(res@) == parametric_macros(file_content.spec_bytes()),
{
    let t = file_content.as_bytes();
    let mut list: Vec<ParametricMacro> = Vec::new();
    assert(macro_views(list@) =~= Seq::<MacroView>::empty());
    let nc = re_captures_bytes(NEWCOMMAND_PATTERN, t);
    add_newcommand_parametric(t, &nc, &mut list);
    let df = re_captures_bytes(DEF_PATTERN, t);
    add_def_parametric(t, &df, &mut list);
    list
}


/// The command that declares a theorem-like environment.
pub const NEWTHEOREM: &'static str = "\\newtheorem";

/// Position after the `]` closing a bracket group whose interior scan starts
/// at `i` with `depth` brackets open (no escapes).
pub open spec fn plain_bracket_close(b: Seq<u8>, i: int, depth: nat) -> Option<int>
    decreases b.len() - i,
{
    if depth == 0 {
        Some(i)
    } else if i < 0 || i >= b.len() {
        None
    } else if b[i] == 0x5b {
        plain_bracket_close(b, i + 1, depth + 1)
    } else if b[i] == 0x5d {
        plain_bracket_close(b, i + 1, (depth - 1) as nat)
    } else {
        plain_bracket_close(b, i + 1, depth)
    }
}

/// `\newtheorem` declarations from `search` on, added to `acc`:
/// `\newtheorem{env}[counter]{Display}` (optionally starred) binds `env`
/// to `Display`.
pub open spec fn theorems_from(t: Seq<u8>, search: int, acc: Seq<(Seq<char>, Seq<char>)>) -> Seq<(Seq<char>, Seq<char>)>
    decreases t.len() + 1 - search,
{
    let p = NEWTHEOREM.spec_bytes();
    match find_from(t, p, search) {
        None => acc,
        Some(pos) => {
            let c0 = pos + p.len();
            let cursor = if c0 < t.len() && t[c0] == 0x2a { c0 + 1 } else { c0 };
            let skip = if search < cursor <= t.len() { theorems_from(t, cursor, acc) } else { acc };
            if cursor < t.len() && is_alpha(t[cursor]) {
                skip
            } else {
                match braced_group(t, skip_blanks(t, cursor)) {
                    None => skip,
                    Some((cs, ce)) => {
                        let after = ce + 1;
                        let ws = skip_blanks(t, after);
                        let after_opt = if ws < t.len() && t[ws] == 0x5b {
                            match plain_bracket_close(t, ws + 1, 1) {
                                Some(i) => i,
                                None => after,
                            }
                        } else {
                            after
                        };
                        match braced_group(t, skip_blanks(t, after_opt)) {
                            None => skip,
                            Some((ds, de)) => {
                                let acc2 = entries_insert(
                                    acc,
                                    utf8_lossy(t.subrange(cs, ce)),
                                    utf8_lossy(t.subrange(ds, de)),
                                );
                                if search < de + 1 <= t.len() {
                                    theorems_from(t, de + 1, acc2)
                                } else {
                                    acc2
                                }
                            },
                        }
                    },
                }
            }
        },
    }
}

proof fn lemma_braced_bounds(t: Seq<u8>, open: int)
    ensures
        braced_group(t, open) matches Some((cs, ce)) ==> cs == open + 1 && cs <= ce < t.len(),
{
    if 0 <= open < t.len() && t[open] == 0x7b {
        crate::braces::lemma_closing_brace_bounds(t, open + 1, 1);
    }
}

fn plain_bracket_close_bytes(t: &[u8], start: usize) -> (res: Option<usize>)
    requires
        1 <= start <= t.len(),
    ensures
        plain_bracket_close(t@, start as int, 1) == match res {
            Some(i) => Some(i as int),
            None => None,
        },
        res matches Some(i) ==> start <= i <= t.len(),
{
    let mut depth: usize = 1;
    let mut i = start;
    while i < t.len() && depth > 0
        invariant
            1 <= start <= i <= t.len(),
            depth <= i - start + 1,
            plain_bracket_close(t@, i as int, depth as nat) == plain_bracket_close(t@, start as int, 1),
        decreases t.len() - i,
    {
        if t[i] == 0x5b {
            depth = depth + 1;
        } else if t[i] == 0x5d {
            depth = depth - 1;
        }
        i = i + 1;
    }
    if depth == 0 {
        Some(i)
    } else {
        None
    }
}

/// Collect `\newtheorem{env_name}{Display Name}` definitions.
///
/// Handles `\newtheorem*`, an optional `[counter]` before the display name
/// and an optional `[parent]` after it. Returns `{env_name: Display Name}`.
pub fn collect_newtheorems(file_content: &str) -> (res: TextMap)
    ensures
        res.entry_seq() == theorems_from(file_content.spec_bytes(), 0, Seq::empty()),
{
    let t = file_content.as_bytes();
    let pat = NEWTHEOREM.as_bytes();
    let mut map = TextMap::new();
    let mut search: usize = 0;
    let ghost acc0 = map.entry_seq();
    loop
        invariant
            search <= t.len(),
            t@ == file_content.spec_bytes(),
            pat@ == NEWTHEOREM.spec_bytes(),
            theorems_from(t@, search as int, map.entry_seq()) == theorems_from(t@, 0, acc0),
            acc0 == Seq::<(Seq<char>, Seq<char>)>::empty(),
        decreases t.len() - search,
    {
        let found = crate::scan::find_bytes(t, pat, search);
        match found {
            None => {
                assert(find_from(t@, pat@, search as int) is None);
                assert(theorems_from(t@, search as int, map.entry_seq()) == map.entry_seq());
                return map;
            },
            Some(pos) => {
                let mut cursor = pos + pat.len();
                if cursor < t.len() && t[cursor] == 0x2a {
                    cursor = cursor + 1;
                }
                let ghost skip_ok = search < cursor;
                if cursor < t.len() && is_alpha_byte(t[cursor]) {
                    if cursor <= search {
                        return map;
                    }
                    search = cursor;
                    continue;
                }
                let bp = skip_blanks_bytes(t, cursor);
                proof {
                    lemma_braced_bounds(t@, bp as int);
                }
                if let Some((cs, ce)) = braced_group_bytes(t, bp) {
                    let after = ce + 1;
                    let mut after_opt = after;
                    let ws = skip_blanks_bytes(t, after);
                    if ws < t.len() && t[ws] == 0x5b {
                        if let Some(i) = plain_bracket_close_bytes(t, ws + 1) {
                            after_opt = i;
                        }
                    }
                    let dp = skip_blanks_bytes(t, after_opt);
                    proof {
                        lemma_braced_bounds(t@, dp as int);
                    }
                    if let Some((ds, de)) = braced_group_bytes(t, dp) {
                        let env = slice_to_vec(t, cs, ce);
                        let disp = slice_to_vec(t, ds, de);
                        map.insert(string_from_bytes(env.as_slice()), string_from_bytes(disp.as_slice()));
                        if de + 1 <= search {
                            return map;
                        }
                        search = de + 1;
                        continue;
                    }
                }
                if cursor <= search {
                    return map;
                }
                search = cursor;
            },
        }
    }
}

/// Shorthand environment commands and what they stand for.
pub open spec fn shorthand_pairs() -> Seq<(&'static str, &'static str)> {
    seq![
        ("\\beq", "\\begin{equation}"),
        ("\\eeq", "\\end{equation}"),
        ("\\bea", "\\begin{eqnarray}"),
        ("\\eea", "\\end{eqnarray}"),
        ("\\bse", "\\begin{subequations}"),
        ("\\ese", "\\end{subequations}"),
        ("\\be", "\\begin{equation}"),
        ("\\ee", "\\end{equation}"),
        ("\\ba", "\\begin{align}"),
        ("\\ea", "\\end{align}")
    ]
}

/// Patterns and replacements of a list of pairs, as bytes.
pub open spec fn pair_patterns(p: Seq<(&'static str, &'static str)>) -> Seq<Seq<u8>> {
    p.map_values(|x: (&'static str, &'static str)| x.0.spec_bytes())
}

pub open spec fn pair_replacements(p: Seq<(&'static str, &'static str)>) -> Seq<Seq<u8>> {
    p.map_values(|x: (&'static str, &'static str)| x.1.spec_bytes())
}

/// A replacer for a fixed list of pairs.
pub fn replacer_for(pairs: &[(&'static str, &'static str)]) -> (res: CommandReplacer)
    ensures
        res.pattern_seq() == pair_patterns(pairs@),
        res.replacement_seq() == pair_replacements(pairs@),
{
    let r = CommandReplacer::new(pairs);
    assert(r.pattern_seq() =~= pair_patterns(pairs@));
    assert(r.replacement_seq() =~= pair_replacements(pairs@));
    r
}

/// Expand shorthand environment abbreviations such as `\be` for
/// `\begin{equation}`, with the word-boundary check of `CommandReplacer`.
pub fn normalize_shorthands_bytes(text: &[u8]) -> (res: Vec<u8>)
    ensures
        res@ == crate::replacer::replace_commands(
            pair_patterns(shorthand_pairs()),
            pair_replacements(shorthand_pairs()),
            text@,
        ),
{
    let pairs: Vec<(&'static str, &'static str)> = vec![
        ("\\beq", "\\begin{equation}"),
        ("\\eeq", "\\end{equation}"),
        ("\\bea", "\\begin{eqnarray}"),
        ("\\eea", "\\end{eqnarray}"),
        ("\\bse", "\\begin{subequations}"),
        ("\\ese", "\\end{subequations}"),
        ("\\be", "\\begin{equation}"),
        ("\\ee", "\\end{equation}"),
        ("\\ba", "\\begin{align}"),
        ("\\ea", "\\end{align}"),
    ];
    let r = replacer_for(pairs.as_slice());
    r.replace_all_bytes(text)
}

/// Normalize common shorthand environment abbreviations.
pub fn normalize_shorthands(text: &str) -> (res: String)
    ensures
        res@ == utf8_lossy(
            crate::replacer::replace_commands(
                pair_patterns(shorthand_pairs()),
                pair_replacements(shorthand_pairs()),
                text.spec_bytes(),
            ),
        ),
{
    let out = normalize_shorthands_bytes(text.as_bytes());
    string_from_bytes(out.as_slice())
}

/// Above this size (bytes) expansion runs fewer passes.
pub const LARGE_INPUT_THRESHOLD: usize = 5_000_000;

/// Expansion stops once its output exceeds this multiple of the input.
pub const MAX_EXPANSION_GROWTH_RATIO: usize = 10;

/// Hard ceiling (bytes) on any expansion, whatever the input size.
pub const MAX_EXPANSION_BYTES: usize = 50_000_000;

/// The size an expansion of an input of `len` bytes may reach.
pub open spec fn size_cap(len: nat) -> nat {
    let g = len * 10;
    if g < 50_000_000 {
        g
    } else {
        50_000_000
    }
}

fn size_cap_exec(len: usize) -> (res: usize)
    ensures
        res as nat == size_cap(len as nat),
{
    if len < MAX_EXPANSION_BYTES / MAX_EXPANSION_GROWTH_RATIO {
        len * MAX_EXPANSION_GROWTH_RATIO
    } else {
        MAX_EXPANSION_BYTES
    }
}

/// Passes of simple-macro replacement: each pass replaces every macro
/// occurrence once; expansion stops when a pass changes nothing, when the
/// text exceeds `cap`, or when a pass would exceed it.
pub open spec fn expansion_passes(pats: Seq<Seq<u8>>, reps: Seq<Seq<u8>>, cur: Seq<u8>, left: nat, cap: nat) -> Seq<u8>
    decreases left,
{
    if left == 0 || cur.len() > cap {
        cur
    } else {
        let next = crate::replacer::replace_commands(pats, reps, cur);
        if next.len() > cap || next == cur {
            cur
        } else {
            expansion_passes(pats, reps, next, (left - 1) as nat, cap)
        }
    }
}

/// Macro names and values of a table, as bytes.
pub open spec fn table_keys(e: Seq<(Seq<char>, Seq<char>)>) -> Seq<Seq<u8>> {
    e.map_values(|p: (Seq<char>, Seq<char>)| vstd::utf8::encode_utf8(p.0))
}

pub open spec fn table_values(e: Seq<(Seq<char>, Seq<char>)>) -> Seq<Seq<u8>> {
    e.map_values(|p: (Seq<char>, Seq<char>)| vstd::utf8::encode_utf8(p.1))
}

/// Simple-macro expansion of a text: up to 5 passes (3 for inputs above
/// 5 MB), bounded by `size_cap`; nothing to do without macros.
pub open spec fn macro_expansion(t: Seq<u8>, e: Seq<(Seq<char>, Seq<char>)>) -> Seq<u8> {
    if e.len() == 0 {
        t
    } else {
        let passes: nat = if t.len() > 5_000_000 { 3 } else { 5 };
        expansion_passes(table_keys(e), table_values(e), t, passes, size_cap(t.len()))
    }
}

/// Every macro name of a table is non-empty.
pub open spec fn names_nonempty(e: Seq<(Seq<char>, Seq<char>)>) -> bool {
    forall|i: int| 0 <= i < e.len() ==> (#[trigger] e[i]).0.len() > 0
}

/// The names and values of a table with non-empty names keep text valid
/// UTF-8 when substituted.
proof fn lemma_table_utf8(e: Seq<(Seq<char>, Seq<char>)>)
    requires
        names_nonempty(e),
    ensures
        crate::replacer::utf8_table(table_keys(e), table_values(e)),
{
    assert forall|i: int| 0 <= i < table_keys(e).len() implies (#[trigger] table_keys(e)[i]).len() > 0
        && vstd::utf8::valid_utf8(table_keys(e)[i]) by {
        vstd::utf8::encode_utf8_valid_utf8(e[i].0);
        vstd::utf8::encode_utf8_decode_utf8(e[i].0);
        if vstd::utf8::encode_utf8(e[i].0).len() == 0 {
            assert(vstd::utf8::encode_utf8(e[i].0) =~= Seq::<u8>::empty());
        }
    }
    assert forall|i: int| 0 <= i < table_values(e).len() implies vstd::utf8::valid_utf8(
        #[trigger] table_values(e)[i],
    ) by {
        vstd::utf8::encode_utf8_valid_utf8(e[i].1);
    }
}

/// Keys and values of a table as byte vectors.
fn table_rows(macros: &TextMap) -> (res: (Vec<Vec<u8>>, Vec<Vec<u8>>))
    ensures
        crate::scan::rows_view(res.0@) == table_keys(macros.entry_seq()),
        crate::scan::rows_view(res.1@) == table_values(macros.entry_seq()),
        res.0.len() == res.1.len(),
{
    let mut ks: Vec<Vec<u8>> = Vec::new();
    let mut vs: Vec<Vec<u8>> = Vec::new();
    let mut i: usize = 0;
    while i < macros.len()
        invariant
            i <= macros.entry_seq().len(),
            ks.len() == i,
            vs.len() == i,
            forall|j: int| 0 <= j < i ==> (#[trigger] ks@[j])@ == vstd::utf8::encode_utf8(macros.entry_seq()[j].0),
            forall|j: int| 0 <= j < i ==> (#[trigger] vs@[j])@ == vstd::utf8::encode_utf8(macros.entry_seq()[j].1),
        decreases macros.entry_seq().len() - i,
    {
        let (k, v) = macros.entry(i);
        let mut kb: Vec<u8> = Vec::new();
        push_all(&mut kb, k.as_str().as_bytes());
        let mut vb: Vec<u8> = Vec::new();
        push_all(&mut vb, v.as_str().as_bytes());
        assert(kb@ =~= vstd::utf8::encode_utf8(macros.entry_seq()[i as int].0));
        assert(vb@ =~= vstd::utf8::encode_utf8(macros.entry_seq()[i as int].1));
        ks.push(kb);
        vs.push(vb);
        i = i + 1;
    }
    assert(crate::scan::rows_view(ks@) =~= table_keys(macros.entry_seq()));
    assert(crate::scan::rows_view(vs@) =~= table_values(macros.entry_seq()));
    (ks, vs)
}

/// Simple-macro expansion on bytes.
pub fn expand_macros_bytes(text: &[u8], macros: &TextMap) -> (res: Vec<u8>)
    ensures
        res@ == macro_expansion(text@, macros.entry_seq()),
        vstd::utf8::valid_utf8(text@) && names_nonempty(macros.entry_seq()) ==> vstd::utf8::valid_utf8(res@),
{
    if macros.is_empty() {
        let mut out: Vec<u8> = Vec::new();
        push_all(&mut out, text);
        assert(out@ =~= text@);
        return out;
    }
    let max_passes: usize = if text.len() > LARGE_INPUT_THRESHOLD { 3 } else { 5 };
    let cap = size_cap_exec(text.len());
    let (ks, vs) = table_rows(macros);
    let replacer = CommandReplacer::from_parts(ks, vs);
    let ghost pats = table_keys(macros.entry_seq());
    let ghost reps = table_values(macros.entry_seq());
    let mut result: Vec<u8> = Vec::new();
    push_all(&mut result, text);
    assert(result@ =~= text@);
    proof {
        if names_nonempty(macros.entry_seq()) {
            lemma_table_utf8(macros.entry_seq());
        }
    }
    let mut pass: usize = 0;
    while pass < max_passes
        invariant
            pass <= max_passes,
            replacer.pattern_seq() == pats,
            replacer.replacement_seq() == reps,
            expansion_passes(pats, reps, result@, (max_passes - pass) as nat, cap as nat)
                == macro_expansion(text@, macros.entry_seq()),
            max_passes == (if text.len() > 5_000_000 { 3usize } else { 5usize }),
            cap as nat == size_cap(text@.len()),
            macros.entry_seq().len() > 0,
            names_nonempty(macros.entry_seq()) ==> crate::replacer::utf8_table(pats, reps),
            vstd::utf8::valid_utf8(text@) && names_nonempty(macros.entry_seq()) ==> vstd::utf8::valid_utf8(
                result@,
            ),
        decreases max_passes - pass,
    {
        if result.len() > cap {
            return result;
        }
        let next = replacer.replace_all_bytes(result.as_slice());
        if next.len() > cap {
            return result;
        }
        if crate::scan::bytes_eq(next.as_slice(), result.as_slice()) {
            return result;
        }
        result = next;
        pass = pass + 1;
    }
    result
}

/// Running at most `k` passes: a text reached by `k` passes that can take
/// one more step reaches that step with `k + 1` passes.
proof fn lemma_passes_step(pats: Seq<Seq<u8>>, reps: Seq<Seq<u8>>, t: Seq<u8>, k: nat, cap: nat)
    requires
        expansion_passes(pats, reps, t, k, cap).len() <= cap,
        crate::replacer::replace_commands(pats, reps, expansion_passes(pats, reps, t, k, cap)).len() <= cap,
        crate::replacer::replace_commands(pats, reps, expansion_passes(pats, reps, t, k, cap)) != expansion_passes(
            pats,
            reps,
            t,
            k,
            cap,
        ),
    ensures
        expansion_passes(pats, reps, t, k + 1, cap) == crate::replacer::replace_commands(
            pats,
            reps,
            expansion_passes(pats, reps, t, k, cap),
        ),
    decreases k,
{
    let next = crate::replacer::replace_commands(pats, reps, t);
    if k == 0 {
        assert(expansion_passes(pats, reps, t, 0, cap) == t);
        assert(expansion_passes(pats, reps, next, 0, cap) == next);
        assert(expansion_passes(pats, reps, t, 1, cap) == expansion_passes(pats, reps, next, 0, cap));
    } else {
        if !(t.len() > cap || next.len() > cap || next == t) {
            assert(expansion_passes(pats, reps, t, k, cap) == expansion_passes(pats, reps, next, (k - 1) as nat, cap));
            lemma_passes_step(pats, reps, next, (k - 1) as nat, cap);
            assert(expansion_passes(pats, reps, t, k + 1, cap) == expansion_passes(pats, reps, next, k, cap));
        } else {
            assert(expansion_passes(pats, reps, t, k, cap) == t);
        }
    }
}

/// Simple-macro expansion stopped after at most `j` passes.
pub open spec fn macro_expansion_upto(t: Seq<u8>, e: Seq<(Seq<char>, Seq<char>)>, j: nat) -> Seq<u8> {
    if e.len() == 0 {
        t
    } else {
        expansion_passes(table_keys(e), table_values(e), t, j, size_cap(t.len()))
    }
}

/// The number of simple-macro passes for an input length.
pub open spec fn macro_pass_limit(len: nat) -> nat {
    if len > 5_000_000 {
        3
    } else {
        5
    }
}

/// Simple-macro expansion that checks `cancel` before each pass and, when
/// it is set, stops with the passes done so far.
pub fn expand_macros_cancellable_bytes(text: &[u8], macros: &TextMap, cancel: Option<&std::sync::atomic::AtomicBool>) -> (res: (Vec<u8>, bool))
    ensures
        cancel is None ==> !res.1,
        !res.1 ==> res.0@ == macro_expansion(text@, macros.entry_seq()),
        exists|j: nat| j <= macro_pass_limit(text@.len()) && res.0@ == macro_expansion_upto(text@, macros.entry_seq(), j),
{
    if macros.is_empty() {
        let mut out: Vec<u8> = Vec::new();
        push_all(&mut out, text);
        assert(out@ =~= text@);
        assert(out@ == macro_expansion_upto(text@, macros.entry_seq(), 0));
        return (out, false);
    }
    let max_passes: usize = if text.len() > LARGE_INPUT_THRESHOLD { 3 } else { 5 };
    let cap = size_cap_exec(text.len());
    let (ks, vs) = table_rows(macros);
    let replacer = CommandReplacer::from_parts(ks, vs);
    let ghost pats = table_keys(macros.entry_seq());
    let ghost reps = table_values(macros.entry_seq());
    let mut result: Vec<u8> = Vec::new();
    push_all(&mut result, text);
    assert(result@ =~= text@);
    let mut pass: usize = 0;
    while pass < max_passes
        invariant
            pass <= max_passes,
            replacer.pattern_seq() == pats,
            replacer.replacement_seq() == reps,
            pats == table_keys(macros.entry_seq()),
            reps == table_values(macros.entry_seq()),
            expansion_passes(pats, reps, result@, (max_passes - pass) as nat, cap as nat)
                == macro_expansion(text@, macros.entry_seq()),
            result@ == expansion_passes(pats, reps, text@, pass as nat, cap as nat),
            max_passes as nat == macro_pass_limit(text@.len()),
            max_passes == (if text.len() > 5_000_000 { 3usize } else { 5usize }),
            cap as nat == size_cap(text@.len()),
            macros.entry_seq().len() > 0,
        decreases max_passes - pass,
    {
        assert(result@ == macro_expansion_upto(text@, macros.entry_seq(), pass as nat));
        if crate::cancel::cancel_requested(cancel) {
            return (result, true);
        }
        if result.len() > cap {
            return (result, false);
        }
        let next = replacer.replace_all_bytes(result.as_slice());
        if next.len() > cap {
            return (result, false);
        }
        if crate::scan::bytes_eq(next.as_slice(), result.as_slice()) {
            return (result, false);
        }
        proof {
            lemma_passes_step(pats, reps, text@, pass as nat, cap as nat);
        }
        result = next;
        pass = pass + 1;
    }
    assert(result@ == macro_expansion_upto(text@, macros.entry_seq(), pass as nat));
    (result, false)
}

/// `expand_macros` with cooperative cancellation between passes.
pub fn expand_macros_cancellable(text: &str, macros: &TextMap, cancel: Option<&std::sync::atomic::AtomicBool>) -> (res: String)
    ensures
        cancel is None ==> res@ == utf8_lossy(macro_expansion(text.spec_bytes(), macros.entry_seq())),
        exists|j: nat|
            j <= macro_pass_limit(text.spec_bytes().len()) && res@ == utf8_lossy(
                macro_expansion_upto(text.spec_bytes(), macros.entry_seq(), j),
            ),
{
    let (out, _) = expand_macros_cancellable_bytes(text.as_bytes(), macros, cancel);
    string_from_bytes(out.as_slice())
}

/// `expand_macros_cancellable` that also tells whether it stopped for the
/// cancel flag; when it did not, the expansion is complete.
pub fn expand_macros_checked(text: &str, macros: &TextMap, cancel: Option<&std::sync::atomic::AtomicBool>) -> (res: (
    String,
    bool,
))
    ensures
        cancel is None ==> !res.1,
        !res.1 ==> res.0@ == utf8_lossy(macro_expansion(text.spec_bytes(), macros.entry_seq())),
{
    let (out, stopped) = expand_macros_cancellable_bytes(text.as_bytes(), macros, cancel);
    (string_from_bytes(out.as_slice()), stopped)
}

/// Expand simple macros: every occurrence of a macro name not followed by
/// a letter is replaced by its value, for up to 5 passes (3 above 5 MB) so
/// that chains resolve, stopping early once nothing changes or the text
/// would grow beyond `size_cap` of the input.
pub fn expand_macros(text: &str, macros: &TextMap) -> (res: String)
    ensures
        res@ == utf8_lossy(macro_expansion(text.spec_bytes(), macros.entry_seq())),
        macros.entry_seq().len() == 0 ==> res@ == text@,
        names_nonempty(macros.entry_seq()) ==> vstd::utf8::valid_utf8(
            macro_expansion(text.spec_bytes(), macros.entry_seq()),
        ) && res@ == vstd::utf8::decode_utf8(macro_expansion(text.spec_bytes(), macros.entry_seq())),
{
    proof {
        vstd::utf8::encode_utf8_valid_utf8(text@);
    }
    let out = expand_macros_bytes(text.as_bytes(), macros);
    proof {
        vstd::utf8::encode_utf8_valid_utf8(text@);
        vstd::utf8::encode_utf8_decode_utf8(text@);
    }
    string_from_bytes(out.as_slice())
}


/// A macro body with `#n` replaced by argument n (1-based), `##` by `#`;
/// an out-of-range `#n` disappears, any other `#` stays.
pub open spec fn substitute_from(b: Seq<u8>, args: Seq<Seq<u8>>, i: int) -> Seq<u8>
    decreases b.len() - i,
{
    if i < 0 || i >= b.len() {
        Seq::empty()
    } else if b[i] == 0x23 {
        if i + 1 >= b.len() {
            seq![0x23u8]
        } else if b[i + 1] == 0x23 {
            seq![0x23u8] + substitute_from(b, args, i + 2)
        } else if is_digit(b[i + 1]) {
            let n = b[i + 1] - 0x30;
            (if 1 <= n <= args.len() { args[n - 1] } else { Seq::empty() }) + substitute_from(
                b,
                args,
                i + 2,
            )
        } else {
            seq![0x23u8] + substitute_from(b, args, i + 1)
        }
    } else {
        seq![b[i]] + substitute_from(b, args, i + 1)
    }
}

/// Substitution on bytes.
pub fn substitute_args_bytes(body: &[u8], args: &Vec<Vec<u8>>) -> (res: Vec<u8>)
    ensures
        res@ == substitute_from(body@, crate::scan::rows_view(args@), 0),
{
    let ghost av = crate::scan::rows_view(args@);
    let mut out: Vec<u8> = Vec::new();
    let mut i: usize = 0;
    while i < body.len()
        invariant
            i <= body.len(),
            av == crate::scan::rows_view(args@),
            out@ + substitute_from(body@, av, i as int) == substitute_from(body@, av, 0),
        decreases body.len() - i,
    {
        let ghost o = out@;
        if body[i] == 0x23 {
            if i + 1 >= body.len() {
                out.push(0x23);
                assert(o + seq![0x23u8] =~= out@ + substitute_from(body@, av, (i + 1) as int));
                i = i + 1;
            } else if body[i + 1] == 0x23 {
                out.push(0x23);
                assert(o + (seq![0x23u8] + substitute_from(body@, av, i + 2)) =~= out@
                    + substitute_from(body@, av, i + 2));
                i = i + 2;
            } else if 0x30 <= body[i + 1] && body[i + 1] <= 0x39 {
                let n = (body[i + 1] - 0x30) as usize;
                if n >= 1 && n <= args.len() {
                    push_all(&mut out, args[n - 1].as_slice());
                    assert(args@[n - 1]@ == av[n - 1]);
                }
                assert(o + ((if 1 <= n <= av.len() { av[n - 1] } else { Seq::empty() })
                    + substitute_from(body@, av, i + 2)) =~= out@ + substitute_from(body@, av, i + 2));
                i = i + 2;
            } else {
                out.push(0x23);
                assert(o + (seq![0x23u8] + substitute_from(body@, av, i + 1)) =~= out@
                    + substitute_from(body@, av, i + 1));
                i = i + 1;
            }
        } else {
            out.push(body[i]);
            assert(o + (seq![body@[i as int]] + substitute_from(body@, av, i + 1)) =~= out@
                + substitute_from(body@, av, i + 1));
            i = i + 1;
        }
    }
    assert(out@ + Seq::<u8>::empty() =~= out@);
    out
}

/// Replace `#1`, `#2`, … in a macro body with argument values; `##` is a
/// literal `#`. All placeholders are substituted in one pass.
pub fn substitute_args(body: &str, args: &[String]) -> (res: String)
    ensures
        res@ == utf8_lossy(
            substitute_from(
                body.spec_bytes(),
                args@.map_values(|a: String| vstd::utf8::encode_utf8(a@)),
                0,
            ),
        ),
        res@ == vstd::utf8::decode_utf8(
            substitute_from(
                body.spec_bytes(),
                args@.map_values(|a: String| vstd::utf8::encode_utf8(a@)),
                0,
            ),
        ),
{
    proof {
        let av = args@.map_values(|a: String| vstd::utf8::encode_utf8(a@));
        vstd::utf8::encode_utf8_valid_utf8(body@);
        assert(body.spec_bytes().subrange(0, body.spec_bytes().len() as int) =~= body.spec_bytes());
        assert forall|j: int| 0 <= j < av.len() implies vstd::utf8::valid_utf8(#[trigger] av[j]) by {
            vstd::utf8::encode_utf8_valid_utf8(args@[j]@);
        }
        lemma_substitute_utf8(body.spec_bytes(), av, 0);
    }
    let mut av: Vec<Vec<u8>> = Vec::new();
    let mut i: usize = 0;
    while i < args.len()
        invariant
            i <= args.len(),
            av.len() == i,
            forall|j: int| 0 <= j < i ==> (#[trigger] av@[j])@ == vstd::utf8::encode_utf8(args@[j]@),
        decreases args.len() - i,
    {
        let mut v: Vec<u8> = Vec::new();
        push_all(&mut v, args[i].as_str().as_bytes());
        av.push(v);
        i = i + 1;
    }
    assert(crate::scan::rows_view(av@) =~= args@.map_values(|a: String| vstd::utf8::encode_utf8(a@)));
    let out = substitute_args_bytes(body.as_bytes(), &av);
    string_from_bytes(out.as_slice())
}

/// The bytes of a parametric macro: name, argument count, body, default.
pub open spec fn macro_bytes(m: MacroView) -> (Seq<u8>, nat, Seq<u8>, Option<Seq<u8>>) {
    (
        vstd::utf8::encode_utf8(m.0),
        m.1 as nat,
        vstd::utf8::encode_utf8(m.2),
        match m.3 {
            Some(d) => Some(vstd::utf8::encode_utf8(d)),
            None => None,
        },
    )
}

/// `k` mandatory braced arguments from `cur`: their contents and the
/// position after the last.
pub open spec fn mandatory_args(t: Seq<u8>, cur: int, k: nat) -> Option<(Seq<Seq<u8>>, int)>
    decreases k,
{
    if k == 0 {
        Some((Seq::empty(), cur))
    } else {
        match command_arg(t, cur) {
            None => None,
            Some((cs, ce, a)) => match mandatory_args(t, a, (k - 1) as nat) {
                None => None,
                Some((rest, c)) => Some((seq![t.subrange(cs, ce)] + rest, c)),
            },
        }
    }
}

/// The expansion of one invocation whose arguments start at `start`, and
/// the position after them; `None` if the arguments are not all there.
pub open spec fn invocation(t: Seq<u8>, start: int, m: (Seq<u8>, nat, Seq<u8>, Option<Seq<u8>>)) -> Option<(Seq<u8>, int)> {
    let (_, n, body, default) = m;
    match default {
        Some(d) => if n == 0 {
            None
        } else {
            let (first, cur0) = match optional_arg(t, start) {
                Some((cs, ce, a)) => (t.subrange(cs, ce), a),
                None => (d, start),
            };
            match mandatory_args(t, cur0, (n - 1) as nat) {
                None => None,
                Some((rest, cur)) => Some((substitute_from(body, seq![first] + rest, 0), cur)),
            }
        },
        None => match mandatory_args(t, start, n) {
            None => None,
            Some((args, cur)) => Some((substitute_from(body, args, 0), cur)),
        },
    }
}

/// The text from `s` on with every invocation of one macro expanded; an
/// occurrence followed by a letter, or without its arguments, stays.
pub open spec fn expand_one_from(t: Seq<u8>, m: (Seq<u8>, nat, Seq<u8>, Option<Seq<u8>>), s: int) -> Seq<u8>
    decreases t.len() + 1 - s,
{
    let name = m.0;
    if s < 0 || s > t.len() {
        Seq::empty()
    } else if name.len() == 0 {
        t.subrange(s, t.len() as int)
    } else {
        match find_from(t, name, s) {
            None => t.subrange(s, t.len() as int),
            Some(abs) => {
                let after = abs + name.len();
                if !(s < after <= t.len()) {
                    t.subrange(s, t.len() as int)
                } else if after < t.len() && is_alpha(t[after]) {
                    t.subrange(s, after) + expand_one_from(t, m, after)
                } else {
                    match invocation(t, after, m) {
                        Some((rep, cur)) => if s < cur <= t.len() {
                            t.subrange(s, abs) + rep + expand_one_from(t, m, cur)
                        } else {
                            t.subrange(s, abs) + rep
                        },
                        None => t.subrange(s, abs) + name + expand_one_from(t, m, after),
                    }
                }
            },
        }
    }
}

proof fn lemma_mandatory_args_bounds(t: Seq<u8>, cur: int, k: nat)
    requires
        0 <= cur,
    ensures
        mandatory_args(t, cur, k) matches Some((args, c)) ==> cur <= c && (k > 0 ==> c <= t.len())
            && args.len() == k,
    decreases k,
{
    if k > 0 {
        crate::braces::lemma_skip_blanks_bounds(t, cur);
        lemma_braced_bounds(t, skip_blanks(t, cur));
        match command_arg(t, cur) {
            None => {},
            Some((cs, ce, a)) => {
                lemma_mandatory_args_bounds(t, a, (k - 1) as nat);
            },
        }
    }
}

/// Collect `k` mandatory arguments.
fn mandatory_args_bytes(t: &[u8], cur: usize, k: usize, out: &mut Vec<Vec<u8>>) -> (res: Option<usize>)
    ensures
        res is None ==> mandatory_args(t@, cur as int, k as nat) is None,
        res matches Some(c) ==> (mandatory_args(t@, cur as int, k as nat) matches Some((args, e))
            && e == c as int && crate::scan::rows_view(final(out)@) == crate::scan::rows_view(old(out)@)
            + args),
        res matches Some(c) ==> cur <= c,
{
    proof {
        lemma_mandatory_args_bounds(t@, cur as int, k as nat);
    }
    let mut c = cur;
    let mut j: usize = 0;
    let ghost base = crate::scan::rows_view(out@);
    while j < k
        invariant
            j <= k,
            cur <= c,
            mandatory_args(t@, cur as int, k as nat) == match mandatory_args(t@, c as int, (k - j) as nat) {
                None => None,
                Some((rest, e)) => Some((crate::scan::rows_view(out@).subrange(base.len() as int, crate::scan::rows_view(out@).len() as int) + rest, e)),
            },
            crate::scan::rows_view(out@).subrange(0, base.len() as int) == base,
            crate::scan::rows_view(out@).len() >= base.len(),
        decreases k - j,
    {
        match command_arg_bytes(t, c) {
            None => {
                return None;
            },
            Some((cs, ce, a)) => {
                let v = slice_to_vec(t, cs, ce);
                let ghost before = crate::scan::rows_view(out@);
                out.push(v);
                proof {
                    let after_v = crate::scan::rows_view(out@);
                    assert(after_v =~= before.push(t@.subrange(cs as int, ce as int)));
                    assert(after_v.subrange(0, base.len() as int) =~= before.subrange(0, base.len() as int));
                    let mid = before.subrange(base.len() as int, before.len() as int);
                    assert(after_v.subrange(base.len() as int, after_v.len() as int) =~= mid.push(
                        t@.subrange(cs as int, ce as int),
                    ));
                    match mandatory_args(t@, a as int, (k - j - 1) as nat) {
                        None => {},
                        Some((rest, e)) => {
                            assert(mid + (seq![t@.subrange(cs as int, ce as int)] + rest) =~= mid.push(
                                t@.subrange(cs as int, ce as int),
                            ) + rest);
                        },
                    }
                }
                c = a;
                j = j + 1;
            },
        }
    }
    proof {
        let r = crate::scan::rows_view(out@);
        assert(r =~= base + r.subrange(base.len() as int, r.len() as int));
        assert(r.subrange(base.len() as int, r.len() as int) + Seq::<Seq<u8>>::empty() =~= r.subrange(
            base.len() as int,
            r.len() as int,
        ));
    }
    Some(c)
}

/// Expand one invocation of `mac` whose arguments start at `start`.
fn try_expand_parametric(t: &[u8], start: usize, mac: &ParametricMacro) -> (res: Option<(Vec<u8>, usize)>)
    ensures
        match invocation(t@, start as int, macro_bytes(mac.view_tuple())) {
            None => res is None,
            Some((rep, cur)) => res matches Some((r, c)) && r@ == rep && c as int == cur,
        },
        res matches Some((r, c)) ==> start <= c,
{
    proof {
        lemma_mandatory_args_bounds(t@, start as int, mac.num_args as nat);
    }
    let body = mac.body.as_str().as_bytes();
    let mut args: Vec<Vec<u8>> = Vec::new();
    match &mac.optional_default {
        Some(d) => {
            if mac.num_args == 0 {
                return None;
            }
            let mut cur = start;
            match optional_arg_bytes(t, start) {
                Some((cs, ce, a)) => {
                    args.push(slice_to_vec(t, cs, ce));
                    assert(crate::scan::rows_view(args@) =~= seq![t@.subrange(cs as int, ce as int)]);
                    cur = a;
                },
                None => {
                    let mut dv: Vec<u8> = Vec::new();
                    push_all(&mut dv, d.as_str().as_bytes());
                    args.push(dv);
                    assert(crate::scan::rows_view(args@) =~= seq![vstd::utf8::encode_utf8(d@)]);
                },
            }
            let ghost first_args = crate::scan::rows_view(args@);
            proof {
                lemma_mandatory_args_bounds(t@, cur as int, (mac.num_args - 1) as nat);
            }
            match mandatory_args_bytes(t, cur, mac.num_args - 1, &mut args) {
                None => None,
                Some(c) => {
                    proof {
                        let first = first_args[0];
                        assert(first_args =~= seq![first]);
                    }
                    proof {
                        let m = macro_bytes(mac.view_tuple());
                        assert(m.1 == mac.num_args as nat);
                        let (first, cur0) = match optional_arg(t@, start as int) {
                            Some((cs, ce, a)) => (t@.subrange(cs, ce), a),
                            None => (vstd::utf8::encode_utf8(d@), start as int),
                        };
                        assert(cur0 == cur as int);
                        assert(first_args == seq![first]);
                        match mandatory_args(t@, cur0, (m.1 - 1) as nat) {
                            Some((rest, e)) => {
                                assert(crate::scan::rows_view(args@) == seq![first] + rest);
                                assert(e == c as int);
                            },
                            None => {
                                assert(false);
                            },
                        }
                    }
                    let r = substitute_args_bytes(body, &args);
                    assert(body@ == macro_bytes(mac.view_tuple()).2);
                    assert(macro_bytes(mac.view_tuple()).3 == Some(vstd::utf8::encode_utf8(d@)));
                    assert(invocation(t@, start as int, macro_bytes(mac.view_tuple())) == Some((r@, c as int)));
                    Some((r, c))
                },
            }
        },
        None => {
            assert(crate::scan::rows_view(args@) =~= Seq::<Seq<u8>>::empty());
            match mandatory_args_bytes(t, start, mac.num_args, &mut args) {
                None => None,
                Some(c) => {
                    proof {
                        match mandatory_args(t@, start as int, mac.num_args as nat) {
                            Some((a0, _)) => {
                                assert(Seq::<Seq<u8>>::empty() + a0 =~= a0);
                            },
                            None => {},
                        }
                    }
                    let r = substitute_args_bytes(body, &args);
                    assert(invocation(t@, start as int, macro_bytes(mac.view_tuple())) == Some((r@, c as int)));
                    Some((r, c))
                },
            }
        },
    }
}


proof fn lemma_invocation_progress(t: Seq<u8>, start: int, m: (Seq<u8>, nat, Seq<u8>, Option<Seq<u8>>))
    requires
        0 <= start <= t.len(),
    ensures
        invocation(t, start, m) matches Some((rep, cur)) ==> start <= cur <= t.len(),
{
    let (_, n, body, default) = m;
    match default {
        Some(d) => {
            if n != 0 {
                crate::braces::lemma_skip_blanks_bounds(t, start);
                let i = skip_blanks(t, start);
                if 0 <= i < t.len() && t[i] == 0x5b {
                    crate::braces::lemma_closing_bracket_bounds(t, i + 1, 1);
                }
                match optional_arg(t, start) {
                    Some((cs, ce, a)) => {
                        lemma_mandatory_args_bounds(t, a, (n - 1) as nat);
                    },
                    None => {
                        lemma_mandatory_args_bounds(t, start, (n - 1) as nat);
                    },
                }
            }
        },
        None => {
            lemma_mandatory_args_bounds(t, start, n);
        },
    }
}

/// Expand every invocation of one macro.
pub fn expand_single_parametric(text: &[u8], mac: &ParametricMacro) -> (res: Vec<u8>)
    ensures
        res@ == expand_one_from(text@, macro_bytes(mac.view_tuple()), 0),
{
    let name = mac.name.as_str().as_bytes();
    let ghost m = macro_bytes(mac.view_tuple());
    let mut out: Vec<u8> = Vec::new();
    if name.len() == 0 {
        push_all(&mut out, text);
        assert(out@ =~= text@.subrange(0, text@.len() as int));
        return out;
    }
    let mut s: usize = 0;
    loop
        invariant
            s <= text.len(),
            name@ == m.0,
            name.len() > 0,
            m == macro_bytes(mac.view_tuple()),
            out@ + expand_one_from(text@, m, s as int) == expand_one_from(text@, m, 0),
        decreases text.len() - s,
    {
        let ghost o = out@;
        match crate::scan::find_bytes(text, name, s) {
            None => {
                push_range(&mut out, text, s, text.len());
                return out;
            },
            Some(abs) => {
                let after = abs + name.len();
                if after < text.len() && is_alpha_byte(text[after]) {
                    push_range(&mut out, text, s, after);
                    assert(o + (text@.subrange(s as int, after as int) + expand_one_from(text@, m, after as int))
                        =~= out@ + expand_one_from(text@, m, after as int));
                    s = after;
                } else {
                    proof {
                        lemma_invocation_progress(text@, after as int, m);
                    }
                    match try_expand_parametric(text, after, mac) {
                        Some((rep, cur)) => {
                            push_range(&mut out, text, s, abs);
                            push_all(&mut out, rep.as_slice());
                            assert(o + (text@.subrange(s as int, abs as int) + rep@ + expand_one_from(text@, m, cur as int))
                                =~= out@ + expand_one_from(text@, m, cur as int));
                            s = cur;
                        },
                        None => {
                            push_range(&mut out, text, s, abs);
                            push_all(&mut out, name);
                            assert(o + (text@.subrange(s as int, abs as int) + name@ + expand_one_from(text@, m, after as int))
                                =~= out@ + expand_one_from(text@, m, after as int));
                            s = after;
                        },
                    }
                }
            },
        }
    }
}

/// A braced argument of valid UTF-8 text is valid UTF-8, and so is the text
/// after it: both are cut at ASCII braces.
proof fn lemma_command_arg_utf8(t: Seq<u8>, cur: int)
    requires
        0 <= cur <= t.len(),
        vstd::utf8::valid_utf8(t.subrange(cur, t.len() as int)),
    ensures
        command_arg(t, cur) matches Some((cs, ce, a)) ==> cur < a <= t.len() && vstd::utf8::valid_utf8(
            t.subrange(cs, ce),
        ) && vstd::utf8::valid_utf8(t.subrange(a, t.len() as int)),
{
    lemma_skip_blanks_bounds(t, cur);
    let o = skip_blanks(t, cur);
    if 0 <= o < t.len() && t[o] == 0x7b {
        crate::braces::lemma_closing_brace_bounds(t, o + 1, 1);
        match crate::braces::closing_brace_from(t, o + 1, 1) {
            Some(ce) => {
                crate::text::lemma_utf8_after_ascii(t, cur, o);
                crate::text::lemma_utf8_before_ascii(t, o + 1, ce);
                crate::text::lemma_utf8_after_ascii(t, cur, ce);
            },
            None => {},
        }
    }
}

/// The bracketed optional argument of valid UTF-8 text is valid UTF-8, and
/// so is the text after it.
proof fn lemma_optional_arg_utf8(t: Seq<u8>, pos: int)
    requires
        0 <= pos <= t.len(),
        vstd::utf8::valid_utf8(t.subrange(pos, t.len() as int)),
    ensures
        optional_arg(t, pos) matches Some((cs, ce, a)) ==> pos < a <= t.len() && vstd::utf8::valid_utf8(
            t.subrange(cs, ce),
        ) && vstd::utf8::valid_utf8(t.subrange(a, t.len() as int)),
{
    lemma_skip_blanks_bounds(t, pos);
    let i = skip_blanks(t, pos);
    if 0 <= i < t.len() && t[i] == 0x5b {
        lemma_closing_bracket_bounds(t, i + 1, 1);
        crate::braces::lemma_closing_bracket_ends_with_bracket(t, i + 1, 1);
        match closing_bracket_from(t, i + 1, 1) {
            Some(j) => {
                crate::text::lemma_utf8_after_ascii(t, pos, i);
                crate::text::lemma_utf8_before_ascii(t, i + 1, j - 1);
                crate::text::lemma_utf8_after_ascii(t, pos, j - 1);
            },
            None => {},
        }
    }
}

/// Mandatory arguments of valid UTF-8 text are valid UTF-8, and so is the
/// text after them.
proof fn lemma_mandatory_args_utf8(t: Seq<u8>, cur: int, k: nat)
    requires
        0 <= cur <= t.len(),
        vstd::utf8::valid_utf8(t.subrange(cur, t.len() as int)),
    ensures
        mandatory_args(t, cur, k) matches Some((args, c)) ==> cur <= c <= t.len() && vstd::utf8::valid_utf8(
            t.subrange(c, t.len() as int),
        ) && forall|j: int| 0 <= j < args.len() ==> vstd::utf8::valid_utf8(#[trigger] args[j]),
    decreases k,
{
    if k > 0 {
        lemma_command_arg_utf8(t, cur);
        match command_arg(t, cur) {
            Some((cs, ce, a)) => {
                lemma_mandatory_args_utf8(t, a, (k - 1) as nat);
                match mandatory_args(t, a, (k - 1) as nat) {
                    Some((rest, c)) => {
                        let args = seq![t.subrange(cs, ce)] + rest;
                        assert forall|j: int| 0 <= j < args.len() implies vstd::utf8::valid_utf8(
                            #[trigger] args[j],
                        ) by {
                            if j > 0 {
                                assert(args[j] == rest[j - 1]);
                            }
                        }
                    },
                    None => {},
                }
            },
            None => {},
        }
    }
}

/// Bytes of a macro body without `#` are copied as they are.
proof fn lemma_substitute_run(b: Seq<u8>, args: Seq<Seq<u8>>, i: int, m: int)
    requires
        0 <= i <= m <= b.len(),
        forall|k: int| i <= k < m ==> b[k] != 0x23,
    ensures
        substitute_from(b, args, i) == b.subrange(i, m) + substitute_from(b, args, m),
    decreases m - i,
{
    if i < m {
        lemma_substitute_run(b, args, i + 1, m);
        assert(b.subrange(i, m) =~= seq![b[i]] + b.subrange(i + 1, m));
        assert(seq![b[i]] + (b.subrange(i + 1, m) + substitute_from(b, args, m)) =~= b.subrange(i, m)
            + substitute_from(b, args, m));
    } else {
        assert(b.subrange(i, m) + substitute_from(b, args, m) =~= substitute_from(b, args, m));
    }
}

/// Substituting valid UTF-8 arguments into a valid UTF-8 body gives valid
/// UTF-8: the placeholders are ASCII.
proof fn lemma_substitute_utf8(b: Seq<u8>, args: Seq<Seq<u8>>, i: int)
    requires
        0 <= i <= b.len(),
        vstd::utf8::valid_utf8(b.subrange(i, b.len() as int)),
        forall|j: int| 0 <= j < args.len() ==> vstd::utf8::valid_utf8(#[trigger] args[j]),
    ensures
        vstd::utf8::valid_utf8(substitute_from(b, args, i)),
    decreases b.len() - i,
{
    crate::text::lemma_ascii_utf8(seq![0x23u8]);
    if i < b.len() {
        if b[i] == 0x23 {
            if i + 1 >= b.len() {
            } else if b[i + 1] == 0x23 || is_digit(b[i + 1]) {
                crate::text::lemma_utf8_after_ascii(b, i, i);
                crate::text::lemma_utf8_after_ascii(b, i, i + 1);
                lemma_substitute_utf8(b, args, i + 2);
                let rest = substitute_from(b, args, i + 2);
                if b[i + 1] == 0x23 {
                    vstd::utf8::valid_utf8_concat(seq![0x23u8], rest);
                } else {
                    let n = b[i + 1] - 0x30;
                    let piece: Seq<u8> = if 1 <= n <= args.len() { args[n - 1] } else { Seq::empty() };
                    crate::text::lemma_ascii_utf8(Seq::<u8>::empty());
                    vstd::utf8::valid_utf8_concat(piece, rest);
                }
            } else {
                crate::text::lemma_utf8_after_ascii(b, i, i);
                lemma_substitute_utf8(b, args, i + 1);
                vstd::utf8::valid_utf8_concat(seq![0x23u8], substitute_from(b, args, i + 1));
            }
        } else {
            let l = crate::text::lemma_utf8_first_char(b, i);
            lemma_substitute_utf8(b, args, i + l);
            let rest = substitute_from(b, args, i + l);
            let ch = b.subrange(i, i + l);
            if l == 1 {
                assert(ch =~= seq![b[i]]);
            } else {
                lemma_substitute_run(b, args, i, i + l);
            }
            assert(substitute_from(b, args, i) =~= ch + rest);
            vstd::utf8::valid_utf8_concat(ch, rest);
        }
    }
}

/// One invocation in valid UTF-8 text expands to valid UTF-8, and the text
/// after it is valid UTF-8.
proof fn lemma_invocation_utf8(t: Seq<u8>, start: int, mv: MacroView)
    requires
        0 <= start <= t.len(),
        vstd::utf8::valid_utf8(t.subrange(start, t.len() as int)),
    ensures
        invocation(t, start, macro_bytes(mv)) matches Some((rep, cur)) ==> start <= cur <= t.len()
            && vstd::utf8::valid_utf8(rep) && vstd::utf8::valid_utf8(t.subrange(cur, t.len() as int)),
{
    let m = macro_bytes(mv);
    let (_, n, body, default) = m;
    vstd::utf8::encode_utf8_valid_utf8(mv.2);
    assert(body.subrange(0, body.len() as int) =~= body);
    match default {
        Some(d) => {
            vstd::utf8::encode_utf8_valid_utf8(mv.3->0);
            if n != 0 {
                lemma_optional_arg_utf8(t, start);
                let (first, cur0) = match optional_arg(t, start) {
                    Some((cs, ce, a)) => (t.subrange(cs, ce), a),
                    None => (d, start),
                };
                lemma_mandatory_args_utf8(t, cur0, (n - 1) as nat);
                match mandatory_args(t, cur0, (n - 1) as nat) {
                    Some((rest, cur)) => {
                        let args = seq![first] + rest;
                        assert forall|j: int| 0 <= j < args.len() implies vstd::utf8::valid_utf8(
                            #[trigger] args[j],
                        ) by {
                            if j > 0 {
                                assert(args[j] == rest[j - 1]);
                            }
                        }
                        lemma_substitute_utf8(body, args, 0);
                    },
                    None => {},
                }
            }
        },
        None => {
            lemma_mandatory_args_utf8(t, start, n);
            match mandatory_args(t, start, n) {
                Some((args, cur)) => {
                    lemma_substitute_utf8(body, args, 0);
                },
                None => {},
            }
        },
    }
}

/// Expanding one macro in valid UTF-8 text gives valid UTF-8 text.
proof fn lemma_expand_one_utf8(t: Seq<u8>, mv: MacroView, s: int)
    requires
        0 <= s <= t.len(),
        vstd::utf8::valid_utf8(t.subrange(s, t.len() as int)),
    ensures
        vstd::utf8::valid_utf8(expand_one_from(t, macro_bytes(mv), s)),
    decreases t.len() + 1 - s,
{
    let m = macro_bytes(mv);
    let name = m.0;
    if name.len() > 0 {
        crate::scan::lemma_find_from_bounds(t, name, s);
        match find_from(t, name, s) {
            None => {},
            Some(abs) => {
                let after = abs + name.len();
                vstd::utf8::encode_utf8_valid_utf8(mv.0);
                assert(t.subrange(abs, after) == name);
                assert(t[abs] == name[0]) by {
                    assert(t.subrange(abs, after)[0] == t[abs]);
                }
                crate::text::lemma_utf8_first_byte(name);
                let suffix = t.subrange(s, t.len() as int);
                vstd::utf8::is_char_boundary_iff_not_is_continuation_byte(suffix, abs - s);
                vstd::utf8::valid_utf8_split(suffix, abs - s);
                let gap = t.subrange(s, abs);
                assert(suffix.subrange(0, abs - s) =~= gap);
                assert(suffix.subrange(abs - s, suffix.len() as int) =~= t.subrange(abs, t.len() as int));
                assert(t.subrange(abs, t.len() as int) =~= name + t.subrange(after, t.len() as int));
                crate::text::lemma_utf8_rest(name, t.subrange(after, t.len() as int));
                vstd::utf8::valid_utf8_concat(gap, name);
                if s < after <= t.len() {
                    if after < t.len() && is_alpha(t[after]) {
                        assert(t.subrange(s, after) =~= gap + name);
                        lemma_expand_one_utf8(t, mv, after);
                        vstd::utf8::valid_utf8_concat(t.subrange(s, after), expand_one_from(t, m, after));
                    } else {
                        lemma_invocation_utf8(t, after, mv);
                        match invocation(t, after, m) {
                            Some((rep, cur)) => {
                                vstd::utf8::valid_utf8_concat(gap, rep);
                                if s < cur <= t.len() {
                                    lemma_expand_one_utf8(t, mv, cur);
                                    vstd::utf8::valid_utf8_concat(gap + rep, expand_one_from(t, m, cur));
                                }
                            },
                            None => {
                                lemma_expand_one_utf8(t, mv, after);
                                vstd::utf8::valid_utf8_concat(gap + name, expand_one_from(t, m, after));
                            },
                        }
                    }
                }
            },
        }
    }
}

/// The text after applying the first `i` macros in order, or `None` if an
/// intermediate result exceeds `cap`.
pub open spec fn apply_macros(cur: Seq<u8>, macs: Seq<MacroView>, i: int, cap: nat) -> Option<Seq<u8>>
    decreases i,
{
    if i <= 0 {
        Some(cur)
    } else {
        match apply_macros(cur, macs, i - 1, cap) {
            None => None,
            Some(r) => {
                let r2 = expand_one_from(r, macro_bytes(macs[i - 1]), 0);
                if r2.len() > cap {
                    None
                } else {
                    Some(r2)
                }
            },
        }
    }
}

/// Passes of parametric expansion: each pass expands every macro in order;
/// a pass that changes nothing ends expansion, and a pass that would exceed
/// `cap` is discarded.
pub open spec fn parametric_passes(cur: Seq<u8>, macs: Seq<MacroView>, left: nat, cap: nat) -> Seq<u8>
    decreases left,
{
    if left == 0 {
        cur
    } else {
        match apply_macros(cur, macs, macs.len() as int, cap) {
            None => cur,
            Some(r) => if r == cur {
                cur
            } else {
                parametric_passes(r, macs, (left - 1) as nat, cap)
            },
        }
    }
}

/// Applying macros to valid UTF-8 text gives valid UTF-8 text.
proof fn lemma_apply_macros_utf8(cur: Seq<u8>, macs: Seq<MacroView>, i: int, cap: nat)
    requires
        vstd::utf8::valid_utf8(cur),
        i <= macs.len(),
    ensures
        apply_macros(cur, macs, i, cap) matches Some(r) ==> vstd::utf8::valid_utf8(r),
    decreases i,
{
    if i > 0 {
        lemma_apply_macros_utf8(cur, macs, i - 1, cap);
        match apply_macros(cur, macs, i - 1, cap) {
            Some(r) => {
                assert(r.subrange(0, r.len() as int) =~= r);
                lemma_expand_one_utf8(r, macs[i - 1], 0);
            },
            None => {},
        }
    }
}

/// Passes of parametric expansion keep text valid UTF-8.
proof fn lemma_parametric_passes_utf8(cur: Seq<u8>, macs: Seq<MacroView>, left: nat, cap: nat)
    requires
        vstd::utf8::valid_utf8(cur),
    ensures
        vstd::utf8::valid_utf8(parametric_passes(cur, macs, left, cap)),
    decreases left,
{
    if left > 0 {
        lemma_apply_macros_utf8(cur, macs, macs.len() as int, cap);
        match apply_macros(cur, macs, macs.len() as int, cap) {
            Some(r) => {
                if r != cur {
                    lemma_parametric_passes_utf8(r, macs, (left - 1) as nat, cap);
                }
            },
            None => {},
        }
    }
}

/// Parametric expansion of valid UTF-8 text is valid UTF-8 text.
proof fn lemma_parametric_expansion_utf8(t: Seq<u8>, macs: Seq<MacroView>)
    requires
        vstd::utf8::valid_utf8(t),
    ensures
        vstd::utf8::valid_utf8(parametric_expansion(t, macs)),
{
    let passes: nat = if t.len() > 5_000_000 { 2 } else { 3 };
    lemma_parametric_passes_utf8(t, macs, passes, size_cap(t.len()));
}

/// Parametric expansion of a text: up to 3 passes (2 above 5 MB) bounded
/// by `size_cap`; nothing to do without macros.
pub open spec fn parametric_expansion(t: Seq<u8>, macs: Seq<MacroView>) -> Seq<u8> {
    if macs.len() == 0 {
        t
    } else {
        let passes: nat = if t.len() > 5_000_000 { 2 } else { 3 };
        parametric_passes(t, macs, passes, size_cap(t.len()))
    }
}

proof fn lemma_passes_bounded(pats: Seq<Seq<u8>>, reps: Seq<Seq<u8>>, cur: Seq<u8>, left: nat, cap: nat)
    ensures
        expansion_passes(pats, reps, cur, left, cap).len() <= cur.len() || expansion_passes(
            pats,
            reps,
            cur,
            left,
            cap,
        ).len() <= cap,
    decreases left,
{
    if left > 0 && cur.len() <= cap {
        let next = crate::replacer::replace_commands(pats, reps, cur);
        if next.len() <= cap && next != cur {
            lemma_passes_bounded(pats, reps, next, (left - 1) as nat, cap);
        }
    }
}

proof fn lemma_parametric_passes_bounded(cur: Seq<u8>, macs: Seq<MacroView>, left: nat, cap: nat)
    requires
        macs.len() > 0,
    ensures
        parametric_passes(cur, macs, left, cap).len() <= cur.len() || parametric_passes(cur, macs, left, cap).len()
            <= cap,
    decreases left,
{
    if left > 0 {
        match apply_macros(cur, macs, macs.len() as int, cap) {
            None => {},
            Some(r) => {
                assert(r.len() <= cap);
                if r != cur {
                    lemma_parametric_passes_bounded(r, macs, (left - 1) as nat, cap);
                }
            },
        }
    }
}

/// Macro expansion never makes a text longer than its growth cap (ten
/// times its length, at most 50 MB), unless the text was longer already
/// and is left as it is.
pub proof fn law_expansion_bounded(t: Seq<u8>, e: Seq<(Seq<char>, Seq<char>)>, macs: Seq<MacroView>)
    ensures
        macro_expansion(t, e).len() <= t.len() || macro_expansion(t, e).len() <= size_cap(t.len()),
        parametric_expansion(t, macs).len() <= t.len() || parametric_expansion(t, macs).len() <= size_cap(t.len()),
{
    if e.len() > 0 {
        let passes: nat = if t.len() > 5_000_000 { 3 } else { 5 };
        lemma_passes_bounded(table_keys(e), table_values(e), t, passes, size_cap(t.len()));
    }
    if macs.len() > 0 {
        let passes: nat = if t.len() > 5_000_000 { 2 } else { 3 };
        lemma_parametric_passes_bounded(t, macs, passes, size_cap(t.len()));
    }
}

/// Parametric expansion on bytes.
pub fn expand_parametric_macros_bytes(text: &[u8], macros: &[ParametricMacro]) -> (res: Vec<u8>)
    ensures
        res@ == parametric_expansion(text@, macro_views(macros@)),
{
    let ghost macs = macro_views(macros@);
    let mut result: Vec<u8> = Vec::new();
    push_all(&mut result, text);
    assert(result@ =~= text@);
    if macros.len() == 0 {
        return result;
    }
    let max_passes: usize = if text.len() > LARGE_INPUT_THRESHOLD { 2 } else { 3 };
    let cap = size_cap_exec(text.len());
    let mut pass: usize = 0;
    while pass < max_passes
        invariant
            pass <= max_passes,
            macs == macro_views(macros@),
            macs.len() > 0,
            cap as nat == size_cap(text@.len()),
            max_passes == (if text.len() > 5_000_000 { 2usize } else { 3usize }),
            parametric_passes(result@, macs, (max_passes - pass) as nat, cap as nat)
                == parametric_expansion(text@, macs),
        decreases max_passes - pass,
    {
        let mut cur: Vec<u8> = Vec::new();
        push_all(&mut cur, result.as_slice());
        assert(cur@ =~= result@);
        let mut i: usize = 0;
        while i < macros.len()
            invariant
                i <= macros.len(),
                macs == macro_views(macros@),
                apply_macros(result@, macs, i as int, cap as nat) == Some(cur@),
                pass < max_passes,
                parametric_passes(result@, macs, (max_passes - pass) as nat, cap as nat)
                    == parametric_expansion(text@, macs),
            decreases macros.len() - i,
        {
            let next = expand_single_parametric(cur.as_slice(), &macros[i]);
            assert(macs[i as int] == macros@[i as int].view_tuple());
            if next.len() > cap {
                assert(apply_macros(result@, macs, (i + 1) as int, cap as nat) is None);
                proof {
                    lemma_apply_none_stays(result@, macs, (i + 1) as int, macs.len() as int, cap as nat);
                }
                return result;
            }
            cur = next;
            i = i + 1;
        }
        if crate::scan::bytes_eq(cur.as_slice(), result.as_slice()) {
            return result;
        }
        result = cur;
        pass = pass + 1;
    }
    result
}

proof fn lemma_apply_none_stays(cur: Seq<u8>, macs: Seq<MacroView>, i: int, j: int, cap: nat)
    requires
        0 <= i <= j,
        apply_macros(cur, macs, i, cap) is None,
    ensures
        apply_macros(cur, macs, j, cap) is None,
    decreases j - i,
{
    if j > i {
        lemma_apply_none_stays(cur, macs, i, j - 1, cap);
    }
}

/// Expand parametric macros by substituting `#1`, `#2`, … with the
/// arguments of each invocation; up to 3 passes (2 for large inputs) so
/// that nested invocations resolve.
pub fn expand_parametric_macros(text: &str, macros: &[ParametricMacro]) -> (res: String)
    ensures
        res@ == utf8_lossy(parametric_expansion(text.spec_bytes(), macro_views(macros@))),
        vstd::utf8::valid_utf8(parametric_expansion(text.spec_bytes(), macro_views(macros@))),
        res@ == vstd::utf8::decode_utf8(parametric_expansion(text.spec_bytes(), macro_views(macros@))),
        macros@.len() == 0 ==> res@ == text@,
{
    let out = expand_parametric_macros_bytes(text.as_bytes(), macros);
    proof {
        vstd::utf8::encode_utf8_valid_utf8(text@);
        vstd::utf8::encode_utf8_decode_utf8(text@);
        lemma_parametric_expansion_utf8(text.spec_bytes(), macro_views(macros@));
    }
    string_from_bytes(out.as_slice())
}

proof fn lemma_parametric_step(t: Seq<u8>, macs: Seq<MacroView>, k: nat, cap: nat, r: Seq<u8>)
    requires
        apply_macros(parametric_passes(t, macs, k, cap), macs, macs.len() as int, cap) == Some(r),
        r != parametric_passes(t, macs, k, cap),
    ensures
        parametric_passes(t, macs, k + 1, cap) == r,
    decreases k,
{
    if k == 0 {
        assert(parametric_passes(t, macs, 0, cap) == t);
        assert(parametric_passes(r, macs, 0, cap) == r);
    } else {
        match apply_macros(t, macs, macs.len() as int, cap) {
            None => {
                assert(parametric_passes(t, macs, k, cap) == t);
            },
            Some(r0) => {
                if r0 != t {
                    assert(parametric_passes(t, macs, k, cap) == parametric_passes(r0, macs, (k - 1) as nat, cap));
                    lemma_parametric_step(r0, macs, (k - 1) as nat, cap, r);
                    assert(parametric_passes(t, macs, k + 1, cap) == parametric_passes(r0, macs, k, cap));
                } else {
                    assert(parametric_passes(t, macs, k, cap) == t);
                }
            },
        }
    }
}

/// Parametric expansion stopped after at most `j` passes.
pub open spec fn parametric_expansion_upto(t: Seq<u8>, macs: Seq<MacroView>, j: nat) -> Seq<u8> {
    if macs.len() == 0 {
        t
    } else {
        parametric_passes(t, macs, j, size_cap(t.len()))
    }
}

/// The number of parametric passes for an input length.
pub open spec fn parametric_pass_limit(len: nat) -> nat {
    if len > 5_000_000 {
        2
    } else {
        3
    }
}

/// Parametric expansion that checks `cancel` before each pass and, when it
/// is set, stops with the passes done so far.
pub fn expand_parametric_macros_cancellable_bytes(
    text: &[u8],
    macros: &[ParametricMacro],
    cancel: Option<&std::sync::atomic::AtomicBool>,
) -> (res: (Vec<u8>, bool))
    ensures
        cancel is None ==> !res.1,
        !res.1 ==> res.0@ == parametric_expansion(text@, macro_views(macros@)),
        exists|j: nat|
            j <= parametric_pass_limit(text@.len()) && res.0@ == parametric_expansion_upto(text@, macro_views(macros@), j),
{
    let ghost macs = macro_views(macros@);
    let mut result: Vec<u8> = Vec::new();
    push_all(&mut result, text);
    assert(result@ =~= text@);
    if macros.len() == 0 {
        assert(result@ == parametric_expansion_upto(text@, macs, 0));
        return (result, false);
    }
    let max_passes: usize = if text.len() > LARGE_INPUT_THRESHOLD { 2 } else { 3 };
    let cap = size_cap_exec(text.len());
    let mut pass: usize = 0;
    while pass < max_passes
        invariant
            pass <= max_passes,
            macs == macro_views(macros@),
            macs.len() > 0,
            cap as nat == size_cap(text@.len()),
            max_passes as nat == parametric_pass_limit(text@.len()),
            max_passes == (if text.len() > 5_000_000 { 2usize } else { 3usize }),
            parametric_passes(result@, macs, (max_passes - pass) as nat, cap as nat)
                == parametric_expansion(text@, macs),
            result@ == parametric_passes(text@, macs, pass as nat, cap as nat),
        decreases max_passes - pass,
    {
        assert(result@ == parametric_expansion_upto(text@, macs, pass as nat));
        if crate::cancel::cancel_requested(cancel) {
            return (result, true);
        }
        let mut cur: Vec<u8> = Vec::new();
        push_all(&mut cur, result.as_slice());
        assert(cur@ =~= result@);
        let mut i: usize = 0;
        while i < macros.len()
            invariant
                i <= macros.len(),
                macs == macro_views(macros@),
                apply_macros(result@, macs, i as int, cap as nat) == Some(cur@),
                pass < max_passes,
                parametric_passes(result@, macs, (max_passes - pass) as nat, cap as nat)
                    == parametric_expansion(text@, macs),
                result@ == parametric_passes(text@, macs, pass as nat, cap as nat),
                result@ == parametric_expansion_upto(text@, macs, pass as nat),
                max_passes as nat == parametric_pass_limit(text@.len()),
            decreases macros.len() - i,
        {
            let next = expand_single_parametric(cur.as_slice(), &macros[i]);
            assert(macs[i as int] == macros@[i as int].view_tuple());
            if next.len() > cap {
                assert(apply_macros(result@, macs, (i + 1) as int, cap as nat) is None);
                proof {
                    lemma_apply_none_stays(result@, macs, (i + 1) as int, macs.len() as int, cap as nat);
                }
                assert(result@ == parametric_expansion_upto(text@, macro_views(macros@), pass as nat));
                return (result, false);
            }
            cur = next;
            i = i + 1;
        }
        if crate::scan::bytes_eq(cur.as_slice(), result.as_slice()) {
            return (result, false);
        }
        proof {
            lemma_parametric_step(text@, macs, pass as nat, cap as nat, cur@);
        }
        result = cur;
        pass = pass + 1;
    }
    assert(result@ == parametric_expansion_upto(text@, macs, pass as nat));
    (result, false)
}

/// `expand_parametric_macros` with cooperative cancellation between passes.
pub fn expand_parametric_macros_cancellable(
    text: &str,
    macros: &[ParametricMacro],
    cancel: Option<&std::sync::atomic::AtomicBool>,
) -> (res: String)
    ensures
        cancel is None ==> res@ == utf8_lossy(parametric_expansion(text.spec_bytes(), macro_views(macros@))),
        exists|j: nat|
            j <= parametric_pass_limit(text.spec_bytes().len()) && res@ == utf8_lossy(
                parametric_expansion_upto(text.spec_bytes(), macro_views(macros@), j),
            ),
{
    let (out, _) = expand_parametric_macros_cancellable_bytes(text.as_bytes(), macros, cancel);
    string_from_bytes(out.as_slice())
}

/// `expand_parametric_macros_cancellable` that also tells whether it
/// stopped for the cancel flag; when it did not, the expansion is complete.
pub fn expand_parametric_macros_checked(
    text: &str,
    macros: &[ParametricMacro],
    cancel: Option<&std::sync::atomic::AtomicBool>,
) -> (res: (String, bool))
    ensures
        cancel is None ==> !res.1,
        !res.1 ==> res.0@ == utf8_lossy(parametric_expansion(text.spec_bytes(), macro_views(macros@))),
{
    let (out, stopped) = expand_parametric_macros_cancellable_bytes(text.as_bytes(), macros, cancel);
    (string_from_bytes(out.as_slice()), stopped)
}

} // verus!
