//! Inline formatting: emphasis, font and colour commands, inline code,
//! accents, fractions and roots outside math, scripts and bra-ket notation.

use vstd::prelude::*;
use vstd::string::StringSliceAdditionalSpecFns;
use crate::braces::{
    closing_brace_from, command_arg, command_arg_bytes, is_alpha, is_alpha_byte,
    lemma_closing_brace_bounds, lemma_skip_blanks_bounds, optional_arg, optional_arg_bytes,
    after_optional_arg, after_optional_arg_bytes, skip_blanks, skip_blanks_bytes,
};
use crate::cleanup::{
    backslash_name, in_regions, math_regions, math_regions_bytes, regions_view, separated,
    without_commands_args, without_switches, EMPTY,
};
use crate::outside::{captures_view, group_end, group_start, well_formed_captures};
use crate::regexes::{re_captures, re_captures_bytes, re_replace, re_replace_bytes};
use crate::scan::{find_bytes, find_from, lemma_find_from_bounds, push_all, push_range, slice_to_vec};
use crate::text::{string_from_bytes, utf8_lossy};
use crate::unicode::{nfc_bytes, nfc_of};

verus! {

/// A rewrite run at a command: `(hit, text, pos)`. On a hit the command,
/// from its backslash at `p` up to `pos`, is replaced by `text`; otherwise
/// the search goes on from `pos`. The command's name ends at `a`.
pub type Rewrite = spec_fn(Seq<u8>, int, int) -> (bool, Seq<u8>, int);

/// The text from `le` on with each occurrence of `pat` found scanning from
/// `s` rewritten by `rw`.
pub open spec fn rewritten_from(t: Seq<u8>, pat: Seq<u8>, rw: Rewrite, s: int, le: int) -> Seq<u8>
    decreases t.len() + 1 - s,
{
    if s < 0 || s > t.len() || pat.len() == 0 {
        t.subrange(le, t.len() as int)
    } else {
        proof {
            lemma_find_from_bounds(t, pat, s);
        }
        match find_from(t, pat, s) {
            None => t.subrange(le, t.len() as int),
            Some(p) => {
                let after = p + pat.len();
                let (hit, rep, e) = rw(t, p, after);
                if !(after <= e <= t.len()) {
                    t.subrange(le, t.len() as int)
                } else if hit {
                    t.subrange(le, p) + rep + rewritten_from(t, pat, rw, e, e)
                } else {
                    rewritten_from(t, pat, rw, e, le)
                }
            },
        }
    }
}

/// `t` with `\name` rewritten by `rw`.
pub open spec fn rewritten(t: Seq<u8>, name: Seq<u8>, rw: Rewrite) -> Seq<u8> {
    rewritten_from(t, backslash_name(name), rw, 0, 0)
}

/// Length of the UTF-8 character whose first byte is at `i` (cut at the
/// end of the text).
pub open spec fn char_len_at(t: Seq<u8>, i: int) -> int {
    let c = t[i];
    let n: int = if c < 0x80 {
        1
    } else if c < 0xe0 {
        2
    } else if c < 0xf0 {
        3
    } else {
        4
    };
    if i + n <= t.len() {
        n
    } else {
        t.len() - i
    }
}

/// The braced argument after blanks at `pos`; an unclosed one runs to the
/// end of the text.
pub open spec fn tolerant_arg(t: Seq<u8>, pos: int) -> Option<(int, int, int)> {
    let i = skip_blanks(t, pos);
    if 0 <= i < t.len() && t[i] == 0x7b {
        match closing_brace_from(t, i + 1, 1) {
            Some(c) => Some((i + 1, c, c + 1)),
            None => Some((i + 1, t.len() as int, t.len() as int)),
        }
    } else {
        None
    }
}

/// `pos` past an optional `*` at it.
pub open spec fn star_end(t: Seq<u8>, pos: int) -> int {
    if 0 <= pos < t.len() && t[pos] == 0x2a {
        pos + 1
    } else {
        pos
    }
}

/// `\verb|x|` or `\verb*|x|` with any delimiter character gives `x`.
pub open spec fn verb_rw() -> Rewrite {
    |t: Seq<u8>, p: int, a: int|
        {
            let a0 = star_end(t, a);
            if a0 >= t.len() || is_alpha(t[a0]) {
                (false, Seq::empty(), a0)
            } else {
                let cs = a0 + char_len_at(t, a0);
                match find_from(t, t.subrange(a0, cs), cs) {
                    Some(q) => (true, t.subrange(cs, q), q + (cs - a0)),
                    None => (false, Seq::empty(), cs),
                }
            }
        }
}

/// `\lstinline{x}`, `\lstinline|x|` or `\lstinline[opts]|x|` gives `x`.
pub open spec fn lstinline_rw() -> Rewrite {
    |t: Seq<u8>, p: int, a: int|
        if a >= t.len() || is_alpha(t[a]) {
            (false, Seq::empty(), a)
        } else {
            let braced = if t[a] == 0x7b {
                command_arg(t, a)
            } else {
                None
            };
            match braced {
                Some((cs, ce, ac)) => (true, t.subrange(cs, ce), ac),
                None => {
                    let ao = after_optional_arg(t, a);
                    if ao < t.len() && t[ao] != 0x7b {
                        let cs = ao + char_len_at(t, ao);
                        match find_from(t, t.subrange(ao, cs), cs) {
                            Some(q) => (true, t.subrange(cs, q), q + (cs - ao)),
                            None => (false, Seq::empty(), a),
                        }
                    } else if ao < t.len() {
                        match command_arg(t, ao) {
                            Some((cs, ce, ac)) => (true, t.subrange(cs, ce), ac),
                            None => (false, Seq::empty(), a),
                        }
                    } else {
                        (false, Seq::empty(), a)
                    }
                },
            }
        }
}

/// The second of two braced arguments starting at `pos`, and where they end.
pub open spec fn second_arg(t: Seq<u8>, pos: int) -> Option<(Seq<u8>, int)> {
    match command_arg(t, pos) {
        Some((cs1, ce1, a1)) => match command_arg(t, a1) {
            Some((cs, ce, ac)) => Some((t.subrange(cs, ce), ac)),
            None => None,
        },
        None => None,
    }
}

/// The third of three braced arguments starting at `pos`, and where they end.
pub open spec fn third_arg(t: Seq<u8>, pos: int) -> Option<(Seq<u8>, int)> {
    match command_arg(t, pos) {
        Some((cs1, ce1, a1)) => second_arg(t, a1),
        None => None,
    }
}

/// `\mintinline{lang}{x}` gives `x`.
pub open spec fn mintinline_rw() -> Rewrite {
    |t: Seq<u8>, p: int, a: int|
        if a < t.len() && is_alpha(t[a]) {
            (false, Seq::empty(), a)
        } else {
            match second_arg(t, a) {
                Some((x, e)) => (true, x, e),
                None => (false, Seq::empty(), a),
            }
        }
}

/// The bytes are one UTF-8 character.
pub open spec fn single_char(c: Seq<u8>) -> bool {
    c.len() > 0 && char_len_at(c, 0) == c.len()
}

/// `\hat{x}` and the like give `x` with the combining mark composed (NFC)
/// when `x` is one character, else `x`.
pub open spec fn accent_rw(mark: Seq<u8>) -> Rewrite {
    |t: Seq<u8>, p: int, a: int|
        if a < t.len() && is_alpha(t[a]) {
            (false, Seq::empty(), a)
        } else {
            match command_arg(t, a) {
                Some((cs, ce, ac)) => {
                    let c = t.subrange(cs, ce);
                    (true, if single_char(c) {
                        nfc_of(c + mark)
                    } else {
                        c
                    }, ac)
                },
                None => (false, Seq::empty(), a),
            }
        }
}

/// `\name[opt]{x}` gives `prefix x suffix` (an unclosed argument running to
/// the end); `\name*` is left alone unless `starred`.
pub open spec fn single_arg_rw(prefix: Seq<u8>, suffix: Seq<u8>, starred: bool) -> Rewrite {
    |t: Seq<u8>, p: int, a: int|
        if !starred && a < t.len() && t[a] == 0x2a {
            (false, Seq::empty(), a + 1)
        } else if a < t.len() && is_alpha(t[a]) {
            (false, Seq::empty(), a)
        } else {
            match tolerant_arg(t, after_optional_arg(t, a)) {
                Some((cs, ce, ac)) => (true, prefix + t.subrange(cs, ce) + suffix, ac),
                None => (false, Seq::empty(), a),
            }
        }
}

/// `\name{a}{b}` (or `\name*`) gives `b`.
pub open spec fn two_arg_rw() -> Rewrite {
    |t: Seq<u8>, p: int, a: int|
        {
            let se = star_end(t, a);
            if se < t.len() && is_alpha(t[se]) {
                (false, Seq::empty(), se)
            } else {
                match second_arg(t, se) {
                    Some((x, e)) => (true, x, e),
                    None => (false, Seq::empty(), se),
                }
            }
        }
}

/// `\name{a}{b}{c}` (or `\name*`) gives `c`.
pub open spec fn three_arg_rw() -> Rewrite {
    |t: Seq<u8>, p: int, a: int|
        {
            let se = star_end(t, a);
            if se < t.len() && is_alpha(t[se]) {
                (false, Seq::empty(), se)
            } else {
                match third_arg(t, se) {
                    Some((x, e)) => (true, x, e),
                    None => (false, Seq::empty(), se),
                }
            }
        }
}

pub const SQRT_SIGN: &'static str = "\u{221A}";

/// `\sqrt[n]{x}` outside the regions `r` gives `√[n](x)`, `\sqrt{x}` gives
/// `√(x)`.
pub open spec fn sqrt_rw(r: Seq<(int, int)>) -> Rewrite {
    |t: Seq<u8>, p: int, a: int|
        if (a < t.len() && is_alpha(t[a])) || in_regions(r, p) {
            (false, Seq::empty(), a)
        } else {
            let opt = if a < t.len() && t[a] == 0x5b {
                optional_arg(t, a)
            } else {
                None
            };
            let (index, cursor) = match opt {
                Some((os, oe, ao)) => (seq![0x5bu8] + t.subrange(os, oe) + seq![0x5du8], ao),
                None => (Seq::<u8>::empty(), a),
            };
            match command_arg(t, cursor) {
                Some((cs, ce, ac)) => (
                    true,
                    SQRT_SIGN.spec_bytes() + index + seq![0x28u8] + t.subrange(cs, ce) + seq![0x29u8],
                    ac,
                ),
                None => (false, Seq::empty(), a),
            }
        }
}

/// The characters a script argument may hold to be converted.
pub open spec fn script_convertible(c: u8) -> bool {
    (0x30 <= c <= 0x39) || c == 0x2c || c == 0x20 || c == 0x2d || c == 0x2b || c == 0x3d || c
        == 0x28 || c == 0x29 || c == 0x2a || c == 0x6e || c == 0x69
}

/// The Unicode superscript (`sup`) or subscript form of a character, or
/// the character itself when it has none.
pub open spec fn script_char(ch: char, sup: bool) -> char {
    if sup {
        if ch == '0' {
            '\u{2070}'
        } else if ch == '1' {
            '\u{00B9}'
        } else if ch == '2' {
            '\u{00B2}'
        } else if ch == '3' {
            '\u{00B3}'
        } else if ch == '4' {
            '\u{2074}'
        } else if ch == '5' {
            '\u{2075}'
        } else if ch == '6' {
            '\u{2076}'
        } else if ch == '7' {
            '\u{2077}'
        } else if ch == '8' {
            '\u{2078}'
        } else if ch == '9' {
            '\u{2079}'
        } else if ch == '+' {
            '\u{207A}'
        } else if ch == '-' {
            '\u{207B}'
        } else if ch == '=' {
            '\u{207C}'
        } else if ch == '(' {
            '\u{207D}'
        } else if ch == ')' {
            '\u{207E}'
        } else if ch == 'n' {
            '\u{207F}'
        } else if ch == 'i' {
            '\u{2071}'
        } else if ch == '*' {
            '\u{2217}'
        } else {
            ch
        }
    } else {
        if ch == '0' {
            '\u{2080}'
        } else if ch == '1' {
            '\u{2081}'
        } else if ch == '2' {
            '\u{2082}'
        } else if ch == '3' {
            '\u{2083}'
        } else if ch == '4' {
            '\u{2084}'
        } else if ch == '5' {
            '\u{2085}'
        } else if ch == '6' {
            '\u{2086}'
        } else if ch == '7' {
            '\u{2087}'
        } else if ch == '8' {
            '\u{2088}'
        } else if ch == '9' {
            '\u{2089}'
        } else if ch == '+' {
            '\u{208A}'
        } else if ch == '-' {
            '\u{208B}'
        } else if ch == '=' {
            '\u{208C}'
        } else if ch == '(' {
            '\u{208D}'
        } else if ch == ')' {
            '\u{208E}'
        } else {
            ch
        }
    }
}

/// Map a character to its Unicode superscript or subscript equivalent,
/// or return it unchanged when there is none.
pub fn to_unicode_script(ch: char, is_super: bool) -> (res: char)
    ensures
        res == script_char(ch, is_super),
{
    if is_super {
        match ch {
            '0' => '\u{2070}',
            '1' => '\u{00B9}',
            '2' => '\u{00B2}',
            '3' => '\u{00B3}',
            '4' => '\u{2074}',
            '5' => '\u{2075}',
            '6' => '\u{2076}',
            '7' => '\u{2077}',
            '8' => '\u{2078}',
            '9' => '\u{2079}',
            '+' => '\u{207A}',
            '-' => '\u{207B}',
            '=' => '\u{207C}',
            '(' => '\u{207D}',
            ')' => '\u{207E}',
            'n' => '\u{207F}',
            'i' => '\u{2071}',
            '*' => '\u{2217}',
            _ => ch,
        }
    } else {
        match ch {
            '0' => '\u{2080}',
            '1' => '\u{2081}',
            '2' => '\u{2082}',
            '3' => '\u{2083}',
            '4' => '\u{2084}',
            '5' => '\u{2085}',
            '6' => '\u{2086}',
            '7' => '\u{2087}',
            '8' => '\u{2088}',
            '9' => '\u{2089}',
            '+' => '\u{208A}',
            '-' => '\u{208B}',
            '=' => '\u{208C}',
            '(' => '\u{208D}',
            ')' => '\u{208E}',
            _ => ch,
        }
    }
}

/// The UTF-8 bytes of the script form of an ASCII character that
/// `script_convertible` admits.
pub open spec fn script_utf8(c: u8, sup: bool) -> Seq<u8> {
    if sup {
        if c == 0x30 {
            seq![0xe2u8, 0x81u8, 0xb0u8]
        } else if c == 0x31 {
            seq![0xc2u8, 0xb9u8]
        } else if c == 0x32 {
            seq![0xc2u8, 0xb2u8]
        } else if c == 0x33 {
            seq![0xc2u8, 0xb3u8]
        } else if 0x34 <= c <= 0x39 {
            seq![0xe2u8, 0x81u8, (0xb0 + (c - 0x30)) as u8]
        } else if c == 0x2b {
            seq![0xe2u8, 0x81u8, 0xbau8]
        } else if c == 0x2d {
            seq![0xe2u8, 0x81u8, 0xbbu8]
        } else if c == 0x3d {
            seq![0xe2u8, 0x81u8, 0xbcu8]
        } else if c == 0x28 {
            seq![0xe2u8, 0x81u8, 0xbdu8]
        } else if c == 0x29 {
            seq![0xe2u8, 0x81u8, 0xbeu8]
        } else if c == 0x6e {
            seq![0xe2u8, 0x81u8, 0xbfu8]
        } else if c == 0x69 {
            seq![0xe2u8, 0x81u8, 0xb1u8]
        } else if c == 0x2a {
            seq![0xe2u8, 0x88u8, 0x97u8]
        } else {
            seq![c]
        }
    } else {
        if 0x30 <= c <= 0x39 {
            seq![0xe2u8, 0x82u8, (0x80 + (c - 0x30)) as u8]
        } else if c == 0x2b {
            seq![0xe2u8, 0x82u8, 0x8au8]
        } else if c == 0x2d {
            seq![0xe2u8, 0x82u8, 0x8bu8]
        } else if c == 0x3d {
            seq![0xe2u8, 0x82u8, 0x8cu8]
        } else if c == 0x28 {
            seq![0xe2u8, 0x82u8, 0x8du8]
        } else if c == 0x29 {
            seq![0xe2u8, 0x82u8, 0x8eu8]
        } else {
            seq![c]
        }
    }
}

/// Every byte of `s` in script form.
pub open spec fn scripted(s: Seq<u8>, sup: bool) -> Seq<u8>
    decreases s.len(),
{
    if s.len() == 0 {
        Seq::empty()
    } else {
        scripted(s.drop_last(), sup) + script_utf8(s.last(), sup)
    }
}

/// `\textsuperscript{x}` (`\textsubscript{x}`) gives `x` in script form
/// when all of it converts, else `x`.
pub open spec fn script_rw(sup: bool) -> Rewrite {
    |t: Seq<u8>, p: int, a: int|
        if a < t.len() && is_alpha(t[a]) {
            (false, Seq::empty(), a)
        } else {
            match command_arg(t, a) {
                Some((cs, ce, ac)) => {
                    let c = t.subrange(cs, ce);
                    (true, if forall|k: int| 0 <= k < c.len() ==> script_convertible(#[trigger] c[k]) {
                        scripted(c, sup)
                    } else {
                        c
                    }, ac)
                },
                None => (false, Seq::empty(), a),
            }
        }
}

pub const LANGLE: &'static str = "\u{27E8}";

pub const RANGLE: &'static str = "\u{27E9}";

pub const BAR: &'static str = "|";

/// `\braket{x}{y}` gives `⟨x|y⟩`, `\braket{x}` gives `⟨x⟩`.
pub open spec fn braket_rw() -> Rewrite {
    |t: Seq<u8>, p: int, a: int|
        if a < t.len() && is_alpha(t[a]) {
            (false, Seq::empty(), a)
        } else {
            match command_arg(t, a) {
                Some((cs1, ce1, a1)) => match command_arg(t, a1) {
                    Some((cs2, ce2, a2)) => (
                        true,
                        LANGLE.spec_bytes() + t.subrange(cs1, ce1) + BAR.spec_bytes() + t.subrange(cs2, ce2)
                            + RANGLE.spec_bytes(),
                        a2,
                    ),
                    None => (true, LANGLE.spec_bytes() + t.subrange(cs1, ce1) + RANGLE.spec_bytes(), a1),
                },
                None => (false, Seq::empty(), a),
            }
        }
}

/// `\ketbra{x}{y}` gives `|x⟩⟨y|`.
pub open spec fn ketbra_rw() -> Rewrite {
    |t: Seq<u8>, p: int, a: int|
        if a < t.len() && is_alpha(t[a]) {
            (false, Seq::empty(), a)
        } else {
            match command_arg(t, a) {
                Some((cs1, ce1, a1)) => match command_arg(t, a1) {
                    Some((cs2, ce2, a2)) => (
                        true,
                        BAR.spec_bytes() + t.subrange(cs1, ce1) + RANGLE.spec_bytes() + LANGLE.spec_bytes()
                            + t.subrange(cs2, ce2) + BAR.spec_bytes(),
                        a2,
                    ),
                    None => (false, Seq::empty(), a),
                },
                None => (false, Seq::empty(), a),
            }
        }
}

/// `\name` right before an uppercase letter gives a space.
pub open spec fn before_upper_rw() -> Rewrite {
    |t: Seq<u8>, p: int, a: int|
        if a < t.len() && 0x41 <= t[a] <= 0x5a {
            (true, seq![0x20u8], a)
        } else {
            (false, Seq::empty(), a)
        }
}

/// The kinds of rewrite.
pub enum Rw {
    Verb,
    Lstinline,
    Mintinline,
    Accent(&'static str),
    SingleArg(&'static str, &'static str, bool),
    TwoArg,
    ThreeArg,
    Sqrt,
    Script(bool),
    Braket,
    Ketbra,
    BeforeUpper,
}

/// The rewrite of a kind (`r`: the math regions the root rewrite avoids).
pub open spec fn rewrite_of(k: Rw, r: Seq<(int, int)>) -> Rewrite {
    match k {
        Rw::Verb => verb_rw(),
        Rw::Lstinline => lstinline_rw(),
        Rw::Mintinline => mintinline_rw(),
        Rw::Accent(m) => accent_rw(m.spec_bytes()),
        Rw::SingleArg(pre, suf, st) => single_arg_rw(pre.spec_bytes(), suf.spec_bytes(), st),
        Rw::TwoArg => two_arg_rw(),
        Rw::ThreeArg => three_arg_rw(),
        Rw::Sqrt => sqrt_rw(r),
        Rw::Script(sup) => script_rw(sup),
        Rw::Braket => braket_rw(),
        Rw::Ketbra => ketbra_rw(),
        Rw::BeforeUpper => before_upper_rw(),
    }
}

pub(crate) fn char_len_at_bytes(t: &[u8], i: usize) -> (res: usize)
    requires
        i < t.len(),
    ensures
        res as int == char_len_at(t@, i as int),
        1 <= res <= t.len() - i,
{
    let c = t[i];
    let n: usize = if c < 0x80 {
        1
    } else if c < 0xe0 {
        2
    } else if c < 0xf0 {
        3
    } else {
        4
    };
    if n <= t.len() - i {
        n
    } else {
        t.len() - i
    }
}

fn tolerant_arg_bytes(t: &[u8], pos: usize) -> (res: Option<(usize, usize, usize)>)
    requires
        pos <= t.len(),
    ensures
        tolerant_arg(t@, pos as int) == match res {
            Some((cs, ce, ac)) => Some((cs as int, ce as int, ac as int)),
            None => None,
        },
        res matches Some((cs, ce, ac)) ==> pos < cs <= ce <= ac <= t.len(),
{
    proof {
        lemma_skip_blanks_bounds(t@, pos as int);
    }
    let i = skip_blanks_bytes(t, pos);
    if i < t.len() && t[i] == 0x7b {
        proof {
            lemma_closing_brace_bounds(t@, i + 1, 1);
        }
        match crate::braces::braced_group_bytes(t, i) {
            Some((cs, ce)) => Some((cs, ce, ce + 1)),
            None => Some((i + 1, t.len(), t.len())),
        }
    } else {
        None
    }
}

fn second_arg_bytes(t: &[u8], pos: usize) -> (res: Option<(Vec<u8>, usize)>)
    requires
        pos <= t.len(),
    ensures
        second_arg(t@, pos as int) == match res {
            Some((x, e)) => Some((x@, e as int)),
            None => None,
        },
        res matches Some((x, e)) ==> pos < e <= t.len(),
{
    match command_arg_bytes(t, pos) {
        Some((_, _, a1)) => match command_arg_bytes(t, a1) {
            Some((cs, ce, ac)) => Some((slice_to_vec(t, cs, ce), ac)),
            None => None,
        },
        None => None,
    }
}

fn third_arg_bytes(t: &[u8], pos: usize) -> (res: Option<(Vec<u8>, usize)>)
    requires
        pos <= t.len(),
    ensures
        third_arg(t@, pos as int) == match res {
            Some((x, e)) => Some((x@, e as int)),
            None => None,
        },
        res matches Some((x, e)) ==> pos < e <= t.len(),
{
    match command_arg_bytes(t, pos) {
        Some((_, _, a1)) => second_arg_bytes(t, a1),
        None => None,
    }
}

fn push_script(out: &mut Vec<u8>, c: u8, sup: bool)
    ensures
        final(out)@ == old(out)@ + script_utf8(c, sup),
{
    let ghost o = out@;
    if sup {
        if c == 0x30 {
            out.push(0xe2);
            out.push(0x81);
            out.push(0xb0);
        } else if c == 0x31 {
            out.push(0xc2);
            out.push(0xb9);
        } else if c == 0x32 {
            out.push(0xc2);
            out.push(0xb2);
        } else if c == 0x33 {
            out.push(0xc2);
            out.push(0xb3);
        } else if 0x34 <= c && c <= 0x39 {
            out.push(0xe2);
            out.push(0x81);
            out.push(0xb0 + (c - 0x30));
        } else if c == 0x2b {
            out.push(0xe2);
            out.push(0x81);
            out.push(0xba);
        } else if c == 0x2d {
            out.push(0xe2);
            out.push(0x81);
            out.push(0xbb);
        } else if c == 0x3d {
            out.push(0xe2);
            out.push(0x81);
            out.push(0xbc);
        } else if c == 0x28 {
            out.push(0xe2);
            out.push(0x81);
            out.push(0xbd);
        } else if c == 0x29 {
            out.push(0xe2);
            out.push(0x81);
            out.push(0xbe);
        } else if c == 0x6e {
            out.push(0xe2);
            out.push(0x81);
            out.push(0xbf);
        } else if c == 0x69 {
            out.push(0xe2);
            out.push(0x81);
            out.push(0xb1);
        } else if c == 0x2a {
            out.push(0xe2);
            out.push(0x88);
            out.push(0x97);
        } else {
            out.push(c);
        }
    } else {
        if 0x30 <= c && c <= 0x39 {
            out.push(0xe2);
            out.push(0x82);
            out.push(0x80 + (c - 0x30));
        } else if c == 0x2b {
            out.push(0xe2);
            out.push(0x82);
            out.push(0x8a);
        } else if c == 0x2d {
            out.push(0xe2);
            out.push(0x82);
            out.push(0x8b);
        } else if c == 0x3d {
            out.push(0xe2);
            out.push(0x82);
            out.push(0x8c);
        } else if c == 0x28 {
            out.push(0xe2);
            out.push(0x82);
            out.push(0x8d);
        } else if c == 0x29 {
            out.push(0xe2);
            out.push(0x82);
            out.push(0x8e);
        } else {
            out.push(c);
        }
    }
    assert(out@ =~= o + script_utf8(c, sup));
}

fn push_scripted(out: &mut Vec<u8>, s: &[u8], sup: bool)
    ensures
        final(out)@ == old(out)@ + scripted(s@, sup),
{
    let ghost base = old(out)@;
    let mut i: usize = 0;
    while i < s.len()
        invariant
            i <= s.len(),
            base == old(out)@,
            out@ == base + scripted(s@.subrange(0, i as int), sup),
        decreases s.len() - i,
    {
        let ghost o = out@;
        push_script(out, s[i], sup);
        assert(s@.subrange(0, i + 1).drop_last() =~= s@.subrange(0, i as int));
        assert(out@ =~= base + scripted(s@.subrange(0, i + 1), sup));
        i = i + 1;
    }
    assert(s@.subrange(0, s@.len() as int) =~= s@);
}

fn all_convertible(c: &[u8]) -> (res: bool)
    ensures
        res == forall|k: int| 0 <= k < c@.len() ==> script_convertible(#[trigger] c@[k]),
{
    let mut i: usize = 0;
    while i < c.len()
        invariant
            i <= c.len(),
            forall|k: int| 0 <= k < i ==> script_convertible(#[trigger] c@[k]),
        decreases c.len() - i,
    {
        let x = c[i];
        if !((0x30 <= x && x <= 0x39) || x == 0x2c || x == 0x20 || x == 0x2d || x == 0x2b || x == 0x3d
            || x == 0x28 || x == 0x29 || x == 0x2a || x == 0x6e || x == 0x69) {
            return false;
        }
        i = i + 1;
    }
    true
}

/// The delimited form `<d>x<d>` starting with its delimiter at `d0`: `x`
/// and the end, or where to search on.
fn delimited_at(t: &[u8], d0: usize) -> (res: (Option<(usize, usize)>, usize))
    requires
        d0 < t.len(),
    ensures
        ({
            let cs = d0 + char_len_at(t@, d0 as int);
            &&& res.1 == cs
            &&& cs <= t.len()
            &&& match find_from(t@, t@.subrange(d0 as int, cs), cs) {
                Some(q) => res.0 == Some((q as usize, (q + (cs - d0)) as usize)) && q + (cs - d0)
                    <= t.len() && cs <= q,
                None => res.0 is None,
            }
        }),
{
    let dl = char_len_at_bytes(t, d0);
    let cs = d0 + dl;
    let delim = &t[d0..cs];
    assert(delim@ =~= t@.subrange(d0 as int, cs as int));
    match find_bytes(t, delim, cs) {
        Some(q) => (Some((q, q + dl)), cs),
        None => (None, cs),
    }
}

fn verb_at(t: &[u8], p: usize, a: usize) -> (res: (bool, Vec<u8>, usize))
    requires
        p < a <= t.len(),
    ensures
        (verb_rw())(t@, p as int, a as int) == (res.0, res.1@, res.2 as int),
        a <= res.2 <= t.len(),
{
    let empty: Vec<u8> = Vec::new();
            let a0 = if a < t.len() && t[a] == 0x2a {
                a + 1
            } else {
                a
            };
            if a0 >= t.len() || is_alpha_byte(t[a0]) {
                return (false, empty, a0);
            }
            let (found, cs) = delimited_at(t, a0);
            match found {
                Some((q, e)) => (true, slice_to_vec(t, cs, q), e),
                None => (false, empty, cs),
            }
        }

fn lstinline_at(t: &[u8], p: usize, a: usize) -> (res: (bool, Vec<u8>, usize))
    requires
        p < a <= t.len(),
    ensures
        (lstinline_rw())(t@, p as int, a as int) == (res.0, res.1@, res.2 as int),
        a <= res.2 <= t.len(),
{
    let empty: Vec<u8> = Vec::new();
            if a >= t.len() || is_alpha_byte(t[a]) {
                return (false, empty, a);
            }
            if t[a] == 0x7b {
                match command_arg_bytes(t, a) {
                    Some((cs, ce, ac)) => {
                        return (true, slice_to_vec(t, cs, ce), ac);
                    },
                    None => {},
                }
            }
            let ao = after_optional_arg_bytes(t, a);
            if ao < t.len() && t[ao] != 0x7b {
                let (found, cs) = delimited_at(t, ao);
                match found {
                    Some((q, e)) => (true, slice_to_vec(t, cs, q), e),
                    None => (false, empty, a),
                }
            } else if ao < t.len() {
                match command_arg_bytes(t, ao) {
                    Some((cs, ce, ac)) => (true, slice_to_vec(t, cs, ce), ac),
                    None => (false, empty, a),
                }
            } else {
                (false, empty, a)
            }
        }

fn mintinline_at(t: &[u8], p: usize, a: usize) -> (res: (bool, Vec<u8>, usize))
    requires
        p < a <= t.len(),
    ensures
        (mintinline_rw())(t@, p as int, a as int) == (res.0, res.1@, res.2 as int),
        a <= res.2 <= t.len(),
{
    let empty: Vec<u8> = Vec::new();
            if a < t.len() && is_alpha_byte(t[a]) {
                return (false, empty, a);
            }
            match second_arg_bytes(t, a) {
                Some((x, e)) => (true, x, e),
                None => (false, empty, a),
            }
        }

fn accent_at(t: &[u8], p: usize, a: usize, mark: &str) -> (res: (bool, Vec<u8>, usize))
    requires
        p < a <= t.len(),
    ensures
        (accent_rw(mark.spec_bytes()))(t@, p as int, a as int) == (res.0, res.1@, res.2 as int),
        a <= res.2 <= t.len(),
{
    let empty: Vec<u8> = Vec::new();
            if a < t.len() && is_alpha_byte(t[a]) {
                return (false, empty, a);
            }
            match command_arg_bytes(t, a) {
                Some((cs, ce, ac)) => {
                    let c = &t[cs..ce];
                    assert(c@ =~= t@.subrange(cs as int, ce as int));
                    if c.len() > 0 && char_len_at_bytes(c, 0) == c.len() {
                        let mut composed: Vec<u8> = Vec::new();
                        push_all(&mut composed, c);
                        push_all(&mut composed, mark.as_bytes());
                        (true, nfc_bytes(composed.as_slice()), ac)
                    } else {
                        (true, slice_to_vec(t, cs, ce), ac)
                    }
                },
                None => (false, empty, a),
            }
        }

fn single_arg_at(t: &[u8], p: usize, a: usize, pre: &str, suf: &str, starred: bool) -> (res: (bool, Vec<u8>, usize))
    requires
        p < a <= t.len(),
    ensures
        (single_arg_rw(pre.spec_bytes(), suf.spec_bytes(), starred))(t@, p as int, a as int) == (res.0, res.1@, res.2 as int),
        a <= res.2 <= t.len(),
{
    let empty: Vec<u8> = Vec::new();
            if !starred && a < t.len() && t[a] == 0x2a {
                return (false, empty, a + 1);
            }
            if a < t.len() && is_alpha_byte(t[a]) {
                return (false, empty, a);
            }
            let ao = after_optional_arg_bytes(t, a);
            match tolerant_arg_bytes(t, ao) {
                Some((cs, ce, ac)) => {
                    let mut v: Vec<u8> = Vec::new();
                    push_all(&mut v, pre.as_bytes());
                    push_range(&mut v, t, cs, ce);
                    push_all(&mut v, suf.as_bytes());
                    (true, v, ac)
                },
                None => (false, empty, a),
            }
        }

fn two_arg_at(t: &[u8], p: usize, a: usize) -> (res: (bool, Vec<u8>, usize))
    requires
        p < a <= t.len(),
    ensures
        (two_arg_rw())(t@, p as int, a as int) == (res.0, res.1@, res.2 as int),
        a <= res.2 <= t.len(),
{
    let empty: Vec<u8> = Vec::new();
            let se = if a < t.len() && t[a] == 0x2a {
                a + 1
            } else {
                a
            };
            if se < t.len() && is_alpha_byte(t[se]) {
                return (false, empty, se);
            }
            match second_arg_bytes(t, se) {
                Some((x, e)) => (true, x, e),
                None => (false, empty, se),
            }
        }

fn three_arg_at(t: &[u8], p: usize, a: usize) -> (res: (bool, Vec<u8>, usize))
    requires
        p < a <= t.len(),
    ensures
        (three_arg_rw())(t@, p as int, a as int) == (res.0, res.1@, res.2 as int),
        a <= res.2 <= t.len(),
{
    let empty: Vec<u8> = Vec::new();
            let se = if a < t.len() && t[a] == 0x2a {
                a + 1
            } else {
                a
            };
            if se < t.len() && is_alpha_byte(t[se]) {
                return (false, empty, se);
            }
            match third_arg_bytes(t, se) {
                Some((x, e)) => (true, x, e),
                None => (false, empty, se),
            }
        }

fn sqrt_at(t: &[u8], p: usize, a: usize, r: &Vec<(usize, usize)>) -> (res: (bool, Vec<u8>, usize))
    requires
        p < a <= t.len(),
        separated(regions_view(r@)),
    ensures
        (sqrt_rw(regions_view(r@)))(t@, p as int, a as int) == (res.0, res.1@, res.2 as int),
        a <= res.2 <= t.len(),
{
    let empty: Vec<u8> = Vec::new();
            if (a < t.len() && is_alpha_byte(t[a])) || crate::cleanup::in_math(p, r) {
                return (false, empty, a);
            }
            let mut index: Vec<u8> = Vec::new();
            let mut cursor = a;
            if a < t.len() && t[a] == 0x5b {
                match optional_arg_bytes(t, a) {
                    Some((os, oe, ao)) => {
                        index.push(0x5b);
                        push_range(&mut index, t, os, oe);
                        index.push(0x5d);
                        cursor = ao;
                    },
                    None => {},
                }
            }
            match command_arg_bytes(t, cursor) {
                Some((cs, ce, ac)) => {
                    let mut v: Vec<u8> = Vec::new();
                    push_all(&mut v, SQRT_SIGN.as_bytes());
                    push_all(&mut v, index.as_slice());
                    v.push(0x28);
                    push_range(&mut v, t, cs, ce);
                    v.push(0x29);
                    (true, v, ac)
                },
                None => (false, empty, a),
            }
        }

fn script_at(t: &[u8], p: usize, a: usize, sup: bool) -> (res: (bool, Vec<u8>, usize))
    requires
        p < a <= t.len(),
    ensures
        (script_rw(sup))(t@, p as int, a as int) == (res.0, res.1@, res.2 as int),
        a <= res.2 <= t.len(),
{
    let empty: Vec<u8> = Vec::new();
            if a < t.len() && is_alpha_byte(t[a]) {
                return (false, empty, a);
            }
            match command_arg_bytes(t, a) {
                Some((cs, ce, ac)) => {
                    let c = &t[cs..ce];
                    assert(c@ =~= t@.subrange(cs as int, ce as int));
                    if all_convertible(c) {
                        let mut v: Vec<u8> = Vec::new();
                        push_scripted(&mut v, c, sup);
                        assert(v@ =~= scripted(c@, sup));
                        (true, v, ac)
                    } else {
                        (true, slice_to_vec(t, cs, ce), ac)
                    }
                },
                None => (false, empty, a),
            }
        }

fn braket_at(t: &[u8], p: usize, a: usize) -> (res: (bool, Vec<u8>, usize))
    requires
        p < a <= t.len(),
    ensures
        (braket_rw())(t@, p as int, a as int) == (res.0, res.1@, res.2 as int),
        a <= res.2 <= t.len(),
{
    let empty: Vec<u8> = Vec::new();
            if a < t.len() && is_alpha_byte(t[a]) {
                return (false, empty, a);
            }
            match command_arg_bytes(t, a) {
                Some((cs1, ce1, a1)) => {
                    let mut v: Vec<u8> = Vec::new();
                    push_all(&mut v, LANGLE.as_bytes());
                    push_range(&mut v, t, cs1, ce1);
                    match command_arg_bytes(t, a1) {
                        Some((cs2, ce2, a2)) => {
                            push_all(&mut v, BAR.as_bytes());
                            push_range(&mut v, t, cs2, ce2);
                            push_all(&mut v, RANGLE.as_bytes());
                            (true, v, a2)
                        },
                        None => {
                            push_all(&mut v, RANGLE.as_bytes());
                            (true, v, a1)
                        },
                    }
                },
                None => (false, empty, a),
            }
        }

fn ketbra_at(t: &[u8], p: usize, a: usize) -> (res: (bool, Vec<u8>, usize))
    requires
        p < a <= t.len(),
    ensures
        (ketbra_rw())(t@, p as int, a as int) == (res.0, res.1@, res.2 as int),
        a <= res.2 <= t.len(),
{
    let empty: Vec<u8> = Vec::new();
            if a < t.len() && is_alpha_byte(t[a]) {
                return (false, empty, a);
            }
            match command_arg_bytes(t, a) {
                Some((cs1, ce1, a1)) => match command_arg_bytes(t, a1) {
                    Some((cs2, ce2, a2)) => {
                        let mut v: Vec<u8> = Vec::new();
                        push_all(&mut v, BAR.as_bytes());
                        push_range(&mut v, t, cs1, ce1);
                        push_all(&mut v, RANGLE.as_bytes());
                        push_all(&mut v, LANGLE.as_bytes());
                        push_range(&mut v, t, cs2, ce2);
                        push_all(&mut v, BAR.as_bytes());
                        (true, v, a2)
                    },
                    None => (false, empty, a),
                },
                None => (false, empty, a),
            }
        }

fn before_upper_at(t: &[u8], p: usize, a: usize) -> (res: (bool, Vec<u8>, usize))
    requires
        p < a <= t.len(),
    ensures
        (before_upper_rw())(t@, p as int, a as int) == (res.0, res.1@, res.2 as int),
        a <= res.2 <= t.len(),
{
    let empty: Vec<u8> = Vec::new();
            if a < t.len() && 0x41 <= t[a] && t[a] <= 0x5a {
                let mut v: Vec<u8> = Vec::new();
                v.push(0x20);
                assert(v@ =~= seq![0x20u8]);
                (true, v, a)
            } else {
                (false, empty, a)
            }
        }

/// Run a rewrite at a command whose backslash is at `p` and name ends at `a`.
fn run_rewrite(k: &Rw, t: &[u8], p: usize, a: usize, r: &Vec<(usize, usize)>) -> (res: (bool, Vec<u8>, usize))
    requires
        p < a <= t.len(),
        separated(regions_view(r@)),
    ensures
        (rewrite_of(*k, regions_view(r@)))(t@, p as int, a as int) == (res.0, res.1@, res.2 as int),
        a <= res.2 <= t.len(),
{
    match k {
        Rw::Verb => verb_at(t, p, a),
        Rw::Lstinline => lstinline_at(t, p, a),
        Rw::Mintinline => mintinline_at(t, p, a),
        Rw::Accent(mark) => accent_at(t, p, a, mark),
        Rw::SingleArg(pre, suf, starred) => single_arg_at(t, p, a, pre, suf, *starred),
        Rw::TwoArg => two_arg_at(t, p, a),
        Rw::ThreeArg => three_arg_at(t, p, a),
        Rw::Sqrt => sqrt_at(t, p, a, r),
        Rw::Script(sup) => script_at(t, p, a, *sup),
        Rw::Braket => braket_at(t, p, a),
        Rw::Ketbra => ketbra_at(t, p, a),
        Rw::BeforeUpper => before_upper_at(t, p, a),
    }
}

fn name_pattern(name: &str) -> (res: Vec<u8>)
    ensures
        res@ == backslash_name(name.spec_bytes()),
        res@.len() > 0,
{
    let mut v: Vec<u8> = Vec::new();
    v.push(0x5c);
    push_all(&mut v, name.as_bytes());
    assert(v@ =~= backslash_name(name.spec_bytes()));
    v
}

/// Rewrite every `\name` of `t` by the rewrite of kind `k`.
fn rewrite_bytes(t: &[u8], name: &str, k: &Rw, r: &Vec<(usize, usize)>) -> (res: Vec<u8>)
    requires
        separated(regions_view(r@)),
    ensures
        res@ == rewritten(t@, name.spec_bytes(), rewrite_of(*k, regions_view(r@))),
{
    let ghost rw = rewrite_of(*k, regions_view(r@));
    let pat = name_pattern(name);
    let mut out: Vec<u8> = Vec::new();
    let mut le: usize = 0;
    let mut s: usize = 0;
    loop
        invariant
            le <= s <= t.len(),
            pat@ == backslash_name(name.spec_bytes()),
            pat@.len() > 0,
            separated(regions_view(r@)),
            rw == rewrite_of(*k, regions_view(r@)),
            out@ + rewritten_from(t@, pat@, rw, s as int, le as int) == rewritten_from(t@, pat@, rw, 0, 0),
        decreases t.len() + 1 - s,
    {
        let ghost o = out@;
        proof {
            lemma_find_from_bounds(t@, pat@, s as int);
        }
        match find_bytes(t, pat.as_slice(), s) {
            None => {
                push_range(&mut out, t, le, t.len());
                return out;
            },
            Some(p) => {
                let after = p + pat.len();
                let (hit, rep, e) = run_rewrite(k, t, p, after, r);
                if hit {
                    push_range(&mut out, t, le, p);
                    push_all(&mut out, rep.as_slice());
                    assert(o + (t@.subrange(le as int, p as int) + rep@ + rewritten_from(
                        t@,
                        pat@,
                        rw,
                        e as int,
                        e as int,
                    )) =~= out@ + rewritten_from(t@, pat@, rw, e as int, e as int));
                    le = e;
                }
                s = e;
            },
        }
    }
}

/// `t` with each name of `names[..n]` rewritten in turn by `rw`.
pub open spec fn rewritten_all(t: Seq<u8>, names: Seq<&'static str>, rw: Rewrite, n: int) -> Seq<u8>
    decreases n,
{
    if n <= 0 {
        t
    } else {
        rewritten(rewritten_all(t, names, rw, n - 1), names[n - 1].spec_bytes(), rw)
    }
}

fn rewrite_all(t: Vec<u8>, names: &Vec<&'static str>, k: &Rw) -> (res: Vec<u8>)
    ensures
        res@ == rewritten_all(t@, names@, rewrite_of(*k, Seq::empty()), names@.len() as int),
{
    let none: Vec<(usize, usize)> = Vec::new();
    assert(regions_view(none@) =~= Seq::<(int, int)>::empty());
    let ghost t0 = t@;
    let mut cur = t;
    let mut i: usize = 0;
    while i < names.len()
        invariant
            i <= names.len(),
            regions_view(none@) == Seq::<(int, int)>::empty(),
            cur@ == rewritten_all(t0, names@, rewrite_of(*k, Seq::empty()), i as int),
        decreases names.len() - i,
    {
        cur = rewrite_bytes(cur.as_slice(), names[i], k, &none);
        i = i + 1;
    }
    cur
}

/// Rewrite `\name` of `t` by a kind that does not look at math.
fn rewrite_plain(t: &[u8], name: &str, k: &Rw) -> (res: Vec<u8>)
    ensures
        res@ == rewritten(t@, name.spec_bytes(), rewrite_of(*k, Seq::empty())),
{
    let none: Vec<(usize, usize)> = Vec::new();
    assert(regions_view(none@) =~= Seq::<(int, int)>::empty());
    rewrite_bytes(t, name, k, &none)
}

/// The text from match `k` of `caps` on, with each `\frac{a}{b}`-like
/// match outside the regions `r` (and past `le`) replaced by `a/b`, or
/// `C(a,b)` for binomials.
pub open spec fn fractions_from(
    t: Seq<u8>,
    caps: Seq<Seq<Option<(usize, usize)>>>,
    r: Seq<(int, int)>,
    binom: bool,
    k: int,
    le: int,
) -> Seq<u8>
    decreases caps.len() - k,
{
    if k < 0 || k >= caps.len() {
        t.subrange(le, t.len() as int)
    } else {
        let s = group_start(caps[k], 0) as int;
        let e = group_end(caps[k], 0) as int;
        if s < le || in_regions(r, s) {
            fractions_from(t, caps, r, binom, k + 1, le)
        } else {
            match command_arg(t, e) {
                Some((cs1, ce1, a1)) => match command_arg(t, a1) {
                    Some((cs2, ce2, a2)) => t.subrange(le, s) + (if binom {
                        BINOM_OPEN.spec_bytes() + t.subrange(cs1, ce1) + seq![0x2cu8] + t.subrange(cs2, ce2)
                            + seq![0x29u8]
                    } else {
                        t.subrange(cs1, ce1) + seq![0x2fu8] + t.subrange(cs2, ce2)
                    }) + fractions_from(t, caps, r, binom, k + 1, a2),
                    None => fractions_from(t, caps, r, binom, k + 1, le),
                },
                None => fractions_from(t, caps, r, binom, k + 1, le),
            }
        }
    }
}

pub const BINOM_OPEN: &'static str = "C(";

pub const FRAC_PATTERN: &'static str = "\\\\(?:d|t|nice|c)?frac";

pub const BINOM_PATTERN: &'static str = "\\\\(?:t|d)?binom";

/// Fractions (or binomials) outside math replaced.
pub open spec fn fractions_replaced(t: Seq<u8>, binom: bool) -> Seq<u8> {
    let pat = if binom {
        BINOM_PATTERN.spec_bytes()
    } else {
        FRAC_PATTERN.spec_bytes()
    };
    fractions_from(t, re_captures(pat, t), math_regions(t), binom, 0, 0)
}

fn convert_fractions(t: &[u8], binom: bool) -> (res: Vec<u8>)
    ensures
        res@ == fractions_replaced(t@, binom),
{
    let regions = math_regions_bytes(t);
    let ghost r = regions_view(regions@);
    let caps = if binom {
        re_captures_bytes(BINOM_PATTERN, t)
    } else {
        re_captures_bytes(FRAC_PATTERN, t)
    };
    let ghost cv = captures_view(caps@);
    let mut out: Vec<u8> = Vec::new();
    let mut le: usize = 0;
    let mut k: usize = 0;
    while k < caps.len()
        invariant
            k <= caps.len(),
            le <= t.len(),
            r == regions_view(regions@),
            separated(r),
            cv == captures_view(caps@),
            well_formed_captures(cv, t@.len()),
            out@ + fractions_from(t@, cv, r, binom, k as int, le as int) == fractions_from(
                t@,
                cv,
                r,
                binom,
                0,
                0,
            ),
        decreases caps.len() - k,
    {
        let ghost o = out@;
        assert(cv[k as int] == caps@[k as int]@);
        let c = &caps[k];
        let (s, e) = match c[0] {
            Some((x, y)) => (x, y),
            None => (0, 0),
        };
        assert(s == group_start(cv[k as int], 0) && e == group_end(cv[k as int], 0));
        if s >= le && !crate::cleanup::in_math(s, &regions) {
            match command_arg_bytes(t, e) {
                Some((cs1, ce1, a1)) => match command_arg_bytes(t, a1) {
                    Some((cs2, ce2, a2)) => {
                        push_range(&mut out, t, le, s);
                        if binom {
                            push_all(&mut out, BINOM_OPEN.as_bytes());
                            push_range(&mut out, t, cs1, ce1);
                            out.push(0x2c);
                            push_range(&mut out, t, cs2, ce2);
                            out.push(0x29);
                        } else {
                            push_range(&mut out, t, cs1, ce1);
                            out.push(0x2f);
                            push_range(&mut out, t, cs2, ce2);
                        }
                        assert(out@ + fractions_from(t@, cv, r, binom, k + 1, a2 as int) =~= o
                            + fractions_from(t@, cv, r, binom, k as int, le as int));
                        le = a2;
                    },
                    None => {},
                },
                None => {},
            }
        }
        k = k + 1;
    }
    push_range(&mut out, t, le, t.len());
    out
}

/// Root commands outside math rewritten.
pub open spec fn roots_replaced(t: Seq<u8>) -> Seq<u8> {
    rewritten(t, SQRT.spec_bytes(), sqrt_rw(math_regions(t)))
}

pub const SQRT: &'static str = "sqrt";

fn convert_text_sqrt(t: &[u8]) -> (res: Vec<u8>)
    ensures
        res@ == roots_replaced(t@),
{
    let regions = math_regions_bytes(t);
    rewrite_bytes(t, SQRT, &Rw::Sqrt, &regions)
}

/// Math accents and the combining mark each adds.
pub open spec fn math_accents() -> Seq<(&'static str, &'static str)> {
    seq![
        ("hat", "\u{0302}"),
        ("tilde", "\u{0303}"),
        ("bar", "\u{0305}"),
        ("vec", "\u{20D7}"),
        ("dot", "\u{0307}"),
        ("ddot", "\u{0308}"),
        ("acute", "\u{0301}"),
        ("grave", "\u{0300}"),
        ("check", "\u{030C}"),
        ("breve", "\u{0306}"),
        ("overline", "\u{0305}"),
        ("underline", "\u{0332}"),
        ("dddot", "\u{20DB}"),
        ("ddddot", "\u{20DC}"),
    ]
}

fn math_accent_list() -> (res: Vec<(&'static str, &'static str)>)
    ensures
        res@ == math_accents(),
{
    vec![
        ("hat", "\u{0302}"),
        ("tilde", "\u{0303}"),
        ("bar", "\u{0305}"),
        ("vec", "\u{20D7}"),
        ("dot", "\u{0307}"),
        ("ddot", "\u{0308}"),
        ("acute", "\u{0301}"),
        ("grave", "\u{0300}"),
        ("check", "\u{030C}"),
        ("breve", "\u{0306}"),
        ("overline", "\u{0305}"),
        ("underline", "\u{0332}"),
        ("dddot", "\u{20DB}"),
        ("ddddot", "\u{20DC}"),
    ]
}

/// `t` with the accents of `acc[..n]` applied in turn.
pub open spec fn accents_applied(t: Seq<u8>, acc: Seq<(&'static str, &'static str)>, n: int) -> Seq<u8>
    decreases n,
{
    if n <= 0 {
        t
    } else {
        rewritten(
            accents_applied(t, acc, n - 1),
            acc[n - 1].0.spec_bytes(),
            accent_rw(acc[n - 1].1.spec_bytes()),
        )
    }
}

fn convert_math_accents(t: Vec<u8>) -> (res: Vec<u8>)
    ensures
        res@ == accents_applied(t@, math_accents(), math_accents().len() as int),
{
    let acc = math_accent_list();
    let ghost t0 = t@;
    let mut cur = t;
    let mut i: usize = 0;
    while i < acc.len()
        invariant
            i <= acc.len(),
            acc@ == math_accents(),
            cur@ == accents_applied(t0, math_accents(), i as int),
        decreases acc.len() - i,
    {
        let (name, mark) = acc[i];
        cur = rewrite_plain(cur.as_slice(), name, &Rw::Accent(mark));
        i = i + 1;
    }
    cur
}

pub open spec fn emph_commands() -> Seq<&'static str> {
    seq!["emph", "textit", "textsl"]
}

pub open spec fn bold_commands() -> Seq<&'static str> {
    seq!["textbf", "mathbf", "boldsymbol", "bm"]
}

/// Commands unwrapped to their argument.
pub open spec fn unwrap_commands() -> Seq<&'static str> {
    seq![
        "textrm", "textsc", "texttt", "textsf", "text", "textnormal",
        "mathrm", "mathit",
        "operatorname",
        "cal",
        "widetilde", "widehat",
        "ensuremath",
        "mbox", "hbox", "vbox", "fbox",
        "country",
        "citenamefont", "bibnamefont", "bibfnamefont",
        "newblock", "xspace",
        "normalfont", "bfseries", "itshape",
        "Vert", "lVert", "rVert",
        "centering",
        "uline", "uuline", "sout", "xout",
    ]
}

pub open spec fn two_arg_second() -> Seq<&'static str> {
    seq!["textcolor", "colorbox", "texorpdfstring"]
}

pub open spec fn three_arg_third() -> Seq<&'static str> {
    seq!["multicolumn"]
}

pub open spec fn font_size_commands() -> Seq<&'static str> {
    seq!["tiny", "scriptsize", "footnotesize", "small", "normalsize", "large", "Large", "LARGE", "huge", "Huge"]
}

/// Notes set off by spaces.
pub open spec fn inline_commands() -> Seq<&'static str> {
    seq![
        "footnote", "footnotetext",
        "thanks",
        "authornote", "cortext", "corref", "fntext", "ead",
        "corauth",
        "collaboration", "onbehalf",
        "endnote",
    ]
}

/// Reference marks removed with their argument.
pub open spec fn strip_commands() -> Seq<(&'static str, usize)> {
    seq![("corauthref", 1usize), ("fnref", 1usize), ("thanksref", 1usize)]
}

/// Commands turned into a space before a capital letter.
pub open spec fn space_before_upper() -> Seq<&'static str> {
    seq!["authornote", "email", "affiliation", "address", "institute", "institution", "cortext"]
}

fn emph_list() -> (res: Vec<&'static str>)
    ensures
        res@ == emph_commands(),
{
    vec!["emph", "textit", "textsl"]
}

fn bold_list() -> (res: Vec<&'static str>)
    ensures
        res@ == bold_commands(),
{
    vec!["textbf", "mathbf", "boldsymbol", "bm"]
}

fn unwrap_list() -> (res: Vec<&'static str>)
    ensures
        res@ == unwrap_commands(),
{
    vec![
        "textrm", "textsc", "texttt", "textsf", "text", "textnormal",
        "mathrm", "mathit",
        "operatorname",
        "cal",
        "widetilde", "widehat",
        "ensuremath",
        "mbox", "hbox", "vbox", "fbox",
        "country",
        "citenamefont", "bibnamefont", "bibfnamefont",
        "newblock", "xspace",
        "normalfont", "bfseries", "itshape",
        "Vert", "lVert", "rVert",
        "centering",
        "uline", "uuline", "sout", "xout",
    ]
}

fn two_arg_list() -> (res: Vec<&'static str>)
    ensures
        res@ == two_arg_second(),
{
    vec!["textcolor", "colorbox", "texorpdfstring"]
}

fn three_arg_list() -> (res: Vec<&'static str>)
    ensures
        res@ == three_arg_third(),
{
    vec!["multicolumn"]
}

fn font_size_list() -> (res: Vec<&'static str>)
    ensures
        res@ == font_size_commands(),
{
    vec!["tiny", "scriptsize", "footnotesize", "small", "normalsize", "large", "Large", "LARGE", "huge", "Huge"]
}

fn inline_list() -> (res: Vec<&'static str>)
    ensures
        res@ == inline_commands(),
{
    vec![
        "footnote", "footnotetext",
        "thanks",
        "authornote", "cortext", "corref", "fntext", "ead",
        "corauth",
        "collaboration", "onbehalf",
        "endnote",
    ]
}

fn strip_list() -> (res: Vec<(&'static str, usize)>)
    ensures
        res@ == strip_commands(),
{
    vec![("corauthref", 1usize), ("fnref", 1usize), ("thanksref", 1usize)]
}

fn before_upper_list() -> (res: Vec<&'static str>)
    ensures
        res@ == space_before_upper(),
{
    vec!["authornote", "email", "affiliation", "address", "institute", "institution", "cortext"]
}

pub const VERB: &'static str = "verb";

pub const LSTINLINE: &'static str = "lstinline";

pub const MINTINLINE: &'static str = "mintinline";

pub const STAR: &'static str = "*";

pub const DOUBLE_STAR: &'static str = "**";

pub const SPACE: &'static str = " ";

pub const OPERATORNAME_STAR: &'static str = "operatorname*";

pub const TEXTSUPERSCRIPT: &'static str = "textsuperscript";

pub const TEXTSUBSCRIPT: &'static str = "textsubscript";

pub const BRAKET: &'static str = "braket";

pub const KETBRA: &'static str = "ketbra";

pub const KET: &'static str = "ket";

pub const BRA: &'static str = "bra";

/// A ket opens with a bar and a zero-width space.
pub const KET_OPEN: &'static str = "|\u{200B}";

/// A bra closes with a bar and a zero-width space.
pub const BRA_CLOSE: &'static str = "|\u{200B}";

pub const FOOTNOTE_MARK_PATTERN: &'static str = "\\\\footnotemark";

/// The text after inline formatting conversion.
pub open spec fn formatted(t: Seq<u8>) -> Seq<u8> {
    let a = rewritten(t, VERB.spec_bytes(), verb_rw());
    let b = rewritten(a, LSTINLINE.spec_bytes(), lstinline_rw());
    let c = rewritten(b, MINTINLINE.spec_bytes(), mintinline_rw());
    let d = accents_applied(c, math_accents(), math_accents().len() as int);
    let e = rewritten_all(
        d,
        emph_commands(),
        single_arg_rw(STAR.spec_bytes(), STAR.spec_bytes(), false),
        emph_commands().len() as int,
    );
    let f = rewritten_all(
        e,
        bold_commands(),
        single_arg_rw(DOUBLE_STAR.spec_bytes(), DOUBLE_STAR.spec_bytes(), false),
        bold_commands().len() as int,
    );
    let g = rewritten_all(
        f,
        unwrap_commands(),
        single_arg_rw(EMPTY.spec_bytes(), EMPTY.spec_bytes(), false),
        unwrap_commands().len() as int,
    );
    let h = rewritten_all(g, two_arg_second(), two_arg_rw(), two_arg_second().len() as int);
    let i = rewritten_all(h, three_arg_third(), three_arg_rw(), three_arg_third().len() as int);
    let j = fractions_replaced(i, false);
    let k = roots_replaced(j);
    let l = fractions_replaced(k, true);
    let m = without_switches(l, font_size_commands(), font_size_commands().len() as int);
    let n = rewritten_all(
        m,
        inline_commands(),
        single_arg_rw(SPACE.spec_bytes(), SPACE.spec_bytes(), false),
        inline_commands().len() as int,
    );
    let o = without_commands_args(n, strip_commands(), strip_commands().len() as int);
    let p = re_replace(FOOTNOTE_MARK_PATTERN.spec_bytes(), o, EMPTY.spec_bytes());
    let q = rewritten(p, OPERATORNAME_STAR.spec_bytes(), single_arg_rw(EMPTY.spec_bytes(), EMPTY.spec_bytes(), true));
    let r = rewritten(q, TEXTSUPERSCRIPT.spec_bytes(), script_rw(true));
    let s = rewritten(r, TEXTSUBSCRIPT.spec_bytes(), script_rw(false));
    let u1 = rewritten(s, BRAKET.spec_bytes(), braket_rw());
    let u2 = rewritten(u1, KETBRA.spec_bytes(), ketbra_rw());
    let u3 = rewritten(u2, KET.spec_bytes(), single_arg_rw(KET_OPEN.spec_bytes(), RANGLE.spec_bytes(), false));
    let u = rewritten(u3, BRA.spec_bytes(), single_arg_rw(LANGLE.spec_bytes(), BRA_CLOSE.spec_bytes(), false));
    rewritten_all(u, space_before_upper(), before_upper_rw(), space_before_upper().len() as int)
}

/// Inline formatting conversion on bytes.
pub fn convert_formatting_bytes(t: &[u8]) -> (res: Vec<u8>)
    ensures
        res@ == formatted(t@),
{
    let a = rewrite_plain(t, VERB, &Rw::Verb);
    let b = rewrite_plain(a.as_slice(), LSTINLINE, &Rw::Lstinline);
    let c = rewrite_plain(b.as_slice(), MINTINLINE, &Rw::Mintinline);
    let d = convert_math_accents(c);
    let e = rewrite_all(d, &emph_list(), &Rw::SingleArg(STAR, STAR, false));
    let f = rewrite_all(e, &bold_list(), &Rw::SingleArg(DOUBLE_STAR, DOUBLE_STAR, false));
    let g = rewrite_all(f, &unwrap_list(), &Rw::SingleArg(EMPTY, EMPTY, false));
    let h = rewrite_all(g, &two_arg_list(), &Rw::TwoArg);
    let i = rewrite_all(h, &three_arg_list(), &Rw::ThreeArg);
    let j = convert_fractions(i.as_slice(), false);
    let k = convert_text_sqrt(j.as_slice());
    let l = convert_fractions(k.as_slice(), true);
    let m = crate::cleanup::remove_switches(l, &font_size_list());
    let n = rewrite_all(m, &inline_list(), &Rw::SingleArg(SPACE, SPACE, false));
    let o = crate::cleanup::strip_all_with_args(n, &strip_list());
    let p = re_replace_bytes(FOOTNOTE_MARK_PATTERN, o.as_slice(), EMPTY.as_bytes());
    let q = rewrite_plain(p.as_slice(), OPERATORNAME_STAR, &Rw::SingleArg(EMPTY, EMPTY, true));
    let r = rewrite_plain(q.as_slice(), TEXTSUPERSCRIPT, &Rw::Script(true));
    let s = rewrite_plain(r.as_slice(), TEXTSUBSCRIPT, &Rw::Script(false));
    let u1 = rewrite_plain(s.as_slice(), BRAKET, &Rw::Braket);
    let u2 = rewrite_plain(u1.as_slice(), KETBRA, &Rw::Ketbra);
    let u3 = rewrite_plain(u2.as_slice(), KET, &Rw::SingleArg(KET_OPEN, RANGLE, false));
    let u = rewrite_plain(u3.as_slice(), BRA, &Rw::SingleArg(LANGLE, BRA_CLOSE, false));
    rewrite_all(u, &before_upper_list(), &Rw::BeforeUpper)
}

/// Convert LaTeX inline formatting to plain text and markdown: emphasis to
/// `*x*`, bold to `**x**`, font and colour commands to their text, inline
/// code to its text, accents to combining marks, fractions, roots and
/// binomials outside math to `a/b`, `√(x)` and `C(n,k)`, notes set off by
/// spaces, scripts to Unicode scripts and bra-ket notation to `⟨x|y⟩`.
pub fn convert_formatting(text: &str) -> (res: String)
    ensures
        res@ == utf8_lossy(formatted(text.spec_bytes())),
{
    let out = convert_formatting_bytes(text.as_bytes());
    string_from_bytes(out.as_slice())
}

} // verus!
