//! `\input`/`\include` resolution and ordering of the files of a paper.

use vstd::prelude::*;
use vstd::string::StringSliceAdditionalSpecFns;
use crate::outside::{captures_view, group_end, group_start, well_formed_captures};
use crate::regexes::{re_captures, re_captures_bytes};
use crate::scan::{
    bytes_contains, bytes_ends_with, bytes_eq, bytes_starts_with, contains, ends_with,
    last_component_bytes, last_component_start, lowercase, push_all, push_range, slice_to_vec,
    starts_with, to_ascii_lowercase_bytes, trim_ws, trim_ws_range,
};
use crate::text::{string_from_bytes, utf8_lossy};
use crate::textmap::TextMap;

verus! {

/// A .tex file with its name and content.
#[derive(Debug)]
pub struct TexFile {
    pub name: String,
    pub content: String,
}

impl Clone for TexFile {
    fn clone(&self) -> (res: Self)
        ensures
            res.name@ == self.name@,
            res.content@ == self.content@,
    {
        TexFile { name: self.name.clone(), content: self.content.clone() }
    }
}

/// Bytes of a string.
pub open spec fn sb(s: String) -> Seq<u8> {
    vstd::utf8::encode_utf8(s@)
}

pub const DOCUMENTCLASS: &'static str = "\\documentclass";

pub const BEGIN_DOCUMENT: &'static str = "\\begin{document}";

/// File `i` is a main-file candidate of kind `k`: 0 has both
/// `\documentclass` and `\begin{document}`, 1 has `\documentclass`, 2 has
/// `\begin{document}`.
pub open spec fn candidate(files: Seq<TexFile>, k: int, i: int) -> bool {
    let dc = contains(sb(files[i].content), DOCUMENTCLASS.spec_bytes());
    let bd = contains(sb(files[i].content), BEGIN_DOCUMENT.spec_bytes());
    if k == 0 {
        dc && bd
    } else if k == 1 {
        dc
    } else {
        bd
    }
}

pub open spec fn has_candidate(files: Seq<TexFile>, k: int) -> bool {
    exists|i: int| 0 <= i < files.len() && #[trigger] candidate(files, k, i)
}

/// The first candidate of kind `k`.
pub open spec fn first_candidate(files: Seq<TexFile>, k: int) -> int {
    choose|i: int|
        0 <= i < files.len() && #[trigger] candidate(files, k, i) && forall|j: int|
            0 <= j < i ==> !#[trigger] candidate(files, k, j)
}

/// File `i` comes first alphabetically: no name sorts before its name,
/// and every earlier file's name sorts after it (ties go to the earliest).
pub open spec fn first_by_name(files: Seq<TexFile>, i: int) -> bool {
    &&& 0 <= i < files.len()
    &&& forall|j: int| 0 <= j < files.len() ==> !lex_lt(sb(#[trigger] files[j].name), sb(files[i].name))
    &&& forall|j: int| 0 <= j < i ==> lex_lt(sb(files[i].name), sb(#[trigger] files[j].name))
}

/// Index of the main file: the first with both `\documentclass` and
/// `\begin{document}`, else the first with `\documentclass`, else the first
/// with `\begin{document}`, else the first file alphabetically (0 when
/// there are no files).
pub open spec fn main_file_index(files: Seq<TexFile>) -> int {
    if has_candidate(files, 0) {
        first_candidate(files, 0)
    } else if has_candidate(files, 1) {
        first_candidate(files, 1)
    } else if has_candidate(files, 2) {
        first_candidate(files, 2)
    } else if exists|i: int| #[trigger] first_by_name(files, i) {
        choose|i: int| #[trigger] first_by_name(files, i)
    } else {
        0
    }
}

/// Only one file comes first alphabetically.
proof fn lemma_first_by_name_unique(files: Seq<TexFile>, i: int, k: int)
    requires
        first_by_name(files, i),
        first_by_name(files, k),
    ensures
        i == k,
{
    if i < k {
        assert(lex_lt(sb(files[k].name), sb(files[i].name)));
    } else if k < i {
        assert(lex_lt(sb(files[i].name), sb(files[k].name)));
    }
}

/// The index of the file that comes first alphabetically.
fn first_file_by_name(files: &[TexFile]) -> (res: usize)
    requires
        files@.len() > 0,
    ensures
        first_by_name(files@, res as int),
{
    let ghost fs = files@;
    let mut best: usize = 0;
    let mut j: usize = 1;
    proof {
        lemma_lex_trichotomy(sb(fs[0].name), sb(fs[0].name));
    }
    while j < files.len()
        invariant
            fs == files@,
            1 <= j <= files.len(),
            best < j,
            forall|m: int| 0 <= m < j ==> !lex_lt(sb(#[trigger] fs[m].name), sb(fs[best as int].name)),
            forall|m: int| 0 <= m < best ==> lex_lt(sb(fs[best as int].name), sb(#[trigger] fs[m].name)),
        decreases files.len() - j,
    {
        if bytes_lt(files[j].name.as_str().as_bytes(), files[best].name.as_str().as_bytes()) {
            proof {
                let nj = sb(fs[j as int].name);
                let nb = sb(fs[best as int].name);
                assert forall|m: int| 0 <= m < j + 1 implies !lex_lt(sb(#[trigger] fs[m].name), nj) by {
                    if m < j {
                        if lex_lt(sb(fs[m].name), nj) {
                            lemma_lex_trans(sb(fs[m].name), nj, nb);
                        }
                    } else {
                        lemma_lex_trichotomy(nj, nj);
                    }
                }
                assert forall|m: int| 0 <= m < j implies lex_lt(nj, sb(#[trigger] fs[m].name)) by {
                    let nm = sb(fs[m].name);
                    assert(!lex_lt(nm, nb));
                    lemma_lex_trichotomy(nb, nm);
                    if lex_lt(nb, nm) {
                        lemma_lex_trans(nj, nb, nm);
                    }
                }
            }
            best = j;
        }
        j = j + 1;
    }
    best
}

proof fn lemma_first_candidate(files: Seq<TexFile>, k: int, i: int)
    requires
        0 <= i < files.len(),
        candidate(files, k, i),
        forall|j: int| 0 <= j < i ==> !#[trigger] candidate(files, k, j),
    ensures
        has_candidate(files, k),
        first_candidate(files, k) == i,
{
    let r = first_candidate(files, k);
    assert(0 <= r < files.len() && candidate(files, k, r) && forall|j: int|
        0 <= j < r ==> !#[trigger] candidate(files, k, j));
    if r < i {
        assert(!candidate(files, k, r));
    }
    if r > i {
        assert(!candidate(files, k, i));
    }
}

/// Detect the main .tex file of a collection.
///
/// Priority: a file with both `\documentclass` and `\begin{document}`, then
/// one with `\documentclass`, then one with `\begin{document}`, then the
/// first file alphabetically; ties go to the earliest file.
pub fn find_main_file(files: &[TexFile]) -> (res: usize)
    ensures
        res as int == main_file_index(files@),
{
    let ghost fs = files@;
    let mut first_dc: Option<usize> = None;
    let mut first_bd: Option<usize> = None;
    let mut i: usize = 0;
    while i < files.len()
        invariant
            fs == files@,
            i <= files.len(),
            forall|j: int| 0 <= j < i ==> !#[trigger] candidate(fs, 0, j),
            match first_dc {
                Some(k) => k < i && candidate(fs, 1, k as int) && forall|j: int| 0 <= j < k ==> !#[trigger] candidate(fs, 1, j),
                None => forall|j: int| 0 <= j < i ==> !#[trigger] candidate(fs, 1, j),
            },
            match first_bd {
                Some(k) => k < i && candidate(fs, 2, k as int) && forall|j: int| 0 <= j < k ==> !#[trigger] candidate(fs, 2, j),
                None => forall|j: int| 0 <= j < i ==> !#[trigger] candidate(fs, 2, j),
            },
        decreases files.len() - i,
    {
        let c = files[i].content.as_str().as_bytes();
        let has_dc = bytes_contains(c, DOCUMENTCLASS.as_bytes());
        let has_bd = bytes_contains(c, BEGIN_DOCUMENT.as_bytes());
        assert(has_dc == candidate(fs, 1, i as int));
        assert(has_bd == candidate(fs, 2, i as int));
        assert((has_dc && has_bd) == candidate(fs, 0, i as int));
        if has_dc && has_bd {
            proof {
                lemma_first_candidate(fs, 0, i as int);
            }
            return i;
        }
        if has_dc && first_dc.is_none() {
            first_dc = Some(i);
        }
        if has_bd && first_bd.is_none() {
            first_bd = Some(i);
        }
        i = i + 1;
    }
    assert(!has_candidate(fs, 0));
    match first_dc {
        Some(k) => {
            proof {
                lemma_first_candidate(fs, 1, k as int);
            }
            k
        },
        None => {
            assert(!has_candidate(fs, 1));
            match first_bd {
                Some(k) => {
                    proof {
                        lemma_first_candidate(fs, 2, k as int);
                    }
                    k
                },
                None => {
                    assert(!has_candidate(fs, 2));
                    if files.len() == 0 {
                        proof {
                            if exists|k: int| #[trigger] first_by_name(fs, k) {
                                let k = choose|k: int| #[trigger] first_by_name(fs, k);
                                assert(0 <= k < fs.len());
                            }
                        }
                        return 0;
                    }
                    let b = first_file_by_name(files);
                    proof {
                        let k = choose|k: int| #[trigger] first_by_name(fs, k);
                        lemma_first_by_name_unique(fs, b as int, k);
                    }
                    b
                },
            }
        },
    }
}


/// `\input{f}`, `\include{f}`, `\subfile{f}`, `\@input{f}`.
pub const INPUT_PATTERN: &'static str = "\\\\(?:input|include|subfile|@input)\\s*\\{([^{}]+)\\}";

/// `\InputIfFileExists{f}{true-code}{false-code}`.
pub const INPUT_IF_EXISTS_PATTERN: &'static str = "\\\\InputIfFileExists\\s*\\{([^{}]+)\\}\\{[^{}]*\\}\\{[^{}]*\\}";

/// `\import{dir}{file}` and `\subimport{dir}{file}`.
pub const IMPORT_PATTERN: &'static str = "\\\\(?:sub)?import\\s*\\{([^{}]*)\\}\\s*\\{([^{}]+)\\}";

/// `\bibliography{name}`, resolved to `name.bbl`.
pub const BIBLIOGRAPHY_PATTERN: &'static str = "\\\\bibliography\\s*\\{([^{}]+)\\}";

pub const BBL: &'static str = ".bbl";

pub const TEX: &'static str = ".tex";

pub const DOT_SLASH: &'static str = "./";

/// An include directive: match range and the path it names.
pub type Include = (usize, usize, Seq<u8>);

/// The text of group `g` of capture `c`, or empty.
pub open spec fn group_bytes(t: Seq<u8>, c: Seq<Option<(usize, usize)>>, g: int) -> Seq<u8> {
    if 0 <= g < c.len() {
        match c[g] {
            Some((a, b)) => t.subrange(a as int, b as int),
            None => Seq::empty(),
        }
    } else {
        Seq::empty()
    }
}

/// The directive a match of kind `kind` denotes (0 input-like, 1
/// InputIfFileExists, 2 import, 3 bibliography).
pub open spec fn include_of(t: Seq<u8>, c: Seq<Option<(usize, usize)>>, kind: int) -> Include {
    let path = if kind == 2 {
        group_bytes(t, c, 1) + group_bytes(t, c, 2)
    } else if kind == 3 {
        trim_ws(group_bytes(t, c, 1)) + BBL.spec_bytes()
    } else {
        group_bytes(t, c, 1)
    };
    (group_start(c, 0), group_end(c, 0), path)
}

pub open spec fn includes_of(t: Seq<u8>, caps: Seq<Seq<Option<(usize, usize)>>>, kind: int) -> Seq<Include> {
    caps.map_values(|c: Seq<Option<(usize, usize)>>| include_of(t, c, kind))
}

/// `x` inserted into `s` after every element that does not start later.
pub open spec fn insert_by_start(s: Seq<Include>, x: Include) -> Seq<Include>
    decreases s.len(),
{
    if s.len() == 0 {
        seq![x]
    } else if s.last().0 <= x.0 {
        s.push(x)
    } else {
        insert_by_start(s.drop_last(), x).push(s.last())
    }
}

/// Stable sort by start position.
pub open spec fn sort_by_start(s: Seq<Include>) -> Seq<Include>
    decreases s.len(),
{
    if s.len() == 0 {
        s
    } else {
        insert_by_start(sort_by_start(s.drop_last()), s.last())
    }
}

/// All include-like directives of a text, ordered by position.
pub open spec fn all_includes(t: Seq<u8>) -> Seq<Include> {
    sort_by_start(
        includes_of(t, re_captures(INPUT_PATTERN.spec_bytes(), t), 0) + includes_of(
            t,
            re_captures(INPUT_IF_EXISTS_PATTERN.spec_bytes(), t),
            1,
        ) + includes_of(t, re_captures(IMPORT_PATTERN.spec_bytes(), t), 2) + includes_of(
            t,
            re_captures(BIBLIOGRAPHY_PATTERN.spec_bytes(), t),
            3,
        ),
    )
}

pub open spec fn include_views(v: Seq<(usize, usize, Vec<u8>)>) -> Seq<Include> {
    v.map_values(|x: (usize, usize, Vec<u8>)| (x.0, x.1, x.2@))
}

proof fn lemma_insert_at(s: Seq<Include>, x: Include, p: int)
    requires
        0 <= p <= s.len(),
        p == s.len() || s[p].0 > x.0,
        p == 0 || s[p - 1].0 <= x.0,
        forall|i: int| p <= i < s.len() ==> (#[trigger] s[i]).0 > x.0,
    ensures
        insert_by_start(s, x) == s.subrange(0, p) + seq![x] + s.subrange(p, s.len() as int),
    decreases s.len(),
{
    if s.len() == 0 {
        assert(seq![x] =~= s.subrange(0, p) + seq![x] + s.subrange(p, s.len() as int));
    } else if s.last().0 <= x.0 {
        assert(p == s.len());
        assert(s.push(x) =~= s.subrange(0, p) + seq![x] + s.subrange(p, s.len() as int));
    } else {
        let d = s.drop_last();
        lemma_insert_at(d, x, p);
        assert(insert_by_start(d, x).push(s.last()) =~= s.subrange(0, p) + seq![x] + s.subrange(p, s.len() as int));
    }
}

/// Insert `x` keeping `v` ordered by start (after equal starts).
fn insert_include(v: &mut Vec<(usize, usize, Vec<u8>)>, x: (usize, usize, Vec<u8>))
    ensures
        include_views(final(v)@) == insert_by_start(include_views(old(v)@), (x.0, x.1, x.2@)),
{
    let ghost s = include_views(v@);
    let ghost xv = (x.0, x.1, x.2@);
    let mut p = v.len();
    while p > 0 && v[p - 1].0 > x.0
        invariant
            p <= v.len(),
            s == include_views(v@),
            xv == (x.0, x.1, x.2@),
            forall|i: int| p <= i < s.len() ==> (#[trigger] s[i]).0 > xv.0,
        decreases p,
    {
        assert(s[p - 1].0 == v@[p - 1].0);
        assert(s[p - 1].0 > xv.0);
        p = p - 1;
    }
    proof {
        if p > 0 {
            assert(s[p - 1].0 == v@[p - 1].0);
        }
        lemma_insert_at(s, xv, p as int);
    }
    v.insert(p, x);
    assert(include_views(v@) =~= s.subrange(0, p as int) + seq![xv] + s.subrange(p as int, s.len() as int));
}

fn includes_from(t: &[u8], pat: &str, kind: usize, out: &mut Vec<(usize, usize, Vec<u8>)>)
    requires
        kind <= 3,
    ensures
        include_views(final(out)@) == include_views(old(out)@) + includes_of(
            t@,
            re_captures(pat.spec_bytes(), t@),
            kind as int,
        ),
{
    let caps = re_captures_bytes(pat, t);
    let ghost cv = captures_view(caps@);
    let ghost base = include_views(out@);
    let mut k: usize = 0;
    while k < caps.len()
        invariant
            k <= caps.len(),
            kind <= 3,
            cv == captures_view(caps@),
            cv == re_captures(pat.spec_bytes(), t@),
            well_formed_captures(cv, t@.len()),
            include_views(out@) == base + includes_of(t@, cv.subrange(0, k as int), kind as int),
        decreases caps.len() - k,
    {
        let c = &caps[k];
        assert(cv[k as int] == c@);
        let (s0, e0) = match c[0] {
            Some((a, b)) => (a, b),
            None => (0, 0),
        };
        let g1 = group_vec(t, c, 1);
        let path = if kind == 2 {
            let mut p = g1;
            let g2 = group_vec(t, c, 2);
            push_all(&mut p, g2.as_slice());
            p
        } else if kind == 3 {
            let (a, b) = trim_ws_range(g1.as_slice(), 0, g1.len());
            assert(g1@.subrange(0, g1@.len() as int) =~= g1@);
            let mut p = slice_to_vec(g1.as_slice(), a, b);
            push_all(&mut p, BBL.as_bytes());
            p
        } else {
            g1
        };
        let ghost before = include_views(out@);
        out.push((s0, e0, path));
        proof {
            assert(include_of(t@, c@, kind as int) == (s0, e0, path@));
            assert(cv.subrange(0, k + 1) =~= cv.subrange(0, k as int).push(cv[k as int]));
            assert(includes_of(t@, cv.subrange(0, k + 1), kind as int) =~= includes_of(t@, cv.subrange(0, k as int), kind as int).push(include_of(t@, c@, kind as int)));
            assert(include_views(out@) =~= before.push((s0, e0, path@)));
        }
        k = k + 1;
    }
    assert(cv.subrange(0, caps@.len() as int) =~= cv);
}

/// Copy of group `g` of a match (empty when absent).
fn group_vec(t: &[u8], c: &Vec<Option<(usize, usize)>>, g: usize) -> (res: Vec<u8>)
    requires
        forall|i: int| 0 <= i < c@.len() ==> match #[trigger] c@[i] {
            Some((a, b)) => a <= b && b <= t@.len(),
            None => true,
        },
    ensures
        res@ == group_bytes(t@, c@, g as int),
{
    if g < c.len() {
        match c[g] {
            Some((a, b)) => slice_to_vec(t, a, b),
            None => Vec::new(),
        }
    } else {
        Vec::new()
    }
}

/// All include-like directives with their match ranges, ordered by start.
pub fn find_all_includes(content: &[u8]) -> (res: Vec<(usize, usize, Vec<u8>)>)
    ensures
        include_views(res@) == all_includes(content@),
{
    let mut raw: Vec<(usize, usize, Vec<u8>)> = Vec::new();
    assert(include_views(raw@) =~= Seq::<Include>::empty());
    includes_from(content, INPUT_PATTERN, 0, &mut raw);
    includes_from(content, INPUT_IF_EXISTS_PATTERN, 1, &mut raw);
    includes_from(content, IMPORT_PATTERN, 2, &mut raw);
    includes_from(content, BIBLIOGRAPHY_PATTERN, 3, &mut raw);
    sort_includes(raw)
}

/// Stable sort of directives by start position.
fn sort_includes(raw: Vec<(usize, usize, Vec<u8>)>) -> (res: Vec<(usize, usize, Vec<u8>)>)
    ensures
        include_views(res@) == sort_by_start(include_views(raw@)),
{
    let ghost all = include_views(raw@);
    let mut sorted: Vec<(usize, usize, Vec<u8>)> = Vec::new();
    let mut rest = raw;
    let mut taken: Vec<(usize, usize, Vec<u8>)> = Vec::new();
    assert(include_views(sorted@) =~= sort_by_start(all.subrange(0, 0)));
    let n = rest.len();
    let mut i: usize = 0;
    while i < n
        invariant
            i <= n,
            n == all.len(),
            include_views(rest@) == all,
            include_views(sorted@) == sort_by_start(all.subrange(0, i as int)),
        decreases n - i,
    {
        let x = (rest[i].0, rest[i].1, clone_bytes(&rest[i].2));
        assert(all[i as int] == (x.0, x.1, x.2@));
        insert_include(&mut sorted, x);
        assert(all.subrange(0, i + 1).drop_last() =~= all.subrange(0, i as int));
        i = i + 1;
    }
    assert(all.subrange(0, n as int) =~= all);
    sorted
}

/// A copy of a byte vector.
pub fn clone_bytes(v: &Vec<u8>) -> (res: Vec<u8>)
    ensures
        res@ == v@,
{
    let mut out: Vec<u8> = Vec::new();
    push_all(&mut out, v.as_slice());
    assert(out@ =~= v@);
    out
}


/// A path normalised for lookup: trimmed, without a leading `./`, with
/// `.tex` appended unless it already ends in `.tex` or `.bbl`.
pub open spec fn resolved_path(p: Seq<u8>) -> Seq<u8> {
    let t = trim_ws(p);
    let s = if starts_with(t, DOT_SLASH.spec_bytes()) {
        t.subrange(DOT_SLASH.spec_bytes().len() as int, t.len() as int)
    } else {
        t
    };
    if ends_with(s, TEX.spec_bytes()) || ends_with(s, BBL.spec_bytes()) {
        s
    } else {
        s + TEX.spec_bytes()
    }
}

/// A path ending in `.tex` or `.bbl`.
pub open spec fn tex_or_bbl(p: Seq<u8>) -> bool {
    ends_with(p, TEX.spec_bytes()) || ends_with(p, BBL.spec_bytes())
}

/// A resolved path always ends in `.tex` or `.bbl`.
proof fn lemma_resolved_suffix(p: Seq<u8>)
    ensures
        tex_or_bbl(resolved_path(p)),
{
    let t = trim_ws(p);
    let s = if starts_with(t, DOT_SLASH.spec_bytes()) {
        t.subrange(DOT_SLASH.spec_bytes().len() as int, t.len() as int)
    } else {
        t
    };
    if !(ends_with(s, TEX.spec_bytes()) || ends_with(s, BBL.spec_bytes())) {
        let r = s + TEX.spec_bytes();
        assert(r.subrange(r.len() - TEX.spec_bytes().len(), r.len() as int) =~= TEX.spec_bytes());
    }
}

/// Normalise an include path for lookup.
pub fn resolve_path(path: &[u8]) -> (res: Vec<u8>)
    ensures
        res@ == resolved_path(path@),
{
    let (a, b) = trim_ws_range(path, 0, path.len());
    assert(path@.subrange(0, path@.len() as int) =~= path@);
    let t = slice_to_vec(path, a, b);
    let ds = DOT_SLASH.as_bytes();
    let s = if bytes_starts_with(t.as_slice(), ds) {
        slice_to_vec(t.as_slice(), ds.len(), t.len())
    } else {
        t
    };
    if bytes_ends_with(s.as_slice(), TEX.as_bytes()) || bytes_ends_with(s.as_slice(), BBL.as_bytes()) {
        s
    } else {
        let mut r = s;
        push_all(&mut r, TEX.as_bytes());
        r
    }
}

/// `s` without the suffix `suf`, if it ends with it.
pub open spec fn strip_suffix(s: Seq<u8>, suf: Seq<u8>) -> Option<Seq<u8>> {
    if ends_with(s, suf) {
        Some(s.subrange(0, s.len() - suf.len()))
    } else {
        None
    }
}

/// `n` and its variants without `.tex` / `.bbl`.
pub open spec fn with_stripped(n: Seq<u8>) -> Seq<Seq<u8>> {
    seq![n] + (match strip_suffix(n, TEX.spec_bytes()) {
        Some(x) => seq![x],
        None => Seq::empty(),
    }) + (match strip_suffix(n, BBL.spec_bytes()) {
        Some(x) => seq![x],
        None => Seq::empty(),
    })
}

/// The lookup names a file is indexed under, in insertion order: its name,
/// the name without `./`, and its basename, each also without `.tex`/`.bbl`.
pub open spec fn index_names(n: Seq<u8>) -> Seq<Seq<u8>> {
    let base = n.subrange(last_component_start(n, n.len() as int), n.len() as int);
    with_stripped(n).subrange(1, with_stripped(n).len() as int).insert(0, n) + (if starts_with(
        n,
        DOT_SLASH.spec_bytes(),
    ) {
        with_stripped(n.subrange(DOT_SLASH.spec_bytes().len() as int, n.len() as int))
    } else {
        Seq::empty()
    }) + (if base != n {
        with_stripped(base)
    } else {
        Seq::empty()
    })
}

/// The index after inserting `names` (all bound to `content`).
pub open spec fn insert_names(
    e: Seq<(Seq<char>, Seq<char>)>,
    names: Seq<Seq<u8>>,
    content: Seq<char>,
) -> Seq<(Seq<char>, Seq<char>)>
    decreases names.len(),
{
    if names.len() == 0 {
        e
    } else {
        crate::textmap::entries_insert(
            insert_names(e, names.drop_last(), content),
            utf8_lossy(names.last()),
            content,
        )
    }
}

/// The file index after the first `n` files.
pub open spec fn file_index_of(files: Seq<TexFile>, n: int) -> Seq<(Seq<char>, Seq<char>)>
    decreases n,
{
    if n <= 0 {
        Seq::empty()
    } else {
        insert_names(file_index_of(files, n - 1), index_names(sb(files[n - 1].name)), files[n - 1].content@)
    }
}

/// Add `n` and its stripped variants to `v`, in `with_stripped` order.
fn push_with_stripped(v: &mut Vec<Vec<u8>>, n: &[u8])
    ensures
        crate::scan::rows_view(final(v)@) == crate::scan::rows_view(old(v)@) + with_stripped(n@),
{
    let ghost base = crate::scan::rows_view(v@);
    let mut first: Vec<u8> = Vec::new();
    push_all(&mut first, n);
    v.push(first);
    let ghost mid1 = crate::scan::rows_view(v@);
    assert(mid1 =~= base + seq![n@]);
    if bytes_ends_with(n, TEX.as_bytes()) {
        v.push(slice_to_vec(n, 0, n.len() - TEX.as_bytes().len()));
    }
    let ghost mid2 = crate::scan::rows_view(v@);
    assert(mid2 =~= mid1 + match strip_suffix(n@, TEX.spec_bytes()) {
        Some(x) => seq![x],
        None => Seq::<Seq<u8>>::empty(),
    });
    if bytes_ends_with(n, BBL.as_bytes()) {
        v.push(slice_to_vec(n, 0, n.len() - BBL.as_bytes().len()));
    }
    assert(crate::scan::rows_view(v@) =~= mid2 + match strip_suffix(n@, BBL.spec_bytes()) {
        Some(x) => seq![x],
        None => Seq::<Seq<u8>>::empty(),
    });
    assert(crate::scan::rows_view(v@) =~= base + with_stripped(n@));
}

/// The lookup names of a file.
fn index_names_bytes(n: &[u8]) -> (res: Vec<Vec<u8>>)
    ensures
        crate::scan::rows_view(res@) == index_names(n@),
{
    let mut v: Vec<Vec<u8>> = Vec::new();
    push_with_stripped(&mut v, n);
    assert(with_stripped(n@).subrange(1, with_stripped(n@).len() as int).insert(0, n@) =~= with_stripped(n@));
    assert(crate::scan::rows_view(v@) =~= with_stripped(n@));
    let ghost after1 = crate::scan::rows_view(v@);
    let ds = DOT_SLASH.as_bytes();
    if bytes_starts_with(n, ds) {
        let rest = slice_to_vec(n, ds.len(), n.len());
        push_with_stripped(&mut v, rest.as_slice());
    }
    let ghost after2 = crate::scan::rows_view(v@);
    assert(after2 =~= after1 + (if starts_with(n@, DOT_SLASH.spec_bytes()) {
        with_stripped(n@.subrange(DOT_SLASH.spec_bytes().len() as int, n@.len() as int))
    } else {
        Seq::<Seq<u8>>::empty()
    }));
    let b = last_component_bytes(n);
    let base = slice_to_vec(n, b, n.len());
    if !bytes_eq(base.as_slice(), n) {
        push_with_stripped(&mut v, base.as_slice());
    }
    assert(crate::scan::rows_view(v@) =~= after2 + (if base@ != n@ {
        with_stripped(base@)
    } else {
        Seq::<Seq<u8>>::empty()
    }));
    v
}

/// Build a file index mapping possible lookup names to file contents: for
/// `chapters/intro.tex` the names `chapters/intro.tex`, `chapters/intro`,
/// `intro.tex` and `intro`; a later file overrides an earlier one.
pub fn build_file_index(files: &[TexFile]) -> (res: TextMap)
    ensures
        res.entry_seq() == file_index_of(files@, files@.len() as int),
{
    let mut index = TextMap::new();
    let mut i: usize = 0;
    while i < files.len()
        invariant
            i <= files.len(),
            index.entry_seq() == file_index_of(files@, i as int),
        decreases files.len() - i,
    {
        let f = &files[i];
        let names = index_names_bytes(f.name.as_str().as_bytes());
        let ghost nv = crate::scan::rows_view(names@);
        let ghost start = index.entry_seq();
        let mut k: usize = 0;
        while k < names.len()
            invariant
                k <= names.len(),
                nv == crate::scan::rows_view(names@),
                index.entry_seq() == insert_names(start, nv.subrange(0, k as int), f.content@),
            decreases names.len() - k,
        {
            index.insert(string_from_bytes(names[k].as_slice()), f.content.clone());
            assert(nv.subrange(0, k + 1).drop_last() =~= nv.subrange(0, k as int));
            assert(nv.subrange(0, k + 1).last() == names@[k as int]@);
            k = k + 1;
        }
        assert(nv.subrange(0, nv.len() as int) =~= nv);
        i = i + 1;
    }
    index
}


pub open spec fn template_suffixes() -> Seq<&'static str> {
    seq!["_conference.tex", "_submission.tex", "_style.tex", "_format.tex"]
}

pub open spec fn template_prefixes() -> Seq<&'static str> {
    seq!["sample", "template", "example", "instructions"]
}

pub open spec fn instruction_phrases() -> Seq<&'static str> {
    seq![
        "formatting instructions",
        "style file",
        "do not modify",
        "camera ready",
        "camera-ready",
        "do not change",
        "submission template"
    ]
}

pub const PROVIDES_PACKAGE: &'static str = "\\ProvidesPackage";

pub const PROVIDES_CLASS: &'static str = "\\ProvidesClass";

/// Heuristic for a conference template or style file: a template-like
/// basename (case-insensitive), a `\ProvidesPackage`/`\ProvidesClass`, or at
/// least two instruction phrases in the lowercased content.
pub open spec fn is_template(name: Seq<u8>, content: Seq<u8>) -> bool {
    let base = lowercase(name.subrange(last_component_start(name, name.len() as int), name.len() as int));
    let no_ext = match strip_suffix(base, TEX.spec_bytes()) {
        Some(x) => x,
        None => base,
    };
    ||| crate::scan::ends_with_any(base, template_suffixes())
    ||| crate::scan::starts_with_any(no_ext, template_prefixes())
    ||| contains(content, PROVIDES_PACKAGE.spec_bytes())
    ||| contains(content, PROVIDES_CLASS.spec_bytes())
    ||| crate::scan::count_contained(lowercase(content), instruction_phrases(), 7) >= 2
}

/// Whether a file looks like a template or style file rather than content.
pub fn is_template_file(f: &TexFile) -> (res: bool)
    ensures
        res == is_template(sb(f.name), sb(f.content)),
{
    let name = f.name.as_str().as_bytes();
    let b = last_component_bytes(name);
    let base_raw = slice_to_vec(name, b, name.len());
    let base = to_ascii_lowercase_bytes(base_raw.as_slice());
    let suffixes: Vec<&'static str> = vec!["_conference.tex", "_submission.tex", "_style.tex", "_format.tex"];
    if crate::scan::bytes_ends_with_any(base.as_slice(), suffixes.as_slice()) {
        return true;
    }
    let no_ext = if bytes_ends_with(base.as_slice(), TEX.as_bytes()) {
        slice_to_vec(base.as_slice(), 0, base.len() - TEX.as_bytes().len())
    } else {
        clone_bytes(&base)
    };
    let prefixes: Vec<&'static str> = vec!["sample", "template", "example", "instructions"];
    if crate::scan::bytes_starts_with_any(no_ext.as_slice(), prefixes.as_slice()) {
        return true;
    }
    let content = f.content.as_str().as_bytes();
    if bytes_contains(content, PROVIDES_PACKAGE.as_bytes()) || bytes_contains(content, PROVIDES_CLASS.as_bytes()) {
        return true;
    }
    let phrases: Vec<&'static str> = vec![
        "formatting instructions",
        "style file",
        "do not modify",
        "camera ready",
        "camera-ready",
        "do not change",
        "submission template",
    ];
    let lc = to_ascii_lowercase_bytes(content);
    let hits = crate::scan::count_contained_bytes(lc.as_slice(), phrases.as_slice());
    hits >= 2
}


/// Whether `x` is one of the byte strings of `v`.
pub fn contains_row(v: &Vec<Vec<u8>>, x: &[u8]) -> (res: bool)
    ensures
        res == crate::scan::rows_view(v@).contains(x@),
{
    let ghost rv = crate::scan::rows_view(v@);
    let mut i: usize = 0;
    while i < v.len()
        invariant
            i <= v.len(),
            rv == crate::scan::rows_view(v@),
            forall|j: int| 0 <= j < i ==> rv[j] != x@,
        decreases v.len() - i,
    {
        if bytes_eq(v[i].as_slice(), x) {
            assert(rv[i as int] == x@);
            return true;
        }
        i = i + 1;
    }
    false
}

/// The value bound to the key whose bytes are `k`.
pub open spec fn value_for(e: Seq<(Seq<char>, Seq<char>)>, k: Seq<u8>) -> Option<Seq<u8>> {
    if exists|i: int| 0 <= i < e.len() && vstd::utf8::encode_utf8(#[trigger] e[i].0) == k {
        Some(
            vstd::utf8::encode_utf8(
                e[choose|i: int| 0 <= i < e.len() && vstd::utf8::encode_utf8(#[trigger] e[i].0) == k].1,
            ),
        )
    } else {
        None
    }
}

/// Entry `i` is the first whose key ends in `.bbl`.
pub open spec fn first_bbl(e: Seq<(Seq<char>, Seq<char>)>, i: int) -> bool {
    &&& 0 <= i < e.len()
    &&& ends_with(vstd::utf8::encode_utf8(e[i].0), BBL.spec_bytes())
    &&& forall|j: int| 0 <= j < i ==> !ends_with(vstd::utf8::encode_utf8(#[trigger] e[j].0), BBL.spec_bytes())
}

/// The indexed file an include path names, as (key, content) bytes: the
/// entry with exactly that key, or for a `.bbl` path the first entry whose
/// key ends in `.bbl`.
pub open spec fn include_lookup(e: Seq<(Seq<char>, Seq<char>)>, rp: Seq<u8>) -> Option<(Seq<u8>, Seq<u8>)> {
    match value_for(e, rp) {
        Some(v) => Some((rp, v)),
        None => if ends_with(rp, BBL.spec_bytes()) && exists|i: int| #[trigger] first_bbl(e, i) {
            let i = choose|i: int| #[trigger] first_bbl(e, i);
            Some((vstd::utf8::encode_utf8(e[i].0), vstd::utf8::encode_utf8(e[i].1)))
        } else {
            None
        },
    }
}

proof fn lemma_encode_injective(a: Seq<char>, b: Seq<char>)
    requires
        vstd::utf8::encode_utf8(a) == vstd::utf8::encode_utf8(b),
    ensures
        a == b,
{
    vstd::utf8::encode_utf8_decode_utf8(a);
    vstd::utf8::encode_utf8_decode_utf8(b);
}

/// A key found by its bytes gives the value `value_for` names.
proof fn lemma_value_at(e: Seq<(Seq<char>, Seq<char>)>, k: Seq<u8>, i: int)
    requires
        crate::textmap::distinct_keys(e),
        0 <= i < e.len(),
        vstd::utf8::encode_utf8(e[i].0) == k,
    ensures
        value_for(e, k) == Some(vstd::utf8::encode_utf8(e[i].1)),
{
    let c = choose|c: int| 0 <= c < e.len() && vstd::utf8::encode_utf8(#[trigger] e[c].0) == k;
    assert(0 <= c < e.len() && vstd::utf8::encode_utf8(e[c].0) == k);
    lemma_encode_injective(e[c].0, e[i].0);
    if c != i {
        if c < i {
            assert(e[c].0 != e[i].0);
        } else {
            assert(e[i].0 != e[c].0);
        }
    }
}

pub open spec fn pair_view(p: Option<(Vec<u8>, Vec<u8>)>) -> Option<(Seq<u8>, Seq<u8>)> {
    match p {
        Some((k, v)) => Some((k@, v@)),
        None => None,
    }
}

/// Lookup of an include path in the index.
fn lookup_include(index: &TextMap, rp: &[u8]) -> (res: Option<(Vec<u8>, Vec<u8>)>)
    ensures
        pair_view(res) == include_lookup(index.entry_seq(), rp@),
{
    let ghost e = index.entry_seq();
    match index.index_of_bytes(rp) {
        Some(i) => {
            let (k, v) = index.entry(i);
            let mut kb: Vec<u8> = Vec::new();
            push_all(&mut kb, k.as_str().as_bytes());
            let mut vb: Vec<u8> = Vec::new();
            push_all(&mut vb, v.as_str().as_bytes());
            proof {
                lemma_value_at(e, rp@, i as int);
            }
            Some((kb, vb))
        },
        None => {
            assert(value_for(e, rp@) is None);
            if !bytes_ends_with(rp, BBL.as_bytes()) {
                return None;
            }
            let mut i: usize = 0;
            while i < index.len()
                invariant
                    i <= e.len(),
                    e == index.entry_seq(),
                    value_for(e, rp@) is None,
                    ends_with(rp@, BBL.spec_bytes()),
                    forall|j: int| 0 <= j < i ==> !ends_with(vstd::utf8::encode_utf8(#[trigger] e[j].0), BBL.spec_bytes()),
                decreases e.len() - i,
            {
                let (k, v) = index.entry(i);
                if bytes_ends_with(k.as_str().as_bytes(), BBL.as_bytes()) {
                    let mut kb: Vec<u8> = Vec::new();
                    push_all(&mut kb, k.as_str().as_bytes());
                    let mut vb: Vec<u8> = Vec::new();
                    push_all(&mut vb, v.as_str().as_bytes());
                    proof {
                        assert(first_bbl(e, i as int));
                        let c = choose|c: int| #[trigger] first_bbl(e, c);
                        if c < i {
                            assert(!ends_with(vstd::utf8::encode_utf8(e[c].0), BBL.spec_bytes()));
                        }
                        if c > i {
                            assert(!ends_with(vstd::utf8::encode_utf8(e[i as int].0), BBL.spec_bytes()));
                        }
                    }
                    return Some((kb, vb));
                }
                i = i + 1;
            }
            proof {
                if exists|c: int| #[trigger] first_bbl(e, c) {
                    let c = choose|c: int| #[trigger] first_bbl(e, c);
                    assert(!ends_with(vstd::utf8::encode_utf8(e[c].0), BBL.spec_bytes()));
                }
            }
            None
        },
    }
}

/// `content` with its include directives inlined at `depth`, and the
/// inlined files after `visited`: nothing past `max_depth`, else the
/// directives processed from last to first.
pub open spec fn resolve_content(
    e: Seq<(Seq<char>, Seq<char>)>,
    content: Seq<u8>,
    visited: Seq<Seq<u8>>,
    depth: int,
    max_depth: int,
) -> (Seq<u8>, Seq<Seq<u8>>)
    decreases max_depth - depth, all_includes(content).len() + 1,
{
    if depth >= max_depth {
        (content, visited)
    } else {
        resolve_matches(e, content, all_includes(content), all_includes(content).len() as int, visited, depth, max_depth)
    }
}

/// Directives `ms[0..k]` of a text processed from the last: one whose
/// path was inlined before, or names no indexed file, stays; otherwise
/// the file is recorded as visited, resolved one level deeper, and put in
/// the directive's place.
pub open spec fn resolve_matches(
    e: Seq<(Seq<char>, Seq<char>)>,
    cur: Seq<u8>,
    ms: Seq<Include>,
    k: int,
    visited: Seq<Seq<u8>>,
    depth: int,
    max_depth: int,
) -> (Seq<u8>, Seq<Seq<u8>>)
    decreases max_depth - depth, k,
{
    if k <= 0 || depth >= max_depth {
        (cur, visited)
    } else {
        let m = ms[k - 1];
        let rp = resolved_path(m.2);
        if visited.contains(rp) {
            resolve_matches(e, cur, ms, k - 1, visited, depth, max_depth)
        } else {
            match include_lookup(e, rp) {
                None => resolve_matches(e, cur, ms, k - 1, visited, depth, max_depth),
                Some((found, inc)) => {
                    let (inc2, v2) = resolve_content(e, inc, visited.push(found), depth + 1, max_depth);
                    let next = if m.0 <= m.1 && m.1 <= cur.len() {
                        cur.subrange(0, m.0 as int) + inc2 + cur.subrange(m.1 as int, cur.len() as int)
                    } else {
                        cur
                    };
                    resolve_matches(e, next, ms, k - 1, v2, depth, max_depth)
                },
            }
        }
    }
}

/// Inline the include directives of `content` (innermost first), recording
/// inlined files in `visited` so that no file is inlined twice.
fn resolve_inputs_recursive(
    content: Vec<u8>,
    index: &TextMap,
    visited: &mut Vec<Vec<u8>>,
    depth: usize,
    max_depth: usize,
) -> (res: Vec<u8>)
    ensures
        (res@, crate::scan::rows_view(final(visited)@)) == resolve_content(
            index.entry_seq(),
            content@,
            crate::scan::rows_view(old(visited)@),
            depth as int,
            max_depth as int,
        ),
    decreases max_depth - depth,
{
    if depth >= max_depth {
        return content;
    }
    let ghost e = index.entry_seq();
    let ghost target = resolve_content(e, content@, crate::scan::rows_view(visited@), depth as int, max_depth as int);
    let matches = find_all_includes(content.as_slice());
    let ghost msv = include_views(matches@);
    let mut cur = content;
    let mut k = matches.len();
    while k > 0
        invariant
            k <= matches.len(),
            depth < max_depth,
            e == index.entry_seq(),
            msv == include_views(matches@),
            resolve_matches(e, cur@, msv, k as int, crate::scan::rows_view(visited@), depth as int, max_depth as int)
                == target,
        decreases k,
    {
        k = k - 1;
        let ghost vis = crate::scan::rows_view(visited@);
        let (start, end) = (matches[k].0, matches[k].1);
        assert(msv[k as int] == (start, end, matches@[k as int].2@));
        let rp = resolve_path(matches[k].2.as_slice());
        if contains_row(visited, rp.as_slice()) {
            continue;
        }
        if let Some((found, inc)) = lookup_include(index, rp.as_slice()) {
            let ghost fv = found@;
            let ghost iv = inc@;
            visited.push(found);
            assert(crate::scan::rows_view(visited@) =~= vis.push(fv));
            let inc2 = resolve_inputs_recursive(inc, index, visited, depth + 1, max_depth);
            if start <= end && end <= cur.len() {
                let mut next: Vec<u8> = Vec::new();
                push_range(&mut next, cur.as_slice(), 0, start);
                push_all(&mut next, inc2.as_slice());
                push_range(&mut next, cur.as_slice(), end, cur.len());
                assert(next@ =~= cur@.subrange(0, start as int) + inc2@ + cur@.subrange(end as int, cur@.len() as int));
                cur = next;
            }
        }
    }
    cur
}

/// Inline `\input`/`\include`-like directives whose files are in the
/// index, recursively up to `max_depth` levels, never inlining a file
/// twice (which also breaks circular includes).
pub fn resolve_inputs(content: &str, file_index: &TextMap, max_depth: usize) -> (res: String)
    ensures
        res@ == utf8_lossy(
            resolve_content(file_index.entry_seq(), content.spec_bytes(), Seq::empty(), 0, max_depth as int).0,
        ),
{
    let mut c: Vec<u8> = Vec::new();
    push_all(&mut c, content.as_bytes());
    assert(c@ =~= content.spec_bytes());
    let mut visited: Vec<Vec<u8>> = Vec::new();
    assert(crate::scan::rows_view(visited@) =~= Seq::<Seq<u8>>::empty());
    let out = resolve_inputs_recursive(c, file_index, &mut visited, 0, max_depth);
    string_from_bytes(out.as_slice())
}

/// The indexed files reachable from `content` at `depth`, after `inc`:
/// nothing past `max_depth`, else its directives in order.
pub open spec fn collect_content(
    e: Seq<(Seq<char>, Seq<char>)>,
    content: Seq<u8>,
    inc: Seq<Seq<u8>>,
    depth: int,
    max_depth: int,
) -> Seq<Seq<u8>>
    decreases max_depth - depth, all_includes(content).len() + 1,
{
    if depth >= max_depth {
        inc
    } else {
        collect_matches(e, all_includes(content), 0, inc, depth, max_depth)
    }
}

/// Directives `ms[k..]` in order: a path already collected, or naming no
/// indexed file, is passed over; otherwise it is collected, then the files
/// its content reaches one level deeper.
pub open spec fn collect_matches(
    e: Seq<(Seq<char>, Seq<char>)>,
    ms: Seq<Include>,
    k: int,
    inc: Seq<Seq<u8>>,
    depth: int,
    max_depth: int,
) -> Seq<Seq<u8>>
    decreases max_depth - depth, ms.len() - k,
{
    if k < 0 || k >= ms.len() || depth >= max_depth {
        inc
    } else {
        let rp = resolved_path(ms[k].2);
        if inc.contains(rp) {
            collect_matches(e, ms, k + 1, inc, depth, max_depth)
        } else {
            match value_for(e, rp) {
                Some(sub) => collect_matches(
                    e,
                    ms,
                    k + 1,
                    collect_content(e, sub, inc.push(rp), depth + 1, max_depth),
                    depth,
                    max_depth,
                ),
                None => collect_matches(e, ms, k + 1, inc, depth, max_depth),
            }
        }
    }
}

/// Some entry of the index has the key with bytes `k`.
pub open spec fn index_has_key(index: &TextMap, k: Seq<u8>) -> bool {
    exists|i: int| 0 <= i < index.entry_seq().len() && vstd::utf8::encode_utf8(#[trigger] index.entry_seq()[i].0) == k
}

/// Collect the indexed files reachable through include directives.
fn collect_included_recursive(
    content: &[u8],
    index: &TextMap,
    included: &mut Vec<Vec<u8>>,
    depth: usize,
    max_depth: usize,
)
    requires
        forall|j: int| 0 <= j < crate::scan::rows_view(old(included)@).len() ==> index_has_key(
            index,
            #[trigger] crate::scan::rows_view(old(included)@)[j],
        ),
        forall|j: int| 0 <= j < crate::scan::rows_view(old(included)@).len() ==> tex_or_bbl(
            #[trigger] crate::scan::rows_view(old(included)@)[j],
        ),
    ensures
        forall|j: int| 0 <= j < crate::scan::rows_view(final(included)@).len() ==> tex_or_bbl(
            #[trigger] crate::scan::rows_view(final(included)@)[j],
        ),
        crate::scan::rows_view(final(included)@) == collect_content(
            index.entry_seq(),
            content@,
            crate::scan::rows_view(old(included)@),
            depth as int,
            max_depth as int,
        ),
        forall|j: int| 0 <= j < crate::scan::rows_view(final(included)@).len() ==> index_has_key(
            index,
            #[trigger] crate::scan::rows_view(final(included)@)[j],
        ),
    decreases max_depth - depth,
{
    if depth >= max_depth {
        return;
    }
    let ghost e = index.entry_seq();
    let ghost target = collect_content(e, content@, crate::scan::rows_view(included@), depth as int, max_depth as int);
    let matches = find_all_includes(content);
    let ghost msv = include_views(matches@);
    let mut k: usize = 0;
    while k < matches.len()
        invariant
            k <= matches.len(),
            depth < max_depth,
            e == index.entry_seq(),
            msv == include_views(matches@),
            collect_matches(e, msv, k as int, crate::scan::rows_view(included@), depth as int, max_depth as int)
                == target,
            forall|j: int| 0 <= j < crate::scan::rows_view(included@).len() ==> index_has_key(
                index,
                #[trigger] crate::scan::rows_view(included@)[j],
            ),
            forall|j: int| 0 <= j < crate::scan::rows_view(included@).len() ==> tex_or_bbl(
                #[trigger] crate::scan::rows_view(included@)[j],
            ),
        decreases matches.len() - k,
    {
        assert(msv[k as int].2 == matches@[k as int].2@);
        let rp = resolve_path(matches[k].2.as_slice());
        if !contains_row(included, rp.as_slice()) {
            if let Some(i) = index.index_of_bytes(rp.as_slice()) {
                let (_, sub) = index.entry(i);
                proof {
                    lemma_value_at(e, rp@, i as int);
                    lemma_resolved_suffix(matches@[k as int].2@);
                }
                let ghost before = crate::scan::rows_view(included@);
                included.push(clone_bytes(&rp));
                assert(crate::scan::rows_view(included@) =~= before.push(rp@));
                collect_included_recursive(sub.as_str().as_bytes(), index, included, depth + 1, max_depth);
            }
        }
        k = k + 1;
    }
}

/// The resolved paths of the indexed files that `main_content` includes,
/// directly or through other included files, in the order they are met.
fn included_paths(main_content: &[u8], file_index: &TextMap) -> (res: Vec<Vec<u8>>)
    ensures
        crate::scan::rows_view(res@) == collect_content(file_index.entry_seq(), main_content@, Seq::empty(), 0, 20),
        forall|j: int| 0 <= j < crate::scan::rows_view(res@).len() ==> index_has_key(
            file_index,
            #[trigger] crate::scan::rows_view(res@)[j],
        ),
        forall|j: int| 0 <= j < crate::scan::rows_view(res@).len() ==> tex_or_bbl(
            #[trigger] crate::scan::rows_view(res@)[j],
        ),
{
    let mut included: Vec<Vec<u8>> = Vec::new();
    assert(crate::scan::rows_view(included@) =~= Seq::<Seq<u8>>::empty());
    collect_included_recursive(main_content, file_index, &mut included, 0, 20);
    included
}

/// The names (as resolved paths) of the indexed files included, directly or
/// through other included files, from `main_content`, in the order met.
pub fn find_included_files(main_content: &str, file_index: &TextMap) -> (res: Vec<String>)
    ensures
        res@.len() == collect_content(file_index.entry_seq(), main_content.spec_bytes(), Seq::empty(), 0, 20).len(),
        forall|j: int|
            0 <= j < res@.len() ==> vstd::utf8::encode_utf8(#[trigger] res@[j]@) == collect_content(
                file_index.entry_seq(),
                main_content.spec_bytes(),
                Seq::empty(),
                0,
                20,
            )[j],
        forall|j: int| 0 <= j < res@.len() ==> file_index.view_map().contains_key(#[trigger] res@[j]@),
        forall|j: int| 0 <= j < res@.len() ==> tex_or_bbl(vstd::utf8::encode_utf8(#[trigger] res@[j]@)),
{
    let included = included_paths(main_content.as_bytes(), file_index);
    let ghost iv = crate::scan::rows_view(included@);
    let mut out: Vec<String> = Vec::new();
    let mut i: usize = 0;
    while i < included.len()
        invariant
            i <= included.len(),
            out.len() == i,
            iv == crate::scan::rows_view(included@),
            forall|j: int| 0 <= j < iv.len() ==> index_has_key(file_index, #[trigger] iv[j]),
            forall|j: int| 0 <= j < i ==> vstd::utf8::encode_utf8(#[trigger] out@[j]@) == iv[j],
            forall|j: int| 0 <= j < i ==> file_index.view_map().contains_key(#[trigger] out@[j]@),
            forall|j: int| 0 <= j < iv.len() ==> tex_or_bbl(#[trigger] iv[j]),
            forall|j: int| 0 <= j < i ==> tex_or_bbl(vstd::utf8::encode_utf8(#[trigger] out@[j]@)),
        decreases included.len() - i,
    {
        let st = string_from_bytes(included[i].as_slice());
        proof {
            assert(index_has_key(file_index, iv[i as int]));
            let e = file_index.entry_seq();
            let w = choose|w: int| 0 <= w < e.len() && vstd::utf8::encode_utf8(#[trigger] e[w].0) == iv[i as int];
            vstd::utf8::encode_utf8_valid_utf8(e[w].0);
            vstd::utf8::encode_utf8_decode_utf8(e[w].0);
            assert(included@[i as int]@ == iv[i as int]);
            assert(st@ == e[w].0);
        }
        out.push(st);
        i = i + 1;
    }
    out
}

/// `a` sorts strictly before `b` byte-wise (as `str` ordering does).
pub open spec fn lex_lt(a: Seq<u8>, b: Seq<u8>) -> bool
    decreases a.len(),
{
    if b.len() == 0 {
        false
    } else if a.len() == 0 {
        true
    } else if a[0] != b[0] {
        a[0] < b[0]
    } else {
        lex_lt(a.drop_first(), b.drop_first())
    }
}

/// Byte-wise `a < b`.
pub fn bytes_lt(a: &[u8], b: &[u8]) -> (res: bool)
    ensures
        res == lex_lt(a@, b@),
{
    let mut i: usize = 0;
    assert(a@.subrange(0, a@.len() as int) =~= a@);
    assert(b@.subrange(0, b@.len() as int) =~= b@);
    while i < a.len() && i < b.len() && a[i] == b[i]
        invariant
            i <= a.len(),
            i <= b.len(),
            lex_lt(a@.subrange(i as int, a@.len() as int), b@.subrange(i as int, b@.len() as int)) == lex_lt(a@, b@),
        decreases a.len() - i,
    {
        assert(a@.subrange(i as int, a@.len() as int).drop_first() =~= a@.subrange(i + 1, a@.len() as int));
        assert(b@.subrange(i as int, b@.len() as int).drop_first() =~= b@.subrange(i + 1, b@.len() as int));
        i = i + 1;
    }
    assert(lex_lt(a@, b@) == lex_lt(a@.subrange(i as int, a@.len() as int), b@.subrange(i as int, b@.len() as int)));
    if i == b.len() {
        false
    } else if i == a.len() {
        true
    } else {
        assert(a@.subrange(i as int, a@.len() as int)[0] == a@[i as int]);
        assert(b@.subrange(i as int, b@.len() as int)[0] == b@[i as int]);
        a[i] < b[i]
    }
}

/// Name and content of each file.
pub open spec fn file_views(s: Seq<TexFile>) -> Seq<(Seq<char>, Seq<char>)> {
    s.map_values(|f: TexFile| (f.name@, f.content@))
}

/// A file of this name is among the included paths, by its name or by its
/// resolved path.
pub open spec fn referenced(inc: Seq<Seq<u8>>, name: Seq<u8>) -> bool {
    inc.contains(name) || inc.contains(resolved_path(name))
}

/// The first `n` files other than `main` that are not referenced from
/// `inc` and are not templates, in the order given.
pub open spec fn unreferenced_files(files: Seq<TexFile>, main: int, inc: Seq<Seq<u8>>, n: int) -> Seq<
    (Seq<char>, Seq<char>),
>
    decreases n,
{
    if n <= 0 {
        Seq::empty()
    } else {
        let r = unreferenced_files(files, main, inc, n - 1);
        let f = files[n - 1];
        if n - 1 != main && !referenced(inc, sb(f.name)) && !is_template(sb(f.name), sb(f.content)) {
            r.push((f.name@, f.content@))
        } else {
            r
        }
    }
}

/// `v` with `f` inserted after every file whose name does not sort after
/// its name.
pub open spec fn insert_named(v: Seq<(Seq<char>, Seq<char>)>, f: (Seq<char>, Seq<char>)) -> Seq<
    (Seq<char>, Seq<char>),
>
    decreases v.len(),
{
    if v.len() == 0 {
        seq![f]
    } else if !lex_lt(vstd::utf8::encode_utf8(f.0), vstd::utf8::encode_utf8(v.last().0)) {
        v.push(f)
    } else {
        insert_named(v.drop_last(), f).push(v.last())
    }
}

/// Stable sort by name.
pub open spec fn sorted_by_name(s: Seq<(Seq<char>, Seq<char>)>) -> Seq<(Seq<char>, Seq<char>)>
    decreases s.len(),
{
    if s.len() == 0 {
        s
    } else {
        insert_named(sorted_by_name(s.drop_last()), s.last())
    }
}

/// The root files of a paper, by name and content: the only file as it
/// is; otherwise the main file with its includes inlined, then the other
/// files that it does not include and that are not templates, by name.
pub open spec fn ordered_roots(files: Seq<TexFile>) -> Seq<(Seq<char>, Seq<char>)> {
    if files.len() == 0 {
        Seq::empty()
    } else if files.len() == 1 {
        seq![(files[0].name@, files[0].content@)]
    } else {
        let m = main_file_index(files);
        let e = file_index_of(files, files.len() as int);
        let main = sb(files[m].content);
        seq![(files[m].name@, utf8_lossy(resolve_content(e, main, Seq::empty(), 0, 20).0))] + sorted_by_name(
            unreferenced_files(files, m, collect_content(e, main, Seq::empty(), 0, 20), files.len() as int),
        )
    }
}

/// Resolve inputs and return the root files to process: the main file
/// (with its includes inlined) first, then every other file that the main
/// file does not include and that is not a template, ordered by name.
pub fn resolve_and_order(files: &[TexFile]) -> (res: Vec<TexFile>)
    ensures
        file_views(res@) == ordered_roots(files@),
{
    if files.len() == 0 {
        let v: Vec<TexFile> = Vec::new();
        assert(file_views(v@) =~= ordered_roots(files@));
        return v;
    }
    if files.len() == 1 {
        let mut v: Vec<TexFile> = Vec::new();
        v.push(files[0].clone());
        assert(file_views(v@) =~= ordered_roots(files@));
        return v;
    }
    let main_idx = find_main_file(files);
    proof {
        lemma_main_index_bounds(files@);
    }
    let index = build_file_index(files);
    let included = included_paths(files[main_idx].content.as_str().as_bytes(), &index);
    let resolved_main = resolve_inputs(files[main_idx].content.as_str(), &index, 20);
    let mut result: Vec<TexFile> = Vec::new();
    result.push(TexFile { name: files[main_idx].name.clone(), content: resolved_main });
    let ghost head = file_views(result@);
    let others = collect_others(files, main_idx, &included);
    let ghost ov = file_views(others@);
    let mut j: usize = 0;
    while j < others.len()
        invariant
            j <= others.len(),
            ov == file_views(others@),
            file_views(result@) == head + ov.subrange(0, j as int),
        decreases others.len() - j,
    {
        let c = others[j].clone();
        let ghost before = file_views(result@);
        result.push(c);
        assert(file_views(result@) =~= before.push(ov[j as int]));
        assert(ov.subrange(0, j + 1) =~= ov.subrange(0, j as int).push(ov[j as int]));
        j = j + 1;
    }
    assert(ov.subrange(0, others.len() as int) =~= ov);
    assert(file_views(result@) =~= ordered_roots(files@));
    result
}

proof fn lemma_main_index_bounds(fs: Seq<TexFile>)
    requires
        fs.len() > 0,
    ensures
        0 <= main_file_index(fs) < fs.len(),
{
    if has_candidate(fs, 0) {
        let w = choose|i: int| 0 <= i < fs.len() && #[trigger] candidate(fs, 0, i);
        lemma_first_exists(fs, 0, w);
    } else if has_candidate(fs, 1) {
        let w = choose|i: int| 0 <= i < fs.len() && #[trigger] candidate(fs, 1, i);
        lemma_first_exists(fs, 1, w);
    } else if has_candidate(fs, 2) {
        let w = choose|i: int| 0 <= i < fs.len() && #[trigger] candidate(fs, 2, i);
        lemma_first_exists(fs, 2, w);
    } else if exists|i: int| #[trigger] first_by_name(fs, i) {
        let k = choose|i: int| #[trigger] first_by_name(fs, i);
        assert(first_by_name(fs, k));
    }
}

/// A candidate has a first candidate.
proof fn lemma_first_exists(fs: Seq<TexFile>, k: int, w: int)
    requires
        0 <= w < fs.len(),
        candidate(fs, k, w),
    ensures
        0 <= first_candidate(fs, k) < fs.len(),
        candidate(fs, k, first_candidate(fs, k)),
        forall|j: int| 0 <= j < first_candidate(fs, k) ==> !#[trigger] candidate(fs, k, j),
    decreases w,
{
    if exists|j: int| 0 <= j < w && #[trigger] candidate(fs, k, j) {
        let j = choose|j: int| 0 <= j < w && #[trigger] candidate(fs, k, j);
        lemma_first_exists(fs, k, j);
    } else {
        lemma_first_candidate(fs, k, w);
    }
}

/// The files other than the main one that the main file does not include
/// and that are not templates, ordered by name.
fn collect_others(files: &[TexFile], main_idx: usize, included: &Vec<Vec<u8>>) -> (res: Vec<TexFile>)
    requires
        main_idx < files.len(),
    ensures
        file_views(res@) == sorted_by_name(
            unreferenced_files(files@, main_idx as int, crate::scan::rows_view(included@), files@.len() as int),
        ),
{
    let ghost inc = crate::scan::rows_view(included@);
    let mut others: Vec<TexFile> = Vec::new();
    let mut i: usize = 0;
    while i < files.len()
        invariant
            i <= files.len(),
            main_idx < files.len(),
            inc == crate::scan::rows_view(included@),
            file_views(others@) == sorted_by_name(unreferenced_files(files@, main_idx as int, inc, i as int)),
        decreases files.len() - i,
    {
        let f = &files[i];
        let ghost prev = unreferenced_files(files@, main_idx as int, inc, i as int);
        if i != main_idx {
            let name = f.name.as_str().as_bytes();
            let rp = resolve_path(name);
            let mut referenced_here = false;
            let mut k: usize = 0;
            while k < included.len()
                invariant
                    k <= included.len(),
                    inc == crate::scan::rows_view(included@),
                    referenced_here == exists|q: int| 0 <= q < k && (inc[q] == name@ || inc[q] == rp@),
                decreases included.len() - k,
            {
                let x = included[k].as_slice();
                assert(inc[k as int] == x@);
                if bytes_eq(x, name) || bytes_eq(x, rp.as_slice()) {
                    referenced_here = true;
                }
                k = k + 1;
            }
            proof {
                if inc.contains(name@) {
                    let q = choose|q: int| 0 <= q < inc.len() && inc[q] == name@;
                    assert(inc[q] == name@);
                }
                if inc.contains(rp@) {
                    let q = choose|q: int| 0 <= q < inc.len() && inc[q] == rp@;
                    assert(inc[q] == rp@);
                }
                if referenced_here {
                    let q = choose|q: int| 0 <= q < k && (inc[q] == name@ || inc[q] == rp@);
                    assert(inc.contains(inc[q]));
                }
                assert(referenced_here == referenced(inc, sb(files@[i as int].name)));
            }
            if !referenced_here && !is_template_file(f) {
                let c = f.clone();
                insert_by_name(&mut others, c);
                proof {
                    let fv = (files@[i as int].name@, files@[i as int].content@);
                    assert(unreferenced_files(files@, main_idx as int, inc, i + 1) == prev.push(fv));
                    assert(prev.push(fv).drop_last() =~= prev);
                }
            }
        }
        i = i + 1;
    }
    others
}

proof fn lemma_insert_named_at(s: Seq<(Seq<char>, Seq<char>)>, x: (Seq<char>, Seq<char>), p: int)
    requires
        0 <= p <= s.len(),
        p == 0 || !lex_lt(vstd::utf8::encode_utf8(x.0), vstd::utf8::encode_utf8(s[p - 1].0)),
        forall|i: int|
            p <= i < s.len() ==> lex_lt(vstd::utf8::encode_utf8(x.0), vstd::utf8::encode_utf8(#[trigger] s[i].0)),
    ensures
        insert_named(s, x) == s.subrange(0, p) + seq![x] + s.subrange(p, s.len() as int),
    decreases s.len(),
{
    if s.len() == 0 {
        assert(seq![x] =~= s.subrange(0, p) + seq![x] + s.subrange(p, s.len() as int));
    } else if !lex_lt(vstd::utf8::encode_utf8(x.0), vstd::utf8::encode_utf8(s.last().0)) {
        assert(p == s.len());
        assert(s.push(x) =~= s.subrange(0, p) + seq![x] + s.subrange(p, s.len() as int));
    } else {
        let d = s.drop_last();
        lemma_insert_named_at(d, x, p);
        assert(insert_named(d, x).push(s.last()) =~= s.subrange(0, p) + seq![x] + s.subrange(p, s.len() as int));
    }
}

/// Insert `f` into `v` after every file whose name does not sort after it.
fn insert_by_name(v: &mut Vec<TexFile>, f: TexFile)
    ensures
        file_views(final(v)@) == insert_named(file_views(old(v)@), (f.name@, f.content@)),
{
    let ghost s = file_views(v@);
    let ghost xv = (f.name@, f.content@);
    let mut p = v.len();
    while p > 0 && bytes_lt(f.name.as_str().as_bytes(), v[p - 1].name.as_str().as_bytes())
        invariant
            p <= v.len(),
            s == file_views(v@),
            xv == (f.name@, f.content@),
            forall|i: int|
                p <= i < s.len() ==> lex_lt(vstd::utf8::encode_utf8(xv.0), vstd::utf8::encode_utf8(#[trigger] s[i].0)),
        decreases p,
    {
        assert(s[p - 1].0 == v@[p - 1].name@);
        p = p - 1;
    }
    proof {
        if p > 0 {
            assert(s[p - 1].0 == v@[p - 1].name@);
        }
        lemma_insert_named_at(s, xv, p as int);
    }
    v.insert(p, f);
    assert(file_views(v@) =~= s.subrange(0, p as int) + seq![xv] + s.subrange(p as int, s.len() as int));
}


/// `a` does not sort after `b` by name.
pub open spec fn name_le(a: (Seq<char>, Seq<char>), b: (Seq<char>, Seq<char>)) -> bool {
    !lex_lt(vstd::utf8::encode_utf8(b.0), vstd::utf8::encode_utf8(a.0))
}

/// Ordered by name.
pub open spec fn name_sorted(s: Seq<(Seq<char>, Seq<char>)>) -> bool {
    forall|i: int, j: int| 0 <= i < j < s.len() ==> name_le(#[trigger] s[i], #[trigger] s[j])
}

proof fn lemma_lex_trichotomy(a: Seq<u8>, b: Seq<u8>)
    ensures
        lex_lt(a, b) || lex_lt(b, a) || a == b,
        !(lex_lt(a, b) && lex_lt(b, a)),
    decreases a.len(),
{
    if a.len() == 0 || b.len() == 0 {
        if a.len() == 0 && b.len() == 0 {
            assert(a =~= b);
        }
    } else if a[0] != b[0] {
    } else {
        lemma_lex_trichotomy(a.drop_first(), b.drop_first());
        if a.drop_first() == b.drop_first() {
            assert forall|i: int| 0 <= i < a.len() implies a[i] == b[i] by {
                if i > 0 {
                    assert(a[i] == a.drop_first()[i - 1]);
                    assert(b[i] == b.drop_first()[i - 1]);
                }
            }
            assert(a =~= b);
        }
    }
}

proof fn lemma_lex_trans(a: Seq<u8>, b: Seq<u8>, c: Seq<u8>)
    requires
        lex_lt(a, b),
        lex_lt(b, c),
    ensures
        lex_lt(a, c),
    decreases a.len(),
{
    if a.len() > 0 && a[0] == b[0] && b[0] == c[0] {
        lemma_lex_trans(a.drop_first(), b.drop_first(), c.drop_first());
    }
}

proof fn lemma_name_le_trans(a: (Seq<char>, Seq<char>), b: (Seq<char>, Seq<char>), c: (Seq<char>, Seq<char>))
    requires
        name_le(a, b),
        name_le(b, c),
    ensures
        name_le(a, c),
{
    let (ea, eb, ec) = (vstd::utf8::encode_utf8(a.0), vstd::utf8::encode_utf8(b.0), vstd::utf8::encode_utf8(c.0));
    lemma_lex_trichotomy(ea, eb);
    if lex_lt(ec, ea) && lex_lt(ea, eb) {
        lemma_lex_trans(ec, ea, eb);
    }
}

/// Where `insert_named` puts its file.
proof fn lemma_insert_named_pos(v: Seq<(Seq<char>, Seq<char>)>, x: (Seq<char>, Seq<char>)) -> (p: int)
    ensures
        0 <= p <= v.len(),
        insert_named(v, x) == v.insert(p, x),
        p == 0 || name_le(v[p - 1], x),
        forall|i: int| p <= i < v.len() ==> lex_lt(vstd::utf8::encode_utf8(x.0), vstd::utf8::encode_utf8(#[trigger] v[i].0)),
    decreases v.len(),
{
    if v.len() == 0 {
        assert(seq![x] =~= v.insert(0, x));
        0
    } else if !lex_lt(vstd::utf8::encode_utf8(x.0), vstd::utf8::encode_utf8(v.last().0)) {
        assert(v.push(x) =~= v.insert(v.len() as int, x));
        v.len() as int
    } else {
        let d = v.drop_last();
        let q = lemma_insert_named_pos(d, x);
        assert(insert_named(d, x).push(v.last()) =~= v.insert(q, x));
        assert forall|i: int| q <= i < v.len() implies lex_lt(
            vstd::utf8::encode_utf8(x.0),
            vstd::utf8::encode_utf8(#[trigger] v[i].0),
        ) by {
            if i < d.len() {
                assert(v[i] == d[i]);
            }
        }
        q
    }
}

proof fn lemma_insert_named_sorted(v: Seq<(Seq<char>, Seq<char>)>, x: (Seq<char>, Seq<char>))
    requires
        name_sorted(v),
    ensures
        name_sorted(insert_named(v, x)),
        insert_named(v, x).to_multiset() == v.to_multiset().insert(x),
{
    let p = lemma_insert_named_pos(v, x);
    let w = v.insert(p, x);
    vstd::seq_lib::to_multiset_insert(v, p, x);
    assert forall|i: int, j: int| 0 <= i < j < w.len() implies name_le(#[trigger] w[i], #[trigger] w[j]) by {
        if j < p {
            assert(name_le(v[i], v[j]));
        } else if j == p {
            if i < p - 1 {
                assert(name_le(v[i], v[p - 1]));
                lemma_name_le_trans(v[i], v[p - 1], x);
            }
        } else if i < p {
            assert(name_le(v[i], v[j - 1]));
        } else if i == p {
            assert(lex_lt(vstd::utf8::encode_utf8(x.0), vstd::utf8::encode_utf8(v[j - 1].0)));
            lemma_lex_trichotomy(vstd::utf8::encode_utf8(x.0), vstd::utf8::encode_utf8(v[j - 1].0));
        } else {
            assert(name_le(v[i - 1], v[j - 1]));
        }
    }
}

/// Sorting by name orders the files and keeps each of them.
proof fn lemma_sorted_by_name(s: Seq<(Seq<char>, Seq<char>)>)
    ensures
        name_sorted(sorted_by_name(s)),
        sorted_by_name(s).to_multiset() == s.to_multiset(),
    decreases s.len(),
{
    if s.len() == 0 {
        assert(name_sorted(s));
    } else {
        let d = s.drop_last();
        lemma_sorted_by_name(d);
        lemma_insert_named_sorted(sorted_by_name(d), s.last());
        vstd::seq_lib::to_multiset_build(d, s.last());
        assert(d.push(s.last()) =~= s);
    }
}

/// The root files after the main one are ordered by name, and they are
/// exactly the other files that the main file does not include and that
/// are not templates.
pub proof fn law_roots_after_main_sorted(files: Seq<TexFile>)
    requires
        files.len() > 1,
    ensures
        name_sorted(ordered_roots(files).skip(1)),
        ordered_roots(files).skip(1).to_multiset() == unreferenced_files(
            files,
            main_file_index(files),
            collect_content(
                file_index_of(files, files.len() as int),
                sb(files[main_file_index(files)].content),
                Seq::empty(),
                0,
                20,
            ),
            files.len() as int,
        ).to_multiset(),
{
    let m = main_file_index(files);
    let e = file_index_of(files, files.len() as int);
    let main = sb(files[m].content);
    let u = unreferenced_files(files, m, collect_content(e, main, Seq::empty(), 0, 20), files.len() as int);
    lemma_sorted_by_name(u);
    let head = seq![(files[m].name@, utf8_lossy(resolve_content(e, main, Seq::empty(), 0, 20).0))];
    assert((head + sorted_by_name(u)).skip(1) =~= sorted_by_name(u));
}

/// Some file comes first alphabetically in a non-empty prefix.
proof fn lemma_min_name(fs: Seq<TexFile>, n: int) -> (b: int)
    requires
        1 <= n <= fs.len(),
    ensures
        0 <= b < n,
        forall|m: int| 0 <= m < n ==> !lex_lt(sb(#[trigger] fs[m].name), sb(fs[b].name)),
        forall|m: int| 0 <= m < b ==> lex_lt(sb(fs[b].name), sb(#[trigger] fs[m].name)),
    decreases n,
{
    if n == 1 {
        lemma_lex_trichotomy(sb(fs[0].name), sb(fs[0].name));
        0
    } else {
        let p = lemma_min_name(fs, n - 1);
        let j = n - 1;
        let nj = sb(fs[j].name);
        let nb = sb(fs[p].name);
        if lex_lt(nj, nb) {
            assert forall|m: int| 0 <= m < n implies !lex_lt(sb(#[trigger] fs[m].name), nj) by {
                if m < j {
                    if lex_lt(sb(fs[m].name), nj) {
                        lemma_lex_trans(sb(fs[m].name), nj, nb);
                    }
                } else {
                    lemma_lex_trichotomy(nj, nj);
                }
            }
            assert forall|m: int| 0 <= m < j implies lex_lt(nj, sb(#[trigger] fs[m].name)) by {
                let nm = sb(fs[m].name);
                lemma_lex_trichotomy(nb, nm);
                if lex_lt(nb, nm) {
                    lemma_lex_trans(nj, nb, nm);
                }
            }
            j
        } else {
            p
        }
    }
}

/// The main file is the earliest file with both `\documentclass` and
/// `\begin{document}`; failing that the earliest with `\documentclass`;
/// failing that the earliest with `\begin{document}`; failing that the
/// first file alphabetically.
pub proof fn law_main_file_priority(files: Seq<TexFile>)
    requires
        files.len() > 0,
    ensures
        0 <= main_file_index(files) < files.len(),
        has_candidate(files, 0) ==> candidate(files, 0, main_file_index(files)) && forall|j: int|
            0 <= j < main_file_index(files) ==> !#[trigger] candidate(files, 0, j),
        !has_candidate(files, 0) && has_candidate(files, 1) ==> candidate(files, 1, main_file_index(files))
            && forall|j: int| 0 <= j < main_file_index(files) ==> !#[trigger] candidate(files, 1, j),
        !has_candidate(files, 0) && !has_candidate(files, 1) && has_candidate(files, 2) ==> candidate(
            files,
            2,
            main_file_index(files),
        ) && forall|j: int| 0 <= j < main_file_index(files) ==> !#[trigger] candidate(files, 2, j),
        !has_candidate(files, 0) && !has_candidate(files, 1) && !has_candidate(files, 2) ==> first_by_name(
            files,
            main_file_index(files),
        ),
{
    if has_candidate(files, 0) {
        let w = choose|i: int| 0 <= i < files.len() && #[trigger] candidate(files, 0, i);
        lemma_first_exists(files, 0, w);
    } else if has_candidate(files, 1) {
        let w = choose|i: int| 0 <= i < files.len() && #[trigger] candidate(files, 1, i);
        lemma_first_exists(files, 1, w);
    } else if has_candidate(files, 2) {
        let w = choose|i: int| 0 <= i < files.len() && #[trigger] candidate(files, 2, i);
        lemma_first_exists(files, 2, w);
    } else {
        let b = lemma_min_name(files, files.len() as int);
        assert(first_by_name(files, b));
        let k = choose|i: int| #[trigger] first_by_name(files, i);
        lemma_first_by_name_unique(files, b, k);
    }
}

} // verus!
