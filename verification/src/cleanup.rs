//! The final cleanup pass and the removal of commands that would collide
//! with accent conversion.

use vstd::prelude::*;
use vstd::string::StringSliceAdditionalSpecFns;
use crate::braces::{
    braced_group, braced_group_bytes, command_arg, command_arg_bytes, command_end,
    command_end_bytes, is_alpha, is_alpha_byte, lemma_closing_brace_bounds,
    lemma_letters_end_bounds, lemma_skip_blanks_bounds, letters_end, skip_blanks,
};
use crate::environments::{math_env_list, math_envs};
use crate::regexes::{re_replace, re_replace_bytes};
use crate::scan::{
    bytes_ends_with, bytes_in_list, bytes_starts_with, ends_with, find_bytes, find_from, in_list,
    lemma_find_from_bounds, match_at, push_all, push_range, replace_all_spec, replace_bytes,
    starts_with, trim_ws, trim_ws_range,
};
use crate::text::{string_from_bytes, utf8_lossy};

verus! {

pub const BEGIN_OPEN: &'static str = "\\begin{";

pub const END_OPEN: &'static str = "\\end{";

pub const CLOSE_BRACE: &'static str = "}";

/// The closing piece of a marker is one byte long.
pub proof fn lemma_marker_lengths()
    ensures
        CLOSE_BRACE.spec_bytes().len() == 1,
{
    reveal_strlit("}");
    assert(CLOSE_BRACE@.len() == 1);
    assert(vstd::string::is_ascii(CLOSE_BRACE));
    vstd::string::is_ascii_spec_bytes(CLOSE_BRACE);
}

/// `\begin{env}`.
pub open spec fn begin_pat(env: Seq<u8>) -> Seq<u8> {
    BEGIN_OPEN.spec_bytes() + env + CLOSE_BRACE.spec_bytes()
}

/// `\end{env}`.
pub open spec fn end_pat(env: Seq<u8>) -> Seq<u8> {
    END_OPEN.spec_bytes() + env + CLOSE_BRACE.spec_bytes()
}

/// A region as a pair of positions.
pub open spec fn region_view(r: (usize, usize)) -> (int, int) {
    (r.0 as int, r.1 as int)
}

/// Regions as pairs of positions.
pub open spec fn regions_view(v: Seq<(usize, usize)>) -> Seq<(int, int)> {
    v.map_values(|r: (usize, usize)| region_view(r))
}

/// First `k >= j` such that `b[k]` is a backslash and `b[k + 1]` is `c`.
pub open spec fn find_escaped(b: Seq<u8>, j: int, c: u8) -> Option<int>
    decreases b.len() - j,
{
    if j < 0 || j + 1 >= b.len() {
        None
    } else if b[j] == 0x5c && b[j + 1] == c {
        Some(j)
    } else {
        find_escaped(b, j + 1, c)
    }
}

pub proof fn lemma_find_escaped(b: Seq<u8>, j: int, c: u8)
    ensures
        find_escaped(b, j, c) matches Some(k) ==> j <= k && k + 1 < b.len() && b[k] == 0x5c
            && b[k + 1] == c,
    decreases b.len() - j,
{
    if !(j < 0 || j + 1 >= b.len()) && !(b[j] == 0x5c && b[j + 1] == c) {
        lemma_find_escaped(b, j + 1, c);
    }
}

/// End (exclusive) of a `$`-delimited math region whose body starts at
/// `j`: a backslash-dollar inside is skipped, and a `$$` region closes only
/// at `$$`.
pub open spec fn dollar_close(b: Seq<u8>, j: int, double: bool) -> Option<int>
    decreases b.len() - j,
{
    if j < 0 || j >= b.len() {
        None
    } else if b[j] == 0x5c && j + 1 < b.len() && b[j + 1] == 0x24 {
        dollar_close(b, j + 2, double)
    } else if b[j] == 0x24 {
        if double {
            if j + 1 < b.len() && b[j + 1] == 0x24 {
                Some(j + 2)
            } else {
                dollar_close(b, j + 1, double)
            }
        } else {
            Some(j + 1)
        }
    } else {
        dollar_close(b, j + 1, double)
    }
}

pub proof fn lemma_dollar_close(b: Seq<u8>, j: int, double: bool)
    ensures
        dollar_close(b, j, double) matches Some(e) ==> j < e <= b.len(),
    decreases b.len() - j,
{
    if j < 0 || j >= b.len() {
    } else if b[j] == 0x5c && j + 1 < b.len() && b[j + 1] == 0x24 {
        lemma_dollar_close(b, j + 2, double);
    } else if b[j] == 0x24 {
        if double && !(j + 1 < b.len() && b[j + 1] == 0x24) {
            lemma_dollar_close(b, j + 1, double);
        }
    } else {
        lemma_dollar_close(b, j + 1, double);
    }
}

/// The delimited math regions found scanning from `i`: `$..$`, `$$..$$`,
/// `\(..\)` and `\[..\]`; a backslash always takes the byte after it, so
/// `\$` is no delimiter.
pub open spec fn math_scan(b: Seq<u8>, i: int) -> Seq<(int, int)>
    decreases b.len() - i,
{
    if i < 0 || i >= b.len() {
        Seq::empty()
    } else if b[i] == 0x5c && i + 1 < b.len() {
        if b[i + 1] == 0x28 || b[i + 1] == 0x5b {
            let close: u8 = if b[i + 1] == 0x28 {
                0x29
            } else {
                0x5d
            };
            proof {
                lemma_find_escaped(b, i + 2, close);
            }
            match find_escaped(b, i + 2, close) {
                Some(k) => seq![(i, k + 2)] + math_scan(b, k + 2),
                None => math_scan(
                    b,
                    if i + 3 < b.len() {
                        b.len() - 1
                    } else {
                        i + 2
                    },
                ),
            }
        } else {
            math_scan(b, i + 2)
        }
    } else if b[i] == 0x24 {
        let double = i + 1 < b.len() && b[i + 1] == 0x24;
        let body = if double {
            i + 2
        } else {
            i + 1
        };
        proof {
            lemma_dollar_close(b, body, double);
        }
        match dollar_close(b, body, double) {
            Some(e) => seq![(i, e)] + math_scan(b, e),
            None => Seq::empty(),
        }
    } else {
        math_scan(b, i + 1)
    }
}

/// The regions of one named environment: each `\begin{env}` with the first
/// `\end{env}` after it, searching on after that end.
pub open spec fn env_regions_from(b: Seq<u8>, bp: Seq<u8>, ep: Seq<u8>, s: int) -> Seq<(int, int)>
    decreases b.len() + 1 - s,
{
    if s < 0 || ep.len() == 0 || s > b.len() {
        Seq::empty()
    } else {
        proof {
            lemma_find_from_bounds(b, bp, s);
        }
        match find_from(b, bp, s) {
            None => Seq::empty(),
            Some(p) => {
                proof {
                    lemma_find_from_bounds(b, ep, p);
                }
                match find_from(b, ep, p) {
                    None => Seq::empty(),
                    Some(q) => seq![(p, q + ep.len())] + env_regions_from(b, bp, ep, q + ep.len()),
                }
            },
        }
    }
}

/// The regions of the first `n` named math environments, in list order.
pub open spec fn envs_regions(b: Seq<u8>, envs: Seq<&'static str>, n: int) -> Seq<(int, int)>
    decreases n,
{
    if n <= 0 {
        Seq::empty()
    } else {
        envs_regions(b, envs, n - 1) + env_regions_from(
            b,
            begin_pat(envs[n - 1].spec_bytes()),
            end_pat(envs[n - 1].spec_bytes()),
            0,
        )
    }
}

/// `x` inserted into `s` after every region that does not start later.
pub open spec fn insert_region(s: Seq<(int, int)>, x: (int, int)) -> Seq<(int, int)>
    decreases s.len(),
{
    if s.len() == 0 {
        seq![x]
    } else if s.last().0 <= x.0 {
        s.push(x)
    } else {
        insert_region(s.drop_last(), x).push(s.last())
    }
}

/// Stable sort of regions by start.
pub open spec fn sort_regions(s: Seq<(int, int)>) -> Seq<(int, int)>
    decreases s.len(),
{
    if s.len() == 0 {
        s
    } else {
        insert_region(sort_regions(s.drop_last()), s.last())
    }
}

/// Merge regions in order: one that starts at or before the end of the
/// last merged region extends it.
pub open spec fn merge_regions(r: Seq<(int, int)>) -> Seq<(int, int)>
    decreases r.len(),
{
    if r.len() == 0 {
        Seq::empty()
    } else {
        let m = merge_regions(r.drop_last());
        let x = r.last();
        if m.len() > 0 && x.0 <= m.last().1 {
            m.update(
                m.len() - 1,
                (
                    m.last().0,
                    if m.last().1 >= x.1 {
                        m.last().1
                    } else {
                        x.1
                    },
                ),
            )
        } else {
            m.push(x)
        }
    }
}

/// The math regions of a text: delimited ones and named math environments,
/// sorted by start and merged.
pub open spec fn math_regions(b: Seq<u8>) -> Seq<(int, int)> {
    merge_regions(
        sort_regions(math_scan(b, 0) + envs_regions(b, math_envs(), math_envs().len() as int)),
    )
}

/// Regions are sorted, non-empty where they start, and pairwise apart: each
/// ends before the next begins.
pub open spec fn separated(r: Seq<(int, int)>) -> bool {
    &&& forall|k: int| 0 <= k < r.len() ==> (#[trigger] r[k]).0 <= r[k].1
    &&& forall|k: int, l: int| 0 <= k < l < r.len() ==> (#[trigger] r[k]).1 < (#[trigger] r[l]).0
}

/// Regions sorted by start, each ending at or before the next begins
/// (they may touch).
pub open spec fn ordered_regions(r: Seq<(int, int)>) -> bool {
    &&& forall|k: int| 0 <= k < r.len() ==> (#[trigger] r[k]).0 <= r[k].1
    &&& forall|k: int, l: int| 0 <= k < l < r.len() ==> (#[trigger] r[k]).1 <= (#[trigger] r[l]).0
}

/// Every region lies within `0..len`.
pub open spec fn within(r: Seq<(int, int)>, len: int) -> bool {
    forall|k: int| 0 <= k < r.len() ==> 0 <= (#[trigger] r[k]).0 && r[k].1 <= len
}

/// Every region is non-empty and within `0..len`.
pub open spec fn proper(r: Seq<(int, int)>, len: int) -> bool {
    forall|k: int| 0 <= k < r.len() ==> 0 <= (#[trigger] r[k]).0 < r[k].1 <= len
}

proof fn lemma_math_scan_proper(b: Seq<u8>, i: int)
    requires
        0 <= i,
    ensures
        proper(math_scan(b, i), b.len() as int),
        forall|k: int| 0 <= k < math_scan(b, i).len() ==> i <= (#[trigger] math_scan(b, i)[k]).0,
    decreases b.len() - i,
{
    if i < 0 || i >= b.len() {
    } else if b[i] == 0x5c && i + 1 < b.len() {
        if b[i + 1] == 0x28 || b[i + 1] == 0x5b {
            let close: u8 = if b[i + 1] == 0x28 {
                0x29
            } else {
                0x5d
            };
            lemma_find_escaped(b, i + 2, close);
            match find_escaped(b, i + 2, close) {
                Some(k) => {
                    lemma_math_scan_proper(b, k + 2);
                    let rest = math_scan(b, k + 2);
                    let all = seq![(i, k + 2)] + rest;
                    assert(math_scan(b, i) == all);
                    assert forall|m: int| 0 <= m < all.len() implies 0 <= (#[trigger] all[m]).0
                        < all[m].1 <= b.len() && i <= all[m].0 by {
                        if m > 0 {
                            assert(all[m] == rest[m - 1]);
                        }
                    }
                },
                None => {
                    let nx = if i + 3 < b.len() {
                        b.len() - 1
                    } else {
                        i + 2
                    };
                    lemma_math_scan_proper(b, nx);
                },
            }
        } else {
            lemma_math_scan_proper(b, i + 2);
        }
    } else if b[i] == 0x24 {
        let double = i + 1 < b.len() && b[i + 1] == 0x24;
        let body = if double {
            i + 2
        } else {
            i + 1
        };
        lemma_dollar_close(b, body, double);
        match dollar_close(b, body, double) {
            Some(e) => {
                lemma_math_scan_proper(b, e);
                let rest = math_scan(b, e);
                let all = seq![(i, e)] + rest;
                assert forall|m: int| 0 <= m < all.len() implies 0 <= (#[trigger] all[m]).0
                    < all[m].1 <= b.len() && i <= all[m].0 by {
                    if m > 0 {
                        assert(all[m] == rest[m - 1]);
                    }
                }
            },
            None => {},
        }
    } else {
        lemma_math_scan_proper(b, i + 1);
    }
}

proof fn lemma_env_regions_proper(b: Seq<u8>, bp: Seq<u8>, ep: Seq<u8>, s: int)
    ensures
        proper(env_regions_from(b, bp, ep, s), b.len() as int),
    decreases b.len() + 1 - s,
{
    if s < 0 || ep.len() == 0 || s > b.len() {
    } else {
        lemma_find_from_bounds(b, bp, s);
        match find_from(b, bp, s) {
            None => {},
            Some(p) => {
                lemma_find_from_bounds(b, ep, p);
                match find_from(b, ep, p) {
                    None => {},
                    Some(q) => {
                        lemma_env_regions_proper(b, bp, ep, q + ep.len());
                        let rest = env_regions_from(b, bp, ep, q + ep.len());
                        let all = seq![(p, q + ep.len())] + rest;
                        assert forall|m: int| 0 <= m < all.len() implies 0 <= (
                        #[trigger] all[m]).0 < all[m].1 <= b.len() by {
                            if m > 0 {
                                assert(all[m] == rest[m - 1]);
                            }
                        }
                    },
                }
            },
        }
    }
}

proof fn lemma_envs_regions_proper(b: Seq<u8>, envs: Seq<&'static str>, n: int)
    ensures
        proper(envs_regions(b, envs, n), b.len() as int),
    decreases n,
{
    if n > 0 {
        lemma_envs_regions_proper(b, envs, n - 1);
        let bp = begin_pat(envs[n - 1].spec_bytes());
        let ep = end_pat(envs[n - 1].spec_bytes());
        lemma_env_regions_proper(b, bp, ep, 0);
        let x = envs_regions(b, envs, n - 1);
        let y = env_regions_from(b, bp, ep, 0);
        assert forall|m: int| 0 <= m < (x + y).len() implies 0 <= (#[trigger] (x + y)[m]).0 < (x
            + y)[m].1 <= b.len() by {
            if m >= x.len() {
                assert((x + y)[m] == y[m - x.len()]);
            }
        }
    }
}

proof fn lemma_insert_region_proper(s: Seq<(int, int)>, x: (int, int), len: int)
    requires
        proper(s, len),
        0 <= x.0 < x.1 <= len,
    ensures
        proper(insert_region(s, x), len),
        insert_region(s, x).len() == s.len() + 1,
    decreases s.len(),
{
    if s.len() > 0 && s.last().0 > x.0 {
        lemma_insert_region_proper(s.drop_last(), x, len);
    }
}

proof fn lemma_sort_regions_proper(s: Seq<(int, int)>, len: int)
    requires
        proper(s, len),
    ensures
        proper(sort_regions(s), len),
    decreases s.len(),
{
    if s.len() > 0 {
        lemma_sort_regions_proper(s.drop_last(), len);
        lemma_insert_region_proper(sort_regions(s.drop_last()), s.last(), len);
    }
}

/// Merging yields sorted, pairwise separated regions within the bounds of
/// its (proper) input.
proof fn lemma_merge_separated(r: Seq<(int, int)>, len: int)
    requires
        proper(r, len),
    ensures
        separated(merge_regions(r)),
        within(merge_regions(r), len),
        proper(merge_regions(r), len),
        merge_regions(r).len() <= r.len(),
    decreases r.len(),
{
    if r.len() > 0 {
        let d = r.drop_last();
        assert(proper(d, len));
        lemma_merge_separated(d, len);
        let m = merge_regions(d);
        let x = r.last();
        if m.len() > 0 && x.0 <= m.last().1 {
            let e = if m.last().1 >= x.1 {
                m.last().1
            } else {
                x.1
            };
            let m2 = m.update(m.len() - 1, (m.last().0, e));
            assert forall|k: int, l: int| 0 <= k < l < m2.len() implies (#[trigger] m2[k]).1 < (
            #[trigger] m2[l]).0 by {
                assert(m2[k] == m[k]);
                assert(m2[l].0 == m[l].0);
            }
        } else {
            let m2 = m.push(x);
            assert forall|k: int, l: int| 0 <= k < l < m2.len() implies (#[trigger] m2[k]).1 < (
            #[trigger] m2[l]).0 by {
                assert(m2[k] == m[k]);
                if l < m.len() {
                    assert(m2[l] == m[l]);
                } else {
                    assert(m2[l] == x);
                    if k < m.len() - 1 {
                        assert(m[k].1 < m[m.len() - 1].0);
                    }
                }
            }
        }
    }
}

/// What `find_math_regions` promises: its regions are non-empty, sorted,
/// pairwise apart and within the text.
pub proof fn law_math_regions_separated(b: Seq<u8>)
    ensures
        separated(math_regions(b)),
        within(math_regions(b), b.len() as int),
        proper(math_regions(b), b.len() as int),
{
    lemma_math_scan_proper(b, 0);
    lemma_envs_regions_proper(b, math_envs(), math_envs().len() as int);
    let all = math_scan(b, 0) + envs_regions(b, math_envs(), math_envs().len() as int);
    let x = math_scan(b, 0);
    let y = envs_regions(b, math_envs(), math_envs().len() as int);
    assert forall|m: int| 0 <= m < all.len() implies 0 <= (#[trigger] all[m]).0 < all[m].1
        <= b.len() by {
        if m >= x.len() {
            assert(all[m] == y[m - x.len()]);
        } else {
            assert(all[m] == x[m]);
        }
    }
    lemma_sort_regions_proper(all, b.len() as int);
    lemma_merge_separated(sort_regions(all), b.len() as int);
}

fn find_escaped_bytes(b: &[u8], j: usize, c: u8) -> (res: Option<usize>)
    requires
        j <= b.len(),
    ensures
        find_escaped(b@, j as int, c) == match res {
            Some(k) => Some(k as int),
            None => None,
        },
{
    let mut k = j;
    while k < b.len() && k + 1 < b.len()
        invariant
            j <= k <= b.len(),
            find_escaped(b@, k as int, c) == find_escaped(b@, j as int, c),
        decreases b.len() - k,
    {
        if b[k] == 0x5c && b[k + 1] == c {
            return Some(k);
        }
        k = k + 1;
    }
    None
}

fn dollar_close_bytes(b: &[u8], j: usize, double: bool) -> (res: Option<usize>)
    requires
        j <= b.len(),
    ensures
        dollar_close(b@, j as int, double) == match res {
            Some(e) => Some(e as int),
            None => None,
        },
{
    let mut k = j;
    while k < b.len()
        invariant
            j <= k <= b.len(),
            dollar_close(b@, k as int, double) == dollar_close(b@, j as int, double),
        decreases b.len() - k,
    {
        if b[k] == 0x5c && k + 1 < b.len() && b[k + 1] == 0x24 {
            k = k + 2;
            continue;
        }
        if b[k] == 0x24 {
            if double {
                if k + 1 < b.len() && b[k + 1] == 0x24 {
                    return Some(k + 2);
                }
            } else {
                return Some(k + 1);
            }
        }
        k = k + 1;
    }
    None
}

/// The delimited math regions of `b`, in the order they are found.
fn delimited_regions(b: &[u8]) -> (res: Vec<(usize, usize)>)
    ensures
        regions_view(res@) == math_scan(b@, 0),
{
    let mut out: Vec<(usize, usize)> = Vec::new();
    let mut i: usize = 0;
    while i < b.len()
        invariant
            i <= b.len(),
            regions_view(out@) + math_scan(b@, i as int) == math_scan(b@, 0),
        decreases b.len() - i,
    {
        let ghost before = regions_view(out@);
        if b[i] == 0x5c && i + 1 < b.len() {
            if b[i + 1] == 0x28 || b[i + 1] == 0x5b {
                let close: u8 = if b[i + 1] == 0x28 {
                    0x29
                } else {
                    0x5d
                };
                proof {
                    lemma_find_escaped(b@, i + 2, close);
                }
                match find_escaped_bytes(b, i + 2, close) {
                    Some(k) => {
                        out.push((i, k + 2));
                        assert(regions_view(out@) =~= before.push((i as int, k + 2)));
                        assert(before + (seq![(i as int, k + 2)] + math_scan(b@, k + 2))
                            =~= regions_view(out@) + math_scan(b@, k + 2));
                        i = k + 2;
                    },
                    None => {
                        i = if b.len() - i > 3 {
                            b.len() - 1
                        } else {
                            i + 2
                        };
                    },
                }
            } else {
                i = i + 2;
            }
        } else if b[i] == 0x24 {
            let double = i + 1 < b.len() && b[i + 1] == 0x24;
            let body = if double {
                i + 2
            } else {
                i + 1
            };
            proof {
                lemma_dollar_close(b@, body as int, double);
            }
            match dollar_close_bytes(b, body, double) {
                Some(e) => {
                    out.push((i, e));
                    assert(regions_view(out@) =~= before.push((i as int, e as int)));
                    assert(before + (seq![(i as int, e as int)] + math_scan(b@, e as int))
                        =~= regions_view(out@) + math_scan(b@, e as int));
                    i = e;
                },
                None => {
                    assert(before + math_scan(b@, i as int) =~= before);
                    i = b.len();
                    assert(regions_view(out@) + math_scan(b@, i as int) =~= before);
                },
            }
        } else {
            i = i + 1;
        }
    }
    assert(regions_view(out@) + math_scan(b@, i as int) =~= regions_view(out@));
    out
}

/// `\begin{env}` or `\end{env}` as bytes.
fn env_marker(open: &str, env: &str) -> (res: Vec<u8>)
    ensures
        res@ == open.spec_bytes() + env.spec_bytes() + CLOSE_BRACE.spec_bytes(),
{
    let mut v: Vec<u8> = Vec::new();
    push_all(&mut v, open.as_bytes());
    push_all(&mut v, env.as_bytes());
    push_all(&mut v, CLOSE_BRACE.as_bytes());
    v
}

/// Append the regions of one named environment.
fn push_env_regions(b: &[u8], env: &str, out: &mut Vec<(usize, usize)>)
    ensures
        regions_view(final(out)@) == regions_view(old(out)@) + env_regions_from(
            b@,
            begin_pat(env.spec_bytes()),
            end_pat(env.spec_bytes()),
            0,
        ),
{
    let bp = env_marker(BEGIN_OPEN, env);
    let ep = env_marker(END_OPEN, env);
    let ghost base = regions_view(out@);
    if ep.len() == 0 {
        assert(base + env_regions_from(b@, bp@, ep@, 0) =~= base);
        return;
    }
    let mut search: usize = 0;
    while search <= b.len()
        invariant
            search <= b.len() + 1,
            base == regions_view(old(out)@),
            bp@ == begin_pat(env.spec_bytes()),
            ep@ == end_pat(env.spec_bytes()),
            ep@.len() > 0,
            search <= b.len() ==> base + env_regions_from(b@, bp@, ep@, 0) == regions_view(out@)
                + env_regions_from(b@, bp@, ep@, search as int),
            search > b.len() ==> base + env_regions_from(b@, bp@, ep@, 0) == regions_view(out@),
        decreases b.len() + 1 - search,
    {
        let ghost before = regions_view(out@);
        proof {
            lemma_find_from_bounds(b@, bp@, search as int);
        }
        match find_bytes(b, bp.as_slice(), search) {
            None => {
                assert(before + env_regions_from(b@, bp@, ep@, search as int) =~= before);
                return;
            },
            Some(p) => {
                proof {
                    lemma_find_from_bounds(b@, ep@, p as int);
                }
                match find_bytes(b, ep.as_slice(), p) {
                    None => {
                        assert(before + env_regions_from(b@, bp@, ep@, search as int) =~= before);
                        return;
                    },
                    Some(q) => {
                        let e = q + ep.len();
                        out.push((p, e));
                        assert(regions_view(out@) =~= before.push((p as int, e as int)));
                        assert(before + (seq![(p as int, e as int)] + env_regions_from(
                            b@,
                            bp@,
                            ep@,
                            e as int,
                        )) =~= regions_view(out@) + env_regions_from(b@, bp@, ep@, e as int));
                        search = e;
                    },
                }
            },
        }
    }
}

proof fn lemma_insert_region_at(s: Seq<(int, int)>, x: (int, int), p: int)
    requires
        0 <= p <= s.len(),
        p == 0 || s[p - 1].0 <= x.0,
        forall|i: int| p <= i < s.len() ==> (#[trigger] s[i]).0 > x.0,
    ensures
        insert_region(s, x) == s.subrange(0, p) + seq![x] + s.subrange(p, s.len() as int),
    decreases s.len(),
{
    if s.len() == 0 {
        assert(seq![x] =~= s.subrange(0, p) + seq![x] + s.subrange(p, s.len() as int));
    } else if s.last().0 <= x.0 {
        assert(s.push(x) =~= s.subrange(0, p) + seq![x] + s.subrange(p, s.len() as int));
    } else {
        let d = s.drop_last();
        lemma_insert_region_at(d, x, p);
        assert(insert_region(d, x).push(s.last()) =~= s.subrange(0, p) + seq![x] + s.subrange(
            p,
            s.len() as int,
        ));
    }
}

/// Insert `x` keeping `v` ordered by start (after equal starts).
fn insert_region_vec(v: &mut Vec<(usize, usize)>, x: (usize, usize))
    ensures
        regions_view(final(v)@) == insert_region(regions_view(old(v)@), region_view(x)),
{
    let ghost s = regions_view(v@);
    let mut p = v.len();
    while p > 0 && v[p - 1].0 > x.0
        invariant
            p <= v.len(),
            s == regions_view(v@),
            forall|i: int| p <= i < s.len() ==> (#[trigger] s[i]).0 > x.0,
        decreases p,
    {
        assert(s[p - 1].0 == v@[p - 1].0);
        p = p - 1;
    }
    proof {
        if p > 0 {
            assert(s[p - 1].0 == v@[p - 1].0);
        }
        lemma_insert_region_at(s, region_view(x), p as int);
    }
    v.insert(p, x);
    assert(regions_view(v@) =~= s.subrange(0, p as int) + seq![region_view(x)] + s.subrange(
        p as int,
        s.len() as int,
    ));
}

/// Stable sort of regions by start.
fn sort_regions_vec(v: &Vec<(usize, usize)>) -> (res: Vec<(usize, usize)>)
    ensures
        regions_view(res@) == sort_regions(regions_view(v@)),
{
    let mut out: Vec<(usize, usize)> = Vec::new();
    let mut i: usize = 0;
    while i < v.len()
        invariant
            i <= v.len(),
            regions_view(out@) == sort_regions(regions_view(v@).subrange(0, i as int)),
        decreases v.len() - i,
    {
        let ghost pre = regions_view(v@).subrange(0, i as int);
        let ghost next = regions_view(v@).subrange(0, i + 1);
        assert(next.drop_last() =~= pre);
        assert(next.last() == region_view(v@[i as int]));
        insert_region_vec(&mut out, v[i]);
        i = i + 1;
    }
    assert(regions_view(v@).subrange(0, v@.len() as int) =~= regions_view(v@));
    out
}

/// Merge regions in order.
fn merge_regions_vec(v: &Vec<(usize, usize)>) -> (res: Vec<(usize, usize)>)
    ensures
        regions_view(res@) == merge_regions(regions_view(v@)),
{
    let mut out: Vec<(usize, usize)> = Vec::new();
    let mut i: usize = 0;
    while i < v.len()
        invariant
            i <= v.len(),
            regions_view(out@) == merge_regions(regions_view(v@).subrange(0, i as int)),
        decreases v.len() - i,
    {
        let ghost pre = regions_view(v@).subrange(0, i as int);
        let ghost next = regions_view(v@).subrange(0, i + 1);
        assert(next.drop_last() =~= pre);
        let ghost m = regions_view(out@);
        let (s, e) = v[i];
        assert(next.last() == (s as int, e as int));
        let n = out.len();
        if n > 0 && s <= out[n - 1].1 {
            let (ls, le) = out[n - 1];
            let ne = if le >= e {
                le
            } else {
                e
            };
            out.set(n - 1, (ls, ne));
            assert(regions_view(out@) =~= m.update(m.len() - 1, (m.last().0, ne as int)));
        } else {
            out.push((s, e));
            assert(regions_view(out@) =~= m.push((s as int, e as int)));
        }
        i = i + 1;
    }
    assert(regions_view(v@).subrange(0, v@.len() as int) =~= regions_view(v@));
    out
}

/// The byte ranges of the math in UTF-8 bytes: `$..$`, `$$..$$`, `\(..\)`,
/// `\[..\]` and the named math environments, sorted by start with
/// overlapping ranges merged. Each range is `(start, end)` with `end`
/// exclusive.
pub fn math_regions_bytes(b: &[u8]) -> (res: Vec<(usize, usize)>)
    ensures
        regions_view(res@) == math_regions(b@),
        separated(regions_view(res@)),
        within(regions_view(res@), b@.len() as int),
{
    let mut all = delimited_regions(b);
    let envs = math_env_list();
    let ghost scan = regions_view(all@);
    let mut k: usize = 0;
    while k < envs.len()
        invariant
            k <= envs.len(),
            envs@ == math_envs(),
            regions_view(all@) == scan + envs_regions(b@, math_envs(), k as int),
        decreases envs.len() - k,
    {
        push_env_regions(b, envs[k], &mut all);
        assert(scan + envs_regions(b@, math_envs(), k + 1) =~= scan + envs_regions(
            b@,
            math_envs(),
            k as int,
        ) + env_regions_from(
            b@,
            begin_pat(math_envs()[k as int].spec_bytes()),
            end_pat(math_envs()[k as int].spec_bytes()),
            0,
        ));
        k = k + 1;
    }
    let sorted = sort_regions_vec(&all);
    let merged = merge_regions_vec(&sorted);
    proof {
        law_math_regions_separated(b@);
    }
    merged
}

/// The byte ranges of the math in a text: `$..$`, `$$..$$`, `\(..\)`,
/// `\[..\]` and the named math environments, sorted by start with
/// overlapping ranges merged. Each range is `(start, end)` with `end`
/// exclusive.
pub fn find_math_regions(text: &str) -> (res: Vec<(usize, usize)>)
    ensures
        regions_view(res@) == math_regions(text.spec_bytes()),
        separated(regions_view(res@)),
        within(regions_view(res@), text.spec_bytes().len() as int),
        proper(regions_view(res@), text.spec_bytes().len() as int),
{
    proof {
        law_math_regions_separated(text.spec_bytes());
    }
    math_regions_bytes(text.as_bytes())
}

/// `pos` lies in one of the regions.
pub open spec fn in_regions(r: Seq<(int, int)>, pos: int) -> bool {
    exists|k: int| 0 <= k < r.len() && (#[trigger] r[k]).0 <= pos < r[k].1
}

/// Whether `pos` falls inside one of the sorted regions, by binary
/// search.
pub(crate) fn in_math(pos: usize, regions: &Vec<(usize, usize)>) -> (res: bool)
    requires
        ordered_regions(regions_view(regions@)),
    ensures
        res == in_regions(regions_view(regions@), pos as int),
{
    let ghost r = regions_view(regions@);
    let mut lo: usize = 0;
    let mut hi: usize = regions.len();
    while lo < hi
        invariant
            hi <= regions.len(),
            lo <= hi,
            r == regions_view(regions@),
            ordered_regions(r),
            forall|k: int| 0 <= k < lo ==> (#[trigger] r[k]).1 <= pos,
            forall|k: int| hi <= k < r.len() ==> pos < (#[trigger] r[k]).0,
        decreases hi - lo,
    {
        let mid = lo + (hi - lo) / 2;
        let (s, e) = regions[mid];
        assert(r[mid as int] == (s as int, e as int));
        if pos < s {
            assert forall|k: int| mid <= k < r.len() implies pos < (#[trigger] r[k]).0 by {
                if k > mid {
                    assert(r[mid as int].1 <= r[k].0);
                }
            }
            hi = mid;
        } else if pos >= e {
            assert forall|k: int| 0 <= k <= mid implies (#[trigger] r[k]).1 <= pos by {
                if k < mid {
                    assert(r[k].1 <= r[mid as int].0);
                }
            }
            lo = mid + 1;
        } else {
            return true;
        }
    }
    proof {
        if in_regions(r, pos as int) {
            let k = choose|k: int| 0 <= k < r.len() && (#[trigger] r[k]).0 <= pos < r[k].1;
            if k < lo {
            } else {
            }
        }
    }
    false
}

/// `\name`.
pub open spec fn backslash_name(name: Seq<u8>) -> Seq<u8> {
    seq![0x5cu8] + name
}

fn backslash_vec(name: &str) -> (res: Vec<u8>)
    ensures
        res@ == backslash_name(name.spec_bytes()),
        res@.len() > 0,
{
    let mut v: Vec<u8> = Vec::new();
    v.push(0x5c);
    push_all(&mut v, name.as_bytes());
    assert(v@ =~= backslash_name(name.spec_bytes()));
    v
}

/// The text from `le` on with every occurrence of `pat` found scanning from
/// `s` removed, except where a letter follows it (another command).
pub open spec fn switch_removed_from(t: Seq<u8>, pat: Seq<u8>, s: int, le: int) -> Seq<u8>
    decreases t.len() + 1 - s,
{
    if s < 0 || s > t.len() || pat.len() == 0 {
        t.subrange(le, t.len() as int)
    } else {
        proof {
            lemma_find_from_bounds(t, pat, s);
        }
        match find_from(t, pat, s) {
            None => t.subrange(le, t.len() as int),
            Some(p) => {
                let after = p + pat.len();
                if after < t.len() && is_alpha(t[after]) {
                    switch_removed_from(t, pat, after, le)
                } else {
                    t.subrange(le, p) + switch_removed_from(t, pat, after, after)
                }
            },
        }
    }
}

/// `t` without the standalone command `\name` (one not followed by a
/// letter).
pub open spec fn without_switch(t: Seq<u8>, name: Seq<u8>) -> Seq<u8> {
    switch_removed_from(t, backslash_name(name), 0, 0)
}

/// Remove every standalone `\name` such as `\it` or `\bf`.
pub(crate) fn remove_font_switch(t: &[u8], name: &str) -> (res: Vec<u8>)
    ensures
        res@ == without_switch(t@, name.spec_bytes()),
{
    let pat = backslash_vec(name);
    let mut out: Vec<u8> = Vec::new();
    let mut le: usize = 0;
    let mut s: usize = 0;
    loop
        invariant
            le <= s <= t.len(),
            pat@ == backslash_name(name.spec_bytes()),
            pat@.len() > 0,
            out@ + switch_removed_from(t@, pat@, s as int, le as int) == switch_removed_from(
                t@,
                pat@,
                0,
                0,
            ),
        decreases t.len() + 1 - s,
    {
        let ghost o = out@;
        proof {
            lemma_find_from_bounds(t@, pat@, s as int);
        }
        match find_bytes(t, pat.as_slice(), s) {
            None => {
                push_range(&mut out, t, le, t.len());
                return out;
            },
            Some(p) => {
                let after = p + pat.len();
                if after < t.len() && is_alpha_byte(t[after]) {
                    s = after;
                } else {
                    push_range(&mut out, t, le, p);
                    assert(o + (t@.subrange(le as int, p as int) + switch_removed_from(
                        t@,
                        pat@,
                        after as int,
                        after as int,
                    )) =~= out@ + switch_removed_from(t@, pat@, after as int, after as int));
                    le = after;
                    s = after;
                }
            },
        }
    }
}

/// `t` with each command of `names[..n]` removed in turn.
pub open spec fn without_switches(t: Seq<u8>, names: Seq<&'static str>, n: int) -> Seq<u8>
    decreases n,
{
    if n <= 0 {
        t
    } else {
        without_switch(without_switches(t, names, n - 1), names[n - 1].spec_bytes())
    }
}

pub(crate) fn remove_switches(t: Vec<u8>, names: &Vec<&'static str>) -> (res: Vec<u8>)
    ensures
        res@ == without_switches(t@, names@, names@.len() as int),
{
    let ghost t0 = t@;
    let mut cur = t;
    let mut k: usize = 0;
    while k < names.len()
        invariant
            k <= names.len(),
            cur@ == without_switches(t0, names@, k as int),
        decreases names.len() - k,
    {
        cur = remove_font_switch(cur.as_slice(), names[k]);
        k = k + 1;
    }
    cur
}

/// Where a spacing command whose name ends at `after` ends: past an
/// optional `*` and an optional braced argument.
pub open spec fn spacing_end(t: Seq<u8>, after: int) -> int {
    let k = if 0 <= after < t.len() && t[after] == 0x2a {
        after + 1
    } else {
        after
    };
    if 0 <= k < t.len() && t[k] == 0x7b {
        match braced_group(t, k) {
            Some((cs, ce)) => ce + 1,
            None => k,
        }
    } else {
        k
    }
}

pub proof fn lemma_spacing_end(t: Seq<u8>, after: int)
    requires
        0 <= after <= t.len(),
    ensures
        after <= spacing_end(t, after) <= t.len(),
{
    let k = if 0 <= after < t.len() && t[after] == 0x2a {
        after + 1
    } else {
        after
    };
    if 0 <= k < t.len() && t[k] == 0x7b {
        lemma_closing_brace_bounds(t, k + 1, 1);
    }
}

/// The text from `le` on with each standalone occurrence of `pat` found
/// scanning from `s`, and its optional `*` and braced argument, replaced by
/// a space.
pub open spec fn spacing_removed_from(t: Seq<u8>, pat: Seq<u8>, s: int, le: int) -> Seq<u8>
    decreases t.len() + 1 - s,
{
    if s < 0 || s > t.len() || pat.len() == 0 {
        t.subrange(le, t.len() as int)
    } else {
        proof {
            lemma_find_from_bounds(t, pat, s);
        }
        match find_from(t, pat, s) {
            None => t.subrange(le, t.len() as int),
            Some(p) => {
                let after = p + pat.len();
                if after < t.len() && is_alpha(t[after]) {
                    spacing_removed_from(t, pat, after, le)
                } else {
                    proof {
                        lemma_spacing_end(t, after);
                    }
                    let e = spacing_end(t, after);
                    t.subrange(le, p) + seq![0x20u8] + spacing_removed_from(t, pat, e, e)
                }
            },
        }
    }
}

/// `t` with the spacing command `\name` replaced by a space.
pub open spec fn without_spacing(t: Seq<u8>, name: Seq<u8>) -> Seq<u8> {
    spacing_removed_from(t, backslash_name(name), 0, 0)
}

/// Replace every standalone `\name` (with an optional `*` and braced
/// argument, as in `\hspace*{1cm}`) by a space.
fn remove_spacing_command(t: &[u8], name: &str) -> (res: Vec<u8>)
    ensures
        res@ == without_spacing(t@, name.spec_bytes()),
{
    let pat = backslash_vec(name);
    let mut out: Vec<u8> = Vec::new();
    let mut le: usize = 0;
    let mut s: usize = 0;
    loop
        invariant
            le <= s <= t.len(),
            pat@ == backslash_name(name.spec_bytes()),
            pat@.len() > 0,
            out@ + spacing_removed_from(t@, pat@, s as int, le as int) == spacing_removed_from(
                t@,
                pat@,
                0,
                0,
            ),
        decreases t.len() + 1 - s,
    {
        let ghost o = out@;
        proof {
            lemma_find_from_bounds(t@, pat@, s as int);
        }
        match find_bytes(t, pat.as_slice(), s) {
            None => {
                push_range(&mut out, t, le, t.len());
                return out;
            },
            Some(p) => {
                let after = p + pat.len();
                if after < t.len() && is_alpha_byte(t[after]) {
                    s = after;
                } else {
                    push_range(&mut out, t, le, p);
                    out.push(0x20);
                    let mut e = after;
                    if e < t.len() && t[e] == 0x2a {
                        e = e + 1;
                    }
                    if e < t.len() && t[e] == 0x7b {
                        match braced_group_bytes(t, e) {
                            Some((_, ce)) => {
                                e = ce + 1;
                            },
                            None => {},
                        }
                    }
                    assert(e as int == spacing_end(t@, after as int));
                    assert(o + (t@.subrange(le as int, p as int) + seq![0x20u8]
                        + spacing_removed_from(t@, pat@, e as int, e as int)) =~= out@
                        + spacing_removed_from(t@, pat@, e as int, e as int));
                    le = e;
                    s = e;
                }
            },
        }
    }
}

/// `t` with each spacing command of `names[..n]` replaced in turn.
pub open spec fn without_spacings(t: Seq<u8>, names: Seq<&'static str>, n: int) -> Seq<u8>
    decreases n,
{
    if n <= 0 {
        t
    } else {
        without_spacing(without_spacings(t, names, n - 1), names[n - 1].spec_bytes())
    }
}

fn remove_spacings(t: Vec<u8>, names: &Vec<&'static str>) -> (res: Vec<u8>)
    ensures
        res@ == without_spacings(t@, names@, names@.len() as int),
{
    let ghost t0 = t@;
    let mut cur = t;
    let mut k: usize = 0;
    while k < names.len()
        invariant
            k <= names.len(),
            cur@ == without_spacings(t0, names@, k as int),
        decreases names.len() - k,
    {
        cur = remove_spacing_command(cur.as_slice(), names[k]);
        k = k + 1;
    }
    cur
}

/// Position after `n` braced arguments starting at `cur`, if all are there.
pub open spec fn args_end(t: Seq<u8>, cur: int, n: nat) -> Option<int>
    decreases n,
{
    if n == 0 {
        Some(cur)
    } else {
        match command_arg(t, cur) {
            Some((cs, ce, after)) => args_end(t, after, (n - 1) as nat),
            None => None,
        }
    }
}

pub proof fn lemma_command_arg_bounds(t: Seq<u8>, cur: int)
    requires
        0 <= cur,
    ensures
        command_arg(t, cur) matches Some((cs, ce, after)) ==> cur < after <= t.len(),
{
    lemma_skip_blanks_bounds(t, cur);
    let i = skip_blanks(t, cur);
    if 0 <= i < t.len() && t[i] == 0x7b {
        lemma_closing_brace_bounds(t, i + 1, 1);
    }
}

pub proof fn lemma_args_end(t: Seq<u8>, cur: int, n: nat)
    requires
        0 <= cur <= t.len(),
    ensures
        args_end(t, cur, n) matches Some(e) ==> cur <= e <= t.len(),
    decreases n,
{
    if n > 0 {
        lemma_command_arg_bounds(t, cur);
        match command_arg(t, cur) {
            Some((cs, ce, after)) => lemma_args_end(t, after, (n - 1) as nat),
            None => {},
        }
    }
}

/// The text from `le` on with each occurrence of `pat` found scanning from
/// `s` removed together with its `n` braced arguments; an occurrence
/// followed by a letter (unless `starred`) or lacking its arguments stays.
pub open spec fn with_args_removed_from(t: Seq<u8>, pat: Seq<u8>, starred: bool, n: nat, s: int, le: int) -> Seq<u8>
    decreases t.len() + 1 - s,
{
    if s < 0 || s > t.len() || pat.len() == 0 {
        t.subrange(le, t.len() as int)
    } else {
        proof {
            lemma_find_from_bounds(t, pat, s);
        }
        match find_from(t, pat, s) {
            None => t.subrange(le, t.len() as int),
            Some(p) => {
                let after = p + pat.len();
                if !starred && after < t.len() && is_alpha(t[after]) {
                    with_args_removed_from(t, pat, starred, n, after, le)
                } else {
                    proof {
                        lemma_args_end(t, after, n);
                    }
                    match args_end(t, after, n) {
                        Some(e) => t.subrange(le, p) + with_args_removed_from(
                            t,
                            pat,
                            starred,
                            n,
                            e,
                            e,
                        ),
                        None => with_args_removed_from(t, pat, starred, n, after, le),
                    }
                }
            },
        }
    }
}

/// `t` without the invocations of `\name` with `n` braced arguments.
pub open spec fn without_command_args(t: Seq<u8>, name: Seq<u8>, n: nat) -> Seq<u8> {
    let starred = name.len() > 0 && name.last() == 0x2a;
    with_args_removed_from(t, backslash_name(name), starred, n, 0, 0)
}

fn args_end_bytes(t: &[u8], cur: usize, n: usize) -> (res: Option<usize>)
    requires
        cur <= t.len(),
    ensures
        args_end(t@, cur as int, n as nat) == match res {
            Some(e) => Some(e as int),
            None => None,
        },
{
    let mut c = cur;
    let mut k: usize = 0;
    while k < n
        invariant
            k <= n,
            cur <= c <= t.len(),
            args_end(t@, cur as int, n as nat) == args_end(t@, c as int, (n - k) as nat),
        decreases n - k,
    {
        match command_arg_bytes(t, c) {
            Some((_, _, after)) => {
                c = after;
            },
            None => {
                return None;
            },
        }
        k = k + 1;
    }
    Some(c)
}

/// Remove each `\name{arg1}..{argn}` consuming exactly `n` braced groups.
pub(crate) fn strip_command_with_args(t: &[u8], name: &str, n: usize) -> (res: Vec<u8>)
    ensures
        res@ == without_command_args(t@, name.spec_bytes(), n as nat),
{
    let pat = backslash_vec(name);
    let nb = name.as_bytes();
    let starred = nb.len() > 0 && nb[nb.len() - 1] == 0x2a;
    let mut out: Vec<u8> = Vec::new();
    let mut le: usize = 0;
    let mut s: usize = 0;
    loop
        invariant
            le <= s <= t.len(),
            pat@ == backslash_name(name.spec_bytes()),
            pat@.len() > 0,
            starred == (name.spec_bytes().len() > 0 && name.spec_bytes().last() == 0x2a),
            out@ + with_args_removed_from(t@, pat@, starred, n as nat, s as int, le as int)
                == with_args_removed_from(t@, pat@, starred, n as nat, 0, 0),
        decreases t.len() + 1 - s,
    {
        let ghost o = out@;
        proof {
            lemma_find_from_bounds(t@, pat@, s as int);
        }
        match find_bytes(t, pat.as_slice(), s) {
            None => {
                push_range(&mut out, t, le, t.len());
                return out;
            },
            Some(p) => {
                let after = p + pat.len();
                if !starred && after < t.len() && is_alpha_byte(t[after]) {
                    s = after;
                } else {
                    proof {
                        lemma_args_end(t@, after as int, n as nat);
                    }
                    match args_end_bytes(t, after, n) {
                        Some(e) => {
                            push_range(&mut out, t, le, p);
                            assert(o + (t@.subrange(le as int, p as int) + with_args_removed_from(
                                t@,
                                pat@,
                                starred,
                                n as nat,
                                e as int,
                                e as int,
                            )) =~= out@ + with_args_removed_from(
                                t@,
                                pat@,
                                starred,
                                n as nat,
                                e as int,
                                e as int,
                            ));
                            le = e;
                            s = e;
                        },
                        None => {
                            s = after;
                        },
                    }
                }
            },
        }
    }
}

/// Spacing commands replaced by a space.
pub open spec fn spacing_commands() -> Seq<&'static str> {
    seq![
        "quad", "qquad", "hfill", "vfill", "hspace", "vspace",
        "bigskip", "medskip", "smallskip", "noindent", "indent",
        "newline", "linebreak", "pagebreak", "newpage", "clearpage",
        "cleardoublepage",
        "hline", "cline", "toprule", "midrule", "bottomrule",
        "nonumber", "notag", "allowbreak",
    ]
}

fn spacing_command_list() -> (res: Vec<&'static str>)
    ensures
        res@ == spacing_commands(),
{
    vec![
        "quad", "qquad", "hfill", "vfill", "hspace", "vspace",
        "bigskip", "medskip", "smallskip", "noindent", "indent",
        "newline", "linebreak", "pagebreak", "newpage", "clearpage",
        "cleardoublepage",
        "hline", "cline", "toprule", "midrule", "bottomrule",
        "nonumber", "notag", "allowbreak",
    ]
}

/// Font switch commands removed.
pub open spec fn font_switches() -> Seq<&'static str> {
    seq![
        "it", "bf", "rm", "tt", "sc", "sl", "sf", "em",
        "normalfont", "bfseries", "itshape", "mdseries",
        "upshape", "slshape", "scshape", "sffamily",
        "rmfamily", "ttfamily",
    ]
}

fn font_switch_list() -> (res: Vec<&'static str>)
    ensures
        res@ == font_switches(),
{
    vec![
        "it", "bf", "rm", "tt", "sc", "sl", "sf", "em",
        "normalfont", "bfseries", "itshape", "mdseries",
        "upshape", "slshape", "scshape", "sffamily",
        "rmfamily", "ttfamily",
    ]
}

/// No-op and layout commands that are removed outright.
pub open spec fn noop_commands() -> Seq<&'static str> {
    seq![
        "relax", "par", "empty", "protect", "raggedright", "raggedleft",
        "centering", "sloppy", "fussy", "samepage", "nopagebreak",
        "tableofcontents", "listoffigures", "listoftables",
        "makeatletter", "makeatother", "appendix",
    ]
}

fn noop_command_list() -> (res: Vec<&'static str>)
    ensures
        res@ == noop_commands(),
{
    vec![
        "relax", "par", "empty", "protect", "raggedright", "raggedleft",
        "centering", "sloppy", "fussy", "samepage", "nopagebreak",
        "tableofcontents", "listoffigures", "listoftables",
        "makeatletter", "makeatother", "appendix",
    ]
}

/// Commands removed together with a number of braced arguments.
pub open spec fn commands_with_args() -> Seq<(&'static str, usize)> {
    seq![
        ("pagestyle", 1usize),
        ("thispagestyle", 1usize),
        ("bibliographystyle", 1usize),
        ("nocite", 1usize),
        ("stepcounter", 1usize),
        ("theoremstyle", 1usize),
        ("enlargethispage", 1usize),
        ("setcounter", 2usize),
        ("addtocounter", 2usize),
        ("setlength", 2usize),
        ("addtolength", 2usize),
        ("numberwithin", 2usize),
        ("DeclareMathOperator", 2usize),
        ("DeclareMathOperator*", 2usize),
        ("newtheorem", 2usize),
        ("newtheorem*", 2usize),
        ("newenvironment", 3usize),
        ("renewenvironment", 3usize),
        ("addcontentsline", 3usize),
        ("xymatrix", 1usize),
        ("hypersetup", 1usize),
        ("definecolor", 3usize),
        ("colorlet", 2usize),
        ("lstset", 1usize),
        ("markboth", 2usize),
        ("markright", 1usize),
        ("DeclareRobustCommand", 2usize),
        ("pagenumbering", 1usize),
    ]
}

fn commands_with_args_list() -> (res: Vec<(&'static str, usize)>)
    ensures
        res@ == commands_with_args(),
{
    vec![
        ("pagestyle", 1usize),
        ("thispagestyle", 1usize),
        ("bibliographystyle", 1usize),
        ("nocite", 1usize),
        ("stepcounter", 1usize),
        ("theoremstyle", 1usize),
        ("enlargethispage", 1usize),
        ("setcounter", 2usize),
        ("addtocounter", 2usize),
        ("setlength", 2usize),
        ("addtolength", 2usize),
        ("numberwithin", 2usize),
        ("DeclareMathOperator", 2usize),
        ("DeclareMathOperator*", 2usize),
        ("newtheorem", 2usize),
        ("newtheorem*", 2usize),
        ("newenvironment", 3usize),
        ("renewenvironment", 3usize),
        ("addcontentsline", 3usize),
        ("xymatrix", 1usize),
        ("hypersetup", 1usize),
        ("definecolor", 3usize),
        ("colorlet", 2usize),
        ("lstset", 1usize),
        ("markboth", 2usize),
        ("markright", 1usize),
        ("DeclareRobustCommand", 2usize),
        ("pagenumbering", 1usize),
    ]
}

/// `t` with the commands of `cmds[..n]` and their arguments removed in turn.
pub open spec fn without_commands_args(t: Seq<u8>, cmds: Seq<(&'static str, usize)>, n: int) -> Seq<u8>
    decreases n,
{
    if n <= 0 {
        t
    } else {
        without_command_args(
            without_commands_args(t, cmds, n - 1),
            cmds[n - 1].0.spec_bytes(),
            cmds[n - 1].1 as nat,
        )
    }
}

pub(crate) fn strip_all_with_args(t: Vec<u8>, cmds: &Vec<(&'static str, usize)>) -> (res: Vec<u8>)
    ensures
        res@ == without_commands_args(t@, cmds@, cmds@.len() as int),
{
    let ghost t0 = t@;
    let mut cur = t;
    let mut k: usize = 0;
    while k < cmds.len()
        invariant
            k <= cmds.len(),
            cur@ == without_commands_args(t0, cmds@, k as int),
        decreases cmds.len() - k,
    {
        let (name, n) = cmds[k];
        cur = strip_command_with_args(cur.as_slice(), name, n);
        k = k + 1;
    }
    cur
}

/// Spacing commands with a dimension (`\vskip 1cm`, `\kern3pt`, ...).
pub const SPACING_DIM_PATTERN: &'static str = "\\\\(?:vskip|hskip|vglue|hglue|kern|mkern|mskip|penalty|widowpenalty|clubpenalty|displaywidowpenalty)\\s*=?\\s*-?\\.?\\d[\\d.]*\\s*(?:cm|mm|pt|em|ex|in|bp|dd|cc|sp|pc|mu|fil(?:l(?:l)?)?)?";

/// Length registers assigned a dimension (`\baselineskip=16pt`, ...).
pub const LENGTH_ASSIGN_PATTERN: &'static str = "\\\\(?:baselineskip|parskip|parindent|lineskip|lineskiplimit|topskip|abovedisplayskip|belowdisplayskip|abovedisplayshortskip|belowdisplayshortskip|columnsep|columnseprule|tabcolsep|arraycolsep|fboxsep|fboxrule|jot)\\s*=?\\s*-?\\.?\\d[\\d.]*\\s*(?:cm|mm|pt|em|ex|in|bp|dd|cc|sp|pc|mu|fil(?:l(?:l)?)?)?";

pub const SPACE: &'static str = " ";

pub const NEWLINE: &'static str = "\n";

pub const EMPTY: &'static str = "";

/// The text with the commands that would collide with accent conversion
/// removed: dimensioned spacing and length assignments become a space, font
/// switches and no-op commands go, and configuration commands go with their
/// arguments.
pub open spec fn pre_diacritic_stripped(t: Seq<u8>) -> Seq<u8> {
    let a = re_replace(SPACING_DIM_PATTERN.spec_bytes(), t, SPACE.spec_bytes());
    let b = re_replace(LENGTH_ASSIGN_PATTERN.spec_bytes(), a, SPACE.spec_bytes());
    let c = without_switches(b, font_switches(), font_switches().len() as int);
    let d = without_switches(c, noop_commands(), noop_commands().len() as int);
    without_commands_args(d, commands_with_args(), commands_with_args().len() as int)
}

/// Strip the commands that collide with accent patterns (`\vskip` with
/// `\v`, `\kern` with `\k`, `\bf`, `\baselineskip`, ...). Runs before
/// accent conversion.
pub fn strip_pre_diacritic_commands(text: &str) -> (res: String)
    ensures
        res@ == utf8_lossy(pre_diacritic_stripped(text.spec_bytes())),
{
    let a = re_replace_bytes(SPACING_DIM_PATTERN, text.as_bytes(), SPACE.as_bytes());
    let b = re_replace_bytes(LENGTH_ASSIGN_PATTERN, a.as_slice(), SPACE.as_bytes());
    let c = remove_switches(b, &font_switch_list());
    let d = remove_switches(c, &noop_command_list());
    let e = strip_all_with_args(d, &commands_with_args_list());
    string_from_bytes(e.as_slice())
}

/// Math operators kept when they appear as bare commands.
pub open spec fn math_keep() -> Seq<&'static str> {
    seq![
        "frac", "sum", "int", "prod", "sqrt", "lim", "log", "ln",
        "sin", "cos", "tan", "sec", "csc", "cot",
        "exp", "min", "max", "sup", "inf", "arg", "det", "dim",
        "gcd", "hom", "ker", "deg", "Pr", "oint", "iint", "iiint",
        "bigcup", "bigcap", "bigoplus", "bigotimes", "coprod",
        "mathbb", "mathscr", "mathcal", "mathrm", "mathbf",
    ]
}

fn math_keep_list() -> (res: Vec<&'static str>)
    ensures
        res@ == math_keep(),
{
    vec![
        "frac", "sum", "int", "prod", "sqrt", "lim", "log", "ln",
        "sin", "cos", "tan", "sec", "csc", "cot",
        "exp", "min", "max", "sup", "inf", "arg", "det", "dim",
        "gcd", "hom", "ker", "deg", "Pr", "oint", "iint", "iiint",
        "bigcup", "bigcap", "bigoplus", "bigotimes", "coprod",
        "mathbb", "mathscr", "mathcal", "mathrm", "mathbf",
    ]
}

/// The text from `i` on with stray backslashes dropped: a backslash stays
/// only before a letter, another backslash or `$`.
pub open spec fn stray_removed_from(t: Seq<u8>, i: int) -> Seq<u8>
    decreases t.len() - i,
{
    if i < 0 || i >= t.len() {
        Seq::empty()
    } else if t[i] == 0x5c {
        (if i + 1 < t.len() && (is_alpha(t[i + 1]) || t[i + 1] == 0x5c || t[i + 1] == 0x24) {
            seq![0x5cu8]
        } else {
            Seq::empty()
        }) + stray_removed_from(t, i + 1)
    } else {
        seq![t[i]] + stray_removed_from(t, i + 1)
    }
}

/// Strip stray backslashes: a `\` not followed by an ASCII letter, another
/// `\`, or `$`.
fn strip_stray_backslashes(t: &[u8]) -> (res: Vec<u8>)
    ensures
        res@ == stray_removed_from(t@, 0),
{
    let mut out: Vec<u8> = Vec::new();
    let mut i: usize = 0;
    while i < t.len()
        invariant
            i <= t.len(),
            out@ + stray_removed_from(t@, i as int) == stray_removed_from(t@, 0),
        decreases t.len() - i,
    {
        let ghost o = out@;
        if t[i] == 0x5c {
            if i + 1 < t.len() && (is_alpha_byte(t[i + 1]) || t[i + 1] == 0x5c || t[i + 1] == 0x24) {
                out.push(0x5c);
                assert(o + (seq![0x5cu8] + stray_removed_from(t@, i + 1)) =~= out@
                    + stray_removed_from(t@, i + 1));
            } else {
                assert(o + (Seq::<u8>::empty() + stray_removed_from(t@, i + 1)) =~= out@
                    + stray_removed_from(t@, i + 1));
            }
        } else {
            out.push(t[i]);
            assert(o + (seq![t@[i as int]] + stray_removed_from(t@, i + 1)) =~= out@
                + stray_removed_from(t@, i + 1));
        }
        i = i + 1;
    }
    assert(out@ + stray_removed_from(t@, i as int) =~= out@);
    out
}

/// The text from `i` on with orphan commands (a command followed by neither
/// `{` nor a letter) replaced by a space, unless it is a kept math operator.
pub open spec fn orphans_removed_from(t: Seq<u8>, i: int) -> Seq<u8>
    decreases t.len() - i,
{
    if i < 0 || i >= t.len() {
        Seq::empty()
    } else if t[i] == 0x5c && i + 1 < t.len() && is_alpha(t[i + 1]) {
        proof {
            lemma_letters_end_bounds(t, i + 1);
        }
        let ne = letters_end(t, i + 1);
        let ce = if ne < t.len() && t[ne] == 0x2a {
            ne + 1
        } else {
            ne
        };
        if ce < t.len() && (t[ce] == 0x7b || is_alpha(t[ce])) {
            t.subrange(i, ce) + orphans_removed_from(t, ce)
        } else if in_list(t.subrange(i + 1, ne), math_keep()) {
            t.subrange(i, ce) + orphans_removed_from(t, ce)
        } else {
            seq![0x20u8] + orphans_removed_from(t, ce)
        }
    } else {
        seq![t[i]] + orphans_removed_from(t, i + 1)
    }
}

/// Replace orphan commands that are not math operators by a space.
#[verifier::rlimit(40)]
fn strip_orphan_commands(t: &[u8]) -> (res: Vec<u8>)
    ensures
        res@ == orphans_removed_from(t@, 0),
{
    let keep = math_keep_list();
    let mut out: Vec<u8> = Vec::new();
    let mut i: usize = 0;
    while i < t.len()
        invariant
            i <= t.len(),
            keep@ == math_keep(),
            out@ + orphans_removed_from(t@, i as int) == orphans_removed_from(t@, 0),
        decreases t.len() - i,
    {
        let ghost o = out@;
        if t[i] == 0x5c && i + 1 < t.len() && is_alpha_byte(t[i + 1]) {
            proof {
                lemma_letters_end_bounds(t@, i + 1);
            }
            let mut ne = i + 1;
            while ne < t.len() && is_alpha_byte(t[ne])
                invariant
                    i + 1 <= ne <= t.len(),
                    letters_end(t@, ne as int) == letters_end(t@, i + 1),
                decreases t.len() - ne,
            {
                ne = ne + 1;
            }
            let ce = if ne < t.len() && t[ne] == 0x2a {
                ne + 1
            } else {
                ne
            };
            let name = &t[i + 1..ne];
            assert(t@.subrange(i + 1, ne as int) =~= name@);
            if ce < t.len() && (t[ce] == 0x7b || is_alpha_byte(t[ce])) {
                push_range(&mut out, t, i, ce);
            } else if bytes_in_list(name, keep.as_slice()) {
                push_range(&mut out, t, i, ce);
            } else {
                out.push(0x20);
            }
            assert(out@ + orphans_removed_from(t@, ce as int) =~= o + orphans_removed_from(
                t@,
                i as int,
            ));
            i = ce;
        } else {
            out.push(t[i]);
            assert(o + (seq![t@[i as int]] + orphans_removed_from(t@, i + 1)) =~= out@
                + orphans_removed_from(t@, i + 1));
            i = i + 1;
        }
    }
    assert(out@ + orphans_removed_from(t@, i as int) =~= out@);
    out
}

pub proof fn lemma_command_end_after(t: Seq<u8>, i: int)
    requires
        0 <= i,
        i + 1 < t.len(),
        t[i] == 0x5c,
        is_alpha(t[i + 1]),
    ensures
        i < command_end(t, i) <= t.len(),
{
    lemma_letters_end_bounds(t, i + 1);
}

/// The text from `i` on with each command outside math that has a braced
/// argument replaced by the argument's content.
pub open spec fn unwrapped_from(t: Seq<u8>, r: Seq<(int, int)>, i: int) -> Seq<u8>
    decreases t.len() - i,
{
    if i < 0 || i >= t.len() {
        Seq::empty()
    } else if t[i] == 0x5c && i + 1 < t.len() && is_alpha(t[i + 1]) && !in_regions(r, i)
        && command_arg(t, command_end(t, i)) is Some {
        proof {
            lemma_command_end_after(t, i);
            lemma_command_arg_bounds(t, command_end(t, i));
        }
        let (cs, ce, after) = command_arg(t, command_end(t, i)).unwrap();
        t.subrange(cs, ce) + unwrapped_from(t, r, after)
    } else {
        seq![t[i]] + unwrapped_from(t, r, i + 1)
    }
}

/// One pass of unwrapping `\command{content}` to `content` outside math.
pub open spec fn unwrapped(t: Seq<u8>) -> Seq<u8> {
    unwrapped_from(t, math_regions(t), 0)
}

/// Unwrap every `\command{content}` whose backslash is outside math to
/// `content`, scanning left to right.
fn unwrap_generic_commands(t: &[u8]) -> (res: Vec<u8>)
    ensures
        res@ == unwrapped(t@),
{
    let regions = math_regions_bytes(t);
    let ghost r = regions_view(regions@);
    let mut out: Vec<u8> = Vec::new();
    let mut i: usize = 0;
    while i < t.len()
        invariant
            i <= t.len(),
            r == regions_view(regions@),
            r == math_regions(t@),
            separated(r),
            out@ + unwrapped_from(t@, r, i as int) == unwrapped_from(t@, r, 0),
        decreases t.len() - i,
    {
        let ghost o = out@;
        if t[i] == 0x5c && i + 1 < t.len() && is_alpha_byte(t[i + 1]) && !in_math(i, &regions) {
            proof {
                lemma_command_end_after(t@, i as int);
            }
            let cmd_end = command_end_bytes(t, i);
            proof {
                lemma_command_arg_bounds(t@, cmd_end as int);
            }
            match command_arg_bytes(t, cmd_end) {
                Some((cs, ce, after)) => {
                    push_range(&mut out, t, cs, ce);
                    assert(o + (t@.subrange(cs as int, ce as int) + unwrapped_from(
                        t@,
                        r,
                        after as int,
                    )) =~= out@ + unwrapped_from(t@, r, after as int));
                    i = after;
                    continue;
                },
                None => {},
            }
        }
        out.push(t[i]);
        assert(o + (seq![t@[i as int]] + unwrapped_from(t@, r, i + 1)) =~= out@ + unwrapped_from(
            t@,
            r,
            i + 1,
        ));
        i = i + 1;
    }
    assert(out@ + unwrapped_from(t@, r, i as int) =~= out@);
    out
}

/// The text from `i` on with grouping braces outside math removed; a brace
/// right after a backslash stays.
pub open spec fn braces_removed_from(t: Seq<u8>, r: Seq<(int, int)>, i: int) -> Seq<u8>
    decreases t.len() - i,
{
    if i < 0 || i >= t.len() {
        Seq::empty()
    } else if (t[i] == 0x7b || t[i] == 0x7d) && !(i > 0 && t[i - 1] == 0x5c) && !in_regions(r, i) {
        braces_removed_from(t, r, i + 1)
    } else {
        seq![t[i]] + braces_removed_from(t, r, i + 1)
    }
}

/// Grouping braces removed outside math.
pub open spec fn braces_removed(t: Seq<u8>) -> Seq<u8> {
    braces_removed_from(t, math_regions(t), 0)
}

/// Strip grouping braces `{content}` to `content`, except escaped braces
/// and braces inside math.
fn strip_grouping_braces(t: &[u8]) -> (res: Vec<u8>)
    ensures
        res@ == braces_removed(t@),
{
    let regions = math_regions_bytes(t);
    let ghost r = regions_view(regions@);
    let mut out: Vec<u8> = Vec::new();
    let mut i: usize = 0;
    while i < t.len()
        invariant
            i <= t.len(),
            r == regions_view(regions@),
            r == math_regions(t@),
            separated(r),
            out@ + braces_removed_from(t@, r, i as int) == braces_removed_from(t@, r, 0),
        decreases t.len() - i,
    {
        let ghost o = out@;
        if (t[i] == 0x7b || t[i] == 0x7d) && !(i > 0 && t[i - 1] == 0x5c) && !in_math(i, &regions) {
        } else {
            out.push(t[i]);
            assert(o + (seq![t@[i as int]] + braces_removed_from(t@, r, i + 1)) =~= out@
                + braces_removed_from(t@, r, i + 1));
        }
        i = i + 1;
    }
    assert(out@ + braces_removed_from(t@, r, i as int) =~= out@);
    out
}

/// End of the line starting at or containing `i`: the position of the next
/// `\n`, or the end of the text.
pub open spec fn line_end(t: Seq<u8>, i: int) -> int
    decreases t.len() - i,
{
    if i < 0 || i >= t.len() || t[i] == 0x0a {
        i
    } else {
        line_end(t, i + 1)
    }
}

pub proof fn lemma_line_end(t: Seq<u8>, i: int)
    requires
        0 <= i <= t.len(),
    ensures
        i <= line_end(t, i) <= t.len(),
        line_end(t, i) < t.len() ==> t[line_end(t, i)] == 0x0a,
    decreases t.len() - i,
{
    if i < t.len() && t[i] != 0x0a {
        lemma_line_end(t, i + 1);
    }
}

fn line_end_bytes(t: &[u8], i: usize) -> (res: usize)
    requires
        i <= t.len(),
    ensures
        res as int == line_end(t@, i as int),
        i <= res <= t.len(),
{
    let mut j = i;
    while j < t.len() && t[j] != 0x0a
        invariant
            i <= j <= t.len(),
            line_end(t@, j as int) == line_end(t@, i as int),
        decreases t.len() - j,
    {
        j = j + 1;
    }
    j
}

pub const HASH: &'static str = "#";

pub const LIST_DASH: &'static str = "- ";

pub const DOUBLE_DOLLAR: &'static str = "$$";

pub const DOUBLE_STAR: &'static str = "**";

/// Two consecutive lines are joined into one paragraph line unless either
/// is empty, a heading or a list item, either starts (or the first ends)
/// display math, or the second starts a bold label.
pub open spec fn joins(line: Seq<u8>, next: Seq<u8>) -> bool {
    &&& line.len() > 0
    &&& next.len() > 0
    &&& !starts_with(line, HASH.spec_bytes())
    &&& !starts_with(next, HASH.spec_bytes())
    &&& !starts_with(line, LIST_DASH.spec_bytes())
    &&& !starts_with(next, LIST_DASH.spec_bytes())
    &&& !starts_with(line, DOUBLE_DOLLAR.spec_bytes())
    &&& !starts_with(next, DOUBLE_DOLLAR.spec_bytes())
    &&& !starts_with(next, DOUBLE_STAR.spec_bytes())
    &&& !ends_with(line, DOUBLE_DOLLAR.spec_bytes())
}

fn joins_bytes(line: &[u8], next: &[u8]) -> (res: bool)
    ensures
        res == joins(line@, next@),
{
    line.len() > 0 && next.len() > 0 && !bytes_starts_with(line, HASH.as_bytes())
        && !bytes_starts_with(next, HASH.as_bytes()) && !bytes_starts_with(
        line,
        LIST_DASH.as_bytes(),
    ) && !bytes_starts_with(next, LIST_DASH.as_bytes()) && !bytes_starts_with(
        line,
        DOUBLE_DOLLAR.as_bytes(),
    ) && !bytes_starts_with(next, DOUBLE_DOLLAR.as_bytes()) && !bytes_starts_with(
        next,
        DOUBLE_STAR.as_bytes(),
    ) && !bytes_ends_with(line, DOUBLE_DOLLAR.as_bytes())
}

/// The lines from the one starting at `i` on, each followed by a space when
/// it joins the next line and by a newline otherwise.
pub open spec fn reflow_from(t: Seq<u8>, i: int) -> Seq<u8>
    decreases t.len() - i,
{
    if i < 0 || i > t.len() {
        Seq::empty()
    } else {
        proof {
            lemma_line_end(t, i);
        }
        let e = line_end(t, i);
        if e >= t.len() {
            t.subrange(i, t.len() as int)
        } else {
            proof {
                lemma_line_end(t, e + 1);
            }
            let ne = line_end(t, e + 1);
            t.subrange(i, e) + (if joins(t.subrange(i, e), t.subrange(e + 1, ne)) {
                seq![0x20u8]
            } else {
                seq![0x0au8]
            }) + reflow_from(t, e + 1)
        }
    }
}

proof fn lemma_reflow_bytes(t: Seq<u8>, i: int)
    requires
        0 <= i <= t.len(),
    ensures
        reflow_from(t, i).len() == t.len() - i,
        forall|k: int|
            0 <= k < t.len() - i ==> #[trigger] reflow_from(t, i)[k] == t[i + k] || (t[i + k] == 0x0a
                && reflow_from(t, i)[k] == 0x20),
    decreases t.len() - i,
{
    lemma_line_end(t, i);
    let e = line_end(t, i);
    if e < t.len() {
        lemma_line_end(t, e + 1);
        lemma_reflow_bytes(t, e + 1);
        let r = reflow_from(t, i);
        let rest = reflow_from(t, e + 1);
        let ne = line_end(t, e + 1);
        let sep: Seq<u8> = if joins(t.subrange(i, e), t.subrange(e + 1, ne)) {
            seq![0x20u8]
        } else {
            seq![0x0au8]
        };
        assert(r == t.subrange(i, e) + sep + rest);
        assert forall|k: int| 0 <= k < t.len() - i implies #[trigger] r[k] == t[i + k] || (t[i + k] == 0x0a && r[k]
            == 0x20) by {
            if k < e - i {
                assert(r[k] == t.subrange(i, e)[k]);
            } else if k == e - i {
                assert(r[k] == sep[0]);
            } else {
                assert(r[k] == rest[k - (e - i) - 1]);
            }
        }
    }
}

/// Reflowing keeps the text byte for byte, except that some line breaks
/// become spaces.
pub proof fn law_reflow_only_joins_lines(t: Seq<u8>)
    ensures
        reflow_from(t, 0).len() == t.len(),
        forall|k: int|
            0 <= k < t.len() ==> #[trigger] reflow_from(t, 0)[k] == t[k] || (t[k] == 0x0a && reflow_from(t, 0)[k]
                == 0x20),
{
    lemma_reflow_bytes(t, 0);
}

/// Join the lines of each paragraph into one; paragraph breaks, headings,
/// list items and display math keep their line breaks.
fn reflow_paragraphs_bytes(t: &[u8]) -> (res: Vec<u8>)
    ensures
        res@ == reflow_from(t@, 0),
{
    let mut out: Vec<u8> = Vec::new();
    let mut i: usize = 0;
    loop
        invariant
            i <= t.len(),
            out@ + reflow_from(t@, i as int) == reflow_from(t@, 0),
        decreases t.len() - i,
    {
        let ghost o = out@;
        let e = line_end_bytes(t, i);
        if e >= t.len() {
            push_range(&mut out, t, i, t.len());
            return out;
        }
        let ne = line_end_bytes(t, e + 1);
        push_range(&mut out, t, i, e);
        let line = &t[i..e];
        let next = &t[e + 1..ne];
        assert(line@ =~= t@.subrange(i as int, e as int));
        assert(next@ =~= t@.subrange(e + 1, ne as int));
        if joins_bytes(line, next) {
            out.push(0x20);
        } else {
            out.push(0x0a);
        }
        assert(o + (t@.subrange(i as int, e as int) + (if joins(
            t@.subrange(i as int, e as int),
            t@.subrange(e + 1, ne as int),
        ) {
            seq![0x20u8]
        } else {
            seq![0x0au8]
        }) + reflow_from(t@, e + 1)) =~= out@ + reflow_from(t@, e + 1));
        i = e + 1;
    }
}

/// Reflowing valid UTF-8 text gives valid UTF-8 text: it only turns ASCII
/// newlines into spaces.
proof fn lemma_reflow_utf8(t: Seq<u8>, i: int)
    requires
        0 <= i <= t.len(),
        vstd::utf8::valid_utf8(t.subrange(i, t.len() as int)),
    ensures
        vstd::utf8::valid_utf8(reflow_from(t, i)),
    decreases t.len() - i,
{
    lemma_line_end(t, i);
    let e = line_end(t, i);
    if e < t.len() {
        lemma_line_end(t, e + 1);
        crate::text::lemma_utf8_before_ascii(t, i, e);
        crate::text::lemma_utf8_after_ascii(t, i, e);
        lemma_reflow_utf8(t, e + 1);
        let sep: Seq<u8> = if joins(t.subrange(i, e), t.subrange(e + 1, line_end(t, e + 1))) {
            seq![0x20u8]
        } else {
            seq![0x0au8]
        };
        crate::text::lemma_ascii_utf8(sep);
        vstd::utf8::valid_utf8_concat(t.subrange(i, e), sep);
        vstd::utf8::valid_utf8_concat(t.subrange(i, e) + sep, reflow_from(t, e + 1));
    }
}

/// Reflow paragraphs: join single-newline-separated lines within
/// paragraphs, keeping paragraph breaks, headings (`#`), list items (`- `),
/// display math (`$$`) and bold labels (`**`) on their own lines.
pub fn reflow_paragraphs(text: &str) -> (res: String)
    ensures
        res@ == utf8_lossy(reflow_from(text.spec_bytes(), 0)),
        vstd::utf8::valid_utf8(reflow_from(text.spec_bytes(), 0)),
        res@ == vstd::utf8::decode_utf8(reflow_from(text.spec_bytes(), 0)),
{
    let out = reflow_paragraphs_bytes(text.as_bytes());
    proof {
        vstd::utf8::encode_utf8_valid_utf8(text@);
        assert(text.spec_bytes().subrange(0, text.spec_bytes().len() as int) =~= text.spec_bytes());
        lemma_reflow_utf8(text.spec_bytes(), 0);
    }
    string_from_bytes(out.as_slice())
}

/// The lines from the one starting at `i` on, each trimmed, joined by
/// newlines, as `str::lines` gives them (no empty line after a final
/// newline).
pub open spec fn trimmed_lines_from(t: Seq<u8>, i: int) -> Seq<u8>
    decreases t.len() - i,
{
    if i < 0 || i > t.len() {
        Seq::empty()
    } else {
        proof {
            lemma_line_end(t, i);
        }
        let e = line_end(t, i);
        if e >= t.len() {
            trim_ws(t.subrange(i, t.len() as int))
        } else if e + 1 == t.len() {
            trim_ws(t.subrange(i, e))
        } else {
            trim_ws(t.subrange(i, e)) + seq![0x0au8] + trimmed_lines_from(t, e + 1)
        }
    }
}

fn trim_lines(t: &[u8]) -> (res: Vec<u8>)
    ensures
        res@ == trimmed_lines_from(t@, 0),
{
    let mut out: Vec<u8> = Vec::new();
    let mut i: usize = 0;
    loop
        invariant
            i <= t.len(),
            out@ + trimmed_lines_from(t@, i as int) == trimmed_lines_from(t@, 0),
        decreases t.len() - i,
    {
        let ghost o = out@;
        let e = line_end_bytes(t, i);
        let (a, b) = trim_ws_range(t, i, e);
        push_range(&mut out, t, a, b);
        if e >= t.len() || e + 1 == t.len() {
            return out;
        }
        out.push(0x0a);
        assert(o + (trim_ws(t@.subrange(i as int, e as int)) + seq![0x0au8] + trimmed_lines_from(
            t@,
            e + 1,
        )) =~= out@ + trimmed_lines_from(t@, e + 1));
        i = e + 1;
    }
}

/// `\\` line breaks, with an optional spacing argument.
pub const LINE_BREAK_PATTERN: &'static str = "\\\\\\\\(\\[[^\\]]*\\])?";

pub const PHANTOM_PATTERN: &'static str = "\\\\[hv]?phantom\\{[^{}]*\\}";

pub const RULE_PATTERN: &'static str = "\\\\rule\\s*(?:\\[[^\\]]*\\])?\\s*\\{[^{}]*\\}\\{[^{}]*\\}";

/// A `\newcommand` definition that survived macro collection.
pub const NEWCOMMAND_LEAKED_PATTERN: &'static str = "\\\\(?:re)?newcommand\\*?\\{[^}]*\\}(?:\\[[^\\]]*\\])?\\{(?:[^{}]|\\{[^{}]*\\})*\\}";

/// A `\def` definition that survived macro collection.
pub const DEF_LEAKED_PATTERN: &'static str = "\\\\def\\\\[a-zA-Z]+\\{(?:[^{}]|\\{[^{}]*\\})*\\}";

/// Runs of whitespace other than newlines.
pub const MULTI_SPACE_PATTERN: &'static str = "[^\\S\\n]+";

/// Three or more newlines.
pub const MULTI_NEWLINE_PATTERN: &'static str = "\\n{3,}";

pub const PROTECT: &'static str = "\\protect";

pub const PARAGRAPH_BREAK: &'static str = "\n\n";

/// The text after the final cleanup pass.
pub open spec fn cleaned(t: Seq<u8>) -> Seq<u8> {
    let a = without_spacings(t, spacing_commands(), spacing_commands().len() as int);
    let b = re_replace(LINE_BREAK_PATTERN.spec_bytes(), a, NEWLINE.spec_bytes());
    let c = re_replace(PHANTOM_PATTERN.spec_bytes(), b, EMPTY.spec_bytes());
    let d = re_replace(RULE_PATTERN.spec_bytes(), c, EMPTY.spec_bytes());
    let e = without_switches(d, font_switches(), font_switches().len() as int);
    let f = replace_all_spec(e, PROTECT.spec_bytes(), EMPTY.spec_bytes());
    let g = re_replace(NEWCOMMAND_LEAKED_PATTERN.spec_bytes(), f, EMPTY.spec_bytes());
    let h = re_replace(DEF_LEAKED_PATTERN.spec_bytes(), g, EMPTY.spec_bytes());
    let u = unwrapped(unwrapped(h));
    let v = orphans_removed_from(braces_removed(u), 0);
    let w = stray_removed_from(v, 0);
    let x = re_replace(MULTI_SPACE_PATTERN.spec_bytes(), w, SPACE.spec_bytes());
    let y = re_replace(MULTI_NEWLINE_PATTERN.spec_bytes(), x, PARAGRAPH_BREAK.spec_bytes());
    reflow_from(trim_ws(trimmed_lines_from(y, 0)), 0)
}

/// The final cleanup pass on bytes.
pub fn cleanup_bytes(t: &[u8]) -> (res: Vec<u8>)
    ensures
        res@ == cleaned(t@),
{
    let mut cur: Vec<u8> = Vec::new();
    push_all(&mut cur, t);
    assert(cur@ =~= t@);
    let a = remove_spacings(cur, &spacing_command_list());
    let b = re_replace_bytes(LINE_BREAK_PATTERN, a.as_slice(), NEWLINE.as_bytes());
    let c = re_replace_bytes(PHANTOM_PATTERN, b.as_slice(), EMPTY.as_bytes());
    let d = re_replace_bytes(RULE_PATTERN, c.as_slice(), EMPTY.as_bytes());
    let e = remove_switches(d, &font_switch_list());
    let f = replace_bytes(e.as_slice(), PROTECT.as_bytes(), EMPTY.as_bytes());
    let g = re_replace_bytes(NEWCOMMAND_LEAKED_PATTERN, f.as_slice(), EMPTY.as_bytes());
    let h = re_replace_bytes(DEF_LEAKED_PATTERN, g.as_slice(), EMPTY.as_bytes());
    let u1 = unwrap_generic_commands(h.as_slice());
    let u = unwrap_generic_commands(u1.as_slice());
    let br = strip_grouping_braces(u.as_slice());
    let v = strip_orphan_commands(br.as_slice());
    let w = strip_stray_backslashes(v.as_slice());
    let x = re_replace_bytes(MULTI_SPACE_PATTERN, w.as_slice(), SPACE.as_bytes());
    let y = re_replace_bytes(MULTI_NEWLINE_PATTERN, x.as_slice(), PARAGRAPH_BREAK.as_bytes());
    let z = trim_lines(y.as_slice());
    let (lo, hi) = trim_ws_range(z.as_slice(), 0, z.len());
    assert(z@.subrange(0, z@.len() as int) =~= z@);
    let trimmed = &z[lo..hi];
    assert(trimmed@ =~= z@.subrange(lo as int, hi as int));
    reflow_paragraphs_bytes(trimmed)
}

/// Final cleanup pass: spacing commands, line breaks, phantoms, rules, font
/// switches and leaked definitions go; commands are unwrapped to their
/// argument and grouping braces dropped (outside math); orphan commands and
/// stray backslashes go; whitespace is collapsed, lines trimmed and
/// paragraphs reflowed.
pub fn cleanup(text: &str) -> (res: String)
    ensures
        res@ == utf8_lossy(cleaned(text.spec_bytes())),
{
    let out = cleanup_bytes(text.as_bytes());
    string_from_bytes(out.as_slice())
}

} // verus!
