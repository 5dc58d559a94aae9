//! Byte-level search and copy primitives shared by the conversion passes.

use vstd::prelude::*;
use vstd::string::StringSliceAdditionalSpecFns;

verus! {

/// The byte strings held in a list of vectors.
pub open spec fn rows_view(v: Seq<Vec<u8>>) -> Seq<Seq<u8>> {
    v.map_values(|r: Vec<u8>| r@)
}

/// `n` occurs in `h` at position `i`.
pub open spec fn match_at(h: Seq<u8>, n: Seq<u8>, i: int) -> bool {
    0 <= i && i + n.len() <= h.len() && h.subrange(i, i + n.len()) == n
}

/// First occurrence of `n` in `h` at or after `from`.
pub open spec fn find_from(h: Seq<u8>, n: Seq<u8>, from: int) -> Option<int>
    decreases h.len() + 1 - from,
{
    if from < 0 || from + n.len() > h.len() {
        None
    } else if match_at(h, n, from) {
        Some(from)
    } else {
        find_from(h, n, from + 1)
    }
}

pub proof fn lemma_find_from_bounds(h: Seq<u8>, n: Seq<u8>, from: int)
    requires
        0 <= from,
    ensures
        find_from(h, n, from) matches Some(p) ==> from <= p && p + n.len() <= h.len()
            && match_at(h, n, p),
        find_from(h, n, from) is None ==> forall|k: int|
            from <= k ==> !#[trigger] match_at(h, n, k),
    decreases h.len() + 1 - from,
{
    if from < 0 || from + n.len() > h.len() {
        assert forall|k: int| from <= k implies !#[trigger] match_at(h, n, k) by {}
    } else if match_at(h, n, from) {
    } else {
        lemma_find_from_bounds(h, n, from + 1);
        assert forall|k: int| from <= k && find_from(h, n, from) is None implies !#[trigger] match_at(h, n, k) by {
            if k > from {
            }
        }
    }
}

/// Whether `n` occurs in `h` at `i`.
pub fn bytes_match_at(h: &[u8], n: &[u8], i: usize) -> (res: bool)
    ensures
        res == match_at(h@, n@, i as int),
{
    if i > h.len() || n.len() > h.len() - i {
        return false;
    }
    let mut k: usize = 0;
    while k < n.len()
        invariant
            i + n.len() <= h.len(),
            k <= n.len(),
            forall|j: int| 0 <= j < k ==> h@[i + j] == n@[j],
        decreases n.len() - k,
    {
        if h[i + k] != n[k] {
            assert(h@.subrange(i as int, i + n.len())[k as int] != n@[k as int]);
            return false;
        }
        k = k + 1;
    }
    assert(h@.subrange(i as int, i + n.len()) =~= n@);
    true
}

/// First occurrence of `n` in `h` at or after `from`.
pub fn find_bytes(h: &[u8], n: &[u8], from: usize) -> (res: Option<usize>)
    ensures
        find_from(h@, n@, from as int) == match res {
            Some(p) => Some(p as int),
            None => None,
        },
        res matches Some(p) ==> from <= p && p + n.len() <= h.len() && match_at(h@, n@, p as int),
{
    proof {
        lemma_find_from_bounds(h@, n@, from as int);
    }
    if from > h.len() || n.len() > h.len() - from {
        return None;
    }
    if n.len() == 0 {
        assert(h@.subrange(from as int, from as int) =~= n@);
        return Some(from);
    }
    let last = h.len() - n.len();
    let mut i = from;
    while i <= last
        invariant
            n.len() > 0,
            from <= i,
            last + n.len() == h.len(),
            i <= last + 1,
            find_from(h@, n@, i as int) == find_from(h@, n@, from as int),
        decreases last + 1 - i,
    {
        if bytes_match_at(h, n, i) {
            return Some(i);
        }
        i = i + 1;
    }
    None
}

/// Append `src[a..b]` to `out`.
pub fn push_range(out: &mut Vec<u8>, src: &[u8], a: usize, b: usize)
    requires
        a <= b <= src.len(),
    ensures
        final(out)@ == old(out)@ + src@.subrange(a as int, b as int),
{
    let mut i = a;
    while i < b
        invariant
            a <= i <= b <= src.len(),
            out@ == old(out)@ + src@.subrange(a as int, i as int),
        decreases b - i,
    {
        out.push(src[i]);
        i = i + 1;
        assert(src@.subrange(a as int, i as int) =~= src@.subrange(a as int, i - 1).push(
            src@[i - 1],
        ));
    }
}

/// Append all of `src` to `out`.
pub fn push_all(out: &mut Vec<u8>, src: &[u8])
    ensures
        final(out)@ == old(out)@ + src@,
{
    push_range(out, src, 0, src.len());
    assert(src@.subrange(0, src@.len() as int) =~= src@);
}

/// Copy of `src[a..b]`.
pub fn slice_to_vec(src: &[u8], a: usize, b: usize) -> (res: Vec<u8>)
    requires
        a <= b <= src.len(),
    ensures
        res@ == src@.subrange(a as int, b as int),
{
    let mut v: Vec<u8> = Vec::new();
    push_range(&mut v, src, a, b);
    assert(v@ =~= src@.subrange(a as int, b as int));
    v
}

/// Byte-wise equality of two slices.
pub fn bytes_eq(a: &[u8], b: &[u8]) -> (res: bool)
    ensures
        res == (a@ == b@),
{
    if a.len() != b.len() {
        return false;
    }
    let r = bytes_match_at(a, b, 0);
    assert(a@.subrange(0, b@.len() as int) =~= a@);
    r
}

/// `str::replace` on bytes: every non-overlapping occurrence of a non-empty
/// `from`, scanning left to right from `i`, is replaced by `to`.
pub open spec fn replace_from(h: Seq<u8>, from: Seq<u8>, to: Seq<u8>, i: int) -> Seq<u8>
    decreases h.len() - i,
{
    if i < 0 || i >= h.len() || from.len() == 0 {
        if 0 <= i <= h.len() {
            h.subrange(i, h.len() as int)
        } else {
            Seq::empty()
        }
    } else if match_at(h, from, i) {
        to + replace_from(h, from, to, i + from.len())
    } else {
        seq![h[i]] + replace_from(h, from, to, i + 1)
    }
}

pub open spec fn replace_all_spec(h: Seq<u8>, from: Seq<u8>, to: Seq<u8>) -> Seq<u8> {
    replace_from(h, from, to, 0)
}

/// Replace every occurrence of `from` (non-empty) by `to`, left to right.
pub fn replace_bytes(h: &[u8], from: &[u8], to: &[u8]) -> (res: Vec<u8>)
    ensures
        res@ == replace_all_spec(h@, from@, to@),
{
    let mut out: Vec<u8> = Vec::new();
    if from.len() == 0 {
        push_all(&mut out, h);
        assert(h@.subrange(0, h@.len() as int) =~= h@);
        return out;
    }
    let mut i: usize = 0;
    while i < h.len()
        invariant
            from.len() > 0,
            i <= h.len(),
            out@ + replace_from(h@, from@, to@, i as int) == replace_all_spec(h@, from@, to@),
        decreases h.len() - i,
    {
        if bytes_match_at(h, from, i) {
            let ghost o = out@;
            push_all(&mut out, to);
            assert(o + (to@ + replace_from(h@, from@, to@, i + from.len())) =~= out@
                + replace_from(h@, from@, to@, i + from.len()));
            i = i + from.len();
        } else {
            let ghost o = out@;
            out.push(h[i]);
            assert(o + (seq![h@[i as int]] + replace_from(h@, from@, to@, i + 1)) =~= out@
                + replace_from(h@, from@, to@, i + 1));
            i = i + 1;
        }
    }
    assert(replace_from(h@, from@, to@, i as int) =~= Seq::<u8>::empty());
    assert(out@ + Seq::<u8>::empty() =~= out@);
    out
}

} // verus!

verus! {

/// `x` is one of the strings of `list` (as bytes).
pub open spec fn in_list(x: Seq<u8>, list: Seq<&str>) -> bool {
    exists|i: int| 0 <= i < list.len() && (#[trigger] list[i]).spec_bytes() == x
}

/// Whether `x` equals one of the strings of `list`.
pub fn bytes_in_list(x: &[u8], list: &[&str]) -> (res: bool)
    ensures
        res == in_list(x@, list@),
{
    let mut i: usize = 0;
    while i < list.len()
        invariant
            i <= list.len(),
            forall|j: int| 0 <= j < i ==> (#[trigger] list@[j]).spec_bytes() != x@,
        decreases list.len() - i,
    {
        if bytes_eq(list[i].as_bytes(), x) {
            return true;
        }
        i = i + 1;
    }
    false
}

/// ASCII whitespace as `u8::is_ascii_whitespace` defines it.
pub open spec fn is_ascii_ws(c: u8) -> bool {
    c == 0x20 || c == 0x09 || c == 0x0a || c == 0x0c || c == 0x0d
}

/// First position at or after `i` that is not ASCII whitespace.
pub open spec fn skip_ascii_ws(b: Seq<u8>, i: int) -> int
    decreases b.len() - i,
{
    if 0 <= i < b.len() && is_ascii_ws(b[i]) {
        skip_ascii_ws(b, i + 1)
    } else {
        i
    }
}

/// `skip_ascii_ws` on the byte level.
pub fn skip_ascii_ws_bytes(b: &[u8], pos: usize) -> (res: usize)
    requires
        pos <= b.len(),
    ensures
        res as int == skip_ascii_ws(b@, pos as int),
        pos <= res <= b.len(),
{
    let mut i = pos;
    while i < b.len() && (b[i] == 0x20 || b[i] == 0x09 || b[i] == 0x0a || b[i] == 0x0c || b[i]
        == 0x0d)
        invariant
            pos <= i <= b.len(),
            skip_ascii_ws(b@, i as int) == skip_ascii_ws(b@, pos as int),
        decreases b.len() - i,
    {
        i = i + 1;
    }
    i
}

} // verus!

verus! {

/// `h` begins with `p`.
pub open spec fn starts_with(h: Seq<u8>, p: Seq<u8>) -> bool {
    match_at(h, p, 0)
}

/// `h` ends with `p`.
pub open spec fn ends_with(h: Seq<u8>, p: Seq<u8>) -> bool {
    p.len() <= h.len() && match_at(h, p, h.len() - p.len())
}

/// `p` occurs somewhere in `h`.
pub open spec fn contains(h: Seq<u8>, p: Seq<u8>) -> bool {
    find_from(h, p, 0) is Some
}

pub fn bytes_starts_with(h: &[u8], p: &[u8]) -> (res: bool)
    ensures
        res == starts_with(h@, p@),
{
    bytes_match_at(h, p, 0)
}

pub fn bytes_ends_with(h: &[u8], p: &[u8]) -> (res: bool)
    ensures
        res == ends_with(h@, p@),
{
    if p.len() > h.len() {
        return false;
    }
    bytes_match_at(h, p, h.len() - p.len())
}

pub fn bytes_contains(h: &[u8], p: &[u8]) -> (res: bool)
    ensures
        res == contains(h@, p@),
{
    find_bytes(h, p, 0).is_some()
}

/// ASCII lowercase of one byte.
pub open spec fn lower(c: u8) -> u8 {
    if 0x41 <= c <= 0x5a {
        (c + 0x20) as u8
    } else {
        c
    }
}

pub open spec fn lowercase(s: Seq<u8>) -> Seq<u8> {
    s.map_values(|c: u8| lower(c))
}

/// ASCII lowercase copy, as `to_ascii_lowercase`.
pub fn to_ascii_lowercase_bytes(s: &[u8]) -> (res: Vec<u8>)
    ensures
        res@ == lowercase(s@),
{
    let mut out: Vec<u8> = Vec::new();
    let mut i: usize = 0;
    while i < s.len()
        invariant
            i <= s.len(),
            out@ == lowercase(s@.subrange(0, i as int)),
        decreases s.len() - i,
    {
        let c = s[i];
        let l = if 0x41 <= c && c <= 0x5a { c + 0x20 } else { c };
        out.push(l);
        assert(lowercase(s@.subrange(0, i + 1)) =~= lowercase(s@.subrange(0, i as int)).push(l));
        i = i + 1;
    }
    assert(s@.subrange(0, s@.len() as int) =~= s@);
    out
}

/// Length of the Unicode whitespace character encoded at the start of `s`
/// (0 if `s` does not start with one).
pub open spec fn ws_len_front(s: Seq<u8>) -> nat {
    if s.len() >= 1 && ((0x09 <= s[0] && s[0] <= 0x0d) || s[0] == 0x20) {
        1
    } else if s.len() >= 2 && s[0] == 0xc2 && (s[1] == 0x85 || s[1] == 0xa0) {
        2
    } else if s.len() >= 3 && ((s[0] == 0xe1 && s[1] == 0x9a && s[2] == 0x80) || (s[0] == 0xe2
        && s[1] == 0x80 && ((0x80 <= s[2] && s[2] <= 0x8a) || s[2] == 0xa8 || s[2] == 0xa9 || s[2]
        == 0xaf)) || (s[0] == 0xe2 && s[1] == 0x81 && s[2] == 0x9f) || (s[0] == 0xe3 && s[1]
        == 0x80 && s[2] == 0x80)) {
        3
    } else {
        0
    }
}

/// Length of the Unicode whitespace character encoded at the end of `s`.
pub open spec fn ws_len_back(s: Seq<u8>) -> nat {
    let n = s.len() as int;
    if n >= 1 && ((0x09 <= s[n - 1] && s[n - 1] <= 0x0d) || s[n - 1] == 0x20) {
        1
    } else if n >= 2 && ws_len_front(s.subrange(n - 2, n)) == 2 {
        2
    } else if n >= 3 && ws_len_front(s.subrange(n - 3, n)) == 3 {
        3
    } else {
        0
    }
}

/// `s` without leading and trailing Unicode whitespace, as `str::trim`
/// does on valid UTF-8.
pub open spec fn trim_ws(s: Seq<u8>) -> Seq<u8>
    decreases s.len(),
{
    if ws_len_front(s) > 0 && ws_len_front(s) <= s.len() {
        trim_ws(s.subrange(ws_len_front(s) as int, s.len() as int))
    } else if ws_len_back(s) > 0 && ws_len_back(s) <= s.len() {
        trim_ws(s.subrange(0, s.len() - ws_len_back(s)))
    } else {
        s
    }
}

pub fn ws_len_front_at(s: &[u8], a: usize, b: usize) -> (res: usize)
    requires
        a <= b <= s.len(),
    ensures
        res as nat == ws_len_front(s@.subrange(a as int, b as int)),
{
    let n = b - a;
    let ghost x = s@.subrange(a as int, b as int);
    if n >= 1 && ((0x09 <= s[a] && s[a] <= 0x0d) || s[a] == 0x20) {
        assert(x[0] == s@[a as int]);
        return 1;
    }
    if n >= 1 {
        assert(x[0] == s@[a as int]);
    }
    if n >= 2 {
        assert(x[1] == s@[a + 1]);
    }
    if n >= 3 {
        assert(x[2] == s@[a + 2]);
    }
    if n >= 2 && s[a] == 0xc2 && (s[a + 1] == 0x85 || s[a + 1] == 0xa0) {
        return 2;
    }
    if n >= 3 && ((s[a] == 0xe1 && s[a + 1] == 0x9a && s[a + 2] == 0x80) || (s[a] == 0xe2 && s[a + 1]
        == 0x80 && ((0x80 <= s[a + 2] && s[a + 2] <= 0x8a) || s[a + 2] == 0xa8 || s[a + 2] == 0xa9
        || s[a + 2] == 0xaf)) || (s[a] == 0xe2 && s[a + 1] == 0x81 && s[a + 2] == 0x9f) || (s[a]
        == 0xe3 && s[a + 1] == 0x80 && s[a + 2] == 0x80)) {
        return 3;
    }
    0
}

fn ws_len_back_at(s: &[u8], a: usize, b: usize) -> (res: usize)
    requires
        a <= b <= s.len(),
    ensures
        res as nat == ws_len_back(s@.subrange(a as int, b as int)),
{
    let n = b - a;
    let ghost x = s@.subrange(a as int, b as int);
    if n >= 1 && ((0x09 <= s[b - 1] && s[b - 1] <= 0x0d) || s[b - 1] == 0x20) {
        assert(x[n - 1] == s@[b - 1]);
        return 1;
    }
    if n >= 1 {
        assert(x[n - 1] == s@[b - 1]);
    }
    if n >= 2 && ws_len_front_at(s, b - 2, b) == 2 {
        assert(x.subrange(n - 2, n as int) =~= s@.subrange(b - 2, b as int));
        return 2;
    }
    if n >= 2 {
        assert(x.subrange(n - 2, n as int) =~= s@.subrange(b - 2, b as int));
    }
    if n >= 3 && ws_len_front_at(s, b - 3, b) == 3 {
        assert(x.subrange(n - 3, n as int) =~= s@.subrange(b - 3, b as int));
        return 3;
    }
    if n >= 3 {
        assert(x.subrange(n - 3, n as int) =~= s@.subrange(b - 3, b as int));
    }
    0
}

/// Range of `s[a..b]` left after `trim_ws`.
pub fn trim_ws_range(s: &[u8], a: usize, b: usize) -> (res: (usize, usize))
    requires
        a <= b <= s.len(),
    ensures
        a <= res.0 <= res.1 <= b,
        s@.subrange(res.0 as int, res.1 as int) == trim_ws(s@.subrange(a as int, b as int)),
{
    let mut x = a;
    let mut y = b;
    loop
        invariant
            a <= x <= y <= b <= s.len(),
            trim_ws(s@.subrange(x as int, y as int)) == trim_ws(s@.subrange(a as int, b as int)),
        decreases y - x,
    {
        let f = ws_len_front_at(s, x, y);
        if f > 0 && f <= y - x {
            assert(s@.subrange(x as int, y as int).subrange(f as int, (y - x) as int) =~= s@.subrange(x + f, y as int));
            x = x + f;
            continue;
        }
        let k = ws_len_back_at(s, x, y);
        if k > 0 && k <= y - x {
            assert(s@.subrange(x as int, y as int).subrange(0, (y - x - k) as int) =~= s@.subrange(x as int, y - k));
            y = y - k;
            continue;
        }
        return (x, y);
    }
}

/// Start of the last `/`-separated component of `s`.
pub open spec fn last_component_start(s: Seq<u8>, i: int) -> int
    decreases i,
{
    if i <= 0 {
        0
    } else if s[i - 1] == 0x2f {
        i
    } else {
        last_component_start(s, i - 1)
    }
}

/// Where the last `/`-separated component of `s` starts.
pub fn last_component_bytes(s: &[u8]) -> (res: usize)
    ensures
        res as int == last_component_start(s@, s@.len() as int),
        res <= s.len(),
{
    let mut i = s.len();
    while i > 0 && s[i - 1] != 0x2f
        invariant
            i <= s.len(),
            last_component_start(s@, i as int) == last_component_start(s@, s@.len() as int),
        decreases i,
    {
        i = i - 1;
    }
    i
}

} // verus!

verus! {

/// `x` ends with one of the strings of `list`.
pub open spec fn ends_with_any(x: Seq<u8>, list: Seq<&str>) -> bool {
    exists|i: int| 0 <= i < list.len() && ends_with(x, (#[trigger] list[i]).spec_bytes())
}

/// `x` starts with one of the strings of `list`.
pub open spec fn starts_with_any(x: Seq<u8>, list: Seq<&str>) -> bool {
    exists|i: int| 0 <= i < list.len() && starts_with(x, (#[trigger] list[i]).spec_bytes())
}

/// How many strings of `list[..n]` occur in `x`.
pub open spec fn count_contained(x: Seq<u8>, list: Seq<&str>, n: int) -> nat
    decreases n,
{
    if n <= 0 {
        0
    } else {
        count_contained(x, list, n - 1) + if contains(x, list[n - 1].spec_bytes()) {
            1nat
        } else {
            0nat
        }
    }
}

pub fn bytes_ends_with_any(x: &[u8], list: &[&str]) -> (res: bool)
    ensures
        res == ends_with_any(x@, list@),
{
    let mut i: usize = 0;
    while i < list.len()
        invariant
            i <= list.len(),
            forall|j: int| 0 <= j < i ==> !ends_with(x@, (#[trigger] list@[j]).spec_bytes()),
        decreases list.len() - i,
    {
        if bytes_ends_with(x, list[i].as_bytes()) {
            return true;
        }
        i = i + 1;
    }
    false
}

pub fn bytes_starts_with_any(x: &[u8], list: &[&str]) -> (res: bool)
    ensures
        res == starts_with_any(x@, list@),
{
    let mut i: usize = 0;
    while i < list.len()
        invariant
            i <= list.len(),
            forall|j: int| 0 <= j < i ==> !starts_with(x@, (#[trigger] list@[j]).spec_bytes()),
        decreases list.len() - i,
    {
        if bytes_starts_with(x, list[i].as_bytes()) {
            return true;
        }
        i = i + 1;
    }
    false
}

pub fn count_contained_bytes(x: &[u8], list: &[&str]) -> (res: usize)
    ensures
        res as nat == count_contained(x@, list@, list@.len() as int),
{
    let mut n: usize = 0;
    let mut i: usize = 0;
    while i < list.len()
        invariant
            i <= list.len(),
            n <= i,
            n as nat == count_contained(x@, list@, i as int),
        decreases list.len() - i,
    {
        if bytes_contains(x, list[i].as_bytes()) {
            n = n + 1;
        }
        i = i + 1;
    }
    n
}

} // verus!
