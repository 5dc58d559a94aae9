//! The checkpoint log: which outer tars, and which papers within them,
//! are already done.
//!
//! Each non-blank line (trimmed) is either a bare tar name (the whole tar
//! completed) or `tar_name<TAB>arxiv_id` (that paper's row is in a readable
//! shard). Reading and appending the file is left to the caller.

use vstd::prelude::*;
use vstd::string::StringSliceAdditionalSpecFns;
use crate::preamble::{byte_end, lemma_byte_end, lossy_rows, string_views};
use crate::scan::{rows_view, slice_to_vec, trim_ws, trim_ws_range};
use crate::text::{string_from_bytes, utf8_lossy};

verus! {

/// Checkpoint state parsed from the log: completed tars and completed
/// (tar, paper) pairs, each listed once.
pub struct Checkpoint {
    pub tars: Vec<String>,
    pub papers: Vec<(String, String)>,
}

/// A log line: a tar name, with the paper id after its first tab if any.
pub type LogEntry = (Seq<u8>, Option<Seq<u8>>);

/// The entry of one trimmed, non-blank line.
pub open spec fn line_entry(t: Seq<u8>) -> LogEntry {
    let k = byte_end(t, 0, 0x09);
    if k < t.len() {
        (t.subrange(0, k), Some(t.subrange(k + 1, t.len() as int)))
    } else {
        (t, None)
    }
}

/// The entries of the lines starting at `i`, blank lines skipped.
pub open spec fn log_entries(c: Seq<u8>, i: int) -> Seq<LogEntry>
    decreases c.len() + 1 - i,
{
    if i < 0 || i > c.len() {
        Seq::empty()
    } else {
        proof {
            lemma_byte_end(c, i, 0x0a);
        }
        let e = byte_end(c, i, 0x0a);
        let t = trim_ws(c.subrange(i, e));
        let here = if t.len() == 0 {
            Seq::empty()
        } else {
            seq![line_entry(t)]
        };
        if e >= c.len() {
            here
        } else {
            here + log_entries(c, e + 1)
        }
    }
}

/// The distinct completed tars of the first `n` entries, in order.
pub open spec fn tar_names(es: Seq<LogEntry>, n: int) -> Seq<Seq<u8>>
    decreases n,
{
    if n <= 0 {
        Seq::empty()
    } else {
        let l = tar_names(es, n - 1);
        if es[n - 1].1 is None && !l.contains(es[n - 1].0) {
            l.push(es[n - 1].0)
        } else {
            l
        }
    }
}

/// The distinct completed (tar, paper) pairs of the first `n` entries.
pub open spec fn paper_pairs(es: Seq<LogEntry>, n: int) -> Seq<(Seq<u8>, Seq<u8>)>
    decreases n,
{
    if n <= 0 {
        Seq::empty()
    } else {
        let l = paper_pairs(es, n - 1);
        match es[n - 1].1 {
            Some(id) => if !l.contains((es[n - 1].0, id)) {
                l.push((es[n - 1].0, id))
            } else {
                l
            },
            None => l,
        }
    }
}

pub open spec fn pair_strings(v: Seq<(String, String)>) -> Seq<(Seq<char>, Seq<char>)> {
    v.map_values(|p: (String, String)| (p.0@, p.1@))
}

pub open spec fn lossy_pairs(v: Seq<(Seq<u8>, Seq<u8>)>) -> Seq<(Seq<char>, Seq<char>)> {
    v.map_values(|p: (Seq<u8>, Seq<u8>)| (utf8_lossy(p.0), utf8_lossy(p.1)))
}

pub open spec fn entry_views(v: Seq<(Vec<u8>, Option<Vec<u8>>)>) -> Seq<LogEntry> {
    v.map_values(
        |e: (Vec<u8>, Option<Vec<u8>>)|
            (
                e.0@,
                match e.1 {
                    Some(x) => Some(x@),
                    None => None,
                },
            ),
    )
}

fn log_entries_bytes(c: &[u8]) -> (res: Vec<(Vec<u8>, Option<Vec<u8>>)>)
    ensures
        entry_views(res@) == log_entries(c@, 0),
{
    let mut out: Vec<(Vec<u8>, Option<Vec<u8>>)> = Vec::new();
    let mut i: usize = 0;
    loop
        invariant
            i <= c.len(),
            entry_views(out@) + log_entries(c@, i as int) == log_entries(c@, 0),
        decreases c.len() - i,
    {
        let ghost ov = entry_views(out@);
        let mut e = i;
        while e < c.len() && c[e] != 0x0a
            invariant
                i <= e <= c.len(),
                byte_end(c@, e as int, 0x0a) == byte_end(c@, i as int, 0x0a),
            decreases c.len() - e,
        {
            e = e + 1;
        }
        let (a, b) = trim_ws_range(c, i, e);
        let ghost t = c@.subrange(a as int, b as int);
        let ghost here: Seq<LogEntry> = if t.len() == 0 {
            Seq::empty()
        } else {
            seq![line_entry(t)]
        };
        if a < b {
            let mut k = a;
            while k < b && c[k] != 0x09
                invariant
                    a <= k <= b,
                    b <= c.len(),
                    t == c@.subrange(a as int, b as int),
                    byte_end(t, k - a, 0x09) == byte_end(t, 0, 0x09),
                decreases b - k,
            {
                assert(t[k - a] == c@[k as int]);
                k = k + 1;
            }
            if k < b {
                assert(t[k - a] == c@[k as int]);
                let name = slice_to_vec(c, a, k);
                let id = slice_to_vec(c, k + 1, b);
                assert(name@ =~= t.subrange(0, k - a));
                assert(id@ =~= t.subrange(k - a + 1, t.len() as int));
                out.push((name, Some(id)));
            } else {
                let name = slice_to_vec(c, a, b);
                out.push((name, None));
            }
        }
        assert(entry_views(out@) =~= ov + here);
        if e >= c.len() {
            return out;
        }
        assert(ov + (here + log_entries(c@, e + 1)) =~= entry_views(out@) + log_entries(c@, e + 1));
        i = e + 1;
    }
}

/// `s` with every repeated element dropped after its first occurrence.
pub open spec fn dedup<T>(s: Seq<T>) -> Seq<T>
    decreases s.len(),
{
    if s.len() == 0 {
        s
    } else {
        let d = dedup(s.drop_last());
        if d.contains(s.last()) {
            d
        } else {
            d.push(s.last())
        }
    }
}

proof fn lemma_push_contains<T>(p: Seq<T>, a: T, x: T)
    ensures
        p.push(a).contains(x) <==> (p.contains(x) || x == a),
{
    if p.push(a).contains(x) {
        let k = choose|k: int| 0 <= k < p.push(a).len() && p.push(a)[k] == x;
        if k < p.len() {
            assert(p[k] == x);
        }
    }
    if p.contains(x) {
        let k = choose|k: int| 0 <= k < p.len() && p[k] == x;
        assert(p.push(a)[k] == x);
    }
    if x == a {
        assert(p.push(a)[p.len() as int] == x);
    }
}

/// Deduplication keeps exactly the elements, each once.
pub proof fn lemma_dedup<T>(s: Seq<T>)
    ensures
        dedup(s).no_duplicates(),
        forall|x: T| #[trigger] dedup(s).contains(x) <==> s.contains(x),
    decreases s.len(),
{
    if s.len() > 0 {
        let p = s.drop_last();
        let a = s.last();
        lemma_dedup(p);
        let d = dedup(p);
        assert(s =~= p.push(a));
        assert forall|x: T| #[trigger] dedup(s).contains(x) <==> s.contains(x) by {
            lemma_push_contains(p, a, x);
            lemma_push_contains(d, a, x);
        }
        if !d.contains(a) {
            assert forall|i: int, j: int| 0 <= i < j < d.push(a).len() implies d.push(a)[i] != d.push(a)[j] by {
                if j == d.len() {
                    assert(d.push(a)[i] == d[i]);
                }
            }
        }
    }
}

fn same_string(a: &String, b: &String) -> (res: bool)
    ensures
        res == (a@ == b@),
{
    let r = crate::scan::bytes_eq(a.as_str().as_bytes(), b.as_str().as_bytes());
    proof {
        vstd::utf8::encode_utf8_decode_utf8(a@);
        vstd::utf8::encode_utf8_decode_utf8(b@);
    }
    r
}

/// The strings of `v`, each once, in order of first occurrence.
fn dedup_strings(v: Vec<String>) -> (res: Vec<String>)
    ensures
        string_views(res@) == dedup(string_views(v@)),
{
    let ghost sv = string_views(v@);
    let mut out: Vec<String> = Vec::new();
    let mut i: usize = 0;
    assert(string_views(out@) =~= dedup(sv.subrange(0, 0)));
    while i < v.len()
        invariant
            i <= v.len(),
            sv == string_views(v@),
            string_views(out@) == dedup(sv.subrange(0, i as int)),
        decreases v.len() - i,
    {
        let ghost ov = string_views(out@);
        let mut found = false;
        let mut k: usize = 0;
        while k < out.len()
            invariant
                k <= out.len(),
                i < v.len(),
                ov == string_views(out@),
                found == exists|q: int| 0 <= q < k && ov[q] == v@[i as int]@,
            decreases out.len() - k,
        {
            assert(ov[k as int] == out@[k as int]@);
            if same_string(&out[k], &v[i]) {
                found = true;
            }
            k = k + 1;
        }
        assert(sv.subrange(0, i + 1).drop_last() =~= sv.subrange(0, i as int));
        assert(sv.subrange(0, i + 1).last() == v@[i as int]@);
        proof {
            if ov.contains(v@[i as int]@) {
                let q = choose|q: int| 0 <= q < ov.len() && ov[q] == v@[i as int]@;
                assert(ov[q] == v@[i as int]@);
            }
        }
        if !found {
            out.push(v[i].clone());
            assert(string_views(out@) =~= ov.push(v@[i as int]@));
        }
        i = i + 1;
    }
    assert(sv.subrange(0, v.len() as int) =~= sv);
    out
}

/// The pairs of `v`, each once, in order of first occurrence.
fn dedup_string_pairs(v: Vec<(String, String)>) -> (res: Vec<(String, String)>)
    ensures
        pair_strings(res@) == dedup(pair_strings(v@)),
{
    let ghost sv = pair_strings(v@);
    let mut out: Vec<(String, String)> = Vec::new();
    let mut i: usize = 0;
    assert(pair_strings(out@) =~= dedup(sv.subrange(0, 0)));
    while i < v.len()
        invariant
            i <= v.len(),
            sv == pair_strings(v@),
            pair_strings(out@) == dedup(sv.subrange(0, i as int)),
        decreases v.len() - i,
    {
        let ghost ov = pair_strings(out@);
        let ghost x = (v@[i as int].0@, v@[i as int].1@);
        let mut found = false;
        let mut k: usize = 0;
        while k < out.len()
            invariant
                k <= out.len(),
                i < v.len(),
                ov == pair_strings(out@),
                x == (v@[i as int].0@, v@[i as int].1@),
                found == exists|q: int| 0 <= q < k && ov[q] == x,
            decreases out.len() - k,
        {
            assert(ov[k as int] == (out@[k as int].0@, out@[k as int].1@));
            if same_string(&out[k].0, &v[i].0) && same_string(&out[k].1, &v[i].1) {
                found = true;
            }
            k = k + 1;
        }
        assert(sv.subrange(0, i + 1).drop_last() =~= sv.subrange(0, i as int));
        assert(sv.subrange(0, i + 1).last() == x);
        proof {
            if ov.contains(x) {
                let q = choose|q: int| 0 <= q < ov.len() && ov[q] == x;
                assert(ov[q] == x);
            }
        }
        if !found {
            out.push((v[i].0.clone(), v[i].1.clone()));
            assert(pair_strings(out@) =~= ov.push(x));
        }
        i = i + 1;
    }
    assert(sv.subrange(0, v.len() as int) =~= sv);
    out
}

/// Trimming whitespace from valid UTF-8 text keeps it valid UTF-8: each
/// whitespace character removed is a whole character.
pub proof fn lemma_trim_ws_utf8(t: Seq<u8>)
    requires
        vstd::utf8::valid_utf8(t),
    ensures
        vstd::utf8::valid_utf8(trim_ws(t)),
    decreases t.len(),
{
    let f = crate::scan::ws_len_front(t);
    let b = crate::scan::ws_len_back(t);
    if f > 0 && f <= t.len() {
        assert(vstd::utf8::length_of_first_scalar(t) == f);
        assert(vstd::utf8::pop_first_scalar(t) =~= t.subrange(f as int, t.len() as int));
        lemma_trim_ws_utf8(t.subrange(f as int, t.len() as int));
    } else if b > 0 && b <= t.len() {
        let k = t.len() - b;
        if b == 2 {
            assert(t.subrange(k, t.len() as int)[0] == t[k]);
        } else if b == 3 {
            assert(t.subrange(k, t.len() as int)[0] == t[k]);
        }
        assert(!vstd::utf8::is_continuation_byte(t[k]));
        vstd::utf8::is_char_boundary_iff_not_is_continuation_byte(t, k);
        vstd::utf8::valid_utf8_split(t, k);
        lemma_trim_ws_utf8(t.subrange(0, k));
    }
}

/// Both fields of a log entry are valid UTF-8.
pub open spec fn entry_utf8(e: LogEntry) -> bool {
    &&& vstd::utf8::valid_utf8(e.0)
    &&& e.1 matches Some(x) ==> vstd::utf8::valid_utf8(x)
}

/// The entries of a valid UTF-8 log have valid UTF-8 fields: lines end at
/// ASCII newlines and fields at ASCII tabs.
proof fn lemma_log_entries_utf8(c: Seq<u8>, i: int)
    requires
        0 <= i <= c.len(),
        vstd::utf8::valid_utf8(c.subrange(i, c.len() as int)),
    ensures
        forall|j: int| 0 <= j < log_entries(c, i).len() ==> entry_utf8(#[trigger] log_entries(c, i)[j]),
    decreases c.len() + 1 - i,
{
    lemma_byte_end(c, i, 0x0a);
    let e = byte_end(c, i, 0x0a);
    if e < c.len() {
        crate::text::lemma_utf8_before_ascii(c, i, e);
        crate::text::lemma_utf8_after_ascii(c, i, e);
        lemma_log_entries_utf8(c, e + 1);
    } else {
        assert(c.subrange(i, e) =~= c.subrange(i, c.len() as int));
    }
    let t = trim_ws(c.subrange(i, e));
    lemma_trim_ws_utf8(c.subrange(i, e));
    let here: Seq<LogEntry> = if t.len() == 0 {
        Seq::empty()
    } else {
        seq![line_entry(t)]
    };
    if t.len() > 0 {
        lemma_byte_end(t, 0, 0x09);
        let k = byte_end(t, 0, 0x09);
        assert(t.subrange(0, t.len() as int) =~= t);
        if k < t.len() {
            crate::text::lemma_utf8_before_ascii(t, 0, k);
            crate::text::lemma_utf8_after_ascii(t, 0, k);
        }
        assert(entry_utf8(line_entry(t)));
    }
    assert forall|j: int| 0 <= j < log_entries(c, i).len() implies entry_utf8(#[trigger] log_entries(c, i)[j]) by {
        if e < c.len() {
            assert(log_entries(c, i) == here + log_entries(c, e + 1));
            if j >= here.len() {
                assert(log_entries(c, i)[j] == log_entries(c, e + 1)[j - here.len()]);
            }
        } else {
            assert(log_entries(c, i) == here);
        }
    }
}

/// Completed tar names of entries with valid UTF-8 fields are valid UTF-8.
proof fn lemma_tar_names_utf8(es: Seq<LogEntry>, n: int)
    requires
        n <= es.len(),
        forall|j: int| 0 <= j < es.len() ==> entry_utf8(#[trigger] es[j]),
    ensures
        forall|k: int| 0 <= k < tar_names(es, n).len() ==> vstd::utf8::valid_utf8(#[trigger] tar_names(es, n)[k]),
    decreases n,
{
    if n > 0 {
        lemma_tar_names_utf8(es, n - 1);
        assert(entry_utf8(es[n - 1]));
        let l = tar_names(es, n - 1);
        if es[n - 1].1 is None && !l.contains(es[n - 1].0) {
            assert forall|k: int| 0 <= k < tar_names(es, n).len() implies vstd::utf8::valid_utf8(
                #[trigger] tar_names(es, n)[k],
            ) by {
                if k < l.len() {
                    assert(tar_names(es, n)[k] == l[k]);
                }
            }
        }
    }
}

/// Completed (tar, paper) pairs of entries with valid UTF-8 fields are
/// valid UTF-8.
proof fn lemma_paper_pairs_utf8(es: Seq<LogEntry>, n: int)
    requires
        n <= es.len(),
        forall|j: int| 0 <= j < es.len() ==> entry_utf8(#[trigger] es[j]),
    ensures
        forall|k: int|
            0 <= k < paper_pairs(es, n).len() ==> vstd::utf8::valid_utf8((#[trigger] paper_pairs(es, n)[k]).0)
                && vstd::utf8::valid_utf8(paper_pairs(es, n)[k].1),
    decreases n,
{
    if n > 0 {
        lemma_paper_pairs_utf8(es, n - 1);
        assert(entry_utf8(es[n - 1]));
        let l = paper_pairs(es, n - 1);
        match es[n - 1].1 {
            Some(id) => {
                if !l.contains((es[n - 1].0, id)) {
                    assert forall|k: int| 0 <= k < paper_pairs(es, n).len() implies vstd::utf8::valid_utf8(
                        (#[trigger] paper_pairs(es, n)[k]).0,
                    ) && vstd::utf8::valid_utf8(paper_pairs(es, n)[k].1) by {
                        if k < l.len() {
                            assert(paper_pairs(es, n)[k] == l[k]);
                        }
                    }
                }
            },
            None => {},
        }
    }
}

/// The texts of pairs of byte strings that are valid UTF-8.
pub open spec fn decoded_pairs(v: Seq<(Seq<u8>, Seq<u8>)>) -> Seq<(Seq<char>, Seq<char>)> {
    v.map_values(|p: (Seq<u8>, Seq<u8>)| (vstd::utf8::decode_utf8(p.0), vstd::utf8::decode_utf8(p.1)))
}

/// The texts of byte strings that are valid UTF-8.
pub open spec fn decoded_rows(v: Seq<Seq<u8>>) -> Seq<Seq<char>> {
    v.map_values(|r: Seq<u8>| vstd::utf8::decode_utf8(r))
}

/// Parse the checkpoint log text.
pub fn parse_checkpoint(content: &str) -> (res: Checkpoint)
    ensures
        string_views(res.tars@) == dedup(
            lossy_rows(
                tar_names(log_entries(content.spec_bytes(), 0), log_entries(content.spec_bytes(), 0).len() as int),
            ),
        ),
        pair_strings(res.papers@) == dedup(
            lossy_pairs(
                paper_pairs(log_entries(content.spec_bytes(), 0), log_entries(content.spec_bytes(), 0).len() as int),
            ),
        ),
        string_views(res.tars@) == dedup(
            decoded_rows(
                tar_names(log_entries(content.spec_bytes(), 0), log_entries(content.spec_bytes(), 0).len() as int),
            ),
        ),
        pair_strings(res.papers@) == dedup(
            decoded_pairs(
                paper_pairs(log_entries(content.spec_bytes(), 0), log_entries(content.spec_bytes(), 0).len() as int),
            ),
        ),
        string_views(res.tars@).no_duplicates(),
        pair_strings(res.papers@).no_duplicates(),
{
    let es = log_entries_bytes(content.as_bytes());
    let ghost ev = entry_views(es@);
    let mut tars: Vec<Vec<u8>> = Vec::new();
    let mut papers: Vec<(Vec<u8>, Vec<u8>)> = Vec::new();
    let mut i: usize = 0;
    while i < es.len()
        invariant
            i <= es.len(),
            ev == entry_views(es@),
            rows_view(tars@) == tar_names(ev, i as int),
            papers@.map_values(|p: (Vec<u8>, Vec<u8>)| (p.0@, p.1@)) == paper_pairs(ev, i as int),
        decreases es.len() - i,
    {
        let ghost tv = rows_view(tars@);
        let ghost pv = papers@.map_values(|p: (Vec<u8>, Vec<u8>)| (p.0@, p.1@));
        match &es[i].1 {
            None => {
                let name = es[i].0.as_slice();
                if !crate::input_resolve::contains_row(&tars, name) {
                    tars.push(slice_to_vec(name, 0, name.len()));
                    assert(name@.subrange(0, name@.len() as int) =~= name@);
                    assert(rows_view(tars@) =~= tv.push(ev[i as int].0));
                }
            },
            Some(id) => {
                let name = es[i].0.as_slice();
                let mut found = false;
                let mut k: usize = 0;
                while k < papers.len()
                    invariant
                        k <= papers.len(),
                        pv == papers@.map_values(|p: (Vec<u8>, Vec<u8>)| (p.0@, p.1@)),
                        found == exists|q: int| 0 <= q < k && pv[q] == (name@, id@),
                    decreases papers.len() - k,
                {
                    assert(pv[k as int] == (papers@[k as int].0@, papers@[k as int].1@));
                    if crate::scan::bytes_eq(papers[k].0.as_slice(), name) && crate::scan::bytes_eq(
                        papers[k].1.as_slice(),
                        id.as_slice(),
                    ) {
                        found = true;
                    }
                    k = k + 1;
                }
                proof {
                    if pv.contains((name@, id@)) {
                        let q = choose|q: int| 0 <= q < pv.len() && pv[q] == (name@, id@);
                        assert(pv[q] == (name@, id@));
                    }
                    if found {
                        let q = choose|q: int| 0 <= q < papers.len() && pv[q] == (name@, id@);
                        assert(pv.contains((name@, id@)));
                    }
                }
                if !found {
                    papers.push((slice_to_vec(name, 0, name.len()), slice_to_vec(id.as_slice(), 0, id.len())));
                    assert(name@.subrange(0, name@.len() as int) =~= name@);
                    assert(id@.subrange(0, id@.len() as int) =~= id@);
                    assert(papers@.map_values(|p: (Vec<u8>, Vec<u8>)| (p.0@, p.1@)) =~= pv.push((name@, id@)));
                }
            },
        }
        i = i + 1;
    }
    let mut tar_strings: Vec<String> = Vec::new();
    let mut j: usize = 0;
    while j < tars.len()
        invariant
            j <= tars.len(),
            tar_strings.len() == j,
            forall|q: int| 0 <= q < j ==> (#[trigger] tar_strings@[q])@ == utf8_lossy(tars@[q]@),
            forall|q: int|
                0 <= q < j && vstd::utf8::valid_utf8(tars@[q]@) ==> (#[trigger] tar_strings@[q])@
                    == vstd::utf8::decode_utf8(tars@[q]@),
        decreases tars.len() - j,
    {
        tar_strings.push(string_from_bytes(tars[j].as_slice()));
        j = j + 1;
    }
    let mut paper_strings: Vec<(String, String)> = Vec::new();
    let mut j: usize = 0;
    while j < papers.len()
        invariant
            j <= papers.len(),
            paper_strings.len() == j,
            forall|q: int|
                0 <= q < j ==> (#[trigger] paper_strings@[q]).0@ == utf8_lossy(papers@[q].0@) && paper_strings@[q].1@
                    == utf8_lossy(papers@[q].1@),
            forall|q: int|
                0 <= q < j && vstd::utf8::valid_utf8(papers@[q].0@) && vstd::utf8::valid_utf8(papers@[q].1@)
                    ==> (#[trigger] paper_strings@[q]).0@ == vstd::utf8::decode_utf8(papers@[q].0@)
                    && paper_strings@[q].1@ == vstd::utf8::decode_utf8(papers@[q].1@),
        decreases papers.len() - j,
    {
        paper_strings.push((string_from_bytes(papers[j].0.as_slice()), string_from_bytes(papers[j].1.as_slice())));
        j = j + 1;
    }
    assert(string_views(tar_strings@) =~= lossy_rows(rows_view(tars@)));
    proof {
        let c = content.spec_bytes();
        vstd::utf8::encode_utf8_valid_utf8(content@);
        assert(c.subrange(0, c.len() as int) =~= c);
        lemma_log_entries_utf8(c, 0);
        lemma_tar_names_utf8(log_entries(c, 0), log_entries(c, 0).len() as int);
        assert(ev == log_entries(c, 0));
        assert forall|q: int| 0 <= q < tars@.len() implies vstd::utf8::valid_utf8(#[trigger] tars@[q]@) by {
            assert(rows_view(tars@)[q] == tars@[q]@);
        }
        assert(string_views(tar_strings@) =~= decoded_rows(rows_view(tars@)));
        let pv = papers@.map_values(|p: (Vec<u8>, Vec<u8>)| (p.0@, p.1@));
        lemma_paper_pairs_utf8(log_entries(c, 0), log_entries(c, 0).len() as int);
        assert forall|q: int| 0 <= q < papers@.len() implies vstd::utf8::valid_utf8(
            (#[trigger] papers@[q]).0@,
        ) && vstd::utf8::valid_utf8(papers@[q].1@) by {
            assert(pv[q] == (papers@[q].0@, papers@[q].1@));
        }
        assert(pair_strings(paper_strings@) =~= decoded_pairs(pv));
    }
    assert(pair_strings(paper_strings@) =~= lossy_pairs(papers@.map_values(|p: (Vec<u8>, Vec<u8>)| (p.0@, p.1@))));
    let tars = dedup_strings(tar_strings);
    let papers = dedup_string_pairs(paper_strings);
    proof {
        lemma_dedup(string_views(tar_strings@));
        lemma_dedup(pair_strings(paper_strings@));
    }
    Checkpoint { tars, papers }
}

/// The completed tar names of a checkpoint log (`None`: no log yet).
pub fn load_checkpoint(content: Option<&str>) -> (res: Vec<String>)
    ensures
        content is None ==> res@.len() == 0,
        content matches Some(c) ==> string_views(res@) == dedup(
            lossy_rows(tar_names(log_entries(c.spec_bytes(), 0), log_entries(c.spec_bytes(), 0).len() as int)),
        ),
        content matches Some(c) ==> string_views(res@) == dedup(
            decoded_rows(tar_names(log_entries(c.spec_bytes(), 0), log_entries(c.spec_bytes(), 0).len() as int)),
        ),
        string_views(res@).no_duplicates(),
{
    match content {
        None => {
            let v: Vec<String> = Vec::new();
            assert(string_views(v@) =~= Seq::<Seq<char>>::empty());
            v
        },
        Some(c) => parse_checkpoint(c).tars,
    }
}

/// The line that records a completed tar.
pub fn checkpoint_line(tar_name: &str) -> (res: String)
    ensures
        vstd::utf8::encode_utf8(res@) == tar_name.spec_bytes().push(0x0a),
{
    let mut v: Vec<u8> = Vec::new();
    crate::scan::push_all(&mut v, tar_name.as_bytes());
    v.push(0x0a);
    proof {
        vstd::utf8::encode_utf8_valid_utf8(tar_name@);
        assert(v@ =~= tar_name.spec_bytes() + seq![0x0au8]);
        lemma_newline_valid(tar_name.spec_bytes());
        vstd::utf8::decode_utf8_encode_utf8(v@);
    }
    string_from_bytes(v.as_slice())
}

/// The lines that record completed papers of a tar, one per id.
pub fn paper_lines(tar_name: &str, arxiv_ids: &[String]) -> (res: String)
    ensures
        vstd::utf8::encode_utf8(res@) == paper_lines_of(tar_name.spec_bytes(), arxiv_ids@, arxiv_ids@.len() as int),
{
    let mut v: Vec<u8> = Vec::new();
    let mut i: usize = 0;
    while i < arxiv_ids.len()
        invariant
            i <= arxiv_ids.len(),
            v@ == paper_lines_of(tar_name.spec_bytes(), arxiv_ids@, i as int),
            vstd::utf8::valid_utf8(v@),
        decreases arxiv_ids.len() - i,
    {
        let ghost o = v@;
        crate::scan::push_all(&mut v, tar_name.as_bytes());
        v.push(0x09);
        crate::scan::push_all(&mut v, arxiv_ids[i].as_str().as_bytes());
        v.push(0x0a);
        proof {
            assert(v@ =~= o + (tar_name.spec_bytes() + seq![0x09u8] + vstd::utf8::encode_utf8(arxiv_ids@[i as int]@) + seq![0x0au8]));
            lemma_line_valid(o, tar_name@, arxiv_ids@[i as int]@);
        }
        i = i + 1;
    }
    proof {
        vstd::utf8::decode_utf8_encode_utf8(v@);
    }
    string_from_bytes(v.as_slice())
}

/// The paper lines of the first `n` ids.
pub open spec fn paper_lines_of(tar: Seq<u8>, ids: Seq<String>, n: int) -> Seq<u8>
    decreases n,
{
    if n <= 0 {
        Seq::empty()
    } else {
        paper_lines_of(tar, ids, n - 1) + (tar + seq![0x09u8] + vstd::utf8::encode_utf8(ids[n - 1]@) + seq![0x0au8])
    }
}

proof fn lemma_newline_valid(b: Seq<u8>)
    requires
        vstd::utf8::valid_utf8(b),
    ensures
        vstd::utf8::valid_utf8(b + seq![0x0au8]),
{
    lemma_encode_ascii(seq![0x0au8]);
    vstd::utf8::valid_utf8_concat(b, seq![0x0au8]);
}

proof fn lemma_encode_ascii(b: Seq<u8>)
    requires
        forall|i: int| 0 <= i < b.len() ==> b[i] < 0x80,
    ensures
        vstd::utf8::valid_utf8(b),
    decreases b.len(),
{
    let c: Seq<char> = b.map_values(|x: u8| x as char);
    lemma_encode_ascii_chars(b, c);
    vstd::utf8::encode_utf8_valid_utf8(c);
}

proof fn lemma_encode_ascii_chars(b: Seq<u8>, c: Seq<char>)
    requires
        forall|i: int| 0 <= i < b.len() ==> b[i] < 0x80,
        c == b.map_values(|x: u8| x as char),
    ensures
        vstd::utf8::encode_utf8(c) == b,
    decreases b.len(),
{
    if b.len() > 0 {
        let b2 = b.drop_first();
        let c2 = c.drop_first();
        assert(c2 =~= b2.map_values(|x: u8| x as char));
        lemma_encode_ascii_chars(b2, c2);
        let x = b[0];
        assert(c[0] == x as char);
        assert((x as char) as u32 == x as u32);
        assert(x < 0x80);
        assert(((x as u32) & 0x7F) as u8 == x) by (bit_vector)
            requires
                x < 0x80,
        ;
        assert(vstd::utf8::encode_scalar(c[0] as u32) =~= seq![x]);
        assert(b =~= seq![x] + b2);
    } else {
        assert(c.len() == 0);
    }
}

proof fn lemma_line_valid(o: Seq<u8>, tar: Seq<char>, id: Seq<char>)
    requires
        vstd::utf8::valid_utf8(o),
    ensures
        vstd::utf8::valid_utf8(
            o + (vstd::utf8::encode_utf8(tar) + seq![0x09u8] + vstd::utf8::encode_utf8(id) + seq![0x0au8]),
        ),
{
    vstd::utf8::encode_utf8_valid_utf8(tar);
    vstd::utf8::encode_utf8_valid_utf8(id);
    lemma_encode_ascii(seq![0x09u8]);
    lemma_encode_ascii(seq![0x0au8]);
    let a = vstd::utf8::encode_utf8(tar);
    vstd::utf8::valid_utf8_concat(a, seq![0x09u8]);
    vstd::utf8::valid_utf8_concat(a + seq![0x09u8], vstd::utf8::encode_utf8(id));
    vstd::utf8::valid_utf8_concat(a + seq![0x09u8] + vstd::utf8::encode_utf8(id), seq![0x0au8]);
    vstd::utf8::valid_utf8_concat(o, a + seq![0x09u8] + vstd::utf8::encode_utf8(id) + seq![0x0au8]);
}

proof fn lemma_byte_end_shift(c: Seq<u8>, d: Seq<u8>, j: int, x: u8)
    requires
        0 <= j <= d.len(),
    ensures
        byte_end(c + d, c.len() + j, x) == c.len() + byte_end(d, j, x),
    decreases d.len() - j,
{
    if j < d.len() && d[j] != x {
        assert((c + d)[c.len() + j] == d[j]);
        lemma_byte_end_shift(c, d, j + 1, x);
    } else if j < d.len() {
        assert((c + d)[c.len() + j] == d[j]);
    }
}

/// The lines of `d` read after a prefix `c`.
proof fn lemma_entries_shift(c: Seq<u8>, d: Seq<u8>, j: int)
    requires
        0 <= j <= d.len(),
    ensures
        log_entries(c + d, c.len() + j) == log_entries(d, j),
    decreases d.len() - j,
{
    let cd = c + d;
    lemma_byte_end(d, j, 0x0a);
    lemma_byte_end_shift(c, d, j, 0x0a);
    let e = byte_end(d, j, 0x0a);
    assert(cd.subrange(c.len() + j, c.len() + e) =~= d.subrange(j, e));
    if e < d.len() {
        lemma_entries_shift(c, d, e + 1);
    }
}

/// Lines before the end of a text that ends a line are read as in that
/// text alone.
proof fn lemma_entries_prefix(c: Seq<u8>, d: Seq<u8>, i: int)
    requires
        0 <= i <= c.len(),
        c.len() == 0 || c.last() == 0x0a,
    ensures
        log_entries(c + d, i) == log_entries(c, i) + log_entries(c + d, c.len() as int),
    decreases c.len() - i,
{
    let cd = c + d;
    lemma_byte_end(c, i, 0x0a);
    let e = byte_end(c, i, 0x0a);
    if i == c.len() {
        assert(c.subrange(i, e) =~= Seq::<u8>::empty());
        assert(trim_ws(Seq::<u8>::empty()) =~= Seq::<u8>::empty());
        assert(log_entries(c, i) =~= Seq::<LogEntry>::empty());
        assert(log_entries(c, i) + log_entries(cd, c.len() as int) =~= log_entries(cd, c.len() as int));
    } else {
        lemma_byte_end_prefix(c, d, i);
        assert(e < c.len());
        assert(cd.subrange(i, e) =~= c.subrange(i, e));
        lemma_entries_prefix(c, d, e + 1);
        let t = trim_ws(c.subrange(i, e));
        let here: Seq<LogEntry> = if t.len() == 0 { Seq::empty() } else { seq![line_entry(t)] };
        assert(log_entries(cd, i) == here + log_entries(cd, e + 1));
        assert(log_entries(c, i) == here + log_entries(c, e + 1));
        assert(here + (log_entries(c, e + 1) + log_entries(cd, c.len() as int)) =~= (here + log_entries(c, e + 1))
            + log_entries(cd, c.len() as int));
    }
}

proof fn lemma_byte_end_prefix(c: Seq<u8>, d: Seq<u8>, i: int)
    requires
        0 <= i < c.len(),
        c.last() == 0x0a,
    ensures
        byte_end(c + d, i, 0x0a) == byte_end(c, i, 0x0a),
        byte_end(c, i, 0x0a) < c.len(),
    decreases c.len() - i,
{
    assert((c + d)[i] == c[i]);
    if c[i] != 0x0a {
        lemma_byte_end_prefix(c, d, i + 1);
    }
}

/// A tar named in the first `n` entries as completed is listed.
proof fn lemma_tar_listed(es: Seq<LogEntry>, n: int, k: int)
    requires
        0 <= k < n <= es.len(),
        es[k].1 is None,
    ensures
        tar_names(es, n).contains(es[k].0),
    decreases n,
{
    if k < n - 1 {
        lemma_tar_listed(es, n - 1, k);
        let l = tar_names(es, n - 1);
        let w = choose|w: int| 0 <= w < l.len() && l[w] == es[k].0;
        if es[n - 1].1 is None && !l.contains(es[n - 1].0) {
            assert(l.push(es[n - 1].0)[w] == es[k].0);
        }
    } else {
        let l = tar_names(es, n - 1);
        if !l.contains(es[k].0) {
            assert(l.push(es[k].0)[l.len() as int] == es[k].0);
        }
    }
}

/// What a read gives back of a write: after a checkpoint log (empty or
/// ending a line) gets the line of a tar name (trimmed, non-empty, without
/// tab or newline), loading the log lists that tar as completed.
pub proof fn law_recorded_tar_is_loaded(c: Seq<u8>, t: Seq<u8>)
    requires
        c.len() == 0 || c.last() == 0x0a,
        t.len() > 0,
        trim_ws(t) == t,
        forall|i: int| 0 <= i < t.len() ==> t[i] != 0x0a && t[i] != 0x09,
    ensures
        tar_names(log_entries(c + t.push(0x0a), 0), log_entries(c + t.push(0x0a), 0).len() as int).contains(t),
        dedup(
            lossy_rows(tar_names(log_entries(c + t.push(0x0a), 0), log_entries(c + t.push(0x0a), 0).len() as int)),
        ).contains(utf8_lossy(t)),
{
    let line = t.push(0x0a);
    lemma_entries_prefix(c, line, 0);
    lemma_entries_shift(c, line, 0);
    assert(c + line =~= c + line);
    assert(c.len() + 0 == c.len());
    let tl = line.len() as int;
    lemma_byte_end_no(line, 0, 0x0a, t.len() as int);
    assert(line.subrange(0, t.len() as int) =~= t);
    lemma_byte_end_no(t, 0, 0x09, t.len() as int);
    assert(line_entry(t) == (t, None::<Seq<u8>>)) by {
        assert(t.subrange(0, t.len() as int) =~= t);
    }
    lemma_byte_end(line, tl, 0x0a);
    assert(line.subrange(tl, tl) =~= Seq::<u8>::empty());
    assert(trim_ws(Seq::<u8>::empty()) =~= Seq::<u8>::empty());
    assert(log_entries(line, tl) =~= Seq::<LogEntry>::empty());
    assert(log_entries(line, 0) =~= seq![(t, None::<Seq<u8>>)]);
    let es = log_entries(c + line, 0);
    assert(es =~= log_entries(c, 0) + seq![(t, None::<Seq<u8>>)]);
    lemma_tar_listed(es, es.len() as int, es.len() - 1);
    let names = tar_names(es, es.len() as int);
    let k = choose|k: int| 0 <= k < names.len() && names[k] == t;
    assert(lossy_rows(names)[k] == utf8_lossy(t));
    assert(lossy_rows(names).contains(utf8_lossy(t)));
    lemma_dedup(lossy_rows(names));
}

proof fn lemma_byte_end_no(s: Seq<u8>, i: int, x: u8, k: int)
    requires
        0 <= i <= k <= s.len(),
        forall|j: int| i <= j < k ==> s[j] != x,
        k < s.len() ==> s[k] == x,
    ensures
        byte_end(s, i, x) == k,
    decreases k - i,
{
    if i < k {
        lemma_byte_end_no(s, i + 1, x, k);
    }
}

} // verus!
