//! Multi-pattern command replacement with a word-boundary check.

use vstd::prelude::*;
use vstd::string::StringSliceAdditionalSpecFns;
use crate::braces::{is_alpha, is_alpha_byte};
use crate::outside::{
    aho_builds, aho_leftmost_longest, automaton_find_all, automaton_new, well_formed_matches, Automaton,
};
use crate::scan::{push_all, push_range, rows_view};
use crate::text::{string_from_bytes, utf8_lossy};

verus! {

/// A single-pass multi-pattern replacer: patterns are matched with
/// leftmost-longest semantics, and a match is replaced only when the byte
/// after it is not an ASCII letter.
pub struct CommandReplacer {
    automaton: Option<Automaton>,
    patterns: Vec<Vec<u8>>,
    replacements: Vec<Vec<u8>>,
}

/// Output from match `k` on, given that text before `last` is already
/// emitted: matches followed by a letter are left in place.
pub open spec fn splice_matches(
    text: Seq<u8>,
    m: Seq<(usize, usize, usize)>,
    reps: Seq<Seq<u8>>,
    k: int,
    last: int,
) -> Seq<u8>
    decreases m.len() - k,
{
    if k < 0 || k >= m.len() {
        text.subrange(last, text.len() as int)
    } else {
        let (p, s, e) = m[k];
        if (e as int) < text.len() && is_alpha(text[e as int]) {
            splice_matches(text, m, reps, k + 1, last)
        } else {
            text.subrange(last, s as int) + reps[p as int] + splice_matches(
                text,
                m,
                reps,
                k + 1,
                e as int,
            )
        }
    }
}

/// What a replacer over `patterns`/`reps` makes of `text`; when no matcher
/// can be built for the patterns, the text is left as it is.
pub open spec fn replace_commands(patterns: Seq<Seq<u8>>, reps: Seq<Seq<u8>>, text: Seq<u8>) -> Seq<u8> {
    if aho_builds(patterns) {
        splice_matches(text, aho_leftmost_longest(patterns, text), reps, 0, 0)
    } else {
        text
    }
}

/// Patterns and replacements that keep text valid UTF-8: as many of each,
/// every pattern non-empty valid UTF-8 and every replacement valid UTF-8.
pub open spec fn utf8_table(patterns: Seq<Seq<u8>>, reps: Seq<Seq<u8>>) -> bool {
    &&& patterns.len() == reps.len()
    &&& forall|i: int|
        0 <= i < patterns.len() ==> (#[trigger] patterns[i]).len() > 0 && vstd::utf8::valid_utf8(
            patterns[i],
        )
    &&& forall|i: int| 0 <= i < reps.len() ==> vstd::utf8::valid_utf8(#[trigger] reps[i])
}

/// Splicing well-formed matches of a UTF-8 table into valid UTF-8 text gives
/// valid UTF-8 text: every match starts at the first byte of a character
/// and ends where a character ends.
pub proof fn lemma_splice_utf8(
    text: Seq<u8>,
    m: Seq<(usize, usize, usize)>,
    patterns: Seq<Seq<u8>>,
    reps: Seq<Seq<u8>>,
    k: int,
    last: int,
)
    requires
        well_formed_matches(m, patterns, text),
        utf8_table(patterns, reps),
        0 <= k <= m.len(),
        0 <= last <= text.len(),
        k < m.len() ==> last <= m[k].1,
        vstd::utf8::valid_utf8(text.subrange(last, text.len() as int)),
    ensures
        vstd::utf8::valid_utf8(splice_matches(text, m, reps, k, last)),
    decreases m.len() - k,
{
    if k < m.len() {
        let (p, s, e) = m[k];
        let si = s as int;
        let ei = e as int;
        if k + 1 < m.len() {
            assert(m[k].2 <= m[k + 1].1);
        }
        if ei < text.len() && is_alpha(text[ei]) {
            lemma_splice_utf8(text, m, patterns, reps, k + 1, last);
        } else {
            let pat = patterns[p as int];
            assert(text.subrange(si, ei) == pat);
            assert(pat.len() > 0);
            assert(si < text.len());
            assert(text[si] == pat[0]) by {
                assert(text.subrange(si, ei)[0] == text[si]);
            }
            crate::text::lemma_utf8_first_byte(pat);
            let suffix = text.subrange(last, text.len() as int);
            vstd::utf8::is_char_boundary_iff_not_is_continuation_byte(suffix, si - last);
            vstd::utf8::valid_utf8_split(suffix, si - last);
            let gap = text.subrange(last, si);
            assert(suffix.subrange(0, si - last) =~= gap);
            let at_s = text.subrange(si, text.len() as int);
            assert(suffix.subrange(si - last, suffix.len() as int) =~= at_s);
            let at_e = text.subrange(ei, text.len() as int);
            assert(at_s =~= pat + at_e);
            crate::text::lemma_utf8_rest(pat, at_e);
            lemma_splice_utf8(text, m, patterns, reps, k + 1, ei);
            vstd::utf8::valid_utf8_concat(gap, reps[p as int]);
            vstd::utf8::valid_utf8_concat(
                gap + reps[p as int],
                splice_matches(text, m, reps, k + 1, ei),
            );
        }
    }
}

impl CommandReplacer {
    #[verifier::type_invariant]
    spec fn inv(self) -> bool {
        &&& self.replacements.len() == self.patterns.len()
        &&& self.automaton matches Some(a) ==> a.patterns() == rows_view(self.patterns@)
        &&& (self.automaton is Some <==> aho_builds(rows_view(self.patterns@)))
    }

    /// The patterns, in order.
    pub closed spec fn pattern_seq(self) -> Seq<Seq<u8>> {
        rows_view(self.patterns@)
    }

    /// The replacement of each pattern, in the same order.
    pub closed spec fn replacement_seq(self) -> Seq<Seq<u8>> {
        rows_view(self.replacements@)
    }

    /// What `replace_all` makes of the bytes of a text.
    pub open spec fn replaced(self, text: Seq<u8>) -> Seq<u8> {
        replace_commands(self.pattern_seq(), self.replacement_seq(), text)
    }

    /// Build a replacer from `(pattern, replacement)` pairs.
    pub fn new(pairs: &[(&str, &str)]) -> (res: Self)
        ensures
            res.pattern_seq().len() == pairs@.len(),
            res.replacement_seq().len() == pairs@.len(),
            forall|i: int|
                0 <= i < pairs@.len() ==> res.pattern_seq()[i] == (#[trigger] pairs@[i]).0.spec_bytes()
                    && res.replacement_seq()[i] == pairs@[i].1.spec_bytes(),
    {
        let mut patterns: Vec<Vec<u8>> = Vec::new();
        let mut replacements: Vec<Vec<u8>> = Vec::new();
        let mut i: usize = 0;
        while i < pairs.len()
            invariant
                i <= pairs.len(),
                patterns.len() == i,
                replacements.len() == i,
                forall|j: int|
                    0 <= j < i ==> (#[trigger] patterns@[j])@ == pairs@[j].0.spec_bytes()
                        && replacements@[j]@ == pairs@[j].1.spec_bytes(),
            decreases pairs.len() - i,
        {
            let (p, r) = pairs[i];
            let mut pv: Vec<u8> = Vec::new();
            push_all(&mut pv, p.as_bytes());
            let mut rv: Vec<u8> = Vec::new();
            push_all(&mut rv, r.as_bytes());
            assert(pv@ =~= p.spec_bytes());
            assert(rv@ =~= r.spec_bytes());
            patterns.push(pv);
            replacements.push(rv);
            i = i + 1;
        }
        proof {
            assert forall|j: int| 0 <= j < pairs@.len() implies rows_view(patterns@)[j]
                == (#[trigger] pairs@[j]).0.spec_bytes() && rows_view(replacements@)[j]
                == pairs@[j].1.spec_bytes() by {
                assert(patterns@[j]@ == pairs@[j].0.spec_bytes());
            }
        }
        Self::from_parts(patterns, replacements)
    }

    /// Build a replacer from byte patterns and their replacements.
    pub fn from_parts(patterns: Vec<Vec<u8>>, replacements: Vec<Vec<u8>>) -> (res: Self)
        requires
            patterns.len() == replacements.len(),
        ensures
            res.pattern_seq() == rows_view(patterns@),
            res.replacement_seq() == rows_view(replacements@),
    {
        let copy = clone_rows(&patterns);
        let automaton = automaton_new(copy);
        CommandReplacer { automaton, patterns, replacements }
    }

    /// `replace_all` on bytes.
    pub fn replace_all_bytes(&self, text: &[u8]) -> (res: Vec<u8>)
        ensures
            res@ == self.replaced(text@),
            vstd::utf8::valid_utf8(text@) && utf8_table(self.pattern_seq(), self.replacement_seq())
                ==> vstd::utf8::valid_utf8(res@),
    {
        proof {
            use_type_invariant(self);
        }
        match &self.automaton {
            None => {
                assert(!aho_builds(rows_view(self.patterns@)));
                let mut out: Vec<u8> = Vec::new();
                push_all(&mut out, text);
                assert(out@ =~= text@);
                out
            },
            Some(a) => {
                let m = automaton_find_all(a, text);
                let ghost ms = m@;
                let mut out: Vec<u8> = Vec::new();
                let mut last: usize = 0;
                let mut k: usize = 0;
                while k < m.len()
                    invariant
                        ms == m@,
                        well_formed_matches(ms, rows_view(self.patterns@), text@),
                        self.replacements.len() == self.patterns.len(),
                        k <= m.len(),
                        last <= text.len(),
                        k > 0 ==> last <= m@[k - 1].2,
                        k == 0 ==> last == 0,
                        out@ + splice_matches(text@, ms, rows_view(self.replacements@), k as int, last as int)
                            == splice_matches(text@, ms, rows_view(self.replacements@), 0, 0),
                    decreases m.len() - k,
                {
                    let (p, s, e) = m[k];
                    assert(well_formed_matches(ms, rows_view(self.patterns@), text@));
                    let ghost mk = ms[k as int];
                    assert(p < self.patterns.len() && s <= e && e <= text.len());
                    if k > 0 {
                        assert(ms[k - 1].2 <= ms[k as int].1);
                    }
                    if e < text.len() && is_alpha_byte(text[e]) {
                        k = k + 1;
                    } else {
                        let ghost o = out@;
                        let ghost rest = splice_matches(text@, ms, rows_view(self.replacements@), k + 1, e as int);
                        push_range(&mut out, text, last, s);
                        push_all(&mut out, self.replacements[p].as_slice());
                        assert(o + (text@.subrange(last as int, s as int) + rows_view(self.replacements@)[p as int] + rest)
                            =~= out@ + rest);
                        last = e;
                        k = k + 1;
                    }
                }
                let ghost o = out@;
                push_range(&mut out, text, last, text.len());
                assert(o + text@.subrange(last as int, text@.len() as int) =~= out@);
                proof {
                    if vstd::utf8::valid_utf8(text@) && utf8_table(self.pattern_seq(), self.replacement_seq()) {
                        assert(text@.subrange(0, text@.len() as int) =~= text@);
                        lemma_splice_utf8(text@, ms, self.pattern_seq(), self.replacement_seq(), 0, 0);
                    }
                }
                out
            },
        }
    }

    /// Replace all matching patterns in `text` that are not followed by an
    /// ASCII letter.
    pub fn replace_all(&self, text: &str) -> (res: String)
        ensures
            res@ == utf8_lossy(self.replaced(text.spec_bytes())),
            utf8_table(self.pattern_seq(), self.replacement_seq()) ==> vstd::utf8::valid_utf8(
                self.replaced(text.spec_bytes()),
            ) && res@ == vstd::utf8::decode_utf8(self.replaced(text.spec_bytes())),
    {
        proof {
            vstd::utf8::encode_utf8_valid_utf8(text@);
        }
        let out = self.replace_all_bytes(text.as_bytes());
        string_from_bytes(out.as_slice())
    }
}

/// A copy of a list of byte strings.
pub fn clone_rows(v: &Vec<Vec<u8>>) -> (res: Vec<Vec<u8>>)
    ensures
        rows_view(res@) == rows_view(v@),
{
    let mut out: Vec<Vec<u8>> = Vec::new();
    let mut i: usize = 0;
    while i < v.len()
        invariant
            i <= v.len(),
            out.len() == i,
            forall|j: int| 0 <= j < i ==> (#[trigger] out@[j])@ == v@[j]@,
        decreases v.len() - i,
    {
        let mut row: Vec<u8> = Vec::new();
        push_all(&mut row, v[i].as_slice());
        assert(row@ =~= v@[i as int]@);
        out.push(row);
        i = i + 1;
    }
    assert(rows_view(out@) =~= rows_view(v@));
    out
}

} // verus!
