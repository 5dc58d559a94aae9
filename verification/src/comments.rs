//! Removal of `%` comments.

use vstd::prelude::*;
use vstd::string::StringSliceAdditionalSpecFns;
use crate::text::{string_from_bytes, utf8_lossy};

verus! {

/// Number of consecutive backslashes immediately before `pos`.
pub open spec fn preceding_backslashes(b: Seq<u8>, pos: int) -> nat
    decreases pos,
{
    if pos <= 0 || pos > b.len() || b[pos - 1] != 0x5c {
        0
    } else {
        preceding_backslashes(b, pos - 1) + 1
    }
}

/// Position after the end of the line containing `i` (past its `\n`).
pub open spec fn after_line(b: Seq<u8>, i: int) -> int
    decreases b.len() - i,
{
    if i >= b.len() {
        i
    } else if b[i] == 0x0a {
        i + 1
    } else {
        after_line(b, i + 1)
    }
}

/// The text from `i` on with comments removed: a `%` preceded by an even
/// number of backslashes drops the rest of its line including the newline,
/// so that `word%\njoined` becomes `wordjoined`; a backslash keeps the byte
/// after it, so `\%` stays as it is.
pub open spec fn uncomment_from(b: Seq<u8>, i: int) -> Seq<u8>
    decreases b.len() - i,
{
    if i < 0 || i >= b.len() {
        Seq::empty()
    } else if b[i] == 0x25 {
        if preceding_backslashes(b, i) % 2 == 0 {
            if i < after_line(b, i + 1) <= b.len() {
                uncomment_from(b, after_line(b, i + 1))
            } else {
                Seq::empty()
            }
        } else {
            seq![0x25u8] + uncomment_from(b, i + 1)
        }
    } else if b[i] == 0x5c && i + 1 < b.len() {
        seq![0x5cu8, b[i + 1]] + uncomment_from(b, i + 2)
    } else {
        seq![b[i]] + uncomment_from(b, i + 1)
    }
}

pub proof fn lemma_after_line(b: Seq<u8>, i: int)
    requires
        0 <= i,
    ensures
        i <= after_line(b, i),
        i <= b.len() ==> after_line(b, i) <= b.len(),
        i <= b.len() ==> after_line(b, i) == b.len() || (i < after_line(b, i) && b[after_line(
            b,
            i,
        ) - 1] == 0x0a),
    decreases b.len() - i,
{
    if i < b.len() && b[i] != 0x0a {
        lemma_after_line(b, i + 1);
    }
}

proof fn lemma_no_percent_from(b: Seq<u8>, i: int)
    requires
        0 <= i <= b.len(),
        forall|k: int| 0 <= k < b.len() ==> b[k] != 0x25,
    ensures
        uncomment_from(b, i) == b.subrange(i, b.len() as int),
    decreases b.len() - i,
{
    if i < b.len() {
        if b[i] == 0x5c && i + 1 < b.len() {
            lemma_no_percent_from(b, i + 2);
            assert(seq![0x5cu8, b[i + 1]] + b.subrange(i + 2, b.len() as int) =~= b.subrange(i, b.len() as int));
        } else {
            lemma_no_percent_from(b, i + 1);
            assert(seq![b[i]] + b.subrange(i + 1, b.len() as int) =~= b.subrange(i, b.len() as int));
        }
    } else {
        assert(b.subrange(i, b.len() as int) =~= Seq::<u8>::empty());
    }
}

/// A text without any `%` has no comments: removing them leaves it as it
/// is.
pub proof fn law_text_without_percent_unchanged(b: Seq<u8>)
    requires
        forall|k: int| 0 <= k < b.len() ==> b[k] != 0x25,
    ensures
        uncomment_from(b, 0) == b,
{
    lemma_no_percent_from(b, 0);
    assert(b.subrange(0, b.len() as int) =~= b);
}

/// A run of bytes that are neither `%` nor a backslash is copied as it is.
proof fn lemma_uncomment_run(b: Seq<u8>, i: int, m: int)
    requires
        0 <= i <= m <= b.len(),
        forall|k: int| i <= k < m ==> b[k] != 0x25 && b[k] != 0x5c,
    ensures
        uncomment_from(b, i) == b.subrange(i, m) + uncomment_from(b, m),
    decreases m - i,
{
    if i < m {
        lemma_uncomment_run(b, i + 1, m);
        assert(b.subrange(i, m) =~= seq![b[i]] + b.subrange(i + 1, m));
        assert(seq![b[i]] + (b.subrange(i + 1, m) + uncomment_from(b, m)) =~= b.subrange(i, m)
            + uncomment_from(b, m));
    } else {
        assert(b.subrange(i, m) + uncomment_from(b, m) =~= uncomment_from(b, m));
    }
}

/// Removing comments from valid UTF-8 text gives valid UTF-8 text: what is
/// dropped starts at an ASCII `%` and ends after an ASCII newline or at the
/// end, and what is kept is copied whole characters at a time.
proof fn lemma_uncomment_utf8(b: Seq<u8>, i: int)
    requires
        0 <= i <= b.len(),
        vstd::utf8::valid_utf8(b.subrange(i, b.len() as int)),
    ensures
        vstd::utf8::valid_utf8(uncomment_from(b, i)),
    decreases b.len() - i,
{
    if i < b.len() {
        if b[i] == 0x25 {
            crate::text::lemma_utf8_after_ascii(b, i, i);
            if preceding_backslashes(b, i) % 2 == 0 {
                lemma_after_line(b, i + 1);
                let j = after_line(b, i + 1);
                if j < b.len() {
                    crate::text::lemma_utf8_after_ascii(b, i, j - 1);
                } else {
                    assert(b.subrange(j, b.len() as int) =~= Seq::<u8>::empty());
                }
                lemma_uncomment_utf8(b, j);
            } else {
                lemma_uncomment_utf8(b, i + 1);
                crate::text::lemma_ascii_utf8(seq![0x25u8]);
                vstd::utf8::valid_utf8_concat(seq![0x25u8], uncomment_from(b, i + 1));
            }
        } else if b[i] == 0x5c && i + 1 < b.len() {
            crate::text::lemma_utf8_after_ascii(b, i, i);
            let l = crate::text::lemma_utf8_first_char(b, i + 1);
            lemma_uncomment_utf8(b, i + 1 + l);
            let rest = uncomment_from(b, i + 1 + l);
            let ch = b.subrange(i + 1, i + 1 + l);
            if l == 1 {
                assert(ch =~= seq![b[i + 1]]);
            } else {
                lemma_uncomment_run(b, i + 2, i + 1 + l);
                assert(seq![0x5cu8, b[i + 1]] + (b.subrange(i + 2, i + 1 + l) + rest) =~= seq![
                    0x5cu8,
                ] + ch + rest);
            }
            assert(uncomment_from(b, i) =~= seq![0x5cu8] + ch + rest);
            crate::text::lemma_ascii_utf8(seq![0x5cu8]);
            vstd::utf8::valid_utf8_concat(seq![0x5cu8], ch);
            vstd::utf8::valid_utf8_concat(seq![0x5cu8] + ch, rest);
        } else {
            let l = crate::text::lemma_utf8_first_char(b, i);
            lemma_uncomment_utf8(b, i + l);
            let rest = uncomment_from(b, i + l);
            let ch = b.subrange(i, i + l);
            if l == 1 {
                assert(ch =~= seq![b[i]]);
            } else {
                lemma_uncomment_run(b, i, i + l);
            }
            assert(uncomment_from(b, i) =~= ch + rest);
            vstd::utf8::valid_utf8_concat(ch, rest);
        }
    }
}

/// Count the backslashes immediately before `pos`.
fn count_preceding_backslashes(bytes: &[u8], pos: usize) -> (res: usize)
    requires
        pos <= bytes.len(),
    ensures
        res as nat == preceding_backslashes(bytes@, pos as int),
{
    let mut count: usize = 0;
    let mut j = pos;
    while j > 0 && bytes[j - 1] == 0x5c
        invariant
            j <= pos <= bytes.len(),
            count + j == pos,
            preceding_backslashes(bytes@, pos as int) == count + preceding_backslashes(
                bytes@,
                j as int,
            ),
        decreases j,
    {
        j = j - 1;
        count = count + 1;
    }
    count
}

/// Comment removal on bytes.
pub fn remove_comments_bytes(bytes: &[u8]) -> (res: Vec<u8>)
    ensures
        res@ == uncomment_from(bytes@, 0),
{
    let mut result: Vec<u8> = Vec::new();
    let mut i: usize = 0;
    while i < bytes.len()
        invariant
            i <= bytes.len(),
            result@ + uncomment_from(bytes@, i as int) == uncomment_from(bytes@, 0),
        decreases bytes.len() - i,
    {
        let ghost r0 = result@;
        if bytes[i] == 0x25 {
            let count = count_preceding_backslashes(bytes, i);
            if count % 2 == 0 {
                let ghost start = i + 1;
                proof {
                    lemma_after_line(bytes@, start as int);
                }
                i = i + 1;
                while i < bytes.len() && bytes[i] != 0x0a
                    invariant
                        start <= i <= bytes.len(),
                        after_line(bytes@, i as int) == after_line(bytes@, start as int),
                    decreases bytes.len() - i,
                {
                    i = i + 1;
                }
                if i < bytes.len() && bytes[i] == 0x0a {
                    i = i + 1;
                }
                assert(i as int == after_line(bytes@, start as int));
                continue;
            }
            result.push(0x25);
            i = i + 1;
            assert(r0 + (seq![0x25u8] + uncomment_from(bytes@, i as int)) =~= result@
                + uncomment_from(bytes@, i as int));
        } else if bytes[i] == 0x5c && i + 1 < bytes.len() {
            result.push(0x5c);
            result.push(bytes[i + 1]);
            i = i + 2;
            assert(r0 + (seq![0x5cu8, bytes@[i - 1]] + uncomment_from(bytes@, i as int))
                =~= result@ + uncomment_from(bytes@, i as int));
        } else {
            result.push(bytes[i]);
            i = i + 1;
            assert(r0 + (seq![bytes@[i - 1]] + uncomment_from(bytes@, i as int)) =~= result@
                + uncomment_from(bytes@, i as int));
        }
    }
    assert(result@ + Seq::<u8>::empty() =~= result@);
    result
}

/// Remove LaTeX comments from text.
///
/// Handles full-line and inline comments, line joining (`word%\njoined` →
/// `wordjoined`) and escaping: a `%` after an odd number of backslashes is
/// kept, after an even number it starts a comment.
pub fn remove_comments(text: &str) -> (res: String)
    ensures
        res@ == utf8_lossy(uncomment_from(text.spec_bytes(), 0)),
        vstd::utf8::valid_utf8(uncomment_from(text.spec_bytes(), 0)),
        res@ == vstd::utf8::decode_utf8(uncomment_from(text.spec_bytes(), 0)),
        (forall|k: int| 0 <= k < text.spec_bytes().len() ==> text.spec_bytes()[k] != 0x25) ==> res@ == text@,
{
    let out = remove_comments_bytes(text.as_bytes());
    proof {
        vstd::utf8::encode_utf8_valid_utf8(text@);
        vstd::utf8::encode_utf8_decode_utf8(text@);
        assert(text.spec_bytes().subrange(0, text.spec_bytes().len() as int) =~= text.spec_bytes());
        lemma_uncomment_utf8(text.spec_bytes(), 0);
        if forall|k: int| 0 <= k < text.spec_bytes().len() ==> text.spec_bytes()[k] != 0x25 {
            law_text_without_percent_unchanged(text.spec_bytes());
        }
    }
    string_from_bytes(out.as_slice())
}

} // verus!
