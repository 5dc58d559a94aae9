//! Conversion between the byte form the passes work on and `String`.

use vstd::prelude::*;

verus! {

/// What `String::from_utf8_lossy` makes of a byte sequence.
pub uninterp spec fn utf8_lossy(b: Seq<u8>) -> Seq<char>;

/// Wraps `String::from_utf8_lossy`: the bytes decoded as UTF-8, with each
/// invalid sequence replaced by U+FFFD. Claimed: the result is a function of
/// the bytes, and equals their plain decoding when they are valid UTF-8.
#[verifier::external_body]
pub fn string_from_bytes(b: &[u8]) -> (res: String)
    ensures
        res@ == utf8_lossy(b@),
        vstd::utf8::valid_utf8(b@) ==> res@ == vstd::utf8::decode_utf8(b@),
{
    String::from_utf8_lossy(b).into_owned()
}

/// Every byte is below 0x80.
pub open spec fn all_ascii(s: Seq<u8>) -> bool {
    forall|k: int| 0 <= k < s.len() ==> s[k] < 0x80
}

/// ASCII bytes are valid UTF-8 and decode to one character per byte.
pub proof fn lemma_ascii_utf8(s: Seq<u8>)
    requires
        all_ascii(s),
    ensures
        vstd::utf8::valid_utf8(s),
        vstd::utf8::decode_utf8(s) == s.map_values(|b: u8| b as char),
    decreases s.len(),
{
    if s.len() > 0 {
        let rest = s.subrange(1, s.len() as int);
        assert(vstd::utf8::pop_first_scalar(s) =~= rest);
        lemma_ascii_utf8(rest);
        let b0 = s[0];
        assert(b0 & 0x7f == b0) by (bit_vector)
            requires
                b0 < 0x80,
        ;
        assert(s.map_values(|b: u8| b as char) =~= seq![s[0] as char] + rest.map_values(
            |b: u8| b as char,
        ));
    } else {
        assert(s.map_values(|b: u8| b as char) =~= Seq::<char>::empty());
    }
}

/// Valid UTF-8 text after an ASCII byte of valid UTF-8 text is valid UTF-8.
pub proof fn lemma_utf8_after_ascii(b: Seq<u8>, i: int, k: int)
    requires
        0 <= i <= k < b.len(),
        vstd::utf8::valid_utf8(b.subrange(i, b.len() as int)),
        b[k] < 0x80,
    ensures
        vstd::utf8::valid_utf8(b.subrange(k + 1, b.len() as int)),
{
    let s = b.subrange(i, b.len() as int);
    vstd::utf8::is_char_boundary_iff_not_is_continuation_byte(s, k - i);
    vstd::utf8::valid_utf8_split(s, k - i);
    let t = s.subrange(k - i, s.len() as int);
    assert(t =~= b.subrange(k, b.len() as int));
    assert(vstd::utf8::pop_first_scalar(t) =~= b.subrange(k + 1, b.len() as int));
}

/// In valid UTF-8 text from `i`, the bytes before an ASCII byte are valid
/// UTF-8.
pub proof fn lemma_utf8_before_ascii(b: Seq<u8>, i: int, k: int)
    requires
        0 <= i <= k < b.len(),
        vstd::utf8::valid_utf8(b.subrange(i, b.len() as int)),
        b[k] < 0x80,
    ensures
        vstd::utf8::valid_utf8(b.subrange(i, k)),
{
    let s = b.subrange(i, b.len() as int);
    vstd::utf8::is_char_boundary_iff_not_is_continuation_byte(s, k - i);
    vstd::utf8::valid_utf8_split(s, k - i);
    assert(s.subrange(0, k - i) =~= b.subrange(i, k));
}

/// The first character of valid UTF-8 text from `i`: its `l` bytes are valid
/// UTF-8, so is the text after them, and when it is not ASCII none of its
/// bytes is.
pub proof fn lemma_utf8_first_char(b: Seq<u8>, i: int) -> (l: int)
    requires
        0 <= i < b.len(),
        vstd::utf8::valid_utf8(b.subrange(i, b.len() as int)),
    ensures
        1 <= l <= 4,
        i + l <= b.len(),
        vstd::utf8::valid_utf8(b.subrange(i, i + l)),
        vstd::utf8::valid_utf8(b.subrange(i + l, b.len() as int)),
        b[i] < 0x80 ==> l == 1,
        b[i] >= 0x80 ==> forall|k: int| i <= k < i + l ==> b[k] >= 0x80,
{
    let s = b.subrange(i, b.len() as int);
    let l = vstd::utf8::length_of_first_scalar(s);
    let head = s.subrange(0, l);
    assert(head =~= b.subrange(i, i + l));
    assert(vstd::utf8::pop_first_scalar(s) =~= b.subrange(i + l, b.len() as int));
    assert(vstd::utf8::pop_first_scalar(head) =~= Seq::<u8>::empty());
    assert(vstd::utf8::valid_utf8(vstd::utf8::pop_first_scalar(head)));
    assert(vstd::utf8::valid_first_scalar(head));
    l
}

/// What follows a valid UTF-8 prefix in valid UTF-8 text is valid UTF-8.
pub proof fn lemma_utf8_rest(x: Seq<u8>, y: Seq<u8>)
    requires
        vstd::utf8::valid_utf8(x),
        vstd::utf8::valid_utf8(x + y),
    ensures
        vstd::utf8::valid_utf8(y),
    decreases x.len(),
{
    if x.len() == 0 {
        assert(x + y =~= y);
    } else {
        let l = vstd::utf8::length_of_first_scalar(x);
        assert((x + y)[0] == x[0]);
        assert(vstd::utf8::length_of_first_scalar(x + y) == l);
        assert(vstd::utf8::pop_first_scalar(x + y) =~= vstd::utf8::pop_first_scalar(x) + y);
        lemma_utf8_rest(vstd::utf8::pop_first_scalar(x), y);
    }
}

/// The first byte of non-empty valid UTF-8 text is not a continuation byte.
pub proof fn lemma_utf8_first_byte(x: Seq<u8>)
    requires
        vstd::utf8::valid_utf8(x),
        x.len() > 0,
    ensures
        !vstd::utf8::is_continuation_byte(x[0]),
{
}

/// The number of characters of a string.
pub fn char_count(s: &str) -> (res: usize)
    ensures
        res == s@.len(),
{
    let b = s.as_bytes();
    proof {
        vstd::utf8::encode_utf8_valid_utf8(s@);
        vstd::utf8::encode_utf8_decode_utf8(s@);
        assert(b@.subrange(0, b@.len() as int) =~= b@);
    }
    let mut i: usize = 0;
    let mut n: usize = 0;
    while i < b.len()
        invariant
            i <= b.len(),
            n <= i,
            vstd::utf8::valid_utf8(b@.subrange(i as int, b@.len() as int)),
            n + vstd::utf8::decode_utf8(b@.subrange(i as int, b@.len() as int)).len() == vstd::utf8::decode_utf8(b@).len(),
        decreases b.len() - i,
    {
        let ghost rest = b@.subrange(i as int, b@.len() as int);
        assert(rest[0] == b@[i as int]);
        let w: usize = if b[i] <= 0x7f {
            1
        } else if b[i] <= 0xdf {
            2
        } else if b[i] <= 0xef {
            3
        } else {
            4
        };
        proof {
            assert(vstd::utf8::valid_first_scalar(rest));
            assert(w == vstd::utf8::length_of_first_scalar(rest));
            assert(vstd::utf8::pop_first_scalar(rest) =~= b@.subrange(i + w, b@.len() as int));
        }
        i = i + w;
        n = n + 1;
    }
    n
}

} // verus!
