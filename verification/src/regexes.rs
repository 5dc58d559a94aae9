//! Regular-expression passes expressed over the trusted `regex` wrappers.

use vstd::prelude::*;
use vstd::string::StringSliceAdditionalSpecFns;
use crate::outside::{
    captures_view, pattern_captures, pattern_new, pattern_replace_all, regex_captures,
    regex_compiles, regex_replace_all, well_formed_captures,
};
use crate::scan::push_all;

verus! {

/// `replace_all` of a pattern, or the text unchanged if the pattern does
/// not compile.
pub open spec fn re_replace(pat: Seq<u8>, text: Seq<u8>, rep: Seq<u8>) -> Seq<u8> {
    if regex_compiles(pat) {
        regex_replace_all(pat, text, rep)
    } else {
        text
    }
}

/// The capture groups of every match, or none if the pattern does not
/// compile.
pub open spec fn re_captures(pat: Seq<u8>, text: Seq<u8>) -> Seq<Seq<Option<(usize, usize)>>> {
    if regex_compiles(pat) {
        regex_captures(pat, text)
    } else {
        Seq::empty()
    }
}

/// Replace every match of `pat` in `text` by the template `rep`.
pub fn re_replace_bytes(pat: &str, text: &[u8], rep: &[u8]) -> (res: Vec<u8>)
    ensures
        res@ == re_replace(pat.spec_bytes(), text@, rep@),
        rep@.len() == 0 ==> res@.len() <= text@.len(),
{
    match pattern_new(pat) {
        Some(p) => pattern_replace_all(&p, text, rep),
        None => {
            let mut out: Vec<u8> = Vec::new();
            push_all(&mut out, text);
            assert(out@ =~= text@);
            out
        },
    }
}

/// Capture groups of every match of `pat` in `text`.
pub fn re_captures_bytes(pat: &str, text: &[u8]) -> (res: Vec<Vec<Option<(usize, usize)>>>)
    ensures
        captures_view(res@) == re_captures(pat.spec_bytes(), text@),
        well_formed_captures(captures_view(res@), text@.len()),
{
    match pattern_new(pat) {
        Some(p) => pattern_captures(&p, text),
        None => {
            let v: Vec<Vec<Option<(usize, usize)>>> = Vec::new();
            assert(captures_view(v@) =~= Seq::<Seq<Option<(usize, usize)>>>::empty());
            v
        },
    }
}

} // verus!
