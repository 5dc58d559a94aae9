//! Trusted boundary to `unicode-normalization`.
//!
//! Each item here is believed by Verus without proof; its doc comment says
//! what is claimed of the outside code.

use vstd::prelude::*;
use unicode_normalization::UnicodeNormalization;

verus! {

/// What NFC normalization (`UnicodeNormalization::nfc`) makes of some
/// bytes read as UTF-8 (invalid sequences replaced), as UTF-8 bytes.
pub uninterp spec fn nfc_of(b: Seq<u8>) -> Seq<u8>;

/// Wraps `UnicodeNormalization::nfc` on the text of some bytes. Claimed: the
/// result is a function of the bytes.
#[verifier::external_body]
pub fn nfc_bytes(b: &[u8]) -> (res: Vec<u8>)
    ensures
        res@ == nfc_of(b@),
{
    String::from_utf8_lossy(b).nfc().collect::<String>().into_bytes()
}

} // verus!
