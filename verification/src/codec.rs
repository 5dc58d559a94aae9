//! The byte codecs: UTF-8 validation, and the trusted boundary to
//! Windows-1252 decoding from `encoding_rs`, gzip from `flate2` and tar
//! listing from `tar`. All of them work on bytes held in memory.
//!
//! Each trusted item here is believed by Verus without proof; its doc
//! comment says what is claimed of the outside code.

use vstd::prelude::*;

verus! {

/// The byte length of the well-formed UTF-8 scalar at `i`, or 0 when none
/// starts there.
fn first_scalar_width(b: &[u8], i: usize) -> (res: usize)
    requires
        i < b.len(),
    ensures
        res == 0 <==> !vstd::utf8::valid_first_scalar(b@.subrange(i as int, b@.len() as int)),
        res != 0 ==> res == vstd::utf8::length_of_first_scalar(b@.subrange(i as int, b@.len() as int)),
{
    let ghost rest = b@.subrange(i as int, b@.len() as int);
    let n = b.len() - i;
    let b0 = b[i];
    assert(rest[0] == b0);
    if b0 <= 0x7f {
        1
    } else if 0xc0 <= b0 && b0 <= 0xdf {
        if n < 2 {
            return 0;
        }
        let b1 = b[i + 1];
        assert(rest[1] == b1);
        if !(0x80 <= b1 && b1 <= 0xbf) {
            return 0;
        }
        let cp: u32 = (((b0 & 0x1f) as u32) << 6) | ((b1 & 0x3f) as u32);
        if 0x80 <= cp && !(0xd800 <= cp && cp <= 0xdfff) {
            2
        } else {
            0
        }
    } else if 0xe0 <= b0 && b0 <= 0xef {
        if n < 3 {
            return 0;
        }
        let b1 = b[i + 1];
        let b2 = b[i + 2];
        assert(rest[1] == b1 && rest[2] == b2);
        if !(0x80 <= b1 && b1 <= 0xbf && 0x80 <= b2 && b2 <= 0xbf) {
            return 0;
        }
        let cp: u32 = (((b0 & 0x0f) as u32) << 12) | (((b1 & 0x3f) as u32) << 6) | ((b2 & 0x3f) as u32);
        if 0x800 <= cp && !(0xd800 <= cp && cp <= 0xdfff) {
            3
        } else {
            0
        }
    } else if 0xf0 <= b0 && b0 <= 0xf7 {
        if n < 4 {
            return 0;
        }
        let b1 = b[i + 1];
        let b2 = b[i + 2];
        let b3 = b[i + 3];
        assert(rest[1] == b1 && rest[2] == b2 && rest[3] == b3);
        if !(0x80 <= b1 && b1 <= 0xbf && 0x80 <= b2 && b2 <= 0xbf && 0x80 <= b3 && b3 <= 0xbf) {
            return 0;
        }
        let cp: u32 = (((b0 & 0x07) as u32) << 18) | (((b1 & 0x3f) as u32) << 12) | (((b2 & 0x3f) as u32)
            << 6) | ((b3 & 0x3f) as u32);
        if 0x10000 <= cp && cp <= 0x10ffff && !(0xd800 <= cp && cp <= 0xdfff) {
            4
        } else {
            0
        }
    } else {
        0
    }
}

/// Whether the bytes are valid UTF-8 (what `std::str::from_utf8` accepts).
pub fn is_valid_utf8(b: &[u8]) -> (res: bool)
    ensures
        res == vstd::utf8::valid_utf8(b@),
{
    let mut i: usize = 0;
    assert(b@.subrange(0, b@.len() as int) =~= b@);
    while i < b.len()
        invariant
            i <= b.len(),
            vstd::utf8::valid_utf8(b@) == vstd::utf8::valid_utf8(b@.subrange(i as int, b@.len() as int)),
        decreases b.len() - i,
    {
        let ghost rest = b@.subrange(i as int, b@.len() as int);
        let w = first_scalar_width(b, i);
        if w == 0 {
            return false;
        }
        assert(vstd::utf8::pop_first_scalar(rest) =~= b@.subrange(i + w, b@.len() as int));
        i = i + w;
    }
    assert(b@.subrange(i as int, b@.len() as int) =~= Seq::<u8>::empty());
    true
}

/// What `encoding_rs::WINDOWS_1252.decode` returns for some bytes: the
/// decoded text and whether malformed sequences were replaced.
pub uninterp spec fn windows1252_decode(b: Seq<u8>) -> (Seq<char>, bool);

/// Wraps `encoding_rs::WINDOWS_1252.decode` (which also sniffs a byte
/// order mark). Claimed: the text and the error flag are a function of the
/// bytes.
#[verifier::external_body]
pub fn decode_windows1252(b: &[u8]) -> (res: (String, bool))
    ensures
        (res.0@, res.1) == windows1252_decode(b@),
{
    let (text, _, had_errors) = encoding_rs::WINDOWS_1252.decode(b);
    (text.into_owned(), had_errors)
}

/// What reading a `flate2::read::GzDecoder` over `raw`, cut off after
/// `limit` bytes, gives: the decompressed bytes, or `None` on a read error.
pub uninterp spec fn gunzip_limited(raw: Seq<u8>, limit: u64) -> Option<Seq<u8>>;

/// Wraps `GzDecoder::new(raw).take(limit).read_to_end(..)`. Claimed: the
/// outcome is a function of the compressed bytes and the limit.
#[verifier::external_body]
pub fn gunzip(raw: &[u8], limit: u64) -> (res: Option<Vec<u8>>)
    ensures
        res matches Some(v) ==> gunzip_limited(raw@, limit) == Some(v@),
        res is None ==> gunzip_limited(raw@, limit) is None,
{
    let mut reader = std::io::Read::take(flate2::read::GzDecoder::new(raw), limit);
    let mut out = Vec::new();
    std::io::Read::read_to_end(&mut reader, &mut out).ok().map(|_| out)
}

/// One entry of a tar listing: `None` where the entry or its path could not
/// be read, else the path (lossily as UTF-8) and the content, `None` where
/// reading the content failed.
pub type TarItem = Option<(Vec<u8>, Option<Vec<u8>>)>;

/// The view of one listing entry.
pub open spec fn item_view(i: TarItem) -> Option<(Seq<u8>, Option<Seq<u8>>)> {
    match i {
        Some((p, c)) => Some(
            (
                p@,
                match c {
                    Some(c) => Some(c@),
                    None => None,
                },
            ),
        ),
        None => None,
    }
}

/// The view of a listing.
pub open spec fn items_view(v: Seq<TarItem>) -> Seq<Option<(Seq<u8>, Option<Seq<u8>>)>> {
    v.map_values(|i: TarItem| item_view(i))
}

/// What `tar::Archive::entries` yields over a gzip stream (decompressed by
/// `flate2`, cut off after `limit` bytes), each entry read to the end:
/// `None` when the entry list cannot be read at all.
pub uninterp spec fn tar_gz_listing(raw: Seq<u8>, limit: u64) -> Option<Seq<Option<(Seq<u8>, Option<Seq<u8>>)>>>;

/// What `tar::Archive::entries` yields over plain tar bytes, each entry
/// read to the end: `None` when the entry list cannot be read at all.
pub uninterp spec fn tar_listing(raw: Seq<u8>) -> Option<Seq<Option<(Seq<u8>, Option<Seq<u8>>)>>>;

/// Wraps `tar::Archive::new(GzDecoder::new(raw).take(limit)).entries()`,
/// reading each entry's path and content. Claimed: the listing is a
/// function of the compressed bytes and the limit.
#[verifier::external_body]
pub fn tar_gz_items(raw: &[u8], limit: u64) -> (res: Option<Vec<TarItem>>)
    ensures
        res matches Some(v) ==> tar_gz_listing(raw@, limit) == Some(items_view(v@)),
        res is None ==> tar_gz_listing(raw@, limit) is None,
{
    let reader = std::io::Read::take(flate2::read::GzDecoder::new(raw), limit);
    let mut archive = tar::Archive::new(reader);
    let entries = archive.entries().ok()?;
    Some(entries.map(|e| {
        let mut e = e.ok()?;
        let path = e.path().ok()?.to_string_lossy().into_owned().into_bytes();
        let mut content = Vec::new();
        Some((path, std::io::Read::read_to_end(&mut e, &mut content).ok().map(|_| content)))
    }).collect())
}

/// Wraps `tar::Archive::new(raw).entries()`, reading each entry's path and
/// content. Claimed: the listing is a function of the bytes.
#[verifier::external_body]
pub fn tar_items(raw: &[u8]) -> (res: Option<Vec<TarItem>>)
    ensures
        res matches Some(v) ==> tar_listing(raw@) == Some(items_view(v@)),
        res is None ==> tar_listing(raw@) is None,
{
    let mut archive = tar::Archive::new(raw);
    let entries = archive.entries().ok()?;
    Some(entries.map(|e| {
        let mut e = e.ok()?;
        let path = e.path().ok()?.to_string_lossy().into_owned().into_bytes();
        let mut content = Vec::new();
        Some((path, std::io::Read::read_to_end(&mut e, &mut content).ok().map(|_| content)))
    }).collect())
}

} // verus!
