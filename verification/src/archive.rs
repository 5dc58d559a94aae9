//! Classifying and unpacking the entries of an arXiv source archive.
//!
//! Reading the outer archive from disk or a stream belongs to the caller;
//! everything here works on bytes already in memory.

use vstd::prelude::*;
use vstd::string::StringSliceAdditionalSpecFns;
use std::sync::Arc;
use crate::codec::{
    decode_windows1252, gunzip, gunzip_limited, is_valid_utf8, items_view, tar_gz_items,
    tar_gz_listing, tar_items, tar_listing, windows1252_decode, TarItem,
};
use crate::input_resolve::TexFile;
use crate::result::FileType;
use crate::scan::{
    bytes_ends_with, ends_with, last_component_bytes, last_component_start, lowercase, push_all,
    push_range, starts_with, to_ascii_lowercase_bytes,
};
use crate::text::{string_from_bytes, utf8_lossy};
use crate::timing::{decimal, push_decimal};

verus! {

/// A paper extracted from an arXiv archive.
///
/// `tex_files` is shared so that handing the files to another worker is a
/// reference-count bump rather than a copy.
pub struct PaperArchive {
    pub arxiv_id: String,
    pub tex_files: Arc<Vec<TexFile>>,
    pub file_type: FileType,
    pub entry_name: String,
}

/// Maximum decompressed size per archive (100MB).
pub const MAX_DECOMPRESSED_SIZE: u64 = 100_000_000;

pub const PDF_MAGIC: &'static str = "%PDF";

pub const PS_MAGIC: &'static str = "%!PS";

pub const HTML_TAG: &'static str = "<html";

pub const HTML_DOCTYPE: &'static str = "<!doctype";

pub const PDF_EXT: &'static str = ".pdf";

pub const TEX_EXT: &'static str = ".tex";

pub const TAR_GZ_EXT: &'static str = ".tar.gz";

pub const TGZ_EXT: &'static str = ".tgz";

pub const GZ_EXT: &'static str = ".gz";

pub const BBL_EXT: &'static str = ".bbl";

pub const LTX_EXT: &'static str = ".ltx";

pub const LATEX_EXT: &'static str = ".latex";

/// `b` begins with `p`, comparing ASCII letters without regard to case.
pub open spec fn starts_with_ci(b: Seq<u8>, p: Seq<u8>) -> bool {
    b.len() >= p.len() && lowercase(b.subrange(0, p.len() as int)) == lowercase(p)
}

/// The type of a (decompressed) file judged by its first bytes.
pub open spec fn file_type_of(b: Seq<u8>) -> FileType {
    if b.len() == 0 {
        FileType::Unknown
    } else if starts_with(b, PDF_MAGIC.spec_bytes()) {
        FileType::Pdf
    } else if starts_with(b, PS_MAGIC.spec_bytes()) {
        FileType::Postscript
    } else if starts_with_ci(b, HTML_TAG.spec_bytes()) || starts_with_ci(b, HTML_DOCTYPE.spec_bytes()) {
        FileType::Html
    } else {
        FileType::Tex
    }
}

fn bytes_starts_with_ci(b: &[u8], p: &[u8]) -> (res: bool)
    ensures
        res == starts_with_ci(b@, p@),
{
    if b.len() < p.len() {
        return false;
    }
    let head = &b[0..p.len()];
    let lb = to_ascii_lowercase_bytes(head);
    let lp = to_ascii_lowercase_bytes(p);
    assert(b@.subrange(0, p@.len() as int) =~= head@);
    crate::scan::bytes_eq(lb.as_slice(), lp.as_slice())
}

/// Detect the type of a file from its content.
pub fn detect_file_type(bytes: &[u8]) -> (res: FileType)
    ensures
        res == file_type_of(bytes@),
{
    if bytes.len() == 0 {
        return FileType::Unknown;
    }
    if crate::scan::bytes_starts_with(bytes, PDF_MAGIC.as_bytes()) {
        FileType::Pdf
    } else if crate::scan::bytes_starts_with(bytes, PS_MAGIC.as_bytes()) {
        FileType::Postscript
    } else if bytes_starts_with_ci(bytes, HTML_TAG.as_bytes()) || bytes_starts_with_ci(
        bytes,
        HTML_DOCTYPE.as_bytes(),
    ) {
        FileType::Html
    } else {
        FileType::Tex
    }
}

/// Best-effort type from a file name's extension alone, for when the
/// content was not inspected.
pub fn classify_by_extension(path: &str) -> (res: FileType)
    ensures
        res == (if ends_with(path.spec_bytes(), PDF_EXT.spec_bytes()) {
            FileType::Pdf
        } else if ends_with(path.spec_bytes(), TEX_EXT.spec_bytes()) {
            FileType::Tex
        } else {
            FileType::Unknown
        }),
{
    if bytes_ends_with(path.as_bytes(), PDF_EXT.as_bytes()) {
        FileType::Pdf
    } else if bytes_ends_with(path.as_bytes(), TEX_EXT.as_bytes()) {
        FileType::Tex
    } else {
        FileType::Unknown
    }
}

/// `s` with every trailing repetition of `suf` removed, as
/// `str::trim_end_matches` does.
pub open spec fn trim_end_all(s: Seq<u8>, suf: Seq<u8>) -> Seq<u8>
    decreases s.len(),
{
    if suf.len() > 0 && ends_with(s, suf) {
        trim_end_all(s.subrange(0, s.len() - suf.len()), suf)
    } else {
        s
    }
}

/// The last component of a path without the archive and file extensions.
pub open spec fn entry_stem(path: Seq<u8>) -> Seq<u8> {
    let name = path.subrange(last_component_start(path, path.len() as int), path.len() as int);
    trim_end_all(
        trim_end_all(
            trim_end_all(
                trim_end_all(trim_end_all(name, TAR_GZ_EXT.spec_bytes()), TGZ_EXT.spec_bytes()),
                GZ_EXT.spec_bytes(),
            ),
            TEX_EXT.spec_bytes(),
        ),
        PDF_EXT.spec_bytes(),
    )
}

/// An old-style arXiv number: seven ASCII digits (`YYMMNNN`).
pub open spec fn is_old_style_number(s: Seq<u8>) -> bool {
    s.len() == 7 && forall|i: int| 0 <= i < 7 ==> 0x30 <= #[trigger] s[i] <= 0x39
}

/// The directory component just before the last one (empty when there is
/// none).
pub open spec fn parent_component(path: Seq<u8>) -> Seq<u8> {
    let st = last_component_start(path, path.len() as int);
    if st <= 0 {
        Seq::empty()
    } else {
        let dir = path.subrange(0, st - 1);
        dir.subrange(last_component_start(dir, dir.len() as int), dir.len() as int)
    }
}

/// The arXiv id of an archive entry path: its last component without the
/// archive and file extensions; an old-style number keeps its archive
/// directory in front (`hep-ph/0001001`).
pub open spec fn arxiv_id_of(path: Seq<u8>) -> Seq<u8> {
    let base = entry_stem(path);
    let parent = parent_component(path);
    if is_old_style_number(base) && parent.len() > 0 {
        parent + seq![0x2fu8] + base
    } else {
        base
    }
}

/// Length of `s[..end]` once every trailing `suf` is removed.
fn trim_end_len(s: &[u8], end: usize, suf: &[u8]) -> (res: usize)
    requires
        end <= s.len(),
    ensures
        res <= end,
        s@.subrange(0, res as int) == trim_end_all(s@.subrange(0, end as int), suf@),
{
    let mut e = end;
    while suf.len() > 0 && e >= suf.len() && crate::scan::bytes_match_at(s, suf, e - suf.len())
        invariant
            e <= end <= s.len(),
            trim_end_all(s@.subrange(0, e as int), suf@) == trim_end_all(
                s@.subrange(0, end as int),
                suf@,
            ),
        decreases e,
    {
        let ghost cur = s@.subrange(0, e as int);
        assert(ends_with(cur, suf@)) by {
            assert(cur.subrange(cur.len() - suf@.len(), cur.len() as int) =~= s@.subrange(
                e - suf@.len(),
                e as int,
            ));
        }
        assert(cur.subrange(0, cur.len() - suf@.len()) =~= s@.subrange(0, e - suf@.len()));
        e = e - suf.len();
    }
    proof {
        let cur = s@.subrange(0, e as int);
        if suf@.len() > 0 && ends_with(cur, suf@) {
            assert(cur.subrange(cur.len() - suf@.len(), cur.len() as int) =~= s@.subrange(
                e - suf@.len(),
                e as int,
            ));
            assert(false);
        }
    }
    e
}

/// The stem of the last component of an entry path.
fn entry_stem_bytes(path: &[u8]) -> (res: Vec<u8>)
    ensures
        res@ == entry_stem(path@),
{
    let start = last_component_bytes(path);
    let name = &path[start..path.len()];
    let ghost n = path@.subrange(start as int, path@.len() as int);
    assert(name@ == n);
    assert(n.subrange(0, n.len() as int) =~= n);
    let e1 = trim_end_len(name, name.len(), TAR_GZ_EXT.as_bytes());
    let e2 = trim_end_len(name, e1, TGZ_EXT.as_bytes());
    let e3 = trim_end_len(name, e2, GZ_EXT.as_bytes());
    let e4 = trim_end_len(name, e3, TEX_EXT.as_bytes());
    let e5 = trim_end_len(name, e4, PDF_EXT.as_bytes());
    let mut out: Vec<u8> = Vec::new();
    push_range(&mut out, name, 0, e5);
    assert(out@ =~= name@.subrange(0, e5 as int));
    out
}

/// Bytes of the arXiv id of an entry path.
pub fn arxiv_id_bytes(path: &[u8]) -> (res: Vec<u8>)
    ensures
        res@ == arxiv_id_of(path@),
{
    let base = entry_stem_bytes(path);
    let start = last_component_bytes(path);
    let mut digits = base.len() == 7;
    let mut i: usize = 0;
    while digits && i < base.len()
        invariant
            i <= base.len(),
            digits ==> base.len() == 7 && forall|j: int| 0 <= j < i ==> 0x30 <= #[trigger] base@[j] <= 0x39,
            !digits ==> !is_old_style_number(base@),
        decreases base.len() - i,
    {
        if base[i] < 0x30 || base[i] > 0x39 {
            digits = false;
        }
        i = i + 1;
    }
    if !digits || start == 0 {
        return base;
    }
    let dir = &path[0..start - 1];
    assert(dir@ == path@.subrange(0, start - 1));
    let ps = last_component_bytes(dir);
    if ps >= dir.len() {
        return base;
    }
    let mut out: Vec<u8> = Vec::new();
    push_range(&mut out, dir, ps, dir.len());
    out.push(0x2f);
    push_all(&mut out, base.as_slice());
    assert(out@ =~= parent_component(path@) + seq![0x2fu8] + base@);
    out
}

proof fn lemma_component_start(s: Seq<u8>, i: int)
    requires
        0 <= i <= s.len(),
    ensures
        0 <= last_component_start(s, i) <= i,
        last_component_start(s, i) > 0 ==> s[last_component_start(s, i) - 1] == 0x2f,
    decreases i,
{
    if i > 0 && s[i - 1] != 0x2f {
        lemma_component_start(s, i - 1);
    }
}

/// The last component of valid UTF-8 text is valid UTF-8: it starts after
/// an ASCII `/` or at the start.
proof fn lemma_component_utf8(s: Seq<u8>)
    requires
        vstd::utf8::valid_utf8(s),
    ensures
        vstd::utf8::valid_utf8(s.subrange(last_component_start(s, s.len() as int), s.len() as int)),
{
    lemma_component_start(s, s.len() as int);
    let st = last_component_start(s, s.len() as int);
    assert(s.subrange(0, s.len() as int) =~= s);
    if st > 0 {
        crate::text::lemma_utf8_after_ascii(s, 0, st - 1);
    }
}

/// Trimming a suffix that starts with an ASCII byte keeps text valid
/// UTF-8.
proof fn lemma_trim_end_utf8(s: Seq<u8>, suf: Seq<u8>)
    requires
        vstd::utf8::valid_utf8(s),
        suf.len() > 0 ==> suf[0] < 0x80,
    ensures
        vstd::utf8::valid_utf8(trim_end_all(s, suf)),
    decreases s.len(),
{
    if suf.len() > 0 && ends_with(s, suf) {
        let k = s.len() - suf.len();
        assert(s[k] == suf[0]) by {
            assert(s.subrange(k, s.len() as int)[0] == s[k]);
        }
        assert(s.subrange(0, s.len() as int) =~= s);
        crate::text::lemma_utf8_before_ascii(s, 0, k);
        lemma_trim_end_utf8(s.subrange(0, k), suf);
    }
}

proof fn lemma_ext_starts_ascii(e: &str)
    requires
        vstd::string::is_ascii(e),
    ensures
        e.spec_bytes().len() > 0 ==> e.spec_bytes()[0] < 0x80,
{
    vstd::string::is_ascii_spec_bytes(e);
    if e@.len() > 0 {
        assert(vstd::utf8::is_ascii_chars(e@));
        assert((e@[0] as u32) < 0x80);
    }
}

/// The arXiv id of a valid UTF-8 path is valid UTF-8.
proof fn lemma_arxiv_id_utf8(path: Seq<u8>)
    requires
        vstd::utf8::valid_utf8(path),
    ensures
        vstd::utf8::valid_utf8(arxiv_id_of(path)),
{
    reveal_strlit(".tar.gz");
    reveal_strlit(".tgz");
    reveal_strlit(".gz");
    reveal_strlit(".tex");
    reveal_strlit(".pdf");
    lemma_ext_starts_ascii(TAR_GZ_EXT);
    lemma_ext_starts_ascii(TGZ_EXT);
    lemma_ext_starts_ascii(GZ_EXT);
    lemma_ext_starts_ascii(TEX_EXT);
    lemma_ext_starts_ascii(PDF_EXT);
    lemma_component_utf8(path);
    let name = path.subrange(last_component_start(path, path.len() as int), path.len() as int);
    let a = trim_end_all(name, TAR_GZ_EXT.spec_bytes());
    lemma_trim_end_utf8(name, TAR_GZ_EXT.spec_bytes());
    let b = trim_end_all(a, TGZ_EXT.spec_bytes());
    lemma_trim_end_utf8(a, TGZ_EXT.spec_bytes());
    let c = trim_end_all(b, GZ_EXT.spec_bytes());
    lemma_trim_end_utf8(b, GZ_EXT.spec_bytes());
    let d = trim_end_all(c, TEX_EXT.spec_bytes());
    lemma_trim_end_utf8(c, TEX_EXT.spec_bytes());
    lemma_trim_end_utf8(d, PDF_EXT.spec_bytes());
    let base = entry_stem(path);
    let parent = parent_component(path);
    if is_old_style_number(base) && parent.len() > 0 {
        lemma_component_start(path, path.len() as int);
        let st = last_component_start(path, path.len() as int);
        let dir = path.subrange(0, st - 1);
        assert(path.subrange(0, path.len() as int) =~= path);
        crate::text::lemma_utf8_before_ascii(path, 0, st - 1);
        lemma_component_utf8(dir);
        crate::text::lemma_ascii_utf8(seq![0x2fu8]);
        vstd::utf8::valid_utf8_concat(parent, seq![0x2fu8]);
        vstd::utf8::valid_utf8_concat(parent + seq![0x2fu8], base);
    }
}

/// Derive an arXiv id from an archive entry path:
/// "2401.00001.tar.gz" gives "2401.00001", "hep-ph/0001001.gz" gives
/// "hep-ph/0001001".
pub fn derive_arxiv_id(path: &str) -> (res: String)
    ensures
        res@ == utf8_lossy(arxiv_id_of(path.spec_bytes())),
        vstd::utf8::valid_utf8(arxiv_id_of(path.spec_bytes())),
        res@ == vstd::utf8::decode_utf8(arxiv_id_of(path.spec_bytes())),
{
    proof {
        vstd::utf8::encode_utf8_valid_utf8(path@);
        lemma_arxiv_id_utf8(path.spec_bytes());
    }
    let b = arxiv_id_bytes(path.as_bytes());
    string_from_bytes(b.as_slice())
}

/// `b` without a leading UTF-8 byte order mark.
pub open spec fn without_bom(b: Seq<u8>) -> Seq<u8> {
    if b.len() >= 3 && b[0] == 0xef && b[1] == 0xbb && b[2] == 0xbf {
        b.subrange(3, b.len() as int)
    } else {
        b
    }
}

/// The text of a file's bytes: UTF-8 (without a byte order mark) when they
/// are valid UTF-8, else Windows-1252 when that decodes cleanly, else UTF-8
/// with replacement characters.
pub open spec fn decoded_text(b: Seq<u8>) -> Seq<char> {
    if vstd::utf8::valid_utf8(b) {
        vstd::utf8::decode_utf8(without_bom(b))
    } else if !windows1252_decode(b).1 {
        windows1252_decode(b).0
    } else {
        utf8_lossy(b)
    }
}

proof fn lemma_bom_strip_valid(b: Seq<u8>)
    requires
        vstd::utf8::valid_utf8(b),
    ensures
        vstd::utf8::valid_utf8(without_bom(b)),
{
    if b.len() >= 3 && b[0] == 0xef && b[1] == 0xbb && b[2] == 0xbf {
        let b0 = b[0];
        assert(b0 & 0xf0 == 0xe0) by (bit_vector)
            requires
                b0 == 0xef,
        ;
        assert(vstd::utf8::length_of_first_codepoint(b) == 3);
        assert(vstd::utf8::pop_first_scalar(b) =~= b.subrange(3, b.len() as int));
    }
}

/// Decode file bytes to text: UTF-8 first (dropping a byte order mark),
/// then Windows-1252, then lossy UTF-8. Never fails.
pub fn decode_bytes(bytes: &[u8]) -> (res: Option<String>)
    ensures
        res matches Some(s) && s@ == decoded_text(bytes@),
{
    if is_valid_utf8(bytes) {
        let start: usize = if bytes.len() >= 3 && bytes[0] == 0xef && bytes[1] == 0xbb && bytes[2]
            == 0xbf {
            3
        } else {
            0
        };
        let body = &bytes[start..bytes.len()];
        proof {
            lemma_bom_strip_valid(bytes@);
            assert(body@ =~= without_bom(bytes@));
        }
        return Some(string_from_bytes(body));
    }
    let (text, had_errors) = decode_windows1252(bytes);
    if !had_errors {
        Some(text)
    } else {
        Some(string_from_bytes(bytes))
    }
}

/// Name and content of a file.
pub open spec fn tex_view(f: TexFile) -> (Seq<char>, Seq<char>) {
    (f.name@, f.content@)
}

/// Names and contents of a list of files.
pub open spec fn tex_views(v: Seq<TexFile>) -> Seq<(Seq<char>, Seq<char>)> {
    v.map_values(|f: TexFile| tex_view(f))
}

/// What a gzip entry holds: the decompressed single file when it is TeX,
/// and the detected type.
pub open spec fn gz_classification(raw: Seq<u8>, arxiv_id: Seq<u8>) -> (Seq<(Seq<char>, Seq<char>)>, FileType) {
    match gunzip_limited(raw, MAX_DECOMPRESSED_SIZE) {
        Some(d) => if file_type_of(d) == FileType::Tex {
            (seq![(utf8_lossy(arxiv_id + TEX_EXT.spec_bytes()), decoded_text(d))], FileType::Tex)
        } else {
            (Seq::empty(), file_type_of(d))
        },
        None => (Seq::empty(), FileType::Unknown),
    }
}

/// Decompress a gzip entry (up to the size limit).
fn decompress_gz(raw: &[u8]) -> (res: Option<Vec<u8>>)
    ensures
        res matches Some(v) ==> gunzip_limited(raw@, MAX_DECOMPRESSED_SIZE) == Some(v@),
        res is None ==> gunzip_limited(raw@, MAX_DECOMPRESSED_SIZE) is None,
{
    gunzip(raw, MAX_DECOMPRESSED_SIZE)
}

/// Classify a single-file gzip entry: the TeX file it holds (named after
/// the paper) or the type it was detected as.
pub fn classify_gz(raw: &[u8], arxiv_id: &str) -> (res: (Vec<TexFile>, FileType))
    ensures
        (tex_views(res.0@), res.1) == gz_classification(raw@, arxiv_id.spec_bytes()),
{
    match decompress_gz(raw) {
        Some(decompressed) => {
            let ft = detect_file_type(decompressed.as_slice());
            if ft == FileType::Tex {
                let content = match decode_bytes(decompressed.as_slice()) {
                    Some(c) => c,
                    None => String::new(),
                };
                let mut name_bytes: Vec<u8> = Vec::new();
                push_all(&mut name_bytes, arxiv_id.as_bytes());
                push_all(&mut name_bytes, TEX_EXT.as_bytes());
                let name = string_from_bytes(name_bytes.as_slice());
                let files = vec![TexFile { name, content }];
                assert(tex_views(files@) =~= seq![(name@, content@)]);
                (files, FileType::Tex)
            } else {
                let files: Vec<TexFile> = Vec::new();
                assert(tex_views(files@) =~= Seq::empty());
                (files, ft)
            }
        },
        None => {
            let files: Vec<TexFile> = Vec::new();
            assert(tex_views(files@) =~= Seq::empty());
            (files, FileType::Unknown)
        },
    }
}

/// A file name is kept from a multi-file archive when, lowercased, it ends
/// in `.tex`, `.bbl`, `.ltx` or `.latex`.
pub open spec fn is_tex_like(name: Seq<u8>) -> bool {
    let l = lowercase(name);
    ends_with(l, TEX_EXT.spec_bytes()) || ends_with(l, BBL_EXT.spec_bytes()) || ends_with(
        l,
        LTX_EXT.spec_bytes(),
    ) || ends_with(l, LATEX_EXT.spec_bytes())
}

fn tex_like(name: &[u8]) -> (res: bool)
    ensures
        res == is_tex_like(name@),
{
    let l = to_ascii_lowercase_bytes(name);
    let s = l.as_slice();
    bytes_ends_with(s, TEX_EXT.as_bytes()) || bytes_ends_with(s, BBL_EXT.as_bytes())
        || bytes_ends_with(s, LTX_EXT.as_bytes()) || bytes_ends_with(s, LATEX_EXT.as_bytes())
}

/// The TeX-like files of a listing, skipping entries that could not be
/// read.
pub open spec fn lenient_files(items: Seq<Option<(Seq<u8>, Option<Seq<u8>>)>>) -> Seq<(Seq<char>, Seq<char>)>
    decreases items.len(),
{
    if items.len() == 0 {
        Seq::empty()
    } else {
        let prev = lenient_files(items.drop_last());
        match items.last() {
            Some((p, Some(c))) => if is_tex_like(p) {
                prev.push((utf8_lossy(p), decoded_text(c)))
            } else {
                prev
            },
            _ => prev,
        }
    }
}

/// The TeX-like files of a listing, or `None` as soon as an entry, or the
/// content of a TeX-like entry, could not be read.
pub open spec fn strict_files(items: Seq<Option<(Seq<u8>, Option<Seq<u8>>)>>) -> Option<Seq<(Seq<char>, Seq<char>)>>
    decreases items.len(),
{
    if items.len() == 0 {
        Some(Seq::empty())
    } else {
        match strict_files(items.drop_last()) {
            None => None,
            Some(prev) => match items.last() {
                None => None,
                Some((p, c)) => if !is_tex_like(p) {
                    Some(prev)
                } else {
                    match c {
                        Some(c) => Some(prev.push((utf8_lossy(p), decoded_text(c)))),
                        None => None,
                    }
                },
            },
        }
    }
}

fn tex_file_of(path: &[u8], content: &[u8]) -> (res: TexFile)
    ensures
        tex_view(res) == (utf8_lossy(path@), decoded_text(content@)),
{
    let name = string_from_bytes(path);
    let content = match decode_bytes(content) {
        Some(c) => c,
        None => String::new(),
    };
    TexFile { name, content }
}

fn collect_lenient(items: &Vec<TarItem>) -> (res: Vec<TexFile>)
    ensures
        tex_views(res@) == lenient_files(items_view(items@)),
{
    let mut out: Vec<TexFile> = Vec::new();
    let mut i: usize = 0;
    while i < items.len()
        invariant
            i <= items.len(),
            tex_views(out@) == lenient_files(items_view(items@).subrange(0, i as int)),
        decreases items.len() - i,
    {
        let ghost before = out@;
        let ghost pre = items_view(items@).subrange(0, i as int);
        let ghost next = items_view(items@).subrange(0, i + 1);
        assert(next.drop_last() =~= pre);
        match &items[i] {
            Some((p, Some(c))) => {
                if tex_like(p.as_slice()) {
                    let f = tex_file_of(p.as_slice(), c.as_slice());
                    out.push(f);
                    assert(tex_views(out@) =~= tex_views(before).push(tex_view(f)));
                }
            },
            _ => {},
        }
        i = i + 1;
    }
    assert(items_view(items@).subrange(0, items@.len() as int) =~= items_view(items@));
    out
}

fn collect_strict(items: &Vec<TarItem>) -> (res: Option<Vec<TexFile>>)
    ensures
        match res {
            Some(v) => strict_files(items_view(items@)) == Some(tex_views(v@)),
            None => strict_files(items_view(items@)) is None,
        },
{
    let mut out: Vec<TexFile> = Vec::new();
    let mut i: usize = 0;
    while i < items.len()
        invariant
            i <= items.len(),
            strict_files(items_view(items@).subrange(0, i as int)) == Some(tex_views(out@)),
        decreases items.len() - i,
    {
        let ghost before = out@;
        let ghost pre = items_view(items@).subrange(0, i as int);
        let ghost next = items_view(items@).subrange(0, i + 1);
        assert(next.drop_last() =~= pre);
        match &items[i] {
            None => {
                proof {
                    lemma_strict_none_extends(items_view(items@), i as int + 1);
                }
                return None;
            },
            Some((p, c)) => {
                if tex_like(p.as_slice()) {
                    match c {
                        Some(c) => {
                            let f = tex_file_of(p.as_slice(), c.as_slice());
                            out.push(f);
                            assert(tex_views(out@) =~= tex_views(before).push(tex_view(f)));
                        },
                        None => {
                            proof {
                                lemma_strict_none_extends(items_view(items@), i as int + 1);
                            }
                            return None;
                        },
                    }
                }
            },
        }
        i = i + 1;
    }
    assert(items_view(items@).subrange(0, items@.len() as int) =~= items_view(items@));
    Some(out)
}

/// Once a prefix of a listing fails strictly, the whole listing does.
proof fn lemma_strict_none_extends(items: Seq<Option<(Seq<u8>, Option<Seq<u8>>)>>, k: int)
    requires
        0 <= k <= items.len(),
        strict_files(items.subrange(0, k)) is None,
    ensures
        strict_files(items) is None,
    decreases items.len() - k,
{
    if k < items.len() {
        let next = items.subrange(0, k + 1);
        assert(next.drop_last() =~= items.subrange(0, k));
        lemma_strict_none_extends(items, k + 1);
    } else {
        assert(items.subrange(0, k) =~= items);
    }
}

/// The TeX files of a gzipped tar entry, skipping unreadable members;
/// `None` when the archive cannot be listed.
pub fn extract_inner_tar_gz(raw: &[u8]) -> (res: Option<Vec<TexFile>>)
    ensures
        match tar_gz_listing(raw@, MAX_DECOMPRESSED_SIZE) {
            None => res is None,
            Some(items) => res matches Some(v) && tex_views(v@) == lenient_files(items),
        },
{
    match tar_gz_items(raw, MAX_DECOMPRESSED_SIZE) {
        Some(items) => Some(collect_lenient(&items)),
        None => None,
    }
}

/// The TeX files of a plain tar file; `None` when the archive, or any
/// member that would be kept, cannot be read.
pub fn extract_from_tar(raw: &[u8]) -> (res: Option<Vec<TexFile>>)
    ensures
        match tar_listing(raw@) {
            None => res is None,
            Some(items) => match strict_files(items) {
                None => res is None,
                Some(files) => res matches Some(v) && tex_views(v@) == files,
            },
        },
{
    match tar_items(raw) {
        Some(items) => collect_strict(&items),
        None => None,
    }
}

/// A `.tex` entry as a single file under its own path.
pub fn extract_single_tex(raw: &[u8], path: &str) -> (res: Vec<TexFile>)
    ensures
        tex_views(res@) == seq![(utf8_lossy(path.spec_bytes()), decoded_text(raw@))],
{
    let f = tex_file_of(path.as_bytes(), raw);
    let v = vec![f];
    assert(tex_views(v@) =~= seq![tex_view(f)]);
    v
}

/// What a gzip-like entry holds: the files of the tar inside it when there
/// are any, else the single decompressed file.
pub open spec fn gz_entry_contents(raw: Seq<u8>, arxiv_id: Seq<u8>) -> (Seq<(Seq<char>, Seq<char>)>, FileType) {
    match tar_gz_listing(raw, MAX_DECOMPRESSED_SIZE) {
        Some(items) => if lenient_files(items).len() > 0 {
            (lenient_files(items), FileType::Tex)
        } else {
            gz_classification(raw, arxiv_id)
        },
        None => gz_classification(raw, arxiv_id),
    }
}

/// The entry is a gzip file by its name.
pub open spec fn is_gz_name(p: Seq<u8>) -> bool {
    ends_with(p, TAR_GZ_EXT.spec_bytes()) || ends_with(p, TGZ_EXT.spec_bytes()) || ends_with(
        p,
        GZ_EXT.spec_bytes(),
    )
}

/// The files and type of an archive entry, by its path and raw bytes.
pub open spec fn entry_contents(path: Seq<u8>, raw: Seq<u8>, arxiv_id: Seq<u8>) -> (Seq<(Seq<char>, Seq<char>)>, FileType) {
    if ends_with(path, PDF_EXT.spec_bytes()) {
        (Seq::empty(), FileType::Pdf)
    } else if is_gz_name(path) {
        gz_entry_contents(raw, arxiv_id)
    } else if ends_with(path, TEX_EXT.spec_bytes()) {
        (seq![(utf8_lossy(path), decoded_text(raw))], FileType::Tex)
    } else {
        (Seq::empty(), FileType::Unknown)
    }
}

fn gz_entry(raw: &[u8], arxiv_id: &str) -> (res: (Vec<TexFile>, FileType))
    ensures
        (tex_views(res.0@), res.1) == gz_entry_contents(raw@, arxiv_id.spec_bytes()),
{
    match extract_inner_tar_gz(raw) {
        Some(files) => {
            if files.len() > 0 {
                return (files, FileType::Tex);
            }
        },
        None => {},
    }
    classify_gz(raw, arxiv_id)
}

fn is_gz_path(p: &[u8]) -> (res: bool)
    ensures
        res == is_gz_name(p@),
{
    bytes_ends_with(p, TAR_GZ_EXT.as_bytes()) || bytes_ends_with(p, TGZ_EXT.as_bytes())
        || bytes_ends_with(p, GZ_EXT.as_bytes())
}

/// The files and type of an archive entry already read into memory.
pub fn classify_entry(path: &str, raw: &[u8], arxiv_id: &str) -> (res: (Vec<TexFile>, FileType))
    ensures
        (tex_views(res.0@), res.1) == entry_contents(path.spec_bytes(), raw@, arxiv_id.spec_bytes()),
{
    let p = path.as_bytes();
    if bytes_ends_with(p, PDF_EXT.as_bytes()) {
        let v: Vec<TexFile> = Vec::new();
        assert(tex_views(v@) =~= Seq::empty());
        (v, FileType::Pdf)
    } else if is_gz_path(p) {
        gz_entry(raw, arxiv_id)
    } else if bytes_ends_with(p, TEX_EXT.as_bytes()) {
        (extract_single_tex(raw, path), FileType::Tex)
    } else {
        let v: Vec<TexFile> = Vec::new();
        assert(tex_views(v@) =~= Seq::empty());
        (v, FileType::Unknown)
    }
}

/// Whether an entry's declared size is over the decompression limit, so
/// that it is refused before being read.
pub fn entry_too_large(raw_size: u64) -> (res: bool)
    ensures
        res == (raw_size > MAX_DECOMPRESSED_SIZE),
{
    raw_size > MAX_DECOMPRESSED_SIZE
}

/// The name used for a file whose name cannot be read.
pub const UNKNOWN_NAME: &'static str = "unknown";

pub const ENTRY_PREFIX: &'static str = "entry ";

pub const RAW_SIZE_PREFIX: &'static str = " raw size (";

pub const LIMIT_SUFFIX: &'static str = " bytes) exceeds 100MB limit";

/// The message an oversized entry is refused with.
pub fn oversize_error(path: &str, raw_size: u64) -> (res: String)
    ensures
        res@ == utf8_lossy(
            ENTRY_PREFIX.spec_bytes() + path.spec_bytes() + RAW_SIZE_PREFIX.spec_bytes() + decimal(
                raw_size as nat,
            ) + LIMIT_SUFFIX.spec_bytes(),
        ),
{
    let mut b: Vec<u8> = Vec::new();
    push_all(&mut b, ENTRY_PREFIX.as_bytes());
    push_all(&mut b, path.as_bytes());
    push_all(&mut b, RAW_SIZE_PREFIX.as_bytes());
    push_decimal(&mut b, raw_size);
    push_all(&mut b, LIMIT_SUFFIX.as_bytes());
    string_from_bytes(b.as_slice())
}

/// Build the paper record of an archive entry from its path, declared size
/// and bytes: refused with a message when the declared size is over the
/// limit, else classified by `classify_entry`.
pub fn paper_from_entry(path: &str, raw_size: u64, raw: &[u8]) -> (res: Result<PaperArchive, String>)
    ensures
        raw_size > MAX_DECOMPRESSED_SIZE <==> res is Err,
        res matches Ok(p) ==> {
            &&& p.arxiv_id@ == utf8_lossy(arxiv_id_of(path.spec_bytes()))
            &&& p.entry_name@ == path@
            &&& (tex_views((*p.tex_files)@), p.file_type) == entry_contents(
                path.spec_bytes(),
                raw@,
                vstd::utf8::encode_utf8(p.arxiv_id@),
            )
        },
        res matches Err(e) ==> e@ == utf8_lossy(
            ENTRY_PREFIX.spec_bytes() + path.spec_bytes() + RAW_SIZE_PREFIX.spec_bytes() + decimal(
                raw_size as nat,
            ) + LIMIT_SUFFIX.spec_bytes(),
        ),
{
    if entry_too_large(raw_size) {
        return Err(oversize_error(path, raw_size));
    }
    let arxiv_id = derive_arxiv_id(path);
    let (tex_files, file_type) = classify_entry(path, raw, arxiv_id.as_str());
    Ok(
        PaperArchive {
            arxiv_id,
            tex_files: Arc::new(tex_files),
            file_type,
            entry_name: path.to_string(),
        },
    )
}

/// What a paper file on disk holds, by its path and bytes: like an archive
/// entry, but a gzip file is first tried as a plain tar.
pub open spec fn file_contents(path: Seq<u8>, raw: Seq<u8>, arxiv_id: Seq<u8>) -> (Seq<(Seq<char>, Seq<char>)>, FileType) {
    if ends_with(path, PDF_EXT.spec_bytes()) {
        (Seq::empty(), FileType::Pdf)
    } else if is_gz_name(path) {
        match tar_listing(raw) {
            Some(items) => match strict_files(items) {
                Some(files) => if files.len() > 0 {
                    (files, FileType::Tex)
                } else {
                    gz_entry_contents(raw, arxiv_id)
                },
                None => gz_entry_contents(raw, arxiv_id),
            },
            None => gz_entry_contents(raw, arxiv_id),
        }
    } else if ends_with(path, TEX_EXT.spec_bytes()) {
        (seq![(utf8_lossy(path), decoded_text(raw))], FileType::Tex)
    } else {
        (Seq::empty(), FileType::Unknown)
    }
}

/// Build the paper record of a file read from disk, given its file name
/// (`None` when it has none readable as text), its full path and its bytes.
pub fn paper_from_file(file_name: Option<&str>, path: &str, raw: &[u8]) -> (res: PaperArchive)
    ensures
        res.arxiv_id@ == utf8_lossy(
            arxiv_id_of(
                match file_name {
                    Some(n) => n.spec_bytes(),
                    None => UNKNOWN_NAME.spec_bytes(),
                },
            ),
        ),
        res.entry_name@ == path@,
        (tex_views((*res.tex_files)@), res.file_type) == file_contents(
            path.spec_bytes(),
            raw@,
            vstd::utf8::encode_utf8(res.arxiv_id@),
        ),
{
    let arxiv_id = match file_name {
        Some(n) => derive_arxiv_id(n),
        None => derive_arxiv_id(UNKNOWN_NAME),
    };
    let p = path.as_bytes();
    let (tex_files, file_type) = if bytes_ends_with(p, PDF_EXT.as_bytes()) {
        let v: Vec<TexFile> = Vec::new();
        assert(tex_views(v@) =~= Seq::empty());
        (v, FileType::Pdf)
    } else if is_gz_path(p) {
        match extract_from_tar(raw) {
            Some(files) => {
                if files.len() > 0 {
                    (files, FileType::Tex)
                } else {
                    gz_entry(raw, arxiv_id.as_str())
                }
            },
            None => gz_entry(raw, arxiv_id.as_str()),
        }
    } else if bytes_ends_with(p, TEX_EXT.as_bytes()) {
        (extract_single_tex(raw, path), FileType::Tex)
    } else {
        let v: Vec<TexFile> = Vec::new();
        assert(tex_views(v@) =~= Seq::empty());
        (v, FileType::Unknown)
    };
    PaperArchive { arxiv_id, tex_files: Arc::new(tex_files), file_type, entry_name: path.to_string() }
}

} // verus!
