use latex_extract::codec::is_valid_utf8;
use latex_extract::archive::{
    classify_by_extension, classify_entry, decode_bytes, derive_arxiv_id, detect_file_type,
    entry_too_large, extract_single_tex, paper_from_entry, PaperArchive,
};
use latex_extract::result::FileType;
use std::sync::Arc;

#[test]
fn test_derive_arxiv_id() {
    assert_eq!(derive_arxiv_id("2401.00001.tar.gz"), "2401.00001");
    assert_eq!(derive_arxiv_id("2401.00001.gz"), "2401.00001");
    assert_eq!(derive_arxiv_id("path/to/2401.00001.tar.gz"), "2401.00001");
}

#[test]
fn test_decode_utf8() {
    let bytes = "hello world".as_bytes();
    assert_eq!(decode_bytes(bytes).unwrap(), "hello world");
}

#[test]
fn test_decode_latin1() {
    let bytes = vec![0x63, 0x61, 0x66, 0xe9];
    let result = decode_bytes(&bytes).unwrap();
    assert!(result.contains("caf"));
}

#[test]
fn test_decode_utf8_bom() {
    let mut bytes = vec![0xEF, 0xBB, 0xBF];
    bytes.extend_from_slice("hello".as_bytes());
    assert_eq!(decode_bytes(&bytes).unwrap(), "hello");
}

#[test]
fn test_detect_file_type_empty() {
    assert_eq!(detect_file_type(b""), FileType::Unknown);
}

#[test]
fn test_detect_file_type_pdf() {
    assert_eq!(detect_file_type(b"%PDF-1.4 fake pdf"), FileType::Pdf);
}

#[test]
fn test_detect_file_type_postscript() {
    assert_eq!(detect_file_type(b"%!PS-Adobe-3.0"), FileType::Postscript);
}

#[test]
fn test_detect_file_type_html_doctype() {
    assert_eq!(detect_file_type(b"<!DOCTYPE html>"), FileType::Html);
    assert_eq!(detect_file_type(b"<!doctype html>"), FileType::Html);
}

#[test]
fn test_detect_file_type_html_tag() {
    assert_eq!(detect_file_type(b"<html>"), FileType::Html);
    assert_eq!(detect_file_type(b"<HTML>"), FileType::Html);
}

#[test]
fn test_detect_file_type_tex() {
    assert_eq!(
        detect_file_type(b"\\documentclass{article}"),
        FileType::Tex
    );
}

#[test]
fn paper_archive_tex_files_is_arc() {
    let p = PaperArchive {
        arxiv_id: "x".into(),
        tex_files: Arc::new(vec![]),
        file_type: FileType::Unknown,
        entry_name: "x".into(),
    };
    let p2_files = Arc::clone(&p.tex_files);
    assert!(Arc::ptr_eq(&p.tex_files, &p2_files));
}

#[test]
fn test_classify_by_extension() {
    assert_eq!(classify_by_extension("2401.00001.pdf"), FileType::Pdf);
    assert_eq!(classify_by_extension("2401.00001.tex"), FileType::Tex);
    assert_eq!(classify_by_extension("2401.00001.gz"), FileType::Unknown);
    assert_eq!(classify_by_extension("2401.00001.tar.gz"), FileType::Unknown);
    assert_eq!(classify_by_extension("no_extension"), FileType::Unknown);
}

#[test]
fn derive_arxiv_id_old_style_and_repeated_suffixes() {
    assert_eq!(derive_arxiv_id("hep-ph/0001001.gz"), "hep-ph/0001001");
    assert_eq!(derive_arxiv_id("0001/hep-ph0001001.gz"), "hep-ph0001001");
    assert_eq!(derive_arxiv_id("0001001.gz"), "0001001");
    assert_eq!(derive_arxiv_id("dir/12345.gz"), "12345");
    assert_eq!(derive_arxiv_id("a.gz.gz"), "a");
    assert_eq!(derive_arxiv_id("paper.tex"), "paper");
    assert_eq!(derive_arxiv_id("dir/"), "");
}

#[test]
fn html_prefix_needs_full_tag() {
    assert_eq!(detect_file_type(b"<htm"), FileType::Tex);
    assert_eq!(detect_file_type(b"<HtMl lang=en>"), FileType::Html);
}

#[test]
fn decode_windows_1252_maps_high_bytes() {
    let bytes = vec![0x63, 0x61, 0x66, 0xe9];
    assert_eq!(decode_bytes(&bytes).unwrap(), "caf\u{e9}");
}

#[test]
fn oversized_entry_is_refused_with_limit_message() {
    assert!(entry_too_large(200_000_000));
    assert!(!entry_too_large(100_000_000));
    let r = paper_from_entry("2401.99999.gz", 200_000_000, &[]);
    match r {
        Err(e) => {
            assert_eq!(e, "entry 2401.99999.gz raw size (200000000 bytes) exceeds 100MB limit");
            assert!(e.contains("100MB limit"));
        }
        Ok(_) => panic!("expected refusal"),
    }
}

#[test]
fn tex_entry_is_single_file() {
    let p = paper_from_entry("2401.00001.tex", 5, b"hello").unwrap();
    assert_eq!(p.arxiv_id, "2401.00001");
    assert_eq!(p.file_type, FileType::Tex);
    assert_eq!(p.tex_files.len(), 1);
    assert_eq!(p.tex_files[0].name, "2401.00001.tex");
    assert_eq!(p.tex_files[0].content, "hello");
    let files = extract_single_tex(b"x", "a.tex");
    assert_eq!(files[0].name, "a.tex");
}

#[test]
fn pdf_and_unknown_entries_have_no_files() {
    let (files, ft) = classify_entry("a.pdf", b"%PDF", "a");
    assert!(files.is_empty());
    assert_eq!(ft, FileType::Pdf);
    let (files, ft) = classify_entry("a.zip", b"PK", "a");
    assert!(files.is_empty());
    assert_eq!(ft, FileType::Unknown);
}

#[test]
fn broken_gz_entry_is_unknown() {
    let (files, ft) = classify_entry("a.gz", b"not gzip", "a");
    assert!(files.is_empty());
    assert_eq!(ft, FileType::Unknown);
}

#[test]
fn test_utf8_validation_matches_std() {
    let cases: Vec<Vec<u8>> = vec![
        b"plain ascii".to_vec(),
        "caf\u{e9} \u{800} \u{ffff} \u{10000} \u{10ffff} \u{d7ff} \u{e000}".as_bytes().to_vec(),
        vec![0xc0, 0x80],
        vec![0xc1, 0xbf],
        vec![0xe0, 0x9f, 0xbf],
        vec![0xed, 0xa0, 0x80],
        vec![0xf0, 0x8f, 0xbf, 0xbf],
        vec![0xf4, 0x90, 0x80, 0x80],
        vec![0xf5, 0x80, 0x80, 0x80],
        vec![0xe2, 0x82],
        vec![0x80],
        vec![0xff],
        vec![],
    ];
    for c in cases {
        assert_eq!(is_valid_utf8(&c), std::str::from_utf8(&c).is_ok(), "{:?}", c);
    }
}

#[test]
fn test_arxiv_id_keeps_unicode_directory() {
    assert_eq!(derive_arxiv_id("d\u{e9}p\u{f4}t/hep-ph/0001001.gz"), "hep-ph/0001001");
    assert_eq!(derive_arxiv_id("\u{e9}t\u{e9}/r\u{e9}sum\u{e9}.tex"), "r\u{e9}sum\u{e9}");
}
