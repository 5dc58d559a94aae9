use latex_extract::archive::PaperArchive;
use latex_extract::input_resolve::TexFile;
use latex_extract::metrics::Outcome;
use latex_extract::paper::{classify_result, oversize_result, paper_error_result, process_paper, record_after_deadline, size_capped, tex_bytes, timeout_result};
use latex_extract::result::{ExtractionResult, FileType};
use std::sync::atomic::AtomicBool;
use std::sync::Arc;

const DEFAULT_MAX_TEX_BYTES: usize = 20_000_000;

fn paper(files: Vec<TexFile>) -> PaperArchive {
    PaperArchive {
        arxiv_id: "2401.00001".into(),
        tex_files: Arc::new(files),
        file_type: FileType::Tex,
        entry_name: "2401.00001.gz".into(),
    }
}

#[test]
fn test_classify_result() {
    let make = |status: &str, error: Option<&str>| ExtractionResult {
        arxiv_id: "test".into(),
        source_tar: None,
        status: status.into(),
        num_tex_files: None,
        text_length: None,
        text: None,
        error: error.map(|s| s.into()),
        stage_timings_us: None,
        total_time_us: None,
        peak_memory_bytes: None,
        file_type: None,
        entry_name: None,
    };

    assert_eq!(classify_result(&make("ok", None)), Outcome::Success);
    assert_eq!(classify_result(&make("timeout", Some("timed out after 30s"))), Outcome::Timeout);
    assert_eq!(classify_result(&make("skipped", Some("too large"))), Outcome::Skipped);
    assert_eq!(classify_result(&make("empty", None)), Outcome::Empty);
    assert_eq!(classify_result(&make("error", Some("extraction thread crashed"))), Outcome::Crash);
    assert_eq!(classify_result(&make("error", Some("some panic message"))), Outcome::Panic);
    assert_eq!(classify_result(&make("error", None)), Outcome::Panic);
}

#[test]
fn process_paper_without_files_is_empty() {
    let r = process_paper(&paper(vec![]), Some("arXiv_src_2401_001.tar"), None);
    assert_eq!(r.status, "empty");
    assert_eq!(r.num_tex_files, Some(0));
    assert_eq!(r.source_tar.as_deref(), Some("arXiv_src_2401_001.tar"));
    assert!(r.text.is_none());
    assert!(r.stage_timings_us.is_none());
}

#[test]
fn process_paper_extracts_text_and_timings() {
    let p = paper(vec![TexFile {
        name: "main.tex".into(),
        content: "\\documentclass{article}\n\\begin{document}\n\\section{Intro}\nHello.\n\\end{document}".into(),
    }]);
    let r = process_paper(&p, None, None);
    assert_eq!(r.status, "ok");
    let text = r.text.clone().unwrap();
    assert!(text.contains("Hello."));
    assert_eq!(r.text_length, Some(text.chars().count()));
    assert_eq!(r.num_tex_files, Some(1));
    assert!(r.stage_timings_us.unwrap().starts_with("{\"remove_comments\":"));
    assert!(r.total_time_us.is_some());
    assert_eq!(r.file_type, Some(FileType::Tex));
    assert_eq!(r.entry_name.as_deref(), Some("2401.00001.gz"));
}

#[test]
fn oversize_and_timeout_messages() {
    let p = paper(vec![TexFile { name: "a.tex".into(), content: "abc".into() }]);
    let r = oversize_result(&p, None, 25_000_001, 20_000_000);
    assert_eq!(r.status, "skipped");
    assert_eq!(r.error.as_deref(), Some("combined .tex content (25000001 bytes) exceeds 20MB limit"));
    let t = timeout_result(&p, Some("x.tar"), 45);
    assert_eq!(t.status, "timeout");
    assert_eq!(t.error.as_deref(), Some("extraction timed out after 45s"));
    assert_eq!(t.source_tar.as_deref(), Some("x.tar"));
}

#[test]
fn tex_bytes_sums_contents() {
    let files = vec![
        TexFile { name: "a.tex".into(), content: "abc".into() },
        TexFile { name: "b.tex".into(), content: "é".into() },
    ];
    assert_eq!(tex_bytes(&files), 5);
}

fn named_paper(arxiv_id: &str, content: String) -> PaperArchive {
    PaperArchive {
        arxiv_id: arxiv_id.into(),
        tex_files: Arc::new(vec![TexFile { name: "main.tex".into(), content }]),
        file_type: FileType::Tex,
        entry_name: "test.gz".into(),
    }
}

/// The record of a paper under the size cap, as the driver builds it before
/// any timeout is considered.
fn capped_or_processed(paper: &PaperArchive, source_tar: Option<&str>, max_tex_bytes: usize) -> ExtractionResult {
    match size_capped(paper, source_tar, max_tex_bytes) {
        Some(skipped) => skipped,
        None => process_paper(paper, source_tar, None),
    }
}

#[test]
fn test_content_size_cap() {
    let large_content = "x".repeat(DEFAULT_MAX_TEX_BYTES + 1);
    let paper = named_paper("test.oversize", large_content);
    let result = capped_or_processed(&paper, None, DEFAULT_MAX_TEX_BYTES);
    assert_eq!(result.status, "skipped");
    assert!(result.error.unwrap().contains("exceeds"));
}

#[test]
fn test_content_size_cap_custom() {
    let content = "x".repeat(100);
    let paper = named_paper("test.custom_limit", content.clone());
    // 100 bytes exceeds a 50-byte custom limit
    let result = capped_or_processed(&paper, None, 50);
    assert_eq!(result.status, "skipped");

    // Same content passes with a larger limit
    let paper2 = named_paper("test.custom_limit_ok", content);
    let result2 = capped_or_processed(&paper2, None, 200);
    assert_ne!(result2.status, "skipped");
}

#[test]
fn test_timeout_fires() {
    let paper = named_paper(
        "test.timeout",
        r"\documentclass{article}\begin{document}Hello\end{document}".into(),
    );
    // The deadline has already passed: the cancel flag is raised before the
    // pipeline starts, and a paper left without text is a timeout.
    let cancel = AtomicBool::new(true);
    let processed = process_paper(&paper, None, Some(&cancel));
    let result = record_after_deadline(&paper, None, processed, true, 0);
    assert!(result.status == "timeout" || result.status == "ok");
}

#[test]
fn test_normal_extraction_with_timeout() {
    let paper = named_paper(
        "test.normal",
        r"\documentclass{article}
\begin{document}
\section{Introduction}
Hello world.
\end{document}"
            .into(),
    );
    let result = capped_or_processed(&paper, Some("test.tar"), DEFAULT_MAX_TEX_BYTES);
    assert_eq!(result.status, "ok");
    assert!(result.text.unwrap().contains("Hello world."));
    assert_eq!(result.source_tar.unwrap(), "test.tar");
}

#[test]
fn test_extraction_result_has_timing() {
    let paper = named_paper(
        "test.timing",
        r"\documentclass{article}
\begin{document}
Hello.
\end{document}"
            .into(),
    );
    let result = capped_or_processed(&paper, None, DEFAULT_MAX_TEX_BYTES);
    assert_eq!(result.status, "ok");
    assert!(result.stage_timings_us.is_some(), "should have stage timings");
    assert!(result.total_time_us.is_some(), "should have total time");
    assert!(result.total_time_us.unwrap() > 0);

    let json = result.stage_timings_us.unwrap();
    assert!(json.contains("remove_comments"), "timing JSON: {json}");
}

#[test]
fn size_cap_is_strict() {
    let paper = named_paper("test.exact", "x".repeat(50));
    assert!(size_capped(&paper, None, 50).is_none());
    assert!(size_capped(&paper, None, 49).is_some());
}

#[test]
fn text_length_counts_characters() {
    let p = paper(vec![TexFile {
        name: "main.tex".into(),
        content: "\\documentclass{article}\n\\begin{document}\nCafé Straße.\n\\end{document}".into(),
    }]);
    let r = process_paper(&p, None, None);
    let text = r.text.clone().unwrap();
    assert!(text.contains("Café Straße."));
    assert_eq!(r.text_length, Some(text.chars().count()));
    assert!(text.len() > text.chars().count());
}

#[test]
fn size_capped_record_keeps_paper_fields() {
    let p = named_paper("test.fields", "x".repeat(20));
    let r = size_capped(&p, Some("t.tar"), 10).unwrap();
    assert_eq!(r.status, "skipped");
    assert_eq!(r.num_tex_files, Some(1));
    assert_eq!(r.source_tar.as_deref(), Some("t.tar"));
    assert_eq!(r.file_type, Some(FileType::Tex));
    assert_eq!(r.entry_name.as_deref(), Some("test.gz"));
    assert!(r.text.is_none());
}

#[test]
fn error_record_keeps_paper_fields() {
    let p = named_paper("test.err", "abc".into());
    let r = paper_error_result(&p, None, "error", "boom".into());
    assert_eq!(r.status, "error");
    assert_eq!(r.error.as_deref(), Some("boom"));
    assert_eq!(r.num_tex_files, Some(1));
    assert_eq!(r.entry_name.as_deref(), Some("test.gz"));
    assert!(r.source_tar.is_none());
    assert_eq!(classify_result(&r), Outcome::Panic);
}

#[test]
fn raised_flag_gives_no_text() {
    let p = named_paper("test.flag", "\\documentclass{article}\\begin{document}Hi.\\end{document}".into());
    let cancel = AtomicBool::new(true);
    let r = process_paper(&p, None, Some(&cancel));
    assert!(r.text.is_none());
    assert_eq!(r.status, "empty");
    let not_raised = AtomicBool::new(false);
    let r2 = process_paper(&p, None, Some(&not_raised));
    assert_eq!(r2.text.as_deref(), process_paper(&p, None, None).text.as_deref());
}

#[test]
fn test_record_after_deadline_without_text_is_timeout() {
    let paper = named_paper("late.paper", r"\begin{document}x\end{document}".into());
    let failed = paper_error_result(&paper, Some("a.tar"), "error", "boom".to_string());
    let result = record_after_deadline(&paper, Some("a.tar"), failed, true, 120);
    assert_eq!(result.status, "timeout");
    assert_eq!(result.error.as_deref(), Some("extraction timed out after 120s"));
    assert_eq!(result.source_tar.as_deref(), Some("a.tar"));
    assert!(result.text.is_none());
}

#[test]
fn test_record_after_deadline_keeps_text() {
    let paper = named_paper("kept.paper", r"\begin{document}Kept text.\end{document}".into());
    let processed = process_paper(&paper, None, None);
    assert!(processed.text.is_some());
    let result = record_after_deadline(&paper, None, processed, true, 5);
    assert_eq!(result.status, "ok");
    assert!(result.text.unwrap().contains("Kept text."));
}

#[test]
fn test_record_before_deadline_unchanged() {
    let paper = named_paper("early.paper", r"\begin{document}x\end{document}".into());
    let failed = paper_error_result(&paper, None, "error", "boom".to_string());
    let result = record_after_deadline(&paper, None, failed, false, 5);
    assert_eq!(result.status, "error");
    assert_eq!(result.error.as_deref(), Some("boom"));
}
