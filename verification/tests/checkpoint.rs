use latex_extract::admission::AdmissionControl;
use latex_extract::checkpoint::{checkpoint_line, load_checkpoint, paper_lines, parse_checkpoint};

#[test]
fn parse_checkpoint_splits_tar_and_paper_lines() {
    let cp = parse_checkpoint("tar_a\n  tar_b  \n\ntar_a\tid1\ntar_a\tid2\ntar_a\tid1\ntar_b\n");
    assert_eq!(cp.tars, vec!["tar_a".to_string(), "tar_b".to_string()]);
    assert_eq!(
        cp.papers,
        vec![("tar_a".to_string(), "id1".to_string()), ("tar_a".to_string(), "id2".to_string())]
    );
}

#[test]
fn parse_checkpoint_last_line_without_newline() {
    let cp = parse_checkpoint("x\ny");
    assert_eq!(cp.tars, vec!["x".to_string(), "y".to_string()]);
    assert!(cp.papers.is_empty());
}

#[test]
fn parse_checkpoint_trailing_tab_is_trimmed() {
    let cp = parse_checkpoint("tar\t\n");
    assert_eq!(cp.tars, vec!["tar".to_string()]);
    assert!(cp.papers.is_empty());
}

#[test]
fn load_checkpoint_missing_file_is_empty() {
    assert!(load_checkpoint(None).is_empty());
    assert_eq!(load_checkpoint(Some("a\n\tb\n")), vec!["a".to_string(), "b".to_string()]);
}

#[test]
fn admission_counts_permits() {
    let mut ac = AdmissionControl::new(2);
    assert_eq!(ac.available_permits(), 2);
    assert!(ac.try_acquire());
    assert!(ac.try_acquire());
    assert!(!ac.try_acquire());
    assert_eq!(ac.available_permits(), 0);
    ac.release();
    assert_eq!(ac.available_permits(), 1);
    assert_eq!(ac.max_permits(), 2);
}

/// A log as the driver leaves it: each record appended in order.
fn log_of(records: &[String]) -> String {
    records.concat()
}

#[test]
fn test_load_nonexistent() {
    let set = load_checkpoint(None);
    assert!(set.is_empty());
}

#[test]
fn test_record_and_load() {
    let log = log_of(&[checkpoint_line("arXiv_src_0001.tar"), checkpoint_line("arXiv_src_0002.tar")]);
    let set = load_checkpoint(Some(&log));
    assert_eq!(set.len(), 2);
    assert!(set.contains(&"arXiv_src_0001.tar".to_string()));
    assert!(set.contains(&"arXiv_src_0002.tar".to_string()));
}

#[test]
fn test_resume_skips_completed() {
    let log = log_of(&[checkpoint_line("done.tar")]);
    let completed = load_checkpoint(Some(&log));

    let all_tars = vec!["done.tar", "pending.tar"];
    let pending: Vec<_> = all_tars.into_iter().filter(|t| !completed.contains(&t.to_string())).collect();

    assert_eq!(pending, vec!["pending.tar"]);
}

#[test]
fn test_idempotent_records() {
    let log = log_of(&[checkpoint_line("same.tar"), checkpoint_line("same.tar")]);
    let set = load_checkpoint(Some(&log));
    assert_eq!(set.len(), 1);
}

#[test]
fn test_blank_lines_ignored() {
    let set = load_checkpoint(Some("a.tar\n\n  \nb.tar\n"));
    assert_eq!(set.len(), 2);
    assert!(set.contains(&"a.tar".to_string()));
    assert!(set.contains(&"b.tar".to_string()));
}

#[test]
fn test_record_papers_and_load() {
    let log = log_of(&[
        paper_lines("arXiv_src_0001", &["2401.00001".into(), "2401.00002".into()]),
        paper_lines("arXiv_src_0002", &["2401.00003".into()]),
    ]);
    let cp = parse_checkpoint(&log);
    assert!(cp.tars.is_empty());
    assert_eq!(cp.papers.len(), 3);
    assert!(cp.papers.contains(&("arXiv_src_0001".into(), "2401.00001".into())));
    assert!(cp.papers.contains(&("arXiv_src_0001".into(), "2401.00002".into())));
    assert!(cp.papers.contains(&("arXiv_src_0002".into(), "2401.00003".into())));
}

#[test]
fn test_mixed_format_parsing() {
    // Legacy tar-only entries alongside new per-paper entries.
    let log = log_of(&[
        checkpoint_line("legacy_completed.tar"),
        paper_lines("fresh_tar", &["2401.00001".into()]),
        checkpoint_line("another_legacy.tar"),
    ]);
    let cp = parse_checkpoint(&log);
    assert_eq!(cp.tars.len(), 2);
    assert!(cp.tars.contains(&"legacy_completed.tar".to_string()));
    assert!(cp.tars.contains(&"another_legacy.tar".to_string()));
    assert_eq!(cp.papers.len(), 1);
    assert!(cp.papers.contains(&("fresh_tar".into(), "2401.00001".into())));
}

#[test]
fn test_load_checkpoint_legacy_view_ignores_paper_entries() {
    let log = log_of(&[checkpoint_line("done.tar"), paper_lines("inflight.tar", &["2401.00001".into()])]);
    // Legacy loader returns only bare-tar entries.
    let tars = load_checkpoint(Some(&log));
    assert_eq!(tars.len(), 1);
    assert!(tars.contains(&"done.tar".to_string()));
}

#[test]
fn test_record_papers_empty_is_noop() {
    // An empty batch has nothing to append, so the log is never created.
    assert_eq!(paper_lines("t", &[]), "");
}

#[test]
fn checkpoint_line_format() {
    assert_eq!(checkpoint_line("a.tar"), "a.tar\n");
    assert_eq!(paper_lines("t", &["x".into(), "y".into()]), "t\tx\nt\ty\n");
}

#[test]
fn permit_release_on_drop_increments_count() {
    let mut ac = AdmissionControl::new(1);
    {
        assert!(ac.try_acquire());
        assert_eq!(ac.available_permits(), 0);
        // The permit goes back when its holder is done with it.
        ac.release();
    }
    assert_eq!(ac.available_permits(), 1);
}

#[test]
fn load_checkpoint_trims_unicode_whitespace() {
    let log = "\u{3000} caf\u{e9}.tar\u{a0}\n\u{e9}.tar\t2401.1\n\u{2003}\n caf\u{e9}.tar\r\n\u{4e2d}.tar";
    let tars = load_checkpoint(Some(log));
    assert_eq!(tars, vec!["caf\u{e9}.tar".to_string(), "\u{4e2d}.tar".to_string()]);
}
