use latex_extract::metrics::{Outcome, StatusCounts, TarMetrics, MAX_SAMPLES};
#[test]
fn test_status_counts_record() {
    let mut counts = StatusCounts::default();
    counts.record(Outcome::Success, "2401.00001");
    counts.record(Outcome::Timeout, "2401.00002");
    counts.record(Outcome::Panic, "2401.00003");
    counts.record(Outcome::Crash, "2401.00004");
    counts.record(Outcome::ArchiveError, "2401.00005");
    counts.record(Outcome::IoError, "2401.00006");
    counts.record(Outcome::Empty, "2401.00007");
    counts.record(Outcome::Skipped, "2401.00008");

    assert_eq!(counts.ok, 1);
    assert_eq!(counts.timeouts.count, 1);
    assert_eq!(counts.panics.count, 1);
    assert_eq!(counts.crashes.count, 1);
    assert_eq!(counts.archive_errors.count, 1);
    assert_eq!(counts.io_errors.count, 1);
    assert_eq!(counts.empty.count, 1);
    assert_eq!(counts.skipped.count, 1);

    assert_eq!(counts.timeouts.samples, vec!["2401.00002"]);
    assert_eq!(counts.panics.samples, vec!["2401.00003"]);
}

#[test]
fn test_status_counts_record_sample_limit() {
    let mut counts = StatusCounts::default();
    for i in 0..10 {
        counts.record(Outcome::Timeout, &format!("2401.{:05}", i));
    }
    assert_eq!(counts.timeouts.count, 10);
    assert_eq!(counts.timeouts.samples.len(), MAX_SAMPLES);
}

#[test]
fn test_status_counts_merge() {
    let mut a = StatusCounts::default();
    a.record(Outcome::Success, "");
    a.record(Outcome::Timeout, "2401.00001");
    a.record(Outcome::Panic, "2401.00002");

    let mut b = StatusCounts::default();
    b.record(Outcome::Success, "");
    b.record(Outcome::Success, "");
    b.record(Outcome::Timeout, "2401.00003");
    b.record(Outcome::ArchiveError, "2401.00004");

    a.merge(&b);
    assert_eq!(a.ok, 3);
    assert_eq!(a.timeouts.count, 2);
    assert_eq!(a.timeouts.samples.len(), 2);
    assert_eq!(a.panics.count, 1);
    assert_eq!(a.archive_errors.count, 1);
}

#[test]
fn test_status_counts_total() {
    let mut counts = StatusCounts::default();
    counts.record(Outcome::Success, "");
    counts.record(Outcome::Success, "");
    counts.record(Outcome::Timeout, "t1");
    counts.record(Outcome::Panic, "p1");
    counts.record(Outcome::IoError, "io1");

    // total excludes io_errors
    assert_eq!(counts.total(), 4);
}

#[test]
fn test_tar_metrics_from_counts() {
    let mut counts = StatusCounts::default();
    counts.record(Outcome::Success, "");
    counts.record(Outcome::Timeout, "t1");
    counts.record(Outcome::Panic, "p1");
    counts.record(Outcome::Empty, "e1");
    counts.record(Outcome::IoError, "io1");

    let m = TarMetrics::from_counts("test.tar".into(), &counts, 5000);
    assert_eq!(m.tar_name, "test.tar");
    assert_eq!(m.total_papers, 4); // io_errors excluded
    assert_eq!(m.ok, 1);
    assert_eq!(m.timeouts, 1);
    assert_eq!(m.panics, 1);
    assert_eq!(m.empty, 1);
    assert_eq!(m.io_errors, 1);
    assert_eq!(m.processing_time_ms, 5000);
}
