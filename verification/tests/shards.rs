use latex_extract::result::ExtractionResult;
use latex_extract::shards::{row_byte_estimate, shard_id, shard_name, ShardLimits, ShardState, MICRO_BATCH_ROWS};

#[test]
fn shard_names_are_padded() {
    assert_eq!(shard_name("arXiv_src_0001", 0, "parquet"), "arXiv_src_0001.parquet");
    assert_eq!(shard_name("arXiv_src_0001", 1, "parquet"), "arXiv_src_0001_001.parquet");
    assert_eq!(shard_name("x", 42, "jsonl"), "x_042.jsonl");
    assert_eq!(shard_name("x", 1234, "jsonl"), "x_1234.jsonl");
    assert_eq!(shard_id("x", 0), "x");
    assert_eq!(shard_id("x", 7), "x_007");
}

#[test]
fn row_estimate_counts_text_fields() {
    let mut r = ExtractionResult::error("abc".into(), None, "error", "boom".into());
    assert_eq!(row_byte_estimate(&r), 3 + 4 + 200);
    r.text = Some("é".into());
    r.stage_timings_us = Some("{}".into());
    assert_eq!(row_byte_estimate(&r), 3 + 2 + 4 + 2 + 200);
}

#[test]
fn shard_closes_at_row_limit() {
    let limits = ShardLimits { papers_per_shard: usize::MAX, max_rows: 3, max_bytes: usize::MAX };
    let mut s = ShardState::new();
    let a = s.on_write(10, &limits);
    assert!(!a.flush && !a.close);
    let b = s.on_write(10, &limits);
    assert!(!b.close);
    assert_eq!(s.rows, 2);
    assert_eq!(s.bytes, 20);
    let c = s.on_write(10, &limits);
    assert!(c.close);
    assert_eq!((s.rows, s.bytes, s.pending), (0, 0, 0));
}

#[test]
fn shard_closes_at_byte_or_paper_limit() {
    let by_bytes = ShardLimits { papers_per_shard: usize::MAX, max_rows: usize::MAX, max_bytes: 100 };
    let mut s = ShardState::new();
    assert!(!s.on_write(60, &by_bytes).close);
    assert!(s.on_write(40, &by_bytes).close);

    let by_papers = ShardLimits { papers_per_shard: 1, max_rows: usize::MAX, max_bytes: usize::MAX };
    let mut t = ShardState::new();
    assert!(t.on_write(1, &by_papers).close);
    assert!(t.on_write(1, &by_papers).close);
}

#[test]
fn micro_batch_flushes_every_batch() {
    let limits = ShardLimits { papers_per_shard: usize::MAX, max_rows: usize::MAX, max_bytes: usize::MAX };
    let mut s = ShardState::new();
    let mut flushes = 0;
    for _ in 0..(2 * MICRO_BATCH_ROWS + 1) {
        if s.on_write(1, &limits).flush {
            flushes += 1;
        }
    }
    assert_eq!(flushes, 2);
    assert_eq!(s.pending, 1);
    assert_eq!(s.rows, 2 * MICRO_BATCH_ROWS + 1);
}


#[test]
fn shard_zero_id_is_base_name() {
    assert_eq!(shard_id("\u{e9}t\u{e9}_src", 0), "\u{e9}t\u{e9}_src");
    assert_eq!(shard_name("\u{e9}", 3, "jsonl"), "\u{e9}_003.jsonl");
}
