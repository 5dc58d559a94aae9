//! Shard naming and rotation for the result writers.
//!
//! A writer appends rows to the current shard, hands them to the file
//! format in micro-batches, and starts a new shard once the current one
//! holds enough papers, rows or (estimated) bytes.

use vstd::prelude::*;
use vstd::string::StringSliceAdditionalSpecFns;
use crate::result::ExtractionResult;
use crate::scan::push_all;
use crate::text::{string_from_bytes, utf8_lossy};
use crate::timing::{decimal, push_decimal};

verus! {

/// Rows per micro-batch handed to the file format.
pub const MICRO_BATCH_ROWS: usize = 256;

/// `n` in decimal, zero-padded to at least three digits.
pub open spec fn padded3(n: nat) -> Seq<u8> {
    if n < 10 {
        seq![0x30u8, 0x30u8] + decimal(n)
    } else if n < 100 {
        seq![0x30u8] + decimal(n)
    } else {
        decimal(n)
    }
}

/// The id of shard `index` of `base`: `base` for the first, then
/// `base_001`, `base_002`, ...
pub open spec fn shard_id_bytes(base: Seq<u8>, index: nat) -> Seq<u8> {
    if index == 0 {
        base
    } else {
        base + seq![0x5fu8] + padded3(index)
    }
}

/// The file name of shard `index` of `base` with extension `ext`.
pub open spec fn shard_name_bytes(base: Seq<u8>, index: nat, ext: Seq<u8>) -> Seq<u8> {
    shard_id_bytes(base, index) + seq![0x2eu8] + ext
}

fn push_padded3(out: &mut Vec<u8>, n: usize)
    ensures
        final(out)@ == old(out)@ + padded3(n as nat),
{
    let ghost o = out@;
    if n < 10 {
        out.push(0x30);
        out.push(0x30);
    } else if n < 100 {
        out.push(0x30);
    }
    push_decimal(out, n as u64);
    assert(out@ =~= o + padded3(n as nat));
}

fn shard_id_vec(base: &str, index: usize) -> (res: Vec<u8>)
    ensures
        res@ == shard_id_bytes(base.spec_bytes(), index as nat),
{
    let mut v: Vec<u8> = Vec::new();
    push_all(&mut v, base.as_bytes());
    if index > 0 {
        v.push(0x5f);
        push_padded3(&mut v, index);
    }
    assert(v@ =~= shard_id_bytes(base.spec_bytes(), index as nat));
    v
}

proof fn lemma_padded3_utf8(n: nat)
    ensures
        vstd::utf8::valid_utf8(padded3(n)),
{
    crate::timing::lemma_decimal_utf8(n);
    crate::text::lemma_ascii_utf8(seq![0x30u8]);
    crate::text::lemma_ascii_utf8(seq![0x30u8, 0x30u8]);
    vstd::utf8::valid_utf8_concat(seq![0x30u8], decimal(n));
    vstd::utf8::valid_utf8_concat(seq![0x30u8, 0x30u8], decimal(n));
}

/// Shard ids of a valid UTF-8 base are valid UTF-8.
proof fn lemma_shard_id_utf8(base: Seq<char>, index: nat)
    ensures
        vstd::utf8::valid_utf8(shard_id_bytes(vstd::utf8::encode_utf8(base), index)),
{
    let b = vstd::utf8::encode_utf8(base);
    vstd::utf8::encode_utf8_valid_utf8(base);
    lemma_padded3_utf8(index);
    crate::text::lemma_ascii_utf8(seq![0x5fu8]);
    vstd::utf8::valid_utf8_concat(b, seq![0x5fu8]);
    vstd::utf8::valid_utf8_concat(b + seq![0x5fu8], padded3(index));
}

/// The id of a shard, as stored in its rows.
pub fn shard_id(base: &str, index: usize) -> (res: String)
    ensures
        res@ == utf8_lossy(shard_id_bytes(base.spec_bytes(), index as nat)),
        res@ == vstd::utf8::decode_utf8(shard_id_bytes(base.spec_bytes(), index as nat)),
        index == 0 ==> res@ == base@,
{
    let v = shard_id_vec(base, index);
    proof {
        lemma_shard_id_utf8(base@, index as nat);
        vstd::utf8::encode_utf8_decode_utf8(base@);
    }
    string_from_bytes(v.as_slice())
}

/// The file name of a shard.
pub fn shard_name(base: &str, index: usize, ext: &str) -> (res: String)
    ensures
        res@ == utf8_lossy(shard_name_bytes(base.spec_bytes(), index as nat, ext.spec_bytes())),
        res@ == vstd::utf8::decode_utf8(shard_name_bytes(base.spec_bytes(), index as nat, ext.spec_bytes())),
{
    let mut v = shard_id_vec(base, index);
    let ghost id = v@;
    v.push(0x2e);
    push_all(&mut v, ext.as_bytes());
    assert(v@ =~= shard_name_bytes(base.spec_bytes(), index as nat, ext.spec_bytes()));
    proof {
        let id = shard_id_bytes(base.spec_bytes(), index as nat);
        lemma_shard_id_utf8(base@, index as nat);
        vstd::utf8::encode_utf8_valid_utf8(ext@);
        crate::text::lemma_ascii_utf8(seq![0x2eu8]);
        vstd::utf8::valid_utf8_concat(id, seq![0x2eu8]);
        vstd::utf8::valid_utf8_concat(id + seq![0x2eu8], ext.spec_bytes());
    }
    string_from_bytes(v.as_slice())
}

pub open spec fn opt_len(s: Option<String>) -> nat {
    match s {
        Some(x) => vstd::utf8::encode_utf8(x@).len(),
        None => 0,
    }
}

/// The estimated bytes a row adds to a shard: its id, text, error and
/// timings, plus a fixed overhead.
pub open spec fn row_estimate(r: ExtractionResult) -> nat {
    vstd::utf8::encode_utf8(r.arxiv_id@).len() + opt_len(r.text) + opt_len(r.error) + opt_len(r.stage_timings_us)
        + 200
}

fn opt_len_exec(s: &Option<String>) -> (res: usize)
    ensures
        res as nat == opt_len(*s),
{
    match s {
        Some(x) => x.as_str().as_bytes().len(),
        None => 0,
    }
}

fn sat_add(a: usize, b: usize) -> (res: usize)
    ensures
        res as int == if a + b > usize::MAX { usize::MAX as int } else { a + b },
{
    if b > usize::MAX - a {
        usize::MAX
    } else {
        a + b
    }
}

/// The byte estimate of a row (`usize::MAX` when it does not fit).
pub fn row_byte_estimate(r: &ExtractionResult) -> (res: usize)
    ensures
        res as nat == if row_estimate(*r) > usize::MAX { usize::MAX as nat } else { row_estimate(*r) },
{
    let a = r.arxiv_id.as_str().as_bytes().len();
    let b = sat_add(a, opt_len_exec(&r.text));
    let c = sat_add(b, opt_len_exec(&r.error));
    let d = sat_add(c, opt_len_exec(&r.stage_timings_us));
    sat_add(d, 200)
}

/// The rows and estimated bytes of the open shard and the rows waiting in
/// the micro-batch.
pub struct ShardState {
    pub rows: usize,
    pub bytes: usize,
    pub pending: usize,
}

/// When a shard is full.
pub struct ShardLimits {
    pub papers_per_shard: usize,
    pub max_rows: usize,
    pub max_bytes: usize,
}

/// What a writer does after appending a row.
pub struct WriteAction {
    /// Hand the micro-batch to the file format.
    pub flush: bool,
    /// Close the shard; the next row opens a new one.
    pub close: bool,
}

pub open spec fn sat(n: int) -> int {
    if n > usize::MAX {
        usize::MAX as int
    } else {
        n
    }
}

impl ShardState {
    /// A freshly opened shard.
    pub fn new() -> (res: Self)
        ensures
            res.rows == 0,
            res.bytes == 0,
            res.pending == 0,
    {
        ShardState { rows: 0, bytes: 0, pending: 0 }
    }

    /// Account for a row of `estimate` bytes: it counts towards the shard
    /// and waits in the micro-batch; a full micro-batch is flushed; a shard
    /// that reached a limit is closed (and its rows flushed), and the
    /// state restarts for the next shard.
    pub fn on_write(&mut self, estimate: usize, limits: &ShardLimits) -> (act: WriteAction)
        ensures
            ({
                let rows = sat(old(self).rows + 1);
                let bytes = sat(old(self).bytes + estimate);
                let pending = old(self).pending + 1;
                let close = rows >= limits.papers_per_shard || rows >= limits.max_rows || bytes >= limits.max_bytes;
                &&& act.flush == (pending >= MICRO_BATCH_ROWS)
                &&& act.close == close
                &&& close ==> final(self).rows == 0 && final(self).bytes == 0 && final(self).pending == 0
                &&& !close ==> final(self).rows == rows && final(self).bytes == bytes && final(self).pending == (
                if act.flush {
                    0
                } else {
                    pending
                })
            }),
    {
        self.rows = sat_add(self.rows, 1);
        self.bytes = sat_add(self.bytes, estimate);
        self.pending = sat_add(self.pending, 1);
        let flush = self.pending >= MICRO_BATCH_ROWS;
        if flush {
            self.pending = 0;
        }
        let close = self.rows >= limits.papers_per_shard || self.rows >= limits.max_rows || self.bytes >= limits.max_bytes;
        if close {
            self.rows = 0;
            self.bytes = 0;
            self.pending = 0;
        }
        WriteAction { flush, close }
    }
}

} // verus!
