//! Outcome counting and per-tar metrics.

use vstd::prelude::*;

verus! {

/// Maximum sample IDs kept per error category.
pub const MAX_SAMPLES: usize = 5;

/// Classification of every document's extraction result.
#[derive(Debug, Clone, Copy, PartialEq, Eq)]
pub enum Outcome {
    /// Successful extraction
    Success,
    /// No tex files or extraction produced empty text
    Empty,
    /// Combined .tex content exceeds size limit
    Skipped,
    /// Per-document extraction timeout
    Timeout,
    /// Extraction pipeline panicked
    Panic,
    /// Extraction thread disconnected unexpectedly
    Crash,
    /// Tar entry / archive load / decompression failure
    ArchiveError,
    /// Failed to write output (parquet, jsonl, text file)
    IoError,
}

/// Count and sample IDs for one error category.
#[derive(Debug, Clone)]
pub struct CategoryDetail {
    pub count: u64,
    pub samples: Vec<String>,
}

impl Default for CategoryDetail {
    fn default() -> (res: Self)
        ensures
            res.count == 0,
            res.samples@.len() == 0,
    {
        CategoryDetail { count: 0, samples: Vec::new() }
    }
}

/// The sample list after appending `more`, keeping at most `MAX_SAMPLES`.
pub open spec fn capped_append(s: Seq<Seq<char>>, more: Seq<Seq<char>>) -> Seq<Seq<char>> {
    if s.len() >= 5 {
        s
    } else if s.len() + more.len() <= 5 {
        s + more
    } else {
        s + more.subrange(0, 5 - s.len())
    }
}

pub open spec fn sample_views(v: Seq<String>) -> Seq<Seq<char>> {
    v.map_values(|s: String| s@)
}

impl CategoryDetail {
    /// Count one more occurrence, keeping its id while fewer than
    /// `MAX_SAMPLES` ids are kept.
    pub fn record(&mut self, id: &str)
        requires
            old(self).count < u64::MAX,
        ensures
            final(self).count == old(self).count + 1,
            sample_views(final(self).samples@) == capped_append(sample_views(old(self).samples@), seq![id@]),
    {
        self.count = self.count + 1;
        let ghost before = sample_views(self.samples@);
        if self.samples.len() < MAX_SAMPLES {
            self.samples.push(id.to_string());
            assert(sample_views(self.samples@) =~= before + seq![id@]);
        }
    }

    /// Add the counts of `other` and take its samples while room remains.
    pub fn merge(&mut self, other: &CategoryDetail)
        requires
            old(self).count + other.count <= u64::MAX,
        ensures
            final(self).count == old(self).count + other.count,
            sample_views(final(self).samples@) == capped_append(
                sample_views(old(self).samples@),
                sample_views(other.samples@),
            ),
    {
        self.count = self.count + other.count;
        let ghost base = sample_views(self.samples@);
        let ghost more = sample_views(other.samples@);
        let mut i: usize = 0;
        while i < other.samples.len()
            invariant
                i <= other.samples.len(),
                self.count == old(self).count + other.count,
                more == sample_views(other.samples@),
                sample_views(self.samples@) == capped_append(base, more.subrange(0, i as int)),
            decreases other.samples.len() - i,
        {
            let ghost cur = sample_views(self.samples@);
            if self.samples.len() < MAX_SAMPLES {
                self.samples.push(other.samples[i].clone());
                assert(sample_views(self.samples@) =~= cur.push(more[i as int]));
            }
            proof {
                let m1 = more.subrange(0, i + 1);
                assert(m1 =~= more.subrange(0, i as int).push(more[i as int]));
                if base.len() < 5 && base.len() + i + 1 > 5 {
                    assert(m1.subrange(0, 5 - base.len()) =~= more.subrange(0, i as int).subrange(0, 5 - base.len()));
                }
                assert(capped_append(base, m1) =~= sample_views(self.samples@));
            }
            i = i + 1;
        }
        assert(more.subrange(0, other.samples@.len() as int) =~= more);
    }
}

/// Aggregated outcome counts with sample IDs.
#[derive(Debug, Clone)]
pub struct StatusCounts {
    pub ok: u64,
    pub empty: CategoryDetail,
    pub skipped: CategoryDetail,
    pub timeouts: CategoryDetail,
    pub panics: CategoryDetail,
    pub crashes: CategoryDetail,
    pub archive_errors: CategoryDetail,
    pub io_errors: CategoryDetail,
}

impl Default for StatusCounts {
    fn default() -> (res: Self)
        ensures
            res.ok == 0,
            res.empty.count == 0,
            res.skipped.count == 0,
            res.timeouts.count == 0,
            res.panics.count == 0,
            res.crashes.count == 0,
            res.archive_errors.count == 0,
            res.io_errors.count == 0,
            res.total_spec() == 0,
    {
        StatusCounts {
            ok: 0,
            empty: CategoryDetail::default(),
            skipped: CategoryDetail::default(),
            timeouts: CategoryDetail::default(),
            panics: CategoryDetail::default(),
            crashes: CategoryDetail::default(),
            archive_errors: CategoryDetail::default(),
            io_errors: CategoryDetail::default(),
        }
    }
}

impl StatusCounts {
    /// All outcomes except I/O errors, which are orthogonal to extraction.
    pub open spec fn total_spec(self) -> int {
        self.ok + self.empty.count + self.skipped.count + self.timeouts.count + self.panics.count
            + self.crashes.count + self.archive_errors.count
    }

    /// The count of one outcome.
    pub open spec fn count_of(self, o: Outcome) -> u64 {
        match o {
            Outcome::Success => self.ok,
            Outcome::Empty => self.empty.count,
            Outcome::Skipped => self.skipped.count,
            Outcome::Timeout => self.timeouts.count,
            Outcome::Panic => self.panics.count,
            Outcome::Crash => self.crashes.count,
            Outcome::ArchiveError => self.archive_errors.count,
            Outcome::IoError => self.io_errors.count,
        }
    }

    /// The samples of one error outcome (none for `Ok`).
    pub open spec fn samples_of(self, o: Outcome) -> Seq<Seq<char>> {
        match o {
            Outcome::Success => Seq::empty(),
            Outcome::Empty => sample_views(self.empty.samples@),
            Outcome::Skipped => sample_views(self.skipped.samples@),
            Outcome::Timeout => sample_views(self.timeouts.samples@),
            Outcome::Panic => sample_views(self.panics.samples@),
            Outcome::Crash => sample_views(self.crashes.samples@),
            Outcome::ArchiveError => sample_views(self.archive_errors.samples@),
            Outcome::IoError => sample_views(self.io_errors.samples@),
        }
    }

    /// Record an outcome for a document: its count grows by one and, for
    /// an error outcome, the id is kept as a sample while room remains.
    /// Every other count and sample list is unchanged.
    pub fn record(&mut self, outcome: Outcome, id: &str)
        requires
            old(self).count_of(outcome) < u64::MAX,
        ensures
            forall|o: Outcome|
                #[trigger] final(self).count_of(o) == if o == outcome {
                    old(self).count_of(o) + 1
                } else {
                    old(self).count_of(o) as int
                },
            forall|o: Outcome|
                #[trigger] final(self).samples_of(o) == if o == outcome && o != Outcome::Success {
                    capped_append(old(self).samples_of(o), seq![id@])
                } else {
                    old(self).samples_of(o)
                },
    {
        match outcome {
            Outcome::Success => self.ok = self.ok + 1,
            Outcome::Empty => self.empty.record(id),
            Outcome::Skipped => self.skipped.record(id),
            Outcome::Timeout => self.timeouts.record(id),
            Outcome::Panic => self.panics.record(id),
            Outcome::Crash => self.crashes.record(id),
            Outcome::ArchiveError => self.archive_errors.record(id),
            Outcome::IoError => self.io_errors.record(id),
        }
    }

    /// Merge counts and samples from another instance, category by category.
    pub fn merge(&mut self, other: &StatusCounts)
        requires
            forall|o: Outcome| old(self).count_of(o) + other.count_of(o) <= u64::MAX,
        ensures
            forall|o: Outcome| #[trigger] final(self).count_of(o) == old(self).count_of(o) + other.count_of(o),
            forall|o: Outcome|
                o != Outcome::Success ==> #[trigger] final(self).samples_of(o) == capped_append(
                    old(self).samples_of(o),
                    other.samples_of(o),
                ),
    {
        assert(self.count_of(Outcome::Success) + other.count_of(Outcome::Success) <= u64::MAX);
        assert(self.count_of(Outcome::Empty) + other.count_of(Outcome::Empty) <= u64::MAX);
        assert(self.count_of(Outcome::Skipped) + other.count_of(Outcome::Skipped) <= u64::MAX);
        assert(self.count_of(Outcome::Timeout) + other.count_of(Outcome::Timeout) <= u64::MAX);
        assert(self.count_of(Outcome::Panic) + other.count_of(Outcome::Panic) <= u64::MAX);
        assert(self.count_of(Outcome::Crash) + other.count_of(Outcome::Crash) <= u64::MAX);
        assert(self.count_of(Outcome::ArchiveError) + other.count_of(Outcome::ArchiveError) <= u64::MAX);
        assert(self.count_of(Outcome::IoError) + other.count_of(Outcome::IoError) <= u64::MAX);
        self.ok = self.ok + other.ok;
        self.empty.merge(&other.empty);
        self.skipped.merge(&other.skipped);
        self.timeouts.merge(&other.timeouts);
        self.panics.merge(&other.panics);
        self.crashes.merge(&other.crashes);
        self.archive_errors.merge(&other.archive_errors);
        self.io_errors.merge(&other.io_errors);
    }

    /// Total extraction outcomes (excludes I/O errors).
    pub fn total(&self) -> (res: u64)
        requires
            self.total_spec() <= u64::MAX,
        ensures
            res == self.total_spec(),
    {
        self.ok + self.empty.count + self.skipped.count + self.timeouts.count + self.panics.count
            + self.crashes.count + self.archive_errors.count
    }
}

/// Merging adds up totals: the total after `a.merge(b)` is the sum of the
/// two totals.
pub proof fn law_merge_adds_totals(a: StatusCounts, b: StatusCounts, merged: StatusCounts)
    requires
        forall|o: Outcome| #[trigger] merged.count_of(o) == a.count_of(o) + b.count_of(o),
    ensures
        merged.total_spec() == a.total_spec() + b.total_spec(),
{
    assert(merged.count_of(Outcome::Success) == a.count_of(Outcome::Success) + b.count_of(Outcome::Success));
    assert(merged.count_of(Outcome::Empty) == a.count_of(Outcome::Empty) + b.count_of(Outcome::Empty));
    assert(merged.count_of(Outcome::Skipped) == a.count_of(Outcome::Skipped) + b.count_of(Outcome::Skipped));
    assert(merged.count_of(Outcome::Timeout) == a.count_of(Outcome::Timeout) + b.count_of(Outcome::Timeout));
    assert(merged.count_of(Outcome::Panic) == a.count_of(Outcome::Panic) + b.count_of(Outcome::Panic));
    assert(merged.count_of(Outcome::Crash) == a.count_of(Outcome::Crash) + b.count_of(Outcome::Crash));
    assert(merged.count_of(Outcome::ArchiveError) == a.count_of(Outcome::ArchiveError) + b.count_of(Outcome::ArchiveError));
}

/// Recording an outcome raises the total by one, except for an I/O error,
/// which leaves it unchanged.
pub proof fn law_record_total(before: StatusCounts, after: StatusCounts, outcome: Outcome)
    requires
        forall|o: Outcome|
            #[trigger] after.count_of(o) == if o == outcome {
                before.count_of(o) + 1
            } else {
                before.count_of(o) as int
            },
    ensures
        after.total_spec() == before.total_spec() + if outcome == Outcome::IoError { 0int } else { 1int },
{
    assert(after.count_of(Outcome::Success) == before.count_of(Outcome::Success) + if outcome == Outcome::Success { 1int } else { 0int });
    assert(after.count_of(Outcome::Empty) == before.count_of(Outcome::Empty) + if outcome == Outcome::Empty { 1int } else { 0int });
    assert(after.count_of(Outcome::Skipped) == before.count_of(Outcome::Skipped) + if outcome == Outcome::Skipped { 1int } else { 0int });
    assert(after.count_of(Outcome::Timeout) == before.count_of(Outcome::Timeout) + if outcome == Outcome::Timeout { 1int } else { 0int });
    assert(after.count_of(Outcome::Panic) == before.count_of(Outcome::Panic) + if outcome == Outcome::Panic { 1int } else { 0int });
    assert(after.count_of(Outcome::Crash) == before.count_of(Outcome::Crash) + if outcome == Outcome::Crash { 1int } else { 0int });
    assert(after.count_of(Outcome::ArchiveError) == before.count_of(Outcome::ArchiveError) + if outcome == Outcome::ArchiveError { 1int } else { 0int });
}

/// Per-tar processing metrics.
#[derive(Debug)]
pub struct TarMetrics {
    pub tar_name: String,
    pub total_papers: u64,
    pub ok: u64,
    pub empty: u64,
    pub skipped: u64,
    pub timeouts: u64,
    pub panics: u64,
    pub crashes: u64,
    pub archive_errors: u64,
    pub io_errors: u64,
    pub processing_time_ms: u64,
}

impl TarMetrics {
    /// Metrics from a counts snapshot.
    pub fn from_counts(tar_name: String, counts: &StatusCounts, processing_time_ms: u64) -> (res: Self)
        requires
            counts.total_spec() <= u64::MAX,
        ensures
            res.tar_name@ == tar_name@,
            res.total_papers == counts.total_spec(),
            res.ok == counts.ok,
            res.empty == counts.empty.count,
            res.skipped == counts.skipped.count,
            res.timeouts == counts.timeouts.count,
            res.panics == counts.panics.count,
            res.crashes == counts.crashes.count,
            res.archive_errors == counts.archive_errors.count,
            res.io_errors == counts.io_errors.count,
            res.processing_time_ms == processing_time_ms,
    {
        TarMetrics {
            tar_name,
            total_papers: counts.total(),
            ok: counts.ok,
            empty: counts.empty.count,
            skipped: counts.skipped.count,
            timeouts: counts.timeouts.count,
            panics: counts.panics.count,
            crashes: counts.crashes.count,
            archive_errors: counts.archive_errors.count,
            io_errors: counts.io_errors.count,
            processing_time_ms,
        }
    }
}

} // verus!
