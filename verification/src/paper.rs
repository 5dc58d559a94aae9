//! From one paper's files to its extraction record.

use vstd::prelude::*;
use vstd::string::StringSliceAdditionalSpecFns;
use std::sync::atomic::AtomicBool;
use crate::archive::PaperArchive;
use crate::input_resolve::TexFile;
use crate::metrics::Outcome;
use crate::pipeline::{
    extract_text_timed_cancellable, extracted_text, extraction_stopped, lemma_stopped_text, text_of_first_roots, text_view,
    timed_stages,
};
use crate::input_resolve::ordered_roots;
use crate::result::{ExtractionResult, FileType};
use crate::scan::{bytes_eq, push_all};
use crate::text::{char_count, string_from_bytes, utf8_lossy};
use crate::timing::{decimal, entry_names, json_pairs, push_decimal, total_of};

verus! {

pub const STATUS_OK: &'static str = "ok";

pub const STATUS_TIMEOUT: &'static str = "timeout";

pub const STATUS_SKIPPED: &'static str = "skipped";

pub const STATUS_EMPTY: &'static str = "empty";

pub const STATUS_ERROR: &'static str = "error";

pub const CRASH_MESSAGE: &'static str = "extraction thread crashed";

/// How a record with this status (and error message) is counted.
pub open spec fn outcome_of(status: Seq<char>, error: Option<Seq<char>>) -> Outcome {
    if status == STATUS_OK@ {
        Outcome::Success
    } else if status == STATUS_TIMEOUT@ {
        Outcome::Timeout
    } else if status == STATUS_SKIPPED@ {
        Outcome::Skipped
    } else if status == STATUS_EMPTY@ {
        Outcome::Empty
    } else if error == Some(CRASH_MESSAGE@) {
        Outcome::Crash
    } else {
        Outcome::Panic
    }
}

pub open spec fn opt_view(s: Option<String>) -> Option<Seq<char>> {
    match s {
        Some(x) => Some(x@),
        None => None,
    }
}

proof fn lemma_enc_injective(a: Seq<char>, b: Seq<char>)
    requires
        vstd::utf8::encode_utf8(a) == vstd::utf8::encode_utf8(b),
    ensures
        a == b,
{
    vstd::utf8::encode_utf8_decode_utf8(a);
    vstd::utf8::encode_utf8_decode_utf8(b);
}

fn str_eq(a: &str, b: &str) -> (res: bool)
    ensures
        res == (a@ == b@),
{
    let r = bytes_eq(a.as_bytes(), b.as_bytes());
    proof {
        if r {
            lemma_enc_injective(a@, b@);
        }
    }
    r
}

/// Classify a record into an outcome: by its status, an error status
/// being a crash when its message says so and a panic otherwise.
pub fn classify_result(result: &ExtractionResult) -> (res: Outcome)
    ensures
        res == outcome_of(result.status@, opt_view(result.error)),
{
    let st = result.status.as_str();
    if str_eq(st, STATUS_OK) {
        Outcome::Success
    } else if str_eq(st, STATUS_TIMEOUT) {
        Outcome::Timeout
    } else if str_eq(st, STATUS_SKIPPED) {
        Outcome::Skipped
    } else if str_eq(st, STATUS_EMPTY) {
        Outcome::Empty
    } else {
        match &result.error {
            Some(e) => if str_eq(e.as_str(), CRASH_MESSAGE) {
                Outcome::Crash
            } else {
                Outcome::Panic
            },
            None => Outcome::Panic,
        }
    }
}

/// The combined length in bytes of the files' contents (`usize::MAX` when
/// it does not fit).
pub open spec fn content_bytes(files: Seq<TexFile>, n: int) -> nat
    decreases n,
{
    if n <= 0 {
        0
    } else {
        content_bytes(files, n - 1) + vstd::utf8::encode_utf8(files[n - 1].content@).len()
    }
}

pub open spec fn saturated(n: nat) -> nat {
    if n > usize::MAX {
        usize::MAX as nat
    } else {
        n
    }
}

proof fn lemma_content_bytes_grows(files: Seq<TexFile>, i: int, j: int)
    requires
        0 <= i <= j <= files.len(),
    ensures
        content_bytes(files, i) <= content_bytes(files, j),
    decreases j - i,
{
    if i < j {
        lemma_content_bytes_grows(files, i, j - 1);
    }
}

/// The combined size of a paper's `.tex` contents.
pub fn tex_bytes(files: &[TexFile]) -> (res: usize)
    ensures
        res as nat == saturated(content_bytes(files@, files@.len() as int)),
{
    let mut sum: usize = 0;
    let mut i: usize = 0;
    while i < files.len()
        invariant
            i <= files.len(),
            sum as nat == saturated(content_bytes(files@, i as int)),
        decreases files.len() - i,
    {
        let n = files[i].content.as_str().as_bytes().len();
        assert(n as nat == vstd::utf8::encode_utf8(files@[i as int].content@).len());
        assert(content_bytes(files@, i + 1) == content_bytes(files@, i as int) + n);
        if sum == usize::MAX || n > usize::MAX - sum {
            sum = usize::MAX;
        } else {
            sum = sum + n;
        }
        i = i + 1;
    }
    sum
}

/// The message of a paper skipped for its size.
pub open spec fn oversize_message(total: nat, max: nat) -> Seq<u8> {
    "combined .tex content (".spec_bytes() + decimal(total) + " bytes) exceeds ".spec_bytes() + decimal(
        max / 1_000_000,
    ) + "MB limit".spec_bytes()
}

proof fn lemma_oversize_message_utf8(total: nat, max: nat)
    ensures
        vstd::utf8::valid_utf8(oversize_message(total, max)),
{
    let a = "combined .tex content (".spec_bytes();
    let b = " bytes) exceeds ".spec_bytes();
    let c = "MB limit".spec_bytes();
    vstd::utf8::encode_utf8_valid_utf8("combined .tex content ("@);
    vstd::utf8::encode_utf8_valid_utf8(" bytes) exceeds "@);
    vstd::utf8::encode_utf8_valid_utf8("MB limit"@);
    crate::timing::lemma_decimal_utf8(total);
    crate::timing::lemma_decimal_utf8(max / 1_000_000);
    vstd::utf8::valid_utf8_concat(a, decimal(total));
    vstd::utf8::valid_utf8_concat(a + decimal(total), b);
    vstd::utf8::valid_utf8_concat(a + decimal(total) + b, decimal(max / 1_000_000));
    vstd::utf8::valid_utf8_concat(a + decimal(total) + b + decimal(max / 1_000_000), c);
}

proof fn lemma_timeout_message_utf8(secs: nat)
    ensures
        vstd::utf8::valid_utf8(timeout_message(secs)),
{
    let a = "extraction timed out after ".spec_bytes();
    vstd::utf8::encode_utf8_valid_utf8("extraction timed out after "@);
    vstd::utf8::encode_utf8_valid_utf8("s"@);
    crate::timing::lemma_decimal_utf8(secs);
    vstd::utf8::valid_utf8_concat(a, decimal(secs));
    vstd::utf8::valid_utf8_concat(a + decimal(secs), "s".spec_bytes());
}

/// The record of a paper whose combined `.tex` content exceeds the limit.
pub fn oversize_result(paper: &PaperArchive, source_tar: Option<&str>, total_bytes: usize, max_tex_bytes: usize) -> (res: ExtractionResult)
    ensures
        res.arxiv_id@ == paper.arxiv_id@,
        opt_view(res.source_tar) == match source_tar {
            Some(s) => Some(s@),
            None => None::<Seq<char>>,
        },
        res.status@ == STATUS_SKIPPED@,
        res.num_tex_files == Some(paper.tex_files@.len() as usize),
        res.error matches Some(e) && e@ == utf8_lossy(oversize_message(total_bytes as nat, max_tex_bytes as nat))
            && e@ == vstd::utf8::decode_utf8(oversize_message(total_bytes as nat, max_tex_bytes as nat)),
        res.text is None,
        res.text_length is None,
        res.stage_timings_us is None,
        res.total_time_us is None,
        res.peak_memory_bytes is None,
        res.file_type == Some(paper.file_type),
        opt_view(res.entry_name) == Some(paper.entry_name@),
{
    let mut m: Vec<u8> = Vec::new();
    push_all(&mut m, "combined .tex content (".as_bytes());
    push_decimal(&mut m, total_bytes as u64);
    push_all(&mut m, " bytes) exceeds ".as_bytes());
    push_decimal(&mut m, (max_tex_bytes / 1_000_000) as u64);
    push_all(&mut m, "MB limit".as_bytes());
    assert(m@ =~= oversize_message(total_bytes as nat, max_tex_bytes as nat));
    proof {
        lemma_oversize_message_utf8(total_bytes as nat, max_tex_bytes as nat);
    }
    ExtractionResult {
        arxiv_id: paper.arxiv_id.clone(),
        source_tar: match source_tar {
            Some(s) => Some(s.to_string()),
            None => None,
        },
        status: STATUS_SKIPPED.to_string(),
        num_tex_files: Some(paper.tex_files.len()),
        text_length: None,
        text: None,
        error: Some(string_from_bytes(m.as_slice())),
        stage_timings_us: None,
        total_time_us: None,
        peak_memory_bytes: None,
        file_type: Some(paper.file_type),
        entry_name: Some(paper.entry_name.clone()),
    }
}

/// The message of a paper that ran out of time.
pub open spec fn timeout_message(secs: nat) -> Seq<u8> {
    "extraction timed out after ".spec_bytes() + decimal(secs) + "s".spec_bytes()
}

/// `r` is the timeout record of a paper.
pub open spec fn is_timeout_record(paper: &PaperArchive, source_tar: Option<&str>, timeout_secs: u64, r: ExtractionResult) -> bool {
    &&& r.arxiv_id@ == paper.arxiv_id@
    &&& opt_view(r.source_tar) == match source_tar {
        Some(s) => Some(s@),
        None => None::<Seq<char>>,
    }
    &&& r.status@ == STATUS_TIMEOUT@
    &&& r.num_tex_files == Some(paper.tex_files@.len() as usize)
    &&& r.error matches Some(e) && e@ == utf8_lossy(timeout_message(timeout_secs as nat)) && e@
        == vstd::utf8::decode_utf8(timeout_message(timeout_secs as nat))
    &&& r.text is None
    &&& r.text_length is None
    &&& r.stage_timings_us is None
    &&& r.total_time_us is None
    &&& r.peak_memory_bytes is None
    &&& r.file_type == Some(paper.file_type)
    &&& opt_view(r.entry_name) == Some(paper.entry_name@)
}

/// The record of a paper whose extraction ran out of time.
pub fn timeout_result(paper: &PaperArchive, source_tar: Option<&str>, timeout_secs: u64) -> (res: ExtractionResult)
    ensures
        is_timeout_record(paper, source_tar, timeout_secs, res),
{
    let mut m: Vec<u8> = Vec::new();
    push_all(&mut m, "extraction timed out after ".as_bytes());
    push_decimal(&mut m, timeout_secs);
    push_all(&mut m, "s".as_bytes());
    assert(m@ =~= timeout_message(timeout_secs as nat));
    proof {
        lemma_timeout_message_utf8(timeout_secs as nat);
    }
    ExtractionResult {
        arxiv_id: paper.arxiv_id.clone(),
        source_tar: match source_tar {
            Some(s) => Some(s.to_string()),
            None => None,
        },
        status: STATUS_TIMEOUT.to_string(),
        num_tex_files: Some(paper.tex_files.len()),
        text_length: None,
        text: None,
        error: Some(string_from_bytes(m.as_slice())),
        stage_timings_us: None,
        total_time_us: None,
        peak_memory_bytes: None,
        file_type: Some(paper.file_type),
        entry_name: Some(paper.entry_name.clone()),
    }
}

/// The timing fields of a run whose recorded stages are `e`: the JSON
/// object `{"stage":microseconds,...}` and the total in microseconds
/// (`u64::MAX` when it does not fit).
pub open spec fn timing_fields(e: Seq<(&'static str, u64)>, json: Seq<char>, total: u64) -> bool {
    &&& json == vstd::utf8::decode_utf8(seq![0x7bu8] + json_pairs(e, e.len() as int) + seq![0x7du8])
    &&& total as int == (if total_of(e) > u64::MAX {
        u64::MAX as int
    } else {
        total_of(e)
    })
}

/// The stages a run recorded: with the text it gave, the run stopped after
/// some first root files; uncancelled, every root file went through all
/// twelve stages.
#[verifier::opaque]
pub open spec fn run_stages(
    files: Seq<TexFile>,
    cancelled: bool,
    text: Option<Seq<char>>,
    e: Seq<(&'static str, u64)>,
) -> bool {
    &&& extraction_stopped(files, text, entry_names(e))
    &&& !cancelled ==> entry_names(e) == timed_stages(ordered_roots(files).len())
}

/// The timing fields of a run: those of some recorded stages that
/// `run_stages` describes.
#[verifier::opaque]
pub open spec fn timings_of_run(
    files: Seq<TexFile>,
    cancelled: bool,
    text: Option<Seq<char>>,
    json: Seq<char>,
    total: u64,
) -> bool {
    exists|e: Seq<(&'static str, u64)>| #[trigger] timing_fields(e, json, total) && run_stages(files, cancelled, text, e)
}

proof fn lemma_timings_of_run(
    files: Seq<TexFile>,
    cancelled: bool,
    text: Option<Seq<char>>,
    e: Seq<(&'static str, u64)>,
    json: Seq<char>,
    total: u64,
)
    requires
        timing_fields(e, json, total),
        extraction_stopped(files, text, entry_names(e)),
        !cancelled ==> entry_names(e) == timed_stages(ordered_roots(files).len()),
    ensures
        timings_of_run(files, cancelled, text, json, total),
{
    reveal(run_stages);
    reveal(timings_of_run);
    assert(timing_fields(e, json, total) && run_stages(files, cancelled, text, e));
}

/// Run the pipeline on a paper and build its record: `empty` without
/// `.tex` files or without text, `ok` with the text, its length in characters and
/// the stage timings otherwise.
pub fn process_paper(paper: &PaperArchive, source_tar: Option<&str>, cancel: Option<&AtomicBool>) -> (res: ExtractionResult)
    ensures
        res.arxiv_id@ == paper.arxiv_id@,
        opt_view(res.source_tar) == match source_tar {
            Some(s) => Some(s@),
            None => None::<Seq<char>>,
        },
        res.num_tex_files == Some(paper.tex_files@.len() as usize),
        res.file_type == Some(paper.file_type),
        opt_view(res.entry_name) == Some(paper.entry_name@),
        res.error is None,
        res.peak_memory_bytes is None,
        paper.tex_files@.len() == 0 ==> res.status@ == STATUS_EMPTY@ && res.text is None
            && res.stage_timings_us is None && res.total_time_us is None && res.text_length is None,
        paper.tex_files@.len() > 0 ==> res.stage_timings_us is Some && res.total_time_us is Some,
        paper.tex_files@.len() > 0 ==> timings_of_run(
            paper.tex_files@,
            cancel is Some,
            text_view(res.text),
            res.stage_timings_us->0@,
            res.total_time_us->0,
        ),
        res.text matches Some(t) ==> res.status@ == STATUS_OK@ && res.text_length == Some(t@.len() as usize),
        res.text is None ==> res.status@ == STATUS_EMPTY@ && res.text_length is None,
        cancel is None && paper.tex_files@.len() > 0 ==> text_view(res.text) == extracted_text(paper.tex_files@),
        paper.tex_files@.len() > 0 ==> text_of_first_roots(paper.tex_files@, text_view(res.text)),
{
    let source = match source_tar {
        Some(s) => Some(s.to_string()),
        None => None,
    };
    if paper.tex_files.len() == 0 {
        return ExtractionResult {
            arxiv_id: paper.arxiv_id.clone(),
            source_tar: source,
            status: STATUS_EMPTY.to_string(),
            num_tex_files: Some(0),
            text_length: None,
            text: None,
            error: None,
            stage_timings_us: None,
            total_time_us: None,
            peak_memory_bytes: None,
            file_type: Some(paper.file_type),
            entry_name: Some(paper.entry_name.clone()),
        };
    }
    let num_files = paper.tex_files.len();
    let output = extract_text_timed_cancellable(paper.tex_files.as_slice(), cancel);
    proof {
        lemma_stopped_text(paper.tex_files@, text_view(output.text), entry_names(output.timings.entry_seq()));
    }
    let timings_json = output.timings.to_json();
    let total = output.timings.total_us_saturating();
    proof {
        lemma_timings_of_run(
            paper.tex_files@,
            cancel is Some,
            text_view(output.text),
            output.timings.entry_seq(),
            timings_json@,
            total,
        );
    }
    match output.text {
        Some(text) => {
            let len = char_count(text.as_str());
            ExtractionResult {
                arxiv_id: paper.arxiv_id.clone(),
                source_tar: source,
                status: STATUS_OK.to_string(),
                num_tex_files: Some(num_files),
                text_length: Some(len),
                text: Some(text),
                error: None,
                stage_timings_us: Some(timings_json),
                total_time_us: Some(total),
                peak_memory_bytes: None,
                file_type: Some(paper.file_type),
                entry_name: Some(paper.entry_name.clone()),
            }
        },
        None => ExtractionResult {
            arxiv_id: paper.arxiv_id.clone(),
            source_tar: source,
            status: STATUS_EMPTY.to_string(),
            num_tex_files: Some(num_files),
            text_length: None,
            text: None,
            error: None,
            stage_timings_us: Some(timings_json),
            total_time_us: Some(total),
            peak_memory_bytes: None,
            file_type: Some(paper.file_type),
            entry_name: Some(paper.entry_name.clone()),
        },
    }
}

/// The record of a paper skipped for its size: some exactly when its
/// combined `.tex` content exceeds `max_tex_bytes`.
pub fn size_capped(paper: &PaperArchive, source_tar: Option<&str>, max_tex_bytes: usize) -> (res: Option<ExtractionResult>)
    ensures
        res is Some <==> saturated(content_bytes(paper.tex_files@, paper.tex_files@.len() as int)) > max_tex_bytes,
        res matches Some(r) ==> {
            &&& r.status@ == STATUS_SKIPPED@
            &&& r.arxiv_id@ == paper.arxiv_id@
            &&& opt_view(r.source_tar) == match source_tar {
                Some(s) => Some(s@),
                None => None::<Seq<char>>,
            }
            &&& r.num_tex_files == Some(paper.tex_files@.len() as usize)
            &&& r.file_type == Some(paper.file_type)
            &&& opt_view(r.entry_name) == Some(paper.entry_name@)
            &&& r.text is None
            &&& r.text_length is None
            &&& r.stage_timings_us is None
            &&& r.total_time_us is None
            &&& r.peak_memory_bytes is None
            &&& opt_view(r.error) == Some(
                utf8_lossy(
                    oversize_message(
                        saturated(content_bytes(paper.tex_files@, paper.tex_files@.len() as int)),
                        max_tex_bytes as nat,
                    ),
                ),
            )
        },
{
    let total = tex_bytes(paper.tex_files.as_slice());
    if total > max_tex_bytes {
        Some(oversize_result(paper, source_tar, total, max_tex_bytes))
    } else {
        None
    }
}

/// The record of a paper that produced no text: the given status and
/// message, with the paper's id, source, file count, type and entry name.
pub fn paper_error_result(paper: &PaperArchive, source_tar: Option<&str>, status: &str, error: String) -> (res:
    ExtractionResult)
    ensures
        res.arxiv_id@ == paper.arxiv_id@,
        opt_view(res.source_tar) == match source_tar {
            Some(s) => Some(s@),
            None => None::<Seq<char>>,
        },
        res.status@ == status@,
        res.num_tex_files == Some(paper.tex_files@.len() as usize),
        opt_view(res.error) == Some(error@),
        res.text is None,
        res.text_length is None,
        res.stage_timings_us is None,
        res.total_time_us is None,
        res.peak_memory_bytes is None,
        res.file_type == Some(paper.file_type),
        opt_view(res.entry_name) == Some(paper.entry_name@),
{
    ExtractionResult {
        arxiv_id: paper.arxiv_id.clone(),
        source_tar: match source_tar {
            Some(s) => Some(s.to_string()),
            None => None,
        },
        status: status.to_string(),
        num_tex_files: Some(paper.tex_files.len()),
        text_length: None,
        text: None,
        error: Some(error),
        stage_timings_us: None,
        total_time_us: None,
        peak_memory_bytes: None,
        file_type: Some(paper.file_type),
        entry_name: Some(paper.entry_name.clone()),
    }
}

/// The record a run ends with: a paper left without text once its
/// deadline has passed is reported as a timeout; any other record stands
/// (text produced in time is kept even past the deadline).
pub fn record_after_deadline(
    paper: &PaperArchive,
    source_tar: Option<&str>,
    result: ExtractionResult,
    deadline_passed: bool,
    timeout_secs: u64,
) -> (res: ExtractionResult)
    ensures
        result.text is None && deadline_passed ==> is_timeout_record(paper, source_tar, timeout_secs, res),
        !(result.text is None && deadline_passed) ==> res == result,
{
    if result.text.is_none() && deadline_passed {
        timeout_result(paper, source_tar, timeout_secs)
    } else {
        result
    }
}

} // verus!
