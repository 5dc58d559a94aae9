//! The per-paper extraction record.

use vstd::prelude::*;

verus! {

/// Source file type detected from archive content.
#[derive(Debug, Clone, Copy, PartialEq, Eq, Structural)]
pub enum FileType {
    Tex,
    Pdf,
    Postscript,
    Html,
    Unknown,
}

impl FileType {
    /// The lowercase name of the type.
    pub fn as_str(self) -> (res: &'static str)
        ensures
            res@ == match self {
                FileType::Tex => "tex"@,
                FileType::Pdf => "pdf"@,
                FileType::Postscript => "postscript"@,
                FileType::Html => "html"@,
                FileType::Unknown => "unknown"@,
            },
    {
        match self {
            FileType::Tex => "tex",
            FileType::Pdf => "pdf",
            FileType::Postscript => "postscript",
            FileType::Html => "html",
            FileType::Unknown => "unknown",
        }
    }
}

/// Result of extracting text from a single paper.
#[derive(Debug, Clone)]
pub struct ExtractionResult {
    pub arxiv_id: String,
    pub source_tar: Option<String>,
    pub status: String,
    pub num_tex_files: Option<usize>,
    pub text_length: Option<usize>,
    pub text: Option<String>,
    pub error: Option<String>,
    /// JSON map of pipeline stage name → microseconds.
    pub stage_timings_us: Option<String>,
    /// Total pipeline time in microseconds.
    pub total_time_us: Option<u64>,
    /// Best-effort peak memory estimate in bytes.
    pub peak_memory_bytes: Option<u64>,
    /// Source file type detected from archive content.
    pub file_type: Option<FileType>,
    /// The tar entry path or file path this paper came from.
    pub entry_name: Option<String>,
}

impl ExtractionResult {
    /// An error or skip record: the given id, source, status and message,
    /// every other field absent.
    pub fn error(arxiv_id: String, source_tar: Option<String>, status: &str, error: String) -> (res: Self)
        ensures
            res.arxiv_id@ == arxiv_id@,
            res.source_tar == source_tar,
            res.status@ == status@,
            res.error matches Some(e) && e@ == error@,
            res.num_tex_files is None,
            res.text_length is None,
            res.text is None,
            res.stage_timings_us is None,
            res.total_time_us is None,
            res.peak_memory_bytes is None,
            res.file_type is None,
            res.entry_name is None,
    {
        ExtractionResult {
            arxiv_id,
            source_tar,
            status: status.to_string(),
            num_tex_files: None,
            text_length: None,
            text: None,
            error: Some(error),
            stage_timings_us: None,
            total_time_us: None,
            peak_memory_bytes: None,
            file_type: None,
            entry_name: None,
        }
    }
}

} // verus!
