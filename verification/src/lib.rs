//! Verified LaTeX-to-text extraction for arXiv source archives.

pub mod admission;
pub mod archive;
pub mod braces;
pub mod checkpoint;
pub mod cancel;
pub mod codec;
pub mod diacritics;
pub mod cleanup;
pub mod comments;
pub mod environments;
pub mod formatting;
pub mod input_resolve;
pub mod macros;
pub mod metrics;
pub mod outside;
pub mod paper;
pub mod pipeline;
pub mod regexes;
pub mod replacer;
pub mod preamble;
pub mod references;
pub mod result;
pub mod scan;
pub mod shards;
pub mod structure;
pub mod symbols;
pub mod text;
pub mod textmap;
pub mod timing;
pub mod unicode;
