# latex_extract

Plain-text extraction from arXiv LaTeX source archives, with the extraction
logic verified in Verus.

- `src/` is the verified library. Each pass of the pipeline (comment
  removal, macro expansion, structure, references, formatting,
  environments, diacritics, symbols, cleanup) works on bytes and is
  specified by a spec function that says what it produces; the pipeline,
  input resolution, archive classification, the per-paper record, metrics,
  checkpoint parsing, shard naming and rotation, and admission counting are
  verified against those specifications. Calls into `regex`,
  `aho-corasick`, `unicode-normalization`, `encoding_rs`, `flate2` and
  `tar` go through the trusted wrappers in `outside.rs`, `regexes.rs`,
  `codec.rs`, `unicode.rs` and `text.rs`, whose doc comments say what is
  assumed of them.
- `app/` is the command-line program: file and archive I/O, worker threads
  and timeouts, Parquet and JSONL output, logging and allocator statistics.
- `tests/` exercises the library on concrete inputs.
