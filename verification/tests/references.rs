use latex_extract::references::convert_references;
use latex_extract::textmap::TextMap;
fn cr(text: &str) -> String {
    convert_references(text, &TextMap::new())
}

// --- Citation resolution with numeric indices ---

#[test]
fn test_cite_with_bibitem_resolves_to_number() {
    let input = r"\cite{smith2020} text \bibitem{smith2020} A reference.";
    let result = cr(input);
    assert!(result.contains("[1]"), "cite should resolve to [1]: {result}");
}

#[test]
fn test_multi_cite_resolves() {
    let input = r"\cite{a,b} \bibitem{a} A. \bibitem{b} B.";
    let result = cr(input);
    assert!(result.contains("[1,2]"), "multi-cite should resolve: {result}");
}

#[test]
fn test_cite_unknown_key_fallback() {
    let input = r"\cite{unknown}";
    let result = cr(input);
    assert_eq!(result, "[unknown]");
}

#[test]
fn test_citep() {
    let input = r"\citep{jones2021} \bibitem{jones2021} J.";
    let result = cr(input);
    assert!(result.contains("[1]"), "citep should resolve: {result}");
}

#[test]
fn test_cite_with_optional() {
    let input = r"\cite[p.~42]{smith2020} \bibitem{smith2020} S.";
    let result = cr(input);
    assert!(result.contains("[1]"), "cite with optional should resolve: {result}");
}

#[test]
fn test_bibitem_displays_author_year_label() {
    // Non-numeric optional label triggers author-year mode
    let input = r"\bibitem[Smith2020]{smith2020} A reference.";
    let result = cr(input);
    assert!(result.contains("[Smith2020]"), "bibitem should display author-year label: {result}");
    assert!(result.contains("A reference."));
}

#[test]
fn test_bibitem_sequential_numbering() {
    let input = r"\bibitem{a} First. \bibitem{b} Second.";
    let result = cr(input);
    assert!(result.contains("[1]"), "first bibitem should be [1]: {result}");
    assert!(result.contains("[2]"), "second bibitem should be [2]: {result}");
}

// --- Cross-reference resolution ---

#[test]
fn test_ref_with_label_resolves() {
    let input = r"\label{fig:x} \ref{fig:x}";
    let result = cr(input);
    assert!(result.contains("1"), "ref should resolve to 1: {result}");
}

#[test]
fn test_eqref_resolves() {
    let input = r"\label{eq:a} \eqref{eq:a}";
    let result = cr(input);
    assert!(result.contains("1"), "eqref should resolve: {result}");
}

#[test]
fn test_ref_unknown_label_fallback() {
    let result = cr(r"See \ref{fig:unknown}");
    assert_eq!(result, "See fig:unknown");
}

#[test]
fn test_label_removed() {
    let result = cr(r"\label{sec:intro} Introduction");
    assert_eq!(result, " Introduction");
}

// --- URL / href ---

#[test]
fn test_url() {
    let result = cr(r"\url{https://example.com}");
    assert_eq!(result, "https://example.com");
}

#[test]
fn test_href() {
    let result = cr(r"\href{https://example.com}{click here}");
    assert_eq!(result, "click here");
}

// --- Boundary checks ---

#[test]
fn test_citation_not_matching_longer() {
    let result = cr(r"\citation{x}");
    assert_eq!(result, r"\citation{x}");
}

#[test]
fn test_bibitem_boundary() {
    let result = cr(r"\bibitemize{x}");
    assert_eq!(result, r"\bibitemize{x}");
}

// --- Journal macros ---

#[test]
fn test_journal_macro_apj() {
    let result = cr(r"\apj, 123, 456");
    assert!(result.contains("ApJ"), "apj should expand: {result}");
}

#[test]
fn test_journal_macro_mnras() {
    let result = cr(r"\mnras, 500, 100");
    assert!(result.contains("MNRAS"), "mnras should expand: {result}");
}

#[test]
fn test_journal_macro_prl() {
    let result = cr(r"\prl, 100, 200");
    assert!(result.contains("Phys. Rev. Lett."), "prl should expand: {result}");
}

#[test]
fn test_citep_two_optional_args() {
    // natbib: \citep[see][p.~5]{key} has two optional args
    let input = r"\citep[see][p.~5]{smith2020} \bibitem{smith2020} S.";
    let result = cr(input);
    assert!(result.contains("[1]"), "citep with two optional args should resolve: {result}");
}

#[test]
fn test_author_year_citation_style() {
    let input = r"\cite{smith2020} \bibitem[Smith et al., 2020]{smith2020} S.";
    let result = cr(input);
    assert!(result.contains("[Smith et al., 2020]"), "author-year cite: {result}");
}

#[test]
fn test_numeric_optional_stays_numeric() {
    // When optional args are just numbers, stay in numeric mode
    let input = r"\cite{a} \bibitem[1]{a} A. \bibitem[2]{b} B.";
    let result = cr(input);
    assert!(result.contains("[1]"), "numeric mode cite: {result}");
}

#[test]
fn test_hyperref() {
    let result = cr(r"\hyperref[sec:intro]{Introduction}");
    assert_eq!(result, "Introduction");
}

#[test]
fn test_hyperref_no_optional() {
    let result = cr(r"\hyperref{text}");
    assert_eq!(result, "text");
}

#[test]
fn section_labels_take_precedence() {
    let mut sections = TextMap::new();
    sections.insert("sec:intro".to_string(), "2".to_string());
    let result = convert_references(r"\label{sec:intro} see \ref{sec:intro}", &sections);
    assert_eq!(result, " see 2");
}

#[test]
fn label_counters_are_per_prefix() {
    let result = cr(r"\label{fig:a}\label{eq:b}\label{fig:c}\label{plain} \ref{fig:c} \ref{eq:b} \ref{plain}");
    assert_eq!(result, " 2 1 1");
}

#[test]
fn first_bibitem_for_a_key_wins() {
    let result = cr(r"\cite{a} \bibitem{a} x \bibitem{a} y");
    assert!(result.starts_with("[1]"));
}

#[test]
fn cite_keys_are_trimmed() {
    let result = cr(r"\cite{ a , b } \bibitem{a} A. \bibitem{b} B.");
    assert!(result.starts_with("[1,2]"), "{result}");
}

#[test]
fn bibitem_without_key_leaves_line_break() {
    assert_eq!(cr(r"x\bibitem y"), "x\n y");
}
