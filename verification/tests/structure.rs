use latex_extract::structure::convert_structure;
use latex_extract::textmap::TextMap;
fn cs(text: &str) -> String {
    convert_structure(text, &mut TextMap::new())
}

#[test]
fn test_section() {
    let result = cs(r"\section{Introduction}");
    assert_eq!(result, "\n## 1. Introduction\n");
}

#[test]
fn test_section_starred() {
    let result = cs(r"\section*{Introduction}");
    assert_eq!(result, "\n## Introduction\n");
}

#[test]
fn test_section_with_optional() {
    let result = cs(r"\section[short]{Full Title Here}");
    assert_eq!(result, "\n## 1. Full Title Here\n");
}

#[test]
fn test_section_nested_braces() {
    let result = cs(r"\section{The $\mathcal{O}(n)$ Algorithm}");
    assert_eq!(result, "\n## 1. The $\\mathcal{O}(n)$ Algorithm\n");
}

#[test]
fn test_chapter() {
    let result = cs(r"\chapter{Background}");
    assert_eq!(result, "\n# 1. Background\n");
}

#[test]
fn test_subsection() {
    let result = cs(r"\section{A}\subsection{Details}");
    assert!(result.contains("### 1.1. Details"), "subsection: {result}");
}

#[test]
fn test_paragraph() {
    let result = cs(r"\paragraph{Note}");
    assert_eq!(result, "\n**Note** ");
}

#[test]
fn test_title() {
    let result = cs(r"\title{My Paper}");
    assert_eq!(result, "\n# My Paper\n");
}

#[test]
fn test_title_nested() {
    let result = cs(r"\title{\textbf{A \emph{nested} title}}");
    assert_eq!(result, "\n# \\textbf{A \\emph{nested} title}\n");
}

#[test]
fn test_abstract() {
    let result = cs(r"\begin{abstract}Some text\end{abstract}");
    assert_eq!(result, "\n**Abstract.** Some text\n");
}

#[test]
fn test_acknowledgements() {
    let result = cs(r"\begin{acknowledgements}Thanks\end{acknowledgements}");
    assert_eq!(result, "\n## Acknowledgements\nThanks\n");
}

#[test]
fn test_acknowledgments_spelling() {
    let result = cs(r"\begin{acknowledgments}Thanks\end{acknowledgments}");
    assert_eq!(result, "\n## Acknowledgements\nThanks\n");
}

#[test]
fn test_maketitle_removed() {
    let result = cs(r"\maketitle");
    assert_eq!(result, "");
}

#[test]
fn test_multiple_sections() {
    let input = r"\section{A}\subsection{B}\section{C}";
    let result = cs(input);
    assert!(result.contains("## 1. A"), "section 1: {result}");
    assert!(result.contains("### 1.1. B"), "subsection 1.1: {result}");
    assert!(result.contains("## 2. C"), "section 2: {result}");
}

#[test]
fn test_section_numbering_hierarchy() {
    let input = r"\section{A}\subsection{B}\subsection{C}\section{D}";
    let result = cs(input);
    assert!(result.contains("## 1. A"), "sec 1: {result}");
    assert!(result.contains("### 1.1. B"), "subsec 1.1: {result}");
    assert!(result.contains("### 1.2. C"), "subsec 1.2: {result}");
    assert!(result.contains("## 2. D"), "sec 2: {result}");
}

#[test]
fn test_section_label_map_populated() {
    let mut labels = TextMap::new();
    let input = r"\section{Intro}\label{sec:intro}\section{Methods}\label{sec:methods}";
    convert_structure(input, &mut labels);
    assert_eq!(labels.get("sec:intro").map(|s| s.as_str()), Some("1"));
    assert_eq!(labels.get("sec:methods").map(|s| s.as_str()), Some("2"));
}

#[test]
fn test_revtex_superscriptaddress() {
    let input = r"\author{Alice}\author{Bob}\affiliation{MIT}\author{Carol}\affiliation{Stanford}";
    let result = cs(input);
    assert!(result.contains("Alice\u{00B9}"), "Alice should have ¹: {result}");
    assert!(result.contains("Bob\u{00B9}"), "Bob should have ¹: {result}");
    assert!(result.contains("Carol\u{00B2}"), "Carol should have ²: {result}");
    assert!(result.contains("\u{00B9} MIT"), "MIT should have ¹: {result}");
    assert!(result.contains("\u{00B2} Stanford"), "Stanford should have ²: {result}");
}

#[test]
fn test_institute_numbered() {
    let input = r"\institute{Dept A \and Dept B \and Dept C}";
    let result = cs(input);
    assert!(result.contains("\u{00B9} Dept A"), "missing ¹ Dept A: {result}");
    assert!(result.contains("\u{00B2} Dept B"), "missing ² Dept B: {result}");
    assert!(result.contains("\u{00B3} Dept C"), "missing ³ Dept C: {result}");
}

#[test]
fn test_institute_with_labels_and_inst_refs() {
    let input = r"\author{Smith\inst{\ref{inst:A},\ref{inst:B}} \and Jones\inst{\ref{inst:B}}}\institute{Dept A\label{inst:A} \and Dept B\label{inst:B}}";
    let result = cs(input);
    assert!(result.contains("Smith\u{00B9},\u{00B2}"), "expected Smith¹,²: {result}");
    assert!(result.contains("Jones\u{00B2}"), "expected Jones²: {result}");
    assert!(result.contains("\u{00B9} Dept A"), "missing ¹ Dept A: {result}");
    assert!(result.contains("\u{00B2} Dept B"), "missing ² Dept B: {result}");
}

#[test]
fn test_inst_bare_numbers() {
    let input = r"\institute{Dept A \and Dept B}\author{Smith\inst{1,2}}";
    let result = cs(input);
    assert!(result.contains("Smith\u{00B9},\u{00B2}"), "expected Smith¹,²: {result}");
}

#[test]
fn test_authors_plural() {
    let result = cs(r"\authors{Smith and Jones}");
    assert!(result.contains("Smith and Jones"), "authors missing: {result}");
}

#[test]
fn test_abstract_command() {
    let result = cs(r"\abstract{Some abstract text}");
    assert!(result.contains("**Abstract.** Some abstract text"), "abstract command: {result}");
}

#[test]
fn test_proclaim_endproclaim() {
    let input = r"\proclaim{Theorem 1} Content here.\endproclaim";
    let result = cs(input);
    assert!(result.contains("**Theorem 1.**"), "proclaim: {result}");
    assert!(result.contains("Content here."), "proclaim content: {result}");
}

#[test]
fn test_subhead_endsubhead() {
    let input = r"\subhead Methods\endsubhead";
    let result = cs(input);
    assert!(result.contains("### Methods"), "subhead: {result}");
}

#[test]
fn test_institute_inst_prefix_format() {
    let input = r"\institute{\inst{1} Laboratoire A \\ \inst{2} Instituut B}";
    let result = cs(input);
    assert!(result.contains("\u{00B9} Laboratoire A"), "missing ¹ Laboratoire A: {result}");
    assert!(result.contains("\u{00B2} Instituut B"), "missing ² Instituut B: {result}");
}

#[test]
fn test_revtex_altaffiliation() {
    let input = r"\author{Alice}\affiliation{MIT}\author{Bob}\altaffiliation{Also at: CERN}\affiliation{Stanford}";
    let result = cs(input);
    assert!(result.contains("Also at: CERN"), "altaffiliation content missing: {result}");
    assert!(result.contains("Bob"), "Bob missing: {result}");
}

#[test]
fn test_labeled_author_address_numbered() {
    let result = cs(r"\author[a]{X}\address[a]{U}");
    assert!(result.contains("X\u{b9}"));
    assert!(result.contains("\u{b9} U"));
}
