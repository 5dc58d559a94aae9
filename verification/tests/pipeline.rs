use latex_extract::pipeline::extract_text;
use latex_extract::pipeline::extract_text_timed;
use latex_extract::pipeline::extract_text_timed_cancellable;
use std::sync::atomic::AtomicBool;
use latex_extract::input_resolve::TexFile;
#[test]
fn test_simple_document() {
    let files = vec![TexFile {
        name: "main.tex".into(),
        content: r"\documentclass{article}
\begin{document}
\section{Introduction}
Hello world.
\end{document}"
            .into(),
    }];
    let result = extract_text(&files).unwrap();
    assert!(result.contains("1. Introduction"), "numbered section: {result}");
    assert!(result.contains("Hello world."));
}

#[test]
fn test_with_macros() {
    let files = vec![TexFile {
        name: "main.tex".into(),
        content: r"\documentclass{article}
\newcommand{\myname}{John}
\begin{document}
Hello \myname!
\end{document}"
            .into(),
    }];
    let result = extract_text(&files).unwrap();
    assert!(result.contains("Hello John!"));
}

#[test]
fn test_with_funding() {
    let files = vec![TexFile {
        name: "main.tex".into(),
        content: r"\documentclass{article}
\begin{document}
\section{Acknowledgements}
This work was funded by NSF grant 12345.
\end{document}"
            .into(),
    }];
    let result = extract_text(&files).unwrap();
    assert!(result.contains("funded by NSF grant 12345"));
}

#[test]
fn test_preamble_thanks() {
    let files = vec![TexFile {
        name: "main.tex".into(),
        content: r"\documentclass{article}
\title{My Paper}
\thanks{Supported by NIH grant R01}
\begin{document}
Body text.
\end{document}"
            .into(),
    }];
    let result = extract_text(&files).unwrap();
    assert!(result.contains("Supported by NIH grant R01"));
}

#[test]
fn test_empty_input() {
    let files: Vec<TexFile> = vec![];
    assert!(extract_text(&files).is_none());
}

#[test]
fn test_empty_output() {
    let files = vec![TexFile {
        name: "main.tex".into(),
        content: "".into(),
    }];
    assert!(extract_text(&files).is_none());
}

#[test]
fn test_full_bibliography() {
    let files = vec![TexFile {
        name: "main.tex".into(),
        content: r"\documentclass{article}
\begin{document}
Body text.
\begin{thebibliography}{99}
\bibitem[1]{ref1} Author One, Title One, 2020.
\bibitem[2]{ref2} Author Two, Title Two, 2021.
\end{thebibliography}
\end{document}"
            .into(),
    }];
    let result = extract_text(&files).unwrap();
    assert!(result.contains("References"));
    assert!(result.contains("[1]"), "first bibitem should be [1]: {result}");
    assert!(result.contains("Author One"));
    assert!(result.contains("[2]"), "second bibitem should be [2]: {result}");
    assert!(result.contains("Author Two"));
}

#[test]
fn test_tabular_content_preserved() {
    let files = vec![TexFile {
        name: "main.tex".into(),
        content: r"\documentclass{article}
\begin{document}
\begin{table}[h]
\caption{Results}
\begin{tabular}{lcc}
Method & Precision & Recall \\
Ours & 0.95 & 0.87 \\
\end{tabular}
\end{table}
\end{document}"
            .into(),
    }];
    let result = extract_text(&files).unwrap();
    assert!(result.contains("Results"));
    assert!(result.contains("Method"));
    assert!(result.contains("Precision"));
    assert!(result.contains("0.95"));
    assert!(!result.contains('&'));
}

#[test]
fn test_custom_newtheorem_pipeline() {
    let files = vec![TexFile {
        name: "main.tex".into(),
        content: r"\documentclass{article}
\newtheorem{dfn}{Definition}
\begin{document}
\begin{dfn}[Key]A definition.\end{dfn}
\end{document}"
            .into(),
    }];
    let result = extract_text(&files).unwrap();
    assert!(result.contains("**Definition (Key).**"), "custom theorem: {result}");
    assert!(result.contains("A definition."));
}

#[test]
fn test_section_label_crossref() {
    let files = vec![TexFile {
        name: "main.tex".into(),
        content: r"\documentclass{article}
\begin{document}
\section{Intro}
\label{sec:intro}
\section{Methods}
\label{sec:methods}
See Section \ref{sec:methods}.
\end{document}"
            .into(),
    }];
    let result = extract_text(&files).unwrap();
    assert!(result.contains("See Section 2"), "section cross-ref: {result}");
}

#[test]
fn test_extract_text_timed() {
    let files = vec![TexFile {
        name: "main.tex".into(),
        content: r"\documentclass{article}
\begin{document}
\section{Intro}
Hello.
\end{document}"
            .into(),
    }];
    let output = extract_text_timed(&files);
    assert!(output.text.is_some());
    assert!(output.text.unwrap().contains("Hello."));

    let timings = output.timings;
    assert!(
        timings.entries().len() >= 8,
        "expected >=8 stages, got {}",
        timings.entries().len()
    );
    assert!(timings.total_us() > 0);

    let names: Vec<&str> = timings.entries().iter().map(|(n, _)| *n).collect();
    assert!(names.contains(&"remove_comments"));
    assert!(names.contains(&"expand_macros"));
    assert!(names.contains(&"expand_parametric"));
    assert!(names.contains(&"convert_structure"));
    assert!(names.contains(&"cleanup"));
}

#[test]
fn test_parametric_macro_single_arg() {
    let files = vec![TexFile {
        name: "main.tex".into(),
        content: r"\documentclass{article}
\newcommand{\vect}[1]{\mathbf{#1}}
\begin{document}
The vector \vect{x} is important.
\end{document}"
            .into(),
    }];
    let result = extract_text(&files).unwrap();
    assert!(!result.contains("\\vect"), "\\vect should be expanded: {result}");
}

#[test]
fn test_parametric_macro_two_args() {
    let files = vec![TexFile {
        name: "main.tex".into(),
        content: r"\documentclass{article}
\newcommand{\inner}[2]{\langle #1, #2 \rangle}
\begin{document}
Value: \inner{a}{b}.
\end{document}"
            .into(),
    }];
    let result = extract_text(&files).unwrap();
    assert!(!result.contains("\\inner"), "\\inner should be expanded: {result}");
    assert!(result.contains("a") && result.contains("b"), "args present: {result}");
}

#[test]
fn test_parametric_macro_with_optional_default() {
    let files = vec![TexFile {
        name: "main.tex".into(),
        content: r"\documentclass{article}
\newcommand{\greet}[2][Hello]{#1, #2!}
\begin{document}
\greet{World}
\greet[Hi]{World}
\end{document}"
            .into(),
    }];
    let result = extract_text(&files).unwrap();
    assert!(result.contains("Hello, World!"), "default opt: {result}");
    assert!(result.contains("Hi, World!"), "explicit opt: {result}");
}

#[test]
fn test_parametric_def_macro() {
    let files = vec![TexFile {
        name: "main.tex".into(),
        content: r"\documentclass{article}
\def\norm#1{\left\|#1\right\|}
\begin{document}
Result: \norm{x}.
\end{document}"
            .into(),
    }];
    let result = extract_text(&files).unwrap();
    assert!(!result.contains("\\norm"), "\\norm should be expanded: {result}");
}

#[test]
fn every_root_records_the_twelve_stages_in_order() {
    let files = vec![
        TexFile { name: "main.tex".into(), content: "\\documentclass{article}\\begin{document}Main.\\end{document}".into() },
        TexFile { name: "notes.tex".into(), content: "Notes.".into() },
    ];
    let out = extract_text_timed(&files);
    let names: Vec<&str> = out.timings.entries().iter().map(|e| e.0).collect();
    let stages = [
        "remove_comments",
        "normalize_shorthands",
        "expand_macros",
        "expand_parametric",
        "convert_structure",
        "convert_references",
        "convert_formatting",
        "convert_environments",
        "strip_pre_diacritic",
        "convert_diacritics",
        "convert_symbols",
        "cleanup",
    ];
    let expected: Vec<&str> = stages.iter().chain(stages.iter()).copied().collect();
    assert_eq!(names, expected);
    let text = out.text.unwrap();
    assert!(text.contains("Main."));
    assert!(text.contains("Notes."));
}

#[test]
fn cancelled_before_start_records_nothing() {
    let files = vec![TexFile { name: "main.tex".into(), content: "\\begin{document}A.\\end{document}".into() }];
    let cancel = AtomicBool::new(true);
    let out = extract_text_timed_cancellable(&files, Some(&cancel));
    assert!(out.text.is_none());
    assert!(out.timings.entries().is_empty());
    let none = extract_text_timed_cancellable(&[], None);
    assert!(none.text.is_none());
    assert!(none.timings.entries().is_empty());
}
