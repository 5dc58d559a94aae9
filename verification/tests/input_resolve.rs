use latex_extract::input_resolve::{build_file_index, find_included_files, find_main_file, is_template_file, resolve_and_order, resolve_inputs, TexFile};
use latex_extract::textmap::TextMap;
#[test]
fn test_find_main_file() {
    let files = vec![
        TexFile { name: "appendix.tex".into(), content: "Appendix content".into() },
        TexFile { name: "main.tex".into(), content: r"\documentclass{article}\begin{document}Hello\end{document}".into() },
        TexFile { name: "intro.tex".into(), content: "Introduction".into() },
    ];
    assert_eq!(find_main_file(&files), 1);
}

#[test]
fn test_resolve_inputs() {
    let mut index = TextMap::new();
    index.insert("intro.tex".into(), "Introduction content".into());
    let content = r"Before \input{intro} After";
    let resolved = resolve_inputs(content, &index, 20);
    assert_eq!(resolved, "Before Introduction content After");
}

#[test]
fn test_resolve_without_extension() {
    let mut index = TextMap::new();
    index.insert("chapter1.tex".into(), "Chapter 1".into());
    let content = r"\input{chapter1}";
    let resolved = resolve_inputs(content, &index, 20);
    assert_eq!(resolved, "Chapter 1");
}

#[test]
fn test_circular_include() {
    let mut index = TextMap::new();
    index.insert("a.tex".into(), r"\input{b}".into());
    index.insert("b.tex".into(), r"\input{a}".into());
    let content = r"\input{a}";
    // Should not loop forever
    let resolved = resolve_inputs(content, &index, 20);
    assert!(resolved.contains("\\input{a}") || resolved.contains("\\input{b}") || !resolved.is_empty());
}

#[test]
fn test_depth_limit() {
    let mut index = TextMap::new();
    for i in 0..30 {
        index.insert(format!("f{}.tex", i), format!("\\input{{f{}}}", i + 1));
    }
    let content = r"\input{f0}";
    // Should stop at depth 20
    let resolved = resolve_inputs(content, &index, 20);
    assert!(!resolved.is_empty());
}

#[test]
fn test_missing_file() {
    let index = TextMap::new();
    let content = r"\input{nonexistent}";
    let resolved = resolve_inputs(content, &index, 20);
    assert_eq!(resolved, r"\input{nonexistent}");
}

#[test]
fn test_resolve_and_order() {
    let files = vec![
        TexFile { name: "intro.tex".into(), content: "Introduction".into() },
        TexFile {
            name: "main.tex".into(),
            content: r"\documentclass{article}\begin{document}\input{intro}\end{document}".into(),
        },
        TexFile { name: "standalone.tex".into(), content: "Standalone content".into() },
    ];
    let result = resolve_and_order(&files);
    assert_eq!(result.len(), 2); // main (with intro inlined) + standalone
    assert_eq!(result[0].name, "main.tex");
    assert!(result[0].content.contains("Introduction"));
    assert_eq!(result[1].name, "standalone.tex");
}

#[test]
fn test_subfile_resolution() {
    let mut index = TextMap::new();
    index.insert("chapter1.tex".into(), "Chapter 1 content".into());
    let content = r"\subfile{chapter1}";
    let resolved = resolve_inputs(content, &index, 20);
    assert_eq!(resolved, "Chapter 1 content");
}

#[test]
fn test_import_resolution() {
    let mut index = TextMap::new();
    index.insert("chapters/intro.tex".into(), "Intro content".into());
    let content = r"\import{chapters/}{intro}";
    let resolved = resolve_inputs(content, &index, 20);
    assert_eq!(resolved, "Intro content");
}

#[test]
fn test_subimport_resolution() {
    let mut index = TextMap::new();
    index.insert("sec/methods.tex".into(), "Methods content".into());
    let content = r"\subimport{sec/}{methods}";
    let resolved = resolve_inputs(content, &index, 20);
    assert_eq!(resolved, "Methods content");
}

#[test]
fn test_inputiffileexists() {
    let mut index = TextMap::new();
    index.insert("extra.tex".into(), "Extra content".into());
    let content = r"\InputIfFileExists{extra.tex}{}{skipped}";
    let resolved = resolve_inputs(content, &index, 20);
    assert_eq!(resolved, "Extra content");
}

#[test]
fn test_dot_slash_prefix() {
    let mut index = TextMap::new();
    index.insert("intro.tex".into(), "Intro".into());
    let content = r"\input{./intro}";
    let resolved = resolve_inputs(content, &index, 20);
    assert_eq!(resolved, "Intro");
}

#[test]
fn test_at_input_resolution() {
    let mut index = TextMap::new();
    index.insert("appendix.tex".into(), "Appendix content".into());
    let content = r"\@input{appendix}";
    let resolved = resolve_inputs(content, &index, 20);
    assert_eq!(resolved, "Appendix content");
}

#[test]
fn test_template_file_suffix() {
    let f = TexFile {
        name: "iclr2025_conference.tex".into(),
        content: "Some template content".into(),
    };
    assert!(is_template_file(&f));
}

#[test]
fn test_template_file_prefix() {
    let f = TexFile {
        name: "sample_paper.tex".into(),
        content: "Sample content".into(),
    };
    assert!(is_template_file(&f));
}

#[test]
fn test_template_file_provides_package() {
    let f = TexFile {
        name: "mystyle.tex".into(),
        content: r"\ProvidesPackage{mystyle}".into(),
    };
    assert!(is_template_file(&f));
}

#[test]
fn test_template_file_instruction_phrases() {
    let f = TexFile {
        name: "format.tex".into(),
        content: "These are formatting instructions. Do not modify this file.".into(),
    };
    assert!(is_template_file(&f));
}

#[test]
fn test_normal_file_not_template() {
    let f = TexFile {
        name: "introduction.tex".into(),
        content: "This is the introduction to our paper.".into(),
    };
    assert!(!is_template_file(&f));
}

#[test]
fn test_template_excluded_from_resolve_order() {
    let files = vec![
        TexFile {
            name: "main.tex".into(),
            content: r"\documentclass{article}\begin{document}Hello\end{document}".into(),
        },
        TexFile {
            name: "iclr2025_conference.tex".into(),
            content: "Template stuff".into(),
        },
        TexFile {
            name: "appendix.tex".into(),
            content: "Appendix content".into(),
        },
    ];
    let result = resolve_and_order(&files);
    // main + appendix, but NOT the template
    assert_eq!(result.len(), 2);
    assert!(result.iter().all(|f| f.name != "iclr2025_conference.tex"));
}

#[test]
fn unreferenced_files_follow_main_by_name() {
    let files = vec![
        TexFile { name: "zeta.tex".into(), content: "Zeta".into() },
        TexFile { name: "main.tex".into(), content: r"\documentclass{article}\begin{document}\input{intro}\end{document}".into() },
        TexFile { name: "intro.tex".into(), content: "Intro".into() },
        TexFile { name: "alpha.tex".into(), content: "Alpha".into() },
        TexFile { name: "beta.tex".into(), content: "Beta".into() },
    ];
    let result = resolve_and_order(&files);
    let names: Vec<&str> = result.iter().map(|f| f.name.as_str()).collect();
    assert_eq!(names, vec!["main.tex", "alpha.tex", "beta.tex", "zeta.tex"]);
    assert!(result[0].content.contains("Intro"));
    assert!(!result[0].content.contains("\\input"));
}

#[test]
fn included_files_in_order_met() {
    let files = vec![
        TexFile { name: "a.tex".into(), content: r"\input{c}".into() },
        TexFile { name: "b.tex".into(), content: "B".into() },
        TexFile { name: "c.tex".into(), content: "C".into() },
    ];
    let index = build_file_index(&files);
    let inc = find_included_files(r"\input{a} \include{b} \input{a}", &index);
    assert_eq!(inc, vec!["a.tex".to_string(), "c.tex".to_string(), "b.tex".to_string()]);
}

#[test]
fn bibliography_falls_back_to_first_bbl() {
    let mut index = TextMap::new();
    index.insert("other.bbl".into(), "BIBLIO".into());
    let resolved = resolve_inputs(r"Text \bibliography{refs} end", &index, 20);
    assert_eq!(resolved, "Text BIBLIO end");
}

#[test]
fn main_file_without_markers_is_first_alphabetically() {
    let files = vec![
        TexFile { name: "b.tex".into(), content: "x".into() },
        TexFile { name: "a.tex".into(), content: "y".into() },
    ];
    assert_eq!(find_main_file(&files), 1);
    let tie = vec![
        TexFile { name: "c.tex".into(), content: "1".into() },
        TexFile { name: "a.tex".into(), content: "2".into() },
        TexFile { name: "a.tex".into(), content: "3".into() },
    ];
    assert_eq!(find_main_file(&tie), 1);
    assert_eq!(find_main_file(&[]), 0);
}
