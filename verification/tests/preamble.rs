use latex_extract::preamble::{extract_body, extract_preamble_extras};
#[test]
fn test_extract_thanks() {
    let input = r"\title{My Paper}\thanks{Funded by NSF}\begin{document}body\end{document}";
    let extras = extract_preamble_extras(input);
    assert_eq!(extras, vec!["Funded by NSF"]);
}

#[test]
fn test_extract_footnote() {
    let input = r"\author{John\footnote{MIT}}\begin{document}body\end{document}";
    let extras = extract_preamble_extras(input);
    assert_eq!(extras, vec!["MIT"]);
}

#[test]
fn test_extract_multiple() {
    let input = r"\thanks{A}\footnote{B}\footnotetext{C}\begin{document}body\end{document}";
    let extras = extract_preamble_extras(input);
    assert_eq!(extras.len(), 3);
    assert!(extras.contains(&"A".to_string()));
    assert!(extras.contains(&"B".to_string()));
    assert!(extras.contains(&"C".to_string()));
}

#[test]
fn test_no_preamble() {
    let input = "just body text";
    let extras = extract_preamble_extras(input);
    assert!(extras.is_empty());
}

#[test]
fn test_extract_body() {
    let input = r"\begin{document}hello world\end{document}";
    let (extras, body) = extract_body(input);
    assert!(extras.is_empty());
    assert_eq!(body, "hello world");
}

#[test]
fn test_extract_body_no_document() {
    let input = "just plain text";
    let (_, body) = extract_body(input);
    assert_eq!(body, "just plain text");
}

#[test]
fn test_nested_braces_in_thanks() {
    let input = r"\thanks{Funded by \textbf{NSF} grant {123}}\begin{document}body\end{document}";
    let extras = extract_preamble_extras(input);
    assert_eq!(extras, vec![r"Funded by \textbf{NSF} grant {123}"]);
}

#[test]
fn test_preamble_title_author() {
    let input = r"\author{Diego Santoro}\title{My Paper}\begin{document}\begin{abstract}text\end{abstract}\end{document}";
    let (extras, _body) = extract_body(input);
    assert!(extras.iter().any(|e| e.contains("My Paper")), "title missing: {extras:?}");
    assert!(extras.iter().any(|e| e.contains("Diego Santoro")), "author missing: {extras:?}");
}

#[test]
fn test_preamble_title_not_duplicated() {
    // If \title is in the body too, don't extract from preamble
    let input = r"\title{Preamble Title}\begin{document}\title{Body Title}text\end{document}";
    let (extras, _) = extract_body(input);
    assert!(!extras.iter().any(|e| e.contains("Preamble Title")),
            "should not extract preamble title when body has one: {extras:?}");
}

#[test]
fn test_preamble_address_email() {
    let input = r"\author{Name}\address{University}\email{a@b.com}\begin{document}body\end{document}";
    let (extras, _) = extract_body(input);
    assert!(extras.iter().any(|e| e.contains("University")), "address missing: {extras:?}");
    assert!(extras.iter().any(|e| e.contains("a@b.com")), "email missing: {extras:?}");
}

#[test]
fn test_commented_out_preamble_commands_excluded() {
    let input = "\\author{Real Author}\n%\\email{fake@example.com}\n\\begin{document}body\\end{document}";
    let (extras, _) = extract_body(input);
    assert!(!extras.iter().any(|e| e.contains("fake@example.com")),
            "commented-out email should not appear: {extras:?}");
    assert!(extras.iter().any(|e| e.contains("Real Author")),
            "real author should appear: {extras:?}");
}

#[test]
fn test_preamble_affiliation_singular() {
    let input = r"\author{Name}\affiliation{Princeton University}\begin{document}body\end{document}";
    let (extras, _) = extract_body(input);
    assert!(extras.iter().any(|e| e.contains("Princeton University")),
            "affiliation missing: {extras:?}");
}

#[test]
fn test_preamble_affiliation_with_label() {
    let input = r"\author{Name}\affiliation[a]{Hampton University, Hampton, VA}\begin{document}body\end{document}";
    let (extras, _) = extract_body(input);
    assert!(extras.iter().any(|e| e.contains("Hampton University")),
            "labeled affiliation missing: {extras:?}");
}

#[test]
fn test_preamble_affiliation_not_affiliations() {
    // \affiliations (plural) should still work and not be duplicated
    let input = r"\affiliations{Group Affil}\affiliation{Single Affil}\begin{document}body\end{document}";
    let (extras, _) = extract_body(input);
    assert!(extras.iter().any(|e| e.contains("Group Affil")),
            "affiliations (plural) missing: {extras:?}");
    assert!(extras.iter().any(|e| e.contains("Single Affil")),
            "affiliation (singular) missing: {extras:?}");
}

#[test]
fn test_preamble_emailadd() {
    let input = r"\author{Name}\emailAdd{user@example.com}\begin{document}body\end{document}";
    let (extras, _) = extract_body(input);
    assert!(extras.iter().any(|e| e.contains("user@example.com")),
            "emailAdd missing: {extras:?}");
}

#[test]
fn test_preamble_institute_inst_prefix() {
    let input = r"\institute{\inst{1} Lab A \\ \inst{2} Lab B}\begin{document}body\end{document}";
    let (extras, _) = extract_body(input);
    assert!(extras.iter().any(|e| e.contains("Lab A")),
            "institute inst-prefix Lab A missing: {extras:?}");
    assert!(extras.iter().any(|e| e.contains("Lab B")),
            "institute inst-prefix Lab B missing: {extras:?}");
}

#[test]
fn test_preamble_institute_and_split() {
    let input = r"\institute{Dept A \and Dept B}\begin{document}body\end{document}";
    let (extras, _) = extract_body(input);
    assert!(extras.iter().any(|e| e.contains("Dept A")),
            "institute and-split Dept A missing: {extras:?}");
    assert!(extras.iter().any(|e| e.contains("Dept B")),
            "institute and-split Dept B missing: {extras:?}");
}

#[test]
fn test_commented_end_document_skipped() {
    let input = "\\begin{document}before\n%\\end{document}\nafter\\end{document}";
    let (_, body) = extract_body(input);
    assert!(body.contains("before"), "body should contain text before commented end: {body:?}");
    assert!(body.contains("after"), "body should contain text after commented end: {body:?}");
}

#[test]
fn test_uncommented_end_document_unchanged() {
    let input = r"\begin{document}hello world\end{document}";
    let (_, body) = extract_body(input);
    assert_eq!(body, "hello world");
}

#[test]
fn test_text_before_percent_on_same_line() {
    // % after non-comment text on the same line — \end{document} is still valid
    let input = "\\begin{document}body text % comment\n\\end{document}\nextra";
    let (_, body) = extract_body(input);
    assert_eq!(body, "body text % comment\n");
}

#[test]
fn test_preamble_funding_extracted() {
    let input = r"\funding{Supported by grant X}\begin{document}body\end{document}";
    let extras = extract_preamble_extras(input);
    assert_eq!(extras, vec!["Supported by grant X"]);
}

#[test]
fn test_preamble_funding_in_body_extraction() {
    let input = r"\funding{Partly supported by ANR FREDDA}\begin{document}body\end{document}";
    let (extras, _) = extract_body(input);
    assert!(extras.iter().any(|e| e.contains("ANR FREDDA")),
            "funding missing from extras: {extras:?}");
}

#[test]
fn author_labels_become_superscript_address_numbers() {
    let input = r"\author[a,b]{Ann}\address[a]{Uni A}\address[b]{Uni B}\begin{document}x\end{document}";
    let (extras, _) = extract_body(input);
    assert!(extras.contains(&"Ann\u{b9},\u{b2}".to_string()), "{extras:?}");
    assert!(extras.contains(&"\u{b9} Uni A".to_string()), "{extras:?}");
    assert!(extras.contains(&"\u{b2} Uni B".to_string()), "{extras:?}");
}

#[test]
fn title_becomes_heading_and_thanks_inside_it_not_repeated() {
    let input = r"\title{Paper\thanks{Grant}}\begin{document}x\end{document}";
    let (extras, _) = extract_body(input);
    assert_eq!(extras, vec![r"# Paper\thanks{Grant}".to_string()]);
}

#[test]
fn abst_command_gives_abstract_item() {
    let (extras, _) = extract_body(r"\abst{We show X.}\begin{document}x\end{document}");
    assert_eq!(extras, vec!["**Abstract.** We show X.".to_string()]);
}

#[test]
fn body_without_end_runs_to_file_end() {
    let (_, body) = extract_body(r"\begin{document}open ended");
    assert_eq!(body, "open ended");
}
