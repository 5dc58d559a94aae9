use latex_extract::environments::{convert_environments, convert_items};
use latex_extract::textmap::TextMap;
fn ce(text: &str) -> String {
    convert_environments(text, &TextMap::new(), None)
}

#[test]
fn test_itemize() {
    let input = r"\begin{itemize}\item First\item Second\end{itemize}";
    let result = ce(input);
    assert!(result.contains("- First"));
    assert!(result.contains("- Second"));
}

#[test]
fn test_item_with_label() {
    let input = r"\item[Note] Important";
    let result = convert_items(input);
    assert_eq!(result, "\n- Note  Important");
}

#[test]
fn test_item_without_label() {
    let input = r"\item Plain item";
    let result = convert_items(input);
    assert_eq!(result, "\n- Plain item");
}

#[test]
fn test_figure() {
    let input = r"\begin{figure}[htbp]\caption{My figure}\end{figure}";
    let result = ce(input);
    assert!(result.contains("Figure 1: My figure"), "figure caption: {result}");
    assert!(!result.contains("\\begin"));
    assert!(!result.contains("\\end"));
}

#[test]
fn test_theorem() {
    let input = r"\begin{theorem}[Main Result]Content here.\end{theorem}";
    let result = ce(input);
    assert!(result.contains("**Theorem (Main Result).**"));
    assert!(result.contains("Content here."));
}

#[test]
fn test_theorem_no_name() {
    let input = r"\begin{theorem}Content.\end{theorem}";
    let result = ce(input);
    assert!(result.contains("**Theorem.**"));
}

#[test]
fn test_proof() {
    let input = r"\begin{proof}We show that...\end{proof}";
    let result = ce(input);
    assert!(result.contains("**Proof.**"));
}

#[test]
fn test_equation() {
    let input = r"\begin{equation}E = mc^2\end{equation}";
    let result = ce(input);
    assert!(result.contains("$$"));
    assert!(result.contains("E = mc^2"));
    assert!(result.contains("(1)"), "numbered equation: {result}");
}

#[test]
fn test_equation_star_unnumbered() {
    let input = r"\begin{equation*}E = mc^2\end{equation*}";
    let result = ce(input);
    assert!(result.contains("$$"));
    assert!(result.contains("E = mc^2"));
    assert!(!result.contains("(1)"), "starred equation should be unnumbered: {result}");
}

#[test]
fn test_display_math_shortcut() {
    let input = r"\[x = 1\]";
    let result = ce(input);
    assert!(result.contains("$$"));
    assert!(result.contains("x = 1"));
}

#[test]
fn test_unknown_environment() {
    let input = r"\begin{custom}content\end{custom}";
    let result = ce(input);
    assert!(result.contains("content"));
    assert!(!result.contains("\\begin"));
    assert!(!result.contains("\\end"));
}

#[test]
fn test_includegraphics_removed() {
    let input = r"\includegraphics[width=0.5\textwidth]{fig.png}";
    let result = ce(input);
    assert_eq!(result.trim(), "");
}

#[test]
fn test_tabular_basic() {
    let input = r"\begin{tabular}{|l|c|} A & B \\ C & D \end{tabular}";
    let result = ce(input);
    assert!(result.contains("A"));
    assert!(result.contains("B"));
    assert!(!result.contains('&'));
    assert!(!result.contains("\\begin"));
    assert!(!result.contains("\\end"));
}

#[test]
fn test_tabular_inside_table_float() {
    let input = r"\begin{table}[h]\caption{Results}\begin{tabular}{ll} X & Y \end{tabular}\end{table}";
    let result = ce(input);
    assert!(result.contains("Table 1: Results"), "table caption: {result}");
    assert!(result.contains("X"));
    assert!(result.contains("Y"));
    assert!(!result.contains('&'));
}

#[test]
fn test_longtable() {
    let input = r"\begin{longtable}{ccc} A & B & C \\ D & E & F \end{longtable}";
    let result = ce(input);
    assert!(result.contains("A"));
    assert!(result.contains("F"));
    assert!(!result.contains('&'));
}

#[test]
fn test_thebibliography() {
    let input = r"\begin{thebibliography}{99}Some references here.\end{thebibliography}";
    let result = ce(input);
    assert!(result.contains("## References"));
    assert!(result.contains("Some references here."));
    assert!(!result.contains("99"));
    assert!(!result.contains("\\begin"));
}

#[test]
fn test_algorithm_env() {
    let input = r"\begin{algorithmic}\State x = 1\Return x\end{algorithmic}";
    let result = ce(input);
    assert!(result.contains("x = 1"));
    assert!(result.contains("x"));
    assert!(!result.contains("\\State"));
    assert!(!result.contains("\\Return"));
    assert!(!result.contains("\\begin"));
}

#[test]
fn test_keywords_env() {
    let input = r"\begin{keywords}machine learning, NLP\end{keywords}";
    let result = ce(input);
    assert!(result.contains("**Keywords:**"));
    assert!(result.contains("machine learning"));
}

#[test]
fn test_ieee_keywords() {
    let input = r"\begin{IEEEkeywords}deep learning\end{IEEEkeywords}";
    let result = ce(input);
    assert!(result.contains("**Keywords:**"));
    assert!(result.contains("deep learning"));
}

#[test]
fn test_minipage_env() {
    let input = r"\begin{minipage}{0.5\textwidth}Content here\end{minipage}";
    let result = ce(input);
    assert!(result.contains("Content here"));
    assert!(!result.contains("\\begin"));
    assert!(!result.contains("minipage"));
}

#[test]
fn test_verbatim_env() {
    let input = r"\begin{verbatim}print('hello')\end{verbatim}";
    let result = ce(input);
    assert!(result.contains("print('hello')"));
    assert!(!result.contains("\\begin"));
}

#[test]
fn test_multicols_env() {
    let input = r"\begin{multicols}{2}Two column content\end{multicols}";
    let result = ce(input);
    assert!(result.contains("Two column content"));
    assert!(!result.contains("\\begin"));
}

#[test]
fn test_figure_sequential_numbering() {
    let input = r"\begin{figure}\caption{First}\end{figure}\begin{figure}\caption{Second}\end{figure}";
    let result = ce(input);
    assert!(result.contains("Figure 1: First"), "first figure: {result}");
    assert!(result.contains("Figure 2: Second"), "second figure: {result}");
}

#[test]
fn test_table_caption_prefix() {
    let input = r"\begin{table}\caption{My table}\end{table}";
    let result = ce(input);
    assert!(result.contains("Table 1: My table"), "table caption: {result}");
}

#[test]
fn test_question_env() {
    let input = r"\begin{question}What is this?\end{question}";
    let result = ce(input);
    assert!(result.contains("**Question.**"), "question env: {result}");
}

#[test]
fn test_eqnarray_no_ampersands() {
    let input = r"\begin{eqnarray}a &=& b \\ c &=& d\end{eqnarray}";
    let result = ce(input);
    assert!(result.contains("$$"));
    assert!(!result.contains('&'), "eqnarray should have no &: {result}");
    assert!(result.contains("a"));
    assert!(result.contains("b"));
}

#[test]
fn test_array_col_spec_stripped() {
    let input = r"\begin{array}{cc} x & y \\ z & w \end{array}";
    let result = ce(input);
    assert!(!result.contains('&'), "array should have no &: {result}");
    assert!(result.contains("x"));
    assert!(result.contains("w"));
}

#[test]
fn test_custom_theorem_env() {
    let mut custom = TextMap::new();
    custom.insert("dfn".to_string(), "Definition".to_string());
    let input = r"\begin{dfn}[Key]A definition.\end{dfn}";
    let result = convert_environments(input, &custom, None);
    assert!(result.contains("**Definition (Key).**"), "custom theorem: {result}");
    assert!(result.contains("A definition."));
}

#[test]
fn test_custom_theorem_no_name() {
    let mut custom = TextMap::new();
    custom.insert("cor".to_string(), "Corollary".to_string());
    let input = r"\begin{cor}A corollary.\end{cor}";
    let result = convert_environments(input, &custom, None);
    assert!(result.contains("**Corollary.**"), "custom theorem: {result}");
}

// --- Stage 5a: proof QED ---

#[test]
fn test_proof_qed_appended() {
    let input = r"\begin{proof}This is a proof.\end{proof}";
    let result = ce(input);
    assert!(result.contains("**Proof.**"), "proof label: {result}");
    assert!(result.contains("\u{25A1}"), "QED symbol: {result}");
}

#[test]
fn test_proof_qed_not_duplicated() {
    let input = r"\begin{proof}This has \qed already.\end{proof}";
    let result = ce(input);
    assert!(result.contains("**Proof.**"), "proof label: {result}");
    assert!(!result.contains("\u{25A1}"), "should not add QED when \\qed present: {result}");
}

#[test]
fn test_proof_qedsymbol_not_duplicated() {
    let input = r"\begin{proof}Has \qedsymbol here.\end{proof}";
    let result = ce(input);
    assert!(!result.contains("\u{25A1}"), "should not add QED when \\qedsymbol present: {result}");
}

// --- Stage 5b: discard environments ---

#[test]
fn test_filecontents_discarded() {
    let input = "before\n\\begin{filecontents}{file.sty}\nsome content\n\\end{filecontents}\nafter";
    let result = ce(input);
    assert!(result.contains("before"));
    assert!(result.contains("after"));
    assert!(!result.contains("some content"));
}

#[test]
fn test_filecontents_star_discarded() {
    let input = "before\n\\begin{filecontents*}{f.tex}\nstuff\n\\end{filecontents*}\nafter";
    let result = ce(input);
    assert!(result.contains("before"));
    assert!(result.contains("after"));
    assert!(!result.contains("stuff"));
}

#[test]
fn test_tikzpicture_discarded() {
    let input = r"\begin{tikzpicture}
\draw (0,0) -- (1,1);
\end{tikzpicture} text after";
    let result = convert_environments(input, &TextMap::new(), None);
    assert!(!result.contains("draw"), "tikz should be discarded: {result}");
    assert!(result.contains("text after"));
}

#[test]
fn test_compactitem_list() {
    let input = r"\begin{compactitem}
\item First
\item Second
\end{compactitem}";
    let result = convert_environments(input, &TextMap::new(), None);
    assert!(result.contains("First") && result.contains("Second"));
}

#[test]
fn equations_numbered_across_environments() {
    let r = ce(r"\begin{equation}a\end{equation}\begin{align}b\end{align}");
    assert!(r.contains("a (1)"), "{r}");
    assert!(r.contains("b (2)"), "{r}");
}

#[test]
fn expired_deadline_returns_a_stage() {
    let past = std::time::Instant::now();
    let r = convert_environments(r"\begin{itemize}\item x\end{itemize}", &TextMap::new(), Some(past));
    assert!(r.contains("- x"), "{r}");
}

#[test]
fn starred_theorem_gets_heading() {
    let r = ce(r"\begin{lemma*}[Key]x\end{lemma*}");
    assert!(r.contains("**Lemma (Key).**"), "{r}");
}

#[test]
fn table_and_figure_counters_are_separate() {
    let r = ce(r"\begin{figure}\caption{A}\end{figure}\begin{table}\caption{B}\end{table}\begin{figure}\caption{C}\end{figure}");
    assert!(r.contains("Figure 1: A"), "{r}");
    assert!(r.contains("Table 1: B"), "{r}");
    assert!(r.contains("Figure 2: C"), "{r}");
}
