use latex_extract::formatting::{convert_formatting, to_unicode_script};
#[test]
fn test_emph() {
    let result = convert_formatting(r"\emph{hello}");
    assert_eq!(result, "*hello*");
}

#[test]
fn test_textbf() {
    let result = convert_formatting(r"\textbf{bold}");
    assert_eq!(result, "**bold**");
}

#[test]
fn test_textrm() {
    let result = convert_formatting(r"\textrm{normal}");
    assert_eq!(result, "normal");
}

#[test]
fn test_nested_formatting() {
    let result = convert_formatting(r"\textbf{\emph{nested}}");
    assert_eq!(result, "***nested***");
}

#[test]
fn test_textcolor_extracts_second_arg() {
    let result = convert_formatting(r"\textcolor{red}{visible text}");
    assert_eq!(result, "visible text");
}

#[test]
fn test_colorbox_extracts_second_arg() {
    let result = convert_formatting(r"\colorbox{yellow}{highlighted}");
    assert_eq!(result, "highlighted");
}

#[test]
fn test_multicolumn_extracts_third_arg() {
    let result = convert_formatting(r"\multicolumn{3}{c}{Header}");
    assert_eq!(result, "Header");
}

#[test]
fn test_footnote() {
    let result = convert_formatting(r"text\footnote{note}more");
    assert_eq!(result, "text note more");
}

#[test]
fn test_thanks() {
    let result = convert_formatting(r"author\thanks{grant info}");
    assert_eq!(result, "author grant info ");
}

#[test]
fn test_font_size_removed() {
    let result = convert_formatting(r"\large text");
    assert_eq!(result, " text");
}

#[test]
fn test_nested_braces_in_formatting() {
    let result = convert_formatting(r"\emph{a {b} c}");
    assert_eq!(result, "*a {b} c*");
}

#[test]
fn test_corauthref_stripped() {
    let result = convert_formatting(r"Name \corauthref{cor2} rest");
    assert_eq!(result, "Name  rest");
}

#[test]
fn test_textsuperscript_digits() {
    let result = convert_formatting(r"Zhou\textsuperscript{1}");
    assert_eq!(result, "Zhou\u{00B9}");
}

#[test]
fn test_textsuperscript_multi() {
    let result = convert_formatting(r"x\textsuperscript{23}");
    assert_eq!(result, "x\u{00B2}\u{00B3}");
}

#[test]
fn test_textsubscript_digits() {
    let result = convert_formatting(r"H\textsubscript{2}O");
    assert_eq!(result, "H\u{2082}O");
}

#[test]
fn test_textsuperscript_letter_passthrough() {
    let result = convert_formatting(r"\textsuperscript{a}");
    assert_eq!(result, "a");
}

#[test]
fn test_tolerant_unclosed_brace() {
    let result = convert_formatting("\\textbf{unclosed text");
    assert!(
        result.contains("unclosed text"),
        "tolerant should preserve content: {result}"
    );
}

#[test]
fn test_ensuremath_unwrap() {
    let result = convert_formatting(r"\ensuremath{x}");
    assert_eq!(result, "x");
}

#[test]
fn test_texorpdfstring() {
    let result = convert_formatting(r"\texorpdfstring{$\alpha$}{alpha}");
    assert_eq!(result, "alpha");
}

#[test]
fn test_frac_outside_math() {
    let result = convert_formatting(r"\frac{a}{b}");
    assert_eq!(result, "a/b");
}

#[test]
fn test_dfrac_outside_math() {
    let result = convert_formatting(r"\dfrac{1}{2}");
    assert_eq!(result, "1/2");
}

#[test]
fn test_frac_inside_math_preserved() {
    let result = convert_formatting(r"$\frac{a}{b}$");
    assert_eq!(result, r"$\frac{a}{b}$");
}

#[test]
fn test_sqrt_outside_math() {
    let result = convert_formatting(r"\sqrt{x}");
    assert_eq!(result, "\u{221A}(x)");
}

#[test]
fn test_sqrt_with_optional() {
    let result = convert_formatting(r"\sqrt[3]{x}");
    assert_eq!(result, "\u{221A}[3](x)");
}

#[test]
fn test_sqrt_inside_math_preserved() {
    let result = convert_formatting(r"$\sqrt{x}$");
    assert_eq!(result, r"$\sqrt{x}$");
}

#[test]
fn test_binom_outside_math() {
    let result = convert_formatting(r"\binom{n}{k}");
    assert_eq!(result, "C(n,k)");
}

#[test]
fn test_binom_inside_math_preserved() {
    let result = convert_formatting(r"$\binom{n}{k}$");
    assert_eq!(result, r"$\binom{n}{k}$");
}

#[test]
fn test_hat_single_char() {
    let result = convert_formatting(r"\hat{x}");
    assert_eq!(result, "x\u{0302}");
}

#[test]
fn test_vec_single_char() {
    let result = convert_formatting(r"\vec{v}");
    assert_eq!(result, "v\u{20D7}");
}

#[test]
fn test_accent_multi_char_unwraps() {
    let result = convert_formatting(r"\hat{abc}");
    assert_eq!(result, "abc");
}

#[test]
fn test_overline_single_char() {
    let result = convert_formatting(r"\overline{x}");
    assert_eq!(result, "x\u{0305}");
}

#[test]
fn test_underline_single_char() {
    let result = convert_formatting(r"\underline{x}");
    assert_eq!(result, "x\u{0332}");
}

#[test]
fn test_verb_pipe() {
    let result = convert_formatting(r"\verb|hello world|");
    assert_eq!(result, "hello world");
}

#[test]
fn test_verb_star() {
    let result = convert_formatting(r"\verb*|code here|");
    assert_eq!(result, "code here");
}

#[test]
fn test_verb_bang_delimiter() {
    let result = convert_formatting(r"\verb!special!");
    assert_eq!(result, "special");
}

#[test]
fn test_verb_boundary() {
    // \verbatim should NOT match as \verb
    let result = convert_formatting(r"\verbatim{text}");
    assert!(result.contains("verbatim") || result.contains("text"));
}

#[test]
fn test_verb_multibyte_delimiter() {
    // Multi-byte UTF-8 char adjacent to \verb must not panic
    let input = "before \\verb·code· after";
    let result = convert_formatting(input);
    assert_eq!(result, "before code after");
}

#[test]
fn test_lstinline_braced() {
    let result = convert_formatting(r"\lstinline{x = 1}");
    assert_eq!(result, "x = 1");
}

#[test]
fn test_lstinline_delimiter() {
    let result = convert_formatting(r"\lstinline|x = 1|");
    assert_eq!(result, "x = 1");
}

#[test]
fn test_lstinline_multibyte_delimiter() {
    // Multi-byte UTF-8 char as lstinline delimiter must not panic
    let input = "before \\lstinline·code· after";
    let result = convert_formatting(input);
    assert_eq!(result, "before code after");
}

#[test]
fn test_mintinline() {
    let result = convert_formatting(r"\mintinline{python}{x = 1}");
    assert_eq!(result, "x = 1");
}

#[test]
fn test_ket() {
    let result = convert_formatting(r"\ket{0}");
    assert!(result.contains("|") && result.contains("\u{27E9}"), "ket: {result}");
}

#[test]
fn test_bra() {
    let result = convert_formatting(r"\bra{0}");
    assert!(result.contains("\u{27E8}") && result.contains("|"), "bra: {result}");
}

#[test]
fn test_braket() {
    let result = convert_formatting(r"\braket{x}{y}");
    assert!(result.contains("\u{27E8}") && result.contains("|") && result.contains("\u{27E9}"), "braket: {result}");
}

#[test]
fn test_ketbra() {
    let result = convert_formatting(r"\ketbra{x}{y}");
    assert!(result.contains("|x\u{27E9}") && result.contains("\u{27E8}y|"), "ketbra: {result}");
}

#[test]
fn test_dddot_single_char() {
    let result = convert_formatting(r"\dddot{x}");
    assert!(result.contains("x") && result.contains("\u{20DB}"), "dddot: {result}");
}

#[test]
fn test_ddddot_single_char() {
    let result = convert_formatting(r"\ddddot{x}");
    assert!(result.contains("x") && result.contains("\u{20DC}"), "ddddot: {result}");
}

#[test]
fn test_endnote() {
    let result = convert_formatting(r"text\endnote{a note}more");
    assert_eq!(result, "text a note more");
}

#[test]
fn unicode_script_mapping() {
    assert_eq!(to_unicode_script('2', true), '\u{00B2}');
    assert_eq!(to_unicode_script('2', false), '\u{2082}');
    assert_eq!(to_unicode_script('n', true), '\u{207F}');
    assert_eq!(to_unicode_script('n', false), 'n');
    assert_eq!(to_unicode_script('x', true), 'x');
}

#[test]
fn starred_single_arg_left_alone() {
    assert_eq!(convert_formatting(r"\emph*{x}"), r"\emph*{x}");
}

#[test]
fn binom_and_frac_in_math_kept() {
    assert_eq!(convert_formatting(r"$\tfrac{1}{2}$ \tfrac{1}{2}"), r"$\tfrac{1}{2}$ 1/2");
}

#[test]
fn braket_single_argument() {
    assert_eq!(convert_formatting(r"\braket{x}"), "\u{27E8}x\u{27E9}");
}

#[test]
fn email_before_capital_becomes_space() {
    assert_eq!(convert_formatting(r"\email John"), r"\email John");
    assert_eq!(convert_formatting(r"\emailJohn"), " John");
}

#[test]
fn unclosed_argument_runs_to_end() {
    assert_eq!(convert_formatting("\\textbf{unclosed text"), "**unclosed text**");
}
