use latex_extract::symbols::convert_symbols;
use latex_extract::replacer::CommandReplacer;
#[test]
fn test_command_replacer_basic() {
    let r = CommandReplacer::new(&[("\\alpha", "α"), ("\\beta", "β")]);
    assert_eq!(r.replace_all("\\alpha + \\beta"), "α + β");
}

#[test]
fn test_command_replacer_boundary() {
    let r = CommandReplacer::new(&[("\\in", "∈"), ("\\infty", "∞")]);
    // \infty should match as a whole, not as \in + fty
    assert_eq!(r.replace_all("\\infty"), "∞");
    // \in followed by non-alpha
    assert_eq!(r.replace_all("x \\in S"), "x ∈ S");
    // \in followed by alpha (not via \infty) — should NOT match
    assert_eq!(r.replace_all("\\input"), "\\input");
}

#[test]
fn test_command_replacer_at_eof() {
    let r = CommandReplacer::new(&[("\\alpha", "α")]);
    assert_eq!(r.replace_all("\\alpha"), "α");
}

#[test]
fn test_command_replacer_followed_by_digit() {
    let r = CommandReplacer::new(&[("\\alpha", "α")]);
    // Digits are not [a-zA-Z], so boundary check passes
    assert_eq!(r.replace_all("\\alpha123"), "α123");
}

#[test]
fn test_command_replacer_followed_by_backslash() {
    let r = CommandReplacer::new(&[("\\alpha", "α"), ("\\beta", "β")]);
    // \alpha followed by \beta — backslash is not [a-zA-Z], so \alpha matches
    assert_eq!(r.replace_all("\\alpha\\beta"), "αβ");
}

#[test]
fn test_convert_symbols_ligatures() {
    assert_eq!(convert_symbols("``hello''"), "\u{201c}hello\u{201d}");
    assert_eq!(convert_symbols("a---b"), "a\u{2014}b");
    assert_eq!(convert_symbols("a--b"), "a\u{2013}b");
    assert_eq!(convert_symbols("a~b"), "a b");
}

#[test]
fn test_convert_symbols_escaped() {
    assert_eq!(convert_symbols("10\\% tax"), "10% tax");
    assert_eq!(convert_symbols("A \\& B"), "A & B");
}

#[test]
fn test_convert_symbols_greek() {
    let result = convert_symbols("\\alpha + \\beta = \\gamma");
    assert_eq!(result, "α + β = γ");
}

#[test]
fn test_convert_symbols_math() {
    let result = convert_symbols("x \\leq y \\rightarrow z");
    assert_eq!(result, "x ≤ y → z");
}

#[test]
fn test_subset_vs_subseteq() {
    let result = convert_symbols("A \\subseteq B \\subset C");
    assert_eq!(result, "A ⊆ B ⊂ C");
}

#[test]
fn test_lesssim() {
    assert_eq!(convert_symbols("\\lesssim"), "\u{2272}");
}

#[test]
fn test_vdash() {
    assert_eq!(convert_symbols("\\vdash"), "\u{22a2}");
}

#[test]
fn test_langle_rangle() {
    let result = convert_symbols("\\langle x \\rangle");
    assert_eq!(result, "\u{27e8} x \u{27e9}");
}

#[test]
fn test_hookrightarrow() {
    assert_eq!(convert_symbols("\\hookrightarrow"), "\u{21aa}");
}

#[test]
fn test_triangle_square() {
    assert_eq!(convert_symbols("\\triangle"), "\u{25b3}");
    assert_eq!(convert_symbols("\\square"), "\u{25a1}");
}

#[test]
fn test_setminus() {
    assert_eq!(convert_symbols("A \\setminus B"), "A \u{2216} B");
}

#[test]
fn test_colon() {
    assert_eq!(convert_symbols("f\\colon A"), "f: A");
}

#[test]
fn test_vert_delimiters() {
    assert_eq!(convert_symbols("\\lvert x \\rvert"), "| x |");
    assert_eq!(convert_symbols("\\lVert x \\rVert"), "\u{2016} x \u{2016}");
}

#[test]
fn test_varprojlim_varinjlim() {
    assert_eq!(convert_symbols("\\varprojlim"), "proj lim");
    assert_eq!(convert_symbols("\\varinjlim"), "inj lim");
}

#[test]
fn test_mathbb_r() {
    assert_eq!(convert_symbols("\\mathbb{R}"), "\u{211D}");
}

#[test]
fn test_mathbb_z() {
    assert_eq!(convert_symbols("\\mathbb{Z}"), "\u{2124}");
}

#[test]
fn test_mathbb_full_alphabet() {
    // Uppercase with dedicated codepoints
    assert_eq!(convert_symbols("\\mathbb{C}"), "\u{2102}");
    assert_eq!(convert_symbols("\\mathbb{N}"), "\u{2115}");
    // Uppercase from supplementary plane
    assert_eq!(convert_symbols("\\mathbb{A}"), "\u{1D538}");
    assert_eq!(convert_symbols("\\mathbb{X}"), "\u{1D54F}");
    // Lowercase
    assert_eq!(convert_symbols("\\mathbb{a}"), "\u{1D552}");
    assert_eq!(convert_symbols("\\mathbb{z}"), "\u{1D56B}");
    // Digits
    assert_eq!(convert_symbols("\\mathbb{0}"), "\u{1D7D8}");
    assert_eq!(convert_symbols("\\mathbb{9}"), "\u{1D7E1}");
}

#[test]
fn test_bbb_alias() {
    assert_eq!(convert_symbols("\\Bbb{R}"), "\u{211D}");
}

#[test]
fn test_mathcal() {
    assert_eq!(convert_symbols("\\mathcal{A}"), "\u{1D49C}");
    assert_eq!(convert_symbols("\\mathcal{B}"), "\u{212C}");
    assert_eq!(convert_symbols("\\mathscr{H}"), "\u{210B}");
}

#[test]
fn test_mathfrak() {
    assert_eq!(convert_symbols("\\mathfrak{A}"), "\u{1D504}");
    assert_eq!(convert_symbols("\\mathfrak{C}"), "\u{212D}");
    assert_eq!(convert_symbols("\\mathfrak{a}"), "\u{1D51E}");
}

#[test]
fn test_mathsf() {
    assert_eq!(convert_symbols("\\mathsf{A}"), "\u{1D5A0}");
    assert_eq!(convert_symbols("\\mathsf{a}"), "\u{1D5BA}");
}

#[test]
fn test_big_operators() {
    assert_eq!(convert_symbols("\\sum"), "\u{2211}");
    assert_eq!(convert_symbols("\\prod"), "\u{220F}");
    assert_eq!(convert_symbols("\\int"), "\u{222B}");
    assert_eq!(convert_symbols("\\oint"), "\u{222E}");
}

#[test]
fn test_hebrew() {
    assert_eq!(convert_symbols("\\aleph"), "\u{2135}");
}

#[test]
fn test_spacing_symbols() {
    assert_eq!(convert_symbols("a\\,b"), "a\u{2009}b");
    assert_eq!(convert_symbols("a\\;b"), "a\u{205F}b");
    assert_eq!(convert_symbols("a\\!b"), "ab");
}

#[test]
fn test_inverted_punct() {
    assert_eq!(convert_symbols("!`Hola"), "\u{00A1}Hola");
    assert_eq!(convert_symbols("?`Que"), "\u{00BF}Que");
    // Double backtick should NOT be treated as inverted punct
    assert_eq!(convert_symbols("!``hello''"), "!\u{201c}hello\u{201d}");
}

#[test]
fn test_new_arrows() {
    assert_eq!(convert_symbols("\\Uparrow"), "\u{21D1}");
    assert_eq!(convert_symbols("\\nearrow"), "\u{2197}");
    assert_eq!(convert_symbols("\\Longrightarrow"), "\u{27F9}");
}

#[test]
fn test_text_commands_expanded() {
    assert_eq!(convert_symbols("\\textcopyright"), "\u{00A9}");
    assert_eq!(convert_symbols("\\texteuro"), "\u{20AC}");
    assert_eq!(convert_symbols("\\textonehalf"), "\u{00BD}");
}

#[test]
fn test_greek_variants() {
    assert_eq!(convert_symbols("\\varpi"), "\u{03D6}");
    assert_eq!(convert_symbols("\\varrho"), "\u{03F1}");
    assert_eq!(convert_symbols("\\varsigma"), "\u{03C2}");
    assert_eq!(convert_symbols("\\digamma"), "\u{03DD}");
}

#[test]
fn test_upright_greek() {
    assert_eq!(convert_symbols("\\upalpha"), "\u{03b1}");
    assert_eq!(convert_symbols("\\upomega"), "\u{03c9}");
}

#[test]
fn test_delimiter_names() {
    assert_eq!(convert_symbols("\\lbrace"), "{");
    assert_eq!(convert_symbols("\\rbrace"), "}");
    assert_eq!(convert_symbols("\\vert"), "|");
    assert_eq!(convert_symbols("\\Vert"), "\u{2016}");
}

#[test]
fn test_pipe_delimiter() {
    assert_eq!(convert_symbols("\\|"), "\u{2016}");
}
