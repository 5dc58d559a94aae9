use latex_extract::diacritics::convert_diacritics;
#[test]
fn test_cedilla() {
    assert_eq!(convert_diacritics(r"\c{c}"), "ç");
    assert_eq!(convert_diacritics(r"\c{C}"), "Ç");
}

#[test]
fn test_ss() {
    assert_eq!(convert_diacritics(r"\ss "), "ß ");
    assert_eq!(convert_diacritics(r"\ss"), "ß");
}

#[test]
fn test_ae_oe() {
    assert_eq!(convert_diacritics(r"\ae "), "æ ");
    assert_eq!(convert_diacritics(r"\oe "), "œ ");
}

#[test]
fn test_acute_braced() {
    assert_eq!(convert_diacritics(r"\'{e}"), "é");
}

#[test]
fn test_acute_bare() {
    assert_eq!(convert_diacritics(r"\'e"), "é");
}

#[test]
fn test_grave() {
    assert_eq!(convert_diacritics(r"\`{a}"), "à");
}

#[test]
fn test_circumflex() {
    assert_eq!(convert_diacritics(r"\^{o}"), "ô");
}

#[test]
fn test_diaeresis() {
    assert_eq!(convert_diacritics(r#"\"u"#), "ü");
    assert_eq!(convert_diacritics(r#"\"{u}"#), "ü");
}

#[test]
fn test_tilde() {
    assert_eq!(convert_diacritics(r"\~{n}"), "ñ");
}

#[test]
fn test_caron() {
    assert_eq!(convert_diacritics(r"\v{c}"), "č");
}

#[test]
fn test_o_slash() {
    assert_eq!(convert_diacritics(r"\o "), "ø ");
}

#[test]
fn test_l_stroke() {
    assert_eq!(convert_diacritics(r"\l "), "ł ");
}

#[test]
fn test_dotless_i() {
    assert_eq!(convert_diacritics(r"\i "), "ı ");
}

#[test]
fn test_word_boundary() {
    // \oplus should NOT match \o + plus
    let result = convert_diacritics(r"\oplus");
    assert_eq!(result, r"\oplus");
}

#[test]
fn test_combined_diacritics() {
    let result = convert_diacritics(r#"Schr\"odinger"#);
    assert_eq!(result, "Schrödinger");
}

#[test]
fn test_bare_v_still_works() {
    assert_eq!(convert_diacritics(r"\v{c}"), "č");
}

#[test]
fn test_bare_accent_not_inside_command() {
    let result = convert_diacritics(r"\vskip");
    assert_eq!(result, r"\vskip");
}

#[test]
fn test_bare_b_not_inside_command() {
    let result = convert_diacritics(r"\baselineskip");
    assert_eq!(result, r"\baselineskip");
}

#[test]
fn test_bare_d_not_dots() {
    let result = convert_diacritics(r"\dots");
    assert_eq!(result, r"\dots");
}

#[test]
fn test_bare_r_not_rm_followed() {
    let result = convert_diacritics(r"\rmfamily");
    assert_eq!(result, r"\rmfamily");
}

#[test]
fn test_cafe_still_works() {
    assert_eq!(convert_diacritics(r"Caf\'e"), "Café");
}

#[test]
fn test_hacek_uppercase_c() {
    assert_eq!(convert_diacritics(r"\v{C}"), "Č");
}

#[test]
fn test_cadez_name() {
    assert_eq!(convert_diacritics(r"\v{C}ade\v{z}"), "Čadež");
}

#[test]
fn test_hacek_s_z() {
    assert_eq!(convert_diacritics(r"\v{S}"), "Š");
    assert_eq!(convert_diacritics(r"\v{z}"), "ž");
}

#[test]
fn test_hacek_dotless_i() {
    assert_eq!(convert_diacritics(r"\v{\i}"), "ǐ");
}

#[test]
fn test_not_equals() {
    let result = convert_diacritics(r"\not=");
    assert!(result.contains("=") && result.contains("\u{0338}"), "not=: {result}");
}

#[test]
fn test_not_boundary() {
    let result = convert_diacritics(r"\nothing");
    assert_eq!(result, r"\nothing");
}
