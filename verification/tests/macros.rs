use latex_extract::macros::{collect_macros, collect_newtheorems, collect_parametric_macros, expand_macros, expand_parametric_macros, normalize_shorthands, substitute_args, ParametricMacro, LARGE_INPUT_THRESHOLD, MAX_EXPANSION_GROWTH_RATIO};
use latex_extract::macros::{expand_macros_cancellable, expand_parametric_macros_cancellable};
use latex_extract::textmap::TextMap;
use std::sync::atomic::AtomicBool;
#[test]
fn test_collect_newcommand() {
    let input = r"\newcommand{\foo}{bar baz}";
    let macros = collect_macros(input);
    assert_eq!(macros.get("\\foo").unwrap(), "bar baz");
}

#[test]
fn test_collect_newcommand_star() {
    let input = r"\newcommand*{\foo}{bar}";
    let macros = collect_macros(input);
    assert_eq!(macros.get("\\foo").unwrap(), "bar");
}

#[test]
fn test_skip_macro_with_args() {
    let input = r"\newcommand{\foo}[1]{bar #1}";
    let macros = collect_macros(input);
    assert!(macros.is_empty());
}

#[test]
fn test_collect_def() {
    let input = r"\def\myname{John Doe}";
    let macros = collect_macros(input);
    assert_eq!(macros.get("\\myname").unwrap(), "John Doe");
}

#[test]
fn test_skip_def_with_args() {
    let input = r"\def\foo#1{bar #1}";
    let macros = collect_macros(input);
    assert!(macros.is_empty());
}

#[test]
fn test_skip_protected() {
    let input = r"\newcommand{\section}{custom}";
    let macros = collect_macros(input);
    assert!(macros.is_empty());
}

#[test]
fn test_nested_body() {
    let input = r"\newcommand{\foo}{\textbf{nested {braces}}}";
    let macros = collect_macros(input);
    assert_eq!(
        macros.get("\\foo").unwrap(),
        r"\textbf{nested {braces}}"
    );
}

#[test]
fn test_expand_macros() {
    let mut macros = TextMap::new();
    macros.insert("\\foo".to_string(), "bar".to_string());
    assert_eq!(expand_macros("\\foo is good", &macros), "bar is good");
}

#[test]
fn test_expand_macros_boundary() {
    let mut macros = TextMap::new();
    macros.insert("\\foo".to_string(), "bar".to_string());
    // \foobar should NOT be expanded
    assert_eq!(expand_macros("\\foobar", &macros), "\\foobar");
}

#[test]
fn test_expand_macros_at_eof() {
    let mut macros = TextMap::new();
    macros.insert("\\foo".to_string(), "bar".to_string());
    assert_eq!(expand_macros("\\foo", &macros), "bar");
}

#[test]
fn test_expand_macros_chain() {
    let mut macros = TextMap::new();
    macros.insert("\\foo".to_string(), "\\bar".to_string());
    macros.insert("\\bar".to_string(), "final".to_string());
    assert_eq!(expand_macros("\\foo", &macros), "final");
}

#[test]
fn test_expand_macros_three_level_chain() {
    let mut macros = TextMap::new();
    macros.insert("\\aaa".to_string(), "\\bbb".to_string());
    macros.insert("\\bbb".to_string(), "\\ccc".to_string());
    macros.insert("\\ccc".to_string(), "done".to_string());
    assert_eq!(expand_macros("\\aaa", &macros), "done");
}

#[test]
fn test_expand_macros_large_input_cap() {
    let mut macros = TextMap::new();
    macros.insert("\\aaa".to_string(), "\\bbb".to_string());
    macros.insert("\\bbb".to_string(), "\\ccc".to_string());
    macros.insert("\\ccc".to_string(), "done".to_string());

    // Input above LARGE_INPUT_THRESHOLD still resolves a 3-level chain
    let mut large_input = "x".repeat(LARGE_INPUT_THRESHOLD + 1);
    large_input.push_str("\\aaa");

    let result = expand_macros(&large_input, &macros);
    assert!(
        result.ends_with("done"),
        "3-level chain should resolve with 3 passes on large input"
    );
}

#[test]
fn test_collect_providecommand() {
    let input = r"\providecommand{\foo}{bar}";
    let macros = collect_macros(input);
    assert_eq!(macros.get("\\foo").unwrap(), "bar");
}

#[test]
fn test_collect_providecommand_star() {
    let input = r"\providecommand*{\foo}{bar}";
    let macros = collect_macros(input);
    assert_eq!(macros.get("\\foo").unwrap(), "bar");
}

#[test]
fn test_collect_parametric_newcommand() {
    let input = r"\newcommand{\vect}[1]{\mathbf{#1}}";
    let macros = collect_parametric_macros(input);
    assert_eq!(macros.len(), 1);
    assert_eq!(macros[0].name, "\\vect");
    assert_eq!(macros[0].num_args, 1);
    assert_eq!(macros[0].body, "\\mathbf{#1}");
    assert!(macros[0].optional_default.is_none());
}

#[test]
fn test_collect_parametric_two_args() {
    let input = r"\newcommand{\inner}[2]{\langle #1, #2 \rangle}";
    let macros = collect_parametric_macros(input);
    assert_eq!(macros.len(), 1);
    assert_eq!(macros[0].num_args, 2);
    assert_eq!(macros[0].body, "\\langle #1, #2 \\rangle");
}

#[test]
fn test_collect_parametric_with_optional_default() {
    let input = r"\newcommand{\greet}[2][Hello]{#1, #2!}";
    let macros = collect_parametric_macros(input);
    assert_eq!(macros.len(), 1);
    assert_eq!(macros[0].num_args, 2);
    assert_eq!(macros[0].optional_default.as_deref(), Some("Hello"));
    assert_eq!(macros[0].body, "#1, #2!");
}

#[test]
fn test_collect_parametric_def() {
    let input = r"\def\foo#1#2{#1 + #2}";
    let macros = collect_parametric_macros(input);
    assert_eq!(macros.len(), 1);
    assert_eq!(macros[0].name, "\\foo");
    assert_eq!(macros[0].num_args, 2);
    assert_eq!(macros[0].body, "#1 + #2");
}

#[test]
fn test_collect_parametric_skip_protected() {
    let input = r"\newcommand{\section}[1]{custom #1}";
    let macros = collect_parametric_macros(input);
    assert!(macros.is_empty());
}

#[test]
fn test_collect_parametric_renewcommand_dedup() {
    let input = r"\newcommand{\foo}[1]{first #1}
\renewcommand{\foo}[1]{second #1}";
    let macros = collect_parametric_macros(input);
    assert_eq!(macros.len(), 1);
    assert_eq!(macros[0].body, "second #1");
}

#[test]
fn test_collect_parametric_providecommand() {
    let input = r"\providecommand{\foo}[1]{provided #1}";
    let macros = collect_parametric_macros(input);
    assert_eq!(macros.len(), 1);
    assert_eq!(macros[0].name, "\\foo");
}

#[test]
fn test_simple_macros_still_skip_parametric() {
    let input = r"\newcommand{\foo}[1]{bar #1}";
    let simple = collect_macros(input);
    assert!(simple.is_empty(), "collect_macros should skip parametric");
}

#[test]
fn test_expand_parametric_single_arg() {
    let macros = vec![ParametricMacro {
        name: "\\vect".into(),
        num_args: 1,
        body: "\\mathbf{#1}".into(),
        optional_default: None,
    }];
    let result = expand_parametric_macros("\\vect{x}", &macros);
    assert_eq!(result, "\\mathbf{x}");
}

#[test]
fn test_expand_parametric_two_args() {
    let macros = vec![ParametricMacro {
        name: "\\foo".into(),
        num_args: 2,
        body: "#1 + #2".into(),
        optional_default: None,
    }];
    let result = expand_parametric_macros("\\foo{a}{b}", &macros);
    assert_eq!(result, "a + b");
}

#[test]
fn test_expand_parametric_with_default() {
    let macros = vec![ParametricMacro {
        name: "\\greet".into(),
        num_args: 2,
        body: "#1, #2!".into(),
        optional_default: Some("Hello".into()),
    }];
    // Without optional arg: uses default
    assert_eq!(
        expand_parametric_macros("\\greet{World}", &macros),
        "Hello, World!"
    );
    // With explicit optional arg
    assert_eq!(
        expand_parametric_macros("\\greet[Hi]{World}", &macros),
        "Hi, World!"
    );
}

#[test]
fn test_expand_parametric_word_boundary() {
    let macros = vec![ParametricMacro {
        name: "\\foo".into(),
        num_args: 1,
        body: "X".into(),
        optional_default: None,
    }];
    // \foobar should NOT match \foo
    assert_eq!(
        expand_parametric_macros("\\foobar{x}", &macros),
        "\\foobar{x}"
    );
}

#[test]
fn test_expand_parametric_no_args_available() {
    let macros = vec![ParametricMacro {
        name: "\\foo".into(),
        num_args: 1,
        body: "#1".into(),
        optional_default: None,
    }];
    // \foo without braced arg should be left as-is
    assert_eq!(
        expand_parametric_macros("\\foo is here", &macros),
        "\\foo is here"
    );
}

#[test]
fn test_expand_parametric_nested_braces() {
    let macros = vec![ParametricMacro {
        name: "\\wrap".into(),
        num_args: 1,
        body: "[#1]".into(),
        optional_default: None,
    }];
    assert_eq!(
        expand_parametric_macros("\\wrap{a {b} c}", &macros),
        "[a {b} c]"
    );
}

#[test]
fn test_expand_parametric_multiple_occurrences() {
    let macros = vec![ParametricMacro {
        name: "\\b".into(),
        num_args: 1,
        body: "**#1**".into(),
        optional_default: None,
    }];
    assert_eq!(
        expand_parametric_macros("\\b{x} and \\b{y}", &macros),
        "**x** and **y**"
    );
}

#[test]
fn test_expand_parametric_nested_macros() {
    let macros = vec![
        ParametricMacro {
            name: "\\vect".into(),
            num_args: 1,
            body: "\\mathbf{#1}".into(),
            optional_default: None,
        },
        ParametricMacro {
            name: "\\inner".into(),
            num_args: 2,
            body: "\\langle #1, #2 \\rangle".into(),
            optional_default: None,
        },
    ];
    assert_eq!(
        expand_parametric_macros("\\inner{\\vect{x}}{\\vect{y}}", &macros),
        "\\langle \\mathbf{x}, \\mathbf{y} \\rangle"
    );
}

#[test]
fn test_expand_parametric_escaped_hash() {
    let macros = vec![ParametricMacro {
        name: "\\foo".into(),
        num_args: 1,
        body: "#1 has a ## sign".into(),
        optional_default: None,
    }];
    assert_eq!(
        expand_parametric_macros("\\foo{test}", &macros),
        "test has a # sign"
    );
}

#[test]
fn test_substitute_args_no_interference() {
    // Ensure #2 in the value of #1 doesn't get substituted as arg 2
    let args = vec!["#2".to_string(), "real2".to_string()];
    let result = substitute_args("#1 and #2", &args);
    assert_eq!(result, "#2 and real2");
}

#[test]
fn test_substitute_args_trailing_hash() {
    // Trailing '#' with nothing after it must not cause infinite loop
    let result = substitute_args("text#", &["arg1".to_string()]);
    assert_eq!(result, "text#");
}

#[test]
fn test_normalize_shorthands_be() {
    assert_eq!(normalize_shorthands("\\be x \\ee"), "\\begin{equation} x \\end{equation}");
}

#[test]
fn test_normalize_shorthands_bea() {
    assert_eq!(normalize_shorthands("\\bea x \\eea"), "\\begin{eqnarray} x \\end{eqnarray}");
}

#[test]
fn test_normalize_shorthands_ba() {
    assert_eq!(normalize_shorthands("\\ba x \\ea"), "\\begin{align} x \\end{align}");
}

#[test]
fn test_normalize_shorthands_no_collision_begin() {
    // \begin should NOT be affected by \be
    assert_eq!(normalize_shorthands("\\begin{document}"), "\\begin{document}");
}

#[test]
fn test_normalize_shorthands_no_collision_beta() {
    // \beta should NOT be affected by \be
    assert_eq!(normalize_shorthands("\\beta"), "\\beta");
}

#[test]
fn test_expand_macros_bounded_on_mutually_recursive() {
    // Simulates the pathology seen in real arXiv papers:
    // Each pass through Aho-Corasick multiplies occurrences of \a and \b.
    // Without a growth cap, 5 passes produce 3^5 = 243× the input,
    // and a 50 KB input reaches 800 MB (observed on 2509.15163).
    let mut macros = TextMap::new();
    macros.insert("\\a".to_string(), "\\b\\b\\b".to_string());
    macros.insert("\\b".to_string(), "\\a\\a\\a".to_string());

    let input = "\\a".repeat(100); // 200 bytes
    let result = expand_macros(&input, &macros);

    // Growth cap is MAX_EXPANSION_GROWTH_RATIO × input. Allow a small
    // overshoot for the one pass we commit before checking.
    let cap = input.len() * MAX_EXPANSION_GROWTH_RATIO;
    assert!(
        result.len() <= cap,
        "expansion exceeded {}× cap: input={} output={}",
        MAX_EXPANSION_GROWTH_RATIO,
        input.len(),
        result.len()
    );
}

#[test]
fn test_expand_macros_still_expands_benign() {
    // Non-recursive chain — must still expand fully, not trigger the cap.
    let mut macros = TextMap::new();
    macros.insert("\\foo".to_string(), "\\bar".to_string());
    macros.insert("\\bar".to_string(), "final".to_string());
    assert_eq!(expand_macros("\\foo", &macros), "final");
}

#[test]
fn test_expand_macros_respects_absolute_ceiling() {
    // If input is very small (1 byte), cumulative cap = 10 bytes, but the
    // absolute ceiling (MAX_EXPANSION_BYTES) should prevent output from
    // exceeding it regardless. Exercise the min() clamp at the low end.
    let mut macros = TextMap::new();
    macros.insert("\\x".to_string(), "y".to_string());
    // Trivial expansion — no runaway, but verifies the benign path works
    // when size_cap is computed.
    let out = expand_macros("\\x", &macros);
    assert_eq!(out, "y");
}

#[test]
fn test_expand_parametric_bounded_on_self_duplicating() {
    // Parametric pathology: a one-argument macro that duplicates its arg.
    // Expansion "\dup{\dup{x}}" still contains \dup — 2 passes double it.
    let input = "\\dup{".to_string() + &"x".repeat(50) + "}";
    let macros = vec![ParametricMacro {
        name: "\\dup".to_string(),
        num_args: 1,
        body: "\\dup{#1}\\dup{#1}".to_string(),
        optional_default: None,
    }];
    let result = expand_parametric_macros(&input, &macros);
    let cap = input.len() * MAX_EXPANSION_GROWTH_RATIO;
    assert!(
        result.len() <= cap,
        "parametric expansion exceeded {}× cap: input={} output={}",
        MAX_EXPANSION_GROWTH_RATIO,
        input.len(),
        result.len()
    );
}

#[test]
fn expand_macros_without_cancel_still_works() {
    // Regression: the non-cancellable path (the old expand_macros API)
    // must behave identically — benign macros fully expand.
    let mut macros = TextMap::new();
    macros.insert("\\foo".into(), "bar".to_string());
    let out = expand_macros("\\foo baz \\foo", &macros);
    assert_eq!(out, "bar baz bar");
}

#[test]
fn expand_macros_stops_when_cancelled() {
    // Mutually-recursive macros would expand until the pass limit; a raised
    // flag stops expansion before the first pass.
    let mut macros = TextMap::new();
    macros.insert("\\a".into(), "\\b\\b\\b".to_string());
    macros.insert("\\b".into(), "\\a\\a\\a".to_string());
    let input = "\\a".repeat(1000);
    let cancel = AtomicBool::new(true);
    let start = std::time::Instant::now();
    let out = expand_macros_cancellable(&input, &macros, Some(&cancel));
    assert!(start.elapsed() < std::time::Duration::from_millis(500));
    assert_eq!(out, input);
}

#[test]
fn cancellable_expansion_without_flag_matches_plain() {
    let mut macros = TextMap::new();
    macros.insert("\\x".into(), "y".to_string());
    assert_eq!(expand_macros_cancellable("\\x and \\x", &macros, None), "y and y");
    let not_raised = AtomicBool::new(false);
    assert_eq!(expand_macros_cancellable("\\x", &macros, Some(&not_raised)), "y");
    let params: Vec<ParametricMacro> = Vec::new();
    assert_eq!(expand_parametric_macros_cancellable("plain", &params, None), "plain");
}

#[test]
fn test_expand_without_macros_unchanged() {
    let text = r"\foo{x} \bar na\u{ef}ve";
    let none = TextMap::new();
    assert_eq!(expand_macros(text, &none), text);
    assert_eq!(expand_parametric_macros(text, &[]), text);
}

#[test]
fn test_collect_three_newtheorems() {
    let input = r"\newtheorem{theorem}{Theorem}[section]
\newtheorem*{remark}{Remark}
\newtheorem{lemma}[theorem]{Lemma}";
    let m = collect_newtheorems(input);
    assert_eq!(m.len(), 3);
    assert_eq!(m.get("theorem").unwrap(), "Theorem");
    assert_eq!(m.get("remark").unwrap(), "Remark");
    assert_eq!(m.get("lemma").unwrap(), "Lemma");
}

#[test]
fn test_parametric_expansion_keeps_unicode() {
    let macros = vec![ParametricMacro {
        name: "\\\u{e9}l\u{e8}ve".into(),
        num_args: 2,
        body: "\u{ab}#1\u{bb} \u{2192} #2 ##".into(),
        optional_default: Some("\u{3b1}".into()),
    }];
    let result = expand_parametric_macros("x \\\u{e9}l\u{e8}ve[\u{4e2d}]{\u{1d400}} y", &macros);
    assert_eq!(result, "x \u{ab}\u{4e2d}\u{bb} \u{2192} \u{1d400} # y");
    let result = expand_parametric_macros("\\\u{e9}l\u{e8}ve{\u{e9}}.", &macros);
    assert_eq!(result, "\u{ab}\u{3b1}\u{bb} \u{2192} \u{e9} #.");
}

#[test]
fn test_substitute_args_unicode() {
    let args = vec!["\u{e9}t\u{e9}".to_string(), "\u{1f600}".to_string()];
    assert_eq!(substitute_args("\u{4e2d}#1#2#3\u{4e2d}", &args), "\u{4e2d}\u{e9}t\u{e9}\u{1f600}\u{4e2d}");
}

#[test]
fn test_expand_simple_macros_unicode() {
    let mut m = TextMap::new();
    m.insert("\\\u{e9}".to_string(), "\u{3b1}\u{3b2}".to_string());
    assert_eq!(expand_macros("\u{4e2d}\\\u{e9} x", &m), "\u{4e2d}\u{3b1}\u{3b2} x");
}
