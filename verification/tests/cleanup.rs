use latex_extract::cleanup::{cleanup, find_math_regions, reflow_paragraphs, strip_pre_diacritic_commands};
#[test]
fn test_spacing_commands() {
    assert_eq!(cleanup(r"\quad text"), "text");
    assert_eq!(cleanup(r"\hspace{1cm}text"), "text");
}

#[test]
fn test_line_break() {
    let result = cleanup(r"line1\\line2");
    assert!(result.contains("line1"));
    assert!(result.contains("line2"));
}

#[test]
fn test_phantom_removed() {
    assert_eq!(cleanup(r"\phantom{x}text"), "text");
}

#[test]
fn test_font_switch() {
    let result = cleanup(r"{\it italic}");
    assert_eq!(result, "italic");
}

#[test]
fn test_protect_removed() {
    let result = cleanup(r"\protect\foo{bar}");
    assert_eq!(result, "bar");
}

#[test]
fn test_generic_unwrap() {
    let result = cleanup(r"\unknown{content}");
    assert_eq!(result, "content");
}

#[test]
fn test_grouping_braces() {
    let result = cleanup("some {grouped} text");
    assert_eq!(result, "some grouped text");
}

#[test]
fn test_orphan_command_removed() {
    let result = cleanup(r"\somecommand rest");
    assert!(result.contains("rest"));
    assert!(!result.contains("somecommand"));
}

#[test]
fn test_math_command_preserved() {
    let result = cleanup(r"\frac rest");
    assert!(result.contains("\\frac"));
}

#[test]
fn test_whitespace_collapse() {
    let result = cleanup("a   b   c");
    assert_eq!(result, "a b c");
}

#[test]
fn test_blank_line_collapse() {
    let result = cleanup("a\n\n\n\nb");
    assert_eq!(result, "a\n\nb");
}

#[test]
fn test_leaked_newcommand() {
    let result = cleanup(r"\newcommand{\foo}{bar} text");
    assert_eq!(result.trim(), "text");
}

#[test]
fn test_math_subscript_preserved() {
    let result = cleanup(r"$X_{max}$");
    assert_eq!(result, r"$X_{max}$");
}

#[test]
fn test_math_frac_preserved() {
    let result = cleanup(r"$\frac{1}{2}$");
    assert_eq!(result, r"$\frac{1}{2}$");
}

#[test]
fn test_math_sqrt_preserved() {
    let result = cleanup(r"$\sqrt{x+1}$");
    assert_eq!(result, r"$\sqrt{x+1}$");
}

#[test]
fn test_display_math_frac_preserved() {
    let result = cleanup(r"$$\frac{a}{b}$$");
    assert_eq!(result, r"$$\frac{a}{b}$$");
}

#[test]
fn test_non_math_still_unwraps() {
    let result = cleanup(r"\unknown{content}");
    assert_eq!(result, "content");
}

#[test]
fn test_inline_math_paren_content_preserved() {
    // \( and \) lose backslashes via strip_stray_backslashes,
    // but the math content inside must be preserved
    let result = cleanup(r"\(\frac{x}{y}\)");
    assert!(result.contains(r"\frac{x}{y}"));
}

#[test]
fn test_find_math_regions_basic() {
    let regions = find_math_regions(r"text $x_{max}$ more $$\frac{a}{b}$$");
    assert_eq!(regions.len(), 2);
}

#[test]
fn test_escaped_dollar_not_math() {
    let regions = find_math_regions(r"costs \$5 not math");
    assert_eq!(regions.len(), 0);
}

#[test]
fn test_find_math_regions_named_env() {
    let input = r"text \begin{equation}x^2\end{equation} more";
    let regions = find_math_regions(input);
    assert_eq!(regions.len(), 1);
    let (s, e) = regions[0];
    assert!(input[s..e].contains("x^2"));
}

#[test]
fn test_find_math_regions_merge_overlapping() {
    // $$ inside a named env should merge into one region
    let input = r"\begin{equation}$$x$$\end{equation}";
    let regions = find_math_regions(input);
    assert_eq!(regions.len(), 1, "overlapping regions should merge");
}

#[test]
fn test_reflow_joins_paragraph_lines() {
    let input = "This is a line\nthat continues here.";
    let result = reflow_paragraphs(input);
    assert_eq!(result, "This is a line that continues here.");
}

#[test]
fn test_reflow_preserves_paragraph_breaks() {
    let input = "First paragraph.\n\nSecond paragraph.";
    let result = reflow_paragraphs(input);
    assert_eq!(result, "First paragraph.\n\nSecond paragraph.");
}

#[test]
fn test_reflow_preserves_headings() {
    let input = "Some text.\n## Heading\nMore text.";
    let result = reflow_paragraphs(input);
    assert!(result.contains("\n## Heading\n"), "heading preserved: {result}");
}

#[test]
fn test_reflow_preserves_list_items() {
    let input = "- Item one\n- Item two";
    let result = reflow_paragraphs(input);
    assert_eq!(result, "- Item one\n- Item two");
}

#[test]
fn test_reflow_preserves_display_math() {
    let input = "Text before\n$$\nE = mc^2\n$$\nText after";
    let result = reflow_paragraphs(input);
    assert!(result.contains("\n$$\n"), "display math preserved: {result}");
}

#[test]
fn test_pre_diacritic_vskip() {
    let result = strip_pre_diacritic_commands(r"\vskip 1cm some text");
    assert!(result.contains("some text"));
    assert!(!result.contains("vskip"));
}

#[test]
fn test_pre_diacritic_baselineskip() {
    let result = strip_pre_diacritic_commands(r"\baselineskip=16pt some text");
    assert!(result.contains("some text"));
    assert!(!result.contains("baselineskip"));
}

#[test]
fn test_pre_diacritic_font_switches() {
    let result = strip_pre_diacritic_commands(r"{\bf bold text}");
    assert!(result.contains("bold text"));
    assert!(!result.contains("\\bf"));
}

#[test]
fn test_pre_diacritic_noop() {
    let result = strip_pre_diacritic_commands(r"\relax\par some text");
    assert!(result.contains("some text"));
    assert!(!result.contains("relax"));
    assert!(!result.contains("\\par"));
}

#[test]
fn test_pre_diacritic_pagestyle() {
    let result = strip_pre_diacritic_commands(r"\pagestyle{plain} text");
    assert!(result.contains("text"));
    assert!(!result.contains("pagestyle"));
    assert!(!result.contains("plain"));
}

#[test]
fn test_pre_diacritic_setcounter() {
    let result = strip_pre_diacritic_commands(r"\setcounter{page}{1} text");
    assert!(result.contains("text"));
    assert!(!result.contains("setcounter"));
}

#[test]
fn test_pre_diacritic_kern() {
    let result = strip_pre_diacritic_commands(r"\kern 3pt text");
    assert!(result.contains("text"));
    assert!(!result.contains("kern"));
}

#[test]
fn test_pre_diacritic_penalty() {
    let result = strip_pre_diacritic_commands(r"\penalty 10000 text");
    assert!(result.contains("text"));
    assert!(!result.contains("penalty"));
}

#[test]
fn test_addcontentsline_stripped() {
    let result = strip_pre_diacritic_commands(r"\addcontentsline{toc}{section}{Intro} text");
    assert!(result.contains("text"));
    assert!(!result.contains("addcontentsline"));
    assert!(!result.contains("toc"));
}

#[test]
fn math_regions_are_sorted_and_apart() {
    let input = r"$a$ \(b\) \[c\] $$d$$ \begin{align}e\end{align}";
    let regions = find_math_regions(input);
    assert_eq!(regions.len(), 5);
    for w in regions.windows(2) {
        assert!(w[0].1 < w[1].0);
    }
    assert_eq!(&input[regions[0].0..regions[0].1], "$a$");
    assert_eq!(&input[regions[1].0..regions[1].1], r"\(b\)");
}

#[test]
fn unclosed_dollar_is_no_region() {
    assert!(find_math_regions("costs $5 today").is_empty());
}

#[test]
fn spacing_star_and_argument_removed() {
    assert_eq!(cleanup(r"a\hspace*{2em}b"), "a b");
}

#[test]
fn font_switch_prefix_of_longer_command_kept() {
    let r = strip_pre_diacritic_commands(r"\itemize \it x");
    assert!(r.contains("\\itemize"));
    assert!(!r.contains("\\it "));
}

#[test]
fn reflow_keeps_bold_label_line() {
    assert_eq!(reflow_paragraphs("text\n**Label**"), "text\n**Label**");
}

#[test]
fn stray_backslash_dropped() {
    assert_eq!(cleanup(r"a \, b"), "a , b");
}

#[test]
fn grouping_brace_inside_math_kept() {
    assert_eq!(cleanup("{x} $x^{2}$"), "x $x^{2}$");
}
