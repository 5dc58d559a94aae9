use latex_extract::braces::{extract_command_arg, find_braced_group, find_command_end, skip_optional_arg};
#[test]
fn test_simple_braces() {
    let s = "{hello}";
    assert_eq!(find_braced_group(s, 0), Some((1, 6)));
    assert_eq!(&s[1..6], "hello");
}

#[test]
fn test_nested_braces() {
    let s = "{a {b {c} d} e}";
    assert_eq!(find_braced_group(s, 0), Some((1, 14)));
    assert_eq!(&s[1..14], "a {b {c} d} e");
}

#[test]
fn test_escaped_brace() {
    let s = r"{hello \} world}";
    assert_eq!(find_braced_group(s, 0), Some((1, 15)));
    assert_eq!(&s[1..15], r"hello \} world");
}

#[test]
fn test_no_opening_brace() {
    assert_eq!(find_braced_group("hello", 0), None);
}

#[test]
fn test_unmatched_brace() {
    assert_eq!(find_braced_group("{hello", 0), None);
}

#[test]
fn test_extract_command_arg() {
    let s = r"\section{Introduction}";
    let cmd_end = find_command_end(s, 0);
    assert_eq!(cmd_end, 8); // after "section"
    let (cs, ce, after) = extract_command_arg(s, cmd_end).unwrap();
    assert_eq!(&s[cs..ce], "Introduction");
    assert_eq!(after, s.len());
}

#[test]
fn test_extract_command_arg_with_whitespace() {
    let s = r"\section  {Introduction}";
    let cmd_end = find_command_end(s, 0);
    let (cs, ce, _) = extract_command_arg(s, cmd_end).unwrap();
    assert_eq!(&s[cs..ce], "Introduction");
}

#[test]
fn test_extract_nested_command_arg() {
    let s = r"\title{The $\mathcal{O}(n)$ Algorithm}";
    let cmd_end = find_command_end(s, 0);
    let (cs, ce, _) = extract_command_arg(s, cmd_end).unwrap();
    assert_eq!(&s[cs..ce], r"The $\mathcal{O}(n)$ Algorithm");
}

#[test]
fn test_skip_optional_arg() {
    let s = r"[short title]{Full Title}";
    let after_opt = skip_optional_arg(s, 0);
    assert_eq!(after_opt, 13); // one past "]"
}

#[test]
fn test_skip_optional_arg_none() {
    let s = r"{Full Title}";
    let after_opt = skip_optional_arg(s, 0);
    assert_eq!(after_opt, 0); // unchanged
}

#[test]
fn test_find_command_end() {
    assert_eq!(find_command_end(r"\section rest", 0), 8);
    assert_eq!(find_command_end(r"\section* rest", 0), 9);
    assert_eq!(find_command_end(r"\# text", 0), 2);
    assert_eq!(find_command_end(r"\begin{doc}", 0), 6);
}

#[test]
fn test_deeply_nested() {
    let s = r"{\textbf{A \emph{very \textit{important}} paper}}";
    let (cs, ce) = find_braced_group(s, 0).unwrap();
    assert_eq!(&s[cs..ce], r"\textbf{A \emph{very \textit{important}} paper}");
}
