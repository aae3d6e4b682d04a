use shesh::commands::{parse_input, strip_comment};

#[test]
fn tokenize_quoted_pair() {
    assert_eq!(parse_input("\"a b\" c"), vec!["a b".to_string(), "c".to_string()]);
}

#[test]
fn retokenize_plain_tokens_is_identity() {
    let toks = parse_input("git status --short");
    let rendered = toks.join(" ");
    assert_eq!(parse_input(&rendered), toks);
}

#[test]
fn tokenize_single_quotes_keep_double() {
    assert_eq!(parse_input("'he said \"hi\"'"), vec!["he said \"hi\"".to_string()]);
}

#[test]
fn tokenize_backslash_escapes_space() {
    assert_eq!(parse_input("a\\ b c"), vec!["a b".to_string(), "c".to_string()]);
}

#[test]
fn tokenize_backslash_escapes_quote() {
    assert_eq!(parse_input("say \\\"hi\\\""), vec!["say".to_string(), "\"hi\"".to_string()]);
}

#[test]
fn tokenize_splits_on_unquoted_tab() {
    assert_eq!(parse_input("a\tb"), vec!["a".to_string(), "b".to_string()]);
    assert_eq!(parse_input("'a\tb'"), vec!["a\tb".to_string()]);
}

#[test]
fn tokenize_collapses_spaces() {
    assert_eq!(parse_input("  a   b  "), vec!["a".to_string(), "b".to_string()]);
}

#[test]
fn tokenize_empty_input() {
    assert_eq!(parse_input(""), Vec::<String>::new());
    assert_eq!(parse_input("   "), Vec::<String>::new());
}

#[test]
fn tokenize_unclosed_quote_keeps_rest() {
    assert_eq!(parse_input("\"a b"), vec!["a b".to_string()]);
}

#[test]
fn comment_stripped_from_submitted_line() {
    assert_eq!(strip_comment("  ls -l  # list  "), "ls -l".to_string());
    assert_eq!(strip_comment("# whole line"), "".to_string());
    assert_eq!(strip_comment("plain"), "plain".to_string());
}
