use native_lbb::tokenizer::{shlex_split, ParseError};

fn words(v: &[&str]) -> Vec<String> {
    v.iter().map(|s| s.to_string()).collect()
}

#[test]
fn split_double_quoted_word() {
    assert_eq!(shlex_split("echo \"hello world\" foo"), Ok(words(&["echo", "hello world", "foo"])));
}

#[test]
fn split_unterminated_single_quote() {
    let r = shlex_split("echo 'unterminated");
    assert_eq!(r, Err(ParseError::UnterminatedQuote));
    assert_eq!(ParseError::UnterminatedQuote.message(), "unterminated quoted string");
}

#[test]
fn split_unterminated_double_quote() {
    assert_eq!(shlex_split("say \"hi"), Err(ParseError::UnterminatedQuote));
}

#[test]
fn split_trailing_escape() {
    assert_eq!(shlex_split("echo a\\"), Err(ParseError::TrailingEscape));
    assert_eq!(ParseError::TrailingEscape.message(), "trailing escape");
}

#[test]
fn split_empty_and_blank_lines() {
    assert_eq!(shlex_split(""), Ok(vec![]));
    assert_eq!(shlex_split(" \t  \n "), Ok(vec![]));
}

#[test]
fn split_collapses_whitespace_runs() {
    assert_eq!(shlex_split("  a   b\t\tc  "), Ok(words(&["a", "b", "c"])));
}

#[test]
fn split_escape_outside_single_quotes() {
    assert_eq!(shlex_split("a\\ b c"), Ok(words(&["a b", "c"])));
    assert_eq!(shlex_split("\"x\\\"y\""), Ok(words(&["x\"y"])));
}

#[test]
fn split_backslash_literal_in_single_quotes() {
    assert_eq!(shlex_split("'a\\b'"), Ok(words(&["a\\b"])));
}

#[test]
fn split_quotes_nest_literally() {
    assert_eq!(shlex_split("\"it's\" 'say \"x\"'"), Ok(words(&["it's", "say \"x\""])));
}

#[test]
fn split_empty_quotes_give_no_word() {
    assert_eq!(shlex_split("a '' b"), Ok(words(&["a", "b"])));
}

#[test]
fn split_unicode_whitespace_separates() {
    assert_eq!(shlex_split("a\u{a0}b\u{3000}c"), Ok(words(&["a", "b", "c"])));
}
