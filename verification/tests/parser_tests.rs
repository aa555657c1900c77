use vshell::parser::{parse_input, split_by_pipe};

#[test]
fn tokenize_quoting_and_escapes() {
    let toks = parse_input("echo 'a b' \"c\\\"d\" e\\ f");
    assert_eq!(toks, vec!["echo", "a b", "c\"d", "e f"]);
}

#[test]
fn tokenize_single_quotes_fully_literal() {
    let toks = parse_input("'a\\nb' 'x|y'");
    assert_eq!(toks, vec!["a\\nb", "x|y"]);
}

#[test]
fn tokenize_double_quote_keeps_other_escapes() {
    let toks = parse_input("\"a\\nb\" \"x\\\\y\"");
    assert_eq!(toks, vec!["a\\nb", "x\\y"]);
}

#[test]
fn tokenize_unterminated_quote_emits_partial_word() {
    assert_eq!(parse_input("'abc"), vec!["abc"]);
    assert_eq!(parse_input("\"abc"), vec!["abc"]);
    assert_eq!(parse_input("ab\\"), vec!["ab"]);
}

#[test]
fn tokenize_pipes_as_markers() {
    let toks = parse_input("a|b | c");
    assert_eq!(toks, vec!["a", "|", "b", "|", "c"]);
}

#[test]
fn tokenize_quoted_pipe_is_literal() {
    let toks = parse_input("a '|' b");
    assert_eq!(toks, vec!["a", "|", "b"]);
    // the quoted pipe is an ordinary word token, so splitting still
    // treats it as a marker only because it is exactly "|"
}

#[test]
fn tokenize_collapses_whitespace() {
    assert_eq!(parse_input("  a\t b  "), vec!["a", "b"]);
    assert_eq!(parse_input(""), Vec::<String>::new());
    assert_eq!(parse_input("   "), Vec::<String>::new());
}

#[test]
fn tokenize_splits_on_unicode_whitespace() {
    // the word separators are all of Unicode's white-space characters,
    // as char::is_whitespace decides them
    assert_eq!(parse_input("a\u{a0}b"), vec!["a", "b"]);
    assert_eq!(parse_input("a\u{2003}b\u{3000}c"), vec!["a", "b", "c"]);
    assert!("\u{a0}".chars().all(char::is_whitespace));
    // quoted, the same characters are literal
    assert_eq!(parse_input("'a\u{a0}b'"), vec!["a\u{a0}b"]);
}

#[test]
fn plain_lines_split_like_split_whitespace() {
    // on lines without quotes, backslashes or pipes the tokenizer is
    // exactly whitespace splitting, Unicode class included
    for line in ["a b  c", "  x\u{a0}y\t z ", "one", "", " \u{2028} "] {
        let expected: Vec<String> = line.split_whitespace().map(str::to_string).collect();
        assert_eq!(parse_input(line), expected);
    }
}

#[test]
fn tokenize_empty_quoted_word_yields_no_token() {
    assert_eq!(parse_input("\"\""), Vec::<String>::new());
    assert_eq!(parse_input("''"), Vec::<String>::new());
    assert_eq!(parse_input("a '' b"), vec!["a", "b"]);
}

#[test]
fn split_three_stage_pipeline() {
    let toks = parse_input("a|b | c");
    let cmds = split_by_pipe(toks);
    assert_eq!(cmds, vec![vec!["a"], vec!["b"], vec!["c"]]);
}

#[test]
fn split_never_produces_empty_commands() {
    let cmds = split_by_pipe(parse_input("| a || b |"));
    assert_eq!(cmds, vec![vec!["a"], vec!["b"]]);
    let cmds = split_by_pipe(parse_input("|||"));
    assert_eq!(cmds, Vec::<Vec<String>>::new());
}

#[test]
fn split_keeps_arguments_with_their_command() {
    let cmds = split_by_pipe(parse_input("ls -l | wc -c"));
    assert_eq!(cmds, vec![vec!["ls", "-l"], vec!["wc", "-c"]]);
}
