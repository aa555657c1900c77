use vshell::redirect::{resolve_redirections, RedirMode};

fn args(v: &[&str]) -> Vec<String> {
    v.iter().map(|s| s.to_string()).collect()
}

#[test]
fn append_stdout_is_resolved_and_stripped() {
    let rc = resolve_redirections(args(&["echo", "hi", ">>", "out.txt"]));
    assert_eq!(rc.args, vec!["echo", "hi"]);
    let out = rc.stdout_redir.unwrap();
    assert_eq!(out.mode, RedirMode::Append);
    assert_eq!(out.path, "out.txt");
    assert!(rc.stderr_redir.is_none());
}

#[test]
fn truncate_stdout_is_resolved_and_stripped() {
    let rc = resolve_redirections(args(&["echo", "hi", ">", "out.txt"]));
    assert_eq!(rc.args, vec!["echo", "hi"]);
    let out = rc.stdout_redir.unwrap();
    assert_eq!(out.mode, RedirMode::Truncate);
    assert_eq!(out.path, "out.txt");
}

#[test]
fn digit_forms_of_stdout_operators() {
    let rc = resolve_redirections(args(&["c", "1>>", "a.txt"]));
    assert_eq!(rc.stdout_redir.unwrap().mode, RedirMode::Append);
    let rc = resolve_redirections(args(&["c", "1>", "a.txt"]));
    assert_eq!(rc.stdout_redir.unwrap().mode, RedirMode::Truncate);
}

#[test]
fn append_wins_over_truncate_for_stdout() {
    // the append operator is scanned first; the truncate operator is then
    // left in place as an ordinary argument
    let rc = resolve_redirections(args(&["c", ">>", "a", ">", "b"]));
    let out = rc.stdout_redir.unwrap();
    assert_eq!(out.mode, RedirMode::Append);
    assert_eq!(out.path, "a");
    assert_eq!(rc.args, vec!["c", ">", "b"]);
}

#[test]
fn stderr_operators_are_independent() {
    let rc = resolve_redirections(args(&["c", "2>>", "e.log", ">", "o.log"]));
    let err = rc.stderr_redir.unwrap();
    assert_eq!(err.mode, RedirMode::Append);
    assert_eq!(err.path, "e.log");
    let out = rc.stdout_redir.unwrap();
    assert_eq!(out.mode, RedirMode::Truncate);
    assert_eq!(out.path, "o.log");
    assert_eq!(rc.args, vec!["c"]);
}

#[test]
fn truncate_stderr() {
    let rc = resolve_redirections(args(&["c", "2>", "e.log"]));
    let err = rc.stderr_redir.unwrap();
    assert_eq!(err.mode, RedirMode::Truncate);
    assert_eq!(err.path, "e.log");
}

#[test]
fn trailing_operator_without_filename_is_left_alone() {
    let rc = resolve_redirections(args(&["c", ">>"]));
    assert!(rc.stdout_redir.is_none());
    assert_eq!(rc.args, vec!["c", ">>"]);
    // and a malformed append stops the stdout scan: the truncate form is
    // not consulted afterwards
    let rc = resolve_redirections(args(&["c", ">>", ">", "f"]));
    let out = rc.stdout_redir.unwrap();
    assert_eq!(out.mode, RedirMode::Append);
    assert_eq!(out.path, ">");
    assert_eq!(rc.args, vec!["c", "f"]);
}

#[test]
fn only_first_operator_occurrence_is_consumed() {
    let rc = resolve_redirections(args(&["c", ">", "a", ">", "b"]));
    let out = rc.stdout_redir.unwrap();
    assert_eq!(out.path, "a");
    assert_eq!(rc.args, vec!["c", ">", "b"]);
}
