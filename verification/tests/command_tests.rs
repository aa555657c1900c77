use vshell::builtins::{
    builtin_of, cd_home_unset_message, cd_no_such_dir_message, command_not_found_message,
    is_builtin, resolve_cd_target, type_builtin_message, type_found_message,
    type_not_found_message, Builtin, CdResolution,
};
use vshell::command::{plan_command_line, CommandPlan};
use vshell::paths::{join_path, split_char};
use vshell::redirect::RedirMode;
use vshell::strutil::{join_spaces, trim};

#[test]
fn blank_lines_plan_nothing() {
    assert!(matches!(plan_command_line(""), CommandPlan::Empty));
    assert!(matches!(plan_command_line("   \t "), CommandPlan::Empty));
}

#[test]
fn a_piped_line_plans_a_pipeline() {
    match plan_command_line("ls -l | wc") {
        CommandPlan::Pipeline(cmds) => {
            assert_eq!(cmds, vec![vec!["ls", "-l"], vec!["wc"]]);
        }
        _ => panic!("a piped line must plan a pipeline"),
    }
}

#[test]
fn a_single_command_plans_with_redirections() {
    match plan_command_line("echo hi > out.txt") {
        CommandPlan::Single(rc) => {
            assert_eq!(rc.args, vec!["echo", "hi"]);
            let out = rc.stdout_redir.unwrap();
            assert_eq!(out.mode, RedirMode::Truncate);
            assert_eq!(out.path, "out.txt");
        }
        _ => panic!("a single command must plan as single"),
    }
}

#[test]
fn pipes_swallowed_to_one_command_plan_as_single() {
    match plan_command_line("| echo hi |") {
        CommandPlan::Single(rc) => assert_eq!(rc.args, vec!["echo", "hi"]),
        _ => panic!("one surviving command must plan as single"),
    }
}

#[test]
fn redirection_tokens_inside_a_pipeline_stay_as_arguments() {
    // redirection is resolved only for single commands; in a pipeline the
    // operator tokens travel with their stage untouched
    match plan_command_line("a | b > f") {
        CommandPlan::Pipeline(cmds) => {
            assert_eq!(cmds, vec![vec!["a"], vec!["b", ">", "f"]]);
        }
        _ => panic!("a piped line must plan a pipeline"),
    }
}

#[test]
fn quotes_only_input_plans_an_empty_single() {
    match plan_command_line("''") {
        CommandPlan::Single(rc) => assert_eq!(rc.args, Vec::<String>::new()),
        _ => panic!("a quoted empty word yields no tokens at all"),
    }
}

#[test]
fn builtin_names_are_recognized() {
    for name in ["exit", "echo", "type", "pwd", "cd", "history"] {
        assert!(is_builtin(name));
    }
    assert!(!is_builtin("ls"));
    assert!(!is_builtin(""));
    assert!(!is_builtin("ech"));
    assert!(matches!(builtin_of("exit"), Some(Builtin::Exit)));
    assert!(matches!(builtin_of("history"), Some(Builtin::History)));
    assert!(matches!(builtin_of("nope"), None));
}

#[test]
fn echo_joins_arguments_with_single_spaces() {
    let args: Vec<String> = vec!["echo".into(), "a".into(), "b c".into(), "d".into()];
    assert_eq!(join_spaces(&args, 1), "a b c d");
    assert_eq!(join_spaces(&args, 4), "");
}

#[test]
fn type_messages_are_exact() {
    assert_eq!(type_builtin_message(&"echo".to_string()), "echo is a shell builtin");
    assert_eq!(
        type_found_message(&"ls".to_string(), &"/bin/ls".to_string()),
        "ls is /bin/ls"
    );
    assert_eq!(type_not_found_message(&"nope".to_string()), "nope: not found");
    assert_eq!(
        command_not_found_message(&"nope".to_string()),
        "nope: command not found"
    );
}

#[test]
fn cd_targets_resolve_through_home() {
    let home = "/home/u".to_string();
    match resolve_cd_target(None, Some(&home)) {
        CdResolution::Dir(d) => assert_eq!(d, "/home/u"),
        _ => panic!("bare cd must go home"),
    }
    let tilde = "~".to_string();
    match resolve_cd_target(Some(&tilde), Some(&home)) {
        CdResolution::Dir(d) => assert_eq!(d, "/home/u"),
        _ => panic!("cd ~ must go home"),
    }
    let path = "/tmp".to_string();
    match resolve_cd_target(Some(&path), Some(&home)) {
        CdResolution::Dir(d) => assert_eq!(d, "/tmp"),
        _ => panic!("cd PATH must go to PATH"),
    }
}

#[test]
fn cd_without_home_reports_and_does_not_abort() {
    assert!(matches!(resolve_cd_target(None, None), CdResolution::HomeUnset));
    let tilde = "~".to_string();
    assert!(matches!(resolve_cd_target(Some(&tilde), None), CdResolution::HomeUnset));
    // an explicit path needs no HOME
    let path = "/tmp".to_string();
    assert!(matches!(resolve_cd_target(Some(&path), None), CdResolution::Dir(_)));
    assert_eq!(cd_home_unset_message(), "cd: HOME not set");
    assert_eq!(
        cd_no_such_dir_message(&"/nope".to_string()),
        "cd: /nope: No such file or directory"
    );
}

#[test]
fn search_path_splits_on_colons() {
    assert_eq!(split_char("/bin:/usr/bin", ':'), vec!["/bin", "/usr/bin"]);
    assert_eq!(split_char("a::b:", ':'), vec!["a", "", "b", ""]);
    assert_eq!(split_char("", ':'), vec![""]);
}

#[test]
fn candidate_paths_join_like_path_append() {
    assert_eq!(join_path(&"/bin".to_string(), "ls"), "/bin/ls");
    assert_eq!(join_path(&"/bin/".to_string(), "ls"), "/bin/ls");
    assert_eq!(join_path(&"".to_string(), "ls"), "ls");
    assert_eq!(join_path(&"/bin".to_string(), "/abs/ls"), "/abs/ls");
}

#[test]
fn trimming_strips_both_ends() {
    assert_eq!(trim("  a b \t"), "a b");
    assert_eq!(trim(""), "");
    assert_eq!(trim(" \r\n "), "");
    assert_eq!(trim("x"), "x");
}

#[test]
fn trimming_strips_unicode_whitespace() {
    assert_eq!(trim("\u{2003}x\u{85}"), "x");
    assert_eq!(trim("\u{a0}\u{3000}"), "");
    assert_eq!(trim(" a\u{a0}b "), "a\u{a0}b");
}

#[test]
fn lines_of_unicode_whitespace_plan_nothing() {
    assert!(matches!(plan_command_line("\u{a0}\u{2003}"), CommandPlan::Empty));
}
