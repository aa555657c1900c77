use vshell::pipeline::{plan_pipeline, PipelineError, StageKind};

fn cmds(v: &[&[&str]]) -> Vec<Vec<String>> {
    v.iter().map(|c| c.iter().map(|s| s.to_string()).collect()).collect()
}

#[test]
fn two_stage_builtin_then_external_is_wired_through_one_pipe() {
    let commands = cmds(&[&["echo", "hi"], &["wc", "-c"]]);
    let resolutions = vec![None, Some("/usr/bin/wc".to_string())];
    let plan = plan_pipeline(&commands, &resolutions).ok().unwrap();
    assert_eq!(plan.len(), 2);

    assert_eq!(plan[0].args, vec!["echo", "hi"]);
    assert!(matches!(plan[0].kind, StageKind::BuiltinStage));
    assert_eq!(plan[0].stdin_pipe, None);
    assert_eq!(plan[0].stdout_pipe, Some(0));

    assert_eq!(plan[1].args, vec!["wc", "-c"]);
    match &plan[1].kind {
        StageKind::External(p) => assert_eq!(p, "/usr/bin/wc"),
        _ => panic!("second stage should be external"),
    }
    assert_eq!(plan[1].stdin_pipe, Some(0));
    assert_eq!(plan[1].stdout_pipe, None);

    // the producer's stdout pipe is exactly the consumer's stdin pipe
    assert_eq!(plan[0].stdout_pipe, plan[1].stdin_pipe);
}

#[test]
fn three_stage_wiring_chains_adjacent_stages() {
    let commands = cmds(&[&["a"], &["b"], &["c"]]);
    let resolutions = vec![
        Some("/bin/a".to_string()),
        Some("/bin/b".to_string()),
        Some("/bin/c".to_string()),
    ];
    let plan = plan_pipeline(&commands, &resolutions).ok().unwrap();
    assert_eq!(plan.len(), 3);
    for i in 0..3usize {
        assert_eq!(plan[i].stdin_pipe, if i > 0 { Some(i - 1) } else { None });
        assert_eq!(plan[i].stdout_pipe, if i < 2 { Some(i) } else { None });
    }
    assert_eq!(plan[0].stdout_pipe, plan[1].stdin_pipe);
    assert_eq!(plan[1].stdout_pipe, plan[2].stdin_pipe);
}

#[test]
fn empty_stage_aborts_the_whole_pipeline() {
    let commands: Vec<Vec<String>> = vec![vec!["a".to_string()], vec![]];
    let resolutions = vec![Some("/bin/a".to_string()), None];
    match plan_pipeline(&commands, &resolutions) {
        Err(PipelineError::EmptyCommand) => {}
        _ => panic!("an empty stage must abort planning"),
    }
}

#[test]
fn unresolved_external_reports_its_name() {
    let commands = cmds(&[&["echo", "x"], &["nosuchcmd"]]);
    let resolutions = vec![None, None];
    match plan_pipeline(&commands, &resolutions) {
        Err(PipelineError::CommandNotFound(name)) => assert_eq!(name, "nosuchcmd"),
        _ => panic!("an unresolved stage must abort planning"),
    }
}

#[test]
fn builtin_stages_need_no_resolution() {
    let commands = cmds(&[&["echo", "x"], &["pwd"]]);
    let resolutions = vec![None, None];
    let plan = plan_pipeline(&commands, &resolutions).ok().unwrap();
    assert!(matches!(plan[0].kind, StageKind::BuiltinStage));
    assert!(matches!(plan[1].kind, StageKind::BuiltinStage));
}
