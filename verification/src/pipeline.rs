//! The process-pipeline planner: validates the stages of a multi-command
//! pipeline, fixes each stage as a builtin or a resolved external
//! executable, and computes the pipe wiring — which pipe feeds each
//! stage's stdin and which takes its stdout. The caller creates the
//! pipes, forks and waits; every decision is made here.

use vstd::prelude::*;
use crate::builtins::is_builtin_name;

verus! {

/// How one stage runs: inside the shell's code after the fork, or by
/// replacing the child with a resolved executable.
pub enum StageKind {
    BuiltinStage,
    External(String),
}

/// One planned stage: its argument vector, how it runs, and the indices
/// of the pipes wired to its stdin and stdout.
pub struct StagePlan {
    pub args: Vec<String>,
    pub kind: StageKind,
    pub stdin_pipe: Option<usize>,
    pub stdout_pipe: Option<usize>,
}

/// Why a pipeline cannot run.
pub enum PipelineError {
    EmptyCommand,
    CommandNotFound(String),
}

/// Every stage has at least a command name.
pub open spec fn all_stages_nonempty(cmds: Seq<Seq<Seq<char>>>) -> bool {
    forall|i: int| 0 <= i < cmds.len() ==> #[trigger] cmds[i].len() > 0
}

/// The first stage at or after `i` whose command is neither a builtin
/// nor resolved to an executable path.
pub open spec fn first_unresolved(
    cmds: Seq<Seq<Seq<char>>>,
    res: Seq<Option<Seq<char>>>,
    i: int,
) -> Option<int>
    decreases cmds.len() - i,
{
    if i < 0 || i >= cmds.len() {
        None
    } else if !is_builtin_name(cmds[i][0]) && res[i] is None {
        Some(i)
    } else {
        first_unresolved(cmds, res, i + 1)
    }
}

/// The stage kind matches the command name: builtins run in the shell's
/// code, anything else carries the path the search-path lookup returned.
pub open spec fn stage_kind_ok(
    kind: StageKind,
    name_is_builtin: bool,
    res: Option<Seq<char>>,
) -> bool {
    match kind {
        StageKind::BuiltinStage => name_is_builtin,
        StageKind::External(p) => !name_is_builtin && res == Some(p@),
    }
}

/// The pipe wiring of stage `i` of `n`: stdin from pipe `i - 1` unless it
/// is the first stage, stdout to pipe `i` unless it is the last.
pub open spec fn stage_wiring_ok(sp: StagePlan, i: int, n: int) -> bool {
    &&& (i > 0 ==> sp.stdin_pipe == Some((i - 1) as usize))
    &&& (i == 0 ==> sp.stdin_pipe is None)
    &&& (i < n - 1 ==> sp.stdout_pipe == Some(i as usize))
    &&& (i == n - 1 ==> sp.stdout_pipe is None)
}

/// Everything the plan promises of stage `i`.
pub open spec fn stage_ok(
    sp: StagePlan,
    i: int,
    n: int,
    cmds: Seq<Seq<Seq<char>>>,
    res: Seq<Option<Seq<char>>>,
) -> bool {
    &&& sp.args.deep_view() == cmds[i]
    &&& stage_kind_ok(sp.kind, is_builtin_name(cmds[i][0]), res[i])
    &&& stage_wiring_ok(sp, i, n)
}

/// Plan a pipeline run. `resolutions[i]` is what the search-path lookup
/// returned for stage `i`'s command name; it is only consulted for
/// non-builtin stages. The plan exists exactly when every stage is
/// non-empty and every non-builtin stage is resolved; otherwise the first
/// failure, with empty commands taking precedence, is the error.
pub fn plan_pipeline(commands: &Vec<Vec<String>>, resolutions: &Vec<Option<String>>) -> (r:
    Result<Vec<StagePlan>, PipelineError>)
    requires
        resolutions.len() == commands.len(),
    ensures
        (r is Ok) <==> all_stages_nonempty(commands.deep_view()) && first_unresolved(
            commands.deep_view(),
            resolutions.deep_view(),
            0,
        ) is None,
        match r {
            Result::Ok(plan) => plan.len() == commands.len() && forall|i: int|
                0 <= i < plan.len() ==> stage_ok(
                    #[trigger] plan[i],
                    i,
                    plan.len() as int,
                    commands.deep_view(),
                    resolutions.deep_view(),
                ),
            Result::Err(PipelineError::EmptyCommand) => !all_stages_nonempty(
                commands.deep_view(),
            ),
            Result::Err(PipelineError::CommandNotFound(nm)) => all_stages_nonempty(
                commands.deep_view(),
            ) && match first_unresolved(commands.deep_view(), resolutions.deep_view(), 0) {
                Some(k) => nm@ == commands.deep_view()[k][0],
                None => false,
            },
        },
{
    let n = commands.len();
    let mut i: usize = 0;
    while i < n
        invariant
            i <= n,
            n == commands.len(),
            forall|j: int| 0 <= j < i ==> #[trigger] commands.deep_view()[j].len() > 0,
        decreases n - i,
    {
        if commands[i].len() == 0 {
            proof {
                assert(commands.deep_view()[i as int].len() == 0);
            }
            return Result::Err(PipelineError::EmptyCommand);
        }
        proof {
            assert(commands.deep_view()[i as int].len() > 0);
        }
        i = i + 1;
    }
    let ghost cmds = commands.deep_view();
    let ghost res = resolutions.deep_view();
    let mut plan: Vec<StagePlan> = Vec::new();
    let mut i: usize = 0;
    while i < n
        invariant
            i <= n,
            n == commands.len(),
            resolutions.len() == commands.len(),
            cmds == commands.deep_view(),
            res == resolutions.deep_view(),
            all_stages_nonempty(cmds),
            plan.len() == i,
            first_unresolved(cmds, res, 0) == first_unresolved(cmds, res, i as int),
            forall|j: int| 0 <= j < i ==> stage_ok(#[trigger] plan@[j], j, n as int, cmds, res),
        decreases n - i,
    {
        proof {
            assert(cmds[i as int] == commands@[i as int].deep_view());
            assert(cmds[i as int][0] == commands@[i as int]@[0]@);
            assert(res[i as int] == match resolutions@[i as int] {
                Some(p) => Some(p@),
                None => None::<Seq<char>>,
            });
        }
        let cmd = &commands[i];
        let name = &cmd[0];
        let kind: StageKind = if crate::builtins::is_builtin(name.as_str()) {
            StageKind::BuiltinStage
        } else {
            match &resolutions[i] {
                Some(p) => StageKind::External(p.clone()),
                None => {
                    return Result::Err(PipelineError::CommandNotFound(name.clone()));
                },
            }
        };
        let stdin_pipe: Option<usize> = if i > 0 {
            Some(i - 1)
        } else {
            None
        };
        let stdout_pipe: Option<usize> = if i + 1 < n {
            Some(i)
        } else {
            None
        };
        let args = cmd.clone();
        proof {
            assert(args.deep_view() =~= cmds[i as int]);
        }
        plan.push(StagePlan { args, kind, stdin_pipe, stdout_pipe });
        i = i + 1;
    }
    Result::Ok(plan)
}

/// A pipeline built by the splitter always passes stage validation: the
/// splitter never emits an empty command, so planning its output can
/// never fail with `EmptyCommand`.
pub proof fn lemma_split_output_validates(toks: Seq<Seq<char>>)
    ensures
        all_stages_nonempty(crate::parser::split_pipes(toks)),
{
    crate::parser::lemma_split_pipes_no_empty(toks);
}

/// Adjacent stages are connected: the pipe that takes stage `i`'s stdout
/// is the pipe that feeds stage `i + 1`'s stdin, so a stage's output is
/// fully wired to its successor before any stage runs.
pub proof fn lemma_adjacent_stages_share_pipe(a: StagePlan, b: StagePlan, i: int, n: int)
    requires
        0 <= i < n - 1,
        stage_wiring_ok(a, i, n),
        stage_wiring_ok(b, i + 1, n),
    ensures
        a.stdout_pipe is Some,
        a.stdout_pipe == b.stdin_pipe,
{
}

} // verus!
