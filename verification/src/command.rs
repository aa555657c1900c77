//! The top of the submission chain: a raw command line is trimmed,
//! tokenized and split into commands, and the result is classified as
//! empty input, a multi-stage pipeline, or a single command with its
//! redirections resolved. The caller then executes the plan.

use vstd::prelude::*;
use crate::parser::{split_pipes, tokenize};
use crate::redirect::{redir_view, resolve_spec, ResolvedCommand};
use crate::strutil::trim_spec;

verus! {

/// What a submitted line asks the shell to do.
pub enum CommandPlan {
    /// The line was blank.
    Empty,
    /// Two or more commands joined by pipes.
    Pipeline(Vec<Vec<String>>),
    /// At most one command, with its redirections stripped out.
    Single(ResolvedCommand),
}

/// The commands of the trimmed, tokenized line.
pub open spec fn commands_of_line(input: Seq<char>) -> Seq<Seq<Seq<char>>> {
    split_pipes(tokenize(trim_spec(input)))
}

/// The single command to resolve: the only command of the line, or no
/// tokens at all when the line held none.
pub open spec fn single_command_of_line(input: Seq<char>) -> Seq<Seq<char>> {
    if commands_of_line(input).len() >= 1 {
        commands_of_line(input)[0]
    } else {
        Seq::empty()
    }
}

/// Classify a raw command line.
///
/// A blank line plans nothing; a line with two or more pipe-separated
/// commands plans a pipeline; anything else plans a single command with
/// its redirections resolved and stripped.
pub fn plan_command_line(input: &str) -> (p: CommandPlan)
    ensures
        (p is Empty) <==> trim_spec(input@).len() == 0,
        (p is Pipeline) <==> trim_spec(input@).len() > 0 && commands_of_line(input@).len() > 1,
        match p {
            CommandPlan::Empty => true,
            CommandPlan::Pipeline(cmds) => cmds.deep_view() == commands_of_line(input@),
            CommandPlan::Single(rc) => {
                &&& rc.args.deep_view() == resolve_spec(single_command_of_line(input@)).0
                &&& redir_view(rc.stdout_redir) == resolve_spec(single_command_of_line(input@)).1
                &&& redir_view(rc.stderr_redir) == resolve_spec(single_command_of_line(input@)).2
            },
        },
{
    let clean = crate::strutil::trim(input);
    if clean.as_str().is_empty() {
        return CommandPlan::Empty;
    }
    let tokens = crate::parser::parse_input(clean.as_str());
    let mut commands = crate::parser::split_by_pipe(tokens);
    if commands.len() > 1 {
        return CommandPlan::Pipeline(commands);
    }
    let first: Vec<String> = if commands.len() == 1 {
        let f = commands.pop().unwrap();
        proof {
            assert(f.deep_view() =~= commands_of_line(input@)[0]);
        }
        f
    } else {
        Vec::new()
    };
    proof {
        assert(first.deep_view() =~= single_command_of_line(input@));
    }
    let rc = crate::redirect::resolve_redirections(first);
    CommandPlan::Single(rc)
}

} // verus!
