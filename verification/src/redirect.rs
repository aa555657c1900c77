//! The redirection resolver: scans a single command's argument vector for
//! redirection operators, records the target file and mode for stdout and
//! stderr, and strips each operator and its filename from the vector.
//!
//! Scan order: `>>`/`1>>` before `>`/`1>`, and independently `2>>` before
//! `2>`, so append always wins over truncate for the same stream. An
//! operator with no following filename token is left in place and stops
//! the scan for that stream.

use vstd::prelude::*;

verus! {

/// How a redirection target file is opened.
#[derive(Clone, Copy, PartialEq, Eq, Structural, Debug)]
pub enum RedirMode {
    Truncate,
    Append,
}

/// One resolved redirection: the open mode and the target path.
pub struct Redirection {
    pub mode: RedirMode,
    pub path: String,
}

/// A command with its redirections stripped out.
pub struct ResolvedCommand {
    pub args: Vec<String>,
    pub stdout_redir: Option<Redirection>,
    pub stderr_redir: Option<Redirection>,
}

/// The four classes of redirection operator token.
#[derive(Clone, Copy, PartialEq, Eq, Structural, Debug)]
pub enum OpClass {
    OutAppend,
    OutTrunc,
    ErrAppend,
    ErrTrunc,
}

/// Whether token `t` is an operator of class `class`.
pub open spec fn op_matches(class: OpClass, t: Seq<char>) -> bool {
    match class {
        OpClass::OutAppend => t == seq!['>', '>'] || t == seq!['1', '>', '>'],
        OpClass::OutTrunc => t == seq!['>'] || t == seq!['1', '>'],
        OpClass::ErrAppend => t == seq!['2', '>', '>'],
        OpClass::ErrTrunc => t == seq!['2', '>'],
    }
}

/// The first index at or after `i` whose token is an operator of `class`.
pub open spec fn find_op_from(ts: Seq<Seq<char>>, class: OpClass, i: int) -> Option<int>
    decreases ts.len() - i,
{
    if i < 0 || i >= ts.len() {
        None
    } else if op_matches(class, ts[i]) {
        Some(i)
    } else {
        find_op_from(ts, class, i + 1)
    }
}

/// `args` with the two tokens at `i` and `i + 1` removed.
pub open spec fn strip_pair(args: Seq<Seq<char>>, i: int) -> Seq<Seq<char>> {
    args.subrange(0, i) + args.subrange(i + 2, args.len() as int)
}

/// Scan one stream: try the append operator first, then the truncate
/// operator; a match consumes the operator and the following filename.
/// A match with no following token consumes nothing and ends the scan.
pub open spec fn scan_stream(
    args: Seq<Seq<char>>,
    append_class: OpClass,
    trunc_class: OpClass,
) -> (Seq<Seq<char>>, Option<(RedirMode, Seq<char>)>) {
    if let Some(i) = find_op_from(args, append_class, 0) {
        if i + 1 < args.len() {
            (strip_pair(args, i), Some((RedirMode::Append, args[i + 1])))
        } else {
            (args, None)
        }
    } else if let Some(i) = find_op_from(args, trunc_class, 0) {
        if i + 1 < args.len() {
            (strip_pair(args, i), Some((RedirMode::Truncate, args[i + 1])))
        } else {
            (args, None)
        }
    } else {
        (args, None)
    }
}

/// The full resolution: stdout operators are scanned and stripped first,
/// then stderr operators are scanned in what remains.
pub open spec fn resolve_spec(args: Seq<Seq<char>>) -> (
    Seq<Seq<char>>,
    Option<(RedirMode, Seq<char>)>,
    Option<(RedirMode, Seq<char>)>,
) {
    let (after_out, out) = scan_stream(args, OpClass::OutAppend, OpClass::OutTrunc);
    let (after_err, err) = scan_stream(after_out, OpClass::ErrAppend, OpClass::ErrTrunc);
    (after_err, out, err)
}

/// The mode and path of an optional redirection, for contracts.
pub open spec fn redir_view(o: Option<Redirection>) -> Option<(RedirMode, Seq<char>)> {
    match o {
        None => None,
        Some(r) => Some((r.mode, r.path@)),
    }
}

/// Whether the string `t` is exactly the one-character sequence `a`.
fn token_eq1(t: &String, a: char) -> (r: bool)
    ensures
        r == (t@ == seq![a]),
{
    let s = t.as_str();
    if s.unicode_len() == 1 && s.get_char(0) == a {
        proof {
            assert(t@ =~= seq![a]);
        }
        true
    } else {
        proof {
            assert(t@ != seq![a]);
        }
        false
    }
}

/// Whether the string `t` is exactly the two-character sequence `a b`.
fn token_eq2(t: &String, a: char, b: char) -> (r: bool)
    ensures
        r == (t@ == seq![a, b]),
{
    let s = t.as_str();
    if s.unicode_len() == 2 && s.get_char(0) == a && s.get_char(1) == b {
        proof {
            assert(t@ =~= seq![a, b]);
        }
        true
    } else {
        proof {
            assert(t@ != seq![a, b]);
        }
        false
    }
}

/// Whether the string `t` is exactly the three-character sequence `a b c`.
fn token_eq3(t: &String, a: char, b: char, c: char) -> (r: bool)
    ensures
        r == (t@ == seq![a, b, c]),
{
    let s = t.as_str();
    if s.unicode_len() == 3 && s.get_char(0) == a && s.get_char(1) == b && s.get_char(2) == c {
        proof {
            assert(t@ =~= seq![a, b, c]);
        }
        true
    } else {
        proof {
            assert(t@ != seq![a, b, c]);
        }
        false
    }
}

/// Executable test for [`op_matches`].
pub fn token_matches(class: OpClass, t: &String) -> (r: bool)
    ensures
        r == op_matches(class, t@),
{
    match class {
        OpClass::OutAppend => token_eq2(t, '>', '>') || token_eq3(t, '1', '>', '>'),
        OpClass::OutTrunc => token_eq1(t, '>') || token_eq2(t, '1', '>'),
        OpClass::ErrAppend => token_eq3(t, '2', '>', '>'),
        OpClass::ErrTrunc => token_eq2(t, '2', '>'),
    }
}

/// The position of the first operator of `class` in `args`, if any.
pub fn find_op(args: &Vec<String>, class: OpClass) -> (r: Option<usize>)
    ensures
        match r {
            Some(u) => u < args.len() && find_op_from(args.deep_view(), class, 0) == Some(
                u as int,
            ),
            None => find_op_from(args.deep_view(), class, 0) is None,
        },
{
    let mut i: usize = 0;
    while i < args.len()
        invariant
            i <= args.len(),
            find_op_from(args.deep_view(), class, 0) == find_op_from(
                args.deep_view(),
                class,
                i as int,
            ),
        decreases args.len() - i,
    {
        proof {
            assert(args.deep_view()[i as int] == args@[i as int]@);
        }
        if token_matches(class, &args[i]) {
            return Some(i);
        }
        i = i + 1;
    }
    None
}

/// Remove the operator at `i` and the filename at `i + 1`.
fn remove_pair(args: &mut Vec<String>, i: usize)
    requires
        i + 1 < old(args).len(),
    ensures
        final(args).deep_view() == strip_pair(old(args).deep_view(), i as int),
{
    let ghost pre = args.deep_view();
    args.remove(i);
    args.remove(i);
    proof {
        assert(args.deep_view() =~= strip_pair(pre, i as int));
    }
}

/// Scan and strip one stream's redirection in executable code.
fn scan_stream_exec(args: &mut Vec<String>, append_class: OpClass, trunc_class: OpClass) -> (r:
    Option<Redirection>)
    ensures
        ({
            let (spec_args, spec_redir) = scan_stream(old(args).deep_view(), append_class,
                trunc_class);
            final(args).deep_view() == spec_args && redir_view(r) == spec_redir
        }),
{
    if let Some(i) = find_op(args, append_class) {
        if i + 1 < args.len() {
            proof {
                assert(args.deep_view()[i as int + 1] == args@[i as int + 1]@);
            }
            let path = args[i + 1].clone();
            remove_pair(args, i);
            Some(Redirection { mode: RedirMode::Append, path })
        } else {
            None
        }
    } else if let Some(i) = find_op(args, trunc_class) {
        if i + 1 < args.len() {
            proof {
                assert(args.deep_view()[i as int + 1] == args@[i as int + 1]@);
            }
            let path = args[i + 1].clone();
            remove_pair(args, i);
            Some(Redirection { mode: RedirMode::Truncate, path })
        } else {
            None
        }
    } else {
        None
    }
}

/// Resolve the redirections of a single command: strip stdout operators
/// (`>>`/`1>>` before `>`/`1>`), then stderr operators (`2>>` before `2>`),
/// each together with its filename, and record mode and path per stream.
pub fn resolve_redirections(args: Vec<String>) -> (r: ResolvedCommand)
    ensures
        r.args.deep_view() == resolve_spec(args.deep_view()).0,
        redir_view(r.stdout_redir) == resolve_spec(args.deep_view()).1,
        redir_view(r.stderr_redir) == resolve_spec(args.deep_view()).2,
{
    let mut args = args;
    let stdout_redir = scan_stream_exec(&mut args, OpClass::OutAppend, OpClass::OutTrunc);
    let stderr_redir = scan_stream_exec(&mut args, OpClass::ErrAppend, OpClass::ErrTrunc);
    ResolvedCommand { args, stdout_redir, stderr_redir }
}

} // verus!
