//! The builtin command surface: the set of recognized builtin names, the
//! dispatch decision, and the exact text each builtin prints. The caller
//! performs the I/O; every message and decision is computed here.

use vstd::prelude::*;

verus! {

/// The recognized builtin commands.
#[derive(Clone, Copy, PartialEq, Eq, Structural, Debug)]
pub enum Builtin {
    Exit,
    Echo,
    Type,
    Pwd,
    Cd,
    History,
}

/// The builtin names, in their fixed order.
pub open spec fn builtin_names() -> Seq<Seq<char>> {
    seq!["exit"@, "echo"@, "type"@, "pwd"@, "cd"@, "history"@]
}

/// Which builtin, if any, the name `t` denotes.
pub open spec fn builtin_of_spec(t: Seq<char>) -> Option<Builtin> {
    if t == "exit"@ {
        Some(Builtin::Exit)
    } else if t == "echo"@ {
        Some(Builtin::Echo)
    } else if t == "type"@ {
        Some(Builtin::Type)
    } else if t == "pwd"@ {
        Some(Builtin::Pwd)
    } else if t == "cd"@ {
        Some(Builtin::Cd)
    } else if t == "history"@ {
        Some(Builtin::History)
    } else {
        None
    }
}

/// `t` is the name of a builtin.
pub open spec fn is_builtin_name(t: Seq<char>) -> bool {
    builtin_of_spec(t) is Some
}

/// A builtin name is one of the six entries of [`builtin_names`],
/// and conversely.
pub proof fn lemma_builtin_name_in_list(t: Seq<char>)
    ensures
        is_builtin_name(t) <==> builtin_names().contains(t),
{
    if is_builtin_name(t) {
        if t == "exit"@ {
            assert(builtin_names()[0] == t);
        } else if t == "echo"@ {
            assert(builtin_names()[1] == t);
        } else if t == "type"@ {
            assert(builtin_names()[2] == t);
        } else if t == "pwd"@ {
            assert(builtin_names()[3] == t);
        } else if t == "cd"@ {
            assert(builtin_names()[4] == t);
        } else {
            assert(builtin_names()[5] == t);
        }
    }
    if builtin_names().contains(t) {
        let i = choose|i: int| 0 <= i < builtin_names().len() && builtin_names()[i] == t;
        assert(is_builtin_name(builtin_names()[i]));
    }
}

/// Which builtin, if any, the command name denotes.
pub fn builtin_of(cmd: &str) -> (r: Option<Builtin>)
    ensures
        r == builtin_of_spec(cmd@),
{
    if crate::strutil::str_eq(cmd, "exit") {
        Some(Builtin::Exit)
    } else if crate::strutil::str_eq(cmd, "echo") {
        Some(Builtin::Echo)
    } else if crate::strutil::str_eq(cmd, "type") {
        Some(Builtin::Type)
    } else if crate::strutil::str_eq(cmd, "pwd") {
        Some(Builtin::Pwd)
    } else if crate::strutil::str_eq(cmd, "cd") {
        Some(Builtin::Cd)
    } else if crate::strutil::str_eq(cmd, "history") {
        Some(Builtin::History)
    } else {
        None
    }
}

/// Whether the command name denotes a builtin.
pub fn is_builtin(cmd: &str) -> (r: bool)
    ensures
        r == is_builtin_name(cmd@),
{
    builtin_of(cmd).is_some()
}

/// The executable list of builtin names, matching [`builtin_names`].
pub fn builtins_list() -> (r: Vec<String>)
    ensures
        r.deep_view() == builtin_names(),
{
    let mut r: Vec<String> = Vec::new();
    r.push(String::from_str("exit"));
    r.push(String::from_str("echo"));
    r.push(String::from_str("type"));
    r.push(String::from_str("pwd"));
    r.push(String::from_str("cd"));
    r.push(String::from_str("history"));
    proof {
        assert(r.deep_view() =~= builtin_names());
    }
    r
}

/// What `type` prints for a builtin name.
pub fn type_builtin_message(name: &String) -> (r: String)
    ensures
        r@ == name@ + " is a shell builtin"@,
{
    let mut r = name.clone();
    r.append(" is a shell builtin");
    r
}

/// What `type` prints for a name resolved on the search path.
pub fn type_found_message(name: &String, path: &String) -> (r: String)
    ensures
        r@ == name@ + " is "@ + path@,
{
    let mut r = name.clone();
    r.append(" is ");
    r.append(path.as_str());
    r
}

/// What `type` prints for a name it cannot resolve.
pub fn type_not_found_message(name: &String) -> (r: String)
    ensures
        r@ == name@ + ": not found"@,
{
    let mut r = name.clone();
    r.append(": not found");
    r
}

/// What the shell prints for an external command it cannot resolve.
pub fn command_not_found_message(name: &String) -> (r: String)
    ensures
        r@ == name@ + ": command not found"@,
{
    let mut r = name.clone();
    r.append(": command not found");
    r
}

/// What `cd` prints when the target directory cannot be entered.
pub fn cd_no_such_dir_message(path: &String) -> (r: String)
    ensures
        r@ == "cd: "@ + path@ + ": No such file or directory"@,
{
    let mut r = String::from_str("cd: ");
    r.append(path.as_str());
    r.append(": No such file or directory");
    r
}

/// What `cd` prints when `HOME` is needed but unset.
pub fn cd_home_unset_message() -> (r: String)
    ensures
        r@ == "cd: HOME not set"@,
{
    String::from_str("cd: HOME not set")
}

/// Where `cd` should go: a directory, or nowhere because `HOME` is unset.
pub enum CdResolution {
    Dir(String),
    HomeUnset,
}

/// The directory `cd` targets: with no argument or `~`, the home
/// directory (`None` when `HOME` is unset); otherwise the argument itself.
pub open spec fn cd_dir_spec(arg: Option<Seq<char>>, home: Option<Seq<char>>) -> Option<
    Seq<char>,
> {
    match arg {
        None => home,
        Some(a) => if a == "~"@ {
            home
        } else {
            Some(a)
        },
    }
}

/// The target directory of an optional `cd` argument, given the value of
/// the `HOME` environment variable.
pub fn resolve_cd_target(arg: Option<&String>, home: Option<&String>) -> (r: CdResolution)
    ensures
        match r {
            CdResolution::Dir(d) => cd_dir_spec(
                match arg {
                    Some(a) => Some(a@),
                    None => None,
                },
                match home {
                    Some(h) => Some(h@),
                    None => None,
                },
            ) == Some(d@),
            CdResolution::HomeUnset => cd_dir_spec(
                match arg {
                    Some(a) => Some(a@),
                    None => None,
                },
                match home {
                    Some(h) => Some(h@),
                    None => None,
                },
            ) is None,
        },
{
    let wants_home = match arg {
        None => true,
        Some(a) => crate::strutil::str_eq(a.as_str(), "~"),
    };
    if wants_home {
        match home {
            Some(h) => CdResolution::Dir(h.clone()),
            None => CdResolution::HomeUnset,
        }
    } else {
        match arg {
            Some(a) => CdResolution::Dir(a.clone()),
            None => CdResolution::HomeUnset,
        }
    }
}

} // verus!
