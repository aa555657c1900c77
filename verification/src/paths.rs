//! The pure parts of search-path resolution: splitting the `PATH`
//! variable on colons and joining a directory with a command name. The
//! file-system check on each candidate stays with the caller.

use vstd::prelude::*;

verus! {

/// Split on a separator character; `n` separators give `n + 1` pieces,
/// empty pieces included.
pub open spec fn split_char_run(
    s: Seq<char>,
    sep: char,
    cur: Seq<char>,
    acc: Seq<Seq<char>>,
) -> Seq<Seq<char>>
    decreases s.len(),
{
    if s.len() == 0 {
        acc.push(cur)
    } else if s[0] == sep {
        split_char_run(s.drop_first(), sep, Seq::empty(), acc.push(cur))
    } else {
        split_char_run(s.drop_first(), sep, cur.push(s[0]), acc)
    }
}

/// The pieces of `s` between occurrences of `sep`.
pub open spec fn split_char_spec(s: Seq<char>, sep: char) -> Seq<Seq<char>> {
    split_char_run(s, sep, Seq::empty(), Seq::empty())
}

/// Split a string on a separator character, as the shell splits `PATH`
/// on `:`.
pub fn split_char(s: &str, sep: char) -> (r: Vec<String>)
    ensures
        r.deep_view() == split_char_spec(s@, sep),
{
    let v = crate::strutil::str_to_chars(s);
    let n = v.len();
    let ghost mut acc: Seq<Seq<char>> = Seq::empty();
    let mut r: Vec<String> = Vec::new();
    let mut cur = String::new();
    let mut i: usize = 0;
    proof {
        assert(s@.skip(0) =~= s@);
        assert(r.deep_view() =~= acc);
    }
    while i < n
        invariant
            i <= n,
            n == v.len(),
            v@ == s@,
            r.deep_view() == acc,
            split_char_spec(s@, sep) == split_char_run(s@.skip(i as int), sep, cur@, acc),
        decreases n - i,
    {
        proof {
            assert(s@.skip(i as int)[0] == s@[i as int]);
            assert(s@.skip(i as int).drop_first() =~= s@.skip(i as int + 1));
        }
        let c = v[i];
        if c == sep {
            let ghost pre = r.deep_view();
            let ghost piece = cur@;
            r.push(cur);
            cur = String::new();
            proof {
                assert(r.deep_view() =~= pre.push(piece));
                acc = acc.push(piece);
            }
        } else {
            cur.push(c);
        }
        i = i + 1;
    }
    proof {
        assert(s@.skip(n as int).len() == 0);
    }
    let ghost pre = r.deep_view();
    let ghost piece = cur@;
    r.push(cur);
    proof {
        assert(r.deep_view() =~= pre.push(piece));
    }
    r
}

/// Joining a directory and a file name the way path appending works: an
/// absolute name stands alone, an empty directory adds nothing, and a
/// separator is inserted only where one is missing.
pub open spec fn join_path_spec(dir: Seq<char>, name: Seq<char>) -> Seq<char> {
    if name.len() > 0 && name[0] == '/' {
        name
    } else if dir.len() == 0 {
        name
    } else if dir[dir.len() - 1] == '/' {
        dir + name
    } else {
        dir + seq!['/'] + name
    }
}

/// The candidate path for a command name in one search-path directory.
pub fn join_path(dir: &String, name: &str) -> (r: String)
    ensures
        r@ == join_path_spec(dir@, name@),
{
    let name_chars = crate::strutil::str_to_chars(name);
    if name_chars.len() > 0 && name_chars[0] == '/' {
        let mut r = String::new();
        r.append(name);
        proof {
            assert(r@ =~= name@);
        }
        return r;
    }
    let dir_chars = crate::strutil::str_to_chars(dir.as_str());
    if dir_chars.len() == 0 {
        let mut r = String::new();
        r.append(name);
        proof {
            assert(r@ =~= name@);
        }
        return r;
    }
    let mut r = dir.clone();
    if dir_chars[dir_chars.len() - 1] != '/' {
        r.push('/');
    }
    r.append(name);
    r
}

} // verus!
