//! The quote-aware tokenizer and the pipeline splitter.
//!
//! [`parse_input`] turns a raw command line into word tokens and pipe
//! markers, honoring single quotes, double quotes and backslash escapes.
//! [`split_by_pipe`] groups the tokens into commands, one per pipeline
//! stage, never producing an empty command.

use vstd::prelude::*;
use crate::strutil::is_space;

verus! {

/// The tokenizer's mode: outside quotes, inside single or double quotes,
/// or just after a backslash (outside or inside double quotes).
pub enum TokMode {
    Unquoted,
    UnqEscaped,
    InSingle,
    InDouble,
    DqEscaped,
}

/// One character of tokenizing: the next mode, accumulated word and
/// emitted tokens after reading `c` in `mode`.
pub open spec fn tok_step(mode: TokMode, c: char, cur: Seq<char>, acc: Seq<Seq<char>>) -> (
    TokMode,
    Seq<char>,
    Seq<Seq<char>>,
) {
    match mode {
        TokMode::InSingle => {
            if c == '\'' {
                (TokMode::Unquoted, cur, acc)
            } else {
                (TokMode::InSingle, cur.push(c), acc)
            }
        },
        TokMode::DqEscaped => {
            if c == '"' || c == '\\' {
                (TokMode::InDouble, cur.push(c), acc)
            } else {
                (TokMode::InDouble, cur.push('\\').push(c), acc)
            }
        },
        TokMode::InDouble => {
            if c == '\\' {
                (TokMode::DqEscaped, cur, acc)
            } else if c == '"' {
                (TokMode::Unquoted, cur, acc)
            } else {
                (TokMode::InDouble, cur.push(c), acc)
            }
        },
        TokMode::UnqEscaped => (TokMode::Unquoted, cur.push(c), acc),
        TokMode::Unquoted => {
            if c == '\\' {
                (TokMode::UnqEscaped, cur, acc)
            } else if c == '\'' {
                (TokMode::InSingle, cur, acc)
            } else if c == '"' {
                (TokMode::InDouble, cur, acc)
            } else if c == '|' {
                let emitted = if cur.len() > 0 {
                    acc.push(cur)
                } else {
                    acc
                };
                (TokMode::Unquoted, Seq::empty(), emitted.push(seq!['|']))
            } else if is_space(c) {
                if cur.len() > 0 {
                    (TokMode::Unquoted, Seq::empty(), acc.push(cur))
                } else {
                    (TokMode::Unquoted, cur, acc)
                }
            } else {
                (TokMode::Unquoted, cur.push(c), acc)
            }
        },
    }
}

/// The tokenizer, run over `s` from position `i` with the current mode,
/// the word accumulated so far and the tokens emitted so far.
/// At the end of input a non-empty accumulated word is emitted as-is, so
/// unterminated quotes or a trailing backslash lose no characters.
pub open spec fn tok_run(
    s: Seq<char>,
    i: int,
    mode: TokMode,
    cur: Seq<char>,
    acc: Seq<Seq<char>>,
) -> Seq<Seq<char>>
    decreases s.len() - i,
{
    if i < 0 || i >= s.len() {
        if cur.len() > 0 {
            acc.push(cur)
        } else {
            acc
        }
    } else {
        let (m2, cur2, acc2) = tok_step(mode, s[i], cur, acc);
        tok_run(s, i + 1, m2, cur2, acc2)
    }
}

/// The tokens of a raw command line: word tokens and `|` markers, in order.
pub open spec fn tokenize(s: Seq<char>) -> Seq<Seq<char>> {
    tok_run(s, 0, TokMode::Unquoted, Seq::empty(), Seq::empty())
}

/// The tokenizer's mode encoded by the three flags the loop keeps.
pub open spec fn mode_of(in_single: bool, in_double: bool, escaped: bool) -> TokMode {
    if in_single {
        TokMode::InSingle
    } else if in_double {
        if escaped {
            TokMode::DqEscaped
        } else {
            TokMode::InDouble
        }
    } else {
        if escaped {
            TokMode::UnqEscaped
        } else {
            TokMode::Unquoted
        }
    }
}

/// Tokenize a raw command line.
///
/// Single quotes make every character literal; inside double quotes only
/// `\"` and `\\` are escapes and any other backslash sequence is kept
/// whole; an unquoted backslash makes the next character literal; unquoted
/// whitespace separates words; an unquoted `|` ends the current word and
/// is emitted as a marker token of its own.
pub fn parse_input(input: &str) -> (r: Vec<String>)
    ensures
        r.deep_view() == tokenize(input@),
{
    let chars = crate::strutil::str_to_chars(input);
    let n = chars.len();
    let mut args: Vec<String> = Vec::new();
    let mut current_arg = String::new();
    let mut in_single_quote = false;
    let mut in_double_quote = false;
    let mut escaped = false;
    let mut i: usize = 0;
    proof {
        assert(args.deep_view() =~= Seq::<Seq<char>>::empty());
    }
    while i < n
        invariant
            i <= n,
            n == chars.len(),
            chars@ == input@,
            in_single_quote ==> !in_double_quote && !escaped,
            tokenize(input@) == tok_run(
                input@,
                i as int,
                mode_of(in_single_quote, in_double_quote, escaped),
                current_arg@,
                args.deep_view(),
            ),
        decreases n - i,
    {
        let c = chars[i];
        let ghost pre_mode = mode_of(in_single_quote, in_double_quote, escaped);
        let ghost pre_args = args.deep_view();
        let ghost pre_cur = current_arg@;
        if in_single_quote {
            if c == '\'' {
                in_single_quote = false;
            } else {
                current_arg.push(c);
            }
        } else if in_double_quote {
            if escaped {
                if c == '"' || c == '\\' {
                    current_arg.push(c);
                } else {
                    current_arg.push('\\');
                    current_arg.push(c);
                }
                escaped = false;
            } else if c == '\\' {
                escaped = true;
            } else if c == '"' {
                in_double_quote = false;
            } else {
                current_arg.push(c);
            }
        } else {
            if escaped {
                current_arg.push(c);
                escaped = false;
            } else if c == '\\' {
                escaped = true;
            } else if c == '\'' {
                in_single_quote = true;
            } else if c == '"' {
                in_double_quote = true;
            } else if c == '|' {
                if !current_arg.as_str().is_empty() {
                    args.push(current_arg);
                    proof {
                        assert(args.deep_view() =~= pre_args.push(pre_cur));
                    }
                    current_arg = String::new();
                }
                let ghost emitted = args.deep_view();
                let mut pipe_tok = String::new();
                pipe_tok.push('|');
                proof {
                    assert(pipe_tok@ =~= seq!['|']);
                }
                args.push(pipe_tok);
                current_arg = String::new();
                proof {
                    assert(args.deep_view() =~= emitted.push(seq!['|']));
                }
            } else if crate::strutil::is_space_char(c) {
                if !current_arg.as_str().is_empty() {
                    args.push(current_arg);
                    proof {
                        assert(args.deep_view() =~= pre_args.push(pre_cur));
                    }
                    current_arg = String::new();
                }
            } else {
                current_arg.push(c);
            }
        }
        proof {
            assert(tok_run(input@, i as int, pre_mode, pre_cur, pre_args) == tok_run(
                input@,
                i as int + 1,
                mode_of(in_single_quote, in_double_quote, escaped),
                current_arg@,
                args.deep_view(),
            ));
        }
        i = i + 1;
    }
    if !current_arg.as_str().is_empty() {
        let ghost pre_args = args.deep_view();
        let ghost pre_cur = current_arg@;
        args.push(current_arg);
        proof {
            assert(args.deep_view() =~= pre_args.push(pre_cur));
        }
    }
    args
}

/// Tokenizing from position `i` only reads the suffix: running over `s`
/// from `i` equals running over `s.skip(i)` from the start.
pub proof fn lemma_tok_run_shift(
    s: Seq<char>,
    i: int,
    mode: TokMode,
    cur: Seq<char>,
    acc: Seq<Seq<char>>,
)
    requires
        0 <= i <= s.len(),
    ensures
        tok_run(s, i, mode, cur, acc) == tok_run(s.skip(i), 0, mode, cur, acc),
    decreases s.len() - i,
{
    let t = s.skip(i);
    if i == s.len() {
        assert(t.len() == 0);
    } else {
        assert(t[0] == s[i]);
        let (m2, cur2, acc2) = tok_step(mode, s[i], cur, acc);
        lemma_tok_run_shift(s, i + 1, m2, cur2, acc2);
        lemma_tok_run_shift(t, 1, m2, cur2, acc2);
        assert(t.skip(1) =~= s.skip(i + 1));
    }
}

/// A double-quoted body is clean: every backslash is followed by another
/// character, and every double quote in it is escaped.
pub open spec fn dq_clean(s: Seq<char>) -> bool
    decreases s.len(),
{
    if s.len() == 0 {
        true
    } else if s[0] == '\\' {
        s.len() >= 2 && dq_clean(s.skip(2))
    } else {
        s[0] != '"' && dq_clean(s.drop_first())
    }
}

/// What a double-quoted body contributes to its word: `\"` yields `"`,
/// `\\` yields `\`, a backslash before any other character is kept
/// together with that character, and everything else is literal.
pub open spec fn dq_unescape(s: Seq<char>) -> Seq<char>
    decreases s.len(),
{
    if s.len() == 0 {
        Seq::empty()
    } else if s[0] == '\\' {
        if s.len() == 1 {
            Seq::empty()
        } else {
            (if s[1] == '"' || s[1] == '\\' {
                seq![s[1]]
            } else {
                seq!['\\', s[1]]
            }) + dq_unescape(s.skip(2))
        }
    } else {
        seq![s[0]] + dq_unescape(s.drop_first())
    }
}

/// Tokenizing a clean double-quoted body appends exactly its unescaped
/// characters to the word in progress, whatever follows.
pub proof fn lemma_dq_segment(
    s: Seq<char>,
    rest: Seq<char>,
    cur: Seq<char>,
    acc: Seq<Seq<char>>,
)
    requires
        dq_clean(s),
    ensures
        tok_run(s + rest, 0, TokMode::InDouble, cur, acc) == tok_run(
            rest,
            0,
            TokMode::InDouble,
            cur + dq_unescape(s),
            acc,
        ),
    decreases s.len(),
{
    let full = s + rest;
    if s.len() == 0 {
        assert(full =~= rest);
        assert(cur + dq_unescape(s) =~= cur);
    } else if s[0] == '\\' {
        assert(full[0] == '\\');
        assert(full[1] == s[1]);
        let cur2 = if s[1] == '"' || s[1] == '\\' {
            cur.push(s[1])
        } else {
            cur.push('\\').push(s[1])
        };
        assert(tok_run(full, 0, TokMode::InDouble, cur, acc) == tok_run(
            full,
            1,
            TokMode::DqEscaped,
            cur,
            acc,
        ));
        assert(tok_run(full, 1, TokMode::DqEscaped, cur, acc) == tok_run(
            full,
            2,
            TokMode::InDouble,
            cur2,
            acc,
        ));
        lemma_tok_run_shift(full, 2, TokMode::InDouble, cur2, acc);
        assert(full.skip(2) =~= s.skip(2) + rest);
        lemma_dq_segment(s.skip(2), rest, cur2, acc);
        assert(cur2 + dq_unescape(s.skip(2)) =~= cur + dq_unescape(s));
    } else {
        assert(full[0] == s[0]);
        assert(s[0] != '"' && s[0] != '\\');
        assert(tok_run(full, 0, TokMode::InDouble, cur, acc) == tok_run(
            full,
            1,
            TokMode::InDouble,
            cur.push(s[0]),
            acc,
        ));
        lemma_tok_run_shift(full, 1, TokMode::InDouble, cur.push(s[0]), acc);
        assert(full.skip(1) =~= s.drop_first() + rest);
        lemma_dq_segment(s.drop_first(), rest, cur.push(s[0]), acc);
        assert(cur.push(s[0]) + dq_unescape(s.drop_first()) =~= cur + dq_unescape(s));
    }
}

/// Tokenizing a whole double-quoted word `"s"` with a clean body yields
/// exactly the unescaped body as one token: inside double quotes only
/// `\"` and `\\` collapse, and any other backslash sequence is preserved
/// whole. An empty unescaped body yields no token at all.
pub proof fn lemma_double_quoted_word(s: Seq<char>)
    requires
        dq_clean(s),
    ensures
        tokenize(seq!['"'] + s + seq!['"']) == if dq_unescape(s).len() > 0 {
            seq![dq_unescape(s)]
        } else {
            Seq::<Seq<char>>::empty()
        },
{
    let full = seq!['"'] + s + seq!['"'];
    let w = dq_unescape(s);
    assert(full[0] == '"');
    assert(tok_run(full, 0, TokMode::Unquoted, Seq::empty(), Seq::empty()) == tok_run(
        full,
        1,
        TokMode::InDouble,
        Seq::empty(),
        Seq::empty(),
    ));
    lemma_tok_run_shift(full, 1, TokMode::InDouble, Seq::empty(), Seq::empty());
    assert(full.skip(1) =~= s + seq!['"']);
    lemma_dq_segment(s, seq!['"'], Seq::empty(), Seq::empty());
    assert(Seq::empty() + w =~= w);
    assert(tok_run(seq!['"'], 0, TokMode::InDouble, w, Seq::empty()) == tok_run(
        seq!['"'],
        1,
        TokMode::Unquoted,
        w,
        Seq::empty(),
    ));
    if w.len() > 0 {
        assert(Seq::<Seq<char>>::empty().push(w) =~= seq![w]);
    }
}

/// An unquoted backslash appends the next character literally, whatever
/// it is and wherever it stands in the line: an escaped space does not
/// split the word, an escaped quote opens no quote, an escaped pipe is
/// no marker.
pub proof fn lemma_unquoted_backslash(
    c: char,
    rest: Seq<char>,
    cur: Seq<char>,
    acc: Seq<Seq<char>>,
)
    ensures
        tok_run(seq!['\\', c] + rest, 0, TokMode::Unquoted, cur, acc) == tok_run(
            rest,
            0,
            TokMode::Unquoted,
            cur.push(c),
            acc,
        ),
{
    let full = seq!['\\', c] + rest;
    assert(full[0] == '\\');
    assert(full[1] == c);
    assert(tok_run(full, 0, TokMode::Unquoted, cur, acc) == tok_run(
        full,
        1,
        TokMode::UnqEscaped,
        cur,
        acc,
    ));
    assert(tok_run(full, 1, TokMode::UnqEscaped, cur, acc) == tok_run(
        full,
        2,
        TokMode::Unquoted,
        cur.push(c),
        acc,
    ));
    lemma_tok_run_shift(full, 2, TokMode::Unquoted, cur.push(c), acc);
    assert(full.skip(2) =~= rest);
}

/// The line holds none of the characters the tokenizer treats specially.
pub open spec fn plain_chars(s: Seq<char>) -> bool {
    forall|i: int|
        0 <= i < s.len() ==> (#[trigger] s[i] != '\'' && s[i] != '"' && s[i] != '\\' && s[i]
            != '|')
}

/// Splitting on whitespace runs: words are the maximal runs of
/// non-whitespace characters, in order, with no empty words.
pub open spec fn ws_run(s: Seq<char>, i: int, cur: Seq<char>, acc: Seq<Seq<char>>) -> Seq<
    Seq<char>,
>
    decreases s.len() - i,
{
    if i < 0 || i >= s.len() {
        if cur.len() > 0 {
            acc.push(cur)
        } else {
            acc
        }
    } else if is_space(s[i]) {
        ws_run(
            s,
            i + 1,
            Seq::empty(),
            if cur.len() > 0 {
                acc.push(cur)
            } else {
                acc
            },
        )
    } else {
        ws_run(s, i + 1, cur.push(s[i]), acc)
    }
}

/// The whitespace-separated words of `s`.
pub open spec fn ws_split(s: Seq<char>) -> Seq<Seq<char>> {
    ws_run(s, 0, Seq::empty(), Seq::empty())
}

/// On a plain line the tokenizer is exactly the whitespace splitter.
proof fn lemma_plain_run(s: Seq<char>, i: int, cur: Seq<char>, acc: Seq<Seq<char>>)
    requires
        plain_chars(s),
        0 <= i <= s.len(),
    ensures
        tok_run(s, i, TokMode::Unquoted, cur, acc) == ws_run(s, i, cur, acc),
    decreases s.len() - i,
{
    if i < s.len() {
        assert(s[i] != '\'' && s[i] != '"' && s[i] != '\\' && s[i] != '|');
        if is_space(s[i]) {
            if cur.len() == 0 {
                assert(cur =~= Seq::<char>::empty());
            }
            lemma_plain_run(
                s,
                i + 1,
                Seq::empty(),
                if cur.len() > 0 {
                    acc.push(cur)
                } else {
                    acc
                },
            );
        } else {
            lemma_plain_run(s, i + 1, cur.push(s[i]), acc);
        }
    }
}

/// A line holding no quote, backslash or pipe character tokenizes
/// exactly as splitting it on whitespace runs does: one word per maximal
/// non-whitespace run, in order, never an empty word.
pub proof fn lemma_plain_line_splits_on_whitespace(s: Seq<char>)
    requires
        plain_chars(s),
    ensures
        tokenize(s) == ws_split(s),
{
    lemma_plain_run(s, 0, Seq::empty(), Seq::empty());
}

/// A token that is exactly the pipe marker.
pub open spec fn is_pipe_tok(t: Seq<char>) -> bool {
    t == seq!['|']
}

/// Executable test for [`is_pipe_tok`].
pub fn is_pipe_token(t: &String) -> (r: bool)
    ensures
        r == is_pipe_tok(t@),
{
    let s = t.as_str();
    if s.unicode_len() == 1 {
        let r = s.get_char(0) == '|';
        proof {
            if r {
                assert(t@ =~= seq!['|']);
            } else {
                assert(t@ != seq!['|']);
            }
        }
        r
    } else {
        proof {
            assert(t@.len() != 1);
        }
        false
    }
}

/// One step of the splitter: tokens accumulate into the current command
/// until a pipe marker; a marker with no preceding tokens is absorbed.
pub open spec fn split_run(
    toks: Seq<Seq<char>>,
    i: int,
    cur: Seq<Seq<char>>,
    acc: Seq<Seq<Seq<char>>>,
) -> Seq<Seq<Seq<char>>>
    decreases toks.len() - i,
{
    if i < 0 || i >= toks.len() {
        if cur.len() > 0 {
            acc.push(cur)
        } else {
            acc
        }
    } else if is_pipe_tok(toks[i]) {
        if cur.len() > 0 {
            split_run(toks, i + 1, Seq::empty(), acc.push(cur))
        } else {
            split_run(toks, i + 1, cur, acc)
        }
    } else {
        split_run(toks, i + 1, cur.push(toks[i]), acc)
    }
}

/// The commands of a token sequence, split on pipe markers.
pub open spec fn split_pipes(toks: Seq<Seq<char>>) -> Seq<Seq<Seq<char>>> {
    split_run(toks, 0, Seq::empty(), Seq::empty())
}

/// Group a token sequence into pipeline commands, splitting on `|` markers.
/// Leading, trailing or doubled markers produce no empty command.
pub fn split_by_pipe(args: Vec<String>) -> (r: Vec<Vec<String>>)
    ensures
        r.deep_view() == split_pipes(args.deep_view()),
{
    let mut commands: Vec<Vec<String>> = Vec::new();
    let mut current_cmd: Vec<String> = Vec::new();
    let mut i: usize = 0;
    proof {
        assert(commands.deep_view() =~= Seq::<Seq<Seq<char>>>::empty());
        assert(current_cmd.deep_view() =~= Seq::<Seq<char>>::empty());
    }
    while i < args.len()
        invariant
            i <= args.len(),
            split_pipes(args.deep_view()) == split_run(
                args.deep_view(),
                i as int,
                current_cmd.deep_view(),
                commands.deep_view(),
            ),
        decreases args.len() - i,
    {
        let ghost pre_cmds = commands.deep_view();
        let ghost pre_cur = current_cmd.deep_view();
        proof {
            assert(args.deep_view()[i as int] == args@[i as int]@);
        }
        if is_pipe_token(&args[i]) {
            if current_cmd.len() > 0 {
                commands.push(current_cmd);
                current_cmd = Vec::new();
                proof {
                    assert(commands.deep_view() =~= pre_cmds.push(pre_cur));
                    assert(current_cmd.deep_view() =~= Seq::<Seq<char>>::empty());
                }
            }
        } else {
            let tok = args[i].clone();
            current_cmd.push(tok);
            proof {
                assert(current_cmd.deep_view() =~= pre_cur.push(args.deep_view()[i as int]));
            }
        }
        i = i + 1;
    }
    if current_cmd.len() > 0 {
        let ghost pre_cmds = commands.deep_view();
        let ghost pre_cur = current_cmd.deep_view();
        commands.push(current_cmd);
        proof {
            assert(commands.deep_view() =~= pre_cmds.push(pre_cur));
        }
    }
    commands
}

/// Every command that the splitter builds is non-empty: pipe markers with
/// nothing between them are absorbed rather than yielding empty commands.
pub proof fn lemma_split_run_no_empty(
    toks: Seq<Seq<char>>,
    i: int,
    cur: Seq<Seq<char>>,
    acc: Seq<Seq<Seq<char>>>,
)
    requires
        forall|j: int| 0 <= j < acc.len() ==> #[trigger] acc[j].len() > 0,
    ensures
        forall|j: int|
            0 <= j < split_run(toks, i, cur, acc).len() ==> #[trigger] split_run(
                toks,
                i,
                cur,
                acc,
            )[j].len() > 0,
    decreases toks.len() - i,
{
    let r = split_run(toks, i, cur, acc);
    if i < 0 || i >= toks.len() {
        if cur.len() > 0 {
            assert(r == acc.push(cur));
            assert forall|j: int| 0 <= j < r.len() implies #[trigger] r[j].len() > 0 by {
                if j < acc.len() {
                    assert(acc.push(cur)[j] == acc[j]);
                } else {
                    assert(acc.push(cur)[j] == cur);
                }
            }
        } else {
            assert(r == acc);
        }
    } else if is_pipe_tok(toks[i]) {
        if cur.len() > 0 {
            assert forall|j: int| 0 <= j < acc.push(cur).len() implies #[trigger] acc.push(
                cur,
            )[j].len() > 0 by {
                if j < acc.len() {
                    assert(acc.push(cur)[j] == acc[j]);
                } else {
                    assert(acc.push(cur)[j] == cur);
                }
            }
            lemma_split_run_no_empty(toks, i + 1, Seq::empty(), acc.push(cur));
            assert(r == split_run(toks, i + 1, Seq::empty(), acc.push(cur)));
        } else {
            lemma_split_run_no_empty(toks, i + 1, cur, acc);
            assert(r == split_run(toks, i + 1, cur, acc));
        }
    } else {
        lemma_split_run_no_empty(toks, i + 1, cur.push(toks[i]), acc);
        assert(r == split_run(toks, i + 1, cur.push(toks[i]), acc));
    }
}

/// Splitting any token sequence never produces an empty command.
pub proof fn lemma_split_pipes_no_empty(toks: Seq<Seq<char>>)
    ensures
        forall|j: int|
            0 <= j < split_pipes(toks).len() ==> #[trigger] split_pipes(toks)[j].len() > 0,
{
    lemma_split_run_no_empty(toks, 0, Seq::empty(), Seq::empty());
}

} // verus!

