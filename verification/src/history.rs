//! The `history` builtin's logic: classifying its arguments, formatting
//! the numbered listing, rendering the history file, and reading one
//! back. Writing then reading a history file reconstructs the same
//! entries, which [`lemma_history_round_trip`] proves.

use vstd::prelude::*;
use crate::strutil::trim_spec;

verus! {

/// The decimal digit character for `d`.
pub open spec fn digit_char(d: int) -> char {
    if d == 0 {
        '0'
    } else if d == 1 {
        '1'
    } else if d == 2 {
        '2'
    } else if d == 3 {
        '3'
    } else if d == 4 {
        '4'
    } else if d == 5 {
        '5'
    } else if d == 6 {
        '6'
    } else if d == 7 {
        '7'
    } else if d == 8 {
        '8'
    } else {
        '9'
    }
}

/// The decimal digits of `n`, most significant first.
pub open spec fn dec_digits(n: int) -> Seq<char>
    decreases n,
{
    if n < 10 {
        seq![digit_char(n)]
    } else {
        dec_digits(n / 10).push(digit_char(n % 10))
    }
}

/// The digit character for a value below ten.
fn digit_char_of(d: usize) -> (c: char)
    requires
        d < 10,
    ensures
        c == digit_char(d as int),
{
    match d {
        0 => '0',
        1 => '1',
        2 => '2',
        3 => '3',
        4 => '4',
        5 => '5',
        6 => '6',
        7 => '7',
        8 => '8',
        _ => '9',
    }
}

/// Format `n` in decimal.
pub fn usize_to_string(n: usize) -> (r: String)
    ensures
        r@ == dec_digits(n as int),
    decreases n,
{
    if n < 10 {
        let mut r = String::new();
        r.push(digit_char_of(n));
        proof {
            assert(r@ =~= seq![digit_char(n as int)]);
        }
        r
    } else {
        let mut r = usize_to_string(n / 10);
        r.push(digit_char_of(n % 10));
        r
    }
}

/// `s` padded on the left with spaces to at least `width` characters.
pub open spec fn pad_left_spec(s: Seq<char>, width: int) -> Seq<char> {
    if s.len() >= width {
        s
    } else {
        Seq::new((width - s.len()) as nat, |i: int| ' ') + s
    }
}

/// Pad a string on the left with spaces to at least `width` characters.
pub fn pad_left(s: String, width: usize) -> (r: String)
    ensures
        r@ == pad_left_spec(s@, width as int),
{
    let n = s.as_str().unicode_len();
    if n >= width {
        return s;
    }
    let mut r = String::new();
    let mut i: usize = 0;
    while i < width - n
        invariant
            n == s@.len(),
            n < width,
            i <= width - n,
            r@ =~= Seq::new(i as nat, |k: int| ' '),
        decreases width - n - i,
    {
        r.push(' ');
        i = i + 1;
        proof {
            assert(r@ =~= Seq::new(i as nat, |k: int| ' '));
        }
    }
    r.append(s.as_str());
    proof {
        assert(r@ =~= pad_left_spec(s@, width as int));
    }
    r
}

/// One listing line: the 1-based index right-aligned to five columns,
/// two spaces, then the entry.
pub open spec fn history_line(idx: int, e: Seq<char>) -> Seq<char> {
    pad_left_spec(dec_digits(idx), 5) + seq![' ', ' '] + e
}

/// The listing of the last `n` entries, in submission order.
pub open spec fn listing_spec(h: Seq<Seq<char>>, n: int) -> Seq<Seq<char>> {
    let shown = if n < h.len() {
        n
    } else {
        h.len() as int
    };
    let start = h.len() - shown;
    Seq::new(shown as nat, |j: int| history_line(start + j + 1, h[start + j]))
}

/// The lines the `history` builtin prints: the last `n` entries with
/// their 1-based indices, oldest first.
pub fn history_listing(history: &Vec<String>, n: usize) -> (r: Vec<String>)
    ensures
        r.deep_view() == listing_spec(history.deep_view(), n as int),
{
    let len = history.len();
    let start = if n < len {
        len - n
    } else {
        0
    };
    let mut r: Vec<String> = Vec::new();
    let mut j: usize = start;
    while j < len
        invariant
            start <= j <= len,
            len == history.len(),
            start == if (n as int) < len as int {
                len - n
            } else {
                0
            },
            r.deep_view() =~= Seq::new(
                (j - start) as nat,
                |k: int| history_line(start + k + 1, history.deep_view()[start + k]),
            ),
        decreases len - j,
    {
        let num = usize_to_string(j + 1);
        let mut line = pad_left(num, 5);
        line.append("  ");
        line.append(history[j].as_str());
        proof {
            assert(history.deep_view()[j as int] == history@[j as int]@);
            reveal_strlit("  ");
            assert(line@ =~= history_line(j as int + 1, history.deep_view()[j as int]));
        }
        let ghost pre_dv = r.deep_view();
        let ghost line_view = line@;
        r.push(line);
        j = j + 1;
        proof {
            assert(r.deep_view() =~= pre_dv.push(line_view));
            assert(r.deep_view() =~= Seq::new(
                (j - start) as nat,
                |k: int| history_line(start + k + 1, history.deep_view()[start + k]),
            ));
        }
    }
    proof {
        assert(r.deep_view() =~= listing_spec(history.deep_view(), n as int));
    }
    r
}

/// `c` is a decimal digit.
pub open spec fn is_digit(c: char) -> bool {
    48 <= c as u32 <= 57
}

/// The value of digit `c`.
pub open spec fn digit_val(c: char) -> int {
    c as u32 - 48
}

/// The value of a digit string, most significant first.
pub open spec fn digits_val(s: Seq<char>) -> int
    decreases s.len(),
{
    if s.len() == 0 {
        0
    } else {
        digits_val(s.drop_last()) * 10 + digit_val(s.last())
    }
}

/// All characters are digits.
pub open spec fn all_digits(s: Seq<char>) -> bool {
    forall|i: int| 0 <= i < s.len() ==> is_digit(#[trigger] s[i])
}

/// What `usize` parsing accepts: an optional leading `+`, then at least
/// one digit, with a value that fits.
pub open spec fn parse_usize_spec(s: Seq<char>) -> Option<int> {
    let body = if s.len() > 0 && s[0] == '+' {
        s.drop_first()
    } else {
        s
    };
    if body.len() > 0 && all_digits(body) && digits_val(body) <= usize::MAX {
        Some(digits_val(body))
    } else {
        None
    }
}

/// A digit string's value is non-negative.
pub proof fn lemma_digits_val_nonneg(s: Seq<char>)
    requires
        all_digits(s),
    ensures
        digits_val(s) >= 0,
    decreases s.len(),
{
    if s.len() > 0 {
        assert(all_digits(s.drop_last())) by {
            assert(forall|i: int|
                0 <= i < s.len() - 1 ==> #[trigger] s.drop_last()[i] == s[i]);
        }
        lemma_digits_val_nonneg(s.drop_last());
        assert(digit_val(s.last()) >= 0);
    }
}

/// A digit string is worth at least any of its prefixes.
pub proof fn lemma_digits_val_prefix(s: Seq<char>, j: int)
    requires
        all_digits(s),
        0 <= j <= s.len(),
    ensures
        digits_val(s.subrange(0, j)) <= digits_val(s),
    decreases s.len() - j,
{
    if j == s.len() {
        assert(s.subrange(0, j) =~= s);
    } else {
        assert(all_digits(s.drop_last())) by {
            assert(forall|i: int|
                0 <= i < s.len() - 1 ==> #[trigger] s.drop_last()[i] == s[i]);
        }
        assert(s.subrange(0, j) =~= s.drop_last().subrange(0, j));
        lemma_digits_val_prefix(s.drop_last(), j);
        lemma_digits_val_nonneg(s.drop_last());
        assert(digits_val(s) >= digits_val(s.drop_last()));
    }
}

/// Parse an unsigned decimal number, exactly as the `history` builtin
/// reads its count argument: `None` on an empty or malformed string or
/// a value that does not fit.
pub fn parse_usize(s: &str) -> (r: Option<usize>)
    ensures
        match r {
            Some(v) => parse_usize_spec(s@) == Some(v as int),
            None => parse_usize_spec(s@) is None,
        },
{
    let v = crate::strutil::str_to_chars(s);
    let n = v.len();
    let start: usize = if n > 0 && v[0] == '+' {
        1
    } else {
        0
    };
    let ghost body = if s@.len() > 0 && s@[0] == '+' {
        s@.drop_first()
    } else {
        s@
    };
    proof {
        assert(body =~= s@.subrange(start as int, n as int));
    }
    if start >= n {
        return None;
    }
    let mut acc: usize = 0;
    let mut i: usize = start;
    while i < n
        invariant
            start <= i <= n,
            n == v.len(),
            v@ == s@,
            body == s@.subrange(start as int, n as int),
            body == (if s@.len() > 0 && s@[0] == '+' {
                s@.drop_first()
            } else {
                s@
            }),
            all_digits(s@.subrange(start as int, i as int)),
            acc == digits_val(s@.subrange(start as int, i as int)),
        decreases n - i,
    {
        let c = v[i];
        let code = c as u32;
        if code < 48 || code > 57 {
            proof {
                assert(body[i - start] == s@[i as int]);
                assert(!is_digit(body[i - start]));
                assert(!all_digits(body));
                assert(parse_usize_spec(s@) is None);
            }
            return None;
        }
        let d = (code - 48) as usize;
        let ghost pre = s@.subrange(start as int, i as int);
        let ghost cur = s@.subrange(start as int, i as int + 1);
        proof {
            assert(cur.drop_last() =~= pre);
            assert(cur.last() == s@[i as int]);
            assert(all_digits(cur)) by {
                assert(forall|k: int| 0 <= k < pre.len() ==> cur[k] == #[trigger] pre[k]);
            }
        }
        if acc > (usize::MAX - d) / 10 {
            proof {
                assert(digits_val(cur) > usize::MAX) by {
                    assert(acc * 10 + d > usize::MAX) by (nonlinear_arith)
                        requires
                            acc > (usize::MAX - d) / 10,
                            d < 10,
                    ;
                }
                if all_digits(body) {
                    lemma_digits_val_prefix(body, i + 1 - start as int);
                    assert(body.subrange(0, i + 1 - start as int) =~= cur);
                    assert(digits_val(body) > usize::MAX);
                }
                assert(parse_usize_spec(s@) is None);
            }
            return None;
        }
        acc = acc * 10 + d;
        i = i + 1;
    }
    proof {
        assert(s@.subrange(start as int, n as int) =~= body);
    }
    Some(acc)
}

/// The history file's contents: every entry, each followed by a newline.
pub open spec fn render_history_spec(h: Seq<Seq<char>>) -> Seq<char>
    decreases h.len(),
{
    if h.len() == 0 {
        Seq::empty()
    } else {
        h[0] + seq!['\n'] + render_history_spec(h.drop_first())
    }
}

/// Rendering distributes over concatenation of entry lists.
proof fn lemma_render_concat(a: Seq<Seq<char>>, b: Seq<Seq<char>>)
    ensures
        render_history_spec(a + b) == render_history_spec(a) + render_history_spec(b),
    decreases a.len(),
{
    if a.len() == 0 {
        assert(a + b =~= b);
        assert(render_history_spec(a) + render_history_spec(b) =~= render_history_spec(b));
    } else {
        assert((a + b).drop_first() =~= a.drop_first() + b);
        lemma_render_concat(a.drop_first(), b);
        assert((a + b)[0] == a[0]);
        assert(render_history_spec(a + b) =~= render_history_spec(a) + render_history_spec(b));
    }
}

/// Render the history for `history -w`: one entry per line.
pub fn render_history(history: &Vec<String>) -> (r: String)
    ensures
        r@ == render_history_spec(history.deep_view()),
{
    let mut r = String::new();
    let mut i: usize = 0;
    proof {
        assert(history.deep_view().subrange(0, 0) =~= Seq::<Seq<char>>::empty());
    }
    while i < history.len()
        invariant
            i <= history.len(),
            r@ == render_history_spec(history.deep_view().subrange(0, i as int)),
        decreases history.len() - i,
    {
        let ghost pre = history.deep_view().subrange(0, i as int);
        r.append(history[i].as_str());
        r.push('\n');
        i = i + 1;
        proof {
            let cur = history.deep_view().subrange(0, i as int);
            assert(cur =~= pre + seq![history.deep_view()[i - 1]]);
            lemma_render_concat(pre, seq![history.deep_view()[i - 1]]);
            assert(history.deep_view()[i - 1] == history@[i - 1]@);
            assert(render_history_spec(Seq::<Seq<char>>::empty()) =~= Seq::<char>::empty());
            assert(seq![history.deep_view()[i - 1]].drop_first()
                =~= Seq::<Seq<char>>::empty());
            assert(render_history_spec(seq![history.deep_view()[i - 1]]) =~= history@[i - 1]@
                + seq!['\n']);
            assert(r@ =~= render_history_spec(cur));
        }
    }
    proof {
        assert(history.deep_view().subrange(0, history.len() as int) =~= history.deep_view());
    }
    r
}

/// Read history-file contents: each line is trimmed and kept when
/// non-empty, in order.
pub open spec fn read_run(s: Seq<char>, cur: Seq<char>, acc: Seq<Seq<char>>) -> Seq<Seq<char>>
    decreases s.len(),
{
    if s.len() == 0 {
        if trim_spec(cur).len() > 0 {
            acc.push(trim_spec(cur))
        } else {
            acc
        }
    } else if s[0] == '\n' {
        read_run(
            s.drop_first(),
            Seq::empty(),
            if trim_spec(cur).len() > 0 {
                acc.push(trim_spec(cur))
            } else {
                acc
            },
        )
    } else {
        read_run(s.drop_first(), cur.push(s[0]), acc)
    }
}

/// The entries read from history-file contents.
pub open spec fn read_history_lines(s: Seq<char>) -> Seq<Seq<char>> {
    read_run(s, Seq::empty(), Seq::empty())
}

/// Append the entries of a history file to the in-memory history, as
/// `history -r` does: line by line, trimmed, empty lines skipped.
pub fn append_history_lines(history: &mut Vec<String>, contents: &str)
    ensures
        final(history).deep_view() == old(history).deep_view() + read_history_lines(contents@),
{
    let v = crate::strutil::str_to_chars(contents);
    let n = v.len();
    let ghost base = old(history).deep_view();
    let ghost mut acc: Seq<Seq<char>> = Seq::empty();
    let mut cur = String::new();
    let mut i: usize = 0;
    proof {
        assert(contents@.skip(0) =~= contents@);
        assert(history.deep_view() =~= base + acc);
    }
    while i < n
        invariant
            i <= n,
            n == v.len(),
            v@ == contents@,
            history.deep_view() == base + acc,
            read_history_lines(contents@) == read_run(contents@.skip(i as int), cur@, acc),
        decreases n - i,
    {
        proof {
            assert(contents@.skip(i as int)[0] == contents@[i as int]);
            assert(contents@.skip(i as int).drop_first() =~= contents@.skip(i as int + 1));
        }
        let c = v[i];
        if c == '\n' {
            let line = crate::strutil::trim(cur.as_str());
            if !line.as_str().is_empty() {
                let ghost pre = history.deep_view();
                history.push(line);
                proof {
                    assert(history.deep_view() =~= pre.push(trim_spec(cur@)));
                    acc = acc.push(trim_spec(cur@));
                    assert(base + acc =~= pre.push(trim_spec(cur@)));
                }
            }
            cur = String::new();
        } else {
            cur.push(c);
        }
        i = i + 1;
    }
    proof {
        assert(contents@.skip(n as int).len() == 0);
    }
    let line = crate::strutil::trim(cur.as_str());
    if !line.as_str().is_empty() {
        let ghost pre = history.deep_view();
        history.push(line);
        proof {
            assert(history.deep_view() =~= pre.push(trim_spec(cur@)));
            assert(base + acc.push(trim_spec(cur@)) =~= (base + acc).push(trim_spec(cur@)));
        }
    }
}

/// What a `history` invocation asks for.
pub enum HistoryRequest {
    /// List the last `n` entries.
    List(usize),
    /// `-r FILE`: read entries from the file.
    ReadFile(String),
    /// `-w FILE`: overwrite the file with the entries.
    WriteFile(String),
    /// `-r` without a filename.
    ReadMissingFile,
    /// `-w` without a filename.
    WriteMissingFile,
}

/// The count a `history` listing shows: the first argument parsed as a
/// number, or everything when there is no argument or it is not a number.
pub open spec fn listing_count_spec(args: Seq<Seq<char>>, history_len: int) -> int {
    if args.len() > 0 && parse_usize_spec(args[0]) is Some {
        parse_usize_spec(args[0])->Some_0
    } else {
        history_len
    }
}

/// Classify the arguments of the `history` builtin: `-r FILE`, `-w FILE`,
/// the same flags without a filename, or a listing with an optional count.
pub fn plan_history(args: &Vec<String>, history_len: usize) -> (r: HistoryRequest)
    ensures
        match r {
            HistoryRequest::ReadFile(f) => args.deep_view().len() > 1 && args.deep_view()[0]
                == "-r"@ && f@ == args.deep_view()[1],
            HistoryRequest::ReadMissingFile => args.deep_view().len() == 1 && args.deep_view()[0]
                == "-r"@,
            HistoryRequest::WriteFile(f) => args.deep_view().len() > 1 && args.deep_view()[0]
                == "-w"@ && f@ == args.deep_view()[1],
            HistoryRequest::WriteMissingFile => args.deep_view().len() == 1
                && args.deep_view()[0] == "-w"@,
            HistoryRequest::List(n) => (args.deep_view().len() == 0 || (args.deep_view()[0]
                != "-r"@ && args.deep_view()[0] != "-w"@)) && n as int == listing_count_spec(
                args.deep_view(),
                history_len as int,
            ),
        },
{
    proof {
        if args.len() > 0 {
            assert(args.deep_view()[0] == args@[0]@);
        }
        if args.len() > 1 {
            assert(args.deep_view()[1] == args@[1]@);
        }
    }
    if args.len() > 0 && crate::strutil::str_eq(args[0].as_str(), "-r") {
        if args.len() > 1 {
            HistoryRequest::ReadFile(args[1].clone())
        } else {
            HistoryRequest::ReadMissingFile
        }
    } else if args.len() > 0 && crate::strutil::str_eq(args[0].as_str(), "-w") {
        if args.len() > 1 {
            HistoryRequest::WriteFile(args[1].clone())
        } else {
            HistoryRequest::WriteMissingFile
        }
    } else {
        let n = if args.len() > 0 {
            match parse_usize(args[0].as_str()) {
                Some(v) => v,
                None => history_len,
            }
        } else {
            history_len
        };
        HistoryRequest::List(n)
    }
}

/// What `history` prints when `-r` is given no filename.
pub fn history_read_usage_message() -> (r: String)
    ensures
        r@ == "history: -r requires a filename argument"@,
{
    String::from_str("history: -r requires a filename argument")
}

/// What `history` prints when `-w` is given no filename.
pub fn history_write_usage_message() -> (r: String)
    ensures
        r@ == "history: -w requires a filename argument"@,
{
    String::from_str("history: -w requires a filename argument")
}

/// A well-formed history entry: non-empty, already trimmed, and free of
/// newlines, as every entry the editor or a read-back stores is.
pub open spec fn entry_wf(e: Seq<char>) -> bool {
    e.len() > 0 && trim_spec(e) == e && !e.contains('\n')
}

/// Trimming a non-blank, newline-free line — what the editor stores on
/// submission — always yields a well-formed history entry.
pub proof fn lemma_submitted_entry_wf(line: Seq<char>)
    requires
        trim_spec(line).len() > 0,
        !line.contains('\n'),
    ensures
        entry_wf(trim_spec(line)),
{
    crate::strutil::lemma_trim_idempotent(line);
    if trim_spec(line).contains('\n') {
        crate::strutil::lemma_trim_contains(line, '\n');
    }
}

/// Every entry the reader accumulates is well-formed.
proof fn lemma_read_run_wf(s: Seq<char>, cur: Seq<char>, acc: Seq<Seq<char>>)
    requires
        !cur.contains('\n'),
        forall|i: int| 0 <= i < acc.len() ==> entry_wf(#[trigger] acc[i]),
    ensures
        forall|i: int|
            0 <= i < read_run(s, cur, acc).len() ==> entry_wf(
                #[trigger] read_run(s, cur, acc)[i],
            ),
    decreases s.len(),
{
    let emitted = if trim_spec(cur).len() > 0 {
        lemma_submitted_entry_wf(cur);
        let e = acc.push(trim_spec(cur));
        assert forall|i: int| 0 <= i < e.len() implies entry_wf(#[trigger] e[i]) by {
            if i < acc.len() {
                assert(e[i] == acc[i]);
            } else {
                assert(e[i] == trim_spec(cur));
            }
        }
        e
    } else {
        acc
    };
    let r = read_run(s, cur, acc);
    if s.len() == 0 {
        assert(r == emitted);
        assert forall|i: int| 0 <= i < r.len() implies entry_wf(#[trigger] r[i]) by {
            assert(r[i] == emitted[i]);
        }
    } else if s[0] == '\n' {
        lemma_read_run_wf(s.drop_first(), Seq::empty(), emitted);
        assert(r == read_run(s.drop_first(), Seq::empty(), emitted));
        assert forall|i: int| 0 <= i < r.len() implies entry_wf(#[trigger] r[i]) by {
            assert(r[i] == read_run(s.drop_first(), Seq::empty(), emitted)[i]);
        }
    } else {
        assert(!cur.push(s[0]).contains('\n')) by {
            if cur.push(s[0]).contains('\n') {
                let k = choose|k: int|
                    0 <= k < cur.push(s[0]).len() && cur.push(s[0])[k] == '\n';
                if k < cur.len() {
                    assert(cur[k] == '\n');
                    assert(cur.contains('\n'));
                } else {
                    assert(s.contains(s[0]));
                }
            }
        }
        lemma_read_run_wf(s.drop_first(), cur.push(s[0]), acc);
        assert(r == read_run(s.drop_first(), cur.push(s[0]), acc));
        assert forall|i: int| 0 <= i < r.len() implies entry_wf(#[trigger] r[i]) by {
            assert(r[i] == read_run(s.drop_first(), cur.push(s[0]), acc)[i]);
        }
    }
}

/// Every entry that `history -r` reads from a file is well-formed, so a
/// read-back history round-trips again through `-w` and `-r`.
pub proof fn lemma_read_entries_wf(s: Seq<char>)
    ensures
        forall|i: int|
            0 <= i < read_history_lines(s).len() ==> entry_wf(
                #[trigger] read_history_lines(s)[i],
            ),
{
    lemma_read_run_wf(s, Seq::empty(), Seq::empty());
}

/// Reading consumes a newline-free segment into the current line.
proof fn lemma_read_consumes(e: Seq<char>, rest: Seq<char>, cur: Seq<char>, acc: Seq<Seq<char>>)
    requires
        !e.contains('\n'),
    ensures
        read_run(e + rest, cur, acc) == read_run(rest, cur + e, acc),
    decreases e.len(),
{
    if e.len() == 0 {
        assert(e + rest =~= rest);
        assert(cur + e =~= cur);
    } else {
        assert((e + rest)[0] == e[0]);
        assert(e[0] != '\n') by {
            assert(e.contains(e[0]));
        }
        assert((e + rest).drop_first() =~= e.drop_first() + rest);
        assert(!e.drop_first().contains('\n')) by {
            if e.drop_first().contains('\n') {
                let k = choose|k: int|
                    0 <= k < e.drop_first().len() && e.drop_first()[k] == '\n';
                assert(e[k + 1] == '\n');
                assert(e.contains('\n'));
            }
        }
        lemma_read_consumes(e.drop_first(), rest, cur.push(e[0]), acc);
        assert(cur.push(e[0]) + e.drop_first() =~= cur + e);
    }
}

/// Reading back a rendered history yields the accumulated entries.
proof fn lemma_round_trip_gen(h: Seq<Seq<char>>, acc: Seq<Seq<char>>)
    requires
        forall|i: int| 0 <= i < h.len() ==> entry_wf(#[trigger] h[i]),
    ensures
        read_run(render_history_spec(h), Seq::empty(), acc) == acc + h,
    decreases h.len(),
{
    if h.len() == 0 {
        assert(trim_spec(Seq::<char>::empty()).len() == 0);
        assert(acc + h =~= acc);
    } else {
        let e = h[0];
        let tail = h.drop_first();
        let rest = seq!['\n'] + render_history_spec(tail);
        assert(render_history_spec(h) =~= e + rest);
        assert(entry_wf(e));
        lemma_read_consumes(e, rest, Seq::empty(), acc);
        assert(Seq::<char>::empty() + e =~= e);
        // the newline ends the line and emits the trimmed entry, which
        // well-formedness says is the entry itself
        assert(rest[0] == '\n');
        assert(rest.drop_first() =~= render_history_spec(tail));
        assert(read_run(rest, e, acc) == read_run(
            render_history_spec(tail),
            Seq::empty(),
            acc.push(e),
        ));
        assert(forall|i: int| 0 <= i < tail.len() ==> entry_wf(#[trigger] tail[i])) by {
            assert(forall|i: int| 0 <= i < tail.len() ==> tail[i] == h[i + 1]);
        }
        lemma_round_trip_gen(tail, acc.push(e));
        assert(acc.push(e) + tail =~= acc + h);
    }
}

/// Writing the history with `history -w` and reading the file back with
/// `history -r` reconstructs exactly the same entries, for any history
/// whose entries are non-empty, trimmed and newline-free.
pub proof fn lemma_history_round_trip(h: Seq<Seq<char>>)
    requires
        forall|i: int| 0 <= i < h.len() ==> entry_wf(#[trigger] h[i]),
    ensures
        read_history_lines(render_history_spec(h)) == h,
{
    lemma_round_trip_gen(h, Seq::empty());
    assert(Seq::<Seq<char>>::empty() + h =~= h);
}

} // verus!
