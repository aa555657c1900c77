//! The completion engine: candidates are the builtin names and the
//! executable names found on the search path that start with the typed
//! prefix, collapsed to a sorted, duplicate-free list, together with
//! their longest common prefix.

use vstd::prelude::*;
use crate::builtins::builtin_names;
use crate::strutil::{is_prefix_of, lex_lt, lemma_lex_antisym, lemma_lex_total};

verus! {

broadcast use vstd::seq_lib::lemma_seq_concat_contains_all_elements, vstd::seq_lib::lemma_seq_empty_contains_nothing;

/// `t` is a prefix of every candidate.
pub open spec fn common_prefix_of(t: Seq<char>, ss: Seq<Seq<char>>) -> bool {
    forall|i: int| 0 <= i < ss.len() ==> is_prefix_of(t, #[trigger] ss[i])
}

/// A prefix of a prefix is a prefix.
pub proof fn lemma_prefix_trans(a: Seq<char>, b: Seq<char>, c: Seq<char>)
    requires
        is_prefix_of(a, b),
        is_prefix_of(b, c),
    ensures
        is_prefix_of(a, c),
{
    assert(a =~= c.subrange(0, a.len() as int));
}

/// A prefix no longer than `j` is a prefix of the first `j` characters.
pub proof fn lemma_prefix_shorten(t: Seq<char>, s: Seq<char>, j: int)
    requires
        is_prefix_of(t, s),
        t.len() <= j <= s.len(),
    ensures
        is_prefix_of(t, s.subrange(0, j)),
{
    assert(t =~= s.subrange(0, j).subrange(0, t.len() as int));
}

/// The longest common prefix of two sequences.
pub open spec fn cp2(a: Seq<char>, b: Seq<char>) -> Seq<char>
    decreases a.len(),
{
    if a.len() > 0 && b.len() > 0 && a[0] == b[0] {
        seq![a[0]] + cp2(a.drop_first(), b.drop_first())
    } else {
        Seq::empty()
    }
}

/// [`cp2`] is a common prefix, and every common prefix is a prefix of it.
pub proof fn lemma_cp2_props(a: Seq<char>, b: Seq<char>)
    ensures
        is_prefix_of(cp2(a, b), a),
        is_prefix_of(cp2(a, b), b),
        forall|t: Seq<char>|
            is_prefix_of(t, a) && is_prefix_of(t, b) ==> #[trigger] is_prefix_of(t, cp2(a, b)),
    decreases a.len(),
{
    let r = cp2(a, b);
    if a.len() > 0 && b.len() > 0 && a[0] == b[0] {
        lemma_cp2_props(a.drop_first(), b.drop_first());
        let w = cp2(a.drop_first(), b.drop_first());
        assert(is_prefix_of(r, a)) by {
            assert(r =~= a.subrange(0, r.len() as int));
        }
        assert(is_prefix_of(r, b)) by {
            assert(r =~= b.subrange(0, r.len() as int));
        }
        assert forall|t: Seq<char>| is_prefix_of(t, a) && is_prefix_of(t, b) implies #[trigger]
            is_prefix_of(t, r) by {
            if t.len() > 0 {
                let t2 = t.drop_first();
                assert(t[0] == a[0]) by {
                    assert(t[0] == a.subrange(0, t.len() as int)[0]);
                }
                assert(is_prefix_of(t2, a.drop_first())) by {
                    assert(t2 =~= a.drop_first().subrange(0, t2.len() as int));
                }
                assert(is_prefix_of(t2, b.drop_first())) by {
                    assert(t2 =~= b.drop_first().subrange(0, t2.len() as int));
                }
                assert(is_prefix_of(t2, w));
                assert(t =~= r.subrange(0, t.len() as int));
            } else {
                assert(t =~= r.subrange(0, 0));
            }
        }
    } else {
        assert(r.len() == 0);
        assert(is_prefix_of(r, a)) by {
            assert(r =~= a.subrange(0, 0));
        }
        assert(is_prefix_of(r, b)) by {
            assert(r =~= b.subrange(0, 0));
        }
        assert forall|t: Seq<char>| is_prefix_of(t, a) && is_prefix_of(t, b) implies #[trigger]
            is_prefix_of(t, r) by {
            if t.len() > 0 {
                assert(t[0] == a.subrange(0, t.len() as int)[0]);
                assert(t[0] == b.subrange(0, t.len() as int)[0]);
                assert(a.len() > 0 && b.len() > 0 && a[0] == b[0]);
            } else {
                assert(t =~= r.subrange(0, 0));
            }
        }
    }
}

/// Fold [`cp2`] over the candidates from index `i` on.
pub open spec fn lcp_from(cur: Seq<char>, ss: Seq<Seq<char>>, i: int) -> Seq<char>
    decreases ss.len() - i,
{
    if i < 0 || i >= ss.len() {
        cur
    } else {
        lcp_from(cp2(cur, ss[i]), ss, i + 1)
    }
}

/// The longest common prefix of a candidate list; empty for an empty list.
pub open spec fn lcp_spec(ss: Seq<Seq<char>>) -> Seq<char> {
    if ss.len() == 0 {
        Seq::empty()
    } else {
        lcp_from(ss[0], ss, 1)
    }
}

/// The longest common prefix of a list of candidates: a prefix of every
/// candidate that every common prefix is itself a prefix of. The empty
/// list yields the empty string.
pub fn get_longest_common_prefix(strings: &[String]) -> (r: String)
    ensures
        r@ == lcp_spec(strings.deep_view()),
        strings@.len() == 0 ==> r@ == Seq::<char>::empty(),
        strings@.len() > 0 ==> common_prefix_of(r@, strings.deep_view()),
        forall|t: Seq<char>|
            strings@.len() > 0 && #[trigger] common_prefix_of(t, strings.deep_view())
                ==> is_prefix_of(t, r@),
{
    let ghost views = strings.deep_view();
    if strings.len() == 0 {
        return String::new();
    }
    let v0 = crate::strutil::str_to_chars(strings[0].as_str());
    let mut plen: usize = v0.len();
    let mut k: usize = 1;
    proof {
        assert(views[0] == strings@[0]@);
        assert(v0@.subrange(0, plen as int) =~= views[0]);
    }
    while k < strings.len()
        invariant
            1 <= k <= strings@.len(),
            plen <= v0.len(),
            views == strings.deep_view(),
            v0@ == strings@[0]@,
            forall|m: int|
                0 <= m < k ==> is_prefix_of(v0@.subrange(0, plen as int), #[trigger] views[m]),
            forall|t: Seq<char>|
                (forall|m: int| 0 <= m < k ==> is_prefix_of(t, #[trigger] views[m]))
                    ==> #[trigger] is_prefix_of(t, v0@.subrange(0, plen as int)),
            lcp_spec(views) == lcp_from(v0@.subrange(0, plen as int), views, k as int),
        decreases strings@.len() - k,
    {
        let sk = crate::strutil::str_to_chars(strings[k].as_str());
        proof {
            assert(views[k as int] == strings@[k as int]@);
        }
        let mut j: usize = 0;
        while j < plen && j < sk.len() && v0[j] == sk[j]
            invariant
                j <= plen <= v0.len(),
                j <= sk.len(),
                v0@.subrange(0, j as int) =~= sk@.subrange(0, j as int),
            decreases plen - j,
        {
            j = j + 1;
            proof {
                assert(v0@.subrange(0, j as int) =~= sk@.subrange(0, j as int));
            }
        }
        proof {
            let ghost old_p = v0@.subrange(0, plen as int);
            let ghost new_p = v0@.subrange(0, j as int);
            // the new prefix is a prefix of everything seen so far
            assert(is_prefix_of(new_p, old_p)) by {
                assert(new_p =~= old_p.subrange(0, j as int));
            }
            assert(is_prefix_of(new_p, sk@)) by {
                assert(new_p =~= sk@.subrange(0, j as int));
            }
            assert forall|m: int| 0 <= m < k + 1 implies is_prefix_of(new_p, #[trigger] views[m])
            by {
                if m < k {
                    lemma_prefix_trans(new_p, old_p, views[m]);
                } else {
                    assert(views[m] == sk@);
                }
            }
            // and every common prefix of the first k + 1 is a prefix of it
            assert forall|t: Seq<char>|
                (forall|m: int| 0 <= m < k + 1 ==> is_prefix_of(t, #[trigger] views[m]))
                    implies #[trigger] is_prefix_of(t, new_p) by {
                assert(is_prefix_of(t, old_p));
                assert(is_prefix_of(t, views[k as int]));
                assert(is_prefix_of(t, sk@));
                if t.len() > j {
                    // the scan stopped at j, so the candidates disagree there
                    assert(t[j as int] == v0@[j as int]) by {
                        assert(t[j as int] == old_p.subrange(0, t.len() as int)[j as int]);
                    }
                    assert(t[j as int] == sk@[j as int]);
                    assert(false);
                }
                lemma_prefix_shorten(t, old_p, j as int);
                assert(old_p.subrange(0, j as int) =~= new_p);
            }
            // the new prefix is exactly cp2 of the old prefix and this
            // candidate, which advances the lcp fold by one step
            lemma_cp2_props(old_p, sk@);
            let c = cp2(old_p, sk@);
            assert(is_prefix_of(c, new_p)) by {
                if c.len() > j {
                    assert(c[j as int] == v0@[j as int]) by {
                        assert(c[j as int] == old_p.subrange(0, c.len() as int)[j as int]);
                    }
                    assert(c[j as int] == sk@[j as int]);
                    assert(false);
                }
                lemma_prefix_shorten(c, old_p, j as int);
                assert(old_p.subrange(0, j as int) =~= new_p);
            }
            assert(is_prefix_of(new_p, c));
            assert(new_p =~= c) by {
                assert(new_p.len() == c.len());
                assert(new_p == c.subrange(0, new_p.len() as int));
                assert(c.subrange(0, c.len() as int) =~= c);
            }
            assert(lcp_from(old_p, views, k as int) == lcp_from(new_p, views, k as int + 1));
        }
        plen = j;
        k = k + 1;
    }
    let mut r = String::new();
    let mut idx: usize = 0;
    while idx < plen
        invariant
            idx <= plen <= v0.len(),
            r@ == v0@.subrange(0, idx as int),
        decreases plen - idx,
    {
        r.push(v0[idx]);
        idx = idx + 1;
        proof {
            assert(r@ =~= v0@.subrange(0, idx as int));
        }
    }
    r
}

/// Strictly ascending in lexicographic order, hence duplicate-free.
pub open spec fn strictly_sorted(ss: Seq<Seq<char>>) -> bool {
    forall|i: int| 0 <= i < ss.len() - 1 ==> lex_lt(#[trigger] ss[i], ss[i + 1])
}

/// Insert `t` into the sorted list `acc`, keeping order and dropping the
/// insertion when `t` is already present.
pub open spec fn insert_unique_sorted(acc: Seq<Seq<char>>, t: Seq<char>) -> Seq<Seq<char>>
    decreases acc.len(),
{
    if acc.len() == 0 {
        seq![t]
    } else if lex_lt(t, acc[0]) {
        seq![t] + acc
    } else if t == acc[0] {
        acc
    } else {
        seq![acc[0]] + insert_unique_sorted(acc.drop_first(), t)
    }
}

/// Inserting into a sorted list keeps it sorted and adds exactly the
/// inserted element to its membership.
pub proof fn lemma_insert_props(acc: Seq<Seq<char>>, t: Seq<char>)
    requires
        strictly_sorted(acc),
    ensures
        strictly_sorted(insert_unique_sorted(acc, t)),
        forall|x: Seq<char>|
            #[trigger] insert_unique_sorted(acc, t).contains(x) <==> acc.contains(x) || x == t,
        insert_unique_sorted(acc, t).len() >= 1,
        insert_unique_sorted(acc, t)[0] == t || (acc.len() > 0 && insert_unique_sorted(acc, t)[0]
            == acc[0]),
    decreases acc.len(),
{
    let r = insert_unique_sorted(acc, t);
    if acc.len() == 0 {
        assert(r =~= seq![t]);
        assert(r[0] == t);
        assert forall|x: Seq<char>| #[trigger] r.contains(x) <==> acc.contains(x) || x == t by {
            if x == t {
                assert(r[0] == x);
                assert(r.contains(x));
            }
        }
    } else if lex_lt(t, acc[0]) {
        assert(r == seq![t] + acc);
        assert(r[0] == t);
        assert forall|i: int| 0 <= i < r.len() - 1 implies lex_lt(#[trigger] r[i], r[i + 1]) by {
            if i == 0 {
                assert(r[0] == t);
                assert(r[1] == acc[0]);
            } else {
                assert(r[i] == acc[i - 1]);
                assert(r[i + 1] == acc[i]);
            }
        }
        assert forall|x: Seq<char>| #[trigger] r.contains(x) <==> acc.contains(x) || x == t by {
            assert(seq![t].contains(x) <==> x == t) by {
                if x == t {
                    assert(seq![t][0] == x);
                }
            }
        }
    } else if t == acc[0] {
        assert(r == acc);
        assert forall|x: Seq<char>| #[trigger] r.contains(x) <==> acc.contains(x) || x == t by {
            if x == t {
                assert(acc[0] == x);
                assert(acc.contains(x));
            }
        }
    } else {
        let tail = acc.drop_first();
        let w = insert_unique_sorted(tail, t);
        assert(r == seq![acc[0]] + w);
        assert(lex_lt(acc[0], t)) by {
            lemma_lex_total(t, acc[0]);
            if crate::strutil::lex_le(t, acc[0]) && crate::strutil::lex_le(acc[0], t) {
                lemma_lex_antisym(t, acc[0]);
            }
        }
        assert(strictly_sorted(tail)) by {
            assert forall|i: int| 0 <= i < tail.len() - 1 implies lex_lt(
                #[trigger] tail[i],
                tail[i + 1],
            ) by {
                assert(tail[i] == acc[i + 1]);
                assert(tail[i + 1] == acc[i + 2]);
            }
        }
        lemma_insert_props(tail, t);
        // sortedness of the assembled list
        assert forall|i: int| 0 <= i < r.len() - 1 implies lex_lt(#[trigger] r[i], r[i + 1]) by {
            if i == 0 {
                assert(r[0] == acc[0]);
                assert(r[1] == w[0]);
                if w[0] == t {
                } else {
                    assert(w[0] == tail[0]);
                    assert(tail[0] == acc[1]);
                    assert(lex_lt(acc[0], acc[1]));
                }
            } else {
                assert(r[i] == w[i - 1]);
                assert(r[i + 1] == w[i]);
            }
        }
        // membership
        assert forall|x: Seq<char>| #[trigger] r.contains(x) <==> acc.contains(x) || x == t by {
            assert(seq![acc[0]].contains(x) <==> x == acc[0]) by {
                if x == acc[0] {
                    assert(seq![acc[0]][0] == x);
                }
            }
            assert(acc.contains(x) <==> x == acc[0] || tail.contains(x)) by {
                if acc.contains(x) {
                    let ix = choose|ix: int| 0 <= ix < acc.len() && acc[ix] == x;
                    if ix > 0 {
                        assert(tail[ix - 1] == x);
                        assert(tail.contains(x));
                    }
                }
                if tail.contains(x) {
                    let ix = choose|ix: int| 0 <= ix < tail.len() && tail[ix] == x;
                    assert(acc[ix + 1] == x);
                    assert(acc.contains(x));
                }
            }
        }
        assert(r[0] == acc[0]);
    }
}

/// Insert the matching entries of `items` from index `i` on: those that
/// start with `prefix`, in order.
pub open spec fn insert_filtered(
    acc: Seq<Seq<char>>,
    items: Seq<Seq<char>>,
    prefix: Seq<char>,
    i: int,
) -> Seq<Seq<char>>
    decreases items.len() - i,
{
    if i < 0 || i >= items.len() {
        acc
    } else {
        let next = if is_prefix_of(prefix, items[i]) {
            insert_unique_sorted(acc, items[i])
        } else {
            acc
        };
        insert_filtered(next, items, prefix, i + 1)
    }
}

/// The completion candidates: builtins first, then the names found on
/// the search path, each filtered by the prefix and collapsed into one
/// sorted duplicate-free list.
pub open spec fn completions_spec(prefix: Seq<char>, names: Seq<Seq<char>>) -> Seq<Seq<char>> {
    insert_filtered(
        insert_filtered(Seq::empty(), builtin_names(), prefix, 0),
        names,
        prefix,
        0,
    )
}

/// `x` is a completion candidate for `prefix` among `names`: a builtin
/// name or a search-path name that starts with the prefix.
pub open spec fn is_candidate(x: Seq<char>, prefix: Seq<char>, names: Seq<Seq<char>>) -> bool {
    is_prefix_of(prefix, x) && (crate::builtins::is_builtin_name(x) || names.contains(x))
}

/// Filtering-in the matching items keeps the list sorted and adds
/// exactly the matching items to its membership.
pub proof fn lemma_insert_filtered_props(
    acc: Seq<Seq<char>>,
    items: Seq<Seq<char>>,
    prefix: Seq<char>,
    i: int,
)
    requires
        0 <= i,
        strictly_sorted(acc),
    ensures
        strictly_sorted(insert_filtered(acc, items, prefix, i)),
        forall|x: Seq<char>|
            #[trigger] insert_filtered(acc, items, prefix, i).contains(x) <==> acc.contains(x)
                || (exists|k: int|
                i <= k < items.len() && #[trigger] items[k] == x && is_prefix_of(prefix, x)),
    decreases items.len() - i,
{
    let r = insert_filtered(acc, items, prefix, i);
    if i < 0 || i >= items.len() {
        assert forall|x: Seq<char>| #[trigger] r.contains(x) <==> acc.contains(x) || (exists|
            k: int,
        |
            i <= k < items.len() && #[trigger] items[k] == x && is_prefix_of(prefix, x)) by {}
    } else {
        let next = if is_prefix_of(prefix, items[i]) {
            insert_unique_sorted(acc, items[i])
        } else {
            acc
        };
        if is_prefix_of(prefix, items[i]) {
            lemma_insert_props(acc, items[i]);
        }
        lemma_insert_filtered_props(next, items, prefix, i + 1);
        assert forall|x: Seq<char>| #[trigger] r.contains(x) <==> acc.contains(x) || (exists|
            k: int,
        |
            i <= k < items.len() && #[trigger] items[k] == x && is_prefix_of(prefix, x)) by {
            if r.contains(x) {
                if !acc.contains(x) {
                    if next.contains(x) && !acc.contains(x) {
                        assert(x == items[i] && is_prefix_of(prefix, x));
                        assert(items[i] == x);
                    }
                }
            }
            if acc.contains(x) {
                assert(next.contains(x));
                assert(r.contains(x));
            }
            if exists|k: int|
                i <= k < items.len() && #[trigger] items[k] == x && is_prefix_of(prefix, x) {
                let k = choose|k: int|
                    i <= k < items.len() && #[trigger] items[k] == x && is_prefix_of(prefix, x);
                if k == i {
                    assert(next.contains(x));
                    assert(r.contains(x));
                } else {
                    assert(items[k] == x && i + 1 <= k < items.len());
                    assert(r.contains(x));
                }
            }
        }
    }
}

/// Insert one candidate string into the sorted result vector.
fn insert_candidate(r: &mut Vec<String>, t: String)
    ensures
        final(r).deep_view() == insert_unique_sorted(old(r).deep_view(), t@),
{
    let ghost acc = r.deep_view();
    let mut j: usize = 0;
    while j < r.len() && crate::strutil::str_lt(&r[j], &t)
        invariant
            j <= r.len(),
            acc == r.deep_view(),
            forall|k: int| 0 <= k < j ==> lex_lt(#[trigger] acc[k], t@),
        decreases r.len() - j,
    {
        proof {
            assert(acc[j as int] == r@[j as int]@);
        }
        j = j + 1;
    }
    proof {
        assert(j < r.len() ==> acc[j as int] == r@[j as int]@);
    }
    if j < r.len() && crate::strutil::str_eq(r[j].as_str(), t.as_str()) {
        proof {
            lemma_insert_unique_at(acc, t@, j as int);
        }
        return;
    }
    let ghost pre = r.deep_view();
    r.insert(j, t);
    proof {
        assert(r.deep_view() =~= pre.insert(j as int, t@));
        lemma_insert_unique_at(acc, t@, j as int);
    }
}

/// `insert_unique_sorted` equals a point insertion at the first position
/// whose element is not below `t`.
pub proof fn lemma_insert_unique_at(acc: Seq<Seq<char>>, t: Seq<char>, j: int)
    requires
        0 <= j <= acc.len(),
        forall|k: int| 0 <= k < j ==> lex_lt(#[trigger] acc[k], t),
        j < acc.len() ==> !lex_lt(acc[j], t),
    ensures
        insert_unique_sorted(acc, t) == if j < acc.len() && acc[j] == t {
            acc
        } else {
            acc.insert(j, t)
        },
    decreases acc.len(),
{
    if acc.len() == 0 {
        assert(insert_unique_sorted(acc, t) =~= acc.insert(0, t));
    } else if j == 0 {
        if acc[0] == t {
        } else {
            assert(!lex_lt(acc[0], t));
            assert(lex_lt(t, acc[0])) by {
                lemma_lex_total(t, acc[0]);
                if crate::strutil::lex_le(acc[0], t) && crate::strutil::lex_le(t, acc[0]) {
                    lemma_lex_antisym(t, acc[0]);
                }
            }
            assert(insert_unique_sorted(acc, t) =~= acc.insert(0, t));
        }
    } else {
        assert(lex_lt(acc[0], t));
        assert(!lex_lt(t, acc[0])) by {
            if crate::strutil::lex_le(t, acc[0]) && crate::strutil::lex_le(acc[0], t) {
                lemma_lex_antisym(t, acc[0]);
            }
        }
        assert(t != acc[0]);
        let tail = acc.drop_first();
        assert forall|k: int| 0 <= k < j - 1 implies lex_lt(#[trigger] tail[k], t) by {
            assert(tail[k] == acc[k + 1]);
        }
        assert(j - 1 < tail.len() ==> !lex_lt(tail[j - 1], t)) by {
            if j < acc.len() {
                assert(tail[j - 1] == acc[j]);
            }
        }
        lemma_insert_unique_at(tail, t, j - 1);
        if j < acc.len() && acc[j] == t {
            assert(tail[j - 1] == t);
            assert(insert_unique_sorted(acc, t) =~= acc);
        } else {
            assert(insert_unique_sorted(acc, t) =~= acc.insert(j, t));
        }
    }
}

/// The completion candidates for `prefix`: every builtin name and every
/// search-path name that starts with the prefix, without duplicates, in
/// ascending lexicographic order.
pub fn find_completions(prefix: &str, path_names: &Vec<String>) -> (r: Vec<String>)
    ensures
        r.deep_view() == completions_spec(prefix@, path_names.deep_view()),
        strictly_sorted(r.deep_view()),
        forall|x: Seq<char>|
            #[trigger] r.deep_view().contains(x) <==> is_candidate(
                x,
                prefix@,
                path_names.deep_view(),
            ),
{
    let builtins = crate::builtins::builtins_list();
    let mut r: Vec<String> = Vec::new();
    proof {
        assert(r.deep_view() =~= Seq::<Seq<char>>::empty());
    }
    let mut i: usize = 0;
    while i < builtins.len()
        invariant
            i <= builtins.len(),
            builtins.deep_view() == builtin_names(),
            insert_filtered(Seq::<Seq<char>>::empty(), builtin_names(), prefix@, 0)
                == insert_filtered(r.deep_view(), builtin_names(), prefix@, i as int),
        decreases builtins.len() - i,
    {
        proof {
            assert(builtins.deep_view()[i as int] == builtins@[i as int]@);
        }
        if crate::strutil::str_starts_with(builtins[i].as_str(), prefix) {
            let cand = builtins[i].clone();
            insert_candidate(&mut r, cand);
        }
        i = i + 1;
    }
    let ghost after_builtins = r.deep_view();
    proof {
        assert(after_builtins == insert_filtered(
            Seq::<Seq<char>>::empty(),
            builtin_names(),
            prefix@,
            0,
        ));
    }
    let mut i: usize = 0;
    while i < path_names.len()
        invariant
            i <= path_names.len(),
            after_builtins == insert_filtered(Seq::<Seq<char>>::empty(), builtin_names(),
                prefix@, 0),
            insert_filtered(after_builtins, path_names.deep_view(), prefix@, 0)
                == insert_filtered(r.deep_view(), path_names.deep_view(), prefix@, i as int),
        decreases path_names.len() - i,
    {
        proof {
            assert(path_names.deep_view()[i as int] == path_names@[i as int]@);
        }
        if crate::strutil::str_starts_with(path_names[i].as_str(), prefix) {
            let cand = path_names[i].clone();
            insert_candidate(&mut r, cand);
        }
        i = i + 1;
    }
    proof {
        assert(strictly_sorted(Seq::<Seq<char>>::empty()));
        lemma_insert_filtered_props(Seq::<Seq<char>>::empty(), builtin_names(), prefix@, 0);
        lemma_insert_filtered_props(after_builtins, path_names.deep_view(), prefix@, 0);
        assert forall|x: Seq<char>|
            #[trigger] r.deep_view().contains(x) <==> is_candidate(
                x,
                prefix@,
                path_names.deep_view(),
            ) by {
            crate::builtins::lemma_builtin_name_in_list(x);
        }
    }
    r
}

} // verus!
