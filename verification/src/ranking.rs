//! Rankings: lists ordered by a number, the largest first, and by name where numbers are equal.
use vstd::prelude::*;
use vstd::relations::*;
use vstd::seq_lib::*;

use crate::paths::{key_of_path, path_key};
use crate::text::{lemma_lt_total, lemma_lt_transitive, less, same, text_lt, views};

verus! {

/// What a list of ranked names says.
pub open spec fn entry_views(v: Seq<(u64, String)>) -> Seq<(u64, Seq<char>)> {
    Seq::new(v.len(), |i: int| (v[i].0, v[i].1@))
}

/// `a` stands no later than `b`: its number is larger, or the numbers are equal and its name is
/// no later in order.
pub open spec fn rank_leq() -> spec_fn((u64, Seq<char>), (u64, Seq<char>)) -> bool {
    |a: (u64, Seq<char>), b: (u64, Seq<char>)|
        a.0 > b.0 || (a.0 == b.0 && (a.1 == b.1 || text_lt(a.1, b.1)))
}

/// The entries in the order of their rank.
pub open spec fn ranked(items: Seq<(u64, Seq<char>)>) -> Seq<(u64, Seq<char>)> {
    items.sort_by(rank_leq())
}

/// The names of the `n` entries that rank first; all of them where there are fewer.
pub open spec fn top(items: Seq<(u64, Seq<char>)>, n: nat) -> Seq<Seq<char>> {
    let order = ranked(items);
    Seq::new(
        if n < order.len() {
            n
        } else {
            order.len()
        },
        |i: int| order[i].1,
    )
}

/// Texts in order, each as often as it occurs.
pub open spec fn text_leq() -> spec_fn(Seq<char>, Seq<char>) -> bool {
    |a: Seq<char>, b: Seq<char>| a == b || text_lt(a, b)
}

/// The ranking orders any two entries.
pub proof fn lemma_rank_total()
    ensures
        total_ordering(rank_leq()),
{
    let leq = rank_leq();
    assert forall|a: (u64, Seq<char>), b: (u64, Seq<char>)| #[trigger] leq(a, b) && #[trigger] leq(
        b,
        a,
    ) implies a == b by {
        lemma_lt_total(a.1, b.1);
    }
    assert forall|a: (u64, Seq<char>), b: (u64, Seq<char>), c: (u64, Seq<char>)| #[trigger] leq(
        a,
        b,
    ) && #[trigger] leq(b, c) implies leq(a, c) by {
        if a.0 == b.0 && b.0 == c.0 && a.1 != b.1 && b.1 != c.1 {
            lemma_lt_transitive(a.1, b.1, c.1);
        }
    }
    assert forall|a: (u64, Seq<char>), b: (u64, Seq<char>)| #[trigger] leq(a, b) || #[trigger] leq(
        b,
        a,
    ) by {
        lemma_lt_total(a.1, b.1);
    }
}

/// The order of texts orders any two of them.
pub proof fn lemma_text_total()
    ensures
        total_ordering(text_leq()),
{
    let leq = text_leq();
    assert forall|a: Seq<char>, b: Seq<char>| #[trigger] leq(a, b) && #[trigger] leq(
        b,
        a,
    ) implies a == b by {
        lemma_lt_total(a, b);
    }
    assert forall|a: Seq<char>, b: Seq<char>, c: Seq<char>| #[trigger] leq(a, b) && #[trigger] leq(
        b,
        c,
    ) implies leq(a, c) by {
        if a != b && b != c {
            lemma_lt_transitive(a, b, c);
        }
    }
    assert forall|a: Seq<char>, b: Seq<char>| #[trigger] leq(a, b) || #[trigger] leq(b, a) by {
        lemma_lt_total(a, b);
    }
}

/// A list in order that holds as many of each entry as another is what that one sorts to.
proof fn lemma_sorts_to<A>(from: Seq<A>, to: Seq<A>, leq: spec_fn(A, A) -> bool)
    requires
        total_ordering(leq),
        sorted_by(to, leq),
        to.to_multiset() == from.to_multiset(),
    ensures
        to == from.sort_by(leq),
{
    from.lemma_sort_by_ensures(leq);
    lemma_sorted_unique(to, from.sort_by(leq), leq);
}

/// An entry put in where everything before it is no later and everything behind it no earlier
/// leaves the list in order.
proof fn lemma_insert_sorted<A>(s: Seq<A>, at: int, x: A, leq: spec_fn(A, A) -> bool)
    requires
        total_ordering(leq),
        sorted_by(s, leq),
        0 <= at <= s.len(),
        forall|k: int| 0 <= k < at ==> leq(#[trigger] s[k], x),
        at < s.len() ==> leq(x, s[at]),
    ensures
        sorted_by(s.insert(at, x), leq),
        s.insert(at, x).to_multiset() == s.to_multiset().insert(x),
{
    broadcast use group_to_multiset_ensures;

    let r = s.insert(at, x);
    assert forall|k: int| at <= k < s.len() implies leq(x, #[trigger] s[k]) by {
        if k > at {
            assert(leq(s[at], s[k]));
        }
    }
    assert forall|i: int, j: int| 0 <= i < j < r.len() implies #[trigger] leq(r[i], r[j]) by {
        let a = if i < at {
            i
        } else {
            i - 1
        };
        let b = if j < at {
            j
        } else {
            j - 1
        };
        if i != at && j != at {
            assert(r[i] == s[a] && r[j] == s[b]);
            assert(leq(s[a], s[b]));
        } else if i == at {
            assert(r[j] == s[b]);
        } else {
            assert(r[i] == s[a]);
        }
    }
}

/// What the items of a list say.
pub open spec fn all_views<T: View>(v: Seq<T>) -> Seq<T::V> {
    Seq::new(v.len(), |i: int| v[i]@)
}

/// The items in order, given how to tell whether one goes before another.
fn sorted_with<T: View, F: Fn(&T, &T) -> bool>(
    items: Vec<T>,
    Ghost(leq): Ghost<spec_fn(T::V, T::V) -> bool>,
    goes_before: F,
) -> (r: Vec<T>)
    requires
        total_ordering(leq),
        forall|a: &T, b: &T| #[trigger] goes_before.requires((a, b)),
        forall|a: &T, b: &T, r: bool| #[trigger]
            goes_before.ensures((a, b), r) ==> r == !leq(b@, a@),
    ensures
        all_views(r@) == all_views(items@).sort_by(leq),
{
    broadcast use group_to_multiset_ensures;

    let ghost all = all_views(items@);
    let mut out: Vec<T> = Vec::new();
    assert(all_views(out@) =~= all.take(0));
    for entry in it: items
        invariant
            all_views(it.seq()) == all,
            total_ordering(leq),
            forall|a: &T, b: &T| #[trigger] goes_before.requires((a, b)),
            forall|a: &T, b: &T, r: bool| #[trigger]
                goes_before.ensures((a, b), r) ==> r == !leq(b@, a@),
            sorted_by(all_views(out@), leq),
            all_views(out@).to_multiset() == all.take(it.index() as int).to_multiset(),
    {
        let ghost n = it.index() as int;
        let ghost before = all_views(out@);
        let ghost x = entry@;
        let mut at: usize = 0;
        while at < out.len() && !goes_before(&entry, &out[at])
            invariant
                at <= out@.len(),
                all_views(out@) == before,
                x == entry@,
                forall|a: &T, b: &T| #[trigger] goes_before.requires((a, b)),
                forall|a: &T, b: &T, r: bool| #[trigger]
                    goes_before.ensures((a, b), r) ==> r == !leq(b@, a@),
                forall|k: int| 0 <= k < at ==> leq(#[trigger] before[k], x),
            decreases out@.len() - at,
        {
            assert(before[at as int] == out@[at as int]@);
            at += 1;
        }
        proof {
            assert(before.len() == out@.len());
            if at < out@.len() {
                assert(before[at as int] == out@[at as int]@);
                assert(leq(x, before[at as int]) || leq(before[at as int], x));
            }
            lemma_insert_sorted(before, at as int, x, leq);
            assert(all.take(n + 1) =~= all.take(n).push(x));
            to_multiset_build(all.take(n), x);
        }
        out.insert(at, entry);
        assert(all_views(out@) =~= before.insert(at as int, x));
    }
    proof {
        assert(all.take(all.len() as int) =~= all);
        lemma_sorts_to(all, all_views(out@), leq);
    }
    out
}

fn goes_before(a: &(u64, String), b: &(u64, String)) -> (r: bool)
    ensures
        r == !rank_leq()((b.0, b.1@), (a.0, a.1@)),
{
    proof {
        lemma_lt_total(a.1@, b.1@);
    }
    a.0 > b.0 || (a.0 == b.0 && less(&a.1, &b.1))
}

/// The entries in the order of their rank.
pub fn rank(items: Vec<(u64, String)>) -> (r: Vec<(u64, String)>)
    ensures
        entry_views(r@) == ranked(entry_views(items@)),
{
    let before = |a: &(u64, String), b: &(u64, String)| -> (r: bool)
        ensures
            r == !rank_leq()(b@, a@),
        { goes_before(a, b) };
    proof {
        lemma_rank_total();
        assert(all_views(items@) =~= entry_views(items@));
    }
    let out = sorted_with(items, Ghost(rank_leq()), before);
    assert(all_views(out@) =~= entry_views(out@));
    out
}

/// The names of the `n` entries that rank first.
pub fn top_names(items: Vec<(u64, String)>, n: usize) -> (r: Vec<String>)
    ensures
        views(r@) == top(entry_views(items@), n as nat),
{
    let order = rank(items);
    let mut out: Vec<String> = Vec::new();
    let mut i: usize = 0;
    while i < n && i < order.len()
        invariant
            i <= n,
            i <= order@.len(),
            views(out@) == Seq::new(i as nat, |k: int| order@[k].1@),
        decreases order@.len() - i,
    {
        let ghost before = views(out@);
        out.push(order[i].1.clone());
        assert(views(out@) =~= before.push(order@[i as int].1@));
        i += 1;
        assert(views(out@) =~= Seq::new(i as nat, |k: int| order@[k].1@));
    }
    assert(views(out@) =~= top(entry_views(items@), n as nat));
    out
}

/// Texts in order, each as often as it occurs.
pub fn sort_texts(items: Vec<String>) -> (r: Vec<String>)
    ensures
        views(r@) == views(items@).sort_by(text_leq()),
{
    let before = |a: &String, b: &String| -> (r: bool)
        ensures
            r == !text_leq()(b@, a@),
        {
            proof {
                lemma_lt_total(a@, b@);
            }
            less(a, b)
        };
    proof {
        lemma_text_total();
        assert(all_views(items@) =~= views(items@));
    }
    let out = sorted_with(items, Ghost(text_leq()), before);
    assert(all_views(out@) =~= views(out@));
    out
}

/// Paths in order: by their components, and by their texts where these are the same.
pub open spec fn path_leq() -> spec_fn(Seq<char>, Seq<char>) -> bool {
    |a: Seq<char>, b: Seq<char>|
        text_lt(path_key(a), path_key(b)) || (path_key(a) == path_key(b) && (a == b || text_lt(
            a,
            b,
        )))
}

/// The order of paths orders any two of them.
pub proof fn lemma_path_total()
    ensures
        total_ordering(path_leq()),
{
    let leq = path_leq();
    assert forall|a: Seq<char>, b: Seq<char>| #[trigger] leq(a, b) && #[trigger] leq(
        b,
        a,
    ) implies a == b by {
        lemma_lt_total(a, b);
        lemma_lt_total(path_key(a), path_key(b));
    }
    assert forall|a: Seq<char>, b: Seq<char>, c: Seq<char>| #[trigger] leq(a, b) && #[trigger] leq(
        b,
        c,
    ) implies leq(a, c) by {
        if text_lt(path_key(a), path_key(b)) && text_lt(path_key(b), path_key(c)) {
            lemma_lt_transitive(path_key(a), path_key(b), path_key(c));
        } else if path_key(a) == path_key(b) && path_key(b) == path_key(c) && a != b && b != c {
            lemma_lt_transitive(a, b, c);
        }
    }
    assert forall|a: Seq<char>, b: Seq<char>| #[trigger] leq(a, b) || #[trigger] leq(b, a) by {
        lemma_lt_total(a, b);
        lemma_lt_total(path_key(a), path_key(b));
    }
    assert forall|a: Seq<char>| #[trigger] leq(a, a) by {}
}

fn path_before(a: &str, b: &str) -> (r: bool)
    ensures
        r == !path_leq()(b@, a@),
{
    let x = key_of_path(a);
    let y = key_of_path(b);
    proof {
        lemma_lt_total(a@, b@);
        lemma_lt_total(x@, y@);
    }
    less(&x, &y) || (same(&x, &y) && less(a, b))
}

/// Paths in order, each as often as it occurs.
pub fn sort_paths(items: Vec<String>) -> (r: Vec<String>)
    ensures
        views(r@) == views(items@).sort_by(path_leq()),
{
    let before = |a: &String, b: &String| -> (r: bool)
        ensures
            r == !path_leq()(b@, a@),
        { path_before(a, b) };
    proof {
        lemma_path_total();
        assert(all_views(items@) =~= views(items@));
    }
    let out = sorted_with(items, Ghost(path_leq()), before);
    assert(all_views(out@) =~= views(out@));
    out
}

/// A ranking holds what was ranked, each entry as often, the larger number first and equal
/// numbers by name; the top of it is no longer than asked for and no shorter than it can be.
pub proof fn ranking_orders_what_it_is_given(items: Seq<(u64, Seq<char>)>, n: nat)
    ensures
        ranked(items).to_multiset() == items.to_multiset(),
        ranked(items).len() == items.len(),
        sorted_by(ranked(items), rank_leq()),
        top(items, n).len() == if n < items.len() {
            n
        } else {
            items.len()
        },
        forall|i: int|
            0 <= i < top(items, n).len() ==> #[trigger] top(items, n)[i] == ranked(items)[i].1,
{
    broadcast use group_to_multiset_ensures;

    lemma_rank_total();
    items.lemma_sort_by_ensures(rank_leq());
    assert(ranked(items).to_multiset().len() == items.to_multiset().len());
}

} // verus!
