//! Putting records in order by a number without disturbing the order of equal ones.
use vstd::prelude::*;
use vstd::seq_lib::*;

use crate::ranking::all_views;
use crate::records::{slow_views, test_views, SlowModel, SlowTest, TestModel, TestRecord};
use crate::suspicion::{order_key, order_of};

verus! {

/// The first position at or after `i` whose key is larger than `k`; the length where none is.
pub open spec fn place<A>(s: Seq<A>, key: spec_fn(A) -> u64, k: u64, i: int) -> int
    decreases s.len() - i,
{
    if i < 0 || i >= s.len() {
        s.len() as int
    } else if key(s[i]) > k {
        i
    } else {
        place(s, key, k, i + 1)
    }
}

/// The items in the order of their keys, the smallest first; items with equal keys as they stood.
pub open spec fn stable<A>(items: Seq<A>, key: spec_fn(A) -> u64) -> Seq<A>
    decreases items.len(),
{
    if items.len() == 0 {
        Seq::empty()
    } else {
        let before = stable(items.drop_last(), key);
        before.insert(place(before, key, key(items.last()), 0), items.last())
    }
}

/// No item stands behind one with a larger key.
pub open spec fn ordered<A>(s: Seq<A>, key: spec_fn(A) -> u64) -> bool {
    forall|i: int, j: int| 0 <= i < j < s.len() ==> key(#[trigger] s[i]) <= key(#[trigger] s[j])
}

pub proof fn lemma_place<A>(s: Seq<A>, key: spec_fn(A) -> u64, k: u64, i: int)
    requires
        0 <= i <= s.len(),
    ensures
        i <= place(s, key, k, i) <= s.len(),
        forall|j: int| i <= j < place(s, key, k, i) ==> key(#[trigger] s[j]) <= k,
        place(s, key, k, i) < s.len() ==> key(s[place(s, key, k, i)]) > k,
    decreases s.len() - i,
{
    if i < s.len() && key(s[i]) <= k {
        lemma_place(s, key, k, i + 1);
    }
}

/// Having the key `k`.
pub open spec fn with_key<A>(key: spec_fn(A) -> u64, k: u64) -> spec_fn(A) -> bool {
    |x: A| key(x) == k
}

/// Ordering by a key puts the items in order, keeps each as often as it was there, and keeps items
/// with equal keys in the order in which they stood.
pub proof fn stable_order<A>(items: Seq<A>, key: spec_fn(A) -> u64, k: u64)
    ensures
        stable(items, key).len() == items.len(),
        ordered(stable(items, key), key),
        stable(items, key).to_multiset() == items.to_multiset(),
        stable(items, key).filter(with_key(key, k)) == items.filter(with_key(key, k)),
    decreases items.len(),
{
    broadcast use group_to_multiset_ensures;

    reveal(Seq::filter);
    if items.len() == 0 {
        assert(stable(items, key) =~= items);
    } else {
        let x = items.last();
        let front = items.drop_last();
        let before = stable(front, key);
        stable_order(front, key, k);
        lemma_place(before, key, key(x), 0);
        let at = place(before, key, key(x), 0);
        let after = stable(items, key);
        assert(after == before.insert(at, x));
        assert forall|i: int, j: int| 0 <= i < j < after.len() implies key(#[trigger] after[i])
            <= key(#[trigger] after[j]) by {
            let a = if i < at {
                i
            } else {
                i - 1
            };
            let b = if j < at {
                j
            } else {
                j - 1
            };
            if i != at && j != at {
                assert(after[i] == before[a] && after[j] == before[b]);
            } else if i == at {
                assert(after[j] == before[b]);
                if at < b {
                    assert(key(before[at]) <= key(before[b]));
                }
            } else {
                assert(after[i] == before[a]);
            }
        }
        assert(items =~= front.push(x));
        let p = with_key(key, k);
        let left = before.subrange(0, at);
        let right = before.subrange(at, before.len() as int);
        assert(before =~= left + right);
        assert(after =~= left.push(x) + right);
        Seq::filter_distributes_over_add(left, right, p);
        Seq::filter_distributes_over_add(left.push(x), right, p);
        assert(left.push(x).drop_last() =~= left);
        if key(x) == k {
            assert forall|i: int| 0 <= i < right.len() implies !p(right[i]) by {
                assert(right[i] == before[at + i]);
                if i > 0 {
                    assert(key(before[at]) <= key(before[at + i]));
                }
            }
            lemma_filter_none(right, p);
            assert(left.filter(p) + Seq::<A>::empty() =~= left.filter(p));
            assert(left.filter(p).push(x) + Seq::<A>::empty() =~= left.filter(p).push(x));
        }
    }
}

proof fn lemma_filter_none<A>(s: Seq<A>, p: spec_fn(A) -> bool)
    requires
        forall|i: int| 0 <= i < s.len() ==> !(#[trigger] p(s[i])),
    ensures
        s.filter(p) == Seq::<A>::empty(),
    decreases s.len(),
{
    reveal(Seq::filter);
    if s.len() > 0 {
        assert(!p(s[s.len() - 1]));
        assert forall|i: int| 0 <= i < s.drop_last().len() implies !(#[trigger] p(
            s.drop_last()[i],
        )) by {
            assert(!p(s[i]));
        }
        lemma_filter_none(s.drop_last(), p);
    }
}

/// The line of a test.
pub open spec fn line_key() -> spec_fn(TestModel) -> u64 {
    |t: TestModel| t.line
}

/// The bit pattern of a duration as an integer by which the longest comes first. The two zeros
/// count as one.
pub open spec fn slowness(bits: u64) -> u64 {
    (u64::MAX - order_of(
        if bits == 0x8000_0000_0000_0000 {
            0
        } else {
            bits
        },
    )) as u64
}

/// The duration of a test, the longest first.
pub open spec fn slowness_key() -> spec_fn(SlowModel) -> u64 {
    |t: SlowModel| slowness(t.seconds.bits)
}

fn slowness_of(bits: u64) -> (r: u64)
    ensures
        r == slowness(bits),
{
    if bits == 0x8000_0000_0000_0000 {
        u64::MAX - order_key(0)
    } else {
        u64::MAX - order_key(bits)
    }
}

/// The items in the order of their keys, those with equal keys as they stood.
fn stable_with<T: View, F: Fn(&T) -> u64>(
    items: Vec<T>,
    Ghost(key): Ghost<spec_fn(T::V) -> u64>,
    key_of: F,
) -> (r: Vec<T>)
    requires
        forall|x: &T| #[trigger] key_of.requires((x,)),
        forall|x: &T, k: u64| #[trigger] key_of.ensures((x,), k) ==> k == key(x@),
    ensures
        all_views(r@) == stable(all_views(items@), key),
{
    let ghost all = all_views(items@);
    let mut out: Vec<T> = Vec::new();
    assert(all_views(out@) =~= stable(all.take(0), key));
    for entry in it: items
        invariant
            all_views(it.seq()) == all,
            forall|x: &T| #[trigger] key_of.requires((x,)),
            forall|x: &T, k: u64| #[trigger] key_of.ensures((x,), k) ==> k == key(x@),
            all_views(out@) == stable(all.take(it.index() as int), key),
    {
        let ghost n = it.index() as int;
        let ghost before = all_views(out@);
        let ghost x = entry@;
        let wanted: u64 = key_of(&entry);
        let mut at: usize = 0;
        while at < out.len() && key_of(&out[at]) <= wanted
            invariant
                at <= out@.len(),
                all_views(out@) == before,
                wanted == key(x),
                forall|x: &T| #[trigger] key_of.requires((x,)),
                forall|x: &T, k: u64| #[trigger] key_of.ensures((x,), k) ==> k == key(x@),
                place(before, key, key(x), 0) == place(before, key, key(x), at as int),
            decreases out@.len() - at,
        {
            assert(before[at as int] == out@[at as int]@);
            at += 1;
        }
        proof {
            assert(before.len() == out@.len());
            if at < out@.len() {
                assert(before[at as int] == out@[at as int]@);
            }
            let part = all.take(n + 1);
            assert(part.drop_last() =~= all.take(n));
            assert(part.last() == x);
        }
        out.insert(at, entry);
        assert(all_views(out@) =~= before.insert(at as int, x));
    }
    assert(all.take(all.len() as int) =~= all);
    out
}

/// The tests in the order of their lines.
pub fn by_line(tests: Vec<TestRecord>) -> (r: Vec<TestRecord>)
    ensures
        test_views(r@) == stable(
            test_views(tests@),
            line_key(),
        ),
{
    let key = |t: &TestRecord| -> (k: u64)
        ensures
            k == line_key()(t@),
        { t.line };
    assert(all_views(tests@) =~= test_views(tests@));
    let out = stable_with(tests, Ghost(line_key()), key);
    assert(all_views(out@) =~= test_views(out@));
    out
}

/// The tests in the order of their durations, the longest first, and of those at most `cap`.
pub fn slowest(tests: Vec<SlowTest>, cap: usize) -> (r: Vec<SlowTest>)
    ensures
        ({
            let order = stable(slow_views(tests@), slowness_key());
            slow_views(r@) == if cap < order.len() {
                order.take(cap as int)
            } else {
                order
            }
        }),
{
    let key = |t: &SlowTest| -> (k: u64)
        ensures
            k == slowness_key()(t@),
        { slowness_of(t.seconds.bits) };
    assert(all_views(tests@) =~= slow_views(tests@));
    let mut out = stable_with(tests, Ghost(slowness_key()), key);
    assert(all_views(out@) =~= slow_views(out@));
    let ghost order = slow_views(out@);
    assert(order.len() == out@.len());
    if cap < out.len() {
        out.truncate(cap);
        assert(slow_views(out@) =~= order.take(cap as int));
    }
    out
}

} // verus!
