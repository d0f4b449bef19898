//! Paths as texts: their components, what lies under what, and their order.
use vstd::prelude::*;
use vstd::string::*;

use crate::text::{chars_of, cut, find, find_char, lemma_find, lemma_find_is, same};

verus! {

/// A path that begins at the root.
pub open spec fn absolute(path: Seq<char>) -> bool {
    path.len() > 0 && path[0] == '/'
}

/// The part of a path from `start` up to `end` is a component: it is not empty, and it is no `.`
/// but where the path begins with it.
pub open spec fn counts(path: Seq<char>, start: int, end: int) -> bool {
    start < end && (start == 0 || path.subrange(start, end) != "."@)
}

/// Where the components of a path from `start` on begin and end.
pub open spec fn spans_from(path: Seq<char>, start: int) -> Seq<(int, int)>
    decreases path.len() + 1 - start,
{
    if start < 0 || start >= path.len() {
        Seq::empty()
    } else {
        let end = find(path, '/', start);
        if start <= end <= path.len() {
            let rest = spans_from(path, end + 1);
            if counts(path, start, end) {
                seq![(start, end)] + rest
            } else {
                rest
            }
        } else {
            Seq::empty()
        }
    }
}

/// Where the components of a path begin and end. Separators that follow one another count as one.
pub open spec fn spans(path: Seq<char>) -> Seq<(int, int)> {
    spans_from(path, 0)
}

/// The components of a path.
pub open spec fn components(path: Seq<char>) -> Seq<Seq<char>> {
    Seq::new(spans(path).len(), |i: int| path.subrange(spans(path)[i].0, spans(path)[i].1))
}

/// The name of the file that a path leads to: its last component, if that is a name.
pub open spec fn basename(path: Seq<char>) -> Seq<char> {
    let all = components(path);
    if all.len() == 0 || all.last() == "."@ || all.last() == ".."@ {
        Seq::empty()
    } else {
        all.last()
    }
}

/// `path` is `base` or lies under it. Everything lies under a path that says nothing.
pub open spec fn lies_under(path: Seq<char>, base: Seq<char>) -> bool {
    base.len() == 0 || (absolute(path) == absolute(base) && components(base).is_prefix_of(
        components(path),
    ))
}

/// Where the last component of a path ends; behind the root where it has none.
pub open spec fn end_of_path(path: Seq<char>) -> int {
    if spans(path).len() > 0 {
        spans(path).last().1
    } else if absolute(path) {
        1
    } else {
        0
    }
}

/// `path` as seen from `base`: from the first component that is not one of `base` up to the end of
/// the last, where it lies under `base`; else as it stands.
pub open spec fn relative(path: Seq<char>, base: Seq<char>) -> Seq<char> {
    let all = spans(path);
    let skipped = spans(base).len();
    if !lies_under(path, base) {
        path
    } else if base.len() == 0 {
        path.subrange(0, end_of_path(path))
    } else if skipped < all.len() {
        path.subrange(all[skipped as int].0, all.last().1)
    } else {
        Seq::empty()
    }
}

/// How the path of something directly under `base` begins.
pub open spec fn below(base: Seq<char>) -> Seq<char> {
    if base.len() == 0 || base.last() == '/' {
        base
    } else {
        base + "/"@
    }
}

/// Every component lies in the path, behind the ones before it, between separators.
pub proof fn lemma_spans(path: Seq<char>, start: int)
    requires
        0 <= start,
    ensures
        forall|i: int|
            0 <= i < spans_from(path, start).len() ==> {
                let span = #[trigger] spans_from(path, start)[i];
                &&& start <= span.0 < span.1 <= path.len()
                &&& span.1 == find(path, '/', span.0)
                &&& counts(path, span.0, span.1)
            },
        forall|i: int, j: int|
            0 <= i < j < spans_from(path, start).len() ==> (#[trigger] spans_from(path, start)[i]).1
                < (#[trigger] spans_from(path, start)[j]).0,
    decreases path.len() + 1 - start,
{
    if start < path.len() {
        lemma_find(path, '/', start);
        let end = find(path, '/', start);
        lemma_spans(path, end + 1);
        let rest = spans_from(path, end + 1);
        let all = spans_from(path, start);
        if counts(path, start, end) {
            assert forall|i: int| 0 <= i < all.len() implies {
                let span = #[trigger] all[i];
                &&& start <= span.0 < span.1 <= path.len()
                &&& span.1 == find(path, '/', span.0)
                &&& counts(path, span.0, span.1)
            } by {
                if i > 0 {
                    assert(all[i] == rest[i - 1]);
                }
            }
            assert forall|i: int, j: int| 0 <= i < j < all.len() implies (#[trigger] all[i]).1 < (
            #[trigger] all[j]).0 by {
                assert(all[j] == rest[j - 1]);
                if i > 0 {
                    assert(all[i] == rest[i - 1]);
                }
            }
        }
    }
}

/// What a list of places says.
pub open spec fn span_views(v: Seq<(usize, usize)>) -> Seq<(int, int)> {
    Seq::new(v.len(), |i: int| (v[i].0 as int, v[i].1 as int))
}

/// Where the components of a path begin and end.
pub fn spans_of(chars: &Vec<char>) -> (r: Vec<(usize, usize)>)
    ensures
        span_views(r@) == spans(chars@),
        forall|i: int| 0 <= i < r@.len() ==> (#[trigger] r@[i]).0 < r@[i].1 <= chars@.len(),
{
    let mut out: Vec<(usize, usize)> = Vec::new();
    let mut start: usize = 0;
    assert(span_views(out@) + spans_from(chars@, 0) =~= spans(chars@));
    while start < chars.len()
        invariant
            span_views(out@) + spans_from(chars@, start as int) == spans(chars@),
            forall|i: int| 0 <= i < out@.len() ==> (#[trigger] out@[i]).0 < out@[i].1 <= chars@.len(),
        decreases chars@.len() + 1 - start,
    {
        let end: usize = find_char(chars, '/', start);
        assert(spans_from(chars@, (chars@.len() + 1) as int) == Seq::<(int, int)>::empty());
        let ghost before = span_views(out@);
        if start < end && (start == 0 || !same(&cut(chars, start, end), ".")) {
            out.push((start, end));
            proof {
                let rest = spans_from(chars@, end + 1);
                assert(span_views(out@) =~= before.push((start as int, end as int)));
                assert(before + (seq![(start as int, end as int)] + rest) =~= span_views(out@)
                    + rest);
            }
        }
        if end == chars.len() {
            assert(span_views(out@) + Seq::<(int, int)>::empty() =~= span_views(out@));
            return out;
        }
        start = end + 1;
    }
    assert(span_views(out@) + Seq::<(int, int)>::empty() =~= span_views(out@));
    out
}

/// The name of the file that a path leads to.
pub fn file_name(path: &str) -> (r: String)
    ensures
        r@ == basename(path@),
{
    let chars = chars_of(path);
    let all = spans_of(&chars);
    assert(span_views(all@).len() == all@.len());
    if all.len() == 0 {
        return String::new();
    }
    let (start, end) = all[all.len() - 1];
    let last = cut(&chars, start, end);
    proof {
        assert(span_views(all@).last() == (start as int, end as int));
        assert(components(path@).last() == last@);
    }
    if same(&last, ".") || same(&last, "..") {
        return String::new();
    }
    last
}

/// Whether two texts are equal from given places on.
fn same_parts(a: &Vec<char>, x: (usize, usize), b: &Vec<char>, y: (usize, usize)) -> (r: bool)
    requires
        x.0 <= x.1 <= a@.len(),
        y.0 <= y.1 <= b@.len(),
    ensures
        r == (a@.subrange(x.0 as int, x.1 as int) == b@.subrange(y.0 as int, y.1 as int)),
{
    same(&cut(a, x.0, x.1), &cut(b, y.0, y.1))
}

fn begins_at_root(chars: &Vec<char>) -> (r: bool)
    ensures
        r == absolute(chars@),
{
    chars.len() > 0 && chars[0] == '/'
}

/// Whether `path` is `base` or lies under it.
pub fn is_under(path: &str, base: &str) -> (r: bool)
    ensures
        r == lies_under(path@, base@),
{
    let p = chars_of(path);
    let b = chars_of(base);
    if b.len() == 0 {
        return true;
    }
    if begins_at_root(&p) != begins_at_root(&b) {
        return false;
    }
    let all = spans_of(&p);
    let front = spans_of(&b);
    proof {
        assert(span_views(all@).len() == all@.len());
        assert(span_views(front@).len() == front@.len());
    }
    if front.len() > all.len() {
        return false;
    }
    let mut i: usize = 0;
    while i < front.len()
        invariant
            i <= front@.len() <= all@.len(),
            p@ == path@,
            b@ == base@,
            b@.len() > 0,
            absolute(path@) == absolute(base@),
            span_views(all@) == spans(path@),
            span_views(front@) == spans(base@),
            forall|k: int| 0 <= k < all@.len() ==> (#[trigger] all@[k]).0 < all@[k].1 <= p@.len(),
            forall|k: int|
                0 <= k < front@.len() ==> (#[trigger] front@[k]).0 < front@[k].1 <= b@.len(),
            forall|k: int|
                0 <= k < i ==> #[trigger] components(base@)[k] == components(path@)[k],
        decreases front@.len() - i,
    {
        proof {
            assert(span_views(all@)[i as int] == (all@[i as int].0 as int, all@[i as int].1 as int));
            assert(span_views(front@)[i as int] == (
                front@[i as int].0 as int,
                front@[i as int].1 as int,
            ));
            assert(span_views(all@).len() == all@.len());
            assert(span_views(front@).len() == front@.len());
        }
        if !same_parts(&b, front[i], &p, all[i]) {
            assert(components(base@)[i as int] != components(path@)[i as int]);
            return false;
        }
        i += 1;
    }
    proof {
        assert(span_views(all@).len() == all@.len());
        assert(span_views(front@).len() == front@.len());
        let n = components(base@).len() as int;
        assert(components(path@).subrange(0, n) =~= components(base@));
    }
    true
}

/// `path` as seen from `base`.
pub fn seen_from(path: &str, base: &str) -> (r: String)
    ensures
        r@ == relative(path@, base@),
{
    if !is_under(path, base) {
        return path.to_owned();
    }
    let p = chars_of(path);
    let b = chars_of(base);
    let all = spans_of(&p);
    let skipped: usize = spans_of(&b).len();
    proof {
        assert(span_views(all@).len() == all@.len());
        assert(skipped == spans(base@).len());
    }
    if b.len() == 0 {
        let end: usize = if all.len() > 0 {
            assert(span_views(all@).last() == (all@.last().0 as int, all@.last().1 as int));
            all[all.len() - 1].1
        } else if begins_at_root(&p) {
            1
        } else {
            0
        };
        return cut(&p, 0, end);
    }
    if skipped < all.len() {
        proof {
            lemma_spans(path@, 0);
            let k = skipped as int;
            let m = all@.len() - 1;
            assert(span_views(all@)[k] == (all@[k].0 as int, all@[k].1 as int));
            assert(span_views(all@)[m] == (all@[m].0 as int, all@[m].1 as int));
            assert(spans(path@)[k].0 <= spans(path@)[m].1);
        }
        return cut(&p, all[skipped].0, all[all.len() - 1].1);
    }
    String::new()
}

/// The path of `name` under `base`.
pub fn under(base: &str, name: &str) -> (r: String)
    ensures
        r@ == below(base@) + name@,
{
    let chars = chars_of(base);
    let mut out = base.to_owned();
    if chars.len() > 0 && chars[chars.len() - 1] != '/' {
        out.append("/");
    }
    out.append(name);
    out
}

/// How a component stands in the order of paths: first `.`, then `..`, then names in their order.
pub open spec fn component_key(component: Seq<char>) -> Seq<char> {
    if component == "."@ {
        seq!['\u{1}']
    } else if component == ".."@ {
        seq!['\u{2}']
    } else {
        seq!['\u{3}'] + component
    }
}

/// The keys of a list of components, each closed by the smallest of characters.
pub open spec fn keys_of(all: Seq<Seq<char>>) -> Seq<char>
    decreases all.len(),
{
    if all.len() == 0 {
        Seq::empty()
    } else {
        (keys_of(all.drop_last()) + component_key(all.last())).push('\0')
    }
}

/// A text for a path such that the order of these texts goes by the components of the paths, those
/// that begin at the root first.
pub open spec fn path_key(path: Seq<char>) -> Seq<char> {
    if absolute(path) {
        seq!['\0'] + keys_of(components(path))
    } else {
        keys_of(components(path))
    }
}

fn key_of_component(component: &str) -> (r: String)
    ensures
        r@ == component_key(component@),
{
    let mut out = String::new();
    if same(component, ".") {
        out.push('\u{1}');
        assert(out@ =~= component_key(component@));
    } else if same(component, "..") {
        out.push('\u{2}');
        assert(out@ =~= component_key(component@));
    } else {
        out.push('\u{3}');
        out.append(component);
        assert(out@ =~= component_key(component@));
    }
    out
}

/// The text by which a path is ordered.
pub fn key_of_path(path: &str) -> (r: String)
    ensures
        r@ == path_key(path@),
{
    let chars = chars_of(path);
    let all = spans_of(&chars);
    assert(span_views(all@).len() == all@.len());
    let mut keys = String::new();
    let mut i: usize = 0;
    assert(components(path@).take(0) =~= Seq::<Seq<char>>::empty());
    while i < all.len()
        invariant
            i <= all@.len(),
            chars@ == path@,
            span_views(all@) == spans(path@),
            span_views(all@).len() == all@.len(),
            forall|k: int| 0 <= k < all@.len() ==> (#[trigger] all@[k]).0 < all@[k].1 <= chars@.len(),
            keys@ == keys_of(components(path@).take(i as int)),
        decreases all@.len() - i,
    {
        let (start, end) = all[i];
        proof {
            assert(span_views(all@)[i as int] == (start as int, end as int));
            let part = components(path@).take(i + 1);
            assert(part.drop_last() =~= components(path@).take(i as int));
            assert(part.last() == path@.subrange(start as int, end as int));
        }
        keys.append(&key_of_component(&cut(&chars, start, end)));
        keys.push('\0');
        i += 1;
    }
    assert(components(path@).take(i as int) =~= components(path@));
    if begins_at_root(&chars) {
        let mut out = String::new();
        out.push('\0');
        out.append(&keys);
        assert(out@ =~= path_key(path@));
        out
    } else {
        keys
    }
}

/// Behind the last component there is none.
proof fn lemma_none_behind(path: Seq<char>, start: int)
    requires
        0 <= start,
        spans_from(path, start).len() > 0,
    ensures
        spans_from(path, spans_from(path, start).last().1 + 1).len() == 0,
    decreases path.len() + 1 - start,
{
    let end = find(path, '/', start);
    lemma_find(path, '/', start);
    let rest = spans_from(path, end + 1);
    if rest.len() > 0 {
        assert(spans_from(path, start).last() == rest.last());
        lemma_none_behind(path, end + 1);
    }
}

/// From a component on stand the components from it on.
proof fn lemma_spans_skip(path: Seq<char>, start: int, k: int)
    requires
        0 <= start,
        0 <= k < spans_from(path, start).len(),
    ensures
        spans_from(path, spans_from(path, start)[k].0) == spans_from(path, start).skip(k),
    decreases path.len() + 1 - start,
{
    let all = spans_from(path, start);
    let end = find(path, '/', start);
    lemma_find(path, '/', start);
    let rest = spans_from(path, end + 1);
    if counts(path, start, end) {
        if k == 0 {
            assert(all.skip(0) =~= all);
        } else {
            assert(all[k] == rest[k - 1]);
            lemma_spans_skip(path, end + 1, k - 1);
            assert(all.skip(k) =~= rest.skip(k - 1));
        }
    } else {
        lemma_spans_skip(path, end + 1, k);
    }
}

/// Places moved to the front by `by`.
pub open spec fn moved(all: Seq<(int, int)>, by: int) -> Seq<(int, int)> {
    Seq::new(all.len(), |i: int| (all[i].0 - by, all[i].1 - by))
}

/// The components of a part of a path that begins with a component and ends behind the last.
proof fn lemma_spans_of_part(path: Seq<char>, from: int, to: int, i: int)
    requires
        0 <= from <= i <= to + 1,
        from < to <= path.len(),
        to < path.len() ==> path[to] == '/',
        spans_from(path, to + 1).len() == 0,
        from == 0 || counts(path, from, find(path, '/', from)),
    ensures
        spans_from(path.subrange(from, to), i - from) == moved(spans_from(path, i), from),
    decreases to + 1 - i,
{
    let part = path.subrange(from, to);
    let here = spans_from(part, i - from);
    let there = spans_from(path, i);
    if i >= to {
        lemma_find(path, '/', to);
        if i == to && to < path.len() {
            assert(find(path, '/', to) == to);
            assert(there == spans_from(path, to + 1));
        }
        assert(here =~= moved(there, from));
    } else {
        lemma_find(path, '/', i);
        let end = find(path, '/', i);
        if end > to {
            assert(path[to] != '/');
        }
        assert forall|k: int| i - from <= k < end - from implies part[k] != '/' by {
            assert(part[k] == path[k + from]);
        }
        if end < to {
            assert(part[end - from] == path[end]);
        }
        lemma_find_is(part, '/', i - from, end - from);
        assert(part.subrange(i - from, end - from) =~= path.subrange(i, end));
        lemma_spans_of_part(path, from, to, end + 1);
        assert(here =~= moved(there, from));
    }
}

/// A path that lies under a directory is found again from it: its components are those of the
/// directory and behind them those of the path as seen from there. Any other path stays as it is.
pub proof fn relative_paths_lead_back(path: Seq<char>, base: Seq<char>)
    ensures
        lies_under(path, base) ==> components(base) + components(relative(path, base))
            == components(path),
        !lies_under(path, base) ==> relative(path, base) == path,
{
    if lies_under(path, base) {
        let all = spans(path);
        let n = spans(base).len() as int;
        let seen = relative(path, base);
        lemma_spans(path, 0);
        assert(components(path).len() == all.len());
        assert(components(base).len() == n);
        if n < all.len() {
            let from = if base.len() == 0 {
                0
            } else {
                all[n].0
            };
            let to = all.last().1;
            assert(all[all.len() - 1] == all.last());
            lemma_find(path, '/', all.last().0);
            lemma_none_behind(path, 0);
            lemma_spans_skip(path, 0, n);
            lemma_spans_of_part(path, from, to, from);
            assert(all.skip(0) =~= all);
            assert(spans(seen) == moved(all.skip(n), from));
            assert forall|i: int| 0 <= i < components(seen).len() implies #[trigger] components(
                seen,
            )[i] == components(path)[n + i] by {
                assert(all.skip(n)[i] == all[n + i]);
                let span = all[n + i];
                if n + i < all.len() - 1 {
                    assert(all[n + i].1 < all[all.len() - 1].0);
                }
                if i > 0 {
                    assert(all[n].1 < all[n + i].0);
                }
                assert(from <= span.0);
                assert(seen.subrange(span.0 - from, span.1 - from) =~= path.subrange(
                    span.0,
                    span.1,
                ));
            }
            assert(components(base) =~= components(path).take(n)) by {
                assert forall|i: int| 0 <= i < n implies components(base)[i] == components(path)[i] by {
                    assert(components(path).subrange(0, n)[i] == components(path)[i]);
                }
            }
            assert(components(base) + components(seen) =~= components(path));
        } else {
            assert(spans_from(seen, 1).len() == 0);
            assert(seen.len() == 1 ==> find(seen, '/', 0) == 0);
            assert(spans(seen).len() == 0);
            assert(components(base) =~= components(path));
            assert(components(base) + components(seen) =~= components(path));
        }
    }
}

} // verus!
