//! What holds of paths, of the files that hold tests and of the interpreter.
use vstd::prelude::*;

use crate::laws::texts::texts_are_ordered_by_where_they_differ;
use crate::paths::{
    absolute, basename, below, component_key, components, keys_of, lemma_spans, lies_under,
    path_key, spans, spans_from,
};
use crate::python_detect::{python_command, venv_python_path};
use crate::ranking::path_leq;
use crate::text::{
    find, is_prefix, is_suffix, lemma_find, lemma_find_is, lemma_lt_irreflexive,
    lemma_lt_transitive, text_lt,
};
use crate::walker::test_file_name;

verus! {

/// Whether a text can be one component of a path.
pub open spec fn plain_name(name: Seq<char>) -> bool {
    name.len() > 0 && !name.contains('/') && name != "."@ && name != ".."@
}

proof fn lemma_spans_behind(base: Seq<char>, rest: Seq<char>, start: int)
    requires
        0 <= start <= base.len(),
    ensures
        spans_from(base + seq!['/'] + rest, start) == spans_from(base, start) + spans_from(
            base + seq!['/'] + rest,
            (base.len() + 1) as int,
        ),
    decreases base.len() - start,
{
    let path = base + seq!['/'] + rest;
    let n = base.len() as int;
    assert(path[n] == '/');
    if start < n {
        let e = find(base, '/', start);
        lemma_find(base, '/', start);
        assert forall|i: int| start <= i < e implies path[i] != '/' by {
            assert(path[i] == base[i]);
        }
        if e < n {
            assert(path[e] == base[e]);
        }
        lemma_find_is(path, '/', start, e);
        assert(path.subrange(start, e) =~= base.subrange(start, e));
        let behind = spans_from(path, n + 1);
        if e < n {
            lemma_spans_behind(base, rest, e + 1);
            assert(spans_from(path, start) =~= spans_from(base, start) + behind);
        } else {
            assert(spans_from(base, e + 1).len() == 0);
            assert(spans_from(path, start) =~= spans_from(base, start) + behind);
        }
    } else {
        lemma_find_is(path, '/', n, n);
        assert(spans_from(base, n).len() == 0);
        assert(spans_from(path, n) =~= spans_from(base, n) + spans_from(path, n + 1));
    }
}

/// One more name behind a slash is one more component; a dot there, or nothing, is none. A name
/// alone is its own component, and nothing has none.
pub proof fn slashes_part_components(base: Seq<char>, name: Seq<char>)
    requires
        !name.contains('/'),
    ensures
        name.len() > 0 && name != "."@ ==> components(base + seq!['/'] + name) == components(
            base,
        ).push(name),
        components(base + seq!['/'] + "."@) == components(base),
        components(base + seq!['/']) == components(base),
        name.len() > 0 ==> components(name) == seq![name],
        components(Seq::<char>::empty()) == Seq::<Seq<char>>::empty(),
{
    reveal_strlit(".");
    lemma_one_more(base, name);
    lemma_one_more(base, "."@);
    lemma_one_more(base, Seq::empty());
    assert(base + seq!['/'] + Seq::<char>::empty() =~= base + seq!['/']);
    let n = name.len() as int;
    assert forall|i: int| 0 <= i < n implies name[i] != '/' by {
        if name[i] == '/' {
            assert(name.contains('/'));
        }
    }
    lemma_find_is(name, '/', 0, n);
    assert(spans_from(name, n + 1).len() == 0);
    if n > 0 {
        assert(spans(name) =~= seq![(0int, n)]);
        assert(name.subrange(0, n) =~= name);
        assert(components(name) =~= seq![name]);
    }
    assert(components(Seq::<char>::empty()) =~= Seq::<Seq<char>>::empty());
}

proof fn lemma_one_more(base: Seq<char>, name: Seq<char>)
    requires
        !name.contains('/'),
    ensures
        components(base + seq!['/'] + name) == if name.len() > 0 && name != "."@ {
            components(base).push(name)
        } else {
            components(base)
        },
{
    let path = base + seq!['/'] + name;
    let n = base.len() as int;
    let len = path.len() as int;
    lemma_spans_behind(base, name, 0);
    lemma_spans(base, 0);
    assert forall|i: int| n + 1 <= i < len implies path[i] != '/' by {
        assert(path[i] == name[i - n - 1]);
        if path[i] == '/' {
            assert(name.contains('/'));
        }
    }
    if n + 1 < len {
        lemma_find_is(path, '/', n + 1, len);
        assert(path.subrange(n + 1, len) =~= name);
        assert(spans_from(path, len + 1).len() == 0);
    }
    let behind = spans_from(path, n + 1);
    let all = spans(base);
    if name.len() > 0 && name != "."@ {
        assert(behind =~= seq![(n + 1, len)]);
    } else {
        assert(behind.len() == 0);
    }
    assert(spans(path) == all + behind);
    assert forall|i: int| 0 <= i < all.len() implies #[trigger] path.subrange(all[i].0, all[i].1)
        == base.subrange(all[i].0, all[i].1) by {
        assert(spans_from(base, 0)[i] == all[i]);
        assert(path.subrange(all[i].0, all[i].1) =~= base.subrange(all[i].0, all[i].1));
    }
    let whole = components(path);
    assert forall|i: int| 0 <= i < all.len() implies #[trigger] whole[i] == components(base)[i] by {
        assert(spans(path)[i] == all[i]);
        assert(path.subrange(all[i].0, all[i].1) == base.subrange(all[i].0, all[i].1));
    }
    if name.len() > 0 && name != "."@ {
        assert(spans(path)[all.len() as int] == (n + 1, len));
        assert(whole =~= components(base).push(name));
    } else {
        assert(whole =~= components(base));
    }
}

/// A file's name is the last component of its path, however many slashes follow it.
pub proof fn names_come_last(directory: Seq<char>, name: Seq<char>)
    requires
        plain_name(name),
    ensures
        basename(name) == name,
        basename(directory + seq!['/'] + name) == name,
        basename(directory + seq!['/'] + name + seq!['/']) == name,
{
    slashes_part_components(directory, name);
    slashes_part_components(directory + seq!['/'] + name, name);
}

/// What stands behind a directory and a slash lies under it, and so does the directory itself; two
/// names in one directory lie under each other only if they are the same.
pub proof fn paths_lie_under_their_directories(directory: Seq<char>, name: Seq<char>, other: Seq<char>)
    requires
        directory.len() > 0,
        plain_name(name),
        plain_name(other),
    ensures
        lies_under(directory, directory),
        lies_under(directory + seq!['/'] + name, directory),
        lies_under(directory + seq!['/'] + name, directory + seq!['/'] + other) ==> name == other,
        !lies_under(directory, directory + seq!['/'] + name),
        lies_under(name, other) ==> name == other,
{
    slashes_part_components(directory, name);
    slashes_part_components(directory, other);
    let base = components(directory);
    let a = base.push(name);
    let b = base.push(other);
    assert((directory + seq!['/'] + name)[0] == directory[0]);
    assert((directory + seq!['/'] + other)[0] == directory[0]);
    assert(base.subrange(0, base.len() as int) =~= base);
    assert(a.subrange(0, base.len() as int) =~= base);
    if b.is_prefix_of(a) {
        assert(a.subrange(0, b.len() as int)[base.len() as int] == a[base.len() as int]);
    }
    if seq![other].is_prefix_of(seq![name]) {
        assert(seq![name].subrange(0, 1)[0] == name);
    }
}

/// A path from the root does not lie under one that is not, nor the other way round.
pub proof fn roots_part_paths(path: Seq<char>, base: Seq<char>)
    requires
        base.len() > 0,
        lies_under(path, base),
    ensures
        (path.len() > 0 && path[0] == '/') == (base[0] == '/'),
{
}

/// A name put below a directory lies in it.
pub proof fn names_are_put_below(directory: Seq<char>, name: Seq<char>)
    requires
        plain_name(name),
    ensures
        components(below(directory) + name) == components(directory).push(name),
        basename(below(directory) + name) == name,
{
    reveal_strlit("/");
    slashes_part_components(directory, name);
    if directory.len() == 0 {
        assert(below(directory) + name =~= name);
        assert(components(directory).push(name) =~= seq![name]);
        assert(directory =~= Seq::<char>::empty());
    } else if directory.last() == '/' {
        let short = directory.drop_last();
        assert(directory =~= short + seq!['/']);
        slashes_part_components(short, name);
        assert(below(directory) + name =~= short + seq!['/'] + name);
    } else {
        assert(below(directory) + name =~= directory + seq!['/'] + name);
    }
}

proof fn lemma_keys(a: Seq<Seq<char>>, b: Seq<Seq<char>>)
    ensures
        keys_of(a + b) == keys_of(a) + keys_of(b),
    decreases b.len(),
{
    if b.len() == 0 {
        assert(a + b =~= a);
        assert(keys_of(a) + keys_of(b) =~= keys_of(a));
    } else {
        lemma_keys(a, b.drop_last());
        assert((a + b).drop_last() =~= a + b.drop_last());
        assert((a + b).last() == b.last());
        assert(keys_of(a + b) =~= keys_of(a) + keys_of(b));
    }
}

proof fn lemma_zero_is_least(c: char)
    requires
        c != '\0',
    ensures
        '\0' < c,
{
    let n = c as u32;
    assert(n >= 0);
    assert(n == c as u32);
    if n == 0 {
        assert(c == n as char);
        assert(c == '\0');
    }
}

proof fn lemma_names_in_order(x: Seq<char>, y: Seq<char>, a: Seq<char>, b: Seq<char>)
    requires
        text_lt(x, y),
        !y.contains('\0'),
    ensures
        text_lt(x + seq!['\0'] + a, y + seq!['\0'] + b),
    decreases x.len(),
{
    let p = x + seq!['\0'] + a;
    let q = y + seq!['\0'] + b;
    assert(q[0] == y[0]);
    assert(y.contains(y[0]));
    if x.len() > 0 {
        assert(p[0] == x[0]);
        if x[0] == y[0] {
            assert forall|i: int| 0 <= i < y.drop_first().len() implies y.drop_first()[i] != '\0' by {
                assert(y.contains(y[i + 1]));
            }
            lemma_names_in_order(x.drop_first(), y.drop_first(), a, b);
            assert(p.drop_first() =~= x.drop_first() + seq!['\0'] + a);
            assert(q.drop_first() =~= y.drop_first() + seq!['\0'] + b);
        }
    } else {
        assert(p[0] == '\0');
        assert(y[0] != '\0');
        lemma_zero_is_least(y[0]);
    }
}

/// Paths are ordered component by component: by the names in the first place where they differ,
/// whatever follows there; and a directory comes before what it holds.
pub proof fn paths_are_ordered_by_components(
    p: Seq<char>,
    q: Seq<char>,
    common: Seq<Seq<char>>,
    x: Seq<char>,
    y: Seq<char>,
    a: Seq<Seq<char>>,
    b: Seq<Seq<char>>,
)
    requires
        absolute(p) == absolute(q),
        components(q) == common + seq![y] + b,
        plain_name(y),
        !y.contains('\0'),
    ensures
        plain_name(x) && text_lt(x, y) && components(p) == common + seq![x] + a ==> path_leq()(p, q)
            && !path_leq()(q, p),
        components(p) == common ==> path_leq()(p, q) && !path_leq()(q, p),
{
    let root = if absolute(p) {
        seq!['\0']
    } else {
        Seq::<char>::empty()
    };
    lemma_keys(common + seq![y], b);
    lemma_keys(common, seq![y]);
    lemma_keys(common + seq![x], a);
    lemma_keys(common, seq![x]);
    lemma_one_key(x);
    lemma_one_key(y);
    let start = root + keys_of(common);
    let ky = keys_of(seq![y]) + keys_of(b);
    assert(path_key(q) =~= start + ky);
    if plain_name(x) && text_lt(x, y) && components(p) == common + seq![x] + a {
        let kx = keys_of(seq![x]) + keys_of(a);
        assert(path_key(p) =~= start + kx);
        texts_are_ordered_by_where_they_differ(start, kx, ky, 'a', 'b');
        let three = seq!['\u{3}'];
        let rx = x + seq!['\0'] + keys_of(a);
        let ry = y + seq!['\0'] + keys_of(b);
        assert(kx =~= three + rx);
        assert(ky =~= three + ry);
        texts_are_ordered_by_where_they_differ(three, rx, ry, 'a', 'b');
        lemma_names_in_order(x, y, keys_of(a), keys_of(b));
        lemma_one_way(path_key(p), path_key(q));
    }
    if components(p) == common {
        assert(path_key(p) =~= start + Seq::<char>::empty());
        texts_are_ordered_by_where_they_differ(start, Seq::empty(), ky, 'a', 'b');
        lemma_one_way(path_key(p), path_key(q));
    }
}

proof fn lemma_one_key(x: Seq<char>)
    ensures
        plain_name(x) ==> keys_of(seq![x]) == seq!['\u{3}'] + x + seq!['\0'],
{
    assert(seq![x].drop_last() =~= Seq::<Seq<char>>::empty());
    assert(keys_of(seq![x].drop_last()) =~= Seq::<char>::empty());
    if plain_name(x) {
        assert(keys_of(seq![x]) =~= seq!['\u{3}'] + x + seq!['\0']);
    }
}

proof fn lemma_one_way(a: Seq<char>, b: Seq<char>)
    requires
        text_lt(a, b),
    ensures
        !text_lt(b, a),
        a != b,
{
    lemma_lt_irreflexive(a);
    if text_lt(b, a) {
        lemma_lt_transitive(a, b, a);
    }
}

/// A file holds tests where its name is `test_`, something and `.py`, or something and `_test.py`;
/// and by no other name.
pub proof fn test_files_are_told_by_their_names(name: Seq<char>, stem: Seq<char>)
    ensures
        stem.len() > 0 ==> test_file_name("test_"@ + stem + ".py"@),
        stem.len() > 0 ==> test_file_name(stem + "_test.py"@),
        test_file_name(name) ==> name.len() > 8 && is_suffix(".py"@, name) && (is_prefix(
            "test_"@,
            name,
        ) || is_suffix("_test.py"@, name)),
{
    reveal_strlit("test_");
    reveal_strlit("_test");
    reveal_strlit(".py");
    reveal_strlit("_test.py");
    let a = "test_"@ + stem + ".py"@;
    assert(a.subrange(a.len() - 3, a.len() as int) =~= ".py"@);
    assert(a.subrange(0, a.len() - 3).subrange(0, 5) =~= "test_"@);
    let b = stem + "_test.py"@;
    let n = b.len() as int;
    assert(b.subrange(n - 3, n) =~= ".py"@);
    let c = b.subrange(0, n - 3);
    assert(c.subrange(n - 8, n - 3) =~= "_test"@);
    if test_file_name(name) {
        let m = name.len() as int;
        let s = name.subrange(0, m - 3);
        if is_prefix("test_"@, s) {
            assert(name.subrange(0, 5) =~= s.subrange(0, 5));
        } else {
            assert(name.subrange(m - 8, m) =~= s.subrange(m - 8, m - 3) + name.subrange(m - 3, m));
            assert("_test.py"@ =~= "_test"@ + ".py"@);
        }
    }
}

/// The interpreter of the project's own environment comes first; where there is none, `uv` is asked
/// for one, without changing the environment; where there is no `uv` either, the name alone has to
/// do.
pub proof fn interpreters_in_their_order(path: Seq<char>, uv: bool)
    ensures
        python_command(Some(path), uv) == seq![path],
        python_command(None, true).len() == 4,
        python_command(None, true)[0] == "uv"@,
        python_command(None, true)[1] == "run"@,
        python_command(None, true)[2] == "--no-sync"@,
        python_command(None, true)[3] == "python"@,
        python_command(None, false) == seq!["python"@],
        venv_python_path(false) == ".venv/bin/python"@,
        venv_python_path(true) == ".venv\\Scripts\\python.exe"@,
{
}

/// The dots come before all names, and one dot before two.
pub proof fn dots_come_before_names(
    p: Seq<char>,
    q: Seq<char>,
    common: Seq<Seq<char>>,
    y: Seq<char>,
    a: Seq<Seq<char>>,
    b: Seq<Seq<char>>,
)
    requires
        absolute(p) == absolute(q),
    ensures
        plain_name(y) && components(p) == common + seq![".."@] + a && components(q) == common + seq![y]
            + b ==> path_leq()(p, q) && !path_leq()(q, p),
        plain_name(y) && components(p) == common + seq!["."@] + a && components(q) == common + seq![y]
            + b ==> path_leq()(p, q) && !path_leq()(q, p),
        components(p) == common + seq!["."@] + a && components(q) == common + seq![".."@] + b
            ==> path_leq()(p, q) && !path_leq()(q, p),
{
    reveal_strlit(".");
    reveal_strlit("..");
    assert("."@.len() == 1 && ".."@.len() == 2);
    if plain_name(y) {
        lemma_by_marks(p, q, common, ".."@, y, a, b);
        lemma_by_marks(p, q, common, "."@, y, a, b);
    }
    lemma_by_marks(p, q, common, "."@, ".."@, a, b);
}

proof fn lemma_by_marks(
    p: Seq<char>,
    q: Seq<char>,
    common: Seq<Seq<char>>,
    x: Seq<char>,
    y: Seq<char>,
    a: Seq<Seq<char>>,
    b: Seq<Seq<char>>,
)
    requires
        absolute(p) == absolute(q),
        component_key(x).len() > 0 && component_key(y).len() > 0,
        component_key(x)[0] < component_key(y)[0],
    ensures
        components(p) == common + seq![x] + a && components(q) == common + seq![y] + b ==> path_leq()(
            p,
            q,
        ) && !path_leq()(q, p),
{
    if components(p) == common + seq![x] + a && components(q) == common + seq![y] + b {
        let root = if absolute(p) {
            seq!['\0']
        } else {
            Seq::<char>::empty()
        };
        lemma_keys(common + seq![y], b);
        lemma_keys(common, seq![y]);
        lemma_keys(common + seq![x], a);
        lemma_keys(common, seq![x]);
        let start = root + keys_of(common);
        let kx = keys_of(seq![x]) + keys_of(a);
        let ky = keys_of(seq![y]) + keys_of(b);
        assert(path_key(p) =~= start + kx);
        assert(path_key(q) =~= start + ky);
        texts_are_ordered_by_where_they_differ(start, kx, ky, 'a', 'b');
        lemma_key_begins(x);
        lemma_key_begins(y);
        assert(kx[0] == component_key(x)[0] && ky[0] == component_key(y)[0]);
        assert(text_lt(kx, ky));
        lemma_one_way(path_key(p), path_key(q));
    }
}

proof fn lemma_key_begins(x: Seq<char>)
    requires
        component_key(x).len() > 0,
    ensures
        keys_of(seq![x]).len() > 0,
        keys_of(seq![x])[0] == component_key(x)[0],
{
    assert(seq![x].drop_last() =~= Seq::<Seq<char>>::empty());
    assert(keys_of(seq![x].drop_last()) =~= Seq::<char>::empty());
}

/// A path that ends in a dot or two names no file.
pub proof fn dots_name_no_file(directory: Seq<char>)
    ensures
        basename("."@).len() == 0,
        basename(".."@).len() == 0,
        basename(directory + seq!['/'] + ".."@).len() == 0,
        basename(Seq::<char>::empty()).len() == 0,
{
    reveal_strlit(".");
    reveal_strlit("..");
    assert(!"."@.contains('/'));
    assert(!".."@.contains('/'));
    slashes_part_components(directory, ".."@);
    slashes_part_components(directory, "."@);
    assert(".."@.len() == 2 && "."@.len() == 1);
}

} // verus!
