//! Workspaces: which directories are the members that a root declares.
use vstd::prelude::*;
use vstd::string::*;

use crate::numerals::{contains_sub, has_text};
use crate::paths::{is_under, lies_under};
use crate::ranking::{path_leq, sort_paths};
use crate::text::{
    chars_of, contains_text, cut, opt_view, rfind, rfind_char, same, split, split_on, views,
};

verus! {

/// A workspace: its root and the directories of its members.
#[derive(Debug)]
pub struct Workspace {
    pub root: String,
    pub members: Vec<String>,
}

/// The message for a pattern that is not supported.
pub open spec fn unsupported(pattern: Seq<char>, why: Seq<char>) -> Seq<char> {
    "unsupported glob in [tool.uv.workspace].members: `"@ + pattern + "` ("@ + why + ")"@
}

/// A star stands in a segment other than a last segment that is the star alone.
pub open spec fn stray_star(segments: Seq<Seq<char>>) -> bool {
    exists|i: int|
        0 <= i < segments.len() && has_text(#[trigger] segments[i], "*"@) && !(i == segments.len()
            - 1 && segments[i] == "*"@)
}

/// What is wrong with a pattern, if it is not a plain path, nor one that ends in a lone star.
pub open spec fn glob_error(pattern: Seq<char>) -> Option<Seq<char>> {
    if has_text(pattern, "**"@) {
        Some(unsupported(pattern, "recursive `**` is not supported"@))
    } else if has_text(pattern, "?"@) {
        Some(unsupported(pattern, "`?` wildcards are not supported"@))
    } else if has_text(pattern, "["@) {
        Some(unsupported(pattern, "character classes are not supported"@))
    } else if stray_star(split(pattern, '/')) {
        Some(unsupported(pattern, "only a single trailing `*` segment is supported"@))
    } else {
        None
    }
}

fn unsupported_text(pattern: &str, why: &str) -> (r: String)
    ensures
        r@ == unsupported(pattern@, why@),
{
    let mut out = "unsupported glob in [tool.uv.workspace].members: `".to_owned();
    out.append(pattern);
    out.append("` (");
    out.append(why);
    out.append(")");
    out
}

fn has_stray_star(segments: &Vec<String>) -> (r: bool)
    ensures
        r == stray_star(views(segments@)),
{
    let mut i: usize = 0;
    while i < segments.len()
        invariant
            i <= segments@.len(),
            forall|k: int|
                0 <= k < i ==> !(has_text(#[trigger] views(segments@)[k], "*"@) && !(k
                    == segments@.len() - 1 && views(segments@)[k] == "*"@)),
        decreases segments@.len() - i,
    {
        assert(views(segments@)[i as int] == segments@[i as int]@);
        assert(views(segments@).len() == segments@.len());
        if contains_sub(&segments[i], "*") && !(i == segments.len() - 1 && same(
            &segments[i],
            "*",
        )) {
            return true;
        }
        i += 1;
    }
    assert(views(segments@).len() == segments@.len());
    false
}

/// Rejects a pattern that is neither a plain path nor one that ends in a lone star.
pub fn reject_unsupported_glob(pattern: &str) -> (r: Result<(), String>)
    ensures
        match glob_error(pattern@) {
            Some(e) => r is Err && r->Err_0@ == e,
            None => r is Ok,
        },
{
    if contains_sub(pattern, "**") {
        return Err(unsupported_text(pattern, "recursive `**` is not supported"));
    }
    if contains_sub(pattern, "?") {
        return Err(unsupported_text(pattern, "`?` wildcards are not supported"));
    }
    if contains_sub(pattern, "[") {
        return Err(unsupported_text(pattern, "character classes are not supported"));
    }
    let segments = split_on(pattern, '/');
    if has_stray_star(&segments) {
        return Err(
            unsupported_text(pattern, "only a single trailing `*` segment is supported"),
        );
    }
    Ok(())
}

/// The directory whose children a pattern asks for, if its last segment is a lone star.
pub open spec fn starred_directory(pattern: Seq<char>) -> Option<Seq<char>> {
    let at = rfind(pattern, '/', pattern.len() as int);
    if pattern.subrange(at + 1, pattern.len() as int) == "*"@ {
        Some(
            if at > 0 {
                pattern.subrange(0, at)
            } else {
                Seq::empty()
            },
        )
    } else {
        None
    }
}

/// The directory whose children a pattern asks for, if its last segment is a lone star.
pub fn split_trailing_star(pattern: &str) -> (r: Option<String>)
    ensures
        opt_view(r) == starred_directory(pattern@),
{
    let chars = chars_of(pattern);
    let n: usize = chars.len();
    match rfind_char(&chars, '/') {
        Some(i) => {
            let last = cut(&chars, i + 1, n);
            if !same(&last, "*") {
                return None;
            }
            let prefix = cut(&chars, 0, i);
            assert(i == 0 ==> prefix@ =~= Seq::<char>::empty());
            Some(prefix)
        },
        None => {
            assert(pattern@.subrange(0, n as int) =~= pattern@);
            if !same(pattern, "*") {
                return None;
            }
            Some(String::new())
        },
    }
}

/// What a pattern asks for.
#[derive(Debug)]
pub enum MemberPattern {
    /// The directory at a path.
    Exact(String),
    /// Every directory directly under a path.
    Children(String),
}

/// What a pattern asks for, or what is wrong with it.
pub fn member_pattern(pattern: &str) -> (r: Result<MemberPattern, String>)
    ensures
        match glob_error(pattern@) {
            Some(e) => r is Err && r->Err_0@ == e,
            None => r is Ok && match starred_directory(pattern@) {
                Some(prefix) => r->Ok_0 is Children && r->Ok_0->Children_0@ == prefix,
                None => r->Ok_0 is Exact && r->Ok_0->Exact_0@ == pattern@,
            },
        },
{
    if let Err(e) = reject_unsupported_glob(pattern) {
        return Err(e);
    }
    match split_trailing_star(pattern) {
        Some(prefix) => Ok(MemberPattern::Children(prefix)),
        None => Ok(MemberPattern::Exact(pattern.to_owned())),
    }
}

/// The message for a member outside the root.
pub open spec fn outside_root(pattern: Seq<char>, member: Seq<char>, root: Seq<char>) -> Seq<char> {
    "workspace member `"@ + pattern + "` resolves to "@ + member
        + " which is outside workspace root "@ + root
}

/// Rejects a member outside the root.
pub fn validate_member_under_root(root: &str, member: &str, pattern: &str) -> (r: Result<(), String>)
    ensures
        if lies_under(member@, root@) {
            r is Ok
        } else {
            r is Err && r->Err_0@ == outside_root(pattern@, member@, root@)
        },
{
    if is_under(member, root) {
        return Ok(());
    }
    let mut out = "workspace member `".to_owned();
    out.append(pattern);
    out.append("` resolves to ");
    out.append(member);
    out.append(" which is outside workspace root ");
    out.append(root);
    Err(out)
}

/// Something that a pattern led to on disk.
#[derive(Debug)]
pub struct Candidate {
    /// Its path, without links and relative parts.
    pub path: String,
    pub is_dir: bool,
}

/// What the exact path of a pattern gives: nothing where there is nothing, an error outside the
/// root, nothing where it is no directory, else itself.
pub open spec fn exact_members(root: Seq<char>, pattern: Seq<char>, found: Option<(Seq<char>, bool)>) -> Result<
    Seq<Seq<char>>,
    Seq<char>,
> {
    match found {
        None => Ok(Seq::empty()),
        Some((path, is_dir)) => if !lies_under(path, root) {
            Err(outside_root(pattern, path, root))
        } else if is_dir {
            Ok(seq![path])
        } else {
            Ok(Seq::empty())
        },
    }
}

pub open spec fn candidate_view(o: Option<Candidate>) -> Option<(Seq<char>, bool)> {
    match o {
        Some(c) => Some((c.path@, c.is_dir)),
        None => None,
    }
}

pub open spec fn candidate_views(v: Seq<Candidate>) -> Seq<(Seq<char>, bool)> {
    Seq::new(v.len(), |i: int| (v[i].path@, v[i].is_dir))
}

/// The directories among the first `n` things under a prefix, or an error where one of them lies
/// outside the root.
pub open spec fn listed_members(
    root: Seq<char>,
    prefix: Seq<char>,
    found: Seq<(Seq<char>, bool)>,
    n: int,
) -> Result<Seq<Seq<char>>, Seq<char>>
    decreases n,
{
    if n <= 0 {
        Ok(Seq::empty())
    } else {
        match listed_members(root, prefix, found, n - 1) {
            Err(e) => Err(e),
            Ok(before) => if !found[n - 1].1 {
                Ok(before)
            } else if lies_under(found[n - 1].0, root) {
                Ok(before.push(found[n - 1].0))
            } else {
                Err(outside_root(prefix, found[n - 1].0, root))
            },
        }
    }
}

/// What a pattern with a trailing star gives: the directories under its prefix, in order.
pub open spec fn star_members(
    root: Seq<char>,
    prefix: Seq<char>,
    found: Seq<(Seq<char>, bool)>,
) -> Result<Seq<Seq<char>>, Seq<char>> {
    match listed_members(root, prefix, found, found.len() as int) {
        Err(e) => Err(e),
        Ok(members) => Ok(members.sort_by(path_leq())),
    }
}

/// The members that the exact path of a pattern gives.
pub fn expand_exact(root: &str, pattern: &str, found: &Option<Candidate>) -> (r: Result<
    Vec<String>,
    String,
>)
    ensures
        match exact_members(root@, pattern@, candidate_view(*found)) {
            Ok(v) => r is Ok && views(r->Ok_0@) == v,
            Err(e) => r is Err && r->Err_0@ == e,
        },
{
    let mut out: Vec<String> = Vec::new();
    assert(views(out@) =~= Seq::<Seq<char>>::empty());
    if let Some(c) = found {
        if let Err(e) = validate_member_under_root(root, &c.path, pattern) {
            return Err(e);
        }
        if c.is_dir {
            out.push(c.path.clone());
            assert(views(out@) =~= seq![c.path@]);
        }
    }
    Ok(out)
}

proof fn lemma_listed_error(
    root: Seq<char>,
    prefix: Seq<char>,
    found: Seq<(Seq<char>, bool)>,
    n: int,
    m: int,
)
    requires
        0 <= n <= m,
        listed_members(root, prefix, found, n) is Err,
    ensures
        listed_members(root, prefix, found, m) == listed_members(root, prefix, found, n),
    decreases m - n,
{
    if n < m {
        lemma_listed_error(root, prefix, found, n, m - 1);
    }
}

/// The members that a pattern with a trailing star gives.
pub fn expand_star_pattern(root: &str, prefix: &str, found: &Vec<Candidate>) -> (r: Result<
    Vec<String>,
    String,
>)
    ensures
        match star_members(root@, prefix@, candidate_views(found@)) {
            Ok(v) => r is Ok && views(r->Ok_0@) == v,
            Err(e) => r is Err && r->Err_0@ == e,
        },
{
    let ghost model = candidate_views(found@);
    let mut out: Vec<String> = Vec::new();
    assert(views(out@) =~= Seq::<Seq<char>>::empty());
    let mut i: usize = 0;
    while i < found.len()
        invariant
            i <= found@.len(),
            model == candidate_views(found@),
            model.len() == found@.len(),
            listed_members(root@, prefix@, model, i as int) == Ok::<Seq<Seq<char>>, Seq<char>>(
                views(out@),
            ),
        decreases found@.len() - i,
    {
        let c = &found[i];
        let ghost before = views(out@);
        assert(model[i as int] == (c.path@, c.is_dir));
        if c.is_dir {
            if let Err(e) = validate_member_under_root(root, &c.path, prefix) {
                proof {
                    lemma_listed_error(root@, prefix@, model, i + 1, model.len() as int);
                }
                return Err(e);
            }
            out.push(c.path.clone());
            assert(views(out@) =~= before.push(c.path@));
        }
        i += 1;
    }
    Ok(sort_paths(out))
}

/// The members after more are added: each once, where it was first.
pub open spec fn merged(members: Seq<Seq<char>>, more: Seq<Seq<char>>) -> Seq<Seq<char>>
    decreases more.len(),
{
    if more.len() == 0 {
        members
    } else {
        let before = merged(members, more.drop_last());
        if before.contains(more.last()) {
            before
        } else {
            before.push(more.last())
        }
    }
}

/// Adds members that are not there yet.
pub fn add_members(members: &mut Vec<String>, more: Vec<String>)
    ensures
        views(final(members)@) == merged(views(old(members)@), views(more@)),
{
    let ghost start = views(members@);
    let ghost all = views(more@);
    assert(all.take(0) =~= Seq::<Seq<char>>::empty());
    for entry in it: more
        invariant
            views(it.seq()) == all,
            views(members@) == merged(start, all.take(it.index() as int)),
    {
        let ghost n = it.index() as int;
        let ghost before = views(members@);
        proof {
            let part = all.take(n + 1);
            assert(part.drop_last() =~= all.take(n));
            assert(part.last() == entry@);
        }
        if !contains_text(members, &entry) {
            members.push(entry);
            assert(views(members@) =~= before.push(entry@));
        }
    }
    assert(all.take(all.len() as int) =~= all);
}

/// However members are added, none occurs twice, none is lost, and those that were there stay
/// where they were.
pub proof fn merging_keeps_members_once(members: Seq<Seq<char>>, more: Seq<Seq<char>>)
    requires
        members.no_duplicates(),
    ensures
        merged(members, more).no_duplicates(),
        members.is_prefix_of(merged(members, more)),
        forall|m: Seq<char>|
            #[trigger] merged(members, more).contains(m) == (members.contains(m) || more.contains(
                m,
            )),
    decreases more.len(),
{
    if more.len() == 0 {
        assert forall|m: Seq<char>| #[trigger] merged(members, more).contains(m) == (
        members.contains(m) || more.contains(m)) by {}
    } else {
        let front = more.drop_last();
        let last = more.last();
        merging_keeps_members_once(members, front);
        let before = merged(members, front);
        let after = merged(members, more);
        assert forall|m: Seq<char>| #[trigger] after.contains(m) == (members.contains(m)
            || more.contains(m)) by {
            assert(more =~= front.push(last));
            assert(before.contains(m) == (members.contains(m) || front.contains(m)));
            if before.contains(m) {
                let k = choose|k: int| 0 <= k < before.len() && before[k] == m;
                assert(after[k] == m);
            }
            if front.contains(m) {
                let k = choose|k: int| 0 <= k < front.len() && front[k] == m;
                assert(more[k] == m);
            }
            assert(more[more.len() - 1] == last);
            if after.contains(m) && !before.contains(m) {
                assert(m == last);
            }
            if more.contains(m) && !front.contains(m) {
                let k = choose|k: int| 0 <= k < more.len() && more[k] == m;
                if k < more.len() - 1 {
                    assert(front[k] == m);
                }
                assert(m == last);
                if !before.contains(last) {
                    assert(after[after.len() - 1] == last);
                }
            }
        }
        if !before.contains(last) {
            assert forall|i: int, j: int| 0 <= i < after.len() && 0 <= j < after.len() && i
                != j implies after[i] != after[j] by {
                if i < before.len() && j < before.len() {
                    assert(before[i] != before[j]);
                } else if i < before.len() {
                    assert(before.contains(before[i]));
                } else {
                    assert(before.contains(before[j]));
                }
            }
        }
    }
}

} // verus!
