//! Ordered sets and maps of names.
use vstd::prelude::*;

use crate::text::{
    contains_text, insert_sorted, lemma_sorted_of, same, sorted_of, strictly_sorted, views,
};

verus! {

/// A set of names.
#[derive(Debug)]
pub struct NameSet {
    names: Vec<String>,
}

impl View for NameSet {
    type V = Set<Seq<char>>;

    closed spec fn view(&self) -> Set<Seq<char>> {
        views(self.names@).to_set()
    }
}

impl NameSet {
    /// The set that holds nothing.
    pub fn new() -> (r: NameSet)
        ensures
            r@ == Set::<Seq<char>>::empty(),
    {
        let r = NameSet { names: Vec::new() };
        assert(r@ =~= Set::<Seq<char>>::empty());
        r
    }

    /// Adds a name to the set.
    pub fn insert(&mut self, name: String)
        ensures
            final(self)@ == old(self)@.insert(name@),
    {
        let ghost before = views(self.names@);
        let ghost text = name@;
        if contains_text(&self.names, &name) {
            assert(self@.insert(text) =~= self@);
            return;
        }
        self.names.push(name);
        proof {
            assert(views(self.names@) =~= before.push(text));
            before.lemma_push_to_set_commute(text);
        }
    }

    /// Adds every name of another set.
    pub fn insert_all(&mut self, other: &NameSet)
        ensures
            final(self)@ == old(self)@.union(other@),
    {
        let ghost start = self@;
        let mut i: usize = 0;
        assert(start.union(views(other.names@).take(0).to_set()) =~= start);
        while i < other.names.len()
            invariant
                i <= other.names@.len(),
                self@ == start.union(views(other.names@).take(i as int).to_set()),
            decreases other.names@.len() - i,
        {
            self.insert(other.names[i].clone());
            proof {
                let t = views(other.names@);
                assert(t.take(i + 1) =~= t.take(i as int).push(t[i as int]));
                t.take(i as int).lemma_push_to_set_commute(t[i as int]);
                assert(start.union(t.take(i as int).to_set()).insert(t[i as int]) =~= start.union(
                    t.take(i + 1).to_set(),
                ));
            }
            i += 1;
        }
        assert(views(other.names@).take(i as int) =~= views(other.names@));
    }

    /// Whether the set holds `name`.
    pub fn contains(&self, name: &str) -> (r: bool)
        ensures
            r == self@.contains(name@),
    {
        contains_text(&self.names, name)
    }

    /// The names of the set, each once, in no particular order.
    pub fn members(&self) -> (r: &Vec<String>)
        ensures
            views(r@).to_set() == self@,
    {
        &self.names
    }

    /// The names of the set in order.
    pub fn to_list(&self) -> (r: Vec<String>)
        ensures
            strictly_sorted(views(r@)),
            views(r@).to_set() == self@,
            views(r@) == sorted_of(self@),
    {
        let mut out: Vec<String> = Vec::new();
        let mut i: usize = 0;
        assert(views(out@).to_set() =~= views(self.names@).take(0).to_set());
        while i < self.names.len()
            invariant
                i <= self.names@.len(),
                strictly_sorted(views(out@)),
                views(out@).to_set() == views(self.names@).take(i as int).to_set(),
            decreases self.names@.len() - i,
        {
            insert_sorted(&mut out, self.names[i].clone());
            proof {
                let t = views(self.names@);
                assert(t.take(i + 1) =~= t.take(i as int).push(t[i as int]));
                t.take(i as int).lemma_push_to_set_commute(t[i as int]);
            }
            i += 1;
        }
        proof {
            assert(views(self.names@).take(i as int) =~= views(self.names@));
            lemma_sorted_of(views(out@));
        }
        out
    }
}

impl Default for NameSet {
    fn default() -> (r: NameSet)
        ensures
            r@ == Set::<Seq<char>>::empty(),
    {
        NameSet::new()
    }
}

/// The map that a list of bindings makes when each is entered in turn.
pub open spec fn bindings(entries: Seq<(Seq<char>, Seq<char>)>) -> Map<Seq<char>, Seq<char>>
    decreases entries.len(),
{
    if entries.len() == 0 {
        Map::empty()
    } else {
        bindings(entries.drop_last()).insert(entries.last().0, entries.last().1)
    }
}

spec fn entry_views(v: Seq<(String, String)>) -> Seq<(Seq<char>, Seq<char>)> {
    Seq::new(v.len(), |i: int| (v[i].0@, v[i].1@))
}

/// A map from names to names. A later binding of a name replaces an earlier one.
#[derive(Debug)]
pub struct NameMap {
    entries: Vec<(String, String)>,
}

impl View for NameMap {
    type V = Map<Seq<char>, Seq<char>>;

    closed spec fn view(&self) -> Map<Seq<char>, Seq<char>> {
        bindings(entry_views(self.entries@))
    }
}

impl NameMap {
    /// The map that binds nothing.
    pub fn new() -> (r: NameMap)
        ensures
            r@ == Map::<Seq<char>, Seq<char>>::empty(),
    {
        NameMap { entries: Vec::new() }
    }

    /// Whether the map binds nothing.
    pub fn is_empty(&self) -> (r: bool)
        ensures
            r == (self@ == Map::<Seq<char>, Seq<char>>::empty()),
    {
        proof {
            let all = entry_views(self.entries@);
            if all.len() > 0 {
                assert(self@.contains_key(all.last().0));
            }
        }
        self.entries.is_empty()
    }

    /// Binds `name` to `value`.
    pub fn insert(&mut self, name: String, value: String)
        ensures
            final(self)@ == old(self)@.insert(name@, value@),
    {
        let ghost before = self.entries@;
        self.entries.push((name, value));
        proof {
            let after = entry_views(self.entries@);
            assert(after.drop_last() =~= entry_views(before));
            assert(after.last() == (name@, value@));
        }
    }

    /// What `name` is bound to.
    pub fn get(&self, name: &str) -> (r: Option<&String>)
        ensures
            match r {
                Some(value) => self@.contains_key(name@) && self@[name@] == value@,
                None => !self@.contains_key(name@),
            },
    {
        let mut n: usize = self.entries.len();
        assert(entry_views(self.entries@).take(n as int) =~= entry_views(self.entries@));
        while n > 0
            invariant
                n <= self.entries@.len(),
                bindings(entry_views(self.entries@).take(n as int)).contains_key(name@)
                    == self@.contains_key(name@),
                bindings(entry_views(self.entries@).take(n as int))[name@] == self@[name@]
                    || !self@.contains_key(name@),
            decreases n,
        {
            proof {
                let t = entry_views(self.entries@).take(n as int);
                assert(t.drop_last() =~= entry_views(self.entries@).take(n - 1));
                assert(t.last() == entry_views(self.entries@)[n - 1]);
            }
            if same(&self.entries[n - 1].0, name) {
                return Some(&self.entries[n - 1].1);
            }
            n -= 1;
        }
        None
    }
}

impl Default for NameMap {
    fn default() -> (r: NameMap)
        ensures
            r@ == Map::<Seq<char>, Seq<char>>::empty(),
    {
        NameMap::new()
    }
}

} // verus!
