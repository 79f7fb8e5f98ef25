//! A finite map from names to terms, kept as a list of bindings with distinct
//! names.

use vstd::prelude::*;
use crate::terms::{term_eq, Term, TermView};
use crate::text::same_text;

verus! {

/// One binding: a name and the term bound to it.
#[derive(Debug)]
pub struct Binding {
    pub name: String,
    pub term: Term,
}

/// A finite map from names to terms. No name is bound twice.
#[derive(Debug)]
pub struct TermMap {
    entries: Vec<Binding>,
}

/// Whether no two bindings of the list share a name.
pub open spec fn distinct_names(entries: Seq<Binding>) -> bool {
    forall|i: int, j: int|
        0 <= i < j < entries.len() ==> (#[trigger] entries[i]).name@ != (#[trigger] entries[j]).name@
}

/// The map that a list of bindings stands for.
pub open spec fn map_of(entries: Seq<Binding>) -> Map<Seq<char>, TermView>
    decreases entries.len(),
{
    if entries.len() == 0 {
        Map::empty()
    } else {
        map_of(entries.drop_last()).insert(entries.last().name@, entries.last().term@)
    }
}

/// Whether two maps give the same term to every name that both bind.
pub open spec fn agree(a: Map<Seq<char>, TermView>, b: Map<Seq<char>, TermView>) -> bool {
    forall|k: Seq<char>| a.contains_key(k) && b.contains_key(k) ==> a[k] == b[k]
}

/// A list of bindings with distinct names stands for a finite map with one
/// key per binding, each bound to that binding's term.
pub proof fn lemma_map_of(entries: Seq<Binding>)
    requires
        distinct_names(entries),
    ensures
        map_of(entries).dom().finite(),
        map_of(entries).len() == entries.len(),
        forall|i: int|
            0 <= i < entries.len() ==> map_of(entries).contains_key((#[trigger] entries[i]).name@)
                && map_of(entries)[entries[i].name@] == entries[i].term@,
        forall|k: Seq<char>| #[trigger]
            map_of(entries).contains_key(k) ==> exists|i: int|
                0 <= i < entries.len() && (#[trigger] entries[i]).name@ == k,
    decreases entries.len(),
{
    if entries.len() > 0 {
        let front = entries.drop_last();
        let last = entries.last();
        assert(distinct_names(front)) by {
            assert forall|i: int, j: int| 0 <= i < j < front.len() implies (#[trigger] front[i]).name@
                != (#[trigger] front[j]).name@ by {
                assert(front[i] == entries[i]);
                assert(front[j] == entries[j]);
            }
        }
        lemma_map_of(front);
        assert(!map_of(front).contains_key(last.name@)) by {
            if map_of(front).contains_key(last.name@) {
                let i = choose|i: int| 0 <= i < front.len() && (#[trigger] front[i]).name@ == last.name@;
                assert(front[i] == entries[i]);
                assert(entries[entries.len() - 1] == last);
            }
        }
        assert forall|i: int| 0 <= i < entries.len() implies map_of(entries).contains_key(
            (#[trigger] entries[i]).name@,
        ) && map_of(entries)[entries[i].name@] == entries[i].term@ by {
            if i < front.len() {
                assert(front[i] == entries[i]);
            }
        }
        assert forall|k: Seq<char>| #[trigger] map_of(entries).contains_key(k) implies exists|i: int|
            0 <= i < entries.len() && (#[trigger] entries[i]).name@ == k by {
            if k == last.name@ {
                assert(entries[entries.len() - 1].name@ == k);
            } else {
                let i = choose|i: int| 0 <= i < front.len() && (#[trigger] front[i]).name@ == k;
                assert(front[i] == entries[i]);
            }
        }
    }
}

/// Two lists of bindings that agree position by position on names and term
/// values stand for the same map.
pub proof fn lemma_map_of_same(a: Seq<Binding>, b: Seq<Binding>)
    requires
        a.len() == b.len(),
        forall|i: int| 0 <= i < a.len() ==> a[i].name@ == b[i].name@ && a[i].term@ == b[i].term@,
    ensures
        map_of(a) == map_of(b),
    decreases a.len(),
{
    if a.len() > 0 {
        lemma_map_of_same(a.drop_last(), b.drop_last());
    }
}

impl View for TermMap {
    type V = Map<Seq<char>, TermView>;

    closed spec fn view(&self) -> Map<Seq<char>, TermView> {
        map_of(self.entries@)
    }
}

impl TermMap {
    /// No name is bound twice.
    #[verifier::type_invariant]
    spec fn well_formed(self) -> bool {
        distinct_names(self.entries@)
    }

    /// The empty map.
    pub fn new() -> (map: TermMap)
        ensures
            map@ == Map::<Seq<char>, TermView>::empty(),
    {
        TermMap { entries: Vec::new() }
    }

    /// The number of names bound.
    pub fn len(&self) -> (n: usize)
        ensures
            self@.dom().finite(),
            n == self@.len(),
    {
        proof {
            use_type_invariant(self);
            lemma_map_of(self.entries@);
        }
        self.entries.len()
    }

    /// Where in the list `key` is bound, if it is.
    fn position(&self, key: &str) -> (found: Option<usize>)
        ensures
            match found {
                Some(i) => i < self.entries.len() && self.entries[i as int].name@ == key@,
                None => !self@.contains_key(key@),
            },
    {
        proof {
            use_type_invariant(self);
            lemma_map_of(self.entries@);
        }
        let mut i: usize = 0;
        while i < self.entries.len()
            invariant
                i <= self.entries.len(),
                forall|j: int| 0 <= j < i ==> (#[trigger] self.entries[j]).name@ != key@,
            decreases self.entries.len() - i,
        {
            if same_text(self.entries[i].name.as_str(), key) {
                return Some(i);
            }
            i += 1;
        }
        None
    }

    /// The term bound to `key`, if any.
    pub fn get(&self, key: &str) -> (found: Option<&Term>)
        ensures
            match found {
                Some(term) => self@.contains_key(key@) && term@ == self@[key@],
                None => !self@.contains_key(key@),
            },
    {
        proof {
            use_type_invariant(self);
            lemma_map_of(self.entries@);
        }
        match self.position(key) {
            Some(i) => Some(&self.entries[i].term),
            None => None,
        }
    }

    /// Binds `key` to `term`, replacing an earlier binding of `key`, which is
    /// returned.
    pub fn insert(&mut self, key: String, term: Term) -> (previous: Option<Term>)
        ensures
            final(self)@ == old(self)@.insert(key@, term@),
            match previous {
                Some(earlier) => old(self)@.contains_key(key@) && earlier@ == old(self)@[key@],
                None => !old(self)@.contains_key(key@),
            },
    {
        proof {
            use_type_invariant(&*self);
            lemma_map_of(self.entries@);
        }
        let ghost before = self.entries@;
        match self.position(key.as_str()) {
            Some(i) => {
                let earlier = self.entries[i].term.clone();
                let binding = Binding { name: key, term };
                // The list is taken out while it changes and put back once its
                // names are known to be distinct again.
                let mut entries: Vec<Binding> = Vec::new();
                core::mem::swap(&mut self.entries, &mut entries);
                entries.set(i, binding);
                proof {
                    let after = entries@;
                    assert(distinct_names(after)) by {
                        assert forall|a: int, b: int| 0 <= a < b < after.len() implies (
                        #[trigger] after[a]).name@ != (#[trigger] after[b]).name@ by {
                            assert(after[a].name@ == before[a].name@);
                            assert(after[b].name@ == before[b].name@);
                        }
                    }
                    lemma_map_of(after);
                    let goal = map_of(before).insert(key@, term@);
                    assert forall|k: Seq<char>| #[trigger]
                        map_of(after).dom().contains(k) == goal.dom().contains(k) by {
                        if map_of(after).contains_key(k) {
                            let a = choose|a: int| 0 <= a < after.len() && (#[trigger] after[a]).name@ == k;
                            assert(before[a].name@ == k);
                        }
                        if goal.contains_key(k) {
                            if k == key@ {
                                assert(after[i as int].name@ == k);
                            } else {
                                let a = choose|a: int|
                                    0 <= a < before.len() && (#[trigger] before[a]).name@ == k;
                                assert(after[a] == before[a]);
                            }
                        }
                    }
                    assert forall|k: Seq<char>| #[trigger]
                        map_of(after).dom().contains(k) implies map_of(after)[k] == goal[k] by {
                        if k == key@ {
                            assert(after[i as int].name@ == k);
                        } else {
                            let a = choose|a: int| 0 <= a < before.len() && (#[trigger] before[a]).name@ == k;
                            assert(after[a] == before[a]);
                        }
                    }
                    assert(map_of(after) =~= goal);
                }
                core::mem::swap(&mut self.entries, &mut entries);
                Some(earlier)
            },
            None => {
                let mut entries: Vec<Binding> = Vec::new();
                core::mem::swap(&mut self.entries, &mut entries);
                entries.push(Binding { name: key, term });
                proof {
                    let after = entries@;
                    assert(after.drop_last() =~= before);
                    assert(distinct_names(after)) by {
                        assert forall|a: int, b: int| 0 <= a < b < after.len() implies (
                        #[trigger] after[a]).name@ != (#[trigger] after[b]).name@ by {
                            assert(after[a] == before[a]);
                            if b < before.len() {
                                assert(after[b] == before[b]);
                            }
                        }
                    }
                }
                core::mem::swap(&mut self.entries, &mut entries);
                None
            },
        }
    }
}

impl TermMap {
    /// The union of two maps that agree wherever both bind a name; `None`
    /// when some name is bound to different terms in the two.
    pub fn merge(&self, other: &TermMap) -> (merged: Option<TermMap>)
        ensures
            match merged {
                Some(m) => agree(self@, other@) && m@ == self@.union_prefer_right(other@),
                None => !agree(self@, other@),
            },
    {
        let mut merged = self.clone();
        let mut i: usize = 0;
        proof {
            use_type_invariant(other);
            lemma_map_of(other.entries@);
            assert(other.entries@.subrange(0, 0) =~= Seq::empty());
            assert(merged@ =~= self@.union_prefer_right(map_of(other.entries@.subrange(0, 0))));
        }
        while i < other.entries.len()
            invariant
                i <= other.entries.len(),
                distinct_names(other.entries@),
                agree(self@, map_of(other.entries@.subrange(0, i as int))),
                merged@ == self@.union_prefer_right(map_of(other.entries@.subrange(0, i as int))),
            decreases other.entries.len() - i,
        {
            let binding = &other.entries[i];
            proof {
                let all = other.entries@;
                let seen = all.subrange(0, i as int);
                let grown = all.subrange(0, i as int + 1);
                assert(grown.drop_last() =~= seen);
                assert(grown.last() == all[i as int]);
                assert(distinct_names(seen)) by {
                    assert forall|a: int, b: int| 0 <= a < b < seen.len() implies (#[trigger] seen[a]).name@
                        != (#[trigger] seen[b]).name@ by {
                        assert(seen[a] == all[a]);
                        assert(seen[b] == all[b]);
                    }
                }
                lemma_map_of(seen);
                lemma_map_of(all);
                assert(!map_of(seen).contains_key(binding.name@)) by {
                    if map_of(seen).contains_key(binding.name@) {
                        let a = choose|a: int| 0 <= a < seen.len() && (#[trigger] seen[a]).name@ == binding.name@;
                        assert(seen[a] == all[a]);
                    }
                }
                assert(map_of(all)[all[i as int].name@] == all[i as int].term@);
            }
            let conflict = match merged.get(binding.name.as_str()) {
                Some(existing) => !term_eq(existing, &binding.term),
                None => {
                    false
                },
            };
            if conflict {
                return None;
            }
            let present = merged.get(binding.name.as_str()).is_some();
            if !present {
                merged.insert(binding.name.clone(), binding.term.clone());
            }
            proof {
                let seen = map_of(other.entries@.subrange(0, i as int));
                let grown = map_of(other.entries@.subrange(0, i as int + 1));
                assert(grown == seen.insert(binding.name@, binding.term@));
                assert(merged@ =~= self@.union_prefer_right(grown));
            }
            i += 1;
        }
        proof {
            assert(other.entries@.subrange(0, i as int) =~= other.entries@);
        }
        Some(merged)
    }
}

impl Clone for TermMap {
    fn clone(&self) -> (copy: Self)
        ensures
            copy@ == self@,
    {
        proof {
            use_type_invariant(self);
        }
        let mut entries: Vec<Binding> = Vec::new();
        let mut i: usize = 0;
        while i < self.entries.len()
            invariant
                i <= self.entries.len(),
                entries.len() == i,
                forall|j: int|
                    0 <= j < i ==> entries[j].name@ == self.entries[j].name@ && entries[j].term@
                        == self.entries[j].term@,
            decreases self.entries.len() - i,
        {
            entries.push(Binding { name: self.entries[i].name.clone(), term: self.entries[i].term.clone() });
            i += 1;
        }
        proof {
            lemma_map_of_same(entries@, self.entries@);
            assert(distinct_names(entries@)) by {
                assert forall|a: int, b: int| 0 <= a < b < entries.len() implies (#[trigger] entries[a]).name@
                    != (#[trigger] entries[b]).name@ by {
                    assert(self.entries[a].name@ != self.entries[b].name@);
                }
            }
        }
        TermMap { entries }
    }
}

impl TermMap {
    /// Whether every binding of this map is a binding of `other` too.
    fn included_in(&self, other: &TermMap) -> (r: bool)
        ensures
            r == (forall|k: Seq<char>| #[trigger]
                self@.contains_key(k) ==> other@.contains_key(k) && other@[k] == self@[k]),
    {
        proof {
            use_type_invariant(self);
            lemma_map_of(self.entries@);
        }
        let mut i: usize = 0;
        while i < self.entries.len()
            invariant
                i <= self.entries.len(),
                distinct_names(self.entries@),
                forall|j: int|
                    0 <= j < i ==> other@.contains_key((#[trigger] self.entries[j]).name@) && other@[self.entries[j].name@]
                        == self.entries[j].term@,
            decreases self.entries.len() - i,
        {
            proof {
                lemma_map_of(self.entries@);
            }
            let same = match other.get(self.entries[i].name.as_str()) {
                Some(term) => term_eq(term, &self.entries[i].term),
                None => false,
            };
            if !same {
                assert(self@.contains_key(self.entries[i as int].name@));
                assert(self@[self.entries[i as int].name@] == self.entries[i as int].term@);
                return false;
            }
            i += 1;
        }
        proof {
            lemma_map_of(self.entries@);
            assert forall|k: Seq<char>| #[trigger] self@.contains_key(k) implies other@.contains_key(k)
                && other@[k] == self@[k] by {
                let j = choose|j: int| 0 <= j < self.entries.len() && (#[trigger] self.entries[j]).name@ == k;
            }
        }
        true
    }
}

impl PartialEq for TermMap {
    fn eq(&self, other: &TermMap) -> (r: bool) {
        let r = self.included_in(other) && other.included_in(self);
        proof {
            if r {
                assert(self@ =~= other@);
            }
        }
        r
    }
}

impl vstd::std_specs::cmp::PartialEqSpecImpl for TermMap {
    open spec fn obeys_eq_spec() -> bool {
        true
    }

    open spec fn eq_spec(&self, other: &TermMap) -> bool {
        self@ == other@
    }
}

} // verus!
