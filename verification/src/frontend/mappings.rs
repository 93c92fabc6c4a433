//! The pending renames, keyed by file id: an association list with distinct keys.
use vstd::prelude::*;
use crate::frontend::types::{Mapping, RenameMapping};

verus! {

/// No two entries share a key.
pub open spec fn keys_unique(e: Seq<(String, Mapping)>) -> bool {
    forall|i: int, j: int| 0 <= i < j < e.len() ==> (#[trigger] e[i]).0@ != (#[trigger] e[j]).0@
}

/// The map that a list of entries stands for.
pub open spec fn entries_map(e: Seq<(String, Mapping)>) -> Map<Seq<char>, Mapping>
    decreases e.len(),
{
    if e.len() == 0 {
        Map::empty()
    } else {
        entries_map(e.drop_last()).insert(e.last().0@, e.last().1)
    }
}

proof fn lemma_entries_map(e: Seq<(String, Mapping)>)
    requires
        keys_unique(e),
    ensures
        entries_map(e).dom().finite(),
        entries_map(e).dom().len() == e.len(),
        forall|k: Seq<char>|
            entries_map(e).contains_key(k) <==> exists|i: int| 0 <= i < e.len() && (#[trigger] e[i]).0@ == k,
        forall|i: int| 0 <= i < e.len() ==> entries_map(e)[(#[trigger] e[i]).0@] == e[i].1,
    decreases e.len(),
{
    if e.len() > 0 {
        let p = e.drop_last();
        assert forall|i: int, j: int| 0 <= i < j < p.len() implies (#[trigger] p[i]).0@ != (#[trigger] p[j]).0@ by {
            assert(p[i] == e[i] && p[j] == e[j]);
        }
        lemma_entries_map(p);
        let last = e.last();
        assert(e[e.len() - 1] == last);
        assert(!entries_map(p).contains_key(last.0@)) by {
            if entries_map(p).contains_key(last.0@) {
                let i = choose|i: int| 0 <= i < p.len() && (#[trigger] p[i]).0@ == last.0@;
                assert(e[i] == p[i]);
            }
        }
        assert forall|k: Seq<char>|
            entries_map(e).contains_key(k) implies exists|i: int| 0 <= i < e.len() && (#[trigger] e[i]).0@ == k by {
            if k != last.0@ {
                let i = choose|i: int| 0 <= i < p.len() && (#[trigger] p[i]).0@ == k;
                assert(e[i] == p[i]);
            }
        }
        assert forall|k: Seq<char>|
            (exists|i: int| 0 <= i < e.len() && (#[trigger] e[i]).0@ == k) implies entries_map(e).contains_key(k) by {
            let i = choose|i: int| 0 <= i < e.len() && (#[trigger] e[i]).0@ == k;
            if i < e.len() - 1 {
                assert(p[i] == e[i]);
            }
        }
        assert forall|i: int| 0 <= i < e.len() implies entries_map(e)[(#[trigger] e[i]).0@] == e[i].1 by {
            if i < e.len() - 1 {
                assert(p[i] == e[i]);
            }
        }
    }
}

/// A copy of `m`, field by field.
fn copy_mapping(m: &Mapping) -> (r: Mapping)
    ensures
        r == *m,
{
    Mapping { new_name: m.new_name.clone(), label: m.label.clone(), kind: m.kind }
}

/// Pending renames: for each file id, the mapping chosen for it.
pub struct Mappings {
    entries: Vec<(String, Mapping)>,
}

impl View for Mappings {
    type V = Map<Seq<char>, Mapping>;

    closed spec fn view(&self) -> Map<Seq<char>, Mapping> {
        entries_map(self.entries@)
    }
}

impl Mappings {
    #[verifier::type_invariant]
    spec fn distinct_keys(self) -> bool {
        keys_unique(self.entries@)
    }

    /// No pending renames.
    pub fn new() -> (r: Mappings)
        ensures
            r@ == Map::<Seq<char>, Mapping>::empty(),
    {
        Mappings { entries: Vec::new() }
    }

    fn position(&self, key: &str) -> (r: Option<usize>)
        ensures
            match r {
                Some(i) => i < self.entries@.len() && self.entries@[i as int].0@ == key@,
                None => forall|i: int| 0 <= i < self.entries@.len() ==> (#[trigger] self.entries@[i]).0@ != key@,
            },
    {
        let mut i: usize = 0;
        while i < self.entries.len()
            invariant
                i <= self.entries@.len(),
                forall|k: int| 0 <= k < i ==> (#[trigger] self.entries@[k]).0@ != key@,
            decreases self.entries.len() - i,
        {
            if crate::text::str_eq(self.entries[i].0.as_str(), key) {
                return Some(i);
            }
            i += 1;
        }
        None
    }

    /// The number of pending renames.
    pub fn len(&self) -> (n: usize)
        ensures
            n == self@.len(),
            self@.dom().finite(),
    {
        proof {
            use_type_invariant(self);
            lemma_entries_map(self.entries@);
        }
        self.entries.len()
    }

    /// Whether there is no pending rename.
    pub fn is_empty(&self) -> (b: bool)
        ensures
            b == (self@.len() == 0),
    {
        self.len() == 0
    }

    /// The mapping chosen for `key`, if any.
    pub fn get(&self, key: &str) -> (r: Option<&Mapping>)
        ensures
            r is Some == self@.contains_key(key@),
            r matches Some(m) ==> *m == self@[key@],
    {
        proof {
            use_type_invariant(self);
            lemma_entries_map(self.entries@);
        }
        match self.position(key) {
            Some(i) => Some(&self.entries[i].1),
            None => None,
        }
    }

    /// Whether `key` has a mapping.
    pub fn contains_key(&self, key: &str) -> (b: bool)
        ensures
            b == self@.contains_key(key@),
    {
        self.get(key).is_some()
    }

    /// Chooses `m` for `key`, replacing any earlier choice.
    pub fn insert(&mut self, key: String, m: Mapping)
        ensures
            final(self)@ == old(self)@.insert(key@, m),
    {
        proof {
            use_type_invariant(&*self);
            lemma_entries_map(self.entries@);
        }
        let pos = self.position(key.as_str());
        let mut entries: Vec<(String, Mapping)> = Vec::new();
        std::mem::swap(&mut entries, &mut self.entries);
        let ghost e = entries@;
        let ghost k = key@;
        match pos {
            Some(i) => {
                entries.set(i, (key, m));
                proof {
                    let e2 = entries@;
                    assert(e2 == e.update(i as int, e2[i as int]));
                    assert forall|a: int, b: int| 0 <= a < b < e2.len() implies (#[trigger] e2[a]).0@ != (#[trigger] e2[b]).0@ by {
                        assert(e[a].0@ != e[b].0@);
                    }
                    lemma_entries_map(e2);
                    assert(entries_map(e2) =~= entries_map(e).insert(k, m)) by {
                        assert forall|x: Seq<char>| entries_map(e2).contains_key(x) <==> entries_map(e).insert(k, m).contains_key(x) by {
                            if entries_map(e2).contains_key(x) {
                                let j = choose|j: int| 0 <= j < e2.len() && (#[trigger] e2[j]).0@ == x;
                                if j != i {
                                    assert(e[j] == e2[j]);
                                }
                            }
                            if entries_map(e).contains_key(x) && x != k {
                                let j = choose|j: int| 0 <= j < e.len() && (#[trigger] e[j]).0@ == x;
                                assert(e[j] == e2[j]);
                            }
                        }
                        assert forall|x: Seq<char>| #[trigger] entries_map(e2).contains_key(x) implies entries_map(e2)[x] == entries_map(e).insert(k, m)[x] by {
                            let j = choose|j: int| 0 <= j < e2.len() && (#[trigger] e2[j]).0@ == x;
                            if j != i {
                                assert(e[j] == e2[j]);
                            }
                        }
                    }
                }
            },
            None => {
                entries.push((key, m));
                proof {
                    let e2 = entries@;
                    assert(e2.drop_last() =~= e);
                    assert forall|a: int, b: int| 0 <= a < b < e2.len() implies (#[trigger] e2[a]).0@ != (#[trigger] e2[b]).0@ by {
                        if b < e.len() {
                            assert(e[a].0@ != e[b].0@);
                        } else {
                            assert(e2[a] == e[a]);
                        }
                    }
                }
            },
        }
        self.entries = entries;
    }

    /// Drops the mapping of `key`, if any.
    pub fn remove(&mut self, key: &str)
        ensures
            final(self)@ == old(self)@.remove(key@),
    {
        proof {
            use_type_invariant(&*self);
            lemma_entries_map(self.entries@);
        }
        let pos = self.position(key);
        let mut entries: Vec<(String, Mapping)> = Vec::new();
        std::mem::swap(&mut entries, &mut self.entries);
        let ghost e = entries@;
        match pos {
            Some(i) => {
                let _ = entries.remove(i);
                proof {
                    let e2 = entries@;
                    assert forall|a: int, b: int| 0 <= a < b < e2.len() implies (#[trigger] e2[a]).0@ != (#[trigger] e2[b]).0@ by {
                        let a2 = if a < i { a } else { a + 1 };
                        let b2 = if b < i { b } else { b + 1 };
                        assert(e2[a] == e[a2] && e2[b] == e[b2]);
                    }
                    lemma_entries_map(e2);
                    assert(entries_map(e2) =~= entries_map(e).remove(key@)) by {
                        assert forall|x: Seq<char>| entries_map(e2).contains_key(x) <==> entries_map(e).remove(key@).contains_key(x) by {
                            if entries_map(e2).contains_key(x) {
                                let j = choose|j: int| 0 <= j < e2.len() && (#[trigger] e2[j]).0@ == x;
                                let j2 = if j < i { j } else { j + 1 };
                                assert(e2[j] == e[j2]);
                            }
                            if entries_map(e).contains_key(x) && x != key@ {
                                let j = choose|j: int| 0 <= j < e.len() && (#[trigger] e[j]).0@ == x;
                                if j < i {
                                    assert(e2[j] == e[j]);
                                } else {
                                    assert(j != i);
                                    assert(e2[j - 1] == e[j]);
                                }
                            }
                        }
                        assert forall|x: Seq<char>| #[trigger] entries_map(e2).contains_key(x) implies entries_map(e2)[x] == entries_map(e).remove(key@)[x] by {
                            let j = choose|j: int| 0 <= j < e2.len() && (#[trigger] e2[j]).0@ == x;
                            let j2 = if j < i { j } else { j + 1 };
                            assert(e2[j] == e[j2]);
                        }
                    }
                }
            },
            None => {
                proof {
                    assert(entries_map(e) =~= entries_map(e).remove(key@));
                }
            },
        }
        self.entries = entries;
    }

    /// Drops every mapping.
    pub fn clear(&mut self)
        ensures
            final(self)@ == Map::<Seq<char>, Mapping>::empty(),
    {
        self.entries = Vec::new();
    }

    /// Whether some pending rename is shown with the label `label`.
    pub fn any_label(&self, label: &str) -> (b: bool)
        ensures
            b == exists|k: Seq<char>| self@.contains_key(k) && (#[trigger] self@[k]).label@ == label@,
    {
        proof {
            use_type_invariant(self);
            lemma_entries_map(self.entries@);
        }
        let mut i: usize = 0;
        while i < self.entries.len()
            invariant
                i <= self.entries@.len(),
                keys_unique(self.entries@),
                forall|j: int| 0 <= j < i ==> (#[trigger] self.entries@[j]).1.label@ != label@,
            decreases self.entries.len() - i,
        {
            if crate::text::str_eq(self.entries[i].1.label.as_str(), label) {
                proof {
                    lemma_entries_map(self.entries@);
                    let k = self.entries@[i as int].0@;
                    assert(self@.contains_key(k) && self@[k].label@ == label@);
                }
                return true;
            }
            i += 1;
        }
        proof {
            assert forall|k: Seq<char>| self@.contains_key(k) implies (#[trigger] self@[k]).label@ != label@ by {
                lemma_entries_map(self.entries@);
                let j = choose|j: int| 0 <= j < self.entries@.len() && (#[trigger] self.entries@[j]).0@ == k;
            }
        }
        false
    }

    /// The pending renames as requests for the server, one per file id.
    pub fn to_rename_mappings(&self) -> (r: Vec<RenameMapping>)
        ensures
            r@.len() == self@.len(),
            forall|i: int|
                0 <= i < r@.len() ==> self@.contains_key((#[trigger] r@[i]).old_path@) && r@[i].new_name@
                    == self@[r@[i].old_path@].new_name@,
            forall|i: int, j: int|
                0 <= i < j < r@.len() ==> (#[trigger] r@[i]).old_path@ != (#[trigger] r@[j]).old_path@,
    {
        proof {
            use_type_invariant(self);
            lemma_entries_map(self.entries@);
        }
        let mut r: Vec<RenameMapping> = Vec::new();
        let mut i: usize = 0;
        while i < self.entries.len()
            invariant
                i <= self.entries@.len(),
                keys_unique(self.entries@),
                r@.len() == i,
                forall|j: int| 0 <= j < i ==> (#[trigger] r@[j]).old_path@ == self.entries@[j].0@
                    && r@[j].new_name@ == self.entries@[j].1.new_name@,
            decreases self.entries.len() - i,
        {
            r.push(RenameMapping {
                old_path: self.entries[i].0.clone(),
                new_name: self.entries[i].1.new_name.clone(),
            });
            i += 1;
        }
        proof {
            assert forall|a: int, b: int| 0 <= a < b < r@.len() implies (#[trigger] r@[a]).old_path@ != (#[trigger] r@[b]).old_path@ by {
                assert(self.entries@[a].0@ != self.entries@[b].0@);
            }
        }
        r
    }
}

impl Clone for Mappings {
    /// A copy holding the same mappings.
    fn clone(&self) -> (r: Mappings)
        ensures
            r@ == self@,
    {
        proof {
            use_type_invariant(self);
        }
        let mut entries: Vec<(String, Mapping)> = Vec::new();
        let mut i: usize = 0;
        while i < self.entries.len()
            invariant
                i <= self.entries@.len(),
                keys_unique(self.entries@),
                entries@ == self.entries@.take(i as int),
            decreases self.entries.len() - i,
        {
            let e = &self.entries[i];
            entries.push((e.0.clone(), copy_mapping(&e.1)));
            assert(entries@ =~= self.entries@.take(i + 1));
            i += 1;
        }
        assert(self.entries@.take(self.entries@.len() as int) =~= self.entries@);
        Mappings { entries }
    }
}

} // verus!
