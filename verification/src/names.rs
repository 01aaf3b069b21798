//! A table keyed by names.

use vstd::prelude::*;
use crate::text::same_name;

verus! {

/// One entry of a table: a name and what is recorded under it.
struct Entry<V> {
    name: String,
    value: V,
}

/// A finite map from names to values, in which each name occurs once.
pub struct NameTable<V> {
    entries: Vec<Entry<V>>,
}

/// Whether `name` is the name of the entry at `i`.
spec fn names_at<V>(entries: Seq<Entry<V>>, i: int, name: Seq<char>) -> bool {
    0 <= i < entries.len() && entries[i].name@ == name
}

/// Whether no two entries share a name.
spec fn distinct_names<V>(entries: Seq<Entry<V>>) -> bool {
    forall|i: int, j: int|
        0 <= i < entries.len() && 0 <= j < entries.len() && i != j ==> #[trigger] entries[i].name@
            != #[trigger] entries[j].name@
}

/// The map that a sequence of entries stands for.
spec fn entries_map<V>(entries: Seq<Entry<V>>) -> Map<Seq<char>, V> {
    Map::new(
        |name: Seq<char>| exists|i: int| names_at(entries, i, name),
        |name: Seq<char>| entries[choose|i: int| names_at(entries, i, name)].value,
    )
}

impl<V> View for NameTable<V> {
    type V = Map<Seq<char>, V>;

    closed spec fn view(&self) -> Map<Seq<char>, V> {
        entries_map(self.entries@)
    }
}

impl<V> NameTable<V> {
    #[verifier::type_invariant]
    spec fn well_formed(self) -> bool {
        distinct_names(self.entries@)
    }
}

impl<V: Copy> NameTable<V> {
    /// The empty table.
    pub fn new() -> (table: NameTable<V>)
        ensures
            table@ == Map::<Seq<char>, V>::empty(),
    {
        let table = NameTable { entries: Vec::new() };
        assert(table@ =~= Map::<Seq<char>, V>::empty());
        table
    }

    fn position(&self, name: &str) -> (r: Option<usize>)
        ensures
            match r {
                Some(i) => names_at(self.entries@, i as int, name@),
                None => forall|i: int| !names_at(self.entries@, i, name@),
            },
    {
        let mut i: usize = 0;
        while i < self.entries.len()
            invariant
                i <= self.entries@.len(),
                forall|j: int| 0 <= j < i ==> self.entries@[j].name@ != name@,
            decreases self.entries@.len() - i,
        {
            if same_name(self.entries[i].name.as_str(), name) {
                return Some(i);
            }
            i = i + 1;
        }
        None
    }

    /// What is recorded under `name`, if anything is.
    pub fn get(&self, name: &str) -> (r: Option<V>)
        ensures
            r == (if self@.contains_key(name@) {
                Some(self@[name@])
            } else {
                None
            }),
    {
        proof {
            use_type_invariant(self);
        }
        match self.position(name) {
            Some(i) => {
                assert(names_at(self.entries@, i as int, name@));
                Some(self.entries[i].value)
            },
            None => None,
        }
    }

    /// Whether anything is recorded under `name`.
    pub fn contains(&self, name: &str) -> (r: bool)
        ensures
            r == self@.contains_key(name@),
    {
        match self.position(name) {
            Some(i) => {
                assert(names_at(self.entries@, i as int, name@));
                true
            },
            None => false,
        }
    }

    /// Records `value` under `name`, in place of what was recorded there.
    pub fn insert(&mut self, name: String, value: V)
        ensures
            final(self)@ == old(self)@.insert(name@, value),
    {
        proof {
            use_type_invariant(&*self);
        }
        let ghost before = self.entries@;
        match self.position(name.as_str()) {
            Some(i) => {
                let mut entries: Vec<Entry<V>> = Vec::new();
                core::mem::swap(&mut self.entries, &mut entries);
                entries.set(i, Entry { name, value });
                let ghost after = entries@;
                assert(distinct_names(after)) by {
                    assert forall|a: int, b: int|
                        0 <= a < after.len() && 0 <= b < after.len() && a != b implies #[trigger] after[a].name@
                        != #[trigger] after[b].name@ by {
                        assert(after[a].name@ == before[a].name@);
                        assert(after[b].name@ == before[b].name@);
                    }
                }
                assert(entries_map(after) =~= entries_map(before).insert(name@, value)) by {
                    assert forall|k: Seq<char>| #[trigger]
                        entries_map(after).contains_key(k) <==> entries_map(before).insert(
                            name@,
                            value,
                        ).contains_key(k) by {
                        if entries_map(after).contains_key(k) {
                            let j = choose|j: int| names_at(after, j, k);
                            assert(names_at(before, j, k));
                        }
                        if entries_map(before).contains_key(k) {
                            let j = choose|j: int| names_at(before, j, k);
                            assert(names_at(after, j, k));
                        }
                        if k == name@ {
                            assert(names_at(after, i as int, k));
                        }
                    }
                    assert forall|k: Seq<char>| #[trigger]
                        entries_map(after).contains_key(k) implies entries_map(after)[k]
                        == entries_map(before).insert(name@, value)[k] by {
                        let j = choose|j: int| names_at(after, j, k);
                        assert(names_at(before, j, k));
                        if k != name@ {
                            let j2 = choose|j: int| names_at(before, j, k);
                            assert(j2 == j);
                        } else {
                            assert(j == i);
                        }
                    }
                }
                self.entries = entries;
            },
            None => {
                let mut entries: Vec<Entry<V>> = Vec::new();
                core::mem::swap(&mut self.entries, &mut entries);
                entries.push(Entry { name, value });
                let ghost after = entries@;
                let ghost last = before.len() as int;
                assert(distinct_names(after)) by {
                    assert forall|a: int, b: int|
                        0 <= a < after.len() && 0 <= b < after.len() && a != b implies #[trigger] after[a].name@
                        != #[trigger] after[b].name@ by {
                        if a < last {
                            assert(after[a] == before[a]);
                            assert(!names_at(before, a, name@));
                        }
                        if b < last {
                            assert(after[b] == before[b]);
                            assert(!names_at(before, b, name@));
                        }
                    }
                }
                assert(entries_map(after) =~= entries_map(before).insert(name@, value)) by {
                    assert forall|k: Seq<char>| #[trigger]
                        entries_map(after).contains_key(k) <==> entries_map(before).insert(
                            name@,
                            value,
                        ).contains_key(k) by {
                        if entries_map(after).contains_key(k) {
                            let j = choose|j: int| names_at(after, j, k);
                            if j < last {
                                assert(names_at(before, j, k));
                            }
                        }
                        if entries_map(before).contains_key(k) {
                            let j = choose|j: int| names_at(before, j, k);
                            assert(names_at(after, j, k));
                        }
                        if k == name@ {
                            assert(names_at(after, last, k));
                        }
                    }
                    assert forall|k: Seq<char>| #[trigger]
                        entries_map(after).contains_key(k) implies entries_map(after)[k]
                        == entries_map(before).insert(name@, value)[k] by {
                        let j = choose|j: int| names_at(after, j, k);
                        if k != name@ {
                            assert(j < last);
                            assert(names_at(before, j, k));
                            let j2 = choose|j: int| names_at(before, j, k);
                            assert(j2 == j);
                        } else {
                            assert(names_at(after, last, k));
                            assert(j == last);
                        }
                    }
                }
                self.entries = entries;
            },
        }
    }

    /// Removes what is recorded under `name`, if anything is.
    pub fn remove(&mut self, name: &str)
        ensures
            final(self)@ == old(self)@.remove(name@),
    {
        proof {
            use_type_invariant(&*self);
        }
        let ghost before = self.entries@;
        match self.position(name) {
            Some(i) => {
                let mut entries: Vec<Entry<V>> = Vec::new();
                core::mem::swap(&mut self.entries, &mut entries);
                entries.remove(i);
                let ghost after = entries@;
                let ghost gap = i as int;
                assert forall|a: int| 0 <= a < after.len() implies #[trigger] after[a] == before[if a
                    < gap {
                    a
                } else {
                    a + 1
                }] by {}
                assert(distinct_names(after)) by {
                    assert forall|a: int, b: int|
                        0 <= a < after.len() && 0 <= b < after.len() && a != b implies #[trigger] after[a].name@
                        != #[trigger] after[b].name@ by {
                        let a0 = if a < gap { a } else { a + 1 };
                        let b0 = if b < gap { b } else { b + 1 };
                        assert(after[a] == before[a0]);
                        assert(after[b] == before[b0]);
                    }
                }
                assert(entries_map(after) =~= entries_map(before).remove(name@)) by {
                    assert forall|k: Seq<char>| #[trigger]
                        entries_map(after).contains_key(k) <==> entries_map(before).remove(
                            name@,
                        ).contains_key(k) by {
                        if entries_map(after).contains_key(k) {
                            let j = choose|j: int| names_at(after, j, k);
                            let j0 = if j < gap { j } else { j + 1 };
                            assert(after[j] == before[j0]);
                            assert(names_at(before, j0, k));
                            assert(before[j0].name@ != before[gap].name@);
                        }
                        if entries_map(before).contains_key(k) && k != name@ {
                            let j = choose|j: int| names_at(before, j, k);
                            let j1 = if j < gap { j } else { j - 1 };
                            assert(after[j1] == before[j]);
                            assert(names_at(after, j1, k));
                        }
                    }
                    assert forall|k: Seq<char>| #[trigger]
                        entries_map(after).contains_key(k) implies entries_map(after)[k]
                        == entries_map(before).remove(name@)[k] by {
                        let j = choose|j: int| names_at(after, j, k);
                        let j0 = if j < gap { j } else { j + 1 };
                        assert(after[j] == before[j0]);
                        assert(names_at(before, j0, k));
                        let j2 = choose|j: int| names_at(before, j, k);
                        assert(j2 == j0);
                    }
                }
                self.entries = entries;
            },
            None => {
                assert(entries_map(before) =~= entries_map(before).remove(name@));
            },
        }
    }
}

} // verus!
