//! A table from text keys to values that remembers the order in which keys were first inserted.
use vstd::prelude::*;

use crate::text::{own, str_eq};

verus! {

/// Values by text key. No key occurs twice; a new key goes to the end.
#[derive(Debug)]
pub struct Table<V> {
    pub entries: Vec<(String, V)>,
}

/// Whether some entry has the key `k`.
pub open spec fn has_key<V>(entries: Seq<(String, V)>, k: Seq<char>) -> bool {
    exists|i: int| 0 <= i < entries.len() && (#[trigger] entries[i]).0@ == k
}

/// The position of the entry with the key `k`.
pub open spec fn key_index<V>(entries: Seq<(String, V)>, k: Seq<char>) -> int {
    choose|i: int| 0 <= i < entries.len() && (#[trigger] entries[i]).0@ == k
}

/// No two entries have the same key.
pub open spec fn distinct_keys<V>(entries: Seq<(String, V)>) -> bool {
    forall|i: int, j: int|
        0 <= i < j < entries.len() ==> (#[trigger] entries[i]).0@ != (#[trigger] entries[j]).0@
}

/// The map that a list of entries stands for.
pub open spec fn entries_map<V>(entries: Seq<(String, V)>) -> Map<Seq<char>, V> {
    Map::new(|k: Seq<char>| has_key(entries, k), |k: Seq<char>| entries[key_index(entries, k)].1)
}

/// The keys of a list of entries, in order.
pub open spec fn entry_keys<V>(entries: Seq<(String, V)>) -> Seq<Seq<char>> {
    entries.map_values(|e: (String, V)| e.0@)
}

impl<V> View for Table<V> {
    type V = Map<Seq<char>, V>;

    open spec fn view(&self) -> Map<Seq<char>, V> {
        entries_map(self.entries@)
    }
}

/// With distinct keys, the entry at `i` is what the map holds at its key.
pub proof fn lemma_entry<V>(entries: Seq<(String, V)>, i: int)
    requires
        distinct_keys(entries),
        0 <= i < entries.len(),
    ensures
        entries_map(entries).contains_key(entries[i].0@),
        entries_map(entries)[entries[i].0@] == entries[i].1,
        key_index(entries, entries[i].0@) == i,
{
    let k = entries[i].0@;
    assert(has_key(entries, k));
    let j = key_index(entries, k);
    assert(entries[j].0@ == k);
    if j < i {
        assert(entries[j].0@ != entries[i].0@);
    }
    if i < j {
        assert(entries[i].0@ != entries[j].0@);
    }
}

impl<V> Table<V> {
    /// No key occurs twice.
    pub open spec fn wf(&self) -> bool {
        distinct_keys(self.entries@)
    }

    /// An empty table.
    pub fn new() -> (res: Self)
        ensures
            res.wf(),
            res@ == Map::<Seq<char>, V>::empty(),
            res.entries@.len() == 0,
    {
        let res = Table { entries: Vec::new() };
        assert(res@ =~= Map::<Seq<char>, V>::empty());
        res
    }

    /// The position of the entry with the key.
    pub fn position(&self, key: &str) -> (res: Option<usize>)
        requires
            self.wf(),
        ensures
            res is Some <==> self@.contains_key(key@),
            res matches Some(i) ==> i < self.entries@.len() && self.entries@[i as int].0@ == key@
                && self@[key@] == self.entries@[i as int].1,
    {
        let mut i: usize = 0;
        while i < self.entries.len()
            invariant
                i <= self.entries@.len(),
                self.wf(),
                forall|j: int| 0 <= j < i ==> (#[trigger] self.entries@[j]).0@ != key@,
            decreases self.entries@.len() - i,
        {
            if str_eq(self.entries[i].0.as_str(), key) {
                proof {
                    lemma_entry(self.entries@, i as int);
                }
                return Some(i);
            }
            i = i + 1;
        }
        None
    }

    /// Whether the key is in the table.
    pub fn contains_key(&self, key: &str) -> (res: bool)
        requires
            self.wf(),
        ensures
            res == self@.contains_key(key@),
    {
        self.position(key).is_some()
    }

    /// The value of the key.
    pub fn get(&self, key: &str) -> (res: Option<&V>)
        requires
            self.wf(),
        ensures
            res is Some <==> self@.contains_key(key@),
            res matches Some(v) ==> *v == self@[key@],
    {
        match self.position(key) {
            Some(i) => Some(&self.entries[i].1),
            None => None,
        }
    }

    /// Gives the key the value: in its place where the key is present, else at the end.
    pub fn insert(&mut self, key: &str, value: V)
        requires
            old(self).wf(),
        ensures
            final(self).wf(),
            final(self)@ == old(self)@.insert(key@, value),
            old(self)@.contains_key(key@) ==> entry_keys(final(self).entries@) == entry_keys(
                old(self).entries@,
            ),
            !old(self)@.contains_key(key@) ==> entry_keys(final(self).entries@) == entry_keys(
                old(self).entries@,
            ).push(key@),
    {
        let ghost before = self.entries@;
        match self.position(key) {
            Some(i) => {
                self.entries.set(i, (own(key), value));
                proof {
                    let after = self.entries@;
                    assert forall|j: int, k: int| 0 <= j < k < after.len() implies (
                    #[trigger] after[j]).0@ != (#[trigger] after[k]).0@ by {
                        assert(after[j].0@ == before[j].0@);
                        assert(after[k].0@ == before[k].0@);
                    }
                    assert forall|k: Seq<char>| has_key(after, k) == has_key(before, k) by {
                        if has_key(before, k) {
                            let j = key_index(before, k);
                            assert(after[j].0@ == before[j].0@);
                        }
                        if has_key(after, k) {
                            let j = key_index(after, k);
                            assert(after[j].0@ == before[j].0@);
                        }
                    }
                    assert forall|k: Seq<char>| has_key(after, k) implies entries_map(after)[k]
                        == entries_map(before).insert(key@, value)[k] by {
                        let j = key_index(after, k);
                        lemma_entry(after, j);
                        lemma_entry(before, j);
                        lemma_entry(before, i as int);
                    }
                    assert(entries_map(after) =~= entries_map(before).insert(key@, value));
                    assert(entry_keys(after) =~= entry_keys(before));
                }
            },
            None => {
                self.entries.push((own(key), value));
                proof {
                    let after = self.entries@;
                    let n = before.len() as int;
                    assert forall|j: int, k: int| 0 <= j < k < after.len() implies (
                    #[trigger] after[j]).0@ != (#[trigger] after[k]).0@ by {
                        if k == n {
                            assert(has_key(before, before[j].0@));
                        }
                    }
                    assert forall|k: Seq<char>|
                        has_key(after, k) == (has_key(before, k) || k == key@) by {
                        if has_key(before, k) {
                            assert(after[key_index(before, k)].0@ == k);
                        }
                        assert(after[n].0@ == key@);
                        if has_key(after, k) {
                            let j = key_index(after, k);
                            if j < n {
                                assert(before[j].0@ == k);
                            }
                        }
                    }
                    assert forall|k: Seq<char>| has_key(after, k) implies entries_map(after)[k]
                        == entries_map(before).insert(key@, value)[k] by {
                        let j = key_index(after, k);
                        lemma_entry(after, j);
                        if j < n {
                            lemma_entry(before, j);
                            assert(has_key(before, k));
                        }
                    }
                    assert(entries_map(after) =~= entries_map(before).insert(key@, value));
                    assert(entry_keys(after) =~= entry_keys(before).push(key@));
                }
            },
        }
    }

    /// Takes the key out of the table and gives back its value.
    pub fn remove(&mut self, key: &str) -> (res: Option<V>)
        requires
            old(self).wf(),
        ensures
            final(self).wf(),
            final(self)@ == old(self)@.remove(key@),
            res is Some <==> old(self)@.contains_key(key@),
            res matches Some(v) ==> v == old(self)@[key@],
    {
        let ghost before = self.entries@;
        match self.position(key) {
            Some(i) => {
                let (_, value) = self.entries.remove(i);
                proof {
                    lemma_removed(before, i as int);
                    lemma_entry(before, i as int);
                    assert(self.entries@ == before.remove(i as int));
                }
                Some(value)
            },
            None => {
                assert(self@ =~= old(self)@.remove(key@));
                None
            },
        }
    }
}

proof fn lemma_removed<V>(before: Seq<(String, V)>, i: int)
    requires
        distinct_keys(before),
        0 <= i < before.len(),
    ensures
        distinct_keys(before.remove(i)),
        entries_map(before.remove(i)) == entries_map(before).remove(before[i].0@),
{
    let after = before.remove(i);
    let gone = before[i].0@;
    assert forall|j: int| 0 <= j < after.len() implies #[trigger] after[j] == before[if j < i {
        j
    } else {
        j + 1
    }] by {}
    assert forall|k: Seq<char>| has_key(after, k) == (has_key(before, k) && k != gone) by {
        if has_key(before, k) && k != gone {
            let j = key_index(before, k);
            let j2 = if j < i {
                j
            } else {
                j - 1
            };
            assert(after[j2].0@ == k);
        }
        if has_key(after, k) {
            let j = key_index(after, k);
            let j2 = if j < i {
                j
            } else {
                j + 1
            };
            assert(before[j2].0@ == k);
        }
    }
    assert forall|k: Seq<char>| has_key(after, k) implies entries_map(after)[k] == entries_map(
        before,
    ).remove(gone)[k] by {
        let j = key_index(after, k);
        lemma_entry(after, j);
        let j2 = if j < i {
            j
        } else {
            j + 1
        };
        lemma_entry(before, j2);
    }
    assert(entries_map(after) =~= entries_map(before).remove(gone));
}

/// A key is in the table where one of the entries has it.
pub proof fn keys_are_those_of_the_entries<V>(table: Table<V>, k: Seq<char>)
    ensures
        table@.contains_key(k) <==> exists|i: int|
            0 <= i < table.entries@.len() && (#[trigger] table.entries@[i]).0@ == k,
{
}

} // verus!
