//! A table from 128-bit identifiers to values that remembers the order of first insertion.
use vstd::prelude::*;

verus! {

/// Values by number. No key occurs twice; a new key goes to the end.
#[derive(Debug)]
pub struct IdTable<V> {
    pub entries: Vec<(u128, V)>,
}

/// Whether some entry has the key `k`.
pub open spec fn has_id<V>(entries: Seq<(u128, V)>, k: u128) -> bool {
    exists|i: int| 0 <= i < entries.len() && (#[trigger] entries[i]).0 == k
}

/// The position of the entry with the key `k`.
pub open spec fn id_index<V>(entries: Seq<(u128, V)>, k: u128) -> int {
    choose|i: int| 0 <= i < entries.len() && (#[trigger] entries[i]).0 == k
}

/// No two entries have the same key.
pub open spec fn distinct_ids<V>(entries: Seq<(u128, V)>) -> bool {
    forall|i: int, j: int|
        0 <= i < j < entries.len() ==> (#[trigger] entries[i]).0 != (#[trigger] entries[j]).0
}

/// The map that a list of entries stands for.
pub open spec fn ids_map<V>(entries: Seq<(u128, V)>) -> Map<u128, V> {
    Map::new(|k: u128| has_id(entries, k), |k: u128| entries[id_index(entries, k)].1)
}

/// The keys of a list of entries, in order.
pub open spec fn entry_ids<V>(entries: Seq<(u128, V)>) -> Seq<u128> {
    entries.map_values(|e: (u128, V)| e.0)
}

impl<V> View for IdTable<V> {
    type V = Map<u128, V>;

    open spec fn view(&self) -> Map<u128, V> {
        ids_map(self.entries@)
    }
}

/// With distinct keys, the entry at `i` is what the map holds at its key.
pub proof fn lemma_id_entry<V>(entries: Seq<(u128, V)>, i: int)
    requires
        distinct_ids(entries),
        0 <= i < entries.len(),
    ensures
        ids_map(entries).contains_key(entries[i].0),
        ids_map(entries)[entries[i].0] == entries[i].1,
        id_index(entries, entries[i].0) == i,
{
    let k = entries[i].0;
    assert(has_id(entries, k));
    let j = id_index(entries, k);
    assert(entries[j].0 == k);
    if j < i {
        assert(entries[j].0 != entries[i].0);
    }
    if i < j {
        assert(entries[i].0 != entries[j].0);
    }
}

impl<V> IdTable<V> {
    /// No key occurs twice.
    pub open spec fn wf(&self) -> bool {
        distinct_ids(self.entries@)
    }

    /// An empty table.
    pub fn new() -> (res: Self)
        ensures
            res.wf(),
            res@ == Map::<u128, V>::empty(),
            res.entries@.len() == 0,
    {
        let res = IdTable { entries: Vec::new() };
        assert(res@ =~= Map::<u128, V>::empty());
        res
    }

    /// The position of the entry with the key.
    pub fn position(&self, key: u128) -> (res: Option<usize>)
        requires
            self.wf(),
        ensures
            res is Some <==> self@.contains_key(key),
            res matches Some(i) ==> i < self.entries@.len() && self.entries@[i as int].0 == key
                && self@[key] == self.entries@[i as int].1,
    {
        let mut i: usize = 0;
        while i < self.entries.len()
            invariant
                i <= self.entries@.len(),
                self.wf(),
                forall|j: int| 0 <= j < i ==> (#[trigger] self.entries@[j]).0 != key,
            decreases self.entries@.len() - i,
        {
            if self.entries[i].0 == key {
                proof {
                    lemma_id_entry(self.entries@, i as int);
                }
                return Some(i);
            }
            i = i + 1;
        }
        None
    }

    /// Whether the key is in the table.
    pub fn contains_key(&self, key: u128) -> (res: bool)
        requires
            self.wf(),
        ensures
            res == self@.contains_key(key),
    {
        self.position(key).is_some()
    }

    /// The value of the key.
    pub fn get(&self, key: u128) -> (res: Option<&V>)
        requires
            self.wf(),
        ensures
            res is Some <==> self@.contains_key(key),
            res matches Some(v) ==> *v == self@[key],
    {
        match self.position(key) {
            Some(i) => Some(&self.entries[i].1),
            None => None,
        }
    }

    /// Gives the key the value: in its place where the key is present, else at the end.
    pub fn insert(&mut self, key: u128, value: V)
        requires
            old(self).wf(),
        ensures
            final(self).wf(),
            final(self)@ == old(self)@.insert(key, value),
            old(self)@.contains_key(key) ==> entry_ids(final(self).entries@) == entry_ids(
                old(self).entries@,
            ),
            !old(self)@.contains_key(key) ==> entry_ids(final(self).entries@) == entry_ids(
                old(self).entries@,
            ).push(key),
    {
        let ghost before = self.entries@;
        match self.position(key) {
            Some(i) => {
                self.entries.set(i, (key, value));
                proof {
                    let after = self.entries@;
                    assert forall|j: int, k: int| 0 <= j < k < after.len() implies (
                    #[trigger] after[j]).0 != (#[trigger] after[k]).0 by {
                        assert(after[j].0 == before[j].0);
                        assert(after[k].0 == before[k].0);
                    }
                    assert forall|k: u128| has_id(after, k) == has_id(before, k) by {
                        if has_id(before, k) {
                            let j = id_index(before, k);
                            assert(after[j].0 == before[j].0);
                        }
                        if has_id(after, k) {
                            let j = id_index(after, k);
                            assert(after[j].0 == before[j].0);
                        }
                    }
                    assert forall|k: u128| has_id(after, k) implies ids_map(after)[k]
                        == ids_map(before).insert(key, value)[k] by {
                        let j = id_index(after, k);
                        lemma_id_entry(after, j);
                        lemma_id_entry(before, j);
                        lemma_id_entry(before, i as int);
                    }
                    assert(ids_map(after) =~= ids_map(before).insert(key, value));
                    assert(entry_ids(after) =~= entry_ids(before));
                }
            },
            None => {
                self.entries.push((key, value));
                proof {
                    let after = self.entries@;
                    let n = before.len() as int;
                    assert forall|j: int, k: int| 0 <= j < k < after.len() implies (
                    #[trigger] after[j]).0 != (#[trigger] after[k]).0 by {
                        if k == n {
                            assert(has_id(before, before[j].0));
                        }
                    }
                    assert forall|k: u128|
                        has_id(after, k) == (has_id(before, k) || k == key) by {
                        if has_id(before, k) {
                            assert(after[id_index(before, k)].0 == k);
                        }
                        assert(after[n].0 == key);
                        if has_id(after, k) {
                            let j = id_index(after, k);
                            if j < n {
                                assert(before[j].0 == k);
                            }
                        }
                    }
                    assert forall|k: u128| has_id(after, k) implies ids_map(after)[k]
                        == ids_map(before).insert(key, value)[k] by {
                        let j = id_index(after, k);
                        lemma_id_entry(after, j);
                        if j < n {
                            lemma_id_entry(before, j);
                            assert(has_id(before, k));
                        }
                    }
                    assert(ids_map(after) =~= ids_map(before).insert(key, value));
                    assert(entry_ids(after) =~= entry_ids(before).push(key));
                }
            },
        }
    }

    /// Takes the key out of the table and gives back its value.
    pub fn remove(&mut self, key: u128) -> (res: Option<V>)
        requires
            old(self).wf(),
        ensures
            final(self).wf(),
            final(self)@ == old(self)@.remove(key),
            res is Some <==> old(self)@.contains_key(key),
            res matches Some(v) ==> v == old(self)@[key],
    {
        let ghost before = self.entries@;
        match self.position(key) {
            Some(i) => {
                let (_, value) = self.entries.remove(i);
                proof {
                    lemma_id_removed(before, i as int);
                    lemma_id_entry(before, i as int);
                    assert(self.entries@ == before.remove(i as int));
                }
                Some(value)
            },
            None => {
                assert(self@ =~= old(self)@.remove(key));
                None
            },
        }
    }
}

proof fn lemma_id_removed<V>(before: Seq<(u128, V)>, i: int)
    requires
        distinct_ids(before),
        0 <= i < before.len(),
    ensures
        distinct_ids(before.remove(i)),
        ids_map(before.remove(i)) == ids_map(before).remove(before[i].0),
{
    let after = before.remove(i);
    let gone = before[i].0;
    assert forall|j: int| 0 <= j < after.len() implies #[trigger] after[j] == before[if j < i {
        j
    } else {
        j + 1
    }] by {}
    assert forall|k: u128| has_id(after, k) == (has_id(before, k) && k != gone) by {
        if has_id(before, k) && k != gone {
            let j = id_index(before, k);
            let j2 = if j < i {
                j
            } else {
                j - 1
            };
            assert(after[j2].0 == k);
        }
        if has_id(after, k) {
            let j = id_index(after, k);
            let j2 = if j < i {
                j
            } else {
                j + 1
            };
            assert(before[j2].0 == k);
        }
    }
    assert forall|k: u128| has_id(after, k) implies ids_map(after)[k] == ids_map(
        before,
    ).remove(gone)[k] by {
        let j = id_index(after, k);
        lemma_id_entry(after, j);
        let j2 = if j < i {
            j
        } else {
            j + 1
        };
        lemma_id_entry(before, j2);
    }
    assert(ids_map(after) =~= ids_map(before).remove(gone));
}

/// A key is in the table where one of the entries has it.
pub proof fn ids_are_those_of_the_entries<V>(table: IdTable<V>, k: u128)
    ensures
        table@.contains_key(k) <==> exists|i: int|
            0 <= i < table.entries@.len() && (#[trigger] table.entries@[i]).0 == k,
{
}

} // verus!
