//! The frontends that can be started, by name.
use vstd::prelude::*;

use crate::order::{
    goes_before, is_stable_order, lemma_all_kept, order_by_text, stable_order_covers,
    text_key_less, text_less, text_less_irreflexive, text_less_transitive,
};
use crate::table::{distinct_keys, key_index, lemma_entry, Table};
use crate::text::{
    capitals_become_small, join2, list_view, lowered, lowered_idempotent, to_chars, to_lower,
};

verus! {

/// Whether the character is a letter or a digit of ASCII.
pub open spec fn is_alphanumeric(c: char) -> bool {
    ('a' <= c <= 'z') || ('A' <= c <= 'Z') || ('0' <= c <= '9')
}

/// A name as it is compared: in small letters, with nothing but letters and digits.
pub open spec fn normal_name(name: Seq<char>) -> Seq<char> {
    lowered(name).filter(|c: char| is_alphanumeric(c))
}

/// The name as it is compared.
pub fn normalize_name(name: &str) -> (res: String)
    ensures
        res@ == normal_name(name@),
{
    let small = to_lower(name);
    let chars = to_chars(small.as_str());
    let ghost keep = |c: char| is_alphanumeric(c);
    let mut out = String::new();
    let mut i: usize = 0;
    proof {
        reveal(Seq::filter);
        assert(out@ =~= chars@.take(0).filter(keep));
    }
    while i < chars.len()
        invariant
            i <= chars@.len(),
            keep == |c: char| is_alphanumeric(c),
            out@ == chars@.take(i as int).filter(keep),
        decreases chars@.len() - i,
    {
        let c = chars[i];
        proof {
            reveal(Seq::filter);
            assert(chars@.take(i + 1).drop_last() =~= chars@.take(i as int));
            assert(chars@.take(i + 1).last() == c);
        }
        if (c >= 'a' && c <= 'z') || (c >= 'A' && c <= 'Z') || (c >= '0' && c <= '9') {
            out.push(c);
        }
        i = i + 1;
    }
    assert(chars@.take(i as int) =~= chars@);
    out
}

/// A name that is normal already stays as it is.
pub proof fn normal_name_idempotent(name: Seq<char>)
    ensures
        normal_name(normal_name(name)) == normal_name(name),
{
    let keep = |c: char| is_alphanumeric(c);
    let small = lowered(name);
    let n = normal_name(name);
    assert forall|i: int| 0 <= i < n.len() implies is_alphanumeric(#[trigger] n[i]) && lowered(
        n,
    )[i] == n[i] by {
        small.lemma_filter_pred(keep, i);
        assert(n.contains(n[i]));
        small.lemma_filter_contains_rev(keep, n[i]);
        let j = choose|j: int| 0 <= j < small.len() && small[j] == n[i];
        lowered_idempotent(name);
        assert(lowered(small)[j] == small[j]);
    }
    assert(lowered(n) =~= n);
    lemma_all_kept(n, keep);
}

/// The frontends that can be started, each with what starts it.
#[derive(Debug)]
pub struct FrontendRegistrationContext<S> {
    pub spawners: Table<S>,
}

impl<S> View for FrontendRegistrationContext<S> {
    type V = Map<Seq<char>, S>;

    open spec fn view(&self) -> Map<Seq<char>, S> {
        self.spawners@
    }
}

impl<S> FrontendRegistrationContext<S> {
    /// No name is registered twice.
    pub open spec fn wf(&self) -> bool {
        self.spawners.wf()
    }

    /// Nothing is registered.
    pub fn new() -> (res: Self)
        ensures
            res.wf(),
            res@ == Map::<Seq<char>, S>::empty(),
    {
        FrontendRegistrationContext { spawners: Table::new() }
    }

    /// Registers what starts a frontend, in place of what was registered under the name before.
    pub fn register_frontend(&mut self, name: &str, spawner: S)
        requires
            old(self).wf(),
        ensures
            final(self).wf(),
            final(self)@ == old(self)@.insert(normal_name(name@), spawner),
    {
        let key = normalize_name(name);
        self.spawners.insert(key.as_str(), spawner);
    }

    /// Whether the name is registered.
    pub fn is_frontend_registered(&self, name: &str) -> (res: bool)
        requires
            self.wf(),
        ensures
            res == self@.contains_key(normal_name(name@)),
    {
        let key = normalize_name(name);
        self.spawners.contains_key(key.as_str())
    }

    /// The registered names, in order.
    pub fn registered_frontends(&self) -> (res: Vec<String>)
        requires
            self.wf(),
        ensures
            is_name_list(self.spawners.entries@, list_view(res@)),
    {
        let entries = &self.spawners.entries;
        let mut names: Vec<String> = Vec::new();
        let mut i: usize = 0;
        while i < entries.len()
            invariant
                i <= entries@.len(),
                names@.len() == i,
                forall|j: int| 0 <= j < i ==> (#[trigger] names@[j])@ == entries@[j].0@,
            decreases entries@.len() - i,
        {
            names.push(entries[i].0.clone());
            i = i + 1;
        }
        let ord = order_by_text(&names, false);
        proof {
            lemma_same_order(names@, entries@, ord@);
        }
        let mut out: Vec<String> = Vec::new();
        let mut k: usize = 0;
        while k < ord.len()
            invariant
                k <= ord@.len(),
                ord@.len() == names@.len(),
                names@.len() == entries@.len(),
                forall|j: int| 0 <= j < names@.len() ==> (#[trigger] names@[j])@ == entries@[j].0@,
                forall|j: int| 0 <= j < ord@.len() ==> 0 <= #[trigger] ord@[j] < names@.len(),
                out@.len() == k,
                forall|j: int|
                    0 <= j < k ==> (#[trigger] out@[j])@ == entries@[ord@[j] as int].0@,
            decreases ord@.len() - k,
        {
            assert(names@[ord@[k as int] as int]@ == entries@[ord@[k as int] as int].0@);
            out.push(names[ord[k]].clone());
            k = k + 1;
        }
        proof {
            let listed = list_view(out@);
            assert(is_sorted_by(entries@, listed, ord@));
        }
        out
    }

    /// What starts the frontend with the name.
    pub fn spawner_of(&self, name: &str) -> (res: Result<&S, String>)
        requires
            self.wf(),
        ensures
            match res {
                Ok(s) => self@.contains_key(normal_name(name@)) && *s == self@[normal_name(name@)],
                Err(m) => !self@.contains_key(normal_name(name@)) && m@ == "Unknown frontend: "@
                    + name@,
            },
    {
        let key = normalize_name(name);
        match self.spawners.get(key.as_str()) {
            Some(s) => Ok(s),
            None => Err(join2("Unknown frontend: ", name)),
        }
    }
}

impl<S: Copy> FrontendRegistrationContext<S> {
    /// Takes over all that is registered in another context.
    pub fn extend_from(&mut self, other: &FrontendRegistrationContext<S>)
        requires
            old(self).wf(),
            other.wf(),
        ensures
            final(self).wf(),
            final(self)@ == old(self)@.union_prefer_right(other@),
    {
        let mut i: usize = 0;
        let ghost start = self@;
        assert(self@ =~= merged(start, other.spawners.entries@, 0));
        while i < other.spawners.entries.len()
            invariant
                i <= other.spawners.entries@.len(),
                self.wf(),
                self@ == merged(start, other.spawners.entries@, i as int),
            decreases other.spawners.entries@.len() - i,
        {
            let entry = &other.spawners.entries[i];
            self.spawners.insert(entry.0.as_str(), entry.1);
            i = i + 1;
        }
        proof {
            lemma_merged(start, other.spawners.entries@, i as int);
            assert forall|k: Seq<char>| other@.contains_key(k) implies exists|j: int|
                0 <= j < other.spawners.entries@.len() && (#[trigger] other.spawners.entries@[j])
                    .0@ == k by {
                let j = key_index(other.spawners.entries@, k);
                assert(other.spawners.entries@[j].0@ == k);
            }
            assert forall|j: int| 0 <= j < other.spawners.entries@.len() implies
                other@.contains_key((#[trigger] other.spawners.entries@[j]).0@)
                && other@[other.spawners.entries@[j].0@] == other.spawners.entries@[j].1 by {
                lemma_entry(other.spawners.entries@, j);
            }
            assert(self@ =~= start.union_prefer_right(other@));
        }
    }
}

/// A map with the first `n` entries added.
spec fn merged<S>(start: Map<Seq<char>, S>, entries: Seq<(String, S)>, n: int) -> Map<Seq<char>, S>
    decreases n,
{
    if n <= 0 {
        start
    } else {
        merged(start, entries, n - 1).insert(entries[n - 1].0@, entries[n - 1].1)
    }
}

proof fn lemma_merged<S>(start: Map<Seq<char>, S>, entries: Seq<(String, S)>, n: int)
    requires
        0 <= n <= entries.len(),
        distinct_keys(entries),
    ensures
        forall|k: Seq<char>| #[trigger]
            merged(start, entries, n).contains_key(k) <==> start.contains_key(k) || exists|j: int|
                0 <= j < n && (#[trigger] entries[j]).0@ == k,
        forall|j: int|
            0 <= j < n ==> merged(start, entries, n)[(#[trigger] entries[j]).0@] == entries[j].1,
        forall|k: Seq<char>|
            start.contains_key(k) && (forall|j: int|
                0 <= j < n ==> (#[trigger] entries[j]).0@ != k) ==> #[trigger] merged(
                start,
                entries,
                n,
            )[k] == start[k],
    decreases n,
{
    if n > 0 {
        lemma_merged(start, entries, n - 1);
        let last = entries[n - 1].0@;
        let before = merged(start, entries, n - 1);
        let now = merged(start, entries, n);
        assert forall|k: Seq<char>| #[trigger] now.contains_key(k) <==> start.contains_key(k)
            || exists|j: int| 0 <= j < n && (#[trigger] entries[j]).0@ == k by {
            if k == last {
                assert(entries[n - 1].0@ == k);
            }
            if before.contains_key(k) && !start.contains_key(k) {
                let j = choose|j: int| 0 <= j < n - 1 && (#[trigger] entries[j]).0@ == k;
                assert(entries[j].0@ == k);
            }
            if exists|j: int| 0 <= j < n && (#[trigger] entries[j]).0@ == k {
                let j = choose|j: int| 0 <= j < n && (#[trigger] entries[j]).0@ == k;
                if j < n - 1 {
                    assert(entries[j].0@ == k);
                    assert(before.contains_key(k));
                }
            }
        }
        assert forall|j: int| 0 <= j < n implies now[(#[trigger] entries[j]).0@] == entries[j].1 by {
            if j < n - 1 {
                assert(entries[j].0@ != entries[n - 1].0@);
            }
        }
    }
}

/// Whether the names are those of the entries, in the given order, which is theirs.
pub open spec fn is_sorted_by<S>(
    entries: Seq<(String, S)>,
    names: Seq<Seq<char>>,
    ord: Seq<usize>,
) -> bool {
    &&& is_stable_order(names_less(entries), entries.len() as int, ord)
    &&& names.len() == entries.len()
    &&& forall|i: int| 0 <= i < names.len() ==> #[trigger] names[i] == entries[ord[i] as int].0@
}

/// Whether the names are those of the entries, in order.
pub open spec fn is_name_list<S>(entries: Seq<(String, S)>, names: Seq<Seq<char>>) -> bool {
    exists|ord: Seq<usize>| is_sorted_by(entries, names, ord)
}

/// The order of registered names.
pub open spec fn names_less<S>(entries: Seq<(String, S)>) -> spec_fn(int, int) -> bool {
    |a: int, b: int| text_less(entries[a].0@, entries[b].0@)
}

proof fn lemma_same_order<S>(names: Seq<String>, entries: Seq<(String, S)>, ord: Seq<usize>)
    requires
        names.len() == entries.len(),
        forall|j: int| 0 <= j < names.len() ==> (#[trigger] names[j])@ == entries[j].0@,
        is_stable_order(text_key_less(names, false), names.len() as int, ord),
    ensures
        is_stable_order(names_less(entries), entries.len() as int, ord),
{
    let n = entries.len() as int;
    let less = text_key_less(names, false);
    let other = names_less(entries);
    assert forall|i: int, j: int| 0 <= i < j < n implies goes_before(
        other,
        #[trigger] ord[i] as int,
        #[trigger] ord[j] as int,
    ) by {
        let a = ord[i] as int;
        let b = ord[j] as int;
        assert(goes_before(less, a, b));
        assert(names[a]@ == entries[a].0@);
        assert(names[b]@ == entries[b].0@);
        assert(less(a, b) == other(a, b));
        assert(less(b, a) == other(b, a));
    }
}

/// A frontend is found under the name it was registered under, however that is written.
pub proof fn registered_is_found<S>(
    before: Map<Seq<char>, S>,
    name: Seq<char>,
    other_name: Seq<char>,
    spawner: S,
)
    requires
        normal_name(name) == normal_name(other_name),
    ensures
        before.insert(normal_name(name), spawner).contains_key(normal_name(other_name)),
        before.insert(normal_name(name), spawner)[normal_name(other_name)] == spawner,
{
}

/// The plain name of a frontend is what is left of it, in small letters, without everything that is
/// neither a letter nor a digit.
pub proof fn plain_names(a: Seq<char>, b: Seq<char>, c: char)
    ensures
        normal_name(a + b) == normal_name(a) + normal_name(b),
        'a' <= c <= 'z' || '0' <= c <= '9' ==> normal_name(seq![c]) == seq![c],
        'A' <= c <= 'Z' ==> normal_name(seq![c]) == seq![((c as u32) + 32) as char],
        !('a' <= c <= 'z') && !('A' <= c <= 'Z') && !('0' <= c <= '9') ==> normal_name(
            seq![c],
        ).len() == 0,
{
    let pred = |c: char| is_alphanumeric(c);
    assert(lowered(a + b) =~= lowered(a) + lowered(b));
    Seq::filter_distributes_over_add(lowered(a), lowered(b), pred);
    reveal_with_fuel(Seq::filter, 3);
    let one = lowered(seq![c]);
    capitals_become_small(seq![c], 0);
    assert(one.len() == 1);
    assert(one.drop_last() =~= Seq::empty());
    assert(one.last() == one[0]);
    assert(normal_name(seq![c]) == one.filter(pred));
    if is_alphanumeric(one[0]) {
        assert(one.filter(pred) =~= seq![one[0]]);
    }
}

/// The list of the frontends has each of them, in the order of the alphabet.
pub proof fn lists_of_frontends<S>(
    entries: Seq<(String, S)>,
    names: Seq<Seq<char>>,
    i: int,
    j: int,
)
    requires
        is_name_list(entries, names),
    ensures
        names.len() == entries.len(),
        0 <= i < j < names.len() ==> !text_less(names[j], names[i]),
        0 <= i < entries.len() ==> names.contains(entries[i].0@),
{
    let ord = choose|ord: Seq<usize>| is_sorted_by(entries, names, ord);
    if 0 <= i < j < names.len() {
        assert(goes_before(names_less(entries), ord[i] as int, ord[j] as int));
        if text_less(names[j], names[i]) {
            text_less_transitive(names[j], names[i], names[j]);
            text_less_irreflexive(names[j]);
        }
    }
    if 0 <= i < entries.len() {
        let less = names_less(entries);
        assert forall|a: int| 0 <= a < entries.len() implies !(#[trigger] less(a, a)) by {
            text_less_irreflexive(entries[a].0@);
        }
        stable_order_covers(less, entries.len() as int, ord, i);
        let k = choose|k: int| 0 <= k < entries.len() && #[trigger] ord[k] == i;
        assert(names[k] == entries[i].0@);
    }
}

} // verus!
