//! Bookmarks: stored frequencies, general and per rig, and the operations on them.
use vstd::prelude::*;

use crate::ids::{hex_text, new_token};
use crate::order::{is_stable_order, number_less, order_by_number};
use crate::table::{entries_map, key_index, lemma_entry, Table};
use crate::text::{
    list_clone, list_view, lowercased, opt_clone, opt_view, own, str_eq, to_lowercase, to_uppercase,
    trim, trimmed, uppercased,
};

verus! {

/// A stored frequency.
#[derive(Debug, PartialEq, Eq)]
pub struct Bookmark {
    pub id: String,
    pub name: String,
    pub freq_hz: u64,
    pub mode: String,
    pub bandwidth_hz: Option<u64>,
    pub locator: Option<String>,
    pub comment: String,
    pub category: String,
    pub decoders: Vec<String>,
}

/// What a bookmark says.
#[verifier::ext_equal]
pub struct BookmarkView {
    pub id: Seq<char>,
    pub name: Seq<char>,
    pub freq_hz: u64,
    pub mode: Seq<char>,
    pub bandwidth_hz: Option<u64>,
    pub locator: Option<Seq<char>>,
    pub comment: Seq<char>,
    pub category: Seq<char>,
    pub decoders: Seq<Seq<char>>,
}

impl View for Bookmark {
    type V = BookmarkView;

    open spec fn view(&self) -> BookmarkView {
        BookmarkView {
            id: self.id@,
            name: self.name@,
            freq_hz: self.freq_hz,
            mode: self.mode@,
            bandwidth_hz: self.bandwidth_hz,
            locator: opt_view(self.locator),
            comment: self.comment@,
            category: self.category@,
            decoders: list_view(self.decoders@),
        }
    }
}

impl Clone for Bookmark {
    fn clone(&self) -> (res: Self)
        ensures
            res@ == self@,
    {
        Bookmark {
            id: self.id.clone(),
            name: self.name.clone(),
            freq_hz: self.freq_hz,
            mode: self.mode.clone(),
            bandwidth_hz: self.bandwidth_hz,
            locator: opt_clone(&self.locator),
            comment: self.comment.clone(),
            category: self.category.clone(),
            decoders: list_clone(&self.decoders),
        }
    }
}

/// What a list of bookmarks says.
pub open spec fn bookmark_views(list: Seq<Bookmark>) -> Seq<BookmarkView> {
    list.map_values(|b: Bookmark| b@)
}

// ---------------------------------------------------------------------------------------------
// One store
// ---------------------------------------------------------------------------------------------

/// The bookmarks of one scope, each under its key.
#[derive(Debug)]
pub struct BookmarkStore {
    pub items: Table<Bookmark>,
}

impl View for BookmarkStore {
    type V = Map<Seq<char>, BookmarkView>;

    open spec fn view(&self) -> Map<Seq<char>, BookmarkView> {
        self.items@.map_values(|b: Bookmark| b@)
    }
}

/// Whether a bookmark other than the excluded one has the frequency.
pub open spec fn freq_taken_in(
    list: Seq<(String, Bookmark)>,
    freq_hz: u64,
    exclude: Option<Seq<char>>,
) -> bool {
    exists|i: int|
        0 <= i < list.len() && (#[trigger] list[i]).1.freq_hz == freq_hz && exclude != Some(
            list[i].1.id@,
        )
}

impl BookmarkStore {
    /// No key occurs twice.
    pub open spec fn wf(&self) -> bool {
        self.items.wf()
    }

    /// A store with no bookmark.
    pub fn new() -> (res: Self)
        ensures
            res.wf(),
            res@ == Map::<Seq<char>, BookmarkView>::empty(),
            res.items.entries@.len() == 0,
    {
        let res = BookmarkStore { items: Table::new() };
        assert(res@ =~= Map::<Seq<char>, BookmarkView>::empty());
        res
    }

    /// All bookmarks.
    pub fn list(&self) -> (res: Vec<Bookmark>)
        ensures
            res@.len() == self.items.entries@.len(),
            forall|i: int|
                0 <= i < res@.len() ==> (#[trigger] res@[i])@ == self.items.entries@[i].1@,
    {
        let mut out: Vec<Bookmark> = Vec::new();
        let mut i: usize = 0;
        while i < self.items.entries.len()
            invariant
                i <= self.items.entries@.len(),
                out@.len() == i,
                forall|j: int| 0 <= j < i ==> (#[trigger] out@[j])@ == self.items.entries@[j].1@,
            decreases self.items.entries@.len() - i,
        {
            out.push(self.items.entries[i].1.clone());
            i = i + 1;
        }
        out
    }

    /// The bookmark under the id.
    pub fn get(&self, id: &str) -> (res: Option<Bookmark>)
        requires
            self.wf(),
        ensures
            res is Some <==> self@.contains_key(id@),
            res matches Some(b) ==> b@ == self@[id@],
    {
        match self.items.get(id) {
            Some(b) => Some(b.clone()),
            None => None,
        }
    }

    /// Stores a bookmark under its id.
    pub fn insert(&mut self, bm: &Bookmark)
        requires
            old(self).wf(),
        ensures
            final(self).wf(),
            final(self)@ == old(self)@.insert(bm.id@, bm@),
    {
        let copy = bm.clone();
        self.items.insert(bm.id.as_str(), copy);
        assert(self@ =~= old(self)@.insert(bm.id@, bm@));
    }

    /// Replaces the bookmark under the id. False, and nothing changed, where there is none.
    pub fn upsert(&mut self, id: &str, bm: &Bookmark) -> (res: bool)
        requires
            old(self).wf(),
        ensures
            final(self).wf(),
            res == old(self)@.contains_key(id@),
            res ==> final(self)@ == old(self)@.insert(id@, bm@),
            !res ==> final(self)@ == old(self)@,
    {
        if self.items.contains_key(id) {
            let copy = bm.clone();
            self.items.insert(id, copy);
            assert(self@ =~= old(self)@.insert(id@, bm@));
            true
        } else {
            false
        }
    }

    /// Removes the bookmark under the id. False where there is none.
    pub fn remove(&mut self, id: &str) -> (res: bool)
        requires
            old(self).wf(),
        ensures
            final(self).wf(),
            res == old(self)@.contains_key(id@),
            final(self)@ == old(self)@.remove(id@),
    {
        let gone = self.items.remove(id);
        assert(self@ =~= old(self)@.remove(id@));
        gone.is_some()
    }

    /// Whether a bookmark, other than the one with the excluded id, has the frequency.
    pub fn freq_taken(&self, freq_hz: u64, exclude_id: Option<&str>) -> (res: bool)
        ensures
            res == freq_taken_in(
                self.items.entries@,
                freq_hz,
                match exclude_id {
                    Some(x) => Some(x@),
                    None => None,
                },
            ),
    {
        let ghost exclude = match exclude_id {
            Some(x) => Some(x@),
            None => None,
        };
        let mut i: usize = 0;
        while i < self.items.entries.len()
            invariant
                i <= self.items.entries@.len(),
                exclude == (match exclude_id {
                    Some(x) => Some(x@),
                    None => None,
                }),
                forall|j: int|
                    0 <= j < i ==> !((#[trigger] self.items.entries@[j]).1.freq_hz == freq_hz
                        && exclude != Some(self.items.entries@[j].1.id@)),
            decreases self.items.entries@.len() - i,
        {
            let bm = &self.items.entries[i].1;
            let other = match exclude_id {
                Some(x) => !str_eq(bm.id.as_str(), x),
                None => true,
            };
            if bm.freq_hz == freq_hz && other {
                assert(self.items.entries@[i as int].1.freq_hz == freq_hz);
                return true;
            }
            i = i + 1;
        }
        false
    }
}

// ---------------------------------------------------------------------------------------------
// Merging
// ---------------------------------------------------------------------------------------------

/// The bookmarks of a list by id; of two with one id the later counts.
pub open spec fn by_id(list: Seq<BookmarkView>) -> Map<Seq<char>, BookmarkView>
    decreases list.len(),
{
    if list.len() == 0 {
        Map::empty()
    } else {
        by_id(list.drop_last()).insert(list.last().id, list.last())
    }
}

/// No two bookmarks of the list have one id.
pub open spec fn distinct_ids(list: Seq<Bookmark>) -> bool {
    forall|i: int, j: int|
        0 <= i < j < list.len() ==> (#[trigger] list[i]).id@ != (#[trigger] list[j]).id@
}

/// A bookmark together with the scope it was found in.
#[derive(Debug)]
pub struct BookmarkWithScope {
    pub bm: Bookmark,
    pub scope: String,
}

/// What a scoped bookmark says: the bookmark and its scope.
pub open spec fn scoped_views(list: Seq<BookmarkWithScope>) -> Seq<(BookmarkView, Seq<char>)> {
    list.map_values(|b: BookmarkWithScope| (b.bm@, b.scope@))
}

/// Tags each bookmark of a list with a scope.
pub open spec fn tagged(list: Seq<BookmarkView>, scope: Seq<char>) -> Seq<(BookmarkView, Seq<char>)> {
    list.map_values(|b: BookmarkView| (b, scope))
}

/// The scoped bookmarks of a list by id; of two with one id the later counts.
pub open spec fn scoped_by_id(list: Seq<(BookmarkView, Seq<char>)>) -> Map<
    Seq<char>,
    (BookmarkView, Seq<char>),
>
    decreases list.len(),
{
    if list.len() == 0 {
        Map::empty()
    } else {
        scoped_by_id(list.drop_last()).insert(list.last().0.id, list.last())
    }
}

/// No two scoped bookmarks of the list have one id.
pub open spec fn distinct_scoped_ids(list: Seq<(BookmarkView, Seq<char>)>) -> bool {
    forall|i: int, j: int|
        0 <= i < j < list.len() ==> (#[trigger] list[i]).0.id != (#[trigger] list[j]).0.id
}

proof fn lemma_scoped_by_id_add(
    a: Seq<(BookmarkView, Seq<char>)>,
    b: Seq<(BookmarkView, Seq<char>)>,
    x: (BookmarkView, Seq<char>),
)
    requires
        scoped_by_id(a) == scoped_by_id(b),
    ensures
        scoped_by_id(a.push(x)) == scoped_by_id(b.push(x)),
        scoped_by_id(a.push(x)) == scoped_by_id(a).insert(x.0.id, x),
{
    assert(a.push(x).drop_last() =~= a);
    assert(b.push(x).drop_last() =~= b);
}

/// Where ids are distinct, the map holds each bookmark of the list at its id, and no other id.
pub proof fn scoped_by_id_distinct(list: Seq<(BookmarkView, Seq<char>)>)
    requires
        distinct_scoped_ids(list),
    ensures
        forall|i: int|
            0 <= i < list.len() ==> scoped_by_id(list).contains_key((#[trigger] list[i]).0.id)
                && scoped_by_id(list)[list[i].0.id] == list[i],
        forall|k: Seq<char>| #[trigger]
            scoped_by_id(list).contains_key(k) ==> exists|i: int|
                0 <= i < list.len() && (#[trigger] list[i]).0.id == k,
    decreases list.len(),
{
    if list.len() > 0 {
        let rest = list.drop_last();
        assert forall|i: int, j: int| 0 <= i < j < rest.len() implies (#[trigger] rest[i]).0.id != (
        #[trigger] rest[j]).0.id by {
            assert(rest[i] == list[i] && rest[j] == list[j]);
        }
        scoped_by_id_distinct(rest);
        assert forall|i: int| 0 <= i < list.len() implies scoped_by_id(list).contains_key(
            (#[trigger] list[i]).0.id,
        ) && scoped_by_id(list)[list[i].0.id] == list[i] by {
            if i < rest.len() {
                assert(rest[i] == list[i]);
                assert(list[i].0.id != list[list.len() - 1].0.id);
            }
        }
        assert forall|k: Seq<char>| #[trigger] scoped_by_id(list).contains_key(k) implies exists|
            i: int,
        |
            0 <= i < list.len() && (#[trigger] list[i]).0.id == k by {
            if k == list.last().0.id {
                assert(list[list.len() - 1].0.id == k);
            } else {
                assert(scoped_by_id(rest).contains_key(k));
                let i = choose|i: int| 0 <= i < rest.len() && (#[trigger] rest[i]).0.id == k;
                assert(list[i].0.id == k);
            }
        }
    }
}

proof fn lemma_scoped_replace(
    list: Seq<(BookmarkView, Seq<char>)>,
    p: int,
    x: (BookmarkView, Seq<char>),
)
    requires
        distinct_scoped_ids(list),
        0 <= p < list.len(),
        list[p].0.id == x.0.id,
    ensures
        distinct_scoped_ids(list.update(p, x)),
        scoped_by_id(list.update(p, x)) == scoped_by_id(list).insert(x.0.id, x),
{
    let after = list.update(p, x);
    assert forall|i: int, j: int| 0 <= i < j < after.len() implies (#[trigger] after[i]).0.id != (
    #[trigger] after[j]).0.id by {
        assert(after[i].0.id == list[i].0.id);
        assert(after[j].0.id == list[j].0.id);
    }
    scoped_by_id_distinct(list);
    scoped_by_id_distinct(after);
    let (ma, mb) = (scoped_by_id(after), scoped_by_id(list).insert(x.0.id, x));
    assert forall|k: Seq<char>| ma.contains_key(k) == mb.contains_key(k) by {
        if ma.contains_key(k) {
            let i = choose|i: int| 0 <= i < after.len() && (#[trigger] after[i]).0.id == k;
            assert(list[i].0.id == k);
        }
        if mb.contains_key(k) {
            if k == x.0.id {
                assert(after[p].0.id == k);
            } else {
                let i = choose|i: int| 0 <= i < list.len() && (#[trigger] list[i]).0.id == k;
                assert(after[i].0.id == k);
            }
        }
    }
    assert forall|k: Seq<char>| ma.contains_key(k) implies ma[k] == mb[k] by {
        let i = choose|i: int| 0 <= i < after.len() && (#[trigger] after[i]).0.id == k;
        assert(list[i].0.id == k);
        if i != p {
            if i < p {
                assert(list[i].0.id != list[p].0.id);
            } else {
                assert(list[p].0.id != list[i].0.id);
            }
        }
    }
    assert(ma =~= mb);
}

/// Puts a bookmark into the list: in the place of the one with its id, or else at the end.
fn put_scoped(list: &mut Vec<BookmarkWithScope>, item: BookmarkWithScope)
    requires
        distinct_scoped_ids(scoped_views(old(list)@)),
    ensures
        distinct_scoped_ids(scoped_views(final(list)@)),
        scoped_by_id(scoped_views(final(list)@)) == scoped_by_id(scoped_views(old(list)@)).insert(
            item.bm.id@,
            (item.bm@, item.scope@),
        ),
{
    let ghost before = scoped_views(list@);
    let ghost x = (item.bm@, item.scope@);
    let mut i: usize = 0;
    while i < list.len()
        invariant
            i <= list@.len(),
            list@ == old(list)@,
            before == scoped_views(list@),
            x == (item.bm@, item.scope@),
            distinct_scoped_ids(before),
            forall|j: int| 0 <= j < i ==> (#[trigger] before[j]).0.id != item.bm.id@,
        decreases list@.len() - i,
    {
        assert(before[i as int].0.id == list@[i as int].bm.id@);
        if str_eq(list[i].bm.id.as_str(), item.bm.id.as_str()) {
            list.set(i, item);
            proof {
                lemma_scoped_replace(before, i as int, x);
                assert(scoped_views(list@) =~= before.update(i as int, x));
            }
            return ;
        }
        i = i + 1;
    }
    list.push(item);
    proof {
        lemma_scoped_by_id_add(before, before, x);
        assert(scoped_views(list@) =~= before.push(x));
        let after = scoped_views(list@);
        assert forall|j: int, k: int| 0 <= j < k < after.len() implies (#[trigger] after[j]).0.id
            != (#[trigger] after[k]).0.id by {
            if k < before.len() {
                assert(before[j].0.id != before[k].0.id);
            } else {
                assert(before[j].0.id != x.0.id);
            }
        }
    }
}

/// The general bookmarks and, on top of them, those of one rig: a rig bookmark replaces the
/// general one with the same id.
pub fn merge_scoped(general: Vec<Bookmark>, rig: Vec<Bookmark>, remote: &str) -> (res: Vec<
    BookmarkWithScope,
>)
    ensures
        distinct_scoped_ids(scoped_views(res@)),
        scoped_by_id(scoped_views(res@)) == scoped_by_id(
            tagged(bookmark_views(general@), "general"@) + tagged(bookmark_views(rig@), remote@),
        ),
{
    let ghost gv = tagged(bookmark_views(general@), "general"@);
    let ghost rv = tagged(bookmark_views(rig@), remote@);
    let ghost all = gv + rv;
    let mut out: Vec<BookmarkWithScope> = Vec::new();
    assert(scoped_by_id(scoped_views(out@)) =~= scoped_by_id(all.take(0)));
    for bm in it: general
        invariant
            it.seq() == general@,
            gv == tagged(bookmark_views(general@), "general"@),
            all == gv + rv,
            distinct_scoped_ids(scoped_views(out@)),
            scoped_by_id(scoped_views(out@)) == scoped_by_id(all.take(it.index() as int)),
    {
        let ghost n = it.index() as int;
        proof {
            assert(all.take(n + 1) =~= all.take(n).push((bm@, "general"@)));
            lemma_scoped_by_id_add(all.take(n), all.take(n), (bm@, "general"@));
        }
        put_scoped(&mut out, BookmarkWithScope { bm, scope: own("general") });
    }
    let ghost base = gv.len() as int;
    for bm in it: rig
        invariant
            it.seq() == rig@,
            rv == tagged(bookmark_views(rig@), remote@),
            all == gv + rv,
            base == gv.len(),
            distinct_scoped_ids(scoped_views(out@)),
            scoped_by_id(scoped_views(out@)) == scoped_by_id(all.take(base + it.index() as int)),
    {
        let ghost n = base + it.index() as int;
        proof {
            assert(all.take(n + 1) =~= all.take(n).push((bm@, remote@)));
            lemma_scoped_by_id_add(all.take(n), all.take(n), (bm@, remote@));
        }
        put_scoped(&mut out, BookmarkWithScope { bm, scope: own(remote) });
    }
    assert(all.take(all.len() as int) =~= all);
    out
}

/// The scoped map without its scopes is the map of the bookmarks.
proof fn lemma_unscoped(list: Seq<(BookmarkView, Seq<char>)>)
    ensures
        by_id(list.map_values(|e: (BookmarkView, Seq<char>)| e.0)) == scoped_by_id(list).map_values(
            |e: (BookmarkView, Seq<char>)| e.0,
        ),
    decreases list.len(),
{
    let plain = list.map_values(|e: (BookmarkView, Seq<char>)| e.0);
    if list.len() > 0 {
        lemma_unscoped(list.drop_last());
        assert(plain.drop_last() =~= list.drop_last().map_values(
            |e: (BookmarkView, Seq<char>)| e.0,
        ));
        assert(by_id(plain) =~= scoped_by_id(list).map_values(|e: (BookmarkView, Seq<char>)| e.0));
    } else {
        assert(by_id(plain) =~= scoped_by_id(list).map_values(|e: (BookmarkView, Seq<char>)| e.0));
    }
}

/// The bookmarks a rig sees: the general ones and its own, where its own replace general ones with
/// the same id.
pub fn merge_for_rig(general: Vec<Bookmark>, rig: Vec<Bookmark>) -> (res: Vec<Bookmark>)
    ensures
        distinct_ids(res@),
        by_id(bookmark_views(res@)) == by_id(bookmark_views(general@) + bookmark_views(rig@)),
{
    let ghost gv = tagged(bookmark_views(general@), "general"@);
    let ghost rv = tagged(bookmark_views(rig@), ""@);
    let ghost plain = bookmark_views(general@) + bookmark_views(rig@);
    let scoped = merge_scoped(general, rig, "");
    let ghost sv = scoped_views(scoped@);
    let mut out: Vec<Bookmark> = Vec::new();
    for item in it: scoped
        invariant
            it.seq() == scoped@,
            out@.len() == it.index(),
            forall|j: int| 0 <= j < out@.len() ==> (#[trigger] out@[j]) == scoped@[j].bm,
    {
        out.push(item.bm);
    }
    proof {
        lemma_unscoped(sv);
        lemma_unscoped(gv + rv);
        assert(bookmark_views(out@) =~= sv.map_values(|e: (BookmarkView, Seq<char>)| e.0));
        assert(plain =~= (gv + rv).map_values(|e: (BookmarkView, Seq<char>)| e.0));
        assert forall|i: int, j: int| 0 <= i < j < out@.len() implies (#[trigger] out@[i]).id@ != (
        #[trigger] out@[j]).id@ by {
            assert(sv[i].0.id == out@[i].id@);
            assert(sv[j].0.id == out@[j].id@);
        }
    }
    out
}

// ---------------------------------------------------------------------------------------------
// The two tiers
// ---------------------------------------------------------------------------------------------

/// Which store a scope parameter names.
#[derive(Debug, PartialEq, Eq)]
pub enum BookmarkScope {
    General,
    Rig(String),
}

/// The scope a parameter names: the general one where it is absent, empty or `general`.
pub open spec fn scope_of(scope: Option<Seq<char>>) -> Option<Seq<char>> {
    match scope {
        Some(s) => if s.len() == 0 || s == "general"@ {
            None
        } else {
            Some(s)
        },
        None => None,
    }
}

impl View for BookmarkScope {
    type V = Option<Seq<char>>;

    open spec fn view(&self) -> Option<Seq<char>> {
        match self {
            BookmarkScope::General => None,
            BookmarkScope::Rig(r) => Some(r@),
        }
    }
}

/// Which store the scope parameter names.
pub fn resolve_bookmark_store(scope: &Option<String>) -> (res: BookmarkScope)
    ensures
        res@ == scope_of(opt_view(*scope)),
{
    match scope {
        Some(s) => {
            if s.as_str().is_empty() || str_eq(s.as_str(), "general") {
                BookmarkScope::General
            } else {
                BookmarkScope::Rig(s.clone())
            }
        },
        None => BookmarkScope::General,
    }
}

/// The general store and the stores of the rigs that have been opened.
#[derive(Debug)]
pub struct BookmarkStoreMap {
    pub general: BookmarkStore,
    pub rig_stores: Table<BookmarkStore>,
}

impl BookmarkStoreMap {
    /// Every store is well formed.
    pub open spec fn wf(&self) -> bool {
        &&& self.general.wf()
        &&& self.rig_stores.wf()
        &&& forall|i: int|
            0 <= i < self.rig_stores.entries@.len() ==> (
            #[trigger] self.rig_stores.entries@[i]).1.wf()
    }

    /// What the store of a scope holds; a rig whose store was never opened holds nothing.
    pub open spec fn store(&self, scope: Option<Seq<char>>) -> Map<Seq<char>, BookmarkView> {
        match scope {
            None => self.general@,
            Some(r) => if self.rig_stores@.contains_key(r) {
                self.rig_stores@[r]@
            } else {
                Map::empty()
            },
        }
    }

    /// No bookmark anywhere.
    pub fn new() -> (res: Self)
        ensures
            res.wf(),
            forall|s: Option<Seq<char>>| #[trigger] res.store(s) == Map::<
                Seq<char>,
                BookmarkView,
            >::empty(),
    {
        BookmarkStoreMap { general: BookmarkStore::new(), rig_stores: Table::new() }
    }

    /// The store all rigs share.
    pub fn general(&self) -> (res: &BookmarkStore)
        ensures
            *res == self.general,
    {
        &self.general
    }

    /// Whether the store of the rig has been opened.
    pub fn is_open(&self, remote: &str) -> (res: bool)
        requires
            self.wf(),
        ensures
            res == self.rig_stores@.contains_key(remote@),
    {
        self.rig_stores.contains_key(remote)
    }

    /// Keeps an opened store for the rig, unless it already has one.
    pub fn open_store(&mut self, remote: &str, store: BookmarkStore)
        requires
            old(self).wf(),
            store.wf(),
        ensures
            final(self).wf(),
            final(self).general == old(self).general,
            old(self).rig_stores@.contains_key(remote@) ==> final(self).rig_stores@ == old(self).rig_stores@,
            !old(self).rig_stores@.contains_key(remote@) ==> final(self).rig_stores@ == old(
                self,
            ).rig_stores@.insert(remote@, store),
    {
        if !self.rig_stores.contains_key(remote) {
            self.put_store(remote, store);
        }
    }

    fn put_store(&mut self, remote: &str, store: BookmarkStore)
        requires
            old(self).wf(),
            store.wf(),
        ensures
            final(self).wf(),
            final(self).general == old(self).general,
            final(self).rig_stores@ == old(self).rig_stores@.insert(remote@, store),
    {
        self.rig_stores.insert(remote, store);
        proof {
            let entries = self.rig_stores.entries@;
            let before = old(self).rig_stores.entries@;
            assert forall|i: int| 0 <= i < entries.len() implies (#[trigger] entries[i]).1.wf() by {
                lemma_entry(entries, i);
                let k = entries[i].0@;
                if k != remote@ {
                    assert(entries_map(before).contains_key(k));
                    lemma_entry(before, key_index(before, k));
                }
            }
        }
    }

    /// The bookmark with the id: the rig's own, or else the general one.
    pub open spec fn found_for_rig(&self, remote: Seq<char>, id: Seq<char>) -> Option<BookmarkView> {
        if self.store(Some(remote)).contains_key(id) {
            Some(self.store(Some(remote))[id])
        } else if self.store(None).contains_key(id) {
            Some(self.store(None)[id])
        } else {
            None
        }
    }

    /// The bookmark with the id: the rig's own, or else the general one.
    pub fn get_for_rig(&self, remote: &str, id: &str) -> (res: Option<Bookmark>)
        requires
            self.wf(),
        ensures
            (match res {
                Some(b) => Some(b@),
                None => None,
            }) == self.found_for_rig(remote@, id@),
    {
        match self.rig_stores.position(remote) {
            Some(i) => {
                assert(self.rig_stores.entries@[i as int].1.wf());
                match self.rig_stores.entries[i].1.get(id) {
                    Some(b) => Some(b),
                    None => self.general.get(id),
                }
            },
            None => self.general.get(id),
        }
    }

    /// The bookmarks of one scope.
    pub fn list_scope(&self, scope: &BookmarkScope) -> (res: Vec<Bookmark>)
        requires
            self.wf(),
        ensures
            bookmark_views(res@) == self.listed(scope@),
    {
        match scope {
            BookmarkScope::General => {
                let out = self.general.list();
                assert(bookmark_views(out@) =~= self.listed(scope@));
                out
            },
            BookmarkScope::Rig(remote) => {
                match self.rig_stores.get(remote.as_str()) {
                    Some(store) => {
                        let out = store.list();
                        assert(bookmark_views(out@) =~= self.listed(scope@));
                        out
                    },
                    None => {
                        let out: Vec<Bookmark> = Vec::new();
                        assert(bookmark_views(out@) =~= self.listed(scope@));
                        out
                    },
                }
            },
        }
    }

    /// The bookmarks of one scope, in the order in which they are kept.
    pub open spec fn listed(&self, scope: Option<Seq<char>>) -> Seq<BookmarkView> {
        match scope {
            None => self.general.items.entries@.map_values(|e: (String, Bookmark)| e.1@),
            Some(r) => if self.rig_stores@.contains_key(r) {
                self.rig_stores@[r].items.entries@.map_values(|e: (String, Bookmark)| e.1@)
            } else {
                Seq::empty()
            },
        }
    }

    /// The bookmarks a rig sees: the general ones and its own, where its own replace general ones
    /// with the same id.
    pub fn list_for_rig(&self, remote: &str) -> (res: Vec<Bookmark>)
        requires
            self.wf(),
        ensures
            distinct_ids(res@),
            by_id(bookmark_views(res@)) == by_id(self.listed(None) + self.listed(Some(remote@))),
    {
        let general = self.list_scope(&BookmarkScope::General);
        let rig = self.list_scope(&BookmarkScope::Rig(own(remote)));
        merge_for_rig(general, rig)
    }
}

// ---------------------------------------------------------------------------------------------
// Requests
// ---------------------------------------------------------------------------------------------

/// The filters of a bookmark list request.
#[derive(Debug)]
pub struct BookmarkQuery {
    pub category: Option<String>,
    pub scope: Option<String>,
}

/// The scope of a bookmark request.
#[derive(Debug)]
pub struct BookmarkScopeQuery {
    pub scope: Option<String>,
}

/// What a client sends to create or change a bookmark.
#[derive(Debug)]
pub struct BookmarkInput {
    pub name: String,
    pub freq_hz: u64,
    pub mode: String,
    pub bandwidth_hz: Option<u64>,
    pub locator: Option<String>,
    pub comment: Option<String>,
    pub category: Option<String>,
    pub decoders: Option<Vec<String>>,
}

/// Why a bookmark request was turned down.
#[derive(Clone, Copy, Debug, PartialEq, Eq, Structural)]
pub enum BookmarkError {
    /// Another bookmark of the store has the frequency.
    Conflict,
    /// No bookmark has the id.
    NotFound,
}

impl BookmarkError {
    /// The status code of the answer.
    pub fn status_code(&self) -> (res: u16)
        ensures
            res == (match self {
                BookmarkError::Conflict => 409u16,
                BookmarkError::NotFound => 404u16,
            }),
    {
        match self {
            BookmarkError::Conflict => 409,
            BookmarkError::NotFound => 404,
        }
    }

    /// The text sent to the client.
    pub fn message(&self) -> (res: String)
        ensures
            res@ == (match self {
                BookmarkError::Conflict => "a bookmark for that frequency already exists"@,
                BookmarkError::NotFound => "bookmark not found"@,
            }),
    {
        match self {
            BookmarkError::Conflict => own("a bookmark for that frequency already exists"),
            BookmarkError::NotFound => own("bookmark not found"),
        }
    }
}

/// A locator as it is stored: trimmed and in upper case, and absent where nothing is left.
pub open spec fn locator_of(locator: Option<Seq<char>>) -> Option<Seq<char>> {
    match locator {
        Some(s) => if uppercased(trimmed(s)).len() == 0 {
            None
        } else {
            Some(uppercased(trimmed(s)))
        },
        None => None,
    }
}

/// The locator as it is stored.
pub fn normalize_bookmark_locator(locator: Option<String>) -> (res: Option<String>)
    ensures
        opt_view(res) == locator_of(opt_view(locator)),
{
    match locator {
        Some(s) => {
            let t = trim(s.as_str());
            locator_from_upper(to_uppercase(t.as_str()))
        },
        None => None,
    }
}

/// The locator for an upper-case text: the text, unless it is empty.
pub fn locator_from_upper(upper: String) -> (res: Option<String>)
    ensures
        opt_view(res) == (if upper@.len() == 0 {
            None
        } else {
            Some(upper@)
        }),
{
    if upper.as_str().is_empty() {
        None
    } else {
        Some(upper)
    }
}

/// A fresh bookmark id: the hexadecimal form of sixteen random bytes.
pub fn gen_bookmark_id() -> (res: String)
    ensures
        exists|bytes: [u8; 16]| res@ == #[trigger] hex_text(bytes@),
        res@.len() == 32,
{
    new_token()
}

/// The text, or the empty text where it is absent.
pub open spec fn or_empty(o: Option<Seq<char>>) -> Seq<char> {
    match o {
        Some(s) => s,
        None => Seq::empty(),
    }
}

/// What a client's input says as a bookmark with the given id.
pub open spec fn bookmark_of(id: Seq<char>, input: BookmarkInput) -> BookmarkView {
    BookmarkView {
        id,
        name: input.name@,
        freq_hz: input.freq_hz,
        mode: input.mode@,
        bandwidth_hz: input.bandwidth_hz,
        locator: locator_of(opt_view(input.locator)),
        comment: or_empty(opt_view(input.comment)),
        category: or_empty(opt_view(input.category)),
        decoders: match input.decoders {
            Some(d) => list_view(d@),
            None => Seq::empty(),
        },
    }
}

fn text_or_empty(o: &Option<String>) -> (res: String)
    ensures
        res@ == or_empty(opt_view(*o)),
{
    match o {
        Some(s) => s.clone(),
        None => String::new(),
    }
}

/// The bookmark with the given id that a client's input describes.
pub fn build_bookmark(id: String, input: &BookmarkInput) -> (res: Bookmark)
    ensures
        res@ == bookmark_of(id@, *input),
        res.id@ == id@,
        res.name@ == input.name@,
        res.freq_hz == input.freq_hz,
        res.mode@ == input.mode@,
        res.bandwidth_hz == input.bandwidth_hz,
        res.comment@ == (if input.comment is Some {
            input.comment->0@
        } else {
            Seq::empty()
        }),
        res.category@ == (if input.category is Some {
            input.category->0@
        } else {
            Seq::empty()
        }),
        input.decoders is Some ==> list_view(res.decoders@) == list_view(input.decoders->0@),
        input.decoders is None ==> res.decoders@.len() == 0,
{
    let decoders = match &input.decoders {
        Some(d) => list_clone(d),
        None => Vec::new(),
    };
    proof {
        assert(input.decoders is None ==> list_view(decoders@) =~= Seq::<Seq<char>>::empty());
    }
    Bookmark {
        id,
        name: input.name.clone(),
        freq_hz: input.freq_hz,
        mode: input.mode.clone(),
        bandwidth_hz: input.bandwidth_hz,
        locator: normalize_bookmark_locator(opt_clone(&input.locator)),
        comment: text_or_empty(&input.comment),
        category: text_or_empty(&input.category),
        decoders,
    }
}

/// Whether a bookmark has every field that the client gave, and nothing in those it did not give.
pub open spec fn stores_input(b: BookmarkView, input: BookmarkInput) -> bool {
    &&& b.name == input.name@
    &&& b.freq_hz == input.freq_hz
    &&& b.mode == input.mode@
    &&& b.bandwidth_hz == input.bandwidth_hz
    &&& input.comment matches Some(c) ==> b.comment == c@
    &&& input.comment is None ==> b.comment.len() == 0
    &&& input.category matches Some(c) ==> b.category == c@
    &&& input.category is None ==> b.category.len() == 0
    &&& input.decoders matches Some(d) ==> b.decoders == list_view(d@)
    &&& input.decoders is None ==> b.decoders.len() == 0
    &&& input.locator is None ==> b.locator is None
}

/// Adds the bookmark of the input under a new id, unless its frequency is taken.
pub fn create_bookmark(store: &mut BookmarkStore, input: &BookmarkInput, id: String) -> (res: Result<
    Bookmark,
    BookmarkError,
>)
    requires
        old(store).wf(),
    ensures
        final(store).wf(),
        freq_taken_in(old(store).items.entries@, input.freq_hz, None) ==> res == Err::<
            Bookmark,
            BookmarkError,
        >(BookmarkError::Conflict) && *final(store) == *old(store),
        !freq_taken_in(old(store).items.entries@, input.freq_hz, None) ==> res is Ok && res->Ok_0@
            == bookmark_of(id@, *input) && final(store)@ == old(store)@.insert(
            id@,
            bookmark_of(id@, *input),
        ),
        res is Ok ==> final(store)@.contains_key(id@) && stores_input(final(store)@[id@], *input)
            && stores_input(res->Ok_0@, *input),
{
    if store.freq_taken(input.freq_hz, None) {
        return Err(BookmarkError::Conflict);
    }
    let bm = build_bookmark(id, input);
    store.insert(&bm);
    Ok(bm)
}

/// Replaces the bookmark under the id by that of the input, unless its frequency is taken by
/// another or there is none under the id.
pub fn update_bookmark(store: &mut BookmarkStore, id: &str, input: &BookmarkInput) -> (res: Result<
    Bookmark,
    BookmarkError,
>)
    requires
        old(store).wf(),
    ensures
        final(store).wf(),
        ({
            let taken = freq_taken_in(old(store).items.entries@, input.freq_hz, Some(id@));
            let there = old(store)@.contains_key(id@);
            &&& taken ==> res == Err::<Bookmark, BookmarkError>(BookmarkError::Conflict)
                && final(store)@ == old(store)@
            &&& !taken && !there ==> res == Err::<Bookmark, BookmarkError>(BookmarkError::NotFound)
                && final(store)@ == old(store)@
            &&& !taken && there ==> res is Ok && res->Ok_0@ == bookmark_of(id@, *input)
                && final(store)@ == old(store)@.insert(id@, bookmark_of(id@, *input))
        }),
        res is Ok ==> final(store)@.contains_key(id@) && stores_input(final(store)@[id@], *input)
            && stores_input(res->Ok_0@, *input),
{
    if store.freq_taken(input.freq_hz, Some(id)) {
        return Err(BookmarkError::Conflict);
    }
    let bm = build_bookmark(own(id), input);
    if store.upsert(id, &bm) {
        Ok(bm)
    } else {
        Err(BookmarkError::NotFound)
    }
}

/// Removes the bookmark under the id.
pub fn delete_bookmark(store: &mut BookmarkStore, id: &str) -> (res: Result<(), BookmarkError>)
    requires
        old(store).wf(),
    ensures
        final(store).wf(),
        res is Ok <==> old(store)@.contains_key(id@),
        res is Err ==> res->Err_0 == BookmarkError::NotFound,
        final(store)@ == old(store)@.remove(id@),
{
    if store.remove(id) {
        Ok(())
    } else {
        Err(BookmarkError::NotFound)
    }
}

/// What is left of a store after the removal of each id in turn.
pub open spec fn after_removals(
    store: Map<Seq<char>, BookmarkView>,
    ids: Seq<String>,
) -> Map<Seq<char>, BookmarkView>
    decreases ids.len(),
{
    if ids.len() == 0 {
        store
    } else {
        after_removals(store, ids.drop_last()).remove(ids.last()@)
    }
}

/// How many of the ids are found when each in turn is removed.
pub open spec fn removal_count(store: Map<Seq<char>, BookmarkView>, ids: Seq<String>) -> nat
    decreases ids.len(),
{
    if ids.len() == 0 {
        0
    } else {
        removal_count(store, ids.drop_last()) + if after_removals(
            store,
            ids.drop_last(),
        ).contains_key(ids.last()@) {
            1nat
        } else {
            0nat
        }
    }
}

/// Removes each id in turn and says how many were found.
pub fn batch_delete_bookmarks(store: &mut BookmarkStore, ids: &Vec<String>) -> (res: usize)
    requires
        old(store).wf(),
    ensures
        final(store).wf(),
        final(store)@ == after_removals(old(store)@, ids@),
        res == removal_count(old(store)@, ids@),
{
    let mut deleted: usize = 0;
    let mut i: usize = 0;
    while i < ids.len()
        invariant
            i <= ids@.len(),
            deleted <= i,
            store.wf(),
            store@ == after_removals(old(store)@, ids@.take(i as int)),
            deleted == removal_count(old(store)@, ids@.take(i as int)),
        decreases ids@.len() - i,
    {
        assert(ids@.take(i + 1).drop_last() =~= ids@.take(i as int));
        if store.remove(ids[i].as_str()) {
            deleted = deleted + 1;
        }
        i = i + 1;
    }
    assert(ids@.take(ids@.len() as int) =~= ids@);
    deleted
}

/// The two stores after each id in turn has been moved from one to the other.
pub open spec fn after_moves(
    from: Map<Seq<char>, BookmarkView>,
    to: Map<Seq<char>, BookmarkView>,
    ids: Seq<String>,
) -> (Map<Seq<char>, BookmarkView>, Map<Seq<char>, BookmarkView>)
    decreases ids.len(),
{
    if ids.len() == 0 {
        (from, to)
    } else {
        let (f, t) = after_moves(from, to, ids.drop_last());
        let id = ids.last()@;
        if f.contains_key(id) {
            (f.remove(id), t.insert(f[id].id, f[id]))
        } else {
            (f, t)
        }
    }
}

/// How many of the ids are found when each in turn is moved.
pub open spec fn move_count(
    from: Map<Seq<char>, BookmarkView>,
    to: Map<Seq<char>, BookmarkView>,
    ids: Seq<String>,
) -> nat
    decreases ids.len(),
{
    if ids.len() == 0 {
        0
    } else {
        move_count(from, to, ids.drop_last()) + if after_moves(
            from,
            to,
            ids.drop_last(),
        ).0.contains_key(ids.last()@) {
            1nat
        } else {
            0nat
        }
    }
}

/// Moves each id in turn from one store to another and says how many were found.
pub fn batch_move_bookmarks(
    from: &mut BookmarkStore,
    to: &mut BookmarkStore,
    ids: &Vec<String>,
) -> (res: usize)
    requires
        old(from).wf(),
        old(to).wf(),
    ensures
        final(from).wf(),
        final(to).wf(),
        (final(from)@, final(to)@) == after_moves(old(from)@, old(to)@, ids@),
        res == move_count(old(from)@, old(to)@, ids@),
{
    let mut moved: usize = 0;
    let mut i: usize = 0;
    while i < ids.len()
        invariant
            i <= ids@.len(),
            moved <= i,
            from.wf(),
            to.wf(),
            (from@, to@) == after_moves(old(from)@, old(to)@, ids@.take(i as int)),
            moved == move_count(old(from)@, old(to)@, ids@.take(i as int)),
        decreases ids@.len() - i,
    {
        assert(ids@.take(i + 1).drop_last() =~= ids@.take(i as int));
        match from.get(ids[i].as_str()) {
            Some(bm) => {
                to.insert(&bm);
                let _ = from.remove(ids[i].as_str());
                moved = moved + 1;
            },
            None => {},
        }
        i = i + 1;
    }
    assert(ids@.take(ids@.len() as int) =~= ids@);
    moved
}

/// Moves each id in turn within one store: every bookmark found is stored under its own id and
/// then removed from where it was.
pub fn batch_move_within(store: &mut BookmarkStore, ids: &Vec<String>) -> (res: usize)
    requires
        old(store).wf(),
    ensures
        final(store).wf(),
        final(store)@ == after_moves_within(old(store)@, ids@).0,
        res == after_moves_within(old(store)@, ids@).1,
{
    let mut moved: usize = 0;
    let mut i: usize = 0;
    while i < ids.len()
        invariant
            i <= ids@.len(),
            moved <= i,
            store.wf(),
            store@ == after_moves_within(old(store)@, ids@.take(i as int)).0,
            moved == after_moves_within(old(store)@, ids@.take(i as int)).1,
        decreases ids@.len() - i,
    {
        assert(ids@.take(i + 1).drop_last() =~= ids@.take(i as int));
        match store.get(ids[i].as_str()) {
            Some(bm) => {
                store.insert(&bm);
                let _ = store.remove(ids[i].as_str());
                moved = moved + 1;
            },
            None => {},
        }
        i = i + 1;
    }
    assert(ids@.take(ids@.len() as int) =~= ids@);
    moved
}

/// A store after each id in turn has been moved within it, and how many were found.
pub open spec fn after_moves_within(
    store: Map<Seq<char>, BookmarkView>,
    ids: Seq<String>,
) -> (Map<Seq<char>, BookmarkView>, nat)
    decreases ids.len(),
{
    if ids.len() == 0 {
        (store, 0)
    } else {
        let (s, n) = after_moves_within(store, ids.drop_last());
        let id = ids.last()@;
        if s.contains_key(id) {
            (s.insert(s[id].id, s[id]).remove(id), n + 1)
        } else {
            (s, n)
        }
    }
}

/// A bookmark that was stored is found under its id, as it was stored, until a bookmark with that
/// id is stored or removed.
pub proof fn stored_bookmark_is_found(
    store: Map<Seq<char>, BookmarkView>,
    bm: BookmarkView,
    other: BookmarkView,
)
    requires
        other.id != bm.id,
    ensures
        store.insert(bm.id, bm).contains_key(bm.id),
        store.insert(bm.id, bm)[bm.id] == bm,
        store.insert(bm.id, bm).insert(other.id, other)[bm.id] == bm,
        store.insert(bm.id, bm).remove(other.id).contains_key(bm.id),
        store.insert(bm.id, bm).remove(other.id)[bm.id] == bm,
        !store.insert(bm.id, bm).remove(bm.id).contains_key(bm.id),
{
}

/// Whether an id is among the ids of a list, by its last one.
proof fn lemma_list_has_last(ids: Seq<String>, id: Seq<char>)
    requires
        ids.len() > 0,
    ensures
        list_view(ids).contains(id) <==> list_view(ids.drop_last()).contains(id) || ids.last()@ == id,
{
    let all = list_view(ids);
    let init = list_view(ids.drop_last());
    assert(all =~= init.push(ids.last()@));
    if init.contains(id) {
        let i = choose|i: int| 0 <= i < init.len() && init[i] == id;
        assert(all[i] == id);
    }
    if ids.last()@ == id {
        assert(all[all.len() - 1] == id);
    }
    if all.contains(id) && ids.last()@ != id {
        let i = choose|i: int| 0 <= i < all.len() && all[i] == id;
        assert(init[i] == id);
    }
}

/// The removal of some ids takes exactly the bookmarks under these ids, and leaves the others as
/// they are.
pub proof fn removals_take_exactly(
    store: Map<Seq<char>, BookmarkView>,
    ids: Seq<String>,
    id: Seq<char>,
)
    ensures
        after_removals(store, ids).contains_key(id) <==> store.contains_key(id) && !list_view(
            ids,
        ).contains(id),
        after_removals(store, ids).contains_key(id) ==> after_removals(store, ids)[id] == store[id],
    decreases ids.len(),
{
    if ids.len() > 0 {
        removals_take_exactly(store, ids.drop_last(), id);
        lemma_list_has_last(ids, id);
    }
}

/// A move loses no bookmark: each one of the first store is afterwards in the second where its id
/// was named, and in the first otherwise, as it was.
pub proof fn moves_lose_nothing(
    from: Map<Seq<char>, BookmarkView>,
    to: Map<Seq<char>, BookmarkView>,
    ids: Seq<String>,
    id: Seq<char>,
)
    requires
        forall|k: Seq<char>| #[trigger] from.contains_key(k) ==> from[k].id == k,
        from.contains_key(id),
    ensures
        ({
            let (f, t) = after_moves(from, to, ids);
            if list_view(ids).contains(id) {
                !f.contains_key(id) && t.contains_key(id) && t[id] == from[id]
            } else {
                f.contains_key(id) && f[id] == from[id]
            }
        }),
    decreases ids.len(),
{
    if ids.len() > 0 {
        let rest = ids.drop_last();
        let last = ids.last()@;
        moves_lose_nothing(from, to, rest, id);
        lemma_moves_only_take(from, to, rest, last);
        lemma_list_has_last(ids, id);
    }
}

/// What a move leaves in the first store was there before, as it is.
proof fn lemma_moves_only_take(
    from: Map<Seq<char>, BookmarkView>,
    to: Map<Seq<char>, BookmarkView>,
    ids: Seq<String>,
    id: Seq<char>,
)
    ensures
        after_moves(from, to, ids).0.contains_key(id) ==> from.contains_key(id) && after_moves(
            from,
            to,
            ids,
        ).0[id] == from[id],
    decreases ids.len(),
{
    if ids.len() > 0 {
        lemma_moves_only_take(from, to, ids.drop_last(), id);
    }
}

// ---------------------------------------------------------------------------------------------
// Listing
// ---------------------------------------------------------------------------------------------

/// Whether a bookmark passes the category filter: there is none, or it is empty, or it is the
/// bookmark's category up to case.
pub open spec fn category_matches(filter: Option<Seq<char>>, category: Seq<char>) -> bool {
    match filter {
        Some(f) => f.len() == 0 || lowercased(category) == lowercased(f),
        None => true,
    }
}

/// The scoped bookmarks that pass the category filter.
pub open spec fn in_category(
    all: Seq<(BookmarkView, Seq<char>)>,
    filter: Option<Seq<char>>,
) -> Seq<(BookmarkView, Seq<char>)> {
    all.filter(|e: (BookmarkView, Seq<char>)| category_matches(filter, e.0.category))
}

/// The frequencies of scoped bookmarks.
pub open spec fn freqs_of(list: Seq<(BookmarkView, Seq<char>)>) -> Seq<u64> {
    list.map_values(|e: (BookmarkView, Seq<char>)| e.0.freq_hz)
}

/// Whether `res` is the list sorted by frequency, with bookmarks of one frequency in their order.
pub open spec fn sorted_by_freq(
    list: Seq<(BookmarkView, Seq<char>)>,
    res: Seq<(BookmarkView, Seq<char>)>,
) -> bool {
    exists|ord: Seq<usize>|
        #![trigger is_stable_order(number_less(freqs_of(list)), list.len() as int, ord)]
        is_stable_order(number_less(freqs_of(list)), list.len() as int, ord) && res == Seq::new(
            list.len(),
            |i: int| list[ord[i] as int],
        )
}

/// Whether `all` is what a list request collects before it filters and sorts: the general
/// bookmarks, with those of the rig on top where the scope names one.
pub open spec fn collected(
    stores: BookmarkStoreMap,
    scope: Option<Seq<char>>,
    all: Seq<(BookmarkView, Seq<char>)>,
) -> bool {
    match scope {
        None => all == tagged(stores.listed(None), "general"@),
        Some(r) => distinct_scoped_ids(all) && scoped_by_id(all) == scoped_by_id(
            tagged(stores.listed(None), "general"@) + tagged(stores.listed(Some(r)), r),
        ),
    }
}

/// Whether `res` answers a list request.
pub open spec fn is_listing(
    stores: BookmarkStoreMap,
    query: BookmarkQuery,
    res: Seq<(BookmarkView, Seq<char>)>,
) -> bool {
    exists|all: Seq<(BookmarkView, Seq<char>)>| #[trigger]
        collected(stores, scope_of(opt_view(query.scope)), all) && sorted_by_freq(
            in_category(all, opt_view(query.category)),
            res,
        )
}

/// Keeps the bookmarks whose lower-case category, given beside them, is the wanted one.
pub fn keep_category(
    list: Vec<BookmarkWithScope>,
    lower: &Vec<String>,
    wanted: &str,
) -> (res: Vec<BookmarkWithScope>)
    requires
        lower@.len() == list@.len(),
    ensures
        scoped_views(res@) == kept_by(scoped_views(list@), list_view(lower@), wanted@),
{
    let ghost views = scoped_views(list@);
    let ghost names = list_view(lower@);
    let mut out: Vec<BookmarkWithScope> = Vec::new();
    assert(scoped_views(out@) =~= kept_by(views.take(0), names.take(0), wanted@));
    let n: usize = list.len();
    let mut i: usize = 0;
    for item in it: list
        invariant
            it.seq() == list@,
            i == it.index(),
            n == list@.len(),
            views == scoped_views(list@),
            names == list_view(lower@),
            lower@.len() == list@.len(),
            scoped_views(out@) == kept_by(views.take(i as int), names.take(i as int), wanted@),
    {
        proof {
            assert(views.take(i + 1).drop_last() =~= views.take(i as int));
            assert(names.take(i + 1).drop_last() =~= names.take(i as int));
            assert(views.take(i + 1).last() == (item.bm@, item.scope@));
            assert(names.take(i + 1).last() == lower@[i as int]@);
        }
        if str_eq(lower[i].as_str(), wanted) {
            let ghost before = scoped_views(out@);
            let ghost x = (item.bm@, item.scope@);
            out.push(item);
            assert(scoped_views(out@) =~= before.push(x));
        }
        i = i + 1;
    }
    assert(views.take(views.len() as int) =~= views);
    assert(names.take(names.len() as int) =~= names);
    out
}

/// The bookmarks of a list whose name beside them is the wanted one.
pub open spec fn kept_by(
    list: Seq<(BookmarkView, Seq<char>)>,
    names: Seq<Seq<char>>,
    wanted: Seq<char>,
) -> Seq<(BookmarkView, Seq<char>)>
    decreases list.len(),
{
    if list.len() == 0 {
        Seq::empty()
    } else {
        let rest = kept_by(list.drop_last(), names.drop_last(), wanted);
        if names.last() == wanted {
            rest.push(list.last())
        } else {
            rest
        }
    }
}

proof fn lemma_kept_is_category(
    list: Seq<(BookmarkView, Seq<char>)>,
    names: Seq<Seq<char>>,
    wanted: Seq<char>,
)
    requires
        names.len() == list.len(),
        wanted.len() > 0,
        forall|i: int| 0 <= i < names.len() ==> #[trigger] names[i] == lowercased(list[i].0.category),
    ensures
        kept_by(list, names, lowercased(wanted)) == in_category(list, Some(wanted)),
    decreases list.len(),
{
    reveal(Seq::filter);
    if list.len() > 0 {
        lemma_kept_is_category(list.drop_last(), names.drop_last(), wanted);
        assert(names[names.len() - 1] == names.last());
    }
}

fn lower_categories(list: &Vec<BookmarkWithScope>) -> (res: Vec<String>)
    ensures
        res@.len() == list@.len(),
        forall|i: int|
            0 <= i < res@.len() ==> (#[trigger] res@[i])@ == lowercased(list@[i].bm.category@),
{
    let mut out: Vec<String> = Vec::new();
    let mut i: usize = 0;
    while i < list.len()
        invariant
            i <= list@.len(),
            out@.len() == i,
            forall|j: int| 0 <= j < i ==> (#[trigger] out@[j])@ == lowercased(list@[j].bm.category@),
        decreases list@.len() - i,
    {
        out.push(to_lowercase(list[i].bm.category.as_str()));
        i = i + 1;
    }
    out
}

/// Sorts scoped bookmarks by frequency, keeping the order of those with one frequency.
pub fn sort_by_freq(list: Vec<BookmarkWithScope>) -> (res: Vec<BookmarkWithScope>)
    ensures
        sorted_by_freq(scoped_views(list@), scoped_views(res@)),
{
    let mut keys: Vec<u64> = Vec::new();
    let mut i: usize = 0;
    while i < list.len()
        invariant
            i <= list@.len(),
            keys@.len() == i,
            forall|j: int| 0 <= j < i ==> #[trigger] keys@[j] == list@[j].bm.freq_hz,
        decreases list@.len() - i,
    {
        keys.push(list[i].bm.freq_hz);
        i = i + 1;
    }
    let ord = order_by_number(&keys);
    let ghost views = scoped_views(list@);
    assert(keys@ =~= freqs_of(views));
    let mut out: Vec<BookmarkWithScope> = Vec::new();
    let mut k: usize = 0;
    while k < ord.len()
        invariant
            k <= ord@.len(),
            ord@.len() == list@.len(),
            is_stable_order(number_less(keys@), list@.len() as int, ord@),
            views == scoped_views(list@),
            out@.len() == k,
            forall|j: int|
                0 <= j < k ==> ((#[trigger] out@[j]).bm@, out@[j].scope@) == views[ord@[j] as int],
        decreases ord@.len() - k,
    {
        let at: usize = ord[k];
        out.push(BookmarkWithScope { bm: list[at].bm.clone(), scope: list[at].scope.clone() });
        k = k + 1;
    }
    proof {
        let n = views.len() as int;
        assert(is_stable_order(number_less(freqs_of(views)), n, ord@));
        assert(scoped_views(out@) =~= Seq::new(views.len(), |i: int| views[ord@[i] as int]));
    }
    out
}

fn tag_general(list: Vec<Bookmark>) -> (res: Vec<BookmarkWithScope>)
    ensures
        scoped_views(res@) == tagged(bookmark_views(list@), "general"@),
{
    let mut out: Vec<BookmarkWithScope> = Vec::new();
    for bm in it: list
        invariant
            it.seq() == list@,
            out@.len() == it.index(),
            forall|j: int|
                0 <= j < out@.len() ==> (#[trigger] out@[j]).bm@ == list@[j]@ && out@[j].scope@
                    == "general"@,
    {
        out.push(BookmarkWithScope { bm, scope: own("general") });
    }
    assert(scoped_views(out@) =~= tagged(bookmark_views(list@), "general"@));
    out
}

impl BookmarkStoreMap {
    /// The answer to a list request: the bookmarks of the scope in ascending order of frequency,
    /// those of other categories left out.
    pub fn list_bookmarks(&self, query: &BookmarkQuery) -> (res: Vec<BookmarkWithScope>)
        requires
            self.wf(),
        ensures
            is_listing(*self, *query, scoped_views(res@)),
    {
        let general = self.list_scope(&BookmarkScope::General);
        let scope = resolve_bookmark_store(&query.scope);
        let all = match &scope {
            BookmarkScope::General => tag_general(general),
            BookmarkScope::Rig(remote) => {
                let rig = self.list_scope(&scope);
                merge_scoped(general, rig, remote.as_str())
            },
        };
        let ghost all_views = scoped_views(all@);
        assert(collected(*self, scope_of(opt_view(query.scope)), all_views));
        let kept = match &query.category {
            Some(cat) => {
                if cat.as_str().is_empty() {
                    proof {
                        lemma_no_filter(all_views, opt_view(query.category));
                    }
                    all
                } else {
                    let lower = lower_categories(&all);
                    let wanted = to_lowercase(cat.as_str());
                    proof {
                        assert forall|i: int| 0 <= i < lower@.len() implies #[trigger] list_view(
                            lower@,
                        )[i] == lowercased(all_views[i].0.category) by {
                            assert(lower@[i]@ == lowercased(all@[i].bm.category@));
                        }
                        lemma_kept_is_category(all_views, list_view(lower@), cat@);
                    }
                    keep_category(all, &lower, wanted.as_str())
                }
            },
            None => {
                proof {
                    lemma_no_filter(all_views, opt_view(query.category));
                }
                all
            },
        };
        assert(scoped_views(kept@) == in_category(all_views, opt_view(query.category)));
        sort_by_freq(kept)
    }
}

proof fn lemma_no_filter(all: Seq<(BookmarkView, Seq<char>)>, filter: Option<Seq<char>>)
    requires
        filter is Some ==> filter->0.len() == 0,
    ensures
        in_category(all, filter) == all,
    decreases all.len(),
{
    reveal(Seq::filter);
    if all.len() > 0 {
        lemma_no_filter(all.drop_last(), filter);
        assert(all.drop_last().push(all.last()) =~= all);
    } else {
        assert(in_category(all, filter) =~= all);
    }
}

/// A listing is in ascending order of frequency.
pub proof fn listing_is_sorted(
    stores: BookmarkStoreMap,
    query: BookmarkQuery,
    res: Seq<(BookmarkView, Seq<char>)>,
)
    requires
        is_listing(stores, query, res),
    ensures
        forall|i: int, j: int|
            0 <= i < j < res.len() ==> (#[trigger] res[i]).0.freq_hz <= (#[trigger] res[j]).0.freq_hz,
{
    let all = choose|all: Seq<(BookmarkView, Seq<char>)>| #[trigger]
        collected(stores, scope_of(opt_view(query.scope)), all) && sorted_by_freq(
            in_category(all, opt_view(query.category)),
            res,
        );
    let list = in_category(all, opt_view(query.category));
    let ord = choose|ord: Seq<usize>|
        #![trigger is_stable_order(number_less(freqs_of(list)), list.len() as int, ord)]
        is_stable_order(number_less(freqs_of(list)), list.len() as int, ord) && res == Seq::new(
            list.len(),
            |i: int| list[ord[i] as int],
        );
    assert forall|i: int, j: int| 0 <= i < j < res.len() implies (#[trigger] res[i]).0.freq_hz <= (
    #[trigger] res[j]).0.freq_hz by {
        let (a, b) = (ord[i] as int, ord[j] as int);
        assert(crate::order::goes_before(number_less(freqs_of(list)), a, b));
        assert(freqs_of(list)[a] == list[a].0.freq_hz && freqs_of(list)[b] == list[b].0.freq_hz);
    }
}

// ---------------------------------------------------------------------------------------------
// One frequency, one bookmark
// ---------------------------------------------------------------------------------------------

/// No two bookmarks of a store have one frequency.
pub open spec fn unique_freqs(store: Map<Seq<char>, BookmarkView>) -> bool {
    forall|a: Seq<char>, b: Seq<char>|
        #![trigger store[a], store[b]]
        store.contains_key(a) && store.contains_key(b) && a != b ==> store[a].freq_hz
            != store[b].freq_hz
}

/// Every bookmark stands under its own id.
pub open spec fn keyed_by_id(store: Map<Seq<char>, BookmarkView>) -> bool {
    forall|k: Seq<char>| store.contains_key(k) ==> (#[trigger] store[k]).id == k
}

/// A store in which no two bookmarks have one frequency stays so when a bookmark is created whose
/// frequency is not taken.
pub proof fn create_keeps_freqs_unique(store: BookmarkStore, id: Seq<char>, bm: BookmarkView)
    requires
        store.wf(),
        unique_freqs(store@),
        !freq_taken_in(store.items.entries@, bm.freq_hz, None),
    ensures
        unique_freqs(store@.insert(id, bm)),
{
    lemma_not_taken(store, bm.freq_hz, None);
}

/// A store in which no two bookmarks have one frequency stays so when a bookmark is changed to a
/// frequency that no other bookmark has.
pub proof fn update_keeps_freqs_unique(store: BookmarkStore, id: Seq<char>, bm: BookmarkView)
    requires
        store.wf(),
        unique_freqs(store@),
        keyed_by_id(store@),
        bm.id == id,
        !freq_taken_in(store.items.entries@, bm.freq_hz, Some(id)),
    ensures
        unique_freqs(store@.insert(id, bm)),
        keyed_by_id(store@.insert(id, bm)),
{
    lemma_not_taken(store, bm.freq_hz, Some(id));
}

proof fn lemma_not_taken(store: BookmarkStore, freq_hz: u64, exclude: Option<Seq<char>>)
    requires
        store.wf(),
        !freq_taken_in(store.items.entries@, freq_hz, exclude),
    ensures
        forall|k: Seq<char>|
            store@.contains_key(k) && exclude != Some((#[trigger] store@[k]).id)
                ==> store@[k].freq_hz != freq_hz,
{
    let entries = store.items.entries@;
    assert forall|k: Seq<char>|
        store@.contains_key(k) && exclude != Some((#[trigger] store@[k]).id) implies store@[k].freq_hz
        != freq_hz by {
        let i = key_index(entries, k);
        assert(entries_map(entries).contains_key(k));
        lemma_entry(entries, i);
        assert(entries[i].1@ == store@[k]);
        assert(entries[i].1.freq_hz == store@[k].freq_hz);
    }
}

/// A bookmark that the rig has itself hides the general one with the same id.
pub proof fn rig_bookmark_wins(general: Seq<BookmarkView>, rig: Seq<BookmarkView>, id: Seq<char>)
    ensures
        by_id(rig).contains_key(id) ==> by_id(general + rig).contains_key(id) && by_id(
            general + rig,
        )[id] == by_id(rig)[id],
        !by_id(rig).contains_key(id) ==> (by_id(general + rig).contains_key(id) <==> by_id(
            general,
        ).contains_key(id)),
        !by_id(rig).contains_key(id) && by_id(general).contains_key(id) ==> by_id(general + rig)[id]
            == by_id(general)[id],
    decreases rig.len(),
{
    if rig.len() > 0 {
        rig_bookmark_wins(general, rig.drop_last(), id);
        assert((general + rig).drop_last() =~= general + rig.drop_last());
    } else {
        assert(general + rig =~= general);
    }
}

// ---------------------------------------------------------------------------------------------
// What is stored and listed
// ---------------------------------------------------------------------------------------------

/// A bookmark that is created or changed has each field as the client gave it: name, frequency, mode
/// and bandwidth, and comment, category and decoders, which are empty where the client gave none. Its
/// locator is in capital letters without white space around it, and absent where nothing is left.
pub proof fn bookmarks_keep_what_the_client_gave(id: Seq<char>, input: BookmarkInput)
    ensures
        ({
            let b = bookmark_of(id, input);
            &&& b.id == id
            &&& b.name == input.name@
            &&& b.freq_hz == input.freq_hz
            &&& b.mode == input.mode@
            &&& b.bandwidth_hz == input.bandwidth_hz
            &&& input.comment is Some ==> b.comment == input.comment->0@
            &&& input.comment is None ==> b.comment.len() == 0
            &&& input.category is Some ==> b.category == input.category->0@
            &&& input.category is None ==> b.category.len() == 0
            &&& input.decoders is Some ==> b.decoders.len() == input.decoders->0@.len() && (
            forall|i: int|
                0 <= i < b.decoders.len() ==> #[trigger] b.decoders[i] == input.decoders->0@[i]@)
            &&& input.decoders is None ==> b.decoders.len() == 0
            &&& input.locator is None ==> b.locator is None
            &&& input.locator is Some && uppercased(trimmed(input.locator->0@)).len() > 0
                ==> b.locator == Some(uppercased(trimmed(input.locator->0@)))
            &&& input.locator is Some && uppercased(trimmed(input.locator->0@)).len() == 0
                ==> b.locator is None
        }),
{
}

/// What a bookmark is told by is all of its fields.
pub proof fn bookmarks_in_full(b: Bookmark)
    ensures
        b@.id == b.id@,
        b@.name == b.name@,
        b@.freq_hz == b.freq_hz,
        b@.mode == b.mode@,
        b@.bandwidth_hz == b.bandwidth_hz,
        b.locator is None <==> b@.locator is None,
        b.locator matches Some(l) ==> b@.locator == Some(l@),
        b@.comment == b.comment@,
        b@.category == b.category@,
        b@.decoders.len() == b.decoders@.len(),
        forall|i: int| 0 <= i < b.decoders@.len() ==> #[trigger] b@.decoders[i] == b.decoders@[i]@,
{
}

/// A frequency is taken where some bookmark of the store has it, other than the one that is looked
/// away from.
pub proof fn frequencies_that_are_taken(
    store: BookmarkStore,
    freq_hz: u64,
    exclude: Option<Seq<char>>,
    k: Seq<char>,
)
    requires
        store.wf(),
        store@.contains_key(k),
        store@[k].freq_hz == freq_hz,
        exclude != Some(store@[k].id),
    ensures
        freq_taken_in(store.items.entries@, freq_hz, exclude),
{
    let entries = store.items.entries@;
    let i = key_index(entries, k);
    assert(entries_map(entries).contains_key(k));
    lemma_entry(entries, i);
    assert(entries[i].1@ == store@[k]);
    assert(entries[i].1.freq_hz == freq_hz);
}

/// A frequency that no bookmark of the store has is free, and so is one that only the bookmark has
/// that is looked away from.
pub proof fn frequencies_that_are_free(
    store: BookmarkStore,
    freq_hz: u64,
    exclude: Option<Seq<char>>,
)
    requires
        store.wf(),
        forall|k: Seq<char>|
            store@.contains_key(k) && (#[trigger] store@[k]).freq_hz == freq_hz ==> exclude == Some(
                store@[k].id,
            ),
    ensures
        !freq_taken_in(store.items.entries@, freq_hz, exclude),
{
    let entries = store.items.entries@;
    if freq_taken_in(entries, freq_hz, exclude) {
        let i = choose|i: int|
            0 <= i < entries.len() && (#[trigger] entries[i]).1.freq_hz == freq_hz && exclude
                != Some(entries[i].1.id@);
        lemma_entry(entries, i);
        assert(store@[entries[i].0@] == entries[i].1@);
    }
}

/// Of several bookmarks with one id the last one counts.
pub proof fn last_of_an_id_counts(list: Seq<BookmarkView>, i: int)
    requires
        0 <= i < list.len(),
        forall|j: int| i < j < list.len() ==> (#[trigger] list[j]).id != list[i].id,
    ensures
        by_id(list).contains_key(list[i].id),
        by_id(list)[list[i].id] == list[i],
    decreases list.len(),
{
    if i < list.len() - 1 {
        let front = list.drop_last();
        assert(front[i] == list[i]);
        assert forall|j: int| i < j < front.len() implies (#[trigger] front[j]).id != front[i].id by {
            assert(front[j] == list[j]);
        }
        assert(list[list.len() - 1].id != list[i].id);
        last_of_an_id_counts(front, i);
    }
}

/// Nothing is found by an id that no bookmark has.
pub proof fn unknown_ids_find_nothing(list: Seq<BookmarkView>, id: Seq<char>)
    requires
        forall|j: int| 0 <= j < list.len() ==> (#[trigger] list[j]).id != id,
    ensures
        !by_id(list).contains_key(id),
    decreases list.len(),
{
    if list.len() > 0 {
        let front = list.drop_last();
        assert forall|j: int| 0 <= j < front.len() implies (#[trigger] front[j]).id != id by {
            assert(front[j] == list[j]);
        }
        assert(list[list.len() - 1].id != id);
        unknown_ids_find_nothing(front, id);
    }
}

/// A rig finds a bookmark among its own first, then among the general ones, and nowhere else.
pub proof fn rigs_find_their_own_first(stores: BookmarkStoreMap, remote: Seq<char>, id: Seq<char>)
    ensures
        stores.rig_stores@.contains_key(remote) && stores.rig_stores@[remote]@.contains_key(id)
            ==> stores.found_for_rig(remote, id) == Some(stores.rig_stores@[remote]@[id]),
        !(stores.rig_stores@.contains_key(remote) && stores.rig_stores@[remote]@.contains_key(id))
            && stores.general@.contains_key(id) ==> stores.found_for_rig(remote, id) == Some(
            stores.general@[id],
        ),
        !(stores.rig_stores@.contains_key(remote) && stores.rig_stores@[remote]@.contains_key(id))
            && !stores.general@.contains_key(id) ==> stores.found_for_rig(remote, id) is None,
{
}

/// A request is for the general bookmarks where it names no scope, an empty one or `general`, and else
/// for those of the rig that it names.
pub proof fn scopes_of_requests(scope: Option<Seq<char>>)
    ensures
        scope is None ==> scope_of(scope) is None,
        scope == Some("general"@) ==> scope_of(scope) is None,
        scope matches Some(s) ==> (s.len() == 0 ==> scope_of(scope) is None) && (s.len() > 0 && s
            != "general"@ ==> scope_of(scope) == Some(s)),
{
}

/// What is listed of a scope is every bookmark of its store, in the order of the store.
pub proof fn listings_have_every_bookmark(stores: BookmarkStoreMap, remote: Seq<char>, i: int)
    ensures
        stores.listed(None).len() == stores.general.items.entries@.len(),
        0 <= i < stores.general.items.entries@.len() ==> stores.listed(None)[i]
            == stores.general.items.entries@[i].1@,
        !stores.rig_stores@.contains_key(remote) ==> stores.listed(Some(remote)).len() == 0,
        stores.rig_stores@.contains_key(remote) ==> stores.listed(Some(remote)).len()
            == stores.rig_stores@[remote].items.entries@.len() && (0 <= i < stores.listed(
            Some(remote),
        ).len() ==> stores.listed(Some(remote))[i] == stores.rig_stores@[remote].items.entries@[i].1@),
{
}

/// As many bookmarks are said to be removed as there are fewer afterwards.
pub proof fn removals_are_counted(store: Map<Seq<char>, BookmarkView>, ids: Seq<String>)
    requires
        store.dom().finite(),
    ensures
        after_removals(store, ids).dom().finite(),
        after_removals(store, ids).dom().len() + removal_count(store, ids) == store.dom().len(),
    decreases ids.len(),
{
    if ids.len() > 0 {
        removals_are_counted(store, ids.drop_last());
        let before = after_removals(store, ids.drop_last());
        assert(after_removals(store, ids).dom() =~= before.dom().remove(ids.last()@));
    }
}

/// As many bookmarks are said to be moved as there are fewer afterwards where they came from.
pub proof fn moves_are_counted(
    from: Map<Seq<char>, BookmarkView>,
    to: Map<Seq<char>, BookmarkView>,
    ids: Seq<String>,
)
    requires
        from.dom().finite(),
    ensures
        after_moves(from, to, ids).0.dom().finite(),
        after_moves(from, to, ids).0.dom().len() + move_count(from, to, ids) == from.dom().len(),
    decreases ids.len(),
{
    if ids.len() > 0 {
        moves_are_counted(from, to, ids.drop_last());
        let before = after_moves(from, to, ids.drop_last()).0;
        let after = after_moves(from, to, ids).0;
        assert(after.dom() =~= before.dom().remove(ids.last()@));
    }
}

/// What a move does not take along stays where it was: in the first store what is not named, in the
/// second what no bookmark that is moved replaces.
pub proof fn moves_touch_nothing_else(
    from: Map<Seq<char>, BookmarkView>,
    to: Map<Seq<char>, BookmarkView>,
    ids: Seq<String>,
    id: Seq<char>,
)
    requires
        forall|k: Seq<char>| #[trigger] from.contains_key(k) ==> from[k].id == k,
        !list_view(ids).contains(id) || !from.contains_key(id),
    ensures
        after_moves(from, to, ids).1.contains_key(id) <==> to.contains_key(id),
        to.contains_key(id) ==> after_moves(from, to, ids).1[id] == to[id],
        after_moves(from, to, ids).0.contains_key(id) <==> from.contains_key(id),
    decreases ids.len(),
{
    if ids.len() > 0 {
        let rest = ids.drop_last();
        lemma_list_has_last(ids, id);
        moves_touch_nothing_else(from, to, rest, id);
        lemma_moves_only_take(from, to, rest, ids.last()@);
    }
}

/// Moving bookmarks within one scope takes out those that are named, counts them, and leaves the rest.
pub proof fn moves_within_a_scope(store: Map<Seq<char>, BookmarkView>, ids: Seq<String>, id: Seq<char>)
    requires
        forall|k: Seq<char>| #[trigger] store.contains_key(k) ==> store[k].id == k,
    ensures
        after_moves_within(store, ids).0.contains_key(id) <==> store.contains_key(id) && !list_view(
            ids,
        ).contains(id),
        after_moves_within(store, ids).0.contains_key(id) ==> after_moves_within(store, ids).0[id]
            == store[id],
        store.dom().finite() ==> after_moves_within(store, ids).0.dom().finite()
            && after_moves_within(store, ids).0.dom().len() + after_moves_within(store, ids).1
            == store.dom().len(),
    decreases ids.len(),
{
    if ids.len() > 0 {
        let rest = ids.drop_last();
        let last = ids.last()@;
        moves_within_a_scope(store, rest, id);
        moves_within_a_scope(store, rest, last);
        lemma_list_has_last(ids, id);
        let before = after_moves_within(store, rest).0;
        let after = after_moves_within(store, ids).0;
        if before.contains_key(last) {
            assert(after.dom() =~= before.dom().remove(last));
        }
    }
}

/// A bookmark passes where no category is asked for, or its own up to case, and else not.
pub proof fn categories_are_compared_without_case(filter: Option<Seq<char>>, category: Seq<char>)
    ensures
        filter is None ==> category_matches(filter, category),
        filter matches Some(f) ==> {
            &&& f.len() == 0 ==> category_matches(filter, category)
            &&& f.len() > 0 ==> (category_matches(filter, category) <==> lowercased(category)
                == lowercased(f))
        },
{
}

proof fn lemma_listing_source(
    stores: BookmarkStoreMap,
    query: BookmarkQuery,
    res: Seq<(BookmarkView, Seq<char>)>,
) -> (all: Seq<(BookmarkView, Seq<char>)>)
    requires
        is_listing(stores, query, res),
    ensures
        collected(stores, scope_of(opt_view(query.scope)), all),
        forall|i: int|
            0 <= i < res.len() ==> all.contains(#[trigger] res[i]) && category_matches(
                opt_view(query.category),
                res[i].0.category,
            ),
        forall|j: int|
            0 <= j < all.len() && category_matches(
                opt_view(query.category),
                (#[trigger] all[j]).0.category,
            ) ==> res.contains(all[j]),
{
    let filter = opt_view(query.category);
    let all = choose|all: Seq<(BookmarkView, Seq<char>)>| #[trigger]
        collected(stores, scope_of(opt_view(query.scope)), all) && sorted_by_freq(
            in_category(all, filter),
            res,
        );
    let list = in_category(all, filter);
    let keep = |e: (BookmarkView, Seq<char>)| category_matches(filter, e.0.category);
    let less = number_less(freqs_of(list));
    let n = list.len() as int;
    let ord = choose|ord: Seq<usize>|
        #![trigger is_stable_order(number_less(freqs_of(list)), list.len() as int, ord)]
        is_stable_order(number_less(freqs_of(list)), list.len() as int, ord) && res == Seq::new(
            list.len(),
            |i: int| list[ord[i] as int],
        );
    assert forall|i: int| 0 <= i < res.len() implies all.contains(#[trigger] res[i])
        && category_matches(filter, res[i].0.category) by {
        let a = ord[i] as int;
        assert(list[a] == res[i]);
        assert(all.filter(keep).contains(res[i]));
        all.lemma_filter_contains_rev(keep, res[i]);
        all.lemma_filter_pred(keep, a);
    }
    assert forall|j: int|
        0 <= j < all.len() && category_matches(filter, (#[trigger] all[j]).0.category) implies res.contains(
    all[j]) by {
        all.lemma_filter_contains(keep, j);
        let a = choose|a: int| 0 <= a < list.len() && list[a] == all[j];
        crate::order::stable_order_covers(less, n, ord, a);
        let i = choose|i: int| 0 <= i < n && #[trigger] ord[i] == a;
        assert(res[i] == all[j]);
    }
    all
}

/// A listing of the general bookmarks has exactly those of the category, each marked as general.
pub proof fn general_listing_has_the_category(
    stores: BookmarkStoreMap,
    query: BookmarkQuery,
    res: Seq<(BookmarkView, Seq<char>)>,
    b: BookmarkView,
)
    requires
        is_listing(stores, query, res),
        query.scope is None || query.scope->0@.len() == 0 || query.scope->0@ == "general"@,
    ensures
        res.contains((b, "general"@)) <==> stores.listed(None).contains(b) && (query.category is None
            || query.category->0@.len() == 0 || lowercased(b.category) == lowercased(
            query.category->0@,
        )),
        forall|i: int| 0 <= i < res.len() ==> (#[trigger] res[i]).1 == "general"@,
{
    let all = lemma_listing_source(stores, query, res);
    let item = (b, "general"@);
    assert(scope_of(opt_view(query.scope)) is None);
    assert(all == tagged(stores.listed(None), "general"@));
    if res.contains(item) {
        let i = choose|i: int| 0 <= i < res.len() && res[i] == item;
        assert(all.contains(res[i]));
        let j = choose|j: int| 0 <= j < all.len() && all[j] == item;
        assert(stores.listed(None)[j] == b);
    }
    if stores.listed(None).contains(b) {
        let j = choose|j: int| 0 <= j < stores.listed(None).len() && stores.listed(None)[j] == b;
        assert(all[j] == item);
    }
    assert forall|i: int| 0 <= i < res.len() implies (#[trigger] res[i]).1 == "general"@ by {
        let j = choose|j: int| 0 <= j < all.len() && all[j] == res[i];
        assert(all[j].1 == "general"@);
    }
}

/// A listing for a rig has, of each id, the rig's own bookmark marked with the rig, or else the general
/// one marked as general, where it is of the category.
pub proof fn rig_listing_has_the_category(
    stores: BookmarkStoreMap,
    query: BookmarkQuery,
    res: Seq<(BookmarkView, Seq<char>)>,
    remote: Seq<char>,
    i: int,
)
    requires
        is_listing(stores, query, res),
        opt_view(query.scope) == Some(remote),
        remote.len() > 0,
        remote != "general"@,
        0 <= i < res.len(),
    ensures
        ({
            let (b, scope) = res[i];
            &&& scope == remote ==> stores.listed(Some(remote)).contains(b)
            &&& scope != remote ==> scope == "general"@ && stores.listed(None).contains(b)
                && forall|j: int|
                0 <= j < stores.listed(Some(remote)).len() ==> (#[trigger] stores.listed(
                    Some(remote),
                )[j]).id != b.id
            &&& query.category is Some && query.category->0@.len() > 0 ==> lowercased(b.category)
                == lowercased(query.category->0@)
        }),
{
    let all = lemma_listing_source(stores, query, res);
    let general = tagged(stores.listed(None), "general"@);
    let own = tagged(stores.listed(Some(remote)), remote);
    let (b, scope) = res[i];
    assert(all.contains(res[i]));
    let j = choose|j: int| 0 <= j < all.len() && all[j] == res[i];
    scoped_by_id_distinct(all);
    assert(scoped_by_id(all)[all[j].0.id] == all[j]);
    let k = lemma_scoped_source(general + own, b.id);
    assert((general + own)[k] == res[i]);
    if k < general.len() {
        assert(general[k] == res[i]);
        assert(stores.listed(None)[k] == b);
        assert forall|q: int| 0 <= q < stores.listed(Some(remote)).len() implies (
        #[trigger] stores.listed(Some(remote))[q]).id != b.id by {
            assert((general + own)[general.len() + q].0.id == stores.listed(Some(remote))[q].id);
        }
    } else {
        assert(own[k - general.len()] == res[i]);
        assert(stores.listed(Some(remote))[k - general.len()] == b);
    }
}

proof fn lemma_scoped_source(list: Seq<(BookmarkView, Seq<char>)>, id: Seq<char>) -> (k: int)
    requires
        scoped_by_id(list).contains_key(id),
    ensures
        0 <= k < list.len(),
        scoped_by_id(list)[id] == list[k],
        list[k].0.id == id,
        forall|q: int| k < q < list.len() ==> (#[trigger] list[q]).0.id != id,
    decreases list.len(),
{
    if list.last().0.id == id {
        list.len() - 1
    } else {
        let front = list.drop_last();
        let k = lemma_scoped_source(front, id);
        assert forall|q: int| k < q < list.len() implies (#[trigger] list[q]).0.id != id by {
            if q < front.len() {
                assert(front[q] == list[q]);
            }
        }
        k
    }
}

/// Of several bookmarks with one id the last one counts, together with where it is from.
pub proof fn last_of_an_id_counts_with_its_scope(list: Seq<(BookmarkView, Seq<char>)>, i: int)
    requires
        0 <= i < list.len(),
        forall|j: int| i < j < list.len() ==> (#[trigger] list[j]).0.id != list[i].0.id,
    ensures
        scoped_by_id(list).contains_key(list[i].0.id),
        scoped_by_id(list)[list[i].0.id] == list[i],
    decreases list.len(),
{
    if i < list.len() - 1 {
        let front = list.drop_last();
        assert(front[i] == list[i]);
        assert forall|j: int| i < j < front.len() implies (#[trigger] front[j]).0.id
            != front[i].0.id by {
            assert(front[j] == list[j]);
        }
        assert(list[list.len() - 1].0.id != list[i].0.id);
        last_of_an_id_counts_with_its_scope(front, i);
    }
}

/// A list has distinct ids where no two of its places have the same.
pub proof fn distinct_ids_stand_once(
    list: Seq<Bookmark>,
    scoped: Seq<(BookmarkView, Seq<char>)>,
    i: int,
    j: int,
)
    ensures
        distinct_ids(list) && 0 <= i < list.len() && 0 <= j < list.len() && i != j ==> list[i].id@
            != list[j].id@,
        distinct_scoped_ids(scoped) && 0 <= i < scoped.len() && 0 <= j < scoped.len() && i != j
            ==> scoped[i].0.id != scoped[j].0.id,
{
}

} // verus!
