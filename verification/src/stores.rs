//! The stored configurations of schedulers and background decoding, and where they are kept.
use vstd::prelude::*;

use crate::background_decode::BackgroundDecodeConfig;
use crate::scheduler::SchedulerConfig;
use crate::table::Table;
use crate::text::{
    deduped, join3, list_clone, list_view, own, starts_with, starts_with_spec,
};

verus! {

// ---------------------------------------------------------------------------------------------
// Files
// ---------------------------------------------------------------------------------------------

/// The file that keeps the scheduler configuration of a rig.
pub fn scheduler_file_name(remote: &str) -> (res: String)
    ensures
        res@ == "scheduler."@ + remote@ + ".db"@,
{
    join3("scheduler.", remote, ".db")
}

/// The file that keeps the bookmarks of a rig.
pub fn bookmark_file_name(remote: &str) -> (res: String)
    ensures
        res@ == "bookmark."@ + remote@ + ".db"@,
{
    join3("bookmark.", remote, ".db")
}

/// Whether configurations are to be taken over from the shared file: there is one, there are rigs,
/// and none of them has a file of its own.
pub fn should_migrate(legacy_exists: bool, rig_file_exists: &Vec<bool>) -> (res: bool)
    ensures
        res == (legacy_exists && rig_file_exists@.len() > 0 && forall|i: int|
            0 <= i < rig_file_exists@.len() ==> !(#[trigger] rig_file_exists@[i])),
{
    if !legacy_exists || rig_file_exists.len() == 0 {
        return false;
    }
    let mut i: usize = 0;
    while i < rig_file_exists.len()
        invariant
            i <= rig_file_exists@.len(),
            forall|j: int| 0 <= j < i ==> !(#[trigger] rig_file_exists@[j]),
        decreases rig_file_exists@.len() - i,
    {
        if rig_file_exists[i] {
            return false;
        }
        i = i + 1;
    }
    true
}

/// Whether a key of the shared file holds a scheduler configuration.
pub fn is_legacy_key(key: &str) -> (res: bool)
    ensures
        res == starts_with_spec(key@, "sch:"@),
{
    starts_with(key, "sch:")
}

// ---------------------------------------------------------------------------------------------
// Scheduler configurations
// ---------------------------------------------------------------------------------------------

/// The store of one rig.
#[derive(Debug)]
pub struct SchedulerStore {
    pub config: Option<SchedulerConfig>,
}

impl SchedulerStore {
    /// The configuration, if there is one.
    pub fn get_config(&self) -> (res: Option<&SchedulerConfig>)
        ensures
            (match res {
                Some(c) => Some(*c),
                None => None,
            }) == self.config,
    {
        match &self.config {
            Some(c) => Some(c),
            None => None,
        }
    }

    /// Stores a configuration in place of the one before.
    pub fn upsert_config(&mut self, config: SchedulerConfig)
        ensures
            final(self).config == Some(config),
    {
        self.config = Some(config);
    }

    /// Removes the configuration. The result says whether there was one.
    pub fn remove_config(&mut self) -> (res: bool)
        ensures
            res == (old(self).config is Some),
            final(self).config is None,
    {
        let res = self.config.is_some();
        self.config = None;
        res
    }
}

/// The configurations in the first `n` of the opened stores, in the order in which they were
/// opened.
pub open spec fn stored_configs(entries: Seq<(String, SchedulerStore)>, n: int) -> Seq<
    SchedulerConfig,
>
    decreases n,
{
    if n <= 0 {
        Seq::empty()
    } else {
        match entries[n - 1].1.config {
            Some(c) => stored_configs(entries, n - 1).push(c),
            None => stored_configs(entries, n - 1),
        }
    }
}

/// The stores of the rigs, each opened when it is first needed.
#[derive(Debug)]
pub struct SchedulerStoreMap {
    pub stores: Table<SchedulerStore>,
}

impl SchedulerStoreMap {
    /// No rig has two stores.
    pub open spec fn wf(&self) -> bool {
        self.stores.wf()
    }

    /// The configuration of a rig.
    pub open spec fn config_of(&self, remote: Seq<char>) -> Option<SchedulerConfig> {
        if self.stores@.contains_key(remote) {
            self.stores@[remote].config
        } else {
            None
        }
    }

    /// No store is open.
    pub fn new() -> (res: Self)
        ensures
            res.wf(),
            forall|remote: Seq<char>| #[trigger] res.config_of(remote) is None,
            res.stores@.dom() == Set::<Seq<char>>::empty(),
            res.stores.entries@.len() == 0,
    {
        let res = SchedulerStoreMap { stores: Table::new() };
        assert(res.stores@.dom() =~= Set::<Seq<char>>::empty());
        res
    }

    /// Whether the store of a rig is open.
    pub fn is_open(&self, remote: &str) -> (res: bool)
        requires
            self.wf(),
        ensures
            res == self.stores@.contains_key(remote@),
    {
        self.stores.contains_key(remote)
    }

    /// Opens the store of a rig with what was kept for it. A store that is open stays as it is.
    pub fn open_store(&mut self, remote: &str, store: SchedulerStore)
        requires
            old(self).wf(),
        ensures
            final(self).wf(),
            final(self).stores@ == (if old(self).stores@.contains_key(remote@) {
                old(self).stores@
            } else {
                old(self).stores@.insert(remote@, store)
            }),
    {
        if !self.stores.contains_key(remote) {
            self.stores.insert(remote, store);
        }
    }

    /// The configuration of a rig, if there is one.
    pub fn get_config(&self, remote: &str) -> (res: Option<&SchedulerConfig>)
        requires
            self.wf(),
        ensures
            (match res {
                Some(c) => Some(*c),
                None => None,
            }) == self.config_of(remote@),
    {
        match self.stores.get(remote) {
            Some(store) => store.get_config(),
            None => None,
        }
    }

    /// Stores a configuration for a rig, under that rig's name whatever the configuration says. The
    /// other rigs keep theirs.
    pub fn put_config(&mut self, remote: &str, config: SchedulerConfig)
        requires
            old(self).wf(),
        ensures
            final(self).wf(),
            match final(self).config_of(remote@) {
                Some(c) => {
                    &&& c.remote@ == remote@
                    &&& c == (SchedulerConfig { remote: c.remote, ..config })
                },
                None => false,
            },
            forall|r: Seq<char>|
                r != remote@ ==> #[trigger] final(self).config_of(r) == old(self).config_of(r),
    {
        let mut named = config;
        named.remote = own(remote);
        self.stores.insert(remote, SchedulerStore { config: Some(named) });
    }

    /// Removes the configuration of a rig. The result says whether there was one.
    pub fn remove_config(&mut self, remote: &str) -> (res: bool)
        requires
            old(self).wf(),
        ensures
            final(self).wf(),
            res == (old(self).config_of(remote@) is Some),
            final(self).config_of(remote@) is None,
            forall|r: Seq<char>|
                r != remote@ ==> #[trigger] final(self).config_of(r) == old(self).config_of(r),
    {
        let res = self.get_config(remote).is_some();
        self.stores.insert(remote, SchedulerStore { config: None });
        res
    }

    /// The configurations of the opened stores.
    pub fn list_all(&self) -> (res: Vec<&SchedulerConfig>)
        ensures
            res@.unref() == stored_configs(
                self.stores.entries@,
                self.stores.entries@.len() as int,
            ),
    {
        let mut out: Vec<&SchedulerConfig> = Vec::new();
        let mut i: usize = 0;
        assert(out@.unref() =~= stored_configs(self.stores.entries@, 0));
        while i < self.stores.entries.len()
            invariant
                i <= self.stores.entries@.len(),
                out@.unref() == stored_configs(self.stores.entries@, i as int),
            decreases self.stores.entries@.len() - i,
        {
            let ghost before = out@.unref();
            match &self.stores.entries[i].1.config {
                Some(c) => {
                    out.push(c);
                    assert(out@.unref() =~= before.push(*c));
                },
                None => {},
            }
            i = i + 1;
        }
        out
    }
}

// ---------------------------------------------------------------------------------------------
// Background decoding configurations
// ---------------------------------------------------------------------------------------------

/// What a background decoding configuration says.
#[verifier::ext_equal]
pub struct DecodeConfigView {
    pub rig_id: Seq<char>,
    pub enabled: bool,
    pub bookmark_ids: Seq<Seq<char>>,
}

impl View for BackgroundDecodeConfig {
    type V = DecodeConfigView;

    open spec fn view(&self) -> DecodeConfigView {
        DecodeConfigView {
            rig_id: self.rig_id@,
            enabled: self.enabled,
            bookmark_ids: list_view(self.bookmark_ids@),
        }
    }
}

impl Clone for BackgroundDecodeConfig {
    fn clone(&self) -> (res: Self)
        ensures
            res@ == self@,
    {
        BackgroundDecodeConfig {
            rig_id: self.rig_id.clone(),
            enabled: self.enabled,
            bookmark_ids: list_clone(&self.bookmark_ids),
        }
    }
}

/// The configurations of all rigs.
#[derive(Debug)]
pub struct BackgroundDecodeStore {
    pub configs: Table<BackgroundDecodeConfig>,
}

impl BackgroundDecodeStore {
    /// No rig has two configurations.
    pub open spec fn wf(&self) -> bool {
        self.configs.wf()
    }

    /// The configuration of a rig: off, with no bookmark, where nothing is stored.
    pub open spec fn config_of(&self, rig_id: Seq<char>) -> DecodeConfigView {
        if self.configs@.contains_key(rig_id) {
            self.configs@[rig_id]@
        } else {
            DecodeConfigView { rig_id, enabled: false, bookmark_ids: Seq::empty() }
        }
    }

    /// Nothing is stored.
    pub fn new() -> (res: Self)
        ensures
            res.wf(),
            res.configs@ == Map::<Seq<char>, BackgroundDecodeConfig>::empty(),
    {
        BackgroundDecodeStore { configs: Table::new() }
    }

    /// The configuration of a rig.
    pub fn get_config(&self, rig_id: &str) -> (res: BackgroundDecodeConfig)
        requires
            self.wf(),
        ensures
            res@ == self.config_of(rig_id@),
    {
        match self.configs.get(rig_id) {
            Some(c) => c.clone(),
            None => {
                let c = BackgroundDecodeConfig::empty(rig_id);
                assert(c@.bookmark_ids =~= Seq::empty());
                c
            },
        }
    }

    /// Stores a configuration, with each bookmark once, and gives it back as stored. The other rigs
    /// keep theirs.
    pub fn put_config(&mut self, config: BackgroundDecodeConfig) -> (res: BackgroundDecodeConfig)
        requires
            old(self).wf(),
        ensures
            final(self).wf(),
            res@ == (DecodeConfigView {
                bookmark_ids: deduped(config@.bookmark_ids),
                ..config@
            }),
            final(self).config_of(config@.rig_id) == res@,
            forall|r: Seq<char>|
                r != config@.rig_id ==> #[trigger] final(self).config_of(r) == old(self).config_of(r),
    {
        let rig_id = config.rig_id.clone();
        let stored = config.for_storage(rig_id.as_str());
        self.configs.insert(rig_id.as_str(), stored.clone());
        stored
    }

    /// Removes the configuration of a rig. The result says whether there was one.
    pub fn reset_config(&mut self, rig_id: &str) -> (res: bool)
        requires
            old(self).wf(),
        ensures
            final(self).wf(),
            res == old(self).configs@.contains_key(rig_id@),
            !final(self).configs@.contains_key(rig_id@),
            forall|r: Seq<char>|
                r != rig_id@ ==> #[trigger] final(self).config_of(r) == old(self).config_of(r),
    {
        self.configs.remove(rig_id).is_some()
    }
}

/// The stored timetables are listed in the order of their rigs; a store without one adds nothing.
pub proof fn timetables_in_order(entries: Seq<(String, SchedulerStore)>, n: int)
    ensures
        stored_configs(entries, 0).len() == 0,
        0 <= n < entries.len() && entries[n].1.config is Some ==> stored_configs(entries, n + 1)
            == stored_configs(entries, n).push(entries[n].1.config->0),
        0 <= n < entries.len() && entries[n].1.config is None ==> stored_configs(entries, n + 1)
            == stored_configs(entries, n),
{
}

/// A rig has the timetable of its store, and none where it has no store.
pub proof fn timetables_of_rigs(map: SchedulerStoreMap, remote: Seq<char>)
    ensures
        map.stores@.contains_key(remote) ==> map.config_of(remote) == map.stores@[remote].config,
        !map.stores@.contains_key(remote) ==> map.config_of(remote) is None,
{
}

/// Background decoding is off and has no bookmarks until it is set up, and then as it was set up.
pub proof fn setups_of_background_decoding(
    store: BackgroundDecodeStore,
    rig_id: Seq<char>,
    c: BackgroundDecodeConfig,
)
    ensures
        c@.rig_id == c.rig_id@,
        c@.enabled == c.enabled,
        c@.bookmark_ids == list_view(c.bookmark_ids@),
        store.configs@.contains_key(rig_id) ==> store.config_of(rig_id) == store.configs@[rig_id]@,
        !store.configs@.contains_key(rig_id) ==> {
            &&& store.config_of(rig_id).rig_id == rig_id
            &&& !store.config_of(rig_id).enabled
            &&& store.config_of(rig_id).bookmark_ids.len() == 0
        },
{
}

} // verus!
