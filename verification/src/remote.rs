//! The connection to a server: its rigs, their local names, and what is asked and answered.
use vstd::prelude::*;

use crate::order::{less_text, text_less, text_less_irreflexive, text_less_total, text_less_transitive};
use crate::table::{key_index, Table};
use crate::text::{
    contains, decimal, found_parts_are_there, join2, join3, lemma_list_has, list_contains,
    list_view, occurs_in, opt_clone, opt_eq, opt_view, own, parts_are_found, str_eq, u64_text,
};

verus! {

// ---------------------------------------------------------------------------------------------
// Rigs
// ---------------------------------------------------------------------------------------------

/// What the client goes by in the state of a rig.
#[derive(Clone, Copy, Debug, PartialEq, Eq, Structural)]
pub struct RigSummary {
    /// The rig has been set up.
    pub initialized: bool,
    /// The rig can transmit.
    pub tx: bool,
}

/// A rig as the server lists it.
#[derive(Debug)]
pub struct RigEntry {
    pub rig_id: String,
    pub display_name: Option<String>,
    pub state: RigSummary,
    pub audio_port: Option<u16>,
}

/// A rig as the client knows it, under its local name.
#[derive(Debug)]
pub struct RemoteRigEntry {
    pub rig_id: String,
    pub display_name: Option<String>,
    pub state: RigSummary,
    pub audio_port: Option<u16>,
}

/// What an entry for a rig says.
#[verifier::ext_equal]
pub struct RigView {
    pub rig_id: Seq<char>,
    pub display_name: Option<Seq<char>>,
    pub state: RigSummary,
    pub audio_port: Option<u16>,
}

impl View for RigEntry {
    type V = RigView;

    open spec fn view(&self) -> RigView {
        RigView {
            rig_id: self.rig_id@,
            display_name: opt_view(self.display_name),
            state: self.state,
            audio_port: self.audio_port,
        }
    }
}

impl View for RemoteRigEntry {
    type V = RigView;

    open spec fn view(&self) -> RigView {
        RigView {
            rig_id: self.rig_id@,
            display_name: opt_view(self.display_name),
            state: self.state,
            audio_port: self.audio_port,
        }
    }
}

impl Clone for RemoteRigEntry {
    fn clone(&self) -> (res: Self)
        ensures
            res@ == self@,
    {
        RemoteRigEntry {
            rig_id: self.rig_id.clone(),
            display_name: opt_clone(&self.display_name),
            state: self.state,
            audio_port: self.audio_port,
        }
    }
}

/// What a server's list of rigs says.
pub open spec fn rig_views(rigs: Seq<RigEntry>) -> Seq<RigView> {
    rigs.map_values(|r: RigEntry| r@)
}

/// What the client's list of rigs says.
pub open spec fn known_views(rigs: Seq<RemoteRigEntry>) -> Seq<RigView> {
    rigs.map_values(|r: RemoteRigEntry| r@)
}

/// Whether a rig is a worse default than another: one that can transmit is better, then one that
/// is set up, then one whose id comes later.
pub open spec fn worse_default(a: RigView, b: RigView) -> bool {
    ||| !a.state.tx && b.state.tx
    ||| a.state.tx == b.state.tx && !a.state.initialized && b.state.initialized
    ||| a.state.tx == b.state.tx && a.state.initialized == b.state.initialized && text_less(
        a.rig_id,
        b.rig_id,
    )
}

/// Whether the rig at `m` is the default: none is better, and none that comes later is as good.
pub open spec fn is_default_rig(rigs: Seq<RigView>, m: int) -> bool {
    &&& 0 <= m < rigs.len()
    &&& forall|i: int| 0 <= i < m ==> !worse_default(rigs[m], #[trigger] rigs[i])
    &&& forall|i: int| m < i < rigs.len() ==> worse_default(#[trigger] rigs[i], rigs[m])
}

/// The position of the default rig.
pub open spec fn default_rig(rigs: Seq<RigView>) -> int {
    choose|m: int| is_default_rig(rigs, m)
}

proof fn lemma_default_unique(rigs: Seq<RigView>, a: int, b: int)
    requires
        is_default_rig(rigs, a),
        is_default_rig(rigs, b),
    ensures
        a == b,
{
    if a < b {
        assert(worse_default(rigs[b], rigs[a]));
    }
    if b < a {
        assert(worse_default(rigs[a], rigs[b]));
    }
}

proof fn lemma_worse_transitive(a: RigView, b: RigView, c: RigView)
    requires
        worse_default(a, b),
        !worse_default(c, b),
    ensures
        worse_default(a, c),
{
    text_less_total(b.rig_id, c.rig_id);
    if text_less(a.rig_id, b.rig_id) && text_less(b.rig_id, c.rig_id) {
        text_less_transitive(a.rig_id, b.rig_id, c.rig_id);
    }
}

proof fn lemma_not_worse_transitive(a: RigView, b: RigView, c: RigView)
    requires
        !worse_default(b, a),
        !worse_default(c, b),
    ensures
        !worse_default(c, a),
{
    text_less_total(a.rig_id, b.rig_id);
    text_less_total(b.rig_id, c.rig_id);
    if text_less(c.rig_id, a.rig_id) {
        if text_less(a.rig_id, b.rig_id) {
            text_less_transitive(c.rig_id, a.rig_id, b.rig_id);
        }
    }
}

fn is_worse(a: &RigEntry, b: &RigEntry) -> (res: bool)
    ensures
        res == worse_default(a@, b@),
{
    if a.state.tx != b.state.tx {
        b.state.tx
    } else if a.state.initialized != b.state.initialized {
        b.state.initialized
    } else {
        less_text(a.rig_id.as_str(), b.rig_id.as_str())
    }
}

/// The position of the default rig, where there is any rig.
pub fn choose_default_rig(rigs: &Vec<RigEntry>) -> (res: Option<usize>)
    ensures
        res is Some <==> rigs@.len() > 0,
        res matches Some(m) ==> is_default_rig(rig_views(rigs@), m as int) && m == default_rig(
            rig_views(rigs@),
        ),
{
    let ghost views = rig_views(rigs@);
    if rigs.len() == 0 {
        return None;
    }
    let mut best: usize = 0;
    let mut i: usize = 1;
    assert(is_default_rig(views.take(1), 0));
    while i < rigs.len()
        invariant
            1 <= i <= rigs@.len(),
            views == rig_views(rigs@),
            best < i,
            is_default_rig(views.take(i as int), best as int),
        decreases rigs@.len() - i,
    {
        let worse = is_worse(&rigs[i], &rigs[best]);
        proof {
            let (head, next) = (views.take(i as int), views.take(i + 1));
            assert(forall|k: int| 0 <= k < i ==> #[trigger] next[k] == head[k]);
            assert(next[i as int] == rigs@[i as int]@);
            assert(next[best as int] == rigs@[best as int]@);
            if worse {
                assert(is_default_rig(next, best as int));
            } else {
                assert forall|k: int| 0 <= k < i implies !worse_default(
                    next[i as int],
                    #[trigger] next[k],
                ) by {
                    if k < best {
                        assert(!worse_default(head[best as int], head[k]));
                        lemma_not_worse_transitive(next[k], next[best as int], next[i as int]);
                    } else if k > best {
                        assert(worse_default(head[k], head[best as int]));
                        lemma_worse_transitive(next[k], next[best as int], next[i as int]);
                        lemma_worse_asymmetric(next[k], next[i as int]);
                    }
                }
                assert(is_default_rig(next, i as int));
            }
        }
        if !worse {
            best = i;
        }
        i = i + 1;
    }
    proof {
        assert(views.take(views.len() as int) =~= views);
        lemma_default_unique(views, best as int, default_rig(views));
    }
    Some(best)
}

proof fn lemma_worse_asymmetric(a: RigView, b: RigView)
    requires
        worse_default(a, b),
    ensures
        !worse_default(b, a),
{
    if text_less(a.rig_id, b.rig_id) && text_less(b.rig_id, a.rig_id) {
        text_less_transitive(a.rig_id, b.rig_id, a.rig_id);
        text_less_irreflexive(a.rig_id);
    }
}

// ---------------------------------------------------------------------------------------------
// Local names
// ---------------------------------------------------------------------------------------------

/// The local names of a server's rigs: by the server's rig id, and the name of whichever rig is the
/// server's default. Without any, rigs go by the server's ids.
#[derive(Debug)]
pub struct ShortNames {
    pub by_rig: Table<String>,
    pub default: Option<String>,
}

impl ShortNames {
    /// The table is well formed.
    pub open spec fn wf(&self) -> bool {
        self.by_rig.wf()
    }

    /// Whether there is any local name.
    pub open spec fn any(&self) -> bool {
        self.by_rig.entries@.len() > 0 || self.default is Some
    }

    /// Whether a name is one of the local names.
    pub open spec fn has_name(&self, name: Seq<char>) -> bool {
        opt_view(self.default) == Some(name) || exists|i: int|
            0 <= i < self.by_rig.entries@.len() && (#[trigger] self.by_rig.entries@[i]).1@ == name
    }

    /// The local name given to a rig by its id.
    pub open spec fn explicit(&self, rig_id: Seq<char>) -> Option<Seq<char>> {
        if self.by_rig@.contains_key(rig_id) {
            Some(self.by_rig@[rig_id]@)
        } else {
            None
        }
    }

    /// No local names: rigs go by the server's ids.
    pub fn new() -> (res: Self)
        ensures
            res.wf(),
            !res.any(),
    {
        ShortNames { by_rig: Table::new(), default: None }
    }

    /// Whether the name is one of the local names.
    pub fn contains_name(&self, name: &str) -> (res: bool)
        ensures
            res == self.has_name(name@),
    {
        match &self.default {
            Some(d) => {
                if str_eq(d.as_str(), name) {
                    return true;
                }
            },
            None => {},
        }
        let mut i: usize = 0;
        while i < self.by_rig.entries.len()
            invariant
                i <= self.by_rig.entries@.len(),
                forall|j: int| 0 <= j < i ==> (#[trigger] self.by_rig.entries@[j]).1@ != name@,
            decreases self.by_rig.entries@.len() - i,
        {
            if str_eq(self.by_rig.entries[i].1.as_str(), name) {
                assert(self.by_rig.entries@[i as int].1@ == name@);
                return true;
            }
            i = i + 1;
        }
        false
    }
}

/// What the client keeps about one server.
#[derive(Debug)]
pub struct RemoteClientConfig {
    pub token: Option<String>,
    /// The rig the user has selected, by local name.
    pub selected_rig_id: Option<String>,
    /// The rigs of all servers, by local name.
    pub known_rigs: Vec<RemoteRigEntry>,
    /// The local names of this server's rigs.
    pub names: ShortNames,
    /// The server's rig id behind each local name, as far as it is known.
    pub short_name_to_rig_id: Table<String>,
    /// Whether the server of each rig is connected, by local name.
    pub rig_server_connected: Table<bool>,
    /// The rigs of all servers whose state is kept, by local name.
    pub rig_states: Table<()>,
    /// How many receive the spectrum of each rig, by local name.
    pub rig_spectrums: Table<usize>,
    /// How many receive the spectrum of the selected rig.
    pub spectrum_receivers: usize,
}

impl RemoteClientConfig {
    /// Every table is well formed.
    pub open spec fn wf(&self) -> bool {
        &&& self.names.wf()
        &&& self.short_name_to_rig_id.wf()
        &&& self.rig_server_connected.wf()
        &&& self.rig_states.wf()
        &&& self.rig_spectrums.wf()
    }

    /// Whether a rig belongs to this server.
    pub open spec fn owns(&self, name: Seq<char>) -> bool {
        !self.names.any() || self.names.has_name(name)
    }

    /// The server's rig id behind a local name.
    pub open spec fn server_id(&self, name: Seq<char>) -> Option<Seq<char>> {
        if !self.names.any() {
            Some(name)
        } else if self.short_name_to_rig_id@.contains_key(name) {
            Some(self.short_name_to_rig_id@[name]@)
        } else {
            None
        }
    }

    /// A configuration without rigs or names.
    pub fn new(token: Option<String>) -> (res: Self)
        ensures
            res.wf(),
            res.token == token,
            res.selected_rig_id is None,
            res.known_rigs@.len() == 0,
            !res.names.any(),
            res.spectrum_receivers == 0,
            res.short_name_to_rig_id@ == Map::<Seq<char>, String>::empty(),
            res.rig_server_connected@ == Map::<Seq<char>, bool>::empty(),
            res.rig_states@ == Map::<Seq<char>, ()>::empty(),
            res.rig_spectrums@ == Map::<Seq<char>, usize>::empty(),
    {
        RemoteClientConfig {
            token,
            selected_rig_id: None,
            known_rigs: Vec::new(),
            names: ShortNames::new(),
            short_name_to_rig_id: Table::new(),
            rig_server_connected: Table::new(),
            rig_states: Table::new(),
            rig_spectrums: Table::new(),
            spectrum_receivers: 0,
        }
    }
}

/// Whether the server's rigs have local names.
pub fn has_short_names(config: &RemoteClientConfig) -> (res: bool)
    ensures
        res == config.names.any(),
{
    config.names.by_rig.entries.len() > 0 || config.names.default.is_some()
}

/// Whether the rig belongs to this server.
pub fn config_owns_short_name(config: &RemoteClientConfig, short_name: &str) -> (res: bool)
    ensures
        res == config.owns(short_name@),
{
    !has_short_names(config) || config.names.contains_name(short_name)
}

/// The local name of a server's rig: its own, or the name of the default, or its id where there are
/// no local names.
pub fn resolve_short_name(config: &RemoteClientConfig, server_rig_id: &str) -> (res: Option<String>)
    requires
        config.wf(),
    ensures
        opt_view(res) == (if !config.names.any() {
            Some(server_rig_id@)
        } else {
            match config.names.explicit(server_rig_id@) {
                Some(n) => Some(n),
                None => opt_view(config.names.default),
            }
        }),
{
    if !has_short_names(config) {
        return Some(own(server_rig_id));
    }
    match config.names.by_rig.get(server_rig_id) {
        Some(name) => Some(name.clone()),
        None => opt_clone(&config.names.default),
    }
}

/// The server's rig id behind a local name.
pub fn resolve_server_rig_id(config: &RemoteClientConfig, short_name: &str) -> (res: Option<String>)
    requires
        config.wf(),
    ensures
        opt_view(res) == config.server_id(short_name@),
{
    if !has_short_names(config) {
        return Some(own(short_name));
    }
    match config.short_name_to_rig_id.get(short_name) {
        Some(id) => Some(id.clone()),
        None => None,
    }
}

/// A request to the server.
#[derive(Debug)]
pub struct ClientEnvelope<C> {
    pub token: Option<String>,
    pub rig_id: Option<String>,
    pub cmd: C,
}

/// The rig that a request is for, as the server knows it: the given one, or else the selected one.
pub open spec fn wire_rig(config: RemoteClientConfig, rig_id_override: Option<Seq<char>>) -> Option<
    Seq<char>,
> {
    let name = match rig_id_override {
        Some(n) => Some(n),
        None => opt_view(config.selected_rig_id),
    };
    match name {
        Some(n) => config.server_id(n),
        None => None,
    }
}

/// The request for a command, addressed to the given rig or else to the selected one.
pub fn build_envelope<C>(config: &RemoteClientConfig, cmd: C, rig_id_override: &Option<String>) -> (res:
    ClientEnvelope<C>)
    requires
        config.wf(),
    ensures
        res.token == config.token,
        opt_view(res.rig_id) == wire_rig(*config, opt_view(*rig_id_override)),
        res.cmd == cmd,
{
    let rig_id = match rig_id_override {
        Some(n) => resolve_server_rig_id(config, n.as_str()),
        None => match &config.selected_rig_id {
            Some(n) => resolve_server_rig_id(config, n.as_str()),
            None => None,
        },
    };
    ClientEnvelope { token: opt_clone(&config.token), rig_id, cmd }
}

// ---------------------------------------------------------------------------------------------
// A fresh list of rigs
// ---------------------------------------------------------------------------------------------

/// A local name and the position, in the server's list, of the rig it stands for.
#[derive(Debug)]
pub struct MappedRig {
    pub key: String,
    pub index: usize,
}

/// What a list of mapped rigs says.
pub open spec fn mapped_views(mapped: Seq<MappedRig>) -> Seq<(Seq<char>, int)> {
    mapped.map_values(|m: MappedRig| (m.key@, m.index as int))
}

/// How far the mapping of a server's rigs to local names has come.
#[verifier::ext_equal]
pub struct Mapping {
    pub mapped: Seq<(Seq<char>, int)>,
    /// The server's rig id behind each local name.
    pub ids: Map<Seq<char>, Seq<char>>,
    /// The default name has been given out.
    pub default_taken: bool,
}

/// The rig that takes the default name when the rig at `i` is the first without a name of its own:
/// the server's default rig, unless that has a name of its own.
pub open spec fn default_candidate(names: ShortNames, rigs: Seq<RigView>, i: int) -> int {
    let d = default_rig(rigs);
    if names.explicit(rigs[d].rig_id) is None {
        d
    } else {
        i
    }
}

/// The mapping after the first `n` rigs.
pub open spec fn mapping_upto(
    names: ShortNames,
    rigs: Seq<RigView>,
    ids: Map<Seq<char>, Seq<char>>,
    n: int,
) -> Mapping
    decreases n,
{
    if n <= 0 {
        Mapping { mapped: Seq::empty(), ids, default_taken: false }
    } else {
        let m = mapping_upto(names, rigs, ids, n - 1);
        let rig = rigs[n - 1];
        match names.explicit(rig.rig_id) {
            Some(name) => Mapping {
                mapped: m.mapped.push((name, n - 1)),
                ids: m.ids.insert(name, rig.rig_id),
                default_taken: m.default_taken,
            },
            None => match opt_view(names.default) {
                Some(name) => if m.default_taken {
                    m
                } else {
                    let c = default_candidate(names, rigs, n - 1);
                    Mapping {
                        mapped: m.mapped.push((name, c)),
                        ids: m.ids.insert(name, rigs[c].rig_id),
                        default_taken: true,
                    }
                },
                None => m,
            },
        }
    }
}

/// The rigs by local name, where there are local names, and by the server's ids where not.
pub open spec fn mapping_of(
    names: ShortNames,
    rigs: Seq<RigView>,
    ids: Map<Seq<char>, Seq<char>>,
) -> Mapping {
    if names.any() {
        mapping_upto(names, rigs, ids, rigs.len() as int)
    } else {
        Mapping {
            mapped: Seq::new(rigs.len(), |i: int| (rigs[i].rig_id, i)),
            ids,
            default_taken: false,
        }
    }
}

/// The server's rig ids behind the local names, as text.
pub open spec fn ids_view(ids: Table<String>) -> Map<Seq<char>, Seq<char>> {
    ids@.map_values(|s: String| s@)
}

/// Maps the server's rigs to local names and notes the rig behind each name.
pub fn map_rigs(config: &mut RemoteClientConfig, rigs: &Vec<RigEntry>) -> (res: Vec<MappedRig>)
    requires
        old(config).wf(),
    ensures
        final(config).wf(),
        ({
            let m = mapping_of(
                old(config).names,
                rig_views(rigs@),
                ids_view(old(config).short_name_to_rig_id),
            );
            &&& mapped_views(res@) == m.mapped
            &&& ids_view(final(config).short_name_to_rig_id) == m.ids
        }),
        forall|i: int| 0 <= i < res@.len() ==> (#[trigger] res@[i]).index < rigs@.len(),
        *final(config) == (RemoteClientConfig {
            short_name_to_rig_id: final(config).short_name_to_rig_id,
            ..*old(config)
        }),
{
    let ghost views = rig_views(rigs@);
    let ghost names = config.names;
    let ghost ids0 = ids_view(config.short_name_to_rig_id);
    let mut out: Vec<MappedRig> = Vec::new();
    let mut i: usize = 0;
    if !has_short_names(config) {
        while i < rigs.len()
            invariant
                i <= rigs@.len(),
                out@.len() == i,
                forall|j: int|
                    0 <= j < i ==> (#[trigger] out@[j]).key@ == rigs@[j].rig_id@ && out@[j].index
                        == j,
            decreases rigs@.len() - i,
        {
            out.push(MappedRig { key: rigs[i].rig_id.clone(), index: i });
            i = i + 1;
        }
        assert(mapped_views(out@) =~= mapping_of(names, views, ids0).mapped);
        return out;
    }
    let mut default_taken = false;
    assert(mapped_views(out@) =~= mapping_upto(names, views, ids0, 0).mapped);
    while i < rigs.len()
        invariant
            i <= rigs@.len(),
            config.wf(),
            views == rig_views(rigs@),
            names == config.names,
            *config == (RemoteClientConfig {
                short_name_to_rig_id: config.short_name_to_rig_id,
                ..*old(config)
            }),
            mapped_views(out@) == mapping_upto(names, views, ids0, i as int).mapped,
            ids_view(config.short_name_to_rig_id) == mapping_upto(names, views, ids0, i as int).ids,
            default_taken == mapping_upto(names, views, ids0, i as int).default_taken,
            forall|j: int| 0 <= j < out@.len() ==> (#[trigger] out@[j]).index < rigs@.len(),
        decreases rigs@.len() - i,
    {
        let ghost before = mapped_views(out@);
        let ghost ids_before = ids_view(config.short_name_to_rig_id);
        assert(views[i as int] == rigs@[i as int]@);
        let named = match config.names.by_rig.get(rigs[i].rig_id.as_str()) {
            Some(name) => Some(name.clone()),
            None => None,
        };
        match named {
            Some(name) => {
                config.short_name_to_rig_id.insert(name.as_str(), rigs[i].rig_id.clone());
                assert(ids_view(config.short_name_to_rig_id) =~= ids_before.insert(
                    name@,
                    rigs@[i as int].rig_id@,
                ));
                let ghost nv = name@;
                out.push(MappedRig { key: name, index: i });
                assert(mapped_views(out@) =~= before.push((nv, i as int)));
            },
            None => {
                if !default_taken {
                    match opt_clone(&config.names.default) {
                        Some(name) => {
                            let candidate: usize = match choose_default_rig(rigs) {
                                Some(d) => {
                                    assert(views[d as int] == rigs@[d as int]@);
                                    if config.names.by_rig.contains_key(rigs[d].rig_id.as_str()) {
                                        i
                                    } else {
                                        d
                                    }
                                },
                                None => i,
                            };
                            assert(candidate == default_candidate(names, views, i as int));
                            assert(views[candidate as int] == rigs@[candidate as int]@);
                            config.short_name_to_rig_id.insert(
                                name.as_str(),
                                rigs[candidate].rig_id.clone(),
                            );
                            assert(ids_view(config.short_name_to_rig_id) =~= ids_before.insert(
                                name@,
                                rigs@[candidate as int].rig_id@,
                            ));
                            let ghost nv = name@;
                            out.push(MappedRig { key: name, index: candidate });
                            assert(mapped_views(out@) =~= before.push((nv, candidate as int)));
                            default_taken = true;
                        },
                        None => {},
                    }
                }
            },
        }
        i = i + 1;
    }
    out
}

/// Whether one of the mapped rigs has the name.
pub open spec fn maps_name(mapped: Seq<(Seq<char>, int)>, name: Seq<char>) -> bool {
    exists|i: int| 0 <= i < mapped.len() && (#[trigger] mapped[i]).0 == name
}

/// The position of the last mapped rig with the name.
pub open spec fn last_mapped(mapped: Seq<(Seq<char>, int)>, name: Seq<char>) -> int {
    choose|i: int|
        0 <= i < mapped.len() && (#[trigger] mapped[i]).0 == name && forall|j: int|
            i < j < mapped.len() ==> (#[trigger] mapped[j]).0 != name
}

/// A rig of the server under a local name.
pub open spec fn as_known(rigs: Seq<RigView>, mapped: (Seq<char>, int)) -> RigView {
    RigView { rig_id: mapped.0, ..rigs[mapped.1] }
}

/// The rig of the server under the local name.
pub fn remote_rig_entry_from_snapshot(key: &str, entry: &RigEntry) -> (res: RemoteRigEntry)
    ensures
        res@ == (RigView { rig_id: key@, ..entry@ }),
{
    RemoteRigEntry {
        rig_id: own(key),
        display_name: opt_clone(&entry.display_name),
        state: entry.state,
        audio_port: entry.audio_port,
    }
}

/// What becomes of the known rigs when this server's have been mapped: those of other servers stay,
/// this server's are renewed in their place, and those no longer mapped go.
pub open spec fn renewed(
    names: ShortNames,
    known: Seq<RigView>,
    rigs: Seq<RigView>,
    mapped: Seq<(Seq<char>, int)>,
) -> Seq<RigView>
    decreases known.len(),
{
    if known.len() == 0 {
        Seq::empty()
    } else {
        let rest = renewed(names, known.drop_last(), rigs, mapped);
        match renewal(names, known.last(), rigs, mapped) {
            Some(r) => rest.push(r),
            None => rest,
        }
    }
}

/// What becomes of one known rig when this server's have been mapped.
pub open spec fn renewal(
    names: ShortNames,
    rig: RigView,
    rigs: Seq<RigView>,
    mapped: Seq<(Seq<char>, int)>,
) -> Option<RigView> {
    if !names.has_name(rig.rig_id) {
        Some(rig)
    } else if maps_name(mapped, rig.rig_id) {
        Some(as_known(rigs, mapped[last_mapped(mapped, rig.rig_id)]))
    } else {
        None
    }
}

fn renew_rig(
    names: &ShortNames,
    existing: &RemoteRigEntry,
    rigs: &Vec<RigEntry>,
    mapped: &Vec<MappedRig>,
) -> (res: Option<RemoteRigEntry>)
    requires
        forall|i: int| 0 <= i < mapped@.len() ==> (#[trigger] mapped@[i]).index < rigs@.len(),
    ensures
        (match res {
            Some(r) => Some(r@),
            None => None,
        }) == renewal(*names, existing@, rig_views(rigs@), mapped_views(mapped@)),
{
    if !names.contains_name(existing.rig_id.as_str()) {
        return Some(existing.clone());
    }
    match find_last_mapped(mapped, existing.rig_id.as_str()) {
        Some(at) => {
            let index: usize = mapped[at].index;
            assert(mapped_views(mapped@)[at as int] == (mapped@[at as int].key@, index as int));
            assert(rig_views(rigs@)[index as int] == rigs@[index as int]@);
            Some(remote_rig_entry_from_snapshot(existing.rig_id.as_str(), &rigs[index]))
        },
        None => None,
    }
}

/// The mapped rigs, among the first `n`, that no known rig stood for.
pub open spec fn newcomers(
    names: ShortNames,
    known: Seq<RigView>,
    rigs: Seq<RigView>,
    mapped: Seq<(Seq<char>, int)>,
    n: int,
) -> Seq<RigView>
    decreases n,
{
    if n <= 0 {
        Seq::empty()
    } else {
        let rest = newcomers(names, known, rigs, mapped, n - 1);
        let m = mapped[n - 1];
        if names.has_name(m.0) && (exists|i: int|
            0 <= i < known.len() && (#[trigger] known[i]).rig_id == m.0) {
            rest
        } else {
            rest.push(as_known(rigs, m))
        }
    }
}

/// The known rigs with this server's renewed.
pub open spec fn merged(
    names: ShortNames,
    known: Seq<RigView>,
    rigs: Seq<RigView>,
    mapped: Seq<(Seq<char>, int)>,
) -> Seq<RigView> {
    renewed(names, known, rigs, mapped) + newcomers(
        names,
        known,
        rigs,
        mapped,
        mapped.len() as int,
    )
}

fn find_last_mapped(mapped: &Vec<MappedRig>, name: &str) -> (res: Option<usize>)
    ensures
        res is Some <==> maps_name(mapped_views(mapped@), name@),
        res matches Some(i) ==> i < mapped@.len() && i == last_mapped(mapped_views(mapped@), name@)
            && mapped@[i as int].key@ == name@,
{
    let ghost views = mapped_views(mapped@);
    let mut i: usize = mapped.len();
    while i > 0
        invariant
            i <= mapped@.len(),
            views == mapped_views(mapped@),
            forall|j: int| i <= j < mapped@.len() ==> (#[trigger] views[j]).0 != name@,
        decreases i,
    {
        assert(views[i - 1].0 == mapped@[i - 1].key@);
        if str_eq(mapped[i - 1].key.as_str(), name) {
            proof {
                let k = last_mapped(views, name@);
                assert(views[k].0 == name@);
                assert(!(k < i - 1));
                assert(!(i - 1 < k));
            }
            return Some(i - 1);
        }
        i = i - 1;
    }
    None
}

fn knows_rig(known: &Vec<RemoteRigEntry>, name: &str) -> (res: bool)
    ensures
        res == (exists|i: int|
            0 <= i < known@.len() && (#[trigger] known_views(known@)[i]).rig_id == name@),
{
    let ghost views = known_views(known@);
    let mut i: usize = 0;
    while i < known.len()
        invariant
            i <= known@.len(),
            views == known_views(known@),
            forall|j: int| 0 <= j < i ==> (#[trigger] views[j]).rig_id != name@,
        decreases known@.len() - i,
    {
        assert(views[i as int].rig_id == known@[i as int].rig_id@);
        if str_eq(known[i].rig_id.as_str(), name) {
            return true;
        }
        i = i + 1;
    }
    false
}

/// The known rigs with this server's renewed. Rigs of other servers stay as they are.
pub fn merge_known_rigs(
    names: &ShortNames,
    current: &Vec<RemoteRigEntry>,
    rigs: &Vec<RigEntry>,
    mapped: &Vec<MappedRig>,
) -> (res: Vec<RemoteRigEntry>)
    requires
        names.wf(),
        forall|i: int| 0 <= i < mapped@.len() ==> (#[trigger] mapped@[i]).index < rigs@.len(),
    ensures
        known_views(res@) == merged(
            *names,
            known_views(current@),
            rig_views(rigs@),
            mapped_views(mapped@),
        ),
{
    let ghost kv = known_views(current@);
    let ghost rv = rig_views(rigs@);
    let ghost mv = mapped_views(mapped@);
    let mut out: Vec<RemoteRigEntry> = Vec::new();
    let mut i: usize = 0;
    assert(known_views(out@) =~= renewed(*names, kv.take(0), rv, mv));
    while i < current.len()
        invariant
            i <= current@.len(),
            kv == known_views(current@),
            rv == rig_views(rigs@),
            mv == mapped_views(mapped@),
            forall|j: int| 0 <= j < mapped@.len() ==> (#[trigger] mapped@[j]).index < rigs@.len(),
            known_views(out@) == renewed(*names, kv.take(i as int), rv, mv),
        decreases current@.len() - i,
    {
        let ghost before = known_views(out@);
        let existing = &current[i];
        assert(kv.take(i + 1).drop_last() =~= kv.take(i as int));
        assert(kv.take(i + 1).last() == existing@);
        match renew_rig(names, existing, rigs, mapped) {
            Some(entry) => {
                let ghost ev = entry@;
                out.push(entry);
                assert(known_views(out@) =~= before.push(ev));
            },
            None => {},
        }
        i = i + 1;
    }
    assert(kv.take(kv.len() as int) =~= kv);
    let ghost head = known_views(out@);
    let mut k: usize = 0;
    assert(head + newcomers(*names, kv, rv, mv, 0) =~= head);
    while k < mapped.len()
        invariant
            k <= mapped@.len(),
            kv == known_views(current@),
            rv == rig_views(rigs@),
            mv == mapped_views(mapped@),
            forall|j: int| 0 <= j < mapped@.len() ==> (#[trigger] mapped@[j]).index < rigs@.len(),
            known_views(out@) == head + newcomers(*names, kv, rv, mv, k as int),
        decreases mapped@.len() - k,
    {
        let ghost before = known_views(out@);
        let index: usize = mapped[k].index;
        assert(mv[k as int] == (mapped@[k as int].key@, index as int));
        assert(rv[index as int] == rigs@[index as int]@);
        let key = mapped[k].key.as_str();
        let inserted = names.contains_name(key) && knows_rig(current, key);
        if !inserted {
            let entry = remote_rig_entry_from_snapshot(key, &rigs[index]);
            let ghost ev = entry@;
            out.push(entry);
            assert(known_views(out@) =~= before.push(ev));
            assert(head + newcomers(*names, kv, rv, mv, k + 1) =~= before.push(ev));
        }
        k = k + 1;
    }
    out
}

/// Whether two entries agree in what is shown of a rig.
pub open spec fn looks_same(a: RigView, b: RigView) -> bool {
    a.rig_id == b.rig_id && a.display_name == b.display_name && a.state.initialized
        == b.state.initialized && a.audio_port == b.audio_port
}

/// Whether two entries agree in what is shown of a rig.
pub fn same_remote_rig_entry(left: &RemoteRigEntry, right: &RemoteRigEntry) -> (res: bool)
    ensures
        res == looks_same(left@, right@),
{
    str_eq(left.rig_id.as_str(), right.rig_id.as_str()) && opt_eq(
        &left.display_name,
        &right.display_name,
    ) && left.state.initialized == right.state.initialized && left.audio_port == right.audio_port
}

/// Whether two lists agree in what is shown of each rig.
pub open spec fn lists_look_same(a: Seq<RigView>, b: Seq<RigView>) -> bool {
    a.len() == b.len() && forall|i: int| 0 <= i < a.len() ==> looks_same(#[trigger] a[i], b[i])
}

/// The known rigs after a fresh list: the list with this server's rigs renewed, or the old one
/// where that shows no difference.
pub open spec fn cached(
    names: ShortNames,
    known: Seq<RigView>,
    rigs: Seq<RigView>,
    mapped: Seq<(Seq<char>, int)>,
) -> Seq<RigView> {
    let next = if names.any() {
        merged(names, known, rigs, mapped)
    } else {
        Seq::new(mapped.len(), |i: int| as_known(rigs, mapped[i]))
    };
    if lists_look_same(known, next) {
        known
    } else {
        next
    }
}

/// Takes a fresh list of this server's rigs into the known rigs.
pub fn cache_remote_rigs(
    config: &mut RemoteClientConfig,
    rigs: &Vec<RigEntry>,
    mapped: &Vec<MappedRig>,
)
    requires
        old(config).wf(),
        forall|i: int| 0 <= i < mapped@.len() ==> (#[trigger] mapped@[i]).index < rigs@.len(),
    ensures
        final(config).wf(),
        known_views(final(config).known_rigs@) == cached(
            old(config).names,
            known_views(old(config).known_rigs@),
            rig_views(rigs@),
            mapped_views(mapped@),
        ),
        *final(config) == (RemoteClientConfig {
            known_rigs: final(config).known_rigs,
            ..*old(config)
        }),
        forall|i: int, k: int|
            0 <= i < mapped@.len() && 0 <= k < final(config).known_rigs@.len() && (
            #[trigger] final(config).known_rigs@[k]).rig_id@ == (#[trigger] mapped@[i]).key@
                && once_mapped(mapped_views(mapped@), i) && (old(config).names.any()
                ==> old(config).names.has_name(mapped@[i].key@)) ==> {
                let rig = final(config).known_rigs@[k];
                let listed = rigs@[mapped@[i].index as int];
                &&& rig.state.initialized == listed.state.initialized
                &&& opt_view(rig.display_name) == opt_view(listed.display_name)
                &&& rig.audio_port == listed.audio_port
            },
{
    let ghost kv = known_views(config.known_rigs@);
    let ghost rv = rig_views(rigs@);
    let ghost mv = mapped_views(mapped@);
    let next = if has_short_names(config) {
        merge_known_rigs(&config.names, &config.known_rigs, rigs, mapped)
    } else {
        let mut out: Vec<RemoteRigEntry> = Vec::new();
        let mut i: usize = 0;
        while i < mapped.len()
            invariant
                i <= mapped@.len(),
                rv == rig_views(rigs@),
                mv == mapped_views(mapped@),
                forall|j: int|
                    0 <= j < mapped@.len() ==> (#[trigger] mapped@[j]).index < rigs@.len(),
                out@.len() == i,
                forall|j: int| 0 <= j < i ==> (#[trigger] out@[j])@ == as_known(rv, mv[j]),
            decreases mapped@.len() - i,
        {
            let index: usize = mapped[i].index;
            assert(mv[i as int] == (mapped@[i as int].key@, index as int));
            assert(rv[index as int] == rigs@[index as int]@);
            out.push(remote_rig_entry_from_snapshot(mapped[i].key.as_str(), &rigs[index]));
            i = i + 1;
        }
        assert(known_views(out@) =~= Seq::new(mv.len(), |i: int| as_known(rv, mv[i])));
        out
    };
    let ghost nv = known_views(next@);
    let mut same = config.known_rigs.len() == next.len();
    let mut k: usize = 0;
    while same && k < next.len()
        invariant
            k <= next@.len(),
            kv == known_views(config.known_rigs@),
            nv == known_views(next@),
            same ==> kv.len() == nv.len() && forall|j: int|
                0 <= j < k ==> looks_same(#[trigger] kv[j], nv[j]),
            !same ==> !lists_look_same(kv, nv),
        decreases next@.len() - k + (if same { 1int } else { 0int }),
    {
        assert(kv[k as int] == config.known_rigs@[k as int]@);
        assert(nv[k as int] == next@[k as int]@);
        if same_remote_rig_entry(&config.known_rigs[k], &next[k]) {
            k = k + 1;
        } else {
            same = false;
        }
    }
    assert(same == lists_look_same(kv, nv));
    if !same {
        config.known_rigs = next;
    }
    proof {
        let after = known_views(config.known_rigs@);
        assert forall|i: int, k: int|
            0 <= i < mapped@.len() && 0 <= k < config.known_rigs@.len() && (
            #[trigger] config.known_rigs@[k]).rig_id@ == (#[trigger] mapped@[i]).key@
                && once_mapped(mv, i) && (old(config).names.any() ==> old(config).names.has_name(
                mapped@[i].key@,
            )) implies ({
            let rig = config.known_rigs@[k];
            let listed = rigs@[mapped@[i].index as int];
            &&& rig.state.initialized == listed.state.initialized
            &&& opt_view(rig.display_name) == opt_view(listed.display_name)
            &&& rig.audio_port == listed.audio_port
        }) by {
            known_rigs_follow_the_server(old(config).names, kv, rv, mv, i);
            assert(mv[i] == (mapped@[i].key@, mapped@[i].index as int));
            assert(after[k] == config.known_rigs@[k]@);
            assert(rv[mv[i].1] == rigs@[mapped@[i].index as int]@);
        }
    }
}

/// The mapped rig whose state stands for the selected rig: the selected one, or the first where
/// none is selected.
pub open spec fn target_of(selected: Option<Seq<char>>, mapped: Seq<(Seq<char>, int)>) -> Option<int> {
    match selected {
        None => if mapped.len() > 0 {
            Some(0)
        } else {
            None
        },
        Some(name) => if maps_name(mapped, name) {
            Some(first_mapped(mapped, name))
        } else {
            None
        },
    }
}

/// The position of the first mapped rig with the name.
pub open spec fn first_mapped(mapped: Seq<(Seq<char>, int)>, name: Seq<char>) -> int {
    choose|i: int|
        0 <= i < mapped.len() && (#[trigger] mapped[i]).0 == name && forall|j: int|
            0 <= j < i ==> (#[trigger] mapped[j]).0 != name
}

proof fn lemma_first_mapped(mapped: Seq<(Seq<char>, int)>, name: Seq<char>, i: int)
    requires
        0 <= i < mapped.len(),
        mapped[i].0 == name,
        forall|j: int| 0 <= j < i ==> (#[trigger] mapped[j]).0 != name,
    ensures
        first_mapped(mapped, name) == i,
        maps_name(mapped, name),
{
    let k = first_mapped(mapped, name);
    assert(0 <= k < mapped.len() && mapped[k].0 == name && forall|j: int|
        0 <= j < k ==> (#[trigger] mapped[j]).0 != name);
    assert(!(k < i));
    assert(!(i < k));
}

/// The mapped rig whose state stands for the selected rig.
pub fn global_target_for_snapshot(selected: &Option<String>, mapped: &Vec<MappedRig>) -> (res: Option<
    usize,
>)
    ensures
        res matches Some(i) ==> i < mapped@.len(),
        (match res {
            Some(i) => Some(i as int),
            None => None,
        }) == target_of(opt_view(*selected), mapped_views(mapped@)),
{
    let ghost views = mapped_views(mapped@);
    match selected {
        None => if mapped.len() > 0 {
            Some(0)
        } else {
            None
        },
        Some(name) => {
            let mut i: usize = 0;
            while i < mapped.len()
                invariant
                    i <= mapped@.len(),
                    views == mapped_views(mapped@),
                    opt_view(*selected) == Some(name@),
                    forall|j: int| 0 <= j < i ==> (#[trigger] views[j]).0 != name@,
                decreases mapped@.len() - i,
            {
                assert(views[i as int].0 == mapped@[i as int].key@);
                if str_eq(mapped[i].key.as_str(), name.as_str()) {
                    proof {
                        lemma_first_mapped(views, name@, i as int);
                    }
                    return Some(i);
                }
                i = i + 1;
            }
            None
        },
    }
}

/// What a fresh list of a server's rigs comes to.
#[derive(Debug)]
pub struct Refresh {
    /// The rigs by local name.
    pub mapped: Vec<MappedRig>,
    /// The mapped rig whose state stands for the selected rig.
    pub target: Option<usize>,
    /// The rigs whose state is no longer kept.
    pub dropped: Vec<String>,
}

/// Whether the state of a rig is kept after a fresh list: its server is another, or it is mapped.
pub open spec fn keeps_state(
    config: RemoteClientConfig,
    mapped: Seq<(Seq<char>, int)>,
    name: Seq<char>,
) -> bool {
    !config.owns(name) || maps_name(mapped, name)
}

/// The rigs whose state is kept after a fresh list.
pub open spec fn states_after(
    config: RemoteClientConfig,
    mapped: Seq<(Seq<char>, int)>,
) -> Set<Seq<char>> {
    Set::new(
        |name: Seq<char>|
            (config.rig_states@.contains_key(name) || maps_name(mapped, name)) && keeps_state(
                config,
                mapped,
                name,
            ),
    )
}

/// The servers' connections after a fresh list: those of the mapped rigs are up.
pub open spec fn connections_after(
    connected: Map<Seq<char>, bool>,
    mapped: Seq<(Seq<char>, int)>,
) -> Map<Seq<char>, bool>
    decreases mapped.len(),
{
    if mapped.len() == 0 {
        connected
    } else {
        connections_after(connected, mapped.drop_last()).insert(mapped.last().0, true)
    }
}

fn mark_connected(connected: &mut Table<bool>, mapped: &Vec<MappedRig>)
    requires
        old(connected).wf(),
    ensures
        final(connected).wf(),
        final(connected)@ == connections_after(old(connected)@, mapped_views(mapped@)),
{
    let ghost views = mapped_views(mapped@);
    let ghost start = connected@;
    let mut i: usize = 0;
    assert(views.take(0) =~= Seq::<(Seq<char>, int)>::empty());
    while i < mapped.len()
        invariant
            i <= mapped@.len(),
            connected.wf(),
            views == mapped_views(mapped@),
            connected@ == connections_after(start, views.take(i as int)),
        decreases mapped@.len() - i,
    {
        assert(views.take(i + 1).drop_last() =~= views.take(i as int));
        assert(views.take(i + 1).last().0 == mapped@[i as int].key@);
        connected.insert(mapped[i].key.as_str(), true);
        i = i + 1;
    }
    assert(views.take(views.len() as int) =~= views);
}

fn is_mapped(mapped: &Vec<MappedRig>, name: &str) -> (res: bool)
    ensures
        res == maps_name(mapped_views(mapped@), name@),
{
    find_last_mapped(mapped, name).is_some()
}

/// The states that stay, and the names of those that go.
fn retain_states(config: &RemoteClientConfig, mapped: &Vec<MappedRig>) -> (res: (
    Table<()>,
    Vec<String>,
))
    requires
        config.wf(),
    ensures
        res.0.wf(),
        forall|name: Seq<char>| #[trigger]
            res.0@.contains_key(name) <==> config.rig_states@.contains_key(name) && keeps_state(
                *config,
                mapped_views(mapped@),
                name,
            ),
        forall|name: Seq<char>| #[trigger]
            list_view(res.1@).contains(name) <==> config.rig_states@.contains_key(name)
                && !keeps_state(*config, mapped_views(mapped@), name),
{
    let ghost mv = mapped_views(mapped@);
    let ghost entries = config.rig_states.entries@;
    let mut stay: Table<()> = Table::new();
    let mut gone: Vec<String> = Vec::new();
    let mut i: usize = 0;
    while i < config.rig_states.entries.len()
        invariant
            i <= entries.len(),
            config.wf(),
            entries == config.rig_states.entries@,
            mv == mapped_views(mapped@),
            stay.wf(),
            forall|name: Seq<char>| #[trigger]
                stay@.contains_key(name) <==> keeps_state(*config, mv, name) && exists|j: int|
                    0 <= j < i && (#[trigger] entries[j]).0@ == name,
            forall|name: Seq<char>| #[trigger]
                list_view(gone@).contains(name) <==> !keeps_state(*config, mv, name) && exists|
                    j: int,
                |
                    0 <= j < i && (#[trigger] entries[j]).0@ == name,
        decreases entries.len() - i,
    {
        let name = config.rig_states.entries[i].0.as_str();
        let keep = !config_owns_short_name(config, name) || is_mapped(mapped, name);
        let ghost stay_before = stay@;
        let ghost gone_before = list_view(gone@);
        if keep {
            stay.insert(name, ());
        } else {
            gone.push(own(name));
            assert(list_view(gone@) =~= gone_before.push(name@));
        }
        proof {
            assert(entries[i as int].0@ == name@);
            assert forall|x: Seq<char>| #[trigger] stay@.contains_key(x) <==> keeps_state(
                *config,
                mv,
                x,
            ) && exists|j: int| 0 <= j < i + 1 && (#[trigger] entries[j]).0@ == x by {
                assert(stay_before.contains_key(x) <==> keeps_state(*config, mv, x) && exists|j: int|
                    0 <= j < i && (#[trigger] entries[j]).0@ == x);
            }
            let gone_now = list_view(gone@);
            assert forall|x: Seq<char>| #[trigger] gone_now.contains(x) <==> !keeps_state(
                *config,
                mv,
                x,
            ) && exists|j: int| 0 <= j < i + 1 && (#[trigger] entries[j]).0@ == x by {
                assert(gone_before.contains(x) <==> !keeps_state(*config, mv, x) && exists|j: int|
                    0 <= j < i && (#[trigger] entries[j]).0@ == x);
                if gone_before.contains(x) {
                    let k = choose|k: int| 0 <= k < gone_before.len() && gone_before[k] == x;
                    assert(gone_now[k] == x);
                }
                if gone_now.contains(x) && !gone_before.contains(x) {
                    let k = choose|k: int| 0 <= k < gone_now.len() && gone_now[k] == x;
                    assert(k < gone_before.len() ==> gone_before[k] == x);
                }
                if !keep {
                    assert(gone_now[gone_before.len() as int] == name@);
                }
            }
        }
        i = i + 1;
    }
    proof {
        assert forall|name: Seq<char>| config.rig_states@.contains_key(name) <==> exists|j: int|
            0 <= j < entries.len() && (#[trigger] entries[j]).0@ == name by {
            if config.rig_states@.contains_key(name) {
                let j = key_index(entries, name);
                assert(entries[j].0@ == name);
            }
        }
    }
    (stay, gone)
}

fn add_states(states: &mut Table<()>, mapped: &Vec<MappedRig>)
    requires
        old(states).wf(),
    ensures
        final(states).wf(),
        forall|name: Seq<char>| #[trigger]
            final(states)@.contains_key(name) <==> old(states)@.contains_key(name) || maps_name(
                mapped_views(mapped@),
                name,
            ),
{
    let ghost mv = mapped_views(mapped@);
    let mut i: usize = 0;
    while i < mapped.len()
        invariant
            i <= mapped@.len(),
            states.wf(),
            mv == mapped_views(mapped@),
            forall|name: Seq<char>| #[trigger]
                states@.contains_key(name) <==> old(states)@.contains_key(name) || exists|j: int|
                    0 <= j < i && (#[trigger] mv[j]).0 == name,
        decreases mapped@.len() - i,
    {
        let ghost before = states@;
        assert(mv[i as int].0 == mapped@[i as int].key@);
        states.insert(mapped[i].key.as_str(), ());
        assert forall|x: Seq<char>| #[trigger]
            states@.contains_key(x) <==> old(states)@.contains_key(x) || exists|j: int|
                0 <= j < i + 1 && (#[trigger] mv[j]).0 == x by {
            assert(before.contains_key(x) <==> old(states)@.contains_key(x) || exists|j: int|
                0 <= j < i && (#[trigger] mv[j]).0 == x);
        }
        i = i + 1;
    }
}

/// Why talking to a server failed.
#[derive(Debug, PartialEq, Eq)]
pub struct RemoteError {
    pub message: String,
}

/// An error with the given text.
pub fn remote_error(message: &str) -> (res: RemoteError)
    ensures
        res.message@ == message@,
{
    RemoteError { message: own(message) }
}

/// Takes in a fresh list of the server's rigs: maps them to local names, renews the known rigs,
/// selects the first where none is selected, keeps the states of the mapped rigs and of other
/// servers', and marks the mapped rigs' server as connected. A list without mapped rigs is an error,
/// which only renews the known rigs.
pub fn refresh_remote_snapshot(config: &mut RemoteClientConfig, rigs: &Vec<RigEntry>) -> (res: Result<
    Refresh,
    RemoteError,
>)
    requires
        old(config).wf(),
    ensures
        final(config).wf(),
        ({
            let m = mapping_of(
                old(config).names,
                rig_views(rigs@),
                ids_view(old(config).short_name_to_rig_id),
            );
            let target = target_of(opt_view(old(config).selected_rig_id), m.mapped);
            &&& ids_view(final(config).short_name_to_rig_id) == m.ids
            &&& known_views(final(config).known_rigs@) == cached(
                old(config).names,
                known_views(old(config).known_rigs@),
                rig_views(rigs@),
                m.mapped,
            )
            &&& final(config).token == old(config).token
            &&& final(config).names == old(config).names
            &&& final(config).rig_spectrums == old(config).rig_spectrums
            &&& final(config).spectrum_receivers == old(config).spectrum_receivers
            &&& res is Err <==> m.mapped.len() == 0
            &&& res matches Err(e) ==> {
                &&& e.message@ == "GetRigs returned no mapped rigs"@
                &&& final(config).selected_rig_id == old(config).selected_rig_id
                &&& final(config).rig_states == old(config).rig_states
                &&& final(config).rig_server_connected == old(config).rig_server_connected
            }
            &&& res matches Ok(r) ==> {
                &&& mapped_views(r.mapped@) == m.mapped
                &&& (match r.target {
                    Some(i) => Some(i as int),
                    None => None,
                }) == target
                &&& opt_view(final(config).selected_rig_id) == (match opt_view(
                    old(config).selected_rig_id,
                ) {
                    Some(s) => Some(s),
                    None => Some(m.mapped[0].0),
                })
                &&& final(config).rig_states@.dom() == states_after(*old(config), m.mapped)
                &&& forall|name: Seq<char>| #[trigger]
                    list_view(r.dropped@).contains(name) <==> old(config).rig_states@.contains_key(
                        name,
                    ) && !keeps_state(*old(config), m.mapped, name)
                &&& final(config).rig_server_connected@ == connections_after(
                    old(config).rig_server_connected@,
                    m.mapped,
                )
            }
        }),
{
    let mapped = map_rigs(config, rigs);
    cache_remote_rigs(config, rigs, &mapped);
    let ghost mv = mapped_views(mapped@);
    if mapped.len() == 0 {
        return Err(remote_error("GetRigs returned no mapped rigs"));
    }
    let target = global_target_for_snapshot(&config.selected_rig_id, &mapped);
    if config.selected_rig_id.is_none() {
        match target {
            Some(i) => {
                assert(mv[i as int].0 == mapped@[i as int].key@);
                config.selected_rig_id = Some(mapped[i].key.clone());
            },
            None => {},
        }
    }
    let (mut states, dropped) = retain_states(config, &mapped);
    proof {
        assert forall|name: Seq<char>| config.owns(name) == old(config).owns(name) by {}
    }
    add_states(&mut states, &mapped);
    config.rig_states = states;
    assert(config.rig_states@.dom() =~= states_after(*old(config), mv));
    mark_connected(&mut config.rig_server_connected, &mapped);
    Ok(Refresh { mapped, target, dropped })
}

/// The rigs of other servers stay, as they are.
pub proof fn other_servers_rigs_stay(
    names: ShortNames,
    known: Seq<RigView>,
    rigs: Seq<RigView>,
    mapped: Seq<(Seq<char>, int)>,
    i: int,
)
    requires
        0 <= i < known.len(),
        !names.has_name(known[i].rig_id),
    ensures
        merged(names, known, rigs, mapped).contains(known[i]),
{
    lemma_renewed_keeps(names, known, rigs, mapped, i);
    let r = renewed(names, known, rigs, mapped);
    let k = choose|k: int| 0 <= k < r.len() && r[k] == known[i];
    assert(merged(names, known, rigs, mapped)[k] == known[i]);
}

proof fn lemma_renewed_keeps(
    names: ShortNames,
    known: Seq<RigView>,
    rigs: Seq<RigView>,
    mapped: Seq<(Seq<char>, int)>,
    i: int,
)
    requires
        0 <= i < known.len(),
        !names.has_name(known[i].rig_id),
    ensures
        renewed(names, known, rigs, mapped).contains(known[i]),
    decreases known.len(),
{
    let all = renewed(names, known, rigs, mapped);
    let rest = renewed(names, known.drop_last(), rigs, mapped);
    if i < known.len() - 1 {
        lemma_renewed_keeps(names, known.drop_last(), rigs, mapped, i);
        let k = choose|k: int| 0 <= k < rest.len() && rest[k] == known[i];
        assert(all[k] == known[i]);
    } else {
        assert(all[rest.len() as int] == known[i]);
    }
}

/// The rig behind a mapped name is the one the name was last given to, so a request for the name
/// goes to that rig.
pub proof fn mapped_names_resolve(
    names: ShortNames,
    rigs: Seq<RigView>,
    ids: Map<Seq<char>, Seq<char>>,
    n: int,
    i: int,
)
    requires
        0 <= n <= rigs.len(),
        0 <= i < mapping_upto(names, rigs, ids, n).mapped.len(),
        forall|j: int|
            i < j < mapping_upto(names, rigs, ids, n).mapped.len() ==> (
            #[trigger] mapping_upto(names, rigs, ids, n).mapped[j]).0 != mapping_upto(
                names,
                rigs,
                ids,
                n,
            ).mapped[i].0,
    ensures
        ({
            let m = mapping_upto(names, rigs, ids, n);
            m.ids.contains_key(m.mapped[i].0) && m.ids[m.mapped[i].0] == rigs[m.mapped[i].1].rig_id
        }),
    decreases n,
{
    let m = mapping_upto(names, rigs, ids, n);
    if n > 0 {
        let before = mapping_upto(names, rigs, ids, n - 1);
        if m.mapped.len() > before.mapped.len() && i < before.mapped.len() {
            assert(m.mapped[before.mapped.len() as int].0 != m.mapped[i].0);
            assert forall|j: int| i < j < before.mapped.len() implies (
            #[trigger] before.mapped[j]).0 != before.mapped[i].0 by {
                assert(before.mapped[j] == m.mapped[j]);
            }
            assert(before.mapped[i] == m.mapped[i]);
            mapped_names_resolve(names, rigs, ids, n - 1, i);
        } else if m.mapped.len() == before.mapped.len() {
            mapped_names_resolve(names, rigs, ids, n - 1, i);
        }
    }
}

// ---------------------------------------------------------------------------------------------
// Connections
// ---------------------------------------------------------------------------------------------

/// The servers' connections after this server's has dropped: those of its rigs are down.
pub open spec fn connections_lost(config: RemoteClientConfig) -> Map<Seq<char>, bool> {
    if config.names.any() {
        Map::new(
            |k: Seq<char>|
                config.rig_server_connected@.contains_key(k) || config.names.has_name(k),
            |k: Seq<char>|
                if config.names.has_name(k) {
                    false
                } else {
                    config.rig_server_connected@[k]
                },
        )
    } else {
        config.rig_server_connected@.map_values(|up: bool| false)
    }
}

/// Marks the server of this server's rigs as disconnected and says which rigs those are.
pub fn mark_disconnected(config: &mut RemoteClientConfig) -> (res: Vec<String>)
    requires
        old(config).wf(),
    ensures
        final(config).wf(),
        final(config).rig_server_connected@ == connections_lost(*old(config)),
        *final(config) == (RemoteClientConfig {
            rig_server_connected: final(config).rig_server_connected,
            ..*old(config)
        }),
        forall|name: Seq<char>| #[trigger]
            list_view(res@).contains(name) <==> (if old(config).names.any() {
                old(config).names.has_name(name)
            } else {
                old(config).rig_server_connected@.contains_key(name)
            }),
{
    let owned = owned_names(config);
    let ghost ov = list_view(owned@);
    let ghost start = config.rig_server_connected@;
    let mut i: usize = 0;
    while i < owned.len()
        invariant
            i <= owned@.len(),
            ov == list_view(owned@),
            config.wf(),
            *config == (RemoteClientConfig {
                rig_server_connected: config.rig_server_connected,
                ..*old(config)
            }),
            forall|k: Seq<char>| #[trigger]
                config.rig_server_connected@.contains_key(k) <==> start.contains_key(k)
                    || ov.take(i as int).contains(k),
            forall|k: Seq<char>|
                config.rig_server_connected@.contains_key(k) ==> #[trigger] config.rig_server_connected@[k] == (
                !ov.take(i as int).contains(k) && start[k]),
        decreases owned@.len() - i,
    {
        let ghost before = config.rig_server_connected@;
        let ghost head = ov.take(i as int);
        let ghost next = ov.take(i + 1);
        assert(next =~= head.push(owned@[i as int]@));
        config.rig_server_connected.insert(owned[i].as_str(), false);
        assert forall|k: Seq<char>| #[trigger] next.contains(k) <==> head.contains(k) || k
            == owned@[i as int]@ by {
            if head.contains(k) {
                let j = choose|j: int| 0 <= j < head.len() && head[j] == k;
                assert(next[j] == k);
            }
            assert(next[i as int] == owned@[i as int]@);
            if next.contains(k) && k != owned@[i as int]@ {
                let j = choose|j: int| 0 <= j < next.len() && next[j] == k;
                assert(head[j] == k);
            }
        }
        assert forall|k: Seq<char>| #[trigger] config.rig_server_connected@.contains_key(
            k,
        ) <==> start.contains_key(k) || next.contains(k) by {
            assert(before.contains_key(k) <==> start.contains_key(k) || head.contains(k));
        }
        i = i + 1;
    }
    assert(ov.take(ov.len() as int) =~= ov);
    proof {
        let after = config.rig_server_connected@;
        assert forall|k: Seq<char>| after.contains_key(k) == connections_lost(
            *old(config),
        ).contains_key(k) by {
            assert(ov.contains(k) <==> if old(config).names.any() {
                old(config).names.has_name(k)
            } else {
                start.contains_key(k)
            });
        }
        assert forall|k: Seq<char>| after.contains_key(k) implies after[k] == connections_lost(
            *old(config),
        )[k] by {
            assert(ov.contains(k) <==> if old(config).names.any() {
                old(config).names.has_name(k)
            } else {
                start.contains_key(k)
            });
        }
        assert(after =~= connections_lost(*old(config)));
    }
    owned
}

fn owned_names(config: &RemoteClientConfig) -> (res: Vec<String>)
    requires
        config.wf(),
    ensures
        forall|name: Seq<char>| #[trigger]
            list_view(res@).contains(name) <==> (if config.names.any() {
                config.names.has_name(name)
            } else {
                config.rig_server_connected@.contains_key(name)
            }),
{
    let mut out: Vec<String> = Vec::new();
    let mut i: usize = 0;
    if has_short_names(config) {
        let ghost entries = config.names.by_rig.entries@;
        while i < config.names.by_rig.entries.len()
            invariant
                i <= entries.len(),
                entries == config.names.by_rig.entries@,
                out@.len() == i,
                forall|j: int| 0 <= j < i ==> (#[trigger] out@[j])@ == entries[j].1@,
            decreases entries.len() - i,
        {
            out.push(config.names.by_rig.entries[i].1.clone());
            i = i + 1;
        }
        match &config.names.default {
            Some(d) => {
                out.push(d.clone());
            },
            None => {},
        }
        assert forall|name: Seq<char>| #[trigger] list_view(out@).contains(
            name,
        ) <==> config.names.has_name(name) by {
            let v = list_view(out@);
            if v.contains(name) {
                let j = choose|j: int| 0 <= j < v.len() && v[j] == name;
                if j < entries.len() {
                    assert(entries[j].1@ == name);
                }
            }
            if config.names.has_name(name) {
                if opt_view(config.names.default) == Some(name) {
                    assert(v[entries.len() as int] == name);
                } else {
                    let j = choose|j: int|
                        0 <= j < entries.len() && (#[trigger] entries[j]).1@ == name;
                    assert(v[j] == name);
                }
            }
        }
        return out;
    }
    let ghost entries = config.rig_server_connected.entries@;
    while i < config.rig_server_connected.entries.len()
        invariant
            i <= entries.len(),
            entries == config.rig_server_connected.entries@,
            out@.len() == i,
            forall|j: int| 0 <= j < i ==> (#[trigger] out@[j])@ == entries[j].0@,
        decreases entries.len() - i,
    {
        out.push(config.rig_server_connected.entries[i].0.clone());
        i = i + 1;
    }
    assert forall|name: Seq<char>| #[trigger] list_view(out@).contains(
        name,
    ) <==> config.rig_server_connected@.contains_key(name) by {
        let v = list_view(out@);
        if v.contains(name) {
            let j = choose|j: int| 0 <= j < v.len() && v[j] == name;
            assert(entries[j].0@ == name);
        }
        if config.rig_server_connected@.contains_key(name) {
            let j = key_index(entries, name);
            assert(entries[j].0@ == name);
            assert(v[j] == name);
        }
    }
    out
}

// ---------------------------------------------------------------------------------------------
// Spectrum
// ---------------------------------------------------------------------------------------------

/// Whether a rig is set up, as far as is known: a rig that is not known counts as set up.
pub open spec fn is_initialized(known: Seq<RigView>, name: Seq<char>) -> bool
    decreases known.len(),
{
    if known.len() == 0 {
        true
    } else if known[0].rig_id == name {
        known[0].state.initialized
    } else {
        is_initialized(known.drop_first(), name)
    }
}

fn rig_initialized(known: &Vec<RemoteRigEntry>, name: &str) -> (res: bool)
    ensures
        res == is_initialized(known_views(known@), name@),
{
    let ghost views = known_views(known@);
    let mut i: usize = 0;
    assert(views.skip(0) =~= views);
    while i < known.len()
        invariant
            i <= known@.len(),
            views == known_views(known@),
            is_initialized(views, name@) == is_initialized(views.skip(i as int), name@),
        decreases known@.len() - i,
    {
        assert(views.skip(i as int)[0] == known@[i as int]@);
        assert(views.skip(i as int).drop_first() =~= views.skip(i + 1));
        if str_eq(known[i].rig_id.as_str(), name) {
            return known[i].state.initialized;
        }
        i = i + 1;
    }
    true
}

/// This server's rigs whose spectrum someone receives.
pub open spec fn watched_rigs(config: RemoteClientConfig, entries: Seq<(String, usize)>) -> Seq<
    Seq<char>,
>
    decreases entries.len(),
{
    if entries.len() == 0 {
        Seq::empty()
    } else {
        let rest = watched_rigs(config, entries.drop_last());
        let (name, count) = entries.last();
        if count > 0 && config.owns(name@) {
            rest.push(name@)
        } else {
            rest
        }
    }
}

/// This server's rigs whose spectrum is to be asked for: those someone receives, and the selected
/// one where someone receives that; only those that are set up.
pub open spec fn spectrum_rigs(config: RemoteClientConfig) -> Seq<Seq<char>> {
    let known = known_views(config.known_rigs@);
    let watched = watched_rigs(config, config.rig_spectrums.entries@);
    let all = match opt_view(config.selected_rig_id) {
        Some(s) => if config.spectrum_receivers > 0 && config.owns(s) && !watched.contains(s)
            && is_initialized(known, s) {
            watched.push(s)
        } else {
            watched
        },
        None => watched,
    };
    all.filter(|name: Seq<char>| is_initialized(known, name))
}

/// This server's rigs whose spectrum is to be asked for.
pub fn active_spectrum_rig_ids(config: &RemoteClientConfig) -> (res: Vec<String>)
    requires
        config.wf(),
    ensures
        list_view(res@) == spectrum_rigs(*config),
{
    let ghost entries = config.rig_spectrums.entries@;
    let ghost known = known_views(config.known_rigs@);
    let mut ids: Vec<String> = Vec::new();
    let mut i: usize = 0;
    assert(list_view(ids@) =~= watched_rigs(*config, entries.take(0)));
    while i < config.rig_spectrums.entries.len()
        invariant
            i <= entries.len(),
            entries == config.rig_spectrums.entries@,
            list_view(ids@) == watched_rigs(*config, entries.take(i as int)),
        decreases entries.len() - i,
    {
        let ghost before = list_view(ids@);
        assert(entries.take(i + 1).drop_last() =~= entries.take(i as int));
        let name = config.rig_spectrums.entries[i].0.as_str();
        if config.rig_spectrums.entries[i].1 > 0 && config_owns_short_name(config, name) {
            ids.push(own(name));
            assert(list_view(ids@) =~= before.push(name@));
        }
        i = i + 1;
    }
    assert(entries.take(entries.len() as int) =~= entries);
    let ghost watched = list_view(ids@);
    if config.spectrum_receivers > 0 {
        match &config.selected_rig_id {
            Some(s) => {
                proof {
                    lemma_list_has(ids@, s@);
                }
                if config_owns_short_name(config, s.as_str()) && !list_contains(&ids, s.as_str())
                    && rig_initialized(&config.known_rigs, s.as_str()) {
                    ids.push(s.clone());
                    assert(list_view(ids@) =~= watched.push(s@));
                }
            },
            None => {},
        }
    }
    let ghost all = list_view(ids@);
    let ghost rule = |name: Seq<char>| is_initialized(known, name);
    let mut out: Vec<String> = Vec::new();
    let mut k: usize = 0;
    proof {
        reveal(Seq::filter);
        assert(all.take(0) =~= Seq::<Seq<char>>::empty());
        assert(list_view(out@) =~= all.take(0).filter(rule));
    }
    while k < ids.len()
        invariant
            k <= ids@.len(),
            all == list_view(ids@),
            known == known_views(config.known_rigs@),
            rule == (|name: Seq<char>| is_initialized(known, name)),
            list_view(out@) == all.take(k as int).filter(rule),
        decreases ids@.len() - k,
    {
        let ghost before = list_view(out@);
        proof {
            reveal(Seq::filter);
            assert(all.take(k + 1).drop_last() =~= all.take(k as int));
            assert(all.take(k + 1).last() == ids@[k as int]@);
        }
        if rig_initialized(&config.known_rigs, ids[k].as_str()) {
            out.push(ids[k].clone());
            assert(list_view(out@) =~= before.push(ids@[k as int]@));
        }
        k = k + 1;
    }
    assert(all.take(all.len() as int) =~= all);
    out
}

/// What is done with the answer to a request for the spectrum of a rig.
#[derive(Clone, Copy, Debug, PartialEq, Eq, Structural)]
pub enum SpectrumStep {
    /// The spectrum becomes that of the rig, and the shared one where `shared` is set.
    Publish { shared: bool },
    /// The connection ends; there is no shared spectrum any more where `clear_shared` is set.
    Fail { clear_shared: bool },
}

/// What is done with the answer to a request for the spectrum of a rig. The shared spectrum is that
/// of the selected rig; it goes where the rig's own server fails.
pub fn spectrum_step(
    config: &RemoteClientConfig,
    selected: &Option<String>,
    rig_id: &str,
    answered: bool,
) -> (res: SpectrumStep)
    ensures
        res == (if answered {
            SpectrumStep::Publish { shared: opt_view(*selected) == Some(rig_id@) }
        } else {
            SpectrumStep::Fail {
                clear_shared: opt_view(*selected) == Some(rig_id@) && config.owns(rig_id@),
            }
        }),
{
    let is_selected = match selected {
        Some(s) => str_eq(s.as_str(), rig_id),
        None => false,
    };
    if answered {
        SpectrumStep::Publish { shared: is_selected }
    } else {
        SpectrumStep::Fail { clear_shared: is_selected && config_owns_short_name(config, rig_id) }
    }
}

/// Every rig whose spectrum is asked for belongs to this server.
pub proof fn spectrum_only_of_own_rigs(config: RemoteClientConfig, i: int)
    requires
        0 <= i < spectrum_rigs(config).len(),
    ensures
        config.owns(spectrum_rigs(config)[i]),
        is_initialized(known_views(config.known_rigs@), spectrum_rigs(config)[i]),
{
    let known = known_views(config.known_rigs@);
    let rule = |name: Seq<char>| is_initialized(known, name);
    let watched = watched_rigs(config, config.rig_spectrums.entries@);
    let all = match opt_view(config.selected_rig_id) {
        Some(s) => if config.spectrum_receivers > 0 && config.owns(s) && !watched.contains(s)
            && is_initialized(known, s) {
            watched.push(s)
        } else {
            watched
        },
        None => watched,
    };
    all.lemma_filter_pred(rule, i);
    all.lemma_filter_contains_rev(rule, spectrum_rigs(config)[i]);
    let k = choose|k: int| 0 <= k < all.len() && all[k] == spectrum_rigs(config)[i];
    lemma_watched_owned(config, config.rig_spectrums.entries@);
    if k < watched.len() {
        assert(all[k] == watched[k]);
    }
}

proof fn lemma_watched_owned(config: RemoteClientConfig, entries: Seq<(String, usize)>)
    ensures
        forall|k: int|
            0 <= k < watched_rigs(config, entries).len() ==> config.owns(
                #[trigger] watched_rigs(config, entries)[k],
            ),
    decreases entries.len(),
{
    if entries.len() > 0 {
        lemma_watched_owned(config, entries.drop_last());
        let rest = watched_rigs(config, entries.drop_last());
        let all = watched_rigs(config, entries);
        assert forall|k: int| 0 <= k < all.len() implies config.owns(#[trigger] all[k]) by {
            if k < rest.len() {
                assert(all[k] == rest[k]);
            }
        }
    }
}

// ---------------------------------------------------------------------------------------------
// Replies
// ---------------------------------------------------------------------------------------------

/// What a reply carries, where it reports success and carries it.
pub fn reply_payload<T>(success: bool, payload: Option<T>, error: Option<String>, missing: &str) -> (res:
    Result<T, RemoteError>)
    ensures
        success && payload is Some ==> res == Ok::<T, RemoteError>(payload->0),
        success && payload is None ==> res is Err && res->Err_0.message@ == missing@,
        !success ==> res is Err && res->Err_0.message@ == (match error {
            Some(e) => e@,
            None => "remote error"@,
        }),
{
    if success {
        match payload {
            Some(v) => Ok(v),
            None => Err(remote_error(missing)),
        }
    } else {
        match error {
            Some(e) => Err(RemoteError { message: e }),
            None => Err(remote_error("remote error")),
        }
    }
}

/// The state in a reply to a command.
pub fn snapshot_of_reply<T>(success: bool, state: Option<T>, error: Option<String>) -> (res: Result<
    T,
    RemoteError,
>)
    ensures
        success && state is Some ==> res == Ok::<T, RemoteError>(state->0),
        success && state is None ==> res is Err && res->Err_0.message@ == "missing snapshot"@,
        !success ==> res is Err && res->Err_0.message@ == (match error {
            Some(e) => e@,
            None => "remote error"@,
        }),
{
    reply_payload(success, state, error, "missing snapshot")
}

/// The rigs in a reply to a request for them.
pub fn rigs_of_reply<T>(success: bool, rigs: Option<T>, error: Option<String>) -> (res: Result<
    T,
    RemoteError,
>)
    ensures
        success && rigs is Some ==> res == Ok::<T, RemoteError>(rigs->0),
        success && rigs is None ==> res is Err && res->Err_0.message@
            == "missing rigs list in GetRigs response"@,
        !success ==> res is Err && res->Err_0.message@ == (match error {
            Some(e) => e@,
            None => "remote error"@,
        }),
{
    reply_payload(success, rigs, error, "missing rigs list in GetRigs response")
}

/// The satellite passes in a reply to a request for them.
pub fn sat_passes_of_reply<T>(success: bool, passes: Option<T>, error: Option<String>) -> (res: Result<
    T,
    RemoteError,
>)
    ensures
        success && passes is Some ==> res == Ok::<T, RemoteError>(passes->0),
        success && passes is None ==> res is Err && res->Err_0.message@
            == "missing sat_passes in GetSatPasses response"@,
        !success ==> res is Err && res->Err_0.message@ == (match error {
            Some(e) => e@,
            None => "remote error"@,
        }),
{
    reply_payload(success, passes, error, "missing sat_passes in GetSatPasses response")
}

/// The rig whose kept state a reply to a command renews: the one it was for, or the selected one.
pub fn channel_key(config: &RemoteClientConfig, rig_id_override: &Option<String>) -> (res: Option<
    String,
>)
    ensures
        opt_view(res) == (match opt_view(*rig_id_override) {
            Some(n) => Some(n),
            None => opt_view(config.selected_rig_id),
        }),
{
    match rig_id_override {
        Some(n) => Some(n.clone()),
        None => opt_clone(&config.selected_rig_id),
    }
}

/// A step of talking to the server that took longer than so many seconds.
pub fn timed_out(step: &str, secs: u64) -> (res: RemoteError)
    ensures
        res.message@ == step@ + " timed out after "@ + (decimal(secs as nat) + "s"@),
{
    let n = u64_text(secs);
    let limit = join2(n.as_str(), "s");
    RemoteError { message: join3(step, " timed out after ", limit.as_str()) }
}

/// A step of talking to the server that failed.
pub fn step_failed(step: &str, detail: &str) -> (res: RemoteError)
    ensures
        res.message@ == step@ + " failed: "@ + detail@,
{
    RemoteError { message: join3(step, " failed: ", detail) }
}

/// The server has closed the connection.
pub fn connection_closed() -> (res: RemoteError)
    ensures
        res.message@ == "connection closed by remote"@,
{
    remote_error("connection closed by remote")
}

// ---------------------------------------------------------------------------------------------
// Polling
// ---------------------------------------------------------------------------------------------

/// How many polls in a row may fail before the connection is dropped.
pub const MAX_CONSECUTIVE_POLL_FAILURES: u32 = 3;

/// How often satellite passes are asked for, in seconds.
pub const SAT_PASS_INTERVAL_SECS: u64 = 300;

/// How many polls in a row have failed.
#[derive(Clone, Copy, Debug, PartialEq, Eq, Structural)]
pub struct PollState {
    pub failures: u32,
}

/// The failures in a row after one more.
pub open spec fn one_more(failures: u32) -> u32 {
    if failures < u32::MAX {
        (failures + 1) as u32
    } else {
        u32::MAX
    }
}

/// Whether a failed poll drops the connection at once.
pub open spec fn is_fatal(message: Seq<char>) -> bool {
    occurs_in(message, "timed out"@) || occurs_in(message, "connection closed"@)
}

impl PollState {
    /// No poll has failed.
    pub fn new() -> (res: Self)
        ensures
            res.failures == 0,
    {
        PollState { failures: 0 }
    }

    /// A poll has succeeded.
    pub fn succeeded(&mut self)
        ensures
            final(self).failures == 0,
    {
        self.failures = 0;
    }

    /// A poll has failed. Says the error to drop the connection with, if it is to be dropped: a
    /// timeout or a closed connection at once, any other after a number of failures in a row.
    pub fn failed(&mut self, message: &str) -> (res: Option<RemoteError>)
        ensures
            final(self).failures == one_more(old(self).failures),
            old(self).failures < u32::MAX ==> final(self).failures == old(self).failures + 1,
            occurs_in(message@, "timed out"@) || occurs_in(message@, "connection closed"@)
                ==> res is Some,
            old(self).failures >= 2 ==> res is Some,
            old(self).failures < 2 && !occurs_in(message@, "timed out"@) && !occurs_in(
                message@,
                "connection closed"@,
            ) ==> res is None,
            res is Some <==> is_fatal(message@) || one_more(old(self).failures)
                >= MAX_CONSECUTIVE_POLL_FAILURES,
            res matches Some(e) ==> e.message@ == (if is_fatal(message@) {
                message@
            } else {
                "remote poll failed "@ + decimal(one_more(old(self).failures) as nat)
                    + " consecutive times: "@ + message@
            }),
    {
        if self.failures < u32::MAX {
            self.failures = self.failures + 1;
        }
        if contains(message, "timed out") || contains(message, "connection closed") {
            return Some(remote_error(message));
        }
        if self.failures >= MAX_CONSECUTIVE_POLL_FAILURES {
            let n = u64_text(self.failures as u64);
            let head = join3("remote poll failed ", n.as_str(), " consecutive times: ");
            return Some(RemoteError { message: join2(head.as_str(), message) });
        }
        None
    }
}

/// Whether so much time has passed since something was last done that it is due again.
pub fn is_due(elapsed_ms: u64, interval_ms: u64) -> (res: bool)
    ensures
        res == (elapsed_ms >= interval_ms),
{
    elapsed_ms >= interval_ms
}

// ---------------------------------------------------------------------------------------------
// What the list of rigs comes to
// ---------------------------------------------------------------------------------------------

/// Whether no other rig of the server goes by the name of the one mapped at `i`.
pub open spec fn once_mapped(mapped: Seq<(Seq<char>, int)>, i: int) -> bool {
    forall|j: int| 0 <= j < mapped.len() && j != i ==> (#[trigger] mapped[j]).0 != mapped[i].0
}

proof fn lemma_renewed_at(
    names: ShortNames,
    known: Seq<RigView>,
    rigs: Seq<RigView>,
    mapped: Seq<(Seq<char>, int)>,
    k: int,
) -> (p: int)
    requires
        0 <= k < renewed(names, known, rigs, mapped).len(),
    ensures
        0 <= p < known.len(),
        renewal(names, known[p], rigs, mapped) == Some(renewed(names, known, rigs, mapped)[k]),
    decreases known.len(),
{
    let rest = renewed(names, known.drop_last(), rigs, mapped);
    if k < rest.len() {
        let p = lemma_renewed_at(names, known.drop_last(), rigs, mapped, k);
        assert(known.drop_last()[p] == known[p]);
        p
    } else {
        known.len() - 1
    }
}

proof fn lemma_renewed_has(
    names: ShortNames,
    known: Seq<RigView>,
    rigs: Seq<RigView>,
    mapped: Seq<(Seq<char>, int)>,
    p: int,
) -> (k: int)
    requires
        0 <= p < known.len(),
        renewal(names, known[p], rigs, mapped) is Some,
    ensures
        0 <= k < renewed(names, known, rigs, mapped).len(),
        renewal(names, known[p], rigs, mapped) == Some(renewed(names, known, rigs, mapped)[k]),
    decreases known.len(),
{
    let rest = renewed(names, known.drop_last(), rigs, mapped);
    if p < known.len() - 1 {
        assert(known.drop_last()[p] == known[p]);
        lemma_renewed_has(names, known.drop_last(), rigs, mapped, p)
    } else {
        rest.len() as int
    }
}

proof fn lemma_newcomer_at(
    names: ShortNames,
    known: Seq<RigView>,
    rigs: Seq<RigView>,
    mapped: Seq<(Seq<char>, int)>,
    n: int,
    k: int,
) -> (p: int)
    requires
        0 <= k < newcomers(names, known, rigs, mapped, n).len(),
    ensures
        0 <= p < n,
        newcomers(names, known, rigs, mapped, n)[k] == as_known(rigs, mapped[p]),
    decreases n,
{
    let rest = newcomers(names, known, rigs, mapped, n - 1);
    if k < rest.len() {
        lemma_newcomer_at(names, known, rigs, mapped, n - 1, k)
    } else {
        n - 1
    }
}

proof fn lemma_newcomer_has(
    names: ShortNames,
    known: Seq<RigView>,
    rigs: Seq<RigView>,
    mapped: Seq<(Seq<char>, int)>,
    n: int,
    p: int,
) -> (k: int)
    requires
        0 <= p < n,
        !(names.has_name(mapped[p].0) && exists|i: int|
            0 <= i < known.len() && (#[trigger] known[i]).rig_id == mapped[p].0),
    ensures
        0 <= k < newcomers(names, known, rigs, mapped, n).len(),
        newcomers(names, known, rigs, mapped, n)[k] == as_known(rigs, mapped[p]),
    decreases n,
{
    let rest = newcomers(names, known, rigs, mapped, n - 1);
    if p < n - 1 {
        lemma_newcomer_has(names, known, rigs, mapped, n - 1, p)
    } else {
        rest.len() as int
    }
}

proof fn lemma_once_mapped(mapped: Seq<(Seq<char>, int)>, i: int)
    requires
        0 <= i < mapped.len(),
        once_mapped(mapped, i),
    ensures
        maps_name(mapped, mapped[i].0),
        last_mapped(mapped, mapped[i].0) == i,
{
    let name = mapped[i].0;
    assert(mapped[i].0 == name && forall|j: int| i < j < mapped.len() ==> (
    #[trigger] mapped[j]).0 != name);
    let l = last_mapped(mapped, name);
    assert(mapped[l].0 == name);
}

/// After the list of a server has come in, the client's entry under the name of a rig that the server
/// lists says of it what the server says: its display name, its audio port, and whether it is set up.
pub proof fn known_rigs_follow_the_server(
    names: ShortNames,
    known: Seq<RigView>,
    rigs: Seq<RigView>,
    mapped: Seq<(Seq<char>, int)>,
    i: int,
)
    requires
        0 <= i < mapped.len(),
        once_mapped(mapped, i),
        names.any() ==> names.has_name(mapped[i].0),
    ensures
        exists|k: int|
            0 <= k < cached(names, known, rigs, mapped).len() && (#[trigger] cached(
                names,
                known,
                rigs,
                mapped,
            )[k]).rig_id == mapped[i].0,
        forall|k: int|
            0 <= k < cached(names, known, rigs, mapped).len() && (#[trigger] cached(
                names,
                known,
                rigs,
                mapped,
            )[k]).rig_id == mapped[i].0 ==> {
                let rig = cached(names, known, rigs, mapped)[k];
                let listed = rigs[mapped[i].1];
                &&& rig.display_name == listed.display_name
                &&& rig.audio_port == listed.audio_port
                &&& rig.state.initialized == listed.state.initialized
            },
{
    let name = mapped[i].0;
    let n = mapped.len() as int;
    let after = cached(names, known, rigs, mapped);
    lemma_once_mapped(mapped, i);
    let next = if names.any() {
        merged(names, known, rigs, mapped)
    } else {
        Seq::new(mapped.len(), |i: int| as_known(rigs, mapped[i]))
    };
    let old_part = renewed(names, known, rigs, mapped);
    let new_part = newcomers(names, known, rigs, mapped, n);
    assert forall|k: int| 0 <= k < next.len() && (#[trigger] next[k]).rig_id == name implies next[k]
        == as_known(rigs, mapped[i]) by {
        if names.any() {
            if k < old_part.len() {
                let p = lemma_renewed_at(names, known, rigs, mapped, k);
                assert(next[k] == old_part[k]);
                if names.has_name(known[p].rig_id) {
                    let at = choose|at: int|
                        0 <= at < mapped.len() && (#[trigger] mapped[at]).0 == known[p].rig_id;
                    lemma_last_mapped(mapped, at);
                }
            } else {
                let p = lemma_newcomer_at(names, known, rigs, mapped, n, k - old_part.len());
                assert(next[k] == new_part[k - old_part.len()]);
                assert(mapped[p].0 == name);
            }
        } else {
            assert(mapped[k].0 == name);
        }
    }
    assert(exists|k: int| 0 <= k < next.len() && (#[trigger] next[k]).rig_id == name) by {
        if names.any() {
            if exists|p: int| 0 <= p < known.len() && (#[trigger] known[p]).rig_id == name {
                let p = choose|p: int| 0 <= p < known.len() && (#[trigger] known[p]).rig_id == name;
                let k = lemma_renewed_has(names, known, rigs, mapped, p);
                assert(next[k] == old_part[k]);
                assert(next[k].rig_id == name);
            } else {
                let k = lemma_newcomer_has(names, known, rigs, mapped, n, i);
                assert(next[old_part.len() + k] == new_part[k]);
                assert(next[old_part.len() + k].rig_id == name);
            }
        } else {
            assert(next[i].rig_id == name);
        }
    }
    if lists_look_same(known, next) {
        assert(after == known);
        let k = choose|k: int| 0 <= k < next.len() && (#[trigger] next[k]).rig_id == name;
        assert(looks_same(known[k], next[k]));
        assert(after[k].rig_id == name);
        assert forall|k: int| 0 <= k < after.len() && (#[trigger] after[k]).rig_id == name implies ({
            let listed = rigs[mapped[i].1];
            &&& after[k].display_name == listed.display_name
            &&& after[k].audio_port == listed.audio_port
            &&& after[k].state.initialized == listed.state.initialized
        }) by {
            assert(looks_same(known[k], next[k]));
            assert(next[k].rig_id == name);
        }
    } else {
        assert(after == next);
        let k = choose|k: int| 0 <= k < next.len() && (#[trigger] next[k]).rig_id == name;
        assert(after[k].rig_id == name);
    }
}

/// A rig of this server that the server does not list any more is not known any more.
pub proof fn rigs_that_are_not_listed_go(
    names: ShortNames,
    known: Seq<RigView>,
    rigs: Seq<RigView>,
    mapped: Seq<(Seq<char>, int)>,
    k: int,
)
    requires
        0 <= k < cached(names, known, rigs, mapped).len(),
        names.any() ==> names.has_name(cached(names, known, rigs, mapped)[k].rig_id),
    ensures
        exists|i: int|
            0 <= i < mapped.len() && (#[trigger] mapped[i]).0 == cached(
                names,
                known,
                rigs,
                mapped,
            )[k].rig_id,
{
    let n = mapped.len() as int;
    let after = cached(names, known, rigs, mapped);
    let next = if names.any() {
        merged(names, known, rigs, mapped)
    } else {
        Seq::new(mapped.len(), |i: int| as_known(rigs, mapped[i]))
    };
    let old_part = renewed(names, known, rigs, mapped);
    if lists_look_same(known, next) {
        assert(looks_same(known[k], next[k]));
    }
    assert(after[k].rig_id == next[k].rig_id);
    if names.any() {
        if k < old_part.len() {
            let p = lemma_renewed_at(names, known, rigs, mapped, k);
            assert(next[k] == old_part[k]);
            assert(maps_name(mapped, known[p].rig_id));
            let i = choose|i: int| 0 <= i < mapped.len() && (#[trigger] mapped[i]).0 == known[p].rig_id;
            lemma_last_mapped(mapped, i);
            assert(mapped[i].0 == next[k].rig_id);
        } else {
            let p = lemma_newcomer_at(names, known, rigs, mapped, n, k - old_part.len());
            assert(mapped[p].0 == next[k].rig_id);
        }
    } else {
        assert(mapped[k].0 == next[k].rig_id);
    }
}

proof fn lemma_last_mapped(mapped: Seq<(Seq<char>, int)>, i: int)
    requires
        0 <= i < mapped.len(),
    ensures
        0 <= last_mapped(mapped, mapped[i].0) < mapped.len(),
        mapped[last_mapped(mapped, mapped[i].0)].0 == mapped[i].0,
    decreases mapped.len() - i,
{
    let name = mapped[i].0;
    if forall|j: int| i < j < mapped.len() ==> (#[trigger] mapped[j]).0 != name {
        assert(mapped[i].0 == name);
    } else {
        let j = choose|j: int| i < j < mapped.len() && (#[trigger] mapped[j]).0 == name;
        lemma_last_mapped(mapped, j);
    }
}

/// Two entries are told apart by their name, their display name, their audio port and whether the rig
/// is set up.
pub proof fn entries_are_told_apart(a: RigView, b: RigView)
    ensures
        looks_same(a, b) ==> a.rig_id == b.rig_id && a.display_name == b.display_name && a.audio_port
            == b.audio_port && a.state.initialized == b.state.initialized,
        a == b ==> looks_same(a, b),
{
}

/// What an entry is told by is all of its fields.
pub proof fn rig_entries_in_full(r: RigEntry, k: RemoteRigEntry)
    ensures
        r@.rig_id == r.rig_id@ && r@.display_name == opt_view(r.display_name) && r@.state == r.state
            && r@.audio_port == r.audio_port,
        k@.rig_id == k.rig_id@ && k@.display_name == opt_view(k.display_name) && k@.state == k.state
            && k@.audio_port == k.audio_port,
{
}

/// The default rig can transmit if any can, among those that transmit alike it is set up if any is,
/// and among those that are alike in both its id is the last in the alphabet.
pub proof fn default_rig_is_the_best(rigs: Seq<RigView>, m: int, i: int)
    requires
        is_default_rig(rigs, m),
        0 <= i < rigs.len(),
    ensures
        rigs[i].state.tx ==> rigs[m].state.tx,
        rigs[i].state.tx == rigs[m].state.tx && rigs[i].state.initialized
            ==> rigs[m].state.initialized,
        rigs[i].state == rigs[m].state ==> rigs[i].rig_id == rigs[m].rig_id || text_less(
            rigs[i].rig_id,
            rigs[m].rig_id,
        ),
{
    text_less_total(rigs[i].rig_id, rigs[m].rig_id);
    if i > m {
        assert(worse_default(rigs[i], rigs[m]));
    }
}

/// A server's rigs belong to it by their local names; one without local names has all rigs.
pub proof fn rigs_belong_by_their_names(config: RemoteClientConfig, name: Seq<char>, k: int)
    ensures
        config.names.by_rig.entries@.len() == 0 && config.names.default is None ==> config.owns(name),
        opt_view(config.names.default) == Some(name) ==> config.owns(name),
        0 <= k < config.names.by_rig.entries@.len() ==> config.owns(
            config.names.by_rig.entries@[k].1@,
        ),
        config.owns(name) && (config.names.by_rig.entries@.len() > 0 || config.names.default is Some)
            ==> opt_view(config.names.default) == Some(name) || exists|i: int|
            0 <= i < config.names.by_rig.entries@.len() && (
            #[trigger] config.names.by_rig.entries@[i]).1@ == name,
{
}

/// A request names the rig of the server that is behind the local name it is for, or else behind the
/// selected one. Without local names the name is the server's own.
pub proof fn requests_go_to_the_rig_they_are_for(config: RemoteClientConfig, name: Seq<char>)
    ensures
        opt_view(config.selected_rig_id) == Some(name) ==> wire_rig(config, None) == wire_rig(
            config,
            Some(name),
        ),
        config.selected_rig_id is None ==> wire_rig(config, None) is None,
        config.names.by_rig.entries@.len() == 0 && config.names.default is None ==> wire_rig(
            config,
            Some(name),
        ) == Some(name),
        (config.names.by_rig.entries@.len() > 0 || config.names.default is Some)
            && config.short_name_to_rig_id@.contains_key(name) ==> wire_rig(config, Some(name))
            == Some(config.short_name_to_rig_id@[name]@),
        (config.names.by_rig.entries@.len() > 0 || config.names.default is Some)
            && !config.short_name_to_rig_id@.contains_key(name) ==> wire_rig(config, Some(name)) is None,
{
}

/// Without local names every rig of the server is mapped, in order, under its own id.
pub proof fn rigs_without_names_keep_their_ids(
    names: ShortNames,
    rigs: Seq<RigView>,
    ids: Map<Seq<char>, Seq<char>>,
    i: int,
)
    requires
        names.by_rig.entries@.len() == 0,
        names.default is None,
        0 <= i < rigs.len(),
    ensures
        mapping_of(names, rigs, ids).mapped.len() == rigs.len(),
        mapping_of(names, rigs, ids).mapped[i] == (rigs[i].rig_id, i),
        mapping_of(names, rigs, ids).ids == ids,
{
}

/// A rig that has a local name is mapped under it.
pub proof fn named_rigs_are_mapped(
    names: ShortNames,
    rigs: Seq<RigView>,
    ids: Map<Seq<char>, Seq<char>>,
    n: int,
    i: int,
)
    requires
        0 <= i < n <= rigs.len(),
        names.by_rig@.contains_key(rigs[i].rig_id),
    ensures
        mapping_upto(names, rigs, ids, n).mapped.contains((names.by_rig@[rigs[i].rig_id]@, i)),
    decreases n,
{
    let all = mapping_upto(names, rigs, ids, n).mapped;
    let before = mapping_upto(names, rigs, ids, n - 1).mapped;
    if i < n - 1 {
        named_rigs_are_mapped(names, rigs, ids, n - 1, i);
        let k = choose|k: int|
            0 <= k < before.len() && before[k] == (names.by_rig@[rigs[i].rig_id]@, i);
        assert(all[k] == before[k]);
    } else {
        assert(all[before.len() as int] == (names.by_rig@[rigs[i].rig_id]@, i));
    }
}

/// A rig is mapped under the name that it has, or under the default name where it has none; no other
/// name comes up.
pub proof fn rigs_are_mapped_by_their_names(
    names: ShortNames,
    rigs: Seq<RigView>,
    ids: Map<Seq<char>, Seq<char>>,
    n: int,
    k: int,
)
    requires
        0 <= n <= rigs.len(),
        0 <= k < mapping_upto(names, rigs, ids, n).mapped.len(),
        rigs.len() > 0 ==> is_default_rig(rigs, default_rig(rigs)),
    ensures
        ({
            let (name, i) = mapping_upto(names, rigs, ids, n).mapped[k];
            &&& 0 <= i < rigs.len()
            &&& names.by_rig@.contains_key(rigs[i].rig_id) ==> name
                == names.by_rig@[rigs[i].rig_id]@
            &&& !names.by_rig@.contains_key(rigs[i].rig_id) ==> opt_view(names.default) == Some(
                name,
            )
        }),
    decreases n,
{
    let before = mapping_upto(names, rigs, ids, n - 1).mapped;
    if n > 0 && k < before.len() {
        rigs_are_mapped_by_their_names(names, rigs, ids, n - 1, k);
    }
}

/// Where there is a default name, one rig without a name of its own gets it: the server's default rig
/// if that has none, and else the first that has none.
pub proof fn one_rig_gets_the_default_name(
    names: ShortNames,
    rigs: Seq<RigView>,
    ids: Map<Seq<char>, Seq<char>>,
    n: int,
    name: Seq<char>,
    i: int,
)
    requires
        0 <= i < n <= rigs.len(),
        opt_view(names.default) == Some(name),
        !names.by_rig@.contains_key(rigs[i].rig_id),
        forall|j: int| 0 <= j < i ==> names.by_rig@.contains_key((#[trigger] rigs[j]).rig_id),
    ensures
        mapping_upto(names, rigs, ids, n).mapped.contains(
            (
                name,
                if names.by_rig@.contains_key(rigs[default_rig(rigs)].rig_id) {
                    i
                } else {
                    default_rig(rigs)
                },
            ),
        ),
        mapping_upto(names, rigs, ids, n).default_taken,
        !mapping_upto(names, rigs, ids, i).default_taken,
    decreases n,
{
    let all = mapping_upto(names, rigs, ids, n).mapped;
    let before = mapping_upto(names, rigs, ids, n - 1).mapped;
    let m = (
        name,
        if names.by_rig@.contains_key(rigs[default_rig(rigs)].rig_id) {
            i
        } else {
            default_rig(rigs)
        },
    );
    lemma_default_not_taken(names, rigs, ids, i);
    if i < n - 1 {
        one_rig_gets_the_default_name(names, rigs, ids, n - 1, name, i);
        let k = choose|k: int| 0 <= k < before.len() && before[k] == m;
        assert(all[k] == m);
    } else {
        assert(all[before.len() as int] == m);
    }
}

proof fn lemma_default_not_taken(
    names: ShortNames,
    rigs: Seq<RigView>,
    ids: Map<Seq<char>, Seq<char>>,
    n: int,
)
    requires
        n <= rigs.len(),
        forall|j: int| 0 <= j < n ==> names.by_rig@.contains_key((#[trigger] rigs[j]).rig_id),
    ensures
        !mapping_upto(names, rigs, ids, n).default_taken,
    decreases n,
{
    if n > 0 {
        lemma_default_not_taken(names, rigs, ids, n - 1);
        assert(names.by_rig@.contains_key(rigs[n - 1].rig_id));
    }
}

/// The state that is shown to all is that of the selected rig, or of the first mapped one where none
/// is selected; where the selected rig is not of this server, nothing is shown.
pub proof fn shown_state_is_the_selected_rigs(
    selected: Option<Seq<char>>,
    mapped: Seq<(Seq<char>, int)>,
    i: int,
)
    requires
        0 <= i < mapped.len(),
    ensures
        selected is None ==> target_of(selected, mapped) == Some(0int),
        selected == Some(mapped[i].0) && (forall|j: int|
            0 <= j < i ==> (#[trigger] mapped[j]).0 != mapped[i].0) ==> target_of(selected, mapped)
            == Some(i),
        target_of(selected, mapped) matches Some(t) ==> 0 <= t < mapped.len() && (
        selected matches Some(name) ==> mapped[t].0 == name),
        selected matches Some(name) ==> (target_of(selected, mapped) is None <==> forall|j: int|
            0 <= j < mapped.len() ==> (#[trigger] mapped[j]).0 != name),
{
    if let Some(name) = selected {
        if maps_name(mapped, name) {
            lemma_some_first_mapped(mapped, name);
            let f = first_mapped(mapped, name);
            assert(mapped[f].0 == name);
            if mapped[i].0 == name && forall|j: int| 0 <= j < i ==> (#[trigger] mapped[j]).0
                != mapped[i].0 {
                if f < i {
                    assert(mapped[f].0 != mapped[i].0);
                }
                if i < f {
                    assert(mapped[i].0 != name);
                }
            }
        }
    }
}

proof fn lemma_some_first_mapped(mapped: Seq<(Seq<char>, int)>, name: Seq<char>)
    requires
        maps_name(mapped, name),
    ensures
        0 <= first_mapped(mapped, name) < mapped.len(),
        mapped[first_mapped(mapped, name)].0 == name,
        forall|j: int|
            0 <= j < first_mapped(mapped, name) ==> (#[trigger] mapped[j]).0 != name,
{
    let i = choose|i: int| 0 <= i < mapped.len() && (#[trigger] mapped[i]).0 == name;
    lemma_earlier_mapped(mapped, name, i);
}

proof fn lemma_earlier_mapped(mapped: Seq<(Seq<char>, int)>, name: Seq<char>, i: int)
    requires
        0 <= i < mapped.len(),
        mapped[i].0 == name,
    ensures
        exists|f: int|
            0 <= f < mapped.len() && (#[trigger] mapped[f]).0 == name && forall|j: int|
                0 <= j < f ==> (#[trigger] mapped[j]).0 != name,
    decreases i,
{
    if exists|j: int| 0 <= j < i && (#[trigger] mapped[j]).0 == name {
        let j = choose|j: int| 0 <= j < i && (#[trigger] mapped[j]).0 == name;
        lemma_earlier_mapped(mapped, name, j);
    } else {
        assert(mapped[i].0 == name);
    }
}

/// States are kept of the rigs that the server lists and of the rigs of other servers.
pub proof fn states_are_kept_of_listed_rigs(
    config: RemoteClientConfig,
    mapped: Seq<(Seq<char>, int)>,
    name: Seq<char>,
)
    ensures
        states_after(config, mapped).contains(name) <==> (exists|i: int|
            0 <= i < mapped.len() && (#[trigger] mapped[i]).0 == name)
            || config.rig_states@.contains_key(name) && !config.owns(name),
{
}

/// The server of every mapped rig is connected, and of the others what was known stays known.
pub proof fn listed_rigs_are_connected(
    connected: Map<Seq<char>, bool>,
    mapped: Seq<(Seq<char>, int)>,
    name: Seq<char>,
)
    ensures
        (exists|i: int| 0 <= i < mapped.len() && (#[trigger] mapped[i]).0 == name)
            ==> connections_after(connected, mapped).contains_key(name) && connections_after(
            connected,
            mapped,
        )[name],
        !(exists|i: int| 0 <= i < mapped.len() && (#[trigger] mapped[i]).0 == name) ==> (
        connections_after(connected, mapped).contains_key(name) <==> connected.contains_key(name))
            && (connected.contains_key(name) ==> connections_after(connected, mapped)[name]
            == connected[name]),
    decreases mapped.len(),
{
    if mapped.len() > 0 {
        let front = mapped.drop_last();
        listed_rigs_are_connected(connected, front, name);
        if exists|i: int| 0 <= i < front.len() && (#[trigger] front[i]).0 == name {
            let i = choose|i: int| 0 <= i < front.len() && (#[trigger] front[i]).0 == name;
            assert(mapped[i].0 == name);
        }
        if exists|i: int| 0 <= i < mapped.len() && (#[trigger] mapped[i]).0 == name {
            let i = choose|i: int| 0 <= i < mapped.len() && (#[trigger] mapped[i]).0 == name;
            if i < front.len() {
                assert(front[i].0 == name);
            }
        }
        assert(mapped[mapped.len() - 1] == mapped.last());
    }
}

/// When the connection is lost, this server's rigs are not connected any more, and those of other
/// servers stay as they are.
pub proof fn lost_connections_are_this_servers(config: RemoteClientConfig, name: Seq<char>)
    ensures
        config.names.any() && config.names.has_name(name) ==> connections_lost(config).contains_key(
            name,
        ) && !connections_lost(config)[name],
        config.names.any() && !config.names.has_name(name) ==> (connections_lost(
            config,
        ).contains_key(name) <==> config.rig_server_connected@.contains_key(name)) && (
        config.rig_server_connected@.contains_key(name) ==> connections_lost(config)[name]
            == config.rig_server_connected@[name]),
        !config.names.any() && config.rig_server_connected@.contains_key(name) ==> connections_lost(
            config,
        ).contains_key(name) && !connections_lost(config)[name],
{
}

proof fn lemma_watched_has(config: RemoteClientConfig, entries: Seq<(String, usize)>, name: Seq<char>)
    ensures
        watched_rigs(config, entries).contains(name) <==> config.owns(name) && exists|i: int|
            0 <= i < entries.len() && (#[trigger] entries[i]).0@ == name && entries[i].1 > 0,
    decreases entries.len(),
{
    if entries.len() > 0 {
        let front = entries.drop_last();
        let all = watched_rigs(config, entries);
        let rest = watched_rigs(config, front);
        lemma_watched_has(config, front, name);
        let last = entries.last();
        assert(entries[entries.len() - 1] == last);
        if rest.contains(name) {
            let k = choose|k: int| 0 <= k < rest.len() && rest[k] == name;
            assert(all[k] == name);
            let i = choose|i: int|
                0 <= i < front.len() && (#[trigger] front[i]).0@ == name && front[i].1 > 0;
            assert(entries[i].0@ == name);
        }
        if last.0@ == name && last.1 > 0 && config.owns(name) {
            assert(all[rest.len() as int] == name);
        }
        if all.contains(name) && !rest.contains(name) {
            let k = choose|k: int| 0 <= k < all.len() && all[k] == name;
            if k < rest.len() {
                assert(rest[k] == name);
            }
        }
        if exists|i: int| 0 <= i < entries.len() && (#[trigger] entries[i]).0@ == name && entries[i].1
            > 0 {
            let i = choose|i: int|
                0 <= i < entries.len() && (#[trigger] entries[i]).0@ == name && entries[i].1 > 0;
            if i < front.len() {
                assert(front[i].0@ == name);
            }
        }
    }
}

/// The spectrum is asked for of exactly those rigs of this server that someone receives, or that are
/// selected while someone receives the selected one, and that are set up as far as is known.
pub proof fn spectrum_of_the_rigs_that_are_received(config: RemoteClientConfig, name: Seq<char>)
    ensures
        spectrum_rigs(config).contains(name) <==> {
            &&& config.owns(name)
            &&& is_initialized(known_views(config.known_rigs@), name)
            &&& opt_view(config.selected_rig_id) == Some(name) && config.spectrum_receivers > 0
                || exists|i: int|
                0 <= i < config.rig_spectrums.entries@.len() && (
                #[trigger] config.rig_spectrums.entries@[i]).0@ == name
                    && config.rig_spectrums.entries@[i].1 > 0
        },
{
    let known = known_views(config.known_rigs@);
    let rule = |name: Seq<char>| is_initialized(known, name);
    let watched = watched_rigs(config, config.rig_spectrums.entries@);
    let all = match opt_view(config.selected_rig_id) {
        Some(s) => if config.spectrum_receivers > 0 && config.owns(s) && !watched.contains(s)
            && is_initialized(known, s) {
            watched.push(s)
        } else {
            watched
        },
        None => watched,
    };
    lemma_watched_has(config, config.rig_spectrums.entries@, name);
    assert(spectrum_rigs(config) == all.filter(rule));
    if all.contains(name) && rule(name) {
        let k = choose|k: int| 0 <= k < all.len() && all[k] == name;
        all.lemma_filter_contains(rule, k);
    }
    if all.filter(rule).contains(name) {
        all.lemma_filter_contains_rev(rule, name);
        let k = choose|k: int| 0 <= k < all.filter(rule).len() && all.filter(rule)[k] == name;
        all.lemma_filter_pred(rule, k);
    }
    if watched.contains(name) {
        let k = choose|k: int| 0 <= k < watched.len() && watched[k] == name;
        assert(all[k] == name);
    }
    if opt_view(config.selected_rig_id) == Some(name) && config.spectrum_receivers > 0
        && config.owns(name) && is_initialized(known, name) && !watched.contains(name) {
        assert(all[watched.len() as int] == name);
    }
    if all.contains(name) && !watched.contains(name) {
        let k = choose|k: int| 0 <= k < all.len() && all[k] == name;
        if k < watched.len() {
            assert(watched[k] == name);
        }
    }
}

/// A rig is set up where its first entry says so, and counts as set up while nothing is known of it.
pub proof fn set_up_by_the_first_entry(known: Seq<RigView>, name: Seq<char>, i: int)
    requires
        0 <= i <= known.len(),
        forall|j: int| 0 <= j < i ==> (#[trigger] known[j]).rig_id != name,
    ensures
        i < known.len() && known[i].rig_id == name ==> is_initialized(known, name)
            == known[i].state.initialized,
        i == known.len() ==> is_initialized(known, name),
    decreases known.len(),
{
    if i > 0 {
        let rest = known.drop_first();
        assert(known[0].rig_id != name);
        assert forall|j: int| 0 <= j < i - 1 implies (#[trigger] rest[j]).rig_id != name by {
            assert(rest[j] == known[j + 1]);
        }
        set_up_by_the_first_entry(rest, name, i - 1);
        if i < known.len() {
            assert(rest[i - 1] == known[i]);
        }
    }
}

/// Where no rig is listed no state is shown.
pub proof fn no_state_is_shown_without_a_rig(selected: Option<Seq<char>>)
    ensures
        target_of(selected, Seq::empty()) is None,
{
}

/// A poll that timed out or found the connection closed is the last one on that connection.
pub proof fn polls_that_end_a_connection(before: Seq<char>, after: Seq<char>, message: Seq<char>)
    ensures
        is_fatal(before + "timed out"@ + after),
        is_fatal(before + "connection closed"@ + after),
        is_fatal(message) ==> (exists|a: Seq<char>, b: Seq<char>|
            message == #[trigger] (a + "timed out"@ + b)) || (exists|a: Seq<char>, b: Seq<char>|
            message == #[trigger] (a + "connection closed"@ + b)),
{
    parts_are_found(before, "timed out"@, after);
    parts_are_found(before, "connection closed"@, after);
    found_parts_are_there(message, "timed out"@);
    found_parts_are_there(message, "connection closed"@);
}

} // verus!
