//! What was decoded, kept for some time.
use std::collections::VecDeque;
use vstd::prelude::*;

use crate::order::{
    goes_before, is_stable_order, lemma_all_kept, number_less, order_by_number, stable_order_covers,
};
use crate::table::Table;
use crate::text::{opt_clone, opt_view, str_eq};

verus! {

// ---------------------------------------------------------------------------------------------
// How long
// ---------------------------------------------------------------------------------------------

/// How many minutes of history are kept: as many as the selected rig wants, or else the default, and
/// at least one.
pub open spec fn retention_min_of(
    default_min: u64,
    by_rig: Map<Seq<char>, u64>,
    active: Option<Seq<char>>,
) -> u64 {
    let fallback = if default_min > 1 {
        default_min
    } else {
        1
    };
    match active {
        Some(rig) => if by_rig.contains_key(rig) && by_rig[rig] > 0 {
            by_rig[rig]
        } else {
            fallback
        },
        None => fallback,
    }
}

/// How many minutes of history are kept.
pub fn decode_history_retention_min(
    default_min: u64,
    by_rig: &Table<u64>,
    active: &Option<String>,
) -> (res: u64)
    requires
        by_rig.wf(),
    ensures
        res == retention_min_of(default_min, by_rig@, opt_view(*active)),
        res >= 1,
{
    let fallback: u64 = if default_min > 1 {
        default_min
    } else {
        1
    };
    match active {
        Some(rig) => match by_rig.get(rig.as_str()) {
            Some(minutes) => if *minutes > 0 {
                *minutes
            } else {
                fallback
            },
            None => fallback,
        },
        None => fallback,
    }
}

/// How many seconds of history are kept.
pub fn decode_history_retention(
    default_min: u64,
    by_rig: &Table<u64>,
    active: &Option<String>,
) -> (res: u64)
    requires
        by_rig.wf(),
    ensures
        res == ({
            let minutes = retention_min_of(default_min, by_rig@, opt_view(*active));
            if minutes * 60 <= u64::MAX {
                (minutes * 60) as u64
            } else {
                u64::MAX
            }
        }),
        res == retention_secs_of(retention_min_of(default_min, by_rig@, opt_view(*active))),
{
    let minutes: u64 = decode_history_retention_min(default_min, by_rig, active);
    if minutes <= u64::MAX / 60 {
        minutes * 60
    } else {
        u64::MAX
    }
}

// ---------------------------------------------------------------------------------------------
// Entries
// ---------------------------------------------------------------------------------------------

/// A decoded message.
#[derive(Debug)]
pub struct Decoded<T> {
    /// The rig that received it, where it is known.
    pub rig_id: Option<String>,
    /// When it was received, in milliseconds since the Unix epoch, where it is known.
    pub ts_ms: Option<i64>,
    /// The number of the sending station, of messages that have one.
    pub mmsi: u32,
    pub body: T,
}

/// A message in a history.
#[derive(Debug)]
pub struct HistoryEntry<T> {
    /// When it was recorded, in milliseconds on a clock that never goes back.
    pub at_ms: i64,
    pub rig_id: Option<String>,
    pub message: Decoded<T>,
}

/// A message as it is recorded: with the moment, where it has none of its own.
pub open spec fn stamped<T>(message: Decoded<T>, now_unix_ms: i64) -> Decoded<T> {
    Decoded {
        ts_ms: match message.ts_ms {
            Some(_) => message.ts_ms,
            None => Some(now_unix_ms),
        },
        ..message
    }
}

/// The message with the moment, where it has none of its own.
pub fn stamp<T>(message: Decoded<T>, now_unix_ms: i64) -> (res: Decoded<T>)
    ensures
        res == stamped(message, now_unix_ms),
{
    let mut m = message;
    match m.ts_ms {
        Some(_) => {},
        None => {
            m.ts_ms = Some(now_unix_ms);
        },
    }
    m
}

/// Whether an entry is younger than the retention time.
pub open spec fn is_fresh<T>(entry: HistoryEntry<T>, now_ms: i64, retention_secs: u64) -> bool {
    entry.at_ms >= now_ms - retention_secs * 1000
}

/// A history without the entries at its beginning that are too old.
pub open spec fn pruned<T>(
    entries: Seq<HistoryEntry<T>>,
    now_ms: i64,
    retention_secs: u64,
) -> Seq<HistoryEntry<T>>
    decreases entries.len(),
{
    if entries.len() == 0 || is_fresh(entries[0], now_ms, retention_secs) {
        entries
    } else {
        pruned(entries.skip(1), now_ms, retention_secs)
    }
}

/// Whether the entries are in the order in which they were recorded.
pub open spec fn in_order<T>(entries: Seq<HistoryEntry<T>>) -> bool {
    forall|i: int, j: int|
        0 <= i <= j < entries.len() ==> (#[trigger] entries[i]).at_ms <= (#[trigger] entries[j]).at_ms
}

/// Whether an entry is that of a rig; every entry is where none is asked for.
pub open spec fn of_rig(entry_rig: Option<Seq<char>>, filter: Option<Seq<char>>) -> bool {
    match filter {
        None => true,
        Some(f) => entry_rig == Some(f),
    }
}

/// Whether an entry is that of the rig.
pub fn matches_rig_filter(entry_rig: &Option<String>, filter: &Option<String>) -> (res: bool)
    ensures
        res == of_rig(opt_view(*entry_rig), opt_view(*filter)),
{
    match filter {
        None => true,
        Some(f) => match entry_rig {
            Some(e) => str_eq(e.as_str(), f.as_str()),
            None => false,
        },
    }
}

/// The messages of a rig among the first `n` entries.
pub open spec fn messages_of<T>(
    entries: Seq<HistoryEntry<T>>,
    filter: Option<Seq<char>>,
    n: int,
) -> Seq<Decoded<T>>
    decreases n,
{
    if n <= 0 {
        Seq::empty()
    } else if of_rig(opt_view(entries[n - 1].rig_id), filter) {
        messages_of(entries, filter, n - 1).push(entries[n - 1].message)
    } else {
        messages_of(entries, filter, n - 1)
    }
}

/// Whether an entry is the last of its station, among those of a rig.
pub open spec fn is_latest<T>(
    entries: Seq<HistoryEntry<T>>,
    filter: Option<Seq<char>>,
    i: int,
) -> bool {
    &&& of_rig(opt_view(entries[i].rig_id), filter)
    &&& forall|j: int|
        i < j < entries.len() ==> !(of_rig(opt_view((#[trigger] entries[j]).rig_id), filter)
            && entries[j].message.mmsi == entries[i].message.mmsi)
}

/// The positions, among the first `n`, of the entries that are the last of their station.
pub open spec fn latest_among<T>(
    entries: Seq<HistoryEntry<T>>,
    filter: Option<Seq<char>>,
    n: int,
) -> Seq<usize>
    decreases n,
{
    if n <= 0 {
        Seq::empty()
    } else if is_latest(entries, filter, n - 1) {
        latest_among(entries, filter, n - 1).push((n - 1) as usize)
    } else {
        latest_among(entries, filter, n - 1)
    }
}

/// The moment of a message; 0 where it is not known.
pub open spec fn moment_of<T>(message: Decoded<T>) -> i64 {
    match message.ts_ms {
        Some(t) => t,
        None => 0,
    }
}

/// The order of entries by the moment of their message.
pub open spec fn moment_less<T>(entries: Seq<HistoryEntry<T>>, chosen: Seq<usize>) -> spec_fn(
    int,
    int,
) -> bool {
    |a: int, b: int|
        moment_of(entries[chosen[a] as int].message) < moment_of(entries[chosen[b] as int].message)
}

/// Whether `res` is the last message of each station, by moment; those of one moment in the order in
/// which they were recorded.
pub open spec fn lists_latest<T>(
    entries: Seq<HistoryEntry<T>>,
    filter: Option<Seq<char>>,
    res: Seq<Decoded<T>>,
) -> bool {
    let chosen = latest_among(entries, filter, entries.len() as int);
    exists|ord: Seq<usize>| #[trigger]
        is_stable_order(moment_less(entries, chosen), chosen.len() as int, ord) && res.len()
            == chosen.len() && forall|i: int|
            0 <= i < res.len() ==> #[trigger] res[i]
                == entries[chosen[ord[i] as int] as int].message
}

/// The messages of one decoder.
#[derive(Debug)]
pub struct History<T> {
    pub entries: VecDeque<HistoryEntry<T>>,
}

impl<T> History<T> {
    /// Nothing has been decoded.
    pub fn new() -> (res: Self)
        ensures
            res.entries@.len() == 0,
    {
        History { entries: VecDeque::new() }
    }

    /// Drops the entries at the beginning that are too old.
    pub fn prune(&mut self, now_ms: i64, retention_secs: u64)
        ensures
            final(self).entries@ == pruned(old(self).entries@, now_ms, retention_secs),
    {
        let cutoff: i128 = now_ms as i128 - retention_secs as i128 * 1000;
        while self.entries.len() > 0 && (self.entries[0].at_ms as i128) < cutoff
            invariant
                cutoff == now_ms - retention_secs * 1000,
                pruned(self.entries@, now_ms, retention_secs) == pruned(
                    old(self).entries@,
                    now_ms,
                    retention_secs,
                ),
            decreases self.entries@.len(),
        {
            let ghost before = self.entries@;
            let dropped = self.entries.pop_front();
            assert(self.entries@ =~= before.skip(1));
        }
    }

    /// Records a message: for its own rig, or else for the selected one. Entries that have become
    /// too old go.
    pub fn record(
        &mut self,
        message: Decoded<T>,
        active_rig_id: &Option<String>,
        now_ms: i64,
        retention_secs: u64,
    )
        ensures
            exists|entry: HistoryEntry<T>| #[trigger]
                is_entry_of(entry, message, *active_rig_id, now_ms) && final(self).entries@
                    == pruned(old(self).entries@.push(entry), now_ms, retention_secs),
    {
        let rig_id = match &message.rig_id {
            Some(r) => Some(r.clone()),
            None => opt_clone(active_rig_id),
        };
        let entry = HistoryEntry { at_ms: now_ms, rig_id, message };
        assert(is_entry_of(entry, message, *active_rig_id, now_ms));
        self.entries.push_back(entry);
        self.prune(now_ms, retention_secs);
    }

    /// Adds a message that a server has sent from its own history. It is of no rig, and nothing
    /// goes.
    pub fn replay(&mut self, message: Decoded<T>, now_ms: i64)
        ensures
            final(self).entries@ == old(self).entries@.push(
                HistoryEntry { at_ms: now_ms, rig_id: None, message },
            ),
    {
        self.entries.push_back(HistoryEntry { at_ms: now_ms, rig_id: None, message });
    }

    /// Forgets everything.
    pub fn clear(&mut self)
        ensures
            final(self).entries@.len() == 0,
    {
        self.entries.clear();
    }

    /// The messages of a rig, in order.
    pub fn snapshot(&self, filter: &Option<String>) -> (res: Vec<&Decoded<T>>)
        ensures
            res@.unref() == messages_of(
                self.entries@,
                opt_view(*filter),
                self.entries@.len() as int,
            ),
    {
        let mut out: Vec<&Decoded<T>> = Vec::new();
        let mut i: usize = 0;
        assert(out@.unref() =~= messages_of(self.entries@, opt_view(*filter), 0));
        while i < self.entries.len()
            invariant
                i <= self.entries@.len(),
                out@.unref() == messages_of(self.entries@, opt_view(*filter), i as int),
            decreases self.entries@.len() - i,
        {
            let ghost before = out@.unref();
            let entry = &self.entries[i];
            if matches_rig_filter(&entry.rig_id, filter) {
                out.push(&entry.message);
                assert(out@.unref() =~= before.push(entry.message));
            }
            i = i + 1;
        }
        out
    }

    /// The last message of each station, by moment; those of one moment in the order in which they
    /// were recorded.
    pub fn latest(&self, filter: &Option<String>) -> (res: Vec<&Decoded<T>>)
        ensures
            lists_latest(self.entries@, opt_view(*filter), res@.unref()),
    {
        let mut chosen: Vec<usize> = Vec::new();
        let mut keys: Vec<u64> = Vec::new();
        let mut i: usize = 0;
        assert(chosen@ =~= latest_among(self.entries@, opt_view(*filter), 0));
        while i < self.entries.len()
            invariant
                i <= self.entries@.len(),
                chosen@ == latest_among(self.entries@, opt_view(*filter), i as int),
                keys@.len() == chosen@.len(),
                forall|k: int|
                    0 <= k < chosen@.len() ==> (#[trigger] chosen@[k]) < self.entries@.len()
                        && keys@[k] == moment_of(self.entries@[chosen@[k] as int].message)
                        + 0x8000_0000_0000_0000,
            decreases self.entries@.len() - i,
        {
            if self.latest_at(filter, i) {
                let moment: i64 = match self.entries[i].message.ts_ms {
                    Some(t) => t,
                    None => 0,
                };
                chosen.push(i);
                keys.push((moment as i128 + 0x8000_0000_0000_0000) as u64);
            }
            i = i + 1;
        }
        let ord = order_by_number(&keys);
        proof {
            lemma_same_order(self.entries@, chosen@, keys@, ord@);
        }
        let mut out: Vec<&Decoded<T>> = Vec::new();
        let mut k: usize = 0;
        while k < ord.len()
            invariant
                k <= ord@.len(),
                ord@.len() == chosen@.len(),
                forall|j: int| 0 <= j < ord@.len() ==> 0 <= #[trigger] ord@[j] < chosen@.len(),
                forall|j: int|
                    0 <= j < chosen@.len() ==> (#[trigger] chosen@[j]) < self.entries@.len(),
                out@.len() == k,
                forall|j: int|
                    0 <= j < k ==> *(#[trigger] out@[j])
                        == self.entries@[chosen@[ord@[j] as int] as int].message,
            decreases ord@.len() - k,
        {
            let at: usize = chosen[ord[k]];
            out.push(&self.entries[at].message);
            k = k + 1;
        }
        out
    }

    fn latest_at(&self, filter: &Option<String>, i: usize) -> (res: bool)
        requires
            i < self.entries@.len(),
        ensures
            res == is_latest(self.entries@, opt_view(*filter), i as int),
    {
        if !matches_rig_filter(&self.entries[i].rig_id, filter) {
            return false;
        }
        let mmsi: u32 = self.entries[i].message.mmsi;
        let n: usize = self.entries.len();
        let mut j: usize = i + 1;
        while j < self.entries.len()
            invariant
                i < j <= self.entries@.len(),
                mmsi == self.entries@[i as int].message.mmsi,
                forall|k: int|
                    i < k < j ==> !(of_rig(
                        opt_view((#[trigger] self.entries@[k]).rig_id),
                        opt_view(*filter),
                    ) && self.entries@[k].message.mmsi == mmsi),
            decreases self.entries@.len() - j,
        {
            if self.entries[j].message.mmsi == mmsi && matches_rig_filter(
                &self.entries[j].rig_id,
                filter,
            ) {
                return false;
            }
            j = j + 1;
        }
        true
    }
}

/// Whether an entry is the one for a message that is recorded at a moment.
pub open spec fn is_entry_of<T>(
    entry: HistoryEntry<T>,
    message: Decoded<T>,
    active_rig_id: Option<String>,
    now_ms: i64,
) -> bool {
    &&& entry.at_ms == now_ms
    &&& entry.message == message
    &&& opt_view(entry.rig_id) == (match opt_view(message.rig_id) {
        Some(r) => Some(r),
        None => opt_view(active_rig_id),
    })
}

proof fn lemma_same_order<T>(
    entries: Seq<HistoryEntry<T>>,
    chosen: Seq<usize>,
    keys: Seq<u64>,
    ord: Seq<usize>,
)
    requires
        keys.len() == chosen.len(),
        forall|k: int|
            0 <= k < chosen.len() ==> keys[k] == moment_of(
                entries[(#[trigger] chosen[k]) as int].message,
            ) + 0x8000_0000_0000_0000,
        is_stable_order(number_less(keys), keys.len() as int, ord),
    ensures
        is_stable_order(moment_less(entries, chosen), chosen.len() as int, ord),
{
    let n = chosen.len() as int;
    let less = number_less(keys);
    let other = moment_less(entries, chosen);
    assert forall|i: int, j: int| 0 <= i < j < n implies goes_before(
        other,
        #[trigger] ord[i] as int,
        #[trigger] ord[j] as int,
    ) by {
        let a = ord[i] as int;
        let b = ord[j] as int;
        assert(goes_before(less, a, b));
        assert(chosen[a] == chosen[a] && chosen[b] == chosen[b]);
        assert(less(a, b) == other(a, b));
        assert(less(b, a) == other(b, a));
    }
}

/// Of entries in order, exactly the fresh ones are kept.
pub proof fn prune_keeps_the_fresh<T>(
    entries: Seq<HistoryEntry<T>>,
    now_ms: i64,
    retention_secs: u64,
)
    requires
        in_order(entries),
    ensures
        pruned(entries, now_ms, retention_secs) == entries.filter(
            |e: HistoryEntry<T>| is_fresh(e, now_ms, retention_secs),
        ),
        in_order(pruned(entries, now_ms, retention_secs)),
    decreases entries.len(),
{
    let keep = |e: HistoryEntry<T>| is_fresh(e, now_ms, retention_secs);
    if entries.len() == 0 {
        reveal(Seq::filter);
        assert(entries.filter(keep) =~= entries);
    } else if is_fresh(entries[0], now_ms, retention_secs) {
        assert forall|i: int| 0 <= i < entries.len() implies keep(#[trigger] entries[i]) by {
            assert(entries[0].at_ms <= entries[i].at_ms);
        }
        lemma_all_kept(entries, keep);
    } else {
        let rest = entries.skip(1);
        assert forall|i: int, j: int| 0 <= i <= j < rest.len() implies (#[trigger] rest[i]).at_ms
            <= (#[trigger] rest[j]).at_ms by {
            assert(entries[i + 1].at_ms <= entries[j + 1].at_ms);
        }
        prune_keeps_the_fresh(rest, now_ms, retention_secs);
        let head = seq![entries[0]];
        assert(entries =~= head + rest);
        Seq::filter_distributes_over_add(head, rest, keep);
        assert(head.filter(keep) =~= Seq::empty()) by {
            reveal_with_fuel(Seq::filter, 2);
            assert(head.drop_last() =~= Seq::empty());
        }
        assert(Seq::empty() + rest.filter(keep) =~= rest.filter(keep));
    }
}

/// A message that is recorded is kept, and the order is kept too.
pub proof fn recorded_is_kept<T>(
    entries: Seq<HistoryEntry<T>>,
    entry: HistoryEntry<T>,
    now_ms: i64,
    retention_secs: u64,
)
    requires
        in_order(entries),
        entry.at_ms == now_ms,
        entries.len() > 0 ==> entries.last().at_ms <= now_ms,
    ensures
        pruned(entries.push(entry), now_ms, retention_secs).len() > 0,
        pruned(entries.push(entry), now_ms, retention_secs).last() == entry,
        in_order(pruned(entries.push(entry), now_ms, retention_secs)),
    decreases entries.len(),
{
    let all = entries.push(entry);
    assert forall|i: int, j: int| 0 <= i <= j < all.len() implies (#[trigger] all[i]).at_ms <= (
    #[trigger] all[j]).at_ms by {
        if j == entries.len() && i < j {
            assert(entries[i].at_ms <= entries[entries.len() - 1].at_ms);
        }
    }
    prune_keeps_the_fresh(all, now_ms, retention_secs);
    if entries.len() > 0 && !is_fresh(all[0], now_ms, retention_secs) {
        let rest = entries.skip(1);
        assert(all.skip(1) =~= rest.push(entry));
        assert forall|i: int, j: int| 0 <= i <= j < rest.len() implies (#[trigger] rest[i]).at_ms
            <= (#[trigger] rest[j]).at_ms by {
            assert(entries[i + 1].at_ms <= entries[j + 1].at_ms);
        }
        recorded_is_kept(rest, entry, now_ms, retention_secs);
    }
}

/// The list of the last messages names each station at most once.
pub proof fn latest_names_stations_once<T>(
    entries: Seq<HistoryEntry<T>>,
    filter: Option<Seq<char>>,
    i: int,
    j: int,
)
    requires
        0 <= i < j < entries.len(),
        is_latest(entries, filter, i),
        is_latest(entries, filter, j),
    ensures
        entries[i].message.mmsi != entries[j].message.mmsi,
{
    assert(of_rig(opt_view(entries[j].rig_id), filter));
}

// ---------------------------------------------------------------------------------------------
// Keeping a history over a restart
// ---------------------------------------------------------------------------------------------

/// How old a stored entry may be, in milliseconds: a day.
pub const HISTORY_RETENTION_MS: i64 = 86_400_000;

/// An entry as it is stored, with its moment in milliseconds since the Unix epoch.
#[derive(Debug)]
pub struct StoredEntry<D> {
    pub ts_ms: i64,
    pub data: D,
}

/// How old a stored entry is; one from the future counts as new.
pub open spec fn age_of(ts_ms: i64, now_unix_ms: i64) -> int {
    if ts_ms < now_unix_ms {
        now_unix_ms - ts_ms
    } else {
        0
    }
}

/// When a stored entry was recorded, on the clock that counts from the machine's start, where it is
/// young enough. One from before that start counts as new.
pub open spec fn restored_at(ts_ms: i64, now_unix_ms: i64, now_ms: i64) -> Option<int> {
    if ts_ms >= now_unix_ms - HISTORY_RETENTION_MS {
        let age = age_of(ts_ms, now_unix_ms);
        Some(
            if age <= now_ms {
                now_ms - age
            } else {
                now_ms as int
            },
        )
    } else {
        None
    }
}

/// When a stored entry was recorded, where it is young enough to be restored.
pub fn restore_moment(ts_ms: i64, now_unix_ms: i64, now_ms: i64) -> (res: Option<i64>)
    requires
        0 <= now_unix_ms,
        0 <= now_ms,
    ensures
        (match res {
            Some(at) => Some(at as int),
            None => None,
        }) == restored_at(ts_ms, now_unix_ms, now_ms),
{
    if ts_ms >= now_unix_ms - HISTORY_RETENTION_MS {
        let age: i64 = if ts_ms < now_unix_ms {
            now_unix_ms - ts_ms
        } else {
            0
        };
        if age <= now_ms {
            Some(now_ms - age)
        } else {
            Some(now_ms)
        }
    } else {
        None
    }
}

/// The moment with which an entry is stored.
pub fn stored_moment(at_ms: i64, now_unix_ms: i64, now_ms: i64) -> (res: i64)
    requires
        0 <= now_unix_ms,
        0 <= now_ms,
        at_ms <= now_ms,
        now_unix_ms - (now_ms - at_ms) >= i64::MIN,
    ensures
        res == now_unix_ms - (now_ms - at_ms),
{
    let elapsed: i128 = now_ms as i128 - at_ms as i128;
    (now_unix_ms as i128 - elapsed) as i64
}

/// An entry that is stored and restored within a day, by clocks that run alike, was recorded at the
/// same moment as before.
pub proof fn stored_entries_come_back(
    at_ms: i64,
    unix_1: i64,
    mono_1: i64,
    unix_2: i64,
    mono_2: i64,
    stored: i64,
)
    requires
        0 <= at_ms <= mono_1 <= mono_2,
        unix_2 - unix_1 == mono_2 - mono_1,
        stored == unix_1 - (mono_1 - at_ms),
        mono_2 - at_ms <= HISTORY_RETENTION_MS,
    ensures
        restored_at(stored, unix_2, mono_2) == Some(at_ms as int),
{
}

// ---------------------------------------------------------------------------------------------
// What a history comes to
// ---------------------------------------------------------------------------------------------

/// A rig's own time counts where it is set, else the one for all, and nothing is kept for less than a
/// minute.
pub proof fn how_long_messages_are_kept(
    default_min: u64,
    by_rig: Map<Seq<char>, u64>,
    rig: Seq<char>,
)
    ensures
        by_rig.contains_key(rig) && by_rig[rig] > 0 ==> retention_min_of(
            default_min,
            by_rig,
            Some(rig),
        ) == by_rig[rig],
        !(by_rig.contains_key(rig) && by_rig[rig] > 0) ==> retention_min_of(
            default_min,
            by_rig,
            Some(rig),
        ) == retention_min_of(default_min, by_rig, None),
        default_min > 0 ==> retention_min_of(default_min, by_rig, None) == default_min,
        default_min == 0 ==> retention_min_of(default_min, by_rig, None) == 1,
{
}

/// A message keeps the moment it came with, and gets the present one where it came without; nothing
/// else of it changes.
pub proof fn messages_get_a_moment<T>(message: Decoded<T>, now_unix_ms: i64)
    ensures
        ({
            let s = stamped(message, now_unix_ms);
            &&& message.ts_ms is Some ==> s == message
            &&& message.ts_ms is None ==> s.ts_ms == Some(now_unix_ms)
            &&& s.rig_id == message.rig_id
            &&& s.mmsi == message.mmsi
            &&& s.body == message.body
        }),
{
}

/// What leaves a history leaves at its front and is too old: more seconds have passed than it is kept
/// for. The first entry that stays is not.
pub proof fn old_entries_leave_at_the_front<T>(
    entries: Seq<HistoryEntry<T>>,
    now_ms: i64,
    retention_secs: u64,
)
    ensures
        exists|k: int|
            {
                &&& 0 <= k <= entries.len()
                &&& pruned(entries, now_ms, retention_secs) == #[trigger] entries.skip(k)
                &&& forall|i: int|
                    0 <= i < k ==> now_ms - (#[trigger] entries[i]).at_ms > retention_secs * 1000
                &&& k < entries.len() ==> now_ms - entries[k].at_ms <= retention_secs * 1000
            },
    decreases entries.len(),
{
    if entries.len() == 0 || is_fresh(entries[0], now_ms, retention_secs) {
        assert(entries.skip(0) =~= entries);
    } else {
        let rest = entries.skip(1);
        old_entries_leave_at_the_front(rest, now_ms, retention_secs);
        let k = choose|k: int|
            {
                &&& 0 <= k <= rest.len()
                &&& pruned(rest, now_ms, retention_secs) == #[trigger] rest.skip(k)
                &&& forall|i: int|
                    0 <= i < k ==> now_ms - (#[trigger] rest[i]).at_ms > retention_secs * 1000
                &&& k < rest.len() ==> now_ms - rest[k].at_ms <= retention_secs * 1000
            };
        assert(rest.skip(k) =~= entries.skip(k + 1));
        assert forall|i: int| 0 <= i < k + 1 implies now_ms - (#[trigger] entries[i]).at_ms
            > retention_secs * 1000 by {
            if i > 0 {
                assert(rest[i - 1] == entries[i]);
            }
        }
        if k < rest.len() {
            assert(rest[k] == entries[k + 1]);
        }
    }
}

/// Without a filter every entry counts, and with one those of the rig it names.
pub proof fn filters_name_a_rig(rig: Option<Seq<char>>, name: Seq<char>)
    ensures
        of_rig(rig, None),
        of_rig(rig, Some(name)) <==> rig is Some && rig->0 == name,
{
}

/// A listing has the messages of the filtered entries, in their order: one more entry adds its message
/// at the end, or nothing.
pub proof fn listings_in_order<T>(
    entries: Seq<HistoryEntry<T>>,
    entry: HistoryEntry<T>,
    filter: Option<Seq<char>>,
)
    ensures
        ({
            let before = messages_of(entries, filter, entries.len() as int);
            let after = messages_of(entries.push(entry), filter, entries.len() as int + 1);
            &&& filter is None || (entry.rig_id is Some && entry.rig_id->0@ == filter->0) ==> after
                == before.push(entry.message)
            &&& filter is Some && (entry.rig_id is None || entry.rig_id->0@ != filter->0) ==> after
                == before
            &&& messages_of(entries, filter, 0).len() == 0
        }),
{
    lemma_messages_of_prefix(entries, entries.push(entry), filter, entries.len() as int);
}

proof fn lemma_messages_of_prefix<T>(
    a: Seq<HistoryEntry<T>>,
    b: Seq<HistoryEntry<T>>,
    filter: Option<Seq<char>>,
    n: int,
)
    requires
        n <= a.len(),
        n <= b.len(),
        forall|i: int| 0 <= i < n ==> a[i] == b[i],
    ensures
        messages_of(a, filter, n) == messages_of(b, filter, n),
    decreases n,
{
    if n > 0 {
        lemma_messages_of_prefix(a, b, filter, n - 1);
    }
}

/// Of every station the latest list has the last message, and the messages are in the order of their
/// moments.
pub proof fn latest_lists_have_every_station<T>(
    entries: Seq<HistoryEntry<T>>,
    filter: Option<Seq<char>>,
    res: Seq<Decoded<T>>,
    i: int,
    j: int,
)
    requires
        entries.len() <= usize::MAX,
        lists_latest(entries, filter, res),
    ensures
        0 <= i < entries.len() && of_rig(opt_view(entries[i].rig_id), filter) && (forall|k: int|
            i < k < entries.len() && of_rig(opt_view((#[trigger] entries[k]).rig_id), filter)
                ==> entries[k].message.mmsi != entries[i].message.mmsi) ==> res.contains(
            entries[i].message,
        ),
        0 <= i < j < res.len() ==> (match res[i].ts_ms {
            Some(t) => t as int,
            None => 0,
        }) <= (match res[j].ts_ms {
            Some(t) => t as int,
            None => 0,
        }),
{
    let chosen = latest_among(entries, filter, entries.len() as int);
    let less = moment_less(entries, chosen);
    let ord = choose|ord: Seq<usize>| #[trigger]
        is_stable_order(moment_less(entries, chosen), chosen.len() as int, ord) && res.len()
            == chosen.len() && forall|i: int|
            0 <= i < res.len() ==> #[trigger] res[i]
                == entries[chosen[ord[i] as int] as int].message;
    if 0 <= i < j < res.len() {
        assert(goes_before(less, ord[i] as int, ord[j] as int));
        assert(res[i] == entries[chosen[ord[i] as int] as int].message);
        assert(res[j] == entries[chosen[ord[j] as int] as int].message);
    }
    if 0 <= i < entries.len() && is_latest(entries, filter, i) {
        lemma_latest_among(entries, filter, entries.len() as int, i);
        let c = choose|c: int| 0 <= c < chosen.len() && #[trigger] chosen[c] == i;
        assert forall|a: int| 0 <= a < chosen.len() implies !(#[trigger] less(a, a)) by {}
        stable_order_covers(less, chosen.len() as int, ord, c);
        let k = choose|k: int| 0 <= k < chosen.len() && #[trigger] ord[k] == c;
        assert(res[k] == entries[chosen[ord[k] as int] as int].message);
    }
}

proof fn lemma_latest_among<T>(
    entries: Seq<HistoryEntry<T>>,
    filter: Option<Seq<char>>,
    n: int,
    i: int,
)
    requires
        0 <= i < n <= usize::MAX,
        is_latest(entries, filter, i),
    ensures
        exists|c: int|
            0 <= c < latest_among(entries, filter, n).len() && #[trigger] latest_among(
                entries,
                filter,
                n,
            )[c] == i,
    decreases n,
{
    let before = latest_among(entries, filter, n - 1);
    let all = latest_among(entries, filter, n);
    if i == n - 1 {
        assert(all[before.len() as int] == i);
    } else {
        lemma_latest_among(entries, filter, n - 1, i);
        let c = choose|c: int| 0 <= c < before.len() && #[trigger] before[c] == i;
        assert(all[c] == i);
    }
}

/// An entry is of the rig that its message names, else of the active one, and of the present moment.
pub proof fn entries_in_full<T>(
    entry: HistoryEntry<T>,
    message: Decoded<T>,
    active: Option<String>,
    now_ms: i64,
)
    requires
        is_entry_of(entry, message, active, now_ms),
    ensures
        entry.at_ms == now_ms,
        entry.message == message,
        message.rig_id is Some ==> opt_view(entry.rig_id) == Some(message.rig_id->0@),
        message.rig_id is None ==> opt_view(entry.rig_id) == opt_view(active),
{
}

/// A stored entry comes back for a day. It comes back as old as it is, as far back as the clock
/// reaches, and one from the future as of now.
pub proof fn how_stored_entries_come_back(ts_ms: i64, now_unix_ms: i64, now_ms: i64)
    ensures
        restored_at(ts_ms, now_unix_ms, now_ms) is Some <==> now_unix_ms - ts_ms <= 24 * 60 * 60
            * 1000,
        restored_at(ts_ms, now_unix_ms, now_ms) matches Some(at) ==> {
            &&& ts_ms >= now_unix_ms ==> at == now_ms
            &&& ts_ms < now_unix_ms && now_unix_ms - ts_ms <= now_ms ==> now_ms - at == now_unix_ms
                - ts_ms
            &&& ts_ms < now_unix_ms && now_unix_ms - ts_ms > now_ms ==> at == now_ms
        },
{
}

/// The seconds of so many minutes, as far as the number reaches.
pub open spec fn retention_secs_of(minutes: u64) -> u64 {
    if minutes * 60 <= u64::MAX {
        (minutes * 60) as u64
    } else {
        u64::MAX
    }
}

/// A message is kept for the seconds of its minutes: another minute is sixty seconds more.
pub proof fn minutes_in_seconds(minutes: u64)
    ensures
        retention_secs_of(0) == 0,
        60 * (minutes + 1) <= u64::MAX ==> retention_secs_of((minutes + 1) as u64)
            == retention_secs_of(minutes) + 60,
        60 * minutes > u64::MAX ==> retention_secs_of(minutes) == u64::MAX,
{
}

} // verus!
