//! The scheduler: which bookmark a rig is tuned to when no user controls it.
use vstd::prelude::*;

use crate::clock::now_unix_ms;
use crate::text::{join2, list_clone, list_eq, list_view, opt_clone, opt_view, own, str_eq};

verus! {

// ---------------------------------------------------------------------------------------------
// Configuration
// ---------------------------------------------------------------------------------------------

/// How the scheduler chooses.
#[derive(Debug, Clone, Copy, PartialEq, Eq, Structural)]
pub enum SchedulerMode {
    Disabled,
    /// By the time of day at a place: dawn, day, dusk or night.
    Grayline,
    /// By the windows of a timetable.
    TimeSpan,
}

impl Default for SchedulerMode {
    fn default() -> (res: Self)
        ensures
            res == SchedulerMode::Disabled,
    {
        SchedulerMode::Disabled
    }
}

/// The bookmarks for the times of day at a place.
#[derive(Debug)]
pub struct GraylineConfig {
    /// Whether the place is on the equator or north of it.
    pub northern: bool,
    /// Half the width of the dawn and dusk windows, in minutes.
    pub transition_window_min: u32,
    pub day_bookmark_id: Option<String>,
    pub night_bookmark_id: Option<String>,
    pub dawn_bookmark_id: Option<String>,
    pub dusk_bookmark_id: Option<String>,
}

/// Half the width of the dawn and dusk windows where none is given, in minutes.
pub fn default_transition_window() -> (res: u32)
    ensures
        res == 20,
{
    20
}

/// How long before a satellite rises it is tuned to where nothing is given, in seconds.
pub fn default_pretune_secs() -> (res: u32)
    ensures
        res == 60,
{
    60
}

/// A satellite whose passes are to be received.
#[derive(Debug)]
pub struct SatelliteEntry {
    pub id: String,
    pub satellite: String,
    /// The satellite's catalog number, by which passes are found.
    pub norad_id: u32,
    pub bookmark_id: String,
    /// The least peak elevation of a pass that counts, in the unit of the passes' peak elevations.
    pub min_elevation: i64,
    /// Of satellites that pass at one time, the one with the lowest number is received.
    pub priority: u32,
    pub center_hz: Option<u64>,
    pub bookmark_ids: Vec<String>,
}

/// The satellites to receive.
#[derive(Debug)]
pub struct SatelliteSchedulerConfig {
    pub enabled: bool,
    /// How long before a satellite rises it is tuned to, in seconds.
    pub pretune_secs: u32,
    pub entries: Vec<SatelliteEntry>,
}

/// A predicted pass of a satellite, in milliseconds since the Unix epoch.
#[derive(Clone, Copy, Debug, PartialEq, Eq, Structural)]
pub struct SatellitePass {
    pub norad_id: u32,
    pub aos_ms: i64,
    pub los_ms: i64,
    /// The peak elevation. Only its order counts.
    pub max_elevation: i64,
}

/// A window of the timetable.
#[derive(Debug)]
pub struct ScheduleEntry {
    pub id: String,
    /// The start, in minutes since midnight UTC.
    pub start_min: u32,
    /// The end, in minutes since midnight UTC; before the start for a window across midnight, and
    /// equal to it for the whole day.
    pub end_min: u32,
    pub bookmark_id: String,
    pub label: Option<String>,
    /// How long the entry is on when several windows overlap, in minutes.
    pub interleave_min: Option<u32>,
    pub center_hz: Option<u64>,
    /// Further bookmarks to receive beside the first.
    pub bookmark_ids: Vec<String>,
}

/// The configuration of a rig's scheduler.
#[derive(Debug)]
pub struct SchedulerConfig {
    pub remote: String,
    pub mode: SchedulerMode,
    pub grayline: Option<GraylineConfig>,
    pub entries: Vec<ScheduleEntry>,
    /// How long each entry is on when several windows overlap and it says nothing itself, in
    /// minutes.
    pub interleave_min: Option<u32>,
    pub satellites: Option<SatelliteSchedulerConfig>,
}

impl SchedulerConfig {
    /// The configuration of a rig that has none.
    pub fn disabled(remote: &str) -> (res: Self)
        ensures
            res.remote@ == remote@,
            res.mode == SchedulerMode::Disabled,
            res.grayline is None,
            res.entries@.len() == 0,
            res.interleave_min is None,
            res.satellites is None,
    {
        SchedulerConfig {
            remote: own(remote),
            mode: SchedulerMode::Disabled,
            grayline: None,
            entries: Vec::new(),
            interleave_min: None,
            satellites: None,
        }
    }
}

// ---------------------------------------------------------------------------------------------
// Times of day
// ---------------------------------------------------------------------------------------------

/// Milliseconds in a minute.
pub const MINUTE_MS: i64 = 60_000;

/// Milliseconds in a day.
pub const DAY_MS: i64 = 86_400_000;

/// The times of day that the grayline mode tells apart.
#[derive(Debug, Clone, Copy, PartialEq, Eq, Structural)]
pub enum GraylinePeriod {
    Dawn,
    Dusk,
    Day,
    Night,
}

/// The number without its sign.
pub open spec fn magnitude(x: int) -> int {
    if x < 0 {
        -x
    } else {
        x
    }
}

/// The time of day. All times are in milliseconds since midnight UTC. Dawn and dusk reach
/// `window_min` minutes to either side of sunrise and sunset. Where the sun neither rises nor sets
/// it is day in the north and night in the south.
pub open spec fn period_of(
    sun: Option<(i64, i64)>,
    northern: bool,
    window_min: u32,
    now_ms: i64,
) -> GraylinePeriod {
    let half = window_min * MINUTE_MS;
    match sun {
        Some((sunrise, sunset)) => if magnitude(now_ms - sunrise) <= half {
            GraylinePeriod::Dawn
        } else if magnitude(now_ms - sunset) <= half {
            GraylinePeriod::Dusk
        } else if now_ms > sunrise + half && now_ms < sunset - half {
            GraylinePeriod::Day
        } else {
            GraylinePeriod::Night
        },
        None => if northern {
            GraylinePeriod::Day
        } else {
            GraylinePeriod::Night
        },
    }
}

/// The time of day at a place with the given sunrise and sunset.
pub fn current_grayline_period(
    sun: Option<(i64, i64)>,
    northern: bool,
    window_min: u32,
    now_ms: i64,
) -> (res: GraylinePeriod)
    ensures
        res == period_of(sun, northern, window_min, now_ms),
        sun matches Some((sunrise, sunset)) ==> {
            let w = window_min * 60_000;
            &&& sunrise - w <= now_ms <= sunrise + w <==> res == GraylinePeriod::Dawn
            &&& sunset - w <= now_ms <= sunset + w && !(sunrise - w <= now_ms <= sunrise + w)
                <==> res == GraylinePeriod::Dusk
            &&& sunrise + w < now_ms < sunset - w <==> res == GraylinePeriod::Day
        },
        sun is None ==> res == (if northern {
            GraylinePeriod::Day
        } else {
            GraylinePeriod::Night
        }),
{
    let half: i128 = window_min as i128 * 60_000;
    let now: i128 = now_ms as i128;
    match sun {
        Some((rise, set)) => {
            let sunrise: i128 = rise as i128;
            let sunset: i128 = set as i128;
            let dawn: i128 = if now < sunrise {
                sunrise - now
            } else {
                now - sunrise
            };
            let dusk: i128 = if now < sunset {
                sunset - now
            } else {
                now - sunset
            };
            if dawn <= half {
                GraylinePeriod::Dawn
            } else if dusk <= half {
                GraylinePeriod::Dusk
            } else if now > sunrise + half && now < sunset - half {
                GraylinePeriod::Day
            } else {
                GraylinePeriod::Night
            }
        },
        None => if northern {
            GraylinePeriod::Day
        } else {
            GraylinePeriod::Night
        },
    }
}

/// The bookmark for a time of day.
pub fn grayline_bookmark_id(gl: &GraylineConfig, period: GraylinePeriod) -> (res: Option<String>)
    ensures
        opt_view(res) == bookmark_for(*gl, period),
        period == GraylinePeriod::Dawn ==> opt_view(res) == opt_view(gl.dawn_bookmark_id),
        period == GraylinePeriod::Dusk ==> opt_view(res) == opt_view(gl.dusk_bookmark_id),
        period == GraylinePeriod::Day ==> opt_view(res) == opt_view(gl.day_bookmark_id),
        period == GraylinePeriod::Night ==> opt_view(res) == opt_view(gl.night_bookmark_id),
{
    match period {
        GraylinePeriod::Dawn => opt_clone(&gl.dawn_bookmark_id),
        GraylinePeriod::Dusk => opt_clone(&gl.dusk_bookmark_id),
        GraylinePeriod::Day => opt_clone(&gl.day_bookmark_id),
        GraylinePeriod::Night => opt_clone(&gl.night_bookmark_id),
    }
}

// ---------------------------------------------------------------------------------------------
// The timetable
// ---------------------------------------------------------------------------------------------

/// Whether a window is open. Times are in milliseconds since midnight UTC.
pub open spec fn is_open(entry: ScheduleEntry, now_ms: int) -> bool {
    let start = entry.start_min * MINUTE_MS;
    let end = entry.end_min * MINUTE_MS;
    if start == end {
        true
    } else if start < end {
        start <= now_ms < end
    } else {
        start <= now_ms || now_ms < end
    }
}

/// When a window that is open was opened: midnight for the whole day, and the day before for one
/// that has passed midnight.
pub open spec fn opened_at(entry: ScheduleEntry, now_ms: int) -> int {
    let start = entry.start_min * MINUTE_MS;
    let end = entry.end_min * MINUTE_MS;
    if start == end {
        0
    } else if start < end || now_ms >= start {
        start
    } else {
        start - DAY_MS
    }
}

/// Whether the window is open.
pub fn entry_is_active(entry: &ScheduleEntry, now_ms: i64) -> (res: bool)
    ensures
        res == is_open(*entry, now_ms as int),
        entry.start_min == entry.end_min ==> res,
        entry.start_min < entry.end_min ==> (res <==> entry.start_min * 60_000 <= now_ms
            < entry.end_min * 60_000),
        entry.start_min > entry.end_min ==> (!res <==> entry.end_min * 60_000 <= now_ms
            < entry.start_min * 60_000),
{
    let start: i64 = entry.start_min as i64 * MINUTE_MS;
    let end: i64 = entry.end_min as i64 * MINUTE_MS;
    if start == end {
        true
    } else if start < end {
        now_ms >= start && now_ms < end
    } else {
        now_ms >= start || now_ms < end
    }
}

/// When the open window was opened.
pub fn entry_current_window_start(entry: &ScheduleEntry, now_ms: i64) -> (res: i64)
    ensures
        res == opened_at(*entry, now_ms as int),
{
    let start: i64 = entry.start_min as i64 * MINUTE_MS;
    let end: i64 = entry.end_min as i64 * MINUTE_MS;
    if start == end {
        0
    } else if start < end {
        start
    } else if now_ms >= start {
        start
    } else {
        start - DAY_MS
    }
}

/// The entries whose window is open.
pub open spec fn open_entries(entries: Seq<ScheduleEntry>, now_ms: int) -> Seq<ScheduleEntry> {
    entries.filter(|e: ScheduleEntry| is_open(e, now_ms))
}

/// The entries whose window is open.
pub fn timespan_active_entries(entries: &Vec<ScheduleEntry>, now_ms: i64) -> (res: Vec<
    &ScheduleEntry,
>)
    ensures
        res@.unref() == open_entries(entries@, now_ms as int),
{
    reveal(Seq::filter);
    let mut out: Vec<&ScheduleEntry> = Vec::new();
    let mut i: usize = 0;
    assert(out@.unref() =~= open_entries(entries@.take(0), now_ms as int));
    while i < entries.len()
        invariant
            i <= entries@.len(),
            out@.unref() == open_entries(entries@.take(i as int), now_ms as int),
        decreases entries@.len() - i,
    {
        let ghost before = out@.unref();
        let ghost next = entries@.take(i + 1);
        assert(next.drop_last() =~= entries@.take(i as int));
        assert(next.last() == entries@[i as int]);
        reveal(Seq::filter);
        if entry_is_active(&entries[i], now_ms) {
            out.push(&entries[i]);
            assert(out@.unref() =~= before.push(entries@[i as int]));
        }
        i = i + 1;
    }
    assert(entries@.take(i as int) =~= entries@);
    out
}

/// How long an entry is on when several windows overlap, in minutes.
pub open spec fn share(entry: ScheduleEntry, default_interleave: Option<u32>) -> nat {
    match entry.interleave_min {
        Some(m) => m as nat,
        None => match default_interleave {
            Some(m) => m as nat,
            None => 0,
        },
    }
}

/// How long the first `n` of the open entries are on together, in minutes.
pub open spec fn shares(
    active: Seq<ScheduleEntry>,
    default_interleave: Option<u32>,
    n: int,
) -> nat
    decreases n,
{
    if n <= 0 {
        0
    } else {
        shares(active, default_interleave, n - 1) + share(active[n - 1], default_interleave)
    }
}

/// When the last of the first `n` open windows was opened.
pub open spec fn overlap_start(active: Seq<ScheduleEntry>, now_ms: int, n: int) -> int
    decreases n,
{
    if n <= 1 {
        opened_at(active[0], now_ms)
    } else {
        let before = overlap_start(active, now_ms, n - 1);
        let last = opened_at(active[n - 1], now_ms);
        if last > before {
            last
        } else {
            before
        }
    }
}

/// Where in the cycle through the open entries the moment lies, in milliseconds. The cycle starts
/// when the last of the windows is opened.
pub open spec fn cycle_position(
    active: Seq<ScheduleEntry>,
    now_ms: int,
    default_interleave: Option<u32>,
) -> int {
    let n = active.len() as int;
    (now_ms - overlap_start(active, now_ms, n)) % (shares(active, default_interleave, n)
        * MINUTE_MS)
}

/// Whether the turn is at the open entry number `slot`: those before it have had theirs in this
/// cycle, and it has not.
pub open spec fn is_turn_of(
    active: Seq<ScheduleEntry>,
    now_ms: int,
    default_interleave: Option<u32>,
    slot: int,
) -> bool {
    let position = cycle_position(active, now_ms, default_interleave);
    &&& 0 <= slot < active.len()
    &&& shares(active, default_interleave, slot) * MINUTE_MS <= position
    &&& position < shares(active, default_interleave, slot + 1) * MINUTE_MS
}

/// Whether open entries take turns: there are several, and at least one of them has a share.
pub open spec fn takes_turns(active: Seq<ScheduleEntry>, default_interleave: Option<u32>) -> bool {
    active.len() > 1 && shares(active, default_interleave, active.len() as int) > 0
}

/// Whose turn it is among open entries that take turns.
pub open spec fn turn(
    active: Seq<ScheduleEntry>,
    now_ms: int,
    default_interleave: Option<u32>,
) -> int {
    choose|slot: int| is_turn_of(active, now_ms, default_interleave, slot)
}

/// At no moment is it the turn of two entries.
pub proof fn turn_is_unique(
    active: Seq<ScheduleEntry>,
    now_ms: int,
    default_interleave: Option<u32>,
    a: int,
    b: int,
)
    requires
        is_turn_of(active, now_ms, default_interleave, a),
        is_turn_of(active, now_ms, default_interleave, b),
    ensures
        a == b,
{
    if a < b {
        lemma_shares_grow(active, default_interleave, a + 1, b);
    } else if b < a {
        lemma_shares_grow(active, default_interleave, b + 1, a);
    }
}

proof fn lemma_shares_grow(
    active: Seq<ScheduleEntry>,
    default_interleave: Option<u32>,
    a: int,
    b: int,
)
    requires
        0 <= a <= b,
    ensures
        shares(active, default_interleave, a) <= shares(active, default_interleave, b),
    decreases b - a,
{
    if a < b {
        lemma_shares_grow(active, default_interleave, a, b - 1);
    }
}

fn share_of(entry: &ScheduleEntry, default_interleave: Option<u32>) -> (res: u32)
    ensures
        res == share(*entry, default_interleave),
{
    match entry.interleave_min {
        Some(m) => m,
        None => match default_interleave {
            Some(m) => m,
            None => 0,
        },
    }
}

/// Whose turn it is among open entries, where they take turns.
pub fn timespan_cycle_slot(
    active: &Vec<&ScheduleEntry>,
    now_ms: i64,
    default_interleave: Option<u32>,
) -> (res: Option<usize>)
    ensures
        res is Some <==> takes_turns(active@.unref(), default_interleave),
        res matches Some(slot) ==> {
            &&& is_turn_of(active@.unref(), now_ms as int, default_interleave, slot as int)
            &&& slot == turn(active@.unref(), now_ms as int, default_interleave)
        },
{
    let ghost av = active@.unref();
    if active.len() <= 1 {
        return None;
    }
    let n: usize = active.len();
    let mut cycle: u128 = 0;
    let mut i: usize = 0;
    while i < n
        invariant
            i <= n,
            n == active@.len(),
            av == active@.unref(),
            cycle == shares(av, default_interleave, i as int),
            cycle <= i * 0xffff_ffff,
        decreases n - i,
    {
        assert(av[i as int] == *active@[i as int]);
        let s: u32 = share_of(active[i], default_interleave);
        assert(i * 0xffff_ffff + 0xffff_ffff == (i + 1) * 0xffff_ffff);
        assert(cycle + s <= 0x1_0000_0000_0000_0000 * 0xffff_ffff) by (nonlinear_arith)
            requires
                cycle <= i * 0xffff_ffff,
                i < 0xffff_ffff_ffff_ffff,
                s <= 0xffff_ffff,
        ;
        cycle = cycle + s as u128;
        i = i + 1;
    }
    if cycle == 0 {
        return None;
    }
    assert(av[0] == *active@[0]);
    let mut start: i64 = entry_current_window_start(active[0], now_ms);
    let mut k: usize = 1;
    while k < n
        invariant
            1 <= k <= n,
            n == active@.len(),
            av == active@.unref(),
            start == overlap_start(av, now_ms as int, k as int),
        decreases n - k,
    {
        assert(av[k as int] == *active@[k as int]);
        let s: i64 = entry_current_window_start(active[k], now_ms);
        if s > start {
            start = s;
        }
        k = k + 1;
    }
    let ghost total = shares(av, default_interleave, n as int);
    let period: i128 = cycle as i128 * 60_000;
    let since: i128 = now_ms as i128 - start as i128;
    let position: i128 = euclid_rem(since, period);
    assert(position == cycle_position(av, now_ms as int, default_interleave));
    let mut passed: i128 = 0;
    let mut slot: usize = 0;
    while slot < n
        invariant
            slot <= n,
            n == active@.len(),
            av == active@.unref(),
            position == cycle_position(av, now_ms as int, default_interleave),
            passed == shares(av, default_interleave, slot as int) * MINUTE_MS,
            passed <= position,
            position < total * MINUTE_MS,
            total == shares(av, default_interleave, n as int),
            total <= n * 0xffff_ffff,
            takes_turns(av, default_interleave),
        decreases n - slot,
    {
        assert(av[slot as int] == *active@[slot as int]);
        let s: u32 = share_of(active[slot], default_interleave);
        proof {
            assert(total * MINUTE_MS <= 0x1_0000_0000_0000_0000 * 0xffff_ffff * 60_000)
                by (nonlinear_arith)
                requires
                    total <= n * 0xffff_ffff,
                    n <= 0xffff_ffff_ffff_ffff,
                    MINUTE_MS == 60_000,
            ;
        }
        let next: i128 = passed + s as i128 * 60_000;
        assert(next == shares(av, default_interleave, slot + 1) * MINUTE_MS);
        if position < next {
            proof {
                assert(is_turn_of(av, now_ms as int, default_interleave, slot as int));
                let chosen = turn(av, now_ms as int, default_interleave);
                turn_is_unique(av, now_ms as int, default_interleave, slot as int, chosen);
            }
            return Some(slot);
        }
        passed = next;
        slot = slot + 1;
    }
    assert(false);
    None
}

/// The entry that is on: of several open ones the one whose turn it is, where they take turns, and
/// otherwise the first.
pub open spec fn chosen_entry(
    entries: Seq<ScheduleEntry>,
    now_ms: int,
    default_interleave: Option<u32>,
) -> Option<ScheduleEntry> {
    let active = open_entries(entries, now_ms);
    if active.len() == 0 {
        None
    } else if takes_turns(active, default_interleave) {
        Some(active[turn(active, now_ms, default_interleave)])
    } else {
        Some(active[0])
    }
}

/// The entry that is on.
pub fn timespan_active_entry(
    entries: &Vec<ScheduleEntry>,
    now_ms: i64,
    default_interleave: Option<u32>,
) -> (res: Option<&ScheduleEntry>)
    ensures
        (match res {
            Some(e) => Some(*e),
            None => None,
        }) == chosen_entry(entries@, now_ms as int, default_interleave),
{
    let active = timespan_active_entries(entries, now_ms);
    let ghost av = active@.unref();
    if active.len() == 0 {
        return None;
    }
    match timespan_cycle_slot(&active, now_ms, default_interleave) {
        Some(slot) => {
            assert(av[slot as int] == *active@[slot as int]);
            Some(active[slot])
        },
        None => {
            assert(av[0] == *active@[0]);
            Some(active[0])
        },
    }
}

/// The time of day of a moment, in milliseconds since midnight UTC.
pub fn utc_day_ms(now_ms: i64) -> (res: i64)
    requires
        now_ms >= 0,
    ensures
        res == now_ms % DAY_MS,
        0 <= res < DAY_MS,
{
    now_ms % DAY_MS
}

/// Only open entries are ever on.
pub proof fn chosen_entry_is_open(
    entries: Seq<ScheduleEntry>,
    now_ms: int,
    default_interleave: Option<u32>,
    entry: ScheduleEntry,
)
    requires
        chosen_entry(entries, now_ms, default_interleave) == Some(entry),
    ensures
        entries.contains(entry),
        is_open(entry, now_ms),
{
    let active = open_entries(entries, now_ms);
    broadcast use vstd::seq_lib::group_filter_ensures;

    if takes_turns(active, default_interleave) {
        lemma_turn_exists(active, now_ms, default_interleave, active.len() as int);
        assert(active.contains(active[turn(active, now_ms, default_interleave)]));
    } else {
        assert(active.contains(active[0]));
    }
    entries.lemma_filter_contains_rev(|e: ScheduleEntry| is_open(e, now_ms), entry);
}

/// At every moment it is the turn of one of the entries that take turns.
pub proof fn turn_exists(active: Seq<ScheduleEntry>, now_ms: int, default_interleave: Option<u32>)
    requires
        takes_turns(active, default_interleave),
    ensures
        is_turn_of(
            active,
            now_ms,
            default_interleave,
            turn(active, now_ms, default_interleave),
        ),
{
    lemma_turn_exists(active, now_ms, default_interleave, active.len() as int);
}

proof fn lemma_turn_exists(
    active: Seq<ScheduleEntry>,
    now_ms: int,
    default_interleave: Option<u32>,
    n: int,
)
    requires
        takes_turns(active, default_interleave),
        0 <= n <= active.len(),
        cycle_position(active, now_ms, default_interleave) < shares(active, default_interleave, n)
            * MINUTE_MS || n == active.len(),
    ensures
        exists|slot: int| is_turn_of(active, now_ms, default_interleave, slot),
    decreases n,
{
    let position = cycle_position(active, now_ms, default_interleave);
    let total = shares(active, default_interleave, active.len() as int) * MINUTE_MS;
    assert(0 <= position < total) by {
        vstd::arithmetic::div_mod::lemma_mod_bound(
            now_ms - overlap_start(active, now_ms, active.len() as int),
            total,
        );
    }
    if n > 0 {
        if shares(active, default_interleave, n - 1) * MINUTE_MS <= position {
            assert(is_turn_of(active, now_ms, default_interleave, n - 1));
        } else {
            lemma_turn_exists(active, now_ms, default_interleave, n - 1);
        }
    }
}

fn euclid_rem(a: i128, b: i128) -> (res: i128)
    requires
        0 < b <= 0x1_0000_0000_0000_0000 * 0xffff_ffff * 60_000,
        -0x1_0000_0000_0000_0000 < a < 0x1_0000_0000_0000_0000,
    ensures
        res == a as int % b as int,
{
    if a >= 0 {
        a % b
    } else {
        let r: i128 = (-a) % b;
        let res: i128 = if r == 0 {
            0
        } else {
            b - r
        };
        proof {
            let q = (-a) as int / b as int;
            vstd::arithmetic::div_mod::lemma_fundamental_div_mod((-a) as int, b as int);
            if r == 0 {
                assert(a as int == (-q) * b) by (nonlinear_arith)
                    requires
                        -a == b * q,
                ;
                vstd::arithmetic::div_mod::lemma_fundamental_div_mod_converse(
                    a as int,
                    b as int,
                    -q,
                    0,
                );
            } else {
                assert(a as int == (-q - 1) * b + (b - r)) by (nonlinear_arith)
                    requires
                        -a == b * q + r,
                ;
                vstd::arithmetic::div_mod::lemma_fundamental_div_mod_converse(
                    a as int,
                    b as int,
                    -q - 1,
                    b - r,
                );
            }
        }
        res
    }
}

// ---------------------------------------------------------------------------------------------
// Satellites
// ---------------------------------------------------------------------------------------------

/// Whether a pass is one of the entry's satellite, high enough, and under way at the moment, the
/// time to tune before it counted in.
pub open spec fn is_on_pass(
    entry: SatelliteEntry,
    pass: SatellitePass,
    pretune_secs: u32,
    now_ms: i64,
) -> bool {
    &&& pass.norad_id == entry.norad_id
    &&& pass.max_elevation >= entry.min_elevation
    &&& pass.aos_ms - pretune_secs * 1000 <= now_ms
    &&& now_ms <= pass.los_ms
}

/// Whether a pass of the entry's satellite is under way.
pub open spec fn is_passing(
    entry: SatelliteEntry,
    passes: Seq<SatellitePass>,
    pretune_secs: u32,
    now_ms: i64,
) -> bool {
    exists|j: int|
        0 <= j < passes.len() && is_on_pass(entry, #[trigger] passes[j], pretune_secs, now_ms)
}

fn satellite_is_passing(
    entry: &SatelliteEntry,
    passes: &Vec<SatellitePass>,
    pretune_secs: u32,
    now_ms: i64,
) -> (res: bool)
    ensures
        res == is_passing(*entry, passes@, pretune_secs, now_ms),
{
    let mut j: usize = 0;
    while j < passes.len()
        invariant
            j <= passes@.len(),
            forall|k: int|
                0 <= k < j ==> !is_on_pass(*entry, #[trigger] passes@[k], pretune_secs, now_ms),
        decreases passes@.len() - j,
    {
        let pass = &passes[j];
        let from: i128 = pass.aos_ms as i128 - pretune_secs as i128 * 1000;
        if pass.norad_id == entry.norad_id && pass.max_elevation >= entry.min_elevation && from
            <= now_ms as i128 && now_ms <= pass.los_ms {
            assert(is_on_pass(*entry, passes@[j as int], pretune_secs, now_ms));
            return true;
        }
        j = j + 1;
    }
    false
}

/// Of the first `n` satellites, the one to receive: the passing one with the lowest priority
/// number, and of those the first.
pub open spec fn best_satellite(
    cfg: SatelliteSchedulerConfig,
    passes: Seq<SatellitePass>,
    now_ms: i64,
    n: int,
) -> Option<int>
    decreases n,
{
    if n <= 0 {
        None
    } else {
        let before = best_satellite(cfg, passes, now_ms, n - 1);
        if is_passing(cfg.entries@[n - 1], passes, cfg.pretune_secs, now_ms) {
            match before {
                Some(b) => if cfg.entries@[n - 1].priority < cfg.entries@[b].priority {
                    Some(n - 1)
                } else {
                    Some(b)
                },
                None => Some(n - 1),
            }
        } else {
            before
        }
    }
}

/// The satellite to receive, where predictions are known and one passes.
pub open spec fn satellite_now(
    cfg: SatelliteSchedulerConfig,
    passes: Option<Vec<SatellitePass>>,
    now_ms: i64,
) -> Option<SatelliteEntry> {
    match passes {
        Some(p) => match best_satellite(cfg, p@, now_ms, cfg.entries@.len() as int) {
            Some(b) => Some(cfg.entries@[b]),
            None => None,
        },
        None => None,
    }
}

/// The satellite to receive at the moment.
pub fn active_satellite_entry_at<'a>(
    cfg: &'a SatelliteSchedulerConfig,
    cached_passes: &Option<Vec<SatellitePass>>,
    now_ms: i64,
) -> (res: Option<&'a SatelliteEntry>)
    ensures
        (match res {
            Some(e) => Some(*e),
            None => None,
        }) == satellite_now(*cfg, *cached_passes, now_ms),
{
    match cached_passes {
        Some(passes) => {
            let mut best: Option<usize> = None;
            let mut i: usize = 0;
            while i < cfg.entries.len()
                invariant
                    i <= cfg.entries@.len(),
                    best matches Some(b) ==> b < i,
                    (match best {
                        Some(b) => Some(b as int),
                        None => None,
                    }) == best_satellite(*cfg, passes@, now_ms, i as int),
                decreases cfg.entries@.len() - i,
            {
                if satellite_is_passing(&cfg.entries[i], passes, cfg.pretune_secs, now_ms) {
                    match best {
                        Some(b) => {
                            if cfg.entries[i].priority < cfg.entries[b].priority {
                                best = Some(i);
                            }
                        },
                        None => {
                            best = Some(i);
                        },
                    }
                }
                i = i + 1;
            }
            match best {
                Some(b) => Some(&cfg.entries[b]),
                None => None,
            }
        },
        None => None,
    }
}

/// The satellite to receive now.
pub fn active_satellite_entry<'a>(
    cfg: &'a SatelliteSchedulerConfig,
    cached_passes: &Option<Vec<SatellitePass>>,
) -> (res: Option<&'a SatelliteEntry>)
    ensures
        exists|now_ms: i64|
            now_ms >= 0 && (match res {
                Some(e) => Some(*e),
                None => None,
            }) == #[trigger] satellite_now(*cfg, *cached_passes, now_ms),
{
    let now_ms: i64 = now_unix_ms();
    active_satellite_entry_at(cfg, cached_passes, now_ms)
}

/// The satellite to receive passes, no passing one has a lower priority number, and none before it
/// in the list has the same. Where there is none to receive, none passes.
pub proof fn best_satellite_meaning(
    cfg: SatelliteSchedulerConfig,
    passes: Seq<SatellitePass>,
    now_ms: i64,
    n: int,
)
    requires
        0 <= n <= cfg.entries@.len(),
    ensures
        match best_satellite(cfg, passes, now_ms, n) {
            Some(b) => {
                &&& 0 <= b < n
                &&& is_passing(cfg.entries@[b], passes, cfg.pretune_secs, now_ms)
                &&& forall|i: int|
                    0 <= i < n && is_passing(
                        #[trigger] cfg.entries@[i],
                        passes,
                        cfg.pretune_secs,
                        now_ms,
                    ) ==> cfg.entries@[b].priority <= cfg.entries@[i].priority && (i < b
                        ==> cfg.entries@[b].priority < cfg.entries@[i].priority)
            },
            None => forall|i: int|
                0 <= i < n ==> !is_passing(
                    #[trigger] cfg.entries@[i],
                    passes,
                    cfg.pretune_secs,
                    now_ms,
                ),
        },
    decreases n,
{
    if n > 0 {
        best_satellite_meaning(cfg, passes, now_ms, n - 1);
    }
}

// ---------------------------------------------------------------------------------------------
// Targets
// ---------------------------------------------------------------------------------------------

/// What a rig is tuned to.
#[derive(Debug)]
pub struct AppliedTarget {
    pub bookmark_id: String,
    pub center_hz: Option<u64>,
    pub extra_bookmark_ids: Vec<String>,
}

/// What a target says.
#[verifier::ext_equal]
pub struct AppliedTargetView {
    pub bookmark_id: Seq<char>,
    pub center_hz: Option<u64>,
    pub extra_bookmark_ids: Seq<Seq<char>>,
}

impl View for AppliedTarget {
    type V = AppliedTargetView;

    open spec fn view(&self) -> AppliedTargetView {
        AppliedTargetView {
            bookmark_id: self.bookmark_id@,
            center_hz: self.center_hz,
            extra_bookmark_ids: list_view(self.extra_bookmark_ids@),
        }
    }
}

impl Clone for AppliedTarget {
    fn clone(&self) -> (res: Self)
        ensures
            res@ == self@,
    {
        AppliedTarget {
            bookmark_id: self.bookmark_id.clone(),
            center_hz: self.center_hz,
            extra_bookmark_ids: list_clone(&self.extra_bookmark_ids),
        }
    }
}

/// Whether two targets say the same.
pub fn same_target(a: &AppliedTarget, b: &AppliedTarget) -> (res: bool)
    ensures
        res == (a@ == b@),
{
    let same_center = match (a.center_hz, b.center_hz) {
        (Some(x), Some(y)) => x == y,
        (None, None) => true,
        _ => false,
    };
    same_center && str_eq(a.bookmark_id.as_str(), b.bookmark_id.as_str()) && list_eq(
        &a.extra_bookmark_ids,
        &b.extra_bookmark_ids,
    )
}

/// A target that the scheduler has chosen, and why.
#[derive(Debug)]
pub struct ScheduledTarget {
    /// The entry that it comes from; that of a satellite starts with `sat:`.
    pub entry_id: Option<String>,
    pub target: AppliedTarget,
    /// The name and catalog number of the satellite that passes.
    pub satellite: Option<(String, u32)>,
}

/// What a chosen target says.
#[verifier::ext_equal]
pub struct ScheduledTargetView {
    pub entry_id: Option<Seq<char>>,
    pub target: AppliedTargetView,
    pub satellite: Option<(Seq<char>, u32)>,
}

impl View for ScheduledTarget {
    type V = ScheduledTargetView;

    open spec fn view(&self) -> ScheduledTargetView {
        ScheduledTargetView {
            entry_id: opt_view(self.entry_id),
            target: self.target@,
            satellite: match self.satellite {
                Some((name, norad_id)) => Some((name@, norad_id)),
                None => None,
            },
        }
    }
}

/// What a choice that may be missing says.
pub open spec fn scheduled_view(choice: Option<ScheduledTarget>) -> Option<ScheduledTargetView> {
    match choice {
        Some(c) => Some(c@),
        None => None,
    }
}

/// The target of an entry of the timetable.
pub open spec fn entry_target(entry: ScheduleEntry) -> ScheduledTargetView {
    ScheduledTargetView {
        entry_id: Some(entry.id@),
        target: AppliedTargetView {
            bookmark_id: entry.bookmark_id@,
            center_hz: entry.center_hz,
            extra_bookmark_ids: list_view(entry.bookmark_ids@),
        },
        satellite: None,
    }
}

/// The target of a passing satellite.
pub open spec fn satellite_target(entry: SatelliteEntry) -> ScheduledTargetView {
    ScheduledTargetView {
        entry_id: Some("sat:"@ + entry.id@),
        target: AppliedTargetView {
            bookmark_id: entry.bookmark_id@,
            center_hz: entry.center_hz,
            extra_bookmark_ids: list_view(entry.bookmark_ids@),
        },
        satellite: Some((entry.satellite@, entry.norad_id)),
    }
}

/// The target for a time of day.
pub open spec fn grayline_target(bookmark_id: Seq<char>) -> ScheduledTargetView {
    ScheduledTargetView {
        entry_id: None,
        target: AppliedTargetView {
            bookmark_id,
            center_hz: None,
            extra_bookmark_ids: Seq::empty(),
        },
        satellite: None,
    }
}

/// The bookmark for a time of day.
pub open spec fn bookmark_for(gl: GraylineConfig, period: GraylinePeriod) -> Option<Seq<char>> {
    opt_view(
        match period {
            GraylinePeriod::Dawn => gl.dawn_bookmark_id,
            GraylinePeriod::Dusk => gl.dusk_bookmark_id,
            GraylinePeriod::Day => gl.day_bookmark_id,
            GraylinePeriod::Night => gl.night_bookmark_id,
        },
    )
}

/// What the sky and the clock say at one moment.
#[derive(Debug)]
pub struct Moment {
    /// Milliseconds since the Unix epoch.
    pub now_ms: i64,
    /// Milliseconds since midnight UTC.
    pub day_ms: i64,
    /// Sunrise and sunset at the place of the configuration, in milliseconds since midnight UTC,
    /// where the sun rises and sets.
    pub sun: Option<(i64, i64)>,
    /// The predicted passes, where they are known.
    pub passes: Option<Vec<SatellitePass>>,
}

/// The satellite that takes the rig over: one passes, and satellites are enabled.
pub open spec fn satellite_override(config: SchedulerConfig, moment: Moment) -> Option<
    SatelliteEntry,
> {
    match config.satellites {
        Some(cfg) => if cfg.enabled {
            satellite_now(cfg, moment.passes, moment.now_ms)
        } else {
            None
        },
        None => None,
    }
}

/// What the configuration's mode asks for.
pub open spec fn base_target(config: SchedulerConfig, moment: Moment) -> Option<
    ScheduledTargetView,
> {
    match config.mode {
        SchedulerMode::Disabled => None,
        SchedulerMode::Grayline => match config.grayline {
            Some(gl) => match bookmark_for(
                gl,
                period_of(moment.sun, gl.northern, gl.transition_window_min, moment.day_ms),
            ) {
                Some(id) => Some(grayline_target(id)),
                None => None,
            },
            None => None,
        },
        SchedulerMode::TimeSpan => match chosen_entry(
            config.entries@,
            moment.day_ms as int,
            config.interleave_min,
        ) {
            Some(entry) => Some(entry_target(entry)),
            None => None,
        },
    }
}

/// What a rig is to be tuned to at the moment: a passing satellite comes before the mode.
pub open spec fn scheduled(config: SchedulerConfig, moment: Moment) -> Option<
    ScheduledTargetView,
> {
    match satellite_override(config, moment) {
        Some(entry) => Some(satellite_target(entry)),
        None => base_target(config, moment),
    }
}

/// What a rig is to be tuned to at the moment.
pub fn scheduled_target(config: &SchedulerConfig, moment: &Moment) -> (res: Option<ScheduledTarget>)
    ensures
        scheduled_view(res) == scheduled(*config, *moment),
{
    let passing: Option<&SatelliteEntry> = match &config.satellites {
        Some(cfg) => if cfg.enabled {
            active_satellite_entry_at(cfg, &moment.passes, moment.now_ms)
        } else {
            None
        },
        None => None,
    };
    match passing {
        Some(entry) => {
            let found = ScheduledTarget {
                entry_id: Some(join2("sat:", entry.id.as_str())),
                target: AppliedTarget {
                    bookmark_id: entry.bookmark_id.clone(),
                    center_hz: entry.center_hz,
                    extra_bookmark_ids: list_clone(&entry.bookmark_ids),
                },
                satellite: Some((entry.satellite.clone(), entry.norad_id)),
            };
            assert(found@ == satellite_target(*entry));
            Some(found)
        },
        None => match config.mode {
            SchedulerMode::Disabled => None,
            SchedulerMode::Grayline => match &config.grayline {
                Some(gl) => {
                    let period = current_grayline_period(
                        moment.sun,
                        gl.northern,
                        gl.transition_window_min,
                        moment.day_ms,
                    );
                    match grayline_bookmark_id(gl, period) {
                        Some(id) => {
                            let extra_bookmark_ids: Vec<String> = Vec::new();
                            let found = ScheduledTarget {
                                entry_id: None,
                                target: AppliedTarget {
                                    bookmark_id: id,
                                    center_hz: None,
                                    extra_bookmark_ids,
                                },
                                satellite: None,
                            };
                            assert(found@.target.extra_bookmark_ids =~= Seq::empty());
                            assert(found@ == grayline_target(id@));
                            Some(found)
                        },
                        None => None,
                    }
                },
                None => None,
            },
            SchedulerMode::TimeSpan => match timespan_active_entry(
                &config.entries,
                moment.day_ms,
                config.interleave_min,
            ) {
                Some(entry) => {
                    let found = ScheduledTarget {
                        entry_id: Some(entry.id.clone()),
                        target: AppliedTarget {
                            bookmark_id: entry.bookmark_id.clone(),
                            center_hz: entry.center_hz,
                            extra_bookmark_ids: list_clone(&entry.bookmark_ids),
                        },
                        satellite: None,
                    };
                    assert(found@ == entry_target(*entry));
                    Some(found)
                },
                None => None,
            },
        },
    }
}

/// A passing satellite comes before whatever the mode asks for.
pub proof fn satellite_comes_first(config: SchedulerConfig, moment: Moment, entry: SatelliteEntry)
    requires
        satellite_override(config, moment) == Some(entry),
    ensures
        scheduled(config, moment) == Some(satellite_target(entry)),
{
}

/// Once no satellite passes, the mode decides again.
pub proof fn mode_resumes(config: SchedulerConfig, moment: Moment)
    requires
        satellite_override(config, moment) is None,
    ensures
        scheduled(config, moment) == base_target(config, moment),
{
}

// ---------------------------------------------------------------------------------------------
// What the schedule comes to
// ---------------------------------------------------------------------------------------------

/// The parts of the day, for a day on which the sun rises before it sets: it is day from the end of
/// dawn to the beginning of dusk, and night before dawn and after dusk. Dawn and dusk reach as many
/// minutes to either side of sunrise and sunset as the window says.
pub proof fn grayline_parts_of_the_day(
    sunrise: i64,
    sunset: i64,
    northern: bool,
    window_min: u32,
    now_ms: i64,
)
    requires
        sunrise < sunset,
    ensures
        ({
            let period = period_of(Some((sunrise, sunset)), northern, window_min, now_ms);
            let w = window_min * 60_000;
            &&& now_ms < sunrise - w || now_ms > sunset + w ==> period == GraylinePeriod::Night
            &&& sunrise + w < now_ms < sunset - w ==> period == GraylinePeriod::Day
            &&& sunrise - w <= now_ms <= sunrise + w ==> period == GraylinePeriod::Dawn
            &&& sunset - w <= now_ms <= sunset + w && now_ms > sunrise + w ==> period
                == GraylinePeriod::Dusk
        }),
{
}

/// Where the sun neither rises nor sets, it is day in the north and night in the south at all times.
pub proof fn grayline_without_sunrise(northern: bool, window_min: u32, now_ms: i64)
    ensures
        northern ==> period_of(None, northern, window_min, now_ms) == GraylinePeriod::Day,
        !northern ==> period_of(None, northern, window_min, now_ms) == GraylinePeriod::Night,
{
}

/// A window that does not pass midnight is open from its start up to its end; one that does is
/// closed from its end up to its start; one that ends where it starts is always open.
pub proof fn windows_open_and_close(entry: ScheduleEntry, now_ms: int)
    ensures
        entry.start_min == entry.end_min ==> is_open(entry, now_ms),
        entry.start_min < entry.end_min ==> (is_open(entry, now_ms) <==> entry.start_min * 60_000
            <= now_ms < entry.end_min * 60_000),
        entry.start_min > entry.end_min ==> (!is_open(entry, now_ms) <==> entry.end_min * 60_000
            <= now_ms < entry.start_min * 60_000),
{
}

/// A window that is open was opened at its start time, of this day or of the day before, and has been
/// open ever since.
pub proof fn open_since(entry: ScheduleEntry, now_ms: int, t: int)
    requires
        0 <= now_ms < 86_400_000,
        entry.start_min < 1440,
        entry.end_min < 1440,
        entry.start_min != entry.end_min,
        is_open(entry, now_ms),
        opened_at(entry, now_ms) <= t <= now_ms,
    ensures
        opened_at(entry, now_ms) <= now_ms < opened_at(entry, now_ms) + 86_400_000,
        opened_at(entry, now_ms) == entry.start_min * 60_000 || opened_at(entry, now_ms)
            == entry.start_min * 60_000 - 86_400_000,
        0 <= t ==> is_open(entry, t),
        t < 0 ==> is_open(entry, t + 86_400_000),
{
}

/// A window for the whole day counts from midnight.
pub proof fn whole_day_since_midnight(entry: ScheduleEntry, now_ms: int)
    requires
        entry.start_min == entry.end_min,
    ensures
        opened_at(entry, now_ms) == 0,
{
}

/// What an entry's share of the cycle is: its own, or else the one for all, or else none.
pub proof fn shares_add_up(active: Seq<ScheduleEntry>, default_interleave: Option<u32>, n: int)
    requires
        0 <= n < active.len(),
    ensures
        shares(active, default_interleave, 0) == 0,
        active[n].interleave_min matches Some(m) ==> shares(active, default_interleave, n + 1)
            == shares(active, default_interleave, n) + m,
        active[n].interleave_min is None && default_interleave is Some ==> shares(
            active,
            default_interleave,
            n + 1,
        ) == shares(active, default_interleave, n) + default_interleave->0,
        active[n].interleave_min is None && default_interleave is None ==> shares(
            active,
            default_interleave,
            n + 1,
        ) == shares(active, default_interleave, n),
{
}

/// The cycle starts when the last of the open windows was opened.
pub proof fn cycle_starts_with_the_last_window(active: Seq<ScheduleEntry>, now_ms: int, n: int)
    requires
        1 <= n <= active.len(),
    ensures
        forall|i: int|
            0 <= i < n ==> opened_at(#[trigger] active[i], now_ms) <= overlap_start(
                active,
                now_ms,
                n,
            ),
        exists|i: int|
            0 <= i < n && opened_at(#[trigger] active[i], now_ms) == overlap_start(
                active,
                now_ms,
                n,
            ),
    decreases n,
{
    if n > 1 {
        cycle_starts_with_the_last_window(active, now_ms, n - 1);
        let before = overlap_start(active, now_ms, n - 1);
        let i = choose|i: int| 0 <= i < n - 1 && opened_at(#[trigger] active[i], now_ms) == before;
        assert(opened_at(active[i], now_ms) == before);
        assert(opened_at(active[n - 1], now_ms) == opened_at(active[n - 1], now_ms));
    } else {
        assert(opened_at(active[0], now_ms) == overlap_start(active, now_ms, n));
    }
}

/// Of two open entries the first is on for its share, the second for its own, and so on in turn,
/// from the moment the later of the two windows was opened.
pub proof fn two_entries_take_turns(
    active: Seq<ScheduleEntry>,
    now_ms: int,
    default_interleave: Option<u32>,
    a_min: u32,
    b_min: u32,
    rounds: int,
    past_ms: int,
)
    requires
        active.len() == 2,
        active[0].interleave_min == Some(a_min) || active[0].interleave_min is None
            && default_interleave == Some(a_min),
        active[1].interleave_min == Some(b_min) || active[1].interleave_min is None
            && default_interleave == Some(b_min),
        a_min + b_min > 0,
        0 <= rounds,
        0 <= past_ms < (a_min + b_min) * 60_000,
        now_ms == (if opened_at(active[0], now_ms) < opened_at(active[1], now_ms) {
            opened_at(active[1], now_ms)
        } else {
            opened_at(active[0], now_ms)
        }) + rounds * ((a_min + b_min) * 60_000) + past_ms,
    ensures
        takes_turns(active, default_interleave),
        past_ms < a_min * 60_000 ==> turn(active, now_ms, default_interleave) == 0,
        past_ms >= a_min * 60_000 ==> turn(active, now_ms, default_interleave) == 1,
{
    reveal_with_fuel(shares, 3);
    reveal_with_fuel(overlap_start, 3);
    let cycle = (a_min + b_min) * 60_000;
    vstd::arithmetic::div_mod::lemma_fundamental_div_mod_converse(
        rounds * cycle + past_ms,
        cycle,
        rounds,
        past_ms,
    );
    assert(cycle_position(active, now_ms, default_interleave) == past_ms);
    let slot: int = if past_ms < a_min * 60_000 {
        0
    } else {
        1
    };
    assert(is_turn_of(active, now_ms, default_interleave, slot));
    turn_is_unique(
        active,
        now_ms,
        default_interleave,
        slot,
        turn(active, now_ms, default_interleave),
    );
}

/// Whose turn it is: in the cycle through the open entries, those before it have had their shares and
/// it has not had all of its own.
pub proof fn turn_in_the_cycle(
    active: Seq<ScheduleEntry>,
    now_ms: int,
    default_interleave: Option<u32>,
    slot: int,
)
    requires
        0 <= slot < active.len(),
    ensures
        is_turn_of(active, now_ms, default_interleave, slot) <==> {
            let n = active.len() as int;
            let cycle: int = shares(active, default_interleave, n) as int * 60_000;
            let past = (now_ms - overlap_start(active, now_ms, n)) % cycle;
            shares(active, default_interleave, slot) * 60_000 <= past && past < shares(
                active,
                default_interleave,
                slot + 1,
            ) * 60_000
        },
{
}

proof fn lemma_open_at(entries: Seq<ScheduleEntry>, now_ms: int, i: int)
    requires
        0 <= i < open_entries(entries, now_ms).len(),
    ensures
        is_open(open_entries(entries, now_ms)[i], now_ms),
        entries.contains(open_entries(entries, now_ms)[i]),
{
    let keep = |e: ScheduleEntry| is_open(e, now_ms);
    assert(entries.filter(keep).contains(open_entries(entries, now_ms)[i]));
    entries.lemma_filter_contains_rev(keep, open_entries(entries, now_ms)[i]);
    entries.lemma_filter_pred(keep, i);
}

proof fn lemma_first_open(entries: Seq<ScheduleEntry>, now_ms: int, i: int)
    requires
        0 <= i < entries.len(),
        is_open(entries[i], now_ms),
        forall|j: int| 0 <= j < i ==> !is_open(#[trigger] entries[j], now_ms),
    ensures
        open_entries(entries, now_ms).len() > 0,
        open_entries(entries, now_ms)[0] == entries[i],
    decreases entries.len(),
{
    reveal(Seq::filter);
    let front = entries.drop_last();
    if i < front.len() {
        lemma_first_open(front, now_ms, i);
    } else {
        lemma_none_open(front, now_ms);
    }
}

proof fn lemma_none_open(entries: Seq<ScheduleEntry>, now_ms: int)
    requires
        forall|j: int| 0 <= j < entries.len() ==> !is_open(#[trigger] entries[j], now_ms),
    ensures
        open_entries(entries, now_ms).len() == 0,
    decreases entries.len(),
{
    reveal(Seq::filter);
    if entries.len() > 0 {
        lemma_none_open(entries.drop_last(), now_ms);
        assert(!is_open(entries[entries.len() - 1], now_ms));
    }
}

/// While no window is open, no entry is on; while one is, some entry is.
pub proof fn an_entry_is_on_while_a_window_is_open(
    entries: Seq<ScheduleEntry>,
    now_ms: int,
    default_interleave: Option<u32>,
    i: int,
)
    requires
        0 <= i < entries.len(),
    ensures
        chosen_entry(entries, now_ms, default_interleave) is None ==> {
            &&& entries[i].start_min != entries[i].end_min
            &&& entries[i].start_min < entries[i].end_min ==> !(entries[i].start_min * 60_000
                <= now_ms < entries[i].end_min * 60_000)
            &&& entries[i].start_min > entries[i].end_min ==> entries[i].end_min * 60_000 <= now_ms
                < entries[i].start_min * 60_000
        },
{
    if chosen_entry(entries, now_ms, default_interleave) is None && is_open(entries[i], now_ms) {
        let keep = |e: ScheduleEntry| is_open(e, now_ms);
        entries.lemma_filter_contains(keep, i);
        assert(open_entries(entries, now_ms).contains(entries[i]));
    }
}

/// Without shares the first entry in the list whose window is open is on, whatever comes after it.
pub proof fn first_open_entry_is_on(
    entries: Seq<ScheduleEntry>,
    now_ms: int,
    default_interleave: Option<u32>,
    i: int,
)
    requires
        0 <= i < entries.len(),
        is_open(entries[i], now_ms),
        forall|j: int| 0 <= j < i ==> !is_open(#[trigger] entries[j], now_ms),
        default_interleave is None || default_interleave == Some(0u32),
        forall|j: int|
            0 <= j < entries.len() ==> (#[trigger] entries[j]).interleave_min is None
                || entries[j].interleave_min == Some(0u32),
    ensures
        chosen_entry(entries, now_ms, default_interleave) == Some(entries[i]),
{
    let active = open_entries(entries, now_ms);
    lemma_first_open(entries, now_ms, i);
    lemma_no_shares(entries, now_ms, default_interleave, active.len() as int);
}

proof fn lemma_no_shares(
    entries: Seq<ScheduleEntry>,
    now_ms: int,
    default_interleave: Option<u32>,
    n: int,
)
    requires
        0 <= n <= open_entries(entries, now_ms).len(),
        default_interleave is None || default_interleave == Some(0u32),
        forall|j: int|
            0 <= j < entries.len() ==> (#[trigger] entries[j]).interleave_min is None
                || entries[j].interleave_min == Some(0u32),
    ensures
        shares(open_entries(entries, now_ms), default_interleave, n) == 0,
    decreases n,
{
    if n > 0 {
        lemma_no_shares(entries, now_ms, default_interleave, n - 1);
        lemma_open_at(entries, now_ms, n - 1);
        let e = open_entries(entries, now_ms)[n - 1];
        let j = choose|j: int| 0 <= j < entries.len() && entries[j] == e;
        assert(entries[j] == e);
    }
}

/// An entry that is open alone is on, whatever its share.
pub proof fn only_open_entry_is_on(
    entries: Seq<ScheduleEntry>,
    now_ms: int,
    default_interleave: Option<u32>,
    i: int,
)
    requires
        0 <= i < entries.len(),
        is_open(entries[i], now_ms),
        forall|j: int| 0 <= j < entries.len() && j != i ==> !is_open(#[trigger] entries[j], now_ms),
    ensures
        chosen_entry(entries, now_ms, default_interleave) == Some(entries[i]),
{
    lemma_first_open(entries, now_ms, i);
    lemma_one_open(entries, now_ms, i);
}

proof fn lemma_one_open(entries: Seq<ScheduleEntry>, now_ms: int, i: int)
    requires
        0 <= i < entries.len(),
        forall|j: int| 0 <= j < entries.len() && j != i ==> !is_open(#[trigger] entries[j], now_ms),
    ensures
        open_entries(entries, now_ms).len() <= 1,
    decreases entries.len(),
{
    reveal(Seq::filter);
    let front = entries.drop_last();
    if i < front.len() {
        lemma_one_open(front, now_ms, i);
        assert(!is_open(entries[entries.len() - 1], now_ms));
    } else {
        lemma_none_open(front, now_ms);
    }
}

/// A satellite is received from so many seconds before it rises until it sets, on a pass of its own
/// that is high enough, and at no other time.
pub proof fn satellite_is_received_on_its_passes(
    entry: SatelliteEntry,
    passes: Seq<SatellitePass>,
    pretune_secs: u32,
    now_ms: i64,
)
    ensures
        is_passing(entry, passes, pretune_secs, now_ms) <==> exists|j: int|
            0 <= j < passes.len() && (#[trigger] passes[j]).norad_id == entry.norad_id
                && entry.min_elevation <= passes[j].max_elevation && passes[j].aos_ms <= now_ms
                + 1000 * pretune_secs && now_ms <= passes[j].los_ms,
{
    if is_passing(entry, passes, pretune_secs, now_ms) {
        let j = choose|j: int|
            0 <= j < passes.len() && is_on_pass(entry, #[trigger] passes[j], pretune_secs, now_ms);
        assert(passes[j].norad_id == entry.norad_id);
    }
    if exists|j: int|
        0 <= j < passes.len() && (#[trigger] passes[j]).norad_id == entry.norad_id
            && entry.min_elevation <= passes[j].max_elevation && passes[j].aos_ms <= now_ms + 1000
            * pretune_secs && now_ms <= passes[j].los_ms {
        let j = choose|j: int|
            0 <= j < passes.len() && (#[trigger] passes[j]).norad_id == entry.norad_id
                && entry.min_elevation <= passes[j].max_elevation && passes[j].aos_ms <= now_ms
                + 1000 * pretune_secs && now_ms <= passes[j].los_ms;
        assert(is_on_pass(entry, passes[j], pretune_secs, now_ms));
    }
}

/// Of the satellites that are received the one with the lowest number goes first, and of equal ones
/// the one that is listed first. Without predictions none is received.
pub proof fn most_urgent_satellite_goes_first(
    cfg: SatelliteSchedulerConfig,
    passes: Vec<SatellitePass>,
    now_ms: i64,
    i: int,
)
    requires
        0 <= i < cfg.entries@.len(),
        is_passing(cfg.entries@[i], passes@, cfg.pretune_secs, now_ms),
    ensures
        satellite_now(cfg, None, now_ms) is None,
        satellite_now(cfg, Some(passes), now_ms) matches Some(e) && cfg.entries@.contains(e)
            && is_passing(e, passes@, cfg.pretune_secs, now_ms) && e.priority
            <= cfg.entries@[i].priority,
        (forall|k: int|
            0 <= k < cfg.entries@.len() && k != i && is_passing(
                #[trigger] cfg.entries@[k],
                passes@,
                cfg.pretune_secs,
                now_ms,
            ) ==> cfg.entries@[i].priority < cfg.entries@[k].priority || (i < k
                && cfg.entries@[i].priority == cfg.entries@[k].priority)) ==> satellite_now(
            cfg,
            Some(passes),
            now_ms,
        ) == Some(cfg.entries@[i]),
{
    best_satellite_meaning(cfg, passes@, now_ms, cfg.entries@.len() as int);
}

/// While no satellite is received, none is chosen.
pub proof fn no_satellite_is_chosen_without_a_pass(
    cfg: SatelliteSchedulerConfig,
    passes: Vec<SatellitePass>,
    now_ms: i64,
)
    requires
        forall|i: int|
            0 <= i < cfg.entries@.len() ==> !is_passing(
                #[trigger] cfg.entries@[i],
                passes@,
                cfg.pretune_secs,
                now_ms,
            ),
    ensures
        satellite_now(cfg, Some(passes), now_ms) is None,
{
    best_satellite_meaning(cfg, passes@, now_ms, cfg.entries@.len() as int);
}

/// Satellites only count where they are configured and switched on.
pub proof fn satellites_count_where_enabled(config: SchedulerConfig, moment: Moment)
    ensures
        config.satellites is None ==> satellite_override(config, moment) is None,
        config.satellites matches Some(s) ==> {
            &&& !s.enabled ==> satellite_override(config, moment) is None
            &&& s.enabled ==> satellite_override(config, moment) == satellite_now(
                s,
                moment.passes,
                moment.now_ms,
            )
        },
{
}

/// Where a satellite is chosen, the rig is tuned by the satellite's entry.
pub proof fn satellite_target_is_its_entry(
    config: SchedulerConfig,
    moment: Moment,
    entry: SatelliteEntry,
)
    requires
        satellite_override(config, moment) == Some(entry),
    ensures
        scheduled(config, moment) matches Some(t) && {
            &&& t.entry_id == Some("sat:"@ + entry.id@)
            &&& t.target.bookmark_id == entry.bookmark_id@
            &&& t.target.center_hz == entry.center_hz
            &&& t.target.extra_bookmark_ids == list_view(entry.bookmark_ids@)
            &&& t.satellite == Some((entry.satellite@, entry.norad_id))
        },
{
}

/// Without a satellite a schedule that is switched off tunes nothing, and a timetable tunes by the
/// entry that is on.
pub proof fn timetable_target_is_its_entry(config: SchedulerConfig, moment: Moment)
    requires
        satellite_override(config, moment) is None,
    ensures
        config.mode == SchedulerMode::Disabled ==> scheduled(config, moment) is None,
        config.mode == SchedulerMode::TimeSpan ==> match chosen_entry(
            config.entries@,
            moment.day_ms as int,
            config.interleave_min,
        ) {
            Some(entry) => scheduled(config, moment) matches Some(t) && {
                &&& t.entry_id == Some(entry.id@)
                &&& t.target.bookmark_id == entry.bookmark_id@
                &&& t.target.center_hz == entry.center_hz
                &&& t.target.extra_bookmark_ids == list_view(entry.bookmark_ids@)
                &&& t.satellite is None
            },
            None => scheduled(config, moment) is None,
        },
{
}

/// Without a satellite the grayline tunes to the bookmark of the part of the day, and nowhere where
/// that part has none.
pub proof fn grayline_target_is_that_of_the_period(
    config: SchedulerConfig,
    moment: Moment,
    gl: GraylineConfig,
    sunrise: i64,
    sunset: i64,
)
    requires
        satellite_override(config, moment) is None,
        config.mode == SchedulerMode::Grayline,
        config.grayline == Some(gl),
        moment.sun == Some((sunrise, sunset)),
        sunrise < sunset,
    ensures
        ({
            let w = gl.transition_window_min * 60_000;
            let now = moment.day_ms;
            let id = match scheduled(config, moment) {
                Some(t) => Some(t.target.bookmark_id),
                None => None,
            };
            &&& sunrise + w < now < sunset - w ==> id == opt_view(gl.day_bookmark_id)
            &&& now < sunrise - w || now > sunset + w ==> id == opt_view(gl.night_bookmark_id)
            &&& sunrise - w <= now <= sunrise + w ==> id == opt_view(gl.dawn_bookmark_id)
            &&& sunset - w <= now <= sunset + w && now > sunrise + w ==> id == opt_view(
                gl.dusk_bookmark_id,
            )
        }),
        scheduled(config, moment) matches Some(t) ==> t.entry_id is None && t.target.center_hz is None
            && t.target.extra_bookmark_ids.len() == 0 && t.satellite is None,
{
}

/// Without a place for the grayline nothing is tuned.
pub proof fn grayline_without_a_place(config: SchedulerConfig, moment: Moment)
    requires
        satellite_override(config, moment) is None,
        config.mode == SchedulerMode::Grayline,
        config.grayline is None,
    ensures
        scheduled(config, moment) is None,
{
}

} // verus!
