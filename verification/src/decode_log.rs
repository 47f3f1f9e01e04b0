//! The histories of all decoders.
use vstd::prelude::*;

use crate::commands::Decoder;
use crate::history::{
    is_entry_of, lists_latest, messages_of, of_rig, pruned, stamp, stamped, Decoded, History,
    HistoryEntry,
};
use crate::text::opt_view;

verus! {

/// What was decoded.
#[derive(Clone, Copy, Debug, PartialEq, Eq, Structural)]
pub enum DecodeKind {
    Ais,
    Vdes,
    Aprs,
    HfAprs,
    Cw,
    Ft8,
    Ft4,
    Ft2,
    Wspr,
    Wefax,
    WxsatImage,
    LrptImage,
}

/// The name of a history.
pub open spec fn history_name(kind: DecodeKind) -> Option<Seq<char>> {
    match kind {
        DecodeKind::Ais => Some("ais"@),
        DecodeKind::Vdes => Some("vdes"@),
        DecodeKind::Aprs => Some("aprs"@),
        DecodeKind::HfAprs => Some("hf_aprs"@),
        DecodeKind::Cw => Some("cw"@),
        DecodeKind::Ft8 => Some("ft8"@),
        DecodeKind::Ft4 => Some("ft4"@),
        DecodeKind::Ft2 => Some("ft2"@),
        DecodeKind::Wspr => Some("wspr"@),
        DecodeKind::Wefax => Some("wefax"@),
        DecodeKind::WxsatImage => None,
        DecodeKind::LrptImage => None,
    }
}

/// The kinds that have a history, in the order in which the histories are sent.
pub open spec fn kinds_with_history() -> Seq<DecodeKind> {
    seq![
        DecodeKind::Ais,
        DecodeKind::Vdes,
        DecodeKind::Aprs,
        DecodeKind::HfAprs,
        DecodeKind::Cw,
        DecodeKind::Ft8,
        DecodeKind::Ft4,
        DecodeKind::Ft2,
        DecodeKind::Wspr,
        DecodeKind::Wefax,
    ]
}

/// Whether messages of a kind get the moment of their arrival where they have none of their own.
pub open spec fn is_stamped(kind: DecodeKind) -> bool {
    kind is Ais || kind is Vdes || kind is Aprs || kind is HfAprs
}

/// Whether a message of a kind that a server sends from its history is taken over.
pub open spec fn is_replayed(kind: DecodeKind) -> bool {
    is_stamped(kind) || kind is Cw || kind is Ft8 || kind is Wspr
}

/// Whether the history of a kind outlives the program.
pub open spec fn is_stored(kind: DecodeKind) -> bool {
    kind is Ais || kind is Vdes || kind is Aprs || kind is Cw || kind is Ft8 || kind is Wspr
}

impl DecodeKind {
    /// The name of the kind's history, where it has one.
    pub fn name(&self) -> (res: Option<&'static str>)
        ensures
            (match res {
                Some(n) => Some(n@),
                None => None,
            }) == history_name(*self),
    {
        match self {
            DecodeKind::Ais => Some("ais"),
            DecodeKind::Vdes => Some("vdes"),
            DecodeKind::Aprs => Some("aprs"),
            DecodeKind::HfAprs => Some("hf_aprs"),
            DecodeKind::Cw => Some("cw"),
            DecodeKind::Ft8 => Some("ft8"),
            DecodeKind::Ft4 => Some("ft4"),
            DecodeKind::Ft2 => Some("ft2"),
            DecodeKind::Wspr => Some("wspr"),
            DecodeKind::Wefax => Some("wefax"),
            DecodeKind::WxsatImage => None,
            DecodeKind::LrptImage => None,
        }
    }

    /// The kinds that have a history, in the order in which the histories are sent.
    pub fn with_history() -> (res: Vec<DecodeKind>)
        ensures
            res@ == kinds_with_history(),
    {
        vec![
            DecodeKind::Ais,
            DecodeKind::Vdes,
            DecodeKind::Aprs,
            DecodeKind::HfAprs,
            DecodeKind::Cw,
            DecodeKind::Ft8,
            DecodeKind::Ft4,
            DecodeKind::Ft2,
            DecodeKind::Wspr,
            DecodeKind::Wefax,
        ]
    }

    /// Whether messages get the moment of their arrival where they have none of their own.
    pub fn stamped_on_arrival(&self) -> (res: bool)
        ensures
            res == is_stamped(*self),
    {
        match self {
            DecodeKind::Ais => true,
            DecodeKind::Vdes => true,
            DecodeKind::Aprs => true,
            DecodeKind::HfAprs => true,
            _ => false,
        }
    }

    /// Whether a message that a server sends from its history is taken over.
    pub fn replayed(&self) -> (res: bool)
        ensures
            res == is_replayed(*self),
    {
        match self {
            DecodeKind::Cw => true,
            DecodeKind::Ft8 => true,
            DecodeKind::Wspr => true,
            _ => self.stamped_on_arrival(),
        }
    }

    /// Whether the history outlives the program.
    pub fn stored(&self) -> (res: bool)
        ensures
            res == is_stored(*self),
    {
        match self {
            DecodeKind::Ais => true,
            DecodeKind::Vdes => true,
            DecodeKind::Aprs => true,
            DecodeKind::Cw => true,
            DecodeKind::Ft8 => true,
            DecodeKind::Wspr => true,
            _ => false,
        }
    }
}

/// The history that is forgotten when a decoder is told to start anew.
pub open spec fn forgotten_with(decoder: Decoder) -> Option<DecodeKind> {
    match decoder {
        Decoder::Aprs => Some(DecodeKind::Aprs),
        Decoder::HfAprs => Some(DecodeKind::HfAprs),
        Decoder::Cw => Some(DecodeKind::Cw),
        Decoder::Ft8 => Some(DecodeKind::Ft8),
        Decoder::Ft4 => Some(DecodeKind::Ft4),
        Decoder::Ft2 => Some(DecodeKind::Ft2),
        Decoder::Wspr => Some(DecodeKind::Wspr),
        _ => None,
    }
}

/// The history that is forgotten when a decoder is told to start anew.
pub fn cleared_with(decoder: Decoder) -> (res: Option<DecodeKind>)
    ensures
        res == forgotten_with(decoder),
{
    match decoder {
        Decoder::Aprs => Some(DecodeKind::Aprs),
        Decoder::HfAprs => Some(DecodeKind::HfAprs),
        Decoder::Cw => Some(DecodeKind::Cw),
        Decoder::Ft8 => Some(DecodeKind::Ft8),
        Decoder::Ft4 => Some(DecodeKind::Ft4),
        Decoder::Ft2 => Some(DecodeKind::Ft2),
        Decoder::Wspr => Some(DecodeKind::Wspr),
        _ => None,
    }
}

/// A message as it is kept.
pub open spec fn arrived<T>(kind: DecodeKind, message: Decoded<T>, now_unix_ms: i64) -> Decoded<T> {
    if is_stamped(kind) {
        stamped(message, now_unix_ms)
    } else {
        message
    }
}

/// A message as it is kept.
pub fn on_arrival<T>(kind: DecodeKind, message: Decoded<T>, now_unix_ms: i64) -> (res: Decoded<T>)
    ensures
        res == arrived(kind, message, now_unix_ms),
{
    if kind.stamped_on_arrival() {
        stamp(message, now_unix_ms)
    } else {
        message
    }
}

/// Whether `res` is what is told of a history: of ships the last message each, of the rest all.
pub open spec fn is_listing<T>(
    kind: DecodeKind,
    entries: Seq<HistoryEntry<T>>,
    filter: Option<Seq<char>>,
    res: Seq<Decoded<T>>,
) -> bool {
    if kind is Ais {
        lists_latest(entries, filter, res)
    } else {
        res == messages_of(entries, filter, entries.len() as int)
    }
}

/// The histories of all decoders.
#[derive(Debug)]
pub struct DecodeLog<T> {
    pub ais: History<T>,
    pub vdes: History<T>,
    pub aprs: History<T>,
    pub hf_aprs: History<T>,
    pub cw: History<T>,
    pub ft8: History<T>,
    pub ft4: History<T>,
    pub ft2: History<T>,
    pub wspr: History<T>,
    pub wefax: History<T>,
}

impl<T> DecodeLog<T> {
    /// The entries of a kind.
    pub open spec fn of(&self, kind: DecodeKind) -> Seq<HistoryEntry<T>> {
        match kind {
            DecodeKind::Ais => self.ais.entries@,
            DecodeKind::Vdes => self.vdes.entries@,
            DecodeKind::Aprs => self.aprs.entries@,
            DecodeKind::HfAprs => self.hf_aprs.entries@,
            DecodeKind::Cw => self.cw.entries@,
            DecodeKind::Ft8 => self.ft8.entries@,
            DecodeKind::Ft4 => self.ft4.entries@,
            DecodeKind::Ft2 => self.ft2.entries@,
            DecodeKind::Wspr => self.wspr.entries@,
            DecodeKind::Wefax => self.wefax.entries@,
            DecodeKind::WxsatImage => Seq::empty(),
            DecodeKind::LrptImage => Seq::empty(),
        }
    }

    /// Nothing has been decoded.
    pub fn new() -> (res: Self)
        ensures
            forall|kind: DecodeKind| (#[trigger] res.of(kind)).len() == 0,
    {
        DecodeLog {
            ais: History::new(),
            vdes: History::new(),
            aprs: History::new(),
            hf_aprs: History::new(),
            cw: History::new(),
            ft8: History::new(),
            ft4: History::new(),
            ft2: History::new(),
            wspr: History::new(),
            wefax: History::new(),
        }
    }

    /// The history of a kind, where it has one.
    pub fn history(&self, kind: DecodeKind) -> (res: Option<&History<T>>)
        ensures
            res is Some <==> history_name(kind) is Some,
            res matches Some(h) ==> h.entries@ == self.of(kind),
    {
        match kind {
            DecodeKind::Ais => Some(&self.ais),
            DecodeKind::Vdes => Some(&self.vdes),
            DecodeKind::Aprs => Some(&self.aprs),
            DecodeKind::HfAprs => Some(&self.hf_aprs),
            DecodeKind::Cw => Some(&self.cw),
            DecodeKind::Ft8 => Some(&self.ft8),
            DecodeKind::Ft4 => Some(&self.ft4),
            DecodeKind::Ft2 => Some(&self.ft2),
            DecodeKind::Wspr => Some(&self.wspr),
            DecodeKind::Wefax => Some(&self.wefax),
            DecodeKind::WxsatImage => None,
            DecodeKind::LrptImage => None,
        }
    }

    /// The history of a kind, to be changed, where it has one.
    pub fn history_mut(&mut self, kind: DecodeKind) -> (res: Option<&mut History<T>>)
        ensures
            res is Some <==> history_name(kind) is Some,
            res is None ==> *final(self) == *old(self),
            res matches Some(h) ==> {
                &&& h.entries@ == old(self).of(kind)
                &&& final(self).of(kind) == final(h).entries@
                &&& forall|k: DecodeKind|
                    k != kind ==> #[trigger] final(self).of(k) == old(self).of(k)
            },
    {
        match kind {
            DecodeKind::Ais => Some(&mut self.ais),
            DecodeKind::Vdes => Some(&mut self.vdes),
            DecodeKind::Aprs => Some(&mut self.aprs),
            DecodeKind::HfAprs => Some(&mut self.hf_aprs),
            DecodeKind::Cw => Some(&mut self.cw),
            DecodeKind::Ft8 => Some(&mut self.ft8),
            DecodeKind::Ft4 => Some(&mut self.ft4),
            DecodeKind::Ft2 => Some(&mut self.ft2),
            DecodeKind::Wspr => Some(&mut self.wspr),
            DecodeKind::Wefax => Some(&mut self.wefax),
            DecodeKind::WxsatImage => None,
            DecodeKind::LrptImage => None,
        }
    }

    /// Whether the histories of the other kinds are as they were.
    pub open spec fn others_kept(&self, before: Self, kind: DecodeKind) -> bool {
        forall|k: DecodeKind| k != kind ==> #[trigger] self.of(k) == before.of(k)
    }

    /// Records a message that a decoder has sent. Images are not recorded.
    pub fn record(
        &mut self,
        kind: DecodeKind,
        message: Decoded<T>,
        active_rig_id: &Option<String>,
        now_unix_ms: i64,
        now_ms: i64,
        retention_secs: u64,
    )
        ensures
            final(self).others_kept(*old(self), kind),
            history_name(kind) is None ==> final(self).of(kind) == old(self).of(kind),
            history_name(kind) is Some ==> exists|entry: HistoryEntry<T>| #[trigger]
                is_entry_of(entry, arrived(kind, message, now_unix_ms), *active_rig_id, now_ms)
                    && final(self).of(kind) == pruned(
                    old(self).of(kind).push(entry),
                    now_ms,
                    retention_secs,
                ),
    {
        let kept = on_arrival(kind, message, now_unix_ms);
        match self.history_mut(kind) {
            Some(history) => history.record(kept, active_rig_id, now_ms, retention_secs),
            None => {},
        }
    }

    /// Adds a message that a server has sent from its own history. Of some kinds none is taken over.
    pub fn replay(
        &mut self,
        kind: DecodeKind,
        message: Decoded<T>,
        now_unix_ms: i64,
        now_ms: i64,
    )
        ensures
            final(self).others_kept(*old(self), kind),
            final(self).of(kind) == (if is_replayed(kind) {
                old(self).of(kind).push(
                    HistoryEntry {
                        at_ms: now_ms,
                        rig_id: None,
                        message: arrived(kind, message, now_unix_ms),
                    },
                )
            } else {
                old(self).of(kind)
            }),
    {
        if kind.replayed() {
            let kept = on_arrival(kind, message, now_unix_ms);
            match self.history_mut(kind) {
                Some(history) => history.replay(kept, now_ms),
                None => {},
            }
        }
    }

    /// Forgets the messages of a kind.
    pub fn clear(&mut self, kind: DecodeKind)
        ensures
            final(self).others_kept(*old(self), kind),
            final(self).of(kind).len() == 0,
    {
        match self.history_mut(kind) {
            Some(history) => history.clear(),
            None => {},
        }
    }

    /// Drops the messages of a kind that are too old.
    pub fn prune(&mut self, kind: DecodeKind, now_ms: i64, retention_secs: u64)
        ensures
            final(self).others_kept(*old(self), kind),
            final(self).of(kind) == pruned(old(self).of(kind), now_ms, retention_secs),
    {
        match self.history_mut(kind) {
            Some(history) => history.prune(now_ms, retention_secs),
            None => {},
        }
    }

    /// What is told of the history of a kind: of ships the last message each, of the rest all.
    pub fn listing(&self, kind: DecodeKind, filter: &Option<String>) -> (res: Vec<&Decoded<T>>)
        ensures
            is_listing(kind, self.of(kind), opt_view(*filter), res@.unref()),
    {
        match kind {
            DecodeKind::Ais => self.ais.latest(filter),
            _ => match self.history(kind) {
                Some(history) => history.snapshot(filter),
                None => {
                    let none: Vec<&Decoded<T>> = Vec::new();
                    assert(none@.unref() =~= Seq::empty());
                    none
                },
            },
        }
    }
}

/// A listing ends with the message that was recorded last, where its rig is asked for and the kind
/// is not listed by station.
pub proof fn listing_ends_with_latest<T>(
    kind: DecodeKind,
    entries: Seq<HistoryEntry<T>>,
    entry: HistoryEntry<T>,
    filter: Option<Seq<char>>,
    res: Seq<Decoded<T>>,
)
    requires
        kind !is Ais,
        of_rig(opt_view(entry.rig_id), filter),
        is_listing(kind, entries.push(entry), filter, res),
    ensures
        res.len() > 0,
        res.last() == entry.message,
{
}

// ---------------------------------------------------------------------------------------------
// What the log comes to
// ---------------------------------------------------------------------------------------------

/// Everything that is decoded has a history under its name, but for the images.
pub proof fn what_has_a_history(kind: DecodeKind)
    ensures
        history_name(kind) is None <==> kind is WxsatImage || kind is LrptImage,
        kinds_with_history().contains(kind) <==> history_name(kind) is Some,
        kinds_with_history().len() == 10,
        history_name(DecodeKind::Ais) == Some("ais"@),
        history_name(DecodeKind::Vdes) == Some("vdes"@),
        history_name(DecodeKind::Aprs) == Some("aprs"@),
        history_name(DecodeKind::HfAprs) == Some("hf_aprs"@),
        history_name(DecodeKind::Cw) == Some("cw"@),
        history_name(DecodeKind::Ft8) == Some("ft8"@),
        history_name(DecodeKind::Ft4) == Some("ft4"@),
        history_name(DecodeKind::Ft2) == Some("ft2"@),
        history_name(DecodeKind::Wspr) == Some("wspr"@),
        history_name(DecodeKind::Wefax) == Some("wefax"@),
{
    let list = kinds_with_history();
    assert(list[0] is Ais && list[1] is Vdes && list[2] is Aprs && list[3] is HfAprs);
    assert(list[4] is Cw && list[5] is Ft8 && list[6] is Ft4 && list[7] is Ft2);
    assert(list[8] is Wspr && list[9] is Wefax);
}

/// What is stamped when it arrives, what is replayed to a history and what is stored.
pub proof fn what_is_done_with_a_kind(kind: DecodeKind)
    ensures
        is_stamped(kind) <==> kind is Ais || kind is Vdes || kind is Aprs || kind is HfAprs,
        is_replayed(kind) <==> kind is Ais || kind is Vdes || kind is Aprs || kind is HfAprs
            || kind is Cw || kind is Ft8 || kind is Wspr,
        is_stored(kind) <==> kind is Ais || kind is Vdes || kind is Aprs || kind is Cw || kind is Ft8
            || kind is Wspr,
        is_stored(kind) ==> is_replayed(kind),
        is_replayed(kind) ==> history_name(kind) is Some,
{
}

/// With a decoder the messages of that decoder are forgotten, and those of no other.
pub proof fn what_is_forgotten_with_a_decoder(decoder: Decoder)
    ensures
        forgotten_with(decoder) is None <==> decoder is Wxsat || decoder is Lrpt || decoder is Wefax,
        decoder is Aprs <==> forgotten_with(decoder) == Some(DecodeKind::Aprs),
        decoder is HfAprs <==> forgotten_with(decoder) == Some(DecodeKind::HfAprs),
        decoder is Cw <==> forgotten_with(decoder) == Some(DecodeKind::Cw),
        decoder is Ft8 <==> forgotten_with(decoder) == Some(DecodeKind::Ft8),
        decoder is Ft4 <==> forgotten_with(decoder) == Some(DecodeKind::Ft4),
        decoder is Ft2 <==> forgotten_with(decoder) == Some(DecodeKind::Ft2),
        decoder is Wspr <==> forgotten_with(decoder) == Some(DecodeKind::Wspr),
{
}

/// Messages of ships, packets and VDES have a moment once they have arrived; others stay as they are.
pub proof fn arrived_messages<T>(kind: DecodeKind, message: Decoded<T>, now_unix_ms: i64)
    ensures
        ({
            let a = arrived(kind, message, now_unix_ms);
            let stamps = kind is Ais || kind is Vdes || kind is Aprs || kind is HfAprs;
            &&& message.ts_ms is Some || !stamps ==> a == message
            &&& message.ts_ms is None && stamps ==> a.ts_ms == Some(now_unix_ms) && a.rig_id
                == message.rig_id && a.mmsi == message.mmsi && a.body == message.body
        }),
{
}

/// Each kind has a history of its own.
pub proof fn histories_of_the_kinds<T>(log: DecodeLog<T>, before: DecodeLog<T>, kind: DecodeKind)
    ensures
        log.of(DecodeKind::Ais) == log.ais.entries@,
        log.of(DecodeKind::Vdes) == log.vdes.entries@,
        log.of(DecodeKind::Aprs) == log.aprs.entries@,
        log.of(DecodeKind::HfAprs) == log.hf_aprs.entries@,
        log.of(DecodeKind::Cw) == log.cw.entries@,
        log.of(DecodeKind::Ft8) == log.ft8.entries@,
        log.of(DecodeKind::Ft4) == log.ft4.entries@,
        log.of(DecodeKind::Ft2) == log.ft2.entries@,
        log.of(DecodeKind::Wspr) == log.wspr.entries@,
        log.of(DecodeKind::Wefax) == log.wefax.entries@,
        log.of(DecodeKind::WxsatImage).len() == 0,
        log.of(DecodeKind::LrptImage).len() == 0,
        log.others_kept(before, kind) && kind !is Ais ==> log.ais.entries@ == before.ais.entries@,
        log.others_kept(before, kind) && kind !is Aprs ==> log.aprs.entries@ == before.aprs.entries@,
        log.others_kept(before, kind) && kind !is Cw ==> log.cw.entries@ == before.cw.entries@,
        log.others_kept(before, kind) && kind !is Ft8 ==> log.ft8.entries@ == before.ft8.entries@,
{
    if log.others_kept(before, kind) {
        if kind !is Ais {
            assert(log.of(DecodeKind::Ais) == before.of(DecodeKind::Ais));
        }
        if kind !is Aprs {
            assert(log.of(DecodeKind::Aprs) == before.of(DecodeKind::Aprs));
        }
        if kind !is Cw {
            assert(log.of(DecodeKind::Cw) == before.of(DecodeKind::Cw));
        }
        if kind !is Ft8 {
            assert(log.of(DecodeKind::Ft8) == before.of(DecodeKind::Ft8));
        }
    }
}

/// Of ships the latest message of each is listed, of everything else every message.
pub proof fn listings_of_the_kinds<T>(
    kind: DecodeKind,
    entries: Seq<HistoryEntry<T>>,
    filter: Option<Seq<char>>,
    res: Seq<Decoded<T>>,
)
    requires
        is_listing(kind, entries, filter, res),
    ensures
        kind is Ais ==> lists_latest(entries, filter, res),
        kind !is Ais ==> res == messages_of(entries, filter, entries.len() as int),
{
}

} // verus!
