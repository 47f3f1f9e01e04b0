//! The event streams for browsers.
use vstd::prelude::*;

use crate::base64::{base64_encode, encoded};
use crate::bookmarks::{BookmarkStoreMap, BookmarkView};
use crate::decoders::{bookmark_decoder_kinds, decoder_kinds_of};
use crate::scheduler_control::{none_holds, SchedulerControlManager};
use crate::scheduler_task::{SchedulerStatusMap, SchedulerStatusView};
use crate::table::Table;
use crate::text::{
    decimal, find_char, first_index, first_index_is, first_index_meaning, from_range, join3,
    list_view, opt_clone, opt_eq, opt_view, str_eq, to_chars, u64_text,
};

verus! {

// ---------------------------------------------------------------------------------------------
// Events
// ---------------------------------------------------------------------------------------------

/// An event without a name.
pub open spec fn data_event(data: Seq<char>) -> Seq<char> {
    "data: "@ + data + "\n\n"@
}

/// An event with a name.
pub open spec fn named_event(name: Seq<char>, data: Seq<char>) -> Seq<char> {
    "event: "@ + name + "\ndata: "@ + data + "\n\n"@
}

/// The text of an event without a name.
pub fn data_event_text(data: &str) -> (res: String)
    ensures
        res@ == data_event(data@),
{
    join3("data: ", data, "\n\n")
}

/// The text of an event with a name.
pub fn named_event_text(name: &str, data: &str) -> (res: String)
    ensures
        res@ == named_event(name@, data@),
{
    let head = join3("event: ", name, "\ndata: ");
    join3(head.as_str(), data, "\n\n")
}

/// The data of an event that tells of the channels of a rig.
pub open spec fn channels_data(rig_id: Seq<char>, channels_json: Seq<char>) -> Seq<char> {
    "{\"remote\":\""@ + rig_id + "\",\"channels\":"@ + channels_json + "}"@
}

/// The event that tells of the channels of a rig.
pub fn channels_event(rig_id: &str, channels_json: &str) -> (res: String)
    ensures
        res@ == named_event("channels"@, channels_data(rig_id@, channels_json@)),
{
    let head = join3("{\"remote\":\"", rig_id, "\",\"channels\":");
    let data = join3(head.as_str(), channels_json, "}");
    named_event_text("channels", data.as_str())
}

/// What a stream of events begins with: the state of the rig, the session's id, and the channels of
/// the rig, where there is one and they could be written down.
pub open spec fn prefix_of(
    state_json: Seq<char>,
    session_id: Seq<char>,
    channels: Option<(Seq<char>, Seq<char>)>,
) -> Seq<Seq<char>> {
    let first = seq![
        data_event(state_json),
        named_event("session"@, "{\"session_id\":\""@ + session_id + "\"}"@),
    ];
    match channels {
        Some((rig_id, json)) => first.push(named_event("channels"@, channels_data(rig_id, json))),
        None => first,
    }
}

/// What a stream of events begins with.
pub fn event_prefix(
    state_json: &str,
    session_id: &str,
    rig_id: &Option<String>,
    channels_json: &Option<String>,
) -> (res: Vec<String>)
    ensures
        list_view(res@) == prefix_of(
            state_json@,
            session_id@,
            match (opt_view(*rig_id), opt_view(*channels_json)) {
                (Some(r), Some(j)) => Some((r, j)),
                _ => None,
            },
        ),
{
    let mut out: Vec<String> = Vec::new();
    out.push(data_event_text(state_json));
    let session = join3("{\"session_id\":\"", session_id, "\"}");
    out.push(named_event_text("session", session.as_str()));
    match (rig_id, channels_json) {
        (Some(r), Some(j)) => {
            out.push(channels_event(r.as_str(), j.as_str()));
        },
        _ => {},
    }
    assert(list_view(out@) =~= prefix_of(
        state_json@,
        session_id@,
        match (opt_view(*rig_id), opt_view(*channels_json)) {
            (Some(r), Some(j)) => Some((r, j)),
            _ => None,
        },
    ));
    out
}

/// The event for a notice that the channels of a rig have changed, where there is one: the notice
/// names the rig, up to the first colon, and a session that looks at another rig is not told.
pub open spec fn channel_notice(notice: Seq<char>, session_rig: Option<Seq<char>>) -> Option<
    Seq<char>,
> {
    let at = first_index(notice, ':');
    if at >= notice.len() {
        None
    } else {
        let rig_id = notice.take(at);
        match session_rig {
            Some(expected) => if rig_id == expected {
                Some(named_event("channels"@, channels_data(rig_id, notice.skip(at + 1))))
            } else {
                None
            },
            None => Some(named_event("channels"@, channels_data(rig_id, notice.skip(at + 1)))),
        }
    }
}

/// The notice that the channels of a rig have changed.
pub fn channels_notice(rig_id: &str, channels_json: &str) -> (res: String)
    ensures
        res@ == rig_id@ + ":"@ + channels_json@,
{
    join3(rig_id, ":", channels_json)
}

/// The event for a notice, where there is one.
pub fn channel_update(notice: &str, session_rig: &Option<String>) -> (res: Option<String>)
    ensures
        opt_view(res) == channel_notice(notice@, opt_view(*session_rig)),
{
    let chars = to_chars(notice);
    let at: usize = find_char(chars.as_slice(), ':');
    if at >= chars.len() {
        return None;
    }
    let n: usize = chars.len();
    let rig_id = from_range(chars.as_slice(), 0, at);
    let json = from_range(chars.as_slice(), at + 1, n);
    assert(rig_id@ =~= notice@.take(at as int));
    assert(json@ =~= notice@.skip(at + 1));
    match session_rig {
        Some(expected) => {
            if !str_eq(rig_id.as_str(), expected.as_str()) {
                return None;
            }
        },
        None => {},
    }
    Some(channels_event(rig_id.as_str(), json.as_str()))
}

/// A session is told of the channels of its rig as they were sent, where the rig's name holds no
/// colon.
pub proof fn notices_reach_their_session(rig_id: Seq<char>, json: Seq<char>)
    requires
        !rig_id.contains(':'),
    ensures
        channel_notice(rig_id + ":"@ + json, Some(rig_id)) == Some(
            named_event("channels"@, channels_data(rig_id, json)),
        ),
{
    reveal_strlit(":");
    let notice = rig_id + ":"@ + json;
    let at = rig_id.len() as int;
    assert(notice[at] == ':');
    assert forall|i: int| 0 <= i < at implies notice[i] != ':' by {
        assert(notice[i] == rig_id[i]);
    }
    first_index_is(notice, ':', at);
    assert(notice.take(at) =~= rig_id);
    assert(notice.skip(at + 1) =~= json);
}

// ---------------------------------------------------------------------------------------------
// The state of the connection
// ---------------------------------------------------------------------------------------------

/// Whether the server of a rig is connected: as the rig's own state says, or else as that of all
/// does.
pub fn server_connected_for(rig_id: &Option<String>, per_rig: &Table<bool>, global: bool) -> (res:
    bool)
    requires
        per_rig.wf(),
    ensures
        res == (match opt_view(*rig_id) {
            Some(r) => if per_rig@.contains_key(r) {
                per_rig@[r]
            } else {
                global
            },
            None => global,
        }),
{
    match rig_id {
        Some(r) => match per_rig.get(r.as_str()) {
            Some(c) => *c,
            None => global,
        },
        None => global,
    }
}

// ---------------------------------------------------------------------------------------------
// Spectrum
// ---------------------------------------------------------------------------------------------

/// A spectrum as it is sent: the center, the sample rate, and the levels, one byte each.
pub open spec fn spectrum_frame(center_hz: u64, sample_rate: u32, bins: Seq<u8>) -> Seq<char> {
    decimal(center_hz as nat) + ","@ + decimal(sample_rate as nat) + ","@ + encoded(bins)
}

/// The spectrum as it is sent.
pub fn encode_spectrum_frame(center_hz: u64, sample_rate: u32, bins: &[u8]) -> (res: String)
    ensures
        res@ == spectrum_frame(center_hz, sample_rate, bins@),
{
    let center = u64_text(center_hz);
    let rate = u64_text(sample_rate as u64);
    let levels = base64_encode(bins);
    let head = join3(center.as_str(), ",", rate.as_str());
    join3(head.as_str(), ",", levels.as_str())
}

/// What a browser has been told of the spectrum.
#[derive(Debug)]
pub struct SpectrumFeed {
    pub last_rds_json: Option<String>,
    pub last_vchan_rds_json: Option<String>,
    pub last_had_frame: bool,
}

/// What there is to tell of the spectrum.
#[derive(Debug)]
pub struct SpectrumUpdate {
    /// The spectrum as it is sent, where there is one.
    pub frame: Option<String>,
    pub rds_json: Option<String>,
    pub vchan_rds_json: Option<String>,
}

/// An event that tells what has changed, where something has; `null` where there is nothing now.
pub open spec fn change_event(
    name: Seq<char>,
    now: Option<Seq<char>>,
    before: Option<Seq<char>>,
) -> Seq<char> {
    if now == before {
        Seq::empty()
    } else {
        named_event(
            name,
            match now {
                Some(json) => json,
                None => "null"@,
            },
        )
    }
}

fn change_text(name: &str, now: &Option<String>, before: &Option<String>) -> (res: String)
    ensures
        res@ == change_event(name@, opt_view(*now), opt_view(*before)),
{
    if opt_eq(now, before) {
        let res = String::new();
        assert(res@ =~= Seq::<char>::empty());
        res
    } else {
        match now {
            Some(json) => named_event_text(name, json.as_str()),
            None => named_event_text(name, "null"),
        }
    }
}

impl SpectrumFeed {
    /// The browser has been told nothing.
    pub fn new() -> (res: Self)
        ensures
            res.last_rds_json is None,
            res.last_vchan_rds_json is None,
            !res.last_had_frame,
    {
        SpectrumFeed { last_rds_json: None, last_vchan_rds_json: None, last_had_frame: false }
    }

    /// What a client is told of an update: the frame with what has changed beside it, or, once, that
    /// there is none.
    pub open spec fn told(
        &self,
        frame: Option<Seq<char>>,
        rds: Option<Seq<char>>,
        vchan_rds: Option<Seq<char>>,
    ) -> Option<Seq<char>> {
        match frame {
            Some(f) => Some(
                named_event("b"@, f) + change_event("rds"@, rds, opt_view(self.last_rds_json))
                    + change_event("rds_vchan"@, vchan_rds, opt_view(self.last_vchan_rds_json)),
            ),
            None => if self.last_had_frame {
                Some(data_event("null"@))
            } else {
                None
            },
        }
    }

    /// What the browser is told next, if anything: the spectrum, with what has changed of the
    /// station data; and once that there is no spectrum any more.
    pub fn next(&mut self, update: SpectrumUpdate) -> (res: Option<String>)
        ensures
            match opt_view(update.frame) {
                Some(frame) => {
                    &&& opt_view(res) == Some(
                        named_event("b"@, frame) + change_event(
                            "rds"@,
                            opt_view(update.rds_json),
                            opt_view(old(self).last_rds_json),
                        ) + change_event(
                            "rds_vchan"@,
                            opt_view(update.vchan_rds_json),
                            opt_view(old(self).last_vchan_rds_json),
                        ),
                    )
                    &&& opt_view(final(self).last_rds_json) == opt_view(update.rds_json)
                    &&& opt_view(final(self).last_vchan_rds_json) == opt_view(
                        update.vchan_rds_json,
                    )
                    &&& final(self).last_had_frame
                },
                None => {
                    &&& opt_view(res) == (if old(self).last_had_frame {
                        Some(data_event("null"@))
                    } else {
                        None
                    })
                    &&& opt_view(final(self).last_rds_json) == opt_view(old(self).last_rds_json)
                    &&& opt_view(final(self).last_vchan_rds_json) == opt_view(
                        old(self).last_vchan_rds_json,
                    )
                    &&& !final(self).last_had_frame
                },
            },
            opt_view(res) == old(self).told(
                opt_view(update.frame),
                opt_view(update.rds_json),
                opt_view(update.vchan_rds_json),
            ),
    {
        match &update.frame {
            Some(frame) => {
                let head = named_event_text("b", frame.as_str());
                let rds = change_text("rds", &update.rds_json, &self.last_rds_json);
                let vchan = change_text(
                    "rds_vchan",
                    &update.vchan_rds_json,
                    &self.last_vchan_rds_json,
                );
                self.last_had_frame = true;
                self.last_rds_json = opt_clone(&update.rds_json);
                self.last_vchan_rds_json = opt_clone(&update.vchan_rds_json);
                Some(join3(head.as_str(), rds.as_str(), vchan.as_str()))
            },
            None => {
                if self.last_had_frame {
                    self.last_had_frame = false;
                    Some(data_event_text("null"))
                } else {
                    None
                }
            },
        }
    }
}

// ---------------------------------------------------------------------------------------------
// The scheduler's channels
// ---------------------------------------------------------------------------------------------

/// A channel that the scheduler wants beside the first.
#[derive(Debug)]
pub struct SchedulerChannel {
    pub bookmark_id: String,
    pub freq_hz: u64,
    pub mode: String,
    pub bandwidth_hz: u32,
    pub decoder_kinds: Vec<String>,
}

/// What a channel says.
#[verifier::ext_equal]
pub struct SchedulerChannelView {
    pub bookmark_id: Seq<char>,
    pub freq_hz: u64,
    pub mode: Seq<char>,
    pub bandwidth_hz: u32,
    pub decoder_kinds: Seq<Seq<char>>,
}

impl View for SchedulerChannel {
    type V = SchedulerChannelView;

    open spec fn view(&self) -> SchedulerChannelView {
        SchedulerChannelView {
            bookmark_id: self.bookmark_id@,
            freq_hz: self.freq_hz,
            mode: self.mode@,
            bandwidth_hz: self.bandwidth_hz,
            decoder_kinds: list_view(self.decoder_kinds@),
        }
    }
}

/// What channels say.
pub open spec fn channel_views(list: Seq<SchedulerChannel>) -> Seq<SchedulerChannelView> {
    list.map_values(|c: SchedulerChannel| c@)
}

/// The channel for a bookmark. Of the bandwidth, the 32 lowest bits count.
pub open spec fn channel_for(bookmark_id: Seq<char>, b: BookmarkView) -> SchedulerChannelView {
    SchedulerChannelView {
        bookmark_id,
        freq_hz: b.freq_hz,
        mode: b.mode,
        bandwidth_hz: match b.bandwidth_hz {
            Some(hz) => (hz % 0x1_0000_0000) as u32,
            None => 0,
        },
        decoder_kinds: decoder_kinds_of(b.mode, b.decoders),
    }
}

/// The channels for the bookmarks that there are.
pub open spec fn channels_for(
    stores: BookmarkStoreMap,
    rig_id: Seq<char>,
    ids: Seq<Seq<char>>,
) -> Seq<SchedulerChannelView>
    decreases ids.len(),
{
    if ids.len() == 0 {
        Seq::empty()
    } else {
        let before = channels_for(stores, rig_id, ids.drop_last());
        match stores.found_for_rig(rig_id, ids.last()) {
            Some(b) => before.push(channel_for(ids.last(), b)),
            None => before,
        }
    }
}

/// The channels that the scheduler wants on a rig: none where a user holds control, or where it is
/// not at work.
pub open spec fn wanted_channels(
    allowed: bool,
    status: SchedulerStatusView,
    stores: BookmarkStoreMap,
    rig_id: Seq<char>,
) -> Seq<SchedulerChannelView> {
    if allowed && status.active {
        channels_for(stores, rig_id, status.last_bookmark_ids)
    } else {
        Seq::empty()
    }
}

/// The channels that the scheduler wants on a rig.
pub fn sync_scheduler_vchannels(
    control: &SchedulerControlManager,
    statuses: &SchedulerStatusMap,
    stores: &BookmarkStoreMap,
    rig_id: &str,
) -> (res: Vec<SchedulerChannel>)
    requires
        control.wf(),
        statuses.wf(),
        stores.wf(),
    ensures
        channel_views(res@) == wanted_channels(
            none_holds(control@),
            statuses.status_of(rig_id@),
            *stores,
            rig_id@,
        ),
{
    let mut out: Vec<SchedulerChannel> = Vec::new();
    let allowed = control.scheduler_allowed();
    let status = statuses.get_scheduler_status(rig_id);
    if !allowed || !status.active {
        assert(channel_views(out@) =~= Seq::<SchedulerChannelView>::empty());
        return out;
    }
    let ids = &status.last_bookmark_ids;
    let ghost iv = list_view(ids@);
    let mut i: usize = 0;
    assert(channel_views(out@) =~= channels_for(*stores, rig_id@, iv.take(0)));
    while i < ids.len()
        invariant
            i <= ids@.len(),
            iv == list_view(ids@),
            stores.wf(),
            channel_views(out@) == channels_for(*stores, rig_id@, iv.take(i as int)),
        decreases ids@.len() - i,
    {
        let ghost before = channel_views(out@);
        assert(iv.take(i + 1).drop_last() =~= iv.take(i as int));
        assert(iv.take(i + 1).last() == ids@[i as int]@);
        match stores.get_for_rig(rig_id, ids[i].as_str()) {
            Some(b) => {
                let decoder_kinds = bookmark_decoder_kinds(b.mode.as_str(), &b.decoders);
                let bandwidth_hz: u32 = match b.bandwidth_hz {
                    Some(hz) => (hz % 0x1_0000_0000) as u32,
                    None => 0,
                };
                let channel = SchedulerChannel {
                    bookmark_id: ids[i].clone(),
                    freq_hz: b.freq_hz,
                    mode: b.mode.clone(),
                    bandwidth_hz,
                    decoder_kinds,
                };
                assert(channel@ == channel_for(ids@[i as int]@, b@));
                out.push(channel);
                assert(channel_views(out@) =~= before.push(channel@));
            },
            None => {},
        }
        i = i + 1;
    }
    assert(iv.take(i as int) =~= iv);
    out
}

/// While a user holds control, the scheduler wants no channel.
pub proof fn no_channels_under_user_control(
    status: SchedulerStatusView,
    stores: BookmarkStoreMap,
    rig_id: Seq<char>,
)
    ensures
        wanted_channels(false, status, stores, rig_id).len() == 0,
{
}

// ---------------------------------------------------------------------------------------------
// What the events come to
// ---------------------------------------------------------------------------------------------

/// An event is made of its lines, the name first where it has one, and ends with an empty line.
pub proof fn events_line_by_line(name: Seq<char>, data: Seq<char>)
    ensures
        data_event(data) == "data: "@ + data + seq!['\n', '\n'],
        named_event(name, data) == "event: "@ + name + seq!['\n'] + "data: "@ + data + seq![
            '\n',
            '\n',
        ],
        named_event(name, data) == "event: "@ + name + seq!['\n'] + data_event(data),
{
    reveal_strlit("\n\n");
    reveal_strlit("\ndata: ");
    reveal_strlit("data: ");
    assert("\n\n"@ =~= seq!['\n', '\n']);
    assert("\ndata: "@ =~= seq!['\n'] + "data: "@);
    assert(data_event(data) =~= "data: "@ + data + seq!['\n', '\n']);
    assert(named_event(name, data) =~= "event: "@ + name + seq!['\n'] + "data: "@ + data + seq![
        '\n',
        '\n',
    ]);
    assert(named_event(name, data) =~= "event: "@ + name + seq!['\n'] + data_event(data));
}

/// A client is told the state first, its session next, and the channels of its rig where both are
/// known.
pub proof fn events_come_in_order(
    state_json: Seq<char>,
    session_id: Seq<char>,
    rig_id: Seq<char>,
    json: Seq<char>,
)
    ensures
        ({
            let short = prefix_of(state_json, session_id, None);
            let full = prefix_of(state_json, session_id, Some((rig_id, json)));
            &&& short.len() == 2
            &&& short[0] == data_event(state_json)
            &&& short[1] == named_event(
                "session"@,
                "{\"session_id\":\""@ + session_id + "\"}"@,
            )
            &&& full.len() == 3
            &&& full.take(2) == short
            &&& full[2] == named_event(
                "channels"@,
                "{\"remote\":\""@ + rig_id + "\",\"channels\":"@ + json + "}"@,
            )
        }),
{
    let short = prefix_of(state_json, session_id, None);
    let full = prefix_of(state_json, session_id, Some((rig_id, json)));
    assert(full.take(2) =~= short);
}

/// A notice of channels reaches the sessions of its rig and those without a rig, and no others.
pub proof fn notices_reach_no_other_session(rig_id: Seq<char>, json: Seq<char>, other: Seq<char>)
    requires
        !rig_id.contains(':'),
    ensures
        other != rig_id ==> channel_notice(rig_id + ":"@ + json, Some(other)) is None,
        channel_notice(rig_id + ":"@ + json, None) == Some(
            named_event(
                "channels"@,
                "{\"remote\":\""@ + rig_id + "\",\"channels\":"@ + json + "}"@,
            ),
        ),
        channel_notice(rig_id, Some(other)) is None,
        channel_notice(rig_id, None) is None,
{
    let notice = rig_id + ":"@ + json;
    reveal_strlit(":");
    assert(notice[rig_id.len() as int] == ':');
    assert forall|i: int| 0 <= i < rig_id.len() implies notice[i] != ':' by {
        assert(rig_id.contains(rig_id[i]));
    }
    first_index_is(notice, ':', rig_id.len() as int);
    first_index_meaning(rig_id, ':');
    if first_index(rig_id, ':') < rig_id.len() {
        assert(rig_id.contains(rig_id[first_index(rig_id, ':')]));
    }
    assert(notice.take(rig_id.len() as int) =~= rig_id);
    assert(notice.skip(rig_id.len() as int + 1) =~= json);
}

/// A frame of the spectrum has the centre frequency, the sample rate and the bins, with commas
/// between them.
pub proof fn frames_in_full(center_hz: u64, sample_rate: u32, bins: Seq<u8>)
    ensures
        spectrum_frame(center_hz, sample_rate, bins) == decimal(center_hz as nat).push(',') + decimal(
            sample_rate as nat,
        ).push(',') + encoded(bins),
{
    reveal_strlit(",");
    assert(","@ =~= seq![',']);
    assert(spectrum_frame(center_hz, sample_rate, bins) =~= decimal(center_hz as nat).push(',')
        + decimal(sample_rate as nat).push(',') + encoded(bins));
}

/// Something is sent where it is not what was sent before; what has gone is sent as null.
pub proof fn changes_are_sent(name: Seq<char>, now: Option<Seq<char>>, before: Option<Seq<char>>)
    ensures
        now == before ==> change_event(name, now, before).len() == 0,
        now != before && now is Some ==> change_event(name, now, before) == named_event(
            name,
            now->0,
        ),
        now != before && now is None ==> change_event(name, now, before) == named_event(
            name,
            "null"@,
        ),
{
}

/// A channel of the scheduler receives what its bookmark says, under the bookmark's id.
pub proof fn channels_receive_their_bookmarks(id: Seq<char>, b: BookmarkView)
    ensures
        ({
            let c = channel_for(id, b);
            &&& c.bookmark_id == id
            &&& c.freq_hz == b.freq_hz
            &&& c.mode == b.mode
            &&& c.decoder_kinds == decoder_kinds_of(b.mode, b.decoders)
            &&& b.bandwidth_hz is None ==> c.bandwidth_hz == 0
            &&& b.bandwidth_hz is Some && b.bandwidth_hz->0 <= 4_294_967_295 ==> c.bandwidth_hz
                == b.bandwidth_hz->0
            &&& b.bandwidth_hz is Some ==> (b.bandwidth_hz->0 - c.bandwidth_hz) % 4_294_967_296 == 0
        }),
{
}

/// The channels are those of the bookmarks in the order of their ids; an id that leads nowhere is left
/// out.
pub proof fn channels_in_the_order_of_the_ids(
    stores: BookmarkStoreMap,
    rig_id: Seq<char>,
    a: Seq<Seq<char>>,
    b: Seq<Seq<char>>,
    id: Seq<char>,
)
    ensures
        channels_for(stores, rig_id, a + b) == channels_for(stores, rig_id, a) + channels_for(
            stores,
            rig_id,
            b,
        ),
        stores.found_for_rig(rig_id, id) is Some ==> channels_for(stores, rig_id, seq![id]) == seq![
            channel_for(id, stores.found_for_rig(rig_id, id)->0),
        ],
        stores.found_for_rig(rig_id, id) is None ==> channels_for(stores, rig_id, seq![id]).len()
            == 0,
    decreases b.len(),
{
    if b.len() == 0 {
        assert(a + b =~= a);
    } else {
        channels_in_the_order_of_the_ids(stores, rig_id, a, b.drop_last(), id);
        assert((a + b).drop_last() =~= a + b.drop_last());
        assert((a + b).last() == b.last());
    }
    let one = seq![id];
    assert(one.drop_last() =~= Seq::empty());
    assert(channels_for(stores, rig_id, one.drop_last()) =~= Seq::empty());
    assert(one.last() == id);
}

/// The scheduler has its channels while nobody holds control and it is at work, and none otherwise.
pub proof fn channels_of_the_scheduler(
    allowed: bool,
    status: SchedulerStatusView,
    stores: BookmarkStoreMap,
    rig_id: Seq<char>,
)
    ensures
        allowed && status.active ==> wanted_channels(allowed, status, stores, rig_id)
            == channels_for(stores, rig_id, status.last_bookmark_ids),
        !(allowed && status.active) ==> wanted_channels(allowed, status, stores, rig_id).len() == 0,
{
}

/// What a channel is told by is all of its fields.
pub proof fn scheduler_channels_in_full(c: SchedulerChannel, list: Seq<SchedulerChannel>, i: int)
    ensures
        c@.bookmark_id == c.bookmark_id@,
        c@.freq_hz == c.freq_hz,
        c@.mode == c.mode@,
        c@.bandwidth_hz == c.bandwidth_hz,
        c@.decoder_kinds == list_view(c.decoder_kinds@),
        channel_views(list).len() == list.len(),
        0 <= i < list.len() ==> channel_views(list)[i] == list[i]@,
{
}

/// With a frame a client is told the frame, and what is new beside it and nothing that is not. Without
/// one it is told so where the update before had a frame, and nothing otherwise.
pub proof fn clients_are_told_what_is_new(
    feed: SpectrumFeed,
    frame: Seq<char>,
    rds: Option<Seq<char>>,
    vchan_rds: Option<Seq<char>>,
)
    ensures
        feed.told(Some(frame), opt_view(feed.last_rds_json), opt_view(feed.last_vchan_rds_json))
            == Some(named_event("b"@, frame)),
        rds is Some && rds != opt_view(feed.last_rds_json) ==> feed.told(
            Some(frame),
            rds,
            opt_view(feed.last_vchan_rds_json),
        ) == Some(named_event("b"@, frame) + named_event("rds"@, rds->0)),
        vchan_rds is Some && vchan_rds != opt_view(feed.last_vchan_rds_json) ==> feed.told(
            Some(frame),
            opt_view(feed.last_rds_json),
            vchan_rds,
        ) == Some(named_event("b"@, frame) + named_event("rds_vchan"@, vchan_rds->0)),
        feed.last_had_frame ==> feed.told(None, rds, vchan_rds) == Some(data_event("null"@)),
        !feed.last_had_frame ==> feed.told(None, rds, vchan_rds) is None,
{
    let b = named_event("b"@, frame);
    let none = Seq::<char>::empty();
    assert(b + none + none =~= b);
    if rds is Some {
        assert(b + named_event("rds"@, rds->0) + none =~= b + named_event("rds"@, rds->0));
    }
    if vchan_rds is Some {
        assert(b + none + named_event("rds_vchan"@, vchan_rds->0) =~= b + named_event(
            "rds_vchan"@,
            vchan_rds->0,
        ));
    }
}

} // verus!
