//! Background decoding: hidden decoder channels for the bookmarks a rig watches.
use vstd::prelude::*;

use crate::bookmarks::{bookmark_views, by_id, last_of_an_id_counts, Bookmark, BookmarkView};
use crate::decoders::{bookmark_decoder_kinds, decoder_kinds_of, decoder_name, normalize_decoder};
use crate::ids::{is_random_uuid, new_uuid};
use crate::num::{as_signed, to_signed};
use crate::order::lemma_all_kept;
use crate::table::Table;
use crate::text::{
    dedup_ids, deduped, deduped_sound, list_clone, list_contains, list_eq, list_has, list_view,
    opt_clone, opt_eq, opt_view, own, str_eq,
};
use crate::vchan::{cmd_views, RigAudioCmd, VChanAudioCmd, VChanCmdView};

verus! {

/// The bookmarks a rig decodes in the background.
#[derive(Debug)]
pub struct BackgroundDecodeConfig {
    pub rig_id: String,
    pub enabled: bool,
    pub bookmark_ids: Vec<String>,
}

/// How one bookmark is being decoded, or why it is not.
#[derive(Debug)]
pub struct BackgroundDecodeBookmarkStatus {
    pub bookmark_id: String,
    pub bookmark_name: Option<String>,
    pub freq_hz: Option<u64>,
    pub mode: Option<String>,
    pub decoder_kinds: Vec<String>,
    pub state: String,
    pub channel_kind: Option<String>,
}

/// The state of background decoding on a rig.
#[derive(Debug)]
pub struct BackgroundDecodeStatus {
    pub rig_id: String,
    pub enabled: bool,
    pub active_rig: bool,
    pub center_hz: Option<u64>,
    pub sample_rate: Option<u32>,
    pub entries: Vec<BackgroundDecodeBookmarkStatus>,
}

/// What the status of one bookmark says.
#[verifier::ext_equal]
pub struct EntryView {
    pub bookmark_id: Seq<char>,
    pub bookmark_name: Option<Seq<char>>,
    pub freq_hz: Option<u64>,
    pub mode: Option<Seq<char>>,
    pub decoder_kinds: Seq<Seq<char>>,
    pub state: Seq<char>,
    pub channel_kind: Option<Seq<char>>,
}

/// What the status of a rig says.
#[verifier::ext_equal]
pub struct StatusView {
    pub rig_id: Seq<char>,
    pub enabled: bool,
    pub active_rig: bool,
    pub center_hz: Option<u64>,
    pub sample_rate: Option<u32>,
    pub entries: Seq<EntryView>,
}

impl View for BackgroundDecodeBookmarkStatus {
    type V = EntryView;

    open spec fn view(&self) -> EntryView {
        EntryView {
            bookmark_id: self.bookmark_id@,
            bookmark_name: opt_view(self.bookmark_name),
            freq_hz: self.freq_hz,
            mode: opt_view(self.mode),
            decoder_kinds: list_view(self.decoder_kinds@),
            state: self.state@,
            channel_kind: opt_view(self.channel_kind),
        }
    }
}

/// What a list of bookmark states says.
pub open spec fn entry_views(entries: Seq<BackgroundDecodeBookmarkStatus>) -> Seq<EntryView> {
    entries.map_values(|e: BackgroundDecodeBookmarkStatus| e@)
}

impl View for BackgroundDecodeStatus {
    type V = StatusView;

    open spec fn view(&self) -> StatusView {
        StatusView {
            rig_id: self.rig_id@,
            enabled: self.enabled,
            active_rig: self.active_rig,
            center_hz: self.center_hz,
            sample_rate: self.sample_rate,
            entries: entry_views(self.entries@),
        }
    }
}

impl BackgroundDecodeConfig {
    /// The configuration of a rig that has none: off, with no bookmark.
    pub fn empty(rig_id: &str) -> (res: Self)
        ensures
            res.rig_id@ == rig_id@,
            !res.enabled,
            res.bookmark_ids@.len() == 0,
    {
        BackgroundDecodeConfig { rig_id: own(rig_id), enabled: false, bookmark_ids: Vec::new() }
    }

    /// The configuration as it is stored: for the given rig, with each bookmark once.
    pub fn for_storage(self, rig_id: &str) -> (res: Self)
        ensures
            res.rig_id@ == rig_id@,
            res.enabled == self.enabled,
            list_view(res.bookmark_ids@) == deduped(list_view(self.bookmark_ids@)),
    {
        BackgroundDecodeConfig {
            rig_id: own(rig_id),
            enabled: self.enabled,
            bookmark_ids: dedup_ids(&self.bookmark_ids),
        }
    }
}

// ---------------------------------------------------------------------------------------------
// One bookmark
// ---------------------------------------------------------------------------------------------

/// What to do about a bookmark.
#[derive(Debug, PartialEq, Eq)]
pub enum ChannelAction {
    Active,
    Skip { reason: &'static str },
}

impl View for ChannelAction {
    type V = Option<Seq<char>>;

    /// The reason for which the bookmark is skipped, if it is.
    open spec fn view(&self) -> Option<Seq<char>> {
        match self {
            ChannelAction::Active => None,
            ChannelAction::Skip { reason } => Some(reason@),
        }
    }
}

/// The distance between two numbers.
pub open spec fn distance(a: int, b: int) -> int {
    if a < b {
        b - a
    } else {
        a - b
    }
}

/// The first reason that applies for skipping a bookmark, if one does.
pub open spec fn skip_reason(
    decoder_kinds_empty: bool,
    enabled: bool,
    users_connected: bool,
    scheduler_has_control: bool,
    scheduled: bool,
    vchan_covers_bookmark: bool,
    spectrum_span: Option<(i64, i64)>,
    freq_hz: u64,
) -> Option<Seq<char>> {
    if decoder_kinds_empty {
        Some("no_supported_decoders"@)
    } else if !enabled {
        Some("disabled"@)
    } else if !users_connected {
        Some("waiting_for_user"@)
    } else if scheduler_has_control {
        Some("scheduler_has_control"@)
    } else if scheduled {
        Some("handled_by_scheduler"@)
    } else if vchan_covers_bookmark {
        Some("handled_by_virtual_channel"@)
    } else {
        match spectrum_span {
            None => Some("waiting_for_spectrum"@),
            Some((center_hz, half_span_hz)) => if distance(as_signed(freq_hz), center_hz as int)
                > half_span_hz {
                Some("out_of_span"@)
            } else {
                None
            },
        }
    }
}

/// Decides whether a bookmark gets a background channel or is skipped, and why.
pub fn evaluate_bookmark(
    decoder_kinds_empty: bool,
    enabled: bool,
    users_connected: bool,
    scheduler_has_control: bool,
    scheduled_bookmark_ids: &Vec<String>,
    bookmark_id: &str,
    vchan_covers_bookmark: bool,
    spectrum_span: Option<(i64, i64)>,
    freq_hz: u64,
) -> (res: ChannelAction)
    ensures
        res@ == skip_reason(
            decoder_kinds_empty,
            enabled,
            users_connected,
            scheduler_has_control,
            list_has(scheduled_bookmark_ids@, bookmark_id@),
            vchan_covers_bookmark,
            spectrum_span,
            freq_hz,
        ),
        res == ChannelAction::Active <==> !decoder_kinds_empty && enabled && users_connected
            && !scheduler_has_control && !list_has(scheduled_bookmark_ids@, bookmark_id@)
            && !vchan_covers_bookmark && (spectrum_span matches Some((center_hz, half_span_hz))
            && center_hz - half_span_hz <= as_signed(freq_hz) <= center_hz + half_span_hz),
{
    if decoder_kinds_empty {
        return ChannelAction::Skip { reason: "no_supported_decoders" };
    }
    if !enabled {
        return ChannelAction::Skip { reason: "disabled" };
    }
    if !users_connected {
        return ChannelAction::Skip { reason: "waiting_for_user" };
    }
    if scheduler_has_control {
        return ChannelAction::Skip { reason: "scheduler_has_control" };
    }
    if list_contains(scheduled_bookmark_ids, bookmark_id) {
        return ChannelAction::Skip { reason: "handled_by_scheduler" };
    }
    if vchan_covers_bookmark {
        return ChannelAction::Skip { reason: "handled_by_virtual_channel" };
    }
    match spectrum_span {
        None => ChannelAction::Skip { reason: "waiting_for_spectrum" },
        Some((center_hz, half_span_hz)) => {
            let freq: i128 = to_signed(freq_hz) as i128;
            let center: i128 = center_hz as i128;
            let offset: i128 = if freq < center {
                center - freq
            } else {
                freq - center
            };
            if offset > half_span_hz as i128 {
                ChannelAction::Skip { reason: "out_of_span" }
            } else {
                ChannelAction::Active
            }
        },
    }
}

/// A channel that users see on a rig.
#[derive(Debug)]
pub struct ClientChannel {
    pub freq_hz: u64,
    pub mode: String,
}

/// Whether a visible channel has the frequency and, up to case and surrounding space, the mode.
pub open spec fn channel_covers(channel: ClientChannel, freq_hz: u64, mode: Seq<char>) -> bool {
    channel.freq_hz == freq_hz && decoder_name(channel.mode@) == decoder_name(mode)
}

/// A mode as it is compared: without surrounding white space, in small letters.
pub fn normalized_mode(mode: &str) -> (res: String)
    ensures
        res@ == decoder_name(mode@),
{
    normalize_decoder(mode)
}

/// Whether a visible channel already receives what the bookmark asks for.
pub fn channel_matches_bookmark(channel: &ClientChannel, bookmark: &Bookmark) -> (res: bool)
    ensures
        res == channel_covers(*channel, bookmark.freq_hz, bookmark.mode@),
{
    let a = normalized_mode(channel.mode.as_str());
    let b = normalized_mode(bookmark.mode.as_str());
    channel.freq_hz == bookmark.freq_hz && str_eq(a.as_str(), b.as_str())
}

/// Whether one of the visible channels receives what the bookmark asks for.
pub open spec fn covered(channels: Seq<ClientChannel>, freq_hz: u64, mode: Seq<char>) -> bool {
    exists|i: int| 0 <= i < channels.len() && channel_covers(#[trigger] channels[i], freq_hz, mode)
}

/// Whether one of the visible channels receives what the bookmark asks for.
pub fn virtual_channels_cover_bookmark(channels: &Vec<ClientChannel>, bookmark: &Bookmark) -> (res:
    bool)
    ensures
        res == covered(channels@, bookmark.freq_hz, bookmark.mode@),
{
    let mut i: usize = 0;
    while i < channels.len()
        invariant
            i <= channels@.len(),
            forall|j: int|
                0 <= j < i ==> !channel_covers(
                    #[trigger] channels@[j],
                    bookmark.freq_hz,
                    bookmark.mode@,
                ),
        decreases channels@.len() - i,
    {
        if channel_matches_bookmark(&channels[i], bookmark) {
            return true;
        }
        i = i + 1;
    }
    false
}

/// The bookmarks a scheduler works on: where it is active, its last one and then its last ones.
pub fn scheduler_bookmark_ids(
    active: bool,
    last_bookmark_id: &Option<String>,
    last_bookmark_ids: &Vec<String>,
) -> (res: Vec<String>)
    ensures
        list_view(res@) == scheduled_ids(
            active,
            opt_view(*last_bookmark_id),
            list_view(last_bookmark_ids@),
        ),
{
    let mut all: Vec<String> = Vec::new();
    if !active {
        assert(list_view(all@) =~= Seq::<Seq<char>>::empty());
        return all;
    }
    match last_bookmark_id {
        Some(id) => {
            all.push(id.clone());
        },
        None => {},
    }
    let ghost first = list_view(all@);
    let ghost rest = list_view(last_bookmark_ids@);
    assert(first =~= (match opt_view(*last_bookmark_id) {
        Some(id) => seq![id],
        None => Seq::empty(),
    }));
    let mut i: usize = 0;
    while i < last_bookmark_ids.len()
        invariant
            i <= last_bookmark_ids@.len(),
            rest == list_view(last_bookmark_ids@),
            list_view(all@) == first + rest.take(i as int),
        decreases last_bookmark_ids@.len() - i,
    {
        let ghost before = list_view(all@);
        all.push(last_bookmark_ids[i].clone());
        assert(list_view(all@) =~= before.push(rest[i as int]));
        assert(rest.take(i + 1) =~= rest.take(i as int).push(rest[i as int]));
        assert(first + rest.take(i as int).push(rest[i as int]) =~= (first + rest.take(i as int)).push(
            rest[i as int],
        ));
        i = i + 1;
    }
    assert(rest.take(rest.len() as int) =~= rest);
    dedup_ids(&all)
}

/// The bookmarks a scheduler works on, each once.
pub open spec fn scheduled_ids(
    active: bool,
    last: Option<Seq<char>>,
    lasts: Seq<Seq<char>>,
) -> Seq<Seq<char>> {
    if active {
        deduped(
            (match last {
                Some(id) => seq![id],
                None => Seq::empty(),
            }) + lasts,
        )
    } else {
        Seq::empty()
    }
}

// ---------------------------------------------------------------------------------------------
// Channels
// ---------------------------------------------------------------------------------------------

/// A hidden channel that decodes a bookmark in the background.
#[derive(Debug)]
pub struct VirtualBackgroundDecodeChannel {
    pub uuid: u128,
    pub rig_id: String,
    pub bookmark_id: String,
    pub freq_hz: u64,
    pub mode: String,
    pub bandwidth_hz: u32,
    pub decoder_kinds: Vec<String>,
}

/// What a background channel is.
#[verifier::ext_equal]
pub struct ChannelView {
    pub uuid: u128,
    pub rig_id: Seq<char>,
    pub bookmark_id: Seq<char>,
    pub freq_hz: u64,
    pub mode: Seq<char>,
    pub bandwidth_hz: u32,
    pub decoder_kinds: Seq<Seq<char>>,
}

impl View for VirtualBackgroundDecodeChannel {
    type V = ChannelView;

    open spec fn view(&self) -> ChannelView {
        ChannelView {
            uuid: self.uuid,
            rig_id: self.rig_id@,
            bookmark_id: self.bookmark_id@,
            freq_hz: self.freq_hz,
            mode: self.mode@,
            bandwidth_hz: self.bandwidth_hz,
            decoder_kinds: list_view(self.decoder_kinds@),
        }
    }
}

/// What a list of background channels is.
pub open spec fn channel_views(channels: Seq<VirtualBackgroundDecodeChannel>) -> Seq<ChannelView> {
    channels.map_values(|c: VirtualBackgroundDecodeChannel| c@)
}

/// Whether two channels differ in nothing but their UUID.
pub open spec fn same_channel(a: ChannelView, b: ChannelView) -> bool {
    ChannelView { uuid: b.uuid, ..a } == b
}

/// Whether a running channel is the desired one but for its UUID.
pub fn channel_matches(
    channel: &VirtualBackgroundDecodeChannel,
    desired: &VirtualBackgroundDecodeChannel,
) -> (res: bool)
    ensures
        res == same_channel(channel@, desired@),
{
    str_eq(channel.rig_id.as_str(), desired.rig_id.as_str()) && str_eq(
        channel.bookmark_id.as_str(),
        desired.bookmark_id.as_str(),
    ) && channel.freq_hz == desired.freq_hz && str_eq(channel.mode.as_str(), desired.mode.as_str())
        && channel.bandwidth_hz == desired.bandwidth_hz && list_eq(
        &channel.decoder_kinds,
        &desired.decoder_kinds,
    )
}

/// A bookmark's bandwidth as a channel has it: none as zero, and at most what 32 bits hold.
pub open spec fn channel_bandwidth(bandwidth_hz: Option<u64>) -> u32 {
    match bandwidth_hz {
        Some(b) => if b <= u32::MAX {
            b as u32
        } else {
            u32::MAX
        },
        None => 0,
    }
}

/// The channel that a bookmark wants on a rig.
pub open spec fn channel_for(rig_id: Seq<char>, b: BookmarkView, uuid: u128) -> ChannelView {
    ChannelView {
        uuid,
        rig_id,
        bookmark_id: b.id,
        freq_hz: b.freq_hz,
        mode: b.mode,
        bandwidth_hz: channel_bandwidth(b.bandwidth_hz),
        decoder_kinds: decoder_kinds_of(b.mode, b.decoders),
    }
}

/// The channel that a bookmark wants on a rig, under the given UUID.
pub fn desired_channel(rig_id: &str, bookmark: &Bookmark, decoder_kinds: Vec<String>, uuid: u128)
    -> (res: VirtualBackgroundDecodeChannel)
    requires
        list_view(decoder_kinds@) == decoder_kinds_of(bookmark@.mode, bookmark@.decoders),
    ensures
        res@ == channel_for(rig_id@, bookmark@, uuid),
{
    let bandwidth_hz: u32 = match bookmark.bandwidth_hz {
        Some(b) => if b <= u32::MAX as u64 {
            b as u32
        } else {
            u32::MAX
        },
        None => 0,
    };
    VirtualBackgroundDecodeChannel {
        uuid,
        rig_id: own(rig_id),
        bookmark_id: bookmark.id.clone(),
        freq_hz: bookmark.freq_hz,
        mode: bookmark.mode.clone(),
        bandwidth_hz,
        decoder_kinds,
    }
}

// ---------------------------------------------------------------------------------------------
// Reconciling
// ---------------------------------------------------------------------------------------------

/// Where the received spectrum lies.
#[derive(Clone, Copy, Debug, PartialEq, Eq, Structural)]
pub struct SpectrumSpan {
    pub center_hz: u64,
    pub sample_rate: u32,
}

/// What the active rig's channels are worked out from.
#[derive(Debug)]
pub struct ReconcileInput {
    /// The configuration of the rig.
    pub config: BackgroundDecodeConfig,
    /// Whether any user is connected.
    pub users_connected: bool,
    /// Whether the scheduler may control the rig.
    pub scheduler_allowed: bool,
    /// The bookmarks the scheduler works on.
    pub scheduler_ids: Vec<String>,
    /// The bookmarks the rig sees.
    pub bookmarks: Vec<Bookmark>,
    /// The channels users see on the rig.
    pub channels: Vec<ClientChannel>,
    /// The spectrum being received, if any.
    pub spectrum: Option<SpectrumSpan>,
}

impl ReconcileInput {
    /// Whether the scheduler controls the rig while users are connected.
    pub open spec fn scheduler_has_control(self) -> bool {
        self.scheduler_allowed && self.users_connected
    }

    /// Whether the scheduler takes care of a bookmark.
    pub open spec fn scheduled(self, id: Seq<char>) -> bool {
        (self.scheduler_has_control() || !self.users_connected) && list_has(self.scheduler_ids@, id)
    }

    /// The watched bookmarks, each once.
    pub open spec fn selected(self) -> Seq<Seq<char>> {
        deduped(list_view(self.config.bookmark_ids@))
    }

    /// The bookmarks of the rig by id.
    pub open spec fn known(self) -> Map<Seq<char>, BookmarkView> {
        by_id(bookmark_views(self.bookmarks@))
    }

    /// The middle and half the width of the spectrum.
    pub open spec fn span(self) -> Option<(i64, i64)> {
        match self.spectrum {
            Some(s) => Some((as_signed(s.center_hz) as i64, (s.sample_rate / 2) as i64)),
            None => None,
        }
    }

    /// The reason for which a known bookmark is skipped, if it is.
    pub open spec fn skip(self, b: BookmarkView) -> Option<Seq<char>> {
        skip_reason(
            decoder_kinds_of(b.mode, b.decoders).len() == 0,
            self.config.enabled,
            self.users_connected,
            self.scheduler_has_control(),
            self.scheduled(b.id),
            covered(self.channels@, b.freq_hz, b.mode),
            self.span(),
            b.freq_hz,
        )
    }

    /// Whether a watched bookmark gets a channel.
    pub open spec fn wants(self, id: Seq<char>) -> bool {
        self.known().contains_key(id) && self.skip(self.known()[id]) is None
    }

    /// The state of a watched bookmark.
    pub open spec fn entry(self, id: Seq<char>) -> EntryView {
        if self.known().contains_key(id) {
            let b = self.known()[id];
            let skip = self.skip(b);
            EntryView {
                bookmark_id: b.id,
                bookmark_name: Some(b.name),
                freq_hz: Some(b.freq_hz),
                mode: Some(b.mode),
                decoder_kinds: decoder_kinds_of(b.mode, b.decoders),
                state: match skip {
                    None => "active"@,
                    Some(reason) => reason,
                },
                channel_kind: if skip is None {
                    Some("VirtualBackgroundDecodeChannel"@)
                } else if skip == Some("handled_by_virtual_channel"@) {
                    Some("VirtualChannel"@)
                } else {
                    None
                },
            }
        } else {
            EntryView {
                bookmark_id: id,
                bookmark_name: None,
                freq_hz: None,
                mode: None,
                decoder_kinds: Seq::empty(),
                state: "missing_bookmark"@,
                channel_kind: None,
            }
        }
    }

    /// The state of each watched bookmark.
    pub open spec fn entries(self) -> Seq<EntryView> {
        self.selected().map_values(|id: Seq<char>| self.entry(id))
    }

    /// The status of the active rig.
    pub open spec fn status(self, rig_id: Seq<char>) -> StatusView {
        StatusView {
            rig_id,
            enabled: self.config.enabled,
            active_rig: true,
            center_hz: match self.spectrum {
                Some(s) => Some(s.center_hz),
                None => None,
            },
            sample_rate: match self.spectrum {
                Some(s) => Some(s.sample_rate),
                None => None,
            },
            entries: self.entries(),
        }
    }

    /// The channels that the first watched bookmarks `ids` want, where the bookmark at position
    /// `i` takes the UUID at that position.
    pub open spec fn desired(self, rig_id: Seq<char>, ids: Seq<Seq<char>>, uuids: Seq<u128>) -> Seq<
        ChannelView,
    >
        decreases ids.len(),
    {
        if ids.len() == 0 {
            Seq::empty()
        } else {
            let rest = self.desired(rig_id, ids.drop_last(), uuids);
            if self.wants(ids.last()) {
                rest.push(channel_for(rig_id, self.known()[ids.last()], uuids[ids.len() - 1]))
            } else {
                rest
            }
        }
    }
}

/// Whether one of the desired channels is the running one.
pub open spec fn still_desired(channel: ChannelView, desired: Seq<ChannelView>) -> bool {
    exists|j: int| 0 <= j < desired.len() && same_channel(channel, #[trigger] desired[j])
}

/// The running channels that stay.
pub open spec fn kept(active: Seq<ChannelView>, desired: Seq<ChannelView>) -> Seq<ChannelView> {
    active.filter(stay_rule(desired))
}

/// The rule by which a running channel stays.
pub open spec fn stay_rule(desired: Seq<ChannelView>) -> spec_fn(ChannelView) -> bool {
    |c: ChannelView| still_desired(c, desired)
}

/// The rule by which a running channel goes.
pub open spec fn go_rule(desired: Seq<ChannelView>) -> spec_fn(ChannelView) -> bool {
    |c: ChannelView| !still_desired(c, desired)
}

/// The rule by which a desired channel is new.
pub open spec fn new_rule(staying: Seq<ChannelView>) -> spec_fn(ChannelView) -> bool {
    |d: ChannelView| !serves(staying, d.bookmark_id)
}

/// The running channels that go.
pub open spec fn dropped(active: Seq<ChannelView>, desired: Seq<ChannelView>) -> Seq<ChannelView> {
    active.filter(go_rule(desired))
}

/// Whether one of the channels is for the bookmark.
pub open spec fn serves(channels: Seq<ChannelView>, bookmark_id: Seq<char>) -> bool {
    exists|i: int| 0 <= i < channels.len() && (#[trigger] channels[i]).bookmark_id == bookmark_id
}

/// No two channels are for one bookmark.
pub open spec fn one_per_bookmark(channels: Seq<ChannelView>) -> bool {
    forall|i: int, j: int|
        0 <= i < j < channels.len() ==> (#[trigger] channels[i]).bookmark_id != (
        #[trigger] channels[j]).bookmark_id
}

/// The desired channels that are new.
pub open spec fn added(staying: Seq<ChannelView>, desired: Seq<ChannelView>) -> Seq<ChannelView> {
    desired.filter(new_rule(staying))
}

/// The command that removes a channel.
pub open spec fn remove_cmd(c: ChannelView) -> (Seq<char>, VChanCmdView) {
    (c.rig_id, VChanCmdView::Remove(c.uuid))
}

/// The command that starts a channel.
pub open spec fn start_cmd(c: ChannelView) -> (Seq<char>, VChanCmdView) {
    (
        c.rig_id,
        VChanCmdView::SubscribeBackground {
            uuid: c.uuid,
            freq_hz: c.freq_hz,
            mode: c.mode,
            bandwidth_hz: c.bandwidth_hz,
            decoder_kinds: c.decoder_kinds,
        },
    )
}

/// The commands that remove channels.
pub open spec fn remove_cmds(channels: Seq<ChannelView>) -> Seq<(Seq<char>, VChanCmdView)> {
    channels.map_values(|c: ChannelView| remove_cmd(c))
}

/// The commands that start channels.
pub open spec fn start_cmds(channels: Seq<ChannelView>) -> Seq<(Seq<char>, VChanCmdView)> {
    channels.map_values(|c: ChannelView| start_cmd(c))
}

/// The running channels and the status of each rig.
#[derive(Debug)]
pub struct BackgroundDecodeManager {
    pub current_rig_id: Option<String>,
    pub active_channels: Vec<VirtualBackgroundDecodeChannel>,
    pub statuses: Table<BackgroundDecodeStatus>,
}

impl BackgroundDecodeManager {
    /// The status table is well formed, and no two running channels are for one bookmark.
    pub open spec fn wf(&self) -> bool {
        &&& self.statuses.wf()
        &&& one_per_bookmark(self.running())
    }

    /// What the running channels are.
    pub open spec fn running(&self) -> Seq<ChannelView> {
        channel_views(self.active_channels@)
    }

    /// What the status of each rig says.
    pub open spec fn status_map(&self) -> Map<Seq<char>, StatusView> {
        self.statuses@.map_values(|s: BackgroundDecodeStatus| s@)
    }

    /// No channel runs and no status is known.
    pub fn new() -> (res: Self)
        ensures
            res.wf(),
            res.current_rig_id is None,
            res.running().len() == 0,
            res.status_map() == Map::<Seq<char>, StatusView>::empty(),
    {
        let res = BackgroundDecodeManager {
            current_rig_id: None,
            active_channels: Vec::new(),
            statuses: Table::new(),
        };
        assert(res.status_map() =~= Map::<Seq<char>, StatusView>::empty());
        res
    }

    /// Removes every running channel and forgets the current rig.
    pub fn clear_runtime_channels(&mut self) -> (res: Vec<RigAudioCmd>)
        requires
            old(self).wf(),
        ensures
            final(self).wf(),
            final(self).current_rig_id is None,
            final(self).active_channels@.len() == 0,
            final(self).statuses == old(self).statuses,
            cmd_views(res@) == remove_cmds(old(self).running()),
    {
        let mut cmds: Vec<RigAudioCmd> = Vec::new();
        let mut i: usize = 0;
        while i < self.active_channels.len()
            invariant
                i <= self.active_channels@.len(),
                *self == *old(self),
                cmds@.len() == i,
                forall|j: int|
                    0 <= j < i ==> ((#[trigger] cmds@[j]).rig_id@, cmds@[j].cmd@) == remove_cmd(
                        self.active_channels@[j]@,
                    ),
            decreases self.active_channels@.len() - i,
        {
            let c = &self.active_channels[i];
            cmds.push(RigAudioCmd { rig_id: c.rig_id.clone(), cmd: VChanAudioCmd::Remove(c.uuid) });
            i = i + 1;
        }
        assert(cmd_views(cmds@) =~= remove_cmds(self.running()));
        self.active_channels = Vec::new();
        self.current_rig_id = None;
        cmds
    }

    /// Marks the status of a rig that is no longer active.
    fn leave_rig(&mut self, rig_id: &str)
        requires
            old(self).wf(),
        ensures
            final(self).wf(),
            final(self).current_rig_id == old(self).current_rig_id,
            final(self).active_channels == old(self).active_channels,
            final(self).status_map() == left(old(self).status_map(), Some(rig_id@)),
    {
        let ghost before = self.status_map();
        match self.statuses.remove(rig_id) {
            Some(status) => {
                let changed = BackgroundDecodeStatus {
                    rig_id: status.rig_id,
                    enabled: status.enabled,
                    active_rig: false,
                    center_hz: status.center_hz,
                    sample_rate: status.sample_rate,
                    entries: status.entries,
                };
                self.statuses.insert(rig_id, changed);
                assert(self.status_map() =~= left(before, Some(rig_id@)));
            },
            None => {
                assert(self.status_map() =~= left(before, Some(rig_id@)));
            },
        }
    }
}

/// The status of each rig once the given rig, if any, is no longer active.
pub open spec fn left(
    statuses: Map<Seq<char>, StatusView>,
    rig_id: Option<Seq<char>>,
) -> Map<Seq<char>, StatusView> {
    match rig_id {
        Some(r) => if statuses.contains_key(r) {
            statuses.insert(r, StatusView { active_rig: false, ..statuses[r] })
        } else {
            statuses
        },
        None => statuses,
    }
}

fn find_last(bookmarks: &Vec<Bookmark>, id: &str) -> (res: Option<usize>)
    ensures
        res is Some <==> by_id(bookmark_views(bookmarks@)).contains_key(id@),
        res matches Some(i) ==> i < bookmarks@.len() && bookmarks@[i as int]@ == by_id(
            bookmark_views(bookmarks@),
        )[id@] && bookmarks@[i as int].id@ == id@,
{
    let ghost views = bookmark_views(bookmarks@);
    let mut i: usize = bookmarks.len();
    assert(views.take(views.len() as int) =~= views);
    while i > 0
        invariant
            i <= bookmarks@.len(),
            views == bookmark_views(bookmarks@),
            by_id(views).contains_key(id@) == by_id(views.take(i as int)).contains_key(id@),
            by_id(views).contains_key(id@) ==> by_id(views)[id@] == by_id(views.take(i as int))[id@],
        decreases i,
    {
        assert(views.take(i as int).drop_last() =~= views.take(i - 1));
        assert(views.take(i as int).last() == bookmarks@[i - 1]@);
        if str_eq(bookmarks[i - 1].id.as_str(), id) {
            return Some(i - 1);
        }
        i = i - 1;
    }
    None
}

/// Splits the running channels into those that stay and the commands for those that go.
fn split_running(
    active: Vec<VirtualBackgroundDecodeChannel>,
    desired: &Vec<VirtualBackgroundDecodeChannel>,
    cmds: &mut Vec<RigAudioCmd>,
) -> (res: Vec<VirtualBackgroundDecodeChannel>)
    ensures
        channel_views(res@) == kept(channel_views(active@), channel_views(desired@)),
        cmd_views(final(cmds)@) == cmd_views(old(cmds)@) + remove_cmds(
            dropped(channel_views(active@), channel_views(desired@)),
        ),
{
    let ghost av = channel_views(active@);
    let ghost dv = channel_views(desired@);
    let ghost before = cmd_views(cmds@);
    let mut stay: Vec<VirtualBackgroundDecodeChannel> = Vec::new();
    proof {
        reveal(Seq::filter);
        assert(av.take(0) =~= Seq::<ChannelView>::empty());
        assert(channel_views(stay@) =~= kept(av.take(0), dv));
        assert(cmd_views(cmds@) =~= before + remove_cmds(dropped(av.take(0), dv)));
    }
    for channel in it: active
        invariant
            it.seq() == active@,
            av == channel_views(active@),
            dv == channel_views(desired@),
            channel_views(stay@) == kept(av.take(it.index() as int), dv),
            cmd_views(cmds@) == before + remove_cmds(dropped(av.take(it.index() as int), dv)),
    {
        let ghost n = it.index() as int;
        let ghost stay_before = channel_views(stay@);
        let ghost cmds_before = cmd_views(cmds@);
        proof {
            reveal(Seq::filter);
            assert(av.take(n + 1).drop_last() =~= av.take(n));
            assert(av.take(n + 1).last() == channel@);
        }
        let mut found = false;
        let mut j: usize = 0;
        while j < desired.len() && !found
            invariant
                j <= desired@.len(),
                dv == channel_views(desired@),
                found ==> still_desired(channel@, dv),
                !found ==> forall|k: int| 0 <= k < j ==> !same_channel(channel@, #[trigger] dv[k]),
            decreases desired@.len() - j + (if found { 0int } else { 1int }),
        {
            assert(dv[j as int] == desired@[j as int]@);
            found = channel_matches(&channel, &desired[j]);
            j = j + 1;
        }
        if found {
            stay.push(channel);
            assert(channel_views(stay@) =~= stay_before.push(channel@));
        } else {
            cmds.push(
                RigAudioCmd {
                    rig_id: channel.rig_id.clone(),
                    cmd: VChanAudioCmd::Remove(channel.uuid),
                },
            );
            proof {
                assert(cmd_views(cmds@) =~= cmds_before.push(remove_cmd(channel@)));
                let d = dropped(av.take(n), dv);
                assert(dropped(av.take(n + 1), dv) =~= d.push(channel@));
                assert(remove_cmds(d.push(channel@)) =~= remove_cmds(d).push(remove_cmd(channel@)));
            }
        }
    }
    assert(av.take(av.len() as int) =~= av);
    stay
}

fn serves_bookmark(channels: &Vec<VirtualBackgroundDecodeChannel>, upto: usize, id: &str) -> (res:
    bool)
    requires
        upto <= channels@.len(),
    ensures
        res == serves(channel_views(channels@).take(upto as int), id@),
{
    let ghost views = channel_views(channels@).take(upto as int);
    let mut i: usize = 0;
    while i < upto
        invariant
            i <= upto <= channels@.len(),
            views == channel_views(channels@).take(upto as int),
            forall|j: int| 0 <= j < i ==> (#[trigger] views[j]).bookmark_id != id@,
        decreases upto - i,
    {
        assert(views[i as int] == channels@[i as int]@);
        if str_eq(channels[i].bookmark_id.as_str(), id) {
            return true;
        }
        i = i + 1;
    }
    false
}

/// Adds the desired channels whose bookmark no staying channel serves, with their commands.
fn add_new(
    running: &mut Vec<VirtualBackgroundDecodeChannel>,
    desired: Vec<VirtualBackgroundDecodeChannel>,
    cmds: &mut Vec<RigAudioCmd>,
)
    ensures
        channel_views(final(running)@) == channel_views(old(running)@) + added(
            channel_views(old(running)@),
            channel_views(desired@),
        ),
        cmd_views(final(cmds)@) == cmd_views(old(cmds)@) + start_cmds(
            added(channel_views(old(running)@), channel_views(desired@)),
        ),
{
    let ghost sv = channel_views(running@);
    let ghost dv = channel_views(desired@);
    let ghost before = cmd_views(cmds@);
    let staying: usize = running.len();
    proof {
        reveal(Seq::filter);
        assert(dv.take(0) =~= Seq::<ChannelView>::empty());
        assert(sv =~= sv + added(sv, dv.take(0)));
        assert(before =~= before + start_cmds(added(sv, dv.take(0))));
        assert(sv.take(staying as int) =~= sv);
    }
    for d in it: desired
        invariant
            it.seq() == desired@,
            dv == channel_views(desired@),
            staying == sv.len(),
            staying <= running@.len(),
            channel_views(running@) == sv + added(sv, dv.take(it.index() as int)),
            cmd_views(cmds@) == before + start_cmds(added(sv, dv.take(it.index() as int))),
    {
        let ghost n = it.index() as int;
        let ghost running_before = channel_views(running@);
        let ghost cmds_before = cmd_views(cmds@);
        proof {
            reveal(Seq::filter);
            assert(dv.take(n + 1).drop_last() =~= dv.take(n));
            assert(dv.take(n + 1).last() == d@);
            assert(channel_views(running@).take(staying as int) =~= sv);
        }
        if !serves_bookmark(running, staying, d.bookmark_id.as_str()) {
            cmds.push(
                RigAudioCmd {
                    rig_id: d.rig_id.clone(),
                    cmd: VChanAudioCmd::SubscribeBackground {
                        uuid: d.uuid,
                        freq_hz: d.freq_hz,
                        mode: d.mode.clone(),
                        bandwidth_hz: d.bandwidth_hz,
                        decoder_kinds: list_clone(&d.decoder_kinds),
                    },
                },
            );
            let ghost dview = d@;
            running.push(d);
            proof {
                let a = added(sv, dv.take(n));
                assert(added(sv, dv.take(n + 1)) =~= a.push(dview));
                assert(channel_views(running@) =~= running_before.push(dview));
                assert(sv + a.push(dview) =~= (sv + a).push(dview));
                assert(cmd_views(cmds@) =~= cmds_before.push(start_cmd(dview)));
                assert(start_cmds(a.push(dview)) =~= start_cmds(a).push(start_cmd(dview)));
                assert(before + start_cmds(a).push(start_cmd(dview)) =~= (before + start_cmds(
                    a,
                )).push(start_cmd(dview)));
            }
        }
    }
    assert(dv.take(dv.len() as int) =~= dv);
}

/// Works out the state of each watched bookmark and the channels they want.
fn work_out(rig_id: &str, input: &ReconcileInput, selected: &Vec<String>, uuids: &Vec<u128>) -> (res:
    (Vec<BackgroundDecodeBookmarkStatus>, Vec<VirtualBackgroundDecodeChannel>))
    requires
        list_view(selected@) == input.selected(),
        uuids@.len() >= selected@.len(),
    ensures
        entry_views(res.0@) == input.entries(),
        channel_views(res.1@) == input.desired(rig_id@, input.selected(), uuids@),
{
    let ghost ids = input.selected();
    let has_control = input.scheduler_allowed && input.users_connected;
    let scheduled: Vec<String> = if has_control || !input.users_connected {
        list_clone(&input.scheduler_ids)
    } else {
        Vec::new()
    };
    assert forall|id: Seq<char>| list_has(scheduled@, id) == input.scheduled(id) by {}
    let span: Option<(i64, i64)> = match &input.spectrum {
        Some(s) => {
            Some((to_signed(s.center_hz), (s.sample_rate / 2) as i64))
        },
        None => None,
    };
    assert(span == input.span());
    let mut statuses: Vec<BackgroundDecodeBookmarkStatus> = Vec::new();
    let mut desired: Vec<VirtualBackgroundDecodeChannel> = Vec::new();
    assert(channel_views(desired@) =~= input.desired(rig_id@, ids.take(0), uuids@));
    let mut i: usize = 0;
    while i < selected.len()
        invariant
            i <= selected@.len(),
            list_view(selected@) == ids,
            ids == input.selected(),
            uuids@.len() >= selected@.len(),
            has_control == input.scheduler_has_control(),
            span == input.span(),
            forall|id: Seq<char>| list_has(scheduled@, id) == input.scheduled(id),
            statuses@.len() == i,
            forall|j: int| 0 <= j < i ==> (#[trigger] statuses@[j])@ == input.entry(ids[j]),
            channel_views(desired@) == input.desired(rig_id@, ids.take(i as int), uuids@),
        decreases selected@.len() - i,
    {
        let id = selected[i].as_str();
        proof {
            assert(ids[i as int] == id@);
            assert(ids.take(i + 1).drop_last() =~= ids.take(i as int));
            assert(ids.take(i + 1).last() == id@);
        }
        match find_last(&input.bookmarks, id) {
            None => {
                let kinds: Vec<String> = Vec::new();
                assert(list_view(kinds@) =~= Seq::<Seq<char>>::empty());
                statuses.push(
                    BackgroundDecodeBookmarkStatus {
                        bookmark_id: own(id),
                        bookmark_name: None,
                        freq_hz: None,
                        mode: None,
                        decoder_kinds: kinds,
                        state: own("missing_bookmark"),
                        channel_kind: None,
                    },
                );
            },
            Some(at) => {
                let b = &input.bookmarks[at];
                let kinds = bookmark_decoder_kinds(b.mode.as_str(), &b.decoders);
                let vchan_covers = virtual_channels_cover_bookmark(&input.channels, b);
                let empty = kinds.len() == 0;
                assert(empty == (decoder_kinds_of(b@.mode, b@.decoders).len() == 0)) by {
                    assert(list_view(kinds@).len() == kinds@.len());
                }
                let action = evaluate_bookmark(
                    empty,
                    input.config.enabled,
                    input.users_connected,
                    has_control,
                    &scheduled,
                    b.id.as_str(),
                    vchan_covers,
                    span,
                    b.freq_hz,
                );
                assert(action@ == input.skip(b@));
                let shown = list_clone(&kinds);
                let ghost desired_before = channel_views(desired@);
                let (state, channel_kind) = match action {
                    ChannelAction::Active => {
                        let channel = desired_channel(rig_id, b, kinds, uuids[i]);
                        desired.push(channel);
                        assert(channel_views(desired@) =~= desired_before.push(
                            channel_for(rig_id@, b@, uuids@[i as int]),
                        ));
                        (own("active"), Some(own("VirtualBackgroundDecodeChannel")))
                    },
                    ChannelAction::Skip { reason } => {
                        let kind = if str_eq(reason, "handled_by_virtual_channel") {
                            Some(own("VirtualChannel"))
                        } else {
                            None
                        };
                        (own(reason), kind)
                    },
                };
                statuses.push(
                    BackgroundDecodeBookmarkStatus {
                        bookmark_id: b.id.clone(),
                        bookmark_name: Some(b.name.clone()),
                        freq_hz: Some(b.freq_hz),
                        mode: Some(b.mode.clone()),
                        decoder_kinds: shown,
                        state,
                        channel_kind,
                    },
                );
            },
        }
        i = i + 1;
    }
    proof {
        assert(ids.take(ids.len() as int) =~= ids);
        assert(entry_views(statuses@) =~= input.entries());
    }
    (statuses, desired)
}

/// What is running, what is known and what has been commanded after a reconciliation.
#[verifier::ext_equal]
pub struct Reconciled {
    pub current_rig_id: Option<Seq<char>>,
    pub running: Seq<ChannelView>,
    pub statuses: Map<Seq<char>, StatusView>,
    pub cmds: Seq<(Seq<char>, VChanCmdView)>,
}

/// What a reconciliation comes to. Where the active rig has changed, every running channel goes
/// and the old rig's status is no longer active. Then, where a rig is active, the running channels
/// become the desired ones, those that already run staying, and its status is worked out anew.
#[verifier::opaque]
pub open spec fn reconciled(
    current: Option<Seq<char>>,
    running: Seq<ChannelView>,
    statuses: Map<Seq<char>, StatusView>,
    active: Option<Seq<char>>,
    input: ReconcileInput,
    uuids: Seq<u128>,
) -> Reconciled {
    let changed = current != active;
    let base = if changed {
        Seq::empty()
    } else {
        running
    };
    let first = if changed {
        remove_cmds(running)
    } else {
        Seq::empty()
    };
    let known = if changed {
        left(statuses, current)
    } else {
        statuses
    };
    match active {
        None => Reconciled { current_rig_id: None, running: base, statuses: known, cmds: first },
        Some(rig) => {
            let desired = input.desired(rig, input.selected(), uuids);
            let staying = kept(base, desired);
            Reconciled {
                current_rig_id: Some(rig),
                running: staying + added(staying, desired),
                statuses: known.insert(rig, input.status(rig)),
                cmds: first + remove_cmds(dropped(base, desired)) + start_cmds(
                    added(staying, desired),
                ),
            }
        },
    }
}

impl BackgroundDecodeManager {
    /// What is running and known, with the given commands.
    pub open spec fn outcome(&self, cmds: Seq<RigAudioCmd>) -> Reconciled {
        Reconciled {
            current_rig_id: opt_view(self.current_rig_id),
            running: self.running(),
            statuses: self.status_map(),
            cmds: cmd_views(cmds),
        }
    }

    /// What a reconciliation with the given rig, if any, comes to.
    pub open spec fn after_reconciling(
        &self,
        active: Option<Seq<char>>,
        input: ReconcileInput,
        uuids: Seq<u128>,
    ) -> Reconciled {
        reconciled(
            opt_view(self.current_rig_id),
            self.running(),
            self.status_map(),
            active,
            input,
            uuids,
        )
    }

    /// Brings the running channels in line with what the active rig wants, with the given UUIDs
    /// for new channels, and says which commands that takes.
    pub fn reconcile_with(
        &mut self,
        active_rig_id: &Option<String>,
        input: &ReconcileInput,
        uuids: &Vec<u128>,
    ) -> (res: Vec<RigAudioCmd>)
        requires
            old(self).wf(),
            uuids@.len() >= input.selected().len(),
        ensures
            final(self).wf(),
            final(self).outcome(res@) == old(self).after_reconciling(
                opt_view(*active_rig_id),
                *input,
                uuids@,
            ),
    {
        proof {
            reveal(reconciled);
        }
        let ghost start = *self;
        let mut cmds: Vec<RigAudioCmd> = Vec::new();
        assert(cmd_views(cmds@) =~= Seq::<(Seq<char>, VChanCmdView)>::empty());
        if !opt_eq(&self.current_rig_id, active_rig_id) {
            let prev = opt_clone(&self.current_rig_id);
            match &prev {
                Some(rig) => self.leave_rig(rig.as_str()),
                None => {},
            }
            assert(self.status_map() == left(start.status_map(), opt_view(start.current_rig_id)));
            cmds = self.clear_runtime_channels();
        }
        let ghost known = self.status_map();
        let ghost base = self.running();
        let ghost first = cmd_views(cmds@);
        assert(base =~= (if opt_view(start.current_rig_id) != opt_view(*active_rig_id) {
            Seq::empty()
        } else {
            start.running()
        }));
        match active_rig_id {
            None => {
                assert(self.outcome(cmds@).current_rig_id is None);
                cmds
            },
            Some(rig) => {
                self.current_rig_id = Some(rig.clone());
                let selected = dedup_ids(&input.config.bookmark_ids);
                assert(list_view(selected@).len() == selected@.len());
                let (entries, desired) = work_out(rig.as_str(), input, &selected, uuids);
                let ghost dv = channel_views(desired@);
                let mut active: Vec<VirtualBackgroundDecodeChannel> = Vec::new();
                std::mem::swap(&mut active, &mut self.active_channels);
                let mut running = split_running(active, &desired, &mut cmds);
                add_new(&mut running, desired, &mut cmds);
                self.active_channels = running;
                let status = BackgroundDecodeStatus {
                    rig_id: rig.clone(),
                    enabled: input.config.enabled,
                    active_rig: true,
                    center_hz: match &input.spectrum {
                        Some(s) => Some(s.center_hz),
                        None => None,
                    },
                    sample_rate: match &input.spectrum {
                        Some(s) => Some(s.sample_rate),
                        None => None,
                    },
                    entries,
                };
                let ghost sview = status@;
                self.statuses.insert(rig.as_str(), status);
                assert(self.status_map() =~= known.insert(rig@, sview));
                assert(self.outcome(cmds@) == start.after_reconciling(Some(rig@), *input, uuids@));
                proof {
                    lemma_serves_exactly(
                        opt_view(start.current_rig_id),
                        start.running(),
                        start.status_map(),
                        rig@,
                        *input,
                        uuids@,
                    );
                }
                cmds
            },
        }
    }

    /// Brings the running channels in line with what the active rig wants, each new channel under
    /// a fresh UUID, and says which commands that takes.
    pub fn reconcile(&mut self, active_rig_id: &Option<String>, input: &ReconcileInput) -> (res: Vec<
        RigAudioCmd,
    >)
        requires
            old(self).wf(),
        ensures
            final(self).wf(),
            exists|uuids: Seq<u128>|
                {
                    &&& uuids.len() == input.config.bookmark_ids@.len()
                    &&& forall|i: int| 0 <= i < uuids.len() ==> is_random_uuid(#[trigger] uuids[i])
                    &&& final(self).outcome(res@) == #[trigger] old(self).after_reconciling(
                        opt_view(*active_rig_id),
                        *input,
                        uuids,
                    )
                },
    {
        let n: usize = input.config.bookmark_ids.len();
        let mut uuids: Vec<u128> = Vec::new();
        let mut i: usize = 0;
        while i < n
            invariant
                i <= n,
                uuids@.len() == i,
                forall|j: int| 0 <= j < i ==> is_random_uuid(#[trigger] uuids@[j]),
            decreases n - i,
        {
            uuids.push(new_uuid());
            i = i + 1;
        }
        proof {
            lemma_deduped_len(list_view(input.config.bookmark_ids@));
        }
        self.reconcile_with(active_rig_id, input, &uuids)
    }
}

proof fn lemma_deduped_len(ids: Seq<Seq<char>>)
    ensures
        deduped(ids).len() <= ids.len(),
    decreases ids.len(),
{
    if ids.len() > 0 {
        lemma_deduped_len(ids.drop_last());
    }
}

// ---------------------------------------------------------------------------------------------
// Status
// ---------------------------------------------------------------------------------------------

impl Clone for BackgroundDecodeBookmarkStatus {
    fn clone(&self) -> (res: Self)
        ensures
            res@ == self@,
    {
        BackgroundDecodeBookmarkStatus {
            bookmark_id: self.bookmark_id.clone(),
            bookmark_name: opt_clone(&self.bookmark_name),
            freq_hz: self.freq_hz,
            mode: opt_clone(&self.mode),
            decoder_kinds: list_clone(&self.decoder_kinds),
            state: self.state.clone(),
            channel_kind: opt_clone(&self.channel_kind),
        }
    }
}

impl Clone for BackgroundDecodeStatus {
    fn clone(&self) -> (res: Self)
        ensures
            res@ == self@,
    {
        let mut entries: Vec<BackgroundDecodeBookmarkStatus> = Vec::new();
        let mut i: usize = 0;
        while i < self.entries.len()
            invariant
                i <= self.entries@.len(),
                entries@.len() == i,
                forall|j: int| 0 <= j < i ==> (#[trigger] entries@[j])@ == self.entries@[j]@,
            decreases self.entries@.len() - i,
        {
            entries.push(self.entries[i].clone());
            i = i + 1;
        }
        assert(entry_views(entries@) =~= entry_views(self.entries@));
        BackgroundDecodeStatus {
            rig_id: self.rig_id.clone(),
            enabled: self.enabled,
            active_rig: self.active_rig,
            center_hz: self.center_hz,
            sample_rate: self.sample_rate,
            entries,
        }
    }
}

/// The state of a configured bookmark on a rig that was never reconciled.
pub open spec fn idle_entry(known: Map<Seq<char>, BookmarkView>, id: Seq<char>) -> EntryView {
    let found = known.contains_key(id);
    let b = known[id];
    EntryView {
        bookmark_id: id,
        bookmark_name: if found {
            Some(b.name)
        } else {
            None
        },
        freq_hz: if found {
            Some(b.freq_hz)
        } else {
            None
        },
        mode: if found {
            Some(b.mode)
        } else {
            None
        },
        decoder_kinds: if found {
            decoder_kinds_of(b.mode, b.decoders)
        } else {
            Seq::empty()
        },
        state: "inactive"@,
        channel_kind: None,
    }
}

/// The status of a rig that was never reconciled.
pub open spec fn idle_status(
    rig_id: Seq<char>,
    config: BackgroundDecodeConfig,
    bookmarks: Seq<Bookmark>,
    active: Option<Seq<char>>,
) -> StatusView {
    StatusView {
        rig_id,
        enabled: config.enabled,
        active_rig: active == Some(rig_id),
        center_hz: None,
        sample_rate: None,
        entries: list_view(config.bookmark_ids@).map_values(
            |id: Seq<char>| idle_entry(by_id(bookmark_views(bookmarks)), id),
        ),
    }
}

impl BackgroundDecodeManager {
    /// The status of a rig: what the last reconciliation found, or else what its configuration
    /// says, with every bookmark inactive.
    pub fn status(
        &self,
        rig_id: &str,
        config: &BackgroundDecodeConfig,
        bookmarks: &Vec<Bookmark>,
        active_rig_id: &Option<String>,
    ) -> (res: BackgroundDecodeStatus)
        requires
            self.wf(),
        ensures
            self.status_map().contains_key(rig_id@) ==> res@ == self.status_map()[rig_id@],
            !self.status_map().contains_key(rig_id@) ==> res@ == idle_status(
                rig_id@,
                *config,
                bookmarks@,
                opt_view(*active_rig_id),
            ),
    {
        match self.statuses.get(rig_id) {
            Some(status) => status.clone(),
            None => {
                let ghost known = by_id(bookmark_views(bookmarks@));
                let mut entries: Vec<BackgroundDecodeBookmarkStatus> = Vec::new();
                let mut i: usize = 0;
                while i < config.bookmark_ids.len()
                    invariant
                        i <= config.bookmark_ids@.len(),
                        known == by_id(bookmark_views(bookmarks@)),
                        entries@.len() == i,
                        forall|j: int|
                            0 <= j < i ==> (#[trigger] entries@[j])@ == idle_entry(
                                known,
                                config.bookmark_ids@[j]@,
                            ),
                    decreases config.bookmark_ids@.len() - i,
                {
                    let id = config.bookmark_ids[i].as_str();
                    let entry = match find_last(bookmarks, id) {
                        Some(at) => {
                            let b = &bookmarks[at];
                            BackgroundDecodeBookmarkStatus {
                                bookmark_id: own(id),
                                bookmark_name: Some(b.name.clone()),
                                freq_hz: Some(b.freq_hz),
                                mode: Some(b.mode.clone()),
                                decoder_kinds: bookmark_decoder_kinds(b.mode.as_str(), &b.decoders),
                                state: own("inactive"),
                                channel_kind: None,
                            }
                        },
                        None => {
                            let kinds: Vec<String> = Vec::new();
                            assert(list_view(kinds@) =~= Seq::<Seq<char>>::empty());
                            BackgroundDecodeBookmarkStatus {
                                bookmark_id: own(id),
                                bookmark_name: None,
                                freq_hz: None,
                                mode: None,
                                decoder_kinds: kinds,
                                state: own("inactive"),
                                channel_kind: None,
                            }
                        },
                    };
                    entries.push(entry);
                    i = i + 1;
                }
                assert(entry_views(entries@) =~= list_view(config.bookmark_ids@).map_values(
                    |id: Seq<char>| idle_entry(known, id),
                ));
                BackgroundDecodeStatus {
                    rig_id: own(rig_id),
                    enabled: config.enabled,
                    active_rig: match active_rig_id {
                        Some(a) => str_eq(a.as_str(), rig_id),
                        None => false,
                    },
                    center_hz: None,
                    sample_rate: None,
                    entries,
                }
            },
        }
    }
}

// ---------------------------------------------------------------------------------------------
// What reconciling achieves
// ---------------------------------------------------------------------------------------------

/// A bookmark found by id has that id.
proof fn lemma_by_id(list: Seq<BookmarkView>, id: Seq<char>)
    ensures
        by_id(list).contains_key(id) ==> by_id(list)[id].id == id,
    decreases list.len(),
{
    if list.len() > 0 {
        lemma_by_id(list.drop_last(), id);
    }
}

/// The desired channels are, one each and in order, for the bookmarks that want one.
proof fn lemma_desired(
    input: ReconcileInput,
    rig_id: Seq<char>,
    ids: Seq<Seq<char>>,
    uuids: Seq<u128>,
)
    requires
        ids.no_duplicates(),
    ensures
        one_per_bookmark(input.desired(rig_id, ids, uuids)),
        forall|i: int|
            0 <= i < input.desired(rig_id, ids, uuids).len() ==> ids.contains(
                (#[trigger] input.desired(rig_id, ids, uuids)[i]).bookmark_id,
            ) && input.wants(input.desired(rig_id, ids, uuids)[i].bookmark_id) && same_channel(
                input.desired(rig_id, ids, uuids)[i],
                channel_for(
                    rig_id,
                    input.known()[input.desired(rig_id, ids, uuids)[i].bookmark_id],
                    0,
                ),
            ),
        forall|id: Seq<char>| #[trigger]
            serves(input.desired(rig_id, ids, uuids), id) <==> ids.contains(id) && input.wants(id),
    decreases ids.len(),
{
    let all = input.desired(rig_id, ids, uuids);
    if ids.len() > 0 {
        let rest_ids = ids.drop_last();
        let rest = input.desired(rig_id, rest_ids, uuids);
        let last = ids.last();
        assert(rest_ids.no_duplicates());
        lemma_desired(input, rig_id, rest_ids, uuids);
        lemma_by_id(bookmark_views(input.bookmarks@), last);
        assert(!rest_ids.contains(last)) by {
            if rest_ids.contains(last) {
                let k = choose|k: int| 0 <= k < rest_ids.len() && rest_ids[k] == last;
                assert(ids[k] == ids[ids.len() - 1]);
            }
        }
        assert forall|x: Seq<char>| rest_ids.contains(x) implies ids.contains(x) by {
            let k = choose|k: int| 0 <= k < rest_ids.len() && rest_ids[k] == x;
            assert(ids[k] == x);
        }
        assert(ids[ids.len() - 1] == last);
        assert(ids.contains(last));
        assert forall|i: int, j: int| 0 <= i < j < all.len() implies (#[trigger] all[i]).bookmark_id
            != (#[trigger] all[j]).bookmark_id by {
            assert(all[i] == rest[i]);
            if j < rest.len() {
                assert(all[j] == rest[j]);
            } else {
                assert(rest_ids.contains(rest[i].bookmark_id));
            }
        }
        assert forall|i: int| 0 <= i < all.len() implies ids.contains(
            (#[trigger] all[i]).bookmark_id,
        ) && input.wants(all[i].bookmark_id) && same_channel(
            all[i],
            channel_for(rig_id, input.known()[all[i].bookmark_id], 0),
        ) by {
            if i < rest.len() {
                assert(all[i] == rest[i]);
                assert(rest_ids.contains(rest[i].bookmark_id));
            }
        }
        assert forall|id: Seq<char>| #[trigger] serves(all, id) <==> ids.contains(id)
            && input.wants(id) by {
            assert(serves(rest, id) <==> rest_ids.contains(id) && input.wants(id));
            if serves(rest, id) {
                let i = choose|i: int| 0 <= i < rest.len() && (#[trigger] rest[i]).bookmark_id == id;
                assert(all[i].bookmark_id == id);
            }
            if ids.contains(id) && input.wants(id) {
                let k = choose|k: int| 0 <= k < ids.len() && ids[k] == id;
                if k < rest_ids.len() {
                    assert(rest_ids[k] == id);
                } else {
                    assert(all[rest.len() as int].bookmark_id == id);
                }
            }
            if serves(all, id) {
                let i = choose|i: int| 0 <= i < all.len() && (#[trigger] all[i]).bookmark_id == id;
                if i < rest.len() {
                    assert(rest[i].bookmark_id == id);
                    assert(serves(rest, id));
                }
            }
        }
    }
}

/// What a filter leaves at a position stood in the sequence and passes.
proof fn lemma_filter_at(channels: Seq<ChannelView>, keep: spec_fn(ChannelView) -> bool, i: int)
    requires
        0 <= i < channels.filter(keep).len(),
    ensures
        keep(channels.filter(keep)[i]),
        channels.contains(channels.filter(keep)[i]),
    decreases channels.len(),
{
    reveal(Seq::filter);
    let out = channels.filter(keep);
    let rest = channels.drop_last();
    let rout = rest.filter(keep);
    if i < rout.len() {
        lemma_filter_at(rest, keep, i);
        let k = choose|k: int| 0 <= k < rest.len() && rest[k] == rout[i];
        assert(channels[k] == out[i]);
    } else {
        assert(channels[channels.len() - 1] == out[i]);
    }
}

/// Filtering keeps one channel per bookmark.
proof fn lemma_filter_one(
    channels: Seq<ChannelView>,
    keep: spec_fn(ChannelView) -> bool,
    i: int,
    j: int,
)
    requires
        one_per_bookmark(channels),
        0 <= i < j < channels.filter(keep).len(),
    ensures
        channels.filter(keep)[i].bookmark_id != channels.filter(keep)[j].bookmark_id,
    decreases channels.len(),
{
    reveal(Seq::filter);
    let out = channels.filter(keep);
    let rest = channels.drop_last();
    let rout = rest.filter(keep);
    assert(one_per_bookmark(rest)) by {
        assert forall|a: int, b: int| 0 <= a < b < rest.len() implies (#[trigger] rest[a]).bookmark_id
            != (#[trigger] rest[b]).bookmark_id by {
            assert(rest[a] == channels[a] && rest[b] == channels[b]);
        }
    }
    assert(out[i] == rout[i]);
    if j < rout.len() {
        lemma_filter_one(rest, keep, i, j);
    } else {
        lemma_filter_at(rest, keep, i);
        let k = choose|k: int| 0 <= k < rest.len() && rest[k] == rout[i];
        assert(channels[k] == out[i]);
        assert(channels[channels.len() - 1] == out[j]);
    }
}

/// A channel that passes a filter is among what is left.
proof fn lemma_filter_keeps(channels: Seq<ChannelView>, keep: spec_fn(ChannelView) -> bool, i: int)
    requires
        0 <= i < channels.len(),
        keep(channels[i]),
    ensures
        channels.filter(keep).contains(channels[i]),
    decreases channels.len(),
{
    reveal(Seq::filter);
    let out = channels.filter(keep);
    let rest = channels.drop_last();
    let rout = rest.filter(keep);
    if i < rest.len() {
        lemma_filter_keeps(rest, keep, i);
        let k = choose|k: int| 0 <= k < rout.len() && rout[k] == rest[i];
        assert(out[k] == channels[i]);
    } else {
        assert(out[rout.len() as int] == channels[i]);
    }
}

/// The channels that run after a change from `base` to what is desired.
pub open spec fn changed_to(base: Seq<ChannelView>, desired: Seq<ChannelView>) -> Seq<ChannelView> {
    kept(base, desired) + added(kept(base, desired), desired)
}

proof fn lemma_changed_at(base: Seq<ChannelView>, desired: Seq<ChannelView>, i: int)
    requires
        0 <= i < changed_to(base, desired).len(),
    ensures
        still_desired(changed_to(base, desired)[i], desired),
{
    let staying = kept(base, desired);
    let fresh = added(staying, desired);
    if i < staying.len() {
        lemma_filter_at(base, stay_rule(desired), i);
    } else {
        lemma_filter_at(desired, new_rule(staying), i - staying.len());
        let k = choose|k: int|
            0 <= k < desired.len() && desired[k] == fresh[i - staying.len()];
        assert(same_channel(desired[k], desired[k]));
    }
}

proof fn lemma_changed_one(base: Seq<ChannelView>, desired: Seq<ChannelView>, i: int, j: int)
    requires
        one_per_bookmark(base),
        one_per_bookmark(desired),
        0 <= i < j < changed_to(base, desired).len(),
    ensures
        changed_to(base, desired)[i].bookmark_id != changed_to(base, desired)[j].bookmark_id,
{
    let staying = kept(base, desired);
    let fresh = added(staying, desired);
    let n = staying.len() as int;
    if j < n {
        lemma_filter_one(base, stay_rule(desired), i, j);
    } else if i >= n {
        lemma_filter_one(desired, new_rule(staying), i - n, j - n);
    } else {
        lemma_filter_at(desired, new_rule(staying), j - n);
        assert(!serves(staying, fresh[j - n].bookmark_id));
        assert(staying[i].bookmark_id != fresh[j - n].bookmark_id);
    }
}

proof fn lemma_changed_serves(base: Seq<ChannelView>, desired: Seq<ChannelView>, id: Seq<char>)
    ensures
        serves(changed_to(base, desired), id) <==> serves(desired, id),
{
    let staying = kept(base, desired);
    let fresh = added(staying, desired);
    let after = changed_to(base, desired);
    if serves(after, id) {
        let i = choose|i: int| 0 <= i < after.len() && (#[trigger] after[i]).bookmark_id == id;
        lemma_changed_at(base, desired, i);
        let j = choose|j: int| 0 <= j < desired.len() && same_channel(after[i], #[trigger] desired[j]);
        assert(desired[j].bookmark_id == id);
    }
    if serves(desired, id) && !serves(after, id) {
        let j = choose|j: int| 0 <= j < desired.len() && (#[trigger] desired[j]).bookmark_id == id;
        if serves(staying, id) {
            let i = choose|i: int|
                0 <= i < staying.len() && (#[trigger] staying[i]).bookmark_id == id;
            assert(after[i].bookmark_id == id);
        } else {
            lemma_filter_keeps(desired, new_rule(staying), j);
            let k = choose|k: int| 0 <= k < fresh.len() && fresh[k] == desired[j];
            assert(after[staying.len() + k].bookmark_id == id);
        }
    }
}

/// The channel that a watched bookmark wants on the rig, up to its UUID.
pub open spec fn as_wanted(input: ReconcileInput, rig: Seq<char>, c: ChannelView) -> bool {
    same_channel(c, channel_for(rig, input.known()[c.bookmark_id], 0))
}

proof fn lemma_serves_exactly(
    current: Option<Seq<char>>,
    running: Seq<ChannelView>,
    statuses: Map<Seq<char>, StatusView>,
    rig: Seq<char>,
    input: ReconcileInput,
    uuids: Seq<u128>,
)
    requires
        one_per_bookmark(running),
    ensures
        one_per_bookmark(reconciled(current, running, statuses, Some(rig), input, uuids).running),
        forall|id: Seq<char>| #[trigger]
            serves(reconciled(current, running, statuses, Some(rig), input, uuids).running, id)
                <==> input.selected().contains(id) && input.wants(id),
        forall|i: int|
            0 <= i < reconciled(current, running, statuses, Some(rig), input, uuids).running.len()
                ==> as_wanted(
                input,
                rig,
                #[trigger] reconciled(
                    current,
                    running,
                    statuses,
                    Some(rig),
                    input,
                    uuids,
                ).running[i],
            ),
{
    reveal(reconciled);
    let base = if current != Some(rig) {
        Seq::<ChannelView>::empty()
    } else {
        running
    };
    let desired = input.desired(rig, input.selected(), uuids);
    let after = reconciled(current, running, statuses, Some(rig), input, uuids).running;
    assert(after == changed_to(base, desired));
    deduped_sound(list_view(input.config.bookmark_ids@));
    lemma_desired(input, rig, input.selected(), uuids);
    assert forall|i: int, j: int| 0 <= i < j < after.len() implies (#[trigger] after[i]).bookmark_id
        != (#[trigger] after[j]).bookmark_id by {
        lemma_changed_one(base, desired, i, j);
    }
    assert forall|id: Seq<char>| #[trigger] serves(after, id) <==> input.selected().contains(id)
        && input.wants(id) by {
        lemma_changed_serves(base, desired, id);
        assert(serves(desired, id) <==> input.selected().contains(id) && input.wants(id));
    }
    assert forall|i: int| 0 <= i < after.len() implies as_wanted(input, rig, #[trigger] after[i]) by {
        lemma_changed_at(base, desired, i);
        let j = choose|j: int| 0 <= j < desired.len() && same_channel(after[i], #[trigger] desired[j]);
        assert(desired[j].bookmark_id == after[i].bookmark_id);
    }
}

/// After a reconciliation with an active rig, each watched bookmark that wants a channel has
/// exactly one running, as it wants it, and nothing else runs.
pub proof fn reconcile_serves_exactly(
    before: BackgroundDecodeManager,
    rig: Seq<char>,
    input: ReconcileInput,
    uuids: Seq<u128>,
)
    requires
        before.wf(),
    ensures
        one_per_bookmark(before.after_reconciling(Some(rig), input, uuids).running),
        forall|id: Seq<char>| #[trigger]
            serves(before.after_reconciling(Some(rig), input, uuids).running, id)
                <==> input.selected().contains(id) && input.wants(id),
        forall|i: int|
            0 <= i < before.after_reconciling(Some(rig), input, uuids).running.len() ==> as_wanted(
                input,
                rig,
                #[trigger] before.after_reconciling(Some(rig), input, uuids).running[i],
            ),
{
    lemma_serves_exactly(
        opt_view(before.current_rig_id),
        before.running(),
        before.status_map(),
        rig,
        input,
        uuids,
    );
}

/// A filter that keeps nothing leaves nothing.
proof fn lemma_filter_none(channels: Seq<ChannelView>, keep: spec_fn(ChannelView) -> bool)
    requires
        forall|i: int| 0 <= i < channels.len() ==> !keep(#[trigger] channels[i]),
    ensures
        channels.filter(keep) =~= Seq::<ChannelView>::empty(),
    decreases channels.len(),
{
    reveal(Seq::filter);
    if channels.len() > 0 {
        assert forall|i: int| 0 <= i < channels.drop_last().len() implies !keep(
            #[trigger] channels.drop_last()[i],
        ) by {
            assert(channels[i] == channels.drop_last()[i]);
        }
        lemma_filter_none(channels.drop_last(), keep);
        assert(channels[channels.len() - 1] == channels.last());
    }
}

proof fn lemma_still_wanted(
    current: Option<Seq<char>>,
    running: Seq<ChannelView>,
    statuses: Map<Seq<char>, StatusView>,
    rig: Seq<char>,
    input: ReconcileInput,
    uuids: Seq<u128>,
    again: Seq<u128>,
    i: int,
)
    requires
        one_per_bookmark(running),
        0 <= i < reconciled(current, running, statuses, Some(rig), input, uuids).running.len(),
    ensures
        still_desired(
            reconciled(current, running, statuses, Some(rig), input, uuids).running[i],
            input.desired(rig, input.selected(), again),
        ),
{
    let was = reconciled(current, running, statuses, Some(rig), input, uuids).running;
    let desired = input.desired(rig, input.selected(), again);
    lemma_serves_exactly(current, running, statuses, rig, input, uuids);
    deduped_sound(list_view(input.config.bookmark_ids@));
    lemma_desired(input, rig, input.selected(), again);
    let id = was[i].bookmark_id;
    assert(serves(was, id));
    assert(serves(desired, id));
    let j = choose|j: int| 0 <= j < desired.len() && (#[trigger] desired[j]).bookmark_id == id;
    assert(same_channel(was[i], desired[j]));
}

proof fn lemma_settled(
    running: Seq<ChannelView>,
    statuses: Map<Seq<char>, StatusView>,
    rig: Seq<char>,
    input: ReconcileInput,
    uuids: Seq<u128>,
)
    requires
        forall|i: int|
            0 <= i < running.len() ==> still_desired(
                #[trigger] running[i],
                input.desired(rig, input.selected(), uuids),
            ),
        forall|i: int|
            0 <= i < input.desired(rig, input.selected(), uuids).len() ==> serves(
                running,
                (#[trigger] input.desired(rig, input.selected(), uuids)[i]).bookmark_id,
            ),
    ensures
        reconciled(Some(rig), running, statuses, Some(rig), input, uuids) == (Reconciled {
            current_rig_id: Some(rig),
            running,
            statuses: statuses.insert(rig, input.status(rig)),
            cmds: Seq::empty(),
        }),
{
    reveal(reconciled);
    let desired = input.desired(rig, input.selected(), uuids);
    lemma_all_kept(running, stay_rule(desired));
    lemma_filter_none(running, go_rule(desired));
    lemma_filter_none(desired, new_rule(running));
    let none = Seq::<ChannelView>::empty();
    assert(kept(running, desired) == running);
    assert(added(running, desired) == none);
    assert(dropped(running, desired) == none);
    assert(running + none =~= running);
    assert(Seq::<(Seq<char>, VChanCmdView)>::empty() + remove_cmds(none) + start_cmds(none)
        =~= Seq::<(Seq<char>, VChanCmdView)>::empty());
}

proof fn lemma_still_served(
    current: Option<Seq<char>>,
    running: Seq<ChannelView>,
    statuses: Map<Seq<char>, StatusView>,
    rig: Seq<char>,
    input: ReconcileInput,
    uuids: Seq<u128>,
    again: Seq<u128>,
    i: int,
)
    requires
        one_per_bookmark(running),
        0 <= i < input.desired(rig, input.selected(), again).len(),
    ensures
        serves(
            reconciled(current, running, statuses, Some(rig), input, uuids).running,
            input.desired(rig, input.selected(), again)[i].bookmark_id,
        ),
{
    lemma_serves_exactly(current, running, statuses, rig, input, uuids);
    deduped_sound(list_view(input.config.bookmark_ids@));
    lemma_desired(input, rig, input.selected(), again);
    let id = input.desired(rig, input.selected(), again)[i].bookmark_id;
    assert(input.selected().contains(id) && input.wants(id));
}

proof fn lemma_first_fields(
    current: Option<Seq<char>>,
    running: Seq<ChannelView>,
    statuses: Map<Seq<char>, StatusView>,
    rig: Seq<char>,
    input: ReconcileInput,
    uuids: Seq<u128>,
)
    ensures
        ({
            let first = reconciled(current, running, statuses, Some(rig), input, uuids);
            &&& first.current_rig_id == Some(rig)
            &&& first.statuses.contains_key(rig)
            &&& first.statuses[rig] == input.status(rig)
        }),
{
    reveal(reconciled);
}

/// A second reconciliation with the same rig and input sends nothing and changes nothing, whatever
/// UUIDs it is given.
pub proof fn reconcile_settles(
    before: BackgroundDecodeManager,
    after: BackgroundDecodeManager,
    cmds: Seq<RigAudioCmd>,
    rig: Seq<char>,
    input: ReconcileInput,
    uuids: Seq<u128>,
    again: Seq<u128>,
)
    requires
        before.wf(),
        after.outcome(cmds) == before.after_reconciling(Some(rig), input, uuids),
    ensures
        after.after_reconciling(Some(rig), input, again) == after.outcome(Seq::empty()),
{
    let current = opt_view(before.current_rig_id);
    let running = before.running();
    let statuses = before.status_map();
    let was = after.running();
    let desired = input.desired(rig, input.selected(), again);
    assert(was == after.outcome(cmds).running);
    assert forall|i: int| 0 <= i < was.len() implies still_desired(#[trigger] was[i], desired) by {
        lemma_still_wanted(current, running, statuses, rig, input, uuids, again, i);
    }
    assert forall|i: int| 0 <= i < desired.len() implies serves(
        was,
        (#[trigger] desired[i]).bookmark_id,
    ) by {
        lemma_still_served(current, running, statuses, rig, input, uuids, again, i);
    }
    lemma_first_fields(current, running, statuses, rig, input, uuids);
    assert(opt_view(after.current_rig_id) == after.outcome(cmds).current_rig_id);
    assert(after.status_map() == after.outcome(cmds).statuses);
    lemma_settled(was, after.status_map(), rig, input, again);
    assert(after.status_map().insert(rig, input.status(rig)) =~= after.status_map());
    assert(cmd_views(Seq::empty()) =~= Seq::<(Seq<char>, VChanCmdView)>::empty());
}

// ---------------------------------------------------------------------------------------------
// What decoding in the background comes to
// ---------------------------------------------------------------------------------------------

/// Where nothing else stands against it, a watched bookmark that is known gets a channel exactly where
/// its frequency lies in the received spectrum: within half the sample rate of the middle.
pub proof fn bookmarks_in_the_spectrum_are_decoded(
    input: ReconcileInput,
    id: Seq<char>,
    span: SpectrumSpan,
)
    requires
        input.config.enabled,
        input.users_connected,
        !input.scheduler_allowed,
        input.known().contains_key(id),
        decoder_kinds_of(input.known()[id].mode, input.known()[id].decoders).len() > 0,
        forall|i: int|
            0 <= i < input.channels@.len() ==> (#[trigger] input.channels@[i]).freq_hz
                != input.known()[id].freq_hz,
        input.spectrum == Some(span),
        span.center_hz <= i64::MAX,
        input.known()[id].freq_hz <= i64::MAX,
    ensures
        ({
            let freq = input.known()[id].freq_hz;
            input.wants(id) <==> 2 * (freq - span.center_hz) <= span.sample_rate && 2 * (
            span.center_hz - freq) <= span.sample_rate
        }),
{
}

/// What stands against a channel: decoding that is switched off, nobody who listens, a scheduler that
/// has control, no decoder that could be run, a channel that users see on the same frequency in the
/// same mode, no spectrum, and a bookmark that is not known.
pub proof fn bookmarks_that_are_not_decoded(input: ReconcileInput, id: Seq<char>)
    ensures
        input.wants(id) ==> {
            &&& input.config.enabled
            &&& input.users_connected
            &&& !input.scheduler_allowed
            &&& input.spectrum is Some
            &&& input.known().contains_key(id)
            &&& decoder_kinds_of(input.known()[id].mode, input.known()[id].decoders).len() > 0
            &&& forall|i: int|
                0 <= i < input.channels@.len() ==> !((#[trigger] input.channels@[i]).freq_hz
                    == input.known()[id].freq_hz && decoder_name(input.channels@[i].mode@)
                    == decoder_name(input.known()[id].mode))
        },
{
    if input.wants(id) {
        let b = input.known()[id];
        assert(!covered(input.channels@, b.freq_hz, b.mode));
        assert forall|i: int| 0 <= i < input.channels@.len() implies !((
        #[trigger] input.channels@[i]).freq_hz == b.freq_hz && decoder_name(
            input.channels@[i].mode@,
        ) == decoder_name(b.mode)) by {
            assert(!channel_covers(input.channels@[i], b.freq_hz, b.mode));
        }
    }
}

/// The state that is told of a known bookmark, by what stands against its channel first.
pub proof fn state_of_a_watched_bookmark(input: ReconcileInput, id: Seq<char>)
    requires
        input.known().contains_key(id),
    ensures
        ({
            let b = input.known()[id];
            let e = input.entry(id);
            let runnable = decoder_kinds_of(b.mode, b.decoders).len() > 0;
            let on = runnable && input.config.enabled;
            let heard = on && input.users_connected;
            let free = heard && !input.scheduler_allowed;
            let alone = free && !covered(input.channels@, b.freq_hz, b.mode);
            &&& !runnable ==> e.state == "no_supported_decoders"@
            &&& runnable && !input.config.enabled ==> e.state == "disabled"@
            &&& on && !input.users_connected ==> e.state == "waiting_for_user"@
            &&& heard && input.scheduler_allowed ==> e.state == "scheduler_has_control"@
            &&& free && covered(input.channels@, b.freq_hz, b.mode) ==> e.state
                == "handled_by_virtual_channel"@
            &&& alone && input.spectrum is None ==> e.state == "waiting_for_spectrum"@
            &&& alone && input.spectrum is Some && !input.wants(id) ==> e.state == "out_of_span"@
            &&& input.wants(id) ==> e.state == "active"@ && e.channel_kind == Some(
                "VirtualBackgroundDecodeChannel"@,
            )
            &&& e.bookmark_id == b.id
            &&& e.bookmark_name == Some(b.name)
            &&& e.freq_hz == Some(b.freq_hz)
            &&& e.mode == Some(b.mode)
            &&& e.decoder_kinds == decoder_kinds_of(b.mode, b.decoders)
        }),
{
}

/// Of a watched bookmark that is not known only its id is told.
pub proof fn state_of_a_missing_bookmark(input: ReconcileInput, id: Seq<char>)
    requires
        !input.known().contains_key(id),
    ensures
        input.entry(id).bookmark_id == id,
        input.entry(id).state == "missing_bookmark"@,
        input.entry(id).bookmark_name is None,
        input.entry(id).freq_hz is None,
        input.entry(id).mode is None,
        input.entry(id).decoder_kinds.len() == 0,
        input.entry(id).channel_kind is None,
        !input.wants(id),
{
}

/// The status of the active rig tells of every watched bookmark once, in the order in which they are
/// watched, and of the spectrum.
pub proof fn status_of_the_active_rig(input: ReconcileInput, rig_id: Seq<char>)
    ensures
        input.status(rig_id).rig_id == rig_id,
        input.status(rig_id).active_rig,
        input.status(rig_id).enabled == input.config.enabled,
        input.spectrum is None ==> input.status(rig_id).center_hz is None && input.status(
            rig_id,
        ).sample_rate is None,
        input.spectrum matches Some(s) ==> input.status(rig_id).center_hz == Some(s.center_hz)
            && input.status(rig_id).sample_rate == Some(s.sample_rate),
        input.status(rig_id).entries.len() == deduped(list_view(input.config.bookmark_ids@)).len(),
        forall|i: int|
            0 <= i < input.status(rig_id).entries.len() ==> (#[trigger] input.status(
                rig_id,
            ).entries[i]) == input.entry(deduped(list_view(input.config.bookmark_ids@))[i]),
{
}

/// A channel that runs after a reconciliation receives what its bookmark says, on the active rig.
pub proof fn running_channels_follow_their_bookmarks(
    before: BackgroundDecodeManager,
    rig: Seq<char>,
    input: ReconcileInput,
    uuids: Seq<u128>,
    i: int,
)
    requires
        before.wf(),
        0 <= i < before.after_reconciling(Some(rig), input, uuids).running.len(),
    ensures
        ({
            let c = before.after_reconciling(Some(rig), input, uuids).running[i];
            let b = input.known()[c.bookmark_id];
            &&& input.known().contains_key(c.bookmark_id)
            &&& list_view(input.config.bookmark_ids@).contains(c.bookmark_id)
            &&& c.rig_id == rig
            &&& c.freq_hz == b.freq_hz
            &&& c.mode == b.mode
            &&& c.decoder_kinds == decoder_kinds_of(b.mode, b.decoders)
            &&& b.bandwidth_hz is None ==> c.bandwidth_hz == 0
            &&& b.bandwidth_hz matches Some(w) ==> c.bandwidth_hz == (if w < 0x1_0000_0000 {
                w
            } else {
                0xffff_ffff
            })
        }),
{
    let after = before.after_reconciling(Some(rig), input, uuids);
    let c = after.running[i];
    reconcile_serves_exactly(before, rig, input, uuids);
    deduped_sound(list_view(input.config.bookmark_ids@));
    assert(serves(after.running, c.bookmark_id));
    assert(deduped(list_view(input.config.bookmark_ids@)).contains(c.bookmark_id));
}

/// The channel that a bookmark wants has the bookmark's frequency and mode, the UUID it is given, and
/// the decoders that the bookmark names.
pub proof fn channel_of_a_bookmark(rig_id: Seq<char>, b: BookmarkView, uuid: u128)
    ensures
        ({
            let c = channel_for(rig_id, b, uuid);
            &&& c.uuid == uuid
            &&& c.rig_id == rig_id
            &&& c.bookmark_id == b.id
            &&& c.freq_hz == b.freq_hz
            &&& c.mode == b.mode
            &&& c.decoder_kinds == decoder_kinds_of(b.mode, b.decoders)
            &&& b.bandwidth_hz is None ==> c.bandwidth_hz == 0
            &&& b.bandwidth_hz matches Some(w) ==> c.bandwidth_hz == (if w < 0x1_0000_0000 {
                w
            } else {
                0xffff_ffff
            })
        }),
{
}

/// A channel that runs before and not after is removed by a command to its rig, and one that runs
/// after and not before is started by a command that says all of it.
pub proof fn commands_make_the_change(
    before: BackgroundDecodeManager,
    rig: Seq<char>,
    input: ReconcileInput,
    uuids: Seq<u128>,
    c: ChannelView,
)
    ensures
        ({
            let after = before.after_reconciling(Some(rig), input, uuids);
            &&& before.running().contains(c) && !after.running.contains(c) ==> after.cmds.contains(
                (c.rig_id, VChanCmdView::Remove(c.uuid)),
            )
            &&& after.running.contains(c) && !before.running().contains(c) ==> after.cmds.contains(
                (
                    c.rig_id,
                    VChanCmdView::SubscribeBackground {
                        uuid: c.uuid,
                        freq_hz: c.freq_hz,
                        mode: c.mode,
                        bandwidth_hz: c.bandwidth_hz,
                        decoder_kinds: c.decoder_kinds,
                    },
                ),
            )
        }),
{
    reveal(reconciled);
    let after = before.after_reconciling(Some(rig), input, uuids);
    let changed = opt_view(before.current_rig_id) != Some(rig);
    let base = if changed {
        Seq::<ChannelView>::empty()
    } else {
        before.running()
    };
    let desired = input.desired(rig, input.selected(), uuids);
    let staying = kept(base, desired);
    let fresh = added(staying, desired);
    let gone = dropped(base, desired);
    let first = if changed {
        remove_cmds(before.running())
    } else {
        Seq::<(Seq<char>, VChanCmdView)>::empty()
    };
    assert(after.running == staying + fresh);
    assert(after.cmds == first + remove_cmds(gone) + start_cmds(fresh));
    if before.running().contains(c) && !after.running.contains(c) {
        let k = choose|k: int| 0 <= k < before.running().len() && before.running()[k] == c;
        if changed {
            assert(after.cmds[k] == remove_cmd(c));
        } else {
            if stay_rule(desired)(c) {
                base.lemma_filter_contains(stay_rule(desired), k);
                let j = choose|j: int| 0 <= j < staying.len() && staying[j] == c;
                assert(after.running[j] == c);
            } else {
                base.lemma_filter_contains(go_rule(desired), k);
                let j = choose|j: int| 0 <= j < gone.len() && gone[j] == c;
                assert(after.cmds[j] == remove_cmd(c));
            }
        }
    }
    if after.running.contains(c) && !before.running().contains(c) {
        let k = choose|k: int| 0 <= k < after.running.len() && after.running[k] == c;
        if k < staying.len() {
            assert(staying[k] == c);
            base.lemma_filter_contains_rev(stay_rule(desired), c);
        } else {
            let j = k - staying.len();
            assert(fresh[j] == c);
            assert(after.cmds[first.len() + gone.len() + j] == start_cmd(c));
        }
    }
}

/// Where the rig changes, everything that ran is removed, and the rig that is left is no longer the
/// active one in its status.
pub proof fn changing_the_rig_removes_everything(
    before: BackgroundDecodeManager,
    active: Option<Seq<char>>,
    input: ReconcileInput,
    uuids: Seq<u128>,
    i: int,
)
    requires
        opt_view(before.current_rig_id) != active,
        0 <= i < before.running().len(),
    ensures
        before.after_reconciling(active, input, uuids).cmds.contains(
            (before.running()[i].rig_id, VChanCmdView::Remove(before.running()[i].uuid)),
        ),
{
    reveal(reconciled);
    let after = before.after_reconciling(active, input, uuids);
    assert(after.cmds[i] == remove_cmd(before.running()[i]));
}

/// The rig that is left keeps its status, but is not the active one any more; without an active rig
/// nothing runs after a change.
pub proof fn the_rig_that_is_left(
    before: BackgroundDecodeManager,
    active: Option<Seq<char>>,
    input: ReconcileInput,
    uuids: Seq<u128>,
    was: Seq<char>,
)
    requires
        opt_view(before.current_rig_id) == Some(was),
        active != Some(was),
    ensures
        ({
            let after = before.after_reconciling(active, input, uuids);
            &&& after.current_rig_id == active
            &&& active is None ==> after.running.len() == 0
            &&& before.status_map().contains_key(was) ==> after.statuses.contains_key(was)
                && !after.statuses[was].active_rig && after.statuses[was].entries
                == before.status_map()[was].entries && after.statuses[was].enabled
                == before.status_map()[was].enabled
            &&& active matches Some(rig) ==> after.statuses.contains_key(rig) && after.statuses[rig]
                == input.status(rig)
        }),
{
    reveal(reconciled);
}

/// While a scheduler is active, its bookmarks are the last one and the last ones, each once; while it
/// is not, it has none.
pub proof fn bookmarks_of_the_scheduler(
    active: bool,
    last: Option<Seq<char>>,
    lasts: Seq<Seq<char>>,
    id: Seq<char>,
)
    ensures
        scheduled_ids(active, last, lasts).contains(id) <==> active && (last == Some(id)
            || lasts.contains(id)),
        scheduled_ids(active, last, lasts).no_duplicates(),
        active && last is Some ==> scheduled_ids(active, last, lasts).len() > 0 && scheduled_ids(
            active,
            last,
            lasts,
        )[0] == last->0,
{
    let head = match last {
        Some(x) => seq![x],
        None => Seq::<Seq<char>>::empty(),
    };
    let all = head + lasts;
    deduped_sound(all);
    if last is Some {
        assert(all[0] == last->0);
    }
    if lasts.contains(id) {
        let k = choose|k: int| 0 <= k < lasts.len() && lasts[k] == id;
        assert(all[head.len() + k] == id);
    }
    if all.contains(id) && last != Some(id) {
        let k = choose|k: int| 0 <= k < all.len() && all[k] == id;
        assert(lasts[k - head.len()] == id);
    }
    if last is Some {
        lemma_deduped_first(all);
    }
}

proof fn lemma_deduped_first(ids: Seq<Seq<char>>)
    requires
        ids.len() > 0,
    ensures
        deduped(ids).len() > 0,
        deduped(ids)[0] == ids[0],
    decreases ids.len(),
{
    if ids.len() > 1 {
        lemma_deduped_first(ids.drop_last());
    } else {
        assert(deduped(ids.drop_last()).len() == 0);
        assert(!deduped(ids.drop_last()).contains(ids.last()));
    }
}

/// The status of a rig that was never looked at says what is configured, with every bookmark inactive.
pub proof fn status_of_an_idle_rig(
    rig_id: Seq<char>,
    config: BackgroundDecodeConfig,
    bookmarks: Seq<Bookmark>,
    active: Option<Seq<char>>,
    i: int,
)
    requires
        0 <= i < config.bookmark_ids@.len(),
    ensures
        ({
            let s = idle_status(rig_id, config, bookmarks, active);
            let known = by_id(bookmark_views(bookmarks));
            let id = config.bookmark_ids@[i]@;
            &&& s.rig_id == rig_id
            &&& s.enabled == config.enabled
            &&& s.active_rig <==> active == Some(rig_id)
            &&& s.center_hz is None && s.sample_rate is None
            &&& s.entries.len() == config.bookmark_ids@.len()
            &&& s.entries[i].bookmark_id == id
            &&& s.entries[i].state == "inactive"@
            &&& s.entries[i].channel_kind is None
            &&& known.contains_key(id) ==> s.entries[i].bookmark_name == Some(known[id].name)
                && s.entries[i].freq_hz == Some(known[id].freq_hz) && s.entries[i].mode == Some(
                known[id].mode,
            ) && s.entries[i].decoder_kinds == decoder_kinds_of(known[id].mode, known[id].decoders)
            &&& !known.contains_key(id) ==> s.entries[i].bookmark_name is None
                && s.entries[i].freq_hz is None && s.entries[i].mode is None
                && s.entries[i].decoder_kinds.len() == 0
        }),
{
}

/// Two channels are the same for the manager where rig, bookmark, frequency, mode, bandwidth and
/// decoders agree.
pub proof fn same_channels_receive_the_same(a: ChannelView, b: ChannelView)
    ensures
        same_channel(a, b) <==> a.rig_id == b.rig_id && a.bookmark_id == b.bookmark_id && a.freq_hz
            == b.freq_hz && a.mode == b.mode && a.bandwidth_hz == b.bandwidth_hz && a.decoder_kinds
            == b.decoder_kinds,
{
    if a.rig_id == b.rig_id && a.bookmark_id == b.bookmark_id && a.freq_hz == b.freq_hz && a.mode
        == b.mode && a.bandwidth_hz == b.bandwidth_hz && a.decoder_kinds == b.decoder_kinds {
        assert(ChannelView { uuid: b.uuid, ..a } =~= b);
    }
}

/// What a channel, a bookmark's state and a status are told by is all of their fields.
pub proof fn channels_and_states_in_full(
    c: VirtualBackgroundDecodeChannel,
    e: BackgroundDecodeBookmarkStatus,
    s: BackgroundDecodeStatus,
)
    ensures
        c@.uuid == c.uuid && c@.rig_id == c.rig_id@ && c@.bookmark_id == c.bookmark_id@ && c@.freq_hz
            == c.freq_hz && c@.mode == c.mode@ && c@.bandwidth_hz == c.bandwidth_hz
            && c@.decoder_kinds == list_view(c.decoder_kinds@),
        e@.bookmark_id == e.bookmark_id@ && e@.bookmark_name == opt_view(e.bookmark_name) && e@.freq_hz
            == e.freq_hz && e@.mode == opt_view(e.mode) && e@.decoder_kinds == list_view(
            e.decoder_kinds@,
        ) && e@.state == e.state@ && e@.channel_kind == opt_view(e.channel_kind),
        s@.rig_id == s.rig_id@ && s@.enabled == s.enabled && s@.active_rig == s.active_rig
            && s@.center_hz == s.center_hz && s@.sample_rate == s.sample_rate && s@.entries.len()
            == s.entries@.len(),
        forall|i: int|
            0 <= i < s.entries@.len() ==> #[trigger] s@.entries[i] == s.entries@[i]@,
{
}

/// A bookmark is known by its id with all that it says; of several with one id the last counts.
pub proof fn known_bookmarks_are_those_of_the_rig(input: ReconcileInput, i: int)
    requires
        0 <= i < input.bookmarks@.len(),
        forall|j: int|
            i < j < input.bookmarks@.len() ==> (#[trigger] input.bookmarks@[j]).id@
                != input.bookmarks@[i].id@,
    ensures
        ({
            let b = input.bookmarks@[i];
            let k = input.known()[b.id@];
            &&& input.known().contains_key(b.id@)
            &&& k.id == b.id@
            &&& k.name == b.name@
            &&& k.freq_hz == b.freq_hz
            &&& k.mode == b.mode@
            &&& k.bandwidth_hz == b.bandwidth_hz
            &&& k.decoders == list_view(b.decoders@)
        }),
{
    let views = bookmark_views(input.bookmarks@);
    assert(views[i] == input.bookmarks@[i]@);
    assert forall|j: int| i < j < views.len() implies (#[trigger] views[j]).id != views[i].id by {
        assert(views[j] == input.bookmarks@[j]@);
    }
    last_of_an_id_counts(views, i);
}

} // verus!
