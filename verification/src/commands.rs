//! Commands to a rig, and the requests that give rise to them.
use vstd::prelude::*;

use crate::bookmarks::{BookmarkStoreMap, BookmarkView};
use crate::decoders::{bookmark_decoder_state, decoder_state_of, DecoderState};
use crate::http_reply::HttpError;
use crate::text::{join2, lowered, opt_view, str_eq, to_lower};

verus! {

/// The decoders of a rig.
#[derive(Clone, Copy, Debug, PartialEq, Eq, Structural)]
pub enum Decoder {
    Aprs,
    HfAprs,
    Cw,
    Ft8,
    Ft4,
    Ft2,
    Wspr,
    Wxsat,
    Lrpt,
    Wefax,
}

/// A command to a rig. Frequencies are in hertz.
#[derive(Debug, PartialEq, Eq)]
pub enum RigCommand {
    PowerOn,
    PowerOff,
    ToggleVfo,
    Lock,
    Unlock,
    SetFreq(u64),
    SetCenterFreq(u64),
    SetMode(String),
    SetPtt(bool),
    SetTxLimit(u8),
    SetBandwidth(u32),
    SetSdrAgc(bool),
    SetWfmDeemphasis(u32),
    SetWfmStereo(bool),
    SetSamCarrierSync(bool),
    SetCwAuto(bool),
    SetCwWpm(u32),
    SetCwToneHz(u32),
    SetDecode { decoder: Decoder, enabled: bool },
    ResetDecoder(Decoder),
    SetRecorderEnabled(bool),
}

/// What a command says.
#[verifier::ext_equal]
pub enum CommandView {
    PowerOn,
    PowerOff,
    ToggleVfo,
    Lock,
    Unlock,
    SetFreq(u64),
    SetCenterFreq(u64),
    SetMode(Seq<char>),
    SetPtt(bool),
    SetTxLimit(u8),
    SetBandwidth(u32),
    SetSdrAgc(bool),
    SetWfmDeemphasis(u32),
    SetWfmStereo(bool),
    SetSamCarrierSync(bool),
    SetCwAuto(bool),
    SetCwWpm(u32),
    SetCwToneHz(u32),
    SetDecode { decoder: Decoder, enabled: bool },
    ResetDecoder(Decoder),
    SetRecorderEnabled(bool),
}

impl View for RigCommand {
    type V = CommandView;

    open spec fn view(&self) -> CommandView {
        match self {
            RigCommand::PowerOn => CommandView::PowerOn,
            RigCommand::PowerOff => CommandView::PowerOff,
            RigCommand::ToggleVfo => CommandView::ToggleVfo,
            RigCommand::Lock => CommandView::Lock,
            RigCommand::Unlock => CommandView::Unlock,
            RigCommand::SetFreq(hz) => CommandView::SetFreq(*hz),
            RigCommand::SetCenterFreq(hz) => CommandView::SetCenterFreq(*hz),
            RigCommand::SetMode(mode) => CommandView::SetMode(mode@),
            RigCommand::SetPtt(on) => CommandView::SetPtt(*on),
            RigCommand::SetTxLimit(limit) => CommandView::SetTxLimit(*limit),
            RigCommand::SetBandwidth(hz) => CommandView::SetBandwidth(*hz),
            RigCommand::SetSdrAgc(on) => CommandView::SetSdrAgc(*on),
            RigCommand::SetWfmDeemphasis(us) => CommandView::SetWfmDeemphasis(*us),
            RigCommand::SetWfmStereo(on) => CommandView::SetWfmStereo(*on),
            RigCommand::SetSamCarrierSync(on) => CommandView::SetSamCarrierSync(*on),
            RigCommand::SetCwAuto(on) => CommandView::SetCwAuto(*on),
            RigCommand::SetCwWpm(wpm) => CommandView::SetCwWpm(*wpm),
            RigCommand::SetCwToneHz(hz) => CommandView::SetCwToneHz(*hz),
            RigCommand::SetDecode { decoder, enabled } => CommandView::SetDecode {
                decoder: *decoder,
                enabled: *enabled,
            },
            RigCommand::ResetDecoder(decoder) => CommandView::ResetDecoder(*decoder),
            RigCommand::SetRecorderEnabled(on) => CommandView::SetRecorderEnabled(*on),
        }
    }
}

/// What a list of commands says.
pub open spec fn command_views(cmds: Seq<RigCommand>) -> Seq<CommandView> {
    cmds.map_values(|c: RigCommand| c@)
}

/// A command and the rig it is for; the selected one where none is named.
#[derive(Debug)]
pub struct RigCall {
    pub cmd: RigCommand,
    pub remote: Option<String>,
}

// ---------------------------------------------------------------------------------------------
// Requests
// ---------------------------------------------------------------------------------------------

/// A request that names at most a rig.
#[derive(Debug)]
pub struct RemoteQuery {
    pub remote: Option<String>,
}

/// A request for the state of a rig.
#[derive(Debug)]
pub struct StatusQuery {
    pub remote: Option<String>,
}

/// A request for the events of a rig.
#[derive(Debug)]
pub struct EventsQuery {
    pub remote: Option<String>,
}

/// A request to set a frequency.
#[derive(Debug)]
pub struct FreqQuery {
    pub hz: u64,
    pub remote: Option<String>,
}

/// A request to set the mode.
#[derive(Debug)]
pub struct ModeQuery {
    pub mode: String,
    pub remote: Option<String>,
}

/// A request to start or stop transmitting.
#[derive(Debug)]
pub struct PttQuery {
    pub ptt: String,
    pub remote: Option<String>,
}

/// A request to set the transmit limit.
#[derive(Debug)]
pub struct TxLimitQuery {
    pub limit: u8,
    pub remote: Option<String>,
}

/// A request to set the filter bandwidth.
#[derive(Debug)]
pub struct BandwidthQuery {
    pub hz: u32,
    pub remote: Option<String>,
}

/// A request to switch the gain control of a receiver.
#[derive(Debug)]
pub struct SdrAgcQuery {
    pub enabled: bool,
    pub remote: Option<String>,
}

/// A request to set the de-emphasis time of wide FM.
#[derive(Debug)]
pub struct WfmDeemphasisQuery {
    pub us: u32,
    pub remote: Option<String>,
}

/// A request to switch the stereo of wide FM.
#[derive(Debug)]
pub struct WfmStereoQuery {
    pub enabled: bool,
    pub remote: Option<String>,
}

/// A request to switch the carrier synchronisation of synchronous AM.
#[derive(Debug)]
pub struct SamCarrierSyncQuery {
    pub enabled: bool,
    pub remote: Option<String>,
}

/// A request to switch the automatic settings of the Morse decoder.
#[derive(Debug)]
pub struct CwAutoQuery {
    pub enabled: bool,
    pub remote: Option<String>,
}

/// A request to set the speed of the Morse decoder.
#[derive(Debug)]
pub struct CwWpmQuery {
    pub wpm: u32,
    pub remote: Option<String>,
}

/// A request to set the tone of the Morse decoder.
#[derive(Debug)]
pub struct CwToneQuery {
    pub tone_hz: u32,
    pub remote: Option<String>,
}

/// Switches the power: on, unless it is known to be on.
pub fn toggle_power(enabled: Option<bool>, query: RemoteQuery) -> (res: RigCall)
    ensures
        res.remote == query.remote,
        res.cmd@ == (if enabled == Some(true) {
            CommandView::PowerOff
        } else {
            CommandView::PowerOn
        }),
{
    let on = match enabled {
        Some(e) => e,
        None => false,
    };
    RigCall {
        cmd: if on {
            RigCommand::PowerOff
        } else {
            RigCommand::PowerOn
        },
        remote: query.remote,
    }
}

/// Changes to the other VFO.
pub fn toggle_vfo(query: RemoteQuery) -> (res: RigCall)
    ensures
        res.remote == query.remote,
        res.cmd@ == CommandView::ToggleVfo,
{
    RigCall { cmd: RigCommand::ToggleVfo, remote: query.remote }
}

/// Locks the panel.
pub fn lock_panel(query: RemoteQuery) -> (res: RigCall)
    ensures
        res.remote == query.remote,
        res.cmd@ == CommandView::Lock,
{
    RigCall { cmd: RigCommand::Lock, remote: query.remote }
}

/// Unlocks the panel.
pub fn unlock_panel(query: RemoteQuery) -> (res: RigCall)
    ensures
        res.remote == query.remote,
        res.cmd@ == CommandView::Unlock,
{
    RigCall { cmd: RigCommand::Unlock, remote: query.remote }
}

/// Sets the frequency.
pub fn set_freq(query: FreqQuery) -> (res: RigCall)
    ensures
        res.remote == query.remote,
        res.cmd@ == CommandView::SetFreq(query.hz),
{
    RigCall { cmd: RigCommand::SetFreq(query.hz), remote: query.remote }
}

/// Sets the center frequency.
pub fn set_center_freq(query: FreqQuery) -> (res: RigCall)
    ensures
        res.remote == query.remote,
        res.cmd@ == CommandView::SetCenterFreq(query.hz),
{
    RigCall { cmd: RigCommand::SetCenterFreq(query.hz), remote: query.remote }
}

/// Sets the mode.
pub fn set_mode(query: ModeQuery) -> (res: RigCall)
    ensures
        res.remote == query.remote,
        res.cmd@ == CommandView::SetMode(query.mode@),
{
    RigCall { cmd: RigCommand::SetMode(query.mode), remote: query.remote }
}

/// What a transmit switch says: on or off, or the text of an error. Case does not count.
pub open spec fn ptt_of(s: Seq<char>) -> Result<bool, Seq<char>> {
    let v = lowered(s);
    if v == "1"@ || v == "true"@ || v == "on"@ {
        Ok(true)
    } else if v == "0"@ || v == "false"@ || v == "off"@ {
        Ok(false)
    } else {
        Err("invalid ptt parameter: "@ + v)
    }
}

/// Starts or stops transmitting; what cannot be read is a bad request.
pub fn set_ptt(query: PttQuery) -> (res: Result<RigCall, HttpError>)
    ensures
        match ptt_of(query.ptt@) {
            Ok(on) => res matches Ok(call) && call.cmd@ == CommandView::SetPtt(on) && call.remote
                == query.remote,
            Err(m) => res matches Err(e) && e.status == 400 && e.text@ == m,
        },
{
    let v = to_lower(query.ptt.as_str());
    let s = v.as_str();
    if str_eq(s, "1") || str_eq(s, "true") || str_eq(s, "on") {
        Ok(RigCall { cmd: RigCommand::SetPtt(true), remote: query.remote })
    } else if str_eq(s, "0") || str_eq(s, "false") || str_eq(s, "off") {
        Ok(RigCall { cmd: RigCommand::SetPtt(false), remote: query.remote })
    } else {
        Err(HttpError { status: 400, text: join2("invalid ptt parameter: ", s) })
    }
}

/// Sets the transmit limit.
pub fn set_tx_limit(query: TxLimitQuery) -> (res: RigCall)
    ensures
        res.remote == query.remote,
        res.cmd@ == CommandView::SetTxLimit(query.limit),
{
    RigCall { cmd: RigCommand::SetTxLimit(query.limit), remote: query.remote }
}

/// Sets the filter bandwidth.
pub fn set_bandwidth(query: BandwidthQuery) -> (res: RigCall)
    ensures
        res.remote == query.remote,
        res.cmd@ == CommandView::SetBandwidth(query.hz),
{
    RigCall { cmd: RigCommand::SetBandwidth(query.hz), remote: query.remote }
}

/// Switches the gain control of a receiver.
pub fn set_sdr_agc(query: SdrAgcQuery) -> (res: RigCall)
    ensures
        res.remote == query.remote,
        res.cmd@ == CommandView::SetSdrAgc(query.enabled),
{
    RigCall { cmd: RigCommand::SetSdrAgc(query.enabled), remote: query.remote }
}

/// Sets the de-emphasis time of wide FM.
pub fn set_wfm_deemphasis(query: WfmDeemphasisQuery) -> (res: RigCall)
    ensures
        res.remote == query.remote,
        res.cmd@ == CommandView::SetWfmDeemphasis(query.us),
{
    RigCall { cmd: RigCommand::SetWfmDeemphasis(query.us), remote: query.remote }
}

/// Switches the stereo of wide FM.
pub fn set_wfm_stereo(query: WfmStereoQuery) -> (res: RigCall)
    ensures
        res.remote == query.remote,
        res.cmd@ == CommandView::SetWfmStereo(query.enabled),
{
    RigCall { cmd: RigCommand::SetWfmStereo(query.enabled), remote: query.remote }
}

/// Switches the carrier synchronisation of synchronous AM.
pub fn set_sam_carrier_sync(query: SamCarrierSyncQuery) -> (res: RigCall)
    ensures
        res.remote == query.remote,
        res.cmd@ == CommandView::SetSamCarrierSync(query.enabled),
{
    RigCall { cmd: RigCommand::SetSamCarrierSync(query.enabled), remote: query.remote }
}

/// Switches the automatic settings of the Morse decoder.
pub fn set_cw_auto(query: CwAutoQuery) -> (res: RigCall)
    ensures
        res.remote == query.remote,
        res.cmd@ == CommandView::SetCwAuto(query.enabled),
{
    RigCall { cmd: RigCommand::SetCwAuto(query.enabled), remote: query.remote }
}

/// Sets the speed of the Morse decoder.
pub fn set_cw_wpm(query: CwWpmQuery) -> (res: RigCall)
    ensures
        res.remote == query.remote,
        res.cmd@ == CommandView::SetCwWpm(query.wpm),
{
    RigCall { cmd: RigCommand::SetCwWpm(query.wpm), remote: query.remote }
}

/// Sets the tone of the Morse decoder.
pub fn set_cw_tone(query: CwToneQuery) -> (res: RigCall)
    ensures
        res.remote == query.remote,
        res.cmd@ == CommandView::SetCwToneHz(query.tone_hz),
{
    RigCall { cmd: RigCommand::SetCwToneHz(query.tone_hz), remote: query.remote }
}

/// Switches a decoder off where it is on, and on where it is off.
pub fn toggle_decode(decoder: Decoder, enabled: bool, query: RemoteQuery) -> (res: RigCall)
    ensures
        res.remote == query.remote,
        res.cmd@ == (CommandView::SetDecode { decoder, enabled: !enabled }),
{
    RigCall { cmd: RigCommand::SetDecode { decoder, enabled: !enabled }, remote: query.remote }
}

/// Clears a decoder.
pub fn clear_decode(decoder: Decoder, query: RemoteQuery) -> (res: RigCall)
    ensures
        res.remote == query.remote,
        res.cmd@ == CommandView::ResetDecoder(decoder),
{
    RigCall { cmd: RigCommand::ResetDecoder(decoder), remote: query.remote }
}

// ---------------------------------------------------------------------------------------------
// Tuning to a channel
// ---------------------------------------------------------------------------------------------

/// A channel that a user has chosen.
#[derive(Debug)]
pub struct SelectedChannel {
    pub freq_hz: u64,
    pub mode: String,
    pub bandwidth_hz: u32,
    pub scheduler_bookmark_id: Option<String>,
}

/// The commands that switch the decoders of a channel.
pub open spec fn decoder_commands(d: DecoderState) -> Seq<CommandView> {
    seq![
        CommandView::SetDecode { decoder: Decoder::Aprs, enabled: d.aprs },
        CommandView::SetDecode { decoder: Decoder::HfAprs, enabled: d.hf_aprs },
        CommandView::SetDecode { decoder: Decoder::Ft8, enabled: d.ft8 },
        CommandView::SetDecode { decoder: Decoder::Ft4, enabled: d.ft4 },
        CommandView::SetDecode { decoder: Decoder::Ft2, enabled: d.ft2 },
        CommandView::SetDecode { decoder: Decoder::Wspr, enabled: d.wspr },
        CommandView::SetDecode { decoder: Decoder::Lrpt, enabled: d.lrpt },
    ]
}

/// The commands that tune a rig to a chosen channel: mode, bandwidth where it has one, frequency,
/// and, where a bookmark belongs to it, the bookmark's decoders.
pub open spec fn channel_commands(
    channel: SelectedChannel,
    bookmark: Option<BookmarkView>,
) -> Seq<CommandView> {
    seq![CommandView::SetMode(channel.mode@)] + (if channel.bandwidth_hz > 0 {
        seq![CommandView::SetBandwidth(channel.bandwidth_hz)]
    } else {
        Seq::empty()
    }) + seq![CommandView::SetFreq(channel.freq_hz)] + (match bookmark {
        Some(b) => decoder_commands(decoder_state_of(b.mode, b.decoders)),
        None => Seq::empty(),
    })
}

/// The bookmark that belongs to a chosen channel on a rig.
pub open spec fn channel_bookmark(
    stores: BookmarkStoreMap,
    remote: Seq<char>,
    channel: SelectedChannel,
) -> Option<BookmarkView> {
    match opt_view(channel.scheduler_bookmark_id) {
        Some(id) => stores.found_for_rig(remote, id),
        None => None,
    }
}

/// The commands that tune a rig to a chosen channel.
pub fn apply_selected_channel(
    remote: &str,
    channel: &SelectedChannel,
    stores: &BookmarkStoreMap,
) -> (res: Vec<RigCommand>)
    requires
        stores.wf(),
    ensures
        command_views(res@) == channel_commands(
            *channel,
            channel_bookmark(*stores, remote@, *channel),
        ),
{
    let bookmark = match &channel.scheduler_bookmark_id {
        Some(id) => stores.get_for_rig(remote, id.as_str()),
        None => None,
    };
    let mut out: Vec<RigCommand> = Vec::new();
    out.push(RigCommand::SetMode(channel.mode.clone()));
    if channel.bandwidth_hz > 0 {
        out.push(RigCommand::SetBandwidth(channel.bandwidth_hz));
    }
    out.push(RigCommand::SetFreq(channel.freq_hz));
    match &bookmark {
        Some(b) => {
            let d = bookmark_decoder_state(b.mode.as_str(), &b.decoders);
            out.push(RigCommand::SetDecode { decoder: Decoder::Aprs, enabled: d.aprs });
            out.push(RigCommand::SetDecode { decoder: Decoder::HfAprs, enabled: d.hf_aprs });
            out.push(RigCommand::SetDecode { decoder: Decoder::Ft8, enabled: d.ft8 });
            out.push(RigCommand::SetDecode { decoder: Decoder::Ft4, enabled: d.ft4 });
            out.push(RigCommand::SetDecode { decoder: Decoder::Ft2, enabled: d.ft2 });
            out.push(RigCommand::SetDecode { decoder: Decoder::Wspr, enabled: d.wspr });
            out.push(RigCommand::SetDecode { decoder: Decoder::Lrpt, enabled: d.lrpt });
        },
        None => {},
    }
    assert(command_views(out@) =~= channel_commands(
        *channel,
        channel_bookmark(*stores, remote@, *channel),
    ));
    out
}

/// A command is seen as what it is.
pub proof fn rig_commands_as_they_are(
    hz: u64,
    n: u32,
    limit: u8,
    on: bool,
    mode: String,
    decoder: Decoder,
)
    ensures
        RigCommand::PowerOn@ == CommandView::PowerOn,
        RigCommand::PowerOff@ == CommandView::PowerOff,
        RigCommand::ToggleVfo@ == CommandView::ToggleVfo,
        RigCommand::Lock@ == CommandView::Lock,
        RigCommand::Unlock@ == CommandView::Unlock,
        RigCommand::SetFreq(hz)@ == CommandView::SetFreq(hz),
        RigCommand::SetCenterFreq(hz)@ == CommandView::SetCenterFreq(hz),
        RigCommand::SetMode(mode)@ == CommandView::SetMode(mode@),
        RigCommand::SetPtt(on)@ == CommandView::SetPtt(on),
        RigCommand::SetTxLimit(limit)@ == CommandView::SetTxLimit(limit),
        RigCommand::SetBandwidth(n)@ == CommandView::SetBandwidth(n),
        RigCommand::SetSdrAgc(on)@ == CommandView::SetSdrAgc(on),
        RigCommand::SetWfmDeemphasis(n)@ == CommandView::SetWfmDeemphasis(n),
        RigCommand::SetWfmStereo(on)@ == CommandView::SetWfmStereo(on),
        RigCommand::SetSamCarrierSync(on)@ == CommandView::SetSamCarrierSync(on),
        RigCommand::SetCwAuto(on)@ == CommandView::SetCwAuto(on),
        RigCommand::SetCwWpm(n)@ == CommandView::SetCwWpm(n),
        RigCommand::SetCwToneHz(n)@ == CommandView::SetCwToneHz(n),
        (RigCommand::SetDecode { decoder, enabled: on })@ == (CommandView::SetDecode {
            decoder,
            enabled: on,
        }),
        RigCommand::ResetDecoder(decoder)@ == CommandView::ResetDecoder(decoder),
        RigCommand::SetRecorderEnabled(on)@ == CommandView::SetRecorderEnabled(on),
{
}

/// The commands are seen one by one, in their order.
pub proof fn command_lists_in_order(cmds: Seq<RigCommand>, i: int)
    ensures
        command_views(cmds).len() == cmds.len(),
        0 <= i < cmds.len() ==> command_views(cmds)[i] == cmds[i]@,
{
}

/// Transmission is keyed by `1`, `true` and `on`, ended by `0`, `false` and `off`, in capitals or not,
/// and nothing else is taken.
pub proof fn words_for_transmission(s: Seq<char>)
    ensures
        ptt_of(s) == Ok::<bool, Seq<char>>(true) <==> lowered(s) == "1"@ || lowered(s) == "true"@
            || lowered(s) == "on"@,
        ptt_of(s) == Ok::<bool, Seq<char>>(false) <==> lowered(s) == "0"@ || lowered(s) == "false"@
            || lowered(s) == "off"@,
        ptt_of(s) matches Err(m) ==> m == "invalid ptt parameter: "@ + lowered(s),
{
    reveal_strlit("1");
    reveal_strlit("true");
    reveal_strlit("on");
    reveal_strlit("0");
    reveal_strlit("false");
    reveal_strlit("off");
    assert("0"@[0] != "1"@[0]);
    assert("off"@.len() == 3 && "false"@.len() == 5);
}

/// A selected channel is tuned mode first, a bandwidth next where it has one, the frequency last;
/// the decoders follow where it belongs to a bookmark.
pub proof fn selected_channels_are_tuned(
    channel: SelectedChannel,
    b: BookmarkView,
)
    ensures
        ({
            let plain = channel_commands(channel, None);
            let full = channel_commands(channel, Some(b));
            let d = full.skip(plain.len() as int);
            let state = decoder_state_of(b.mode, b.decoders);
            &&& plain[0] == CommandView::SetMode(channel.mode@)
            &&& channel.bandwidth_hz > 0 ==> plain.len() == 3 && plain[1]
                == CommandView::SetBandwidth(channel.bandwidth_hz)
            &&& channel.bandwidth_hz == 0 ==> plain.len() == 2
            &&& plain.last() == CommandView::SetFreq(channel.freq_hz)
            &&& full.take(plain.len() as int) == plain
            &&& d.len() == 7
            &&& d[0] == (CommandView::SetDecode { decoder: Decoder::Aprs, enabled: state.aprs })
            &&& d[1] == (CommandView::SetDecode { decoder: Decoder::HfAprs, enabled: state.hf_aprs })
            &&& d[2] == (CommandView::SetDecode { decoder: Decoder::Ft8, enabled: state.ft8 })
            &&& d[3] == (CommandView::SetDecode { decoder: Decoder::Ft4, enabled: state.ft4 })
            &&& d[4] == (CommandView::SetDecode { decoder: Decoder::Ft2, enabled: state.ft2 })
            &&& d[5] == (CommandView::SetDecode { decoder: Decoder::Wspr, enabled: state.wspr })
            &&& d[6] == (CommandView::SetDecode { decoder: Decoder::Lrpt, enabled: state.lrpt })
        }),
{
    let plain = channel_commands(channel, None);
    let full = channel_commands(channel, Some(b));
    assert(full =~= plain + decoder_commands(decoder_state_of(b.mode, b.decoders)));
    assert(full.take(plain.len() as int) =~= plain);
}

/// A channel belongs to the bookmark that the scheduler made it for, as the rig finds it.
pub proof fn bookmarks_of_selected_channels(
    stores: BookmarkStoreMap,
    remote: Seq<char>,
    channel: SelectedChannel,
)
    ensures
        channel.scheduler_bookmark_id is None ==> channel_bookmark(stores, remote, channel) is None,
        channel.scheduler_bookmark_id matches Some(id) ==> channel_bookmark(stores, remote, channel)
            == stores.found_for_rig(remote, id@),
{
}

} // verus!
