//! Audio over a WebSocket.
use vstd::prelude::*;

use crate::text::{join2, opt_view, own};

verus! {

/// A request for audio.
#[derive(Debug)]
pub struct AudioQuery {
    /// The virtual channel whose audio is wanted.
    pub channel_id: Option<u128>,
    /// The rig whose audio is wanted.
    pub remote: Option<String>,
}

/// Which audio a request is for.
#[derive(Debug)]
pub enum AudioTarget {
    /// That of a virtual channel; its parameters are those of the rig, where one is named.
    Channel { id: u128, info_of: Option<String> },
    /// That of a rig, and no other.
    Rig(String),
    /// That of the selected rig.
    Selected,
}

/// What an answer that ends a request says.
#[derive(Debug)]
pub struct AudioRefusal {
    pub status: u16,
    pub text: Option<String>,
}

/// What ends a request before any audio: no audio is sent at all, or the browser only asks whether
/// there is any.
pub fn audio_probe(audio_enabled: bool, wants_upgrade: bool) -> (res: Option<AudioRefusal>)
    ensures
        match res {
            Some(r) => if audio_enabled {
                !wants_upgrade && r.status == 204 && r.text is None
            } else {
                r.status == 404 && opt_view(r.text) == Some("audio not enabled"@)
            },
            None => audio_enabled && wants_upgrade,
        },
{
    if !audio_enabled {
        Some(AudioRefusal { status: 404, text: Some(own("audio not enabled")) })
    } else if !wants_upgrade {
        Some(AudioRefusal { status: 204, text: None })
    } else {
        None
    }
}

/// Which audio a request is for: that of a channel before that of a rig, and that of the selected rig
/// where neither is named.
pub open spec fn target_of(query: AudioQuery) -> AudioTarget {
    match query.channel_id {
        Some(id) => AudioTarget::Channel { id, info_of: query.remote },
        None => match query.remote {
            Some(r) => AudioTarget::Rig(r),
            None => AudioTarget::Selected,
        },
    }
}

/// Which audio a request is for.
pub fn audio_target(query: AudioQuery) -> (res: AudioTarget)
    ensures
        res == target_of(query),
{
    match query.channel_id {
        Some(id) => AudioTarget::Channel { id, info_of: query.remote },
        None => match query.remote {
            Some(r) => AudioTarget::Rig(r),
            None => AudioTarget::Selected,
        },
    }
}

/// What is done while the audio of a target is waited for.
#[derive(Debug)]
pub enum TargetStep {
    /// It is there.
    Go,
    /// It is looked for again after so many milliseconds.
    Retry(u64),
    Refuse(AudioRefusal),
}

/// What is waited for.
#[derive(Debug)]
pub struct TargetState {
    /// The stream is there.
    pub has_stream: bool,
    /// Its parameters can be had.
    pub has_info: bool,
    /// How long it has been waited for, in milliseconds.
    pub waited_ms: u64,
}

/// What is done next: a channel is waited for for two seconds, a rig for three, and the audio of the
/// selected rig not at all.
pub fn target_step(target: &AudioTarget, state: &TargetState) -> (res: TargetStep)
    ensures
        res is Go <==> is_ready(*state),
        res is Retry <==> !is_ready(*state) && may_wait(*target, *state),
        res matches TargetStep::Retry(ms) ==> ms == pause_ms(*target),
        match target {
            AudioTarget::Channel { .. } => if !state.has_info {
                res matches TargetStep::Refuse(r) && r.status == 404 && opt_view(r.text) == Some(
                    "audio not enabled"@,
                )
            } else if state.has_stream {
                res is Go
            } else if state.waited_ms >= 2000 {
                res matches TargetStep::Refuse(r) && r.status == 404 && opt_view(r.text) == Some(
                    "channel not found"@,
                )
            } else {
                res == TargetStep::Retry(50)
            },
            AudioTarget::Rig(rig) => if state.has_stream && state.has_info {
                res is Go
            } else if state.waited_ms >= 3000 {
                res matches TargetStep::Refuse(r) && r.status == 404 && opt_view(r.text) == Some(
                    "audio not available for rig "@ + rig@,
                )
            } else {
                res == TargetStep::Retry(100)
            },
            AudioTarget::Selected => if state.has_stream && state.has_info {
                res is Go
            } else {
                res matches TargetStep::Refuse(r) && r.status == 404 && opt_view(r.text) == Some(
                    "audio not enabled"@,
                )
            },
        },
{
    match target {
        AudioTarget::Channel { .. } => if !state.has_info {
            TargetStep::Refuse(AudioRefusal { status: 404, text: Some(own("audio not enabled")) })
        } else if state.has_stream {
            TargetStep::Go
        } else if state.waited_ms >= 2000 {
            TargetStep::Refuse(AudioRefusal { status: 404, text: Some(own("channel not found")) })
        } else {
            TargetStep::Retry(50)
        },
        AudioTarget::Rig(rig) => if state.has_stream && state.has_info {
            TargetStep::Go
        } else if state.waited_ms >= 3000 {
            TargetStep::Refuse(
                AudioRefusal {
                    status: 404,
                    text: Some(join2("audio not available for rig ", rig.as_str())),
                },
            )
        } else {
            TargetStep::Retry(100)
        },
        AudioTarget::Selected => if state.has_stream && state.has_info {
            TargetStep::Go
        } else {
            TargetStep::Refuse(AudioRefusal { status: 404, text: Some(own("audio not enabled")) })
        },
    }
}

/// A request for the audio of a rig is never given that of another.
pub proof fn rig_audio_does_not_fall_back(query: AudioQuery, rig: Seq<char>)
    requires
        query.channel_id is None,
        opt_view(query.remote) == Some(rig),
    ensures
        target_of(query) matches AudioTarget::Rig(r) && r@ == rig,
{
}

// ---------------------------------------------------------------------------------------------
// The connection
// ---------------------------------------------------------------------------------------------

/// The parameters of a stream, as a browser is told of them.
#[derive(Clone, Copy, Debug, PartialEq, Eq, Structural)]
pub struct AudioStreamInfo {
    pub sample_rate: u32,
    pub channels: u8,
    pub frame_duration_ms: u16,
    pub bitrate_bps: u32,
}

/// What happens on a connection.
#[derive(Debug)]
pub enum WsEvent {
    /// The parameters of the stream may have changed; they may not be known.
    Info(Option<AudioStreamInfo>),
    /// The parameters will not be known any more.
    InfoClosed,
    /// A packet of the stream.
    Packet(Vec<u8>),
    /// Packets were dropped.
    Lagged,
    /// The stream has ended.
    StreamClosed,
    /// The browser has sent audio.
    Binary(Vec<u8>),
    /// The browser has sent something else.
    Ignored,
    /// The browser has gone, or cannot be understood.
    Gone,
}

/// What is done on a connection.
#[derive(Debug)]
pub enum WsAction {
    /// The browser is told the parameters.
    SendInfo(AudioStreamInfo),
    /// The browser is sent a packet.
    SendPacket(Vec<u8>),
    /// The rig is sent what the browser has sent.
    Transmit(Vec<u8>),
    Wait,
    Close,
}

/// A connection on which the browser has been told the parameters of the stream.
#[derive(Debug)]
pub struct AudioFeed {
    pub current: AudioStreamInfo,
}

impl AudioFeed {
    /// What is done on an event.
    pub open spec fn reaction(&self, event: WsEvent) -> WsAction {
        match event {
            WsEvent::Info(Some(info)) => if info != self.current {
                WsAction::SendInfo(info)
            } else {
                WsAction::Wait
            },
            WsEvent::Packet(data) => WsAction::SendPacket(data),
            WsEvent::Binary(data) => WsAction::Transmit(data),
            WsEvent::Info(None) | WsEvent::Lagged | WsEvent::Ignored => WsAction::Wait,
            WsEvent::InfoClosed | WsEvent::StreamClosed | WsEvent::Gone => WsAction::Close,
        }
    }

    /// The feed after an event.
    pub open spec fn after(&self, event: WsEvent) -> AudioFeed {
        match event {
            WsEvent::Info(Some(info)) => AudioFeed { current: info },
            _ => *self,
        }
    }

    /// What is done about an event. The browser is told the parameters again when they change.
    pub fn on_event(&mut self, event: WsEvent) -> (res: WsAction)
        ensures
            res == (match event {
                WsEvent::Info(Some(info)) => if info != old(self).current {
                    WsAction::SendInfo(info)
                } else {
                    WsAction::Wait
                },
                WsEvent::Info(None) => WsAction::Wait,
                WsEvent::InfoClosed => WsAction::Close,
                WsEvent::Packet(data) => WsAction::SendPacket(data),
                WsEvent::Lagged => WsAction::Wait,
                WsEvent::StreamClosed => WsAction::Close,
                WsEvent::Binary(data) => WsAction::Transmit(data),
                WsEvent::Ignored => WsAction::Wait,
                WsEvent::Gone => WsAction::Close,
            }),
            final(self).current == (match event {
                WsEvent::Info(Some(info)) => info,
                _ => old(self).current,
            }),
            res == old(self).reaction(event),
            *final(self) == old(self).after(event),
    {
        match event {
            WsEvent::Info(Some(info)) => {
                let changed = info.sample_rate != self.current.sample_rate || info.channels
                    != self.current.channels || info.frame_duration_ms
                    != self.current.frame_duration_ms || info.bitrate_bps
                    != self.current.bitrate_bps;
                if changed {
                    self.current = info;
                    WsAction::SendInfo(info)
                } else {
                    WsAction::Wait
                }
            },
            WsEvent::Info(None) => WsAction::Wait,
            WsEvent::InfoClosed => WsAction::Close,
            WsEvent::Packet(data) => WsAction::SendPacket(data),
            WsEvent::Lagged => WsAction::Wait,
            WsEvent::StreamClosed => WsAction::Close,
            WsEvent::Binary(data) => WsAction::Transmit(data),
            WsEvent::Ignored => WsAction::Wait,
            WsEvent::Gone => WsAction::Close,
        }
    }
}

/// A request for audio is for the channel it names, else for the rig it names, else for the selected
/// rig.
pub proof fn audio_that_is_asked_for(query: AudioQuery)
    ensures
        query.channel_id matches Some(id) ==> target_of(query) == (AudioTarget::Channel {
            id,
            info_of: query.remote,
        }),
        query.channel_id is None && query.remote is Some ==> target_of(query) == AudioTarget::Rig(
            query.remote->0,
        ),
        query.channel_id is None && query.remote is None ==> target_of(query)
            == AudioTarget::Selected,
{
}

/// Whether a stream can be sent: it is there, and what it is like is known.
pub open spec fn is_ready(state: TargetState) -> bool {
    state.has_stream && state.has_info
}

/// Whether a stream that is not there yet is waited for: a channel's for two seconds, a rig's for
/// three, and the selected one not at all.
pub open spec fn may_wait(target: AudioTarget, state: TargetState) -> bool {
    match target {
        AudioTarget::Channel { .. } => state.has_info && state.waited_ms < 2000,
        AudioTarget::Rig(_) => state.waited_ms < 3000,
        AudioTarget::Selected => false,
    }
}

/// How long is waited before it is looked for again.
pub open spec fn pause_ms(target: AudioTarget) -> u64 {
    match target {
        AudioTarget::Channel { .. } => 50,
        _ => 100,
    }
}

/// A stream is looked for forty times at most where it is that of a channel, and thirty times where it
/// is that of a rig. Once waiting has ended it does not start again.
pub proof fn waiting_comes_to_an_end(target: AudioTarget, state: TargetState, later: TargetState)
    requires
        later.has_info == state.has_info,
        state.waited_ms <= later.waited_ms,
    ensures
        !may_wait(target, state) ==> !may_wait(target, later),
        target is Selected ==> !may_wait(target, state),
        target is Channel && state.has_info ==> (may_wait(target, state) <==> state.waited_ms < 40
            * pause_ms(target)),
        target is Channel ==> pause_ms(target) == 50 && (may_wait(target, state) ==> state.has_info),
        target is Rig ==> pause_ms(target) == 100,
        target is Rig ==> (may_wait(target, state) <==> state.waited_ms < 30 * pause_ms(target)),
        is_ready(state) <==> state.has_info && state.has_stream,
{
}

/// A client is told once what the stream is like, and again when that changes. Packets pass both ways
/// as they are, and whatever has gone ends it.
pub proof fn listeners_are_told_once(
    feed: AudioFeed,
    info: AudioStreamInfo,
    data: Vec<u8>,
    event: WsEvent,
)
    ensures
        feed.after(WsEvent::Info(Some(info))).reaction(WsEvent::Info(Some(info)))
            == WsAction::Wait,
        info != feed.current ==> feed.reaction(WsEvent::Info(Some(info))) == WsAction::SendInfo(
            info,
        ),
        feed.after(WsEvent::Info(Some(info))).current == info,
        !(event is Info) ==> feed.after(event) == feed,
        feed.after(WsEvent::Info(None)) == feed,
        feed.reaction(WsEvent::Packet(data)) == WsAction::SendPacket(data),
        feed.reaction(WsEvent::Binary(data)) == WsAction::Transmit(data),
        feed.reaction(event) == WsAction::Close <==> event is InfoClosed || event is StreamClosed
            || event is Gone,
        event is Lagged || event is Ignored ==> feed.reaction(event) == WsAction::Wait,
{
}

} // verus!
