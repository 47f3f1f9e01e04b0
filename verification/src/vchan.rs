//! Commands for the audio streams of virtual channels.
use vstd::prelude::*;

use crate::text::list_view;

verus! {

/// A command that manages a virtual channel's stream over the audio connection of its rig.
/// Channels are named by UUID.
#[derive(Debug)]
pub enum VChanAudioCmd {
    /// Create the channel on the server where it does not exist, and subscribe to its audio.
    Subscribe {
        uuid: u128,
        freq_hz: u64,
        mode: String,
        bandwidth_hz: u32,
        decoder_kinds: Vec<String>,
    },
    /// Create a hidden channel for background decoding, without audio.
    SubscribeBackground {
        uuid: u128,
        freq_hz: u64,
        mode: String,
        bandwidth_hz: u32,
        decoder_kinds: Vec<String>,
    },
    /// Stop the audio but keep the channel.
    Unsubscribe(u128),
    /// Stop the audio and destroy the channel.
    Remove(u128),
    /// Change the frequency of a channel.
    SetFreq { uuid: u128, freq_hz: u64 },
    /// Change the mode of a channel.
    SetMode { uuid: u128, mode: String },
    /// Change the filter bandwidth of a channel.
    SetBandwidth { uuid: u128, bandwidth_hz: u32 },
}

/// What a command says.
#[verifier::ext_equal]
pub enum VChanCmdView {
    Subscribe {
        uuid: u128,
        freq_hz: u64,
        mode: Seq<char>,
        bandwidth_hz: u32,
        decoder_kinds: Seq<Seq<char>>,
    },
    SubscribeBackground {
        uuid: u128,
        freq_hz: u64,
        mode: Seq<char>,
        bandwidth_hz: u32,
        decoder_kinds: Seq<Seq<char>>,
    },
    Unsubscribe(u128),
    Remove(u128),
    SetFreq { uuid: u128, freq_hz: u64 },
    SetMode { uuid: u128, mode: Seq<char> },
    SetBandwidth { uuid: u128, bandwidth_hz: u32 },
}

impl VChanCmdView {
    /// The channel that the command is about.
    pub open spec fn channel(self) -> u128 {
        match self {
            VChanCmdView::Subscribe { uuid, .. } => uuid,
            VChanCmdView::SubscribeBackground { uuid, .. } => uuid,
            VChanCmdView::Unsubscribe(uuid) => uuid,
            VChanCmdView::Remove(uuid) => uuid,
            VChanCmdView::SetFreq { uuid, .. } => uuid,
            VChanCmdView::SetMode { uuid, .. } => uuid,
            VChanCmdView::SetBandwidth { uuid, .. } => uuid,
        }
    }
}

impl View for VChanAudioCmd {
    type V = VChanCmdView;

    open spec fn view(&self) -> VChanCmdView {
        match self {
            VChanAudioCmd::Subscribe { uuid, freq_hz, mode, bandwidth_hz, decoder_kinds } =>
                VChanCmdView::Subscribe {
                    uuid: *uuid,
                    freq_hz: *freq_hz,
                    mode: mode@,
                    bandwidth_hz: *bandwidth_hz,
                    decoder_kinds: list_view(decoder_kinds@),
                },
            VChanAudioCmd::SubscribeBackground { uuid, freq_hz, mode, bandwidth_hz, decoder_kinds } =>
                VChanCmdView::SubscribeBackground {
                    uuid: *uuid,
                    freq_hz: *freq_hz,
                    mode: mode@,
                    bandwidth_hz: *bandwidth_hz,
                    decoder_kinds: list_view(decoder_kinds@),
                },
            VChanAudioCmd::Unsubscribe(uuid) => VChanCmdView::Unsubscribe(*uuid),
            VChanAudioCmd::Remove(uuid) => VChanCmdView::Remove(*uuid),
            VChanAudioCmd::SetFreq { uuid, freq_hz } => VChanCmdView::SetFreq {
                uuid: *uuid,
                freq_hz: *freq_hz,
            },
            VChanAudioCmd::SetMode { uuid, mode } => VChanCmdView::SetMode {
                uuid: *uuid,
                mode: mode@,
            },
            VChanAudioCmd::SetBandwidth { uuid, bandwidth_hz } => VChanCmdView::SetBandwidth {
                uuid: *uuid,
                bandwidth_hz: *bandwidth_hz,
            },
        }
    }
}

/// A channel command and the rig whose audio connection carries it.
#[derive(Debug)]
pub struct RigAudioCmd {
    pub rig_id: String,
    pub cmd: VChanAudioCmd,
}

/// What a list of routed commands says: for each, its rig and the command.
pub open spec fn cmd_views(cmds: Seq<RigAudioCmd>) -> Seq<(Seq<char>, VChanCmdView)> {
    cmds.map_values(|c: RigAudioCmd| (c.rig_id@, c.cmd@))
}

/// What a command is told by is all of its fields.
pub proof fn commands_in_full(cmd: VChanAudioCmd)
    ensures
        cmd matches VChanAudioCmd::Subscribe { uuid, freq_hz, mode, bandwidth_hz, decoder_kinds }
            ==> cmd@ == (VChanCmdView::Subscribe {
            uuid,
            freq_hz,
            mode: mode@,
            bandwidth_hz,
            decoder_kinds: list_view(decoder_kinds@),
        }),
        cmd matches VChanAudioCmd::SubscribeBackground {
            uuid,
            freq_hz,
            mode,
            bandwidth_hz,
            decoder_kinds,
        } ==> cmd@ == (VChanCmdView::SubscribeBackground {
            uuid,
            freq_hz,
            mode: mode@,
            bandwidth_hz,
            decoder_kinds: list_view(decoder_kinds@),
        }),
        cmd matches VChanAudioCmd::Unsubscribe(uuid) ==> cmd@ == VChanCmdView::Unsubscribe(uuid),
        cmd matches VChanAudioCmd::Remove(uuid) ==> cmd@ == VChanCmdView::Remove(uuid),
        cmd matches VChanAudioCmd::SetFreq { uuid, freq_hz } ==> cmd@ == (VChanCmdView::SetFreq {
            uuid,
            freq_hz,
        }),
        cmd matches VChanAudioCmd::SetMode { uuid, mode } ==> cmd@ == (VChanCmdView::SetMode {
            uuid,
            mode: mode@,
        }),
        cmd matches VChanAudioCmd::SetBandwidth { uuid, bandwidth_hz } ==> cmd@ == (
        VChanCmdView::SetBandwidth { uuid, bandwidth_hz }),
{
}

} // verus!
