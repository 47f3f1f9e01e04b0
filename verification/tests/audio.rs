use std::collections::VecDeque;
use trx_client::audio_bridge::{
    bridge_plan, bridge_step, buffer_samples, select_device, take_frames, BridgeStep, DeviceChoice,
    DeviceKind, OpusChannels,
};
use trx_client::audio_client::{
    audio_address, check_first_message, current_rigs, history_frames, info_notice, is_selected,
    link_step, rx_action, split_frames, takes_tx_frames, AudioConnectConfig, AudioError,
    AudioMsgKind, AudioSession, AudioTasks, KnownRig, LinkEvent, LinkStep, RxAction, VChanMessage,
};
use trx_client::audio_ws::{
    audio_probe, audio_target, target_step, AudioFeed, AudioQuery, AudioStreamInfo, AudioTarget,
    TargetState, TargetStep, WsAction, WsEvent,
};
use trx_client::config::AudioBridgeConfig;
use trx_client::gzip::gzip_bytes;
use trx_client::table::Table;
use trx_client::vchan::VChanAudioCmd;

const INFO: AudioStreamInfo = AudioStreamInfo {
    sample_rate: 48_000,
    channels: 2,
    frame_duration_ms: 20,
    bitrate_bps: 24_000,
};

#[test]
fn the_bridge_runs_when_the_stream_is_known() {
    assert_eq!(bridge_step(true, Some(INFO), false), BridgeStep::Stop);
    assert_eq!(bridge_step(false, Some(INFO), false), BridgeStep::Run(INFO));
    assert_eq!(bridge_step(false, None, false), BridgeStep::Wait);
    assert_eq!(bridge_step(false, None, true), BridgeStep::Stop);
    let cfg = AudioBridgeConfig::default();
    let plan = bridge_plan(&cfg, INFO).expect("two channels");
    assert_eq!(plan.frame_samples, 1920);
    assert_eq!(plan.channels, OpusChannels::Stereo);
    assert_eq!(plan.bitrate_bps, 192_000);
    let e = bridge_plan(&cfg, AudioStreamInfo { channels: 3, ..INFO });
    assert_eq!(e, Err("unsupported channel count 3".to_string()));
}

#[test]
fn devices_are_found_by_name() {
    let names = vec![None, Some("a".to_string()), Some("a".to_string())];
    let select = |kind, name: Option<&str>, preset| {
        select_device(kind, &names, &name.map(|n| n.to_string()), preset)
    };
    assert_eq!(select(DeviceKind::Output, Some("a"), false), Ok(DeviceChoice::Named(1)));
    assert_eq!(select(DeviceKind::Input, None, true), Ok(DeviceChoice::Preset));
    assert_eq!(
        select(DeviceKind::Output, Some("b"), true),
        Err("output device 'b' not found".to_string())
    );
    assert_eq!(
        select(DeviceKind::Input, Some("b"), true),
        Err("input device 'b' not found".to_string())
    );
    assert_eq!(
        select(DeviceKind::Output, None, false),
        Err("no default output device".to_string())
    );
}

#[test]
fn samples_are_buffered_and_framed() {
    let mut ring: VecDeque<f32> = VecDeque::new();
    let samples: Vec<f32> = (0..40).map(|i| i as f32).collect();
    buffer_samples(&mut ring, &samples, 2);
    assert_eq!(ring.len(), 32);
    assert_eq!(ring[0], 8.0);
    assert_eq!(ring[31], 39.0);
    let mut pcm: Vec<f32> = samples[..7].to_vec();
    let frames = take_frames(&mut pcm, 3);
    assert_eq!(frames, vec![vec![0.0, 1.0, 2.0], vec![3.0, 4.0, 5.0]]);
    assert_eq!(pcm, vec![6.0]);
}

#[test]
fn audio_tasks_follow_the_rigs() {
    let known = vec![
        KnownRig {
            rig_id: "a".to_string(),
            audio_port: Some(1),
        },
        KnownRig {
            rig_id: "b".to_string(),
            audio_port: None,
        },
    ];
    let mut ports: Table<u16> = Table::new();
    ports.insert("b", 7);
    let current = current_rigs(&known, &ports, 4531);
    assert_eq!((current.get("a"), current.get("b")), (Some(&1), Some(&7)));
    let mut tasks = AudioTasks::new();
    let plan = tasks.reconcile(&current);
    assert_eq!((plan.stop.len(), plan.start.len()), (0, 2));
    let plan = tasks.reconcile(&current);
    assert_eq!((plan.stop.len(), plan.start.len()), (0, 0));
    let mut moved: Table<u16> = Table::new();
    moved.insert("a", 2);
    let plan = tasks.reconcile(&moved);
    assert!(plan.stop.contains(&"b".to_string()));
    assert!(plan.start.iter().any(|r| r.rig_id == "a" && r.port == 2));
    let mut connect: Table<AudioConnectConfig> = Table::new();
    connect.insert("a", AudioConnectConfig::from_host_port("x".to_string(), 4531));
    connect.insert("c", AudioConnectConfig::fixed("[::1]:9".to_string()));
    let other = AudioConnectConfig::from_host_port("y".to_string(), 4531);
    assert_eq!(audio_address("a", 5, &connect, &other), "x:5");
    assert_eq!(audio_address("b", 5, &connect, &other), "y:5");
    assert_eq!(audio_address("c", 5, &connect, &other), "[::1]:9");
    assert!(is_selected(&Some("a".to_string()), "a"));
    assert!(!is_selected(&Some("b".to_string()), "a"));
}

#[test]
fn only_the_selected_rig_transmits() {
    let selected = Some("hf".to_string());
    assert!(takes_tx_frames(&selected, "hf"));
    assert!(!takes_tx_frames(&selected, "vhf"));
    assert!(!takes_tx_frames(&selected, ""));
    assert!(!takes_tx_frames(&None, "hf"));
}

#[test]
fn the_selected_rigs_parameters_are_shared() {
    let info = Some(AudioStreamInfo {
        sample_rate: 48000,
        channels: 1,
        frame_duration_ms: 20,
        bitrate_bps: 64000,
    });
    let selected = Some("hf".to_string());
    let notice = info_notice(info, &selected, "hf");
    assert_eq!((notice.rig, notice.shared), (info, Some(info)));
    let notice = info_notice(info, &selected, "vhf");
    assert_eq!((notice.rig, notice.shared), (info, None));
    let notice = info_notice(None, &selected, "hf");
    assert_eq!((notice.rig, notice.shared), (None, Some(None)));
    assert_eq!(info_notice(info, &None, "hf").shared, None);
}

#[test]
fn history_frames_read_back() {
    let mut data = vec![3u8, 0, 0, 0, 2, 9, 8, 4, 0, 0, 0, 0];
    data.extend_from_slice(&[5, 0, 0, 1, 0, 1]);
    let frames = split_frames(&data);
    assert_eq!(frames.len(), 2);
    assert_eq!((frames[0].msg_type, frames[0].payload.clone()), (3, vec![9, 8]));
    assert_eq!((frames[1].msg_type, frames[1].payload.len()), (4, 0));
    let packed = gzip_bytes(&data).expect("compressed");
    assert_eq!(history_frames(&packed).len(), 2);
    assert!(history_frames(&data).is_empty());
}

fn subscribe(uuid: u128) -> VChanAudioCmd {
    VChanAudioCmd::Subscribe {
        uuid,
        freq_hz: 100,
        mode: "USB".to_string(),
        bandwidth_hz: 3000,
        decoder_kinds: Vec::new(),
    }
}

#[test]
fn channels_are_subscribed_again_after_a_reconnect() {
    let mut session = AudioSession::new();
    assert!(matches!(
        session.message(&subscribe(1)),
        Some(VChanMessage::Subscribe { uuid: 1, hidden: false, .. })
    ));
    assert!(session.apply(subscribe(1), true).goes_on);
    assert!(session.apply(VChanAudioCmd::SetFreq { uuid: 1, freq_hz: 200 }, true).goes_on);
    let again = session.connected();
    assert_eq!(again.len(), 2);
    assert!(matches!(
        again[0],
        VChanMessage::Subscribe { uuid: 1, freq_hz: 200, .. }
    ));
    assert!(matches!(
        again[1],
        VChanMessage::Bandwidth { uuid: 1, bandwidth_hz: 3000 }
    ));
    assert!(session.message(&subscribe(1)).is_none());
    assert!(session.apply(subscribe(1), true).goes_on);
    assert!(session.message(&subscribe(1)).is_some());
    let applied = session.apply(VChanAudioCmd::Remove(1), false);
    assert_eq!((applied.goes_on, applied.closed), (false, None));
    let applied = session.apply(VChanAudioCmd::Remove(1), true);
    assert_eq!((applied.goes_on, applied.closed), (true, Some(1)));
    assert!(session.connected().is_empty());
}

#[test]
fn messages_are_sorted_by_kind() {
    assert!(check_first_message(AudioMsgKind::StreamInfo).is_ok());
    assert!(check_first_message(AudioMsgKind::RxFrame).is_err());
    assert!(!AudioError::ExpectedStreamInfo.message().is_empty());
    assert!(matches!(
        rx_action(AudioMsgKind::RxFrame, true, None),
        RxAction::PublishAudio { global: true }
    ));
    assert!(matches!(
        rx_action(AudioMsgKind::ChannelFrame, true, Some(4)),
        RxAction::PublishChannel { uuid: 4 }
    ));
    assert!(matches!(
        rx_action(AudioMsgKind::ChannelFrame, true, None),
        RxAction::Ignore
    ));
    assert!(matches!(link_step(LinkEvent::TxFrame { written: false }), LinkStep::Leave));
    assert!(matches!(link_step(LinkEvent::ShutdownFlag(true)), LinkStep::Abort));
    assert!(matches!(link_step(LinkEvent::CommandsClosed), LinkStep::Continue));
}

#[test]
fn browsers_get_the_stream_they_ask_for() {
    assert_eq!(audio_probe(false, true).expect("off").status, 404);
    assert_eq!(audio_probe(true, false).expect("a probe").status, 204);
    assert!(audio_probe(true, true).is_none());
    let rig = audio_target(AudioQuery {
        channel_id: None,
        remote: Some("lidzbark-vhf".to_string()),
    });
    assert!(matches!(&rig, AudioTarget::Rig(r) if r == "lidzbark-vhf"));
    let channel = audio_target(AudioQuery {
        channel_id: Some(7),
        remote: Some("lidzbark-vhf".to_string()),
    });
    assert!(matches!(&channel, AudioTarget::Channel { id: 7, .. }));
    let state = |has_stream, waited_ms| TargetState {
        has_stream,
        has_info: true,
        waited_ms,
    };
    assert!(matches!(target_step(&rig, &state(true, 0)), TargetStep::Go));
    assert!(matches!(target_step(&rig, &state(false, 0)), TargetStep::Retry(100)));
    match target_step(&rig, &state(false, 3000)) {
        TargetStep::Refuse(r) => assert_eq!(
            r.text.as_deref(),
            Some("audio not available for rig lidzbark-vhf")
        ),
        other => panic!("{other:?}"),
    }
    assert!(matches!(target_step(&channel, &state(false, 0)), TargetStep::Retry(50)));
    assert!(matches!(
        target_step(&channel, &state(false, 2000)),
        TargetStep::Refuse(r) if r.text.as_deref() == Some("channel not found")
    ));
    assert!(matches!(
        target_step(&AudioTarget::Selected, &state(false, 0)),
        TargetStep::Refuse(_)
    ));
}

#[test]
fn browsers_are_told_of_new_parameters() {
    let mut feed = AudioFeed { current: INFO };
    assert!(matches!(feed.on_event(WsEvent::Info(Some(INFO))), WsAction::Wait));
    let mono = AudioStreamInfo { channels: 1, ..INFO };
    assert!(matches!(
        feed.on_event(WsEvent::Info(Some(mono))),
        WsAction::SendInfo(i) if i == mono
    ));
    assert!(matches!(feed.on_event(WsEvent::Info(Some(mono))), WsAction::Wait));
    assert!(matches!(
        feed.on_event(WsEvent::Binary(vec![1])),
        WsAction::Transmit(d) if d == vec![1]
    ));
    assert!(matches!(feed.on_event(WsEvent::Gone), WsAction::Close));
    assert!(matches!(feed.on_event(WsEvent::StreamClosed), WsAction::Close));
}
