use trx_client::commands::RigCommand;
use trx_client::id_table::IdTable;
use trx_client::ids::format_uuid;
use trx_client::ogg::AudioParams;
use trx_client::recorder::{
    is_recording_file, keeps_recording, list_files, make_key, recorder_action, recording_file_name,
    require_file, resolve_audio_source, resolve_rig_id, stop_outcome, stream_info_for_rig,
    validate_filename, AudioSource, RecordedFile, RecorderAction, RecorderConfig, RecorderEvent,
    RecorderManager, RecordingResult, SourceError, TaskEnd,
};

const PARAMS: AudioParams = AudioParams {
    sample_rate: 48_000,
    channels: 1,
    frame_duration_ms: 20,
};

fn some(s: &str) -> Option<String> {
    Some(s.to_string())
}

#[test]
fn recordings_are_named_after_what_they_hold() {
    assert_eq!(make_key("hf", &None), "hf");
    assert_eq!(make_key("hf", &some("v")), "hf:v");
    assert_eq!(
        recording_file_name("hf", &some("v"), Some(7_074_000), &some("USB"), 0),
        "hf_7074000_USB_vchan-v_1970-01-01_00-00-00.ogg"
    );
    let earlier = recording_file_name("hf", &None, None, &None, 99);
    let later = recording_file_name("hf", &None, None, &None, 100);
    assert!(earlier < later);
    assert!(is_recording_file(&later));
    assert!(!is_recording_file(".ogg"));
    assert!(!is_recording_file("a.txt"));
    let file = |name: &str| RecordedFile {
        name: name.to_string(),
        size: 1,
    };
    let names: Vec<String> = list_files(vec![file(&earlier), file("b.txt"), file(&later)])
        .into_iter()
        .map(|f| f.name)
        .collect();
    assert_eq!(names, vec![later, earlier]);
}

#[test]
fn names_stay_inside_the_directory() {
    assert_eq!(validate_filename("a.ogg"), Ok(()));
    for name in ["../a.ogg", "a/b.ogg", "a\\b.ogg", "a..ogg"] {
        assert_eq!(validate_filename(name), Err("invalid filename".to_string()));
    }
    assert_eq!(
        validate_filename("a.txt"),
        Err("only .ogg files are accessible".to_string())
    );
    assert_eq!(require_file("a.ogg", true), Ok(()));
    assert_eq!(
        require_file("a.ogg", false),
        Err("file not found: a.ogg".to_string())
    );
}

#[test]
fn a_rig_is_recorded_once_at_a_time() {
    let mut manager = RecorderManager::new(RecorderConfig::default());
    let info = manager.start("hf", &None, PARAMS, "/x/a.ogg", 5).expect("started");
    assert_eq!((info.key.as_str(), info.started_at), ("hf", 5));
    assert!(manager.start("hf", &None, PARAMS, "/x/b.ogg", 6).is_err());
    assert!(manager.is_recording("hf", &None));
    assert!(!manager.is_recording("hf", &some("v")));
    assert!(manager.records_rig("hf"));
    assert_eq!(manager.list_active().len(), 1);
    assert!(manager.stopped_command("hf").is_none());
    assert_eq!(manager.stop("hf", &None).expect("stopped").path, "/x/a.ogg");
    assert!(matches!(
        manager.stopped_command("hf"),
        Some(RigCommand::SetRecorderEnabled(false))
    ));
    assert_eq!(
        manager.stop("hf", &None).expect_err("none"),
        "no active recording: hf"
    );
}

#[test]
fn recording_tasks_end() {
    let result = RecordingResult {
        key: "hf".to_string(),
        path: "p".to_string(),
        duration_ns: 1,
        bytes_written: 2,
    };
    assert!(matches!(stop_outcome(TaskEnd::Finished(result)), Ok(r) if r.bytes_written == 2));
    assert!(matches!(stop_outcome(TaskEnd::NoFile), Err(m) if m == "recording failed"));
    assert!(matches!(
        stop_outcome(TaskEnd::Broken("x".to_string())),
        Err(m) if m == "recorder task panicked: x"
    ));
    assert!(keeps_recording(false, 999, Some(1)));
    assert!(!keeps_recording(false, 1000, Some(1)));
    assert!(!keeps_recording(true, 0, None));
    assert!(matches!(
        recorder_action(RecorderEvent::Packet(vec![1])),
        RecorderAction::Write(d) if d == vec![1]
    ));
    assert!(matches!(recorder_action(RecorderEvent::Lagged), RecorderAction::Wait));
    assert!(matches!(recorder_action(RecorderEvent::Closed), RecorderAction::Finish));
}

#[test]
fn audio_comes_from_channel_rig_or_selected_stream() {
    let mut channels: IdTable<()> = IdTable::new();
    channels.insert(9, ());
    let known = Some(format_uuid(9));
    assert!(matches!(
        resolve_audio_source(&known, &channels, false, false),
        Ok(AudioSource::VirtualChannel(9))
    ));
    assert!(matches!(
        resolve_audio_source(&None, &channels, true, true),
        Ok(AudioSource::Rig)
    ));
    assert!(matches!(
        resolve_audio_source(&None, &channels, false, true),
        Ok(AudioSource::DefaultStream)
    ));
    let refused = |id: &Option<String>| match resolve_audio_source(id, &channels, false, false) {
        Err(e) => (e.status_code(), e.message()),
        Ok(s) => panic!("{s:?}"),
    };
    assert_eq!(refused(&some("nonsense")), (400, "invalid vchan_id UUID"));
    assert_eq!(refused(&Some(format_uuid(8))), (404, "vchan audio not found"));
    assert_eq!(refused(&None), (404, "no audio source for rig"));
    assert_eq!(SourceError::NoSource.status_code(), 404);
    assert_eq!(resolve_rig_id(&None, &some("hf")), "hf");
    assert_eq!(resolve_rig_id(&None, &None), "default");
    assert_eq!(stream_info_for_rig(None, None).channels, 2);
    assert_eq!(stream_info_for_rig(Some(PARAMS), None).channels, 1);
}
