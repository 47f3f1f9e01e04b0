use trx_client::history::{
    decode_history_retention, matches_rig_filter, restore_moment, stamp, stored_moment, Decoded,
    History, HISTORY_RETENTION_MS,
};
use trx_client::json_frontend::{
    authorize, on_outcome, on_request, request_text, snapshot_remote_rigs, Envelope, Outcome,
    Payload, RequestStep,
};
use trx_client::lines::{LineError, LineReader, LineStep};
use trx_client::remote::{RemoteRigEntry, RigSummary};
use trx_client::scheduler_control::SchedulerControlManager;
use trx_client::sse::{
    channel_update, channels_event, channels_notice, data_event_text, encode_spectrum_frame,
    event_prefix, named_event_text, server_connected_for, SpectrumFeed, SpectrumUpdate,
};
use trx_client::table::Table;

fn some(s: &str) -> Option<String> {
    Some(s.to_string())
}

#[test]
fn lines_come_out_whole() {
    let mut reader = LineReader::new(8);
    assert!(matches!(reader.push(b"ab"), LineStep::More));
    match reader.push(b"c\nrest") {
        LineStep::Line { text, consumed } => {
            assert_eq!(text, "abc\n");
            assert_eq!(consumed, 2);
        }
        other => panic!("{other:?}"),
    }
    assert!(matches!(reader.push(b"rest"), LineStep::More));
    assert!(matches!(reader.push(b""), LineStep::Line { text, .. } if text == "rest"));
    assert!(matches!(reader.push(b""), LineStep::End));
}

#[test]
fn lines_come_out_the_same_in_any_chunks() {
    let line = "h\u{e9}llo\n".as_bytes();
    for cut in 1..line.len() {
        let mut reader = LineReader::new(16);
        assert!(matches!(reader.push(&line[..cut]), LineStep::More));
        assert!(matches!(reader.push(&line[cut..]), LineStep::Line { text, .. } if text == "h\u{e9}llo\n"));
    }
}

#[test]
fn long_and_broken_lines_fail() {
    let mut reader = LineReader::new(4);
    assert!(matches!(reader.push(b"12345"), LineStep::Failed(LineError::TooLong)));
    assert_eq!(
        reader.error_text(LineError::TooLong),
        "line exceeds maximum size of 4 bytes"
    );
    let mut reader = LineReader::new(4);
    match reader.push(b"\xff\n") {
        LineStep::Failed(error) => {
            assert!(matches!(error, LineError::NotUtf8(_)));
            assert_eq!(
                reader.error_text(error),
                "line is not valid UTF-8: invalid utf-8 sequence of 1 bytes from index 0"
            );
        }
        other => panic!("{other:?}"),
    }
}

#[test]
fn requests_need_a_token() {
    let accepted = vec!["secret".to_string()];
    assert_eq!(authorize(&None, &Vec::new()), Ok(()));
    assert_eq!(
        authorize(&None, &accepted),
        Err("missing authorization token".to_string())
    );
    assert_eq!(
        authorize(&some("wrong"), &accepted),
        Err("invalid authorization token".to_string())
    );
    assert_eq!(authorize(&some("secret"), &accepted), Ok(()));
    assert_eq!(request_text(" {} \n"), some("{}"));
    assert_eq!(request_text(" \r\n"), None);
    let mut active = some("hf");
    let request = Envelope {
        token: None,
        rig_id: some("vhf"),
        is_get_rigs: false,
    };
    match on_request(Ok(request), &accepted, &mut active) {
        RequestStep::Reply(r) => {
            assert!(!r.success);
            assert_eq!(r.error, some("missing authorization token"));
        }
        RequestStep::Forward => panic!("forwarded"),
    }
    assert_eq!(active, some("hf"));
}

#[test]
fn accepted_requests_select_their_rig() {
    let mut active = some("hf");
    let request = Envelope {
        token: None,
        rig_id: some("vhf"),
        is_get_rigs: false,
    };
    assert!(matches!(
        on_request(Ok(request), &Vec::new(), &mut active),
        RequestStep::Forward
    ));
    assert_eq!(active, some("vhf"));
    let list = Envelope {
        token: None,
        rig_id: None,
        is_get_rigs: true,
    };
    match on_request(Ok(list), &Vec::new(), &mut active) {
        RequestStep::Reply(r) => assert!(r.success && matches!(r.payload, Payload::Rigs)),
        RequestStep::Forward => panic!("forwarded"),
    }
    match on_request(Err("bad".to_string()), &Vec::new(), &mut active) {
        RequestStep::Reply(r) => assert!(!r.success && r.error.is_some()),
        RequestStep::Forward => panic!("forwarded"),
    }
}

#[test]
fn outcomes_are_answered() {
    let rig = some("hf");
    let done = on_outcome(Outcome::Done, &rig);
    assert!(done.success && done.error.is_none() && matches!(done.payload, Payload::State));
    assert_eq!(on_outcome(Outcome::Refused("no".to_string()), &rig).error, some("no"));
    assert_eq!(
        on_outcome(Outcome::TimedOut, &rig).error,
        some("Request timed out waiting for rig response")
    );
    assert_eq!(
        on_outcome(Outcome::Lost, &rig).error,
        some("Internal error waiting for rig response")
    );
    for outcome in [Outcome::NotAvailable, Outcome::QueueTimeout] {
        let r = on_outcome(outcome, &rig);
        assert!(!r.success && r.error.is_some());
    }
    let known = vec![RemoteRigEntry {
        rig_id: "hf".to_string(),
        display_name: None,
        state: RigSummary {
            initialized: true,
            tx: true,
        },
        audio_port: Some(3),
    }];
    let rigs = snapshot_remote_rigs(&known);
    assert_eq!((rigs[0].rig_id.as_str(), rigs[0].audio_port), ("hf", Some(3)));
}

fn message(mmsi: u32, body: u8) -> Decoded<u8> {
    Decoded {
        rig_id: None,
        ts_ms: None,
        mmsi,
        body,
    }
}

#[test]
fn old_messages_go_and_fresh_ones_stay() {
    let mut history: History<u8> = History::new();
    history.record(message(1, 10), &some("hf"), 0, 60);
    history.record(message(2, 20), &some("vhf"), 59_000, 60);
    assert_eq!(history.snapshot(&None).len(), 2);
    history.record(message(1, 11), &some("hf"), 60_001, 60);
    let bodies: Vec<u8> = history.snapshot(&None).iter().map(|m| m.body).collect();
    assert_eq!(bodies, vec![20, 11]);
    let bodies: Vec<u8> = history.snapshot(&some("hf")).iter().map(|m| m.body).collect();
    assert_eq!(bodies, vec![11]);
    history.replay(message(3, 30), 0);
    assert_eq!(history.snapshot(&None).len(), 3);
    history.clear();
    assert!(history.snapshot(&None).is_empty());
}

#[test]
fn each_station_is_listed_once() {
    let mut history: History<u8> = History::new();
    for (at, mmsi, body) in [(1, 7, 1), (2, 8, 2), (3, 7, 3), (4, 9, 4)] {
        history.record(message(mmsi, body), &None, at, 3600);
    }
    let bodies: Vec<u8> = history.latest(&None).iter().map(|m| m.body).collect();
    assert_eq!(bodies, vec![2, 3, 4]);
}

#[test]
fn stored_moments_come_back() {
    let now_unix = 1_700_000_000_000;
    let stored = stored_moment(500, now_unix, 2_000);
    assert_eq!(stored, now_unix - 1_500);
    assert_eq!(restore_moment(stored, now_unix, 2_000), Some(500));
    // The machine was started after this one was recorded.
    assert_eq!(restore_moment(now_unix - 5_000, now_unix, 2_000), Some(2_000));
    assert_eq!(restore_moment(now_unix + 9, now_unix, 2_000), Some(2_000));
    assert_eq!(
        restore_moment(now_unix - HISTORY_RETENTION_MS - 1, now_unix, 2_000),
        None
    );
    assert_eq!(stamp(message(1, 1), 7).ts_ms, Some(7));
    let mut by_rig: Table<u64> = Table::new();
    by_rig.insert("hf", 2);
    by_rig.insert("vhf", 0);
    assert_eq!(decode_history_retention(10, &by_rig, &some("hf")), 120);
    assert_eq!(decode_history_retention(10, &by_rig, &some("vhf")), 600);
    assert_eq!(decode_history_retention(0, &by_rig, &None), 60);
    assert!(matches_rig_filter(&some("hf"), &None));
    assert!(!matches_rig_filter(&None, &some("hf")));
}

#[test]
fn events_are_framed() {
    assert_eq!(data_event_text("{}"), "data: {}\n\n");
    assert_eq!(named_event_text("ping", ""), "event: ping\ndata: \n\n");
    let prefix = event_prefix("{\"a\":1}", "id-1", &some("hf"), &some("[]"));
    assert_eq!(
        prefix,
        vec![
            "data: {\"a\":1}\n\n".to_string(),
            "event: session\ndata: {\"session_id\":\"id-1\"}\n\n".to_string(),
            "event: channels\ndata: {\"remote\":\"hf\",\"channels\":[]}\n\n".to_string(),
        ]
    );
    assert_eq!(event_prefix("{}", "x", &None, &some("[]")).len(), 2);
}

#[test]
fn notices_reach_the_sessions_of_their_rig() {
    let notice = channels_notice("hf", "[{\"a\":\":\"}]");
    let event = channels_event("hf", "[{\"a\":\":\"}]");
    assert_eq!(channel_update(&notice, &some("hf")), Some(event.clone()));
    assert_eq!(channel_update(&notice, &None), Some(event));
    assert_eq!(channel_update(&notice, &some("vhf")), None);
    assert_eq!(channel_update("no mark", &None), None);
}

#[test]
fn spectra_are_sent_with_what_changed() {
    assert_eq!(encode_spectrum_frame(14_100_000, 96_000, &[0, 255]), "14100000,96000,AP8=");
    let mut feed = SpectrumFeed::new();
    let update = |frame: Option<&str>, rds: Option<&str>| SpectrumUpdate {
        frame: frame.map(|s| s.to_string()),
        rds_json: rds.map(|s| s.to_string()),
        vchan_rds_json: None,
    };
    assert_eq!(feed.next(update(None, None)), None);
    assert_eq!(
        feed.next(update(Some("1,2,AA=="), Some("{}"))),
        some("event: b\ndata: 1,2,AA==\n\nevent: rds\ndata: {}\n\n")
    );
    assert_eq!(
        feed.next(update(Some("x"), Some("{}"))),
        some("event: b\ndata: x\n\n")
    );
    assert_eq!(
        feed.next(update(Some("x"), None)),
        some("event: b\ndata: x\n\nevent: rds\ndata: null\n\n")
    );
    assert_eq!(feed.next(update(None, None)), some("data: null\n\n"));
    assert_eq!(feed.next(update(None, None)), None);
    let mut up: Table<bool> = Table::new();
    up.insert("hf", false);
    assert!(!server_connected_for(&some("hf"), &up, true));
    assert!(server_connected_for(&some("vhf"), &up, true));
    assert!(SchedulerControlManager::new().scheduler_allowed());
}
