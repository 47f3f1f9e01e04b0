use trx_client::assets::{
    build_version_tag, gz_cache_entry, index_html, no_cache_response, request_accepts_html,
    static_asset_response,
};
use trx_client::bookmarks::{Bookmark, BookmarkStoreMap};
use trx_client::commands::{
    apply_selected_channel, clear_decode, lock_panel, set_center_freq, set_cw_auto, set_cw_tone,
    set_cw_wpm, set_freq, set_mode, set_ptt, set_tx_limit, toggle_decode, toggle_power, toggle_vfo,
    unlock_panel, CwAutoQuery, CwToneQuery, CwWpmQuery, Decoder, FreqQuery, ModeQuery, PttQuery,
    RemoteQuery, RigCommand, SelectedChannel, TxLimitQuery,
};
use trx_client::gzip::gunzip_bytes;
use trx_client::http_reply::{
    command_reply, command_step, delete_channel_reply, sat_passes, ChannelError, CommandOutcome,
    PassPredictions, TleSource,
};
use trx_client::json_frontend::Payload;

fn for_rig() -> RemoteQuery {
    RemoteQuery {
        remote: Some("hf".to_string()),
    }
}

#[test]
fn requests_become_commands() {
    let call = set_freq(FreqQuery {
        hz: 14_074_000,
        remote: Some("hf".to_string()),
    });
    assert!(matches!(call.cmd, RigCommand::SetFreq(14_074_000)));
    assert_eq!(call.remote, Some("hf".to_string()));
    let call = set_center_freq(FreqQuery { hz: 5, remote: None });
    assert!(matches!(call.cmd, RigCommand::SetCenterFreq(5)));
    let call = set_mode(ModeQuery {
        mode: "LSB".to_string(),
        remote: None,
    });
    assert!(matches!(call.cmd, RigCommand::SetMode(m) if m == "LSB"));
    assert!(matches!(toggle_vfo(for_rig()).cmd, RigCommand::ToggleVfo));
    assert!(matches!(lock_panel(for_rig()).cmd, RigCommand::Lock));
    assert!(matches!(unlock_panel(for_rig()).cmd, RigCommand::Unlock));
    assert!(matches!(toggle_power(Some(true), for_rig()).cmd, RigCommand::PowerOff));
    assert!(matches!(toggle_power(None, for_rig()).cmd, RigCommand::PowerOn));
    let call = set_tx_limit(TxLimitQuery { limit: 9, remote: None });
    assert!(matches!(call.cmd, RigCommand::SetTxLimit(9)));
    let call = set_cw_auto(CwAutoQuery { enabled: true, remote: None });
    assert!(matches!(call.cmd, RigCommand::SetCwAuto(true)));
    let call = set_cw_wpm(CwWpmQuery { wpm: 3, remote: None });
    assert!(matches!(call.cmd, RigCommand::SetCwWpm(3)));
    let call = set_cw_tone(CwToneQuery { tone_hz: 700, remote: None });
    assert!(matches!(call.cmd, RigCommand::SetCwToneHz(700)));
}

#[test]
fn ptt_is_on_or_off() {
    let ptt = |s: &str| {
        set_ptt(PttQuery {
            ptt: s.to_string(),
            remote: None,
        })
        .map(|call| matches!(call.cmd, RigCommand::SetPtt(true)))
        .map_err(|e| (e.status, e.text))
    };
    for s in ["1", "true", "TRUE", "on"] {
        assert_eq!(ptt(s), Ok(true));
    }
    for s in ["0", "false", "Off"] {
        assert_eq!(ptt(s), Ok(false));
    }
    assert_eq!(ptt("Maybe"), Err((400, "invalid ptt parameter: maybe".to_string())));
}

#[test]
fn decoders_are_toggled_and_cleared() {
    let call = toggle_decode(Decoder::Ft8, false, for_rig());
    assert!(matches!(
        call.cmd,
        RigCommand::SetDecode { decoder: Decoder::Ft8, enabled: true }
    ));
    let call = clear_decode(Decoder::Cw, for_rig());
    assert!(matches!(call.cmd, RigCommand::ResetDecoder(Decoder::Cw)));
}

#[test]
fn a_selected_channel_tunes_the_rig() {
    let mut stores = BookmarkStoreMap::new();
    stores.general.insert(&Bookmark {
        id: "b".to_string(),
        name: "B".to_string(),
        freq_hz: 1,
        mode: "DIG".to_string(),
        bandwidth_hz: None,
        locator: None,
        comment: String::new(),
        category: String::new(),
        decoders: vec!["ft8".to_string()],
    });
    let mut channel = SelectedChannel {
        freq_hz: 7_074_000,
        mode: "USB".to_string(),
        bandwidth_hz: 0,
        scheduler_bookmark_id: None,
    };
    let plain = apply_selected_channel("hf", &channel, &stores);
    assert_eq!(plain.len(), 2);
    assert!(matches!(&plain[0], RigCommand::SetMode(m) if m == "USB"));
    assert!(matches!(plain[1], RigCommand::SetFreq(7_074_000)));
    channel.bandwidth_hz = 3000;
    channel.scheduler_bookmark_id = Some("b".to_string());
    let full = apply_selected_channel("hf", &channel, &stores);
    assert!(matches!(full[1], RigCommand::SetBandwidth(3000)));
    assert!(full.iter().any(|c| matches!(
        c,
        RigCommand::SetDecode { decoder: Decoder::Ft8, enabled: true }
    )));
    assert!(full.iter().any(|c| matches!(
        c,
        RigCommand::SetDecode { decoder: Decoder::Aprs, enabled: false }
    )));
}

#[test]
fn commands_are_answered() {
    let (status, reply) = command_reply(CommandOutcome::Done).expect("an answer");
    assert!(status == 200 && reply.success && matches!(reply.payload, Payload::State));
    let (status, reply) =
        command_reply(CommandOutcome::Refused("frequency out of range".to_string()))
            .expect("an answer");
    assert!(status == 400 && !reply.success);
    assert_eq!(reply.error, Some("frequency out of range".to_string()));
    let e = command_reply(CommandOutcome::NotSent("closed".to_string())).expect_err("not sent");
    assert_eq!((e.status, e.text.as_str()), (500, "failed to send to rig: closed"));
    let e = command_reply(CommandOutcome::TimedOut).expect_err("late");
    assert_eq!((e.status, e.text.as_str()), (504, "rig response timeout"));
    let e = command_reply(CommandOutcome::Broken("gone".to_string())).expect_err("broken");
    assert_eq!((e.status, e.text.as_str()), (500, "rig response channel error: gone"));
    assert!(command_step(CommandOutcome::Done).is_ok());
    let e = command_step(CommandOutcome::Refused("no".to_string())).expect_err("refused");
    assert_eq!((e.status, e.text.as_str()), (400, "no"));
}

#[test]
fn channels_and_passes_are_answered() {
    assert_eq!(delete_channel_reply(Ok(())), (200, None));
    assert_eq!(delete_channel_reply(Err(ChannelError::NotFound)), (404, None));
    assert_eq!(
        delete_channel_reply(Err(ChannelError::Permanent)),
        (400, Some("cannot remove the primary channel".to_string()))
    );
    assert_eq!(
        delete_channel_reply(Err(ChannelError::Other("x".to_string()))),
        (400, Some("x".to_string()))
    );
    let none = sat_passes::<u8>(None);
    assert_eq!(
        none.error.as_deref(),
        Some("Satellite predictions not yet available from server")
    );
    let some = sat_passes(Some(PassPredictions {
        passes: vec![1u8],
        satellite_count: 4,
        tle_source: TleSource::Celestrak,
    }));
    assert_eq!((some.passes, some.error, some.satellite_count), (vec![1u8], None, 4));
    let waiting = sat_passes(Some(PassPredictions {
        passes: Vec::<u8>::new(),
        satellite_count: 0,
        tle_source: TleSource::Unavailable,
    }));
    assert!(waiting.error.expect("why").starts_with("TLE data not yet available"));
}

#[test]
fn pages_are_sent_compressed_and_once() {
    let tag = build_version_tag("1.2", "2026-01-01");
    assert_eq!(tag, "1.2-2026-01-01");
    let page = gz_cache_entry(b"<html></html>", &tag, "index.html").expect("compressed");
    assert_eq!(gunzip_bytes(&page.gz), Some(b"<html></html>".to_vec()));
    let other = gz_cache_entry(b"<html></html>", &tag, "app.js").expect("compressed");
    assert_ne!(page.etag, other.etag);
    let head = static_asset_response("text/html", &None, &page.etag);
    assert_eq!(head.status, 200);
    assert!(head.with_body);
    assert_eq!(head.headers[1], ("content-encoding", "gzip".to_string()));
    let head = static_asset_response("text/html", &Some(page.etag.clone()), &page.etag);
    assert_eq!(head.status, 304);
    assert!(!head.with_body);
    assert_eq!(static_asset_response("text/html", &Some("*".to_string()), &page.etag).status, 304);
    assert_eq!(static_asset_response("text/html", &Some("x".to_string()), &page.etag).status, 200);
    let head = no_cache_response("text/html");
    assert_eq!(
        head.headers[1],
        ("cache-control", "no-cache, no-store, must-revalidate".to_string())
    );
}

#[test]
fn the_page_names_the_program() {
    let page = index_html("{pkg} {ver} ({client_build_date}) {ver}", "trx", "1.0", "today");
    assert_eq!(page, "trx 1.0 (today) 1.0");
    assert!(request_accepts_html(&Some("Text/HTML,*/*".to_string())));
    assert!(!request_accepts_html(&Some("application/json".to_string())));
    assert!(!request_accepts_html(&None));
}
