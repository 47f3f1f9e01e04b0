use trx_client::commands::Decoder;
use trx_client::decode_log::{cleared_with, on_arrival, DecodeKind, DecodeLog};
use trx_client::history::Decoded;

fn message(rig_id: Option<&str>, mmsi: u32, body: u8) -> Decoded<u8> {
    Decoded {
        rig_id: rig_id.map(|r| r.to_string()),
        ts_ms: None,
        mmsi,
        body,
    }
}

fn bodies(log: &DecodeLog<u8>, kind: DecodeKind, filter: Option<&str>) -> Vec<u8> {
    let filter = filter.map(|f| f.to_string());
    log.listing(kind, &filter).iter().map(|m| m.body).collect()
}

#[test]
fn ten_kinds_have_a_history() {
    let names: Vec<Option<&str>> = DecodeKind::with_history().iter().map(|k| k.name()).collect();
    assert_eq!(
        names,
        vec![
            Some("ais"),
            Some("vdes"),
            Some("aprs"),
            Some("hf_aprs"),
            Some("cw"),
            Some("ft8"),
            Some("ft4"),
            Some("ft2"),
            Some("wspr"),
            Some("wefax"),
        ]
    );
    assert_eq!(DecodeKind::WxsatImage.name(), None);
    assert_eq!(DecodeKind::LrptImage.name(), None);
}

#[test]
fn only_some_kinds_are_stamped() {
    for kind in DecodeKind::with_history() {
        let kept = on_arrival(kind, message(None, 0, 1), 77);
        let stamped = matches!(
            kind,
            DecodeKind::Ais | DecodeKind::Vdes | DecodeKind::Aprs | DecodeKind::HfAprs
        );
        assert_eq!(kept.ts_ms, if stamped { Some(77) } else { None });
    }
}

#[test]
fn messages_go_to_their_own_history() {
    let mut log: DecodeLog<u8> = DecodeLog::new();
    let active = Some("hf".to_string());
    for (body, kind) in DecodeKind::with_history().into_iter().enumerate() {
        log.record(kind, message(None, 1, body as u8), &active, 5, 0, 60);
    }
    log.record(DecodeKind::WxsatImage, message(None, 1, 99), &active, 5, 0, 60);
    for (body, kind) in DecodeKind::with_history().into_iter().enumerate() {
        assert_eq!(bodies(&log, kind, None), vec![body as u8]);
        assert_eq!(bodies(&log, kind, Some("hf")), vec![body as u8]);
        assert!(bodies(&log, kind, Some("vhf")).is_empty());
    }
    log.clear(DecodeKind::Cw);
    assert!(bodies(&log, DecodeKind::Cw, None).is_empty());
    assert_eq!(bodies(&log, DecodeKind::Ft8, None).len(), 1);
    log.prune(DecodeKind::Ft8, 60_001, 60);
    assert!(bodies(&log, DecodeKind::Ft8, None).is_empty());
    assert_eq!(bodies(&log, DecodeKind::Ft4, None).len(), 1);
}

#[test]
fn ships_are_listed_once_and_the_rest_in_full() {
    let mut log: DecodeLog<u8> = DecodeLog::new();
    for (at, mmsi, body) in [(1, 7, 1), (2, 8, 2), (3, 7, 3)] {
        for kind in [DecodeKind::Ais, DecodeKind::Vdes] {
            log.record(kind, message(Some("vhf"), mmsi, body), &None, at, at, 3600);
        }
    }
    assert_eq!(bodies(&log, DecodeKind::Ais, None), vec![2, 3]);
    assert_eq!(bodies(&log, DecodeKind::Vdes, None), vec![1, 2, 3]);
}

#[test]
fn some_kinds_are_not_replayed() {
    let mut log: DecodeLog<u8> = DecodeLog::new();
    let mut replayed = Vec::new();
    for kind in DecodeKind::with_history() {
        log.replay(kind, message(Some("hf"), 1, 4), 9, 0);
        if bodies(&log, kind, None) == vec![4] {
            replayed.push(kind);
        }
        // What a server replays is of no rig.
        assert!(bodies(&log, kind, Some("hf")).is_empty());
    }
    assert_eq!(
        replayed,
        vec![
            DecodeKind::Ais,
            DecodeKind::Vdes,
            DecodeKind::Aprs,
            DecodeKind::HfAprs,
            DecodeKind::Cw,
            DecodeKind::Ft8,
            DecodeKind::Wspr,
        ]
    );
}

#[test]
fn some_histories_are_stored() {
    let stored: Vec<Option<&str>> = DecodeKind::with_history()
        .into_iter()
        .filter(|k| k.stored())
        .map(|k| k.name())
        .collect();
    assert_eq!(
        stored,
        vec![Some("ais"), Some("vdes"), Some("aprs"), Some("cw"), Some("ft8"), Some("wspr")]
    );
}

#[test]
fn a_new_start_of_a_decoder_forgets_its_history() {
    assert_eq!(cleared_with(Decoder::HfAprs), Some(DecodeKind::HfAprs));
    assert_eq!(cleared_with(Decoder::Wspr), Some(DecodeKind::Wspr));
    assert_eq!(cleared_with(Decoder::Wefax), None);
    assert_eq!(cleared_with(Decoder::Lrpt), None);
}
