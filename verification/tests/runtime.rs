use trx_client::auth::SameSite;
use trx_client::clock::{current_timestamp_ms, now_nanos, timestamp_ms_of};
use trx_client::config;
use trx_client::runtime::{
    frontend_meta, ClientCounts, HttpAuthConfig, HttpUiConfig, OwnerInfo, RigRouting,
};
use trx_client::table::Table;

#[test]
fn settings_reach_the_server() {
    let mut auth = config::HttpAuthConfig::default();
    auth.enabled = true;
    auth.rx_passphrase = Some("rx".to_string());
    auth.session_ttl_min = 2;
    for (set, expected) in [
        (config::CookieSameSite::Strict, SameSite::Strict),
        (config::CookieSameSite::Lax, SameSite::Lax),
        (config::CookieSameSite::Unrestricted, SameSite::Unrestricted),
    ] {
        auth.cookie_same_site = set;
        let kept = HttpAuthConfig::from_config(&auth, &vec!["".to_string(), "t".to_string()]);
        assert_eq!(kept.session_ttl_secs, 120);
        assert_eq!(kept.tokens, vec!["t".to_string()]);
        let server = kept.server_config();
        assert!(server.enabled);
        assert_eq!(server.rx_passphrase, Some("rx".to_string()));
        assert_eq!(server.session_ttl, 120);
        assert_eq!(server.cookie_same_site, expected);
    }
    let preset = HttpAuthConfig::default();
    assert_eq!(preset.session_ttl_secs, 28_800);
    assert_eq!(preset.cookie_same_site, "Lax");
    assert_eq!(f32::from_bits(HttpUiConfig::default().spectrum_usable_span_ratio_bits), 0.92);
}

#[test]
fn a_dropped_server_concerns_its_rig_alone() {
    let mut routing = RigRouting {
        active_rig_id: Some("hf".to_string()),
        rig_ids: vec!["hf".to_string(), "vhf".to_string()],
        server_connected: true,
        rig_server_connected: Table::new(),
    };
    let mut ui = HttpUiConfig::default();
    ui.decode_history_retention_min_by_rig.insert("hf", 5);
    let counts = ClientCounts {
        http: 1,
        rigctl: 2,
        audio: 3,
    };
    let owner = OwnerInfo::default();
    routing.rig_server_connected.insert("vhf", false);
    let told = |rig: Option<&str>, routing: &RigRouting| {
        frontend_meta(counts, &None, routing, &owner, &ui, &rig.map(|r| r.to_string()))
    };
    let meta = told(Some("vhf"), &routing);
    assert!(!meta.server_connected);
    assert!(told(Some("hf"), &routing).server_connected);
    assert!(told(None, &routing).server_connected);
    assert_eq!(meta.decode_history_retention_min, 5);
    assert_eq!((meta.http_clients, meta.rigctl_clients, meta.audio_clients), (1, 2, 3));
    assert_eq!(meta.remotes, routing.rig_ids);
    routing.active_rig_id = None;
    assert_eq!(told(None, &routing).decode_history_retention_min, 1440);
}

#[test]
fn the_clock_is_that_of_the_system() {
    let before = std::time::SystemTime::now()
        .duration_since(std::time::UNIX_EPOCH)
        .expect("after 1970");
    let nanos = now_nanos();
    let ms = current_timestamp_ms();
    assert!(nanos >= before.as_nanos());
    assert!(nanos < before.as_nanos() + 60_000_000_000);
    assert!(ms as u128 >= before.as_millis());
    assert_eq!(timestamp_ms_of(1_234_567_890), 1_234);
}
