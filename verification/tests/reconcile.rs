use trx_client::auth::{
    login_cookie, logout_cookie, AuthConfig, AuthRole, AuthState, LoginOutcome, LoginRequest,
    RouteAccess, SameSite, SessionStore, SESSION_COOKIE,
};
use trx_client::background_decode::{
    BackgroundDecodeConfig, BackgroundDecodeManager, ClientChannel, ReconcileInput, SpectrumSpan,
};
use trx_client::bookmarks::Bookmark;
use trx_client::endpoint::{parse_audio_url, parse_remote_url, RemoteEndpoint};
use trx_client::vchan::VChanAudioCmd;

fn bookmark(id: &str, freq_hz: u64) -> Bookmark {
    Bookmark {
        id: id.to_string(),
        name: id.to_string(),
        freq_hz,
        mode: "USB".to_string(),
        bandwidth_hz: None,
        locator: None,
        comment: String::new(),
        category: String::new(),
        decoders: vec!["ft8".to_string()],
    }
}

fn input() -> ReconcileInput {
    ReconcileInput {
        config: BackgroundDecodeConfig {
            rig_id: "hf".to_string(),
            enabled: true,
            bookmark_ids: vec!["a".to_string(), "far".to_string()],
        },
        users_connected: true,
        scheduler_allowed: false,
        scheduler_ids: Vec::new(),
        bookmarks: vec![bookmark("a", 7_074_000), bookmark("far", 28_074_000)],
        channels: Vec::new(),
        spectrum: Some(SpectrumSpan {
            center_hz: 7_100_000,
            sample_rate: 200_000,
        }),
    }
}

#[test]
fn channels_run_for_what_is_in_reach() {
    let mut manager = BackgroundDecodeManager::new();
    let rig = Some("hf".to_string());
    let cmds = manager.reconcile(&rig, &input());
    assert_eq!(cmds.len(), 1);
    assert_eq!(cmds[0].rig_id, "hf");
    assert!(matches!(
        cmds[0].cmd,
        VChanAudioCmd::SubscribeBackground { freq_hz: 7_074_000, .. }
    ));
    // A second pass finds nothing left to do.
    assert!(manager.reconcile(&rig, &input()).is_empty());
    assert_eq!(manager.active_channels.len(), 1);
    let status = manager.status("hf", &input().config, &input().bookmarks, &rig);
    assert!(status.active_rig);
    let states: Vec<&str> = status.entries.iter().map(|e| e.state.as_str()).collect();
    assert_eq!(states, vec!["active", "out_of_span"]);
    // A channel of a user takes over.
    let mut covered = input();
    covered.channels = vec![ClientChannel {
        freq_hz: 7_074_000,
        mode: "USB".to_string(),
    }];
    let cmds = manager.reconcile(&rig, &covered);
    assert!(matches!(cmds[0].cmd, VChanAudioCmd::Remove(_)));
    assert!(manager.active_channels.is_empty());
}

#[test]
fn channels_go_with_their_rig() {
    let mut manager = BackgroundDecodeManager::new();
    manager.reconcile(&Some("hf".to_string()), &input());
    let cmds = manager.reconcile(&None, &input());
    assert_eq!(cmds.len(), 1);
    assert!(matches!(cmds[0].cmd, VChanAudioCmd::Remove(_)));
    assert_eq!(manager.current_rig_id, None);
    manager.reconcile_with(&Some("hf".to_string()), &input(), &vec![5, 6]);
    assert_eq!(manager.active_channels[0].uuid, 5);
    assert_eq!(manager.clear_runtime_channels().len(), 1);
}

fn auth() -> AuthState {
    AuthState::new(AuthConfig::new(
        true,
        Some("listen".to_string()),
        Some("drive".to_string()),
        true,
        60,
        true,
        SameSite::Strict,
    ))
}

fn passphrase(s: &str) -> LoginRequest {
    LoginRequest {
        passphrase: s.to_string(),
    }
}

#[test]
fn sessions_live_for_their_time() {
    let mut store = SessionStore::new();
    store.create_at(AuthRole::Rx, 10, 1_000, "s");
    assert!(store.get_at("s", 1_000).is_some());
    assert!(store.get_at("s", 10_000_000_500).is_some());
    store.create_at(AuthRole::Rx, 100, 1_000, "t");
    store.cleanup_expired_at(11_000_000_000);
    assert!(store.get_at("s", 11_000_000_000).is_none());
    assert!(store.get_at("t", 11_000_000_000).is_some());
    store.remove("t");
    assert!(store.get_at("t", 11_000_000_000).is_none());
    let a = store.create(AuthRole::Control, 60);
    let b = store.create(AuthRole::Control, 60);
    assert_ne!(a, b);
    assert_eq!(a.len(), 32);
    store.cleanup_expired();
    assert!(store.get(&a).is_some());
}

#[test]
fn a_session_is_alive_at_its_last_moment() {
    let end: u128 = 10_000_001_000;
    let mut store = SessionStore::new();
    store.create_at(AuthRole::Rx, 10, 1_000, "s");
    store.cleanup_expired_at(end);
    assert!(store.get_at("s", end).is_some());
    assert!(store.get_at("s", end + 1).is_none());
    store.create_at(AuthRole::Rx, 10, 1_000, "t");
    store.cleanup_expired_at(end + 1);
    assert!(store.get_at("t", end).is_none());
}

#[test]
fn logging_in_opens_the_routes() {
    let mut state = auth();
    assert!(matches!(state.login(&passphrase("wrong")), LoginOutcome::Denied));
    assert_eq!(state.login(&passphrase("wrong")).status_code(), 401);
    assert_eq!(LoginOutcome::Disabled.status_code(), 404);
    assert_eq!(state.login(&passphrase("listen")).status_code(), 200);
    let rx = match state.login_at(&passphrase("listen"), 5, "r".to_string()) {
        LoginOutcome::Granted { session_id, response } => {
            assert_eq!(response.role, "rx");
            Some(session_id)
        }
        other => panic!("{other:?}"),
    };
    let control = match state.login_at(&passphrase("drive"), 5, "c".to_string()) {
        LoginOutcome::Granted { session_id, .. } => Some(session_id),
        other => panic!("{other:?}"),
    };
    assert!(state.admits_at("/status", &rx, 6).is_ok());
    assert!(state.admits_at("/set_freq", &rx, 6).is_err());
    assert!(state.admits_at("/set_freq", &control, 6).is_ok());
    assert!(state.admits_at("/", &None, 6).is_ok());
    assert!(state.admits_at("/status", &None, 6).is_err());
    assert!(state.require_control_at(&control, 6).is_ok());
    let refused = state.require_control_at(&rx, 6).expect_err("no control");
    assert_eq!((refused.status, refused.text.as_str()), (403, "control role required"));
    let refused = state.admits_at("/status", &None, 6).expect_err("no session");
    assert_eq!((refused.status, refused.text.as_str()), (401, "Unauthorized"));
    let status = state.session_status_at(&rx, 6);
    assert!(status.authenticated);
    assert_eq!(status.role, Some("rx".to_string()));
    assert!(state.logout(&rx));
    assert!(!state.session_status_at(&rx, 6).authenticated);
    // After its time a session opens nothing.
    assert!(state.admits_at("/status", &control, 100_000_000_000).is_err());
    let mut open = auth();
    open.config.enabled = false;
    assert!(matches!(open.login(&passphrase("listen")), LoginOutcome::Disabled));
    assert!(open.admits_at("/set_freq", &None, 0).is_ok());
    assert!(RouteAccess::Control.allows(Some(AuthRole::Control)));
}

#[test]
fn cookies_carry_the_session() {
    let cookie = login_cookie(&auth().config, "abc");
    assert_eq!((cookie.name.as_str(), cookie.value.as_str()), (SESSION_COOKIE, "abc"));
    assert!(cookie.http_only && cookie.secure);
    assert_eq!(cookie.same_site, Some(SameSite::Strict));
    assert_eq!(cookie.max_age_secs, 60);
    let gone = logout_cookie();
    assert_eq!((gone.value.as_str(), gone.max_age_secs), ("", 0));
    assert_eq!(SameSite::from_name("None").as_str(), "None");
    assert_eq!(SameSite::from_name("other"), SameSite::Lax);
}

#[test]
fn addresses_read_back() {
    for (host, port) in [
        ("host", 1u16),
        ("::1", 7000),
        ("10.0.0.1", 65535),
        ("odd]host", 80),
        (" ::1", 80),
    ] {
        let ep = RemoteEndpoint {
            host: host.to_string(),
            port,
        };
        assert_eq!(parse_remote_url(&ep.connect_addr()), Ok(ep));
    }
    assert_eq!(parse_audio_url("host").expect("a host").port, 4531);
    assert!(parse_remote_url("").is_err());
    assert!(parse_remote_url("host:notaport").is_err());
    assert!(parse_remote_url("[::1").is_err());
}
