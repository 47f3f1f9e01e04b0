use trx_client::auth::{
    constant_time_eq, is_tx_endpoint, AuthConfig, AuthRole, RouteAccess, SameSite, SessionStore,
};

#[test]
fn test_route_access_public_paths() {
    assert_eq!(RouteAccess::from_path("/"), RouteAccess::Public);
    assert_eq!(RouteAccess::from_path("/auth/login"), RouteAccess::Public);
    assert_eq!(RouteAccess::from_path("/auth/logout"), RouteAccess::Public);
    assert_eq!(RouteAccess::from_path("/style.css"), RouteAccess::Public);
    assert_eq!(RouteAccess::from_path("/app.js"), RouteAccess::Public);
}

#[test]
fn test_route_access_read_paths() {
    assert_eq!(RouteAccess::from_path("/status"), RouteAccess::Read);
    assert_eq!(RouteAccess::from_path("/events"), RouteAccess::Read);
    assert_eq!(RouteAccess::from_path("/decode"), RouteAccess::Read);
    assert_eq!(RouteAccess::from_path("/audio"), RouteAccess::Read);
}

#[test]
fn test_route_access_control_paths() {
    assert_eq!(
        RouteAccess::from_path("/set_freq"),
        RouteAccess::Control
    );
    assert_eq!(
        RouteAccess::from_path("/set_mode"),
        RouteAccess::Control
    );
}

#[test]
fn test_route_access_allows() {
    assert!(RouteAccess::Public.allows(None));
    assert!(RouteAccess::Public.allows(Some(AuthRole::Rx)));
    assert!(RouteAccess::Public.allows(Some(AuthRole::Control)));

    assert!(!RouteAccess::Read.allows(None));
    assert!(RouteAccess::Read.allows(Some(AuthRole::Rx)));
    assert!(RouteAccess::Read.allows(Some(AuthRole::Control)));

    assert!(!RouteAccess::Control.allows(None));
    assert!(!RouteAccess::Control.allows(Some(AuthRole::Rx)));
    assert!(RouteAccess::Control.allows(Some(AuthRole::Control)));
}

#[test]
fn test_session_store_create_and_get() {
    let mut store = SessionStore::new();
    let ttl = 3600;
    let session_id = store.create(AuthRole::Rx, ttl);

    let record = store.get(&session_id);
    assert!(record.is_some());
    let record = record.unwrap();
    assert_eq!(record.role, AuthRole::Rx);
    assert!(!record.is_expired());
}

#[test]
fn test_session_store_remove() {
    let mut store = SessionStore::new();
    let ttl = 3600;
    let session_id = store.create(AuthRole::Rx, ttl);

    store.remove(&session_id);
    assert!(store.get(&session_id).is_none());
}

#[test]
fn test_constant_time_eq() {
    assert!(constant_time_eq("test", "test"));
    assert!(!constant_time_eq("test", "fail"));
    assert!(!constant_time_eq("test", "test2"));
    assert!(!constant_time_eq("", "test"));
}

#[test]
fn test_auth_config_check_passphrase_control() {
    let config = AuthConfig {
        enabled: true,
        rx_passphrase: None,
        control_passphrase: Some("ctrl-pass".to_string()),
        tx_access_control_enabled: true,
        session_ttl: 3600,
        cookie_secure: false,
        cookie_same_site: SameSite::Lax,
    };

    assert_eq!(
        config.check_passphrase("ctrl-pass"),
        Some(AuthRole::Control)
    );
    assert_eq!(config.check_passphrase("wrong"), None);
}

#[test]
fn test_auth_config_check_passphrase_rx() {
    let config = AuthConfig {
        enabled: true,
        rx_passphrase: Some("rx-pass".to_string()),
        control_passphrase: None,
        tx_access_control_enabled: true,
        session_ttl: 3600,
        cookie_secure: false,
        cookie_same_site: SameSite::Lax,
    };

    assert_eq!(config.check_passphrase("rx-pass"), Some(AuthRole::Rx));
    assert_eq!(config.check_passphrase("wrong"), None);
}

#[test]
fn test_auth_config_check_passphrase_both() {
    let config = AuthConfig {
        enabled: true,
        rx_passphrase: Some("rx-pass".to_string()),
        control_passphrase: Some("ctrl-pass".to_string()),
        tx_access_control_enabled: true,
        session_ttl: 3600,
        cookie_secure: false,
        cookie_same_site: SameSite::Lax,
    };

    // Control is checked first
    assert_eq!(
        config.check_passphrase("ctrl-pass"),
        Some(AuthRole::Control)
    );
    assert_eq!(config.check_passphrase("rx-pass"), Some(AuthRole::Rx));
    assert_eq!(config.check_passphrase("wrong"), None);
}

#[test]
fn test_is_tx_endpoint() {
    assert!(is_tx_endpoint("/set_ptt"));
    assert!(is_tx_endpoint("/toggle_ptt"));
    assert!(is_tx_endpoint("/set_tx"));
    assert!(!is_tx_endpoint("/status"));
}
