use trx_client::config::{
    example_config, validate_log_level, validate_tokens, ClientConfig, CookieSameSite,
    HttpAuthConfig,
};

#[test]
fn test_default_config() {
    let config = ClientConfig::default();
    assert!(config.frontends.http.enabled);
    assert!(!config.frontends.rigctl.enabled);
    assert_eq!(config.frontends.http.port, 8080);
    assert_eq!(config.frontends.rigctl.port, 4532);
    assert!(config.frontends.http_json.enabled);
    assert_eq!(config.frontends.http_json.port, 0);
    assert!(config.remote.url.is_none());
    assert_eq!(config.remote.poll_interval_ms, 750);
    assert!(config.frontends.audio.enabled);
    assert_eq!(config.frontends.audio.server_port, 4531);
    assert!(config.frontends.audio.rig_ports.entries.is_empty());
    assert!(!config.frontends.audio.bridge.enabled);
    assert_eq!(f32::from_bits(config.frontends.audio.bridge.rx_gain_bits), 1.0);
    assert_eq!(f32::from_bits(config.frontends.audio.bridge.tx_gain_bits), 1.0);
}

#[test]
fn test_validate_rejects_zero_poll_interval() {
    let mut config = ClientConfig::default();
    config.remote.poll_interval_ms = 0;
    assert!(config.validate().is_err());
}

#[test]
fn test_validate_rejects_empty_remote_rig_id() {
    let mut config = ClientConfig::default();
    config.remote.rig_id = Some("  ".to_string());
    assert!(config.validate().is_err());
}

#[test]
fn test_validate_rejects_empty_http_json_token() {
    let mut config = ClientConfig::default();
    config.frontends.http_json.auth.tokens = vec!["".to_string()];
    assert!(config.validate().is_err());
}

#[test]
fn test_validate_rejects_zero_audio_rig_port() {
    let mut config = ClientConfig::default();
    config.frontends.audio.rig_ports.insert("ft817", 0);
    assert!(config.validate().is_err());
}

#[test]
fn test_validate_rejects_http_auth_enabled_without_passphrases() {
    let mut config = ClientConfig::default();
    config.frontends.http.auth.enabled = true;
    assert!(config.validate().is_err());
}

#[test]
fn test_validate_accepts_http_auth_with_rx_passphrase() {
    let mut config = ClientConfig::default();
    config.frontends.http.auth.enabled = true;
    config.frontends.http.auth.rx_passphrase = Some("rx-secret".to_string());
    assert!(config.validate().is_ok());
}

#[test]
fn test_validate_accepts_http_auth_with_control_passphrase() {
    let mut config = ClientConfig::default();
    config.frontends.http.auth.enabled = true;
    config.frontends.http.auth.control_passphrase = Some("control-secret".to_string());
    assert!(config.validate().is_ok());
}

#[test]
fn test_validate_accepts_http_auth_with_both_passphrases() {
    let mut config = ClientConfig::default();
    config.frontends.http.auth.enabled = true;
    config.frontends.http.auth.rx_passphrase = Some("rx-secret".to_string());
    config.frontends.http.auth.control_passphrase = Some("control-secret".to_string());
    assert!(config.validate().is_ok());
}

#[test]
fn test_validate_rejects_empty_rx_passphrase() {
    let mut config = ClientConfig::default();
    config.frontends.http.auth.enabled = true;
    config.frontends.http.auth.rx_passphrase = Some("".to_string());
    assert!(config.validate().is_err());
}

#[test]
fn test_validate_rejects_zero_session_ttl() {
    let mut config = ClientConfig::default();
    config.frontends.http.auth.enabled = true;
    config.frontends.http.auth.rx_passphrase = Some("rx-secret".to_string());
    config.frontends.http.auth.session_ttl_min = 0;
    assert!(config.validate().is_err());
}

#[test]
fn test_validate_auth_disabled_ignores_passphrases() {
    let mut config = ClientConfig::default();
    config.frontends.http.auth.enabled = false;
    config.frontends.http.auth.rx_passphrase = Some("".to_string());
    assert!(config.validate().is_ok());
}

#[test]
fn test_http_auth_config_default() {
    let auth = HttpAuthConfig::default();
    assert!(!auth.enabled);
    assert!(auth.rx_passphrase.is_none());
    assert!(auth.control_passphrase.is_none());
    assert!(auth.tx_access_control_enabled);
    assert_eq!(auth.session_ttl_min, 480);
    assert!(!auth.cookie_secure);
    assert!(matches!(auth.cookie_same_site, CookieSameSite::Lax));
}

#[test]
fn test_http_auth_session_ttl_conversion() {
    let auth = HttpAuthConfig {
        session_ttl_min: 60,
        ..Default::default()
    };
    assert_eq!(auth.session_ttl(), 3600);
}

#[test]
fn the_default_configuration_is_valid() {
    assert_eq!(ClientConfig::default().validate(), Ok(()));
    assert_eq!(example_config().validate(), Ok(()));
}

#[test]
fn log_levels_are_the_five_known_ones() {
    for level in ["trace", "debug", "info", "warn", "error"] {
        assert_eq!(validate_log_level(&Some(level.to_string())), Ok(()));
    }
    assert_eq!(validate_log_level(&None), Ok(()));
    assert_eq!(
        validate_log_level(&Some("loud".to_string())),
        Err(
            "[general].log_level 'loud' is invalid (expected one of: trace, debug, info, warn, error)"
                .to_string()
        )
    );
    assert!(validate_log_level(&Some("INFO".to_string())).is_err());
}

#[test]
fn blank_tokens_are_named_by_their_place() {
    assert_eq!(
        validate_tokens("[x].tokens", &vec!["a".to_string(), " \t".to_string()]),
        Err("[x].tokens must not contain empty tokens".to_string())
    );
    assert_eq!(validate_tokens("[x].tokens", &vec!["a".to_string()]), Ok(()));
    assert_eq!(validate_tokens("[x].tokens", &Vec::new()), Ok(()));
}

#[test]
fn gains_must_be_finite_and_not_negative() {
    let accepts = |gain: f32| {
        let mut config = ClientConfig::default();
        config.frontends.audio.bridge.rx_gain_bits = gain.to_bits();
        config.validate().is_ok()
    };
    assert!(accepts(0.0));
    assert!(accepts(-0.0));
    assert!(accepts(2.5));
    assert!(!accepts(-0.5));
    assert!(!accepts(f32::NAN));
    assert!(!accepts(f32::INFINITY));
    let mut config = ClientConfig::default();
    config.frontends.audio.bridge.tx_gain_bits = (-1.0f32).to_bits();
    assert!(config.validate().is_err());
}

#[test]
fn enabled_frontends_need_a_port() {
    let mut config = ClientConfig::default();
    config.frontends.http.port = 0;
    assert!(config.validate().is_err());
    config.frontends.http.enabled = false;
    assert!(config.validate().is_ok());
    config.frontends.audio.server_port = 0;
    assert!(config.validate().is_err());
}

#[test]
fn blank_url_and_token_are_rejected() {
    let mut config = ClientConfig::default();
    config.remote.url = Some(" ".to_string());
    assert!(config.validate().is_err());
    let mut config = ClientConfig::default();
    config.remote.auth.token = Some("".to_string());
    assert!(config.validate().is_err());
    config.remote.auth.token = Some("t".to_string());
    config.remote.url = Some("host:4530".to_string());
    assert!(config.validate().is_ok());
}
