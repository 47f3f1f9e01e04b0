use trx_client::audio_client::AudioConnectConfig;
use trx_client::backoff::Backoff;
use trx_client::config::{ClientConfig, RemoteConfig};
use trx_client::registry::{normalize_name, FrontendRegistrationContext};
use trx_client::startup::{
    auth_tokens, callsign, check_frontends, default_audio_connect, first_host, global_audio_addr,
    group_names, group_poll_interval, group_servers, initial_rig, join_names, listen_address,
    parse_endpoints, resolve_audio_connect, resolve_frontends, resolve_remotes, rigctl_address,
    rigctl_listeners, route_request, CliOptions, RemoteEntry,
};
use trx_client::table::Table;

fn no_options() -> CliOptions {
    CliOptions {
        url: None,
        token: None,
        poll_interval_ms: None,
        rig_id: None,
        frontends: None,
        http_listen: None,
        http_port: None,
        rigctl_listen: None,
        http_json_listen: None,
        http_json_port: None,
        callsign: None,
    }
}

fn entry(name: &str, url: &str, rig_id: Option<&str>, poll_interval_ms: u64) -> RemoteEntry {
    RemoteEntry {
        name: name.to_string(),
        url: url.to_string(),
        rig_id: rig_id.map(|r| r.to_string()),
        token: None,
        poll_interval_ms,
    }
}

#[test]
fn the_command_line_comes_first() {
    let mut remote = RemoteConfig::default();
    assert_eq!(
        resolve_remotes(&no_options(), &remote).expect_err("no server"),
        "No remote servers configured. Use --url or add [[remotes]] entries in config."
    );
    remote.url = Some("cfg:1".to_string());
    remote.rig_id = Some("hf".to_string());
    let found = resolve_remotes(&no_options(), &remote).expect("configured");
    assert_eq!((found[0].name.as_str(), found[0].url.as_str()), ("hf", "cfg:1"));
    assert_eq!(found[0].poll_interval_ms, 750);
    let mut cli = no_options();
    cli.url = Some("cli:2".to_string());
    cli.poll_interval_ms = Some(100);
    cli.callsign = Some("W1AW".to_string());
    let found = resolve_remotes(&cli, &remote).expect("given");
    assert_eq!(found[0].url, "cli:2");
    assert_eq!(found[0].rig_id, Some("hf".to_string()));
    assert_eq!(found[0].poll_interval_ms, 100);
    let cfg = ClientConfig::default();
    assert_eq!(callsign(&cli, &cfg), Some("W1AW".to_string()));
    assert_eq!(callsign(&no_options(), &cfg), Some("N0CALL".to_string()));
    assert_eq!(initial_rig(&cli, &cfg, &found), Some("hf".to_string()));
    assert_eq!(initial_rig(&cli, &cfg, &Vec::new()), None);
}

#[test]
fn entries_of_one_server_share_a_connection() {
    let entries = vec![
        entry("b", "host:4530", Some("vhf"), 500),
        entry("c", "other", None, 900),
        entry("a", "tcp://host", Some("hf"), 300),
    ];
    let eps = parse_endpoints(&entries).expect("addresses");
    let groups = group_servers(&entries, &eps);
    assert_eq!(groups.len(), 2);
    assert_eq!(groups[0].addr, "host:4530");
    assert_eq!(groups[0].members, vec![0, 2]);
    assert_eq!(groups[1].members, vec![1]);
    assert_eq!(group_poll_interval(&entries, &groups[0].members), 300);
    let names = group_names(&entries, &groups[0].members);
    assert_eq!(names.by_rig.get("hf").map(|s| s.as_str()), Some("a"));
    assert_eq!(names.default, None);
    let names = group_names(&entries, &groups[1].members);
    assert_eq!(names.default, Some("c".to_string()));
    assert_eq!(first_host(&eps), "host");
    assert_eq!(first_host(&Vec::new()), "127.0.0.1");
    let bad = vec![entry("x", "::1:7000", None, 1)];
    let e = parse_endpoints(&bad).expect_err("no address");
    assert!(e.starts_with("Invalid URL for remote 'x': "));
}

#[test]
fn requests_go_to_the_server_of_their_rig() {
    let mut routes: Table<usize> = Table::new();
    assert_eq!(
        route_request(&routes, &None, &None),
        Err("no remote server available for this rig".to_string())
    );
    routes.insert("hf", 1);
    routes.insert("vhf", 2);
    assert_eq!(route_request(&routes, &Some("vhf".to_string()), &None), Ok(2));
    assert_eq!(route_request(&routes, &None, &Some("vhf".to_string())), Ok(2));
    assert_eq!(route_request(&routes, &None, &None), Ok(1));
}

#[test]
fn audio_goes_where_it_is_configured() {
    let mut urls: Table<String> = Table::new();
    let mut ports: Table<u16> = Table::new();
    urls.insert("a", "tcp://audio:9".to_string());
    ports.insert("b", 77);
    let global = global_audio_addr(&Some("all:5".to_string())).expect("an address");
    assert_eq!(global, Some("all:5".to_string()));
    assert_eq!(global_audio_addr(&None), Ok(None));
    assert!(global_audio_addr(&Some("::1:7000".to_string())).is_err());
    let connect = |name: &str, global: &Option<String>| {
        resolve_audio_connect(name, "host", &urls, global, &ports, 4531).expect("known")
    };
    assert!(matches!(connect("a", &global), AudioConnectConfig::Fixed(a) if a == "audio:9"));
    assert!(matches!(connect("b", &global), AudioConnectConfig::Fixed(a) if a == "all:5"));
    assert!(matches!(
        connect("b", &None),
        AudioConnectConfig::HostPort { host, port } if host == "host" && port == 77
    ));
    assert!(matches!(
        connect("c", &None),
        AudioConnectConfig::HostPort { host, port } if host == "host" && port == 4531
    ));
    assert!(matches!(
        default_audio_connect(&global, "host", 4531),
        AudioConnectConfig::Fixed(a) if a == "all:5"
    ));
    assert!(matches!(
        default_audio_connect(&None, "host", 4531),
        AudioConnectConfig::HostPort { host, port } if host == "host" && port == 4531
    ));
}

#[test]
fn some_frontend_starts() {
    let mut cfg = ClientConfig::default();
    assert_eq!(
        resolve_frontends(&no_options(), &cfg),
        vec!["http".to_string(), "httpjson".to_string()]
    );
    cfg.frontends.http.enabled = false;
    cfg.frontends.http_json.enabled = false;
    assert_eq!(resolve_frontends(&no_options(), &cfg), vec!["http".to_string()]);
    let mut cli = no_options();
    cli.frontends = Some(vec!["rigctl".to_string()]);
    assert_eq!(resolve_frontends(&cli, &cfg), vec!["rigctl".to_string()]);
    assert_eq!(join_names(&vec!["a".to_string(), "b".to_string()]), "a, b");
}

#[test]
fn frontends_are_known_by_plain_names() {
    assert_eq!(normalize_name("HTTP-Json "), "httpjson");
    assert_eq!(normalize_name(&normalize_name("A b")), normalize_name("A b"));
    let mut context: FrontendRegistrationContext<u8> = FrontendRegistrationContext::new();
    trx_client::frontend_http::register_frontend_on(&mut context, 1);
    trx_client::frontend_http_json::register_frontend_on(&mut context, 2);
    assert!(context.is_frontend_registered("Http"));
    assert_eq!(context.spawner_of("http-json"), Ok(&2));
    assert_eq!(
        context.spawner_of("appkit"),
        Err("Unknown frontend: appkit".to_string())
    );
    trx_client::frontend_appkit::register_frontend(&mut context, None);
    assert!(!context.is_frontend_registered("appkit"));
    trx_client::frontend_appkit::register_frontend(&mut context, Some(3));
    assert_eq!(
        context.registered_frontends(),
        vec!["appkit".to_string(), "http".to_string(), "httpjson".to_string()]
    );
    let mut other: FrontendRegistrationContext<u8> = FrontendRegistrationContext::new();
    other.register_frontend("http", 9);
    context.extend_from(&other);
    assert_eq!(context.spawner_of("http"), Ok(&9));
    assert_eq!(check_frontends(&vec!["http".to_string()], &context), Ok(()));
    let e = check_frontends(&vec!["http".to_string(), "x".to_string()], &context);
    assert_eq!(
        e,
        Err("Unknown frontend: x (available: appkit, http, httpjson)".to_string())
    );
}

#[test]
fn frontends_listen_where_they_are_told() {
    let mut cfg = ClientConfig::default();
    let mut cli = no_options();
    assert_eq!(
        listen_address("http", &cli, &cfg),
        Ok(("127.0.0.1".to_string(), 8080))
    );
    cli.http_json_port = Some(9);
    assert_eq!(
        listen_address("httpjson", &cli, &cfg),
        Ok(("127.0.0.1".to_string(), 9))
    );
    assert_eq!(
        listen_address("x", &cli, &cfg),
        Err("Frontend missing listen configuration: x".to_string())
    );
    assert_eq!(rigctl_address(&cli, &cfg), "127.0.0.1");
    assert!(rigctl_listeners(&cli, &cfg).is_empty());
    cfg.frontends.rigctl.rig_ports.insert("hf", 4532);
    cfg.frontends.rigctl.rig_ports.insert("vhf", 4533);
    cli.rigctl_listen = Some("0.0.0.0".to_string());
    let listeners = rigctl_listeners(&cli, &cfg);
    assert_eq!(listeners.len(), 2);
    for (listener, (rig_id, port)) in listeners.iter().zip([("hf", 4532), ("vhf", 4533)]) {
        assert_eq!((listener.rig_id.as_str(), listener.port), (rig_id, port));
        assert_eq!(listener.host, "0.0.0.0");
    }
    assert_eq!(
        auth_tokens(&vec!["".to_string(), "t".to_string()]),
        vec!["t".to_string()]
    );
}

#[test]
fn delays_grow_to_a_limit() {
    let mut backoff = Backoff::new();
    let mut seen = Vec::new();
    for _ in 0..6 {
        seen.push(backoff.delay_secs);
        backoff.grow();
    }
    assert_eq!(seen, vec![1, 2, 4, 8, 10, 10]);
    backoff.reset();
    assert_eq!(backoff.delay_secs, 1);
}
