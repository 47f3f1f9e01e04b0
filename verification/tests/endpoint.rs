use trx_client::endpoint::{parse_audio_url, parse_remote_url, RemoteEndpoint};

#[test]
fn parse_host_default_port() {
    let parsed = parse_remote_url("example.local").expect("must parse");
    assert_eq!(
        parsed,
        RemoteEndpoint {
            host: "example.local".to_string(),
            port: 4530
        }
    );
}

#[test]
fn parse_audio_host_default_port() {
    let parsed = parse_audio_url("audio.example.local").expect("must parse");
    assert_eq!(
        parsed,
        RemoteEndpoint {
            host: "audio.example.local".to_string(),
            port: 4531
        }
    );
}

#[test]
fn parse_ipv4_with_port() {
    let parsed = parse_remote_url("tcp://127.0.0.1:9000").expect("must parse");
    assert_eq!(
        parsed,
        RemoteEndpoint {
            host: "127.0.0.1".to_string(),
            port: 9000
        }
    );
}

#[test]
fn parse_bracketed_ipv6() {
    let parsed = parse_remote_url("http-json://[::1]:7000").expect("must parse");
    assert_eq!(
        parsed,
        RemoteEndpoint {
            host: "::1".to_string(),
            port: 7000
        }
    );
}

#[test]
fn reject_unbracketed_ipv6() {
    let err = parse_remote_url("::1:7000").expect_err("must fail");
    assert!(err.contains("must be bracketed"));
}

