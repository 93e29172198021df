use cntlm_next::config::{looks_like_ip, parse_host_port, AuthMode};
use cntlm_next::{Config, Mode};

#[test]
fn parse_host_port_ok() {
    assert_eq!(
        parse_host_port("proxy.xxx.com:8080").unwrap(),
        ("proxy.xxx.com".into(), 8080)
    );
    assert_eq!(
        parse_host_port("127.0.0.1:3128").unwrap(),
        ("127.0.0.1".into(), 3128)
    );
}

#[test]
fn proxy_mode_requires_upstream() {
    let cfg = Config {
        mode: Mode::Proxy,
        upstream: None,
        ..Config::default()
    };
    assert!(cfg.validate().is_err());
}

#[test]
fn defaults_are_valid() {
    let cfg = Config::default();
    assert!(cfg.validate().is_ok());
    assert_eq!(cfg.listen, "127.0.0.1:3128");
    assert_eq!(cfg.mode, Mode::System);
    assert_eq!(cfg.auth, AuthMode::Auto);
    assert_eq!(cfg.upstream, None);
    assert_eq!(cfg.pac, None);
    assert_eq!(
        cfg.noproxy,
        vec![
            "localhost",
            "127.0.0.1",
            "::1",
            "10.0.0.0/8",
            "192.168.0.0/16",
            "172.16.0.0/12"
        ]
    );
    assert_eq!(cfg.test_url, "https://example.com");
    assert_eq!(cfg.blacklist_timeout, 30);
    assert_eq!(cfg.max_buffered_body, 1_048_576);
    assert_eq!(Mode::default(), Mode::System);
    assert_eq!(AuthMode::default(), AuthMode::Auto);
}

#[test]
fn host_and_port_of_odd_texts() {
    assert_eq!(
        parse_host_port("  [::1]:80 ").unwrap(),
        ("::1".into(), 80)
    );
    assert_eq!(
        parse_host_port("[2001:DB8:0:0:0:0:0:1]:443").unwrap(),
        ("2001:db8::1".into(), 443)
    );
    assert_eq!(
        parse_host_port("fe80::1:8080").unwrap(),
        ("fe80::1".into(), 8080)
    );
    assert_eq!(parse_host_port("host:+80").unwrap(), ("host".into(), 80));
    assert_eq!(parse_host_port("host]:80").unwrap(), ("host".into(), 80));
    assert_eq!(
        parse_host_port(" nope ").unwrap_err(),
        "expected host:port, got \"nope\""
    );
    assert_eq!(
        parse_host_port("host:65536").unwrap_err(),
        "expected host:port, got \"host:65536\""
    );
    assert_eq!(
        parse_host_port(":80").unwrap_err(),
        "expected host:port, got \":80\""
    );
    assert_eq!(
        parse_host_port("[host]:80").unwrap_err(),
        "expected host:port, got \"[host]:80\""
    );
    assert_eq!(
        parse_host_port("a\tb").unwrap_err(),
        "expected host:port, got \"a\\tb\""
    );
}

#[test]
fn faults_of_settings() {
    let listen = Config {
        listen: "localhost:3128".into(),
        ..Config::default()
    };
    assert_eq!(
        listen.validate().unwrap_err().display(),
        "config: invalid listen localhost:3128: invalid socket address syntax"
    );
    let upstream = Config {
        mode: Mode::Proxy,
        upstream: Some("proxy".into()),
        ..Config::default()
    };
    assert_eq!(
        upstream.validate().unwrap_err().display(),
        "config: expected host:port, got \"proxy\""
    );
    assert_eq!(
        upstream.upstream_addr().unwrap_err().display(),
        "config: expected host:port, got \"proxy\""
    );
    let missing = Config {
        mode: Mode::Proxy,
        ..Config::default()
    };
    assert_eq!(
        missing.validate().unwrap_err().display(),
        "config: mode=proxy requires upstream = \"host:port\""
    );
    assert_eq!(
        missing.upstream_addr().unwrap_err().display(),
        "config: upstream is not set"
    );
    let pac = Config {
        mode: Mode::Pac,
        pac: Some("  ".into()),
        ..Config::default()
    };
    assert_eq!(
        pac.validate().unwrap_err().display(),
        "config: mode=pac requires pac = \"http://...\" or a file path"
    );
    let good = Config {
        mode: Mode::Pac,
        pac: Some("http://pac.xxx.com/proxy.pac".into()),
        ..Config::default()
    };
    assert!(good.validate().is_ok());
    let fixed = Config {
        mode: Mode::Proxy,
        upstream: Some("proxy.xxx.com:8080".into()),
        ..Config::default()
    };
    assert!(fixed.validate().is_ok());
    assert_eq!(
        fixed.upstream_addr().unwrap(),
        ("proxy.xxx.com".into(), 8080)
    );
}

#[test]
fn environment_lines() {
    assert_eq!(
        Config::default().env_lines(),
        vec![
            "set HTTP_PROXY=http://127.0.0.1:3128",
            "set HTTPS_PROXY=http://127.0.0.1:3128",
            "set NO_PROXY=localhost,127.0.0.1",
            "git config --global http.proxy http://127.0.0.1:3128",
            "git config --global https.proxy http://127.0.0.1:3128",
        ]
    );
}

#[test]
fn texts_that_look_like_addresses() {
    assert!(looks_like_ip("10.0.0.1"));
    assert!(looks_like_ip("::ffff:1.2.3.4"));
    assert!(!looks_like_ip("10.0.0"));
    assert!(!looks_like_ip("example.com"));
}
