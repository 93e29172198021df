use cntlm_next::config::AuthMode;
use cntlm_next::doctor::{
    auth_name, dest_from_test_url, direct_ok, fail_line, heading, hops_line, mode_name,
    none_worked, ok_line, probe_request, route, selftest_line, target_line, verdict, Selftest,
};
use cntlm_next::error::Error;
use cntlm_next::hop::Hop;
use cntlm_next::http1::ServerResponse;
use cntlm_next::platform::Platform;
use cntlm_next::service::{
    create_args, delete_args, install, query_args, removed, status, task_xml, uninstall, xml_escape,
};
use cntlm_next::{Config, Mode};

fn response(status: u16) -> ServerResponse {
    ServerResponse {
        version: "HTTP/1.1".into(),
        status,
        reason: "Why".into(),
        headers: vec![
            ("Proxy-Authenticate".into(), "NTLM".into()),
            ("proxy-authenticate".into(), "Basic".into()),
        ],
    }
}

#[test]
fn destinations_of_urls() {
    assert_eq!(
        dest_from_test_url(" https://example.com/x ").unwrap(),
        ("example.com".into(), 443)
    );
    assert_eq!(
        dest_from_test_url("http://example.com").unwrap(),
        ("example.com".into(), 80)
    );
    assert_eq!(
        dest_from_test_url("http://example.com:81/").unwrap(),
        ("example.com".into(), 81)
    );
    assert_eq!(
        dest_from_test_url("https://a:b").unwrap_err().display(),
        "config: expected host:port, got \"a:b\""
    );
    assert_eq!(
        dest_from_test_url(" ftp://a ").unwrap_err().display(),
        "config: test_url must be http(s)://... (ftp://a)"
    );
}

#[test]
fn trial_requests() {
    let tunnel = probe_request("https://h/x", "h", 443);
    assert_eq!(tunnel.method, "CONNECT");
    assert_eq!(tunnel.target, "h:443");
    assert_eq!(tunnel.headers, vec![("Host".into(), "h:443".into())]);
    let get = probe_request("http://h/x", "h", 80);
    assert_eq!(get.method, "GET");
    assert_eq!(get.target, "http://h/x");
    assert_eq!(get.version, "HTTP/1.1");
    assert_eq!(
        get.headers,
        vec![
            ("Host".into(), "h".into()),
            ("User-Agent".into(), "ntgate/0.1".into())
        ]
    );
    assert!(get.body.is_empty());
}

#[test]
fn verdicts() {
    assert_eq!(
        verdict("p", 1, &response(200)).unwrap(),
        "p:1 -> HTTP 200 Why"
    );
    assert_eq!(
        verdict("p", 1, &response(399)).unwrap(),
        "p:1 -> HTTP 399 Why"
    );
    assert_eq!(
        verdict("p", 1, &response(407)).unwrap_err().display(),
        "auth: still 407 after handshake (NTLM, Basic)"
    );
    assert_eq!(
        verdict("p", 1, &response(400)).unwrap_err().display(),
        "upstream p:1: 400 Why"
    );
    assert_eq!(
        verdict("p", 1, &response(199)).unwrap_err().display(),
        "upstream p:1: 199 Why"
    );
    assert_eq!(direct_ok("h", 2), "direct TCP h:2");
}

#[test]
fn report_lines() {
    let cfg = Config {
        mode: Mode::Pac,
        pac: Some("s".into()),
        ..Config::default()
    };
    assert_eq!(
        heading("0.2.1", "/x", &cfg),
        vec![
            "ntgate      0.2.1",
            "exe         /x",
            "listen      127.0.0.1:3128",
            "mode        Pac",
            "pac         s",
            "test_url    https://example.com",
            "auth        Auto",
        ]
    );
    assert_eq!(heading("v", "x", &Config::default()).len(), 6);
    assert_eq!(target_line("h", 1), "target      h:1");
    let hops = vec![
        Hop::Http {
            host: "p".into(),
            port: 8,
        },
        Hop::Direct,
    ];
    assert_eq!(hops_line(&hops), "hops        p:8 -> DIRECT");
    assert_eq!(route(&hops, ", "), "p:8, DIRECT");
    assert_eq!(route(&[], ", "), "");
    assert_eq!(
        selftest_line(&Selftest::Deaf("e".into())),
        "selftest    listen fail e"
    );
    assert_eq!(
        selftest_line(&Selftest::Fine(9)),
        "selftest    ok 127.0.0.1:9"
    );
    assert_eq!(
        selftest_line(&Selftest::Failed(Error::msg("e"))),
        "selftest    fail e"
    );
    assert_eq!(ok_line("m"), "ok          m");
    assert_eq!(
        fail_line("v", &hops[0], &Error::msg("e")),
        "fail        ntgate v p:8 (e)"
    );
    assert_eq!(none_worked(None).display(), "no hop succeeded");
    assert_eq!(
        none_worked(Some(Error::Auth("x".into()))).display(),
        "auth: x"
    );
    assert_eq!(mode_name(Mode::System), format!("{:?}", Mode::System));
    assert_eq!(mode_name(Mode::Pac), format!("{:?}", Mode::Pac));
    assert_eq!(mode_name(Mode::Proxy), format!("{:?}", Mode::Proxy));
    assert_eq!(auth_name(AuthMode::Auto), format!("{:?}", AuthMode::Auto));
    assert_eq!(auth_name(AuthMode::Ntlm), format!("{:?}", AuthMode::Ntlm));
    assert_eq!(
        auth_name(AuthMode::Negotiate),
        format!("{:?}", AuthMode::Negotiate)
    );
}

#[test]
fn escapes() {
    assert_eq!(
        xml_escape("a&b<c>d\"e'&amp;"),
        "a&amp;b&lt;c&gt;d&quot;e'&amp;amp;"
    );
    let escaped = xml_escape("<\"&>");
    assert!(!escaped.contains(['<', '>', '"']));
}

#[test]
fn task_descriptions() {
    let xml = task_xml("C:\\a&b.exe", "C:\\c.toml");
    assert!(xml.starts_with("<?xml version=\"1.0\" encoding=\"UTF-16\"?>\n<Task version=\"1.2\""));
    assert!(xml.contains("\n      <Command>C:\\a&amp;b.exe</Command>\n"));
    assert!(xml.contains("\n      <Arguments>run -c &quot;C:\\c.toml&quot;</Arguments>\n"));
    assert!(xml.contains("      <Interval>PT5S</Interval>\n      <Count>3</Count>\n"));
    assert!(xml.ends_with("  </Actions>\n</Task>\n"));
    assert_eq!(xml.lines().count(), 46);
}

#[test]
fn installing() {
    let plan = install(Platform::Windows, "C:/x/p.exe", "C:/y/c.toml").unwrap();
    assert_eq!(plan.exe, "C:\\x\\p.exe");
    assert_eq!(plan.config, "C:\\y\\c.toml");
    assert_eq!(plan.xml, task_xml("C:\\x\\p.exe", "C:\\y\\c.toml"));
    assert_eq!(
        plan.registered(true, b"").unwrap(),
        vec![
            "installed logon task `cntlm-next`",
            "  exe     C:\\x\\p.exe",
            "  config  C:\\y\\c.toml",
            "  starts at user logon, restarts on failure",
        ]
    );
    assert_eq!(
        plan.registered(false, b"no\xff").unwrap_err().display(),
        "schtasks failed: no\u{fffd}"
    );
    assert_eq!(
        install(Platform::Other, "x", "y").unwrap_err().display(),
        "unsupported on this OS: install registers a Windows logon task; this OS is not supported"
    );
    assert_eq!(
        create_args("t.xml"),
        vec!["/Create", "/TN", "cntlm-next", "/XML", "t.xml", "/F"]
    );
}

#[test]
fn uninstalling() {
    assert!(uninstall(Platform::Windows).is_ok());
    assert_eq!(
        uninstall(Platform::Other).unwrap_err().display(),
        "unsupported on this OS: uninstall is Windows-only"
    );
    assert_eq!(
        removed(true, b"").unwrap(),
        "removed logon task `cntlm-next`"
    );
    assert!(removed(false, b"ERROR: The system CANNOT find the file.").is_ok());
    assert_eq!(
        removed(false, b"denied").unwrap_err().display(),
        "schtasks delete failed: denied"
    );
    assert_eq!(delete_args(), vec!["/Delete", "/TN", "cntlm-next", "/F"]);
}

#[test]
fn status_lines() {
    let cfg = Config::default();
    assert_eq!(
        status(Platform::Windows, "c.toml", &cfg, true),
        vec![
            "config      c.toml",
            "listen      127.0.0.1:3128",
            "mode        System",
            "service     installed (Task Scheduler `cntlm-next`)",
        ]
    );
    assert_eq!(
        status(Platform::Windows, "c", &cfg, false)[3],
        "service     not installed"
    );
    assert_eq!(
        status(Platform::Other, "c", &cfg, false)[3],
        "service     not applicable (Windows-only)"
    );
    assert_eq!(
        query_args(),
        vec!["/Query", "/TN", "cntlm-next", "/FO", "LIST"]
    );
}
