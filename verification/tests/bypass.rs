use cntlm_next::ip::IpAddr;
use cntlm_next::noproxy::{self, cidr_contains, wildcard_match};

fn rules(items: &[&str]) -> Vec<String> {
    items.iter().map(|s| (*s).to_string()).collect()
}

fn glob(pattern: &str, value: &str) -> bool {
    let p: Vec<char> = pattern.chars().collect();
    let v: Vec<char> = value.chars().collect();
    wildcard_match(&p, &v)
}

#[test]
fn localhost_and_lan() {
    let r = rules(&["localhost", "127.0.0.1", "10.0.0.0/8", "*.corp.local"]);
    assert!(noproxy::matches("localhost", &r));
    assert!(noproxy::matches("127.0.0.1", &r));
    assert!(noproxy::matches("10.1.2.3", &r));
    assert!(!noproxy::matches("example.com", &r));
    assert!(noproxy::matches("app.corp.local", &r));
}

#[test]
fn wildcard_ip() {
    let r = rules(&["192.168.*"]);
    assert!(noproxy::matches("192.168.1.1", &r));
    assert!(!noproxy::matches("192.169.1.1", &r));
}

#[test]
fn names_and_their_parts() {
    let r = rules(&[" Corp.Local ", "", "::1", "2001:db8::/32"]);
    assert!(noproxy::matches("corp.local", &r));
    assert!(noproxy::matches(" A.CORP.LOCAL. ", &r));
    assert!(!noproxy::matches("xcorp.local", &r));
    assert!(!noproxy::matches("", &r));
    assert!(!noproxy::matches(" . ", &r));
    assert!(noproxy::matches("0:0:0:0:0:0:0:1", &r));
    assert!(noproxy::matches("2001:db8:1::5", &r));
    assert!(!noproxy::matches("2001:db9::5", &r));
    assert!(!noproxy::matches("host", &[]));
}

#[test]
fn networks() {
    let net = |s: &str| rules(&[s]);
    assert!(noproxy::matches("1.2.3.4", &net("0.0.0.0/0")));
    assert!(noproxy::matches("1.2.3.4", &net("1.2.3.4/32")));
    assert!(noproxy::matches("1.2.3.4", &net("1.2.3.4/255")));
    assert!(!noproxy::matches("1.2.3.5", &net("1.2.3.4/32")));
    assert!(noproxy::matches("1.2.3.5", &net("1.2.3.4/31")));
    assert!(!noproxy::matches("::1", &net("0.0.0.0/0")));
    assert!(!noproxy::matches("host", &net("0.0.0.0/0")));
    assert!(!noproxy::matches("1.2.3.4", &net("1.2.3.4/256")));
    assert!(cidr_contains(IpAddr::V6(0), 127, IpAddr::V6(1)));
    assert!(!cidr_contains(IpAddr::V6(0), 128, IpAddr::V6(1)));
    assert!(cidr_contains(IpAddr::V4(0x0a00_0000), 8, IpAddr::V4(0x0aff_ffff)));
}

#[test]
fn stars() {
    assert!(glob("*", ""));
    assert!(glob("*", "anything"));
    assert!(glob("a*c", "abc"));
    assert!(!glob("a*c", "abd"));
    assert!(glob("a**c", "ac"));
    assert!(glob("*.corp.*", "x.corp.local"));
    assert!(!glob("abc", "abcd"));
    assert!(glob("abc", "abc"));
    assert!(!glob("*.corp.local", "a.corp.local.corp.local"));
    assert!(glob("*a*a", "aa"));
    assert!(!glob("*a*a", "a"));
}

#[test]
fn nested_networks() {
    let host = IpAddr::V4(0x0a01_0203);
    assert!(cidr_contains(IpAddr::V4(0x0a01_0200), 24, host));
    assert!(cidr_contains(IpAddr::V4(0x0a01_0200), 16, host));
    assert!(cidr_contains(host, 32, host));
}

#[test]
fn lists_of_rules_add_up() {
    let a = rules(&["a.corp", "10.0.0.0/8"]);
    let b = rules(&["*.lan"]);
    let both = rules(&["a.corp", "10.0.0.0/8", "*.lan"]);
    for host in ["a.corp", "10.2.3.4", "x.lan", "b.corp", ""] {
        assert_eq!(
            noproxy::matches(host, &both),
            noproxy::matches(host, &a) || noproxy::matches(host, &b)
        );
        assert!(!noproxy::matches(host, &[]));
    }
    assert!(noproxy::matches("x.lan", &both));
}

#[test]
fn last_dots_and_capitals_are_free() {
    let r = rules(&["corp.local", "*.LAN", "fe80::/10", "10.0.0.1"]);
    for host in ["corp.local", "x.lan", "fe80::ab", "10.0.0.1", "10.0.0.2", "other"] {
        let plain = noproxy::matches(host, &r);
        assert_eq!(noproxy::matches(&format!("{host}."), &r), plain);
        assert_eq!(noproxy::matches(&host.to_uppercase(), &r), plain);
    }
    assert!(noproxy::matches("FE80::AB", &r));
    assert!(!noproxy::matches(".", &rules(&["*"])));
}
