use cntlm_next::hop::{parse_ie_proxy_list, parse_pac_result, Hop};

fn http(host: &str, port: u16) -> Hop {
    Hop::Http {
        host: host.into(),
        port,
    }
}

#[test]
fn pac_failover_list() {
    let hops = parse_pac_result("PROXY proxy.xxx.com:8080; PROXY backup:8080; DIRECT").unwrap();
    assert_eq!(
        hops,
        vec![
            Hop::Http {
                host: "proxy.xxx.com".into(),
                port: 8080
            },
            Hop::Http {
                host: "backup".into(),
                port: 8080
            },
            Hop::Direct
        ]
    );
}

#[test]
fn ie_scheme_map() {
    let hops = parse_ie_proxy_list("http=proxy.xxx.com:8080;https=proxy.xxx.com:8080").unwrap();
    assert_eq!(hops.len(), 2);
    assert_eq!(hops[0].display(), "proxy.xxx.com:8080");
}

#[test]
fn socks_is_skipped() {
    let hops = parse_pac_result("SOCKS 127.0.0.1:1080; PROXY p:8080").unwrap();
    assert_eq!(
        hops,
        vec![Hop::Http {
            host: "p".into(),
            port: 8080
        }]
    );
}

#[test]
fn empty_lists_go_straight() {
    assert_eq!(parse_pac_result("").unwrap(), vec![Hop::Direct]);
    assert_eq!(parse_pac_result(" ; ;").unwrap(), vec![Hop::Direct]);
    assert_eq!(
        parse_pac_result("SOCKS5 a:1").unwrap(),
        vec![Hop::Direct]
    );
    assert_eq!(parse_ie_proxy_list("  ").unwrap(), vec![Hop::Direct]);
    assert_eq!(parse_ie_proxy_list("ftp=").unwrap(), vec![Hop::Direct]);
}

#[test]
fn entries_of_pac_answers() {
    assert_eq!(parse_pac_result("p:3").unwrap(), vec![http("p", 3)]);
    assert_eq!(parse_pac_result("https p:4").unwrap(), vec![http("p", 4)]);
    assert_eq!(parse_pac_result("proxy p").unwrap(), vec![http("p", 80)]);
    assert_eq!(
        parse_pac_result("PROXY http://p:5").unwrap(),
        vec![http("p", 5)]
    );
    assert_eq!(parse_pac_result("x p:6").unwrap(), vec![http("p", 6)]);
    assert_eq!(
        parse_pac_result("PROXY a:1;bogus").unwrap_err().display(),
        "http: unknown PAC token \"bogus\""
    );
    assert_eq!(
        parse_pac_result("PROXY a:b").unwrap_err().display(),
        "http: invalid proxy address \"a:b\""
    );
}

#[test]
fn entries_of_system_lists() {
    assert_eq!(
        parse_ie_proxy_list("a:1 b:2\tc:3;d").unwrap(),
        vec![http("a", 1), http("b", 2), http("c", 3), http("d", 80)]
    );
    assert_eq!(
        parse_ie_proxy_list("proxy a:1; direct").unwrap(),
        vec![http("a", 1), Hop::Direct]
    );
    assert_eq!(
        parse_ie_proxy_list("http=direct.corp:8080").unwrap(),
        vec![http("direct.corp", 8080)]
    );
    assert_eq!(
        parse_ie_proxy_list("http=direct.corp:8080;https=b:2;").unwrap(),
        vec![http("direct.corp", 8080), http("b", 2)]
    );
    assert_eq!(
        parse_ie_proxy_list("direct.corp:8080").unwrap(),
        vec![http("direct.corp", 8080)]
    );
    assert_eq!(
        parse_ie_proxy_list("proxy").unwrap(),
        vec![http("proxy", 80)]
    );
    assert_eq!(
        parse_ie_proxy_list(" Direct ").unwrap(),
        vec![Hop::Direct]
    );
    assert_eq!(
        parse_ie_proxy_list("SOCKS s:1; PROXY b:2").unwrap(),
        vec![http("b", 2)]
    );
    assert_eq!(
        parse_ie_proxy_list("http=a:x").unwrap_err().display(),
        "http: invalid proxy address \"a:x\""
    );
}

#[test]
fn lists_one_after_the_other() {
    let first = parse_pac_result("PROXY a:1;SOCKS s:2").unwrap();
    let second = parse_pac_result("DIRECT;PROXY b:2").unwrap();
    let both = parse_pac_result("PROXY a:1;SOCKS s:2;DIRECT;PROXY b:2").unwrap();
    let mut chained = first;
    chained.extend(second);
    assert_eq!(both, chained);
}

#[test]
fn hops_come_back_from_their_text() {
    for hop in [http("proxy.xxx.com", 8080), http("10.0.0.1", 1), http("::1", 80)] {
        let list = format!("PROXY {}", hop.display());
        assert_eq!(parse_pac_result(&list).unwrap(), vec![hop]);
    }
    assert_eq!(Hop::Direct.display(), "DIRECT");
    assert_eq!(http("h", 9).copy(), http("h", 9));
}

#[test]
fn lists_come_back_from_their_text() {
    let list = vec![http("a", 8080), Hop::Direct, http("b.corp", 1)];
    let text: Vec<String> = list
        .iter()
        .map(|h| match h {
            Hop::Direct => h.display(),
            Hop::Http { .. } => format!("PROXY {}", h.display()),
        })
        .collect();
    assert_eq!(text.join("; "), "PROXY a:8080; DIRECT; PROXY b.corp:1");
    assert_eq!(parse_pac_result(&text.join("; ")).unwrap(), list);
}

#[test]
fn keywords_in_system_lists() {
    assert_eq!(
        parse_ie_proxy_list("a:8080 DIRECT").unwrap(),
        vec![http("DIRECT", 80)]
    );
    assert_eq!(
        parse_ie_proxy_list("PROXY\ta:80").unwrap(),
        vec![http("PROXY", 80), http("a", 80)]
    );
    assert_eq!(
        parse_ie_proxy_list("myproxy a:80").unwrap(),
        vec![http("a", 80)]
    );
    assert_eq!(
        parse_ie_proxy_list("corpproxy b:2").unwrap(),
        vec![http("b", 2)]
    );
    assert_eq!(
        parse_ie_proxy_list("direct.corp").unwrap_err().display(),
        "http: unknown PAC token \"direct.corp\""
    );
}

#[test]
fn proxies_by_scheme_come_back() {
    let list = vec![http("direct", 1), http("Direct.corp", 8080), http("proxy", 3)];
    let text: Vec<String> = ["http", "https", "ftp"]
        .iter()
        .zip(&list)
        .map(|(scheme, hop)| format!("{scheme}={}", hop.display()))
        .collect();
    assert_eq!(parse_ie_proxy_list(&text.join(";")).unwrap(), list);
}
