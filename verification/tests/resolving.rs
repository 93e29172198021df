use cntlm_next::hop::Hop;
use cntlm_next::platform::Platform;
use cntlm_next::resolve::winhttp::{
    fallback, first_question, found, open_failed, resolve, Fallback, IeConfig, Query, Question,
};
use cntlm_next::resolve::{hops_from_raw, url_for_destination, Answer, Resolver, SECOND};
use cntlm_next::{Config, Mode};

fn http(host: &str, port: u16) -> Hop {
    Hop::Http {
        host: host.into(),
        port,
    }
}

fn hops(r: Result<Answer, cntlm_next::Error>) -> Vec<Hop> {
    match r.unwrap() {
        Answer::Hops(v) => v,
        Answer::Ask(_) => panic!("a question"),
    }
}

fn fixed() -> Config {
    Config {
        mode: Mode::Proxy,
        upstream: Some("p:8080".into()),
        ..Config::default()
    }
}

#[test]
fn rules_go_before_proxies() {
    let mut r = Resolver::new(fixed());
    assert_eq!(
        hops(r.hops_for(Platform::Other, "http://localhost/", "localhost", 0)),
        vec![Hop::Direct]
    );
    assert_eq!(
        hops(r.hops_for(Platform::Other, "http://h/", "h", 0)),
        vec![http("p", 8080)]
    );
}

#[test]
fn missing_upstream_is_told() {
    let mut r = Resolver::new(Config {
        mode: Mode::Proxy,
        ..Config::default()
    });
    assert_eq!(
        r.hops_for(Platform::Other, "u", "h", 0).unwrap_err().display(),
        "config: upstream is not set"
    );
}

#[test]
fn other_modes_need_windows() {
    for mode in [Mode::System, Mode::Pac] {
        let mut r = Resolver::new(Config {
            mode,
            ..Config::default()
        });
        assert_eq!(
            r.hops_for(Platform::Other, "u", "h", 0).unwrap_err().display(),
            "unsupported on this OS: mode=system and mode=pac require Windows WinHTTP"
        );
    }
    let mut r = Resolver::new(Config::default());
    match r.hops_for(Platform::Windows, "u", "h", 0).unwrap() {
        Answer::Ask(Question::Settings(url)) => assert_eq!(url, "u"),
        other => panic!("{other:?}"),
    }
    let mut r = Resolver::new(Config {
        mode: Mode::Pac,
        pac: Some("s".into()),
        ..Config::default()
    });
    match r.hops_for(Platform::Windows, "u", "h", 0).unwrap() {
        Answer::Ask(Question::Url(q)) => {
            assert_eq!(q.url, "u");
            assert_eq!(q.pac.as_deref(), Some("s"));
            assert_eq!((q.flags, q.detect), (2, 3));
        }
        other => panic!("{other:?}"),
    }
}

#[test]
fn answers_are_kept_for_a_minute() {
    let mut r = Resolver::new(Config::default());
    let list = vec![http("a", 1), Hop::Direct];
    assert_eq!(r.record("h", list.clone(), 5), list);
    assert_eq!(
        hops(r.hops_for(Platform::Windows, "u", "h", 5 + 60 * SECOND - 1)),
        list
    );
    let late = r.hops_for(Platform::Windows, "u", "h", 5 + 60 * SECOND);
    assert!(matches!(late.unwrap(), Answer::Ask(_)));
    r.record("h", list.clone(), 5);
    r.record("h", vec![Hop::Direct], 6);
    assert_eq!(
        hops(r.hops_for(Platform::Windows, "u", "h", 7)),
        vec![Hop::Direct]
    );
    r.invalidate();
    let gone = r.hops_for(Platform::Windows, "u", "h", 7);
    assert!(matches!(gone.unwrap(), Answer::Ask(_)));
}

#[test]
fn failed_proxies_are_avoided() {
    let mut r = Resolver::new(Config::default());
    let list = vec![http("a", 1), http("b", 2)];
    r.record("h", list.clone(), 0);
    r.mark_bad(&http("a", 1), 10);
    r.mark_bad(&Hop::Direct, 10);
    let asked = |r: &mut Resolver, now: u64| hops(r.hops_for(Platform::Windows, "u", "h", now));
    assert_eq!(asked(&mut r, 11), vec![http("b", 2)]);
    r.mark_bad(&http("b", 2), 12);
    assert_eq!(asked(&mut r, 13), list);
    let until = 10 + 30 * 60 * SECOND;
    assert_eq!(
        r.record("h", list.clone(), until - 1),
        list
    );
    assert_eq!(
        r.record("h", list.clone(), until),
        vec![http("a", 1)]
    );
}

#[test]
fn other_hosts_are_kept_apart() {
    let mut r = Resolver::new(Config::default());
    r.record("h", vec![http("a", 1)], 0);
    r.record("i", vec![http("b", 2)], 0);
    assert_eq!(
        hops(r.hops_for(Platform::Windows, "u", "h", 1)),
        vec![http("a", 1)]
    );
    assert_eq!(
        hops(r.hops_for(Platform::Windows, "u", "i", 1)),
        vec![http("b", 2)]
    );
    let other = r.hops_for(Platform::Windows, "u", "j", 70 * SECOND);
    assert!(matches!(other.unwrap(), Answer::Ask(_)));
}

#[test]
fn urls_of_destinations() {
    assert_eq!(url_for_destination("h", 80, true), "https://h/");
    assert_eq!(url_for_destination("h", 443, false), "https://h/");
    assert_eq!(url_for_destination("h", 80, false), "http://h/");
    assert_eq!(url_for_destination("h", 81, false), "http://h:81/");
}

#[test]
fn lists_in_either_form() {
    assert_eq!(
        hops_from_raw("PROXY a:1; DIRECT").unwrap(),
        vec![http("a", 1), Hop::Direct]
    );
    assert_eq!(
        hops_from_raw("a").unwrap(),
        vec![http("a", 80)]
    );
    assert_eq!(
        hops_from_raw("a:x").unwrap_err().display(),
        "http: invalid proxy address \"a:x\""
    );
}

#[test]
fn questions_by_mode() {
    assert_eq!(
        resolve("u", None, Mode::Pac).unwrap_err().display(),
        "config: pac URL is empty"
    );
    assert_eq!(
        resolve("u", None, Mode::Proxy).unwrap_err().display(),
        "internal: system resolver called in proxy mode"
    );
}

#[test]
fn questions_that_fail() {
    let mut q = Query::new("u", Some("s"), true);
    assert_eq!((q.flags, q.detect), (3, 3));
    assert_eq!(
        q.failed(5, false).unwrap_err().display(),
        "WinHttpGetProxyForUrl failed: 5"
    );
    assert!(q.failed(12180, false).is_ok());
    assert_eq!((q.flags, q.detect), (2, 0));
    assert_eq!(
        q.failed(12180, true).unwrap_err().display(),
        "WinHttpGetProxyForUrl failed: 12180"
    );
    let mut none = Query::new("u", None, false);
    assert_eq!((none.flags, none.detect), (1, 3));
    assert!(none.failed(12180, false).is_err());
    assert_eq!(open_failed(7).display(), "WinHttpOpen failed: 7");
}

#[test]
fn settings_of_the_user() {
    let ie = |auto_detect: bool, url: Option<&str>, proxy: Option<&str>| {
        Some(IeConfig {
            auto_detect,
            auto_config_url: url.map(|s| s.to_string()),
            proxy: proxy.map(|s| s.to_string()),
        })
    };
    let first = first_question("u", &ie(true, Some("s"), None)).unwrap();
    assert_eq!((first.pac.as_deref(), first.flags), (Some("s"), 3));
    let first = first_question("u", &ie(false, Some("s"), None)).unwrap();
    assert_eq!(first.flags, 2);
    let first = first_question("u", &ie(true, Some(""), None)).unwrap();
    assert_eq!((first.pac, first.flags), (None, 1));
    assert!(first_question("u", &ie(false, Some(""), Some("p:1"))).is_none());
    assert!(first_question("u", &None).is_none());

    match fallback("u", &ie(false, None, Some("p:1"))) {
        Fallback::Hops(r) => assert_eq!(r.unwrap(), vec![http("p", 1)]),
        Fallback::Ask(q) => panic!("{q:?}"),
    }
    for empty in [ie(false, None, Some("")), None] {
        match fallback("u", &empty) {
            Fallback::Ask(q) => assert_eq!((q.url.as_str(), q.pac, q.flags), ("u", None, 1)),
            Fallback::Hops(r) => panic!("{r:?}"),
        }
    }
}

#[test]
fn lists_that_are_found() {
    assert_eq!(found(None).unwrap(), vec![Hop::Direct]);
    assert_eq!(found(Some("p:1")).unwrap(), vec![http("p", 1)]);
}

#[test]
fn failed_proxy_is_left_out_for_its_time() {
    let mut r = Resolver::new(Config {
        blacklist_timeout: 2,
        ..Config::default()
    });
    let list = vec![http("a", 1), http("b", 2), Hop::Direct];
    let t0 = 7;
    let over = t0 + 2 * 60 * SECOND;
    r.mark_bad(&http("b", 2), t0);
    r.mark_bad(&http("b", 3), t0 + 9);
    r.invalidate();
    r.record("other", vec![Hop::Direct], t0 + 9);
    r.record("h", list.clone(), over - 30 * SECOND);
    let mut asked = |now: u64| hops(r.hops_for(Platform::Windows, "u", "h", now));
    assert_eq!(asked(over - 1), vec![http("a", 1), Hop::Direct]);
    assert_eq!(asked(over), list);
}

#[test]
fn failed_proxies_are_filtered() {
    let mut r = Resolver::new(Config::default());
    r.mark_bad(&http("a", 1), 0);
    let only = [http("a", 1)];
    assert_eq!(r.filter_blacklist(&only, 1), only.to_vec());
    assert_eq!(
        r.filter_blacklist(&[http("b", 2), http("a", 1), http("a", 2)], 1),
        vec![http("b", 2), http("a", 2)]
    );
    assert_eq!(
        r.filter_blacklist(&[http("a", 1), Hop::Direct], 1),
        vec![Hop::Direct]
    );
    assert_eq!(r.filter_blacklist(&[], 1), vec![]);
}

#[test]
fn found_hops_serve_other_urls() {
    let mut r = Resolver::new(fixed());
    assert_eq!(
        hops(r.hops_for(Platform::Other, "http://h/", "h", 3)),
        vec![http("p", 8080)]
    );
    assert_eq!(
        hops(r.hops_for(Platform::Other, "https://h/", "h", 4)),
        vec![http("p", 8080)]
    );
    let mut r = Resolver::new(Config::default());
    r.record("h", vec![http("a", 1)], 3);
    for url in ["http://h/", "https://h/"] {
        assert_eq!(
            hops(r.hops_for(Platform::Windows, url, "h", 3 + 59 * SECOND)),
            vec![http("a", 1)]
        );
    }
}

#[test]
fn failed_search_is_not_kept() {
    let mut r = Resolver::new(Config::default());
    for now in [1, 2] {
        assert!(r.hops_for(Platform::Other, "u", "h", now).is_err());
    }
    for url in ["u", "v"] {
        match r.hops_for(Platform::Windows, url, "h", 3).unwrap() {
            Answer::Ask(Question::Settings(asked)) => assert_eq!(asked, url),
            other => panic!("{other:?}"),
        }
    }
    let last = hops(r.hops_for(Platform::Windows, "u", "localhost", u64::MAX));
    assert_eq!(last, vec![Hop::Direct]);
    r.record("h", vec![http("a", 1)], u64::MAX);
    assert_eq!(
        hops(r.hops_for(Platform::Windows, "u", "h", u64::MAX)),
        vec![http("a", 1)]
    );
}
