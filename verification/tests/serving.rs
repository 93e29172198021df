use cntlm_next::error::Error;
use cntlm_next::hop::Hop;
use cntlm_next::http1::{ClientRequest, ServerResponse};
use cntlm_next::io::{simple_response, Framing};
use cntlm_next::ip::{IpAddr, SocketAddr};
use cntlm_next::platform::Platform;
use cntlm_next::resolve::{Answer, Resolver};
use cntlm_next::server::{
    bad_gateway, bad_request, direct, exposure, proxied, resolver_stopped, target, tunnel_refused,
    Failover, Relay,
};
use cntlm_next::Config;

fn http(host: &str, port: u16) -> Hop {
    Hop::Http {
        host: host.into(),
        port,
    }
}

fn request(method: &str, target: &str) -> ClientRequest {
    ClientRequest {
        method: method.into(),
        target: target.into(),
        version: "HTTP/1.1".into(),
        headers: vec![("Host".into(), "h".into())],
        body: Vec::new(),
    }
}

fn response(status: u16) -> ServerResponse {
    ServerResponse {
        version: "HTTP/1.1".into(),
        status,
        reason: "Why".into(),
        headers: vec![
            ("Proxy-Connection".into(), "x".into()),
            ("Content-Length".into(), "3".into()),
        ],
    }
}

const ESTABLISHED: &[u8] = b"HTTP/1.1 200 Connection Established\r\n\r\n";

#[test]
fn hops_are_tried_in_turn() {
    let mut resolver = Resolver::new(Config::default());
    let list = vec![http("a", 1), http("b", 2)];
    resolver.record("h", list.clone(), 0);
    let mut f = Failover::new(list);
    assert_eq!(f.next().unwrap().display(), "a:1");
    f.fail(&mut resolver, Error::msg("first"), 1);
    assert_eq!(f.next().unwrap().display(), "b:2");
    match resolver.hops_for(Platform::Windows, "u", "h", 2).unwrap() {
        Answer::Hops(v) => assert_eq!(v, vec![http("b", 2)]),
        other => panic!("{other:?}"),
    }
    f.fail(&mut resolver, Error::msg("second"), 3);
    assert!(f.next().is_none());
    assert_eq!(f.answer(), simple_response(502, "second"));
    let mut plain = Failover::new(vec![Hop::Direct]);
    plain.note(Error::msg("only"));
    assert!(plain.next().is_none());
    assert_eq!(plain.answer(), simple_response(502, "only"));
    assert_eq!(
        Failover::new(Vec::new()).answer(),
        simple_response(502, "no upstream proxy available")
    );
}

#[test]
fn answers_to_what_goes_wrong() {
    let e = Error::Http("missing Host header".into());
    assert_eq!(
        bad_request(&e),
        simple_response(400, "http: missing Host header")
    );
    assert_eq!(
        bad_gateway(&e),
        simple_response(502, "http: missing Host header")
    );
    assert_eq!(
        resolver_stopped("panic"),
        simple_response(502, "resolver task: panic")
    );
}

#[test]
fn targets_of_hops() {
    assert_eq!(target(&Hop::Direct, "h", 443), ("h".into(), 443));
    assert_eq!(target(&http("p", 8080), "h", 443), ("p".into(), 8080));
}

#[test]
fn straight_connections() {
    let open = direct(&request("CONNECT", "h:443"), b"hello");
    assert_eq!(open.to_client, ESTABLISHED);
    assert_eq!(open.to_server, b"hello");
    assert!(open.early.is_empty());
    assert!(open.takes_preface);

    let open = direct(&request("GET", "http://h/x"), b"next");
    assert!(open.to_client.is_empty());
    assert_eq!(open.to_server, b"GET /x HTTP/1.1\r\nHost: h\r\n\r\n");
    assert!(open.early.is_empty());
    assert!(!open.takes_preface);
}

#[test]
fn connections_through_a_proxy() {
    let connect = request("CONNECT", "h:443");
    assert!(tunnel_refused("p", 1, &connect, &response(200)).is_none());
    assert_eq!(
        tunnel_refused("p", 1, &connect, &response(403))
            .unwrap()
            .display(),
        "upstream p:1: CONNECT failed: 403 Why"
    );
    let get = request("GET", "http://h/");
    assert!(tunnel_refused("p", 1, &get, &response(403)).is_none());

    match proxied(&connect, &response(200), b"a", b"b") {
        Relay::Tunnel(open) => {
            assert_eq!(open.to_client, ESTABLISHED);
            assert_eq!(open.to_server, b"a");
            assert_eq!(open.early, b"b");
            assert!(open.takes_preface);
        }
        other => panic!("{other:?}"),
    }

    match proxied(&get, &response(403), b"a", b"b") {
        Relay::Response(head, framing) => {
            assert_eq!(head, b"HTTP/1.1 403 Why\r\nContent-Length: 3\r\n\r\n");
            assert_eq!(framing, Framing::Fixed(3));
        }
        other => panic!("{other:?}"),
    }
}

#[test]
fn exposure_is_told() {
    let at = |ip: IpAddr| SocketAddr {
        ip,
        port: 1,
        scope: 0,
        flow: 0,
    };
    assert_eq!(exposure(at(IpAddr::V4(0x7f00_0001))), None);
    assert_eq!(exposure(at(IpAddr::V6(1))), None);
    assert_eq!(
        exposure(at(IpAddr::V4(0))).unwrap(),
        "listen 0.0.0.0:1 is not loopback; other hosts will share your SSO session"
    );
}
