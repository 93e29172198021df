use cntlm_next::error::Error;
use cntlm_next::http1::{
    connection_close, content_length, encode_request, encode_response, encode_response_to_client,
    find_header, is_chunked, is_hop_by_hop, parse_request_head, parse_response_head,
    pick_proxy_auth, proxy_authenticate, status_reason, ClientRequest, HttpHead, ServerResponse,
};

fn fields(list: &[(&str, &str)]) -> Vec<(String, String)> {
    list.iter()
        .map(|(k, v)| (k.to_string(), v.to_string()))
        .collect()
}

fn request(method: &str, target: &str, headers: &[(&str, &str)], body: &[u8]) -> ClientRequest {
    ClientRequest {
        method: method.into(),
        target: target.into(),
        version: "HTTP/1.1".into(),
        headers: fields(headers),
        body: body.to_vec(),
    }
}

#[test]
fn parse_connect() {
    let raw = b"CONNECT github.com:443 HTTP/1.1\r\nHost: github.com:443\r\n\r\n";
    let req = parse_request_head(raw).unwrap();
    assert!(req.is_connect());
    assert_eq!(req.destination().unwrap(), ("github.com".into(), 443));
}

#[test]
fn parse_absolute_get() {
    let raw = b"GET http://example.com/foo HTTP/1.1\r\nUser-Agent: test\r\n\r\n";
    let req = parse_request_head(raw).unwrap();
    assert_eq!(req.destination().unwrap(), ("example.com".into(), 80));
    assert_eq!(req.origin_form_target(), "/foo");
}

#[test]
fn pick_negotiate() {
    let ch = vec!["NTLM".into(), "Negotiate aaaa".into()];
    let (scheme, token) = pick_proxy_auth(&ch).unwrap();
    assert_eq!(scheme, "Negotiate");
    assert_eq!(token.as_deref(), Some("aaaa"));
}

#[test]
fn picks_by_preference() {
    let list = |items: &[&str]| -> Vec<String> { items.iter().map(|s| s.to_string()).collect() };
    assert_eq!(
        pick_proxy_auth(&list(&["Basic realm=x", "ntlm abc def", "NTLM zzz"])),
        Some(("ntlm".into(), Some("abc".into())))
    );
    assert_eq!(
        pick_proxy_auth(&list(&["Digest x", "basic"])),
        Some(("basic".into(), None))
    );
    assert_eq!(pick_proxy_auth(&list(&["Digest x"])), None);
    assert_eq!(
        pick_proxy_auth(&list(&["Negotiate", " "])),
        Some(("Negotiate".into(), None))
    );
    assert_eq!(
        pick_proxy_auth(&list(&["", "NTLM"])),
        Some(("NTLM".into(), None))
    );
    assert_eq!(pick_proxy_auth(&list(&["", " "])), None);
    assert_eq!(pick_proxy_auth(&[]), None);
}

#[test]
fn destinations() {
    let dest = |r: &ClientRequest| r.destination().unwrap();
    assert_eq!(
        dest(&request("GET", "https://h/x", &[], b"")),
        ("h".into(), 443)
    );
    assert_eq!(
        dest(&request("GET", "http://h:81", &[], b"")),
        ("h".into(), 81)
    );
    assert_eq!(
        dest(&request("GET", "/x", &[("HOST", "h:82")], b"")),
        ("h".into(), 82)
    );
    assert_eq!(
        dest(&request("GET", "/x", &[("Host", "h")], b"")),
        ("h".into(), 80)
    );
    assert_eq!(
        request("GET", "/x", &[], b"")
            .destination()
            .unwrap_err()
            .display(),
        "http: missing Host header"
    );
    assert_eq!(
        request("connect", "h", &[], b"")
            .destination()
            .unwrap_err()
            .display(),
        "http: expected host:port, got \"h\""
    );
    assert_eq!(
        request("GET", "http://h:x/", &[], b"")
            .destination()
            .unwrap_err()
            .display(),
        "http: expected host:port, got \"h:x\""
    );
}

#[test]
fn origin_forms() {
    assert_eq!(
        request("GET", "http://h", &[], b"").origin_form_target(),
        "/"
    );
    assert_eq!(
        request("GET", "https://h/x", &[], b"").origin_form_target(),
        "https://h/x"
    );
    assert_eq!(
        request("CONNECT", "h:1", &[], b"").origin_form_target(),
        "h:1"
    );
    assert_eq!(
        request("GET", "http://h/a/b?c", &[], b"").origin_form_target(),
        "/a/b?c"
    );
}

#[test]
fn heads_that_are_no_heads() {
    assert_eq!(
        parse_request_head(b"GET / HTTP/1.1\r\n").unwrap_err().display(),
        "http: incomplete request head"
    );
    assert_eq!(
        parse_request_head(b"GET / HTTP/1.1\r\na b: c\r\n\r\n")
            .unwrap_err()
            .display(),
        "http: request parse: invalid header name"
    );
    assert_eq!(
        parse_response_head(b"HTTP/1.1 200").unwrap_err().display(),
        "http: incomplete response head"
    );
    assert_eq!(
        parse_response_head(b"HTTP/1.1 2x0 OK\r\n\r\n")
            .unwrap_err()
            .display(),
        "http: response parse: invalid response status"
    );
    let mut many = b"GET / HTTP/1.1\r\n".to_vec();
    for _ in 0..65 {
        many.extend_from_slice(b"a: b\r\n");
    }
    many.extend_from_slice(b"\r\n");
    assert_eq!(
        parse_request_head(&many).unwrap_err().display(),
        "http: request parse: too many headers"
    );
}

#[test]
fn response_heads() {
    let raw = b"HTTP/1.0 407 Nope\r\nProxy-Authenticate: NTLM\r\nX: caf\xc3\xa9 \xff\r\n\r\n";
    let res = parse_response_head(raw).unwrap();
    assert_eq!(res.version, "HTTP/1.0");
    assert_eq!(res.status, 407);
    assert_eq!(res.reason, "Nope");
    assert_eq!(
        res.headers,
        fields(&[("Proxy-Authenticate", "NTLM"), ("X", "caf\u{e9} \u{fffd}")])
    );
    assert_eq!(
        parse_response_head(b"HTTP/1.1 204\r\n\r\n").unwrap().reason,
        ""
    );
}

#[test]
fn header_fields() {
    let headers = fields(&[
        ("Content-Length", "12"),
        ("content-length", "13"),
        ("Connection", "Keep-Alive, Close"),
        ("Transfer-Encoding", "gzip, Chunked"),
        ("Proxy-Authenticate", "NTLM"),
        ("proxy-authenticate", "Basic x"),
    ]);
    assert_eq!(find_header(&headers, "CONTENT-LENGTH"), Some("12"));
    assert_eq!(find_header(&headers, "x"), None);
    assert_eq!(content_length(&headers), Some(12));
    assert_eq!(content_length(&fields(&[("Content-Length", " 1")])), None);
    assert_eq!(content_length(&fields(&[("Content-Length", "-1")])), None);
    assert_eq!(content_length(&fields(&[("Content-Length", "+1")])), Some(1));
    assert!(is_chunked(&headers));
    assert!(!is_chunked(&fields(&[("Transfer-Encoding", "gzip")])));
    assert!(connection_close(&headers));
    assert!(!connection_close(&fields(&[("Connection", "closed")])));
    assert_eq!(proxy_authenticate(&headers), vec!["NTLM", "Basic x"]);
    let req = request("GET", "/", &[("A", "b")], b"");
    assert_eq!(req.header("a"), Some("b"));
}

#[test]
fn connection_fields_are_not_passed_on() {
    for name in [
        "connection",
        "Proxy-Connection",
        "KEEP-ALIVE",
        "te",
        "trailers",
        "transfer-encoding",
        "upgrade",
        "proxy-authorization",
        "proxy-authenticate",
    ] {
        assert!(is_hop_by_hop(name));
        let req = request("GET", "/", &[(name, "x"), ("A", "b")], b"");
        assert_eq!(
            encode_request(&req, &[], true),
            b"GET / HTTP/1.1\r\nA: b\r\n\r\n"
        );
    }
    assert!(!is_hop_by_hop("host"));
}

#[test]
fn requests_with_bodies() {
    let req = request("POST", "/", &[("A", "b")], b"hello");
    assert_eq!(
        encode_request(&req, &[("X", "y")], true),
        b"POST / HTTP/1.1\r\nA: b\r\nX: y\r\nContent-Length: 5\r\n\r\nhello"
    );
    assert_eq!(
        encode_request(&req, &[], false),
        b"POST / HTTP/1.1\r\nA: b\r\nContent-Length: 0\r\n\r\n"
    );
    let sized = request("POST", "/", &[("Content-Length", "5")], b"hello");
    assert_eq!(
        encode_request(&sized, &[], true),
        b"POST / HTTP/1.1\r\nContent-Length: 5\r\n\r\nhello"
    );
}

#[test]
fn responses_are_written_out() {
    let res = ServerResponse {
        version: "HTTP/1.1".into(),
        status: 502,
        reason: "".into(),
        headers: fields(&[
            ("Proxy-Authenticate", "NTLM"),
            ("proxy-authorization", "x"),
            ("Proxy-Connection", "close"),
            ("Transfer-Encoding", "chunked"),
            ("Content-Length", "3"),
        ]),
    };
    assert_eq!(
        encode_response_to_client(&res),
        b"HTTP/1.1 502 Bad Gateway\r\nTransfer-Encoding: chunked\r\nContent-Length: 3\r\n\r\n"
    );
    assert_eq!(
        encode_response(&res, &[("X", "y")]),
        b"HTTP/1.1 502 Bad Gateway\r\nContent-Length: 3\r\nX: y\r\n\r\n"
    );
    let named = ServerResponse {
        reason: "Because".into(),
        headers: Vec::new(),
        ..res
    };
    assert_eq!(
        encode_response(&named, &[]),
        b"HTTP/1.1 502 Because\r\n\r\n"
    );
}

#[test]
fn reasons() {
    assert_eq!(status_reason(200), "OK");
    assert_eq!(status_reason(407), "Proxy Authentication Required");
    assert_eq!(status_reason(502), "Bad Gateway");
    assert_eq!(status_reason(504), "Gateway Timeout");
    assert_eq!(status_reason(500), "Internal Server Error");
    assert_eq!(status_reason(400), "Error");
}

#[test]
fn plain_heads() {
    let head = HttpHead {
        first_line: "GET / HTTP/1.1".into(),
        headers: Vec::new(),
    };
    assert_eq!(head.clone().first_line, head.first_line);
}

#[test]
fn errors_in_words() {
    assert_eq!(Error::msg("plain").display(), "plain");
    assert_eq!(Error::Config("c".into()).display(), "config: c");
    assert_eq!(
        Error::Unsupported("u").display(),
        "unsupported on this OS: u"
    );
    assert_eq!(Error::Http("h".into()).display(), "http: h");
    assert_eq!(Error::Auth("a".into()).display(), "auth: a");
    assert_eq!(Error::Io("io".into()).display(), "io");
    let up = Error::Upstream {
        host: "h".into(),
        port: 8,
        message: "m".into(),
    };
    assert_eq!(up.display(), "upstream h:8: m");
}

#[test]
fn requests_come_back_as_they_were_sent() {
    let odd = "!#$%&'*+-.^_`|~09azAZ";
    let req = ClientRequest {
        version: "HTTP/1.0".into(),
        ..request(
            odd,
            "http://h\u{e9}/~?a=b&c#\u{4e2d}",
            &[
                ("Host", "h"),
                ("TE", "trailers\u{1}"),
                (odd, "a b\tc \u{20ac}"),
                ("Empty", ""),
            ],
            b"body",
        )
    };
    let extra = [("X-Long", "0123456789 0123456789\t0123456789 0123456789")];
    for (whole, length) in [(true, "4"), (false, "0")] {
        let read = parse_request_head(&encode_request(&req, &extra, whole)).unwrap();
        assert_eq!(read.method, req.method);
        assert_eq!(read.target, req.target);
        assert_eq!(read.version, "HTTP/1.0");
        assert!(read.body.is_empty());
        assert_eq!(
            read.headers,
            fields(&[
                ("Host", "h"),
                (odd, "a b\tc \u{20ac}"),
                ("Empty", ""),
                extra[0],
                ("Content-Length", length),
            ])
        );
    }
    for method in ["GET", "POST", "G", "GETS", "POSTS"] {
        let req = request(method, "/", &[("content-length", "1")], b"x");
        let read = parse_request_head(&encode_request(&req, &[], true)).unwrap();
        assert_eq!((read.method.as_str(), read.target.as_str()), (method, "/"));
        assert_eq!(read.headers, req.headers);
    }
}

#[test]
fn as_many_fields_as_there_is_room_for() {
    let many: Vec<(String, String)> = (0..65).map(|i| (format!("n{i}"), i.to_string())).collect();
    let mut req = request("GET", "/", &[], b"");
    req.headers = many[..64].to_vec();
    let read = parse_request_head(&encode_request(&req, &[], true)).unwrap();
    assert_eq!(read.headers, req.headers);
    req.headers = many;
    assert!(parse_request_head(&encode_request(&req, &[], true)).is_err());
}

#[test]
fn responses_come_back_as_they_were_sent() {
    for (status, reason, read_as) in [
        (100, "  two  blanks\t", "  two  blanks\t"),
        (200, "", "OK"),
        (999, "", "Error"),
    ] {
        let res = ServerResponse {
            version: "HTTP/1.1".into(),
            status,
            reason: reason.into(),
            headers: fields(&[("A", "1"), ("Connection", "close"), ("Proxy-Connection", "x")]),
        };
        let mut raw = encode_response_to_client(&res);
        raw.extend_from_slice(b"rest\r\n\r\n");
        let read = parse_response_head(&raw).unwrap();
        assert_eq!((read.status, read.reason.as_str()), (status, read_as));
        assert_eq!(read.version, "HTTP/1.1");
        assert_eq!(read.headers, fields(&[("A", "1"), ("Connection", "close")]));
        let read = parse_response_head(&encode_response(&res, &[("B", "2")])).unwrap();
        assert_eq!(read.headers, fields(&[("A", "1"), ("B", "2")]));
    }
}
