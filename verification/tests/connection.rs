use cntlm_next::chunk::{ChunkedReader, ChunkedRelay, Phase};
use cntlm_next::http1::ClientRequest;
use cntlm_next::io::{
    feed_body, feed_head, find_header_end, framing, request_framing, simple_response, take_exact,
    take_head, wanted, FixedRelay, Framing, BODY_READ, MAX_HEAD,
};

fn request(method: &str, headers: &[(&str, &str)]) -> ClientRequest {
    ClientRequest {
        method: method.into(),
        target: "h:1".into(),
        version: "HTTP/1.1".into(),
        headers: headers
            .iter()
            .map(|(k, v)| (k.to_string(), v.to_string()))
            .collect(),
        body: Vec::new(),
    }
}

#[test]
fn heads_are_taken_when_complete() {
    assert_eq!(find_header_end(b"a\r\n\r\nb"), Some(5));
    assert_eq!(find_header_end(b"a\r\n\r"), None);
    let mut left = b"GET / HTTP/1.1\r\n".to_vec();
    assert_eq!(take_head(&mut left, MAX_HEAD).unwrap(), None);
    feed_head(&mut left, b"\r\nrest").unwrap();
    assert_eq!(
        take_head(&mut left, MAX_HEAD).unwrap().unwrap(),
        b"GET / HTTP/1.1\r\n\r\n"
    );
    assert_eq!(left, b"rest");
    assert_eq!(
        feed_head(&mut left, b"").unwrap_err().display(),
        "http: peer closed before sending headers"
    );
    assert_eq!(take_head(&mut left, 4).unwrap(), None);
    assert_eq!(
        take_head(&mut left, 3).unwrap_err().display(),
        "http: header block too large"
    );
}

#[test]
fn bodies_of_a_given_length() {
    let mut left = b"abc".to_vec();
    assert_eq!(take_exact(&mut left, 5), None);
    assert_eq!(wanted(left.len(), 5), 2);
    assert_eq!(wanted(0, 0x1_0000), BODY_READ);
    feed_body(&mut left, b"defg").unwrap();
    assert_eq!(take_exact(&mut left, 5).unwrap(), b"abcde");
    assert_eq!(left, b"fg");
    assert_eq!(
        feed_body(&mut left, b"").unwrap_err().display(),
        "http: unexpected eof reading body"
    );
}

#[test]
fn bodies_of_a_given_length_are_passed_on() {
    let mut relay = FixedRelay::new(5);
    let mut left = b"abc".to_vec();
    assert_eq!(relay.pass(&mut left), b"abc");
    assert_eq!(relay.wanted(), 2);
    assert_eq!(
        relay.feed(&mut left, b"").unwrap_err().display(),
        "http: unexpected eof reading body"
    );
    relay.feed(&mut left, b"defg").unwrap();
    assert_eq!(relay.pass(&mut left), b"de");
    assert_eq!(left, b"fg");
    assert_eq!(relay.wanted(), 0);
    assert!(relay.feed(&mut left, b"").is_ok());
}

#[test]
fn framing_of_bodies() {
    let of = |list: &[(&str, &str)]| framing(&request("GET", list).headers);
    assert_eq!(of(&[]), Framing::Open);
    assert_eq!(of(&[("Content-Length", "7")]), Framing::Fixed(7));
    assert_eq!(
        of(&[("Content-Length", "7"), ("Transfer-Encoding", "chunked")]),
        Framing::Chunked
    );
}

#[test]
fn bodies_of_requests() {
    let connect = request("CONNECT", &[("Content-Length", "99")]);
    assert_eq!(request_framing(&connect, 10).unwrap(), Framing::Open);
    let small = request("POST", &[("Content-Length", "10")]);
    assert_eq!(request_framing(&small, 10).unwrap(), Framing::Fixed(10));
    let chunked = request("POST", &[("Transfer-Encoding", "chunked")]);
    assert_eq!(request_framing(&chunked, 10).unwrap(), Framing::Chunked);
    let large = request("POST", &[("Content-Length", "11")]);
    assert_eq!(
        request_framing(&large, 10).unwrap_err().display(),
        "http: request body 11 exceeds max_buffered_body 10"
    );
}

#[test]
fn chunks_are_gathered_however_they_arrive() {
    let sent = b"4;x=y\r\nWiki\r\n+5\r\npedia\r\n0\r\n\r\nrest";
    for step in 1..sent.len() {
        let mut reader = ChunkedReader::new(100);
        let mut left = Vec::new();
        let mut done = false;
        for piece in sent.chunks(step) {
            if done {
                left.extend_from_slice(piece);
            } else {
                reader.phase.feed(&mut left, piece).unwrap();
                done = reader.advance(&mut left).unwrap();
            }
        }
        assert!(done);
        assert_eq!(reader.body, b"Wikipedia");
        assert_eq!(left, b"rest");
    }
}

#[test]
fn chunks_are_passed_on_however_they_arrive() {
    let body = b"4;x=y\r\nWiki\r\n5\r\npedia\r\n0\r\nA: b\r\n\r\n";
    let mut sent = body.to_vec();
    sent.extend_from_slice(b"rest");
    for step in 1..sent.len() {
        let mut relay = ChunkedRelay::new();
        let mut left = Vec::new();
        let mut out = Vec::new();
        let mut done = false;
        for piece in sent.chunks(step) {
            if done {
                left.extend_from_slice(piece);
            } else {
                relay.phase.feed(&mut left, piece).unwrap();
                done = relay.advance(&mut left, &mut out).unwrap();
            }
        }
        assert!(done);
        assert_eq!(out, body);
        assert_eq!(left, b"rest");
    }
}

#[test]
fn chunks_that_are_refused() {
    let mut left = b"zz\r\n".to_vec();
    assert_eq!(
        ChunkedReader::new(9).advance(&mut left).unwrap_err().display(),
        "http: bad chunk size \"zz\""
    );
    let mut left = b"a\r\n".to_vec();
    assert_eq!(
        ChunkedReader::new(9).advance(&mut left).unwrap_err().display(),
        "http: chunked body too large"
    );
    let mut left = b"ffffffffffffffff\r\n".to_vec();
    assert_eq!(
        ChunkedReader::new(9).advance(&mut left).unwrap_err().display(),
        "http: chunked body too large"
    );
    let mut left = b"10000000000000000\r\n".to_vec();
    assert_eq!(
        ChunkedReader::new(9).advance(&mut left).unwrap_err().display(),
        "http: bad chunk size \"10000000000000000\""
    );
    let mut left = b"\xff \"\r\n".to_vec();
    let mut out = Vec::new();
    assert_eq!(
        ChunkedRelay::new()
            .advance(&mut left, &mut out)
            .unwrap_err()
            .display(),
        "http: bad chunk size \"\u{fffd} \\\"\""
    );
    assert_eq!(out, "\u{fffd} \"\r\n".as_bytes());
}

#[test]
fn what_a_phase_asks_for() {
    assert_eq!(Phase::Size.wanted(), 1024);
    assert_eq!(Phase::Data(7).wanted(), 7);
    assert_eq!(Phase::Data(0x1_0000).wanted(), 0x8000);
    let mut left = Vec::new();
    assert_eq!(
        Phase::Size.feed(&mut left, b"").unwrap_err().display(),
        "http: eof reading chunk line"
    );
    assert_eq!(
        Phase::Data(1).feed(&mut left, b"").unwrap_err().display(),
        "http: unexpected eof reading body"
    );
    let long = vec![b'a'; 16 * 1024];
    assert!(Phase::End.feed(&mut left, &long).is_ok());
    assert_eq!(
        Phase::End.feed(&mut left, b"a").unwrap_err().display(),
        "http: chunk line too long"
    );
    assert!(Phase::Data(1).feed(&mut left, b"a").is_ok());
}

#[test]
fn chunk_is_held_until_it_is_complete() {
    let mut relay = ChunkedRelay::new();
    let mut left = b"3\r\nab".to_vec();
    let mut out = Vec::new();
    assert!(!relay.advance(&mut left, &mut out).unwrap());
    assert_eq!(out, b"3\r\n");
    assert_eq!(relay.phase, Phase::Data(1));
    left.extend_from_slice(b"c");
    assert!(!relay.advance(&mut left, &mut out).unwrap());
    assert_eq!(out, b"3\r\nabc");
}

#[test]
fn short_answers() {
    assert_eq!(
        simple_response(502, "no"),
        b"HTTP/1.1 502 Bad Gateway\r\nContent-Type: text/plain; charset=utf-8\r\nContent-Length: 3\r\nConnection: close\r\n\r\nno\n"
    );
    let accented = simple_response(400, "\u{e9}");
    assert_eq!(
        accented,
        "HTTP/1.1 400 Error\r\nContent-Type: text/plain; charset=utf-8\r\nContent-Length: 3\r\nConnection: close\r\n\r\n\u{e9}\n"
            .as_bytes()
    );
}
