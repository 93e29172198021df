use cntlm_next::auth::handshake::{asks_for_auth, create, Handshake, MAX_ROUNDS};
use cntlm_next::auth::sspi::{
    SspiSession, SEC_E_OK, SEC_I_COMPLETE_AND_CONTINUE, SEC_I_COMPLETE_NEEDED,
    SEC_I_CONTINUE_NEEDED,
};
use cntlm_next::auth::AuthSession;
use cntlm_next::config::AuthMode;
use cntlm_next::error::Error;
use cntlm_next::http1::{ClientRequest, ServerResponse};
use cntlm_next::platform::Platform;
use cntlm_next::wide::{text_of_wide, wide};

fn fields(list: &[(&str, &str)]) -> Vec<(String, String)> {
    list.iter()
        .map(|(k, v)| (k.to_string(), v.to_string()))
        .collect()
}

fn request(method: &str, body: &[u8]) -> ClientRequest {
    ClientRequest {
        method: method.into(),
        target: "h:1".into(),
        version: "HTTP/1.1".into(),
        headers: fields(&[("Proxy-Authorization", "mine"), ("Host", "h")]),
        body: body.to_vec(),
    }
}

fn response(status: u16) -> ServerResponse {
    ServerResponse {
        version: "HTTP/1.1".into(),
        status,
        reason: "".into(),
        headers: Vec::new(),
    }
}

struct Scripted {
    asked: Vec<Option<String>>,
    fails: bool,
}

impl AuthSession for Scripted {
    fn step(&mut self, challenge_b64: Option<&str>) -> Result<String, Error> {
        self.asked.push(challenge_b64.map(|s| s.to_string()));
        if self.fails {
            Err(Error::Auth("no".into()))
        } else {
            Ok(format!("token{}", self.asked.len()))
        }
    }

    fn is_complete(&self) -> bool {
        self.asked.len() > 1
    }
}

#[test]
fn first_request_holds_the_body_back() {
    assert_eq!(
        Handshake::first_request(&request("POST", b"body")),
        b"POST h:1 HTTP/1.1\r\nHost: h\r\nProxy-Connection: Keep-Alive\r\nConnection: Keep-Alive\r\nContent-Length: 0\r\n\r\n"
    );
    assert_eq!(
        Handshake::first_request(&request("CONNECT", b"body")),
        b"CONNECT h:1 HTTP/1.1\r\nHost: h\r\nProxy-Connection: Keep-Alive\r\nConnection: Keep-Alive\r\nContent-Length: 4\r\n\r\nbody"
    );
    assert!(asks_for_auth(&response(407)));
    assert!(!asks_for_auth(&response(200)));
}

#[test]
fn rounds_of_a_handshake() {
    let mut session = Scripted {
        asked: Vec::new(),
        fails: false,
    };
    assert!(!session.needs_challenge());
    let req = request("POST", b"body");
    let mut h = Handshake::new(AuthMode::Auto);
    let first = fields(&[("Proxy-Authenticate", "NTLM xyz")]);
    let challenge = h.challenged(&first).unwrap();
    assert_eq!(challenge, None);
    assert_eq!(h.scheme, "NTLM");
    assert_eq!(
        h.respond(&mut session, &req, challenge.as_deref()).unwrap(),
        b"POST h:1 HTTP/1.1\r\nHost: h\r\nProxy-Connection: Keep-Alive\r\nConnection: Keep-Alive\r\nProxy-Authorization: NTLM token1\r\nContent-Length: 0\r\n\r\n"
    );
    let second = fields(&[("Proxy-Authenticate", "NTLM abc")]);
    let challenge = h.challenged(&second).unwrap();
    assert_eq!(challenge.as_deref(), Some("abc"));
    assert_eq!(
        h.respond(&mut session, &req, challenge.as_deref()).unwrap(),
        b"POST h:1 HTTP/1.1\r\nHost: h\r\nProxy-Connection: Keep-Alive\r\nConnection: Keep-Alive\r\nProxy-Authorization: NTLM token2\r\nContent-Length: 4\r\n\r\nbody"
    );
    assert_eq!(session.asked, vec![None, Some("abc".to_string())]);
    assert_eq!(h.rounds, 2);
    session.fails = true;
    assert_eq!(
        h.respond(&mut session, &req, None).unwrap_err().display(),
        "auth: no"
    );
    assert_eq!(h.rounds, 2);
}

#[test]
fn scheme_by_configuration() {
    let offered = fields(&[("Proxy-Authenticate", "Basic realm=x")]);
    let mut h = Handshake::new(AuthMode::Ntlm);
    h.challenged(&offered).unwrap();
    assert_eq!(h.scheme, "NTLM");
    let mut h = Handshake::new(AuthMode::Negotiate);
    h.challenged(&offered).unwrap();
    assert_eq!(h.scheme, "Negotiate");
}

#[test]
fn handshakes_that_fail() {
    let mut h = Handshake::new(AuthMode::Auto);
    let offered = fields(&[
        ("Proxy-Authenticate", "Digest a"),
        ("Proxy-Authenticate", "Bearer \"b\""),
    ]);
    assert_eq!(
        h.challenged(&offered).unwrap_err().display(),
        "auth: 407 without NTLM/Negotiate (headers=[\"Digest a\", \"Bearer \\\"b\\\"\"])"
    );
    assert_eq!(
        h.challenged(&[]).unwrap_err().display(),
        "auth: 407 without NTLM/Negotiate (headers=[])"
    );
    h.challenged(&fields(&[("Proxy-Authenticate", "NTLM")])).unwrap();
    let req = request("GET", b"");
    h.request(&req, "t", false);
    assert_eq!(
        h.challenged(&fields(&[("Connection", "close")]))
            .unwrap_err()
            .display(),
        "auth: proxy closed the connection during NTLM handshake"
    );
    assert_eq!(h.challenged(&[]).unwrap(), None);
    while h.rounds < MAX_ROUNDS {
        h.request(&req, "t", false);
    }
    assert_eq!(
        h.challenged(&fields(&[("Proxy-Authenticate", "NTLM")]))
            .unwrap_err()
            .display(),
        "auth: NTLM/Negotiate handshake exceeded 6 rounds"
    );
}

#[test]
fn sessions_need_windows() {
    let s = create(Platform::Windows, "proxy", "ntlm").unwrap();
    assert_eq!(s.package, wide("NTLM"));
    assert_eq!(s.target, wide("HTTP/proxy"));
    assert!(!s.have_ctx);
    assert!(!s.is_complete());
    assert_eq!(
        SspiSession::new("p", "Basic").package,
        wide("Negotiate")
    );
    assert_eq!(
        create(Platform::Other, "proxy", "ntlm").unwrap_err().display(),
        "unsupported on this OS: SSPI current-user auth is only available on Windows"
    );
}

#[test]
fn credentials_are_acquired() {
    assert!(SspiSession::acquired(0).is_ok());
    assert_eq!(
        SspiSession::acquired(0x8009_030Eu32 as i32)
            .unwrap_err()
            .display(),
        "auth: AcquireCredentialsHandleW failed: 0x8009030E (not logged into a domain session?)"
    );
    assert_eq!(
        SspiSession::acquired(10).unwrap_err().display(),
        "auth: AcquireCredentialsHandleW failed: 0x0000000A (not logged into a domain session?)"
    );
}

#[test]
fn challenges_are_decoded() {
    assert_eq!(SspiSession::challenge(None).unwrap(), None);
    assert_eq!(SspiSession::challenge(Some("")).unwrap(), None);
    assert_eq!(
        SspiSession::challenge(Some(" aGVsbG8= ")).unwrap(),
        Some(b"hello".to_vec())
    );
    assert_eq!(
        SspiSession::challenge(Some("a*")).unwrap_err().display(),
        "auth: invalid Negotiate token: Invalid symbol 42, offset 1."
    );
    assert_eq!(
        SspiSession::challenge(Some("aGVsbG8")).unwrap_err().display(),
        "auth: invalid Negotiate token: Invalid padding"
    );
}

#[test]
fn tokens_are_encoded() {
    let mut s = SspiSession::new("p", "NTLM");
    assert_eq!(
        s.finish(SEC_I_CONTINUE_NEEDED, b"hello").unwrap(),
        "aGVsbG8="
    );
    assert!(s.have_ctx);
    assert!(!s.is_complete());
    assert_eq!(
        s.finish(SEC_I_COMPLETE_AND_CONTINUE, b"").unwrap_err().display(),
        "auth: SSPI produced an empty token"
    );
    assert_eq!(s.finish(SEC_I_COMPLETE_NEEDED, b"").unwrap(), "");
    assert!(s.is_complete());
    assert_eq!(
        s.finish(-1, b"x").unwrap_err().display(),
        "auth: InitializeSecurityContextW failed: 0xFFFFFFFF"
    );
    assert!(s.is_complete());
    for n in 0..200u32 {
        let bytes: Vec<u8> = (0..n).map(|i| (i * 7 + n) as u8).collect();
        let token = s.finish(SEC_E_OK, &bytes).unwrap();
        let back = SspiSession::challenge(Some(&token)).unwrap();
        assert_eq!(back.unwrap_or_default(), bytes);
        assert_eq!(token.len(), (bytes.len() + 2) / 3 * 4);
    }
}

#[test]
fn wide_text() {
    assert_eq!(wide("a\u{e9}\u{1f600}"), vec![0x61, 0xe9, 0xd83d, 0xde00, 0]);
    let text = "x\u{ffff}\u{10000}\u{10ffff}";
    let units = wide(text);
    assert_eq!(
        text_of_wide(&units[..units.len() - 1]).as_deref(),
        Some(text)
    );
    assert_eq!(text_of_wide(&[]), None);
    let odd = [0xd800, 0x61, 0xdc00, 0xd83d, 0xd83d, 0xde00, 0xd800];
    assert_eq!(text_of_wide(&odd), Some(String::from_utf16_lossy(&odd)));
}
