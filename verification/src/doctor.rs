//! A trial of the way to a test URL, and the report on it.
use crate::config::{authority_of, parse_authority, AuthMode, Config, Mode};
use crate::dial::upstream;
use crate::error::{Error, ErrorView};
use crate::hop::{Hop, HopView};
use crate::http1::{
    proxy_authenticate, values_of, ClientRequest, RequestView, ResponseView, ServerResponse,
};
use crate::number::{decimal, push_decimal};
use crate::text::{
    after_prefix, chars_of, join, joined, text_of, trim, trimmed,
};
use vstd::prelude::*;
use vstd::string::StringExecFns;

verus! {

/// A host and a port, where what is said of a fault is a fault of the settings.
pub open spec fn in_settings(r: Result<(Seq<char>, u16), Seq<char>>) -> Result<
    (Seq<char>, u16),
    ErrorView,
> {
    match r {
        Ok(hp) => Ok(hp),
        Err(e) => Err(ErrorView::Config(e)),
    }
}

/// The destination of a URL.
pub open spec fn test_destination(url: Seq<char>) -> Result<(Seq<char>, u16), ErrorView> {
    let t = trim(url);
    if "https://"@.is_prefix_of(t) {
        in_settings(authority_of(t.skip("https://"@.len() as int), 443))
    } else if "http://"@.is_prefix_of(t) {
        in_settings(authority_of(t.skip("http://"@.len() as int), 80))
    } else {
        Err(ErrorView::Config("test_url must be http(s)://... ("@ + t + ")"@))
    }
}

fn settings_fault(r: Result<(String, u16), String>) -> (x: Result<(String, u16), Error>)
    ensures
        match r {
            Ok(hp) => x == Ok::<(String, u16), Error>(hp),
            Err(e) => x matches Err(f) && f@ == ErrorView::Config(e@),
        },
{
    match r {
        Ok(hp) => Ok(hp),
        Err(e) => Err(Error::Config(e)),
    }
}

/// Finds the destination of a URL.
pub fn dest_from_test_url(url: &str) -> (r: Result<(String, u16), Error>)
    ensures
        match r {
            Ok((h, p)) => test_destination(url@) == Ok::<(Seq<char>, u16), ErrorView>((h@, p)),
            Err(e) => test_destination(url@) == Err::<(Seq<char>, u16), ErrorView>(e@),
        },
{
    let text = chars_of(url);
    let t = trimmed(text.as_slice());
    if let Some(rest) = after_prefix(t, "https://") {
        return settings_fault(parse_authority(rest, 443));
    }
    if let Some(rest) = after_prefix(t, "http://") {
        return settings_fault(parse_authority(rest, 80));
    }
    let mut message = "test_url must be http(s)://... (".to_owned();
    message.append(text_of(t).as_str());
    message.append(")");
    Err(Error::Config(message))
}

/// A host and a port in text.
pub open spec fn address_text(host: Seq<char>, port: u16) -> Seq<char> {
    host + ":"@ + decimal(port as nat)
}

fn address(host: &str, port: u16) -> (r: String)
    ensures
        r@ == address_text(host@, port),
{
    let mut out = host.to_owned();
    out.append(":");
    push_decimal(&mut out, port as u64);
    out
}

/// The request by which a proxy is tried.
pub open spec fn probe_of(test_url: Seq<char>, host: Seq<char>, port: u16) -> RequestView {
    if port == 443 {
        RequestView {
            method: "CONNECT"@,
            target: address_text(host, port),
            version: "HTTP/1.1"@,
            headers: seq![("Host"@, address_text(host, port))],
            body: Seq::empty(),
        }
    } else {
        RequestView {
            method: "GET"@,
            target: test_url,
            version: "HTTP/1.1"@,
            headers: seq![("Host"@, host), ("User-Agent"@, "ntgate/0.1"@)],
            body: Seq::empty(),
        }
    }
}

/// The request by which a proxy is tried.
pub fn probe_request(test_url: &str, host: &str, port: u16) -> (r: ClientRequest)
    ensures
        r@ == probe_of(test_url@, host@, port),
{
    let mut headers: Vec<(String, String)> = Vec::new();
    let r = if port == 443 {
        headers.push(("Host".to_owned(), address(host, port)));
        ClientRequest {
            method: "CONNECT".to_owned(),
            target: address(host, port),
            version: "HTTP/1.1".to_owned(),
            headers,
            body: Vec::new(),
        }
    } else {
        headers.push(("Host".to_owned(), host.to_owned()));
        headers.push(("User-Agent".to_owned(), "ntgate/0.1".to_owned()));
        ClientRequest {
            method: "GET".to_owned(),
            target: test_url.to_owned(),
            version: "HTTP/1.1".to_owned(),
            headers,
            body: Vec::new(),
        }
    };
    assert(r@.headers == probe_of(test_url@, host@, port).headers);
    assert(r@.body == Seq::<u8>::empty());
    r
}

/// What is said of a connection that goes straight to the destination.
pub fn direct_ok(host: &str, port: u16) -> (r: String)
    ensures
        r@ == "direct TCP "@ + address_text(host@, port),
{
    "direct TCP ".to_owned().concat(address(host, port).as_str())
}

/// What the answer of the proxy `host` to a trial means.
pub open spec fn verdict_of(host: Seq<char>, port: u16, resp: ResponseView) -> Result<
    Seq<char>,
    ErrorView,
> {
    if 200 <= resp.status < 400 {
        Ok(
            address_text(host, port) + " -> HTTP "@ + decimal(resp.status as nat) + " "@
                + resp.reason,
        )
    } else if resp.status == 407 {
        Err(
            ErrorView::Auth(
                "still 407 after handshake ("@ + joined(
                    values_of(resp.headers, "proxy-authenticate"@),
                    ", "@,
                ) + ")"@,
            ),
        )
    } else {
        Err(
            ErrorView::Upstream {
                host,
                port,
                message: decimal(resp.status as nat) + " "@ + resp.reason,
            },
        )
    }
}

/// Tells what the answer of the proxy `host` to a trial means.
pub fn verdict(host: &str, port: u16, resp: &ServerResponse) -> (r: Result<String, Error>)
    ensures
        match r {
            Ok(s) => verdict_of(host@, port, resp@) == Ok::<Seq<char>, ErrorView>(s@),
            Err(e) => verdict_of(host@, port, resp@) == Err::<Seq<char>, ErrorView>(e@),
        },
{
    if resp.status >= 200 && resp.status < 400 {
        let mut out = address(host, port);
        out.append(" -> HTTP ");
        push_decimal(&mut out, resp.status as u64);
        out.append(" ");
        out.append(resp.reason.as_str());
        Ok(out)
    } else if resp.status == 407 {
        let mut message = "still 407 after handshake (".to_owned();
        let challenges = proxy_authenticate(resp.headers.as_slice());
        message.append(join(challenges.as_slice(), ", ").as_str());
        message.append(")");
        Err(Error::Auth(message))
    } else {
        let mut message = String::new();
        push_decimal(&mut message, resp.status as u64);
        message.append(" ");
        message.append(resp.reason.as_str());
        assert(message@ == decimal(resp@.status as nat) + " "@ + resp@.reason);
        Err(upstream(host, port, message))
    }
}

/// A mode as it is shown.
pub open spec fn mode_text(mode: Mode) -> Seq<char> {
    match mode {
        Mode::System => "System"@,
        Mode::Pac => "Pac"@,
        Mode::Proxy => "Proxy"@,
    }
}

/// A mode as it is shown.
pub fn mode_name(mode: Mode) -> (r: &'static str)
    ensures
        r@ == mode_text(mode),
{
    match mode {
        Mode::System => "System",
        Mode::Pac => "Pac",
        Mode::Proxy => "Proxy",
    }
}

/// A choice of the authentication scheme as it is shown.
pub open spec fn auth_text(auth: AuthMode) -> Seq<char> {
    match auth {
        AuthMode::Auto => "Auto"@,
        AuthMode::Negotiate => "Negotiate"@,
        AuthMode::Ntlm => "Ntlm"@,
    }
}

/// A choice of the authentication scheme as it is shown.
pub fn auth_name(auth: AuthMode) -> (r: &'static str)
    ensures
        r@ == auth_text(auth),
{
    match auth {
        AuthMode::Auto => "Auto",
        AuthMode::Negotiate => "Negotiate",
        AuthMode::Ntlm => "Ntlm",
    }
}

/// The lines with which the report begins.
pub open spec fn heading_of(version: Seq<char>, exe: Seq<char>, cfg: Config) -> Seq<Seq<char>> {
    let first = seq![
        "ntgate      "@ + version,
        "exe         "@ + exe,
        "listen      "@ + cfg.listen@,
        "mode        "@ + mode_text(cfg.mode),
    ];
    let pac = match cfg.pac {
        Some(p) => seq!["pac         "@ + p@],
        None => Seq::empty(),
    };
    first + pac + seq!["test_url    "@ + cfg.test_url@, "auth        "@ + auth_text(cfg.auth)]
}

/// The lines with which the report begins; `exe` is the path of the program.
pub fn heading(version: &str, exe: &str, cfg: &Config) -> (r: Vec<String>)
    ensures
        r.deep_view() == heading_of(version@, exe@, *cfg),
{
    let mut out: Vec<String> = Vec::new();
    out.push("ntgate      ".to_owned().concat(version));
    out.push("exe         ".to_owned().concat(exe));
    out.push("listen      ".to_owned().concat(cfg.listen.as_str()));
    out.push("mode        ".to_owned().concat(mode_name(cfg.mode)));
    if let Some(pac) = &cfg.pac {
        out.push("pac         ".to_owned().concat(pac.as_str()));
    }
    out.push("test_url    ".to_owned().concat(cfg.test_url.as_str()));
    out.push("auth        ".to_owned().concat(auth_name(cfg.auth)));
    assert(out.deep_view() == heading_of(version@, exe@, *cfg));
    out
}

/// The line that gives the destination.
pub fn target_line(host: &str, port: u16) -> (r: String)
    ensures
        r@ == "target      "@ + address_text(host@, port),
{
    "target      ".to_owned().concat(address(host, port).as_str())
}

/// Hops in text, with `sep` between them.
pub open spec fn route_text(hops: Seq<HopView>, sep: Seq<char>) -> Seq<char> {
    joined(hops.map_values(|h: HopView| h.text()), sep)
}

/// Puts hops in text, with `sep` between them.
pub fn route(hops: &[Hop], sep: &str) -> (r: String)
    ensures
        r@ == route_text(hops.deep_view(), sep@),
{
    let ghost all = hops.deep_view();
    let ghost show = |h: HopView| h.text();
    let mut texts: Vec<String> = Vec::new();
    for i in 0..hops.len()
        invariant
            all == hops.deep_view(),
            show == (|h: HopView| h.text()),
            texts.deep_view() == all.take(i as int).map_values(show),
    {
        let ghost done = texts.deep_view();
        texts.push(hops[i].display());
        assert(texts.deep_view() == done.push(show(all[i as int])));
        assert(texts.deep_view() == all.take(i + 1).map_values(show));
    }
    assert(all.take(all.len() as int) == all);
    join(texts.as_slice(), sep)
}

/// The line that gives the hops.
pub fn hops_line(hops: &[Hop]) -> (r: String)
    ensures
        r@ == "hops        "@ + route_text(hops.deep_view(), " -> "@),
{
    "hops        ".to_owned().concat(route(hops, " -> ").as_str())
}

/// How a trial of the machine's own address went.
#[derive(Debug)]
pub enum Selftest {
    /// No port could be opened.
    Deaf(String),
    /// The port could be connected to.
    Fine(u16),
    /// The port could not be connected to.
    Failed(Error),
}

/// The line on the trial of the machine's own address.
pub fn selftest_line(test: &Selftest) -> (r: String)
    ensures
        r@ == "selftest    "@ + match *test {
            Selftest::Deaf(e) => "listen fail "@ + e@,
            Selftest::Fine(port) => "ok 127.0.0.1:"@ + decimal(port as nat),
            Selftest::Failed(e) => "fail "@ + e@.text(),
        },
{
    let mut out = "selftest    ".to_owned();
    match test {
        Selftest::Deaf(e) => {
            out.append("listen fail ");
            out.append(e.as_str());
            assert(out@ == "selftest    "@ + ("listen fail "@ + e@));
        },
        Selftest::Fine(port) => {
            out.append("ok 127.0.0.1:");
            push_decimal(&mut out, *port as u64);
            assert(out@ == "selftest    "@ + ("ok 127.0.0.1:"@ + decimal(*port as nat)));
        },
        Selftest::Failed(e) => {
            out.append("fail ");
            out.append(e.display().as_str());
            assert(out@ == "selftest    "@ + ("fail "@ + e@.text()));
        },
    }
    out
}

/// The line on a hop that works.
pub fn ok_line(msg: &str) -> (r: String)
    ensures
        r@ == "ok          "@ + msg@,
{
    "ok          ".to_owned().concat(msg)
}

/// The line on a hop that failed.
pub fn fail_line(version: &str, hop: &Hop, err: &Error) -> (r: String)
    ensures
        r@ == "fail        ntgate "@ + version@ + " "@ + hop@.text() + " ("@ + err@.text() + ")"@,
{
    let mut out = "fail        ntgate ".to_owned();
    out.append(version);
    out.append(" ");
    out.append(hop.display().as_str());
    out.append(" (");
    out.append(err.display().as_str());
    out.append(")");
    out
}

/// The failure of a trial in which no hop worked; `last` is how the last of
/// them failed.
pub fn none_worked(last: Option<Error>) -> (r: Error)
    ensures
        r@ == match last {
            Some(e) => e@,
            None => ErrorView::Message("no hop succeeded"@),
        },
{
    match last {
        Some(e) => e,
        None => Error::msg("no hop succeeded"),
    }
}

} // verus!
