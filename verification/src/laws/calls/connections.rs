//! Calls that authenticate, dial, and serve clients.
use crate::auth::handshake::{asks_for_auth, authorized, create, opening, Handshake, HandshakeView};
use crate::auth::sspi::{acquired_fault, challenge_of, completes, token_of, SspiSession};
use crate::config::AuthMode;
use crate::dial::{
    addresses, addresses_of, all_failed, attempt_texts, describe, fail_views, io_msg, pin_failed,
    pin_step, prefer_ipv4, step_failed, step_text, upstream, v4_first, way_after, Fail, Kind,
    OsError, OsErrorView, Pinning, Step, Way, Ways,
};
use crate::error::{Error, ErrorView};
use crate::hop::Hop;
use crate::http1::{response_text, shown, ClientRequest, ServerResponse};
use crate::io::{framing_of, simple_text};
use crate::ip::SocketAddr;
use crate::number::decimal;
use crate::platform::Platform;
use crate::resolve::Resolver;
use crate::server::{
    bad_gateway, bad_request, direct, established, exposure, exposure_text, origin_request, proxied,
    resolver_stopped, target, target_of, tunnel_fault, tunnel_refused, Failover, Opening, Relay,
};
use crate::text::{joined, same_word};
use vstd::prelude::*;
use vstd::utf8::encode_utf8;

verus! {

/// A response asks for authentication with 407, and with nothing else.
pub proof fn status_407_asks_for_authentication(resp: &ServerResponse)
    ensures
        forall|r: bool| #[trigger]
            call_ensures(asks_for_auth, (resp,), r) ==> (r <==> resp@.status == 407),
{
}

/// A session is set up with the proxy on Windows, and nowhere else.
pub proof fn session_is_set_up(platform: Platform, host: &str, scheme: &str)
    ensures
        forall|r: Result<SspiSession, Error>| #[trigger]
            call_ensures(create, (platform, host, scheme), r) ==> match r {
                Ok(s) => platform == Platform::Windows && s.is_for(host@, scheme@),
                Err(e) => platform == Platform::Other && e@ == ErrorView::Unsupported(
                    "SSPI current-user auth is only available on Windows"@,
                ),
            },
        forall|r: SspiSession| #[trigger]
            call_ensures(SspiSession::new, (host, scheme), r) ==> r.is_for(host@, scheme@),
{
}

/// A handshake begins without a scheme, sends the first request as it is, and
/// takes from each refusal what it demands; each token that it sends counts.
pub proof fn handshake_goes_step_by_step(
    mode: AuthMode,
    req: &ClientRequest,
    headers: &[(String, String)],
    token: &str,
    complete: bool,
)
    ensures
        forall|r: Handshake| #[trigger]
            call_ensures(Handshake::new, (mode,), r) ==> r.mode == mode && r.rounds == 0
                && r.scheme@.len() == 0,
        forall|r: Vec<u8>| #[trigger]
            call_ensures(Handshake::first_request, (req,), r) ==> r@ == opening(req@),
        forall|h: &mut Handshake, r: Result<Option<String>, Error>| #[trigger]
            call_ensures(Handshake::challenged, (h, headers), r) ==> {
                let before = HandshakeView {
                    mode: h.mode,
                    scheme: h.scheme@,
                    rounds: h.rounds as nat,
                };
                &&& final(h).mode == h.mode
                &&& final(h).rounds == h.rounds
                &&& match r {
                    Ok(challenge) => before.demand(headers.deep_view()) == Ok::<
                        (Seq<char>, Option<Seq<char>>),
                        ErrorView,
                    >((final(h).scheme@, challenge.deep_view())),
                    Err(e) => before.demand(headers.deep_view()) == Err::<
                        (Seq<char>, Option<Seq<char>>),
                        ErrorView,
                    >(e@) && final(h).scheme@ == h.scheme@,
                }
            },
        forall|h: &mut Handshake, r: Vec<u8>| #[trigger]
            call_ensures(Handshake::request, (h, req, token, complete), r) ==> {
                &&& r@ == authorized(req@, h.scheme@, token@, complete)
                &&& final(h).rounds == h.rounds + 1
                &&& final(h).mode == h.mode
                &&& final(h).scheme@ == h.scheme@
            },
{
}

/// A session takes the status of each call of the provider, and goes on with
/// the context that the first call made.
pub proof fn session_takes_each_status(
    status: i32,
    challenge: Option<&str>,
    bytes: &[u8],
)
    ensures
        forall|r: Result<(), Error>| #[trigger]
            call_ensures(SspiSession::acquired, (status,), r) ==> match r {
                Ok(_) => acquired_fault(status) is None,
                Err(e) => acquired_fault(status) == Some(e@),
            },
        forall|r: Result<Option<Vec<u8>>, Error>| #[trigger]
            call_ensures(SspiSession::challenge, (challenge,), r) ==> match r {
                Ok(b) => challenge_of(challenge.deep_view()) == Ok::<
                    Option<Seq<u8>>,
                    ErrorView,
                >(b.deep_view()),
                Err(e) => challenge_of(challenge.deep_view()) == Err::<
                    Option<Seq<u8>>,
                    ErrorView,
                >(e@),
            },
        forall|s: &mut SspiSession, r: Result<String, Error>| #[trigger]
            call_ensures(SspiSession::finish, (s, status, bytes), r) ==> {
                &&& final(s).have_ctx
                &&& final(s).package@ == s.package@
                &&& final(s).target@ == s.target@
                &&& completes(status) == Some(true) ==> final(s).complete
                &&& completes(status) == Some(false) ==> !final(s).complete
                &&& completes(status) is None ==> final(s).complete == s.complete
                &&& match r {
                    Ok(t) => token_of(status, bytes@) == Ok::<Seq<char>, ErrorView>(t@),
                    Err(e) => token_of(status, bytes@) == Err::<Seq<char>, ErrorView>(e@),
                }
            },
        forall|s: &SspiSession, r: bool| #[trigger]
            call_ensures(SspiSession::is_complete, (s,), r) ==> r == s.complete,
{
}

/// A client is told why it is not served: 400 where its request has no
/// destination, and 502 where the way to it fails.
pub proof fn client_is_told_why(err: &Error, text: &str, addr: SocketAddr)
    ensures
        forall|r: Vec<u8>| #[trigger]
            call_ensures(bad_request, (err,), r) ==> r@ == encode_utf8(
                simple_text(400, err@.text()),
            ),
        forall|r: Vec<u8>| #[trigger]
            call_ensures(bad_gateway, (err,), r) ==> r@ == encode_utf8(
                simple_text(502, err@.text()),
            ),
        forall|r: Vec<u8>| #[trigger]
            call_ensures(resolver_stopped, (text,), r) ==> r@ == encode_utf8(
                simple_text(502, "resolver task: "@ + text@),
            ),
        forall|f: &Failover, r: Vec<u8>| #[trigger]
            call_ensures(Failover::answer, (f,), r) ==> {
                &&& f.last is Some ==> r@ == encode_utf8(simple_text(502, (f.last->0)@.text()))
                &&& f.last is None ==> r@ == encode_utf8(
                    simple_text(502, "no upstream proxy available"@),
                )
            },
        forall|r: Option<String>| #[trigger]
            call_ensures(exposure, (addr,), r) ==> r.deep_view() == exposure_text(addr),
{
}

/// The hops are tried one after the other, each once, in their order; a proxy
/// that fails is avoided for a while.
pub proof fn hops_are_tried_in_order(hops: Vec<Hop>, err: Error, now: u64)
    ensures
        forall|r: Failover| #[trigger]
            call_ensures(Failover::new, (hops,), r) ==> r.hops == hops && r.failed == 0
                && r.last is None,
        forall|f: &Failover, r: Option<&Hop>| #[trigger]
            call_ensures(Failover::next, (f,), r) && f.failed <= f.hops@.len() ==> match r {
                Some(hop) => f.failed < f.hops@.len() && hop@ == f.hops@[f.failed as int]@,
                None => f.failed == f.hops@.len(),
            },
        forall|f: &mut Failover, r: ()| #[trigger]
            call_ensures(Failover::note, (f, err), r) ==> {
                &&& final(f).hops == f.hops
                &&& final(f).failed == f.failed + 1
                &&& final(f).last is Some && (final(f).last->0)@ == err@
            },
        forall|f: &mut Failover, resolver: &mut Resolver, r: ()| #[trigger]
            call_ensures(Failover::fail, (f, resolver, err, now), r) && f.failed < f.hops@.len()
                ==> {
                &&& final(f).hops == f.hops
                &&& final(f).failed == f.failed + 1
                &&& final(f).last is Some && (final(f).last->0)@ == err@
                &&& final(resolver)@ == resolver@.marked(f.hops@[f.failed as int]@, now)
            },
{
}

/// A tunnel is opened for a request that asks for one, and any other request is
/// passed on; what the client and the proxy sent early goes into the tunnel.
pub proof fn client_is_served(
    hop: &Hop,
    host: &str,
    port: u16,
    req: &ClientRequest,
    resp: &ServerResponse,
    leftover: &[u8],
    early: &[u8],
)
    ensures
        forall|r: (String, u16)| #[trigger]
            call_ensures(target, (hop, host, port), r) ==> (r.0@, r.1) == target_of(
                hop@,
                host@,
                port,
            ),
        forall|r: Opening| #[trigger]
            call_ensures(direct, (req, leftover), r) ==> {
                &&& same_word(req@.method, "CONNECT"@) ==> r.to_client@ == encode_utf8(
                    established(),
                ) && r.to_server@ == leftover@ && r.early@.len() == 0 && r.takes_preface
                &&& !same_word(req@.method, "CONNECT"@) ==> r.to_client@.len() == 0 && r.to_server@
                    == origin_request(req@) && r.early@.len() == 0 && !r.takes_preface
            },
        forall|r: Option<Error>| #[trigger]
            call_ensures(tunnel_refused, (host, port, req, resp), r) ==> match r {
                Some(e) => tunnel_fault(host@, port, req@, resp@) == Some(e@),
                None => tunnel_fault(host@, port, req@, resp@) is None,
            },
        forall|r: Relay| #[trigger]
            call_ensures(proxied, (req, resp, leftover, early), r) ==> {
                &&& same_word(req@.method, "CONNECT"@) ==> r is Tunnel && {
                    let o = r->Tunnel_0;
                    o.to_client@ == encode_utf8(established()) && o.to_server@ == leftover@
                        && o.early@ == early@ && o.takes_preface
                }
                &&& !same_word(req@.method, "CONNECT"@) ==> r is Response && r->Response_0@
                    == encode_utf8(response_text(resp@, shown(resp@.headers))) && r->Response_1
                    == framing_of(resp@.headers)
            },
{
}

/// The addresses of a name are tried with IPv4 first, and failures are told
/// with the host and the port that were to be reached.
pub proof fn addresses_are_tried(
    host: &str,
    port: u16,
    addrs: Vec<SocketAddr>,
    found: Result<Vec<SocketAddr>, OsError>,
    fails: &[(SocketAddr, OsError)],
    message: String,
    err: &OsError,
    step: Step,
)
    ensures
        forall|r: Vec<SocketAddr>| #[trigger]
            call_ensures(prefer_ipv4, (addrs,), r) ==> r@ == v4_first(addrs@),
        forall|r: Error| #[trigger]
            call_ensures(upstream, (host, port, message), r) ==> r@ == (ErrorView::Upstream {
                host: host@,
                port,
                message: message@,
            }),
        forall|r: Result<Vec<SocketAddr>, Error>| #[trigger]
            call_ensures(addresses, (host, port, found), r) ==> {
                let seen = match found {
                    Ok(v) => Ok(v@),
                    Err(e) => Err(e@),
                };
                match r {
                    Ok(v) => addresses_of(host@, port, seen) == Ok::<Seq<SocketAddr>, ErrorView>(
                        v@,
                    ),
                    Err(e) => addresses_of(host@, port, seen) == Err::<Seq<SocketAddr>, ErrorView>(
                        e@,
                    ),
                }
            },
        forall|r: Error| #[trigger]
            call_ensures(all_failed, (host, port, fails), r) ==> r@ == (ErrorView::Upstream {
                host: host@,
                port,
                message: joined(attempt_texts(fail_views(fails@)), "; "@),
            }),
        forall|r: String| #[trigger] call_ensures(io_msg, (err,), r) ==> r@ == err@.message(),
        forall|r: String| #[trigger] call_ensures(describe, (err,), r) ==> r@ == err@.description(),
        forall|r: Error| #[trigger]
            call_ensures(step_failed, (host, port, step, err), r) ==> r@ == (ErrorView::Upstream {
                host: host@,
                port,
                message: step_text(step, err@),
            }),
        forall|i: int|
            0 <= i < fails@.len() ==> (#[trigger] fail_views(fails@)[i]) == (
                fails@[i].0,
                fails@[i].1@,
            ),
{
}

/// On Windows the next way is tried only where the last was refused with 10013;
/// any other failure ends the attempt. Local ports that are refused or taken
/// are counted, and the next is tried.
pub proof fn ways_are_tried_in_order(
    fail: Fail,
    version: &str,
    port: u16,
    name: &str,
    err: OsError,
)
    ensures
        forall|r: Ways| #[trigger]
            call_ensures(Ways::new, (), r) ==> r.refused() == Seq::<Seq<char>>::empty(),
        forall|w: &Ways, r: Option<Way>| #[trigger]
            call_ensures(Ways::next, (w,), r) ==> r == way_after(w.notes@.len()),
        forall|w: &mut Ways, r: Result<(), OsError>| #[trigger]
            call_ensures(Ways::failed, (w, fail), r) ==> {
                &&& r is Ok <==> fail.err.code == Some(10013i32)
                &&& r is Ok ==> final(w).refused() == w.refused().push(fail.text())
                &&& r matches Err(e) ==> final(w).refused() == w.refused() && e@ == (OsErrorView {
                    kind: Kind::Other,
                    text: fail.text(),
                    code: None,
                })
            },
        forall|w: &Ways, r: OsError| #[trigger]
            call_ensures(Ways::exhausted, (w, version), r) ==> r@ == (OsErrorView {
                kind: Kind::PermissionDenied,
                text: "ntgate "@ + version@ + " still WSAEACCES: "@ + joined(w.refused(), " | "@),
                code: None,
            }),
        forall|f: &Fail, r: bool| #[trigger]
            call_ensures(Fail::is_acces, (f,), r) ==> (r <==> f.err.code == Some(10013i32)),
        forall|f: &Fail, r: String| #[trigger]
            call_ensures(Fail::display, (f,), r) ==> r@ == f.text(),
        forall|r: Fail| #[trigger]
            call_ensures(Fail::new, (name, err), r) ==> r.step@ == name@ && r.err == err,
        forall|r: Fail| #[trigger]
            call_ensures(pin_failed, (port, name, err), r) ==> r.step@ == pin_step(port, name@)
                && r.err == err,
        forall|r: Pinning| #[trigger]
            call_ensures(Pinning::new, (), r) ==> r.acces == 0 && r.in_use == 0,
        forall|p: &Pinning, r: Option<u16>| #[trigger]
            call_ensures(Pinning::next, (p,), r) ==> match r {
                Some(n) => p.acces + p.in_use < 14 && n == crate::dial::pinned_ports()[p.acces
                    + p.in_use],
                None => p.acces + p.in_use == 14,
            },
        forall|p: &mut Pinning, r: Result<(), Fail>| #[trigger]
            call_ensures(Pinning::failed, (p, port, err), r) ==> {
                &&& err.code == Some(10013i32) ==> r is Ok && final(p).acces == p.acces + 1
                    && final(p).in_use == p.in_use
                &&& err.code == Some(10048i32) ==> r is Ok && final(p).acces == p.acces
                    && final(p).in_use == p.in_use + 1
                &&& err.code != Some(10013i32) && err.code != Some(10048i32) ==> r is Err
                    && final(p).acces == p.acces && final(p).in_use == p.in_use && (r->Err_0).step@ == pin_step(port, "bind"@) && (r->Err_0).err == err
            },
        forall|p: &Pinning, r: Fail| #[trigger]
            call_ensures(Pinning::exhausted, (p, err), r) ==> {
                &&& p.acces > 0 ==> r.err == err && r.step@ == "pin bind WSAEACCES x"@ + decimal(
                    p.acces as nat,
                ) + " in-use x"@ + decimal(p.in_use as nat)
                &&& p.acces == 0 ==> r.step@ == "pin in-use x"@ + decimal(p.in_use as nat)
                    && r.err@ == (OsErrorView {
                    kind: Kind::AddrInUse,
                    text: "no free local port"@,
                    code: None,
                })
            },
{
}

} // verus!
