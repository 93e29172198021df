//! What is done with a client's request: what each hop is sent, what the client
//! is answered, and when the next hop is tried.
use crate::dial::upstream;
use crate::error::{Error, ErrorView};
use crate::hop::{Hop, HopView};
use crate::http1::{
    encode_request, encode_response_to_client, field_lines, request_bytes, shown, status_line,
    ClientRequest, RequestView, ResponseView, ServerResponse,
};
use crate::io::{framing, framing_of, simple_response, simple_text, Framing};
use crate::ip::{IpAddr, SocketAddr};
use crate::number::{decimal, push_decimal};
use crate::resolve::Resolver;
use vstd::prelude::*;
use vstd::string::{StrSliceExecFns, StringExecFns};
use vstd::utf8::encode_utf8;

verus! {

/// What is said where clients on other machines can reach the proxy.
pub open spec fn exposure_text(addr: SocketAddr) -> Option<Seq<char>> {
    let own = match addr.ip {
        IpAddr::V4(v) => v / 0x100_0000 == 127,
        IpAddr::V6(v) => v == 1,
    };
    if own {
        None
    } else {
        Some(
            "listen "@ + addr.text()
                + " is not loopback; other hosts will share your SSO session"@,
        )
    }
}

/// What is said where clients on other machines can reach the proxy.
pub fn exposure(addr: SocketAddr) -> (r: Option<String>)
    ensures
        r.deep_view() == exposure_text(addr),
{
    if addr.ip.is_loopback() {
        return None;
    }
    let mut out = "listen ".to_owned();
    out.append(addr.display().as_str());
    out.append(" is not loopback; other hosts will share your SSO session");
    Some(out)
}

/// The answer to a request whose destination is no destination.
pub fn bad_request(err: &Error) -> (r: Vec<u8>)
    ensures
        r@ == encode_utf8(simple_text(400, err@.text())),
{
    simple_response(400, err.display().as_str())
}

/// The answer where the hops to a destination could not be found.
pub fn bad_gateway(err: &Error) -> (r: Vec<u8>)
    ensures
        r@ == encode_utf8(simple_text(502, err@.text())),
{
    simple_response(502, err.display().as_str())
}

/// The answer where the search for hops came to an end of its own.
pub fn resolver_stopped(text: &str) -> (r: Vec<u8>)
    ensures
        r@ == encode_utf8(simple_text(502, "resolver task: "@ + text@)),
{
    let mut message = "resolver task: ".to_owned();
    message.append(text);
    simple_response(502, message.as_str())
}

/// The hops of a request, tried one after the other.
#[derive(Debug)]
pub struct Failover {
    pub hops: Vec<Hop>,
    /// How many hops have failed.
    pub failed: usize,
    /// How the last of them failed.
    pub last: Option<Error>,
}

impl Failover {
    /// Whether no more hops have failed than there are.
    pub open spec fn wf(&self) -> bool {
        &&& self.failed <= self.hops@.len()
        &&& self.failed > 0 <==> self.last is Some
    }

    /// How the last hop failed, if one has.
    pub open spec fn last_error(&self) -> Option<ErrorView> {
        match self.last {
            Some(e) => Some(e@),
            None => None,
        }
    }

    /// No hop has been tried.
    pub fn new(hops: Vec<Hop>) -> (r: Failover)
        ensures
            r.wf(),
            r.hops == hops,
            r.failed == 0,
            r.last_error() is None,
    {
        Failover { hops, failed: 0, last: None }
    }

    /// The hop to try next; none where all have failed.
    pub fn next(&self) -> (r: Option<&Hop>)
        requires
            self.wf(),
        ensures
            match r {
                Some(hop) => self.failed < self.hops@.len() && hop@
                    == self.hops.deep_view()[self.failed as int],
                None => self.failed == self.hops@.len(),
            },
    {
        if self.failed < self.hops.len() {
            Some(&self.hops[self.failed])
        } else {
            None
        }
    }

    /// Takes note that the hop that was tried failed.
    pub fn note(&mut self, err: Error)
        requires
            old(self).wf(),
            old(self).failed < old(self).hops@.len(),
        ensures
            final(self).wf(),
            final(self).hops == old(self).hops,
            final(self).failed == old(self).failed + 1,
            final(self).last_error() == Some(err@),
    {
        assert(self.failed < self.hops.len());
        self.failed = self.failed + 1;
        self.last = Some(err);
    }

    /// Takes note that the hop that was tried failed at the time `now`, so that
    /// it is avoided for a while.
    pub fn fail(&mut self, resolver: &mut Resolver, err: Error, now: u64)
        requires
            old(self).wf(),
            old(self).failed < old(self).hops@.len(),
            old(resolver).wf(),
            old(resolver)@.cfg.blacklist_timeout * 60 <= u64::MAX,
        ensures
            final(self).wf(),
            final(self).hops == old(self).hops,
            final(self).failed == old(self).failed + 1,
            final(self).last_error() == Some(err@),
            final(resolver).wf(),
            final(resolver)@ == old(resolver)@.marked(
                old(self).hops.deep_view()[old(self).failed as int],
                now,
            ),
    {
        resolver.mark_bad(&self.hops[self.failed], now);
        self.note(err);
    }

    /// The answer where all hops have failed.
    pub fn answer(&self) -> (r: Vec<u8>)
        ensures
            r@ == encode_utf8(
                simple_text(
                    502,
                    match self.last_error() {
                        Some(e) => e.text(),
                        None => "no upstream proxy available"@,
                    },
                ),
            ),
    {
        match &self.last {
            Some(e) => bad_gateway(e),
            None => simple_response(502, "no upstream proxy available"),
        }
    }
}

/// The host and the port that a hop connects to, for a destination.
pub open spec fn target_of(hop: HopView, host: Seq<char>, port: u16) -> (Seq<char>, u16) {
    match hop {
        HopView::Direct => (host, port),
        HopView::Http { host, port } => (host, port),
    }
}

/// The host and the port that a hop connects to, for a destination.
pub fn target(hop: &Hop, dest_host: &str, dest_port: u16) -> (r: (String, u16))
    ensures
        (r.0@, r.1) == target_of(hop@, dest_host@, dest_port),
{
    match hop {
        Hop::Direct => (dest_host.to_owned(), dest_port),
        Hop::Http { host, port } => (host.clone(), *port),
    }
}

/// The answer to a request for a tunnel that is open.
pub open spec fn established() -> Seq<char> {
    "HTTP/1.1 200 Connection Established\r\n\r\n"@
}

/// What is written before bytes are passed on in both directions.
#[derive(Debug)]
pub struct Opening {
    /// What the client is sent first.
    pub to_client: Vec<u8>,
    /// What the other side is sent.
    pub to_server: Vec<u8>,
    /// What the client is sent after that.
    pub early: Vec<u8>,
    /// Whether what the client sent early is used up once `to_server` is sent.
    pub takes_preface: bool,
}

impl Opening {
    /// Whether this opens a tunnel: bytes that came early are passed on.
    pub open spec fn tunnels(&self, preface: Seq<u8>, early: Seq<u8>) -> bool {
        &&& self.to_client@ == encode_utf8(established())
        &&& self.to_server@ == preface
        &&& self.early@ == early
        &&& self.takes_preface
    }
}

fn open_tunnel(preface: &[u8], early: &[u8]) -> (r: Opening)
    ensures
        r.tunnels(preface@, early@),
{
    let mut to_server: Vec<u8> = Vec::new();
    to_server.extend_from_slice(preface);
    let mut then: Vec<u8> = Vec::new();
    then.extend_from_slice(early);
    assert(to_server@ == preface@);
    assert(then@ == early@);
    Opening {
        to_client: "HTTP/1.1 200 Connection Established\r\n\r\n".as_bytes_vec(),
        to_server,
        early: then,
        takes_preface: true,
    }
}

/// A request as the destination itself is sent it.
pub open spec fn origin_request(req: RequestView) -> Seq<u8> {
    request_bytes(RequestView { target: req.origin_form(), ..req }, Seq::empty(), true)
}

/// What is written where the connection goes straight to the destination.
/// `leftover` is what the client sent after the head of its request.
pub fn direct(req: &ClientRequest, leftover: &[u8]) -> (r: Opening)
    ensures
        if req@.connects() {
            r.tunnels(leftover@, Seq::empty())
        } else {
            &&& r.to_client@ == Seq::<u8>::empty()
            &&& r.to_server@ == origin_request(req@)
            &&& r.early@ == Seq::<u8>::empty()
            &&& !r.takes_preface
        },
{
    let none: Vec<u8> = Vec::new();
    if req.is_connect() {
        return open_tunnel(leftover, none.as_slice());
    }
    let origin = req.with_target(req.origin_form_target());
    let extra: [(&str, &str); 0] = [];
    let fields = extra.as_slice();
    assert(fields.deep_view() == Seq::<(Seq<char>, Seq<char>)>::empty());
    let to_server = encode_request(&origin, fields, true);
    assert(origin@ == (RequestView { target: req@.origin_form(), ..req@ }));
    Opening { to_client: Vec::new(), to_server, early: none, takes_preface: false }
}

/// What is wrong with the answer of a proxy that was asked for a tunnel.
pub open spec fn tunnel_fault(
    host: Seq<char>,
    port: u16,
    req: RequestView,
    resp: ResponseView,
) -> Option<ErrorView> {
    if req.connects() && resp.status != 200 {
        Some(
            ErrorView::Upstream {
                host,
                port,
                message: "CONNECT failed: "@ + decimal(resp.status as nat) + " "@ + resp.reason,
            },
        )
    } else {
        None
    }
}

/// What is wrong with the answer of the proxy `host`, if anything: a tunnel
/// that was asked for and is not open.
pub fn tunnel_refused(host: &str, port: u16, req: &ClientRequest, resp: &ServerResponse) -> (r:
    Option<Error>)
    ensures
        match r {
            Some(e) => tunnel_fault(host@, port, req@, resp@) == Some(e@),
            None => tunnel_fault(host@, port, req@, resp@) is None,
        },
{
    if !req.is_connect() || resp.status == 200 {
        return None;
    }
    let mut message = "CONNECT failed: ".to_owned();
    push_decimal(&mut message, resp.status as u64);
    message.append(" ");
    message.append(resp.reason.as_str());
    Some(upstream(host, port, message))
}

/// How the client is served by the answer of a proxy.
#[derive(Debug)]
pub enum Relay {
    /// Bytes are passed on in both directions.
    Tunnel(Opening),
    /// The client is sent a head, and a body that is framed so.
    Response(Vec<u8>, Framing),
}

/// How the client is served by the answer of a proxy. `leftover` is what the
/// client sent after the head of its request, and `early` what the proxy sent
/// after the head of its answer.
pub fn proxied(
    req: &ClientRequest,
    resp: &ServerResponse,
    leftover: &[u8],
    early: &[u8],
) -> (r: Relay)
    ensures
        if req@.connects() {
            r matches Relay::Tunnel(o) && o.tunnels(leftover@, early@)
        } else {
            &&& r matches Relay::Response(head, f)
            &&& head@ == encode_utf8(
                status_line(resp@) + field_lines(shown(resp@.headers)) + "\r\n"@,
            )
            &&& f == framing_of(resp@.headers)
        },
{
    if req.is_connect() {
        Relay::Tunnel(open_tunnel(leftover, early))
    } else {
        Relay::Response(encode_response_to_client(resp), framing(resp.headers.as_slice()))
    }
}

} // verus!
