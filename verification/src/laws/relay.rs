//! How a client is served: where its bytes go, and what it is answered.
use crate::error::ErrorView;
use crate::hop::HopView;
use crate::http1::{request_bytes, RequestView, ResponseView};
use crate::ip::{IpAddr, SocketAddr};
use crate::number::decimal;
use crate::server::{established, exposure_text, origin_request, target_of, tunnel_fault, Opening};
use crate::text::same_word;
use vstd::prelude::*;
use vstd::utf8::encode_utf8;

verus! {

/// A proxy is connected to where there is one, and the destination otherwise.
pub proof fn hop_gives_the_connection(
    host: Seq<char>,
    port: u16,
    proxy: Seq<char>,
    proxy_port: u16,
)
    ensures
        target_of(HopView::Direct, host, port) == (host, port),
        target_of(HopView::Http { host: proxy, port: proxy_port }, host, port) == (
            proxy,
            proxy_port,
        ),
{
}

/// An open tunnel is answered with 200 and an empty head, and whatever either
/// side sent early is passed on unchanged.
pub proof fn tunnel_passes_on_what_came_early(o: Opening, preface: Seq<u8>, early: Seq<u8>)
    ensures
        established() == "HTTP/1.1 200 Connection Established"@ + seq!['\r', '\n', '\r', '\n'],
        o.tunnels(preface, early) ==> {
            &&& o.to_client@ == encode_utf8(
                "HTTP/1.1 200 Connection Established"@ + seq!['\r', '\n', '\r', '\n'],
            )
            &&& o.to_server@ == preface
            &&& o.early@ == early
            &&& o.takes_preface
        },
{
    reveal_strlit("HTTP/1.1 200 Connection Established\r\n\r\n");
    reveal_strlit("HTTP/1.1 200 Connection Established");
    assert(established() == "HTTP/1.1 200 Connection Established"@ + seq!['\r', '\n', '\r', '\n']);
}

/// The destination itself is sent the request with its body and without added
/// fields, for the path alone where the target is an `http` URL.
pub proof fn destination_is_sent_the_request(req: RequestView)
    ensures
        origin_request(req) == request_bytes(
            RequestView {
                method: req.method,
                target: req.origin_form(),
                version: req.version,
                headers: req.headers,
                body: req.body,
            },
            Seq::empty(),
            true,
        ),
{
}

/// A proxy that was asked for a tunnel has to answer 200; any other answer is a
/// failure, told with its status. An answer to another request is none.
pub proof fn tunnel_needs_a_200(
    host: Seq<char>,
    port: u16,
    req: RequestView,
    resp: ResponseView,
)
    ensures
        tunnel_fault(host, port, req, resp) is Some <==> same_word(req.method, "CONNECT"@)
            && resp.status != 200,
        tunnel_fault(host, port, req, resp) matches Some(e) ==> e == (ErrorView::Upstream {
            host,
            port,
            message: "CONNECT failed: "@ + decimal(resp.status as nat) + seq![' '] + resp.reason,
        }),
{
    reveal_strlit(" ");
    assert(" "@ == seq![' ']);
}

/// The user is warned where other machines can reach the proxy: on any address
/// but 127.0.0.0 to 127.255.255.255 and ::1.
pub proof fn other_machines_are_warned_of(addr: SocketAddr)
    ensures
        exposure_text(addr) is None <==> match addr.ip {
            IpAddr::V4(v) => 0x7f00_0000 <= v <= 0x7fff_ffff,
            IpAddr::V6(v) => v == 1,
        },
        exposure_text(addr) matches Some(t) ==> t == "listen "@ + addr.text()
            + " is not loopback; other hosts will share your SSO session"@,
{
}

} // verus!
