//! What the user is told.
use crate::config::{host_or_default, AuthMode, Config, Mode};
use crate::doctor::{
    address_text, auth_text, heading_of, in_settings, mode_text, probe_of, route_text,
    test_destination, verdict_of,
};
use crate::error::ErrorView;
use crate::hop::HopView;
use crate::http1::{values_of, RequestView, ResponseView};
use crate::laws::addresses::{authority_ends_at_the_first_slash, host_and_port_are_read};
use crate::number::{decimal, lemma_digits_are_digits};
use crate::text::{joined, trimming_leaves_the_middle, Class};
use vstd::prelude::*;

verus! {

/// A failure is told with what it concerns in front.
pub proof fn failures_are_told_by_what_they_concern(
    m: Seq<char>,
    host: Seq<char>,
    port: u16,
)
    ensures
        (ErrorView::Message(m)).text() == m,
        (ErrorView::Io(m)).text() == m,
        (ErrorView::Config(m)).text() == "config: "@ + m,
        (ErrorView::Unsupported(m)).text() == "unsupported on this OS: "@ + m,
        (ErrorView::Http(m)).text() == "http: "@ + m,
        (ErrorView::Auth(m)).text() == "auth: "@ + m,
        (ErrorView::Upstream { host, port, message: m }).text() == "upstream "@ + host + seq![':']
            + decimal(port as nat) + seq![':', ' '] + m,
{
    reveal_strlit(":");
    reveal_strlit(": ");
    assert(":"@ == seq![':'] && ": "@ == seq![':', ' ']);
}

proof fn lemma_scheme(scheme: Seq<char>, rest: Seq<char>)
    ensures
        scheme.is_prefix_of(scheme + rest),
        (scheme + rest).skip(scheme.len() as int) == rest,
{
    assert((scheme + rest).subrange(0, scheme.len() as int) == scheme);
    assert((scheme + rest).skip(scheme.len() as int) == rest);
}

/// The trial goes to the host and the port of the test URL, whatever its path;
/// without a port to 443 for `https` and to 80 for `http`.
pub proof fn trial_goes_to_the_test_url(host: Seq<char>, port: u16, path: Seq<char>)
    requires
        host.len() > 0,
        forall|i: int|
            0 <= i < host.len() ==> #[trigger] host[i] != '/' && host[i] != ':'
                && !Class::Space.holds(host[i]) && !Class::Bracket.holds(host[i]),
        path.len() > 0 ==> path[0] == '/' && !Class::Space.holds(path.last()),
    ensures
        ({
            let full = host + seq![':'] + decimal(port as nat);
            &&& test_destination("http://"@ + (full + path)) == Ok::<(Seq<char>, u16), ErrorView>(
                (host, port),
            )
            &&& test_destination("https://"@ + (full + path)) == Ok::<(Seq<char>, u16), ErrorView>(
                (host, port),
            )
            &&& test_destination("http://"@ + (host + path)) == Ok::<(Seq<char>, u16), ErrorView>(
                (host, 80u16),
            )
            &&& test_destination("https://"@ + (host + path)) == Ok::<(Seq<char>, u16), ErrorView>(
                (host, 443u16),
            )
        }),
{
    let full = host + seq![':'] + decimal(port as nat);
    let none = Seq::<char>::empty();
    lemma_digits_are_digits(port as nat, 10);
    assert forall|i: int| 0 <= i < full.len() implies #[trigger] full[i] != '/' by {
        if i > host.len() {
            assert(full[i] == decimal(port as nat)[i - host.len() - 1]);
        }
    }
    assert(full[host.len() as int] == ':');
    host_and_port_are_read(none, host, port, none);
    assert(none + full + none == full);
    assert(full.last() == decimal(port as nat).last());
    assert(!Class::Space.holds(host[host.len() - 1]));
    lemma_trial(full, path);
    lemma_trial(host, path);
    authority_ends_at_the_first_slash(full, path, 80);
    authority_ends_at_the_first_slash(full, path, 443);
    authority_ends_at_the_first_slash(host, path, 80);
    authority_ends_at_the_first_slash(host, path, 443);
}

proof fn lemma_trial(authority: Seq<char>, path: Seq<char>)
    requires
        authority.len() > 0,
        forall|i: int| 0 <= i < authority.len() ==> #[trigger] authority[i] != '/',
        !Class::Space.holds(authority.last()),
        path.len() > 0 ==> path[0] == '/' && !Class::Space.holds(path.last()),
    ensures
        test_destination("http://"@ + (authority + path)) == in_settings(
            host_or_default(authority, 80),
        ),
        test_destination("https://"@ + (authority + path)) == in_settings(
            host_or_default(authority, 443),
        ),
{
    let rest = authority + path;
    if path.len() > 0 {
        assert(rest.last() == path.last());
    } else {
        assert(rest == authority);
    }
    lemma_url(rest);
    authority_ends_at_the_first_slash(authority, path, 80);
    authority_ends_at_the_first_slash(authority, path, 443);
}

proof fn lemma_url(rest: Seq<char>)
    requires
        rest.len() > 0,
        !Class::Space.holds(rest.last()),
    ensures
        crate::text::trim("http://"@ + rest) == "http://"@ + rest,
        crate::text::trim("https://"@ + rest) == "https://"@ + rest,
        "http://"@.is_prefix_of("http://"@ + rest),
        "https://"@.is_prefix_of("https://"@ + rest),
        !"https://"@.is_prefix_of("http://"@ + rest),
        ("http://"@ + rest).skip("http://"@.len() as int) == rest,
        ("https://"@ + rest).skip("https://"@.len() as int) == rest,
{
    reveal_strlit("http://");
    reveal_strlit("https://");
    let none = Seq::<char>::empty();
    let a = "http://"@ + rest;
    let b = "https://"@ + rest;
    lemma_scheme("http://"@, rest);
    lemma_scheme("https://"@, rest);
    assert(a[0] == 'h' && a.last() == rest.last() && b[0] == 'h' && b.last() == rest.last());
    trimming_leaves_the_middle(none, a, none, Class::Space);
    trimming_leaves_the_middle(none, b, none, Class::Space);
    assert(none + a + none == a && none + b + none == b);
    if "https://"@.is_prefix_of(a) {
        assert(a.subrange(0, 8)[4] == 's');
        assert(a[4] == ':');
    }
}

/// A test URL that is neither `http` nor `https` is refused.
pub proof fn test_url_has_to_be_http(url: Seq<char>)
    requires
        url.len() > 0,
        !Class::Space.holds(url[0]),
        !Class::Space.holds(url.last()),
        !"http://"@.is_prefix_of(url),
        !"https://"@.is_prefix_of(url),
    ensures
        test_destination(url) == Err::<(Seq<char>, u16), ErrorView>(
            ErrorView::Config("test_url must be http(s)://... ("@ + url + seq![')']),
        ),
{
    reveal_strlit(")");
    assert(")"@ == seq![')']);
    let none = Seq::<char>::empty();
    trimming_leaves_the_middle(none, url, none, Class::Space);
    assert(none + url + none == url);
}

/// A proxy is tried with a tunnel where the port is 443, and with the test URL
/// itself otherwise.
pub proof fn proxy_is_tried_as_it_is_used(test_url: Seq<char>, host: Seq<char>, port: u16)
    ensures
        ({
            let full = host + seq![':'] + decimal(port as nat);
            &&& address_text(host, port) == full
            &&& port == 443 ==> probe_of(test_url, host, port) == (RequestView {
                method: "CONNECT"@,
                target: full,
                version: "HTTP/1.1"@,
                headers: seq![("Host"@, full)],
                body: Seq::empty(),
            })
            &&& port != 443 ==> probe_of(test_url, host, port) == (RequestView {
                method: "GET"@,
                target: test_url,
                version: "HTTP/1.1"@,
                headers: seq![("Host"@, host), ("User-Agent"@, "ntgate/0.1"@)],
                body: Seq::empty(),
            })
        }),
{
    reveal_strlit(":");
    assert(":"@ == seq![':']);
}

/// A proxy works where it answers with 200 to 399; 407 means that the user was
/// not let through, and any other status that the proxy failed.
pub proof fn status_tells_whether_the_proxy_works(
    host: Seq<char>,
    port: u16,
    resp: ResponseView,
)
    ensures
        verdict_of(host, port, resp) is Ok <==> 200 <= resp.status <= 399,
        200 <= resp.status <= 399 ==> verdict_of(host, port, resp) == Ok::<Seq<char>, ErrorView>(
            host + seq![':'] + decimal(port as nat) + " -> HTTP "@ + decimal(resp.status as nat)
                + seq![' '] + resp.reason,
        ),
        resp.status == 407 ==> verdict_of(host, port, resp) == Err::<Seq<char>, ErrorView>(
            ErrorView::Auth(
                "still 407 after handshake ("@ + joined(
                    values_of(resp.headers, "proxy-authenticate"@),
                    seq![',', ' '],
                ) + seq![')'],
            ),
        ),
        !(200 <= resp.status <= 399) && resp.status != 407 ==> verdict_of(host, port, resp)
            == Err::<Seq<char>, ErrorView>(
            ErrorView::Upstream {
                host,
                port,
                message: decimal(resp.status as nat) + seq![' '] + resp.reason,
            },
        ),
{
    reveal_strlit(":");
    reveal_strlit(" ");
    reveal_strlit(", ");
    reveal_strlit(")");
    assert(":"@ == seq![':'] && " "@ == seq![' '] && ", "@ == seq![',', ' '] && ")"@ == seq![')']);
}

/// The report begins with the version, the program, and the settings that
/// decide the way.
pub proof fn report_begins_with_the_settings(
    version: Seq<char>,
    exe: Seq<char>,
    cfg: Config,
)
    ensures
        mode_text(Mode::System) == "System"@,
        mode_text(Mode::Pac) == "Pac"@,
        mode_text(Mode::Proxy) == "Proxy"@,
        auth_text(AuthMode::Auto) == "Auto"@,
        auth_text(AuthMode::Negotiate) == "Negotiate"@,
        auth_text(AuthMode::Ntlm) == "Ntlm"@,
        cfg.pac is None ==> heading_of(version, exe, cfg) == seq![
            "ntgate      "@ + version,
            "exe         "@ + exe,
            "listen      "@ + cfg.listen@,
            "mode        "@ + mode_text(cfg.mode),
            "test_url    "@ + cfg.test_url@,
            "auth        "@ + auth_text(cfg.auth),
        ],
        cfg.pac is Some ==> heading_of(version, exe, cfg) == seq![
            "ntgate      "@ + version,
            "exe         "@ + exe,
            "listen      "@ + cfg.listen@,
            "mode        "@ + mode_text(cfg.mode),
            "pac         "@ + (cfg.pac->0)@,
            "test_url    "@ + cfg.test_url@,
            "auth        "@ + auth_text(cfg.auth),
        ],
{
}

/// A route is its hops, each as it is shown, with the mark between them.
pub proof fn route_shows_its_hops(hops: Seq<HopView>, last: HopView, sep: Seq<char>)
    ensures
        route_text(seq![last], sep) == last.text(),
        hops.len() > 0 ==> route_text(hops.push(last), sep) == route_text(hops, sep) + sep
            + last.text(),
{
    let show = |h: HopView| h.text();
    assert(seq![last].map_values(show) == seq![last.text()]);
    assert(hops.push(last).map_values(show) == hops.map_values(show).push(last.text()));
    crate::text::texts_join_with_their_mark(hops.map_values(show), last.text(), sep);
    crate::text::texts_join_with_their_mark(Seq::empty(), last.text(), sep);
}

/// A shell and git are set up to use the address that is listened on.
pub proof fn shell_is_set_up_with_the_address(cfg: Config)
    ensures
        cfg.env_text() == seq![
            "set HTTP_PROXY=http://"@ + cfg.listen@,
            "set HTTPS_PROXY=http://"@ + cfg.listen@,
            "set NO_PROXY=localhost,127.0.0.1"@,
            "git config --global http.proxy http://"@ + cfg.listen@,
            "git config --global https.proxy http://"@ + cfg.listen@,
        ],
{
    reveal_strlit("http://");
    reveal_strlit("set HTTP_PROXY=");
    reveal_strlit("set HTTP_PROXY=http://");
    reveal_strlit("set HTTPS_PROXY=");
    reveal_strlit("set HTTPS_PROXY=http://");
    reveal_strlit("git config --global http.proxy ");
    reveal_strlit("git config --global http.proxy http://");
    reveal_strlit("git config --global https.proxy ");
    reveal_strlit("git config --global https.proxy http://");
    let l = cfg.listen@;
    assert("set HTTP_PROXY="@ + ("http://"@ + l) == "set HTTP_PROXY=http://"@ + l);
    assert("set HTTPS_PROXY="@ + ("http://"@ + l) == "set HTTPS_PROXY=http://"@ + l);
    assert("git config --global http.proxy "@ + ("http://"@ + l)
        == "git config --global http.proxy http://"@ + l);
    assert("git config --global https.proxy "@ + ("http://"@ + l)
        == "git config --global https.proxy http://"@ + l);
}

} // verus!
