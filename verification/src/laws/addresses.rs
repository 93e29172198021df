//! Hosts and ports in text.
use crate::boundary::debug_quoted;
use crate::config::{authority_of, host_or_default, host_port_fault, host_port_of, Config, Mode};
use crate::error::ErrorView;
use crate::hop::{hop_is_read_back, HopView};
use crate::ip::{
    address_is_written_plainly, ipv4_is_written_back, ipv4_of, ipv6_is_read_back, is_of_address,
    socket_is_read_back, socket_of, socket_v4_of, IpAddr, SocketAddr,
};
use crate::number::{
    decimal, digits_up_to, lemma_digits_are_digits, lemma_numeral_digits, numeral, unsigned_up_to,
};
use crate::text::{
    before, lemma_first_at, lemma_last_at, text_is_cut_at_its_marks, trim,
    trimming_leaves_the_middle, Class,
};
use vstd::prelude::*;

verus! {

proof fn lemma_has_no_scheme(host: Seq<char>, port: u16)
    requires
        forall|i: int| 0 <= i < host.len() ==> #[trigger] host[i] != '/',
    ensures
        !"http://"@.is_prefix_of((HopView::Http { host, port }).text()),
        !"https://"@.is_prefix_of((HopView::Http { host, port }).text()),
{
    let t = (HopView::Http { host, port }).text();
    let end = decimal(port as nat);
    reveal_strlit("http://");
    reveal_strlit("https://");
    reveal_strlit(":");
    lemma_digits_are_digits(port as nat, 10);
    assert forall|i: int| 0 <= i < t.len() implies #[trigger] t[i] != '/' by {
        if i < host.len() {
            assert(t[i] == host[i]);
        } else if i > host.len() {
            assert(t[i] == end[i - host.len() - 1]);
        }
    }
    if "http://"@.is_prefix_of(t) {
        assert(t.subrange(0, 7)[5] == '/');
        assert(t[5] == '/');
    }
    if "https://"@.is_prefix_of(t) {
        assert(t.subrange(0, 8)[6] == '/');
        assert(t[6] == '/');
    }
}

/// A host, a colon and a port are read as this host and this port, with white
/// space around them or none.
pub proof fn host_and_port_are_read(
    a: Seq<char>,
    host: Seq<char>,
    port: u16,
    b: Seq<char>,
)
    requires
        forall|i: int| 0 <= i < a.len() ==> Class::Space.holds(#[trigger] a[i]),
        forall|i: int| 0 <= i < b.len() ==> Class::Space.holds(#[trigger] b[i]),
        host.len() > 0,
        !Class::Space.holds(host[0]),
        !Class::Bracket.holds(host[0]),
        !Class::Bracket.holds(host.last()),
        forall|i: int| 0 <= i < host.len() ==> #[trigger] host[i] != '/',
    ensures
        host_port_of(a + (host + seq![':'] + decimal(port as nat)) + b) == Some((host, port)),
{
    let t = host + seq![':'] + decimal(port as nat);
    reveal_strlit(":");
    assert(":"@ == seq![':']);
    assert(t == (HopView::Http { host, port }).text());
    lemma_has_no_scheme(host, port);
    hop_is_read_back(host, port);
    lemma_digits_are_digits(port as nat, 10);
    assert(t.last() == decimal(port as nat).last());
    assert(t[0] == host[0]);
    trimming_leaves_the_middle(a, t, b, Class::Space);
    trimming_leaves_the_middle(Seq::empty(), t, Seq::empty(), Class::Space);
    assert(Seq::<char>::empty() + t + Seq::<char>::empty() == t);
}

/// An IPv6 address with a port stands in brackets, and is read without them.
pub proof fn bracketed_address_and_port_are_read(v: u128, port: u16)
    ensures
        host_port_of(
            seq!['['] + (IpAddr::V6(v)).text() + seq![']', ':'] + decimal(port as nat),
        ) == Some(((IpAddr::V6(v)).text(), port)),
{
    let addr = SocketAddr { ip: IpAddr::V6(v), port, scope: 0, flow: 0 };
    let t = seq!['['] + (IpAddr::V6(v)).text() + seq![']', ':'] + decimal(port as nat);
    socket_is_read_back(addr);
    assert(addr.text() == t);
    lemma_digits_are_digits(port as nat, 10);
    assert(t.last() == decimal(port as nat).last());
    assert(t[0] == '[');
    trimming_leaves_the_middle(Seq::empty(), t, Seq::empty(), Class::Space);
    assert(Seq::<char>::empty() + t + Seq::<char>::empty() == t);
}

/// What stands after the colon has to be a port, a number up to 65535; without
/// a colon, or without a host before it, there is no host and port.
pub proof fn port_has_to_be_a_number(host: Seq<char>, port: Seq<char>)
    requires
        forall|i: int|
            0 <= i < host.len() ==> #[trigger] host[i] != ':' && !Class::Space.holds(host[i])
                && !Class::Bracket.holds(host[i]),
        forall|i: int|
            0 <= i < port.len() ==> #[trigger] port[i] != ':' && !Class::Space.holds(port[i]),
    ensures
        host_port_of(host) is None,
        host_port_of(seq![':'] + port) is None,
        unsigned_up_to(port, 10, 65535) is None ==> host_port_of(host + seq![':'] + port) is None,
        host.len() > 0 && unsigned_up_to(port, 10, 65535) is Some ==> host_port_of(
            host + seq![':'] + port,
        ) is Some && (host_port_of(host + seq![':'] + port)->0).1 as nat == unsigned_up_to(
            port,
            10,
            65535,
        )->0,
{
    let k = Class::One(':');
    let none = Seq::<char>::empty();
    let t = host + seq![':'] + port;
    let u = seq![':'] + port;
    lemma_trim_plain(host);
    lemma_trim_plain(t);
    lemma_trim_plain(u);
    lemma_plain_is_no_v6(host);
    lemma_plain_is_no_v6(t);
    lemma_plain_is_no_v6(u);
    text_is_cut_at_its_marks(host, ':', port, k);
    text_is_cut_at_its_marks(port, ':', host, k);
    lemma_first_at(host, k);
    lemma_last_at(host, k);
    text_is_cut_at_its_marks(none, ':', port, k);
    text_is_cut_at_its_marks(port, ':', none, k);
    assert(none + seq![':'] + port == u);
    assert(t.skip(host.len() as int + 1) == port);
    assert(ipv4_of(none) is None) by {
        lemma_first_at(none, Class::One('.'));
    }
    lemma_digits_and_unsigned(port);
}

proof fn lemma_digits_and_unsigned(s: Seq<char>)
    ensures
        digits_up_to(s, 10, 65535) is Some ==> digits_up_to(s, 10, 65535)
            == unsigned_up_to(s, 10, 65535),
{
    if s.len() > 0 && s[0] == '+' {
        if numeral(s, 10) is Some {
            lemma_numeral_digits(s, 10, 0);
        }
    }
}

proof fn lemma_trim_plain(s: Seq<char>)
    requires
        forall|i: int| 0 <= i < s.len() ==> !Class::Space.holds(#[trigger] s[i]),
    ensures
        trim(s) == s,
{
    trimming_leaves_the_middle(Seq::empty(), s, Seq::empty(), Class::Space);
    assert(Seq::<char>::empty() + s + Seq::<char>::empty() == s);
}

proof fn lemma_plain_is_no_v6(s: Seq<char>)
    requires
        s.len() > 0 ==> s[0] != '[',
    ensures
        socket_of(s) == socket_v4_of(s),
{
}

/// A host without a port gets the usual one, and what follows the first slash
/// makes no difference.
pub proof fn authority_ends_at_the_first_slash(
    authority: Seq<char>,
    path: Seq<char>,
    default: u16,
)
    requires
        forall|i: int| 0 <= i < authority.len() ==> #[trigger] authority[i] != '/',
        path.len() > 0 ==> path[0] == '/',
    ensures
        authority_of(authority + path, default) == host_or_default(authority, default),
        authority_of(authority, default) == host_or_default(authority, default),
        (forall|i: int| 0 <= i < authority.len() ==> #[trigger] authority[i] != ':')
            ==> host_or_default(authority, default) == Ok::<(Seq<char>, u16), Seq<char>>(
            (authority, default),
        ),
        (exists|i: int| 0 <= i < authority.len() && #[trigger] authority[i] == ':')
            ==> host_or_default(authority, default) == match host_port_of(authority) {
            Some(hp) => Ok::<(Seq<char>, u16), Seq<char>>(hp),
            None => Err(host_port_fault(authority)),
        },
{
    let k = Class::One('/');
    text_is_cut_at_its_marks(authority, '/', Seq::empty(), k);
    if path.len() > 0 {
        let more = path.drop_first();
        assert(authority + path == authority + seq!['/'] + more);
        text_is_cut_at_its_marks(authority, '/', more, k);
    } else {
        assert(authority + path == authority);
    }
    if exists|i: int| 0 <= i < authority.len() && #[trigger] authority[i] == ':' {
        let i = choose|i: int| 0 <= i < authority.len() && #[trigger] authority[i] == ':';
        assert(Class::One(':').holds(authority[i]));
    }
}

/// Settings are valid where clients can be served on `listen`, and the mode has
/// what it needs: an upstream proxy, a PAC script that is not blank, or
/// nothing.
pub proof fn settings_are_valid_where_the_mode_has_its_means(cfg: Config)
    ensures
        cfg.fault() is None <==> socket_of(cfg.listen@) is Some && {
            ||| cfg.mode == Mode::System
            ||| cfg.mode == Mode::Proxy && cfg.upstream is Some && host_port_of(
                (cfg.upstream->0)@,
            ) is Some
            ||| cfg.mode == Mode::Pac && cfg.pac is Some && trim((cfg.pac->0)@).len() > 0
        },
        cfg.fault() matches Some(e) ==> e is Config,
{
}

/// What is wrong with settings is told: first an address that cannot be listened
/// on, then what the mode lacks.
pub proof fn faults_of_settings_are_told(cfg: Config)
    ensures
        socket_of(cfg.listen@) is None ==> cfg.fault() == Some(
            ErrorView::Config(
                "invalid listen "@ + cfg.listen@ + ": invalid socket address syntax"@,
            ),
        ),
        socket_of(cfg.listen@) is Some && cfg.mode == Mode::Proxy && cfg.upstream is None
            ==> cfg.fault() == Some(
            ErrorView::Config("mode=proxy requires upstream = \"host:port\""@),
        ),
        socket_of(cfg.listen@) is Some && cfg.mode == Mode::Proxy && cfg.upstream is Some
            && host_port_of((cfg.upstream->0)@) is None ==> cfg.fault() == Some(
            ErrorView::Config(host_port_fault((cfg.upstream->0)@)),
        ),
        socket_of(cfg.listen@) is Some && cfg.mode == Mode::Pac && (cfg.pac is None || trim(
            (cfg.pac->0)@,
        ).len() == 0) ==> cfg.fault() == Some(
            ErrorView::Config("mode=pac requires pac = \"http://...\" or a file path"@),
        ),
{
}

/// What is no host and port is told without the white space around it.
pub proof fn no_host_and_port_is_told(a: Seq<char>, s: Seq<char>, b: Seq<char>)
    requires
        forall|i: int| 0 <= i < a.len() ==> Class::Space.holds(#[trigger] a[i]),
        forall|i: int| 0 <= i < b.len() ==> Class::Space.holds(#[trigger] b[i]),
        s.len() > 0 ==> !Class::Space.holds(s[0]) && !Class::Space.holds(s.last()),
    ensures
        host_port_fault(a + s + b) == "expected host:port, got "@ + debug_quoted(s),
{
    trimming_leaves_the_middle(a, s, b, Class::Space);
}

/// A socket address gives its address in the usual form and its port, and what
/// starts with a bracket and is no socket address is no host and port.
pub proof fn socket_address_gives_host_and_port(s: Seq<char>)
    requires
        s.len() > 0,
        !Class::Space.holds(s[0]),
        !Class::Space.holds(s.last()),
    ensures
        socket_of(s) matches Some(a) ==> host_port_of(s) == Some((a.ip.text(), a.port)),
        socket_of(s) is None && s[0] == '[' ==> host_port_of(s) is None,
{
    let none = Seq::<char>::empty();
    trimming_leaves_the_middle(none, s, none, Class::Space);
    assert(none + s + none == s);
}

/// A socket address is an address, a colon and a port in digits up to 65535; an
/// IPv6 address stands in brackets.
pub proof fn socket_address_has_a_port(ip: Seq<char>, port: Seq<char>)
    requires
        forall|i: int| 0 <= i < ip.len() ==> #[trigger] ip[i] != ':' && ip[i] != '[',
    ensures
        socket_of(ip + seq![':'] + port) is Some <==> ipv4_of(ip) is Some && digits_up_to(
            port,
            10,
            65535,
        ) is Some,
        ipv4_of(ip) is Some && digits_up_to(port, 10, 65535) is Some ==> socket_of(
            ip + seq![':'] + port,
        ) == Some(
            SocketAddr {
                ip: IpAddr::V4(ipv4_of(ip)->0),
                port: digits_up_to(port, 10, 65535)->0 as u16,
                scope: 0,
                flow: 0,
            },
        ),
        socket_of(ip) is None,
{
    let k = Class::One(':');
    text_is_cut_at_its_marks(ip, ':', port, k);
    lemma_plain_is_no_v6(ip);
    lemma_plain_is_no_v6(ip + seq![':'] + port);
}

/// The port of an IPv6 socket address is in digits up to 65535 too.
pub proof fn bracketed_socket_address_has_a_port(v: u128, port: Seq<char>)
    ensures
        socket_of(seq!['['] + (IpAddr::V6(v)).text() + seq![']', ':'] + port) is Some
            <==> digits_up_to(port, 10, 65535) is Some,
        digits_up_to(port, 10, 65535) is Some ==> socket_of(
            seq!['['] + (IpAddr::V6(v)).text() + seq![']', ':'] + port,
        ) == Some(
            SocketAddr {
                ip: IpAddr::V6(v),
                port: digits_up_to(port, 10, 65535)->0 as u16,
                scope: 0,
                flow: 0,
            },
        ),
{
    let six = (IpAddr::V6(v)).text();
    let rest = seq![':'] + port;
    let s = seq!['['] + six + seq![']', ':'] + port;
    address_is_written_plainly(IpAddr::V6(v));
    assert forall|i: int| 0 <= i < six.len() implies #[trigger] six[i] != ']' && six[i] != '%' by {
        assert(is_of_address(six[i]));
    }
    assert(s.skip(1) == six + seq![']'] + rest);
    text_is_cut_at_its_marks(six, ']', rest, Class::One(']'));
    text_is_cut_at_its_marks(six, '%', rest, Class::One('%'));
    ipv6_is_read_back(v);
    assert(rest.skip(1) == port);
    assert(s[0] == '[');
    let k = Class::One(':');
    assert(socket_v4_of(s) is None) by {
        if socket_v4_of(s) is Some {
            let b = before(s, k);
            lemma_first_at(s, k);
            ipv4_is_written_back(b);
            address_is_written_plainly(IpAddr::V4(ipv4_of(b)->0));
            assert(is_of_address(b[0]));
            assert(b[0] == s[0]);
        }
    }
}

} // verus!
