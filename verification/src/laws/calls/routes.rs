//! Calls that find the way to a destination.
use crate::config::{
    authority_of, host_or_default, host_port_fault, host_port_of, looks_like_ip, parse_authority,
    parse_host_or, parse_host_port, AuthMode, Config, Mode,
};
use crate::error::{Error, ErrorView};
use crate::hop::{ie_of, pac_of, parse_ie_proxy_list, parse_pac_result, Hop, HopView};
use crate::ip::{
    ip_of, ipv4_of, ipv6_of, read_ip, read_ipv4, read_ipv6, read_socket, socket_of, IpAddr,
    SocketAddr,
};
use crate::laws::bypass::{bit_of, network_is_agreement_in_each_bit};
use crate::noproxy::{bypasses, cidr_contains, wildcard, wildcard_match};
use crate::number::decimal;
use crate::platform::Platform;
use crate::resolve::{
    hops_from_raw, raw_of, url_for_destination, url_text, usable, Answer, AnswerView, Resolver,
};
use crate::resolve::winhttp::{
    fallback, fallback_is, first_of, first_question, found, found_of, fresh_query, open_failed,
    question_of, resolve, Fallback, IeConfig, Query, Question, QuestionView,
};
use vstd::prelude::*;

verus! {

/// An address lies in a network where it agrees with it in each of the bits that
/// the prefix counts.
pub proof fn network_holds_what_agrees_with_it(n: u32, h: u32, x: u128, y: u128, prefix: u8)
    ensures
        forall|r: bool| #[trigger]
            call_ensures(cidr_contains, (IpAddr::V4(n), prefix, IpAddr::V4(h)), r) ==> (r
                <==> if prefix < 32 {
                forall|p: nat|
                    32 - prefix <= p < 32 ==> #[trigger] bit_of(n as nat, p) == bit_of(h as nat, p)
            } else {
                n == h
            }),
        forall|r: bool| #[trigger]
            call_ensures(cidr_contains, (IpAddr::V6(x), prefix, IpAddr::V6(y)), r) ==> (r
                <==> if prefix < 128 {
                forall|p: nat|
                    128 - prefix <= p < 128 ==> #[trigger] bit_of(x as nat, p) == bit_of(
                        y as nat,
                        p,
                    )
            } else {
                x == y
            }),
        forall|r: bool| #[trigger]
            call_ensures(cidr_contains, (IpAddr::V4(n), prefix, IpAddr::V6(y)), r) ==> !r,
        forall|r: bool| #[trigger]
            call_ensures(cidr_contains, (IpAddr::V6(x), prefix, IpAddr::V4(h)), r) ==> !r,
{
    network_is_agreement_in_each_bit(n, h, x, y, prefix);
}

/// Hosts and patterns are matched as the laws on rules say.
pub proof fn rules_are_matched(
    host: &str,
    rules: &[String],
    pattern: &[char],
    value: &[char],
)
    ensures
        forall|r: bool| #[trigger]
            call_ensures(crate::noproxy::matches, (host, rules), r) ==> r == bypasses(
                host@,
                rules.deep_view(),
            ),
        forall|r: bool| #[trigger]
            call_ensures(wildcard_match, (pattern, value), r) ==> r == wildcard(pattern@, value@),
{
}

/// Addresses are read and shown as the laws on addresses say.
pub proof fn addresses_are_read_and_shown(s: &[char], ip: IpAddr, addr: SocketAddr, host: &str)
    ensures
        forall|r: Option<u32>| #[trigger]
            call_ensures(read_ipv4, (s,), r) ==> r == ipv4_of(s@),
        forall|r: Option<u128>| #[trigger]
            call_ensures(read_ipv6, (s,), r) ==> r == ipv6_of(s@),
        forall|r: Option<IpAddr>| #[trigger] call_ensures(read_ip, (s,), r) ==> r == ip_of(s@),
        forall|r: Option<SocketAddr>| #[trigger]
            call_ensures(read_socket, (s,), r) ==> r == socket_of(s@),
        forall|r: String| #[trigger]
            call_ensures(IpAddr::display, (&ip,), r) ==> r@ == ip.text(),
        forall|r: String| #[trigger]
            call_ensures(SocketAddr::display, (&addr,), r) ==> r@ == addr.text(),
        forall|r: bool| #[trigger]
            call_ensures(IpAddr::is_loopback, (&ip,), r) ==> (r <==> match ip {
                IpAddr::V4(v) => 0x7f00_0000 <= v <= 0x7fff_ffff,
                IpAddr::V6(v) => v == 1,
            }),
        forall|r: bool| #[trigger]
            call_ensures(looks_like_ip, (host,), r) ==> (r <==> ip_of(host@) is Some),
{
}

/// A host and a port are read as the laws on addresses say, and what is no host
/// and port is told.
pub proof fn hosts_and_ports_are_read(input: &str, s: &[char], default: u16)
    ensures
        forall|r: Result<(String, u16), String>| #[trigger]
            call_ensures(parse_host_port, (input,), r) ==> match r {
                Ok((host, port)) => host_port_of(input@) == Some((host@, port)),
                Err(e) => host_port_of(input@) is None && e@ == host_port_fault(input@),
            },
        forall|r: Result<(String, u16), String>| #[trigger]
            call_ensures(parse_host_or, (s, default), r) ==> match r {
                Ok((host, port)) => host_or_default(s@, default) == Ok::<
                    (Seq<char>, u16),
                    Seq<char>,
                >((host@, port)),
                Err(e) => host_or_default(s@, default) == Err::<(Seq<char>, u16), Seq<char>>(e@),
            },
        forall|r: Result<(String, u16), String>| #[trigger]
            call_ensures(parse_authority, (s, default), r) ==> match r {
                Ok((host, port)) => authority_of(s@, default) == Ok::<
                    (Seq<char>, u16),
                    Seq<char>,
                >((host@, port)),
                Err(e) => authority_of(s@, default) == Err::<(Seq<char>, u16), Seq<char>>(e@),
            },
{
}

/// Settings that say nothing serve this machine alone, follow the system, and
/// reach this machine and private networks straight.
pub proof fn settings_that_say_nothing()
    ensures
        forall|r: Config| #[trigger]
            call_ensures(Config::default, (), r) ==> {
                &&& r.listen@ == "127.0.0.1:3128"@
                &&& r.mode == Mode::System
                &&& r.upstream is None
                &&& r.pac is None
                &&& r.auth == AuthMode::Auto
                &&& r.noproxy.deep_view() == seq![
                    "localhost"@,
                    "127.0.0.1"@,
                    "::1"@,
                    "10.0.0.0/8"@,
                    "192.168.0.0/16"@,
                    "172.16.0.0/12"@,
                ]
                &&& r.test_url@ == "https://example.com"@
                &&& r.blacklist_timeout == 30
                &&& r.max_buffered_body == 1024 * 1024
            },
        forall|r: Mode| #[trigger] call_ensures(Mode::default, (), r) ==> r == Mode::System,
        forall|r: AuthMode| #[trigger] call_ensures(AuthMode::default, (), r) ==> r == AuthMode::Auto,
{
}

/// Settings are checked, and give the address to listen on and the upstream
/// proxy.
pub proof fn settings_are_checked(cfg: &Config)
    ensures
        forall|r: Result<(), Error>| #[trigger]
            call_ensures(Config::validate, (cfg,), r) ==> match r {
                Ok(_) => cfg.fault() is None,
                Err(e) => cfg.fault() == Some(e@),
            },
        forall|r: Result<SocketAddr, Error>| #[trigger]
            call_ensures(Config::listen_addr, (cfg,), r) ==> match r {
                Ok(a) => socket_of(cfg.listen@) == Some(a),
                Err(e) => socket_of(cfg.listen@) is None && e@ == ErrorView::Config(
                    "invalid listen "@ + cfg.listen@ + ": invalid socket address syntax"@,
                ),
            },
        forall|r: Result<(String, u16), Error>| #[trigger]
            call_ensures(Config::upstream_addr, (cfg,), r) ==> match r {
                Ok((host, port)) => cfg.upstream is Some && host_port_of((cfg.upstream->0)@)
                    == Some((host@, port)),
                Err(e) => {
                    &&& cfg.upstream is None ==> e@ == ErrorView::Config("upstream is not set"@)
                    &&& cfg.upstream is Some ==> host_port_of((cfg.upstream->0)@) is None && e@
                        == ErrorView::Config(host_port_fault((cfg.upstream->0)@))
                },
            },
{
}

/// Proxy lists are read as the laws on lists say.
pub proof fn lists_are_read(raw: &str, list: Option<&str>, hop: Hop)
    ensures
        forall|r: Result<Vec<Hop>, Error>| #[trigger]
            call_ensures(parse_pac_result, (raw,), r) ==> match r {
                Ok(v) => pac_of(raw@) == Ok::<Seq<HopView>, ErrorView>(v.deep_view()),
                Err(e) => pac_of(raw@) == Err::<Seq<HopView>, ErrorView>(e@),
            },
        forall|r: Result<Vec<Hop>, Error>| #[trigger]
            call_ensures(parse_ie_proxy_list, (raw,), r) ==> match r {
                Ok(v) => ie_of(raw@) == Ok::<Seq<HopView>, ErrorView>(v.deep_view()),
                Err(e) => ie_of(raw@) == Err::<Seq<HopView>, ErrorView>(e@),
            },
        forall|r: Result<Vec<Hop>, Error>| #[trigger]
            call_ensures(hops_from_raw, (raw,), r) ==> match r {
                Ok(v) => raw_of(raw@) == Ok::<Seq<HopView>, ErrorView>(v.deep_view()),
                Err(e) => raw_of(raw@) == Err::<Seq<HopView>, ErrorView>(e@),
            },
        forall|r: Result<Vec<Hop>, Error>| #[trigger]
            call_ensures(found, (list,), r) ==> match r {
                Ok(v) => found_of(list.deep_view()) == Ok::<Seq<HopView>, ErrorView>(
                    v.deep_view(),
                ),
                Err(e) => found_of(list.deep_view()) == Err::<Seq<HopView>, ErrorView>(e@),
            },
        forall|r: String| #[trigger] call_ensures(Hop::display, (&hop,), r) ==> r@ == hop@.text(),
        forall|r: Hop| #[trigger] call_ensures(Hop::copy, (&hop,), r) ==> r@ == hop@,
{
}

/// A resolver begins with nothing known, and each call changes what it knows
/// and answers as the laws on hops say.
pub proof fn resolver_answers(
    cfg: Config,
    hop: &Hop,
    platform: Platform,
    url: &str,
    host: &str,
    hops: Vec<Hop>,
    list: &[Hop],
    now: u64,
)
    ensures
        forall|r: Resolver| #[trigger]
            call_ensures(Resolver::new, (cfg,), r) ==> r@.cfg == cfg && r@.kept == Map::<
                Seq<char>,
                (Seq<HopView>, u128),
            >::empty() && r@.avoided == Map::<Seq<char>, u128>::empty(),
        forall|s: &mut Resolver, r: ()| #[trigger]
            call_ensures(Resolver::invalidate, (s,), r) ==> final(s)@ == s@.emptied(),
        forall|s: &mut Resolver, r: ()| #[trigger]
            call_ensures(Resolver::mark_bad, (s, hop, now), r) ==> final(s)@ == s@.marked(hop@, now),
        forall|s: &mut Resolver, r: Result<Answer, Error>| #[trigger]
            call_ensures(Resolver::hops_for, (s, platform, url, host, now), r) ==> {
                &&& final(s)@ == s@.asked(host@, now)
                &&& match r {
                    Ok(a) => s@.answer(platform, url@, host@, now) == Ok::<AnswerView, ErrorView>(
                        a@,
                    ),
                    Err(e) => s@.answer(platform, url@, host@, now) == Err::<AnswerView, ErrorView>(
                        e@,
                    ),
                }
            },
        forall|s: &mut Resolver, r: Vec<Hop>| #[trigger]
            call_ensures(Resolver::record, (s, host, hops, now), r) ==> {
                &&& final(s)@ == s@.recorded(host@, hops.deep_view(), now)
                &&& r.deep_view() == usable(hops.deep_view(), s@.avoided, now)
            },
        forall|s: &Resolver, r: Vec<Hop>| #[trigger]
            call_ensures(Resolver::filter_blacklist, (s, list, now), r) ==> r.deep_view() == usable(
                list.deep_view(),
                s@.avoided,
                now,
            ),
{
}

/// The system is asked as the laws on hops say. A question that failed for want
/// of a script on the network is put once more, for the script alone, and every
/// other failure is final.
pub proof fn system_is_asked(
    host: &str,
    port: u16,
    connect: bool,
    url: &str,
    pac: Option<&str>,
    mode: Mode,
    auto_detect: bool,
    ie: Option<IeConfig>,
    code: u32,
    second: bool,
)
    ensures
        forall|r: String| #[trigger]
            call_ensures(url_for_destination, (host, port, connect), r) ==> r@ == url_text(
                host@,
                port,
                connect,
            ),
        forall|r: Result<Question, Error>| #[trigger]
            call_ensures(resolve, (url, pac, mode), r) ==> match r {
                Ok(q) => question_of(url@, pac.deep_view(), mode) == Ok::<QuestionView, ErrorView>(
                    q@,
                ),
                Err(e) => question_of(url@, pac.deep_view(), mode) == Err::<
                    QuestionView,
                    ErrorView,
                >(e@),
            },
        forall|r: Query| #[trigger]
            call_ensures(Query::new, (url, pac, auto_detect), r) ==> r@ == fresh_query(
                url@,
                pac.deep_view(),
                auto_detect,
            ),
        forall|r: Option<Query>| #[trigger]
            call_ensures(first_question, (url, &ie), r) ==> match r {
                Some(q) => first_of(url@, ie) == Some(q@),
                None => first_of(url@, ie) is None,
            },
        forall|r: Fallback| #[trigger]
            call_ensures(fallback, (url, &ie), r) ==> fallback_is(r, url@, ie),
        forall|q: &mut Query, r: Result<(), Error>| #[trigger]
            call_ensures(Query::failed, (q, code, second), r) ==> {
                &&& r is Ok <==> code == 12180 && q@.pac is Some && !second
                &&& final(q)@.url == q@.url && final(q)@.pac == q@.pac
                &&& r is Ok ==> final(q)@.flags == 2 && final(q)@.detect == 0
                &&& r matches Err(e) ==> final(q)@.flags == q@.flags && final(q)@.detect == q@.detect
                    && e@ == ErrorView::Message(
                    "WinHttpGetProxyForUrl failed: "@ + decimal(code as nat),
                )
            },
        forall|r: Error| #[trigger]
            call_ensures(open_failed, (code,), r) ==> r@ == ErrorView::Message(
                "WinHttpOpen failed: "@ + decimal(code as nat),
            ),
{
}

} // verus!
