//! Which hops lead to a destination, by the settings and by what was found.
use crate::config::{host_port_fault, host_port_of, Config, Mode};
use crate::error::ErrorView;
use crate::hop::{ie_of, pac_of, HopView};
use crate::noproxy::bypasses;
use crate::number::decimal;
use crate::platform::Platform;
use crate::resolve::{
    avoided_until, is_avoided, kept_until, raw_of, url_text, usable, AnswerView, CACHE_SECONDS,
    ResolverView, SECOND,
};
use crate::resolve::timed::good_at;
use crate::resolve::winhttp::{
    fallback_is, first_of, found_of, fresh_query, question_of, AUTODETECTION_FAILED, Fallback,
    IeConfig, QueryView, QuestionView,
};
use vstd::prelude::*;

verus! {

/// An answer is kept for sixty seconds, and a proxy that failed is avoided for
/// as many minutes as the settings say.
pub proof fn times_are_counted_in_nanoseconds(cfg: Config, now: u64)
    ensures
        SECOND == 1_000_000_000,
        CACHE_SECONDS == 60,
        kept_until(now) == now + 60_000_000_000,
        cfg.blacklist_timeout * 60 <= u64::MAX ==> avoided_until(cfg, now) == now
            + cfg.blacklist_timeout * 60_000_000_000,
{
}

/// A proxy is avoided before its time is over and not from then on; going
/// straight is never avoided.
pub proof fn proxies_are_avoided_for_a_time(
    hop: HopView,
    avoided: Map<Seq<char>, u128>,
    now: u64,
)
    ensures
        !is_avoided(HopView::Direct, avoided, now),
        hop is Http ==> (is_avoided(hop, avoided, now) <==> avoided.contains_key(hop.text())
            && now < avoided[hop.text()]),
{
}

/// What is kept is good before its time is over and not from then on.
pub proof fn what_is_kept_is_good_for_a_time<V>(
    map: Map<Seq<char>, (V, u128)>,
    key: Seq<char>,
    now: u128,
)
    ensures
        good_at(map, now).contains_key(key) <==> map.contains_key(key) && now < map[key].1,
        good_at(map, now).contains_key(key) ==> good_at(map, now)[key] == map[key],
{
}

/// What the calls of a resolver change, and what they leave: hops that are found
/// are kept under their host, a proxy that fails is avoided under its text, and
/// the hops that are kept can be forgotten.
pub proof fn calls_change_what_they_are_for(
    s: ResolverView,
    host: Seq<char>,
    other: Seq<char>,
    hops: Seq<HopView>,
    hop: HopView,
    now: u64,
)
    ensures
        ({
            let t = s.recorded(host, hops, now);
            &&& t.cfg == s.cfg && t.avoided == s.avoided
            &&& t.kept.contains_key(host) && t.kept[host].0 == hops && t.kept[host].1 == now
                + 60_000_000_000
            &&& other != host ==> t.kept.contains_key(other) == s.kept.contains_key(other)
                && t.kept[other] == s.kept[other]
        }),
        ({
            let t = s.marked(hop, now);
            &&& t.cfg == s.cfg && t.kept == s.kept
            &&& hop is Direct ==> t.avoided == s.avoided
            &&& hop is Http && s.cfg.blacklist_timeout * 60 <= u64::MAX ==> t.avoided.contains_key(
                hop.text(),
            ) && t.avoided[hop.text()] == now + s.cfg.blacklist_timeout * 60_000_000_000
            &&& other != hop.text() ==> t.avoided.contains_key(other) == s.avoided.contains_key(
                other,
            ) && t.avoided[other] == s.avoided[other]
        }),
        ({
            let t = s.emptied();
            &&& t.cfg == s.cfg && t.avoided == s.avoided
            &&& !t.kept.contains_key(host)
        }),
        ({
            let t = s.purged(now);
            &&& t.cfg == s.cfg && t.avoided == s.avoided
            &&& t.kept.contains_key(host) <==> s.kept.contains_key(host) && now < s.kept[host].1
            &&& t.kept.contains_key(host) ==> t.kept[host] == s.kept[host]
        }),
{
}

/// A host that no rule names is reached by the hops that are kept for it, for
/// their time; and otherwise by the mode: the upstream proxy of the settings,
/// or what the system answers to a question.
pub proof fn mode_gives_the_hops(
    s: ResolverView,
    platform: Platform,
    url: Seq<char>,
    host: Seq<char>,
    now: u64,
)
    ensures
        ({
            let known = s.kept.contains_key(host) && now < s.kept[host].1;
            let named = bypasses(host, s.cfg.noproxy.deep_view());
            let answer = s.answer(platform, url, host, now);
            &&& named ==> answer == Ok::<AnswerView, ErrorView>(
                AnswerView::Hops(seq![HopView::Direct]),
            )
            &&& !named && known ==> answer == Ok::<AnswerView, ErrorView>(
                AnswerView::Hops(usable(s.kept[host].0, s.avoided, now)),
            )
            &&& !named && !known && s.cfg.mode == Mode::Proxy && s.cfg.upstream is None
                ==> answer == Err::<AnswerView, ErrorView>(
                ErrorView::Config("upstream is not set"@),
            )
            &&& !named && !known && s.cfg.mode == Mode::Proxy && s.cfg.upstream is Some ==> answer
                == match host_port_of((s.cfg.upstream->0)@) {
                Some((h, p)) => Ok::<AnswerView, ErrorView>(
                    AnswerView::Hops(usable(seq![HopView::Http { host: h, port: p }], s.avoided, now)),
                ),
                None => Err(ErrorView::Config(host_port_fault((s.cfg.upstream->0)@))),
            }
            &&& !named && !known && s.cfg.mode != Mode::Proxy && platform is Other ==> answer
                == Err::<AnswerView, ErrorView>(
                ErrorView::Unsupported("mode=system and mode=pac require Windows WinHTTP"@),
            )
            &&& !named && !known && s.cfg.mode == Mode::System && platform is Windows ==> answer
                == Ok::<AnswerView, ErrorView>(AnswerView::Ask(QuestionView::Settings(url)))
            &&& !named && !known && s.cfg.mode == Mode::Pac && platform is Windows
                && s.cfg.pac is Some ==> answer == Ok::<AnswerView, ErrorView>(
                AnswerView::Ask(
                    QuestionView::Url(
                        QueryView {
                            url,
                            pac: Some((s.cfg.pac->0)@),
                            flags: 2,
                            detect: 3,
                        },
                    ),
                ),
            )
            &&& !named && !known && s.cfg.mode == Mode::Pac && platform is Windows
                && s.cfg.pac is None ==> answer == Err::<AnswerView, ErrorView>(
                ErrorView::Config("pac URL is empty"@),
            )
        }),
{
}

/// A single proxy that is to be avoided is given all the same, since nothing
/// else is left.
pub proof fn last_resort_is_used(hop: HopView, avoided: Map<Seq<char>, u128>, now: u64)
    ensures
        usable(seq![hop], avoided, now) == seq![hop],
        usable(Seq::empty(), avoided, now) == Seq::<HopView>::empty(),
{
    crate::resolve::calls::usable_hops(seq![hop], avoided, now);
    crate::resolve::calls::usable_hops(Seq::empty(), avoided, now);
    let keep = |h: HopView| !is_avoided(h, avoided, now);
    if !is_avoided(hop, avoided, now) {
        assert(!is_avoided(seq![hop][0], avoided, now));
        reveal(Seq::filter);
        assert(seq![hop].drop_last() == Seq::<HopView>::empty());
        assert(seq![hop].filter(keep) == seq![hop]);
    } else {
        assert forall|j: int| 0 <= j < seq![hop].len() implies is_avoided(
            #[trigger] seq![hop][j],
            avoided,
            now,
        ) by {
            assert(seq![hop][0] == hop);
        }
    }
}

/// The system is asked about a URL of the destination: `https` for a tunnel or
/// the port 443, and `http` otherwise, with the port where it is not 80.
pub proof fn destination_is_asked_about_as_a_url(host: Seq<char>, port: u16, connect: bool)
    ensures
        connect || port == 443 ==> url_text(host, port, connect) == "https://"@ + host + seq!['/'],
        !connect && port == 80 ==> url_text(host, port, connect) == "http://"@ + host + seq!['/'],
        !connect && port != 443 && port != 80 ==> url_text(host, port, connect) == "http://"@ + host
            + seq![':'] + decimal(port as nat) + seq!['/'],
{
    reveal_strlit("/");
    reveal_strlit(":");
    assert("/"@ == seq!['/'] && ":"@ == seq![':']);
}

/// A list in either form is read as a PAC answer, and where it is none as a
/// system proxy list.
pub proof fn lists_in_either_form(raw: Seq<char>)
    ensures
        pac_of(raw) is Ok ==> raw_of(raw) == pac_of(raw),
        pac_of(raw) is Err ==> raw_of(raw) == ie_of(raw),
{
}

/// What is asked of the system: by a script where one is given, by one on the
/// network where that is asked for, and by both; a script on the network is
/// looked for by DHCP and by DNS.
pub proof fn question_says_where_the_script_is(
    url: Seq<char>,
    pac: Option<Seq<char>>,
    auto_detect: bool,
)
    ensures
        AUTODETECTION_FAILED == 12180,
        ({
            let q = fresh_query(url, pac, auto_detect);
            &&& q.url == url && q.pac == pac && q.detect == 3
            &&& pac is None ==> q.flags == 1
            &&& pac is Some && auto_detect ==> q.flags == 3
            &&& pac is Some && !auto_detect ==> q.flags == 2
        }),
        question_of(url, pac, Mode::System) == Ok::<QuestionView, ErrorView>(
            QuestionView::Settings(url),
        ),
        question_of(url, pac, Mode::Proxy) == Err::<QuestionView, ErrorView>(
            ErrorView::Message("internal: system resolver called in proxy mode"@),
        ),
{
}

/// The user's settings are followed: first the script that they name, else one
/// on the network where they say so; then the proxies that they list; and last
/// a script on the network.
pub proof fn settings_of_the_user_are_followed(
    url: Seq<char>,
    ie: Option<IeConfig>,
    r: Fallback,
)
    ensures
        ({
            let script = if ie is Some && (ie->0).auto_config_url is Some && ((
            ie->0).auto_config_url->0)@.len() > 0 {
                Some(((ie->0).auto_config_url->0)@)
            } else {
                None
            };
            &&& ie is None ==> first_of(url, ie) is None
            &&& script is Some ==> first_of(url, ie) == Some(
                fresh_query(url, script, (ie->0).auto_detect),
            )
            &&& ie is Some && script is None && (ie->0).auto_detect ==> first_of(url, ie) == Some(
                fresh_query(url, None, true),
            )
            &&& ie is Some && script is None && !(ie->0).auto_detect ==> first_of(url, ie) is None
        }),
        fallback_is(r, url, ie) ==> {
            let listed = ie is Some && (ie->0).proxy is Some && ((ie->0).proxy->0)@.len() > 0;
            &&& listed ==> r is Hops
            &&& !listed ==> r is Ask && (r->Ask_0)@ == fresh_query(url, None, true)
        },
{
}

/// No list in an answer means that the destination is reached straight.
pub proof fn answer_without_a_list_goes_straight(list: Seq<char>)
    ensures
        found_of(None) == Ok::<Seq<HopView>, ErrorView>(seq![HopView::Direct]),
        found_of(Some(list)) == ie_of(list),
{
}

/// Asking for the hops to a host changes nothing where a rule names it or its
/// hops are known; otherwise what is no longer good is dropped, and in
/// `mode = "proxy"` the upstream proxy is kept for the host. Nothing that is
/// still good for another host is lost.
pub proof fn asking_keeps_what_is_good(
    s: ResolverView,
    host: Seq<char>,
    other: Seq<char>,
    now: u64,
)
    ensures
        ({
            let t = s.asked(host, now);
            let known = s.kept.contains_key(host) && now < s.kept[host].1;
            let named = bypasses(host, s.cfg.noproxy.deep_view());
            &&& t.cfg == s.cfg && t.avoided == s.avoided
            &&& named || known ==> t == s
            &&& s.kept.contains_key(other) && now < s.kept[other].1 ==> t.kept.contains_key(other)
                && t.kept[other] == s.kept[other]
            &&& other != host && t.kept.contains_key(other) ==> s.kept.contains_key(other)
                && t.kept[other] == s.kept[other]
            &&& !named && !known && other != host && s.kept.contains_key(other) && now
                >= s.kept[other].1 ==> !t.kept.contains_key(other)
            &&& !named && !known && s.cfg.mode != Mode::Proxy ==> !t.kept.contains_key(host)
            &&& !named && !known && s.cfg.mode == Mode::Proxy && s.cfg.upstream is Some
                ==> match host_port_of((s.cfg.upstream->0)@) {
                Some((h, p)) => t.kept.contains_key(host) && t.kept[host].0 == seq![
                    HopView::Http { host: h, port: p },
                ] && t.kept[host].1 == now + 60_000_000_000,
                None => !t.kept.contains_key(host),
            }
        }),
{
}

} // verus!
