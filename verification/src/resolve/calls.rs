//! What holds of a resolver from one call to a later one.
use crate::error::ErrorView;
use crate::hop::{hop_text_is_its_own, HopView};
use crate::filter::lemma_filter_all;
use crate::platform::Platform;
use crate::resolve::{
    fixed_hop, is_avoided, is_known, system_question, usable, AnswerView, ResolverView,
    CACHE_SECONDS, SECOND,
};
use vstd::prelude::*;

verus! {

/// A call of a resolver that may change what it knows.
pub enum Call {
    /// The hops to `host` are asked for.
    Ask { host: Seq<char>, now: u64 },
    /// Hops to `host` were found.
    Record { host: Seq<char>, hops: Seq<HopView>, now: u64 },
    /// A hop failed.
    Mark { hop: HopView, now: u64 },
    /// The hops that are kept are to be forgotten.
    Forget,
}

/// What is known after a call.
pub open spec fn step(s: ResolverView, call: Call) -> ResolverView {
    match call {
        Call::Ask { host, now } => s.asked(host, now),
        Call::Record { host, hops, now } => s.recorded(host, hops, now),
        Call::Mark { hop, now } => s.marked(hop, now),
        Call::Forget => s.emptied(),
    }
}

/// What is known after the calls, made one after the other.
pub open spec fn run(s: ResolverView, calls: Seq<Call>) -> ResolverView
    decreases calls.len(),
{
    if calls.len() == 0 {
        s
    } else {
        step(run(s, calls.drop_last()), calls.last())
    }
}

/// Whether a call leaves alone the hops of `host` that are good at the time `now`:
/// it finds no others, forgets nothing and is not made later.
pub open spec fn leaves_hops(call: Call, host: Seq<char>, now: u64) -> bool {
    match call {
        Call::Ask { now: at, .. } => at <= now,
        Call::Record { host: other, .. } => other != host,
        Call::Mark { .. } => true,
        Call::Forget => false,
    }
}

/// Whether a call tells of no failure of `hop`.
pub open spec fn tells_no_failure(call: Call, hop: HopView) -> bool {
    call matches Call::Mark { hop: other, .. } ==> other != hop
}

/// Whether a call finds no hops for `host`.
pub open spec fn finds_nothing(call: Call, host: Seq<char>) -> bool {
    call matches Call::Record { host: other, .. } ==> other != host
}

/// The settings stay what they are.
pub proof fn settings_stay(s: ResolverView, calls: Seq<Call>)
    ensures
        run(s, calls).cfg == s.cfg,
    decreases calls.len(),
{
    if calls.len() > 0 {
        settings_stay(s, calls.drop_last());
    }
}

/// Where one of the hops need not be avoided, those that need not are given, in
/// their order; else all of them are. Hops are given wherever there are any.
pub proof fn usable_hops(hops: Seq<HopView>, avoided: Map<Seq<char>, u128>, now: u64)
    ensures
        (exists|j: int| 0 <= j < hops.len() && !is_avoided(#[trigger] hops[j], avoided, now))
            ==> usable(hops, avoided, now) == hops.filter(
            |h: HopView| !is_avoided(h, avoided, now),
        ),
        (forall|j: int| 0 <= j < hops.len() ==> is_avoided(#[trigger] hops[j], avoided, now))
            ==> usable(hops, avoided, now) == hops,
        hops.len() > 0 ==> usable(hops, avoided, now).len() > 0,
        forall|h: HopView| #[trigger]
            usable(hops, avoided, now).contains(h) ==> hops.contains(h),
        (exists|j: int| 0 <= j < hops.len() && !is_avoided(#[trigger] hops[j], avoided, now))
            ==> forall|h: HopView| #[trigger]
            usable(hops, avoided, now).contains(h) <==> hops.contains(h) && !is_avoided(
                h,
                avoided,
                now,
            ),
{
    let keep = |h: HopView| !is_avoided(h, avoided, now);
    let good = hops.filter(keep);
    assert forall|h: HopView| #[trigger] good.contains(h) implies hops.contains(h) && keep(h) by {
        hops.lemma_filter_contains_rev(keep, h);
        let i = choose|i: int| 0 <= i < good.len() && good[i] == h;
        assert(keep(good[i]));
    }
    assert forall|h: HopView| hops.contains(h) && keep(h) implies #[trigger] good.contains(h) by {
        let j = choose|j: int| 0 <= j < hops.len() && hops[j] == h;
        assert(good.contains(hops[j]));
    }
    if exists|j: int| 0 <= j < hops.len() && !is_avoided(#[trigger] hops[j], avoided, now) {
        let j = choose|j: int|
            0 <= j < hops.len() && !is_avoided(#[trigger] hops[j], avoided, now);
        assert(hops.contains(hops[j]));
        assert(good.contains(hops[j]));
    }
    if forall|j: int| 0 <= j < hops.len() ==> is_avoided(#[trigger] hops[j], avoided, now) {
        assert(good.len() == 0) by {
            if good.len() > 0 {
                assert(good.contains(good[0]));
                let j = choose|j: int| 0 <= j < hops.len() && hops[j] == good[0];
                assert(is_avoided(hops[j], avoided, now));
            }
        }
    }
}

/// A host that a rule names is reached straight, whatever is known and whenever
/// it is asked for, and what is known stays as it is.
pub proof fn named_host_goes_straight(
    s: ResolverView,
    platform: Platform,
    url: Seq<char>,
    host: Seq<char>,
    now: u64,
)
    requires
        s.goes_straight(host),
    ensures
        s.answer(platform, url, host, now) == Ok::<AnswerView, ErrorView>(
            AnswerView::Hops(seq![HopView::Direct]),
        ),
        s.asked(host, now) == s,
{
}

proof fn lemma_mark_stays(s: ResolverView, hop: HopView, calls: Seq<Call>)
    requires
        hop is Http,
        forall|i: int| 0 <= i < calls.len() ==> tells_no_failure(#[trigger] calls[i], hop),
    ensures
        run(s, calls).avoided.contains_key(hop.text()) == s.avoided.contains_key(hop.text()),
        run(s, calls).avoided[hop.text()] == s.avoided[hop.text()],
    decreases calls.len(),
{
    if calls.len() > 0 {
        let rest = calls.drop_last();
        assert forall|i: int| 0 <= i < rest.len() implies tells_no_failure(
            #[trigger] rest[i],
            hop,
        ) by {
            assert(rest[i] == calls[i]);
        }
        lemma_mark_stays(s, hop, rest);
        assert(tells_no_failure(calls[calls.len() - 1], hop));
        if let Call::Mark { hop: other, .. } = calls.last() {
            if other is Http && other.text() == hop.text() {
                hop_text_is_its_own(other, hop);
            }
        }
    }
}

/// A proxy that failed at the time `failed` is avoided until the time that the
/// settings give is over, and not from then on, whatever calls are made
/// meanwhile, as long as none tells that it failed again.
pub proof fn failed_proxy_is_avoided(
    s: ResolverView,
    hop: HopView,
    failed: u64,
    calls: Seq<Call>,
    now: u64,
)
    requires
        hop is Http,
        s.cfg.blacklist_timeout * 60 <= u64::MAX,
        forall|i: int| 0 <= i < calls.len() ==> tells_no_failure(#[trigger] calls[i], hop),
    ensures
        is_avoided(hop, run(s.marked(hop, failed), calls).avoided, now) <==> now < failed
            + s.cfg.blacklist_timeout * 60 * SECOND,
{
    lemma_mark_stays(s.marked(hop, failed), hop, calls);
}

/// A proxy that failed is given again for a host from the time on at which its
/// time is over. Until then it is not, where another of the hops that are kept
/// for the host can be used: what is given are then the hops that are kept, in
/// their order, without those that are avoided.
#[verifier::rlimit(40)]
pub proof fn failed_proxy_is_left_out(
    s: ResolverView,
    hop: HopView,
    failed: u64,
    calls: Seq<Call>,
    platform: Platform,
    url: Seq<char>,
    host: Seq<char>,
    now: u64,
)
    requires
        hop is Http,
        s.cfg.blacklist_timeout * 60 <= u64::MAX,
        forall|i: int| 0 <= i < calls.len() ==> tells_no_failure(#[trigger] calls[i], hop),
        !s.goes_straight(host),
        ({
            let t = run(s.marked(hop, failed), calls);
            is_known(t.kept, host, now) && t.kept[host].0.contains(hop)
        }),
    ensures
        ({
            let t = run(s.marked(hop, failed), calls);
            let hops = t.kept[host].0;
            let good = |h: HopView| !is_avoided(h, t.avoided, now);
            let over = now >= failed + s.cfg.blacklist_timeout * 60 * SECOND;
            let answer = t.answer(platform, url, host, now);
            &&& answer matches Ok(AnswerView::Hops(given))
            &&& over ==> given.contains(hop) && given == hops.filter(good)
            &&& !over && (exists|j: int| 0 <= j < hops.len() && good(#[trigger] hops[j]))
                ==> !given.contains(hop) && given == hops.filter(good)
        }),
{
    let t = run(s.marked(hop, failed), calls);
    let hops = t.kept[host].0;
    settings_stay(s.marked(hop, failed), calls);
    failed_proxy_is_avoided(s, hop, failed, calls, now);
    usable_hops(hops, t.avoided, now);
    if now >= failed + s.cfg.blacklist_timeout * 60 * SECOND {
        let j = choose|j: int| 0 <= j < hops.len() && hops[j] == hop;
        assert(!is_avoided(hops[j], t.avoided, now));
    }
}

proof fn lemma_hops_stay(
    s: ResolverView,
    host: Seq<char>,
    calls: Seq<Call>,
    now: u64,
)
    requires
        is_known(s.kept, host, now),
        forall|i: int| 0 <= i < calls.len() ==> leaves_hops(#[trigger] calls[i], host, now),
    ensures
        is_known(run(s, calls).kept, host, now),
        run(s, calls).kept[host] == s.kept[host],
    decreases calls.len(),
{
    if calls.len() > 0 {
        let rest = calls.drop_last();
        assert forall|i: int| 0 <= i < rest.len() implies leaves_hops(
            #[trigger] rest[i],
            host,
            now,
        ) by {
            assert(rest[i] == calls[i]);
        }
        lemma_hops_stay(s, host, rest, now);
        assert(leaves_hops(calls[calls.len() - 1], host, now));
    }
}

/// Hops that were found for a host are given again for a minute, for any URL
/// and without a question, as far as they need not be avoided, and what is
/// known stays as it is; whatever calls are made meanwhile, as long as none
/// finds other hops for the host or has them forgotten.
pub proof fn found_hops_are_given_again(
    s: ResolverView,
    host: Seq<char>,
    hops: Seq<HopView>,
    found: u64,
    calls: Seq<Call>,
    platform: Platform,
    url: Seq<char>,
    now: u64,
)
    requires
        !s.goes_straight(host),
        now < found + CACHE_SECONDS * SECOND,
        forall|i: int| 0 <= i < calls.len() ==> leaves_hops(#[trigger] calls[i], host, now),
    ensures
        ({
            let t = run(s.recorded(host, hops, found), calls);
            &&& t.answer(platform, url, host, now) == Ok::<AnswerView, ErrorView>(
                AnswerView::Hops(usable(hops, t.avoided, now)),
            )
            &&& t.asked(host, now) == t
        }),
{
    lemma_hops_stay(s.recorded(host, hops, found), host, calls, now);
    settings_stay(s.recorded(host, hops, found), calls);
}

/// Where nothing failed, hops that were found are given again as they were.
pub proof fn found_hops_are_given_whole(
    s: ResolverView,
    host: Seq<char>,
    hops: Seq<HopView>,
    found: u64,
    platform: Platform,
    url: Seq<char>,
    now: u64,
)
    requires
        !s.goes_straight(host),
        s.avoided == Map::<Seq<char>, u128>::empty(),
        now < found + CACHE_SECONDS * SECOND,
    ensures
        s.recorded(host, hops, found).answer(platform, url, host, now) == Ok::<
            AnswerView,
            ErrorView,
        >(AnswerView::Hops(hops)),
{
    let none = Seq::<Call>::empty();
    found_hops_are_given_again(s, host, hops, found, none, platform, url, now);
    let keep = |h: HopView| !is_avoided(h, s.avoided, now);
    assert(hops.filter(keep) == hops) by {
        lemma_filter_all(hops, keep);
    }
}

/// Hops that were found are not given from a minute on: they are looked for
/// again.
pub proof fn found_hops_are_given_no_longer(
    s: ResolverView,
    host: Seq<char>,
    hops: Seq<HopView>,
    found: u64,
    platform: Platform,
    url: Seq<char>,
    now: u64,
)
    requires
        !s.goes_straight(host),
        now >= found + CACHE_SECONDS * SECOND,
    ensures
        s.recorded(host, hops, found).answer(platform, url, host, now) == looked_up(
            s,
            platform,
            url,
            now,
        ),
{
}

/// What is answered where no hops are kept and no rule says anything.
pub open spec fn looked_up(
    s: ResolverView,
    platform: Platform,
    url: Seq<char>,
    now: u64,
) -> Result<AnswerView, ErrorView> {
    if s.cfg.mode is Proxy {
        match fixed_hop(s.cfg) {
            Ok(hop) => Ok(AnswerView::Hops(usable(seq![hop], s.avoided, now))),
            Err(e) => Err(e),
        }
    } else {
        match system_question(s.cfg, platform, url) {
            Ok(q) => Ok(AnswerView::Ask(q)),
            Err(e) => Err(e),
        }
    }
}

/// The one hop of `mode = "proxy"` is kept like any hop that was found.
pub proof fn fixed_hop_is_kept(s: ResolverView, host: Seq<char>, now: u64)
    requires
        !s.goes_straight(host),
        !is_known(s.kept, host, now),
        s.cfg.mode is Proxy,
        fixed_hop(s.cfg) is Ok,
    ensures
        s.asked(host, now) == s.purged(now).recorded(host, seq![fixed_hop(s.cfg)->Ok_0], now),
{
}

proof fn lemma_nothing_kept(s: ResolverView, host: Seq<char>, calls: Seq<Call>)
    requires
        !s.kept.contains_key(host),
        s.cfg.mode is Proxy ==> fixed_hop(s.cfg) is Err,
        forall|i: int| 0 <= i < calls.len() ==> finds_nothing(#[trigger] calls[i], host),
    ensures
        !run(s, calls).kept.contains_key(host),
    decreases calls.len(),
{
    if calls.len() > 0 {
        let rest = calls.drop_last();
        assert forall|i: int| 0 <= i < rest.len() implies finds_nothing(
            #[trigger] rest[i],
            host,
        ) by {
            assert(rest[i] == calls[i]);
        }
        lemma_nothing_kept(s, host, rest);
        settings_stay(s, rest);
        assert(finds_nothing(calls[calls.len() - 1], host));
    }
}

/// Where hops are asked for and none come of it, nothing is kept for the host:
/// asked for again, they are looked for again, whatever calls are made
/// meanwhile, as long as none finds hops for the host.
pub proof fn failed_search_is_made_again(
    s: ResolverView,
    platform: Platform,
    url: Seq<char>,
    host: Seq<char>,
    first: u64,
    calls: Seq<Call>,
    again: Platform,
    other: Seq<char>,
    now: u64,
)
    requires
        !(s.answer(platform, url, host, first) matches Ok(AnswerView::Hops(_))),
        forall|i: int| 0 <= i < calls.len() ==> finds_nothing(#[trigger] calls[i], host),
    ensures
        !s.asked(host, first).kept.contains_key(host),
        ({
            let t = run(s.asked(host, first), calls);
            t.answer(again, other, host, now) == looked_up(t, again, other, now)
        }),
{
    let t = s.asked(host, first);
    lemma_nothing_kept(t, host, calls);
    settings_stay(t, calls);
}

/// Dropping what is no longer good changes no later answer.
pub proof fn purging_changes_nothing(
    s: ResolverView,
    purged: u64,
    platform: Platform,
    url: Seq<char>,
    host: Seq<char>,
    now: u64,
)
    requires
        purged <= now,
    ensures
        s.purged(purged).answer(platform, url, host, now) == s.answer(platform, url, host, now),
{
}

/// Hops that are found for a host change no answer for another.
pub proof fn other_hosts_are_not_touched(
    s: ResolverView,
    host: Seq<char>,
    hops: Seq<HopView>,
    found: u64,
    platform: Platform,
    url: Seq<char>,
    other: Seq<char>,
    now: u64,
)
    requires
        other != host,
    ensures
        s.recorded(host, hops, found).answer(platform, url, other, now) == s.answer(
            platform,
            url,
            other,
            now,
        ),
{
}

} // verus!
