//! Which hops lead to a destination.
pub mod calls;
pub mod timed;
pub mod winhttp;

use crate::config::{host_port_fault, host_port_of, Config, Mode};
use crate::error::{Error, ErrorView};
use crate::hop::{
    hops_are, ie_of, pac_answer_leads_somewhere, pac_of, parse_ie_proxy_list, parse_pac_result,
    proxy_list_leads_somewhere, Hop, HopView,
};
use crate::noproxy::bypasses;
use crate::number::{decimal, push_decimal};
use crate::platform::Platform;
use crate::resolve::timed::{good_at, TimedMap};
use crate::resolve::winhttp::{question_is, question_of, resolve, Question, QuestionView};
use vstd::prelude::*;
use vstd::string::StringExecFns;

verus! {

/// Nanoseconds in a second.
pub const SECOND: u64 = 1_000_000_000;

/// How many seconds an answer is kept.
pub const CACHE_SECONDS: u64 = 60;

/// Finds the hops that lead to a destination, keeps them for a while, and
/// avoids proxies that failed lately. Times are counted in nanoseconds from a
/// fixed point.
#[derive(Debug)]
pub struct Resolver {
    cfg: Config,
    cache: TimedMap<Vec<Hop>>,
    blacklist: TimedMap<()>,
}

/// What is known of the hops to a host.
#[derive(Debug)]
pub enum Answer {
    /// These hops lead there, to be tried in this order.
    Hops(Vec<Hop>),
    /// The system has to be asked.
    Ask(Question),
}

/// What is known of the hops to a host, in sequences.
pub enum AnswerView {
    Hops(Seq<HopView>),
    Ask(QuestionView),
}

impl View for Answer {
    type V = AnswerView;

    open spec fn view(&self) -> AnswerView {
        match *self {
            Answer::Hops(v) => AnswerView::Hops(v.deep_view()),
            Answer::Ask(q) => AnswerView::Ask(q@),
        }
    }
}

/// Whether `r` is the outcome `s`.
pub open spec fn answer_is(r: Result<Answer, Error>, s: Result<AnswerView, ErrorView>) -> bool {
    match r {
        Ok(a) => s == Ok::<AnswerView, ErrorView>(a@),
        Err(e) => s == Err::<AnswerView, ErrorView>(e@),
    }
}

/// A list of hops that is kept, in sequences, with the time until which it is
/// good.
pub type Kept = (Seq<HopView>, u128);

/// What a resolver knows.
pub struct ResolverView {
    /// The settings.
    pub cfg: Config,
    /// The lists of hops that are kept, by host.
    pub kept: Map<Seq<char>, Kept>,
    /// The proxies that failed, by their text, with the time until which they
    /// are avoided.
    pub avoided: Map<Seq<char>, u128>,
}

impl View for Resolver {
    type V = ResolverView;

    closed spec fn view(&self) -> ResolverView {
        ResolverView {
            cfg: self.cfg,
            kept: self.cache@.map_values(|e: (Vec<Hop>, u128)| (e.0.deep_view(), e.1)),
            avoided: self.blacklist@.map_values(|e: ((), u128)| e.1),
        }
    }
}

/// Whether a hop is to be avoided at the time `now`.
pub open spec fn is_avoided(hop: HopView, avoided: Map<Seq<char>, u128>, now: u64) -> bool {
    hop is Http && avoided.contains_key(hop.text()) && avoided[hop.text()] > now
}

/// The hops that need not be avoided; all of them, where that leaves none.
pub open spec fn usable(
    hops: Seq<HopView>,
    avoided: Map<Seq<char>, u128>,
    now: u64,
) -> Seq<HopView> {
    let good = hops.filter(|h: HopView| !is_avoided(h, avoided, now));
    if good.len() == 0 {
        hops
    } else {
        good
    }
}

/// Whether the table holds hops for `host` that are still good.
pub open spec fn is_known(kept: Map<Seq<char>, Kept>, host: Seq<char>, now: u64) -> bool {
    kept.contains_key(host) && kept[host].1 > now
}

/// The time until which an answer that was found at the time `now` is kept.
pub open spec fn kept_until(now: u64) -> u128 {
    (now + CACHE_SECONDS * SECOND) as u128
}

/// The time until which a proxy that failed at the time `now` is avoided.
pub open spec fn avoided_until(cfg: Config, now: u64) -> u128 {
    (now + cfg.blacklist_timeout * 60 * SECOND) as u128
}

/// The one hop of `mode = "proxy"`.
pub open spec fn fixed_hop(cfg: Config) -> Result<HopView, ErrorView> {
    match cfg.upstream {
        None => Err(ErrorView::Config("upstream is not set"@)),
        Some(up) => match host_port_of(up@) {
            Some((host, port)) => Ok(HopView::Http { host, port }),
            None => Err(ErrorView::Config(host_port_fault(up@))),
        },
    }
}

/// What the system is asked where it has to be asked.
pub open spec fn system_question(cfg: Config, platform: Platform, url: Seq<char>) -> Result<
    QuestionView,
    ErrorView,
> {
    match platform {
        Platform::Windows => question_of(url, cfg.script(), cfg.mode),
        Platform::Other => Err(
            ErrorView::Unsupported("mode=system and mode=pac require Windows WinHTTP"@),
        ),
    }
}

impl ResolverView {
    /// Whether a rule says that `host` is reached straight.
    pub open spec fn goes_straight(self, host: Seq<char>) -> bool {
        bypasses(host, self.cfg.noproxy.deep_view())
    }

    /// Without the lists that are no longer good.
    pub open spec fn purged(self, now: u64) -> ResolverView {
        ResolverView { kept: good_at(self.kept, now as u128), ..self }
    }

    /// With hops that lead to `host`, found at the time `now`.
    pub open spec fn recorded(self, host: Seq<char>, hops: Seq<HopView>, now: u64) -> ResolverView {
        ResolverView { kept: self.kept.insert(host, (hops, kept_until(now))), ..self }
    }

    /// With a hop that failed at the time `now`. A proxy is then avoided for a
    /// while.
    pub open spec fn marked(self, hop: HopView, now: u64) -> ResolverView {
        match hop {
            HopView::Direct => self,
            HopView::Http { .. } => ResolverView {
                avoided: self.avoided.insert(hop.text(), avoided_until(self.cfg, now)),
                ..self
            },
        }
    }

    /// Without the lists of hops.
    pub open spec fn emptied(self) -> ResolverView {
        ResolverView { kept: Map::empty(), ..self }
    }

    /// What is answered where the hops to `host` are asked for at the time
    /// `now`.
    pub open spec fn answer(
        self,
        platform: Platform,
        url: Seq<char>,
        host: Seq<char>,
        now: u64,
    ) -> Result<AnswerView, ErrorView> {
        if self.goes_straight(host) {
            Ok(AnswerView::Hops(seq![HopView::Direct]))
        } else if is_known(self.kept, host, now) {
            Ok(AnswerView::Hops(usable(self.kept[host].0, self.avoided, now)))
        } else if self.cfg.mode is Proxy {
            match fixed_hop(self.cfg) {
                Ok(hop) => Ok(AnswerView::Hops(usable(seq![hop], self.avoided, now))),
                Err(e) => Err(e),
            }
        } else {
            match system_question(self.cfg, platform, url) {
                Ok(q) => Ok(AnswerView::Ask(q)),
                Err(e) => Err(e),
            }
        }
    }

    /// What is known after the hops to `host` were asked for at the time `now`.
    pub open spec fn asked(self, host: Seq<char>, now: u64) -> ResolverView {
        if self.goes_straight(host) || is_known(self.kept, host, now) {
            self
        } else if self.cfg.mode is Proxy && fixed_hop(self.cfg) is Ok {
            self.purged(now).recorded(host, seq![fixed_hop(self.cfg)->Ok_0], now)
        } else {
            self.purged(now)
        }
    }
}

impl Resolver {
    /// Whether the tables are in order.
    pub closed spec fn wf(&self) -> bool {
        self.cache.wf() && self.blacklist.wf()
    }

    /// A resolver that knows nothing yet.
    pub fn new(cfg: Config) -> (r: Resolver)
        ensures
            r.wf(),
            r@ == (ResolverView { cfg, kept: Map::empty(), avoided: Map::empty() }),
    {
        let r = Resolver { cfg, cache: TimedMap::new(), blacklist: TimedMap::new() };
        assert(r@.kept == Map::<Seq<char>, Kept>::empty());
        assert(r@.avoided == Map::<Seq<char>, u128>::empty());
        r
    }

    /// Forgets the hops that are kept.
    pub fn invalidate(&mut self)
        requires
            old(self).wf(),
        ensures
            final(self).wf(),
            final(self)@ == old(self)@.emptied(),
    {
        self.cache.clear();
        assert(self@.kept == Map::<Seq<char>, Kept>::empty());
    }

    /// Takes note that a hop failed at the time `now`. A proxy is then avoided
    /// for a while.
    pub fn mark_bad(&mut self, hop: &Hop, now: u64)
        requires
            old(self).wf(),
            old(self)@.cfg.blacklist_timeout * 60 <= u64::MAX,
        ensures
            final(self).wf(),
            final(self)@ == old(self)@.marked(hop@, now),
    {
        match hop {
            Hop::Direct => {},
            Hop::Http { .. } => {
                let seconds: u64 = self.cfg.blacklist_timeout * 60;
                let until: u128 = now as u128 + seconds as u128 * SECOND as u128;
                let key = hop.display();
                self.blacklist.insert(key, (), until);
                assert(self@.avoided == old(self)@.avoided.insert(hop@.text(), until));
            },
        }
    }

    /// The hops that lead to `host`, as far as they are known at the time
    /// `now`: straight where a rule says so, those that are kept, or the one
    /// hop of `mode = "proxy"`. In the other modes the system has to be asked,
    /// and `record` takes its answer.
    pub fn hops_for(&mut self, platform: Platform, url: &str, host: &str, now: u64) -> (r: Result<
        Answer,
        Error,
    >)
        requires
            old(self).wf(),
        ensures
            final(self).wf(),
            final(self)@ == old(self)@.asked(host@, now),
            answer_is(r, old(self)@.answer(platform, url@, host@, now)),
    {
        if crate::noproxy::matches(host, self.cfg.noproxy.as_slice()) {
            let mut out: Vec<Hop> = Vec::new();
            out.push(Hop::Direct);
            assert(out.deep_view() == seq![HopView::Direct]);
            return Ok(Answer::Hops(out));
        }
        if let Some(hops) = self.cache.get(host, now as u128) {
            return Ok(Answer::Hops(self.filter_blacklist(hops.as_slice(), now)));
        }
        self.cache.purge(now as u128);
        assert(self@.kept == old(self)@.purged(now).kept);
        match self.cfg.mode {
            Mode::Proxy => match self.cfg.upstream_addr() {
                Ok((h, p)) => {
                    let mut hops: Vec<Hop> = Vec::new();
                    hops.push(Hop::Http { host: h, port: p });
                    assert(hops.deep_view() == seq![HopView::Http { host: h@, port: p }]);
                    Ok(Answer::Hops(self.record(host, hops, now)))
                },
                Err(e) => Err(e),
            },
            _ => match self.lookup_system_or_pac(platform, url) {
                Ok(q) => Ok(Answer::Ask(q)),
                Err(e) => Err(e),
            },
        }
    }

    /// Keeps the hops that lead to `host`, found at the time `now`, and gives
    /// those of them that need not be avoided.
    pub fn record(&mut self, host: &str, hops: Vec<Hop>, now: u64) -> (r: Vec<Hop>)
        requires
            old(self).wf(),
        ensures
            final(self).wf(),
            final(self)@ == old(self)@.recorded(host@, hops.deep_view(), now),
            r.deep_view() == usable(hops.deep_view(), old(self)@.avoided, now),
    {
        let out = self.filter_blacklist(hops.as_slice(), now);
        let until: u128 = now as u128 + (CACHE_SECONDS * SECOND) as u128;
        let ghost list = hops.deep_view();
        self.cache.insert(host.to_owned(), hops, until);
        assert(self@.kept == old(self)@.kept.insert(host@, (list, until)));
        out
    }

    /// The hops that need not be avoided at the time `now`; all of them, where
    /// that leaves none.
    pub fn filter_blacklist(&self, hops: &[Hop], now: u64) -> (r: Vec<Hop>)
        requires
            self.wf(),
        ensures
            r.deep_view() == usable(hops.deep_view(), self@.avoided, now),
    {
        let ghost all = hops.deep_view();
        let ghost keep = |h: HopView| !is_avoided(h, self@.avoided, now);
        let mut out: Vec<Hop> = Vec::new();
        let mut every: Vec<Hop> = Vec::new();
        proof {
            reveal(Seq::filter);
            assert(out.deep_view() == all.take(0).filter(keep));
        }
        for i in 0..hops.len()
            invariant
                self.wf(),
                all == hops.deep_view(),
                keep == (|h: HopView| !is_avoided(h, self@.avoided, now)),
                out.deep_view() == all.take(i as int).filter(keep),
                every.deep_view() == all.take(i as int),
        {
            let ghost done = out.deep_view();
            let ghost seen = every.deep_view();
            proof {
                reveal(Seq::filter);
                assert(all.take(i + 1).drop_last() == all.take(i as int));
            }
            let good = match &hops[i] {
                Hop::Direct => true,
                Hop::Http { .. } => {
                    let key = hops[i].display();
                    self.blacklist.get(key.as_str(), now as u128).is_none()
                },
            };
            if good {
                out.push(hops[i].copy());
                assert(out.deep_view() == done.push(all[i as int]));
            }
            every.push(hops[i].copy());
            assert(every.deep_view() == seen.push(all[i as int]));
            assert(all.take(i + 1) == seen.push(all[i as int]));
        }
        assert(all.take(all.len() as int) == all);
        if out.len() == 0 {
            every
        } else {
            out
        }
    }

    fn lookup_system_or_pac(&self, platform: Platform, url: &str) -> (r: Result<Question, Error>)
        ensures
            question_is(r, system_question(self@.cfg, platform, url@)),
    {
        match platform {
            Platform::Windows => {
                let pac: Option<&str> = match self.cfg.mode {
                    Mode::Pac => match &self.cfg.pac {
                        Some(p) => Some(p.as_str()),
                        None => None,
                    },
                    Mode::System => None,
                    Mode::Proxy => None,
                };
                resolve(url, pac, self.cfg.mode)
            },
            Platform::Other => Err(
                Error::Unsupported("mode=system and mode=pac require Windows WinHTTP"),
            ),
        }
    }
}

impl Config {
    /// The PAC script that is asked.
    pub open spec fn script(self) -> Option<Seq<char>> {
        match self.mode {
            Mode::Pac => self.pac.deep_view(),
            _ => None,
        }
    }
}

/// The URL that stands for a destination where the system is asked.
pub open spec fn url_text(host: Seq<char>, port: u16, connect: bool) -> Seq<char> {
    if connect || port == 443 {
        "https://"@ + host + "/"@
    } else if port == 80 {
        "http://"@ + host + "/"@
    } else {
        "http://"@ + host + ":"@ + decimal(port as nat) + "/"@
    }
}

/// The URL that stands for a destination where the system is asked.
pub fn url_for_destination(host: &str, port: u16, connect: bool) -> (r: String)
    ensures
        r@ == url_text(host@, port, connect),
{
    let mut out = if connect || port == 443 {
        "https://".to_owned()
    } else {
        "http://".to_owned()
    };
    out.append(host);
    if !connect && port != 443 && port != 80 {
        out.append(":");
        push_decimal(&mut out, port as u64);
    }
    out.append("/");
    assert(out@ == url_text(host@, port, connect));
    out
}

/// The hops that a proxy list in either form names.
pub open spec fn raw_of(raw: Seq<char>) -> Result<Seq<HopView>, ErrorView> {
    match pac_of(raw) {
        Ok(hops) => Ok(hops),
        Err(_) => ie_of(raw),
    }
}

/// Reads a proxy list in either form.
pub fn hops_from_raw(raw: &str) -> (r: Result<Vec<Hop>, Error>)
    ensures
        hops_are(r, raw_of(raw@)),
{
    match parse_pac_result(raw) {
        Ok(hops) => Ok(hops),
        Err(_) => parse_ie_proxy_list(raw),
    }
}

/// Settings that are valid have what their mode needs: the one hop of
/// `mode = "proxy"`, and the PAC script of `mode = "pac"`.
pub proof fn valid_settings_suffice(cfg: Config)
    requires
        cfg.fault() is None,
    ensures
        cfg.mode is Proxy ==> fixed_hop(cfg) is Ok,
        cfg.mode is Pac ==> cfg.script() is Some,
{
}

/// A proxy list in either form that is valid names at least one hop.
pub proof fn raw_list_leads_somewhere(raw: Seq<char>)
    ensures
        raw_of(raw) is Ok ==> (raw_of(raw)->Ok_0).len() > 0,
{
    pac_answer_leads_somewhere(raw);
    proxy_list_leads_somewhere(raw);
}

} // verus!
