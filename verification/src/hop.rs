//! Proxy lists: what a PAC script answers and what the system settings hold.
use crate::boundary::{debug_quoted, debug_text};
use crate::config::{host_port_of, parse_host_port};
use crate::error::{Error, ErrorView};
use crate::ip::{ipv4_is_written_back, ipv4_of, socket_of};
use crate::number::{
    decimal, digits_read_back, lemma_digits_are_digits, lemma_numeral_digits, numeral, push_decimal,
};
use crate::text::{
    after, before, chars_of, contains, contains_text, cut, cut_at, cut_of_two, find_first, first_at,
    includes, is_space, is_text, joined, last_at, lemma_cut_agrees, lemma_cut_front,
    lemma_cut_whole, lemma_first_at, lemma_includes_chain, lemma_last_at, occurs, pieces, raised,
    strip_front, stripped_front, text_of, trim, trim_both, trim_front, trimmed, upper, Class,
};
use vstd::prelude::*;
use vstd::slice::slice_subrange;
use vstd::string::StringExecFns;

verus! {

/// A way to a destination: straight, or through an HTTP proxy.
#[derive(Clone, Debug, PartialEq, Eq)]
pub enum Hop {
    Direct,
    Http { host: String, port: u16 },
}

/// A way to a destination, with the host as a sequence of characters.
pub enum HopView {
    Direct,
    Http { host: Seq<char>, port: u16 },
}

impl View for Hop {
    type V = HopView;

    open spec fn view(&self) -> HopView {
        match *self {
            Hop::Direct => HopView::Direct,
            Hop::Http { host, port } => HopView::Http { host: host@, port },
        }
    }
}

impl DeepView for Hop {
    type V = HopView;

    open spec fn deep_view(&self) -> HopView {
        self@
    }
}

impl HopView {
    /// The hop in text.
    pub open spec fn text(self) -> Seq<char> {
        match self {
            HopView::Direct => "DIRECT"@,
            HopView::Http { host, port } => host + ":"@ + decimal(port as nat),
        }
    }
}

impl Hop {
    /// The hop in text.
    pub fn display(&self) -> (r: String)
        ensures
            r@ == self@.text(),
    {
        match self {
            Hop::Direct => "DIRECT".to_owned(),
            Hop::Http { host, port } => {
                let mut out = host.clone();
                out.append(":");
                push_decimal(&mut out, *port as u64);
                out
            },
        }
    }

    /// A hop like this one.
    pub fn copy(&self) -> (r: Hop)
        ensures
            r@ == self@,
    {
        match self {
            Hop::Direct => Hop::Direct,
            Hop::Http { host, port } => Hop::Http { host: host.clone(), port: *port },
        }
    }
}

/// The proxy address within `s`: without white space around it, and without a
/// scheme in front of it.
pub open spec fn bare_address(s: Seq<char>) -> Seq<char> {
    strip_front(strip_front(trim(s), "http://"@), "https://"@)
}

/// The HTTP proxy that `s` names: a host and a port, or a host alone, of which
/// the port is 80.
pub open spec fn http_hop_of(s: Seq<char>) -> Result<HopView, ErrorView> {
    let t = bare_address(s);
    match host_port_of(t) {
        Some((host, port)) => Ok(HopView::Http { host, port }),
        None => if includes(t, Class::One(':')) {
            Err(ErrorView::Http("invalid proxy address "@ + debug_quoted(t)))
        } else {
            Ok(HopView::Http { host: t, port: 80 })
        },
    }
}

/// The hop, if any, that one entry of a PAC answer names. The entry is not
/// empty and has no white space around it.
pub open spec fn pac_entry(token: Seq<char>) -> Result<Option<HopView>, ErrorView> {
    let kind = upper(before(token, Class::Space));
    let rest = trim(after(token, Class::Space));
    if kind == "DIRECT"@ {
        Ok(Some(HopView::Direct))
    } else if kind == "PROXY"@ || kind == "HTTP"@ || kind == "HTTPS"@ {
        some_hop(http_hop_of(rest))
    } else if kind == "SOCKS"@ || kind == "SOCKS4"@ || kind == "SOCKS5"@ {
        Ok(None)
    } else if includes(kind, Class::One(':')) || includes(rest, Class::One(':')) {
        some_hop(
            http_hop_of(
                if rest.len() == 0 {
                    token
                } else {
                    rest
                },
            ),
        )
    } else {
        Err(ErrorView::Http("unknown PAC token "@ + debug_quoted(token)))
    }
}

/// The hop, if any, that one entry of a system proxy list names: what stands
/// after `=`, or the whole entry.
pub open spec fn ie_entry(part: Seq<char>) -> Result<Option<HopView>, ErrorView> {
    let spec_text = if includes(part, Class::One('=')) {
        trim(after(part, Class::One('=')))
    } else {
        part
    };
    if spec_text.len() == 0 {
        Ok(None)
    } else {
        some_hop(http_hop_of(spec_text))
    }
}

/// A hop that there is.
pub open spec fn some_hop(r: Result<HopView, ErrorView>) -> Result<Option<HopView>, ErrorView> {
    match r {
        Ok(h) => Ok(Some(h)),
        Err(e) => Err(e),
    }
}

/// What an entry names, where an empty one names nothing.
pub open spec fn entry(part: Seq<char>, pac: bool) -> Result<Option<HopView>, ErrorView> {
    if trim(part).len() == 0 {
        Ok(None)
    } else if pac {
        pac_entry(trim(part))
    } else {
        ie_entry(trim(part))
    }
}

/// The hops that the entries `parts` name, in their order; the first entry that
/// is no hop makes the whole list invalid.
pub open spec fn entries(parts: Seq<Seq<char>>, pac: bool) -> Result<Seq<HopView>, ErrorView>
    decreases parts.len(),
{
    if parts.len() == 0 {
        Ok(Seq::empty())
    } else {
        match entry(parts[0], pac) {
            Err(e) => Err(e),
            Ok(h) => put_before(h, entries(parts.drop_first(), pac)),
        }
    }
}

/// A list of hops with one more in front, where there is one.
pub open spec fn put_before(
    h: Option<HopView>,
    rest: Result<Seq<HopView>, ErrorView>,
) -> Result<Seq<HopView>, ErrorView> {
    match (h, rest) {
        (Some(x), Ok(hops)) => Ok(seq![x] + hops),
        _ => rest,
    }
}

/// A list that names no hop goes straight.
pub open spec fn or_direct(r: Result<Seq<HopView>, ErrorView>) -> Result<Seq<HopView>, ErrorView> {
    match r {
        Ok(hops) => Ok(
            if hops.len() == 0 {
                seq![HopView::Direct]
            } else {
                hops
            },
        ),
        Err(e) => Err(e),
    }
}

/// The hops of a PAC answer such as `PROXY a:8080; PROXY b:8080; DIRECT`.
pub open spec fn pac_of(raw: Seq<char>) -> Result<Seq<HopView>, ErrorView> {
    or_direct(entries(cut(raw, Class::One(';')), true))
}

/// Whether a text holds a keyword of PAC answers: `DIRECT` anywhere, or `PROXY`
/// anywhere with a space after it. The case of letters makes no difference.
pub open spec fn has_keyword(t: Seq<char>) -> bool {
    occurs(upper(t), "DIRECT"@) || occurs(upper(t), "PROXY "@)
}

/// Whether an entry, without white space around it, is empty or gives the proxy
/// of one scheme, such as `http=proxy:8080`: a scheme, `=`, and a host with a
/// port, without white space.
pub open spec fn scheme_entry(part: Seq<char>) -> bool {
    let e = trim(part);
    e.len() == 0 || {
        &&& includes(e, Class::One('='))
        &&& before(e, Class::One('=')).len() > 0
        &&& !includes(e, Class::Space)
        &&& host_port_of(after(e, Class::One('='))) is Some
    }
}

/// Whether a system proxy list gives the proxies by scheme, such as
/// `http=proxy:8080;https=proxy:8080`.
pub open spec fn is_scheme_map(t: Seq<char>) -> bool {
    all_schemes(cut(t, Class::One(';')))
}

/// Whether each entry gives the proxy of one scheme.
pub open spec fn all_schemes(parts: Seq<Seq<char>>) -> bool {
    forall|i: int| 0 <= i < parts.len() ==> scheme_entry(#[trigger] parts[i])
}

/// Whether a system proxy list is read as a PAC answer: it holds a keyword of
/// PAC answers, and does not give the proxies by scheme. In a list by scheme
/// the letters of a keyword belong to the name of a host, such as
/// `http=direct.corp:8080`.
pub open spec fn looks_like_pac(t: Seq<char>) -> bool {
    has_keyword(t) && !is_scheme_map(t)
}

/// The hops of a system proxy list such as `proxy:8080` or
/// `http=proxy:8080;https=proxy:8080`.
pub open spec fn ie_of(raw: Seq<char>) -> Result<Seq<HopView>, ErrorView> {
    let t = trim(raw);
    if t.len() == 0 {
        Ok(seq![HopView::Direct])
    } else if looks_like_pac(t) {
        pac_of(t)
    } else {
        or_direct(entries(cut(t, Class::Gap), false))
    }
}

/// Whether `r` is the outcome `s`.
pub open spec fn hops_are(
    r: Result<Vec<Hop>, Error>,
    s: Result<Seq<HopView>, ErrorView>,
) -> bool {
    match r {
        Ok(v) => s == Ok::<Seq<HopView>, ErrorView>(v.deep_view()),
        Err(e) => s == Err::<Seq<HopView>, ErrorView>(e@),
    }
}

fn http_hop(s: &[char]) -> (r: Result<Hop, Error>)
    ensures
        match r {
            Ok(h) => http_hop_of(s@) == Ok::<HopView, ErrorView>(h@),
            Err(e) => http_hop_of(s@) == Err::<HopView, ErrorView>(e@),
        },
{
    let plain = chars_of("http://");
    let secure = chars_of("https://");
    let t = stripped_front(stripped_front(trimmed(s), plain.as_slice()), secure.as_slice());
    let text = text_of(t);
    match parse_host_port(text.as_str()) {
        Ok((host, port)) => Ok(Hop::Http { host, port }),
        Err(_) => if contains(t, Class::One(':')) {
            let mut e = "invalid proxy address ".to_owned();
            e.append(debug_text(text.as_str()).as_str());
            Err(Error::Http(e))
        } else {
            Ok(Hop::Http { host: text, port: 80 })
        },
    }
}

fn read_pac_entry(token: &[char]) -> (r: Result<Option<Hop>, Error>)
    ensures
        match r {
            Ok(None) => pac_entry(token@) == Ok::<Option<HopView>, ErrorView>(None),
            Ok(Some(h)) => pac_entry(token@) == Ok::<Option<HopView>, ErrorView>(Some(h@)),
            Err(e) => pac_entry(token@) == Err::<Option<HopView>, ErrorView>(e@),
        },
{
    proof {
        lemma_first_at(token@, Class::Space);
    }
    let i: usize = find_first(token, Class::Space);
    let head = slice_subrange(token, 0, i);
    assert(head@ == before(token@, Class::Space));
    let tail = if i < token.len() {
        slice_subrange(token, i + 1, token.len())
    } else {
        slice_subrange(token, i, i)
    };
    assert(tail@ == after(token@, Class::Space));
    let kind = raised(head);
    let kind = kind.as_slice();
    let rest = trimmed(tail);
    if is_text(kind, "DIRECT") {
        return Ok(Some(Hop::Direct));
    }
    if is_text(kind, "PROXY") || is_text(kind, "HTTP") || is_text(kind, "HTTPS") {
        return match http_hop(rest) {
            Ok(h) => Ok(Some(h)),
            Err(e) => Err(e),
        };
    }
    if is_text(kind, "SOCKS") || is_text(kind, "SOCKS4") || is_text(kind, "SOCKS5") {
        return Ok(None);
    }
    if contains(kind, Class::One(':')) || contains(rest, Class::One(':')) {
        let address = if rest.len() == 0 {
            token
        } else {
            rest
        };
        return match http_hop(address) {
            Ok(h) => Ok(Some(h)),
            Err(e) => Err(e),
        };
    }
    let mut e = "unknown PAC token ".to_owned();
    e.append(debug_text(text_of(token).as_str()).as_str());
    Err(Error::Http(e))
}

fn read_ie_entry(part: &[char]) -> (r: Result<Option<Hop>, Error>)
    ensures
        match r {
            Ok(None) => ie_entry(part@) == Ok::<Option<HopView>, ErrorView>(None),
            Ok(Some(h)) => ie_entry(part@) == Ok::<Option<HopView>, ErrorView>(Some(h@)),
            Err(e) => ie_entry(part@) == Err::<Option<HopView>, ErrorView>(e@),
        },
{
    let ghost k = Class::One('=');
    proof {
        lemma_first_at(part@, k);
    }
    let i: usize = find_first(part, Class::One('='));
    let address = if i < part.len() {
        let tail = slice_subrange(part, i + 1, part.len());
        assert(tail@ == after(part@, k));
        trimmed(tail)
    } else {
        part
    };
    if address.len() == 0 {
        return Ok(None);
    }
    match http_hop(address) {
        Ok(h) => Ok(Some(h)),
        Err(e) => Err(e),
    }
}

fn read_entries(parts: &Vec<&[char]>, pac: bool) -> (r: Result<Vec<Hop>, Error>)
    ensures
        hops_are(r, or_direct(entries(pieces(parts@), pac))),
{
    let mut out: Vec<Hop> = Vec::new();
    let ghost all = pieces(parts@);
    assert(all.skip(0) == all);
    assert(put_all(out.deep_view(), entries(all, pac)) == entries(all, pac)) by {
        if entries(all, pac) is Ok {
            assert(out.deep_view() + entries(all, pac)->Ok_0 == entries(all, pac)->Ok_0);
        }
    }
    for i in 0..parts.len()
        invariant
            all == pieces(parts@),
            entries(all, pac) == put_all(out.deep_view(), entries(all.skip(i as int), pac)),
    {
        let ghost done = out.deep_view();
        let ghost left = all.skip(i as int);
        assert(left[0] == parts@[i as int]@);
        assert(left.drop_first() == all.skip(i + 1));
        let part = trimmed(parts[i]);
        if part.len() > 0 {
            let found = if pac {
                read_pac_entry(part)
            } else {
                read_ie_entry(part)
            };
            match found {
                Err(e) => {
                    return Err(e);
                },
                Ok(None) => {},
                Ok(Some(h)) => {
                    out.push(h);
                    assert(out.deep_view() == done.push(h@));
                    proof {
                        if let Ok(t) = entries(all.skip(i + 1), pac) {
                            assert(done + (seq![h@] + t) == out.deep_view() + t);
                        }
                    }
                },
            }
        }
    }
    assert(all.skip(all.len() as int) == Seq::<Seq<char>>::empty());
    assert(out.deep_view() + Seq::<HopView>::empty() == out.deep_view());
    if out.len() == 0 {
        out.push(Hop::Direct);
        assert(out.deep_view() == seq![HopView::Direct]);
    }
    Ok(out)
}

/// A list of hops with others in front.
pub open spec fn put_all(
    done: Seq<HopView>,
    rest: Result<Seq<HopView>, ErrorView>,
) -> Result<Seq<HopView>, ErrorView> {
    match rest {
        Ok(hops) => Ok(done + hops),
        Err(e) => Err(e),
    }
}

/// Reads a PAC answer such as `PROXY a:8080; PROXY b:8080; DIRECT`.
pub fn parse_pac_result(raw: &str) -> (r: Result<Vec<Hop>, Error>)
    ensures
        hops_are(r, pac_of(raw@)),
{
    let text = chars_of(raw);
    let parts = cut_at(text.as_slice(), Class::One(';'));
    read_entries(&parts, true)
}

fn is_scheme_entry(part: &[char]) -> (r: bool)
    ensures
        r == scheme_entry(part@),
{
    let e = trimmed(part);
    if e.len() == 0 {
        return true;
    }
    proof {
        lemma_first_at(e@, Class::One('='));
    }
    let i: usize = find_first(e, Class::One('='));
    if i == e.len() || i == 0 || contains(e, Class::Space) {
        return false;
    }
    let address = slice_subrange(e, i + 1, e.len());
    assert(address@ == after(e@, Class::One('=')));
    parse_host_port(text_of(address).as_str()).is_ok()
}

fn is_pac(t: &[char]) -> (r: bool)
    ensures
        r == looks_like_pac(t@),
{
    let capitals = raised(t);
    let direct = chars_of("DIRECT");
    let proxy = chars_of("PROXY ");
    if !contains_text(capitals.as_slice(), direct.as_slice()) && !contains_text(
        capitals.as_slice(),
        proxy.as_slice(),
    ) {
        return false;
    }
    let parts = cut_at(t, Class::One(';'));
    let ghost all = cut(t@, Class::One(';'));
    for i in 0..parts.len()
        invariant
            all == cut(t@, Class::One(';')),
            all == pieces(parts@),
            has_keyword(t@),
            forall|j: int| 0 <= j < i ==> scheme_entry(#[trigger] all[j]),
    {
        assert(all[i as int] == parts@[i as int]@);
        if !is_scheme_entry(parts[i]) {
            return true;
        }
    }
    false
}

/// Reads a system proxy list such as `proxy:8080` or
/// `http=proxy:8080;https=proxy:8080`.
pub fn parse_ie_proxy_list(raw: &str) -> (r: Result<Vec<Hop>, Error>)
    ensures
        hops_are(r, ie_of(raw@)),
{
    let text = chars_of(raw);
    let t = trimmed(text.as_slice());
    if t.len() == 0 {
        let mut out: Vec<Hop> = Vec::new();
        out.push(Hop::Direct);
        assert(out.deep_view() == seq![HopView::Direct]);
        return Ok(out);
    }
    if is_pac(t) {
        return parse_pac_result(text_of(t).as_str());
    }
    let parts = cut_at(t, Class::Gap);
    read_entries(&parts, false)
}

/// A PAC answer that is valid names at least one hop.
pub proof fn pac_answer_leads_somewhere(raw: Seq<char>)
    ensures
        pac_of(raw) is Ok ==> (pac_of(raw)->Ok_0).len() > 0,
{
}

/// A system proxy list that is valid names at least one hop.
pub proof fn proxy_list_leads_somewhere(raw: Seq<char>)
    ensures
        ie_of(raw) is Ok ==> (ie_of(raw)->Ok_0).len() > 0,
{
}

/// The entries of a list are read one after the other: of two lists one after
/// the other, the hops of the second follow those of the first.
pub proof fn entries_chain(p: Seq<Seq<char>>, q: Seq<Seq<char>>, pac: bool)
    ensures
        entries(p + q, pac) == match entries(p, pac) {
            Ok(hops) => put_all(hops, entries(q, pac)),
            Err(e) => Err(e),
        },
    decreases p.len(),
{
    if p.len() == 0 {
        assert(p + q == q);
        if let Ok(hops) = entries(q, pac) {
            assert(Seq::<HopView>::empty() + hops == hops);
        }
    } else {
        let rest = p.drop_first();
        assert((p + q).drop_first() == rest + q);
        entries_chain(rest, q, pac);
        if let (Ok(h), Ok(a), Ok(b)) = (entry(p[0], pac), entries(rest, pac), entries(q, pac)) {
            if let Some(x) = h {
                assert(seq![x] + (a + b) == seq![x] + a + b);
            }
        }
    }
}

proof fn lemma_not_a_socket(host: Seq<char>, port: u16)
    requires
        host.len() > 0,
        host[0] != '[',
    ensures
        ({
            let t = (HopView::Http { host, port }).text();
            match socket_of(t) {
                Some(a) => a.ip.text() == host && a.port == port,
                None => true,
            }
        }),
{
    let k = Class::One(':');
    let end = decimal(port as nat);
    let t = (HopView::Http { host, port }).text();
    reveal_strlit(":");
    assert(":"@ == seq![':']);
    assert(t == host + seq![':'] + end);
    digits_read_back(port as nat, 10);
    assert(t[0] == host[0]);
    if includes(host, k) {
        lemma_first_at(host, k);
        let i = first_at(host, k);
        let a = host.take(i);
        let b = host.skip(i + 1) + seq![':'] + end;
        assert(t == a + seq![':'] + b);
        if includes(a, k) {
            let j = choose|j: int| 0 <= j < a.len() && #[trigger] k.holds(a[j]);
            assert(k.holds(host[j]));
        }
        lemma_cut_front(a, ':', b);
        let j = host.skip(i + 1).len() as int;
        assert(b[j] == ':');
        if numeral(b, 10) is Some {
            lemma_numeral_digits(b, 10, j);
        }
    } else {
        lemma_cut_front(host, ':', end);
        if ipv4_of(host) is Some {
            ipv4_is_written_back(host);
        }
    }
}

/// No two proxies have the same text.
pub proof fn hop_text_is_its_own(a: HopView, b: HopView)
    requires
        a is Http,
        b is Http,
        a.text() == b.text(),
    ensures
        a == b,
{
    let (h, m) = (a->host, decimal(a->port as nat));
    let (g, n) = (b->host, decimal(b->port as nat));
    let t = a.text();
    reveal_strlit(":");
    digits_read_back(a->port as nat, 10);
    digits_read_back(b->port as nat, 10);
    lemma_digits_are_digits(a->port as nat, 10);
    lemma_digits_are_digits(b->port as nat, 10);
    assert(t[h.len() as int] == ':' && t[g.len() as int] == ':');
    assert(t.len() == h.len() + 1 + m.len() && t.len() == g.len() + 1 + n.len());
    if h.len() < g.len() {
        assert(t[g.len() as int] == m[g.len() - h.len() - 1]);
    }
    if g.len() < h.len() {
        assert(t[h.len() as int] == n[h.len() - g.len() - 1]);
    }
    assert(h == t.take(h.len() as int) && g == t.take(g.len() as int));
    assert(m == t.skip(h.len() as int + 1) && n == t.skip(g.len() as int + 1));
}

/// Written out and read again as a proxy address, a hop is what it was. The
/// host is not empty, has no white space in front and no bracket at either
/// end, and the text does not start with a scheme.
pub proof fn hop_is_read_back(host: Seq<char>, port: u16)
    requires
        host.len() > 0,
        !is_space(host[0]),
        !Class::Bracket.holds(host[0]),
        !Class::Bracket.holds(host.last()),
        !"http://"@.is_prefix_of((HopView::Http { host, port }).text()),
        !"https://"@.is_prefix_of((HopView::Http { host, port }).text()),
    ensures
        http_hop_of((HopView::Http { host, port }).text()) == Ok::<HopView, ErrorView>(
            HopView::Http { host, port },
        ),
        host_port_of((HopView::Http { host, port }).text()) == Some((host, port)),
{
    let k = Class::One(':');
    let end = decimal(port as nat);
    let t = (HopView::Http { host, port }).text();
    reveal_strlit(":");
    assert(":"@ == seq![':']);
    assert(t == host + seq![':'] + end);
    digits_read_back(port as nat, 10);
    lemma_digits_are_digits(port as nat, 10);
    assert(t[0] == host[0]);
    assert(t.last() == end.last());
    assert(!is_space(t.last()));
    assert(trim(t) == t);
    assert(bare_address(t) == t);
    lemma_not_a_socket(host, port);
    lemma_last_at(t, k);
    let i = host.len() as int;
    assert(k.holds(t[i]));
    assert(last_at(t, k) == i) by {
        let j = last_at(t, k);
        if j > i {
            assert(t[j] == end[j - i - 1]);
        }
    }
    assert(t.take(i) == host);
    assert(t.skip(i + 1) == end);
    assert(trim_both(host, Class::Bracket) == host);
}

/// Of two PAC answers with a `;` between them, the hops of the second follow
/// those of the first.
pub proof fn pac_answers_chain(a: Seq<char>, b: Seq<char>)
    ensures
        entries(cut(a + seq![';'] + b, Class::One(';')), true) == match entries(
            cut(a, Class::One(';')),
            true,
        ) {
            Ok(hops) => put_all(hops, entries(cut(b, Class::One(';')), true)),
            Err(e) => Err(e),
        },
{
    cut_of_two(a, ';', b);
    entries_chain(cut(a, Class::One(';')), cut(b, Class::One(';')), true);
}

/// A hop as an entry of a PAC answer.
pub open spec fn pac_item(hop: HopView) -> Seq<char> {
    match hop {
        HopView::Direct => "DIRECT"@,
        HopView::Http { .. } => "PROXY "@ + hop.text(),
    }
}

/// Hops as a PAC answer, such as `PROXY a:8080; PROXY b:8080; DIRECT`.
pub open spec fn pac_text(hops: Seq<HopView>) -> Seq<char> {
    joined(hops.map_values(|h: HopView| pac_item(h)), "; "@)
}

/// Whether a hop can stand in a PAC answer: it has no `;` in it, and its host is
/// not empty, has no white space in front and no bracket at either end, and
/// does not start with a scheme.
pub open spec fn fits_pac(hop: HopView) -> bool {
    match hop {
        HopView::Direct => true,
        HopView::Http { host, .. } => {
            &&& host.len() > 0
            &&& !is_space(host[0])
            &&& !Class::Bracket.holds(host[0])
            &&& !Class::Bracket.holds(host.last())
            &&& !includes(host, Class::One(';'))
            &&& !"http://"@.is_prefix_of(hop.text())
            &&& !"https://"@.is_prefix_of(hop.text())
        },
    }
}

proof fn lemma_proxy_text(host: Seq<char>, port: u16)
    requires
        host.len() > 0,
        !is_space(host[0]),
        !includes(host, Class::One(';')),
    ensures
        ({
            let t = (HopView::Http { host, port }).text();
            &&& t.len() > 0
            &&& !is_space(t[0])
            &&& !is_space(t.last())
            &&& !includes(t, Class::One(';'))
        }),
{
    let k = Class::One(';');
    let end = decimal(port as nat);
    let t = (HopView::Http { host, port }).text();
    reveal_strlit(":");
    lemma_digits_are_digits(port as nat, 10);
    assert(t == host + ":"@ + end);
    assert(t[0] == host[0]);
    assert(t.last() == end.last());
    assert(!includes(":"@, k));
    assert(!includes(end, k));
    lemma_includes_chain(host, ":"@, k);
    lemma_includes_chain(host + ":"@, end, k);
}

proof fn lemma_keyword(word: Seq<char>, rest: Seq<char>)
    requires
        !includes(word, Class::Space),
        word.len() > 0,
        rest.len() > 0,
        !is_space(rest[0]),
        !is_space(rest.last()),
    ensures
        ({
            let t = word + seq![' '] + rest;
            &&& before(t, Class::Space) == word
            &&& trim(after(t, Class::Space)) == rest
            &&& trim(t) == t
            &&& trim(seq![' '] + t) == t
        }),
{
    let k = Class::Space;
    let t = word + seq![' '] + rest;
    let n = word.len() as int;
    lemma_first_at(t, k);
    assert(k.holds(t[n]));
    assert forall|i: int| 0 <= i < n implies !k.holds(#[trigger] t[i]) by {
        assert(t[i] == word[i]);
    }
    assert(first_at(t, k) == n);
    assert(before(t, k) == word);
    assert(after(t, k) == rest);
    assert(t.last() == rest.last());
    lemma_trim_spaced(rest);
    lemma_trim_spaced(t);
}

proof fn lemma_trim_spaced(t: Seq<char>)
    requires
        t.len() > 0,
        !is_space(t[0]),
        !is_space(t.last()),
    ensures
        trim(t) == t,
        trim(seq![' '] + t) == t,
{
    let u = seq![' '] + t;
    assert(u.drop_first() == t);
    assert(trim_front(u, Class::Space) == trim_front(t, Class::Space));
}

/// Whether an entry names a hop.
#[verifier::opaque]
spec fn names(part: Seq<char>, hop: HopView, pac: bool) -> bool {
    entry(part, pac) == Ok::<Option<HopView>, ErrorView>(Some(hop))
}

proof fn lemma_direct_item()
    ensures
        !includes("DIRECT"@, Class::One(';')),
        names("DIRECT"@, HopView::Direct, true),
        names(seq![' '] + "DIRECT"@, HopView::Direct, true),
{
    let t = "DIRECT"@;
    reveal(names);
    reveal_strlit("DIRECT");
    lemma_first_at(t, Class::Space);
    assert(before(t, Class::Space) == t);
    assert(upper(t) == t);
    lemma_trim_spaced(t);
}

proof fn lemma_proxy_entry(t: Seq<char>, hop: HopView)
    requires
        t.len() > 0,
        upper(before(t, Class::Space)) == "PROXY"@,
        http_hop_of(trim(after(t, Class::Space))) == Ok::<HopView, ErrorView>(hop),
        trim(t) == t,
        trim(seq![' '] + t) == t,
    ensures
        names(t, hop, true),
        names(seq![' '] + t, hop, true),
{
    reveal(names);
    reveal_strlit("PROXY");
    reveal_strlit("DIRECT");
    assert("PROXY"@.len() != "DIRECT"@.len());
}

#[verifier::rlimit(40)]
proof fn lemma_proxy_item(host: Seq<char>, port: u16)
    requires
        fits_pac(HopView::Http { host, port }),
    ensures
        ({
            let hop = HopView::Http { host, port };
            &&& !includes(pac_item(hop), Class::One(';'))
            &&& names(pac_item(hop), hop, true)
            &&& names(seq![' '] + pac_item(hop), hop, true)
        }),
{
    let hop = HopView::Http { host, port };
    let text = hop.text();
    let t = pac_item(hop);
    let word = "PROXY"@;
    reveal_strlit("PROXY ");
    reveal_strlit("PROXY");
    lemma_proxy_text(host, port);
    assert("PROXY "@ == word + seq![' ']);
    lemma_includes_chain("PROXY "@, text, Class::One(';'));
    lemma_keyword(word, text);
    assert(upper(word) == word);
    hop_is_read_back(host, port);
    lemma_proxy_entry(t, hop);
}

proof fn lemma_pac_item(hop: HopView)
    requires
        fits_pac(hop),
    ensures
        !includes(pac_item(hop), Class::One(';')),
        names(pac_item(hop), hop, true),
        names(seq![' '] + pac_item(hop), hop, true),
{
    match hop {
        HopView::Direct => {
            lemma_direct_item();
        },
        HopView::Http { host, port } => {
            lemma_proxy_item(host, port);
        },
    }
}

/// Written out as a PAC answer and read again, hops are what they were.
pub proof fn pac_answer_is_read_back(hops: Seq<HopView>)
    requires
        hops.len() > 0,
        forall|i: int| 0 <= i < hops.len() ==> fits_pac(#[trigger] hops[i]),
    ensures
        pac_of(pac_text(hops)) == Ok::<Seq<HopView>, ErrorView>(hops),
{
    lemma_pac_entries(hops);
}

#[verifier::rlimit(40)]
proof fn lemma_pac_entries(hops: Seq<HopView>)
    requires
        hops.len() > 0,
        forall|i: int| 0 <= i < hops.len() ==> fits_pac(#[trigger] hops[i]),
    ensures
        entries(cut(pac_text(hops), Class::One(';')), true) == Ok::<Seq<HopView>, ErrorView>(hops),
    decreases hops.len(),
{
    let rest = hops.drop_last();
    let last = hops.last();
    let item = pac_item(last);
    let items = hops.map_values(|h: HopView| pac_item(h));
    assert(items.drop_last() == rest.map_values(|h: HopView| pac_item(h)));
    assert(items.last() == item);
    assert(fits_pac(hops[hops.len() - 1]));
    lemma_pac_item(last);
    if rest.len() == 0 {
        assert(pac_text(hops) == item);
        lemma_cut_whole(item, ';');
        lemma_one_entry(item, last, true);
        assert(hops == seq![last]);
    } else {
        let part = seq![' '] + item;
        assert forall|i: int| 0 <= i < rest.len() implies fits_pac(#[trigger] rest[i]) by {
            assert(rest[i] == hops[i]);
        }
        lemma_pac_entries(rest);
        reveal_strlit("; ");
        assert("; "@ == seq![';', ' ']);
        assert(pac_text(hops) == pac_text(rest) + "; "@ + item);
        assert(pac_text(rest) + "; "@ + item == pac_text(rest) + seq![';'] + part);
        lemma_includes_chain(seq![' '], item, Class::One(';'));
        lemma_one_more(pac_text(rest), rest, part, last);
        assert(hops == rest.push(last));
    }
}

proof fn lemma_one_more(text: Seq<char>, hops: Seq<HopView>, part: Seq<char>, hop: HopView)
    requires
        entries(cut(text, Class::One(';')), true) == Ok::<Seq<HopView>, ErrorView>(hops),
        names(part, hop, true),
        !includes(part, Class::One(';')),
    ensures
        entries(cut(text + seq![';'] + part, Class::One(';')), true) == Ok::<
            Seq<HopView>,
            ErrorView,
        >(hops.push(hop)),
{
    pac_answers_chain(text, part);
    lemma_cut_whole(part, ';');
    lemma_one_entry(part, hop, true);
    assert(hops + seq![hop] == hops.push(hop));
}

proof fn lemma_one_entry(part: Seq<char>, hop: HopView, pac: bool)
    requires
        names(part, hop, pac),
    ensures
        entries(seq![part], pac) == Ok::<Seq<HopView>, ErrorView>(seq![hop]),
{
    reveal(names);
    let none = seq![part].drop_first();
    assert(entries(none, pac) == Ok::<Seq<HopView>, ErrorView>(Seq::empty()));
    assert(seq![hop] + Seq::<HopView>::empty() == seq![hop]);
}

/// The proxy of a scheme as an entry of a system proxy list, such as
/// `http=proxy:8080`.
pub open spec fn scheme_item(scheme: Seq<char>, hop: HopView) -> Seq<char> {
    scheme + seq!['='] + hop.text()
}

/// The proxies of schemes as a system proxy list, such as
/// `http=proxy:8080;https=proxy:8080`.
pub open spec fn scheme_text(map: Seq<(Seq<char>, HopView)>) -> Seq<char> {
    joined(map.map_values(|m: (Seq<char>, HopView)| scheme_item(m.0, m.1)), seq![';'])
}

/// Whether a scheme and a proxy can stand in a system proxy list: the scheme is
/// not empty and has no `=` in it, neither has white space or `;` in it, and
/// the host of the proxy is not empty, has no bracket at either end and does
/// not start with a scheme.
pub open spec fn fits_scheme(scheme: Seq<char>, hop: HopView) -> bool {
    &&& scheme.len() > 0
    &&& !includes(scheme, Class::Space)
    &&& !includes(scheme, Class::One(';'))
    &&& !includes(scheme, Class::One('='))
    &&& hop matches HopView::Http { host, .. } && !includes(host, Class::Space)
    &&& fits_pac(hop)
}

proof fn lemma_text_has_no_space(host: Seq<char>, port: u16)
    requires
        !includes(host, Class::Space),
    ensures
        !includes((HopView::Http { host, port }).text(), Class::Space),
{
    let k = Class::Space;
    let end = decimal(port as nat);
    reveal_strlit(":");
    lemma_digits_are_digits(port as nat, 10);
    assert(!includes(":"@, k));
    assert(!includes(end, k));
    lemma_includes_chain(host, ":"@, k);
    lemma_includes_chain(host + ":"@, end, k);
}

proof fn lemma_scheme_item(scheme: Seq<char>, hop: HopView)
    requires
        fits_scheme(scheme, hop),
    ensures
        ({
            let t = scheme_item(scheme, hop);
            &&& t.len() > 0
            &&& !includes(t, Class::Space)
            &&& !includes(t, Class::One(';'))
            &&& trim(t) == t
            &&& includes(t, Class::One('='))
            &&& before(t, Class::One('=')) == scheme
            &&& after(t, Class::One('=')) == hop.text()
            &&& trim(hop.text()) == hop.text()
            &&& hop.text().len() > 0
        }),
{
    let t = scheme_item(scheme, hop);
    let text = hop.text();
    let host = hop->host;
    let eq = seq!['='];
    lemma_proxy_text(host, hop->port);
    lemma_text_has_no_space(host, hop->port);
    assert(!includes(eq, Class::Space) && !includes(eq, Class::One(';')));
    lemma_includes_chain(scheme, eq, Class::Space);
    lemma_includes_chain(scheme + eq, text, Class::Space);
    lemma_includes_chain(scheme, eq, Class::One(';'));
    lemma_includes_chain(scheme + eq, text, Class::One(';'));
    lemma_cut_front(scheme, '=', text);
    assert(!Class::Space.holds(t[0]) && !Class::Space.holds(t[t.len() - 1]));
    lemma_trim_spaced(t);
    lemma_trim_spaced(text);
}

proof fn lemma_scheme_names(scheme: Seq<char>, hop: HopView)
    requires
        fits_scheme(scheme, hop),
    ensures
        scheme_entry(scheme_item(scheme, hop)),
        names(scheme_item(scheme, hop), hop, false),
{
    reveal(names);
    lemma_scheme_item(scheme, hop);
    hop_is_read_back(hop->host, hop->port);
}

proof fn lemma_scheme_list(map: Seq<(Seq<char>, HopView)>)
    requires
        map.len() > 0,
        forall|i: int|
            0 <= i < map.len() ==> fits_scheme((#[trigger] map[i]).0, map[i].1),
    ensures
        ({
            let t = scheme_text(map);
            let hops = map.map_values(|m: (Seq<char>, HopView)| m.1);
            &&& t.len() > 0
            &&& !includes(t, Class::Space)
            &&& all_schemes(cut(t, Class::One(';')))
            &&& entries(cut(t, Class::One(';')), false) == Ok::<Seq<HopView>, ErrorView>(hops)
        }),
    decreases map.len(),
{
    let k = Class::One(';');
    let rest = map.drop_last();
    let (scheme, hop) = map.last();
    let item = scheme_item(scheme, hop);
    let items = map.map_values(|m: (Seq<char>, HopView)| scheme_item(m.0, m.1));
    let hops = map.map_values(|m: (Seq<char>, HopView)| m.1);
    assert(fits_scheme(map[map.len() - 1].0, map[map.len() - 1].1));
    assert(items.drop_last() == rest.map_values(
        |m: (Seq<char>, HopView)| scheme_item(m.0, m.1),
    ));
    assert(items.last() == item);
    lemma_scheme_item(scheme, hop);
    lemma_scheme_names(scheme, hop);
    lemma_cut_whole(item, ';');
    lemma_one_entry(item, hop, false);
    if rest.len() == 0 {
        assert(scheme_text(map) == item);
        assert(hops == seq![hop]);
    } else {
        let before = scheme_text(rest);
        let t = scheme_text(map);
        assert forall|i: int| 0 <= i < rest.len() implies fits_scheme(
            (#[trigger] rest[i]).0,
            rest[i].1,
        ) by {
            assert(rest[i] == map[i]);
        }
        lemma_scheme_list(rest);
        assert(t == before + seq![';'] + item);
        assert(!includes(seq![';'], Class::Space));
        lemma_includes_chain(before, seq![';'], Class::Space);
        lemma_includes_chain(before + seq![';'], item, Class::Space);
        cut_of_two(before, ';', item);
        entries_chain(cut(before, k), seq![item], false);
        let hops_before = rest.map_values(|m: (Seq<char>, HopView)| m.1);
        assert(hops == hops_before + seq![hop]);
        assert(all_schemes(cut(t, k))) by {
            let p = cut(before, k);
            assert forall|i: int| 0 <= i < cut(t, k).len() implies scheme_entry(
                #[trigger] cut(t, k)[i],
            ) by {
                if i < p.len() {
                    assert(cut(t, k)[i] == p[i]);
                }
            }
        }
    }
}

/// A system proxy list that gives the proxies by scheme names these proxies, in
/// their order, whatever the letters in the names of their hosts.
pub proof fn scheme_map_is_read_back(map: Seq<(Seq<char>, HopView)>)
    requires
        map.len() > 0,
        forall|i: int|
            0 <= i < map.len() ==> fits_scheme((#[trigger] map[i]).0, map[i].1),
    ensures
        ie_of(scheme_text(map)) == Ok::<Seq<HopView>, ErrorView>(
            map.map_values(|m: (Seq<char>, HopView)| m.1),
        ),
{
    let t = scheme_text(map);
    lemma_scheme_list(map);
    assert(!Class::Space.holds(t[0]) && !Class::Space.holds(t[t.len() - 1]));
    lemma_trim_spaced(t);
    assert forall|i: int| 0 <= i < t.len() implies Class::Gap.holds(#[trigger] t[i])
        == Class::One(';').holds(t[i]) by {
        assert(!Class::Space.holds(t[i]));
    }
    lemma_cut_agrees(t, Class::Gap, Class::One(';'));
}

} // verus!
