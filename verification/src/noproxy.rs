//! Which hosts are reached without the corporate proxy.
use crate::ip::{case_of_ip_is_free, ip_of, read_ip, IpAddr};
use crate::number::{read_unsigned, unsigned_up_to};
use crate::text::{
    after, before, chars_of, contains, cut, cut_at, ends_with, equal, find_first, find_text,
    first_at, includes, lemma_cut, lemma_first_at, lemma_lower_trim, lemma_place_of, lemma_trim_len,
    lemma_upper_is_same_word, lower, lowered, pieces, place_of, same_word, starts_with, trim,
    trim_back, trim_front, trimmed, trimmed_back, upper, Class,
};
use vstd::arithmetic::power2::pow2;
use vstd::prelude::*;
use vstd::slice::slice_subrange;

verus! {

/// Whether `host` agrees with `net` in its first `prefix` bits. Addresses of
/// different families never agree.
pub open spec fn cidr(net: IpAddr, prefix: u8, host: IpAddr) -> bool {
    match (net, host) {
        (IpAddr::V4(n), IpAddr::V4(h)) => {
            let low = if prefix < 32 {
                (32 - prefix) as nat
            } else {
                0
            };
            n as nat / pow2(low) == h as nat / pow2(low)
        },
        (IpAddr::V6(n), IpAddr::V6(h)) => {
            let low = if prefix < 128 {
                (128 - prefix) as nat
            } else {
                0
            };
            n as nat / pow2(low) == h as nat / pow2(low)
        },
        _ => false,
    }
}

/// Whether `parts` occur in `rest` one after the other, each at the first place
/// that is left for it, where the last one ends `rest` unless it is empty.
pub open spec fn follow(rest: Seq<char>, parts: Seq<Seq<char>>) -> bool
    decreases parts.len(),
{
    if parts.len() == 0 {
        rest.len() == 0
    } else if parts[0].len() == 0 {
        parts.len() == 1 || follow(rest, parts.drop_first())
    } else {
        let i = place_of(rest, parts[0]);
        i >= 0 && follow(rest.skip(i + parts[0].len()), parts.drop_first())
    }
}

/// Whether `value` fits `pattern`, in which `*` stands for any text: it starts
/// with what precedes the first `*`, and what stands between the others
/// follows, each piece taken where it first occurs.
pub open spec fn wildcard(pattern: Seq<char>, value: Seq<char>) -> bool {
    let parts = cut(pattern, Class::One('*'));
    if parts.len() == 1 {
        pattern == value
    } else {
        parts[0].is_prefix_of(value) && follow(
            value.skip(parts[0].len() as int),
            parts.drop_first(),
        )
    }
}

/// The network that `rule` writes: an address, a slash and a prefix length.
pub open spec fn net_of(rule: Seq<char>) -> Option<(IpAddr, u8)> {
    let k = Class::One('/');
    if !includes(rule, k) {
        None
    } else {
        match (ip_of(before(rule, k)), unsigned_up_to(after(rule, k), 10, 255)) {
            (Some(ip), Some(p)) => Some((ip, p as u8)),
            _ => None,
        }
    }
}

/// Whether the rule `rule` names the host `host`: a network, a pattern with
/// `*`, an address, or a domain with all that is under it.
pub open spec fn rule_names(host: Seq<char>, rule: Seq<char>) -> bool {
    let r = trim(rule);
    if r.len() == 0 {
        false
    } else if net_of(r) is Some {
        match ip_of(host) {
            Some(ip) => cidr((net_of(r)->0).0, (net_of(r)->0).1, ip),
            None => false,
        }
    } else if includes(r, Class::One('*')) {
        wildcard(lower(r), lower(host))
    } else if ip_of(r) is Some {
        ip_of(host) == ip_of(r)
    } else {
        lower(host) == lower(r) || (seq!['.'] + lower(r)).is_suffix_of(lower(host))
    }
}

/// The host without white space around it and without dots at its end.
pub open spec fn bare_host(host: Seq<char>) -> Seq<char> {
    trim_back(trim(host), Class::One('.'))
}

/// Whether one of `rules` names the host.
pub open spec fn bypasses(host: Seq<char>, rules: Seq<Seq<char>>) -> bool {
    let h = bare_host(host);
    h.len() > 0 && exists|i: int| 0 <= i < rules.len() && rule_names(h, #[trigger] rules[i])
}

/// Whether `host` is reached without the corporate proxy.
pub fn matches(host: &str, rules: &[String]) -> (r: bool)
    ensures
        r == bypasses(host@, rules.deep_view()),
{
    let text = chars_of(host);
    let h = trimmed_back(trimmed(text.as_slice()), Class::One('.'));
    if h.len() == 0 {
        return false;
    }
    let ip = read_ip(h);
    for i in 0..rules.len()
        invariant
            h@ == bare_host(host@),
            h@.len() > 0,
            ip == ip_of(h@),
            forall|j: int| 0 <= j < i ==> !rule_names(h@, #[trigger] rules.deep_view()[j]),
    {
        let rule = chars_of(rules[i].as_str());
        assert(rules.deep_view()[i as int] == rule@);
        if rule_matches(h, ip, rule.as_slice()) {
            return true;
        }
    }
    false
}

fn rule_matches(host: &[char], host_ip: Option<IpAddr>, rule: &[char]) -> (r: bool)
    requires
        host_ip == ip_of(host@),
    ensures
        r == rule_names(host@, rule@),
{
    let rule = trimmed(rule);
    if rule.len() == 0 {
        return false;
    }
    if let Some((net, prefix)) = read_net(rule) {
        return match host_ip {
            Some(ip) => cidr_contains(net, prefix, ip),
            None => false,
        };
    }
    let host_l = lowered(host);
    let rule_l = lowered(rule);
    if contains(rule, Class::One('*')) {
        return wildcard_match(rule_l.as_slice(), host_l.as_slice());
    }
    if let Some(ip) = read_ip(rule) {
        return host_ip == Some(ip);
    }
    if equal(host_l.as_slice(), rule_l.as_slice()) {
        return true;
    }
    let mut dotted: Vec<char> = Vec::new();
    dotted.push('.');
    for i in 0..rule_l.len()
        invariant
            dotted@ == seq!['.'] + rule_l@.take(i as int),
    {
        dotted.push(rule_l[i]);
    }
    assert(dotted@ == seq!['.'] + rule_l@);
    ends_with(host_l.as_slice(), dotted.as_slice())
}

fn read_net(rule: &[char]) -> (r: Option<(IpAddr, u8)>)
    ensures
        r == net_of(rule@),
{
    let ghost k = Class::One('/');
    proof {
        lemma_first_at(rule@, k);
    }
    let i: usize = find_first(rule, Class::One('/'));
    if i == rule.len() {
        return None;
    }
    let net = slice_subrange(rule, 0, i);
    let prefix = slice_subrange(rule, i + 1, rule.len());
    assert(net@ == before(rule@, k));
    assert(prefix@ == after(rule@, k));
    match (read_ip(net), read_unsigned(prefix, 10, 255)) {
        (Some(ip), Some(p)) => Some((ip, p as u8)),
        _ => None,
    }
}

/// Tests `value` against `pattern`, in which `*` stands for any text.
pub fn wildcard_match(pattern: &[char], value: &[char]) -> (r: bool)
    ensures
        r == wildcard(pattern@, value@),
{
    let parts = cut_at(pattern, Class::One('*'));
    let ghost p = pieces(parts@);
    if parts.len() == 1 {
        return equal(pattern, value);
    }
    assert(p[0] == parts@[0]@);
    if !starts_with(value, parts[0]) {
        return false;
    }
    let mut rest = slice_subrange(value, parts[0].len(), value.len());
    assert(rest@ == value@.skip(p[0].len() as int));
    assert(p.skip(1) == p.drop_first());
    let n: usize = parts.len();
    for i in 1..n
        invariant
            n == parts@.len(),
            n >= 1,
            p == pieces(parts@),
            wildcard(pattern@, value@) == follow(rest@, p.skip(i as int)),
    {
        let part = parts[i];
        assert(p.skip(i as int)[0] == part@);
        assert(p.skip(i as int).drop_first() == p.skip(i + 1));
        if part.len() == 0 {
            if i == n - 1 {
                return true;
            }
        } else {
            match find_text(rest, part) {
                Some(at) => {
                    let ghost left = rest@;
                    let m: usize = rest.len();
                    rest = slice_subrange(rest, at + part.len(), m);
                    assert(rest@ == left.skip(at + part@.len()));
                },
                None => {
                    return false;
                },
            }
        }
    }
    rest.len() == 0
}

/// Tests whether `host` lies in the network `net`/`prefix`.
pub fn cidr_contains(net: IpAddr, prefix: u8, host: IpAddr) -> (r: bool)
    ensures
        r == cidr(net, prefix, host),
{
    proof {
        vstd::arithmetic::power2::lemma2_to64();
    }
    match (net, host) {
        (IpAddr::V4(n), IpAddr::V4(h)) => {
            if prefix == 0 {
                proof {
                    vstd::arithmetic::div_mod::lemma_basic_div(n as int, pow2(32) as int);
                    vstd::arithmetic::div_mod::lemma_basic_div(h as int, pow2(32) as int);
                }
                return true;
            }
            let low: u32 = if prefix < 32 {
                32 - prefix as u32
            } else {
                0
            };
            proof {
                vstd::bits::lemma_u32_shr_is_div(n, low);
                vstd::bits::lemma_u32_shr_is_div(h, low);
            }
            (n >> low) == (h >> low)
        },
        (IpAddr::V6(n), IpAddr::V6(h)) => {
            if prefix == 0 {
                proof {
                    vstd::arithmetic::power2::lemma_pow2_adds(64, 64);
                    vstd::arithmetic::div_mod::lemma_basic_div(n as int, pow2(128) as int);
                    vstd::arithmetic::div_mod::lemma_basic_div(h as int, pow2(128) as int);
                }
                return true;
            }
            let low: u32 = if prefix < 128 {
                128 - prefix as u32
            } else {
                0
            };
            proof {
                vstd::bits::lemma_u128_shr_is_div(n, low as u128);
                vstd::bits::lemma_u128_shr_is_div(h, low as u128);
            }
            (n >> low) == (h >> low)
        },
        _ => false,
    }
}

/// Whether `*` in `pattern` can be filled in so that it becomes `value`.
pub open spec fn glob(pattern: Seq<char>, value: Seq<char>) -> bool
    decreases pattern.len(),
{
    if pattern.len() == 0 {
        value.len() == 0
    } else if pattern[0] == '*' {
        exists|k: int| 0 <= k <= value.len() && glob(pattern.drop_first(), #[trigger] value.skip(k))
    } else {
        value.len() > 0 && value[0] == pattern[0] && glob(
            pattern.drop_first(),
            value.drop_first(),
        )
    }
}

proof fn lemma_glob_up_to_star(p: Seq<char>, v: Seq<char>)
    ensures
        ({
            let i = first_at(p, Class::One('*'));
            glob(p, v) <==> p.take(i).is_prefix_of(v) && glob(p.skip(i), v.skip(i))
        }),
    decreases p.len(),
{
    let k = Class::One('*');
    let i = first_at(p, k);
    lemma_first_at(p, k);
    if i == 0 {
        assert(p.skip(0) == p);
        assert(v.skip(0) == v);
    } else {
        let q = p.drop_first();
        let w = v.drop_first();
        lemma_first_at(q, k);
        if v.len() > 0 {
            lemma_glob_up_to_star(q, w);
            assert(q.skip(i - 1) == p.skip(i));
            if i <= v.len() {
                assert(w.skip(i - 1) == v.skip(i));
            }
            if p.take(i).is_prefix_of(v) {
                assert(v[0] == v.subrange(0, i)[0]);
                assert(q.take(i - 1) == p.take(i).drop_first());
                assert(w.subrange(0, i - 1) == v.subrange(0, i).drop_first());
            }
            if v[0] == p[0] && q.take(i - 1).is_prefix_of(w) {
                assert forall|j: int| 0 <= j < i implies p[j] == v[j] by {
                    if j > 0 {
                        assert(q.take(i - 1)[j - 1] == w.subrange(0, i - 1)[j - 1]);
                    }
                }
                assert(p.take(i) == v.subrange(0, i));
            }
        }
    }
}

proof fn lemma_follow_fits(rest: Seq<char>, q: Seq<char>)
    requires
        follow(rest, cut(q, Class::One('*'))),
    ensures
        exists|k: int| 0 <= k <= rest.len() && glob(q, #[trigger] rest.skip(k)),
    decreases q.len(),
{
    let c = Class::One('*');
    let parts = cut(q, c);
    let b = before(q, c);
    let a = after(q, c);
    lemma_first_at(q, c);
    lemma_cut(q, c);
    if first_at(q, c) == q.len() {
        assert(parts.drop_first() == Seq::<Seq<char>>::empty());
        assert(q.take(q.len() as int) == q);
        if q.len() == 0 {
            assert(rest.skip(rest.len() as int).len() == 0);
            assert(glob(q, rest.skip(rest.len() as int)));
        } else {
            let i = place_of(rest, q);
            lemma_place_of(rest, q);
            lemma_glob_up_to_star(q, rest.skip(i));
            assert(parts[0] == q);
            assert(follow(rest.skip(i + q.len()), parts.drop_first()));
            assert(rest.skip(i).skip(q.len() as int) == rest.skip(i + q.len()));
            assert(glob(q.skip(q.len() as int), rest.skip(i).skip(q.len() as int)));
            assert(glob(q, rest.skip(i)));
        }
    } else {
        assert(parts.drop_first() == cut(a, c));
        lemma_cut(a, c);
        let i = if b.len() == 0 {
            0
        } else {
            place_of(rest, b)
        };
        if b.len() == 0 {
            assert(rest.skip(0) == rest);
        }
        lemma_place_of(rest, b);
        let left = rest.skip(i + b.len());
        lemma_follow_fits(left, a);
        let k = choose|k: int| 0 <= k <= left.len() && glob(a, #[trigger] left.skip(k));
        let v = rest.skip(i);
        assert(v.skip(b.len() as int) == left);
        let t = q.skip(b.len() as int);
        assert(t.drop_first() == a);
        assert(glob(t, left));
        lemma_glob_up_to_star(q, v);
        if b.len() == 0 {
            assert(b.is_prefix_of(v));
        }
        assert(glob(q, rest.skip(i)));
    }
}

proof fn lemma_fits_follow(rest: Seq<char>, q: Seq<char>, k: int)
    requires
        q.len() == 0 || q.last() == '*',
        0 <= k <= rest.len(),
        glob(q, rest.skip(k)),
    ensures
        follow(rest, cut(q, Class::One('*'))),
    decreases q.len(),
{
    let c = Class::One('*');
    let parts = cut(q, c);
    let b = before(q, c);
    let a = after(q, c);
    lemma_first_at(q, c);
    lemma_cut(q, c);
    if q.len() > 0 {
        assert(c.holds(q[q.len() - 1]));
        assert(parts.drop_first() == cut(a, c));
        lemma_cut(a, c);
        let v = rest.skip(k);
        lemma_glob_up_to_star(q, v);
        let t = q.skip(b.len() as int);
        let w = v.skip(b.len() as int);
        assert(t.drop_first() == a);
        let j = choose|j: int| 0 <= j <= w.len() && glob(a, #[trigger] w.skip(j));
        let end = k + b.len() + j;
        assert(w.skip(j) == rest.skip(end));
        assert(a.len() == 0 || a.last() == q.last());
        if b.len() == 0 {
            lemma_fits_follow(rest, a, end);
        } else {
            lemma_place_of(rest, b);
            let i = place_of(rest, b);
            let left = rest.skip(i + b.len());
            assert(left.skip(end - i - b.len()) == rest.skip(end));
            lemma_fits_follow(left, a, end - i - b.len());
        }
    }
}

/// A host that passes for a pattern does fit it: each `*` stands for some text.
pub proof fn wildcard_is_sound(pattern: Seq<char>, value: Seq<char>)
    requires
        wildcard(pattern, value),
    ensures
        glob(pattern, value),
{
    let c = Class::One('*');
    let parts = cut(pattern, c);
    let a = after(pattern, c);
    let b = before(pattern, c);
    lemma_first_at(pattern, c);
    lemma_cut(pattern, c);
    lemma_glob_up_to_star(pattern, value);
    if parts.len() == 1 {
        if first_at(pattern, c) < pattern.len() {
            lemma_cut(a, c);
        }
        assert(pattern.take(pattern.len() as int) == pattern);
        assert(value.subrange(0, value.len() as int) == value);
    } else {
        assert(parts.drop_first() == cut(a, c));
        let rest = value.skip(b.len() as int);
        lemma_follow_fits(rest, a);
        assert(pattern.skip(b.len() as int).drop_first() == a);
    }
}

/// A pattern that ends in `*` takes every host that fits it.
pub proof fn wildcard_with_open_end_is_complete(pattern: Seq<char>, value: Seq<char>)
    requires
        pattern.len() > 0,
        pattern.last() == '*',
    ensures
        wildcard(pattern, value) <==> glob(pattern, value),
{
    let c = Class::One('*');
    let parts = cut(pattern, c);
    let a = after(pattern, c);
    let b = before(pattern, c);
    lemma_first_at(pattern, c);
    assert(c.holds(pattern[pattern.len() - 1]));
    lemma_cut(pattern, c);
    lemma_cut(a, c);
    if wildcard(pattern, value) {
        wildcard_is_sound(pattern, value);
    }
    if glob(pattern, value) {
        lemma_glob_up_to_star(pattern, value);
        let rest = value.skip(b.len() as int);
        assert(pattern.skip(b.len() as int).drop_first() == a);
        let k = choose|k: int| 0 <= k <= rest.len() && glob(a, #[trigger] rest.skip(k));
        assert(a.len() == 0 || a.last() == pattern.last());
        lemma_fits_follow(rest, a, k);
        assert(parts.drop_first() == cut(a, c));
    }
}

/// What is left of `rest` for the last of `parts`, where each of the others is
/// taken at the first place that is left for it.
pub open spec fn left_for_last(rest: Seq<char>, parts: Seq<Seq<char>>) -> Option<Seq<char>>
    decreases parts.len(),
{
    if parts.len() <= 1 {
        Some(rest)
    } else if parts[0].len() == 0 {
        left_for_last(rest, parts.drop_first())
    } else {
        let i = place_of(rest, parts[0]);
        if i < 0 {
            None
        } else {
            left_for_last(rest.skip(i + parts[0].len()), parts.drop_first())
        }
    }
}

proof fn lemma_follow_to_last(rest: Seq<char>, parts: Seq<Seq<char>>)
    requires
        parts.len() > 0,
        parts.last().len() > 0,
    ensures
        follow(rest, parts) == match left_for_last(rest, parts) {
            Some(left) => {
                &&& place_of(left, parts.last()) >= 0
                &&& place_of(left, parts.last()) + parts.last().len() == left.len()
            },
            None => false,
        },
    decreases parts.len(),
{
    if parts.len() == 1 {
        lemma_place_of(rest, parts[0]);
        let after = rest.skip(place_of(rest, parts[0]) + parts[0].len());
        assert(follow(after, parts.drop_first()) == (after.len() == 0));
    } else {
        let tail = parts.drop_first();
        assert(tail.last() == parts.last());
        if parts[0].len() == 0 {
            lemma_follow_to_last(rest, tail);
        } else {
            let i = place_of(rest, parts[0]);
            if i >= 0 {
                lemma_follow_to_last(rest.skip(i + parts[0].len()), tail);
            }
        }
    }
}

proof fn lemma_fits_to_last(rest: Seq<char>, q: Seq<char>, k: int)
    requires
        q.len() > 0,
        q.last() != '*',
        0 <= k <= rest.len(),
        glob(q, rest.skip(k)),
    ensures
        cut(q, Class::One('*')).last().len() > 0,
        left_for_last(rest, cut(q, Class::One('*'))) matches Some(left) && cut(
            q,
            Class::One('*'),
        ).last().is_suffix_of(left),
    decreases q.len(),
{
    let c = Class::One('*');
    let parts = cut(q, c);
    let b = before(q, c);
    let a = after(q, c);
    let v = rest.skip(k);
    lemma_first_at(q, c);
    lemma_cut(q, c);
    lemma_glob_up_to_star(q, v);
    if first_at(q, c) == q.len() {
        let n = q.len() as int;
        assert(q.take(n) == q);
        assert(q.skip(n).len() == 0);
        assert(v.skip(n).len() == 0);
        assert(v.take(n) == v);
        assert(v == q);
        assert(rest.skip(rest.len() - n) == q);
    } else {
        assert(parts.drop_first() == cut(a, c));
        lemma_cut(a, c);
        assert(parts.last() == cut(a, c).last());
        let t = q.skip(b.len() as int);
        let w = v.skip(b.len() as int);
        assert(t.drop_first() == a);
        let j = choose|j: int| 0 <= j <= w.len() && glob(a, #[trigger] w.skip(j));
        let end = k + b.len() + j;
        assert(w.skip(j) == rest.skip(end));
        assert(a.len() > 0) by {
            if a.len() == 0 {
                assert(c.holds(q[first_at(q, c)]));
                assert(q.last() == '*');
            }
        }
        assert(a.last() == q.last());
        if b.len() == 0 {
            lemma_fits_to_last(rest, a, end);
        } else {
            lemma_place_of(rest, b);
            let i = place_of(rest, b);
            let left = rest.skip(i + b.len());
            assert(left.skip(end - i - b.len()) == rest.skip(end));
            lemma_fits_to_last(left, a, end - i - b.len());
        }
    }
}

/// A pattern without `*` takes the one host that fits it.
pub proof fn wildcard_without_star_is_complete(pattern: Seq<char>, value: Seq<char>)
    requires
        !includes(pattern, Class::One('*')),
    ensures
        wildcard(pattern, value) <==> glob(pattern, value),
{
    let c = Class::One('*');
    lemma_first_at(pattern, c);
    lemma_cut(pattern, c);
    lemma_glob_up_to_star(pattern, value);
    let n = pattern.len() as int;
    assert(pattern.take(n) == pattern);
    assert(pattern.skip(n).len() == 0);
    if glob(pattern, value) {
        assert(value.skip(n).len() == 0);
        assert(value.take(n) == value);
    }
    if pattern == value {
        assert(value.skip(n).len() == 0);
        assert(value.take(n) == value);
    }
}

/// A pattern that has a `*` and does not end in one takes every host that fits
/// it, unless what follows the last `*` occurs in what is left for it before
/// the end.
pub proof fn wildcard_with_closed_end_is_complete(pattern: Seq<char>, value: Seq<char>)
    requires
        includes(pattern, Class::One('*')),
        pattern.last() != '*',
        glob(pattern, value),
    ensures
        ({
            let parts = cut(pattern, Class::One('*'));
            let last = parts.last();
            let left = left_for_last(value.skip(parts[0].len() as int), parts.drop_first());
            &&& left is Some
            &&& last.is_suffix_of(left->0)
            &&& wildcard(pattern, value) <==> place_of(left->0, last) == (left->0).len()
                - last.len()
        }),
{
    let c = Class::One('*');
    let parts = cut(pattern, c);
    let a = after(pattern, c);
    let b = before(pattern, c);
    lemma_first_at(pattern, c);
    lemma_cut(pattern, c);
    lemma_cut(a, c);
    lemma_glob_up_to_star(pattern, value);
    let rest = value.skip(b.len() as int);
    assert(pattern.skip(b.len() as int).drop_first() == a);
    let k = choose|k: int| 0 <= k <= rest.len() && glob(a, #[trigger] rest.skip(k));
    assert(a.len() > 0) by {
        if a.len() == 0 {
            assert(c.holds(pattern[first_at(pattern, c)]));
            assert(pattern.last() == '*');
        }
    }
    assert(a.last() == pattern.last());
    assert(parts.drop_first() == cut(a, c));
    assert(parts.last() == cut(a, c).last());
    lemma_fits_to_last(rest, a, k);
    lemma_follow_to_last(rest, cut(a, c));
    let left = left_for_last(rest, cut(a, c))->0;
    lemma_place_of(left, parts.last());
}

/// A longer prefix makes a network smaller: what lies in it lies in the wider
/// one too.
pub proof fn networks_nest(net: IpAddr, long: u8, short: u8, host: IpAddr)
    requires
        short <= long,
        cidr(net, long, host),
    ensures
        cidr(net, short, host),
{
    let (n, h, bits) = match (net, host) {
        (IpAddr::V4(n), IpAddr::V4(h)) => (n as nat, h as nat, 32nat),
        (IpAddr::V6(n), IpAddr::V6(h)) => (n as nat, h as nat, 128nat),
        _ => (0, 0, 0),
    };
    let low = if long < bits {
        (bits - long) as nat
    } else {
        0
    };
    let more = if short < bits {
        (bits - short) as nat
    } else {
        0
    };
    let step = (more - low) as nat;
    vstd::arithmetic::power2::lemma_pow2_adds(low, step);
    vstd::arithmetic::power2::lemma_pow2_pos(low);
    vstd::arithmetic::power2::lemma_pow2_pos(step);
    vstd::arithmetic::div_mod::lemma_div_denominator(n as int, pow2(low) as int, pow2(step) as int);
    vstd::arithmetic::div_mod::lemma_div_denominator(h as int, pow2(low) as int, pow2(step) as int);
}

/// Every network holds the address that names it.
pub proof fn networks_hold_their_address(net: IpAddr, prefix: u8)
    ensures
        cidr(net, prefix, net),
{
}

/// A host is named by two lists of rules together where one of them names it.
pub proof fn rules_add_up(host: Seq<char>, a: Seq<Seq<char>>, b: Seq<Seq<char>>)
    ensures
        bypasses(host, a + b) <==> bypasses(host, a) || bypasses(host, b),
{
    let h = bare_host(host);
    let all = a + b;
    if bypasses(host, all) {
        let i = choose|i: int| 0 <= i < all.len() && rule_names(h, #[trigger] all[i]);
        assert(if i < a.len() {
            rule_names(h, a[i])
        } else {
            rule_names(h, b[i - a.len()])
        });
    }
    if bypasses(host, a) {
        let i = choose|i: int| 0 <= i < a.len() && rule_names(h, #[trigger] a[i]);
        assert(rule_names(h, all[i]));
    }
    if bypasses(host, b) {
        let i = choose|i: int| 0 <= i < b.len() && rule_names(h, #[trigger] b[i]);
        assert(rule_names(h, all[a.len() + i]));
    }
}

/// No rules name no host.
pub proof fn no_rules_name_nothing(host: Seq<char>)
    ensures
        !bypasses(host, Seq::empty()),
{
}

/// No rule names the empty host.
pub proof fn empty_host_is_never_named(rules: Seq<Seq<char>>)
    ensures
        !bypasses(Seq::empty(), rules),
{
}

/// A dot at the end of a host makes no difference.
pub proof fn last_dot_is_free(host: Seq<char>, rules: Seq<Seq<char>>)
    requires
        host == trim(host),
    ensures
        bypasses(host.push('.'), rules) == bypasses(host, rules),
{
    let s = host.push('.');
    lemma_trim_len(host, Class::Space);
    lemma_trim_len(trim_front(host, Class::Space), Class::Space);
    assert(trim_front(s, Class::Space) == s);
    assert(trim(s) == s);
    assert(s.drop_last() == host);
}

/// The case of the letters of a host makes no difference.
pub proof fn case_of_host_is_free(a: Seq<char>, b: Seq<char>, rules: Seq<Seq<char>>)
    requires
        same_word(a, b),
    ensures
        bypasses(a, rules) == bypasses(b, rules),
{
    lemma_lower_bare(a);
    lemma_lower_bare(b);
    let g = bare_host(a);
    let h = bare_host(b);
    assert(same_word(g, h));
    assert(g.len() == lower(g).len() && h.len() == lower(h).len());
    case_of_ip_is_free(g, h);
    assert(forall|r: Seq<char>| rule_names(g, r) == rule_names(h, r));
}

/// A host in capitals is the host.
pub proof fn capitals_are_free(host: Seq<char>, rules: Seq<Seq<char>>)
    ensures
        bypasses(upper(host), rules) == bypasses(host, rules),
{
    lemma_upper_is_same_word(host);
    case_of_host_is_free(upper(host), host, rules);
}

proof fn lemma_lower_bare(host: Seq<char>)
    ensures
        bare_host(lower(host)) == lower(bare_host(host)),
{
    lemma_lower_trim(host, Class::Space);
    lemma_lower_trim(trim_front(host, Class::Space), Class::Space);
    lemma_lower_trim(trim(host), Class::One('.'));
}

} // verus!
