//! Which hosts the rules name.
use crate::ip::{address_is_written_plainly, ip_is_read_back, ip_of, is_of_address, IpAddr};
use crate::noproxy::{bare_host, bypasses, cidr, follow, net_of, rule_names, wildcard};
use crate::number::{decimal, digits_read_back, lemma_digits_are_digits, unsigned_up_to};
use crate::text::{
    cut, includes, lemma_first_at, lemma_place_of, lower, place_of, same_word,
    text_is_cut_at_its_marks, trim, trim_back, trimming_leaves_the_middle, Class,
};
use vstd::arithmetic::power2::pow2;
use vstd::prelude::*;

verus! {

proof fn lemma_one_bit_more(a: nat, b: nat, low: nat)
    ensures
        a / pow2(low) == b / pow2(low) <==> (a / pow2(low + 1) == b / pow2(low + 1) && (a / pow2(
            low,
        )) % 2 == (b / pow2(low)) % 2),
{
    vstd::arithmetic::power2::lemma_pow2_pos(low);
    vstd::arithmetic::power2::lemma_pow2_adds(low, 1);
    vstd::arithmetic::power2::lemma2_to64();
    vstd::arithmetic::div_mod::lemma_div_denominator(a as int, pow2(low) as int, 2);
    vstd::arithmetic::div_mod::lemma_div_denominator(b as int, pow2(low) as int, 2);
    assert(pow2(low + 1) == pow2(low) * 2);
}

proof fn lemma_bits(n: nat, h: nat, bits: nat, low: nat)
    requires
        n < pow2(bits),
        h < pow2(bits),
        low <= bits,
    ensures
        n / pow2(low) == h / pow2(low) <==> forall|p: nat|
            low <= p < bits ==> #[trigger] bit_of(n, p) == bit_of(h, p),
    decreases bits - low,
{
    if low == bits {
        vstd::arithmetic::div_mod::lemma_basic_div(n as int, pow2(bits) as int);
        vstd::arithmetic::div_mod::lemma_basic_div(h as int, pow2(bits) as int);
    } else {
        lemma_bits(n, h, bits, low + 1);
        lemma_one_bit_more(n, h, low);
        assert(bit_of(n, low) == (n / pow2(low)) % 2);
    }
}

/// The bit of a number at a place, counted from its lowest.
pub open spec fn bit_of(n: nat, place: nat) -> nat {
    (n / pow2(place)) % 2
}

/// An address lies in a network where it agrees with it in each of the first
/// bits that the prefix counts, and only there. Where the prefix counts all
/// bits or more, that is the one address.
pub proof fn network_is_agreement_in_each_bit(n: u32, h: u32, x: u128, y: u128, prefix: u8)
    ensures
        prefix <= 32 ==> (cidr(IpAddr::V4(n), prefix, IpAddr::V4(h)) <==> forall|p: nat|
            32 - prefix <= p < 32 ==> #[trigger] bit_of(n as nat, p) == bit_of(h as nat, p)),
        prefix >= 32 ==> (cidr(IpAddr::V4(n), prefix, IpAddr::V4(h)) <==> n == h),
        prefix <= 128 ==> (cidr(IpAddr::V6(x), prefix, IpAddr::V6(y)) <==> forall|p: nat|
            128 - prefix <= p < 128 ==> #[trigger] bit_of(x as nat, p) == bit_of(y as nat, p)),
        prefix >= 128 ==> (cidr(IpAddr::V6(x), prefix, IpAddr::V6(y)) <==> x == y),
        !cidr(IpAddr::V4(n), prefix, IpAddr::V6(y)),
        !cidr(IpAddr::V6(x), prefix, IpAddr::V4(h)),
{
    vstd::arithmetic::power2::lemma2_to64();
    vstd::arithmetic::power2::lemma_pow2_adds(64, 64);
    assert(pow2(0) == 1);
    if prefix <= 32 {
        lemma_bits(n as nat, h as nat, 32, (32 - prefix) as nat);
    }
    if prefix <= 128 {
        lemma_bits(x as nat, y as nat, 128, (128 - prefix) as nat);
    }
}

proof fn lemma_address_is_bare(ip: IpAddr)
    ensures
        bare_host(ip.text()) == ip.text(),
        trim(ip.text()) == ip.text(),
        !includes(ip.text(), Class::One('/')),
        !includes(ip.text(), Class::One('*')),
{
    let t = ip.text();
    let none = Seq::<char>::empty();
    address_is_written_plainly(ip);
    assert(is_of_address(t[0]) && is_of_address(t[t.len() - 1]));
    trimming_leaves_the_middle(none, t, none, Class::Space);
    trimming_leaves_the_middle(none, t, none, Class::One('.'));
    assert(none + t + none == t);
    assert(t + none == t);
}

proof fn lemma_one_rule(host: Seq<char>, rule: Seq<char>)
    ensures
        bypasses(host, seq![rule]) <==> bare_host(host).len() > 0 && rule_names(
            bare_host(host),
            rule,
        ),
{
    assert(seq![rule][0] == rule);
    if bare_host(host).len() > 0 && rule_names(bare_host(host), rule) {
        assert(rule_names(bare_host(host), seq![rule][0]));
    }
}

/// A rule that is a network names the addresses that lie in it.
pub proof fn network_rule_names_its_addresses(net: IpAddr, prefix: u8, host: IpAddr)
    ensures
        bypasses(host.text(), seq![net.text() + seq!['/'] + decimal(prefix as nat)]) <==> cidr(
            net,
            prefix,
            host,
        ),
{
    let n = net.text();
    let p = decimal(prefix as nat);
    let rule = n + seq!['/'] + p;
    let none = Seq::<char>::empty();
    lemma_address_is_bare(net);
    lemma_address_is_bare(host);
    address_is_written_plainly(net);
    address_is_written_plainly(host);
    ip_is_read_back(net);
    ip_is_read_back(host);
    digits_read_back(prefix as nat, 10);
    lemma_digits_are_digits(prefix as nat, 10);
    assert(is_of_address(n[0]));
    assert(rule[0] == n[0]);
    assert(rule.last() == p.last());
    trimming_leaves_the_middle(none, rule, none, Class::Space);
    assert(none + rule + none == rule);
    lemma_first_at(n, Class::One('/'));
    text_is_cut_at_its_marks(n, '/', p, Class::One('/'));
    crate::number::numbers_up_to_a_bound(prefix as nat, 255, none);
    assert(net_of(rule) == Some((net, prefix)));
    lemma_one_rule(host.text(), rule);
}

/// A rule that is an address names that address, however it is written, and no
/// other.
pub proof fn address_rule_names_its_address(a: IpAddr, b: IpAddr)
    ensures
        bypasses(a.text(), seq![b.text()]) <==> a == b,
{
    lemma_address_is_bare(a);
    lemma_address_is_bare(b);
    address_is_written_plainly(a);
    address_is_written_plainly(b);
    ip_is_read_back(a);
    ip_is_read_back(b);
    lemma_one_rule(a.text(), b.text());
}

/// A rule that is a name names the host of that name and the hosts under it,
/// after a dot; the case of letters makes no difference.
pub proof fn domain_rule_names_what_is_under_it(host: Seq<char>, rule: Seq<char>)
    requires
        host.len() > 0,
        !Class::Space.holds(host[0]),
        !Class::Space.holds(host.last()),
        host.last() != '.',
        rule.len() > 0,
        !Class::Space.holds(rule[0]),
        !Class::Space.holds(rule.last()),
        forall|i: int| 0 <= i < rule.len() ==> #[trigger] rule[i] != '*' && rule[i] != '/',
        ip_of(rule) is None,
    ensures
        bypasses(host, seq![rule]) <==> same_word(host, rule) || {
            let n = host.len() - rule.len();
            n > 0 && host[n - 1] == '.' && same_word(host.skip(n), rule)
        },
{
    let none = Seq::<char>::empty();
    trimming_leaves_the_middle(none, host, none, Class::Space);
    lemma_dots_off(host, none);
    trimming_leaves_the_middle(none, rule, none, Class::Space);
    assert(none + host + none == host && host + none == host && none + rule + none == rule);
    assert(!includes(rule, Class::One('*')));
    assert(!includes(rule, Class::One('/')));
    lemma_one_rule(host, rule);
    let dotted = seq!['.'] + lower(rule);
    let l = lower(host);
    let n = host.len() - rule.len();
    assert(l.len() == host.len() && lower(rule).len() == rule.len());
    if n > 0 {
        assert(lower(host.skip(n)) == l.skip(n));
        assert((l[n - 1] == '.') == (host[n - 1] == '.'));
        if dotted.is_suffix_of(l) {
            assert(l.subrange(n - 1, l.len() as int) == dotted);
            assert(l.subrange(n - 1, l.len() as int)[0] == '.');
            assert(l.skip(n) == dotted.skip(1));
            assert(dotted.skip(1) == lower(rule));
        }
        if host[n - 1] == '.' && same_word(host.skip(n), rule) {
            assert(l.subrange(n - 1, l.len() as int) == dotted) by {
                assert forall|i: int| 0 <= i < dotted.len() implies l.subrange(
                    n - 1,
                    l.len() as int,
                )[i] == dotted[i] by {
                    if i > 0 {
                        assert(l.skip(n)[i - 1] == lower(rule)[i - 1]);
                    }
                }
            }
        }
    }
}

/// A pattern that ends in its one star takes what starts with the rest of it,
/// and a pattern that starts with its one star takes what ends with the rest of
/// it and holds it nowhere before.
pub proof fn one_star_takes_any_text(part: Seq<char>, value: Seq<char>)
    requires
        forall|i: int| 0 <= i < part.len() ==> #[trigger] part[i] != '*',
    ensures
        wildcard(part + seq!['*'], value) <==> part.is_prefix_of(value),
        wildcard(part, value) <==> part == value,
        part.len() > 0 ==> (wildcard(seq!['*'] + part, value) <==> part.is_suffix_of(value) && (
        forall|i: int|
            0 <= i < value.len() - part.len() ==> !part.is_prefix_of(#[trigger] value.skip(i)))),
{
    let k = Class::One('*');
    let none = Seq::<char>::empty();
    text_is_cut_at_its_marks(part, '*', none, k);
    text_is_cut_at_its_marks(none, '*', part, k);
    assert(part + seq!['*'] + none == part + seq!['*']);
    assert(none + seq!['*'] + part == seq!['*'] + part);
    let open = cut(part + seq!['*'], k);
    assert(open == seq![part, none]);
    assert(open.drop_first() == seq![none]);
    if part.len() > 0 {
        let shut = cut(seq!['*'] + part, k);
        assert(shut == seq![none, part]);
        assert(shut.drop_first() == seq![part]);
        assert(seq![part].drop_first() == Seq::<Seq<char>>::empty());
        assert(none.is_prefix_of(value)) by {
            assert(value.subrange(0, 0) == none);
        }
        assert(value.skip(0) == value);
        let p = place_of(value, part);
        let end = value.len() - part.len();
        lemma_place_of(value, part);
        let rest = value.skip(p + part.len());
        assert(follow(rest, Seq::<Seq<char>>::empty()) == (rest.len() == 0));
        if part.is_suffix_of(value) {
            assert(value.skip(end) == part);
            assert(value.skip(end).subrange(0, part.len() as int) == part);
            assert(part.is_prefix_of(value.skip(end)));
        }
        if p >= 0 && p == end {
            assert(value.skip(end).subrange(0, part.len() as int) == part);
            assert(value.skip(end) == part);
        }
    }
}

/// A pattern is a rule of its own: it takes the hosts that fit it, whatever
/// their case.
pub proof fn pattern_rule_names_what_fits(host: Seq<char>, rule: Seq<char>)
    requires
        host.len() > 0,
        !Class::Space.holds(host[0]),
        !Class::Space.holds(host.last()),
        host.last() != '.',
        rule.len() > 0,
        !Class::Space.holds(rule[0]),
        !Class::Space.holds(rule.last()),
        exists|i: int| 0 <= i < rule.len() && #[trigger] rule[i] == '*',
        forall|i: int| 0 <= i < rule.len() ==> #[trigger] rule[i] != '/',
    ensures
        bypasses(host, seq![rule]) <==> wildcard(lower(rule), lower(host)),
{
    let none = Seq::<char>::empty();
    trimming_leaves_the_middle(none, host, none, Class::Space);
    lemma_dots_off(host, none);
    trimming_leaves_the_middle(none, rule, none, Class::Space);
    assert(none + host + none == host && host + none == host && none + rule + none == rule);
    let i = choose|i: int| 0 <= i < rule.len() && #[trigger] rule[i] == '*';
    assert(Class::One('*').holds(rule[i]));
    assert(!includes(rule, Class::One('/')));
    lemma_one_rule(host, rule);
}

/// White space around a host, dots at its end and white space around a rule
/// make no difference.
pub proof fn what_surrounds_a_host_or_a_rule_is_free(
    a: Seq<char>,
    host: Seq<char>,
    dots: Seq<char>,
    b: Seq<char>,
    rule: Seq<char>,
)
    requires
        forall|i: int| 0 <= i < a.len() ==> Class::Space.holds(#[trigger] a[i]),
        forall|i: int| 0 <= i < b.len() ==> Class::Space.holds(#[trigger] b[i]),
        forall|i: int| 0 <= i < dots.len() ==> #[trigger] dots[i] == '.',
        host.len() > 0,
        !Class::Space.holds(host[0]),
        !Class::Space.holds(host.last()),
        host.last() != '.',
        rule.len() > 0,
        !Class::Space.holds(rule[0]),
        !Class::Space.holds(rule.last()),
    ensures
        bypasses(a + (host + dots) + b, seq![a + rule + b]) == bypasses(host, seq![rule]),
        !bypasses(a + dots + b, seq![rule]),
{
    let none = Seq::<char>::empty();
    let t = host + dots;
    assert(t[0] == host[0]);
    if dots.len() > 0 {
        assert(t.last() == dots[dots.len() - 1]);
        assert(dots.last() == dots[dots.len() - 1]);
        assert(dots[0] == '.');
    } else {
        assert(t == host);
    }
    trimming_leaves_the_middle(a, t, b, Class::Space);
    trimming_leaves_the_middle(none, host, none, Class::Space);
    trimming_leaves_the_middle(a, rule, b, Class::Space);
    trimming_leaves_the_middle(none, rule, none, Class::Space);
    assert(none + host + none == host && none + rule + none == rule && host + none == host);
    if host[0] == '.' {
        lemma_dots_off(host, dots);
        lemma_dots_off(host, none);
    } else {
        trimming_leaves_the_middle(none, host, dots, Class::One('.'));
        trimming_leaves_the_middle(none, host, none, Class::One('.'));
    }
    lemma_one_rule(a + t + b, a + rule + b);
    lemma_one_rule(host, rule);
    trimming_leaves_the_middle(a, dots, b, Class::Space);
    lemma_dots_off(none, dots);
    assert(none + dots == dots);
}

proof fn lemma_dots_off(host: Seq<char>, dots: Seq<char>)
    requires
        forall|i: int| 0 <= i < dots.len() ==> #[trigger] dots[i] == '.',
        host.len() > 0 ==> host.last() != '.',
    ensures
        trim_back(host + dots, Class::One('.')) == host,
    decreases dots.len(),
{
    if dots.len() > 0 {
        let less = dots.drop_last();
        assert forall|i: int| 0 <= i < less.len() implies #[trigger] less[i] == '.' by {
            assert(dots[i] == '.');
        }
        assert(dots[dots.len() - 1] == '.');
        assert((host + dots).drop_last() == host + less);
        lemma_dots_off(host, less);
    } else {
        assert(host + dots == host);
    }
}

/// A rule is a network where a slash parts an address and a number up to 255.
pub proof fn network_rule_is_an_address_and_a_number(a: Seq<char>, b: Seq<char>)
    requires
        forall|i: int| 0 <= i < a.len() ==> #[trigger] a[i] != '/',
    ensures
        net_of(a) is None,
        net_of(a + seq!['/'] + b) == if ip_of(a) is Some && unsigned_up_to(b, 10, 255) is Some {
            Some((ip_of(a)->0, unsigned_up_to(b, 10, 255)->0 as u8))
        } else {
            None
        },
{
    text_is_cut_at_its_marks(a, '/', b, Class::One('/'));
}

/// A rule with a slash that is no network is a pattern or a name like any other,
/// and a blank rule names nothing.
pub proof fn rule_with_a_slash_may_be_a_name(host: Seq<char>, rule: Seq<char>, blank: Seq<char>)
    requires
        host.len() > 0,
        !Class::Space.holds(host[0]),
        !Class::Space.holds(host.last()),
        host.last() != '.',
        rule.len() > 0,
        !Class::Space.holds(rule[0]),
        !Class::Space.holds(rule.last()),
        net_of(rule) is None,
        ip_of(rule) is None,
        forall|i: int| 0 <= i < blank.len() ==> Class::Space.holds(#[trigger] blank[i]),
    ensures
        !bypasses(host, seq![blank]),
        (exists|i: int| 0 <= i < rule.len() && #[trigger] rule[i] == '*') ==> (bypasses(
            host,
            seq![rule],
        ) <==> wildcard(lower(rule), lower(host))),
        (forall|i: int| 0 <= i < rule.len() ==> #[trigger] rule[i] != '*') ==> (bypasses(
            host,
            seq![rule],
        ) <==> same_word(host, rule) || (seq!['.'] + lower(rule)).is_suffix_of(lower(host))),
{
    let none = Seq::<char>::empty();
    trimming_leaves_the_middle(none, host, none, Class::Space);
    lemma_dots_off(host, none);
    trimming_leaves_the_middle(none, rule, none, Class::Space);
    assert(none + host + none == host && host + none == host && none + rule + none == rule);
    trimming_leaves_the_middle(blank, none, none, Class::Space);
    assert(blank + none + none == blank);
    lemma_one_rule(host, blank);
    lemma_one_rule(host, rule);
    if exists|i: int| 0 <= i < rule.len() && #[trigger] rule[i] == '*' {
        let i = choose|i: int| 0 <= i < rule.len() && #[trigger] rule[i] == '*';
        assert(Class::One('*').holds(rule[i]));
    }
}

/// The stars of a pattern are filled in one by one: what stands between two of
/// them is taken where it first occurs in what is left.
pub proof fn stars_are_filled_one_by_one(a: Seq<char>, rest: Seq<char>, value: Seq<char>)
    requires
        forall|i: int| 0 <= i < a.len() ==> #[trigger] a[i] != '*',
    ensures
        wildcard(a + seq!['*'] + rest, value) <==> a.is_prefix_of(value) && wildcard(
            seq!['*'] + rest,
            value.skip(a.len() as int),
        ),
        a.len() > 0 ==> (wildcard(seq!['*'] + (a + seq!['*'] + rest), value) <==> place_of(value, a)
            >= 0 && wildcard(seq!['*'] + rest, value.skip(place_of(value, a) + a.len()))),
        wildcard(seq!['*', '*'] + rest, value) <==> wildcard(seq!['*'] + rest, value),
{
    let k = Class::One('*');
    let none = Seq::<char>::empty();
    let tail = cut(rest, k);
    let star = seq!['*'] + rest;
    text_is_cut_at_its_marks(a, '*', rest, k);
    text_is_cut_at_its_marks(none, '*', rest, k);
    text_is_cut_at_its_marks(none, '*', a + seq!['*'] + rest, k);
    text_is_cut_at_its_marks(none, '*', star, k);
    assert(none + seq!['*'] + rest == star);
    assert(none + seq!['*'] + (a + seq!['*'] + rest) == seq!['*'] + (a + seq!['*'] + rest));
    assert(none + seq!['*'] + star == seq!['*', '*'] + rest);
    crate::text::lemma_cut(rest, k);
    assert((seq![a] + tail).drop_first() == tail);
    assert((seq![none] + tail).drop_first() == tail);
    let two = seq![none] + (seq![a] + tail);
    assert(two.drop_first() == seq![a] + tail);
    let both = seq![none] + (seq![none] + tail);
    assert(both.drop_first() == seq![none] + tail);
    assert forall|v: Seq<char>| none.is_prefix_of(v) && #[trigger] v.skip(0) == v by {
        assert(v.subrange(0, 0) == none);
    }
    assert forall|v: Seq<char>| #[trigger] wildcard(star, v) == follow(v, tail) by {
        assert(v.skip(0) == v);
    }
    assert(value.skip(0) == value);
}

} // verus!
