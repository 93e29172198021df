//! Proxy lists, as PAC scripts and the system settings give them.
use crate::boundary::debug_quoted;
use crate::config::host_port_of;
use crate::error::ErrorView;
use crate::hop::{
    entries, entries_chain, entry, has_keyword, http_hop_of, ie_of, is_scheme_map, pac_of, put_all,
    scheme_entry, HopView,
};
use crate::laws::addresses::{host_and_port_are_read, port_has_to_be_a_number};
use crate::number::{decimal, lemma_digits_are_digits};
use crate::text::{
    after, before, copies_are_stripped, cut, first_at, includes, joined, joined_texts_are_cut_again,
    lemma_first_at, lower, lower_char, occurs, same_word, strip_front, text_is_cut_at_its_marks,
    trim, trimming_leaves_the_middle, upper, upper_char, Class,
};
use vstd::prelude::*;

verus! {

/// Whether a text is the name of a host: not empty, and without the characters
/// that stand around names in lists and addresses.
pub open spec fn is_host(host: Seq<char>) -> bool {
    &&& host.len() > 0
    &&& forall|i: int|
        0 <= i < host.len() ==> #[trigger] host[i] != '/' && host[i] != ':' && host[i] != ';'
            && host[i] != '=' && !Class::Space.holds(host[i]) && !Class::Bracket.holds(host[i])
}

proof fn lemma_capitals(a: Seq<char>, b: Seq<char>)
    ensures
        same_word(a, b) <==> upper(a) == upper(b),
{
    assert(lower(a).len() == a.len() && upper(a).len() == a.len());
    assert(lower(b).len() == b.len() && upper(b).len() == b.len());
    if same_word(a, b) {
        assert forall|i: int| 0 <= i < a.len() implies upper(a)[i] == upper(b)[i] by {
            assert(lower(a)[i] == lower(b)[i]);
            lemma_char_capitals(a[i], b[i]);
        }
        assert(upper(a) == upper(b));
    }
    if upper(a) == upper(b) {
        assert forall|i: int| 0 <= i < a.len() implies lower(a)[i] == lower(b)[i] by {
            assert(upper(a)[i] == upper(b)[i]);
            lemma_char_capitals(a[i], b[i]);
        }
        assert(lower(a) == lower(b));
    }
}

proof fn lemma_char_capitals(x: char, y: char)
    ensures
        lower_char(x) == lower_char(y) <==> upper_char(x) == upper_char(y),
{
    assert(lower_char(x) == lower_char(y) <==> lower_char(x) as u32 == lower_char(y) as u32);
    assert(upper_char(x) == upper_char(y) <==> upper_char(x) as u32 == upper_char(y) as u32);
}

proof fn lemma_trim_plain(s: Seq<char>)
    requires
        s.len() > 0 ==> !Class::Space.holds(s[0]) && !Class::Space.holds(s.last()),
    ensures
        trim(s) == s,
{
    trimming_leaves_the_middle(Seq::empty(), s, Seq::empty(), Class::Space);
    assert(Seq::<char>::empty() + s + Seq::<char>::empty() == s);
}

proof fn lemma_no_slash(s: Seq<char>)
    requires
        forall|i: int| 0 <= i < s.len() ==> #[trigger] s[i] != '/',
    ensures
        !"http://"@.is_prefix_of(s),
        !"https://"@.is_prefix_of(s),
        strip_front(strip_front(s, "http://"@), "https://"@) == s,
{
    reveal_strlit("http://");
    reveal_strlit("https://");
    if "http://"@.is_prefix_of(s) {
        assert(s.subrange(0, 7)[5] == '/');
        assert(s[5] == '/');
    }
    if "https://"@.is_prefix_of(s) {
        assert(s.subrange(0, 8)[6] == '/');
        assert(s[6] == '/');
    }
}

proof fn lemma_full_address(host: Seq<char>, port: u16)
    requires
        is_host(host),
    ensures
        ({
            let full = host + seq![':'] + decimal(port as nat);
            &&& full.len() > 0
            &&& forall|i: int|
                0 <= i < full.len() ==> #[trigger] full[i] != '/' && full[i] != ';' && full[i]
                    != '=' && !Class::Space.holds(full[i])
            &&& includes(full, Class::One(':'))
            &&& host_port_of(full) == Some((host, port))
        }),
{
    let full = host + seq![':'] + decimal(port as nat);
    let none = Seq::<char>::empty();
    lemma_digits_are_digits(port as nat, 10);
    assert forall|i: int| 0 <= i < full.len() implies #[trigger] full[i] != '/' && full[i] != ';'
        && full[i] != '=' && !Class::Space.holds(full[i]) by {
        if i < host.len() {
            assert(full[i] == host[i]);
        } else if i > host.len() {
            assert(full[i] == decimal(port as nat)[i - host.len() - 1]);
        }
    }
    assert(Class::One(':').holds(full[host.len() as int]));
    host_and_port_are_read(none, host, port, none);
    assert(none + full + none == full);
}

/// A proxy is its host and its port, and without a port the port is 80. A
/// scheme in front, and white space around, make no difference. What has a
/// colon and no port is no proxy.
pub proof fn address_names_the_proxy(host: Seq<char>, port: u16, bad: Seq<char>)
    requires
        is_host(host),
        bad.len() > 0,
        forall|i: int|
            0 <= i < bad.len() ==> #[trigger] bad[i] != ':' && bad[i] != '/' && !Class::Space.holds(
                bad[i],
            ) && !(48 <= bad[i] as u32 <= 57) && bad[i] != '+',
    ensures
        ({
            let full = host + seq![':'] + decimal(port as nat);
            let hop = HopView::Http { host, port };
            &&& http_hop_of(full) == Ok::<HopView, ErrorView>(hop)
            &&& http_hop_of("http://"@ + full) == Ok::<HopView, ErrorView>(hop)
            &&& http_hop_of("https://"@ + full) == Ok::<HopView, ErrorView>(hop)
            &&& http_hop_of(host) == Ok::<HopView, ErrorView>(HopView::Http { host, port: 80 })
            &&& http_hop_of(host + seq![':'] + bad) == Err::<HopView, ErrorView>(
                ErrorView::Http("invalid proxy address "@ + debug_quoted(host + seq![':'] + bad)),
            )
        }),
{
    let full = host + seq![':'] + decimal(port as nat);
    let h = "http://"@;
    let hs = "https://"@;
    reveal_strlit("http://");
    reveal_strlit("https://");
    lemma_full_address(host, port);
    lemma_trim_plain(full);
    lemma_no_slash(full);
    lemma_trim_plain(h + full);
    lemma_trim_plain(hs + full);
    copies_are_stripped(full, h);
    copies_are_stripped(full, hs);
    assert(!h.is_prefix_of(hs + full)) by {
        if h.is_prefix_of(hs + full) {
            assert((hs + full).subrange(0, 7)[4] == ':');
            assert((hs + full)[4] == 's');
        }
    }
    copies_are_stripped(hs + full, h);
    lemma_trim_plain(host);
    lemma_no_slash(host);
    port_has_to_be_a_number(host, bad);
    assert(!includes(host, Class::One(':')));
    let b = host + seq![':'] + bad;
    crate::number::numbers_up_to_a_bound(0, 65535, bad);
    assert(!(48 <= bad[0] as u32 <= 57));
    assert forall|i: int| 0 <= i < b.len() implies #[trigger] b[i] != '/' by {
        if i < host.len() {
            assert(b[i] == host[i]);
        } else if i > host.len() {
            assert(b[i] == bad[i - host.len() - 1]);
        }
    }
    assert(b.last() == bad[bad.len() - 1]);
    assert(b[0] == host[0]);
    lemma_trim_plain(b);
    lemma_no_slash(b);
    assert(Class::One(':').holds(b[host.len() as int]));
}

proof fn lemma_one_entry(t: Seq<char>, pac: bool)
    requires
        forall|i: int| 0 <= i < t.len() ==> #[trigger] t[i] != ';',
    ensures
        cut(t, Class::One(';')) == seq![t],
        entries(seq![t], pac) == match entry(t, pac) {
            Ok(Some(h)) => Ok::<Seq<HopView>, ErrorView>(seq![h]),
            Ok(None) => Ok(Seq::empty()),
            Err(e) => Err(e),
        },
{
    text_is_cut_at_its_marks(t, ';', Seq::empty(), Class::One(';'));
    assert(seq![t].drop_first() == Seq::<Seq<char>>::empty());
    assert(entries(Seq::<Seq<char>>::empty(), pac) == Ok::<Seq<HopView>, ErrorView>(Seq::empty()));
    if let Ok(Some(h)) = entry(t, pac) {
        assert(seq![h] + Seq::<HopView>::empty() == seq![h]);
    }
}

proof fn lemma_token(word: Seq<char>, c: char, rest: Seq<char>)
    requires
        word.len() > 0,
        forall|i: int| 0 <= i < word.len() ==> !Class::Space.holds(#[trigger] word[i]),
        Class::Space.holds(c),
        rest.len() > 0,
        !Class::Space.holds(rest[0]),
        !Class::Space.holds(rest.last()),
    ensures
        trim(word + seq![c] + rest) == word + seq![c] + rest,
        before(word + seq![c] + rest, Class::Space) == word,
        trim(after(word + seq![c] + rest, Class::Space)) == rest,
        trim(word) == word,
        before(word, Class::Space) == word,
        after(word, Class::Space) == Seq::<char>::empty(),
        trim(after(word, Class::Space)) == Seq::<char>::empty(),
{
    let t = word + seq![c] + rest;
    text_is_cut_at_its_marks(word, c, rest, Class::Space);
    assert(t[0] == word[0] && t.last() == rest.last());
    assert(!Class::Space.holds(word[0]) && !Class::Space.holds(word[word.len() - 1]));
    lemma_trim_plain(t);
    lemma_trim_plain(rest);
    lemma_trim_plain(word);
    lemma_trim_plain(Seq::empty());
}

proof fn lemma_is_keyword(word: Seq<char>, key: Seq<char>)
    requires
        same_word(word, key),
        key.len() > 0,
        forall|i: int|
            0 <= i < key.len() ==> 'A' <= #[trigger] key[i] <= 'Z' || '0' <= key[i] <= '9',
    ensures
        upper(word) == key,
        word.len() == key.len(),
        forall|i: int|
            0 <= i < word.len() ==> !Class::Space.holds(#[trigger] word[i]) && word[i] != ';'
                && word[i] != ':',
{
    lemma_capitals(word, key);
    assert(upper(key) == key);
    assert(upper(word).len() == word.len());
    assert forall|i: int| 0 <= i < word.len() implies !Class::Space.holds(#[trigger] word[i])
        && word[i] != ';' && word[i] != ':' by {
        assert(upper(word)[i] == key[i]);
    }
}

/// A PAC answer of a keyword and an address goes through that proxy: `PROXY`,
/// `HTTP` or `HTTPS`, in capitals or small letters, and any white space after
/// it.
pub proof fn keyword_names_the_proxy(word: Seq<char>, c: char, host: Seq<char>, port: u16)
    requires
        same_word(word, "PROXY"@) || same_word(word, "HTTP"@) || same_word(word, "HTTPS"@),
        Class::Space.holds(c),
        is_host(host),
    ensures
        pac_of(word + seq![c] + (host + seq![':'] + decimal(port as nat))) == Ok::<
            Seq<HopView>,
            ErrorView,
        >(seq![HopView::Http { host, port }]),
        pac_of(word + seq![c] + host) == Ok::<Seq<HopView>, ErrorView>(
            seq![HopView::Http { host, port: 80 }],
        ),
{
    reveal_strlit("PROXY");
    reveal_strlit("HTTP");
    reveal_strlit("HTTPS");
    reveal_strlit("DIRECT");
    let key = if same_word(word, "PROXY"@) {
        "PROXY"@
    } else if same_word(word, "HTTP"@) {
        "HTTP"@
    } else {
        "HTTPS"@
    };
    let full = host + seq![':'] + decimal(port as nat);
    lemma_is_keyword(word, key);
    lemma_full_address(host, port);
    address_names_the_proxy(host, port, seq!['x']);
    lemma_token(word, c, full);
    lemma_token(word, c, host);
    assert(key[0] != 'D' && key != "DIRECT"@) by {
        assert("DIRECT"@[0] == 'D');
    }
    lemma_proxy_token(word, c, full, key);
    lemma_proxy_token(word, c, host, key);
}

proof fn lemma_proxy_token(word: Seq<char>, c: char, address: Seq<char>, key: Seq<char>)
    requires
        upper(word) == key,
        key == "PROXY"@ || key == "HTTP"@ || key == "HTTPS"@,
        key != "DIRECT"@,
        word.len() > 0,
        forall|i: int| 0 <= i < word.len() ==> #[trigger] word[i] != ';',
        Class::Space.holds(c),
        forall|i: int| 0 <= i < address.len() ==> #[trigger] address[i] != ';',
        trim(word + seq![c] + address) == word + seq![c] + address,
        before(word + seq![c] + address, Class::Space) == word,
        trim(after(word + seq![c] + address, Class::Space)) == address,
        http_hop_of(address) is Ok,
    ensures
        pac_of(word + seq![c] + address) == Ok::<Seq<HopView>, ErrorView>(
            seq![http_hop_of(address)->Ok_0],
        ),
{
    let t = word + seq![c] + address;
    assert forall|i: int| 0 <= i < t.len() implies #[trigger] t[i] != ';' by {
        if i < word.len() {
            assert(t[i] == word[i]);
        } else if i > word.len() {
            assert(t[i] == address[i - word.len() - 1]);
        }
    }
    lemma_one_entry(t, true);
}

/// `DIRECT` goes straight, in capitals or small letters, and so does a list
/// that names nothing.
pub proof fn direct_goes_straight(word: Seq<char>, blank: Seq<char>)
    requires
        same_word(word, "DIRECT"@),
        forall|i: int|
            0 <= i < blank.len() ==> Class::Space.holds(#[trigger] blank[i]),
    ensures
        pac_of(word) == Ok::<Seq<HopView>, ErrorView>(seq![HopView::Direct]),
        pac_of(blank) == Ok::<Seq<HopView>, ErrorView>(seq![HopView::Direct]),
        ie_of(blank) == Ok::<Seq<HopView>, ErrorView>(seq![HopView::Direct]),
{
    reveal_strlit("DIRECT");
    let none = Seq::<char>::empty();
    lemma_is_keyword(word, "DIRECT"@);
    lemma_token(word, ' ', seq!['x']);
    lemma_one_entry(word, true);
    trimming_leaves_the_middle(blank, none, none, Class::Space);
    assert(blank + none + none == blank);
    assert forall|i: int| 0 <= i < blank.len() implies #[trigger] blank[i] != ';' by {
        assert(Class::Space.holds(blank[i]));
    }
    lemma_one_entry(blank, true);
}

/// SOCKS proxies are skipped: such an entry names nothing.
pub proof fn socks_names_nothing(word: Seq<char>, c: char, address: Seq<char>)
    requires
        same_word(word, "SOCKS"@) || same_word(word, "SOCKS4"@) || same_word(word, "SOCKS5"@),
        Class::Space.holds(c),
        address.len() > 0,
        forall|i: int|
            0 <= i < address.len() ==> #[trigger] address[i] != ';' && !Class::Space.holds(
                address[i],
            ),
    ensures
        entries(cut(word + seq![c] + address, Class::One(';')), true) == Ok::<
            Seq<HopView>,
            ErrorView,
        >(Seq::empty()),
        pac_of(word + seq![c] + address) == Ok::<Seq<HopView>, ErrorView>(seq![HopView::Direct]),
{
    reveal_strlit("SOCKS");
    reveal_strlit("SOCKS4");
    reveal_strlit("SOCKS5");
    reveal_strlit("DIRECT");
    reveal_strlit("PROXY");
    reveal_strlit("HTTP");
    reveal_strlit("HTTPS");
    let key = if same_word(word, "SOCKS"@) {
        "SOCKS"@
    } else if same_word(word, "SOCKS4"@) {
        "SOCKS4"@
    } else {
        "SOCKS5"@
    };
    lemma_is_keyword(word, key);
    assert(!Class::Space.holds(address[0]) && !Class::Space.holds(address[address.len() - 1]));
    lemma_token(word, c, address);
    assert(key[0] == 'S');
    assert("DIRECT"@[0] == 'D' && "PROXY"@[0] == 'P' && "HTTP"@[0] == 'H' && "HTTPS"@[0] == 'H');
    let t = word + seq![c] + address;
    assert forall|i: int| 0 <= i < t.len() implies #[trigger] t[i] != ';' by {
        if i < word.len() {
            assert(t[i] == word[i]);
        } else if i > word.len() {
            assert(t[i] == address[i - word.len() - 1]);
        }
    }
    lemma_one_entry(t, true);
}

/// An address without a keyword is a proxy too, and a word that is neither an
/// address nor a keyword makes the answer invalid.
pub proof fn words_without_keyword(host: Seq<char>, port: u16)
    requires
        is_host(host),
        !same_word(host, "DIRECT"@),
        !same_word(host, "PROXY"@),
        !same_word(host, "HTTP"@),
        !same_word(host, "HTTPS"@),
        !same_word(host, "SOCKS"@),
        !same_word(host, "SOCKS4"@),
        !same_word(host, "SOCKS5"@),
    ensures
        pac_of(host + seq![':'] + decimal(port as nat)) == Ok::<Seq<HopView>, ErrorView>(
            seq![HopView::Http { host, port }],
        ),
        pac_of(host) == Err::<Seq<HopView>, ErrorView>(
            ErrorView::Http("unknown PAC token "@ + debug_quoted(host)),
        ),
{
    reveal_strlit("DIRECT");
    reveal_strlit("PROXY");
    reveal_strlit("HTTP");
    reveal_strlit("HTTPS");
    reveal_strlit("SOCKS");
    reveal_strlit("SOCKS4");
    reveal_strlit("SOCKS5");
    let full = host + seq![':'] + decimal(port as nat);
    lemma_full_address(host, port);
    address_names_the_proxy(host, port, seq!['x']);
    lemma_token(full, ' ', seq!['x']);
    lemma_token(host, ' ', seq!['x']);
    lemma_one_entry(full, true);
    lemma_one_entry(host, true);
    lemma_no_keyword(host);
    lemma_colon_stays(full, host.len() as int);
    assert forall|i: int| 0 <= i < upper(host).len() implies !Class::One(':').holds(
        #[trigger] upper(host)[i],
    ) by {
        assert(host[i] != ':');
    }
    assert(!includes(upper(host), Class::One(':')));
    assert(!includes(Seq::<char>::empty(), Class::One(':')));
}

proof fn lemma_colon_stays(s: Seq<char>, i: int)
    requires
        0 <= i < s.len(),
        s[i] == ':',
    ensures
        includes(upper(s), Class::One(':')),
        upper(s) != "DIRECT"@,
        upper(s) != "PROXY"@,
        upper(s) != "HTTP"@,
        upper(s) != "HTTPS"@,
        upper(s) != "SOCKS"@,
        upper(s) != "SOCKS4"@,
        upper(s) != "SOCKS5"@,
{
    reveal_strlit("DIRECT");
    reveal_strlit("PROXY");
    reveal_strlit("HTTP");
    reveal_strlit("HTTPS");
    reveal_strlit("SOCKS");
    reveal_strlit("SOCKS4");
    reveal_strlit("SOCKS5");
    assert(upper(s)[i] == ':');
    assert(Class::One(':').holds(upper(s)[i]));
    let k = Class::One(':');
    assert(!includes("DIRECT"@, k) && !includes("PROXY"@, k) && !includes("HTTP"@, k));
    assert(!includes("HTTPS"@, k) && !includes("SOCKS"@, k) && !includes("SOCKS4"@, k));
    assert(!includes("SOCKS5"@, k));
}

proof fn lemma_no_keyword(s: Seq<char>)
    requires
        !same_word(s, "DIRECT"@),
        !same_word(s, "PROXY"@),
        !same_word(s, "HTTP"@),
        !same_word(s, "HTTPS"@),
        !same_word(s, "SOCKS"@),
        !same_word(s, "SOCKS4"@),
        !same_word(s, "SOCKS5"@),
    ensures
        upper(s) != "DIRECT"@,
        upper(s) != "PROXY"@,
        upper(s) != "HTTP"@,
        upper(s) != "HTTPS"@,
        upper(s) != "SOCKS"@,
        upper(s) != "SOCKS4"@,
        upper(s) != "SOCKS5"@,
{
    reveal_strlit("DIRECT");
    reveal_strlit("PROXY");
    reveal_strlit("HTTP");
    reveal_strlit("HTTPS");
    reveal_strlit("SOCKS");
    reveal_strlit("SOCKS4");
    reveal_strlit("SOCKS5");
    lemma_capitals(s, "DIRECT"@);
    lemma_capitals(s, "PROXY"@);
    lemma_capitals(s, "HTTP"@);
    lemma_capitals(s, "HTTPS"@);
    lemma_capitals(s, "SOCKS"@);
    lemma_capitals(s, "SOCKS4"@);
    lemma_capitals(s, "SOCKS5"@);
    assert(upper("DIRECT"@) == "DIRECT"@);
    assert(upper("PROXY"@) == "PROXY"@);
    assert(upper("HTTP"@) == "HTTP"@);
    assert(upper("HTTPS"@) == "HTTPS"@);
    assert(upper("SOCKS"@) == "SOCKS"@);
    assert(upper("SOCKS4"@) == "SOCKS4"@);
    assert(upper("SOCKS5"@) == "SOCKS5"@);
}

/// The hops of a system proxy list stand in the order of its entries, which a
/// `;`, a space or a tab parts.
pub proof fn system_list_is_parted_by_gaps(a: Seq<char>, c: char, b: Seq<char>)
    requires
        c == ';' || c == ' ' || c == '\t',
        forall|i: int|
            0 <= i < a.len() ==> #[trigger] a[i] != ';' && a[i] != ' ' && a[i] != '\t',
    ensures
        entries(cut(a + seq![c] + b, Class::Gap), false) == match entries(seq![a], false) {
            Ok(hops) => put_all(hops, entries(cut(b, Class::Gap), false)),
            Err(e) => Err(e),
        },
{
    assert forall|i: int| 0 <= i < a.len() implies !Class::Gap.holds(#[trigger] a[i]) by {
        assert(a[i] != ';');
    }
    text_is_cut_at_its_marks(a, c, b, Class::Gap);
    entries_chain(seq![a], cut(b, Class::Gap), false);
}

/// An entry of a system proxy list is an address, after a scheme and a `=` or
/// without them; an empty one names nothing.
pub proof fn system_entry_names_the_proxy(scheme: Seq<char>, host: Seq<char>, port: u16)
    requires
        is_host(host),
        scheme.len() > 0,
        forall|i: int|
            0 <= i < scheme.len() ==> #[trigger] scheme[i] != '=' && scheme[i] != ';'
                && !Class::Space.holds(scheme[i]),
    ensures
        ({
            let full = host + seq![':'] + decimal(port as nat);
            let hop = HopView::Http { host, port };
            &&& entries(seq![full], false) == Ok::<Seq<HopView>, ErrorView>(seq![hop])
            &&& entries(seq![scheme + seq!['='] + full], false) == Ok::<Seq<HopView>, ErrorView>(
                seq![hop],
            )
            &&& entries(seq![host], false) == Ok::<Seq<HopView>, ErrorView>(
                seq![HopView::Http { host, port: 80 }],
            )
            &&& entries(seq![scheme + seq!['=']], false) == Ok::<Seq<HopView>, ErrorView>(
                Seq::empty(),
            )
            &&& entries(seq![Seq::<char>::empty()], false) == Ok::<Seq<HopView>, ErrorView>(
                Seq::empty(),
            )
        }),
{
    let full = host + seq![':'] + decimal(port as nat);
    let none = Seq::<char>::empty();
    let k = Class::One('=');
    lemma_full_address(host, port);
    address_names_the_proxy(host, port, seq!['x']);
    lemma_trim_plain(full);
    lemma_trim_plain(host);
    lemma_trim_plain(none);
    let t = scheme + seq!['='] + full;
    let u = scheme + seq!['='];
    assert(!Class::Space.holds(scheme[0]));
    assert(t[0] == scheme[0] && t.last() == full.last());
    assert(!Class::Space.holds(full[full.len() - 1]));
    lemma_trim_plain(t);
    assert(u[0] == scheme[0]);
    lemma_trim_plain(u);
    text_is_cut_at_its_marks(scheme, '=', full, k);
    text_is_cut_at_its_marks(scheme, '=', none, k);
    assert(u + none == u);
    assert(!includes(full, k));
    assert(!includes(host, k));
    lemma_one_entry(full, false);
    lemma_one_entry(host, false);
    lemma_one_entry(none, false);
    assert forall|i: int| 0 <= i < t.len() implies #[trigger] t[i] != ';' by {
        if i < scheme.len() {
            assert(t[i] == scheme[i]);
        } else if i > scheme.len() {
            assert(t[i] == full[i - scheme.len() - 1]);
        }
    }
    assert forall|i: int| 0 <= i < u.len() implies #[trigger] u[i] != ';' by {
        if i < scheme.len() {
            assert(u[i] == scheme[i]);
        }
    }
    lemma_one_entry(t, false);
    lemma_one_entry(u, false);
}

/// A system proxy list is read as a PAC answer where the letters of `DIRECT`, or
/// of `PROXY` with a space behind, stand anywhere in it, unless it gives the
/// proxies by scheme; and otherwise entry by entry.
pub proof fn system_list_with_keywords_is_a_pac_answer(t: Seq<char>)
    requires
        t.len() > 0,
        !Class::Space.holds(t[0]),
        !Class::Space.holds(t.last()),
    ensures
        ({
            let key = exists|i: int|
                0 <= i && i + 6 <= t.len() && (same_word(#[trigger] t.subrange(i, i + 6), "DIRECT"@)
                    || same_word(t.subrange(i, i + 6), "PROXY "@));
            &&& key && !is_scheme_map(t) ==> ie_of(t) == pac_of(t)
            &&& !key || is_scheme_map(t) ==> ie_of(t) == match entries(
                cut(t, Class::Gap),
                false,
            ) {
                Ok(hops) => if hops.len() == 0 {
                    Ok::<Seq<HopView>, ErrorView>(seq![HopView::Direct])
                } else {
                    Ok(hops)
                },
                Err(e) => Err(e),
            }
        }),
{
    lemma_trim_plain(t);
    reveal_strlit("DIRECT");
    reveal_strlit("PROXY ");
    let u = upper(t);
    let d = "DIRECT"@;
    let p = "PROXY "@;
    assert(upper(d) == d && upper(p) == p);
    assert(u.len() == t.len());
    assert forall|i: int| 0 <= i && i + 6 <= t.len() implies (same_word(
        #[trigger] t.subrange(i, i + 6),
        d,
    ) <==> d.is_prefix_of(u.skip(i))) && (same_word(t.subrange(i, i + 6), p) <==> p.is_prefix_of(
        u.skip(i),
    )) by {
        let w = t.subrange(i, i + 6);
        lemma_capitals(w, d);
        lemma_capitals(w, p);
        assert(upper(w) == u.skip(i).subrange(0, 6));
    }
    if has_keyword(t) {
        let w = if occurs(u, d) {
            d
        } else {
            p
        };
        let i = choose|i: int| 0 <= i <= u.len() && w.is_prefix_of(#[trigger] u.skip(i));
        assert(i + 6 <= t.len());
        assert(same_word(t.subrange(i, i + 6), w));
    }
    if exists|i: int|
        0 <= i && i + 6 <= t.len() && (same_word(#[trigger] t.subrange(i, i + 6), d) || same_word(
            t.subrange(i, i + 6),
            p,
        )) {
        let i = choose|i: int|
            0 <= i && i + 6 <= t.len() && (same_word(#[trigger] t.subrange(i, i + 6), d)
                || same_word(t.subrange(i, i + 6), p));
        assert(d.is_prefix_of(u.skip(i)) || p.is_prefix_of(u.skip(i)));
        assert(occurs(u, d) || occurs(u, p));
    }
}

/// A hop is shown as `DIRECT`, or as its host, a colon and its port.
pub proof fn hop_is_shown_with_its_port(host: Seq<char>, port: u16)
    ensures
        (HopView::Direct).text() == "DIRECT"@,
        (HopView::Http { host, port }).text() == host + seq![':'] + decimal(port as nat),
{
    reveal_strlit(":");
    assert(":"@ == seq![':']);
}

/// One list after another: the hops of the second follow those of the first,
/// and a fault of the first is the fault of both.
pub proof fn lists_are_put_together(a: Seq<HopView>, b: Result<Seq<HopView>, ErrorView>)
    ensures
        put_all(a, b) == match b {
            Ok(hops) => Ok::<Seq<HopView>, ErrorView>(a + hops),
            Err(e) => Err(e),
        },
{
}

/// A list gives the proxies by scheme where each of its entries between
/// semicolons, white space around it aside, is empty or is a scheme, `=`, and a
/// host with a port, without white space.
pub proof fn list_by_scheme_has_schemes_throughout(parts: Seq<Seq<char>>)
    requires
        parts.len() > 0,
        forall|i: int, j: int|
            0 <= i < parts.len() && 0 <= j < parts[i].len() ==> #[trigger] parts[i][j] != ';',
    ensures
        is_scheme_map(joined(parts, seq![';'])) <==> forall|i: int|
            0 <= i < parts.len() ==> {
                let e = trim(#[trigger] parts[i]);
                ||| e.len() == 0
                ||| {
                    &&& exists|j: int|
                        #![trigger e[j]]
                        0 < j < e.len() && e[j] == '=' && host_port_of(e.skip(j + 1)) is Some && (
                        forall|m: int| 0 <= m < j ==> #[trigger] e[m] != '=')
                    &&& forall|j: int| 0 <= j < e.len() ==> !Class::Space.holds(#[trigger] e[j])
                }
            },
{
    joined_texts_are_cut_again(parts, ';');
    assert forall|i: int| 0 <= i < parts.len() implies scheme_entry(#[trigger] parts[i]) == ({
        let e = trim(parts[i]);
        ||| e.len() == 0
        ||| {
            &&& exists|j: int|
                #![trigger e[j]]
                0 < j < e.len() && e[j] == '=' && host_port_of(e.skip(j + 1)) is Some && (forall|
                    m: int,
                |
                    0 <= m < j ==> #[trigger] e[m] != '=')
            &&& forall|j: int| 0 <= j < e.len() ==> !Class::Space.holds(#[trigger] e[j])
        }
    }) by {
        lemma_scheme_entry(parts[i]);
    }
}

proof fn lemma_scheme_entry(part: Seq<char>)
    ensures
        scheme_entry(part) == ({
            let e = trim(part);
            ||| e.len() == 0
            ||| {
                &&& exists|j: int|
                    #![trigger e[j]]
                    0 < j < e.len() && e[j] == '=' && host_port_of(e.skip(j + 1)) is Some && (
                    forall|m: int| 0 <= m < j ==> #[trigger] e[m] != '=')
                &&& forall|j: int| 0 <= j < e.len() ==> !Class::Space.holds(#[trigger] e[j])
            }
        }),
{
    let e = trim(part);
    let k = Class::One('=');
    lemma_first_at(e, k);
    let i = first_at(e, k);
    if scheme_entry(part) && e.len() > 0 {
        assert(e[i] == '=');
        assert(after(e, k) == e.skip(i + 1));
        assert forall|m: int| 0 <= m < i implies #[trigger] e[m] != '=' by {
            assert(!k.holds(e[m]));
        }
    }
    if exists|j: int|
        #![trigger e[j]]
        0 < j < e.len() && e[j] == '=' && host_port_of(e.skip(j + 1)) is Some && (forall|m: int|
            0 <= m < j ==> #[trigger] e[m] != '=') {
        let j = choose|j: int|
            #![trigger e[j]]
            0 < j < e.len() && e[j] == '=' && host_port_of(e.skip(j + 1)) is Some && (forall|m: int|
                0 <= m < j ==> #[trigger] e[m] != '=');
        assert(k.holds(e[j]));
        if i < j {
            assert(e[i] != '=');
        }
        assert(i == j);
        assert(includes(e, k));
    }
}

} // verus!
