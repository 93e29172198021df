//! IP addresses and socket addresses in text.
use crate::number::{
    decimal, digits, digits_read_back, digits_up_to, lemma_digits_are_digits,
    lemma_lower_numeral, lemma_numeral_digits, numeral_is_written_back, push_decimal, push_digits, read_digits,
    small_digit,
};
use crate::text::{
    after, before, contains, cut, cut_at, cut_text_joins, find_first, find_text, includes, joined,
    lemma_cut_front, lemma_cut_whole, lemma_first_at, lemma_includes_chain, lemma_lower_cut,
    lemma_lower_places, lemma_place_of, lower, lower_each, pieces, place_of, same_word, Class,
};
use vstd::arithmetic::power::pow;
use vstd::prelude::*;
use vstd::slice::slice_subrange;

verus! {

/// An IP address: its bits, the first octet being the highest.
#[derive(Clone, Copy, Debug, PartialEq, Eq, Structural)]
pub enum IpAddr {
    V4(u32),
    V6(u128),
}

/// An IP address with a port, and the scope and the flow that an IPv6 address
/// is bound to.
#[derive(Clone, Copy, Debug, PartialEq, Eq, Structural)]
pub struct SocketAddr {
    pub ip: IpAddr,
    pub port: u16,
    pub scope: u32,
    pub flow: u32,
}

/// One to three decimal digits, without a leading zero, of at most 255.
pub open spec fn octet_of(s: Seq<char>) -> Option<nat> {
    if s.len() > 3 || s.len() > 1 && s[0] == '0' {
        None
    } else {
        digits_up_to(s, 10, 255)
    }
}

/// Four octets with dots between them.
pub open spec fn ipv4_of(s: Seq<char>) -> Option<u32> {
    let p = cut(s, Class::One('.'));
    if p.len() != 4 {
        None
    } else {
        match (octet_of(p[0]), octet_of(p[1]), octet_of(p[2]), octet_of(p[3])) {
            (Some(a), Some(b), Some(c), Some(d)) => Some(
                (((a * 256 + b) * 256 + c) * 256 + d) as u32,
            ),
            _ => None,
        }
    }
}

/// One to four hexadecimal digits.
pub open spec fn hextet_of(s: Seq<char>) -> Option<u16> {
    if s.len() > 4 {
        None
    } else {
        match digits_up_to(s, 16, 65535) {
            Some(v) => Some(v as u16),
            None => None,
        }
    }
}

/// The groups that the pieces `p` write: one for each piece, but two for a
/// last piece that is an IPv4 address.
pub open spec fn groups_of(p: Seq<Seq<char>>) -> Option<Seq<u16>>
    decreases p.len(),
{
    if p.len() == 0 {
        Some(Seq::empty())
    } else {
        match hextet_of(p[0]) {
            Some(g) => match groups_of(p.drop_first()) {
                Some(rest) => Some(seq![g] + rest),
                None => None,
            },
            None => if p.len() > 1 {
                None
            } else {
                match ipv4_of(p[0]) {
                    Some(v) => Some(seq![(v / 65536) as u16, (v % 65536) as u16]),
                    None => None,
                }
            },
        }
    }
}

/// The groups of what stands on one side of `::`; no groups where that is
/// nothing.
pub open spec fn side_of(s: Seq<char>) -> Option<Seq<u16>> {
    if s.len() == 0 {
        Some(Seq::empty())
    } else {
        groups_of(cut(s, Class::One(':')))
    }
}

/// The number whose digits in base 65536 are `g`.
pub open spec fn join(g: Seq<u16>) -> nat
    decreases g.len(),
{
    if g.len() == 0 {
        0
    } else {
        join(g.drop_last()) * 65536 + g.last() as nat
    }
}

/// `n` groups of zero.
pub open spec fn zeros(n: nat) -> Seq<u16> {
    Seq::new(n, |i: int| 0u16)
}

/// Eight groups with colons between them, or fewer around one `::`, which
/// stands for the groups of zero that are missing, at least one. The last two
/// groups may be written as an IPv4 address, but not before `::`.
pub open spec fn ipv6_of(s: Seq<char>) -> Option<u128> {
    let i = place_of(s, seq![':', ':']);
    if i < 0 {
        match side_of(s) {
            Some(g) => if g.len() == 8 {
                Some(join(g) as u128)
            } else {
                None
            },
            None => None,
        }
    } else {
        match (side_of(s.take(i)), side_of(s.skip(i + 2))) {
            (Some(g), Some(t)) => if !includes(s.take(i), Class::One('.')) && g.len() + t.len() <= 7 {
                Some(join(g + zeros((8 - g.len() - t.len()) as nat) + t) as u128)
            } else {
                None
            },
            _ => None,
        }
    }
}

/// The IP address that `s` writes.
pub open spec fn ip_of(s: Seq<char>) -> Option<IpAddr> {
    match ipv4_of(s) {
        Some(v) => Some(IpAddr::V4(v)),
        None => match ipv6_of(s) {
            Some(v) => Some(IpAddr::V6(v)),
            None => None,
        },
    }
}

/// An IPv4 address, a colon and a port.
pub open spec fn socket_v4_of(s: Seq<char>) -> Option<SocketAddr> {
    if !includes(s, Class::One(':')) {
        None
    } else {
        match (
            ipv4_of(before(s, Class::One(':'))),
            digits_up_to(after(s, Class::One(':')), 10, 65535),
        ) {
            (Some(v), Some(p)) => Some(
                SocketAddr { ip: IpAddr::V4(v), port: p as u16, scope: 0, flow: 0 },
            ),
            _ => None,
        }
    }
}

/// The address and the scope that stand between the brackets of an IPv6 socket
/// address: after the address there may be a `%` and the scope.
pub open spec fn scoped_of(s: Seq<char>) -> Option<(u128, u32)> {
    match ipv6_of(before(s, Class::One('%'))) {
        Some(v) => if !includes(s, Class::One('%')) {
            Some((v, 0u32))
        } else {
            match digits_up_to(after(s, Class::One('%')), 10, u32::MAX as nat) {
                Some(n) => Some((v, n as u32)),
                None => None,
            }
        },
        None => None,
    }
}

/// An IPv6 address in brackets, a colon and a port.
pub open spec fn socket_v6_of(s: Seq<char>) -> Option<SocketAddr> {
    let inner = before(s.skip(1), Class::One(']'));
    let rest = after(s.skip(1), Class::One(']'));
    if s.len() == 0 || s[0] != '[' || rest.len() == 0 || rest[0] != ':' {
        None
    } else {
        match (scoped_of(inner), digits_up_to(rest.skip(1), 10, 65535)) {
            (Some((v, n)), Some(p)) => Some(
                SocketAddr { ip: IpAddr::V6(v), port: p as u16, scope: n, flow: 0 },
            ),
            _ => None,
        }
    }
}

/// The socket address that `s` writes.
pub open spec fn socket_of(s: Seq<char>) -> Option<SocketAddr> {
    match socket_v4_of(s) {
        Some(a) => Some(a),
        None => socket_v6_of(s),
    }
}

/// Reads an octet.
fn read_octet(s: &[char]) -> (r: Option<u32>)
    ensures
        match r {
            Some(v) => octet_of(s@) == Some(v as nat) && v <= 255,
            None => octet_of(s@) is None,
        },
{
    if s.len() > 3 || (s.len() > 1 && s[0] == '0') {
        return None;
    }
    match read_digits(s, 10, 255) {
        Some(v) => Some(v as u32),
        None => None,
    }
}

/// Reads an IPv4 address.
pub fn read_ipv4(s: &[char]) -> (r: Option<u32>)
    ensures
        r == ipv4_of(s@),
{
    let p = cut_at(s, Class::One('.'));
    let ghost q = pieces(p@);
    if p.len() != 4 {
        return None;
    }
    assert(q[0] == p@[0]@ && q[1] == p@[1]@ && q[2] == p@[2]@ && q[3] == p@[3]@);
    match (read_octet(p[0]), read_octet(p[1]), read_octet(p[2]), read_octet(p[3])) {
        (Some(a), Some(b), Some(c), Some(d)) => Some(((a * 256 + b) * 256 + c) * 256 + d),
        _ => None,
    }
}

/// Reads a group of an IPv6 address.
fn read_hextet(s: &[char]) -> (r: Option<u16>)
    ensures
        r == hextet_of(s@),
{
    if s.len() > 4 {
        return None;
    }
    match read_digits(s, 16, 65535) {
        Some(v) => Some(v as u16),
        None => None,
    }
}

/// Reads the groups on one side of `::`.
#[verifier::spinoff_prover]
#[verifier::rlimit(60)]
fn read_side(s: &[char]) -> (r: Option<Vec<u16>>)
    ensures
        match r {
            Some(g) => side_of(s@) == Some(g@),
            None => side_of(s@) is None,
        },
{
    let mut out: Vec<u16> = Vec::new();
    if s.len() == 0 {
        return Some(out);
    }
    let p = cut_at(s, Class::One(':'));
    let ghost q = pieces(p@);
    let n: usize = p.len();
    assert(q.skip(0) == q);
    for i in 0..n
        invariant
            n == p@.len(),
            q == pieces(p@),
            side_of(s@) == groups_of(q),
            groups_of(q) == match groups_of(q.skip(i as int)) {
                Some(t) => Some(out@ + t),
                None => None,
            },
    {
        let ghost left = q.skip(i as int);
        assert(left[0] == p@[i as int]@);
        assert(left.drop_first() == q.skip(i + 1));
        let ghost done = out@;
        match read_hextet(p[i]) {
            Some(g) => {
                out.push(g);
                proof {
                    if groups_of(q.skip(i + 1)) is Some {
                        let t = groups_of(q.skip(i + 1))->0;
                        assert(done + (seq![g] + t) == out@ + t);
                    }
                }
            },
            None => {
                if i + 1 < n {
                    return None;
                }
                match read_ipv4(p[i]) {
                    Some(v) => {
                        out.push((v / 65536) as u16);
                        out.push((v % 65536) as u16);
                        assert(out@ == done + seq![(v / 65536) as u16, (v % 65536) as u16]);
                        return Some(out);
                    },
                    None => {
                        return None;
                    },
                }
            },
        }
    }
    assert(q.skip(n as int) == Seq::<Seq<char>>::empty());
    assert(out@ + Seq::<u16>::empty() == out@);
    Some(out)
}

proof fn lemma_join_bound(g: Seq<u16>)
    ensures
        join(g) < pow(65536, g.len()),
    decreases g.len(),
{
    reveal(pow);
    if g.len() > 0 {
        lemma_join_bound(g.drop_last());
        assert(pow(65536, g.len()) == 65536 * pow(65536, (g.len() - 1) as nat));
    }
}

proof fn lemma_pow_eight(n: nat)
    requires
        n <= 8,
    ensures
        pow(65536, n) <= 0x1_0000_0000_0000_0000_0000_0000_0000_0000,
        pow(65536, 8) == 0x1_0000_0000_0000_0000_0000_0000_0000_0000,
{
    reveal_with_fuel(pow, 9);
    vstd::arithmetic::power::lemma_pow_increases(65536, n, 8);
}

/// Puts groups together.
fn number_of(g: &[u16]) -> (r: u128)
    requires
        g@.len() <= 8,
    ensures
        r == join(g@),
{
    let mut v: u128 = 0;
    for i in 0..g.len()
        invariant
            g@.len() <= 8,
            v == join(g@.take(i as int)),
    {
        proof {
            assert(g@.take(i + 1).drop_last() == g@.take(i as int));
            lemma_join_bound(g@.take(i + 1));
            lemma_pow_eight((i + 1) as nat);
        }
        v = v * 65536 + g[i] as u128;
    }
    assert(g@.take(g@.len() as int) == g@);
    v
}

/// Reads an IPv6 address.
pub fn read_ipv6(s: &[char]) -> (r: Option<u128>)
    ensures
        r == ipv6_of(s@),
{
    let mut gap: Vec<char> = Vec::new();
    gap.push(':');
    gap.push(':');
    assert(gap@ == seq![':', ':'] && gap@.len() == 2);
    match find_text(s, gap.as_slice()) {
        None => match read_side(s) {
            Some(g) => if g.len() == 8 {
                Some(number_of(g.as_slice()))
            } else {
                None
            },
            None => None,
        },
        Some(i) => {
            let n: usize = s.len();
            let head = slice_subrange(s, 0, i);
            let tail = slice_subrange(s, i + 2, n);
            assert(head@ == s@.take(i as int));
            assert(tail@ == s@.skip(i + 2));
            match (read_side(head), read_side(tail)) {
                (Some(g), Some(t)) => {
                    if contains(head, Class::One('.')) || g.len() > 7 || t.len() > 7 - g.len() {
                        return None;
                    }
                    let ghost fill = (8 - g@.len() - t@.len()) as nat;
                    let mut all: Vec<u16> = Vec::new();
                    for j in 0..g.len()
                        invariant
                            all@ == g@.take(j as int),
                    {
                        all.push(g[j]);
                    }
                    assert(all@ == g@);
                    let n: usize = 8 - g.len() - t.len();
                    for j in 0..n
                        invariant
                            all@ == g@ + zeros(j as nat),
                    {
                        all.push(0);
                        assert(g@ + zeros((j + 1) as nat) == (g@ + zeros(j as nat)).push(0u16));
                    }
                    let ghost front = all@;
                    for j in 0..t.len()
                        invariant
                            all@ == front + t@.take(j as int),
                    {
                        all.push(t[j]);
                    }
                    assert(all@ == g@ + zeros(fill) + t@);
                    Some(number_of(all.as_slice()))
                },
                _ => None,
            }
        },
    }
}

/// Reads an IP address.
pub fn read_ip(s: &[char]) -> (r: Option<IpAddr>)
    ensures
        r == ip_of(s@),
{
    match read_ipv4(s) {
        Some(v) => Some(IpAddr::V4(v)),
        None => match read_ipv6(s) {
            Some(v) => Some(IpAddr::V6(v)),
            None => None,
        },
    }
}

/// Reads a socket address.
pub fn read_socket(s: &[char]) -> (r: Option<SocketAddr>)
    ensures
        r == socket_of(s@),
{
    match read_socket_v4(s) {
        Some(a) => Some(a),
        None => read_socket_v6(s),
    }
}

fn read_socket_v4(s: &[char]) -> (r: Option<SocketAddr>)
    ensures
        r == socket_v4_of(s@),
{
    proof {
        lemma_first_at(s@, Class::One(':'));
    }
    let i: usize = find_first(s, Class::One(':'));
    if i == s.len() {
        return None;
    }
    let port = slice_subrange(s, i + 1, s.len());
    let host = slice_subrange(s, 0, i);
    assert(port@ == after(s@, Class::One(':')));
    assert(host@ == before(s@, Class::One(':')));
    match (read_ipv4(host), read_digits(port, 10, 65535)) {
        (Some(v), Some(p)) => Some(
            SocketAddr { ip: IpAddr::V4(v), port: p as u16, scope: 0, flow: 0 },
        ),
        _ => None,
    }
}

fn read_scoped(s: &[char]) -> (r: Option<(u128, u32)>)
    ensures
        r == scoped_of(s@),
{
    proof {
        lemma_first_at(s@, Class::One('%'));
    }
    let i: usize = find_first(s, Class::One('%'));
    let host = slice_subrange(s, 0, i);
    assert(host@ == before(s@, Class::One('%')));
    match read_ipv6(host) {
        Some(v) => {
            if i == s.len() {
                return Some((v, 0));
            }
            let scope = slice_subrange(s, i + 1, s.len());
            assert(scope@ == after(s@, Class::One('%')));
            match read_digits(scope, 10, u32::MAX as u64) {
                Some(n) => Some((v, n as u32)),
                None => None,
            }
        },
        None => None,
    }
}

fn read_socket_v6(s: &[char]) -> (r: Option<SocketAddr>)
    ensures
        r == socket_v6_of(s@),
{
    if s.len() == 0 || s[0] != '[' {
        return None;
    }
    let open = slice_subrange(s, 1, s.len());
    assert(open@ == s@.skip(1));
    proof {
        lemma_first_at(open@, Class::One(']'));
    }
    let i: usize = find_first(open, Class::One(']'));
    if i == open.len() {
        return None;
    }
    let inner = slice_subrange(open, 0, i);
    let rest = slice_subrange(open, i + 1, open.len());
    assert(inner@ == before(open@, Class::One(']')));
    assert(rest@ == after(open@, Class::One(']')));
    if rest.len() == 0 || rest[0] != ':' {
        return None;
    }
    let port = slice_subrange(rest, 1, rest.len());
    assert(port@ == rest@.skip(1));
    match (read_scoped(inner), read_digits(port, 10, 65535)) {
        (Some((v, n)), Some(p)) => Some(
            SocketAddr { ip: IpAddr::V6(v), port: p as u16, scope: n, flow: 0 },
        ),
        _ => None,
    }
}

/// The last `n` digits of `v` in base 65536.
pub open spec fn segments(v: nat, n: nat) -> Seq<u16>
    decreases n,
{
    if n == 0 {
        Seq::empty()
    } else {
        segments(v / 65536, (n - 1) as nat).push((v % 65536) as u16)
    }
}

/// How many groups of zero stand in `g` from place `i` on.
pub open spec fn zeros_from(g: Seq<u16>, i: int) -> nat
    decreases g.len() - i,
{
    if 0 <= i < g.len() && g[i] == 0 {
        1 + zeros_from(g, i + 1)
    } else {
        0
    }
}

/// Of the places before `n`, the one from which most groups of zero stand in
/// `g`; of several, the first.
pub open spec fn widest_gap(g: Seq<u16>, n: nat) -> int
    decreases n,
{
    if n <= 1 {
        0
    } else {
        let b = widest_gap(g, (n - 1) as nat);
        if zeros_from(g, n - 1) > zeros_from(g, b) {
            n - 1
        } else {
            b
        }
    }
}

/// Groups in hexadecimal, with colons between them.
pub open spec fn hexes(g: Seq<u16>) -> Seq<char>
    decreases g.len(),
{
    if g.len() == 0 {
        Seq::empty()
    } else if g.len() == 1 {
        digits(g[0] as nat, 16)
    } else {
        hexes(g.drop_last()).push(':') + digits(g.last() as nat, 16)
    }
}

/// An IPv4 address in text: four decimal octets with dots between them.
pub open spec fn ipv4_text(v: nat) -> Seq<char> {
    decimal(v / 0x100_0000).push('.') + decimal(v / 0x1_0000 % 256).push('.') + decimal(
        v / 0x100 % 256,
    ).push('.') + decimal(v % 256)
}

/// Whether an IPv6 address stands for an IPv4 address.
pub open spec fn is_mapped(v: nat) -> bool {
    v / 0x1_0000_0000 == 0xffff
}

/// An IPv6 address in text: its groups in hexadecimal, where the longest run of
/// two or more groups of zero, the first of several, is written `::`. An
/// address that stands for an IPv4 address ends in that address.
pub open spec fn ipv6_text(v: nat) -> Seq<char> {
    let g = segments(v, 8);
    let i = widest_gap(g, 8);
    let n = zeros_from(g, i);
    if is_mapped(v) {
        seq![':', ':', 'f', 'f', 'f', 'f', ':'] + ipv4_text(v % 0x1_0000_0000)
    } else if n > 1 {
        hexes(g.take(i)) + seq![':', ':'] + hexes(g.skip(i + n))
    } else {
        hexes(g)
    }
}

impl IpAddr {
    /// The address in text.
    pub open spec fn text(self) -> Seq<char> {
        match self {
            IpAddr::V4(v) => ipv4_text(v as nat),
            IpAddr::V6(v) => ipv6_text(v as nat),
        }
    }

    /// The address in text.
    pub fn display(&self) -> (r: String)
        ensures
            r@ == self.text(),
    {
        let mut out = String::new();
        match *self {
            IpAddr::V4(v) => push_ipv4(&mut out, v),
            IpAddr::V6(v) => push_ipv6(&mut out, v),
        }
        out
    }

    /// Whether the address is one of the machine's own: `127.0.0.0/8` or `::1`.
    pub fn is_loopback(&self) -> (r: bool)
        ensures
            r == match *self {
                IpAddr::V4(v) => v / 0x100_0000 == 127,
                IpAddr::V6(v) => v == 1,
            },
    {
        match *self {
            IpAddr::V4(v) => v / 0x100_0000 == 127,
            IpAddr::V6(v) => v == 1,
        }
    }
}

impl SocketAddr {
    /// The socket address in text.
    pub open spec fn text(self) -> Seq<char> {
        match self.ip {
            IpAddr::V4(v) => ipv4_text(v as nat).push(':') + decimal(self.port as nat),
            IpAddr::V6(v) => {
                let scope = if self.scope == 0 {
                    Seq::<char>::empty()
                } else {
                    seq!['%'] + decimal(self.scope as nat)
                };
                seq!['['] + ipv6_text(v as nat) + scope + seq![']', ':'] + decimal(self.port as nat)
            },
        }
    }

    /// The socket address in text.
    pub fn display(&self) -> (r: String)
        ensures
            r@ == self.text(),
    {
        let mut out = String::new();
        match self.ip {
            IpAddr::V4(v) => {
                push_ipv4(&mut out, v);
                out.push(':');
                push_decimal(&mut out, self.port as u64);
                assert(out@ == self.text());
            },
            IpAddr::V6(v) => {
                out.push('[');
                push_ipv6(&mut out, v);
                if self.scope != 0 {
                    out.push('%');
                    push_decimal(&mut out, self.scope as u64);
                }
                out.push(']');
                out.push(':');
                push_decimal(&mut out, self.port as u64);
                assert(out@ == self.text());
            },
        }
        out
    }
}

fn push_ipv4(out: &mut String, v: u32)
    ensures
        final(out)@ == old(out)@ + ipv4_text(v as nat),
{
    push_decimal(out, (v / 0x100_0000) as u64);
    out.push('.');
    push_decimal(out, (v / 0x1_0000 % 256) as u64);
    out.push('.');
    push_decimal(out, (v / 0x100 % 256) as u64);
    out.push('.');
    push_decimal(out, (v % 256) as u64);
    assert(out@ == old(out)@ + ipv4_text(v as nat));
}

fn push_hexes(out: &mut String, g: &[u16])
    ensures
        final(out)@ == old(out)@ + hexes(g@),
{
    assert(out@ == old(out)@ + hexes(g@.take(0)));
    for i in 0..g.len()
        invariant
            out@ == old(out)@ + hexes(g@.take(i as int)),
    {
        let ghost t = g@.take(i + 1);
        assert(t.drop_last() == g@.take(i as int));
        if i > 0 {
            out.push(':');
        }
        push_digits(out, g[i] as u64, 16);
        assert(out@ == old(out)@ + hexes(t));
    }
    assert(g@.take(g@.len() as int) == g@);
}

fn push_segments(out: &mut Vec<u16>, v: u128, n: usize)
    ensures
        final(out)@ == old(out)@ + segments(v as nat, n as nat),
    decreases n,
{
    if n > 0 {
        push_segments(out, v / 65536, n - 1);
        out.push((v % 65536) as u16);
        assert(out@ == old(out)@ + segments(v as nat, n as nat));
    }
}

fn count_zeros(g: &[u16], i: usize) -> (r: usize)
    requires
        i <= g@.len(),
    ensures
        r == zeros_from(g@, i as int),
        i + r <= g@.len(),
    decreases g@.len() - i,
{
    if i < g.len() && g[i] == 0 {
        1 + count_zeros(g, i + 1)
    } else {
        0
    }
}

proof fn lemma_segments_len(v: nat, n: nat)
    ensures
        segments(v, n).len() == n,
    decreases n,
{
    if n > 0 {
        lemma_segments_len(v / 65536, (n - 1) as nat);
    }
}

fn push_ipv6(out: &mut String, v: u128)
    ensures
        final(out)@ == old(out)@ + ipv6_text(v as nat),
{
    if v / 0x1_0000_0000 == 0xffff {
        out.push(':');
        out.push(':');
        out.push('f');
        out.push('f');
        out.push('f');
        out.push('f');
        out.push(':');
        push_ipv4(out, (v % 0x1_0000_0000) as u32);
        assert(out@ == old(out)@ + ipv6_text(v as nat));
        return;
    }
    let mut g: Vec<u16> = Vec::new();
    push_segments(&mut g, v, 8);
    proof {
        lemma_segments_len(v as nat, 8);
        assert(g@ == segments(v as nat, 8));
    }
    let mut best: usize = 0;
    let mut width: usize = count_zeros(g.as_slice(), 0);
    for i in 1..8
        invariant
            g@.len() == 8,
            best < 8,
            best == widest_gap(g@, i as nat),
            width == zeros_from(g@, best as int),
            best + width <= 8,
    {
        let n: usize = count_zeros(g.as_slice(), i);
        if n > width {
            best = i;
            width = n;
        }
    }
    if width > 1 {
        let head = slice_subrange(g.as_slice(), 0, best);
        let tail = slice_subrange(g.as_slice(), best + width, 8);
        assert(head@ == g@.take(best as int));
        assert(tail@ == g@.skip(best + width));
        push_hexes(out, head);
        out.push(':');
        out.push(':');
        push_hexes(out, tail);
        assert(out@ == old(out)@ + ipv6_text(v as nat));
    } else {
        push_hexes(out, g.as_slice());
    }
}

proof fn lemma_octet(s: Seq<char>)
    requires
        octet_of(s) is Some,
    ensures
        decimal(octet_of(s)->0) == s,
        octet_of(s)->0 <= 255,
{
    let n = octet_of(s)->0;
    assert forall|i: int| 0 <= i < s.len() implies !('A' <= #[trigger] s[i] <= 'F') by {
        lemma_numeral_digits(s, 10, i);
    }
    numeral_is_written_back(s, n, 10);
}

proof fn lemma_octets(v: nat, a: nat, b: nat, c: nat, d: nat)
    requires
        a < 256,
        b < 256,
        c < 256,
        d < 256,
        v == ((a * 256 + b) * 256 + c) * 256 + d,
    ensures
        v / 0x100_0000 == a,
        v / 0x1_0000 % 256 == b,
        v / 0x100 % 256 == c,
        v % 256 == d,
        v < 0x1_0000_0000,
{
}

/// An IPv4 address that was read is written as it stood.
pub proof fn ipv4_is_written_back(s: Seq<char>)
    requires
        ipv4_of(s) is Some,
    ensures
        ipv4_text(ipv4_of(s)->0 as nat) == s,
{
    let p = cut(s, Class::One('.'));
    cut_text_joins(s, '.');
    lemma_octet(p[0]);
    lemma_octet(p[1]);
    lemma_octet(p[2]);
    lemma_octet(p[3]);
    let (a, b, c, d) = (octet_of(p[0])->0, octet_of(p[1])->0, octet_of(p[2])->0, octet_of(p[3])->0);
    let v = ((a * 256 + b) * 256 + c) * 256 + d;
    lemma_octets(v, a, b, c, d);
    let sep = seq!['.'];
    let p3 = p.drop_last();
    let p2 = p3.drop_last();
    let p1 = p2.drop_last();
    assert(joined(p1, sep) == p[0]);
    assert(joined(p2, sep) == p[0] + sep + p[1]);
    assert(joined(p3, sep) == p[0] + sep + p[1] + sep + p[2]);
    assert(joined(p, sep) == p[0] + sep + p[1] + sep + p[2] + sep + p[3]);
    assert(ipv4_text(v) == joined(p, sep));
}

proof fn lemma_decimal_octet(n: nat)
    requires
        n < 256,
    ensures
        octet_of(decimal(n)) == Some(n),
        !includes(decimal(n), Class::One('.')),
        !includes(decimal(n), Class::One(':')),
{
    let s = decimal(n);
    digits_read_back(n, 10);
    lemma_digits_are_digits(n, 10);
    if n < 10 {
        assert(s.len() == 1);
    } else if n < 100 {
        assert(digits(n / 10, 10).len() == 1);
        assert(s.len() == 2);
        assert(s[0] == small_digit(n / 10));
    } else {
        assert(digits(n / 100, 10).len() == 1);
        assert(n / 10 / 10 == n / 100);
        assert(digits(n / 10, 10) == digits(n / 100, 10).push(small_digit(n / 10 % 10)));
        assert(s.len() == 3);
        assert(s[0] == small_digit(n / 100));
    }
}

proof fn lemma_octets_back(v: nat)
    ensures
        (((v / 0x100_0000) * 256 + v / 0x1_0000 % 256) * 256 + v / 0x100 % 256) * 256 + v % 256
            == v,
{
    assert(v / 0x1_0000 == v / 0x100 / 256);
    assert(v / 0x100_0000 == v / 0x1_0000 / 256);
}

proof fn lemma_cut_in_four(a: Seq<char>, b: Seq<char>, c: Seq<char>, d: Seq<char>)
    requires
        !includes(a, Class::One('.')),
        !includes(b, Class::One('.')),
        !includes(c, Class::One('.')),
        !includes(d, Class::One('.')),
    ensures
        cut(a.push('.') + b.push('.') + c.push('.') + d, Class::One('.')) == seq![a, b, c, d],
{
    let t3 = c + seq!['.'] + d;
    let t2 = b + seq!['.'] + t3;
    let t1 = a + seq!['.'] + t2;
    let x = b.push('.');
    let y = c.push('.');
    assert(y + d == t3);
    assert(x + t3 == t2);
    assert(a.push('.') + t2 == t1);
    assert(a.push('.') + x + y + d == a.push('.') + (x + (y + d)));
    lemma_cut_front(a, '.', t2);
    lemma_cut_front(b, '.', t3);
    lemma_cut_front(c, '.', d);
    lemma_cut_whole(d, '.');
    assert(cut(t3, Class::One('.')) == seq![c, d]);
    assert(cut(t2, Class::One('.')) == seq![b, c, d]);
}

/// An IPv4 address that was written is read as it was.
pub proof fn ipv4_is_read_back(v: u32)
    ensures
        ipv4_of(ipv4_text(v as nat)) == Some(v),
{
    let n = v as nat;
    let (a, b, c, d) = (n / 0x100_0000, n / 0x1_0000 % 256, n / 0x100 % 256, n % 256);
    lemma_decimal_octet(a);
    lemma_decimal_octet(b);
    lemma_decimal_octet(c);
    lemma_decimal_octet(d);
    lemma_cut_in_four(decimal(a), decimal(b), decimal(c), decimal(d));
    lemma_octets_back(n);
}

proof fn lemma_dotted(a: Seq<char>, b: Seq<char>)
    ensures
        includes(a + seq!['.'] + b, Class::One(':')) == (includes(a, Class::One(':')) || includes(
            b,
            Class::One(':'),
        )),
{
    let k = Class::One(':');
    lemma_includes_chain(a + seq!['.'], b, k);
    lemma_includes_chain(a, seq!['.'], k);
}

proof fn lemma_ipv4_text_is_plain(v: nat)
    requires
        v < 0x1_0000_0000,
    ensures
        !includes(ipv4_text(v), Class::One(':')),
        ipv4_text(v).len() >= 7,
        '0' <= ipv4_text(v)[0] <= '9',
{
    let (a, b, c, d) = (v / 0x100_0000, v / 0x1_0000 % 256, v / 0x100 % 256, v % 256);
    lemma_decimal_octet(a);
    lemma_decimal_octet(b);
    lemma_decimal_octet(c);
    lemma_decimal_octet(d);
    lemma_digits_are_digits(a, 10);
    lemma_digits_are_digits(b, 10);
    lemma_digits_are_digits(c, 10);
    lemma_digits_are_digits(d, 10);
    digits_read_back(a, 10);
    lemma_numeral_digits(decimal(a), 10, 0);
    let t3 = decimal(c) + seq!['.'] + decimal(d);
    let t2 = decimal(b) + seq!['.'] + t3;
    let t1 = decimal(a) + seq!['.'] + t2;
    assert(ipv4_text(v) == t1);
    lemma_dotted(decimal(a), t2);
    lemma_dotted(decimal(b), t3);
    lemma_dotted(decimal(c), decimal(d));
}

proof fn lemma_hextet(x: u16)
    ensures
        hextet_of(digits(x as nat, 16)) == Some(x),
        1 <= digits(x as nat, 16).len() <= 4,
        !includes(digits(x as nat, 16), Class::One(':')),
        !includes(digits(x as nat, 16), Class::One('.')),
{
    let n = x as nat;
    let s = digits(n, 16);
    digits_read_back(n, 16);
    lemma_digits_are_digits(n, 16);
    assert(n / 16 / 16 / 16 < 16);
    reveal_with_fuel(digits, 5);
}

/// The first group in hexadecimal, with a colon, before the others.
proof fn lemma_hexes_front(x: u16, rest: Seq<u16>)
    requires
        rest.len() > 0,
    ensures
        hexes(seq![x] + rest) == digits(x as nat, 16) + seq![':'] + hexes(rest),
    decreases rest.len(),
{
    let all = seq![x] + rest;
    assert(all.drop_last() == seq![x] + rest.drop_last());
    if rest.len() == 1 {
        assert(all.drop_last() == seq![x]);
        assert(hexes(seq![x]) == digits(x as nat, 16));
        assert(hexes(all) == digits(x as nat, 16) + seq![':'] + hexes(rest));
    } else {
        lemma_hexes_front(x, rest.drop_last());
        assert(hexes(all) == digits(x as nat, 16) + seq![':'] + hexes(rest));
    }
}

/// Whether no colon follows a colon.
#[verifier::opaque]
spec fn is_tight(s: Seq<char>) -> bool {
    forall|i: int, j: int|
        0 <= i < j < s.len() && j == i + 1 ==> #[trigger] s[i] != ':' || #[trigger] s[j] != ':'
}

#[verifier::rlimit(40)]
proof fn lemma_hexes(g: Seq<u16>)
    requires
        g.len() > 0,
    ensures
        groups_of(cut(hexes(g), Class::One(':'))) == Some(g),
        !includes(hexes(g), Class::One('.')),
        hexes(g).len() > 0,
        hexes(g)[0] != ':',
        hexes(g).last() != ':',
        is_tight(hexes(g)),
    decreases g.len(),
{
    reveal(is_tight);
    let x = g[0];
    let a = digits(x as nat, 16);
    let rest = g.drop_first();
    lemma_hextet(x);
    assert forall|i: int| 0 <= i < a.len() implies a[i] != ':' by {
        assert(!Class::One(':').holds(a[i]));
    }
    if rest.len() == 0 {
        assert(g == seq![x]);
        assert(hexes(g) == a);
        lemma_cut_whole(a, ':');
        assert(seq![a].drop_first() == Seq::<Seq<char>>::empty());
        assert(groups_of(seq![a].drop_first()) == Some(Seq::<u16>::empty()));
        assert(seq![x] + Seq::<u16>::empty() == g);
    } else {
        lemma_hexes(rest);
        lemma_hexes_front(x, rest);
        assert(g == seq![x] + rest);
        let b = hexes(rest);
        let s = a + seq![':'] + b;
        lemma_cut_front(a, ':', b);
        let p = seq![a] + cut(b, Class::One(':'));
        assert(p.drop_first() == cut(b, Class::One(':')));
        assert(groups_of(p) == Some(seq![x] + rest));
        lemma_includes_chain(a + seq![':'], b, Class::One('.'));
        lemma_includes_chain(a, seq![':'], Class::One('.'));
        assert forall|i: int, j: int| 0 <= i < j < s.len() && j == i + 1 implies #[trigger] s[i]
            != ':' || #[trigger] s[j] != ':' by {
            if i > a.len() {
                assert(s[i] == b[i - a.len() - 1]);
                assert(s[j] == b[j - a.len() - 1]);
            } else if i == a.len() {
                assert(s[j] == b[0]);
            }
        }
    }
}

proof fn lemma_tight_at(s: Seq<char>, i: int)
    requires
        is_tight(s),
        0 <= i < s.len() - 1,
    ensures
        s[i] != ':' || s[i + 1] != ':',
{
    reveal(is_tight);
}

#[verifier::rlimit(40)]
proof fn lemma_gap_at(s: Seq<char>, p: int)
    requires
        0 <= p <= s.len(),
        seq![':', ':'].is_prefix_of(s.skip(p)),
    ensures
        p + 2 <= s.len(),
        s[p] == ':',
        s[p + 1] == ':',
{
    let t = seq![':', ':'];
    let u = s.skip(p);
    assert(u.take(2) == t);
    assert(u.take(2)[0] == u[0] && u.take(2)[1] == u[1]);
}

#[verifier::rlimit(40)]
proof fn lemma_gap_place(a: Seq<char>, b: Seq<char>)
    requires
        a.len() > 0 ==> a.last() != ':',
        is_tight(a),
    ensures
        place_of(a + seq![':', ':'] + b, seq![':', ':']) == a.len(),
{
    let t = seq![':', ':'];
    let s = a + t + b;
    let n = a.len() as int;
    lemma_place_of(s, t);
    let p = place_of(s, t);
    assert(t.is_prefix_of(s.skip(n))) by {
        assert(s.skip(n) == t + b);
        assert((t + b).take(2) == t);
    }
    if 0 <= p < n {
        lemma_gap_at(s, p);
        assert(s[p] == a[p]);
        if p + 1 < n {
            assert(s[p + 1] == a[p + 1]);
            lemma_tight_at(a, p);
        }
    }
}

proof fn lemma_no_gap(a: Seq<char>)
    requires
        is_tight(a),
    ensures
        place_of(a, seq![':', ':']) == -1,
{
    let t = seq![':', ':'];
    lemma_place_of(a, t);
    let p = place_of(a, t);
    if p >= 0 {
        lemma_gap_at(a, p);
        lemma_tight_at(a, p);
    }
}

proof fn lemma_zeros_from(g: Seq<u16>, i: int)
    requires
        0 <= i <= g.len(),
    ensures
        i + zeros_from(g, i) <= g.len(),
        forall|j: int| i <= j < i + zeros_from(g, i) ==> g[j] == 0,
    decreases g.len() - i,
{
    if i < g.len() && g[i] == 0 {
        lemma_zeros_from(g, i + 1);
    }
}

proof fn lemma_widest_gap(g: Seq<u16>, n: nat)
    requires
        n <= g.len(),
    ensures
        0 <= widest_gap(g, n),
        widest_gap(g, n) < n || n == 0,
    decreases n,
{
    if n > 1 {
        lemma_widest_gap(g, (n - 1) as nat);
    }
}

proof fn lemma_segments(v: nat, n: nat)
    ensures
        segments(v, n).len() == n,
        v < pow(65536, n) ==> join(segments(v, n)) == v,
    decreases n,
{
    reveal(pow);
    if n > 0 {
        let w = v / 65536;
        lemma_segments(w, (n - 1) as nat);
        let g = segments(v, n);
        assert(g.drop_last() == segments(w, (n - 1) as nat));
        if v < pow(65536, n) {
            assert(w < pow(65536, (n - 1) as nat)) by (nonlinear_arith)
                requires
                    v < 65536 * pow(65536, (n - 1) as nat),
                    w == v / 65536,
            ;
            assert(join(g) == w * 65536 + v % 65536);
        }
    }
}

proof fn lemma_side(g: Seq<u16>)
    ensures
        side_of(hexes(g)) == Some(g),
        !includes(hexes(g), Class::One('.')),
        hexes(g).len() > 0 ==> hexes(g).last() != ':',
        is_tight(hexes(g)),
{
    if g.len() > 0 {
        lemma_hexes(g);
    } else {
        reveal(is_tight);
        assert(g == Seq::<u16>::empty());
    }
}

#[verifier::spinoff_prover]
#[verifier::rlimit(40)]
proof fn lemma_gapped(g: Seq<u16>, i: int, k: nat)
    requires
        g.len() == 8,
        0 <= i,
        k > 1,
        i + k <= 8,
        forall|j: int| i <= j < i + k ==> g[j] == 0,
    ensures
        ipv6_of(hexes(g.take(i)) + seq![':', ':'] + hexes(g.skip(i + k))) == Some(join(g) as u128),
{
    let left = g.take(i);
    let right = g.skip(i + k);
    lemma_around_gap(left, right);
    assert(left + zeros(k) + right == g);
}

#[verifier::spinoff_prover]
#[verifier::rlimit(40)]
proof fn lemma_around_gap(g: Seq<u16>, t: Seq<u16>)
    requires
        g.len() + t.len() <= 7,
    ensures
        ipv6_of(hexes(g) + seq![':', ':'] + hexes(t)) == Some(
            join(g + zeros((8 - g.len() - t.len()) as nat) + t) as u128,
        ),
{
    let a = hexes(g);
    let b = hexes(t);
    let s = a + seq![':', ':'] + b;
    let n = a.len() as int;
    assert(s.take(n) == a);
    assert(s.skip(n + 2) == b);
    assert(place_of(s, seq![':', ':']) == n) by {
        lemma_side(g);
        lemma_side(t);
        lemma_gap_place(a, b);
    }
    assert(side_of(a) == Some(g) && !includes(a, Class::One('.'))) by {
        lemma_side(g);
    }
    assert(side_of(b) == Some(t)) by {
        lemma_side(t);
    }
    lemma_two_sides(s, n, g, t);
}

#[verifier::spinoff_prover]
#[verifier::rlimit(40)]
proof fn lemma_two_sides(s: Seq<char>, i: int, g: Seq<u16>, t: Seq<u16>)
    requires
        i >= 0,
        place_of(s, seq![':', ':']) == i,
        side_of(s.take(i)) == Some(g),
        side_of(s.skip(i + 2)) == Some(t),
        !includes(s.take(i), Class::One('.')),
        g.len() + t.len() <= 7,
    ensures
        ipv6_of(s) == Some(join(g + zeros((8 - g.len() - t.len()) as nat) + t) as u128),
{
}

/// An IPv6 address that was written is read as it was.
#[verifier::rlimit(40)]
pub proof fn ipv6_is_read_back(v: u128)
    ensures
        ipv6_of(ipv6_text(v as nat)) == Some(v),
{
    let n = v as nat;
    let g = segments(n, 8);
    lemma_segments(n, 8);
    assert(pow(65536, 8) == 0x1_0000_0000_0000_0000_0000_0000_0000_0000) by {
        reveal_with_fuel(pow, 9);
    }
    let i = widest_gap(g, 8);
    lemma_widest_gap(g, 8);
    lemma_zeros_from(g, i);
    let k = zeros_from(g, i);
    if is_mapped(n) {
        lemma_mapped(n);
    } else if k > 1 {
        lemma_gapped(g, i, k);
    } else {
        lemma_side(g);
        lemma_no_gap(hexes(g));
    }
}

#[verifier::rlimit(40)]
proof fn lemma_mapped_tail(w: nat)
    requires
        w < 0x1_0000_0000,
    ensures
        side_of(seq!['f', 'f', 'f', 'f'] + seq![':'] + ipv4_text(w)) == Some(
            seq![0xffffu16, (w / 65536) as u16, (w % 65536) as u16],
        ),
{
    let four = ipv4_text(w);
    let f = seq!['f', 'f', 'f', 'f'];
    lemma_ipv4_text_is_plain(w);
    ipv4_is_read_back(w as u32);
    lemma_hextet(0xffffu16);
    assert(digits(0xffff, 16) == f) by {
        reveal_with_fuel(digits, 5);
    }
    lemma_cut_front(f, ':', four);
    lemma_cut_whole(four, ':');
    let p = seq![f] + seq![four];
    assert(p.drop_first() == seq![four]);
    let t = seq![(w / 65536) as u16, (w % 65536) as u16];
    assert(hextet_of(four) is None);
    assert(groups_of(seq![four]) == Some(t));
    assert(groups_of(p) == Some(seq![0xffffu16] + t));
    assert(seq![0xffffu16] + t == seq![0xffffu16, (w / 65536) as u16, (w % 65536) as u16]);
}

#[verifier::rlimit(40)]
proof fn lemma_mapped(n: nat)
    requires
        is_mapped(n),
    ensures
        ipv6_of(ipv6_text(n)) == Some(n as u128),
{
    let w = n % 0x1_0000_0000;
    let s = ipv6_text(n);
    let gap = seq![':', ':'];
    let tail = seq!['f', 'f', 'f', 'f'] + seq![':'] + ipv4_text(w);
    assert(s == Seq::<char>::empty() + gap + tail);
    reveal(is_tight);
    lemma_gap_place(Seq::empty(), tail);
    assert(s.take(0) == Seq::<char>::empty());
    assert(s.skip(2) == tail);
    lemma_mapped_tail(w);
    let t = seq![0xffffu16, (w / 65536) as u16, (w % 65536) as u16];
    let none = Seq::<u16>::empty();
    assert(side_of(Seq::<char>::empty()) == Some(none));
    let all = none + zeros(5) + t;
    assert(all[5] == 0xffff && all[6] == t[1] && all[7] == t[2]);
    lemma_eight(all);
    assert(join(all) == n);
}

proof fn lemma_eight(g: Seq<u16>)
    requires
        g.len() == 8,
        forall|i: int| 0 <= i < 5 ==> g[i] == 0,
    ensures
        join(g) == (g[5] as nat * 65536 + g[6] as nat) * 65536 + g[7] as nat,
{
    let a = g.drop_last();
    let b = a.drop_last();
    let c = b.drop_last();
    lemma_join_zeros(c);
    assert(join(b) == g[5] as nat);
    assert(join(a) == g[5] as nat * 65536 + g[6] as nat);
}

proof fn lemma_join_zeros(g: Seq<u16>)
    requires
        forall|i: int| 0 <= i < g.len() ==> g[i] == 0,
    ensures
        join(g) == 0,
    decreases g.len(),
{
    if g.len() > 0 {
        lemma_join_zeros(g.drop_last());
    }
}

#[verifier::rlimit(40)]
proof fn lemma_ipv6_text_is_plain(v: u128)
    ensures
        includes(ipv6_text(v as nat), Class::One(':')),
        !includes(ipv6_text(v as nat), Class::One(']')),
        !includes(ipv6_text(v as nat), Class::One('%')),
{
    let n = v as nat;
    let g = segments(n, 8);
    let s = ipv6_text(n);
    lemma_segments(n, 8);
    let i = widest_gap(g, 8);
    lemma_widest_gap(g, 8);
    lemma_zeros_from(g, i);
    let k = zeros_from(g, i);
    if is_mapped(n) {
        let head = seq![':', ':', 'f', 'f', 'f', 'f', ':'];
        let four = ipv4_text(n % 0x1_0000_0000);
        assert(Class::One(':').holds(head[0]));
        lemma_includes_chain(head, four, Class::One(':'));
        lemma_includes_chain(head, four, Class::One(']'));
        lemma_includes_chain(head, four, Class::One('%'));
        lemma_ipv4_text_chars(n % 0x1_0000_0000, ']');
        lemma_ipv4_text_chars(n % 0x1_0000_0000, '%');
    } else if k > 1 {
        let a = hexes(g.take(i));
        let b = hexes(g.skip(i + k));
        let gap = seq![':', ':'];
        assert(Class::One(':').holds(gap[0]));
        lemma_hexes_chars(g.take(i), ']');
        lemma_hexes_chars(g.take(i), '%');
        lemma_hexes_chars(g.skip(i + k), ']');
        lemma_hexes_chars(g.skip(i + k), '%');
        lemma_includes_chain(a + gap, b, Class::One(':'));
        lemma_includes_chain(a, gap, Class::One(':'));
        lemma_includes_chain(a + gap, b, Class::One(']'));
        lemma_includes_chain(a, gap, Class::One(']'));
        lemma_includes_chain(a + gap, b, Class::One('%'));
        lemma_includes_chain(a, gap, Class::One('%'));
    } else {
        lemma_hexes_chars(g, ']');
        lemma_hexes_chars(g, '%');
        let j = hexes(g.drop_last()).len() as int;
        assert(s[j] == ':');
        assert(Class::One(':').holds(s[j]));
    }
}

proof fn lemma_hexes_chars(g: Seq<u16>, c: char)
    requires
        c == ']' || c == '%',
    ensures
        !includes(hexes(g), Class::One(c)),
    decreases g.len(),
{
    let k = Class::One(c);
    if g.len() > 0 {
        let last = digits(g.last() as nat, 16);
        lemma_digits_are_digits(g.last() as nat, 16);
        assert(!includes(last, k)) by {
            if includes(last, k) {
                let i = choose|i: int| 0 <= i < last.len() && #[trigger] k.holds(last[i]);
                assert(last[i] == c);
            }
        }
        if g.len() > 1 {
            lemma_hexes_chars(g.drop_last(), c);
            let rest = hexes(g.drop_last());
            assert(rest.push(':') == rest + seq![':']);
            lemma_includes_chain(rest + seq![':'], last, k);
            lemma_includes_chain(rest, seq![':'], k);
        }
    }
}

proof fn lemma_decimal_chars(n: nat, c: char)
    requires
        !('0' <= c <= '9'),
    ensures
        !includes(decimal(n), Class::One(c)),
{
    let s = decimal(n);
    let k = Class::One(c);
    digits_read_back(n, 10);
    if includes(s, k) {
        let i = choose|i: int| 0 <= i < s.len() && #[trigger] k.holds(s[i]);
        lemma_numeral_digits(s, 10, i);
    }
}

proof fn lemma_ipv4_text_chars(v: nat, c: char)
    requires
        !('0' <= c <= '9'),
        c != '.',
    ensures
        !includes(ipv4_text(v), Class::One(c)),
{
    let k = Class::One(c);
    let dot = seq!['.'];
    let a = decimal(v / 0x100_0000);
    let b = decimal(v / 0x1_0000 % 256);
    let x = decimal(v / 0x100 % 256);
    let d = decimal(v % 256);
    lemma_decimal_chars(v / 0x100_0000, c);
    lemma_decimal_chars(v / 0x1_0000 % 256, c);
    lemma_decimal_chars(v / 0x100 % 256, c);
    lemma_decimal_chars(v % 256, c);
    assert(a.push('.') == a + dot && b.push('.') == b + dot && x.push('.') == x + dot);
    lemma_includes_chain(a, dot, k);
    lemma_includes_chain(b, dot, k);
    lemma_includes_chain(x, dot, k);
    lemma_includes_chain(a + dot, b + dot, k);
    lemma_includes_chain(a + dot + (b + dot), x + dot, k);
    lemma_includes_chain(a + dot + (b + dot) + (x + dot), d, k);
}

/// An IP address that was written is read as it was.
pub proof fn ip_is_read_back(ip: IpAddr)
    ensures
        ip_of(ip.text()) == Some(ip),
{
    match ip {
        IpAddr::V4(v) => {
            ipv4_is_read_back(v);
        },
        IpAddr::V6(v) => {
            let s = ipv6_text(v as nat);
            ipv6_is_read_back(v);
            lemma_ipv6_text_is_plain(v);
            if ipv4_of(s) is Some {
                ipv4_is_written_back(s);
                lemma_ipv4_text_chars(ipv4_of(s)->0 as nat, ':');
            }
        },
    }
}

proof fn lemma_socket_v4(v: u32, port: u16)
    ensures
        socket_v4_of(ipv4_text(v as nat) + seq![':'] + decimal(port as nat)) == Some(
            SocketAddr { ip: IpAddr::V4(v), port, scope: 0, flow: 0 },
        ),
{
    let four = ipv4_text(v as nat);
    lemma_ipv4_text_chars(v as nat, ':');
    lemma_cut_front(four, ':', decimal(port as nat));
    digits_read_back(port as nat, 10);
    ipv4_is_read_back(v);
}

/// An IPv6 address with its scope, where it has one.
spec fn scoped_text(v: u128, scope: u32) -> Seq<char> {
    if scope == 0 {
        ipv6_text(v as nat)
    } else {
        ipv6_text(v as nat) + seq!['%'] + decimal(scope as nat)
    }
}

#[verifier::rlimit(40)]
proof fn lemma_scoped(v: u128, scope: u32)
    ensures
        scoped_of(scoped_text(v, scope)) == Some((v, scope)),
        !includes(scoped_text(v, scope), Class::One(']')),
{
    let six = ipv6_text(v as nat);
    let k = Class::One(']');
    ipv6_is_read_back(v);
    lemma_ipv6_text_is_plain(v);
    if scope == 0 {
        lemma_cut_whole(six, '%');
    } else {
        let end = decimal(scope as nat);
        digits_read_back(scope as nat, 10);
        lemma_cut_front(six, '%', end);
        lemma_decimal_chars(scope as nat, ']');
        lemma_includes_chain(six, seq!['%'], k);
        lemma_includes_chain(six + seq!['%'], end, k);
    }
}

#[verifier::rlimit(40)]
proof fn lemma_socket_v6(v: u128, scope: u32, port: u16)
    ensures
        ({
            let s = seq!['['] + scoped_text(v, scope) + seq![']'] + (seq![':'] + decimal(
                port as nat,
            ));
            socket_of(s) == Some(SocketAddr { ip: IpAddr::V6(v), port, scope, flow: 0 })
        }),
{
    let inner = scoped_text(v, scope);
    let rest = seq![':'] + decimal(port as nat);
    let s = seq!['['] + inner + seq![']'] + rest;
    lemma_scoped(v, scope);
    assert(s.skip(1) == inner + seq![']'] + rest);
    lemma_cut_front(inner, ']', rest);
    assert(rest.skip(1) == decimal(port as nat));
    digits_read_back(port as nat, 10);
    assert(socket_v6_of(s) == Some(SocketAddr { ip: IpAddr::V6(v), port, scope, flow: 0 }));
    lemma_bracketed(inner, rest);
}

/// A socket address that was written is read as it was, but for the flow, which
/// is not written; an IPv4 address has neither a scope nor a flow.
pub proof fn socket_is_read_back(addr: SocketAddr)
    requires
        addr.ip is V4 ==> addr.scope == 0,
    ensures
        socket_of(addr.text()) == Some(SocketAddr { flow: 0, ..addr }),
{
    let port = decimal(addr.port as nat);
    let s = addr.text();
    match addr.ip {
        IpAddr::V4(v) => {
            assert(s == ipv4_text(v as nat) + seq![':'] + port);
            lemma_socket_v4(v, addr.port);
        },
        IpAddr::V6(v) => {
            let inner = scoped_text(v, addr.scope);
            assert(s == seq!['['] + inner + seq![']'] + (seq![':'] + port));
            lemma_socket_v6(v, addr.scope, addr.port);
        },
    }
}

proof fn lemma_bracketed(inner: Seq<char>, rest: Seq<char>)
    ensures
        socket_v4_of(seq!['['] + inner + seq![']'] + rest) is None,
{
    let s = seq!['['] + inner + seq![']'] + rest;
    let k = Class::One(':');
    if socket_v4_of(s) is Some {
        let b = before(s, k);
        lemma_first_at(s, k);
        ipv4_is_written_back(b);
        let v = ipv4_of(b)->0 as nat;
        lemma_ipv4_text_is_plain(v);
        assert(s[0] == '[');
        assert(b[0] == s[0]);
    }
}

proof fn lemma_lower_ipv4(s: Seq<char>)
    ensures
        ipv4_of(lower(s)) == ipv4_of(s),
{
    let k = Class::One('.');
    let p = cut(s, k);
    lemma_lower_cut(s, k);
    assert forall|i: int| 0 <= i < p.len() implies octet_of(lower_each(p)[i]) == octet_of(
        #[trigger] p[i],
    ) by {
        lemma_lower_numeral(p[i], 10);
        assert(p[i].len() > 0 ==> (lower(p[i])[0] == '0') == (p[i][0] == '0'));
    }
}

proof fn lemma_lower_groups(p: Seq<Seq<char>>)
    ensures
        groups_of(lower_each(p)) == groups_of(p),
    decreases p.len(),
{
    if p.len() > 0 {
        lemma_lower_numeral(p[0], 16);
        lemma_lower_ipv4(p[0]);
        lemma_lower_groups(p.drop_first());
        assert(lower_each(p).drop_first() == lower_each(p.drop_first()));
        assert(hextet_of(lower_each(p)[0]) == hextet_of(p[0]));
    }
}

proof fn lemma_lower_side(s: Seq<char>)
    ensures
        side_of(lower(s)) == side_of(s),
{
    lemma_lower_cut(s, Class::One(':'));
    lemma_lower_groups(cut(s, Class::One(':')));
}

proof fn lemma_lower_gap(s: Seq<char>)
    ensures
        place_of(lower(s), seq![':', ':']) == place_of(s, seq![':', ':']),
    decreases s.len(),
{
    let gap = seq![':', ':'];
    let low = lower(s);
    assert(gap.is_prefix_of(low) == gap.is_prefix_of(s)) by {
        if s.len() >= 2 {
            assert((low[0] == ':') == (s[0] == ':') && (low[1] == ':') == (s[1] == ':'));
            if gap.is_prefix_of(low) {
                assert(low.subrange(0, 2)[0] == ':' && low.subrange(0, 2)[1] == ':');
                assert(s.subrange(0, 2) == gap);
            }
            if gap.is_prefix_of(s) {
                assert(s.subrange(0, 2)[0] == ':' && s.subrange(0, 2)[1] == ':');
                assert(low.subrange(0, 2) == gap);
            }
        }
    }
    if s.len() > 0 {
        lemma_lower_gap(s.drop_first());
        assert(low.drop_first() == lower(s.drop_first()));
    }
}

/// The case of its letters makes no difference to the address that a text
/// writes.
pub proof fn case_of_ip_is_free(a: Seq<char>, b: Seq<char>)
    requires
        same_word(a, b),
    ensures
        ip_of(a) == ip_of(b),
{
    lemma_lower_ip(a);
    lemma_lower_ip(b);
}

proof fn lemma_lower_ip(s: Seq<char>)
    ensures
        ip_of(lower(s)) == ip_of(s),
{
    let i = place_of(s, seq![':', ':']);
    lemma_lower_ipv4(s);
    lemma_lower_gap(s);
    lemma_lower_side(s);
    if i >= 0 {
        lemma_place_of(s, seq![':', ':']);
        lemma_lower_side(s.take(i));
        lemma_lower_side(s.skip(i + 2));
        lemma_lower_places(s.take(i), Class::One('.'));
        assert(lower(s).take(i) == lower(s.take(i)));
        assert(lower(s).skip(i + 2) == lower(s.skip(i + 2)));
    }
}

/// Four decimal octets with dots between them give the address whose octets
/// they are, and an address is written as its four octets. A number above 255
/// is no octet.
pub proof fn octets_give_the_address(a: nat, b: nat, c: nat, d: nat)
    ensures
        ({
            let t = decimal(a) + seq!['.'] + decimal(b) + seq!['.'] + decimal(c) + seq!['.']
                + decimal(d);
            let v = a * 0x100_0000 + b * 0x1_0000 + c * 0x100 + d;
            if a <= 255 && b <= 255 && c <= 255 && d <= 255 {
                &&& ip_of(t) == Some(IpAddr::V4(v as u32))
                &&& (IpAddr::V4(v as u32)).text() == t
            } else {
                ipv4_of(t) is None
            }
        }),
{
    let t = decimal(a) + seq!['.'] + decimal(b) + seq!['.'] + decimal(c) + seq!['.'] + decimal(d);
    assert(t == decimal(a).push('.') + decimal(b).push('.') + decimal(c).push('.') + decimal(d));
    assert(cut(t, Class::One('.')) == seq![decimal(a), decimal(b), decimal(c), decimal(d)]) by {
        lemma_decimal_chars(a, '.');
        lemma_decimal_chars(b, '.');
        lemma_decimal_chars(c, '.');
        lemma_decimal_chars(d, '.');
        lemma_cut_in_four(decimal(a), decimal(b), decimal(c), decimal(d));
    }
    lemma_octet_or_none(a);
    lemma_octet_or_none(b);
    lemma_octet_or_none(c);
    lemma_octet_or_none(d);
    if a <= 255 && b <= 255 && c <= 255 && d <= 255 {
        lemma_octet_parts(a, b, c, d);
    }
}

proof fn lemma_octet_or_none(n: nat)
    ensures
        octet_of(decimal(n)) == if n <= 255 {
            Some(n)
        } else {
            None
        },
{
    digits_read_back(n, 10);
    if n <= 255 {
        lemma_decimal_octet(n);
    }
}

#[verifier::spinoff_prover]
proof fn lemma_octet_parts(a: nat, b: nat, c: nat, d: nat)
    requires
        a <= 255,
        b <= 255,
        c <= 255,
        d <= 255,
    ensures
        ({
            let v = a * 0x100_0000 + b * 0x1_0000 + c * 0x100 + d;
            &&& v == ((a * 256 + b) * 256 + c) * 256 + d
            &&& v < 0x1_0000_0000
            &&& v / 0x100_0000 == a
            &&& v / 0x1_0000 % 256 == b
            &&& v / 0x100 % 256 == c
            &&& v % 256 == d
        }),
{
    let v = a * 0x100_0000 + b * 0x1_0000 + c * 0x100 + d;
    let x = a * 0x1_0000 + b * 0x100 + c;
    let y = a * 0x100 + b;
    assert(v == x * 256 + d && x == y * 256 + c);
    lemma_last_octet(v, x, d);
    lemma_last_octet(x, y, c);
    lemma_last_octet(y, a, b);
    vstd::arithmetic::div_mod::lemma_div_denominator(v as int, 256, 256);
    vstd::arithmetic::div_mod::lemma_div_denominator(v as int, 0x1_0000, 256);
}

proof fn lemma_last_octet(v: nat, x: nat, d: nat)
    requires
        v == x * 256 + d,
        d < 256,
    ensures
        v / 256 == x,
        v % 256 == d,
{
}

/// A character of an address in text: a hexadecimal digit, a colon or a dot.
pub open spec fn is_of_address(c: char) -> bool {
    '0' <= c <= '9' || 'a' <= c <= 'f' || c == ':' || c == '.'
}

proof fn lemma_hexes_are_of_address(g: Seq<u16>)
    ensures
        forall|i: int| 0 <= i < hexes(g).len() ==> is_of_address(#[trigger] hexes(g)[i]),
    decreases g.len(),
{
    if g.len() == 1 {
        lemma_digits_are_digits(g[0] as nat, 16);
    } else if g.len() > 1 {
        let a = hexes(g.drop_last()).push(':');
        let b = digits(g.last() as nat, 16);
        lemma_hexes_are_of_address(g.drop_last());
        lemma_digits_are_digits(g.last() as nat, 16);
        assert forall|i: int| 0 <= i < hexes(g).len() implies is_of_address(
            #[trigger] hexes(g)[i],
        ) by {
            if i < a.len() {
                assert(hexes(g)[i] == a[i]);
                if i < a.len() - 1 {
                    assert(a[i] == hexes(g.drop_last())[i]);
                }
            } else {
                assert(hexes(g)[i] == b[i - a.len()]);
            }
        }
    }
}

proof fn lemma_ipv4_text_is_of_address(v: nat)
    ensures
        forall|i: int| 0 <= i < ipv4_text(v).len() ==> is_of_address(#[trigger] ipv4_text(v)[i]),
        ipv4_text(v).len() > 0,
        ipv4_text(v)[0] != '.',
        ipv4_text(v).last() != '.',
{
    let a = decimal(v / 0x100_0000).push('.');
    let b = decimal(v / 0x1_0000 % 256).push('.');
    let c = decimal(v / 0x100 % 256).push('.');
    let d = decimal(v % 256);
    let t = ipv4_text(v);
    lemma_digits_are_digits(v / 0x100_0000, 10);
    lemma_digits_are_digits(v / 0x1_0000 % 256, 10);
    lemma_digits_are_digits(v / 0x100 % 256, 10);
    lemma_digits_are_digits(v % 256, 10);
    assert(t == a + b + c + d);
    assert forall|i: int| 0 <= i < t.len() implies is_of_address(#[trigger] t[i]) by {
        if i < a.len() {
            assert(t[i] == a[i]);
        } else if i < a.len() + b.len() {
            assert(t[i] == b[i - a.len()]);
        } else if i < a.len() + b.len() + c.len() {
            assert(t[i] == c[i - a.len() - b.len()]);
        } else {
            assert(t[i] == d[i - a.len() - b.len() - c.len()]);
        }
    }
    assert(t[0] == decimal(v / 0x100_0000)[0]);
    assert(t.last() == d.last());
}

/// An address is written in small hexadecimal digits, colons and dots, with a
/// digit or a colon at either end.
pub proof fn address_is_written_plainly(ip: IpAddr)
    ensures
        ip.text().len() > 0,
        forall|i: int| 0 <= i < ip.text().len() ==> is_of_address(#[trigger] ip.text()[i]),
        ip.text()[0] != '.',
        ip.text().last() != '.',
{
    match ip {
        IpAddr::V4(v) => {
            lemma_ipv4_text_is_of_address(v as nat);
        },
        IpAddr::V6(v) => {
            let n = v as nat;
            let g = segments(n, 8);
            let i = widest_gap(g, 8);
            let k = zeros_from(g, i);
            lemma_segments(n, 8);
            lemma_widest_gap(g, 8);
            lemma_zeros_from(g, i);
            if is_mapped(n) {
                let w = n % 0x1_0000_0000;
                lemma_ipv4_text_is_of_address(w);
                let front = seq![':', ':', 'f', 'f', 'f', 'f', ':'];
                let t = front + ipv4_text(w);
                assert(ipv6_text(n) == t);
                assert forall|j: int| 0 <= j < t.len() implies is_of_address(#[trigger] t[j]) by {
                    if j >= 7 {
                        assert(t[j] == ipv4_text(w)[j - 7]);
                    }
                }
                assert(t.last() == ipv4_text(w).last());
            } else if k > 1 {
                let a = hexes(g.take(i));
                let b = hexes(g.skip(i + k));
                let t = a + seq![':', ':'] + b;
                lemma_hexes_are_of_address(g.take(i));
                lemma_hexes_are_of_address(g.skip(i + k));
                lemma_side(g.take(i));
                lemma_side(g.skip(i + k));
                assert(ipv6_text(n) == t);
                assert forall|j: int| 0 <= j < t.len() implies is_of_address(#[trigger] t[j]) by {
                    if j < a.len() {
                        assert(t[j] == a[j]);
                    } else if j >= a.len() + 2 {
                        assert(t[j] == b[j - a.len() - 2]);
                    }
                }
                if a.len() > 0 {
                    assert(!Class::One('.').holds(a[0]));
                    assert(t[0] == a[0]);
                } else {
                    assert(t[0] == ':');
                }
                if b.len() > 0 {
                    assert(!Class::One('.').holds(b[b.len() - 1]));
                    assert(t.last() == b.last());
                } else {
                    assert(t.last() == ':');
                }
            } else {
                lemma_hexes_are_of_address(g);
                lemma_hexes(g);
                assert(!Class::One('.').holds(hexes(g)[0]));
                assert(!Class::One('.').holds(hexes(g)[hexes(g).len() - 1]));
            }
        },
    }
}

/// The eight groups of an IPv6 address, from the highest on.
pub open spec fn groups_in(v: u128) -> Seq<u16> {
    Seq::new(8, |i: int| ((v as int / pow(65536, (7 - i) as nat)) % 65536) as u16)
}

/// Groups in hexadecimal, one by one.
pub open spec fn in_hexadecimal(g: Seq<u16>) -> Seq<Seq<char>> {
    Seq::new(g.len(), |i: int| digits(g[i] as nat, 16))
}

proof fn lemma_segments_at(v: nat, n: nat, i: int)
    requires
        0 <= i < n,
    ensures
        segments(v, n).len() == n,
        segments(v, n)[i] == ((v as int / pow(65536, (n - 1 - i) as nat)) % 65536) as u16,
    decreases n,
{
    lemma_segments_len(v, n);
    lemma_segments_len(v / 65536, (n - 1) as nat);
    reveal(pow);
    if i < n - 1 {
        let e = (n - 2 - i) as nat;
        lemma_segments_at(v / 65536, (n - 1) as nat, i);
        vstd::arithmetic::power::lemma_pow_positive(65536, e);
        vstd::arithmetic::div_mod::lemma_div_denominator(v as int, 65536, pow(65536, e));
        assert(pow(65536, (e + 1) as nat) == 65536 * pow(65536, e));
    } else {
        assert(pow(65536, 0) == 1);
    }
}

proof fn lemma_hexes_joined(g: Seq<u16>)
    ensures
        hexes(g) == joined(in_hexadecimal(g), seq![':']),
    decreases g.len(),
{
    let p = in_hexadecimal(g);
    if g.len() > 1 {
        lemma_hexes_joined(g.drop_last());
        assert(p.drop_last() == in_hexadecimal(g.drop_last()));
        assert(hexes(g.drop_last()).push(':') + digits(g.last() as nat, 16) == hexes(g.drop_last())
            + seq![':'] + digits(g.last() as nat, 16));
    }
}

/// Eight groups in hexadecimal with colons between them give the address whose
/// groups they are.
pub proof fn eight_groups_give_the_address(v: u128)
    ensures
        ip_of(joined(in_hexadecimal(groups_in(v)), seq![':'])) == Some(IpAddr::V6(v)),
{
    let n = v as nat;
    let g = groups_in(v);
    assert forall|i: int| 0 <= i < 8 implies segments(n, 8)[i] == #[trigger] g[i] by {
        lemma_segments_at(n, 8, i);
    }
    lemma_segments(n, 8);
    assert(segments(n, 8) == g);
    assert(pow(65536, 8) == 0x1_0000_0000_0000_0000_0000_0000_0000_0000) by {
        reveal_with_fuel(pow, 9);
    }
    lemma_hexes_joined(g);
    lemma_side(g);
    lemma_no_gap(hexes(g));
    lemma_hexes_are_no_ipv4(g);
}

proof fn lemma_hexes_are_no_ipv4(g: Seq<u16>)
    ensures
        ipv4_of(hexes(g)) is None,
{
    lemma_side(g);
    lemma_cut_whole(hexes(g), '.');
}

/// Two colons stand for the groups of zero that are missing, wherever they
/// stand.
#[verifier::spinoff_prover]
#[verifier::rlimit(40)]
pub proof fn two_colons_stand_for_zeros(a: Seq<u16>, b: Seq<u16>)
    requires
        a.len() + b.len() <= 7,
    ensures
        ({
            let gap = Seq::new((8 - a.len() - b.len()) as nat, |i: int| 0u16);
            ipv6_of(
                joined(in_hexadecimal(a), seq![':']) + seq![':', ':'] + joined(
                    in_hexadecimal(b),
                    seq![':'],
                ),
            ) == ipv6_of(joined(in_hexadecimal(a + gap + b), seq![':']))
        }),
{
    let gap = Seq::new((8 - a.len() - b.len()) as nat, |i: int| 0u16);
    let g = a + gap + b;
    assert(gap == zeros((8 - a.len() - b.len()) as nat));
    lemma_hexes_joined(a);
    lemma_hexes_joined(b);
    lemma_hexes_joined(g);
    lemma_around_gap(a, b);
    assert(side_of(hexes(g)) == Some(g) && place_of(hexes(g), seq![':', ':']) == -1) by {
        lemma_side(g);
        lemma_no_gap(hexes(g));
    }
}

proof fn lemma_first_widest(g: Seq<u16>, n: nat)
    requires
        0 < n <= g.len(),
    ensures
        0 <= widest_gap(g, n) < n,
        forall|a: int|
            0 <= a < n ==> #[trigger] zeros_from(g, a) <= zeros_from(g, widest_gap(g, n)),
        forall|a: int|
            0 <= a < widest_gap(g, n) ==> #[trigger] zeros_from(g, a) < zeros_from(
                g,
                widest_gap(g, n),
            ),
    decreases n,
{
    if n > 1 {
        lemma_first_widest(g, (n - 1) as nat);
    }
}

proof fn lemma_run(g: Seq<u16>, i: int, k: nat)
    requires
        0 <= i,
        i + k <= g.len(),
        forall|j: int| i <= j < i + k ==> g[j] == 0,
    ensures
        zeros_from(g, i) >= k,
    decreases k,
{
    if k > 0 {
        lemma_run(g, i + 1, (k - 1) as nat);
    }
}

/// Whether `k` groups from place `i` on are zero.
pub open spec fn all_zero(g: Seq<u16>, i: int, k: nat) -> bool {
    forall|j: int| i <= j < i + k ==> g[j] == 0
}

/// An IPv6 address is written with its longest run of two or more groups of
/// zero as two colons, the first of several such runs, and every other group
/// as it is.
pub proof fn longest_run_of_zeros_is_written_short(v: u128, i: int, k: nat)
    requires
        v / 0x1_0000_0000 != 0xffff,
        0 <= i,
        i + k <= 8,
        all_zero(groups_in(v), i, k),
        forall|a: int, m: nat|
            0 <= a && a + m <= 8 && #[trigger] all_zero(groups_in(v), a, m) ==> m <= k && (m == k
                && k > 0 ==> a >= i),
    ensures
        ({
            let g = groups_in(v);
            (IpAddr::V6(v)).text() == if k > 1 {
                joined(in_hexadecimal(g.take(i)), seq![':']) + seq![':', ':'] + joined(
                    in_hexadecimal(g.skip(i + k)),
                    seq![':'],
                )
            } else {
                joined(in_hexadecimal(g), seq![':'])
            }
        }),
{
    let n = v as nat;
    let g = groups_in(v);
    assert forall|j: int| 0 <= j < 8 implies segments(n, 8)[j] == #[trigger] g[j] by {
        lemma_segments_at(n, 8, j);
    }
    lemma_segments(n, 8);
    assert(segments(n, 8) == g);
    lemma_first_widest(g, 8);
    let b = widest_gap(g, 8);
    lemma_zeros_from(g, b);
    let z = zeros_from(g, b);
    assert(all_zero(groups_in(v), b, z));
    assert(z <= k);
    if k > 1 {
        lemma_run(g, i, k);
        assert(zeros_from(g, i) <= z);
        assert(b == i && z == k);
        lemma_hexes_joined(g.take(i));
        lemma_hexes_joined(g.skip(i + k));
    } else {
        lemma_hexes_joined(g);
    }
}

/// An address that stands for an IPv4 address ends in that address.
pub proof fn mapped_address_is_written_with_octets(w: u32)
    ensures
        (IpAddr::V6((0xffff_0000_0000 + w) as u128)).text() == seq![
            ':',
            ':',
            'f',
            'f',
            'f',
            'f',
            ':',
        ] + (IpAddr::V4(w)).text(),
{
    let n = (0xffff_0000_0000 + w) as nat;
    assert(n / 0x1_0000_0000 == 0xffff);
    assert(n % 0x1_0000_0000 == w as nat);
}

/// A socket address is its address, a colon and its port; an IPv6 address
/// stands in brackets, with its scope where it has one.
pub proof fn socket_is_written_with_its_port(addr: SocketAddr)
    ensures
        addr.ip is V4 ==> addr.text() == addr.ip.text() + seq![':'] + decimal(addr.port as nat),
        addr.ip is V6 && addr.scope == 0 ==> addr.text() == seq!['['] + addr.ip.text() + seq![
            ']',
            ':',
        ] + decimal(addr.port as nat),
        addr.ip is V6 && addr.scope != 0 ==> addr.text() == seq!['['] + addr.ip.text() + seq!['%']
            + decimal(addr.scope as nat) + seq![']', ':'] + decimal(addr.port as nat),
{
}

/// Groups that are not eight in number, or that leave none for two colons to
/// stand for, are no address; nor is a group above 65535.
#[verifier::spinoff_prover]
#[verifier::rlimit(40)]
pub proof fn groups_have_to_be_eight(a: Seq<u16>, b: Seq<u16>, n: nat)
    ensures
        a.len() != 8 ==> ipv6_of(joined(in_hexadecimal(a), seq![':'])) is None,
        a.len() + b.len() > 7 ==> ipv6_of(
            joined(in_hexadecimal(a), seq![':']) + seq![':', ':'] + joined(
                in_hexadecimal(b),
                seq![':'],
            ),
        ) is None,
        n > 65535 ==> hextet_of(digits(n, 16)) is None,
{
    let x = hexes(a);
    let y = hexes(b);
    let s = x + seq![':', ':'] + y;
    lemma_hexes_joined(a);
    lemma_hexes_joined(b);
    assert(side_of(x) == Some(a) && place_of(x, seq![':', ':']) == -1) by {
        lemma_side(a);
        lemma_no_gap(x);
    }
    assert(side_of(y) == Some(b)) by {
        lemma_side(b);
    }
    assert(place_of(s, seq![':', ':']) == x.len()) by {
        lemma_side(a);
        lemma_side(b);
        lemma_gap_place(x, y);
    }
    assert(s.take(x.len() as int) == x);
    assert(s.skip(x.len() as int + 2) == y);
    digits_read_back(n, 16);
}

} // verus!
