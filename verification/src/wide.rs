//! Text in UTF-16, ending in a zero, as Windows takes it and gives it.
use vstd::prelude::*;
use vstd::utf8::{char_is_scalar, char_u32_cast};

verus! {

/// The units that encode one character.
pub open spec fn units_of(c: char) -> Seq<u16> {
    if (c as u32) < 0x1_0000 {
        seq![c as u16]
    } else {
        let v = c as u32 - 0x1_0000;
        seq![(0xd800 + v / 0x400) as u16, (0xdc00 + v % 0x400) as u16]
    }
}

/// The units that encode a text.
pub open spec fn utf16(s: Seq<char>) -> Seq<u16>
    decreases s.len(),
{
    if s.len() == 0 {
        Seq::empty()
    } else {
        utf16(s.drop_last()) + units_of(s.last())
    }
}

fn push_units(out: &mut Vec<u16>, c: char)
    ensures
        final(out)@ == old(out)@ + units_of(c),
{
    let n: u32 = c as u32;
    if n < 0x1_0000 {
        out.push(n as u16);
    } else {
        let v: u32 = n - 0x1_0000;
        out.push((0xd800 + v / 0x400) as u16);
        out.push((0xdc00 + v % 0x400) as u16);
    }
    assert(out@ == old(out)@ + units_of(c));
}

/// Encodes a text in UTF-16, with a zero at its end.
pub fn wide(s: &str) -> (r: Vec<u16>)
    ensures
        r@ == utf16(s@).push(0),
{
    let mut out: Vec<u16> = Vec::new();
    for c in it: s.chars()
        invariant
            out@ == utf16(it.seq().take(it.index())),
            it.seq() == s@,
    {
        assert(s@.take(it.index() + 1).drop_last() == s@.take(it.index()));
        push_units(&mut out, c);
    }
    assert(s@.take(s@.len() as int) == s@);
    out.push(0);
    out
}

/// Whether a unit is the first of a pair.
pub open spec fn leads(u: u16) -> bool {
    0xd800 <= u < 0xdc00
}

/// Whether a unit is the second of a pair.
pub open spec fn trails(u: u16) -> bool {
    0xdc00 <= u < 0xe000
}

/// The character that a pair of units encodes.
pub open spec fn paired(a: u16, b: u16) -> char {
    (0x1_0000 + (a - 0xd800) * 0x400 + (b - 0xdc00)) as char
}

/// The text that `u` encodes, with U+FFFD in the place of each unit that should
/// be one of a pair and is not.
pub open spec fn text_in(u: Seq<u16>) -> Seq<char>
    decreases u.len(),
{
    if u.len() == 0 {
        Seq::empty()
    } else if leads(u[0]) && u.len() > 1 && trails(u[1]) {
        seq![paired(u[0], u[1])] + text_in(u.skip(2))
    } else if leads(u[0]) || trails(u[0]) {
        seq!['\u{fffd}'] + text_in(u.skip(1))
    } else {
        seq![u[0] as char] + text_in(u.skip(1))
    }
}

/// Decodes a text in UTF-16. An empty text counts as none.
pub fn text_of_wide(units: &[u16]) -> (r: Option<String>)
    ensures
        match r {
            Some(s) => s@ == text_in(units@) && units@.len() > 0,
            None => units@.len() == 0,
        },
{
    if units.len() == 0 {
        return None;
    }
    let mut out = String::new();
    let mut i: usize = 0;
    assert(units@.skip(0) == units@);
    while i < units.len()
        invariant
            i <= units@.len(),
            out@ + text_in(units@.skip(i as int)) == text_in(units@),
        decreases units@.len() - i,
    {
        let a: u32 = units[i] as u32;
        let ghost done = out@;
        let ghost rest = units@.skip(i as int);
        if 0xd800 <= a && a < 0xdc00 && i + 1 < units.len() && 0xdc00 <= units[i + 1]
            && units[i + 1] < 0xe000 {
            let b: u32 = units[i + 1] as u32;
            let n: u32 = 0x1_0000 + (a - 0xd800) * 0x400 + (b - 0xdc00);
            match char::from_u32(n) {
                Some(c) => {
                    out.push(c);
                    proof {
                        char_u32_cast(c, n);
                    }
                    assert(c == paired(rest[0], rest[1]));
                },
                None => {},
            }
            assert(rest.skip(2) == units@.skip(i + 2));
            assert(done + (seq![paired(rest[0], rest[1])] + text_in(rest.skip(2))) == out@
                + text_in(units@.skip(i + 2)));
            i = i + 2;
        } else {
            assert(rest.skip(1) == units@.skip(i + 1));
            match char::from_u32(a) {
                Some(c) => {
                    out.push(c);
                    proof {
                        char_u32_cast(c, a);
                    }
                    assert(c == rest[0] as char);
                },
                None => {
                    out.push('\u{fffd}');
                },
            }
            assert(done + (seq![out@.last()] + text_in(rest.skip(1))) == out@ + text_in(
                units@.skip(i + 1),
            ));
            i = i + 1;
        }
    }
    assert(units@.skip(units@.len() as int) == Seq::<u16>::empty());
    assert(out@ == text_in(units@));
    Some(out)
}

proof fn lemma_text_goes_on(c: char, u: Seq<u16>)
    ensures
        text_in(units_of(c) + u) == seq![c] + text_in(u),
{
    let s = units_of(c) + u;
    char_is_scalar(c);
    char_u32_cast(c, c as u32);
    if (c as u32) < 0x1_0000 {
        assert(s.skip(1) == u);
        assert(s[0] as char == c);
    } else {
        assert(s.skip(2) == u);
        assert(paired(s[0], s[1]) == c);
    }
}

proof fn lemma_utf16_chains(s: Seq<char>, t: Seq<char>)
    ensures
        utf16(s + t) == utf16(s) + utf16(t),
    decreases t.len(),
{
    if t.len() == 0 {
        assert(s + t == s);
        assert(utf16(s) + utf16(t) == utf16(s));
    } else {
        assert((s + t).drop_last() == s + t.drop_last());
        lemma_utf16_chains(s, t.drop_last());
        assert(utf16(s) + utf16(t.drop_last()) + units_of(t.last()) == utf16(s) + utf16(t));
    }
}

/// Encoded and decoded again, a text is what it was.
pub proof fn text_comes_back(s: Seq<char>)
    ensures
        text_in(utf16(s)) == s,
    decreases s.len(),
{
    if s.len() > 0 {
        let t = s.drop_first();
        assert(s == seq![s[0]] + t);
        lemma_utf16_chains(seq![s[0]], t);
        let one = seq![s[0]];
        assert(one.drop_last() == Seq::<char>::empty());
        assert(utf16(one) == units_of(s[0])) by {
            assert(utf16(Seq::<char>::empty()) == Seq::<u16>::empty());
            assert(utf16(one) == utf16(one.drop_last()) + units_of(s[0]));
        }
        lemma_text_goes_on(s[0], utf16(t));
        text_comes_back(t);
    }
}

} // verus!
