//! Bytes that have arrived on a connection and wait to be read.
use crate::text::{find_part, place_of};
use vstd::prelude::*;

verus! {

/// The end of a line.
pub open spec fn crlf() -> Seq<u8> {
    seq![13u8, 10u8]
}

/// The end of the last line of a head, and the blank line that follows it.
pub open spec fn blank_line() -> Seq<u8> {
    seq![13u8, 10u8, 13u8, 10u8]
}

/// Finds the place where `t` first occurs in `s`.
pub fn find_bytes(s: &[u8], t: &[u8]) -> (r: Option<usize>)
    ensures
        match r {
            Some(i) => i == place_of(s@, t@) && i + t@.len() <= s@.len(),
            None => place_of(s@, t@) == -1,
        },
{
    find_part(s, t)
}

/// Takes the first `n` bytes out of `buf`.
pub fn take_front(buf: &mut Vec<u8>, n: usize) -> (r: Vec<u8>)
    requires
        n <= old(buf)@.len(),
    ensures
        r@ == old(buf)@.take(n as int),
        final(buf)@ == old(buf)@.skip(n as int),
{
    let mut rest = buf.split_off(n);
    std::mem::swap(buf, &mut rest);
    assert(rest@ == old(buf)@.take(n as int));
    assert(buf@ == old(buf)@.skip(n as int));
    rest
}

/// The smaller of two numbers.
pub open spec fn least(a: nat, b: nat) -> nat {
    if a < b {
        a
    } else {
        b
    }
}

/// The smaller of two numbers.
pub fn least_of(a: usize, b: usize) -> (r: usize)
    ensures
        r as nat == least(a as nat, b as nat),
{
    if a < b {
        a
    } else {
        b
    }
}

} // verus!
