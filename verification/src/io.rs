//! What is read from a connection and what is written to it: heads, bodies of
//! a given length, and short answers.
//!
//! The functions here work on the bytes that have arrived and say when more of
//! them are needed. Where the next bytes come from is their caller's concern.
use crate::bytes::{blank_line, find_bytes, least, least_of, take_front};
use crate::error::{Error, ErrorView};
use crate::http1::{
    body_framing_is_shown, chunked, content_length, is_chunked, length_of, shown, status_reason,
    usual_reason, ClientRequest, RequestView,
};
use crate::number::{decimal, push_decimal};
use crate::text::{lemma_place_of, lemma_place_stays, place_of};
use vstd::prelude::*;
use vstd::string::{StrSliceExecFns, StringExecFns};
use vstd::utf8::encode_utf8;

verus! {

/// How long a head may get before its end has arrived.
pub const MAX_HEAD: usize = 0x1_0000;

/// How many bytes are asked for while a head is incomplete.
pub const HEAD_READ: usize = 0x2000;

/// How many bytes of a body are asked for at most.
pub const BODY_READ: usize = 0x8000;

/// How long a chunked body may get that nobody wants.
pub const MAX_DISCARD: usize = 0x80_0000;

/// Where the head that `buf` starts with ends, its blank line included; `-1`
/// where it goes on.
pub open spec fn head_end(buf: Seq<u8>) -> int {
    let p = place_of(buf, blank_line());
    if p < 0 {
        -1
    } else {
        p + 4
    }
}

/// Finds the end of the head that `buf` starts with.
pub fn find_header_end(buf: &[u8]) -> (r: Option<usize>)
    ensures
        match r {
            Some(n) => n == head_end(buf@) && 4 <= n <= buf@.len(),
            None => head_end(buf@) == -1,
        },
{
    let end: [u8; 4] = [13, 10, 13, 10];
    assert(end@ == blank_line());
    proof {
        lemma_place_of(buf@, blank_line());
    }
    let n: usize = buf.len();
    match find_bytes(buf, end.as_slice()) {
        Some(p) => {
            assert(p + 4 <= n);
            Some(p + 4)
        },
        None => None,
    }
}

/// Takes a complete head out of `leftover`. A head that is still incomplete
/// after `max` bytes is refused.
pub fn take_head(leftover: &mut Vec<u8>, max: usize) -> (r: Result<Option<Vec<u8>>, Error>)
    ensures
        ({
            let n = head_end(old(leftover)@);
            match r {
                Ok(Some(head)) => {
                    &&& n >= 0
                    &&& head@ == old(leftover)@.take(n)
                    &&& final(leftover)@ == old(leftover)@.skip(n)
                },
                Ok(None) => {
                    &&& n < 0
                    &&& old(leftover)@.len() <= max
                    &&& final(leftover)@ == old(leftover)@
                },
                Err(e) => {
                    &&& n < 0
                    &&& old(leftover)@.len() > max
                    &&& final(leftover)@ == old(leftover)@
                    &&& e@ == ErrorView::Http("header block too large"@)
                },
            }
        }),
{
    match find_header_end(leftover.as_slice()) {
        Some(n) => Ok(Some(take_front(leftover, n))),
        None => {
            if leftover.len() > max {
                Err(Error::Http("header block too large".to_owned()))
            } else {
                Ok(None)
            }
        },
    }
}

/// A head that is complete ends where it ends, whatever arrives after it.
pub proof fn complete_head_stays(a: Seq<u8>, b: Seq<u8>)
    requires
        head_end(a) >= 0,
    ensures
        head_end(a + b) == head_end(a),
        (a + b).take(head_end(a)) == a.take(head_end(a)),
{
    lemma_place_of(a, blank_line());
    lemma_place_stays(a, b, blank_line());
}

/// Puts the bytes that arrived behind those that wait. No bytes mean that the
/// peer has closed the connection; `fault` is what is then said.
fn feed(leftover: &mut Vec<u8>, data: &[u8], fault: &str) -> (r: Result<(), Error>)
    ensures
        final(leftover)@ == old(leftover)@ + data@,
        match r {
            Ok(_) => data@.len() > 0,
            Err(e) => data@.len() == 0 && e@ == ErrorView::Http(fault@),
        },
{
    leftover.extend_from_slice(data);
    assert(leftover@ == old(leftover)@ + data@);
    if data.len() == 0 {
        return Err(Error::Http(fault.to_owned()));
    }
    Ok(())
}

/// Puts the bytes that arrived behind those that wait, while a head is
/// incomplete. No bytes mean that the peer has closed the connection.
pub fn feed_head(leftover: &mut Vec<u8>, data: &[u8]) -> (r: Result<(), Error>)
    ensures
        final(leftover)@ == old(leftover)@ + data@,
        match r {
            Ok(_) => data@.len() > 0,
            Err(e) => data@.len() == 0 && e@ == ErrorView::Http(
                "peer closed before sending headers"@,
            ),
        },
{
    feed(leftover, data, "peer closed before sending headers")
}

/// Puts the bytes that arrived behind those that wait, while a body is
/// incomplete. No bytes mean that the peer has closed the connection.
pub fn feed_body(leftover: &mut Vec<u8>, data: &[u8]) -> (r: Result<(), Error>)
    ensures
        final(leftover)@ == old(leftover)@ + data@,
        match r {
            Ok(_) => data@.len() > 0,
            Err(e) => data@.len() == 0 && e@ == ErrorView::Http("unexpected eof reading body"@),
        },
{
    feed(leftover, data, "unexpected eof reading body")
}

/// Takes a body of `len` bytes out of `leftover`, once it is complete.
pub fn take_exact(leftover: &mut Vec<u8>, len: usize) -> (r: Option<Vec<u8>>)
    ensures
        match r {
            Some(body) => {
                &&& len <= old(leftover)@.len()
                &&& body@ == old(leftover)@.take(len as int)
                &&& final(leftover)@ == old(leftover)@.skip(len as int)
            },
            None => len > old(leftover)@.len() && final(leftover)@ == old(leftover)@,
        },
{
    if leftover.len() < len {
        None
    } else {
        Some(take_front(leftover, len))
    }
}

/// How many bytes to ask for next, where `waiting` of `len` bytes have arrived.
pub fn wanted(waiting: usize, len: usize) -> (r: usize)
    requires
        waiting <= len,
    ensures
        r as nat == least((len - waiting) as nat, BODY_READ as nat),
{
    least_of(len - waiting, BODY_READ)
}

/// How a body is framed.
#[derive(Debug, Clone, Copy, PartialEq, Eq, Structural)]
pub enum Framing {
    /// Its length is not given.
    Open,
    /// It comes in chunks.
    Chunked,
    /// It has so many bytes.
    Fixed(usize),
}

/// How the header fields frame the body: chunks go before a length.
pub open spec fn framing_of(headers: Seq<(Seq<char>, Seq<char>)>) -> Framing {
    if chunked(headers) {
        Framing::Chunked
    } else {
        match length_of(headers) {
            Some(n) => Framing::Fixed(n as usize),
            None => Framing::Open,
        }
    }
}

/// Tells how the header fields frame the body. A body that nobody wants is
/// read so far that the connection can be used again, and a body that is
/// passed on is passed on by the same rule.
pub fn framing(headers: &[(String, String)]) -> (r: Framing)
    ensures
        r == framing_of(headers.deep_view()),
{
    if is_chunked(headers) {
        Framing::Chunked
    } else {
        match content_length(headers) {
            Some(n) => Framing::Fixed(n),
            None => Framing::Open,
        }
    }
}

/// A client is shown header fields that frame the body as it is passed on.
pub proof fn shown_framing(headers: Seq<(Seq<char>, Seq<char>)>)
    ensures
        framing_of(shown(headers)) == framing_of(headers),
{
    body_framing_is_shown(headers);
}

/// What body a request has that is read before the request is passed on, for
/// bodies of at most `max` bytes. A request for a tunnel has none: bytes that
/// follow its head belong to the tunnel. A request that frames no body has
/// none either.
pub open spec fn request_framing_of(req: RequestView, max: nat) -> Result<Framing, ErrorView> {
    if req.connects() {
        Ok(Framing::Open)
    } else {
        match framing_of(req.headers) {
            Framing::Fixed(n) => if n > max {
                Err(
                    ErrorView::Http(
                        "request body "@ + decimal(n as nat) + " exceeds max_buffered_body "@
                            + decimal(max),
                    ),
                )
            } else {
                Ok(Framing::Fixed(n))
            },
            other => Ok(other),
        }
    }
}

/// Tells what body of a request is to be read before the request is passed on,
/// for bodies of at most `max` bytes. `Open` means that there is none.
pub fn request_framing(req: &ClientRequest, max: usize) -> (r: Result<Framing, Error>)
    ensures
        match r {
            Ok(f) => request_framing_of(req@, max as nat) == Ok::<Framing, ErrorView>(f),
            Err(e) => request_framing_of(req@, max as nat) == Err::<Framing, ErrorView>(e@),
        },
{
    if req.is_connect() {
        return Ok(Framing::Open);
    }
    match framing(req.headers.as_slice()) {
        Framing::Fixed(n) => {
            if n > max {
                let mut message = "request body ".to_owned();
                push_decimal(&mut message, n as u64);
                message.append(" exceeds max_buffered_body ");
                push_decimal(&mut message, max as u64);
                Err(Error::Http(message))
            } else {
                Ok(Framing::Fixed(n))
            }
        },
        Framing::Chunked => Ok(Framing::Chunked),
        Framing::Open => Ok(Framing::Open),
    }
}

/// Passes on a body of a given length.
#[derive(Debug, Clone, Copy, PartialEq, Eq, Structural)]
pub struct FixedRelay {
    /// How many bytes have not been passed on.
    pub remaining: usize,
}

impl FixedRelay {
    /// A relay for a body of `count` bytes.
    pub fn new(count: usize) -> (r: FixedRelay)
        ensures
            r.remaining == count,
    {
        FixedRelay { remaining: count }
    }

    /// Takes out of `leftover` what belongs to the body, to be passed on.
    pub fn pass(&mut self, leftover: &mut Vec<u8>) -> (r: Vec<u8>)
        ensures
            ({
                let n = least(old(self).remaining as nat, old(leftover)@.len());
                &&& r@ == old(leftover)@.take(n as int)
                &&& final(leftover)@ == old(leftover)@.skip(n as int)
                &&& final(self).remaining == old(self).remaining - n
            }),
    {
        let n: usize = least_of(self.remaining, leftover.len());
        self.remaining = self.remaining - n;
        take_front(leftover, n)
    }

    /// Puts the bytes that arrived behind those that wait. No bytes mean that
    /// the peer has closed the connection, which it may not do while bytes are
    /// due.
    pub fn feed(&self, leftover: &mut Vec<u8>, data: &[u8]) -> (r: Result<(), Error>)
        ensures
            final(leftover)@ == old(leftover)@ + data@,
            match r {
                Ok(_) => data@.len() > 0 || self.remaining == 0,
                Err(e) => {
                    &&& data@.len() == 0 && self.remaining > 0
                    &&& e@ == ErrorView::Http("unexpected eof reading body"@)
                },
            },
    {
        if self.remaining == 0 {
            leftover.extend_from_slice(data);
            assert(leftover@ == old(leftover)@ + data@);
            return Ok(());
        }
        feed_body(leftover, data)
    }

    /// How many bytes to ask for next; none at the end of the body.
    pub fn wanted(&self) -> (r: usize)
        ensures
            r as nat == least(self.remaining as nat, BODY_READ as nat),
    {
        least_of(self.remaining, BODY_READ)
    }
}

/// How the bytes of a body of `count` bytes arrive makes no difference: what
/// is passed on of `a`, and then of what is left of it and `b`, is what is
/// passed on of `a` and `b` at once.
pub proof fn fixed_body_goes_on(count: nat, a: Seq<u8>, b: Seq<u8>)
    ensures
        ({
            let n = least(count, a.len());
            let rest = a.skip(n as int) + b;
            let m = least((count - n) as nat, rest.len());
            let all = least(count, (a + b).len());
            &&& a.take(n as int) + rest.take(m as int) == (a + b).take(all as int)
            &&& rest.skip(m as int) == (a + b).skip(all as int)
        }),
{
}

/// A short answer in plain text, after which the connection is closed.
pub open spec fn simple_text(status: u16, msg: Seq<char>) -> Seq<char> {
    "HTTP/1.1 "@ + decimal(status as nat) + " "@ + usual_reason(status)
        + "\r\nContent-Type: text/plain; charset=utf-8\r\nContent-Length: "@ + decimal(
        encode_utf8(msg + "\n"@).len(),
    ) + "\r\nConnection: close\r\n\r\n"@ + msg + "\n"@
}

/// Writes out a short answer in plain text.
pub fn simple_response(status: u16, msg: &str) -> (r: Vec<u8>)
    ensures
        r@ == encode_utf8(simple_text(status, msg@)),
{
    let mut body = msg.to_owned();
    body.append("\n");
    let length: usize = body.as_str().as_bytes().len();
    let mut out = "HTTP/1.1 ".to_owned();
    push_decimal(&mut out, status as u64);
    out.append(" ");
    out.append(status_reason(status));
    out.append("\r\nContent-Type: text/plain; charset=utf-8\r\nContent-Length: ");
    push_decimal(&mut out, length as u64);
    out.append("\r\nConnection: close\r\n\r\n");
    out.append(body.as_str());
    assert(out@ == simple_text(status, msg@));
    out.as_str().as_bytes_vec()
}

} // verus!
