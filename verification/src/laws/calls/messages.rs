//! Calls on messages, and on the bytes that hold them.
use crate::boundary::{request_head, response_head, RawRequest, RawResponse};
use crate::bytes::least;
use crate::chunk::{
    line_in, past_line, read_size, size_fault, size_of, take_line, ChunkedReader, ChunkedRelay,
    Gathering, Halt, Passing, Phase,
};
use crate::error::{Error, ErrorView};
use crate::http1::{
    chunked, closes, connection_close, content_length, copy_headers, encode_request,
    encode_response, encode_response_to_client, find_header, header_of, is_chunked, is_hop_by_hop,
    length_of, parse_request_head, parse_response_head, passed_on, pick_proxy_auth, picked,
    proxy_authenticate, request_bytes, request_from, request_of, response_from, response_of,
    response_text, shown, status_reason, usual_reason, values_of, ClientRequest, RequestView,
    ResponseView, ServerResponse,
};
use crate::io::{
    feed_body, feed_head, find_header_end, framing, framing_of, head_end, request_framing,
    request_framing_of, simple_response, simple_text, take_exact, take_head, wanted, FixedRelay,
    Framing,
};
use crate::text::same_word;
use vstd::prelude::*;
use vstd::utf8::encode_utf8;

verus! {

/// The header fields are asked about as they are, and the answers are those of
/// the laws on header fields.
pub proof fn header_fields_are_asked_about(headers: &[(String, String)], name: &str)
    ensures
        forall|r: Option<&str>| #[trigger]
            call_ensures(find_header, (headers, name), r) ==> r.deep_view() == header_of(
                headers.deep_view(),
                name@,
            ),
        forall|r: Option<usize>| #[trigger]
            call_ensures(content_length, (headers,), r) ==> match r {
                Some(n) => length_of(headers.deep_view()) == Some(n as nat),
                None => length_of(headers.deep_view()) is None,
            },
        forall|r: bool| #[trigger]
            call_ensures(is_chunked, (headers,), r) ==> r == chunked(headers.deep_view()),
        forall|r: bool| #[trigger]
            call_ensures(connection_close, (headers,), r) ==> r == closes(headers.deep_view()),
        forall|r: Vec<String>| #[trigger]
            call_ensures(proxy_authenticate, (headers,), r) ==> r.deep_view() == values_of(
                headers.deep_view(),
                "proxy-authenticate"@,
            ),
        forall|r: Vec<(String, String)>| #[trigger]
            call_ensures(copy_headers, (headers,), r) ==> r.deep_view() == headers.deep_view(),
        forall|r: Framing| #[trigger]
            call_ensures(framing, (headers,), r) ==> r == framing_of(headers.deep_view()),
{
}

/// A name concerns one connection only where it is one of nine.
pub proof fn nine_names_concern_one_connection(name: &str)
    ensures
        forall|r: bool| #[trigger]
            call_ensures(is_hop_by_hop, (name,), r) ==> (r <==> same_word(name@, "connection"@)
                || same_word(name@, "proxy-connection"@) || same_word(name@, "keep-alive"@)
                || same_word(name@, "te"@) || same_word(name@, "trailers"@) || same_word(
                name@,
                "transfer-encoding"@,
            ) || same_word(name@, "upgrade"@) || same_word(name@, "proxy-authorization"@)
                || same_word(name@, "proxy-authenticate"@)),
{
}

/// A challenge is picked as the laws on challenges say.
pub proof fn challenge_is_picked(challenges: &[String])
    ensures
        forall|r: Option<(String, Option<String>)>| #[trigger]
            call_ensures(pick_proxy_auth, (challenges,), r) ==> r.deep_view() == picked(
                challenges.deep_view(),
            ),
{
}

/// A request is asked where it goes, and is changed in nothing but its target.
pub proof fn request_is_asked_where_it_goes(req: &ClientRequest, name: &str, target: String)
    ensures
        forall|r: bool| #[trigger]
            call_ensures(ClientRequest::is_connect, (req,), r) ==> (r <==> same_word(
                req@.method,
                "CONNECT"@,
            )),
        forall|r: Option<&str>| #[trigger]
            call_ensures(ClientRequest::header, (req, name), r) ==> r.deep_view() == header_of(
                req@.headers,
                name@,
            ),
        forall|r: Result<(String, u16), Error>| #[trigger]
            call_ensures(ClientRequest::destination, (req,), r) ==> match r {
                Ok((host, port)) => req@.destination() == Ok::<(Seq<char>, u16), ErrorView>(
                    (host@, port),
                ),
                Err(e) => req@.destination() == Err::<(Seq<char>, u16), ErrorView>(e@),
            },
        forall|r: String| #[trigger]
            call_ensures(ClientRequest::origin_form_target, (req,), r) ==> r@ == req@.origin_form(),
        forall|r: ClientRequest| #[trigger]
            call_ensures(ClientRequest::with_target, (req, target), r) ==> {
                &&& r@.target == target@
                &&& r@.method == req@.method
                &&& r@.version == req@.version
                &&& r@.headers == req@.headers
                &&& r@.body == req@.body
            },
{
}

/// Messages are written as the laws on requests and responses say.
pub proof fn messages_are_written(
    req: &ClientRequest,
    extra: &[(&str, &str)],
    include_body: bool,
    res: &ServerResponse,
    status: u16,
    msg: &str,
)
    ensures
        forall|r: Vec<u8>| #[trigger]
            call_ensures(encode_request, (req, extra, include_body), r) ==> r@ == request_bytes(
                req@,
                extra.deep_view(),
                include_body,
            ),
        forall|r: Vec<u8>| #[trigger]
            call_ensures(encode_response_to_client, (res,), r) ==> r@ == encode_utf8(
                response_text(res@, shown(res@.headers)),
            ),
        forall|r: Vec<u8>| #[trigger]
            call_ensures(encode_response, (res, extra), r) ==> r@ == encode_utf8(
                response_text(res@, passed_on(res@.headers) + extra.deep_view()),
            ),
        forall|r: &'static str| #[trigger]
            call_ensures(status_reason, (status,), r) ==> r@ == usual_reason(status),
        forall|r: Vec<u8>| #[trigger]
            call_ensures(simple_response, (status, msg), r) ==> r@ == encode_utf8(
                simple_text(status, msg@),
            ),
{
}

/// Heads are read with room for sixty-four header fields, and what is found in
/// them becomes the message.
pub proof fn heads_are_read(raw: &[u8], request: RawRequest, response: RawResponse)
    ensures
        forall|r: Result<ClientRequest, Error>| #[trigger]
            call_ensures(parse_request_head, (raw,), r) ==> match r {
                Ok(req) => request_of(request_head(raw@, 64)) == Ok::<RequestView, ErrorView>(req@),
                Err(e) => request_of(request_head(raw@, 64)) == Err::<RequestView, ErrorView>(e@),
            },
        forall|r: Result<ServerResponse, Error>| #[trigger]
            call_ensures(parse_response_head, (raw,), r) ==> match r {
                Ok(res) => response_of(response_head(raw@, 64)) == Ok::<ResponseView, ErrorView>(
                    res@,
                ),
                Err(e) => response_of(response_head(raw@, 64)) == Err::<ResponseView, ErrorView>(
                    e@,
                ),
            },
        forall|r: Result<ClientRequest, Error>| #[trigger]
            call_ensures(request_from, (request,), r) ==> match r {
                Ok(req) => request_of(request@) == Ok::<RequestView, ErrorView>(req@),
                Err(e) => request_of(request@) == Err::<RequestView, ErrorView>(e@),
            },
        forall|r: Result<ServerResponse, Error>| #[trigger]
            call_ensures(response_from, (response,), r) ==> match r {
                Ok(res) => response_of(response@) == Ok::<ResponseView, ErrorView>(res@),
                Err(e) => response_of(response@) == Err::<ResponseView, ErrorView>(e@),
            },
{
}

/// A head that is taken out of the bytes that wait, and what is left of them,
/// are those bytes; nothing is taken while it is incomplete, and it is refused
/// only where it is incomplete and too long.
pub proof fn head_is_taken_whole(max: usize)
    ensures
        forall|left: &mut Vec<u8>, r: Result<Option<Vec<u8>>, Error>| #[trigger]
            call_ensures(take_head, (left, max), r) ==> match r {
                Ok(Some(head)) => head@ + final(left)@ == left@ && head@.len() == head_end(left@),
                Ok(None) => final(left)@ == left@ && head_end(left@) < 0 && left@.len() <= max,
                Err(e) => {
                    &&& final(left)@ == left@
                    &&& head_end(left@) < 0
                    &&& left@.len() > max
                    &&& e@ == ErrorView::Http("header block too large"@)
                },
            },
        forall|buf: &[u8], r: Option<usize>| #[trigger]
            call_ensures(find_header_end, (buf,), r) ==> match r {
                Some(n) => head_end(buf@) == n,
                None => head_end(buf@) < 0,
            },
{
    assert forall|left: &mut Vec<u8>, r: Result<Option<Vec<u8>>, Error>| #[trigger]
        call_ensures(take_head, (left, max), r) implies match r {
        Ok(Some(head)) => head@ + final(left)@ == left@ && head@.len() == head_end(left@),
        Ok(None) => final(left)@ == left@ && head_end(left@) < 0 && left@.len() <= max,
        Err(e) => {
            &&& final(left)@ == left@
            &&& head_end(left@) < 0
            &&& left@.len() > max
            &&& e@ == ErrorView::Http("header block too large"@)
        },
    } by {
        if let Ok(Some(head)) = r {
            crate::laws::bodies::head_ends_with_the_first_blank_line(left@, 0);
            let n = head_end(left@);
            assert(left@.take(n) + left@.skip(n) == left@);
        }
    }
}

/// A body of a given length is taken out of the bytes that wait once it is
/// complete, and then whole; and no more is asked for than is missing.
pub proof fn body_is_taken_whole(len: usize, waiting: usize)
    ensures
        forall|left: &mut Vec<u8>, r: Option<Vec<u8>>| #[trigger]
            call_ensures(take_exact, (left, len), r) ==> match r {
                Some(body) => body@.len() == len && body@ + final(left)@ == left@,
                None => left@.len() < len && final(left)@ == left@,
            },
        forall|r: usize| #[trigger]
            call_ensures(wanted, (waiting, len), r) && waiting <= len ==> {
                &&& r <= len - waiting
                &&& r <= 32768
                &&& r == len - waiting || r == 32768
            },
{
    assert forall|left: &mut Vec<u8>, r: Option<Vec<u8>>| #[trigger]
        call_ensures(take_exact, (left, len), r) implies match r {
        Some(body) => body@.len() == len && body@ + final(left)@ == left@,
        None => left@.len() < len && final(left)@ == left@,
    } by {
        if r is Some {
            assert(left@.take(len as int) + left@.skip(len as int) == left@);
        }
    }
}

/// Bytes that arrive are put behind those that wait, and none means that the
/// peer has closed the connection too early.
pub proof fn bytes_are_put_behind_those_that_wait(data: &[u8])
    ensures
        forall|left: &mut Vec<u8>, r: Result<(), Error>| #[trigger]
            call_ensures(feed_head, (left, data), r) ==> {
                &&& final(left)@ == left@ + data@
                &&& match r {
                    Ok(_) => data@.len() > 0,
                    Err(e) => data@.len() == 0 && e@ == ErrorView::Http(
                        "peer closed before sending headers"@,
                    ),
                }
            },
        forall|left: &mut Vec<u8>, r: Result<(), Error>| #[trigger]
            call_ensures(feed_body, (left, data), r) ==> {
                &&& final(left)@ == left@ + data@
                &&& match r {
                    Ok(_) => data@.len() > 0,
                    Err(e) => data@.len() == 0 && e@ == ErrorView::Http(
                        "unexpected eof reading body"@,
                    ),
                }
            },
        forall|phase: Phase, left: &mut Vec<u8>, r: Result<(), Error>| #[trigger]
            call_ensures(Phase::feed, (phase, left, data), r) ==> {
                &&& final(left)@ == left@ + data@
                &&& match r {
                    Ok(_) => phase.refuses(left@.len(), data@) is None,
                    Err(e) => phase.refuses(left@.len(), data@) == Some(e@),
                }
            },
        forall|phase: Phase, r: usize| #[trigger]
            call_ensures(Phase::wanted, (phase,), r) ==> r == phase.asks(),
{
}

/// A body of a given length is passed on byte for byte, and no byte after it:
/// what is passed on and what is left are the bytes that waited, and nothing is
/// left while bytes are due.
pub proof fn body_of_given_length_is_passed_on(count: usize, data: &[u8])
    ensures
        forall|r: FixedRelay| #[trigger]
            call_ensures(FixedRelay::new, (count,), r) ==> r.remaining == count,
        forall|relay: &mut FixedRelay, left: &mut Vec<u8>, r: Vec<u8>| #[trigger]
            call_ensures(FixedRelay::pass, (relay, left), r) ==> {
                &&& r@ + final(left)@ == left@
                &&& r@.len() + final(relay).remaining == relay.remaining
                &&& final(relay).remaining > 0 ==> final(left)@.len() == 0
            },
        forall|relay: &FixedRelay, left: &mut Vec<u8>, r: Result<(), Error>| #[trigger]
            call_ensures(FixedRelay::feed, (relay, left, data), r) ==> {
                &&& final(left)@ == left@ + data@
                &&& r is Err <==> data@.len() == 0 && relay.remaining > 0
            },
        forall|relay: &FixedRelay, r: usize| #[trigger]
            call_ensures(FixedRelay::wanted, (relay,), r) ==> {
                &&& r <= relay.remaining
                &&& r <= 32768
                &&& r == relay.remaining || r == 32768
            },
{
    assert forall|relay: &mut FixedRelay, left: &mut Vec<u8>, r: Vec<u8>| #[trigger]
        call_ensures(FixedRelay::pass, (relay, left), r) implies {
        &&& r@ + final(left)@ == left@
        &&& r@.len() + final(relay).remaining == relay.remaining
        &&& final(relay).remaining > 0 ==> final(left)@.len() == 0
    } by {
        let n = least(relay.remaining as nat, left@.len()) as int;
        assert(left@.take(n) + left@.skip(n) == left@);
    }
}

/// The body of a request is framed as the laws on header fields say.
pub proof fn request_body_is_framed(req: &ClientRequest, max: usize)
    ensures
        forall|r: Result<Framing, Error>| #[trigger]
            call_ensures(request_framing, (req, max), r) ==> match r {
                Ok(f) => request_framing_of(req@, max as nat) == Ok::<Framing, ErrorView>(f),
                Err(e) => request_framing_of(req@, max as nat) == Err::<Framing, ErrorView>(e@),
            },
{
}

/// Chunks are read line by line and gathered or passed on as the laws on chunks
/// say.
pub proof fn chunks_are_read(line: &str, max: usize)
    ensures
        forall|left: &mut Vec<u8>, r: Option<String>| #[trigger]
            call_ensures(take_line, (left,), r) ==> match r {
                Some(t) => line_in(left@) == Some(t@) && final(left)@ == past_line(left@),
                None => line_in(left@) is None && final(left)@ == left@,
            },
        forall|r: Result<usize, Error>| #[trigger]
            call_ensures(read_size, (line,), r) ==> match r {
                Ok(n) => size_of(line@) == Some(n as nat),
                Err(e) => size_of(line@) is None && e@ == size_fault(line@),
            },
        forall|r: ChunkedReader| #[trigger]
            call_ensures(ChunkedReader::new, (max,), r) ==> r.max == max && r.phase == Phase::Size
                && r.body@.len() == 0,
        forall|reader: &mut ChunkedReader, left: &mut Vec<u8>, r: Result<bool, Error>| #[trigger]
            call_ensures(ChunkedReader::advance, (reader, left), r) ==> {
                let before = Gathering {
                    phase: reader.phase,
                    body: reader.body@,
                    waiting: left@,
                };
                let (after, halt) = before.run(reader.max as nat);
                &&& final(reader).phase == after.phase
                &&& final(reader).body@ == after.body
                &&& final(reader).max == reader.max
                &&& final(left)@ == after.waiting
                &&& r == Ok::<bool, Error>(true) <==> halt == Halt::Done
                &&& r == Ok::<bool, Error>(false) <==> halt == Halt::More
                &&& r matches Err(e) ==> halt == Halt::Fault(e@)
            },
        forall|r: ChunkedRelay| #[trigger]
            call_ensures(ChunkedRelay::new, (), r) ==> r.phase == Phase::Size && r.held@.len() == 0,
        forall|
            relay: &mut ChunkedRelay,
            left: &mut Vec<u8>,
            out: &mut Vec<u8>,
            r: Result<bool, Error>,
        | #[trigger]
            call_ensures(ChunkedRelay::advance, (relay, left, out), r) ==> {
                let before = Passing {
                    phase: relay.phase,
                    held: relay.held@,
                    waiting: left@,
                    sent: out@,
                };
                let (after, halt) = before.run();
                &&& final(relay).phase == after.phase
                &&& final(relay).held@ == after.held
                &&& final(left)@ == after.waiting
                &&& final(out)@ == after.sent
                &&& r == Ok::<bool, Error>(true) <==> halt == Halt::Done
                &&& r == Ok::<bool, Error>(false) <==> halt == Halt::More
                &&& r matches Err(e) ==> halt == Halt::Fault(e@)
            },
{
    assert forall|r: ChunkedReader| #[trigger]
        call_ensures(ChunkedReader::new, (max,), r) implies r.max == max && r.phase == Phase::Size
        && r.body@.len() == 0 by {
        assert(r.with(Seq::empty()) == Gathering::start(Seq::empty()));
    }
    assert forall|r: ChunkedRelay| #[trigger]
        call_ensures(ChunkedRelay::new, (), r) implies r.phase == Phase::Size && r.held@.len() == 0 by {
        assert(r.with(Seq::empty(), Seq::empty()) == Passing::start(Seq::empty()));
    }
}

} // verus!
