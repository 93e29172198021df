//! HTTP/1 messages: reading heads, looking at header fields, and writing
//! messages out.
use crate::boundary::{
    are_fields, in_bytes, is_reason, is_target, is_value, is_word, lossy_text, parse_request,
    parse_response, request_head, response_head, written_request, written_response, RawRequest,
    RawResponse, RequestHead, ResponseHead,
};
use crate::config::{
    authority_of, host_or_default, needed_host_port, parse_authority, parse_host_or, parse_host_port,
};
use crate::error::{Error, ErrorView};
use crate::number::{
    decimal, lemma_digits_are_digits, push_decimal, read_unsigned, unsigned_up_to,
};
use crate::text::{
    after, after_prefix, before, chars_of, contains, contains_text, cut, cut_at, find_first,
    includes, is_same_word, is_text, lemma_first_at, lossy, lower, lowered, occurs, pieces, same_word,
    text_of, trim, trimmed, words, words_of, Class,
};
use vstd::prelude::*;
use vstd::slice::slice_subrange;
use vstd::string::{StrSliceExecFns, StringExecFns};
use vstd::utf8::{encode_utf8, encode_utf8_decode_utf8, encode_utf8_valid_utf8};

verus! {

/// A first line with header fields.
#[derive(Debug, Clone)]
pub struct HttpHead {
    pub first_line: String,
    pub headers: Vec<(String, String)>,
}

/// A request that a client made.
#[derive(Debug, Clone)]
pub struct ClientRequest {
    pub method: String,
    pub target: String,
    pub version: String,
    pub headers: Vec<(String, String)>,
    pub body: Vec<u8>,
}

/// A request, in sequences.
pub struct RequestView {
    pub method: Seq<char>,
    pub target: Seq<char>,
    pub version: Seq<char>,
    pub headers: Seq<(Seq<char>, Seq<char>)>,
    pub body: Seq<u8>,
}

impl View for ClientRequest {
    type V = RequestView;

    open spec fn view(&self) -> RequestView {
        RequestView {
            method: self.method@,
            target: self.target@,
            version: self.version@,
            headers: self.headers.deep_view(),
            body: self.body@,
        }
    }
}

/// The head of a response that a server gave.
#[derive(Debug, Clone)]
pub struct ServerResponse {
    pub version: String,
    pub status: u16,
    pub reason: String,
    pub headers: Vec<(String, String)>,
}

/// The head of a response, in sequences.
pub struct ResponseView {
    pub version: Seq<char>,
    pub status: u16,
    pub reason: Seq<char>,
    pub headers: Seq<(Seq<char>, Seq<char>)>,
}

impl View for ServerResponse {
    type V = ResponseView;

    open spec fn view(&self) -> ResponseView {
        ResponseView {
            version: self.version@,
            status: self.status,
            reason: self.reason@,
            headers: self.headers.deep_view(),
        }
    }
}

/// The value of the first header field of that name; the case of letters makes
/// no difference.
pub open spec fn header_of(headers: Seq<(Seq<char>, Seq<char>)>, name: Seq<char>) -> Option<
    Seq<char>,
>
    decreases headers.len(),
{
    if headers.len() == 0 {
        None
    } else if same_word(headers[0].0, name) {
        Some(headers[0].1)
    } else {
        header_of(headers.drop_first(), name)
    }
}

/// Finds the value of the first header field of that name.
pub fn find_header<'a>(headers: &'a [(String, String)], name: &str) -> (r: Option<&'a str>)
    ensures
        match r {
            Some(v) => header_of(headers.deep_view(), name@) == Some(v@),
            None => header_of(headers.deep_view(), name@) is None,
        },
{
    let ghost all = headers.deep_view();
    assert(all.skip(0) == all);
    for i in 0..headers.len()
        invariant
            all == headers.deep_view(),
            header_of(all, name@) == header_of(all.skip(i as int), name@),
    {
        assert(all.skip(i as int)[0] == all[i as int]);
        assert(all.skip(i as int).drop_first() == all.skip(i + 1));
        if is_same_word(headers[i].0.as_str(), name) {
            return Some(headers[i].1.as_str());
        }
    }
    None
}

/// The length that the header fields give for the body.
pub open spec fn length_of(headers: Seq<(Seq<char>, Seq<char>)>) -> Option<nat> {
    match header_of(headers, "content-length"@) {
        Some(v) => unsigned_up_to(v, 10, usize::MAX as nat),
        None => None,
    }
}

/// The length that the header fields give for the body.
pub fn content_length(headers: &[(String, String)]) -> (r: Option<usize>)
    ensures
        match r {
            Some(n) => length_of(headers.deep_view()) == Some(n as nat),
            None => length_of(headers.deep_view()) is None,
        },
{
    match find_header(headers, "content-length") {
        Some(v) => {
            let text = chars_of(v);
            match read_unsigned(text.as_slice(), 10, usize::MAX as u64) {
                Some(n) => Some(n as usize),
                None => None,
            }
        },
        None => None,
    }
}

/// Whether the header fields say that the body comes in chunks.
pub open spec fn chunked(headers: Seq<(Seq<char>, Seq<char>)>) -> bool {
    match header_of(headers, "transfer-encoding"@) {
        Some(v) => occurs(lower(v), "chunked"@),
        None => false,
    }
}

/// Whether the header fields say that the body comes in chunks.
pub fn is_chunked(headers: &[(String, String)]) -> (r: bool)
    ensures
        r == chunked(headers.deep_view()),
{
    match find_header(headers, "transfer-encoding") {
        Some(v) => {
            let text = lowered(chars_of(v).as_slice());
            let word = chars_of("chunked");
            contains_text(text.as_slice(), word.as_slice())
        },
        None => false,
    }
}

/// Whether the header fields say that the connection ends with the message.
pub open spec fn closes(headers: Seq<(Seq<char>, Seq<char>)>) -> bool {
    match header_of(headers, "connection"@) {
        Some(v) => some_close(cut(lower(v), Class::One(','))),
        None => false,
    }
}

/// Whether one of the options, without white space around it, is `close`.
pub open spec fn some_close(options: Seq<Seq<char>>) -> bool {
    exists|i: int| 0 <= i < options.len() && trim(#[trigger] options[i]) == "close"@
}

/// Whether the header fields say that the connection ends with the message.
pub fn connection_close(headers: &[(String, String)]) -> (r: bool)
    ensures
        r == closes(headers.deep_view()),
{
    match find_header(headers, "connection") {
        Some(v) => {
            let text = lowered(chars_of(v).as_slice());
            let parts = cut_at(text.as_slice(), Class::One(','));
            let ghost all = cut(lower(v@), Class::One(','));
            for i in 0..parts.len()
                invariant
                    header_of(headers.deep_view(), "connection"@) == Some(v@),
                    all == cut(lower(v@), Class::One(',')),
                    all == pieces(parts@),
                    forall|j: int| 0 <= j < i ==> trim(#[trigger] all[j]) != "close"@,
            {
                assert(all[i as int] == parts@[i as int]@);
                if is_text(trimmed(parts[i]), "close") {
                    return true;
                }
            }
            false
        },
        None => false,
    }
}

/// The values of all header fields of that name, in their order.
pub open spec fn values_of(headers: Seq<(Seq<char>, Seq<char>)>, name: Seq<char>) -> Seq<Seq<char>>
    decreases headers.len(),
{
    if headers.len() == 0 {
        Seq::empty()
    } else {
        let rest = values_of(headers.drop_last(), name);
        if same_word(headers.last().0, name) {
            rest.push(headers.last().1)
        } else {
            rest
        }
    }
}

/// The challenges by which a proxy asks for authentication.
pub fn proxy_authenticate(headers: &[(String, String)]) -> (r: Vec<String>)
    ensures
        r.deep_view() == values_of(headers.deep_view(), "proxy-authenticate"@),
{
    let mut out: Vec<String> = Vec::new();
    let ghost all = headers.deep_view();
    let ghost name = "proxy-authenticate"@;
    assert(out.deep_view() == values_of(all.take(0), name));
    for i in 0..headers.len()
        invariant
            all == headers.deep_view(),
            name == "proxy-authenticate"@,
            out.deep_view() == values_of(all.take(i as int), name),
    {
        assert(all.take(i + 1).drop_last() == all.take(i as int));
        let ghost done = out.deep_view();
        if is_same_word(headers[i].0.as_str(), "proxy-authenticate") {
            out.push(headers[i].1.clone());
            assert(out.deep_view() == done.push(all[i as int].1));
        }
    }
    assert(all.take(all.len() as int) == all);
    out
}

/// How much an authentication scheme is preferred; none is 0.
pub open spec fn scheme_rank(scheme: Seq<char>) -> nat {
    let s = lower(scheme);
    if s == "negotiate"@ {
        3
    } else if s == "ntlm"@ {
        2
    } else if s == "basic"@ {
        1
    } else {
        0
    }
}

/// How much a challenge is preferred: by its scheme, its first word.
pub open spec fn rank(challenge: Seq<char>) -> nat {
    if words(challenge).len() == 0 {
        0
    } else {
        scheme_rank(words(challenge)[0])
    }
}

/// Of the first `n` challenges the one that is preferred most, of several the
/// first; `-1` where no scheme is known.
pub open spec fn preferred(challenges: Seq<Seq<char>>, n: nat) -> int
    decreases n,
{
    if n == 0 {
        -1
    } else {
        let b = preferred(challenges, (n - 1) as nat);
        let r = rank(challenges[n - 1]);
        if r > 0 && (b < 0 || r > rank(challenges[b])) {
            n - 1
        } else {
            b
        }
    }
}

/// The scheme, and the token if there is one, of the preferred challenge.
/// Nothing is picked where no scheme is known. A blank challenge offers none.
pub open spec fn picked(challenges: Seq<Seq<char>>) -> Option<(Seq<char>, Option<Seq<char>>)> {
    let b = preferred(challenges, challenges.len());
    if b < 0 {
        None
    } else {
        let w = words(challenges[b]);
        Some(
            (
                w[0],
                if w.len() > 1 {
                    Some(w[1])
                } else {
                    None
                },
            ),
        )
    }
}

fn rank_of(scheme: &[char]) -> (r: u8)
    ensures
        r == scheme_rank(scheme@),
{
    let s = lowered(scheme);
    if is_text(s.as_slice(), "negotiate") {
        3
    } else if is_text(s.as_slice(), "ntlm") {
        2
    } else if is_text(s.as_slice(), "basic") {
        1
    } else {
        0
    }
}

/// Picks Negotiate over NTLM over Basic. Returns the scheme and the token that
/// came with it.
pub fn pick_proxy_auth(challenges: &[String]) -> (r: Option<(String, Option<String>)>)
    ensures
        r.deep_view() == picked(challenges.deep_view()),
{
    let ghost all = challenges.deep_view();
    let mut best: Option<(String, Option<String>)> = None;
    let mut best_rank: u8 = 0;
    for i in 0..challenges.len()
        invariant
            all == challenges.deep_view(),
            ({
                let b = preferred(all, i as nat);
                if b < 0 {
                    best is None && best_rank == 0
                } else {
                    &&& b < i
                    &&& best_rank == rank(all[b])
                    &&& best_rank > 0
                    &&& words(all[b]).len() > 0
                    &&& best.deep_view() == Some(
                        (
                            words(all[b])[0],
                            if words(all[b]).len() > 1 {
                                Some(words(all[b])[1])
                            } else {
                                None
                            },
                        ),
                    )
                }
            }),
    {
        let text = chars_of(challenges[i].as_str());
        assert(text@ == all[i as int]);
        let parts = words_of(text.as_slice());
        let ghost w = words(all[i as int]);
        if parts.len() > 0 {
            assert(w[0] == parts@[0]@);
            let r: u8 = rank_of(parts[0]);
            if r > 0 && r > best_rank {
                let token = if parts.len() > 1 {
                    assert(w[1] == parts@[1]@);
                    Some(text_of(parts[1]))
                } else {
                    None
                };
                best = Some((text_of(parts[0]), token));
                best_rank = r;
            }
        }
    }
    best
}

/// Whether a header field concerns one connection only, and is not passed on.
pub open spec fn hop_by_hop(name: Seq<char>) -> bool {
    ||| same_word(name, "connection"@)
    ||| same_word(name, "proxy-connection"@)
    ||| same_word(name, "keep-alive"@)
    ||| same_word(name, "te"@)
    ||| same_word(name, "trailers"@)
    ||| same_word(name, "transfer-encoding"@)
    ||| same_word(name, "upgrade"@)
    ||| same_word(name, "proxy-authorization"@)
    ||| same_word(name, "proxy-authenticate"@)
}

/// Whether a header field concerns one connection only, and is not passed on.
pub fn is_hop_by_hop(name: &str) -> (r: bool)
    ensures
        r == hop_by_hop(name@),
{
    is_same_word(name, "connection") || is_same_word(name, "proxy-connection") || is_same_word(
        name,
        "keep-alive",
    ) || is_same_word(name, "te") || is_same_word(name, "trailers") || is_same_word(
        name,
        "transfer-encoding",
    ) || is_same_word(name, "upgrade") || is_same_word(name, "proxy-authorization") || is_same_word(
        name,
        "proxy-authenticate",
    )
}

/// Whether a header field of a response is between the proxies only.
pub open spec fn between_proxies(name: Seq<char>) -> bool {
    ||| same_word(name, "proxy-authenticate"@)
    ||| same_word(name, "proxy-authorization"@)
    ||| same_word(name, "proxy-connection"@)
}

fn is_between_proxies(name: &str) -> (r: bool)
    ensures
        r == between_proxies(name@),
{
    is_same_word(name, "proxy-authenticate") || is_same_word(name, "proxy-authorization")
        || is_same_word(name, "proxy-connection")
}

/// A header field on a line of its own.
pub open spec fn field_line(name: Seq<char>, value: Seq<char>) -> Seq<char> {
    name + ": "@ + value + "\r\n"@
}

/// Header fields, each on a line of its own.
pub open spec fn field_lines(headers: Seq<(Seq<char>, Seq<char>)>) -> Seq<char>
    decreases headers.len(),
{
    if headers.len() == 0 {
        Seq::empty()
    } else {
        field_lines(headers.drop_last()) + field_line(headers.last().0, headers.last().1)
    }
}

proof fn lemma_field_lines(
    a: Seq<(Seq<char>, Seq<char>)>,
    b: Seq<(Seq<char>, Seq<char>)>,
)
    ensures
        field_lines(a + b) == field_lines(a) + field_lines(b),
    decreases b.len(),
{
    if b.len() == 0 {
        assert(a + b == a);
    } else {
        let rest = b.drop_last();
        assert((a + b).drop_last() == a + rest);
        lemma_field_lines(a, rest);
        assert(field_lines(a) + field_lines(rest) + field_line(b.last().0, b.last().1)
            == field_lines(a) + (field_lines(rest) + field_line(b.last().0, b.last().1)));
    }
}

/// The header fields that are passed on with a request.
pub open spec fn passed_on(headers: Seq<(Seq<char>, Seq<char>)>) -> Seq<(Seq<char>, Seq<char>)> {
    headers.filter(|h: (Seq<char>, Seq<char>)| !hop_by_hop(h.0))
}

/// The header fields that a client is shown.
pub open spec fn shown(headers: Seq<(Seq<char>, Seq<char>)>) -> Seq<(Seq<char>, Seq<char>)> {
    headers.filter(|h: (Seq<char>, Seq<char>)| !between_proxies(h.0))
}

fn push_field(out: &mut String, name: &str, value: &str)
    ensures
        final(out)@ == old(out)@ + field_line(name@, value@),
{
    out.append(name);
    out.append(": ");
    out.append(value);
    out.append("\r\n");
    assert(out@ == old(out)@ + field_line(name@, value@));
}

/// The header fields that go on: those that a client is shown, or those that
/// are passed on.
pub open spec fn going_on(
    headers: Seq<(Seq<char>, Seq<char>)>,
    to_client: bool,
) -> Seq<(Seq<char>, Seq<char>)> {
    if to_client {
        shown(headers)
    } else {
        passed_on(headers)
    }
}

fn push_going_on(out: &mut String, headers: &[(String, String)], to_client: bool)
    ensures
        final(out)@ == old(out)@ + field_lines(going_on(headers.deep_view(), to_client)),
{
    let ghost all = headers.deep_view();
    let ghost keep = if to_client {
        |h: (Seq<char>, Seq<char>)| !between_proxies(h.0)
    } else {
        |h: (Seq<char>, Seq<char>)| !hop_by_hop(h.0)
    };
    proof {
        reveal(Seq::filter);
        assert(out@ == old(out)@ + field_lines(all.take(0).filter(keep)));
    }
    for i in 0..headers.len()
        invariant
            all == headers.deep_view(),
            forall|h: (Seq<char>, Seq<char>)| #[trigger]
                keep(h) == if to_client {
                    !between_proxies(h.0)
                } else {
                    !hop_by_hop(h.0)
                },
            out@ == old(out)@ + field_lines(all.take(i as int).filter(keep)),
    {
        let ghost done = all.take(i as int).filter(keep);
        proof {
            reveal(Seq::filter);
            assert(all.take(i + 1).drop_last() == all.take(i as int));
            assert(done.push(all[i as int]).drop_last() == done);
        }
        let name = headers[i].0.as_str();
        let stays = if to_client {
            is_between_proxies(name)
        } else {
            is_hop_by_hop(name)
        };
        assert(keep(all[i as int]) == !stays);
        if !stays {
            push_field(out, name, headers[i].1.as_str());
            assert(out@ == old(out)@ + field_lines(done.push(all[i as int])));
        }
    }
    assert(all.take(all.len() as int) == all);
}

fn push_fields(out: &mut String, extra: &[(&str, &str)])
    ensures
        final(out)@ == old(out)@ + field_lines(extra.deep_view()),
{
    let ghost all = extra.deep_view();
    assert(out@ == old(out)@ + field_lines(all.take(0)));
    for i in 0..extra.len()
        invariant
            all == extra.deep_view(),
            out@ == old(out)@ + field_lines(all.take(i as int)),
    {
        assert(all.take(i + 1).drop_last() == all.take(i as int));
        push_field(out, extra[i].0, extra[i].1);
        assert(out@ == old(out)@ + field_lines(all.take(i + 1)));
    }
    assert(all.take(all.len() as int) == all);
}

/// The line that gives the length of the body, where the encoder adds one: a
/// body that is held back is announced as empty, and a body that is sent
/// without a length in the header fields gets its length.
pub open spec fn length_line(req: RequestView, include_body: bool) -> Seq<char> {
    if !include_body && req.body.len() > 0 {
        "Content-Length: 0\r\n"@
    } else if include_body && req.body.len() > 0 && header_of(req.headers, "content-length"@) is None {
        "Content-Length: "@ + decimal(req.body.len()) + "\r\n"@
    } else {
        Seq::empty()
    }
}

/// The head of a request as it is sent: with the header fields that are passed
/// on and the fields `extra`.
pub open spec fn request_text(
    req: RequestView,
    extra: Seq<(Seq<char>, Seq<char>)>,
    include_body: bool,
) -> Seq<char> {
    req.method + " "@ + req.target + " "@ + req.version + "\r\n"@ + field_lines(
        passed_on(req.headers),
    ) + field_lines(extra) + length_line(req, include_body) + "\r\n"@
}

/// A request as it is sent.
pub open spec fn request_bytes(
    req: RequestView,
    extra: Seq<(Seq<char>, Seq<char>)>,
    include_body: bool,
) -> Seq<u8> {
    let body = if include_body {
        req.body
    } else {
        Seq::empty()
    };
    encode_utf8(request_text(req, extra, include_body)) + body
}

/// Writes a request out, with `extra` header fields, and with its body or
/// without it.
pub fn encode_request(req: &ClientRequest, extra: &[(&str, &str)], include_body: bool) -> (r: Vec<
    u8,
>)
    ensures
        r@ == request_bytes(req@, extra.deep_view(), include_body),
{
    let mut head = req.method.clone();
    head.append(" ");
    head.append(req.target.as_str());
    head.append(" ");
    head.append(req.version.as_str());
    head.append("\r\n");
    push_going_on(&mut head, req.headers.as_slice(), false);
    push_fields(&mut head, extra);
    if !include_body && !req.body.is_empty() {
        head.append("Content-Length: 0\r\n");
    } else if include_body && !req.body.is_empty() && find_header(
        req.headers.as_slice(),
        "content-length",
    ).is_none() {
        head.append("Content-Length: ");
        push_decimal(&mut head, req.body.len() as u64);
        head.append("\r\n");
    }
    head.append("\r\n");
    assert(head@ == request_text(req@, extra.deep_view(), include_body));
    let mut out = head.as_str().as_bytes_vec();
    if include_body {
        out.extend_from_slice(req.body.as_slice());
    }
    assert(out@ == request_bytes(req@, extra.deep_view(), include_body));
    out
}

/// The reason phrase of a response: its own, or the usual one.
pub open spec fn reason_of(res: ResponseView) -> Seq<char> {
    if res.reason.len() == 0 {
        usual_reason(res.status)
    } else {
        res.reason
    }
}

/// The status line of a response.
pub open spec fn status_line(res: ResponseView) -> Seq<char> {
    res.version + " "@ + decimal(res.status as nat) + " "@ + reason_of(res) + "\r\n"@
}

fn push_status_line(out: &mut String, res: &ServerResponse)
    ensures
        final(out)@ == old(out)@ + status_line(res@),
{
    out.append(res.version.as_str());
    out.append(" ");
    push_decimal(out, res.status as u64);
    out.append(" ");
    if res.reason.as_str().is_empty() {
        out.append(status_reason(res.status));
    } else {
        out.append(res.reason.as_str());
    }
    out.append("\r\n");
    assert(out@ == old(out)@ + status_line(res@));
}

/// The head of a response as it is sent, with these header fields.
pub open spec fn response_text(
    res: ResponseView,
    fields: Seq<(Seq<char>, Seq<char>)>,
) -> Seq<char> {
    status_line(res) + field_lines(fields) + "\r\n"@
}

/// The head of a response as it is sent, with `rest` after it.
pub open spec fn response_bytes(
    res: ResponseView,
    fields: Seq<(Seq<char>, Seq<char>)>,
    rest: Seq<u8>,
) -> Seq<u8> {
    encode_utf8(response_text(res, fields)) + rest
}

/// Writes out the head of an upstream response for the client, keeping the
/// header fields that frame the body.
pub fn encode_response_to_client(res: &ServerResponse) -> (r: Vec<u8>)
    ensures
        r@ == encode_utf8(response_text(res@, shown(res@.headers))),
{
    let mut head = String::new();
    push_status_line(&mut head, res);
    push_going_on(&mut head, res.headers.as_slice(), true);
    head.append("\r\n");
    assert(head@ == response_text(res@, shown(res@.headers)));
    head.as_str().as_bytes_vec()
}

/// Writes out the head of a response, with `extra` header fields.
pub fn encode_response(res: &ServerResponse, extra: &[(&str, &str)]) -> (r: Vec<u8>)
    ensures
        r@ == encode_utf8(response_text(res@, passed_on(res@.headers) + extra.deep_view())),
{
    let mut head = String::new();
    push_status_line(&mut head, res);
    push_going_on(&mut head, res.headers.as_slice(), false);
    push_fields(&mut head, extra);
    head.append("\r\n");
    proof {
        lemma_field_lines(passed_on(res@.headers), extra.deep_view());
    }
    assert(head@ == response_text(res@, passed_on(res@.headers) + extra.deep_view()));
    head.as_str().as_bytes_vec()
}

/// The usual reason phrase of a status code.
pub open spec fn usual_reason(code: u16) -> Seq<char> {
    if code == 200 {
        "OK"@
    } else if code == 407 {
        "Proxy Authentication Required"@
    } else if code == 502 {
        "Bad Gateway"@
    } else if code == 504 {
        "Gateway Timeout"@
    } else if code == 500 {
        "Internal Server Error"@
    } else {
        "Error"@
    }
}

/// The usual reason phrase of a status code.
pub fn status_reason(code: u16) -> (r: &'static str)
    ensures
        r@ == usual_reason(code),
{
    match code {
        200 => "OK",
        407 => "Proxy Authentication Required",
        502 => "Bad Gateway",
        504 => "Gateway Timeout",
        500 => "Internal Server Error",
        _ => "Error",
    }
}

impl RequestView {
    /// Whether the request asks for a tunnel.
    pub open spec fn connects(self) -> bool {
        same_word(self.method, "CONNECT"@)
    }

    /// The host and the port that the request is for: of a tunnel its target;
    /// of a target that is a URL its authority; otherwise the `Host` field.
    /// Without a port, `https` goes to 443 and anything else to 80.
    pub open spec fn destination(self) -> Result<(Seq<char>, u16), ErrorView> {
        if self.connects() {
            in_message(needed_host_port(self.target))
        } else if "http://"@.is_prefix_of(self.target) {
            in_message(authority_of(self.target.skip("http://"@.len() as int), 80))
        } else if "https://"@.is_prefix_of(self.target) {
            in_message(authority_of(self.target.skip("https://"@.len() as int), 443))
        } else {
            match header_of(self.headers, "host"@) {
                Some(host) => in_message(host_or_default(host, 80)),
                None => Err(ErrorView::Http("missing Host header"@)),
            }
        }
    }

    /// The target as it is given to the server itself: of an `http` URL its
    /// path.
    pub open spec fn origin_form(self) -> Seq<char> {
        let rest = self.target.skip("http://"@.len() as int);
        if self.connects() || !"http://"@.is_prefix_of(self.target) {
            self.target
        } else if includes(rest, Class::One('/')) {
            "/"@ + after(rest, Class::One('/'))
        } else {
            "/"@
        }
    }
}

/// A host and a port, where what is said of a fault is a fault of the message.
pub open spec fn in_message(r: Result<(Seq<char>, u16), Seq<char>>) -> Result<
    (Seq<char>, u16),
    ErrorView,
> {
    match r {
        Ok(hp) => Ok(hp),
        Err(e) => Err(ErrorView::Http(e)),
    }
}

/// Whether `r` is the outcome `s`.
pub open spec fn destination_is(
    r: Result<(String, u16), Error>,
    s: Result<(Seq<char>, u16), ErrorView>,
) -> bool {
    match r {
        Ok((host, port)) => s == Ok::<(Seq<char>, u16), ErrorView>((host@, port)),
        Err(e) => s == Err::<(Seq<char>, u16), ErrorView>(e@),
    }
}

fn message_fault(r: Result<(String, u16), String>) -> (x: Result<(String, u16), Error>)
    ensures
        match r {
            Ok(hp) => x == Ok::<(String, u16), Error>(hp),
            Err(e) => x matches Err(f) && f@ == ErrorView::Http(e@),
        },
{
    match r {
        Ok(hp) => Ok(hp),
        Err(e) => Err(Error::Http(e)),
    }
}

impl ClientRequest {
    /// Whether the request asks for a tunnel.
    pub fn is_connect(&self) -> (r: bool)
        ensures
            r == self@.connects(),
    {
        is_same_word(self.method.as_str(), "CONNECT")
    }

    /// The value of the first header field of that name.
    pub fn header(&self, name: &str) -> (r: Option<&str>)
        ensures
            match r {
                Some(v) => header_of(self@.headers, name@) == Some(v@),
                None => header_of(self@.headers, name@) is None,
            },
    {
        find_header(self.headers.as_slice(), name)
    }

    /// Destination host and port for PAC / noproxy / CONNECT.
    pub fn destination(&self) -> (r: Result<(String, u16), Error>)
        ensures
            destination_is(r, self@.destination()),
    {
        if self.is_connect() {
            return message_fault(parse_host_port(self.target.as_str()));
        }
        let target = chars_of(self.target.as_str());
        if let Some(rest) = after_prefix(target.as_slice(), "http://") {
            return message_fault(parse_authority(rest, 80));
        }
        if let Some(rest) = after_prefix(target.as_slice(), "https://") {
            return message_fault(parse_authority(rest, 443));
        }
        match self.header("host") {
            Some(host) => {
                let text = chars_of(host);
                message_fault(parse_host_or(text.as_slice(), 80))
            },
            None => Err(Error::Http("missing Host header".to_owned())),
        }
    }

    /// The target as it is given to the server itself.
    pub fn origin_form_target(&self) -> (r: String)
        ensures
            r@ == self@.origin_form(),
    {
        if self.is_connect() {
            return self.target.clone();
        }
        let target = chars_of(self.target.as_str());
        match after_prefix(target.as_slice(), "http://") {
            Some(rest) => {
                let mut out = "/".to_owned();
                proof {
                    lemma_first_at(rest@, Class::One('/'));
                }
                let i: usize = find_first(rest, Class::One('/'));
                if i < rest.len() {
                    let path = slice_subrange(rest, i + 1, rest.len());
                    assert(path@ == after(rest@, Class::One('/')));
                    out.append(text_of(path).as_str());
                }
                out
            },
            None => self.target.clone(),
        }
    }

    /// A request like this one, with another target.
    pub fn with_target(&self, target: String) -> (r: ClientRequest)
        ensures
            r@ == (RequestView { target: target@, ..self@ }),
    {
        let headers = copy_headers(self.headers.as_slice());
        let mut body: Vec<u8> = Vec::new();
        body.extend_from_slice(self.body.as_slice());
        assert(body@ == self.body@);
        ClientRequest {
            method: self.method.clone(),
            target,
            version: self.version.clone(),
            headers,
            body,
        }
    }
}

/// Header fields like these.
pub fn copy_headers(headers: &[(String, String)]) -> (r: Vec<(String, String)>)
    ensures
        r.deep_view() == headers.deep_view(),
{
    let mut out: Vec<(String, String)> = Vec::new();
    for i in 0..headers.len()
        invariant
            out.deep_view() == headers.deep_view().take(i as int),
    {
        let ghost done = out.deep_view();
        out.push((headers[i].0.clone(), headers[i].1.clone()));
        assert(out.deep_view() == done.push(headers.deep_view()[i as int]));
    }
    assert(out.deep_view() == headers.deep_view());
    out
}

/// The version of HTTP; 1.1 where it is not known.
pub open spec fn version_text(version: Option<u8>) -> Seq<char> {
    if version == Some(0u8) {
        "HTTP/1.0"@
    } else {
        "HTTP/1.1"@
    }
}

fn version_name(version: Option<u8>) -> (r: String)
    ensures
        r@ == version_text(version),
{
    match version {
        Some(0) => "HTTP/1.0".to_owned(),
        _ => "HTTP/1.1".to_owned(),
    }
}

/// Header fields whose values are bytes, with the values as text.
pub open spec fn fields_of(headers: Seq<(Seq<char>, Seq<u8>)>) -> Seq<(Seq<char>, Seq<char>)> {
    Seq::new(headers.len(), |i: int| (headers[i].0, lossy(headers[i].1)))
}

fn owned_headers(headers: &[(String, Vec<u8>)]) -> (r: Vec<(String, String)>)
    ensures
        r.deep_view() == fields_of(headers.deep_view()),
{
    let mut out: Vec<(String, String)> = Vec::new();
    let ghost want = fields_of(headers.deep_view());
    for i in 0..headers.len()
        invariant
            want == fields_of(headers.deep_view()),
            out.deep_view() == want.take(i as int),
    {
        let ghost done = out.deep_view();
        assert(headers[i as int].1.deep_view() == headers[i as int].1@);
        out.push((headers[i].0.clone(), lossy_text(headers[i].1.as_slice())));
        assert(out.deep_view() == done.push(want[i as int]));
    }
    assert(out.deep_view() == want);
    out
}

/// The request that a head describes.
pub open spec fn request_of(head: RequestHead) -> Result<RequestView, ErrorView> {
    match head {
        RequestHead::Partial => Err(ErrorView::Http("incomplete request head"@)),
        RequestHead::Failed(e) => Err(ErrorView::Http("request parse: "@ + e)),
        RequestHead::Complete { method, path, version, headers } => if method is None {
            Err(ErrorView::Http("missing method"@))
        } else if path is None {
            Err(ErrorView::Http("missing target"@))
        } else {
            Ok(
                RequestView {
                    method: method->0,
                    target: path->0,
                    version: version_text(version),
                    headers: fields_of(headers),
                    body: Seq::empty(),
                },
            )
        },
    }
}

/// Whether `r` is the outcome `s`.
pub open spec fn request_is(
    r: Result<ClientRequest, Error>,
    s: Result<RequestView, ErrorView>,
) -> bool {
    match r {
        Ok(req) => s == Ok::<RequestView, ErrorView>(req@),
        Err(e) => s == Err::<RequestView, ErrorView>(e@),
    }
}

/// Makes a request of what the parser of request heads found.
pub fn request_from(head: RawRequest) -> (r: Result<ClientRequest, Error>)
    ensures
        request_is(r, request_of(head@)),
{
    match head {
        RawRequest::Partial => Err(Error::Http("incomplete request head".to_owned())),
        RawRequest::Failed(e) => Err(
            Error::Http("request parse: ".to_owned().concat(e.as_str())),
        ),
        RawRequest::Complete { method, path, version, headers } => match (method, path) {
            (None, _) => Err(Error::Http("missing method".to_owned())),
            (_, None) => Err(Error::Http("missing target".to_owned())),
            (Some(method), Some(target)) => {
                let req = ClientRequest {
                    method,
                    target,
                    version: version_name(version),
                    headers: owned_headers(headers.as_slice()),
                    body: Vec::new(),
                };
                assert(request_of(head@) == Ok::<RequestView, ErrorView>(req@));
                Ok(req)
            },
        },
    }
}

/// How many header fields a head may have.
pub const MAX_HEADERS: usize = 64;

/// The length of the body as a header field, where the encoder adds one.
pub open spec fn length_field(req: RequestView, include_body: bool) -> Seq<
    (Seq<char>, Seq<char>),
> {
    if !include_body && req.body.len() > 0 {
        seq![("Content-Length"@, "0"@)]
    } else if include_body && req.body.len() > 0 && header_of(req.headers, "content-length"@) is None {
        seq![("Content-Length"@, decimal(req.body.len()))]
    } else {
        Seq::empty()
    }
}

/// The header fields that are sent with a request: those that are passed on,
/// the fields `extra`, and the length of the body where the encoder adds it.
pub open spec fn sent_fields(
    req: RequestView,
    extra: Seq<(Seq<char>, Seq<char>)>,
    include_body: bool,
) -> Seq<(Seq<char>, Seq<char>)> {
    passed_on(req.headers) + extra + length_field(req, include_body)
}

/// A request as it is sent: with the header fields that are sent, and without
/// its body, which follows the head.
pub open spec fn as_sent(
    req: RequestView,
    extra: Seq<(Seq<char>, Seq<char>)>,
    include_body: bool,
) -> RequestView {
    RequestView { headers: sent_fields(req, extra, include_body), body: Seq::empty(), ..req }
}

/// A response as it is sent: with these header fields, and with a reason
/// phrase.
pub open spec fn response_as_sent(
    res: ResponseView,
    fields: Seq<(Seq<char>, Seq<char>)>,
) -> ResponseView {
    ResponseView { reason: reason_of(res), headers: fields, ..res }
}

/// Whether a version of HTTP is 1.0 or 1.1.
pub open spec fn is_version(version: Seq<char>) -> bool {
    version == "HTTP/1.0"@ || version == "HTTP/1.1"@
}

/// Whether a request that is sent is a head of HTTP/1: its parts are what the
/// grammar asks for, and there are not too many header fields.
pub open spec fn is_plain_request(
    req: RequestView,
    extra: Seq<(Seq<char>, Seq<char>)>,
    include_body: bool,
) -> bool {
    &&& is_word(req.method)
    &&& is_target(req.target)
    &&& is_version(req.version)
    &&& are_fields(passed_on(req.headers))
    &&& are_fields(extra)
    &&& sent_fields(req, extra, include_body).len() <= MAX_HEADERS
}

/// Whether a response that is sent with these header fields is a head of
/// HTTP/1: its parts are what the grammar asks for, and there are not too many
/// header fields.
pub open spec fn is_plain_response(
    res: ResponseView,
    fields: Seq<(Seq<char>, Seq<char>)>,
) -> bool {
    &&& is_version(res.version)
    &&& 100 <= res.status <= 999
    &&& is_reason(res.reason)
    &&& are_fields(fields)
    &&& fields.len() <= MAX_HEADERS
}

proof fn lemma_length_field(req: RequestView, include_body: bool)
    ensures
        field_lines(length_field(req, include_body)) == length_line(req, include_body),
        are_fields(length_field(req, include_body)),
{
    let f = length_field(req, include_body);
    if f.len() > 0 {
        reveal_strlit("Content-Length");
        reveal_strlit("0");
        reveal_strlit(": ");
        reveal_strlit("\r\n");
        reveal_strlit("Content-Length: ");
        reveal_strlit("Content-Length: 0\r\n");
        lemma_digits_are_digits(req.body.len(), 10);
        assert(f.drop_last() == Seq::<(Seq<char>, Seq<char>)>::empty());
        assert(field_lines(f.drop_last()) == Seq::<char>::empty());
        assert(field_lines(f) == field_line(f[0].0, f[0].1));
        assert("Content-Length: "@ == "Content-Length"@ + ": "@);
        assert("Content-Length: 0\r\n"@ == "Content-Length"@ + ": "@ + "0"@ + "\r\n"@);
        assert(is_word("Content-Length"@));
        assert(is_value(f[0].1));
    }
}

proof fn lemma_version(version: Seq<char>) -> (v: u8)
    requires
        is_version(version),
    ensures
        v <= 1,
        version_text(Some(v)) == version,
{
    if version == "HTTP/1.0"@ {
        0
    } else {
        1
    }
}

proof fn lemma_fields_of_bytes(fields: Seq<(Seq<char>, Seq<char>)>)
    ensures
        fields_of(in_bytes(fields)) == fields,
{
    assert forall|i: int| 0 <= i < fields.len() implies fields_of(in_bytes(fields))[i]
        == #[trigger] fields[i] by {
        encode_utf8_valid_utf8(fields[i].1);
        encode_utf8_decode_utf8(fields[i].1);
    }
}

proof fn lemma_sent_request(
    req: RequestView,
    extra: Seq<(Seq<char>, Seq<char>)>,
    include_body: bool,
    version: u8,
)
    requires
        version_text(Some(version)) == req.version,
    ensures
        ({
            let body = if include_body {
                req.body
            } else {
                Seq::empty()
            };
            request_bytes(req, extra, include_body) == written_request(
                req.method,
                req.target,
                version,
                sent_fields(req, extra, include_body),
                body,
            )
        }),
{
    let a = passed_on(req.headers);
    let c = length_field(req, include_body);
    lemma_field_lines(a, extra);
    lemma_field_lines(a + extra, c);
    lemma_length_field(req, include_body);
    let first = req.method + " "@ + req.target + " "@ + req.version + "\r\n"@;
    assert(first + field_lines(a) + field_lines(extra) + length_line(req, include_body) + "\r\n"@
        == first + (field_lines(a) + field_lines(extra) + length_line(req, include_body))
        + "\r\n"@);
}

proof fn lemma_sent_fields(
    req: RequestView,
    extra: Seq<(Seq<char>, Seq<char>)>,
    include_body: bool,
)
    requires
        are_fields(passed_on(req.headers)),
        are_fields(extra),
    ensures
        are_fields(sent_fields(req, extra, include_body)),
{
    let a = passed_on(req.headers);
    let c = length_field(req, include_body);
    let all = a + extra + c;
    lemma_length_field(req, include_body);
    assert forall|i: int| 0 <= i < all.len() implies is_word((#[trigger] all[i]).0) && is_value(
        all[i].1,
    ) by {
        if i < a.len() {
            assert(all[i] == a[i]);
        } else if i < a.len() + extra.len() {
            assert(all[i] == extra[i - a.len()]);
        } else {
            assert(all[i] == c[i - a.len() - extra.len()]);
        }
    }
}

proof fn lemma_reason(res: ResponseView)
    requires
        is_reason(res.reason),
    ensures
        is_reason(reason_of(res)),
{
    reveal_strlit("OK");
    reveal_strlit("Proxy Authentication Required");
    reveal_strlit("Bad Gateway");
    reveal_strlit("Gateway Timeout");
    reveal_strlit("Internal Server Error");
    reveal_strlit("Error");
}

/// Reads the head of a request. A request that was written out is read as it
/// was sent: with the header fields that were sent, and without its body.
pub fn parse_request_head(raw: &[u8]) -> (r: Result<ClientRequest, Error>)
    ensures
        request_is(r, request_of(request_head(raw@, MAX_HEADERS as nat))),
        forall|req: RequestView, extra: Seq<(Seq<char>, Seq<char>)>, include_body: bool|
            raw@ == #[trigger] request_bytes(req, extra, include_body) && is_plain_request(
                req,
                extra,
                include_body,
            ) ==> request_is(r, Ok(as_sent(req, extra, include_body))),
{
    let head = parse_request(raw, MAX_HEADERS);
    let ghost found = head@;
    let r = request_from(head);
    proof {
        assert forall|req: RequestView, extra: Seq<(Seq<char>, Seq<char>)>, include_body: bool|
            raw@ == #[trigger] request_bytes(req, extra, include_body) && is_plain_request(
                req,
                extra,
                include_body,
            ) implies request_is(r, Ok(as_sent(req, extra, include_body))) by {
            let fields = sent_fields(req, extra, include_body);
            let version = lemma_version(req.version);
            lemma_sent_request(req, extra, include_body, version);
            lemma_sent_fields(req, extra, include_body);
            lemma_fields_of_bytes(fields);
            assert(found == (RequestHead::Complete {
                method: Some(req.method),
                path: Some(req.target),
                version: Some(version),
                headers: in_bytes(fields),
            }));
        }
    }
    r
}

/// The response that a head describes.
pub open spec fn response_of(head: ResponseHead) -> Result<ResponseView, ErrorView> {
    match head {
        ResponseHead::Partial => Err(ErrorView::Http("incomplete response head"@)),
        ResponseHead::Failed(e) => Err(ErrorView::Http("response parse: "@ + e)),
        ResponseHead::Complete { version, code, reason, headers } => if code is None {
            Err(ErrorView::Http("missing status"@))
        } else {
            Ok(
                ResponseView {
                    version: version_text(version),
                    status: code->0,
                    reason: if reason is Some {
                        reason->0
                    } else {
                        Seq::empty()
                    },
                    headers: fields_of(headers),
                },
            )
        },
    }
}

/// Whether `r` is the outcome `s`.
pub open spec fn response_is(
    r: Result<ServerResponse, Error>,
    s: Result<ResponseView, ErrorView>,
) -> bool {
    match r {
        Ok(res) => s == Ok::<ResponseView, ErrorView>(res@),
        Err(e) => s == Err::<ResponseView, ErrorView>(e@),
    }
}

/// Makes a response of what the parser of response heads found.
pub fn response_from(head: RawResponse) -> (r: Result<ServerResponse, Error>)
    ensures
        response_is(r, response_of(head@)),
{
    match head {
        RawResponse::Partial => Err(Error::Http("incomplete response head".to_owned())),
        RawResponse::Failed(e) => Err(
            Error::Http("response parse: ".to_owned().concat(e.as_str())),
        ),
        RawResponse::Complete { version, code, reason, headers } => match code {
            None => Err(Error::Http("missing status".to_owned())),
            Some(status) => {
                let reason_text = match reason {
                    Some(text) => text,
                    None => String::new(),
                };
                Ok(
                    ServerResponse {
                        version: version_name(version),
                        status,
                        reason: reason_text,
                        headers: owned_headers(headers.as_slice()),
                    },
                )
            },
        },
    }
}

/// Reads the head of a response. A head that was written out is read as it was
/// sent, whatever follows it.
pub fn parse_response_head(raw: &[u8]) -> (r: Result<ServerResponse, Error>)
    ensures
        response_is(r, response_of(response_head(raw@, MAX_HEADERS as nat))),
        forall|res: ResponseView, fields: Seq<(Seq<char>, Seq<char>)>, rest: Seq<u8>|
            raw@ == #[trigger] response_bytes(res, fields, rest) && is_plain_response(res, fields)
                ==> response_is(r, Ok(response_as_sent(res, fields))),
{
    let head = parse_response(raw, MAX_HEADERS);
    let ghost found = head@;
    let r = response_from(head);
    proof {
        assert forall|res: ResponseView, fields: Seq<(Seq<char>, Seq<char>)>, rest: Seq<u8>|
            raw@ == #[trigger] response_bytes(res, fields, rest) && is_plain_response(
                res,
                fields,
            ) implies response_is(r, Ok(response_as_sent(res, fields))) by {
            let version = lemma_version(res.version);
            let reason = reason_of(res);
            lemma_reason(res);
            lemma_fields_of_bytes(fields);
            assert(response_bytes(res, fields, rest) == written_response(
                version,
                res.status,
                reason,
                fields,
                rest,
            ));
            assert(found == (ResponseHead::Complete {
                version: Some(version),
                code: Some(res.status),
                reason: Some(reason),
                headers: in_bytes(fields),
            }));
        }
    }
    r
}

/// The challenge that is picked has a scheme that is known, no challenge is
/// preferred to it, and none before it is preferred as much. Nothing is picked
/// only where no scheme is known: a blank challenge hides no other.
pub proof fn picked_challenge_is_preferred(challenges: Seq<Seq<char>>)
    ensures
        picked(challenges) is None <==> (forall|j: int|
            0 <= j < challenges.len() ==> rank(#[trigger] challenges[j]) == 0),
        picked(challenges) matches Some((scheme, token)) ==> {
            let b = preferred(challenges, challenges.len());
            &&& 0 <= b < challenges.len()
            &&& scheme == words(challenges[b])[0]
            &&& token == if words(challenges[b]).len() > 1 {
                Some(words(challenges[b])[1])
            } else {
                None
            }
            &&& rank(challenges[b]) > 0
            &&& forall|j: int|
                0 <= j < challenges.len() ==> rank(#[trigger] challenges[j]) <= rank(challenges[b])
            &&& forall|j: int|
                0 <= j < b ==> rank(#[trigger] challenges[j]) < rank(challenges[b])
        },
{
    lemma_preferred(challenges, challenges.len());
}

proof fn lemma_preferred(challenges: Seq<Seq<char>>, n: nat)
    requires
        n <= challenges.len(),
    ensures
        ({
            let b = preferred(challenges, n);
            if b < 0 {
                forall|j: int| 0 <= j < n ==> rank(#[trigger] challenges[j]) == 0
            } else {
                &&& b < n
                &&& rank(challenges[b]) > 0
                &&& forall|j: int| 0 <= j < n ==> rank(#[trigger] challenges[j]) <= rank(challenges[b])
                &&& forall|j: int| 0 <= j < b ==> rank(#[trigger] challenges[j]) < rank(challenges[b])
            }
        }),
    decreases n,
{
    if n > 0 {
        lemma_preferred(challenges, (n - 1) as nat);
    }
}

proof fn lemma_header_kept(
    headers: Seq<(Seq<char>, Seq<char>)>,
    keep: spec_fn((Seq<char>, Seq<char>)) -> bool,
    name: Seq<char>,
    good: bool,
)
    requires
        forall|h: (Seq<char>, Seq<char>)| same_word(h.0, name) ==> #[trigger] keep(h) == good,
    ensures
        good ==> header_of(headers.filter(keep), name) == header_of(headers, name),
        !good ==> header_of(headers.filter(keep), name) is None,
    decreases headers.len(),
{
    if headers.len() == 0 {
        reveal(Seq::filter);
        assert(headers.filter(keep) == headers);
    } else {
        let rest = headers.drop_first();
        lemma_header_kept(rest, keep, name, good);
        lemma_filter_front(headers, keep);
        let kept = headers.filter(keep);
        if keep(headers[0]) {
            assert(kept.drop_first() == rest.filter(keep));
            assert(kept[0] == headers[0]);
        }
    }
}

proof fn lemma_filter_front<A>(s: Seq<A>, keep: spec_fn(A) -> bool)
    requires
        s.len() > 0,
    ensures
        s.filter(keep) == if keep(s[0]) {
            seq![s[0]] + s.drop_first().filter(keep)
        } else {
            s.drop_first().filter(keep)
        },
    decreases s.len(),
{
    reveal(Seq::filter);
    let rest = s.drop_first();
    if s.len() == 1 {
        assert(rest == Seq::<A>::empty());
        assert(s.drop_last() == Seq::<A>::empty());
    } else {
        lemma_filter_front(s.drop_last(), keep);
        assert(s.drop_last().drop_first() == rest.drop_last());
        assert(s.last() == rest.last());
        if keep(s[0]) && keep(s.last()) {
            assert(seq![s[0]] + rest.drop_last().filter(keep).push(s.last()) == (seq![s[0]]
                + rest.drop_last().filter(keep)).push(s.last()));
        }
    }
}

/// With a request, the header fields that concern one connection stay behind,
/// the client's own credentials among them, and all others are passed on.
pub proof fn connection_fields_stay_behind(
    headers: Seq<(Seq<char>, Seq<char>)>,
    name: Seq<char>,
)
    ensures
        hop_by_hop(name) ==> header_of(passed_on(headers), name) is None,
        !hop_by_hop(name) ==> header_of(passed_on(headers), name) == header_of(headers, name),
{
    let keep = |h: (Seq<char>, Seq<char>)| !hop_by_hop(h.0);
    lemma_header_kept(headers, keep, name, !hop_by_hop(name));
}

/// With a response, the header fields that proxies tell each other stay
/// behind, and the client is shown all others, those that frame the body among
/// them.
pub proof fn proxy_fields_stay_behind(headers: Seq<(Seq<char>, Seq<char>)>, name: Seq<char>)
    ensures
        between_proxies(name) ==> header_of(shown(headers), name) is None,
        !between_proxies(name) ==> header_of(shown(headers), name) == header_of(headers, name),
{
    let keep = |h: (Seq<char>, Seq<char>)| !between_proxies(h.0);
    lemma_header_kept(headers, keep, name, !between_proxies(name));
}

/// The body that a client is announced is the body that it is sent: the header
/// fields that it is shown frame the body as those of the response do.
pub proof fn body_framing_is_shown(headers: Seq<(Seq<char>, Seq<char>)>)
    ensures
        chunked(shown(headers)) == chunked(headers),
        length_of(shown(headers)) == length_of(headers),
{
    proxy_fields_stay_behind(headers, "transfer-encoding"@);
    proxy_fields_stay_behind(headers, "content-length"@);
    reveal_strlit("transfer-encoding");
    reveal_strlit("content-length");
    reveal_strlit("proxy-authenticate");
    reveal_strlit("proxy-authorization");
    reveal_strlit("proxy-connection");
    let a = "transfer-encoding"@;
    let b = "content-length"@;
    assert(lower(a)[0] == 't');
    assert(lower(b)[0] == 'c');
    assert(lower("proxy-authenticate"@)[0] == 'p');
    assert(lower("proxy-authorization"@)[0] == 'p');
    assert(lower("proxy-connection"@)[0] == 'p');
}

} // verus!
