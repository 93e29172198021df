//! Requests and responses: where a request goes, and how messages are written.
use crate::boundary::{RequestHead, ResponseHead};
use crate::config::{host_port_fault, host_port_of};
use crate::error::ErrorView;
use crate::http1::{
    field_lines, header_of, passed_on, reason_of, request_bytes, request_of, response_of,
    response_text, sent_fields, usual_reason, RequestView, ResponseView,
};
use crate::laws::addresses::{authority_ends_at_the_first_slash, host_and_port_are_read};
use crate::number::{decimal, lemma_digits_are_digits};
use crate::text::{lossy, same_word, text_is_cut_at_its_marks, Class};
use vstd::prelude::*;
use vstd::utf8::encode_utf8;

verus! {

proof fn lemma_after_scheme(scheme: Seq<char>, rest: Seq<char>)
    ensures
        scheme.is_prefix_of(scheme + rest),
        (scheme + rest).skip(scheme.len() as int) == rest,
{
    assert((scheme + rest).subrange(0, scheme.len() as int) == scheme);
    assert((scheme + rest).skip(scheme.len() as int) == rest);
}

proof fn lemma_https_is_not_http(rest: Seq<char>)
    ensures
        !"http://"@.is_prefix_of("https://"@ + rest),
{
    reveal_strlit("http://");
    reveal_strlit("https://");
    let t = "https://"@ + rest;
    if "http://"@.is_prefix_of(t) {
        assert(t.subrange(0, 7)[4] == ':');
        assert(t[4] == 's');
    }
}

/// The destination of a URL is its authority: what follows it, from the first
/// slash on, makes no difference.
pub proof fn path_makes_no_difference_to_the_destination(
    req: RequestView,
    authority: Seq<char>,
    path: Seq<char>,
)
    requires
        !same_word(req.method, "CONNECT"@),
        forall|i: int| 0 <= i < authority.len() ==> #[trigger] authority[i] != '/',
        path.len() > 0 ==> path[0] == '/',
    ensures
        (RequestView { target: "http://"@ + (authority + path), ..req }).destination() == (
        RequestView { target: "http://"@ + authority, ..req }).destination(),
        (RequestView { target: "https://"@ + (authority + path), ..req }).destination() == (
        RequestView { target: "https://"@ + authority, ..req }).destination(),
{
    lemma_after_scheme("http://"@, authority + path);
    lemma_after_scheme("http://"@, authority);
    lemma_after_scheme("https://"@, authority + path);
    lemma_after_scheme("https://"@, authority);
    lemma_https_is_not_http(authority + path);
    lemma_https_is_not_http(authority);
    authority_ends_at_the_first_slash(authority, path, 80);
    authority_ends_at_the_first_slash(authority, path, 443);
}

/// A request for a URL goes to the host and the port in it; without a port,
/// `http` goes to 80 and `https` to 443.
pub proof fn url_gives_the_destination(
    req: RequestView,
    host: Seq<char>,
    port: u16,
    path: Seq<char>,
)
    requires
        !same_word(req.method, "CONNECT"@),
        host.len() > 0,
        forall|i: int|
            0 <= i < host.len() ==> #[trigger] host[i] != '/' && host[i] != ':'
                && !Class::Space.holds(host[i]) && !Class::Bracket.holds(host[i]),
        path.len() > 0 ==> path[0] == '/',
    ensures
        ({
            let full = host + seq![':'] + decimal(port as nat);
            &&& (RequestView { target: "http://"@ + (full + path), ..req }).destination() == Ok::<
                (Seq<char>, u16),
                ErrorView,
            >((host, port))
            &&& (RequestView { target: "https://"@ + (full + path), ..req }).destination() == Ok::<
                (Seq<char>, u16),
                ErrorView,
            >((host, port))
            &&& (RequestView { target: "http://"@ + (host + path), ..req }).destination() == Ok::<
                (Seq<char>, u16),
                ErrorView,
            >((host, 80u16))
            &&& (RequestView { target: "https://"@ + (host + path), ..req }).destination() == Ok::<
                (Seq<char>, u16),
                ErrorView,
            >((host, 443u16))
        }),
{
    let full = host + seq![':'] + decimal(port as nat);
    let none = Seq::<char>::empty();
    lemma_digits_are_digits(port as nat, 10);
    assert forall|i: int| 0 <= i < full.len() implies #[trigger] full[i] != '/' by {
        if i > host.len() {
            assert(full[i] == decimal(port as nat)[i - host.len() - 1]);
        }
    }
    assert(full[host.len() as int] == ':');
    host_and_port_are_read(none, host, port, none);
    assert(none + full + none == full);
    authority_ends_at_the_first_slash(full, path, 80);
    authority_ends_at_the_first_slash(full, path, 443);
    authority_ends_at_the_first_slash(host, path, 80);
    authority_ends_at_the_first_slash(host, path, 443);
    lemma_after_scheme("http://"@, full + path);
    lemma_after_scheme("https://"@, full + path);
    lemma_after_scheme("http://"@, host + path);
    lemma_after_scheme("https://"@, host + path);
    lemma_https_is_not_http(full + path);
    lemma_https_is_not_http(host + path);
}

/// A request for a tunnel goes to its target, and to nothing that its header
/// fields say.
pub proof fn tunnel_goes_to_its_target(req: RequestView)
    requires
        same_word(req.method, "CONNECT"@),
    ensures
        req.destination() == match host_port_of(req.target) {
            Some(hp) => Ok::<(Seq<char>, u16), ErrorView>(hp),
            None => Err(ErrorView::Http(host_port_fault(req.target))),
        },
{
}

/// A request for a path goes to its `Host`, with the port 80 where that gives
/// none; without a `Host` it goes nowhere.
pub proof fn host_field_gives_the_destination(req: RequestView, host: Seq<char>, port: u16)
    requires
        !same_word(req.method, "CONNECT"@),
        req.target.len() == 0 || req.target[0] != 'h',
        host.len() > 0,
        forall|i: int|
            0 <= i < host.len() ==> #[trigger] host[i] != '/' && host[i] != ':'
                && !Class::Space.holds(host[i]) && !Class::Bracket.holds(host[i]),
    ensures
        header_of(req.headers, "host"@) is None ==> req.destination() == Err::<
            (Seq<char>, u16),
            ErrorView,
        >(ErrorView::Http("missing Host header"@)),
        header_of(req.headers, "host"@) == Some(host) ==> req.destination() == Ok::<
            (Seq<char>, u16),
            ErrorView,
        >((host, 80u16)),
        header_of(req.headers, "host"@) == Some(host + seq![':'] + decimal(port as nat))
            ==> req.destination() == Ok::<(Seq<char>, u16), ErrorView>((host, port)),
{
    let none = Seq::<char>::empty();
    let full = host + seq![':'] + decimal(port as nat);
    reveal_strlit("http://");
    reveal_strlit("https://");
    if "http://"@.is_prefix_of(req.target) {
        assert(req.target.subrange(0, 7)[0] == 'h');
    }
    if "https://"@.is_prefix_of(req.target) {
        assert(req.target.subrange(0, 8)[0] == 'h');
    }
    host_and_port_are_read(none, host, port, none);
    assert(none + full + none == full);
    text_is_cut_at_its_marks(host, ':', decimal(port as nat), Class::One(':'));
}

/// The server itself is given the path of an `http` URL, `/` where it has none,
/// and any other target as it is; a tunnel keeps its target.
pub proof fn server_is_given_the_path(req: RequestView, authority: Seq<char>, path: Seq<char>)
    requires
        forall|i: int| 0 <= i < authority.len() ==> #[trigger] authority[i] != '/',
    ensures
        !same_word(req.method, "CONNECT"@) && req.target == "http://"@ + (authority + seq!['/']
            + path) ==> req.origin_form() == seq!['/'] + path,
        !same_word(req.method, "CONNECT"@) && req.target == "http://"@ + authority
            ==> req.origin_form() == seq!['/'],
        same_word(req.method, "CONNECT"@) || !"http://"@.is_prefix_of(req.target)
            ==> req.origin_form() == req.target,
{
    reveal_strlit("/");
    assert("/"@ == seq!['/']);
    lemma_after_scheme("http://"@, authority + seq!['/'] + path);
    lemma_after_scheme("http://"@, authority);
    text_is_cut_at_its_marks(authority, '/', path, Class::One('/'));
}

/// A request is written as its line, the fields that are passed on, the fields
/// that are added, and an empty line; then comes its body, or nothing where it
/// is held back. A body that is held back is announced as empty, and a body
/// that is sent without a length of its own as long as it is.
pub proof fn request_is_written_line_by_line(
    req: RequestView,
    extra: Seq<(Seq<char>, Seq<char>)>,
)
    ensures
        ({
            let line = req.method + seq![' '] + req.target + seq![' '] + req.version + seq![
                '\r',
                '\n',
            ];
            let fields = field_lines(passed_on(req.headers)) + field_lines(extra);
            let end = seq!['\r', '\n'];
            let length = "Content-Length: "@;
            &&& req.body.len() == 0 || header_of(req.headers, "content-length"@) is Some
                ==> request_bytes(req, extra, true) == encode_utf8(line + fields + end) + req.body
            &&& req.body.len() > 0 && header_of(req.headers, "content-length"@) is None
                ==> request_bytes(req, extra, true) == encode_utf8(
                line + fields + (length + decimal(req.body.len()) + end) + end,
            ) + req.body
            &&& req.body.len() == 0 ==> request_bytes(req, extra, false) == encode_utf8(
                line + fields + end,
            )
            &&& req.body.len() > 0 ==> request_bytes(req, extra, false) == encode_utf8(
                line + fields + (length + seq!['0'] + end) + end,
            )
        }),
{
    reveal_strlit(" ");
    reveal_strlit("\r\n");
    reveal_strlit("Content-Length: 0\r\n");
    reveal_strlit("Content-Length: ");
    let sp = seq![' '];
    let end = seq!['\r', '\n'];
    assert(" "@ == sp);
    assert("\r\n"@ == end);
    assert("Content-Length: 0\r\n"@ == "Content-Length: "@ + seq!['0'] + end);
    let line = req.method + sp + req.target + sp + req.version + end;
    let a = field_lines(passed_on(req.headers));
    let b = field_lines(extra);
    let none = Seq::<char>::empty();
    assert(line + a + b + none + end == line + (a + b) + end);
    assert(forall|l: Seq<char>| #[trigger] (line + a + b + l) + end == line + (a + b) + l + end);
    assert(request_bytes(req, extra, false) == encode_utf8(
        crate::http1::request_text(req, extra, false),
    ));
}

/// The fields that are sent with a request are those that are passed on, then
/// those that are added, then the length of the body where it has none of its
/// own.
pub proof fn fields_are_sent_in_order(req: RequestView, extra: Seq<(Seq<char>, Seq<char>)>)
    ensures
        req.body.len() == 0 ==> sent_fields(req, extra, true) == passed_on(req.headers) + extra
            && sent_fields(req, extra, false) == passed_on(req.headers) + extra,
        req.body.len() > 0 ==> sent_fields(req, extra, false) == passed_on(req.headers) + extra
            + seq![("Content-Length"@, "0"@)],
        req.body.len() > 0 && header_of(req.headers, "content-length"@) is Some ==> sent_fields(
            req,
            extra,
            true,
        ) == passed_on(req.headers) + extra,
        req.body.len() > 0 && header_of(req.headers, "content-length"@) is None ==> sent_fields(
            req,
            extra,
            true,
        ) == passed_on(req.headers) + extra + seq![("Content-Length"@, decimal(req.body.len()))],
{
    let none = Seq::<(Seq<char>, Seq<char>)>::empty();
    assert(passed_on(req.headers) + extra + none == passed_on(req.headers) + extra);
}

/// The head of a response is its status line, its fields and an empty line. A
/// response without a reason phrase gets the usual one of its code.
pub proof fn response_is_written_line_by_line(
    res: ResponseView,
    fields: Seq<(Seq<char>, Seq<char>)>,
)
    ensures
        ({
            let reason = if res.reason.len() > 0 {
                res.reason
            } else if res.status == 200 {
                "OK"@
            } else if res.status == 407 {
                "Proxy Authentication Required"@
            } else if res.status == 500 {
                "Internal Server Error"@
            } else if res.status == 502 {
                "Bad Gateway"@
            } else if res.status == 504 {
                "Gateway Timeout"@
            } else {
                "Error"@
            };
            let end = seq!['\r', '\n'];
            &&& reason_of(res) == reason
            &&& response_text(res, fields) == res.version + seq![' '] + decimal(
                res.status as nat,
            ) + seq![' '] + reason + end + field_lines(fields) + end
            &&& usual_reason(res.status) == reason_of(ResponseView { reason: Seq::empty(), ..res })
        }),
{
    reveal_strlit(" ");
    reveal_strlit("\r\n");
    assert(" "@ == seq![' ']);
    assert("\r\n"@ == seq!['\r', '\n']);
}

/// What the parser finds in a head becomes the message as it is: the method,
/// the target and the fields unchanged, the version HTTP/1.0 for 0 and HTTP/1.1
/// otherwise, and no body yet.
pub proof fn heads_become_messages(
    method: Seq<char>,
    target: Seq<char>,
    version: Option<u8>,
    code: u16,
    reason: Seq<char>,
    fields: Seq<(Seq<char>, Seq<u8>)>,
)
    ensures
        ({
            let headers = Seq::new(fields.len(), |i: int| (fields[i].0, lossy(fields[i].1)));
            let name = if version == Some(0u8) {
                "HTTP/1.0"@
            } else {
                "HTTP/1.1"@
            };
            &&& request_of(
                RequestHead::Complete {
                    method: Some(method),
                    path: Some(target),
                    version,
                    headers: fields,
                },
            ) == Ok::<RequestView, ErrorView>(
                RequestView { method, target, version: name, headers, body: Seq::empty() },
            )
            &&& response_of(
                ResponseHead::Complete {
                    version,
                    code: Some(code),
                    reason: Some(reason),
                    headers: fields,
                },
            ) == Ok::<ResponseView, ErrorView>(
                ResponseView { version: name, status: code, reason, headers },
            )
            &&& request_of(RequestHead::Partial) == Err::<RequestView, ErrorView>(
                ErrorView::Http("incomplete request head"@),
            )
            &&& response_of(ResponseHead::Partial) == Err::<ResponseView, ErrorView>(
                ErrorView::Http("incomplete response head"@),
            )
        }),
{
}

/// Bytes that are no head are told with the parser's own words.
pub proof fn faults_of_heads_are_told(words: Seq<char>)
    ensures
        request_of(RequestHead::Failed(words)) == Err::<RequestView, ErrorView>(
            ErrorView::Http("request parse: "@ + words),
        ),
        response_of(ResponseHead::Failed(words)) == Err::<ResponseView, ErrorView>(
            ErrorView::Http("response parse: "@ + words),
        ),
{
}

} // verus!
