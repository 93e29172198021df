//! The functions of other crates that the library calls, with what it relies
//! on of each of them. Nothing in this file is proved.
use crate::http1::{field_lines, version_text};
use crate::number::decimal;
use vstd::prelude::*;
use vstd::utf8::{decode_utf8, encode_utf8, valid_utf8};

verus! {

/// `String::push` appends one character.
pub assume_specification[ String::push ](s: &mut String, c: char)
    ensures
        final(s)@ == old(s)@.push(c),
;

/// `char::from_u32` gives the character of a Unicode scalar value, and nothing
/// for a number that is none.
pub assume_specification[ char::from_u32 ](i: u32) -> (r: Option<char>)
    ensures
        match r {
            Some(c) => c as u32 == i,
            None => 0xd800 <= i <= 0xdfff || i > 0x10_ffff,
        },
;

/// `s` as `{:?}` shows it: in double quotes, with escapes.
pub uninterp spec fn debug_quoted(s: Seq<char>) -> Seq<char>;

/// `str`'s `Debug` shows the text in double quotes, with escapes. Which
/// characters are escaped is not stated, only that the text decides it.
#[verifier::external_body]
pub(crate) fn debug_text(s: &str) -> (r: String)
    ensures
        r@ == debug_quoted(s@),
{
    format!("{:?}", s)
}

/// Bytes that are not UTF-8 as text, with what is not UTF-8 replaced.
pub uninterp spec fn mended(bytes: Seq<u8>) -> Seq<char>;

/// `String::from_utf8_lossy` decodes UTF-8 and puts U+FFFD in the place of what
/// is not UTF-8. How many such characters replace a bad stretch is not stated,
/// only that the bytes decide it.
#[verifier::external_body]
pub(crate) fn lossy_text(bytes: &[u8]) -> (r: String)
    ensures
        valid_utf8(bytes@) ==> r@ == decode_utf8(bytes@),
        !valid_utf8(bytes@) ==> r@ == mended(bytes@),
{
    String::from_utf8_lossy(bytes).into_owned()
}

/// Bytes in base64.
pub uninterp spec fn base64_text(bytes: Seq<u8>) -> Seq<char>;

/// The bytes that a text in base64 stands for, or what is wrong with it.
pub uninterp spec fn base64_bytes(text: Seq<char>) -> Result<Seq<u8>, Seq<char>>;

/// Whether a character belongs to the standard alphabet of base64 or is its
/// padding.
pub open spec fn is_base64(c: char) -> bool {
    'A' <= c <= 'Z' || 'a' <= c <= 'z' || '0' <= c <= '9' || c == '+' || c == '/' || c == '='
}

/// `base64`'s standard engine encodes bytes with the standard alphabet and
/// padding, four characters for three bytes. Its own decoder gives the bytes
/// back. Beyond that, which text it makes is not stated, only that the bytes
/// decide it.
#[verifier::external_body]
pub(crate) fn to_base64(bytes: &[u8]) -> (r: String)
    requires
        (bytes@.len() + 2) / 3 * 4 <= isize::MAX,
    ensures
        r@ == base64_text(bytes@),
        r@.len() == (bytes@.len() + 2) / 3 * 4,
        forall|i: int| 0 <= i < r@.len() ==> is_base64(#[trigger] r@[i]),
        base64_bytes(r@) is Ok && base64_bytes(r@)->Ok_0 == bytes@,
{
    base64::Engine::encode(&base64::engine::general_purpose::STANDARD, bytes)
}

/// `base64`'s standard engine decodes text with the standard alphabet and
/// padding, and refuses any other. What it makes of a text is not stated here,
/// only that the text decides it.
#[verifier::external_body]
pub(crate) fn from_base64(text: &str) -> (r: Result<Vec<u8>, String>)
    ensures
        match r {
            Ok(b) => base64_bytes(text@) == Ok::<Seq<u8>, Seq<char>>(b@),
            Err(e) => base64_bytes(text@) == Err::<Seq<u8>, Seq<char>>(e@),
        },
{
    let engine = &base64::engine::general_purpose::STANDARD;
    base64::Engine::decode(engine, text).map_err(|e| e.to_string())
}

/// Whether a character may stand in a method or in the name of a header field.
pub open spec fn is_token(c: char) -> bool {
    ||| 'A' <= c <= 'Z'
    ||| 'a' <= c <= 'z'
    ||| '0' <= c <= '9'
    ||| c == '!' || c == '#' || c == '$' || c == '%' || c == '&' || c == '\'' || c == '*' || c == '+'
    ||| c == '-' || c == '.' || c == '^' || c == '_' || c == '`' || c == '|' || c == '~'
}

/// Whether a text is a method or the name of a header field.
pub open spec fn is_word(s: Seq<char>) -> bool {
    s.len() > 0 && forall|i: int| 0 <= i < s.len() ==> is_token(#[trigger] s[i])
}

/// Whether a text is the target of a request: no blanks and no control
/// characters of ASCII.
pub open spec fn is_target(s: Seq<char>) -> bool {
    s.len() > 0 && forall|i: int| 0 <= i < s.len() ==> ' ' < #[trigger] s[i] && s[i] != '\u{7f}'
}

/// Whether a character is a space or a tab.
pub open spec fn is_blank(c: char) -> bool {
    c == ' ' || c == '\t'
}

/// Whether a text is the value of a header field: no control characters of
/// ASCII but tabs, and no blank at either end.
pub open spec fn is_value(s: Seq<char>) -> bool {
    &&& forall|i: int|
        0 <= i < s.len() ==> (#[trigger] s[i] == '\t' || ' ' <= s[i] && s[i] != '\u{7f}')
    &&& s.len() > 0 ==> !is_blank(s[0]) && !is_blank(s.last())
}

/// Whether a text is the reason phrase of a response: ASCII without control
/// characters but tabs.
pub open spec fn is_reason(s: Seq<char>) -> bool {
    forall|i: int| 0 <= i < s.len() ==> (#[trigger] s[i] == '\t' || ' ' <= s[i] <= '~')
}

/// Whether each pair is the name and the value of a header field.
pub open spec fn are_fields(fields: Seq<(Seq<char>, Seq<char>)>) -> bool {
    forall|i: int|
        0 <= i < fields.len() ==> is_word((#[trigger] fields[i]).0) && is_value(fields[i].1)
}

/// Header fields with their values as bytes.
pub open spec fn in_bytes(fields: Seq<(Seq<char>, Seq<char>)>) -> Seq<(Seq<char>, Seq<u8>)> {
    Seq::new(fields.len(), |i: int| (fields[i].0, encode_utf8(fields[i].1)))
}

/// The head of a request, with `rest` after it.
pub open spec fn written_request(
    method: Seq<char>,
    target: Seq<char>,
    version: u8,
    fields: Seq<(Seq<char>, Seq<char>)>,
    rest: Seq<u8>,
) -> Seq<u8> {
    encode_utf8(
        method + " "@ + target + " "@ + version_text(Some(version)) + "\r\n"@ + field_lines(fields)
            + "\r\n"@,
    ) + rest
}

/// The head of a response, with `rest` after it.
pub open spec fn written_response(
    version: u8,
    code: u16,
    reason: Seq<char>,
    fields: Seq<(Seq<char>, Seq<char>)>,
    rest: Seq<u8>,
) -> Seq<u8> {
    encode_utf8(
        version_text(Some(version)) + " "@ + decimal(code as nat) + " "@ + reason + "\r\n"@
            + field_lines(fields) + "\r\n"@,
    ) + rest
}

/// What the parser of request heads found.
pub enum RawRequest {
    /// The head is complete.
    Complete {
        method: Option<String>,
        path: Option<String>,
        version: Option<u8>,
        headers: Vec<(String, Vec<u8>)>,
    },
    /// The head goes on after the end of the bytes.
    Partial,
    /// The bytes are no head, for the reason given.
    Failed(String),
}

/// What the parser of request heads found, in sequences.
pub enum RequestHead {
    Complete {
        method: Option<Seq<char>>,
        path: Option<Seq<char>>,
        version: Option<u8>,
        headers: Seq<(Seq<char>, Seq<u8>)>,
    },
    Partial,
    Failed(Seq<char>),
}

impl View for RawRequest {
    type V = RequestHead;

    open spec fn view(&self) -> RequestHead {
        match *self {
            RawRequest::Complete { method, path, version, headers } => RequestHead::Complete {
                method: method.deep_view(),
                path: path.deep_view(),
                version,
                headers: headers.deep_view(),
            },
            RawRequest::Partial => RequestHead::Partial,
            RawRequest::Failed(e) => RequestHead::Failed(e@),
        }
    }
}

/// What the parser of request heads finds in `raw`, given room for `slots`
/// header fields.
pub uninterp spec fn request_head(raw: Seq<u8>, slots: nat) -> RequestHead;

/// `httparse::Request::parse` reads the head of an HTTP/1 request into a list
/// with room for `slots` header fields. Of a head of HTTP/1.0 or HTTP/1.1 that
/// is written plainly, it finds the method, the target, the version and the
/// header fields, where there is room for them, and leaves what follows alone.
/// What it makes of other bytes is not stated, only that the bytes and the room
/// decide it.
#[verifier::external_body]
pub(crate) fn parse_request(raw: &[u8], slots: usize) -> (r: RawRequest)
    requires
        slots <= 0x1_0000,
    ensures
        r@ == request_head(raw@, slots as nat),
        forall|
            method: Seq<char>,
            target: Seq<char>,
            version: u8,
            fields: Seq<(Seq<char>, Seq<char>)>,
            rest: Seq<u8>,
        |
            raw@ == #[trigger] written_request(method, target, version, fields, rest) && is_word(
                method,
            ) && is_target(target) && version <= 1 && are_fields(fields) && fields.len() <= slots
                ==> r@ == (RequestHead::Complete {
                method: Some(method),
                path: Some(target),
                version: Some(version),
                headers: in_bytes(fields),
            }),
{
    let mut list = vec![httparse::EMPTY_HEADER; slots];
    let mut req = httparse::Request::new(&mut list);
    match req.parse(raw) {
        Ok(httparse::Status::Complete(_)) => RawRequest::Complete {
            method: req.method.map(str::to_owned),
            path: req.path.map(str::to_owned),
            version: req.version,
            headers: req.headers.iter().map(|h| (h.name.to_owned(), h.value.to_vec())).collect(),
        },
        Ok(httparse::Status::Partial) => RawRequest::Partial,
        Err(e) => RawRequest::Failed(e.to_string()),
    }
}

/// What the parser of response heads found.
pub enum RawResponse {
    /// The head is complete.
    Complete {
        version: Option<u8>,
        code: Option<u16>,
        reason: Option<String>,
        headers: Vec<(String, Vec<u8>)>,
    },
    /// The head goes on after the end of the bytes.
    Partial,
    /// The bytes are no head, for the reason given.
    Failed(String),
}

/// What the parser of response heads found, in sequences.
pub enum ResponseHead {
    Complete {
        version: Option<u8>,
        code: Option<u16>,
        reason: Option<Seq<char>>,
        headers: Seq<(Seq<char>, Seq<u8>)>,
    },
    Partial,
    Failed(Seq<char>),
}

impl View for RawResponse {
    type V = ResponseHead;

    open spec fn view(&self) -> ResponseHead {
        match *self {
            RawResponse::Complete { version, code, reason, headers } => ResponseHead::Complete {
                version,
                code,
                reason: reason.deep_view(),
                headers: headers.deep_view(),
            },
            RawResponse::Partial => ResponseHead::Partial,
            RawResponse::Failed(e) => ResponseHead::Failed(e@),
        }
    }
}

/// What the parser of response heads finds in `raw`, given room for `slots`
/// header fields.
pub uninterp spec fn response_head(raw: Seq<u8>, slots: nat) -> ResponseHead;

/// `httparse::Response::parse` reads the head of an HTTP/1 response into a list
/// with room for `slots` header fields. Of a head of HTTP/1.0 or HTTP/1.1 with a
/// status code of three digits that is written plainly, it finds the version,
/// the code, the reason phrase and the header fields, where there is room for
/// them, and leaves what follows alone. What it makes of other bytes is not
/// stated, only that the bytes and the room decide it.
#[verifier::external_body]
pub(crate) fn parse_response(raw: &[u8], slots: usize) -> (r: RawResponse)
    requires
        slots <= 0x1_0000,
    ensures
        r@ == response_head(raw@, slots as nat),
        forall|
            version: u8,
            code: u16,
            reason: Seq<char>,
            fields: Seq<(Seq<char>, Seq<char>)>,
            rest: Seq<u8>,
        |
            raw@ == #[trigger] written_response(version, code, reason, fields, rest) && version <= 1
                && 100 <= code <= 999 && is_reason(reason) && are_fields(fields) && fields.len()
                <= slots ==> r@ == (ResponseHead::Complete {
                version: Some(version),
                code: Some(code),
                reason: Some(reason),
                headers: in_bytes(fields),
            }),
{
    let mut list = vec![httparse::EMPTY_HEADER; slots];
    let mut res = httparse::Response::new(&mut list);
    match res.parse(raw) {
        Ok(httparse::Status::Complete(_)) => RawResponse::Complete {
            version: res.version,
            code: res.code,
            reason: res.reason.map(str::to_owned),
            headers: res.headers.iter().map(|h| (h.name.to_owned(), h.value.to_vec())).collect(),
        },
        Ok(httparse::Status::Partial) => RawResponse::Partial,
        Err(e) => RawResponse::Failed(e.to_string()),
    }
}

} // verus!
