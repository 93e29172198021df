//! The answer to a proxy that asks for authentication.
use crate::auth::handshake::{authorized, opening, HandshakeView, MAX_ROUNDS};
use crate::auth::sspi::{
    acquired_fault, challenge_of, completes, hex_digits, status_text, token_of, SspiSession,
};
use crate::boundary::{base64_bytes, base64_text, debug_quoted};
use crate::config::AuthMode;
use crate::error::ErrorView;
use crate::http1::{closes, picked, request_bytes, values_of, RequestView};
use crate::laws::challenges::token_is_taken_as_it_is_written;
use crate::text::{joined, same_word, trimming_leaves_the_middle, Class};
use crate::wide::utf16;
use vstd::prelude::*;

verus! {

/// Six tokens are sent at most.
pub proof fn tokens_are_bounded()
    ensures
        MAX_ROUNDS == 6,
{
}

/// The first request asks the proxy to keep the connection open, and holds its
/// body back, unless it asks for a tunnel; it has no token.
pub proof fn first_request_has_no_token(req: RequestView)
    ensures
        ({
            let fields = seq![
                ("Proxy-Connection"@, "Keep-Alive"@),
                ("Connection"@, "Keep-Alive"@),
            ];
            &&& same_word(req.method, "CONNECT"@) || req.body.len() == 0 ==> opening(req)
                == request_bytes(req, fields, true)
            &&& !same_word(req.method, "CONNECT"@) && req.body.len() > 0 ==> opening(req)
                == request_bytes(req, fields, false)
        }),
{
}

/// A request with a token has it in one field, after the name of the scheme,
/// as the session gave it; its body goes with it once the session is complete.
pub proof fn token_goes_into_the_request(
    req: RequestView,
    scheme: Seq<char>,
    token: Seq<char>,
    complete: bool,
)
    ensures
        ({
            let fields = seq![
                ("Proxy-Connection"@, "Keep-Alive"@),
                ("Connection"@, "Keep-Alive"@),
                ("Proxy-Authorization"@, scheme + seq![' '] + token),
            ];
            &&& same_word(req.method, "CONNECT"@) || complete || req.body.len() == 0
                ==> authorized(req, scheme, token, complete) == request_bytes(req, fields, true)
            &&& !same_word(req.method, "CONNECT"@) && !complete && req.body.len() > 0
                ==> authorized(req, scheme, token, complete) == request_bytes(req, fields, false)
        }),
{
    reveal_strlit(" ");
    assert(" "@ == seq![' ']);
    let fields = seq![
        ("Proxy-Connection"@, "Keep-Alive"@),
        ("Connection"@, "Keep-Alive"@),
        ("Proxy-Authorization"@, scheme + seq![' '] + token),
    ];
    assert(crate::auth::handshake::keep_alive().push(
        ("Proxy-Authorization"@, scheme + " "@ + token),
    ) == fields);
}

/// The first answer uses the scheme that the settings ask for, or else the one
/// that the proxy offers, and answers no challenge yet. A proxy that offers no
/// scheme is not answered.
pub proof fn first_answer_chooses_the_scheme(
    h: HandshakeView,
    headers: Seq<(Seq<char>, Seq<char>)>,
)
    requires
        h.rounds == 0,
    ensures
        ({
            let offered = picked(values_of(headers, "proxy-authenticate"@));
            &&& offered is None ==> h.demand(headers) == Err::<
                (Seq<char>, Option<Seq<char>>),
                ErrorView,
            >(
                ErrorView::Auth(
                    "407 without NTLM/Negotiate (headers=["@ + joined(
                        values_of(headers, "proxy-authenticate"@).map_values(
                            |s: Seq<char>| debug_quoted(s),
                        ),
                        ", "@,
                    ) + "])"@,
                ),
            )
            &&& offered is Some && h.mode == AuthMode::Auto ==> h.demand(headers) == Ok::<
                (Seq<char>, Option<Seq<char>>),
                ErrorView,
            >(((offered->0).0, None::<Seq<char>>))
            &&& offered is Some && h.mode == AuthMode::Negotiate ==> h.demand(headers) == Ok::<
                (Seq<char>, Option<Seq<char>>),
                ErrorView,
            >(("Negotiate"@, None::<Seq<char>>))
            &&& offered is Some && h.mode == AuthMode::Ntlm ==> h.demand(headers) == Ok::<
                (Seq<char>, Option<Seq<char>>),
                ErrorView,
            >(("NTLM"@, None::<Seq<char>>))
        }),
{
    let list = joined(
        values_of(headers, "proxy-authenticate"@).map_values(|s: Seq<char>| debug_quoted(s)),
        ", "@,
    );
    reveal_strlit("[");
    reveal_strlit("]");
    reveal_strlit(")");
    reveal_strlit("])");
    reveal_strlit("407 without NTLM/Negotiate (headers=");
    reveal_strlit("407 without NTLM/Negotiate (headers=[");
    assert("407 without NTLM/Negotiate (headers=["@ == "407 without NTLM/Negotiate (headers="@
        + "["@);
    assert("])"@ == "]"@ + ")"@);
    assert("407 without NTLM/Negotiate (headers="@ + ("["@ + list + "]"@) + ")"@
        == "407 without NTLM/Negotiate (headers=["@ + list + "])"@);
}

/// A later answer keeps to the scheme and answers the token that the proxy
/// sent, as it is written, unless the proxy ends the connection or six tokens
/// were sent.
pub proof fn later_answers_take_the_token(
    h: HandshakeView,
    headers: Seq<(Seq<char>, Seq<char>)>,
    scheme: Seq<char>,
    token: Seq<char>,
)
    requires
        h.rounds > 0,
    ensures
        closes(headers) ==> h.demand(headers) == Err::<(Seq<char>, Option<Seq<char>>), ErrorView>(
            ErrorView::Auth("proxy closed the connection during NTLM handshake"@),
        ),
        !closes(headers) && h.rounds >= 6 ==> h.demand(headers) == Err::<
            (Seq<char>, Option<Seq<char>>),
            ErrorView,
        >(ErrorView::Auth("NTLM/Negotiate handshake exceeded 6 rounds"@)),
        !closes(headers) && h.rounds < 6 ==> h.demand(headers) is Ok && (h.demand(headers)->Ok_0).0
            == h.scheme,
        !closes(headers) && h.rounds < 6 && (same_word(scheme, "negotiate"@) || same_word(
            scheme,
            "ntlm"@,
        ) || same_word(scheme, "basic"@)) && token.len() > 0 && (forall|i: int|
            0 <= i < token.len() ==> !Class::Space.holds(#[trigger] token[i])) && values_of(
            headers,
            "proxy-authenticate"@,
        ) == seq![scheme + seq![' '] + token] ==> h.demand(headers) == Ok::<
            (Seq<char>, Option<Seq<char>>),
            ErrorView,
        >((h.scheme, Some(token))),
        !closes(headers) && h.rounds < 6 && values_of(headers, "proxy-authenticate"@).len() == 0
            ==> h.demand(headers) == Ok::<(Seq<char>, Option<Seq<char>>), ErrorView>(
            (h.scheme, None::<Seq<char>>),
        ),
{
    if (same_word(scheme, "negotiate"@) || same_word(scheme, "ntlm"@) || same_word(
        scheme,
        "basic"@,
    )) && token.len() > 0 && (forall|i: int|
        0 <= i < token.len() ==> !Class::Space.holds(#[trigger] token[i])) {
        token_is_taken_as_it_is_written(scheme, token);
    }
    if values_of(headers, "proxy-authenticate"@).len() == 0 {
        crate::laws::challenges::unknown_schemes_are_not_answered(
            values_of(headers, "proxy-authenticate"@),
        );
    }
}

/// A session is with the proxy's HTTP service, and uses the NTLM package for
/// NTLM and the Negotiate package for anything else.
pub proof fn session_is_with_the_proxy(s: SspiSession, host: Seq<char>, scheme: Seq<char>)
    requires
        s.is_for(host, scheme),
    ensures
        s.target@ == utf16("HTTP/"@ + host).push(0u16),
        same_word(scheme, "ntlm"@) ==> s.package@ == utf16("NTLM"@).push(0u16),
        !same_word(scheme, "ntlm"@) ==> s.package@ == utf16("Negotiate"@).push(0u16),
        !s.complete,
        !s.have_ctx,
{
}

/// A challenge is the bytes that its text stands for, white space around it
/// aside; no text, or an empty one, is no challenge.
pub proof fn challenge_is_decoded(a: Seq<char>, text: Seq<char>, b: Seq<char>)
    requires
        forall|i: int| 0 <= i < a.len() ==> Class::Space.holds(#[trigger] a[i]),
        forall|i: int| 0 <= i < b.len() ==> Class::Space.holds(#[trigger] b[i]),
        text.len() > 0,
        !Class::Space.holds(text[0]),
        !Class::Space.holds(text.last()),
    ensures
        challenge_of(None) == Ok::<Option<Seq<u8>>, ErrorView>(None::<Seq<u8>>),
        challenge_of(Some(Seq::empty())) == Ok::<Option<Seq<u8>>, ErrorView>(None::<Seq<u8>>),
        challenge_of(Some(a + text + b)) == match base64_bytes(text) {
            Ok(bytes) => Ok::<Option<Seq<u8>>, ErrorView>(Some(bytes)),
            Err(e) => Err(ErrorView::Auth("invalid Negotiate token: "@ + e)),
        },
{
    trimming_leaves_the_middle(a, text, b, Class::Space);
}

/// The provider's status tells whether the session is complete: it is with 0 and
/// 0x90313, it goes on with 0x90312 and 0x90314, and any other is a failure. A
/// token is the provider's bytes in base64; none is needed once the session is
/// complete, and one is needed before.
pub proof fn status_tells_whether_the_session_is_complete(status: i32, bytes: Seq<u8>)
    ensures
        completes(status) == Some(true) <==> status == 0 || status == 0x90313,
        completes(status) == Some(false) <==> status == 0x90312 || status == 0x90314,
        completes(status) is None ==> token_of(status, bytes) == Err::<Seq<char>, ErrorView>(
            ErrorView::Auth("InitializeSecurityContextW failed: "@ + status_text(status)),
        ),
        completes(status) is Some && bytes.len() > 0 ==> token_of(status, bytes) == Ok::<
            Seq<char>,
            ErrorView,
        >(base64_text(bytes)),
        completes(status) == Some(true) && bytes.len() == 0 ==> token_of(status, bytes) == Ok::<
            Seq<char>,
            ErrorView,
        >(Seq::empty()),
        completes(status) == Some(false) && bytes.len() == 0 ==> token_of(status, bytes) == Err::<
            Seq<char>,
            ErrorView,
        >(ErrorView::Auth("SSPI produced an empty token"@)),
        acquired_fault(status) is None <==> status == 0,
        status != 0 ==> acquired_fault(status) == Some(
            ErrorView::Auth(
                "AcquireCredentialsHandleW failed: "@ + status_text(status)
                    + " (not logged into a domain session?)"@,
            ),
        ),
{
}

/// A status is shown as `0x` and eight hexadecimal digits in capitals, the last
/// of which is its remainder.
pub proof fn status_is_shown_in_eight_digits(status: i32, n: nat, k: nat)
    ensures
        status_text(status) == seq!['0', 'x'] + hex_digits(status as u32 as nat, 8),
        hex_digits(n, 0) == Seq::<char>::empty(),
        hex_digits(n, k + 1).drop_last() == hex_digits(n / 16, k),
        hex_digits(n, k + 1).len() == hex_digits(n / 16, k).len() + 1,
        hex_digits(n, k + 1).last() as u32 == if n % 16 < 10 {
            48 + n % 16
        } else {
            55 + n % 16
        },
{
    reveal_strlit("0x");
    assert("0x"@ == seq!['0', 'x']);
    assert(hex_digits(n, k + 1).drop_last() == hex_digits(n / 16, k));
}

} // verus!
