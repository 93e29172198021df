//! The handshake with an upstream proxy that asks for authentication: which
//! requests are sent, and how each answer is taken.
use crate::auth::sspi::SspiSession;
use crate::boundary::{debug_quoted, debug_text};
use crate::config::AuthMode;
use crate::error::{Error, ErrorView};
use crate::http1::{
    closes, connection_close, encode_request, pick_proxy_auth, picked, proxy_authenticate,
    request_bytes, values_of, ClientRequest, RequestView, ResponseView, ServerResponse,
};
use crate::platform::Platform;
use crate::text::{join, joined};
use vstd::prelude::*;
use vstd::string::StringExecFns;

verus! {

/// How many tokens are sent at most.
pub const MAX_ROUNDS: u8 = 6;

/// One side of an authentication: it turns challenges into tokens.
pub trait AuthSession {
    /// The next token, in base64, given the proxy's challenge.
    fn step(&mut self, challenge_b64: Option<&str>) -> Result<String, Error>;

    /// Whether no further challenge is needed.
    fn is_complete(&self) -> bool;

    /// Whether the first step needs a challenge; it does not, unless a session
    /// says so.
    fn needs_challenge(&self) -> (r: bool)
        default_ensures
            !r,
    {
        false
    }
}

/// Sets up a session with the proxy `proxy_host`, where the platform has one.
pub fn create(platform: Platform, proxy_host: &str, scheme: &str) -> (r: Result<SspiSession, Error>)
    ensures
        match r {
            Ok(s) => platform is Windows && s.is_for(proxy_host@, scheme@),
            Err(e) => platform is Other && e@ == ErrorView::Unsupported(
                "SSPI current-user auth is only available on Windows"@,
            ),
        },
{
    match platform {
        Platform::Windows => Ok(SspiSession::new(proxy_host, scheme)),
        Platform::Other => Err(
            Error::Unsupported("SSPI current-user auth is only available on Windows"),
        ),
    }
}

/// A handshake with an upstream proxy.
#[derive(Debug)]
pub struct Handshake {
    /// Which scheme the configuration asks for.
    pub mode: AuthMode,
    /// The scheme in use, once there is one.
    pub scheme: String,
    /// How many tokens have been sent.
    pub rounds: u8,
}

/// A handshake, in sequences.
pub struct HandshakeView {
    pub mode: AuthMode,
    pub scheme: Seq<char>,
    pub rounds: nat,
}

impl View for Handshake {
    type V = HandshakeView;

    open spec fn view(&self) -> HandshakeView {
        HandshakeView { mode: self.mode, scheme: self.scheme@, rounds: self.rounds as nat }
    }
}

/// The header fields that keep the connection to the proxy open.
pub open spec fn keep_alive() -> Seq<(Seq<char>, Seq<char>)> {
    seq![("Proxy-Connection"@, "Keep-Alive"@), ("Connection"@, "Keep-Alive"@)]
}

/// The request before any authentication. A body is held back.
pub open spec fn opening(req: RequestView) -> Seq<u8> {
    request_bytes(req, keep_alive(), req.connects() || req.body.len() == 0)
}

/// The request with a token. A body is held back until the session is complete.
pub open spec fn authorized(
    req: RequestView,
    scheme: Seq<char>,
    token: Seq<char>,
    complete: bool,
) -> Seq<u8> {
    request_bytes(
        req,
        keep_alive().push(("Proxy-Authorization"@, scheme + " "@ + token)),
        req.connects() || complete || req.body.len() == 0,
    )
}

/// The scheme to use, where the proxy prefers `offered`.
pub open spec fn chosen(mode: AuthMode, offered: Seq<char>) -> Seq<char> {
    match mode {
        AuthMode::Negotiate => "Negotiate"@,
        AuthMode::Ntlm => "NTLM"@,
        AuthMode::Auto => offered,
    }
}

/// Texts in a list, each in quotes.
pub open spec fn quoted_list(items: Seq<Seq<char>>) -> Seq<char> {
    "["@ + joined(items.map_values(|s: Seq<char>| debug_quoted(s)), ", "@) + "]"@
}

impl HandshakeView {
    /// What follows from a refusal with these header fields: the scheme to use
    /// and the challenge to answer, or the end of the handshake.
    pub open spec fn demand(self, headers: Seq<(Seq<char>, Seq<char>)>) -> Result<
        (Seq<char>, Option<Seq<char>>),
        ErrorView,
    > {
        let challenges = values_of(headers, "proxy-authenticate"@);
        if self.rounds == 0 {
            match picked(challenges) {
                Some((scheme, _)) => Ok((chosen(self.mode, scheme), None)),
                None => Err(
                    ErrorView::Auth(
                        "407 without NTLM/Negotiate (headers="@ + quoted_list(challenges) + ")"@,
                    ),
                ),
            }
        } else if closes(headers) {
            Err(ErrorView::Auth("proxy closed the connection during NTLM handshake"@))
        } else if self.rounds >= MAX_ROUNDS {
            Err(ErrorView::Auth("NTLM/Negotiate handshake exceeded 6 rounds"@))
        } else {
            Ok(
                (
                    self.scheme,
                    match picked(challenges) {
                        Some((_, token)) => token,
                        None => None,
                    },
                ),
            )
        }
    }
}

fn list_text(items: &[String]) -> (r: String)
    ensures
        r@ == quoted_list(items.deep_view()),
{
    let ghost all = items.deep_view();
    let ghost quote = |s: Seq<char>| debug_quoted(s);
    let mut quoted: Vec<String> = Vec::new();
    for i in 0..items.len()
        invariant
            all == items.deep_view(),
            quote == (|s: Seq<char>| debug_quoted(s)),
            quoted.deep_view() == all.take(i as int).map_values(quote),
    {
        let ghost done = quoted.deep_view();
        quoted.push(debug_text(items[i].as_str()));
        assert(quoted.deep_view() == done.push(quote(all[i as int])));
        assert(quoted.deep_view() == all.take(i + 1).map_values(quote));
    }
    assert(all.take(all.len() as int) == all);
    let mut out = "[".to_owned();
    out.append(join(quoted.as_slice(), ", ").as_str());
    out.append("]");
    out
}

/// Whether a response asks for authentication.
pub fn asks_for_auth(resp: &ServerResponse) -> (r: bool)
    ensures
        r == (resp@.status == 407),
{
    resp.status == 407
}

impl Handshake {
    /// Whether no more tokens have been sent than are sent at most.
    pub open spec fn wf(&self) -> bool {
        self.rounds <= MAX_ROUNDS
    }

    /// A handshake that has not begun.
    pub fn new(mode: AuthMode) -> (r: Handshake)
        ensures
            r@ == (HandshakeView { mode, scheme: Seq::empty(), rounds: 0 }),
            r.wf(),
    {
        let r = Handshake { mode, scheme: String::new(), rounds: 0 };
        assert(r.scheme@ == Seq::<char>::empty());
        r
    }

    /// The request to send first.
    pub fn first_request(req: &ClientRequest) -> (r: Vec<u8>)
        ensures
            r@ == opening(req@),
    {
        let extra: [(&str, &str); 2] = [
            ("Proxy-Connection", "Keep-Alive"),
            ("Connection", "Keep-Alive"),
        ];
        let fields = extra.as_slice();
        assert(fields.deep_view() == keep_alive());
        encode_request(req, fields, req.is_connect() || req.body.is_empty())
    }

    /// Takes the header fields of a response that asks for authentication, and
    /// gives the challenge to answer. The first token answers none.
    pub fn challenged(&mut self, headers: &[(String, String)]) -> (r: Result<
        Option<String>,
        Error,
    >)
        ensures
            final(self).mode == old(self).mode,
            final(self).rounds == old(self).rounds,
            match old(self)@.demand(headers.deep_view()) {
                Ok((scheme, challenge)) => {
                    &&& r matches Ok(c)
                    &&& c.deep_view() == challenge
                    &&& final(self).scheme@ == scheme
                    &&& final(self).rounds < MAX_ROUNDS
                },
                Err(e) => {
                    &&& r matches Err(x)
                    &&& x@ == e
                    &&& final(self).scheme@ == old(self).scheme@
                },
            },
    {
        let challenges = proxy_authenticate(headers);
        if self.rounds == 0 {
            match pick_proxy_auth(challenges.as_slice()) {
                Some((scheme, _)) => {
                    self.scheme = match self.mode {
                        AuthMode::Negotiate => "Negotiate".to_owned(),
                        AuthMode::Ntlm => "NTLM".to_owned(),
                        AuthMode::Auto => scheme,
                    };
                    Ok(None)
                },
                None => {
                    let mut message = "407 without NTLM/Negotiate (headers=".to_owned();
                    message.append(list_text(challenges.as_slice()).as_str());
                    message.append(")");
                    Err(Error::Auth(message))
                },
            }
        } else if connection_close(headers) {
            Err(Error::Auth("proxy closed the connection during NTLM handshake".to_owned()))
        } else if self.rounds >= MAX_ROUNDS {
            Err(Error::Auth("NTLM/Negotiate handshake exceeded 6 rounds".to_owned()))
        } else {
            match pick_proxy_auth(challenges.as_slice()) {
                Some((_, token)) => Ok(token),
                None => Ok(None),
            }
        }
    }

    /// The request to send next, with a token; `complete` tells whether the
    /// session needs no further challenge.
    pub fn request(&mut self, req: &ClientRequest, token: &str, complete: bool) -> (r: Vec<u8>)
        requires
            old(self).rounds < MAX_ROUNDS,
        ensures
            r@ == authorized(req@, old(self).scheme@, token@, complete),
            final(self)@ == (HandshakeView { rounds: old(self)@.rounds + 1, ..old(self)@ }),
            final(self).wf(),
    {
        self.rounds = self.rounds + 1;
        let mut value = self.scheme.clone();
        value.append(" ");
        value.append(token);
        let extra: [(&str, &str); 3] = [
            ("Proxy-Connection", "Keep-Alive"),
            ("Connection", "Keep-Alive"),
            ("Proxy-Authorization", value.as_str()),
        ];
        let fields = extra.as_slice();
        assert(fields.deep_view() == keep_alive().push(
            ("Proxy-Authorization"@, self.scheme@ + " "@ + token@),
        ));
        encode_request(
            req,
            fields,
            req.is_connect() || complete || req.body.is_empty(),
        )
    }

    /// Lets a session answer a challenge, and gives the request to send next,
    /// with the token that the session gave. Where the session fails, so does
    /// the handshake, with the session's failure. The session is asked once, as
    /// it came, with the challenge as given (`asked` is that one call), and is
    /// handed back as it was left.
    pub fn respond<S: AuthSession>(
        &mut self,
        session: &mut S,
        req: &ClientRequest,
        challenge: Option<&str>,
    ) -> (r: Result<Vec<u8>, Error>)
        requires
            old(self).rounds < MAX_ROUNDS,
        ensures
            match r {
                Ok(bytes) => {
                    &&& exists|asked: &mut S, token: String, complete: bool|
                        {
                            &&& *asked == *old(session)
                            &&& *final(asked) == *final(session)
                            &&& #[trigger] call_ensures(
                                S::step,
                                (asked, challenge),
                                Ok::<String, Error>(token),
                            )
                            &&& #[trigger] call_ensures(
                                S::is_complete,
                                (&*final(session),),
                                complete,
                            )
                            &&& bytes@ == authorized(
                                req@,
                                old(self).scheme@,
                                token@,
                                complete,
                            )
                        }
                    &&& final(self)@ == (HandshakeView {
                        rounds: old(self)@.rounds + 1,
                        ..old(self)@
                    })
                },
                Err(e) => {
                    &&& exists|asked: &mut S|
                        {
                            &&& *asked == *old(session)
                            &&& *final(asked) == *final(session)
                            &&& #[trigger] call_ensures(
                                S::step,
                                (asked, challenge),
                                Err::<String, Error>(e),
                            )
                        }
                    &&& final(self)@ == old(self)@
                },
            },
            final(self).wf(),
    {
        match session.step(challenge) {
            Ok(token) => {
                let complete = session.is_complete();
                Ok(self.request(req, token.as_str(), complete))
            },
            Err(e) => Err(e),
        }
    }
}

/// What becomes of a handshake.
pub enum Played {
    /// It goes on.
    Waiting,
    /// A response came that asks for no authentication, after so many tokens.
    Accepted(nat),
    /// It failed.
    Failed(ErrorView),
}

impl HandshakeView {
    /// What becomes of the handshake when the proxy gives these responses one
    /// after the other, and the session answers each challenge.
    pub open spec fn play(self, responses: Seq<ResponseView>) -> Played
        decreases responses.len(),
    {
        if responses.len() == 0 {
            Played::Waiting
        } else if responses[0].status != 407 {
            Played::Accepted(self.rounds)
        } else {
            match self.demand(responses[0].headers) {
                Err(e) => Played::Failed(e),
                Ok((scheme, _)) => (HandshakeView {
                    scheme,
                    rounds: self.rounds + 1,
                    ..self
                }).play(responses.drop_first()),
            }
        }
    }
}

/// A handshake is over after at most seven responses.
pub proof fn handshake_ends(h: HandshakeView, responses: Seq<ResponseView>)
    requires
        h.rounds <= MAX_ROUNDS,
        h.rounds + responses.len() > MAX_ROUNDS,
    ensures
        h.play(responses) !is Waiting,
    decreases responses.len(),
{
    if responses[0].status == 407 && h.demand(responses[0].headers) is Ok {
        let (scheme, _) = h.demand(responses[0].headers)->Ok_0;
        handshake_ends(
            HandshakeView { scheme, rounds: h.rounds + 1, ..h },
            responses.drop_first(),
        );
    }
}

/// A response that asks for no authentication is taken as it comes, without a
/// token having been sent.
pub proof fn open_proxy_needs_no_token(mode: AuthMode, responses: Seq<ResponseView>)
    requires
        responses.len() > 0,
        responses[0].status != 407,
    ensures
        (HandshakeView { mode, scheme: Seq::empty(), rounds: 0 }).play(responses)
            == Played::Accepted(0),
{
}

/// Until the session is complete, nothing of a request's body is sent, unless
/// the request asks for a tunnel: what is sent is the same for any body.
pub proof fn body_waits_for_the_session(
    req: RequestView,
    other: Seq<u8>,
    scheme: Seq<char>,
    token: Seq<char>,
)
    requires
        !req.connects(),
        req.body.len() > 0,
        other.len() > 0,
    ensures
        opening(req) == opening(RequestView { body: other, ..req }),
        authorized(req, scheme, token, false) == authorized(
            RequestView { body: other, ..req },
            scheme,
            token,
            false,
        ),
{
}

/// Once the session is complete, the request is sent with its whole body.
pub proof fn complete_session_sends_the_body(
    req: RequestView,
    scheme: Seq<char>,
    token: Seq<char>,
)
    ensures
        req.body.is_suffix_of(authorized(req, scheme, token, true)),
{
    let sent = authorized(req, scheme, token, true);
    let n = sent.len() - req.body.len();
    assert(sent.skip(n) == req.body);
}

} // verus!
