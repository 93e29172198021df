//! A session with Windows' security support provider: what goes into its
//! calls, and how their results are taken.
use crate::boundary::{base64_bytes, base64_text, from_base64, is_base64, to_base64};
use crate::error::{Error, ErrorView};
use crate::number::{digit_char, small_digit};
use crate::text::{chars_of, is_same_word, same_word, text_of, trim, trimmed, upper_char, upper_of};
use crate::wide::{utf16, wide};
use vstd::prelude::*;
use vstd::string::StringExecFns;

verus! {

/// The call did what was asked.
pub const SEC_E_OK: i32 = 0;

/// Another challenge is needed.
pub const SEC_I_CONTINUE_NEEDED: i32 = 0x0009_0312;

/// The token is the last, and its message is to be completed.
pub const SEC_I_COMPLETE_NEEDED: i32 = 0x0009_0313;

/// Another challenge is needed, and the message is to be completed.
pub const SEC_I_COMPLETE_AND_CONTINUE: i32 = 0x0009_0314;

/// A session with the security support provider.
#[derive(Debug)]
pub struct SspiSession {
    /// The security package, in UTF-16.
    pub package: Vec<u16>,
    /// The service to authenticate to, in UTF-16.
    pub target: Vec<u16>,
    /// Whether there is a security context that the next call goes on with.
    pub have_ctx: bool,
    /// Whether no further challenge is needed.
    pub complete: bool,
}

/// The security package for an authentication scheme.
pub open spec fn package_of(scheme: Seq<char>) -> Seq<char> {
    if same_word(scheme, "ntlm"@) {
        "NTLM"@
    } else {
        "Negotiate"@
    }
}

/// The last `k` hexadecimal digits of `n`, in capitals.
pub open spec fn hex_digits(n: nat, k: nat) -> Seq<char>
    decreases k,
{
    if k == 0 {
        Seq::empty()
    } else {
        hex_digits(n / 16, (k - 1) as nat).push(upper_char(small_digit(n % 16)))
    }
}

/// A status as it is shown.
pub open spec fn status_text(status: i32) -> Seq<char> {
    "0x"@ + hex_digits(status as u32 as nat, 8)
}

fn push_hex(out: &mut String, n: u32, k: u32)
    ensures
        final(out)@ == old(out)@ + hex_digits(n as nat, k as nat),
    decreases k,
{
    if k > 0 {
        push_hex(out, n / 16, k - 1);
        out.push(upper_of(digit_char((n % 16) as u64)));
    }
    assert(out@ == old(out)@ + hex_digits(n as nat, k as nat));
}

fn push_status(out: &mut String, status: i32)
    ensures
        final(out)@ == old(out)@ + status_text(status),
{
    out.append("0x");
    push_hex(out, status as u32, 8);
    assert(out@ == old(out)@ + status_text(status));
}

/// Whether credentials were acquired, or what is said where they were not.
pub open spec fn acquired_fault(status: i32) -> Option<ErrorView> {
    if status == SEC_E_OK {
        None
    } else {
        Some(
            ErrorView::Auth(
                "AcquireCredentialsHandleW failed: "@ + status_text(status)
                    + " (not logged into a domain session?)"@,
            ),
        )
    }
}

/// The bytes of a challenge, where there is one.
pub open spec fn challenge_of(challenge: Option<Seq<char>>) -> Result<Option<Seq<u8>>, ErrorView> {
    match challenge {
        Some(t) => if t.len() == 0 {
            Ok(None)
        } else {
            match base64_bytes(trim(t)) {
                Ok(b) => Ok(Some(b)),
                Err(e) => Err(ErrorView::Auth("invalid Negotiate token: "@ + e)),
            }
        },
        None => Ok(None),
    }
}

/// Whether a status ends the session well, leaves it going on, or is a failure.
pub open spec fn completes(status: i32) -> Option<bool> {
    if status == SEC_E_OK || status == SEC_I_COMPLETE_NEEDED {
        Some(true)
    } else if status == SEC_I_CONTINUE_NEEDED || status == SEC_I_COMPLETE_AND_CONTINUE {
        Some(false)
    } else {
        None
    }
}

/// The token to send, where the provider gave this status and these bytes.
pub open spec fn token_of(status: i32, bytes: Seq<u8>) -> Result<Seq<char>, ErrorView> {
    match completes(status) {
        None => Err(
            ErrorView::Auth("InitializeSecurityContextW failed: "@ + status_text(status)),
        ),
        Some(complete) => if bytes.len() > 0 {
            Ok(base64_text(bytes))
        } else if complete {
            Ok(Seq::empty())
        } else {
            Err(ErrorView::Auth("SSPI produced an empty token"@))
        },
    }
}

impl SspiSession {
    /// Whether this is a fresh session with the proxy `host` for a scheme.
    pub open spec fn is_for(&self, host: Seq<char>, scheme: Seq<char>) -> bool {
        &&& self.package@ == utf16(package_of(scheme)).push(0)
        &&& self.target@ == utf16("HTTP/"@ + host).push(0)
        &&& !self.have_ctx
        &&& !self.complete
    }

    /// A fresh session with the proxy `proxy_host`.
    pub fn new(proxy_host: &str, scheme: &str) -> (r: SspiSession)
        ensures
            r.is_for(proxy_host@, scheme@),
    {
        let package = if is_same_word(scheme, "ntlm") {
            wide("NTLM")
        } else {
            wide("Negotiate")
        };
        let mut target = "HTTP/".to_owned();
        target.append(proxy_host);
        SspiSession { package, target: wide(target.as_str()), have_ctx: false, complete: false }
    }

    /// Takes the status of acquiring the user's credentials.
    pub fn acquired(status: i32) -> (r: Result<(), Error>)
        ensures
            match r {
                Ok(_) => acquired_fault(status) is None,
                Err(e) => acquired_fault(status) == Some(e@),
            },
    {
        if status == SEC_E_OK {
            return Ok(());
        }
        let mut message = "AcquireCredentialsHandleW failed: ".to_owned();
        push_status(&mut message, status);
        message.append(" (not logged into a domain session?)");
        Err(Error::Auth(message))
    }

    /// Decodes the proxy's challenge. An empty one counts as none.
    pub fn challenge(challenge_b64: Option<&str>) -> (r: Result<Option<Vec<u8>>, Error>)
        ensures
            match r {
                Ok(b) => challenge_of(challenge_b64.deep_view()) == Ok::<
                    Option<Seq<u8>>,
                    ErrorView,
                >(b.deep_view()),
                Err(e) => challenge_of(challenge_b64.deep_view()) == Err::<
                    Option<Seq<u8>>,
                    ErrorView,
                >(e@),
            },
    {
        match challenge_b64 {
            Some(t) => {
                if t.is_empty() {
                    return Ok(None);
                }
                let chars = chars_of(t);
                match from_base64(text_of(trimmed(chars.as_slice())).as_str()) {
                    Ok(b) => {
                        assert(b.deep_view() == b@);
                        Ok(Some(b))
                    },
                    Err(e) => {
                        let mut message = "invalid Negotiate token: ".to_owned();
                        message.append(e.as_str());
                        Err(Error::Auth(message))
                    },
                }
            },
            None => Ok(None),
        }
    }

    /// Takes the status of a call and the bytes that it gave, and gives the
    /// token to send. Read as a challenge, the token gives the bytes back.
    pub fn finish(&mut self, status: i32, bytes: &[u8]) -> (r: Result<String, Error>)
        requires
            (bytes@.len() + 2) / 3 * 4 <= isize::MAX,
        ensures
            match r {
                Ok(token) => token_of(status, bytes@) == Ok::<Seq<char>, ErrorView>(token@),
                Err(e) => token_of(status, bytes@) == Err::<Seq<char>, ErrorView>(e@),
            },
            r matches Ok(token) ==> (bytes@.len() > 0 ==> challenge_of(Some(token@)) == Ok::<
                Option<Seq<u8>>,
                ErrorView,
            >(Some(bytes@))),
            final(self).have_ctx,
            final(self).complete == match completes(status) {
                Some(complete) => complete,
                None => old(self).complete,
            },
            final(self).package@ == old(self).package@,
            final(self).target@ == old(self).target@,
    {
        self.have_ctx = true;
        if status == SEC_E_OK || status == SEC_I_COMPLETE_NEEDED {
            self.complete = true;
        } else if status == SEC_I_CONTINUE_NEEDED || status == SEC_I_COMPLETE_AND_CONTINUE {
            self.complete = false;
        } else {
            let mut message = "InitializeSecurityContextW failed: ".to_owned();
            push_status(&mut message, status);
            return Err(Error::Auth(message));
        }
        if bytes.len() == 0 {
            if self.complete {
                let token = String::new();
                assert(token@ == Seq::<char>::empty());
                return Ok(token);
            }
            return Err(Error::Auth("SSPI produced an empty token".to_owned()));
        }
        let token = to_base64(bytes);
        proof {
            assert(token@.len() > 0);
            assert(is_base64(token@[0]) && is_base64(token@.last()));
            assert(trim(token@) == token@);
        }
        Ok(token)
    }

    /// Whether no further challenge is needed.
    pub fn is_complete(&self) -> (r: bool)
        ensures
            r == self.complete,
    {
        self.complete
    }
}

} // verus!
