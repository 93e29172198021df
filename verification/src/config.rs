//! The settings of the proxy.
use crate::boundary::{debug_quoted, debug_text};
use crate::error::{Error, ErrorView};
use crate::ip::{ip_of, read_ip, read_socket, socket_of, SocketAddr};
use crate::number::{read_unsigned, unsigned_up_to};
use crate::text::{
    before, chars_of, contains, find_first, find_last, includes, last_at, lemma_last_at, text_of,
    trim, trim_both, trimmed, trimmed_both, Class,
};
use vstd::prelude::*;
use vstd::slice::slice_subrange;
use vstd::string::StringExecFns;

verus! {

/// Where the proxies for a destination come from.
#[derive(Clone, Copy, Debug, PartialEq, Eq, Structural)]
pub enum Mode {
    /// Follow the current user's WinHTTP / IE proxy settings (PAC, WPAD, or static).
    System,
    /// Evaluate an explicit PAC URL or file path.
    Pac,
    /// Always use `upstream`.
    Proxy,
}

impl Default for Mode {
    fn default() -> (r: Mode)
        ensures
            r == Mode::System,
    {
        Mode::System
    }
}

/// Which scheme answers a proxy that asks for authentication.
#[derive(Clone, Copy, Debug, PartialEq, Eq, Structural)]
pub enum AuthMode {
    Auto,
    Negotiate,
    Ntlm,
}

impl Default for AuthMode {
    fn default() -> (r: AuthMode)
        ensures
            r == AuthMode::Auto,
    {
        AuthMode::Auto
    }
}

/// The settings.
#[derive(Clone, Debug)]
pub struct Config {
    pub listen: String,
    pub mode: Mode,
    /// `host:port` for `mode = "proxy"`.
    pub upstream: Option<String>,
    /// PAC URL (`http://...`) or filesystem path for `mode = "pac"`.
    pub pac: Option<String>,
    pub auth: AuthMode,
    pub noproxy: Vec<String>,
    pub test_url: String,
    /// Minutes to skip a PAC-selected proxy after connect/auth failure.
    pub blacklist_timeout: u64,
    /// Max buffered request body during NTLM handshake (bytes).
    pub max_buffered_body: usize,
}

impl Default for Config {
    fn default() -> (r: Config)
        ensures
            r.listen@ == "127.0.0.1:3128"@,
            r.mode == Mode::System,
            r.upstream is None,
            r.pac is None,
            r.auth == AuthMode::Auto,
            r.noproxy.deep_view() == seq![
                "localhost"@,
                "127.0.0.1"@,
                "::1"@,
                "10.0.0.0/8"@,
                "192.168.0.0/16"@,
                "172.16.0.0/12"@,
            ],
            r.test_url@ == "https://example.com"@,
            r.blacklist_timeout == 30,
            r.max_buffered_body == 1_048_576,
    {
        let mut noproxy: Vec<String> = Vec::new();
        noproxy.push("localhost".to_owned());
        noproxy.push("127.0.0.1".to_owned());
        noproxy.push("::1".to_owned());
        noproxy.push("10.0.0.0/8".to_owned());
        noproxy.push("192.168.0.0/16".to_owned());
        noproxy.push("172.16.0.0/12".to_owned());
        assert(noproxy.deep_view() == seq![
            "localhost"@,
            "127.0.0.1"@,
            "::1"@,
            "10.0.0.0/8"@,
            "192.168.0.0/16"@,
            "172.16.0.0/12"@,
        ]);
        Config {
            listen: "127.0.0.1:3128".to_owned(),
            mode: Mode::System,
            upstream: None,
            pac: None,
            auth: AuthMode::Auto,
            noproxy,
            test_url: "https://example.com".to_owned(),
            blacklist_timeout: 30,
            max_buffered_body: 1_048_576,
        }
    }
}

/// The host and the port that `s` writes. A socket address gives its address in
/// the usual form; anything else is a host, the last colon, and a port.
pub open spec fn host_port_of(s: Seq<char>) -> Option<(Seq<char>, u16)> {
    let t = trim(s);
    let i = last_at(t, Class::One(':'));
    if socket_of(t) is Some {
        let a = socket_of(t)->0;
        Some((a.ip.text(), a.port))
    } else if i > 0 && t[0] != '[' {
        match unsigned_up_to(t.skip(i + 1), 10, 65535) {
            Some(p) => Some((trim_both(t.take(i), Class::Bracket), p as u16)),
            None => None,
        }
    } else {
        None
    }
}

/// What is said of a text that is no host and port.
pub open spec fn host_port_fault(s: Seq<char>) -> Seq<char> {
    "expected host:port, got "@ + debug_quoted(trim(s))
}

/// Reads a host and a port.
pub fn parse_host_port(input: &str) -> (r: Result<(String, u16), String>)
    ensures
        match r {
            Ok((host, port)) => host_port_of(input@) == Some((host@, port)),
            Err(e) => host_port_of(input@) is None && e@ == host_port_fault(input@),
        },
{
    let text = chars_of(input);
    let t = trimmed(text.as_slice());
    if let Some(a) = read_socket(t) {
        return Ok((a.ip.display(), a.port));
    }
    proof {
        lemma_last_at(t@, Class::One(':'));
    }
    if let Some(i) = find_last(t, Class::One(':')) {
        if i > 0 && t[0] != '[' {
            let host = slice_subrange(t, 0, i);
            let port = slice_subrange(t, i + 1, t.len());
            assert(host@ == t@.take(i as int));
            assert(port@ == t@.skip(i + 1));
            if let Some(p) = read_unsigned(port, 10, 65535) {
                return Ok((text_of(trimmed_both(host, Class::Bracket)), p as u16));
            }
        }
    }
    let mut e = "expected host:port, got ".to_owned();
    e.append(debug_text(text_of(t).as_str()).as_str());
    Err(e)
}

/// The host and the port that `s` writes, or what is said where it writes none.
pub open spec fn needed_host_port(s: Seq<char>) -> Result<(Seq<char>, u16), Seq<char>> {
    match host_port_of(s) {
        Some(hp) => Ok(hp),
        None => Err(host_port_fault(s)),
    }
}

/// The host that `s` writes, with its port or with the port `default`.
pub open spec fn host_or_default(s: Seq<char>, default: u16) -> Result<
    (Seq<char>, u16),
    Seq<char>,
> {
    if includes(s, Class::One(':')) {
        needed_host_port(s)
    } else {
        Ok((s, default))
    }
}

/// The host and the port of a URL, of which `rest` follows the scheme.
pub open spec fn authority_of(rest: Seq<char>, default: u16) -> Result<
    (Seq<char>, u16),
    Seq<char>,
> {
    host_or_default(before(rest, Class::One('/')), default)
}

/// Whether `r` is the outcome `s`.
pub open spec fn host_port_is(
    r: Result<(String, u16), String>,
    s: Result<(Seq<char>, u16), Seq<char>>,
) -> bool {
    match r {
        Ok((host, port)) => s == Ok::<(Seq<char>, u16), Seq<char>>((host@, port)),
        Err(e) => s == Err::<(Seq<char>, u16), Seq<char>>(e@),
    }
}

/// Reads a host with its port, or with the port `default`.
pub fn parse_host_or(s: &[char], default: u16) -> (r: Result<(String, u16), String>)
    ensures
        host_port_is(r, host_or_default(s@, default)),
{
    let text = text_of(s);
    if contains(s, Class::One(':')) {
        parse_host_port(text.as_str())
    } else {
        Ok((text, default))
    }
}

/// Reads the host and the port of a URL, of which `rest` follows the scheme.
pub fn parse_authority(rest: &[char], default: u16) -> (r: Result<(String, u16), String>)
    ensures
        host_port_is(r, authority_of(rest@, default)),
{
    let i: usize = find_first(rest, Class::One('/'));
    let host = slice_subrange(rest, 0, i);
    assert(host@ == before(rest@, Class::One('/')));
    parse_host_or(host, default)
}

impl Config {
    /// What is wrong with the settings, if anything.
    pub open spec fn fault(&self) -> Option<ErrorView> {
        if socket_of(self.listen@) is None {
            Some(self.listen_fault())
        } else {
            match self.mode {
                Mode::Proxy => match self.upstream {
                    None => Some(
                        ErrorView::Config("mode=proxy requires upstream = \"host:port\""@),
                    ),
                    Some(up) => if host_port_of(up@) is None {
                        Some(ErrorView::Config(host_port_fault(up@)))
                    } else {
                        None
                    },
                },
                Mode::Pac => if self.pac is None || trim((self.pac->0)@).len() == 0 {
                    Some(
                        ErrorView::Config(
                            "mode=pac requires pac = \"http://...\" or a file path"@,
                        ),
                    )
                } else {
                    None
                },
                Mode::System => None,
            }
        }
    }

    /// What is said of a `listen` that is no socket address.
    pub open spec fn listen_fault(&self) -> ErrorView {
        ErrorView::Config(
            "invalid listen "@ + self.listen@ + ": invalid socket address syntax"@,
        )
    }

    /// Checks the settings.
    pub fn validate(&self) -> (r: Result<(), Error>)
        ensures
            match r {
                Ok(_) => self.fault() is None,
                Err(e) => self.fault() == Some(e@),
            },
    {
        match self.listen_addr() {
            Ok(_) => {},
            Err(e) => {
                return Err(e);
            },
        }
        match self.mode {
            Mode::Proxy => match &self.upstream {
                None => Err(
                    Error::Config("mode=proxy requires upstream = \"host:port\"".to_owned()),
                ),
                Some(up) => match parse_host_port(up.as_str()) {
                    Ok(_) => Ok(()),
                    Err(e) => Err(Error::Config(e)),
                },
            },
            Mode::Pac => {
                let blank = match &self.pac {
                    None => true,
                    Some(pac) => {
                        let text = chars_of(pac.as_str());
                        trimmed(text.as_slice()).len() == 0
                    },
                };
                if blank {
                    return Err(
                        Error::Config(
                            "mode=pac requires pac = \"http://...\" or a file path".to_owned(),
                        ),
                    );
                }
                Ok(())
            },
            Mode::System => Ok(()),
        }
    }

    /// The socket address on which clients are served.
    pub fn listen_addr(&self) -> (r: Result<SocketAddr, Error>)
        ensures
            match r {
                Ok(a) => socket_of(self.listen@) == Some(a),
                Err(e) => socket_of(self.listen@) is None && e@ == self.listen_fault(),
            },
    {
        let text = chars_of(self.listen.as_str());
        match read_socket(text.as_slice()) {
            Some(a) => Ok(a),
            None => {
                let mut e = "invalid listen ".to_owned();
                e.append(self.listen.as_str());
                e.append(": invalid socket address syntax");
                Err(Error::Config(e))
            },
        }
    }

    /// The host and the port of the one proxy of `mode = "proxy"`.
    pub fn upstream_addr(&self) -> (r: Result<(String, u16), Error>)
        ensures
            match (r, self.upstream) {
                (Ok((host, port)), Some(up)) => host_port_of(up@) == Some((host@, port)),
                (Ok(_), None) => false,
                (Err(e), Some(up)) => host_port_of(up@) is None && e@ == ErrorView::Config(
                    host_port_fault(up@),
                ),
                (Err(e), None) => e@ == ErrorView::Config("upstream is not set"@),
            },
    {
        match &self.upstream {
            None => Err(Error::Config("upstream is not set".to_owned())),
            Some(up) => match parse_host_port(up.as_str()) {
                Ok(hp) => Ok(hp),
                Err(e) => Err(Error::Config(e)),
            },
        }
    }

    /// The lines that set up a shell and git to use the proxy.
    pub open spec fn env_text(&self) -> Seq<Seq<char>> {
        let proxy = "http://"@ + self.listen@;
        seq![
            "set HTTP_PROXY="@ + proxy,
            "set HTTPS_PROXY="@ + proxy,
            "set NO_PROXY=localhost,127.0.0.1"@,
            "git config --global http.proxy "@ + proxy,
            "git config --global https.proxy "@ + proxy,
        ]
    }

    /// The lines that set up a shell and git to use the proxy.
    pub fn env_lines(&self) -> (r: Vec<String>)
        ensures
            r.deep_view() == self.env_text(),
    {
        let proxy = "http://".to_owned().concat(self.listen.as_str());
        let mut out: Vec<String> = Vec::new();
        out.push("set HTTP_PROXY=".to_owned().concat(proxy.as_str()));
        out.push("set HTTPS_PROXY=".to_owned().concat(proxy.as_str()));
        out.push("set NO_PROXY=localhost,127.0.0.1".to_owned());
        out.push("git config --global http.proxy ".to_owned().concat(proxy.as_str()));
        out.push("git config --global https.proxy ".to_owned().concat(proxy.as_str()));
        assert(out.deep_view() == self.env_text());
        out
    }
}

/// Whether `host` is an IP address.
pub fn looks_like_ip(host: &str) -> (r: bool)
    ensures
        r == (ip_of(host@) is Some),
{
    let text = chars_of(host);
    read_ip(text.as_slice()).is_some()
}

} // verus!
