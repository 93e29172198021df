//! What can go wrong, and how it is told to the user.
use crate::number::{decimal, push_decimal};
use vstd::prelude::*;
use vstd::string::StringExecFns;

verus! {

/// A failure of the proxy.
#[derive(Debug)]
pub enum Error {
    Message(String),
    Config(String),
    Unsupported(&'static str),
    Http(String),
    Auth(String),
    Upstream { host: String, port: u16, message: String },
    /// A failure of the operating system, in its own words.
    Io(String),
}

/// A failure, with its texts as sequences of characters.
pub enum ErrorView {
    Message(Seq<char>),
    Config(Seq<char>),
    Unsupported(Seq<char>),
    Http(Seq<char>),
    Auth(Seq<char>),
    Upstream { host: Seq<char>, port: u16, message: Seq<char> },
    Io(Seq<char>),
}

impl View for Error {
    type V = ErrorView;

    open spec fn view(&self) -> ErrorView {
        match *self {
            Error::Message(m) => ErrorView::Message(m@),
            Error::Config(m) => ErrorView::Config(m@),
            Error::Unsupported(m) => ErrorView::Unsupported(m@),
            Error::Http(m) => ErrorView::Http(m@),
            Error::Auth(m) => ErrorView::Auth(m@),
            Error::Upstream { host, port, message } => ErrorView::Upstream {
                host: host@,
                port,
                message: message@,
            },
            Error::Io(m) => ErrorView::Io(m@),
        }
    }
}

impl ErrorView {
    /// The failure in one line of text.
    pub open spec fn text(self) -> Seq<char> {
        match self {
            ErrorView::Message(m) => m,
            ErrorView::Config(m) => "config: "@ + m,
            ErrorView::Unsupported(m) => "unsupported on this OS: "@ + m,
            ErrorView::Http(m) => "http: "@ + m,
            ErrorView::Auth(m) => "auth: "@ + m,
            ErrorView::Upstream { host, port, message } => "upstream "@ + host + ":"@ + decimal(
                port as nat,
            ) + ": "@ + message,
            ErrorView::Io(m) => m,
        }
    }
}

impl Error {
    /// A failure that is just a message.
    pub fn msg(msg: &str) -> (r: Error)
        ensures
            r@ == ErrorView::Message(msg@),
    {
        Error::Message(msg.to_owned())
    }

    /// The failure in one line of text.
    pub fn display(&self) -> (r: String)
        ensures
            r@ == self@.text(),
    {
        let mut out = String::new();
        match self {
            Error::Message(m) => {
                out.append(m.as_str());
            },
            Error::Config(m) => {
                out.append("config: ");
                out.append(m.as_str());
            },
            Error::Unsupported(m) => {
                out.append("unsupported on this OS: ");
                out.append(m);
            },
            Error::Http(m) => {
                out.append("http: ");
                out.append(m.as_str());
            },
            Error::Auth(m) => {
                out.append("auth: ");
                out.append(m.as_str());
            },
            Error::Upstream { host, port, message } => {
                out.append("upstream ");
                out.append(host.as_str());
                out.append(":");
                push_decimal(&mut out, *port as u64);
                out.append(": ");
                out.append(message.as_str());
            },
            Error::Io(m) => {
                out.append(m.as_str());
            },
        }
        assert(out@ == self@.text());
        out
    }
}

} // verus!
