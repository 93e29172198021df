//! Asking Windows which proxies lead to a URL: what is asked, in which order,
//! and how the answers are taken.
use crate::config::Mode;
use crate::error::{Error, ErrorView};
use crate::hop::{hops_are, ie_of, parse_ie_proxy_list, Hop, HopView};
use crate::number::{decimal, push_decimal};
use vstd::prelude::*;
use vstd::string::StringExecFns;

verus! {

/// Look for a PAC script on the network.
pub const AUTO_DETECT: u32 = 1;

/// Use the PAC script of a given URL.
pub const CONFIG_URL: u32 = 2;

/// Look for a PAC script by DHCP and by DNS.
pub const DETECT_ANYWHERE: u32 = 3;

/// No PAC script was found on the network.
pub const AUTODETECTION_FAILED: u32 = 12180;

/// A question for the proxies that lead to a URL.
#[derive(Debug)]
pub struct Query {
    /// The URL.
    pub url: String,
    /// The URL of the PAC script, where one is given.
    pub pac: Option<String>,
    /// How a PAC script is found.
    pub flags: u32,
    /// Where a PAC script is looked for.
    pub detect: u32,
}

/// How a PAC script is found.
pub open spec fn flags_of(pac: bool, auto_detect: bool) -> u32 {
    if !pac {
        AUTO_DETECT
    } else if auto_detect {
        3
    } else {
        CONFIG_URL
    }
}

/// A question, with its texts as sequences.
pub struct QueryView {
    pub url: Seq<char>,
    pub pac: Option<Seq<char>>,
    pub flags: u32,
    pub detect: u32,
}

impl View for Query {
    type V = QueryView;

    open spec fn view(&self) -> QueryView {
        QueryView {
            url: self.url@,
            pac: self.pac.deep_view(),
            flags: self.flags,
            detect: self.detect,
        }
    }
}

/// The first form of a question.
pub open spec fn fresh_query(
    url: Seq<char>,
    pac: Option<Seq<char>>,
    auto_detect: bool,
) -> QueryView {
    QueryView {
        url,
        pac,
        flags: flags_of(pac is Some, auto_detect),
        detect: DETECT_ANYWHERE,
    }
}

impl Query {
    /// A question, with a PAC script and with a look on the network as given.
    pub fn new(url: &str, pac: Option<&str>, auto_detect: bool) -> (r: Query)
        ensures
            r@ == fresh_query(url@, pac.deep_view(), auto_detect),
    {
        let flags: u32 = match pac {
            None => AUTO_DETECT,
            Some(_) => if auto_detect {
                3
            } else {
                CONFIG_URL
            },
        };
        let pac = match pac {
            Some(p) => Some(p.to_owned()),
            None => None,
        };
        Query { url: url.to_owned(), pac, flags, detect: DETECT_ANYWHERE }
    }

    /// Takes the error code of a question that failed. A question with a PAC
    /// script that failed for want of one on the network is put once more,
    /// for the script alone; `second` tells that this has been done.
    pub fn failed(&mut self, code: u32, second: bool) -> (r: Result<(), Error>)
        ensures
            final(self).url@ == old(self).url@,
            final(self).pac.deep_view() == old(self).pac.deep_view(),
            match r {
                Ok(_) => {
                    &&& code == AUTODETECTION_FAILED && old(self).pac is Some && !second
                    &&& final(self).flags == CONFIG_URL
                    &&& final(self).detect == 0
                },
                Err(e) => {
                    &&& code != AUTODETECTION_FAILED || old(self).pac is None || second
                    &&& e@ == ErrorView::Message(
                        "WinHttpGetProxyForUrl failed: "@ + decimal(code as nat),
                    )
                    &&& final(self).flags == old(self).flags
                    &&& final(self).detect == old(self).detect
                },
            },
    {
        if code == AUTODETECTION_FAILED && self.pac.is_some() && !second {
            self.flags = CONFIG_URL;
            self.detect = 0;
            return Ok(());
        }
        let mut message = "WinHttpGetProxyForUrl failed: ".to_owned();
        push_decimal(&mut message, code as u64);
        Err(Error::Message(message))
    }
}

/// What is said where no session could be opened.
pub fn open_failed(code: u32) -> (r: Error)
    ensures
        r@ == ErrorView::Message("WinHttpOpen failed: "@ + decimal(code as nat)),
{
    let mut message = "WinHttpOpen failed: ".to_owned();
    push_decimal(&mut message, code as u64);
    Error::Message(message)
}

/// The hops that an answered question gives.
pub open spec fn found_of(list: Option<Seq<char>>) -> Result<Seq<HopView>, ErrorView> {
    match list {
        Some(s) => ie_of(s),
        None => Ok(seq![HopView::Direct]),
    }
}

/// Takes the proxy list that an answered question gives. No list means that no
/// proxy is needed.
pub fn found(list: Option<&str>) -> (r: Result<Vec<Hop>, Error>)
    ensures
        hops_are(r, found_of(list.deep_view())),
{
    match list {
        Some(s) => parse_ie_proxy_list(s),
        None => {
            let mut out: Vec<Hop> = Vec::new();
            out.push(Hop::Direct);
            assert(out.deep_view() == seq![HopView::Direct]);
            Ok(out)
        },
    }
}

/// What is to be asked.
#[derive(Debug)]
pub enum Question {
    /// What the user's own proxy settings lead to for a URL.
    Settings(String),
    /// One question, whose failure is final.
    Url(Query),
}

/// What is to be asked, with its texts as sequences.
pub enum QuestionView {
    Settings(Seq<char>),
    Url(QueryView),
}

impl View for Question {
    type V = QuestionView;

    open spec fn view(&self) -> QuestionView {
        match *self {
            Question::Settings(url) => QuestionView::Settings(url@),
            Question::Url(query) => QuestionView::Url(query@),
        }
    }
}

/// The question that a mode puts.
pub open spec fn question_of(url: Seq<char>, pac: Option<Seq<char>>, mode: Mode) -> Result<
    QuestionView,
    ErrorView,
> {
    match mode {
        Mode::Pac => match pac {
            Some(_) => Ok(QuestionView::Url(fresh_query(url, pac, false))),
            None => Err(ErrorView::Config("pac URL is empty"@)),
        },
        Mode::System => Ok(QuestionView::Settings(url)),
        Mode::Proxy => Err(ErrorView::Message("internal: system resolver called in proxy mode"@)),
    }
}

/// Whether `r` is the outcome `s`.
pub open spec fn question_is(
    r: Result<Question, Error>,
    s: Result<QuestionView, ErrorView>,
) -> bool {
    match r {
        Ok(q) => s == Ok::<QuestionView, ErrorView>(q@),
        Err(e) => s == Err::<QuestionView, ErrorView>(e@),
    }
}

/// Tells what is to be asked in a mode.
pub fn resolve(url: &str, pac: Option<&str>, mode: Mode) -> (r: Result<Question, Error>)
    ensures
        question_is(r, question_of(url@, pac.deep_view(), mode)),
{
    match mode {
        Mode::Pac => match pac {
            Some(_) => Ok(Question::Url(Query::new(url, pac, false))),
            None => Err(Error::Config("pac URL is empty".to_owned())),
        },
        Mode::System => Ok(Question::Settings(url.to_owned())),
        Mode::Proxy => Err(Error::msg("internal: system resolver called in proxy mode")),
    }
}

/// The current user's proxy settings.
#[derive(Debug)]
pub struct IeConfig {
    pub auto_detect: bool,
    pub auto_config_url: Option<String>,
    pub proxy: Option<String>,
}

/// The text, unless it is empty.
pub open spec fn filled(s: Option<Seq<char>>) -> Option<Seq<char>> {
    match s {
        Some(t) => if t.len() > 0 {
            Some(t)
        } else {
            None
        },
        None => None,
    }
}

fn filled_text(s: &Option<String>) -> (r: Option<&str>)
    ensures
        r.deep_view() == filled(s.deep_view()),
{
    match s {
        Some(t) => if t.as_str().is_empty() {
            None
        } else {
            Some(t.as_str())
        },
        None => None,
    }
}

/// What is asked first of the user's settings, if anything: by the PAC script
/// that they name, else by one on the network where they say so.
pub open spec fn first_of(url: Seq<char>, ie: Option<IeConfig>) -> Option<QueryView> {
    match ie {
        Some(ie) => {
            let pac = filled(ie.auto_config_url.deep_view());
            if pac is Some {
                Some(fresh_query(url, pac, ie.auto_detect))
            } else if ie.auto_detect {
                Some(fresh_query(url, None, true))
            } else {
                None
            }
        },
        None => None,
    }
}

/// What is asked first where there are these settings, if anything.
pub fn first_question(url: &str, ie: &Option<IeConfig>) -> (r: Option<Query>)
    ensures
        match r {
            Some(q) => first_of(url@, *ie) == Some(q@),
            None => first_of(url@, *ie) is None,
        },
{
    match ie {
        Some(ie) => {
            let pac = filled_text(&ie.auto_config_url);
            if pac.is_some() {
                Some(Query::new(url, pac, ie.auto_detect))
            } else if ie.auto_detect {
                Some(Query::new(url, None, true))
            } else {
                None
            }
        },
        None => None,
    }
}

/// What is done where the first question failed or was not put.
#[derive(Debug)]
pub enum Fallback {
    /// The hops of the proxy list in the settings stand.
    Hops(Result<Vec<Hop>, Error>),
    /// One more question is put, whose failure is final.
    Ask(Query),
}

/// Whether `r` is what is done where the first question failed or was not put.
pub open spec fn fallback_is(r: Fallback, url: Seq<char>, ie: Option<IeConfig>) -> bool {
    let list = match ie {
        Some(ie) => filled(ie.proxy.deep_view()),
        None => None,
    };
    match list {
        Some(s) => r matches Fallback::Hops(hops) && hops_are(hops, ie_of(s)),
        None => r matches Fallback::Ask(q) && q@ == fresh_query(url, None, true),
    }
}

/// What is done where the first question failed or was not put.
pub fn fallback(url: &str, ie: &Option<IeConfig>) -> (r: Fallback)
    ensures
        fallback_is(r, url@, *ie),
{
    if let Some(ie) = ie {
        if let Some(list) = filled_text(&ie.proxy) {
            return Fallback::Hops(parse_ie_proxy_list(list));
        }
    }
    Fallback::Ask(Query::new(url, None, true))
}

} // verus!
