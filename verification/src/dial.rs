//! Connecting to a host: which addresses are tried, in which ways, and what is
//! said where all of them fail.
use crate::error::{Error, ErrorView};
use crate::filter::{lemma_filter_all, lemma_filter_none};
use crate::ip::{IpAddr, SocketAddr};
use crate::number::{decimal, push_decimal, push_signed, signed};
use crate::text::{join, joined};
use vstd::prelude::*;
use vstd::string::StringExecFns;

verus! {

/// Windows refuses the call.
pub const WSAEACCES: i32 = 10013;

/// The local port is taken.
pub const WSAEADDRINUSE: i32 = 10048;

/// What kind of failure it is, as far as a kind is told apart.
#[derive(Debug, Clone, Copy, PartialEq, Eq, Structural)]
pub enum Kind {
    /// What was asked is not permitted.
    PermissionDenied,
    /// The local address is taken.
    AddrInUse,
    /// Any other.
    Other,
}

/// A failure of the operating system: its kind, its words, and its code where it
/// has one.
#[derive(Debug)]
pub struct OsError {
    pub kind: Kind,
    pub text: String,
    pub code: Option<i32>,
}

/// A failure of the operating system, with its words as a sequence.
pub struct OsErrorView {
    pub kind: Kind,
    pub text: Seq<char>,
    pub code: Option<i32>,
}

impl View for OsError {
    type V = OsErrorView;

    open spec fn view(&self) -> OsErrorView {
        OsErrorView { kind: self.kind, text: self.text@, code: self.code }
    }
}

impl DeepView for OsError {
    type V = OsErrorView;

    open spec fn deep_view(&self) -> OsErrorView {
        self@
    }
}

/// A code as it is shown.
pub open spec fn code_text(code: Option<i32>) -> Seq<char> {
    match code {
        Some(n) => "Some("@ + signed(n as int) + ")"@,
        None => "None"@,
    }
}

impl OsErrorView {
    /// The failure with its code.
    pub open spec fn message(self) -> Seq<char> {
        self.text + " [raw_os_error="@ + code_text(self.code) + "]"@
    }

    /// The failure, with its code where it has one.
    pub open spec fn description(self) -> Seq<char> {
        if self.code is None {
            self.text
        } else {
            self.message()
        }
    }
}

/// The failure with its code.
pub fn io_msg(err: &OsError) -> (r: String)
    ensures
        r@ == err@.message(),
{
    let mut out = err.text.clone();
    out.append(" [raw_os_error=");
    match err.code {
        Some(n) => {
            out.append("Some(");
            push_signed(&mut out, n);
            out.append(")");
        },
        None => {
            out.append("None");
        },
    }
    out.append("]");
    assert(out@ == err@.message());
    out
}

/// The failure, with its code where it has one.
pub fn describe(err: &OsError) -> (r: String)
    ensures
        r@ == err@.description(),
{
    if err.code.is_none() {
        err.text.clone()
    } else {
        io_msg(err)
    }
}

/// Whether a socket address is an IPv4 one.
pub open spec fn is_v4(addr: SocketAddr) -> bool {
    addr.ip is V4
}

/// The IPv4 addresses before the others, each in their order.
pub open spec fn v4_first(addrs: Seq<SocketAddr>) -> Seq<SocketAddr> {
    addrs.filter(|a: SocketAddr| is_v4(a)) + addrs.filter(|a: SocketAddr| !is_v4(a))
}

/// Puts the IPv4 addresses before the others, each in their order.
pub fn prefer_ipv4(addrs: Vec<SocketAddr>) -> (r: Vec<SocketAddr>)
    ensures
        r@ == v4_first(addrs@),
{
    let ghost old4 = |a: SocketAddr| is_v4(a);
    let ghost new6 = |a: SocketAddr| !is_v4(a);
    let mut v4: Vec<SocketAddr> = Vec::new();
    let mut v6: Vec<SocketAddr> = Vec::new();
    proof {
        reveal(Seq::filter);
        assert(v4@ == addrs@.take(0).filter(old4));
        assert(v6@ == addrs@.take(0).filter(new6));
    }
    for i in 0..addrs.len()
        invariant
            old4 == (|a: SocketAddr| is_v4(a)),
            new6 == (|a: SocketAddr| !is_v4(a)),
            v4@ == addrs@.take(i as int).filter(old4),
            v6@ == addrs@.take(i as int).filter(new6),
    {
        proof {
            reveal(Seq::filter);
            assert(addrs@.take(i + 1).drop_last() == addrs@.take(i as int));
        }
        let addr = addrs[i];
        match addr.ip {
            IpAddr::V4(_) => v4.push(addr),
            IpAddr::V6(_) => v6.push(addr),
        }
    }
    assert(addrs@.take(addrs@.len() as int) == addrs@);
    v4.append(&mut v6);
    v4
}

/// Putting the IPv4 addresses first loses no address and adds none.
pub proof fn v4_first_keeps_all(addrs: Seq<SocketAddr>)
    ensures
        v4_first(addrs).to_multiset() == addrs.to_multiset(),
        v4_first(addrs).len() == addrs.len(),
    decreases addrs.len(),
{
    broadcast use vstd::seq_lib::group_to_multiset_ensures;

    reveal(Seq::filter);
    let a = addrs.filter(|a: SocketAddr| is_v4(a));
    let b = addrs.filter(|a: SocketAddr| !is_v4(a));
    vstd::seq_lib::lemma_multiset_commutative(a, b);
    if addrs.len() > 0 {
        let rest = addrs.drop_last();
        let last = addrs.last();
        v4_first_keeps_all(rest);
        let c = rest.filter(|a: SocketAddr| is_v4(a));
        let d = rest.filter(|a: SocketAddr| !is_v4(a));
        vstd::seq_lib::lemma_multiset_commutative(c, d);
        assert(rest.push(last) == addrs);
        if is_v4(last) {
            assert(a == c.push(last) && b == d);
        } else {
            assert(a == c && b == d.push(last));
        }
        assert(a.to_multiset().add(b.to_multiset()) == addrs.to_multiset());
    }
}

/// Putting the IPv4 addresses first keeps the order within each family, and
/// done once more it changes nothing.
pub proof fn v4_first_keeps_order(addrs: Seq<SocketAddr>)
    ensures
        v4_first(addrs).filter(|a: SocketAddr| is_v4(a)) == addrs.filter(|a: SocketAddr| is_v4(a)),
        v4_first(addrs).filter(|a: SocketAddr| !is_v4(a)) == addrs.filter(
            |a: SocketAddr| !is_v4(a),
        ),
        v4_first(v4_first(addrs)) == v4_first(addrs),
{
    let old4 = |a: SocketAddr| is_v4(a);
    let new6 = |a: SocketAddr| !is_v4(a);
    let a = addrs.filter(old4);
    let b = addrs.filter(new6);
    assert(forall|i: int| 0 <= i < a.len() ==> old4(#[trigger] a[i]));
    assert(forall|i: int| 0 <= i < b.len() ==> new6(#[trigger] b[i]));
    lemma_filter_all(a, old4);
    lemma_filter_none(b, old4);
    lemma_filter_none(a, new6);
    lemma_filter_all(b, new6);
    Seq::filter_distributes_over_add(a, b, old4);
    Seq::filter_distributes_over_add(a, b, new6);
    assert(a + Seq::<SocketAddr>::empty() == a);
    assert(Seq::<SocketAddr>::empty() + b == b);
}

/// An upstream failure with a message.
pub fn upstream(host: &str, port: u16, message: String) -> (r: Error)
    ensures
        r@ == (ErrorView::Upstream { host: host@, port, message: message@ }),
{
    Error::Upstream { host: host.to_owned(), port, message }
}

/// The addresses to try, where looking up the name gave these, or what is said
/// where there are none.
pub open spec fn addresses_of(
    host: Seq<char>,
    port: u16,
    found: Result<Seq<SocketAddr>, OsErrorView>,
) -> Result<Seq<SocketAddr>, ErrorView> {
    match found {
        Ok(addrs) => if addrs.len() == 0 {
            Err(ErrorView::Upstream { host, port, message: "dns: no addresses"@ })
        } else {
            Ok(v4_first(addrs))
        },
        Err(e) => Err(ErrorView::Upstream { host, port, message: "dns: "@ + e.message() }),
    }
}

/// Takes what looking up a name gave, and gives the addresses to try, in order.
pub fn addresses(host: &str, port: u16, found: Result<Vec<SocketAddr>, OsError>) -> (r: Result<
    Vec<SocketAddr>,
    Error,
>)
    ensures
        ({
            let seen = match found {
                Ok(v) => Ok(v@),
                Err(e) => Err(e@),
            };
            match r {
                Ok(v) => addresses_of(host@, port, seen) == Ok::<Seq<SocketAddr>, ErrorView>(v@),
                Err(e) => addresses_of(host@, port, seen) == Err::<Seq<SocketAddr>, ErrorView>(e@),
            }
        }),
{
    match found {
        Ok(addrs) => {
            if addrs.len() == 0 {
                Err(upstream(host, port, "dns: no addresses".to_owned()))
            } else {
                Ok(prefer_ipv4(addrs))
            }
        },
        Err(e) => {
            let message = "dns: ".to_owned().concat(io_msg(&e).as_str());
            Err(upstream(host, port, message))
        },
    }
}

/// What is said of one address that failed.
pub open spec fn attempt_text(addr: SocketAddr, err: OsErrorView) -> Seq<char> {
    addr.text() + ": "@ + err.description()
}

/// What is said of the addresses that failed, in their order.
pub open spec fn attempt_texts(fails: Seq<(SocketAddr, OsErrorView)>) -> Seq<Seq<char>> {
    fails.map_values(|f: (SocketAddr, OsErrorView)| attempt_text(f.0, f.1))
}

/// The addresses that failed, with the failures in sequences.
pub open spec fn fail_views(fails: Seq<(SocketAddr, OsError)>) -> Seq<(SocketAddr, OsErrorView)> {
    fails.map_values(|f: (SocketAddr, OsError)| (f.0, f.1@))
}

/// What is said where all addresses failed.
pub fn all_failed(host: &str, port: u16, fails: &[(SocketAddr, OsError)]) -> (r: Error)
    ensures
        r@ == (ErrorView::Upstream {
            host: host@,
            port,
            message: joined(attempt_texts(fail_views(fails@)), "; "@),
        }),
{
    let mut texts: Vec<String> = Vec::new();
    let ghost all = attempt_texts(fail_views(fails@));
    for i in 0..fails.len()
        invariant
            all == attempt_texts(fail_views(fails@)),
            texts.deep_view() == all.take(i as int),
    {
        let ghost done = texts.deep_view();
        let mut text = fails[i].0.display();
        text.append(": ");
        text.append(describe(&fails[i].1).as_str());
        texts.push(text);
        assert(texts.deep_view() == done.push(all[i as int]));
        assert(all.take(i + 1) == done.push(all[i as int]));
    }
    assert(all.take(all.len() as int) == all);
    upstream(host, port, join(texts.as_slice(), "; "))
}

/// A failure of one way to connect, with the call that failed.
#[derive(Debug)]
pub struct Fail {
    pub step: String,
    pub err: OsError,
}

impl Fail {
    /// The failure in text.
    pub open spec fn text(&self) -> Seq<char> {
        self.step@ + ": "@ + self.err@.message()
    }

    /// A failure of the call `step`.
    pub fn new(step: &str, err: OsError) -> (r: Fail)
        ensures
            r.step@ == step@,
            r.err == err,
    {
        Fail { step: step.to_owned(), err }
    }

    /// Whether Windows refused the call, so that another way may still succeed.
    pub fn is_acces(&self) -> (r: bool)
        ensures
            r == (self.err.code == Some(WSAEACCES)),
    {
        match self.err.code {
            Some(n) => n == WSAEACCES,
            None => false,
        }
    }

    /// The failure in text.
    pub fn display(&self) -> (r: String)
        ensures
            r@ == self.text(),
    {
        let mut out = self.step.clone();
        out.append(": ");
        out.append(io_msg(&self.err).as_str());
        assert(out@ == self.text());
        out
    }
}

/// A way to connect on Windows.
#[derive(Debug, Clone, Copy, PartialEq, Eq, Structural)]
pub enum Way {
    /// A plain socket without options.
    Bare,
    /// The standard library's own.
    Std,
    /// A socket bound to a fixed local port.
    Pinned,
    /// A socket without overlapped input and output.
    NoOverlap,
}

/// The ways to connect to one address, one after the other.
#[derive(Debug)]
pub struct Ways {
    /// What is said of the ways that Windows refused.
    pub notes: Vec<String>,
}

/// The way to try after `n` were refused.
pub open spec fn way_after(n: nat) -> Option<Way> {
    if n == 0 {
        Some(Way::Bare)
    } else if n == 1 {
        Some(Way::Std)
    } else if n == 2 {
        Some(Way::Pinned)
    } else if n == 3 {
        Some(Way::NoOverlap)
    } else {
        None
    }
}

impl Ways {
    /// The texts of the ways that Windows refused.
    pub open spec fn refused(&self) -> Seq<Seq<char>> {
        self.notes.deep_view()
    }

    /// No way has been tried.
    pub fn new() -> (r: Ways)
        ensures
            r.refused() == Seq::<Seq<char>>::empty(),
    {
        let r = Ways { notes: Vec::new() };
        assert(r.refused() == Seq::<Seq<char>>::empty());
        r
    }

    /// The way to try next; none where all were refused.
    pub fn next(&self) -> (r: Option<Way>)
        ensures
            r == way_after(self.refused().len()),
    {
        let n: usize = self.notes.len();
        if n == 0 {
            Some(Way::Bare)
        } else if n == 1 {
            Some(Way::Std)
        } else if n == 2 {
            Some(Way::Pinned)
        } else if n == 3 {
            Some(Way::NoOverlap)
        } else {
            None
        }
    }

    /// Takes the failure of a way. One that Windows refused is noted, and the
    /// next way is tried; any other ends the attempt.
    pub fn failed(&mut self, fail: Fail) -> (r: Result<(), OsError>)
        ensures
            match r {
                Ok(_) => {
                    &&& fail.err.code == Some(WSAEACCES)
                    &&& final(self).refused() == old(self).refused().push(fail.text())
                },
                Err(e) => {
                    &&& fail.err.code != Some(WSAEACCES)
                    &&& e@ == (OsErrorView {
                        kind: Kind::Other,
                        text: fail.text(),
                        code: None,
                    })
                    &&& final(self).refused() == old(self).refused()
                },
            },
    {
        if fail.is_acces() {
            self.notes.push(fail.display());
            assert(self.refused() == old(self).refused().push(fail.text()));
            Ok(())
        } else {
            Err(OsError { kind: Kind::Other, text: fail.display(), code: None })
        }
    }

    /// What is said where Windows refused all ways.
    pub fn exhausted(&self, version: &str) -> (r: OsError)
        ensures
            r@ == (OsErrorView {
                kind: Kind::PermissionDenied,
                text: "ntgate "@ + version@ + " still WSAEACCES: "@ + joined(
                    self.refused(),
                    " | "@,
                ),
                code: None,
            }),
    {
        let mut text = "ntgate ".to_owned();
        text.append(version);
        text.append(" still WSAEACCES: ");
        text.append(join(self.notes.as_slice(), " | ").as_str());
        OsError { kind: Kind::PermissionDenied, text, code: None }
    }
}

/// The local ports to bind to, one after the other. Windows hands out ports
/// that it then refuses where they lie in a range set aside for Hyper-V.
pub open spec fn pinned_ports() -> Seq<u16> {
    seq![
        49152,
        50000,
        52000,
        54000,
        56000,
        58000,
        60000,
        62000,
        20000,
        25000,
        30000,
        35000,
        40000,
        45000,
    ]
}

/// The search for a local port to bind to.
#[derive(Debug, Clone, Copy, PartialEq, Eq, Structural)]
pub struct Pinning {
    /// How many ports Windows refused.
    pub acces: u32,
    /// How many ports were taken.
    pub in_use: u32,
}

/// The call `name` on a socket bound to `port`.
pub open spec fn pin_step(port: u16, name: Seq<char>) -> Seq<char> {
    "pin"@ + decimal(port as nat) + "/"@ + name
}

/// The failure of the call `name` on a socket bound to `port`.
pub fn pin_failed(port: u16, name: &str, err: OsError) -> (r: Fail)
    ensures
        r.step@ == pin_step(port, name@),
        r.err == err,
{
    let mut step = "pin".to_owned();
    push_decimal(&mut step, port as u64);
    step.append("/");
    step.append(name);
    assert(step@ == pin_step(port, name@));
    Fail { step, err }
}

impl Pinning {
    /// How many ports have been tried.
    pub open spec fn tried(self) -> nat {
        (self.acces + self.in_use) as nat
    }

    /// Whether no more ports have been tried than there are.
    pub open spec fn wf(self) -> bool {
        self.tried() <= pinned_ports().len()
    }

    /// No port has been tried.
    pub fn new() -> (r: Pinning)
        ensures
            r.wf(),
            r.acces == 0,
            r.in_use == 0,
    {
        Pinning { acces: 0, in_use: 0 }
    }

    /// The port to try next; none where all were tried.
    pub fn next(&self) -> (r: Option<u16>)
        requires
            self.wf(),
        ensures
            match r {
                Some(port) => self.tried() < pinned_ports().len() && port
                    == pinned_ports()[self.tried() as int],
                None => self.tried() == pinned_ports().len(),
            },
    {
        let ports: [u16; 14] = [
            49152,
            50000,
            52000,
            54000,
            56000,
            58000,
            60000,
            62000,
            20000,
            25000,
            30000,
            35000,
            40000,
            45000,
        ];
        assert(ports@ == pinned_ports());
        let n: u32 = self.acces + self.in_use;
        if n < 14 {
            Some(ports[n as usize])
        } else {
            None
        }
    }

    /// Takes the failure to bind to `port`. One that Windows refused or that is
    /// taken is counted, and the next is tried; any other failure ends the
    /// search.
    pub fn failed(&mut self, port: u16, err: OsError) -> (r: Result<(), Fail>)
        requires
            old(self).wf(),
            old(self).tried() < pinned_ports().len(),
        ensures
            final(self).wf(),
            match r {
                Ok(_) => {
                    ||| {
                        &&& err.code == Some(WSAEACCES)
                        &&& final(self).acces == old(self).acces + 1
                        &&& final(self).in_use == old(self).in_use
                    }
                    ||| {
                        &&& err.code == Some(WSAEADDRINUSE)
                        &&& final(self).acces == old(self).acces
                        &&& final(self).in_use == old(self).in_use + 1
                    }
                },
                Err(f) => {
                    &&& err.code != Some(WSAEACCES)
                    &&& err.code != Some(WSAEADDRINUSE)
                    &&& f.step@ == pin_step(port, "bind"@)
                    &&& f.err == err
                    &&& *final(self) == *old(self)
                },
            },
    {
        match err.code {
            Some(n) => {
                if n == WSAEACCES {
                    self.acces = self.acces + 1;
                    return Ok(());
                }
                if n == WSAEADDRINUSE {
                    self.in_use = self.in_use + 1;
                    return Ok(());
                }
            },
            None => {},
        }
        Err(pin_failed(port, "bind", err))
    }

    /// What is said where all ports failed; `denied` is the failure that
    /// Windows' refusal stands for.
    pub fn exhausted(&self, denied: OsError) -> (r: Fail)
        ensures
            if self.acces > 0 {
                &&& r.step@ == "pin bind WSAEACCES x"@ + decimal(self.acces as nat) + " in-use x"@
                    + decimal(self.in_use as nat)
                &&& r.err == denied
            } else {
                &&& r.step@ == "pin in-use x"@ + decimal(self.in_use as nat)
                &&& r.err@ == (OsErrorView {
                    kind: Kind::AddrInUse,
                    text: "no free local port"@,
                    code: None,
                })
            },
    {
        if self.acces > 0 {
            let mut step = "pin bind WSAEACCES x".to_owned();
            push_decimal(&mut step, self.acces as u64);
            step.append(" in-use x");
            push_decimal(&mut step, self.in_use as u64);
            Fail { step, err: denied }
        } else {
            let mut step = "pin in-use x".to_owned();
            push_decimal(&mut step, self.in_use as u64);
            Fail {
                step,
                err: OsError {
                    kind: Kind::AddrInUse,
                    text: "no free local port".to_owned(),
                    code: None,
                },
            }
        }
    }
}

/// A step of taking up a connection after the addresses were tried.
#[derive(Debug, Clone, Copy, PartialEq, Eq, Structural)]
pub enum Step {
    /// The task that connects came to an end of its own.
    Task,
    /// The connection could not be taken over.
    Adopt,
}

/// What is said where a step fails.
pub open spec fn step_text(step: Step, err: OsErrorView) -> Seq<char> {
    match step {
        Step::Task => "connect task: "@ + err.text,
        Step::Adopt => "from_std: "@ + err.message(),
    }
}

/// The failure of a step.
pub fn step_failed(host: &str, port: u16, step: Step, err: &OsError) -> (r: Error)
    ensures
        r@ == (ErrorView::Upstream { host: host@, port, message: step_text(step, err@) }),
{
    let message = match step {
        Step::Task => "connect task: ".to_owned().concat(err.text.as_str()),
        Step::Adopt => "from_std: ".to_owned().concat(io_msg(err).as_str()),
    };
    upstream(host, port, message)
}

} // verus!
