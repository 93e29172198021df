//! The ways to connect, and what is said where they fail.
use crate::dial::{
    addresses_of, attempt_texts, code_text, pin_step, pinned_ports, step_text, v4_first,
    v4_first_keeps_all, way_after, Fail, OsErrorView, Step, WSAEACCES, WSAEADDRINUSE, Way,
};
use crate::error::ErrorView;
use crate::ip::SocketAddr;
use crate::number::{decimal, signed};
use vstd::prelude::*;

verus! {

/// All IPv4 addresses are tried before any IPv6 address, and each family in the
/// order in which it came.
pub proof fn ipv4_goes_first(addrs: Seq<SocketAddr>)
    ensures
        v4_first(addrs) == addrs.filter(|a: SocketAddr| a.ip is V4) + addrs.filter(
            |a: SocketAddr| a.ip is V6,
        ),
        forall|i: int, j: int|
            0 <= i < j < v4_first(addrs).len() && (#[trigger] v4_first(addrs)[j]).ip is V4 ==> (
            #[trigger] v4_first(addrs)[i]).ip is V4,
        v4_first(addrs).len() == addrs.len(),
{
    let old4 = |a: SocketAddr| a.ip is V4;
    let new6 = |a: SocketAddr| a.ip is V6;
    assert((|a: SocketAddr| crate::dial::is_v4(a)) =~= old4);
    assert((|a: SocketAddr| !crate::dial::is_v4(a)) =~= new6);
    let a = addrs.filter(old4);
    let b = addrs.filter(new6);
    assert(forall|i: int| 0 <= i < a.len() ==> old4(#[trigger] a[i]));
    assert(forall|i: int| 0 <= i < b.len() ==> new6(#[trigger] b[i]));
    v4_first_keeps_all(addrs);
    let all = v4_first(addrs);
    assert forall|i: int, j: int|
        0 <= i < j < all.len() && (#[trigger] all[j]).ip is V4 implies (#[trigger] all[i]).ip is V4 by {
        if j >= a.len() {
            assert(all[j] == b[j - a.len()]);
            assert(new6(b[j - a.len()]));
        } else {
            assert(all[i] == a[i]);
            assert(old4(a[i]));
        }
    }
}

/// A name that gives no addresses, or cannot be looked up, is a failure to reach
/// the host.
pub proof fn names_have_to_give_addresses(
    host: Seq<char>,
    port: u16,
    addrs: Seq<SocketAddr>,
    err: OsErrorView,
)
    ensures
        addrs.len() > 0 ==> addresses_of(host, port, Ok(addrs)) == Ok::<
            Seq<SocketAddr>,
            ErrorView,
        >(v4_first(addrs)),
        addrs.len() == 0 ==> addresses_of(host, port, Ok(addrs)) == Err::<
            Seq<SocketAddr>,
            ErrorView,
        >(ErrorView::Upstream { host, port, message: "dns: no addresses"@ }),
        addresses_of(host, port, Err(err)) == Err::<Seq<SocketAddr>, ErrorView>(
            ErrorView::Upstream { host, port, message: "dns: "@ + err.message() },
        ),
{
}

/// Four ways are tried on Windows, one after the other: a plain socket, the
/// standard library's, one bound to a fixed local port, and one without
/// overlapped input and output. Only what Windows refuses lets the next be
/// tried.
pub proof fn four_ways_are_tried(n: nat)
    ensures
        WSAEACCES == 10013,
        WSAEADDRINUSE == 10048,
        way_after(0) == Some(Way::Bare),
        way_after(1) == Some(Way::Std),
        way_after(2) == Some(Way::Pinned),
        way_after(3) == Some(Way::NoOverlap),
        n >= 4 ==> way_after(n) is None,
{
}

/// Fourteen fixed local ports are tried, each at most once.
pub proof fn local_ports_are_fixed(i: int, j: int)
    ensures
        pinned_ports() == seq![
            49152u16,
            50000,
            52000,
            54000,
            56000,
            58000,
            60000,
            62000,
            20000,
            25000,
            30000,
            35000,
            40000,
            45000,
        ],
        0 <= i < j < 14 ==> pinned_ports()[i] != pinned_ports()[j],
        0 <= i < 14 ==> pinned_ports()[i] >= 1024,
{
}

/// A failure is told in the system's words with its code, and where only a
/// description is wanted, without the code that it does not have. A call that
/// fails is named in front.
pub proof fn failures_are_told_with_their_code(
    err: OsErrorView,
    code: i32,
    fail: Fail,
    port: u16,
    name: Seq<char>,
    addr: SocketAddr,
)
    ensures
        code_text(None) == "None"@,
        code_text(Some(code)) == "Some("@ + signed(code as int) + seq![')'],
        err.message() == err.text + " [raw_os_error="@ + code_text(err.code) + seq![']'],
        err.code is None ==> err.description() == err.text,
        err.code is Some ==> err.description() == err.message(),
        fail.text() == fail.step@ + seq![':', ' '] + fail.err@.message(),
        pin_step(port, name) == "pin"@ + decimal(port as nat) + seq!['/'] + name,
        attempt_texts(seq![(addr, err)]) == seq![
            addr.text() + seq![':', ' '] + err.description(),
        ],
        step_text(Step::Task, err) == "connect task: "@ + err.text,
        step_text(Step::Adopt, err) == "from_std: "@ + err.message(),
{
    reveal_strlit(")");
    reveal_strlit("]");
    reveal_strlit(": ");
    reveal_strlit("/");
    assert(")"@ == seq![')'] && "]"@ == seq![']'] && ": "@ == seq![':', ' '] && "/"@ == seq!['/']);
    assert(attempt_texts(seq![(addr, err)]) == seq![
        addr.text() + seq![':', ' '] + err.description(),
    ]);
}

/// All addresses that failed are told, in their order.
pub proof fn all_failures_are_told(
    fails: Seq<(SocketAddr, OsErrorView)>,
    more: (SocketAddr, OsErrorView),
)
    ensures
        attempt_texts(fails.push(more)) == attempt_texts(fails) + attempt_texts(seq![more]),
{
    assert(attempt_texts(fails.push(more)) == attempt_texts(fails) + attempt_texts(seq![more]));
}

} // verus!
