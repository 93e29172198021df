use cntlm_next::dial::{
    addresses, all_failed, describe, io_msg, pin_failed, prefer_ipv4, step_failed, Fail, Kind,
    OsError, Pinning, Step, Way, Ways, WSAEACCES, WSAEADDRINUSE,
};
use cntlm_next::ip::{read_socket, SocketAddr};

fn addr(s: &str) -> SocketAddr {
    let chars: Vec<char> = s.chars().collect();
    read_socket(&chars).unwrap()
}

fn os(text: &str, code: Option<i32>) -> OsError {
    OsError {
        kind: Kind::Other,
        text: text.into(),
        code,
    }
}

#[test]
fn prefer_ipv4_keeps_family_order() {
    let a: SocketAddr = addr("1.1.1.1:8080");
    let b: SocketAddr = addr("8.8.8.8:8080");
    let c: SocketAddr = addr("[2001:db8::1]:8080");
    let d: SocketAddr = addr("[2001:db8::2]:8080");
    assert_eq!(prefer_ipv4(vec![c, a, d, b]), vec![a, b, c, d]);
}

#[test]
fn failures_in_words() {
    assert_eq!(
        io_msg(&os("no", Some(-5))),
        "no [raw_os_error=Some(-5)]"
    );
    assert_eq!(io_msg(&os("no", None)), "no [raw_os_error=None]");
    assert_eq!(describe(&os("no", None)), "no");
    assert_eq!(
        describe(&os("no", Some(i32::MIN))),
        "no [raw_os_error=Some(-2147483648)]"
    );
}

#[test]
fn names_without_addresses() {
    assert_eq!(
        addresses("h", 1, Ok(Vec::new())).unwrap_err().display(),
        "upstream h:1: dns: no addresses"
    );
    assert_eq!(
        addresses("h", 1, Err(os("lost", None))).unwrap_err().display(),
        "upstream h:1: dns: lost [raw_os_error=None]"
    );
    let v6 = addr("[::1]:1");
    let v4 = addr("1.2.3.4:1");
    assert_eq!(addresses("h", 1, Ok(vec![v6, v4])).unwrap(), vec![v4, v6]);
}

#[test]
fn all_addresses_failed() {
    let fails = vec![
        (addr("1.2.3.4:1"), os("refused", Some(111))),
        (addr("[::1]:1"), os("timed out", None)),
    ];
    assert_eq!(
        all_failed("h", 1, &fails).display(),
        "upstream h:1: 1.2.3.4:1: refused [raw_os_error=Some(111)]; [::1]:1: timed out"
    );
}

#[test]
fn steps_that_fail() {
    let e = os("bad", Some(3));
    assert_eq!(
        step_failed("h", 1, Step::Task, &e).display(),
        "upstream h:1: connect task: bad"
    );
    assert_eq!(
        step_failed("h", 1, Step::Adopt, &e).display(),
        "upstream h:1: from_std: bad [raw_os_error=Some(3)]"
    );
}

#[test]
fn ways_are_tried_in_turn() {
    let mut ways = Ways::new();
    let mut tried = Vec::new();
    while let Some(way) = ways.next() {
        tried.push(way);
        ways.failed(Fail::new("step", os("denied", Some(WSAEACCES))))
            .unwrap();
    }
    assert_eq!(
        tried,
        vec![Way::Bare, Way::Std, Way::Pinned, Way::NoOverlap]
    );
    let note = "step: denied [raw_os_error=Some(10013)]";
    let last = ways.exhausted("0.2.1");
    assert_eq!(
        last.text,
        format!("ntgate 0.2.1 still WSAEACCES: {note} | {note} | {note} | {note}")
    );
    assert_eq!(last.code, None);
    assert_eq!(last.kind, Kind::PermissionDenied);
    let other = Ways::new()
        .failed(Fail::new("bare/connect", os("refused", Some(10061))))
        .unwrap_err();
    assert_eq!(
        other.text,
        "bare/connect: refused [raw_os_error=Some(10061)]"
    );
    assert_eq!(other.code, None);
    assert_eq!(other.kind, Kind::Other);
}

#[test]
fn local_ports_are_tried_in_turn() {
    let mut pin = Pinning::new();
    let mut ports = Vec::new();
    while let Some(port) = pin.next() {
        ports.push(port);
        let code = if ports.len() % 2 == 0 {
            WSAEACCES
        } else {
            WSAEADDRINUSE
        };
        pin.failed(port, os("x", Some(code))).unwrap();
    }
    assert_eq!(
        ports,
        vec![
            49152, 50000, 52000, 54000, 56000, 58000, 60000, 62000, 20000, 25000, 30000, 35000,
            40000, 45000
        ]
    );
    let fail = pin.exhausted(os("denied", Some(WSAEACCES)));
    assert!(fail.is_acces());
    assert_eq!(
        fail.display(),
        "pin bind WSAEACCES x7 in-use x7: denied [raw_os_error=Some(10013)]"
    );
    let busy = Pinning {
        acces: 0,
        in_use: 14,
    };
    assert_eq!(
        busy.exhausted(os("denied", Some(WSAEACCES))).display(),
        "pin in-use x14: no free local port [raw_os_error=None]"
    );
    assert_eq!(
        busy.exhausted(os("denied", Some(WSAEACCES))).err.kind,
        Kind::AddrInUse
    );
    let mut pin = Pinning::new();
    let other = pin.failed(49152, os("gone", Some(1))).unwrap_err();
    assert!(!other.is_acces());
    assert_eq!(other.display(), "pin49152/bind: gone [raw_os_error=Some(1)]");
    assert_eq!(
        pin_failed(1, "connect", os("x", None)).display(),
        "pin1/connect: x [raw_os_error=None]"
    );
}

#[test]
fn preferring_ipv4_twice_changes_nothing() {
    let a = addr("1.1.1.1:1");
    let b = addr("[::2]:2");
    let c = addr("3.3.3.3:3");
    let once = prefer_ipv4(vec![b, c, a, b]);
    assert_eq!(once, vec![c, a, b, b]);
    assert_eq!(prefer_ipv4(once.clone()), once);
}
