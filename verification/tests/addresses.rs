use cntlm_next::ip::{read_ip, read_socket, IpAddr, SocketAddr};

fn chars(s: &str) -> Vec<char> {
    s.chars().collect()
}

fn shown(s: &str) -> Option<String> {
    read_ip(&chars(s)).map(|a| a.display())
}

#[test]
fn addresses_that_are_read() {
    let texts = [
        ("0.0.0.0", "0.0.0.0"),
        ("255.255.255.255", "255.255.255.255"),
        ("1.2.3.4", "1.2.3.4"),
        ("::", "::"),
        ("::1", "::1"),
        ("1::", "1::"),
        ("1::2", "1::2"),
        ("1:2:3:4:5:6:7:8", "1:2:3:4:5:6:7:8"),
        ("1:2:3:4:5:6:7::", "1:2:3:4:5:6:7:0"),
        ("::2:3:4:5:6:7:8", "0:2:3:4:5:6:7:8"),
        ("1:0:0:2:0:0:0:3", "1:0:0:2::3"),
        ("1:0:0:2:0:0:3:4", "1::2:0:0:3:4"),
        ("1:0:2:0:3:0:4:0", "1:0:2:0:3:0:4:0"),
        ("ffff:ABCD::0034", "ffff:abcd::34"),
        ("::ffff:1.2.3.4", "::ffff:1.2.3.4"),
        ("::FFFF:0102:304", "::ffff:1.2.3.4"),
        ("::1.2.3.4", "::102:304"),
        ("1:2:3:4:5:6:1.2.3.4", "1:2:3:4:5:6:102:304"),
        ("::ffff:0:0", "::ffff:0.0.0.0"),
        ("0:0:0:0:0:0:0:0", "::"),
        ("0:0:0:0:0:1:0:0", "::1:0:0"),
        ("2001:db8::ff00:42:8329", "2001:db8::ff00:42:8329"),
    ];
    for (text, want) in texts {
        assert_eq!(shown(text).as_deref(), Some(want), "{text}");
        assert_eq!(shown(want).as_deref(), Some(want), "{want}");
    }
}

#[test]
fn addresses_that_are_none() {
    let texts = [
        "",
        "01.2.3.4",
        "1.2.3",
        "1.2.3.4.5",
        "256.1.1.1",
        "1..2.3",
        " 1.2.3.4",
        "+1.2.3.4",
        "1:2:3:4:5:6:7",
        "1:2:3:4:5:6:7:8:9",
        "1::2:3:4:5:6:7:8",
        "FFFF:abcd::12345",
        "1:2:3:4:5:6:7:1.2.3.4",
        "1.2.3.4::",
        "::1.2.3.4:5",
        ":::",
        ":1",
        "1:",
        "1::2::3",
        "fe80::1%3",
        "::g",
    ];
    for text in texts {
        assert_eq!(read_ip(&chars(text)), None, "{text}");
    }
}

#[test]
fn bits_of_addresses() {
    assert_eq!(
        read_ip(&chars("10.1.2.3")),
        Some(IpAddr::V4(0x0a01_0203))
    );
    assert_eq!(
        read_ip(&chars("2001:db8::1")),
        Some(IpAddr::V6(0x2001_0db8_0000_0000_0000_0000_0000_0001))
    );
    assert!(IpAddr::V4(0x7f01_0203).is_loopback());
    assert!(!IpAddr::V4(0x8000_0001).is_loopback());
    assert!(IpAddr::V6(1).is_loopback());
    assert!(!IpAddr::V6(0x0000_ffff_7f00_0001).is_loopback());
}

#[test]
fn socket_addresses() {
    let good = [
        ("1.2.3.4:80", "1.2.3.4:80"),
        ("1.2.3.4:0080", "1.2.3.4:80"),
        ("[::1]:80", "[::1]:80"),
        ("[::1%5]:80", "[::1%5]:80"),
        ("[::1%4294967295]:1", "[::1%4294967295]:1"),
        ("[2001:db8::ff00:42:8329]:443", "[2001:db8::ff00:42:8329]:443"),
    ];
    for (text, want) in good {
        let a = read_socket(&chars(text)).unwrap();
        assert_eq!(a.display(), want);
        assert_eq!(read_socket(&chars(want)), Some(a));
    }
    let bad = [
        "",
        "1.2.3.4:65536",
        "1.2.3.4:",
        "1.2.3.4",
        "1.2.3.4:+80",
        "[::1%]:80",
        "[::1%x]:80",
        "[::1%4294967296]:1",
        "[::1]",
        "[::1]80",
        "::1:80",
        "[1.2.3.4]:80",
        "host:80",
    ];
    for text in bad {
        assert_eq!(read_socket(&chars(text)), None, "{text}");
    }
}

#[test]
fn addresses_come_back_from_their_text() {
    let mut bits: u128 = 1;
    for i in 0..2000u32 {
        bits = bits
            .wrapping_mul(6364136223846793005)
            .wrapping_add(1442695040888963407);
        let mut v = bits ^ (bits << 64);
        for g in 0..8 {
            if (i >> g) & 1 == 1 {
                v &= !(0xffffu128 << (16 * g));
            }
        }
        for ip in [IpAddr::V6(v), IpAddr::V4(v as u32)] {
            assert_eq!(read_ip(&chars(&ip.display())), Some(ip));
            let addr = SocketAddr {
                ip,
                port: i as u16,
                scope: 0,
                flow: 0,
            };
            assert_eq!(read_socket(&chars(&addr.display())), Some(addr));
        }
    }
}

#[test]
fn scopes_are_shown() {
    let addr = SocketAddr {
        ip: IpAddr::V6(1),
        port: 80,
        scope: 3,
        flow: 0,
    };
    assert_eq!(addr.display(), "[::1%3]:80");
}
