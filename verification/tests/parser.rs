use nispor_ip::parse::{IpAddress, ip_addr_str_to_enum, parse_ipv4, parse_ipv6};

fn v6(s: &str) -> Option<Vec<u16>> {
    parse_ipv6(s)
}

#[test]
fn ipv4_exact_values() {
    assert_eq!(parse_ipv4("192.0.2.1"), Some((192, 0, 2, 1)));
    assert_eq!(parse_ipv4("0.0.0.0"), Some((0, 0, 0, 0)));
    assert_eq!(parse_ipv4("255.255.255.255"), Some((255, 255, 255, 255)));
}

#[test]
fn ipv4_rejects_malformed() {
    assert_eq!(parse_ipv4("256.0.0.1"), None);
    assert_eq!(parse_ipv4("1.2.3"), None);
    assert_eq!(parse_ipv4("1.2.3.4.5"), None);
    assert_eq!(parse_ipv4("01.2.3.4"), None);
    assert_eq!(parse_ipv4("1.2.3."), None);
    assert_eq!(parse_ipv4(".1.2.3"), None);
    assert_eq!(parse_ipv4("a.b.c.d"), None);
    assert_eq!(parse_ipv4(""), None);
    assert_eq!(parse_ipv4("1.2.3.+4"), None);
}

#[test]
fn ipv6_exact_values() {
    assert_eq!(
        v6("2001:db8::1"),
        Some(vec![0x2001, 0xdb8, 0, 0, 0, 0, 0, 1])
    );
    assert_eq!(v6("::"), Some(vec![0, 0, 0, 0, 0, 0, 0, 0]));
    assert_eq!(v6("::1"), Some(vec![0, 0, 0, 0, 0, 0, 0, 1]));
    assert_eq!(v6("1::"), Some(vec![1, 0, 0, 0, 0, 0, 0, 0]));
    assert_eq!(
        v6("1:2:3:4:5:6:7:8"),
        Some(vec![1, 2, 3, 4, 5, 6, 7, 8])
    );
    assert_eq!(
        v6("fe80::1"),
        Some(vec![0xfe80, 0, 0, 0, 0, 0, 0, 1])
    );
    assert_eq!(
        v6("FFFF::abcd"),
        Some(vec![0xffff, 0, 0, 0, 0, 0, 0, 0xabcd])
    );
}

#[test]
fn ipv6_embedded_ipv4() {
    assert_eq!(
        v6("::ffff:192.0.2.1"),
        Some(vec![0, 0, 0, 0, 0, 0xffff, 0xc000, 0x0201])
    );
    assert_eq!(
        v6("1:2:3:4:5:6:192.0.2.1"),
        Some(vec![1, 2, 3, 4, 5, 6, 0xc000, 0x0201])
    );
    // The quad may only stand at the end.
    assert_eq!(v6("192.0.2.1::1"), None);
    assert_eq!(v6("::192.0.2.1:1"), None);
}

#[test]
fn ipv6_rejects_malformed() {
    assert_eq!(v6(":::"), None);
    assert_eq!(v6("1::2::3"), None);
    assert_eq!(v6("1:2:3:4:5:6:7"), None);
    assert_eq!(v6("1:2:3:4:5:6:7:8:9"), None);
    assert_eq!(v6("1:2:3:4:5:6:7:8::"), None);
    assert_eq!(v6("::1:2:3:4:5:6:7:8"), None);
    assert_eq!(v6("12345::"), None);
    assert_eq!(v6("g::1"), None);
    assert_eq!(v6(":1:2:3:4:5:6:7"), None);
    assert_eq!(v6("1:2:3:4:5:6:7:"), None);
    assert_eq!(v6(":"), None);
    assert_eq!(v6(""), None);
}

#[test]
fn dispatch_by_family() {
    assert_eq!(
        ip_addr_str_to_enum("192.0.2.1"),
        Some(IpAddress::V4 { a: 192, b: 0, c: 2, d: 1 })
    );
    assert_eq!(
        ip_addr_str_to_enum("2001:db8::1"),
        Some(IpAddress::V6 {
            g0: 0x2001,
            g1: 0xdb8,
            g2: 0,
            g3: 0,
            g4: 0,
            g5: 0,
            g6: 0,
            g7: 1
        })
    );
    // A colon forces the IPv6 grammar; a dotted quad alone is IPv4.
    assert_eq!(ip_addr_str_to_enum("not-an-address"), None);
    assert_eq!(ip_addr_str_to_enum("192.0.2.1:1"), None);
}
